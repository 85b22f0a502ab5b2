//! Stamping samples with the sender's name and the network's name.
use crate::sample::{batch_view, labels_view, Label, LabelView, Sample, SampleView};
use vstd::prelude::*;

verus! {

/// The name of the label that carries the sender's name.
pub open spec fn peer_key() -> Seq<char> {
    seq!['p', 'e', 'e', 'r']
}

/// The name of the label that carries the network's name.
pub open spec fn network_key() -> Seq<char> {
    seq!['n', 'e', 't', 'w', 'o', 'r', 'k']
}

/// Label names that only enrichment may set.
pub open spec fn is_reserved(name: Seq<char>) -> bool {
    name == peer_key() || name == network_key()
}

/// The labels of `ls` whose names are not reserved, in order.
pub open spec fn kept_labels(ls: Seq<LabelView>) -> Seq<LabelView>
    decreases ls.len(),
{
    if ls.len() == 0 {
        Seq::empty()
    } else {
        let r = kept_labels(ls.drop_last());
        if is_reserved(ls.last().name) {
            r
        } else {
            r.push(ls.last())
        }
    }
}

pub open spec fn enriched_labels(ls: Seq<LabelView>, peer: Seq<char>, network: Seq<char>) -> Seq<
    LabelView,
> {
    kept_labels(ls) + seq![
        LabelView { name: peer_key(), value: peer },
        LabelView { name: network_key(), value: network },
    ]
}

pub open spec fn enriched_sample(s: SampleView, peer: Seq<char>, network: Seq<char>) -> SampleView {
    SampleView { labels: enriched_labels(s.labels, peer, network), ..s }
}

/// The batch `b` with every sample stamped: its own `peer` and `network`
/// labels dropped, and the sender's and the network's appended.
pub open spec fn enriched(b: Seq<SampleView>, peer: Seq<char>, network: Seq<char>) -> Seq<
    SampleView,
> {
    b.map_values(|s: SampleView| enriched_sample(s, peer, network))
}

/// A label is kept exactly when it stood in the source and its name is not
/// reserved.
pub proof fn lemma_kept_labels(ls: Seq<LabelView>)
    ensures
        forall|l: LabelView| #[trigger]
            kept_labels(ls).contains(l) <==> ls.contains(l) && !is_reserved(l.name),
    decreases ls.len(),
{
    if ls.len() > 0 {
        let init = ls.drop_last();
        let last = ls.last();
        let r = kept_labels(init);
        lemma_kept_labels(init);
        assert(kept_labels(ls) == if is_reserved(last.name) {
            r
        } else {
            r.push(last)
        });
        assert forall|l: LabelView| #[trigger]
            kept_labels(ls).contains(l) <==> ls.contains(l) && !is_reserved(l.name) by {
            if kept_labels(ls).contains(l) {
                if r.contains(l) {
                    let k = choose|k: int| 0 <= k < init.len() && init[k] == l;
                    assert(ls[k] == l);
                } else {
                    let k = choose|k: int|
                        0 <= k < kept_labels(ls).len() && kept_labels(ls)[k] == l;
                    if k < r.len() {
                        assert(r[k] == l);
                    }
                    assert(l == last);
                    assert(ls[ls.len() - 1] == l);
                }
            }
            if ls.contains(l) && !is_reserved(l.name) {
                let k = choose|k: int| 0 <= k < ls.len() && ls[k] == l;
                if k < ls.len() - 1 {
                    assert(init[k] == l);
                    assert(r.contains(l));
                    if !is_reserved(last.name) {
                        let j = choose|j: int| 0 <= j < r.len() && r[j] == l;
                        assert(r.push(last)[j] == l);
                    }
                } else {
                    assert(r.push(last)[r.len() as int] == l);
                }
            }
        }
    }
}

/// Enrichment keeps every sample, in order, and leaves each of them with
/// exactly one `peer` label, holding `peer`, and exactly one `network` label,
/// holding `network`.
pub proof fn lemma_enrich_labels_present(b: Seq<SampleView>, peer: Seq<char>, network: Seq<char>)
    ensures
        enriched(b, peer, network).len() == b.len(),
        forall|i: int|
            0 <= i < b.len() ==> #[trigger] enriched(b, peer, network)[i].labels.contains(
                LabelView { name: peer_key(), value: peer },
            ) && enriched(b, peer, network)[i].labels.contains(
                LabelView { name: network_key(), value: network },
            ),
        forall|i: int, k: int|
            0 <= i < b.len() && 0 <= k < enriched(b, peer, network)[i].labels.len() && (
            #[trigger] enriched(b, peer, network)[i].labels[k]).name == peer_key() ==> {
                &&& enriched(b, peer, network)[i].labels[k].value == peer
                &&& k == enriched(b, peer, network)[i].labels.len() - 2
            },
        forall|i: int, k: int|
            0 <= i < b.len() && 0 <= k < enriched(b, peer, network)[i].labels.len() && (
            #[trigger] enriched(b, peer, network)[i].labels[k]).name == network_key() ==> {
                &&& enriched(b, peer, network)[i].labels[k].value == network
                &&& k == enriched(b, peer, network)[i].labels.len() - 1
            },
{
    let e = enriched(b, peer, network);
    assert forall|i: int| 0 <= i < b.len() implies #[trigger] e[i].labels.contains(
        LabelView { name: peer_key(), value: peer },
    ) && e[i].labels.contains(LabelView { name: network_key(), value: network }) by {
        let ls = e[i].labels;
        let n = kept_labels(b[i].labels).len();
        assert(ls[n as int] == LabelView { name: peer_key(), value: peer });
        assert(ls[n + 1 as int] == LabelView { name: network_key(), value: network });
    }
    assert forall|i: int, k: int|
        0 <= i < b.len() && 0 <= k < e[i].labels.len() && is_reserved(
            (#[trigger] e[i].labels[k]).name,
        ) implies {
        &&& e[i].labels[k].name == peer_key() ==> e[i].labels[k].value == peer && k
            == e[i].labels.len() - 2
        &&& e[i].labels[k].name == network_key() ==> e[i].labels[k].value == network && k
            == e[i].labels.len() - 1
    } by {
        let kept = kept_labels(b[i].labels);
        lemma_kept_labels(b[i].labels);
        if k < kept.len() {
            assert(e[i].labels[k] == kept[k]);
            assert(kept.contains(kept[k]));
        }
        assert(peer_key() != network_key());
    }
}

/// Enrichment keeps every source label whose name is not reserved, and no
/// source label whose name is: a sender cannot set its own `peer` or
/// `network` label.
pub proof fn lemma_enrich_overrides_source_labels(
    b: Seq<SampleView>,
    peer: Seq<char>,
    network: Seq<char>,
    i: int,
    l: LabelView,
)
    requires
        0 <= i < b.len(),
    ensures
        !is_reserved(l.name) ==> (enriched(b, peer, network)[i].labels.contains(l)
            <==> b[i].labels.contains(l)),
        l.name == peer_key() ==> (enriched(b, peer, network)[i].labels.contains(l) <==> l.value
            == peer),
        l.name == network_key() ==> (enriched(b, peer, network)[i].labels.contains(l)
            <==> l.value == network),
{
    let e = enriched(b, peer, network);
    let kept = kept_labels(b[i].labels);
    let two = seq![
        LabelView { name: peer_key(), value: peer },
        LabelView { name: network_key(), value: network },
    ];
    lemma_kept_labels(b[i].labels);
    assert(e[i].labels == kept + two);
    assert(peer_key() != network_key());
    if e[i].labels.contains(l) {
        let k = choose|k: int| 0 <= k < e[i].labels.len() && e[i].labels[k] == l;
        if k < kept.len() {
            assert(kept[k] == l);
        } else {
            assert(two[k - kept.len()] == l);
        }
    }
    if kept.contains(l) {
        let k = choose|k: int| 0 <= k < kept.len() && kept[k] == l;
        assert(e[i].labels[k] == l);
    }
    if l == two[0] {
        assert(e[i].labels[kept.len() as int] == l);
    }
    if l == two[1] {
        assert(e[i].labels[kept.len() + 1 as int] == l);
    }
}

fn reserved_names() -> (r: (String, String))
    ensures
        r.0@ == peer_key(),
        r.1@ == network_key(),
{
    let peer = "peer".to_owned();
    let network = "network".to_owned();
    proof {
        reveal_strlit("peer");
        reveal_strlit("network");
        assert(peer@ =~= peer_key());
        assert(network@ =~= network_key());
    }
    (peer, network)
}

fn enrich_sample(x: &Sample, peer_name: &str, network: &str, keys: &(String, String)) -> (r: Sample)
    requires
        keys.0@ == peer_key(),
        keys.1@ == network_key(),
    ensures
        r@ == enriched_sample(x@, peer_name@, network@),
{
    let ghost src = labels_view(x.labels@);
    let mut labels: Vec<Label> = Vec::new();
    let mut j: usize = 0;
    while j < x.labels.len()
        invariant
            j <= x.labels@.len(),
            src == labels_view(x.labels@),
            keys.0@ == peer_key(),
            keys.1@ == network_key(),
            labels_view(labels@) == kept_labels(src.take(j as int)),
        decreases x.labels@.len() - j,
    {
        let l = &x.labels[j];
        assert(src.take(j + 1).drop_last() =~= src.take(j as int));
        assert(src.take(j + 1).last() == l@);
        if !(l.name == keys.0 || l.name == keys.1) {
            let c = l.duplicate();
            let ghost prev = labels@;
            labels.push(c);
            assert(labels_view(labels@) =~= labels_view(prev).push(c@));
        }
        j = j + 1;
    }
    assert(src.take(j as int) =~= src);
    let ghost kept = labels@;
    labels.push(Label { name: keys.0.clone(), value: peer_name.to_owned() });
    labels.push(Label { name: keys.1.clone(), value: network.to_owned() });
    assert(labels_view(labels@) =~= enriched_labels(src, peer_name@, network@));
    Sample {
        name: x.name.clone(),
        labels,
        value_bits: x.value_bits,
        timestamp_ms: x.timestamp_ms,
    }
}

/// A new batch holding the samples of `batch`, in order, each stamped with
/// the sender's name `peer_name` and the network's name `network`. A
/// `peer` or `network` label that a sample already carries is replaced.
pub fn populate_labels(peer_name: &str, network: &str, batch: &Vec<Sample>) -> (r: Vec<Sample>)
    ensures
        batch_view(r@) == enriched(batch_view(batch@), peer_name@, network@),
{
    let keys = reserved_names();
    let ghost e = enriched(batch_view(batch@), peer_name@, network@);
    let mut out: Vec<Sample> = Vec::new();
    let mut i: usize = 0;
    while i < batch.len()
        invariant
            i <= batch@.len(),
            keys.0@ == peer_key(),
            keys.1@ == network_key(),
            e == enriched(batch_view(batch@), peer_name@, network@),
            batch_view(out@) == e.take(i as int),
        decreases batch@.len() - i,
    {
        let x = enrich_sample(&batch[i], peer_name, network, &keys);
        let ghost prev = out@;
        out.push(x);
        assert(batch_view(out@) =~= batch_view(prev).push(x@));
        i = i + 1;
        assert(batch_view(out@) =~= e.take(i as int));
    }
    assert(e.take(i as int) =~= e);
    out
}

} // verus!
