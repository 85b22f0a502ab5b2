//! Metric samples: a name, a label set, a value and a timestamp.
use vstd::prelude::*;

verus! {

/// One label of a sample.
#[derive(Clone, Debug, PartialEq, Eq)]
pub struct Label {
    pub name: String,
    pub value: String,
}

/// What a label holds.
pub struct LabelView {
    pub name: Seq<char>,
    pub value: Seq<char>,
}

impl View for Label {
    type V = LabelView;

    open spec fn view(&self) -> LabelView {
        LabelView { name: self.name@, value: self.value@ }
    }
}

/// One metric sample. The value is carried as the bit pattern of an IEEE-754
/// double, so that it passes through the relay unchanged.
#[derive(Clone, Debug, PartialEq, Eq)]
pub struct Sample {
    pub name: String,
    pub labels: Vec<Label>,
    pub value_bits: u64,
    pub timestamp_ms: i64,
}

/// What a sample holds.
pub struct SampleView {
    pub name: Seq<char>,
    pub labels: Seq<LabelView>,
    pub value_bits: u64,
    pub timestamp_ms: i64,
}

pub open spec fn labels_view(ls: Seq<Label>) -> Seq<LabelView> {
    ls.map_values(|l: Label| l@)
}

impl View for Sample {
    type V = SampleView;

    open spec fn view(&self) -> SampleView {
        SampleView {
            name: self.name@,
            labels: labels_view(self.labels@),
            value_bits: self.value_bits,
            timestamp_ms: self.timestamp_ms,
        }
    }
}

/// What a batch of samples holds, in order.
pub open spec fn batch_view(b: Seq<Sample>) -> Seq<SampleView> {
    b.map_values(|s: Sample| s@)
}

impl Label {
    pub fn new(name: String, value: String) -> (r: Label)
        ensures
            r@ == (LabelView { name: name@, value: value@ }),
    {
        Label { name, value }
    }

    /// An independent copy of the label.
    pub fn duplicate(&self) -> (r: Label)
        ensures
            r@ == self@,
    {
        Label { name: self.name.clone(), value: self.value.clone() }
    }
}

impl Sample {
    pub fn new(name: String, labels: Vec<Label>, value_bits: u64, timestamp_ms: i64) -> (r: Sample)
        ensures
            r.name@ == name@,
            r.labels@ == labels@,
            r.value_bits == value_bits,
            r.timestamp_ms == timestamp_ms,
    {
        Sample { name, labels, value_bits, timestamp_ms }
    }

    /// An independent copy of the sample.
    pub fn duplicate(&self) -> (r: Sample)
        ensures
            r@ == self@,
    {
        let mut labels: Vec<Label> = Vec::new();
        let mut i: usize = 0;
        while i < self.labels.len()
            invariant
                i <= self.labels@.len(),
                labels_view(labels@) == labels_view(self.labels@).take(i as int),
            decreases self.labels@.len() - i,
        {
            let l = self.labels[i].duplicate();
            let ghost prev = labels@;
            labels.push(l);
            assert(labels@ == prev.push(l));
            assert(labels_view(labels@) =~= labels_view(prev).push(l@));
            i = i + 1;
            assert(labels_view(labels@) =~= labels_view(self.labels@).take(i as int));
        }
        assert(labels_view(self.labels@).take(i as int) =~= labels_view(self.labels@));
        Sample {
            name: self.name.clone(),
            labels,
            value_bits: self.value_bits,
            timestamp_ms: self.timestamp_ms,
        }
    }
}

/// An independent copy of a batch.
pub fn duplicate_batch(b: &Vec<Sample>) -> (r: Vec<Sample>)
    ensures
        batch_view(r@) == batch_view(b@),
{
    let mut out: Vec<Sample> = Vec::new();
    let mut i: usize = 0;
    while i < b.len()
        invariant
            i <= b@.len(),
            batch_view(out@) == batch_view(b@).take(i as int),
        decreases b@.len() - i,
    {
        let x = b[i].duplicate();
        let ghost prev = out@;
        out.push(x);
        assert(batch_view(out@) =~= batch_view(prev).push(x@));
        i = i + 1;
        assert(batch_view(out@) =~= batch_view(b@).take(i as int));
    }
    assert(batch_view(b@).take(i as int) =~= batch_view(b@));
    out
}

} // verus!
