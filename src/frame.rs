//! The frame format.
//!
//! A frame is a Snappy-compressed payload. The payload is a run of records;
//! each record is a four-byte length followed by that many bytes holding one
//! sample. Within a sample, a string is a four-byte length and its UTF-8
//! bytes; the sample is its name, a four-byte label count, each label's name
//! and value, eight bytes of value and eight bytes of timestamp. Every number
//! is little-endian.
use crate::sample::{batch_view, labels_view, Label, LabelView, Sample, SampleView};
use crate::wire::{
    le_bytes, le_value, lemma_le_bytes_len, lemma_le_round_trip, pow256, push_le, read_le,
};
use vstd::prelude::*;
use vstd::utf8::*;

verus! {

/// Why a frame could not be decoded.
#[derive(Clone, Copy, Debug, PartialEq, Eq, Structural)]
pub enum DecodeError {
    /// The frame is shorter than declared, or the payload ends inside a record.
    Truncated,
    /// The frame is longer than declared.
    Oversized,
    /// The frame is not valid Snappy data.
    Decompression,
    /// A record's contents disagree with its length prefix, or hold bytes that
    /// are not a sample.
    Malformed,
}

/// The largest payload that a frame may carry.
pub const MAX_PAYLOAD: u64 = 0xC000_0000;

/// The four-byte bound of every length and count in a frame.
pub open spec fn fits_u32(n: nat) -> bool {
    n < pow256(4)
}

pub open spec fn str_bytes(s: Seq<char>) -> Seq<u8> {
    le_bytes(encode_utf8(s).len(), 4) + encode_utf8(s)
}

pub open spec fn labels_bytes(ls: Seq<LabelView>) -> Seq<u8>
    decreases ls.len(),
{
    if ls.len() == 0 {
        Seq::empty()
    } else {
        str_bytes(ls[0].name) + str_bytes(ls[0].value) + labels_bytes(ls.drop_first())
    }
}

pub open spec fn sample_bytes(s: SampleView) -> Seq<u8> {
    str_bytes(s.name) + le_bytes(s.labels.len(), 4) + labels_bytes(s.labels) + le_bytes(
        s.value_bits as nat,
        8,
    ) + le_bytes((s.timestamp_ms as u64) as nat, 8)
}

#[verifier::opaque]
pub open spec fn record_bytes(s: SampleView) -> Seq<u8> {
    le_bytes(sample_bytes(s).len(), 4) + sample_bytes(s)
}

/// The payload that carries the samples `b`, in order.
pub open spec fn payload_bytes(b: Seq<SampleView>) -> Seq<u8>
    decreases b.len(),
{
    if b.len() == 0 {
        Seq::empty()
    } else {
        record_bytes(b[0]) + payload_bytes(b.drop_first())
    }
}

/// A sample whose lengths and counts all fit their four-byte fields.
pub open spec fn sample_fits(s: SampleView) -> bool {
    &&& fits_u32(encode_utf8(s.name).len())
    &&& fits_u32(s.labels.len())
    &&& forall|i: int|
        0 <= i < s.labels.len() ==> fits_u32(encode_utf8(#[trigger] s.labels[i].name).len())
            && fits_u32(encode_utf8(s.labels[i].value).len())
    &&& fits_u32(sample_bytes(s).len())
}

/// A batch that can be written as a frame.
pub open spec fn batch_fits(b: Seq<SampleView>) -> bool {
    &&& forall|i: int| 0 <= i < b.len() ==> sample_fits(#[trigger] b[i])
    &&& payload_bytes(b).len() <= MAX_PAYLOAD
}

/// A string at the start of `s`, and the number of bytes it takes.
pub open spec fn parse_str(s: Seq<u8>) -> Option<(Seq<char>, nat)> {
    if s.len() < 4 {
        None
    } else {
        let n = le_value(s.take(4));
        if s.len() < 4 + n {
            None
        } else {
            let b = s.subrange(4, 4 + n as int);
            if valid_utf8(b) {
                Some((decode_utf8(b), 4 + n))
            } else {
                None
            }
        }
    }
}

/// `count` labels at the start of `s`, and the number of bytes they take.
pub open spec fn parse_labels(s: Seq<u8>, count: nat) -> Option<(Seq<LabelView>, nat)>
    decreases count,
{
    if count == 0 {
        Some((Seq::empty(), 0))
    } else {
        match parse_str(s) {
            None => None,
            Some((name, a)) => match parse_str(s.skip(a as int)) {
                None => None,
                Some((value, b)) => match parse_labels(s.skip((a + b) as int), (count - 1) as nat) {
                    None => None,
                    Some((rest, c)) => Some(
                        (seq![LabelView { name, value }] + rest, a + b + c),
                    ),
                },
            },
        }
    }
}

/// The sample that the bytes `s` hold, all of them and nothing more.
#[verifier::opaque]
pub open spec fn parse_sample(s: Seq<u8>) -> Option<SampleView> {
    match parse_str(s) {
        None => None,
        Some((name, a)) => if s.len() < a + 4 {
            None
        } else {
            let count = le_value(s.subrange(a as int, a + 4 as int));
            match parse_labels(s.skip(a + 4 as int), count) {
                None => None,
                Some((labels, c)) => {
                    let p = (a + 4 + c) as int;
                    if s.len() != p + 16 {
                        None
                    } else {
                        Some(
                            SampleView {
                                name,
                                labels,
                                value_bits: le_value(s.subrange(p, p + 8)) as u64,
                                timestamp_ms: (le_value(s.subrange(p + 8, p + 16)) as u64) as i64,
                            },
                        )
                    }
                },
            }
        },
    }
}

/// The samples that a payload holds, or why it holds none.
pub open spec fn parse_payload(s: Seq<u8>) -> Result<Seq<SampleView>, DecodeError>
    decreases s.len(),
{
    if s.len() == 0 {
        Ok(Seq::empty())
    } else if s.len() < 4 {
        Err(DecodeError::Truncated)
    } else {
        let n = le_value(s.take(4));
        if s.len() < 4 + n {
            Err(DecodeError::Truncated)
        } else {
            match parse_sample(s.subrange(4, 4 + n as int)) {
                None => Err(DecodeError::Malformed),
                Some(x) => match parse_payload(s.skip(4 + n as int)) {
                    Ok(rest) => Ok(seq![x] + rest),
                    Err(e) => Err(e),
                },
            }
        }
    }
}

proof fn lemma_le_prefix(x: nat, n: nat, rest: Seq<u8>)
    requires
        x < pow256(n),
    ensures
        (le_bytes(x, n) + rest).take(n as int) == le_bytes(x, n),
        le_value((le_bytes(x, n) + rest).take(n as int)) == x,
        (le_bytes(x, n) + rest).skip(n as int) == rest,
{
    lemma_le_bytes_len(x, n);
    lemma_le_round_trip(x, n);
    assert((le_bytes(x, n) + rest).take(n as int) =~= le_bytes(x, n));
    assert((le_bytes(x, n) + rest).skip(n as int) =~= rest);
}

proof fn lemma_parse_str(s: Seq<char>, rest: Seq<u8>)
    requires
        fits_u32(encode_utf8(s).len()),
    ensures
        parse_str(str_bytes(s) + rest) == Some((s, str_bytes(s).len())),
        (str_bytes(s) + rest).skip(str_bytes(s).len() as int) == rest,
{
    let e = encode_utf8(s);
    let n = e.len();
    lemma_le_bytes_len(n, 4);
    let t = str_bytes(s) + rest;
    assert(t == le_bytes(n, 4) + (e + rest));
    lemma_le_prefix(n, 4, e + rest);
    assert(t.subrange(4, 4 + n as int) =~= e);
    encode_utf8_valid_utf8(s);
    encode_utf8_decode_utf8(s);
    assert(t.skip(str_bytes(s).len() as int) =~= rest);
}

proof fn lemma_parse_labels(ls: Seq<LabelView>, rest: Seq<u8>)
    requires
        forall|i: int|
            0 <= i < ls.len() ==> fits_u32(encode_utf8(#[trigger] ls[i].name).len())
                && fits_u32(encode_utf8(ls[i].value).len()),
    ensures
        parse_labels(labels_bytes(ls) + rest, ls.len()) == Some((ls, labels_bytes(ls).len())),
    decreases ls.len(),
{
    if ls.len() > 0 {
        let k = str_bytes(ls[0].name);
        let v = str_bytes(ls[0].value);
        let tail = labels_bytes(ls.drop_first());
        let t = labels_bytes(ls) + rest;
        assert(fits_u32(encode_utf8(ls[0].name).len()));
        assert(t =~= k + (v + tail + rest));
        lemma_parse_str(ls[0].name, v + tail + rest);
        assert(v + tail + rest =~= v + (tail + rest));
        lemma_parse_str(ls[0].value, tail + rest);
        assert(t.skip(k.len() as int) =~= v + (tail + rest));
        assert(t.skip(k.len() + v.len() as int) =~= tail + rest);
        assert forall|i: int| 0 <= i < ls.drop_first().len() implies fits_u32(
            encode_utf8(#[trigger] ls.drop_first()[i].name).len(),
        ) && fits_u32(encode_utf8(ls.drop_first()[i].value).len()) by {
            assert(ls.drop_first()[i] == ls[i + 1]);
        }
        lemma_parse_labels(ls.drop_first(), rest);
        assert(seq![ls[0]] + ls.drop_first() =~= ls);
    }
}

proof fn lemma_parse_sample(s: SampleView)
    requires
        sample_fits(s),
    ensures
        parse_sample(sample_bytes(s)) == Some(s),
{
    let nb = str_bytes(s.name);
    let cb = le_bytes(s.labels.len(), 4);
    let lb = labels_bytes(s.labels);
    let vb = le_bytes(s.value_bits as nat, 8);
    let tsb = le_bytes((s.timestamp_ms as u64) as nat, 8);
    let t = sample_bytes(s);
    reveal(parse_sample);
    lemma_le_bytes_len(s.labels.len(), 4);
    lemma_le_bytes_len(s.value_bits as nat, 8);
    lemma_le_bytes_len((s.timestamp_ms as u64) as nat, 8);
    assert(t =~= nb + (cb + lb + vb + tsb));
    lemma_parse_str(s.name, cb + lb + vb + tsb);
    let a = nb.len();
    assert(t.subrange(a as int, a + 4 as int) =~= cb);
    lemma_le_round_trip(s.labels.len(), 4);
    assert(t.skip(a + 4 as int) =~= lb + (vb + tsb));
    lemma_parse_labels(s.labels, vb + tsb);
    let p = (a + 4 + lb.len()) as int;
    assert(t.subrange(p, p + 8) =~= vb);
    assert(t.subrange(p + 8, p + 16) =~= tsb);
    reveal_with_fuel(pow256, 9);
    lemma_le_round_trip(s.value_bits as nat, 8);
    lemma_le_round_trip((s.timestamp_ms as u64) as nat, 8);
    let ts = s.timestamp_ms;
    assert(((ts as u64) as i64) == ts) by (bit_vector);
}

/// Appending a sample to a batch appends its record to the payload.
pub proof fn lemma_payload_bytes_push(b: Seq<SampleView>, x: SampleView)
    ensures
        payload_bytes(b.push(x)) == payload_bytes(b) + record_bytes(x),
    decreases b.len(),
{
    if b.len() == 0 {
        assert(b.push(x).drop_first() =~= b);
        assert(b.push(x)[0] == x);
        assert(payload_bytes(b) == Seq::<u8>::empty());
        assert(payload_bytes(b.push(x)) == record_bytes(x) + payload_bytes(b));
        assert(payload_bytes(b.push(x)) =~= record_bytes(x));
    } else {
        let c = b.push(x);
        assert(c.drop_first() =~= b.drop_first().push(x));
        assert(c[0] == b[0]);
        lemma_payload_bytes_push(b.drop_first(), x);
        let r0 = record_bytes(b[0]);
        let mid = payload_bytes(b.drop_first());
        assert(payload_bytes(c) == r0 + (mid + record_bytes(x)));
        assert(payload_bytes(c) =~= (r0 + mid) + record_bytes(x));
    }
}

/// Appending a label appends its bytes.
pub proof fn lemma_labels_bytes_push(ls: Seq<LabelView>, l: LabelView)
    ensures
        labels_bytes(ls.push(l)) == labels_bytes(ls) + str_bytes(l.name) + str_bytes(l.value),
    decreases ls.len(),
{
    if ls.len() == 0 {
        assert(ls.push(l).drop_first() =~= ls);
        assert(labels_bytes(ls.push(l)) =~= labels_bytes(ls) + str_bytes(l.name) + str_bytes(
            l.value,
        ));
    } else {
        assert(ls.push(l).drop_first() =~= ls.drop_first().push(l));
        lemma_labels_bytes_push(ls.drop_first(), l);
        assert(labels_bytes(ls.push(l)) =~= labels_bytes(ls) + str_bytes(l.name) + str_bytes(
            l.value,
        ));
    }
}

/// Reading back the payload of a batch whose lengths fit gives the batch.
pub proof fn lemma_payload_round_trip(b: Seq<SampleView>)
    requires
        forall|i: int| 0 <= i < b.len() ==> sample_fits(#[trigger] b[i]),
    ensures
        parse_payload(payload_bytes(b)) == Ok::<Seq<SampleView>, DecodeError>(b),
    decreases b.len(),
{
    if b.len() > 0 {
        let x = b[0];
        assert(sample_fits(x));
        let sb = sample_bytes(x);
        let tail = payload_bytes(b.drop_first());
        let t = payload_bytes(b);
        reveal(record_bytes);
        assert(t =~= le_bytes(sb.len(), 4) + (sb + tail));
        lemma_le_prefix(sb.len(), 4, sb + tail);
        assert(t.subrange(4, 4 + sb.len() as int) =~= sb);
        assert(t.skip(4 + sb.len() as int) =~= tail);
        lemma_parse_sample(x);
        assert forall|i: int| 0 <= i < b.drop_first().len() implies sample_fits(
            #[trigger] b.drop_first()[i],
        ) by {
            assert(b.drop_first()[i] == b[i + 1]);
        }
        lemma_payload_round_trip(b.drop_first());
        let n = le_value(t.take(4));
        assert(n == sb.len());
        assert(parse_sample(t.subrange(4, 4 + n as int)) == Some(x));
        assert(parse_payload(t.skip(4 + n as int)) == Ok::<Seq<SampleView>, DecodeError>(
            b.drop_first(),
        ));
        assert(seq![x] + b.drop_first() =~= b);
    } else {
        assert(b =~= Seq::<SampleView>::empty());
    }
}

/// What a raw Snappy block decompresses to, if it is one.
pub uninterp spec fn snappy_decompressed(b: Seq<u8>) -> Option<Seq<u8>>;

pub open spec fn bytes_option_view(r: Option<Vec<u8>>) -> Option<Seq<u8>> {
    match r {
        Some(v) => Some(v@),
        None => None,
    }
}

/// Relies on `snap::raw::Decoder::decompress_vec`: the bytes that a raw Snappy
/// block decompresses to, or an error; it refuses an empty input.
#[verifier::external_body]
fn snappy_decompress(b: &[u8]) -> (r: Option<Vec<u8>>)
    ensures
        bytes_option_view(r) == snappy_decompressed(b@),
        b@.len() == 0 ==> r is None,
{
    snap::raw::Decoder::new().decompress_vec(b).ok()
}

/// Relies on `snap::raw::Encoder::compress_vec`: below its size limit it
/// succeeds, and `snap::raw::Decoder` turns its output back into the input.
#[verifier::external_body]
fn snappy_compress(p: &[u8]) -> (r: Vec<u8>)
    requires
        p@.len() <= MAX_PAYLOAD,
    ensures
        snappy_decompressed(r@) == Some(p@),
{
    snap::raw::Encoder::new().compress_vec(p).unwrap()
}

fn push_bytes(out: &mut Vec<u8>, b: &[u8])
    ensures
        final(out)@ == old(out)@ + b@,
{
    let mut i: usize = 0;
    while i < b.len()
        invariant
            i <= b@.len(),
            out@ == old(out)@ + b@.take(i as int),
        decreases b@.len() - i,
    {
        out.push(b[i]);
        i = i + 1;
        assert(out@ =~= old(out)@ + b@.take(i as int));
    }
    assert(b@.take(i as int) =~= b@);
}

fn push_str(out: &mut Vec<u8>, s: &String)
    requires
        fits_u32(encode_utf8(s@).len()),
    ensures
        final(out)@ == old(out)@ + str_bytes(s@),
{
    let b = s.as_str().as_bytes();
    proof {
        reveal_with_fuel(pow256, 5);
    }
    push_le(out, b.len() as u64, 4);
    push_bytes(out, b);
    assert(final(out)@ =~= old(out)@ + str_bytes(s@));
}

proof fn lemma_pow256_8()
    ensures
        pow256(8) == 0x1_0000_0000_0000_0000,
{
    reveal_with_fuel(pow256, 9);
}

/// The bytes of one sample, without its record length.
fn encode_sample(x: &Sample) -> (r: Vec<u8>)
    requires
        sample_fits(x@),
    ensures
        r@ == sample_bytes(x@),
{
    let ghost v = x@;
    let mut out: Vec<u8> = Vec::new();
    push_str(&mut out, &x.name);
    proof {
        reveal_with_fuel(pow256, 5);
        lemma_pow256_8();
    }
    push_le(&mut out, x.labels.len() as u64, 4);
    let ghost head = out@;
    let mut i: usize = 0;
    while i < x.labels.len()
        invariant
            v == x@,
            sample_fits(v),
            i <= x.labels@.len(),
            out@ == head + labels_bytes(labels_view(x.labels@).take(i as int)),
        decreases x.labels@.len() - i,
    {
        let ghost ls = labels_view(x.labels@);
        let ghost before = out@;
        assert(ls[i as int] == x.labels@[i as int]@);
        assert(fits_u32(encode_utf8(v.labels[i as int].name).len()));
        push_str(&mut out, &x.labels[i].name);
        push_str(&mut out, &x.labels[i].value);
        proof {
            lemma_labels_bytes_push(ls.take(i as int), ls[i as int]);
            assert(ls.take(i as int).push(ls[i as int]) =~= ls.take(i + 1));
        }
        i = i + 1;
    }
    assert(labels_view(x.labels@).take(i as int) =~= v.labels);
    push_le(&mut out, x.value_bits, 8);
    push_le(&mut out, x.timestamp_ms as u64, 8);
    assert(out@ =~= sample_bytes(v));
    out
}

/// The payload that carries the samples of `b`, in order.
pub fn encode_payload(b: &Vec<Sample>) -> (r: Vec<u8>)
    requires
        forall|i: int| 0 <= i < b@.len() ==> sample_fits(#[trigger] batch_view(b@)[i]),
    ensures
        r@ == payload_bytes(batch_view(b@)),
{
    let ghost bv = batch_view(b@);
    let mut out: Vec<u8> = Vec::new();
    let mut i: usize = 0;
    while i < b.len()
        invariant
            bv == batch_view(b@),
            forall|j: int| 0 <= j < b@.len() ==> sample_fits(#[trigger] bv[j]),
            i <= b@.len(),
            out@ == payload_bytes(bv.take(i as int)),
        decreases b@.len() - i,
    {
        assert(bv[i as int] == b@[i as int]@);
        assert(sample_fits(bv[i as int]));
        let body = encode_sample(&b[i]);
        proof {
            reveal_with_fuel(pow256, 5);
        }
        push_le(&mut out, body.len() as u64, 4);
        push_bytes(&mut out, body.as_slice());
        proof {
            reveal(record_bytes);
            lemma_payload_bytes_push(bv.take(i as int), bv[i as int]);
            assert(bv.take(i as int).push(bv[i as int]) =~= bv.take(i + 1));
            assert(out@ =~= payload_bytes(bv.take(i as int)) + record_bytes(bv[i as int]));
        }
        i = i + 1;
    }
    assert(bv.take(i as int) =~= bv);
    out
}

/// A frame that carries the samples of `b`: their payload, compressed.
pub fn encode_frame(b: &Vec<Sample>) -> (r: Vec<u8>)
    requires
        batch_fits(batch_view(b@)),
    ensures
        snappy_decompressed(r@) == Some(payload_bytes(batch_view(b@))),
{
    let payload = encode_payload(b);
    snappy_compress(payload.as_slice())
}

/// Relies on `String::from_utf8`: it accepts exactly the valid UTF-8 byte
/// strings, and the string it gives holds the characters they encode.
#[verifier::external_body]
fn string_from_utf8(b: Vec<u8>) -> (r: Option<String>)
    ensures
        r is Some <==> valid_utf8(b@),
        r matches Some(s) ==> s@ == decode_utf8(b@),
{
    String::from_utf8(b).ok()
}

fn read_str(buf: &[u8], pos: usize, end: usize) -> (r: Option<(String, usize)>)
    requires
        pos <= end <= buf@.len(),
    ensures
        r is Some <==> parse_str(buf@.subrange(pos as int, end as int)) is Some,
        r matches Some((x, q)) ==> pos <= q <= end && parse_str(
            buf@.subrange(pos as int, end as int),
        ) == Some((x@, (q - pos) as nat)),
{
    let ghost s = buf@.subrange(pos as int, end as int);
    if end - pos < 4 {
        return None;
    }
    let n = read_le(buf, pos, 4);
    assert(buf@.subrange(pos as int, pos + 4) =~= s.take(4));
    if ((end - pos - 4) as u64) < n {
        return None;
    }
    let start = pos + 4;
    let stop = start + n as usize;
    let bytes = vstd::slice::slice_to_vec(vstd::slice::slice_subrange(buf, start, stop));
    assert(bytes@ =~= s.subrange(4, 4 + n as int));
    match string_from_utf8(bytes) {
        None => None,
        Some(x) => Some((x, stop)),
    }
}

fn read_labels(buf: &[u8], pos: usize, end: usize, count: u64) -> (r: Option<(Vec<Label>, usize)>)
    requires
        pos <= end <= buf@.len(),
    ensures
        r is Some <==> parse_labels(buf@.subrange(pos as int, end as int), count as nat) is Some,
        r matches Some((v, q)) ==> pos <= q <= end && parse_labels(
            buf@.subrange(pos as int, end as int),
            count as nat,
        ) == Some((labels_view(v@), (q - pos) as nat)),
{
    let ghost whole = parse_labels(buf@.subrange(pos as int, end as int), count as nat);
    let mut acc: Vec<Label> = Vec::new();
    let mut p: usize = pos;
    let mut i: u64 = 0;
    while i < count
        invariant
            pos <= p <= end <= buf@.len(),
            i <= count,
            whole == parse_labels(buf@.subrange(pos as int, end as int), count as nat),
            whole == match parse_labels(buf@.subrange(p as int, end as int), (count - i) as nat) {
                None => None,
                Some((rest, c)) => Some((labels_view(acc@) + rest, ((p - pos) + c) as nat)),
            },
        decreases count - i,
    {
        let ghost s = buf@.subrange(p as int, end as int);
        let ghost k = (count - i) as nat;
        match read_str(buf, p, end) {
            None => {
                return None;
            },
            Some((name, p1)) => {
                assert(s.skip(p1 - p) =~= buf@.subrange(p1 as int, end as int));
                match read_str(buf, p1, end) {
                    None => {
                        return None;
                    },
                    Some((value, p2)) => {
                        assert(s.skip((p1 - p) + (p2 - p1)) =~= buf@.subrange(
                            p2 as int,
                            end as int,
                        ));
                        let l = Label { name, value };
                        let ghost prev = acc@;
                        acc.push(l);
                        proof {
                            assert(labels_view(acc@) =~= labels_view(prev) + seq![l@]);
                            let sub = parse_labels(
                                buf@.subrange(p2 as int, end as int),
                                (k - 1) as nat,
                            );
                            if let Some((rest, c)) = sub {
                                assert(labels_view(prev) + (seq![l@] + rest) =~= labels_view(
                                    acc@,
                                ) + rest);
                            }
                        }
                        p = p2;
                        i = i + 1;
                    },
                }
            },
        }
    }
    assert(labels_view(acc@) + Seq::<LabelView>::empty() =~= labels_view(acc@));
    Some((acc, p))
}

fn read_sample(buf: &[u8], pos: usize, end: usize) -> (r: Option<Sample>)
    requires
        pos <= end <= buf@.len(),
    ensures
        r is Some <==> parse_sample(buf@.subrange(pos as int, end as int)) is Some,
        r matches Some(x) ==> parse_sample(buf@.subrange(pos as int, end as int)) == Some(x@),
{
    let ghost s = buf@.subrange(pos as int, end as int);
    reveal(parse_sample);
    let (name, p1) = match read_str(buf, pos, end) {
        None => {
            return None;
        },
        Some(x) => x,
    };
    if end - p1 < 4 {
        return None;
    }
    let count = read_le(buf, p1, 4);
    assert(buf@.subrange(p1 as int, p1 + 4) =~= s.subrange(p1 - pos, p1 - pos + 4));
    let p2 = p1 + 4;
    assert(s.skip(p2 - pos) =~= buf@.subrange(p2 as int, end as int));
    let (labels, p3) = match read_labels(buf, p2, end, count) {
        None => {
            return None;
        },
        Some(x) => x,
    };
    if end - p3 != 16 {
        return None;
    }
    let value_bits = read_le(buf, p3, 8);
    let ts = read_le(buf, p3 + 8, 8);
    assert(buf@.subrange(p3 as int, p3 + 8) =~= s.subrange(p3 - pos, p3 - pos + 8));
    assert(buf@.subrange(p3 + 8, p3 + 16) =~= s.subrange(p3 - pos + 8, p3 - pos + 16));
    Some(Sample { name, labels, value_bits, timestamp_ms: ts as i64 })
}

/// What a decoding call returns, over the samples' views.
pub open spec fn decoded_view(r: Result<Vec<Sample>, DecodeError>) -> Result<
    Seq<SampleView>,
    DecodeError,
> {
    match r {
        Ok(v) => Ok(batch_view(v@)),
        Err(e) => Err(e),
    }
}

/// The samples that a payload holds, or why it holds none.
pub fn decode_payload(payload: &[u8]) -> (r: Result<Vec<Sample>, DecodeError>)
    ensures
        decoded_view(r) == parse_payload(payload@),
{
    let ghost whole = parse_payload(payload@);
    let mut out: Vec<Sample> = Vec::new();
    let mut p: usize = 0;
    let len = payload.len();
    assert(payload@.subrange(0, len as int) =~= payload@);
    while p < len
        invariant
            p <= len == payload@.len(),
            whole == parse_payload(payload@),
            whole == match parse_payload(payload@.subrange(p as int, len as int)) {
                Ok(rest) => Ok(batch_view(out@) + rest),
                Err(e) => Err(e),
            },
        decreases len - p,
    {
        let ghost s = payload@.subrange(p as int, len as int);
        if len - p < 4 {
            return Err(DecodeError::Truncated);
        }
        let n = read_le(payload, p, 4);
        assert(payload@.subrange(p as int, p + 4) =~= s.take(4));
        if ((len - p - 4) as u64) < n {
            return Err(DecodeError::Truncated);
        }
        let start = p + 4;
        let stop = start + n as usize;
        assert(payload@.subrange(start as int, stop as int) =~= s.subrange(4, 4 + n as int));
        assert(s.skip(4 + n as int) =~= payload@.subrange(stop as int, len as int));
        match read_sample(payload, start, stop) {
            None => {
                return Err(DecodeError::Malformed);
            },
            Some(x) => {
                let ghost prev = out@;
                out.push(x);
                proof {
                    assert(batch_view(out@) =~= batch_view(prev) + seq![x@]);
                    if let Ok(rest) = parse_payload(payload@.subrange(stop as int, len as int)) {
                        assert(batch_view(prev) + (seq![x@] + rest) =~= batch_view(out@) + rest);
                    }
                }
                p = stop;
            },
        }
    }
    assert(payload@.subrange(p as int, len as int) =~= Seq::<u8>::empty());
    assert(batch_view(out@) + Seq::<SampleView>::empty() =~= batch_view(out@));
    Ok(out)
}

/// What decoding a frame gives, when its transport declared `declared_len`
/// bytes.
pub open spec fn frame_decoded(frame: Seq<u8>, declared_len: nat) -> Result<
    Seq<SampleView>,
    DecodeError,
> {
    if frame.len() < declared_len {
        Err(DecodeError::Truncated)
    } else if frame.len() > declared_len {
        Err(DecodeError::Oversized)
    } else {
        match snappy_decompressed(frame) {
            None => Err(DecodeError::Decompression),
            Some(p) => parse_payload(p),
        }
    }
}

/// The samples that a frame carries, or why it carries none. Either every
/// sample is decoded or none is handed out.
pub fn decode_frame(frame: &[u8], declared_len: usize) -> (r: Result<Vec<Sample>, DecodeError>)
    ensures
        decoded_view(r) == frame_decoded(frame@, declared_len as nat),
{
    if frame.len() < declared_len {
        return Err(DecodeError::Truncated);
    }
    if frame.len() > declared_len {
        return Err(DecodeError::Oversized);
    }
    match snappy_decompress(frame) {
        None => Err(DecodeError::Decompression),
        Some(payload) => decode_payload(payload.as_slice()),
    }
}

/// Decoding a frame whose payload is that of a batch gives the batch back:
/// whatever frame `encode_frame` returns for `b`, `decode_frame` of it, with
/// its own length declared, returns `b`.
pub proof fn lemma_frame_round_trip(b: Seq<SampleView>, frame: Seq<u8>)
    requires
        batch_fits(b),
        snappy_decompressed(frame) == Some(payload_bytes(b)),
    ensures
        frame_decoded(frame, frame.len()) == Ok::<Seq<SampleView>, DecodeError>(b),
{
    lemma_payload_round_trip(b);
}

} // verus!
