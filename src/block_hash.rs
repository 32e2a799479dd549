//! The content hash of a metadata block.
//!
//! A block's content (every field but its own hash) is laid out as a sequence
//! of 64-bit words in which each string and each list carries its length and
//! each optional value and each variant carries a tag, so that distinct
//! contents give distinct words. The words are folded with 64-bit FNV-1a and
//! the digest is written as sixteen lowercase hex digits.

use vstd::prelude::*;

use crate::dataset_id::DatasetIDBuf;
use crate::metadata::{
    DataSlice, DatasetSource, DatasetSourceDerivative, DatasetSourceRoot, MetadataBlock, Transform,
};
use crate::text::string_from_chars;
use crate::time_interval::TimeInterval;

verus! {

pub const FNV_OFFSET: u64 = 0xcbf29ce484222325;

pub const FNV_PRIME: u64 = 0x100000001b3;

pub open spec fn str_words(s: Seq<char>) -> Seq<u64> {
    seq![s.len() as u64] + s.map_values(|c: char| c as u64)
}

pub open spec fn interval_words(iv: TimeInterval) -> Seq<u64> {
    match iv {
        TimeInterval::Empty => seq![0u64],
        TimeInterval::Closed { lower, upper } => seq![1u64, lower as u64, upper as u64],
        TimeInterval::LeftOpen { lower, upper } => seq![2u64, lower as u64, upper as u64],
        TimeInterval::UnboundedClosedRight { upper } => seq![3u64, upper as u64],
        TimeInterval::UnboundedOpenLeft { lower } => seq![4u64, lower as u64],
        TimeInterval::Unbounded => seq![5u64],
    }
}

pub open spec fn slice_words(s: DataSlice) -> Seq<u64> {
    str_words(s.hash@) + interval_words(s.interval) + seq![s.num_records as u64]
}

pub open spec fn slices_words(ss: Seq<DataSlice>) -> Seq<u64>
    decreases ss.len(),
{
    if ss.len() == 0 {
        Seq::empty()
    } else {
        slices_words(ss.drop_last()) + slice_words(ss.last())
    }
}

pub open spec fn props_words(p: Seq<(String, String)>) -> Seq<u64>
    decreases p.len(),
{
    if p.len() == 0 {
        Seq::empty()
    } else {
        props_words(p.drop_last()) + str_words(p.last().0@) + str_words(p.last().1@)
    }
}

pub open spec fn ids_words(ids: Seq<DatasetIDBuf>) -> Seq<u64>
    decreases ids.len(),
{
    if ids.len() == 0 {
        Seq::empty()
    } else {
        ids_words(ids.drop_last()) + str_words(ids.last()@)
    }
}

pub open spec fn transform_words(t: Transform) -> Seq<u64> {
    str_words(t.engine@) + seq![t.additional_properties@.len() as u64] + props_words(
        t.additional_properties@,
    )
}

pub open spec fn opt_str_words(o: Option<String>) -> Seq<u64> {
    match o {
        None => seq![0u64],
        Some(s) => seq![1u64] + str_words(s@),
    }
}

pub open spec fn root_words(r: DatasetSourceRoot) -> Seq<u64> {
    str_words(r.fetch@) + opt_str_words(r.prepare) + str_words(r.read@) + match r.preprocess {
        None => seq![0u64],
        Some(t) => seq![1u64] + transform_words(t),
    } + str_words(r.merge@) + match r.vocab {
        None => seq![0u64],
        Some(v) => seq![1u64] + opt_str_words(v.system_time_column) + opt_str_words(v.event_time_column),
    }
}

pub open spec fn derivative_words(d: DatasetSourceDerivative) -> Seq<u64> {
    seq![d.inputs@.len() as u64] + ids_words(d.inputs@) + transform_words(d.transform)
}

pub open spec fn source_words(s: DatasetSource) -> Seq<u64> {
    match s {
        DatasetSource::Root(r) => seq![0u64] + root_words(r),
        DatasetSource::Derivative(d) => seq![1u64] + derivative_words(d),
    }
}

pub open spec fn opt_source_words(o: Option<DatasetSource>) -> Seq<u64> {
    match o {
        None => seq![0u64],
        Some(s) => seq![1u64] + source_words(s),
    }
}

pub open spec fn opt_slice_words(o: Option<DataSlice>) -> Seq<u64> {
    match o {
        None => seq![0u64],
        Some(s) => seq![1u64] + slice_words(s),
    }
}

pub open spec fn opt_time_words(o: Option<i64>) -> Seq<u64> {
    match o {
        None => seq![0u64],
        Some(w) => seq![1u64, w as u64],
    }
}

pub open spec fn opt_slices_words(o: Option<Vec<DataSlice>>) -> Seq<u64> {
    match o {
        None => seq![0u64],
        Some(ss) => seq![1u64, ss@.len() as u64] + slices_words(ss@),
    }
}

/// The words of everything in a block but its own hash.
pub open spec fn block_words(b: MetadataBlock) -> Seq<u64> {
    str_words(b.prev_block_hash@) + seq![b.system_time as u64] + opt_source_words(b.source)
        + opt_slice_words(b.output_slice) + opt_time_words(b.output_watermark) + opt_slices_words(
        b.input_slices,
    )
}

pub open spec fn fnv_step(h: u64, w: u64) -> u64 {
    ((((h ^ w) as int) * (FNV_PRIME as int)) % 0x1_0000_0000_0000_0000) as u64
}

pub open spec fn fnv(ws: Seq<u64>) -> u64
    decreases ws.len(),
{
    if ws.len() == 0 {
        FNV_OFFSET
    } else {
        fnv_step(fnv(ws.drop_last()), ws.last())
    }
}

pub open spec fn hex_digit(n: u64) -> char {
    if n < 10 {
        (('0' as u64) + n) as char
    } else {
        (('a' as u64) + n - 10) as char
    }
}

pub open spec fn nibble(h: u64, i: int) -> u64 {
    (h >> ((60 - 4 * i) as u64)) & 15
}

pub open spec fn hex16(h: u64) -> Seq<char> {
    Seq::new(16, |i: int| hex_digit(nibble(h, i)))
}

/// The content hash of a block: a pure function of all its other fields.
pub open spec fn content_hash(b: MetadataBlock) -> Seq<char> {
    hex16(fnv(block_words(b)))
}

fn push_str(out: &mut Vec<u64>, s: &str)
    ensures
        final(out)@ == old(out)@ + str_words(s@),
{
    let n = s.unicode_len();
    out.push(n as u64);
    let ghost start = out@;
    let mut i: usize = 0;
    while i < n
        invariant
            n == s@.len(),
            0 <= i <= n,
            out@ == start + s@.subrange(0, i as int).map_values(|c: char| c as u64),
        decreases n - i,
    {
        let c = s.get_char(i);
        out.push(c as u64);
        assert(s@.subrange(0, i + 1).map_values(|c: char| c as u64) =~= s@.subrange(
            0,
            i as int,
        ).map_values(|c: char| c as u64).push(c as u64));
        i += 1;
    }
    assert(s@.subrange(0, n as int) =~= s@);
    assert(out@ =~= old(out)@ + str_words(s@));
}

fn push_interval(out: &mut Vec<u64>, iv: &TimeInterval)
    ensures
        final(out)@ == old(out)@ + interval_words(*iv),
{
    match iv {
        TimeInterval::Empty => {
            out.push(0);
        },
        TimeInterval::Closed { lower, upper } => {
            out.push(1);
            out.push(*lower as u64);
            out.push(*upper as u64);
        },
        TimeInterval::LeftOpen { lower, upper } => {
            out.push(2);
            out.push(*lower as u64);
            out.push(*upper as u64);
        },
        TimeInterval::UnboundedClosedRight { upper } => {
            out.push(3);
            out.push(*upper as u64);
        },
        TimeInterval::UnboundedOpenLeft { lower } => {
            out.push(4);
            out.push(*lower as u64);
        },
        TimeInterval::Unbounded => {
            out.push(5);
        },
    }
    assert(final(out)@ =~= old(out)@ + interval_words(*iv));
}

fn push_slice(out: &mut Vec<u64>, s: &DataSlice)
    ensures
        final(out)@ == old(out)@ + slice_words(*s),
{
    push_str(out, s.hash.as_str());
    push_interval(out, &s.interval);
    out.push(s.num_records as u64);
    assert(final(out)@ =~= old(out)@ + slice_words(*s));
}

fn push_slices(out: &mut Vec<u64>, ss: &Vec<DataSlice>)
    ensures
        final(out)@ == old(out)@ + slices_words(ss@),
{
    let ghost start = out@;
    let n = ss.len();
    let mut i: usize = 0;
    while i < n
        invariant
            n == ss@.len(),
            0 <= i <= n,
            out@ == start + slices_words(ss@.subrange(0, i as int)),
        decreases n - i,
    {
        push_slice(out, &ss[i]);
        assert(ss@.subrange(0, i + 1).drop_last() =~= ss@.subrange(0, i as int));
        assert(out@ =~= start + slices_words(ss@.subrange(0, i + 1)));
        i += 1;
    }
    assert(ss@.subrange(0, n as int) =~= ss@);
}

fn push_props(out: &mut Vec<u64>, p: &Vec<(String, String)>)
    ensures
        final(out)@ == old(out)@ + props_words(p@),
{
    let ghost start = out@;
    let n = p.len();
    let mut i: usize = 0;
    while i < n
        invariant
            n == p@.len(),
            0 <= i <= n,
            out@ == start + props_words(p@.subrange(0, i as int)),
        decreases n - i,
    {
        push_str(out, p[i].0.as_str());
        push_str(out, p[i].1.as_str());
        assert(p@.subrange(0, i + 1).drop_last() =~= p@.subrange(0, i as int));
        assert(out@ =~= start + props_words(p@.subrange(0, i + 1)));
        i += 1;
    }
    assert(p@.subrange(0, n as int) =~= p@);
}

fn push_ids(out: &mut Vec<u64>, ids: &Vec<DatasetIDBuf>)
    ensures
        final(out)@ == old(out)@ + ids_words(ids@),
{
    let ghost start = out@;
    let n = ids.len();
    let mut i: usize = 0;
    while i < n
        invariant
            n == ids@.len(),
            0 <= i <= n,
            out@ == start + ids_words(ids@.subrange(0, i as int)),
        decreases n - i,
    {
        push_str(out, ids[i].as_str());
        assert(ids@.subrange(0, i + 1).drop_last() =~= ids@.subrange(0, i as int));
        assert(out@ =~= start + ids_words(ids@.subrange(0, i + 1)));
        i += 1;
    }
    assert(ids@.subrange(0, n as int) =~= ids@);
}

fn push_transform(out: &mut Vec<u64>, t: &Transform)
    ensures
        final(out)@ == old(out)@ + transform_words(*t),
{
    push_str(out, t.engine.as_str());
    out.push(t.additional_properties.len() as u64);
    push_props(out, &t.additional_properties);
    assert(final(out)@ =~= old(out)@ + transform_words(*t));
}

fn push_opt_str(out: &mut Vec<u64>, o: &Option<String>)
    ensures
        final(out)@ == old(out)@ + opt_str_words(*o),
{
    match o {
        None => {
            out.push(0);
        },
        Some(s) => {
            out.push(1);
            push_str(out, s.as_str());
        },
    }
    assert(final(out)@ =~= old(out)@ + opt_str_words(*o));
}

pub fn push_source(out: &mut Vec<u64>, s: &DatasetSource)
    ensures
        final(out)@ == old(out)@ + source_words(*s),
{
    match s {
        DatasetSource::Root(r) => {
            out.push(0);
            push_str(out, r.fetch.as_str());
            push_opt_str(out, &r.prepare);
            push_str(out, r.read.as_str());
            match &r.preprocess {
                None => {
                    out.push(0);
                },
                Some(t) => {
                    out.push(1);
                    push_transform(out, t);
                },
            }
            push_str(out, r.merge.as_str());
            match &r.vocab {
                None => {
                    out.push(0);
                },
                Some(v) => {
                    out.push(1);
                    push_opt_str(out, &v.system_time_column);
                    push_opt_str(out, &v.event_time_column);
                },
            }
        },
        DatasetSource::Derivative(d) => {
            out.push(1);
            out.push(d.inputs.len() as u64);
            push_ids(out, &d.inputs);
            push_transform(out, &d.transform);
        },
    }
    assert(final(out)@ =~= old(out)@ + source_words(*s));
}

fn push_opt_source(out: &mut Vec<u64>, o: &Option<DatasetSource>)
    ensures
        final(out)@ == old(out)@ + opt_source_words(*o),
{
    match o {
        None => {
            out.push(0);
        },
        Some(s) => {
            out.push(1);
            push_source(out, s);
        },
    }
    assert(final(out)@ =~= old(out)@ + opt_source_words(*o));
}

fn push_opt_slice(out: &mut Vec<u64>, o: &Option<DataSlice>)
    ensures
        final(out)@ == old(out)@ + opt_slice_words(*o),
{
    match o {
        None => {
            out.push(0);
        },
        Some(s) => {
            out.push(1);
            push_slice(out, s);
        },
    }
    assert(final(out)@ =~= old(out)@ + opt_slice_words(*o));
}

fn push_opt_time(out: &mut Vec<u64>, o: Option<i64>)
    ensures
        final(out)@ == old(out)@ + opt_time_words(o),
{
    match o {
        None => {
            out.push(0);
        },
        Some(w) => {
            out.push(1);
            out.push(w as u64);
        },
    }
    assert(final(out)@ =~= old(out)@ + opt_time_words(o));
}

fn push_opt_slices(out: &mut Vec<u64>, o: &Option<Vec<DataSlice>>)
    ensures
        final(out)@ == old(out)@ + opt_slices_words(*o),
{
    match o {
        None => {
            out.push(0);
        },
        Some(ss) => {
            out.push(1);
            out.push(ss.len() as u64);
            push_slices(out, ss);
        },
    }
    assert(final(out)@ =~= old(out)@ + opt_slices_words(*o));
}

/// Lays out the content of a block as words.
pub fn block_to_words(b: &MetadataBlock) -> (r: Vec<u64>)
    ensures
        r@ == block_words(*b),
{
    let mut out: Vec<u64> = Vec::new();
    push_str(&mut out, b.prev_block_hash.as_str());
    out.push(b.system_time as u64);
    push_opt_source(&mut out, &b.source);
    push_opt_slice(&mut out, &b.output_slice);
    push_opt_time(&mut out, b.output_watermark);
    push_opt_slices(&mut out, &b.input_slices);
    assert(out@ =~= block_words(*b));
    out
}

/// 64-bit FNV-1a over words.
pub fn fnv_hash(ws: &Vec<u64>) -> (r: u64)
    ensures
        r == fnv(ws@),
{
    let mut h: u64 = FNV_OFFSET;
    let n = ws.len();
    let mut i: usize = 0;
    while i < n
        invariant
            n == ws@.len(),
            0 <= i <= n,
            h == fnv(ws@.subrange(0, i as int)),
        decreases n - i,
    {
        let x: u64 = h ^ ws[i];
        let p: u128 = (x as u128) * (FNV_PRIME as u128);
        assert(ws@.subrange(0, i + 1).drop_last() =~= ws@.subrange(0, i as int));
        h = (p % 0x1_0000_0000_0000_0000u128) as u64;
        i += 1;
    }
    assert(ws@.subrange(0, n as int) =~= ws@);
    h
}

fn hex_char(n: u64) -> (c: char)
    requires
        n < 16,
    ensures
        c == hex_digit(n),
{
    if n < 10 {
        (('0' as u8) + (n as u8)) as char
    } else {
        (('a' as u8) + (n as u8) - 10) as char
    }
}

/// Sixteen lowercase hex digits, most significant first.
pub fn to_hex16(h: u64) -> (r: Vec<char>)
    ensures
        r@ == hex16(h),
{
    let mut out: Vec<char> = Vec::new();
    let mut i: u64 = 0;
    while i < 16
        invariant
            0 <= i <= 16,
            out@.len() == i,
            forall|j: int| 0 <= j < i ==> out@[j] == hex_digit(#[trigger] nibble(h, j)),
        decreases 16 - i,
    {
        let sh: u64 = 60 - 4 * i;
        let d: u64 = (h >> sh) & 15;
        assert(d < 16) by (bit_vector)
            requires
                d == (h >> sh) & 15,
        ;
        out.push(hex_char(d));
        i += 1;
    }
    assert(out@ =~= hex16(h));
    out
}

/// Computes the content hash of a block.
pub fn compute_block_hash(b: &MetadataBlock) -> (r: String)
    ensures
        r@ == content_hash(*b),
{
    let ws = block_to_words(b);
    let h = fnv_hash(&ws);
    let cs = to_hex16(h);
    string_from_chars(&cs)
}

} // verus!
