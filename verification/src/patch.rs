//! Byte-level patch engine for a compact binary diff format.
//!
//! A patch file is a magic prefix, a sequence of edit records, and an end
//! marker.  Each record names a destination offset (three big-endian bytes)
//! and carries either a literal run (two big-endian length bytes followed by
//! that many bytes) or, when the length is zero, a run-length fill (two
//! big-endian count bytes and one fill value).  Records are applied in file
//! order to a pre-sized buffer; a record whose target range exceeds the
//! buffer stops the engine there, with every earlier record applied and the
//! buffer never written beyond its length.

use vstd::prelude::*;

use crate::bytes::read_bytes;

verus! {

#[derive(Debug, PartialEq, Eq, Structural, Clone, Copy)]
pub enum PatchError {
    /// The patch bytes do not follow the record framing.
    MalformedPatch,
    /// A record's target range exceeds the buffer length.
    PatchOutOfBounds,
}

/// One edit record of a patch file.
#[derive(Debug, Clone)]
pub enum PatchRecord {
    Literal { offset: u32, data: Vec<u8> },
    Fill { offset: u32, count: u16, value: u8 },
}

pub ghost enum PatchRecordView {
    Literal { offset: u32, data: Seq<u8> },
    Fill { offset: u32, count: u16, value: u8 },
}

impl View for PatchRecord {
    type V = PatchRecordView;

    open spec fn view(&self) -> PatchRecordView {
        match self {
            PatchRecord::Literal { offset, data } => PatchRecordView::Literal {
                offset: *offset,
                data: data@,
            },
            PatchRecord::Fill { offset, count, value } => PatchRecordView::Fill {
                offset: *offset,
                count: *count,
                value: *value,
            },
        }
    }
}

pub open spec fn views_of(rs: Seq<PatchRecord>) -> Seq<PatchRecordView> {
    rs.map_values(|r: PatchRecord| r@)
}

/// Destination offset of a record.
pub open spec fn rec_offset(r: PatchRecordView) -> int {
    match r {
        PatchRecordView::Literal { offset, .. } => offset as int,
        PatchRecordView::Fill { offset, .. } => offset as int,
    }
}

/// Number of bytes a record writes.
pub open spec fn rec_len(r: PatchRecordView) -> int {
    match r {
        PatchRecordView::Literal { data, .. } => data.len() as int,
        PatchRecordView::Fill { count, .. } => count as int,
    }
}

/// The `i`-th byte a record writes, for `0 <= i < rec_len(r)`.
pub open spec fn rec_byte(r: PatchRecordView, i: int) -> u8 {
    match r {
        PatchRecordView::Literal { data, .. } => data[i],
        PatchRecordView::Fill { value, .. } => value,
    }
}

/// Whether a record's target range lies inside a buffer of length `len`.
pub open spec fn fits(len: int, r: PatchRecordView) -> bool {
    rec_offset(r) + rec_len(r) <= len
}

/// `buf` with the bytes of `d` written at `off`, everything else unchanged.
pub open spec fn overwrite(buf: Seq<u8>, off: int, d: Seq<u8>) -> Seq<u8> {
    Seq::new(buf.len(), |i: int| if off <= i < off + d.len() { d[i - off] } else { buf[i] })
}

/// `buf` after one record is applied.
pub open spec fn apply_record(buf: Seq<u8>, r: PatchRecordView) -> Seq<u8> {
    Seq::new(
        buf.len(),
        |i: int|
            if rec_offset(r) <= i < rec_offset(r) + rec_len(r) {
                rec_byte(r, i - rec_offset(r))
            } else {
                buf[i]
            },
    )
}

/// `buf` after the first `n` records of `rs` are applied in order; a record
/// that does not fit is skipped (the engine stops before such a record, so
/// the skip case is never reached through `fit_prefix_len`).
pub open spec fn apply_upto(buf: Seq<u8>, rs: Seq<PatchRecordView>, n: int) -> Seq<u8>
    decreases n,
{
    if n <= 0 {
        buf
    } else {
        let prev = apply_upto(buf, rs, n - 1);
        if fits(prev.len() as int, rs[n - 1]) {
            apply_record(prev, rs[n - 1])
        } else {
            prev
        }
    }
}

/// Number of leading records of `rs` that fit a buffer of length `len`.
pub open spec fn fit_prefix_len(len: int, rs: Seq<PatchRecordView>) -> int
    decreases rs.len(),
{
    if rs.len() == 0 {
        0
    } else if !fits(len, rs[0]) {
        0
    } else {
        1 + fit_prefix_len(len, rs.drop_first())
    }
}

pub proof fn lemma_apply_upto_len(buf: Seq<u8>, rs: Seq<PatchRecordView>, n: int)
    ensures
        apply_upto(buf, rs, n).len() == buf.len(),
    decreases n,
{
    if n > 0 {
        lemma_apply_upto_len(buf, rs, n - 1);
    }
}

/// `fit_prefix_len` is the index of the first record that does not fit, or
/// the record count when every record fits.
pub proof fn lemma_fit_prefix_len(len: int, rs: Seq<PatchRecordView>, k: int)
    requires
        0 <= k <= rs.len(),
        forall|j: int| 0 <= j < k ==> fits(len, #[trigger] rs[j]),
        k < rs.len() ==> !fits(len, rs[k]),
    ensures
        fit_prefix_len(len, rs) == k,
    decreases rs.len(),
{
    if rs.len() > 0 && k > 0 {
        let rest = rs.drop_first();
        assert(forall|j: int| 0 <= j < k - 1 ==> fits(len, #[trigger] rest[j]));
        lemma_fit_prefix_len(len, rest, k - 1);
    }
}

/// The patch outcome is a function of the starting buffer and the record
/// sequence alone: two applications of the same records to the same bytes
/// agree byte for byte.
pub proof fn lemma_patch_deterministic(
    buf: Seq<u8>,
    rs: Seq<PatchRecordView>,
    out1: Seq<u8>,
    out2: Seq<u8>,
)
    requires
        out1 == apply_upto(buf, rs, fit_prefix_len(buf.len() as int, rs)),
        out2 == apply_upto(buf, rs, fit_prefix_len(buf.len() as int, rs)),
    ensures
        out1 == out2,
{
}

/// Write the bytes of `data` into `buf` at `off`.
fn write_literal(buf: &mut Vec<u8>, off: usize, data: &Vec<u8>)
    requires
        off + data.len() <= old(buf).len(),
    ensures
        final(buf)@ == overwrite(old(buf)@, off as int, data@),
{
    let mut i: usize = 0;
    while i < data.len()
        invariant
            i <= data@.len(),
            off + data@.len() <= old(buf).len(),
            buf@.len() == old(buf)@.len(),
            forall|j: int|
                0 <= j < buf@.len() ==> #[trigger] buf@[j] == (if off <= j < off + i {
                    data@[j - off]
                } else {
                    old(buf)@[j]
                }),
        decreases data@.len() - i,
    {
        buf.set(off + i, data[i]);
        i = i + 1;
    }
    proof {
        assert(buf@ =~= overwrite(old(buf)@, off as int, data@));
    }
}

/// Write `count` copies of `value` into `buf` at `off`.
fn write_fill(buf: &mut Vec<u8>, off: usize, count: u16, value: u8)
    requires
        off + count as usize <= old(buf).len(),
    ensures
        final(buf)@.len() == old(buf)@.len(),
        forall|j: int|
            0 <= j < final(buf)@.len() ==> #[trigger] final(buf)@[j] == (if off <= j < off
                + count as int {
                value
            } else {
                old(buf)@[j]
            }),
{
    let n = count as usize;
    let mut i: usize = 0;
    while i < n
        invariant
            i <= n,
            off + n <= old(buf).len(),
            buf@.len() == old(buf)@.len(),
            forall|j: int|
                0 <= j < buf@.len() ==> #[trigger] buf@[j] == (if off <= j < off + i {
                    value
                } else {
                    old(buf)@[j]
                }),
        decreases n - i,
    {
        buf.set(off + i, value);
        i = i + 1;
    }
}

/// Apply every record, in order, to `buf`.  The engine stops at the first
/// record whose target range exceeds the buffer: earlier edits stay applied,
/// no byte beyond the buffer length is touched, and the buffer length never
/// changes.
pub fn apply_records(buf: &mut Vec<u8>, records: &Vec<PatchRecord>) -> (r: Result<
    (),
    PatchError,
>)
    ensures
        final(buf)@.len() == old(buf)@.len(),
        final(buf)@ == apply_upto(
            old(buf)@,
            views_of(records@),
            fit_prefix_len(old(buf)@.len() as int, views_of(records@)),
        ),
        r is Ok <==> fit_prefix_len(old(buf)@.len() as int, views_of(records@))
            == records@.len(),
        r is Err ==> r == Err::<(), PatchError>(PatchError::PatchOutOfBounds),
{
    let ghost rsv = views_of(records@);
    let ghost len0 = old(buf)@.len() as int;
    let mut k: usize = 0;
    while k < records.len()
        invariant
            k <= records@.len(),
            rsv == views_of(records@),
            rsv.len() == records@.len(),
            len0 == old(buf)@.len() as int,
            buf@.len() == old(buf)@.len(),
            forall|j: int| 0 <= j < k ==> fits(len0, #[trigger] rsv[j]),
            buf@ == apply_upto(old(buf)@, rsv, k as int),
        decreases records@.len() - k,
    {
        proof {
            assert(rsv[k as int] == records@[k as int]@);
        }
        let fit: bool = match &records[k] {
            PatchRecord::Literal { offset, data } => {
                (*offset as u128) + (data.len() as u128) <= (buf.len() as u128)
            },
            PatchRecord::Fill { offset, count, .. } => {
                (*offset as u128) + (*count as u128) <= (buf.len() as u128)
            },
        };
        if !fit {
            proof {
                assert(!fits(len0, rsv[k as int]));
                lemma_fit_prefix_len(len0, rsv, k as int);
            }
            return Err(PatchError::PatchOutOfBounds);
        }
        let ghost pre = buf@;
        match &records[k] {
            PatchRecord::Literal { offset, data } => {
                write_literal(buf, *offset as usize, data);
                proof {
                    assert(buf@ =~= apply_record(pre, rsv[k as int]));
                }
            },
            PatchRecord::Fill { offset, count, value } => {
                write_fill(buf, *offset as usize, *count, *value);
                proof {
                    assert(buf@ =~= apply_record(pre, rsv[k as int]));
                }
            },
        }
        proof {
            assert(apply_upto(old(buf)@, rsv, k + 1) == apply_record(pre, rsv[k as int]));
        }
        k = k + 1;
    }
    proof {
        lemma_fit_prefix_len(len0, rsv, rsv.len() as int);
    }
    Ok(())
}

/// Value of the two big-endian bytes of `b` at `off`.
pub open spec fn u16_be_at(b: Seq<u8>, off: int) -> u16 {
    (b[off] * 0x100 + b[off + 1]) as u16
}

/// Value of the three big-endian bytes of `b` at `off`.
pub open spec fn u24_be_at(b: Seq<u8>, off: int) -> u32 {
    (b[off] * 0x10000 + b[off + 1] * 0x100 + b[off + 2]) as u32
}

fn read_u16_be(b: &Vec<u8>, off: usize) -> (r: u16)
    requires
        off + 2 <= b.len(),
    ensures
        r == u16_be_at(b@, off as int),
{
    let x0 = b[off] as u16;
    let x1 = b[off + 1] as u16;
    x0 * 0x100 + x1
}

fn read_u24_be(b: &Vec<u8>, off: usize) -> (r: u32)
    requires
        off + 3 <= b.len(),
    ensures
        r == u24_be_at(b@, off as int),
{
    let x0 = b[off] as u32;
    let x1 = b[off + 1] as u32;
    let x2 = b[off + 2] as u32;
    x0 * 0x10000 + x1 * 0x100 + x2
}

/// Whether the three bytes at `off` spell the end marker.
pub open spec fn is_end_marker(b: Seq<u8>, off: int) -> bool {
    b[off] == 0x45 && b[off + 1] == 0x4f && b[off + 2] == 0x46
}

/// The records encoded from `off` onward, up to the end marker; `None` when
/// the framing is broken (truncated record, missing end marker).
pub open spec fn spec_parse_records(b: Seq<u8>, off: int) -> Option<Seq<PatchRecordView>>
    decreases b.len() - off,
{
    if off + 3 <= b.len() && is_end_marker(b, off) {
        Some(Seq::empty())
    } else if off + 5 <= b.len() {
        let offset = u24_be_at(b, off);
        let size = u16_be_at(b, off + 3);
        if size > 0 {
            if off + 5 + size <= b.len() {
                match spec_parse_records(b, off + 5 + size) {
                    Some(rest) => Some(
                        seq![
                            PatchRecordView::Literal {
                                offset,
                                data: b.subrange(off + 5, off + 5 + size),
                            },
                        ] + rest,
                    ),
                    None => None,
                }
            } else {
                None
            }
        } else {
            if off + 8 <= b.len() {
                match spec_parse_records(b, off + 8) {
                    Some(rest) => Some(
                        seq![
                            PatchRecordView::Fill {
                                offset,
                                count: u16_be_at(b, off + 5),
                                value: b[off + 7],
                            },
                        ] + rest,
                    ),
                    None => None,
                }
            } else {
                None
            }
        }
    } else {
        None
    }
}

/// Whether `b` begins with the patch-file magic prefix.
pub open spec fn has_magic(b: Seq<u8>) -> bool {
    b.len() >= 5 && b[0] == 0x50 && b[1] == 0x41 && b[2] == 0x54 && b[3] == 0x43 && b[4] == 0x48
}

/// The record sequence of a whole patch file, `None` when malformed.
pub open spec fn spec_parse_ips(b: Seq<u8>) -> Option<Seq<PatchRecordView>> {
    if has_magic(b) {
        spec_parse_records(b, 5)
    } else {
        None
    }
}

/// Decode a whole patch file into its record sequence.
pub fn parse_ips(b: &Vec<u8>) -> (r: Result<Vec<PatchRecord>, PatchError>)
    ensures
        match r {
            Ok(rs) => spec_parse_ips(b@) == Some(views_of(rs@)),
            Err(e) => e == PatchError::MalformedPatch && spec_parse_ips(b@) is None,
        },
{
    if b.len() < 5 {
        return Err(PatchError::MalformedPatch);
    }
    if !(b[0] == 0x50 && b[1] == 0x41 && b[2] == 0x54 && b[3] == 0x43 && b[4] == 0x48) {
        return Err(PatchError::MalformedPatch);
    }
    let mut acc: Vec<PatchRecord> = Vec::new();
    let mut off: usize = 5;
    loop
        invariant
            has_magic(b@),
            5 <= off <= b@.len(),
            forall|t: Seq<PatchRecordView>|
                spec_parse_records(b@, off as int) == Some(t) ==> spec_parse_ips(b@) == Some(
                    views_of(acc@) + t,
                ),
            spec_parse_records(b@, off as int) is None ==> spec_parse_ips(b@) is None,
        decreases b@.len() - off,
    {
        let remaining = b.len() - off;
        if remaining >= 3 && b[off] == 0x45 && b[off + 1] == 0x4f && b[off + 2] == 0x46 {
            proof {
                assert(spec_parse_records(b@, off as int) == Some(
                    Seq::<PatchRecordView>::empty(),
                ));
                assert(views_of(acc@) + Seq::<PatchRecordView>::empty() =~= views_of(acc@));
            }
            return Ok(acc);
        }
        if remaining < 5 {
            proof {
                assert(spec_parse_records(b@, off as int) is None);
            }
            return Err(PatchError::MalformedPatch);
        }
        let offset = read_u24_be(b, off);
        let size = read_u16_be(b, off + 3);
        let ghost prev_acc = acc@;
        let ghost prev_off = off as int;
        if size > 0 {
            if remaining - 5 < size as usize {
                proof {
                    assert(spec_parse_records(b@, off as int) is None);
                }
                return Err(PatchError::MalformedPatch);
            }
            let data = read_bytes(b, off + 5, size as usize);
            acc.push(PatchRecord::Literal { offset, data });
            off = off + 5 + size as usize;
            proof {
                let rv = PatchRecordView::Literal {
                    offset,
                    data: b@.subrange(prev_off + 5, prev_off + 5 + size),
                };
                assert(views_of(prev_acc.push(PatchRecord::Literal { offset, data })) =~= views_of(
                    prev_acc,
                ) + seq![rv]);
                assert forall|t: Seq<PatchRecordView>|
                    spec_parse_records(b@, off as int) == Some(t) implies spec_parse_ips(b@)
                    == Some(views_of(acc@) + t) by {
                    assert(spec_parse_records(b@, prev_off) == Some(seq![rv] + t));
                    assert(views_of(prev_acc) + (seq![rv] + t) =~= views_of(acc@) + t);
                }
            }
        } else {
            if remaining < 8 {
                proof {
                    assert(spec_parse_records(b@, off as int) is None);
                }
                return Err(PatchError::MalformedPatch);
            }
            let count = read_u16_be(b, off + 5);
            let value = b[off + 7];
            acc.push(PatchRecord::Fill { offset, count, value });
            off = off + 8;
            proof {
                let rv = PatchRecordView::Fill { offset, count, value };
                assert(views_of(prev_acc.push(PatchRecord::Fill { offset, count, value }))
                    =~= views_of(prev_acc) + seq![rv]);
                assert forall|t: Seq<PatchRecordView>|
                    spec_parse_records(b@, off as int) == Some(t) implies spec_parse_ips(b@)
                    == Some(views_of(acc@) + t) by {
                    assert(spec_parse_records(b@, prev_off) == Some(seq![rv] + t));
                    assert(views_of(prev_acc) + (seq![rv] + t) =~= views_of(acc@) + t);
                }
            }
        }
    }
}

/// A patch file held as raw bytes; decoding happens when it is applied.
#[derive(Debug, Clone)]
pub struct Ips {
    pub bytes: Vec<u8>,
}

impl Ips {
    pub fn new(bytes: Vec<u8>) -> (s: Self)
        ensures
            s.bytes@ == bytes@,
    {
        Ips { bytes }
    }

    /// Decode this patch file and apply its records to `buf` in order.
    pub fn apply_to(&mut self, buf: &mut Vec<u8>) -> (r: Result<(), PatchError>)
        ensures
            final(self).bytes@ == old(self).bytes@,
            final(buf)@.len() == old(buf)@.len(),
            spec_parse_ips(old(self).bytes@) is None ==> r == Err::<(), PatchError>(
                PatchError::MalformedPatch,
            ) && final(buf)@ == old(buf)@,
            spec_parse_ips(old(self).bytes@) matches Some(rs) ==> {
                &&& final(buf)@ == apply_upto(
                    old(buf)@,
                    rs,
                    fit_prefix_len(old(buf)@.len() as int, rs),
                )
                &&& (r is Ok <==> fit_prefix_len(old(buf)@.len() as int, rs) == rs.len())
                &&& (r is Err ==> r == Err::<(), PatchError>(PatchError::PatchOutOfBounds))
            },
    {
        match parse_ips(&self.bytes) {
            Err(e) => Err(e),
            Ok(records) => apply_records(buf, &records),
        }
    }
}

} // verus!
