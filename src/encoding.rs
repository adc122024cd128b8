use vstd::prelude::*;
use crate::directory::{
    listing_ok, record_offsets, record_ok, reclen_at, name_at, name_len_at, type_at,
    nonzero_prefix, lemma_offsets_depend_on_prefix, lemma_nonzero_prefix_agree, lemma_nonzero_prefix, NAME_OFFSET,
    RECLEN_OFFSET, MIN_RECORD_LEN, MAX_RECORD_LEN,
};
use crate::reader::{lemma_offsets_concat, zeros};
use crate::directory::Directory;

verus! {

/// One entry as a listing describes it: name, type tag, and how many zero
/// bytes of padding follow the name's terminator.
pub type RecordSpec = (Seq<u8>, u8, nat);

/// The length of the record for `r`.
pub open spec fn record_len(r: RecordSpec) -> int {
    NAME_OFFSET + r.0.len() + 1 + r.2
}

/// A record for `r` as the kernel lays it out: inode and offset fields
/// (zero here), the little-endian length, the tag, the name, its terminator
/// and the padding.
pub open spec fn encode_record(r: RecordSpec) -> Seq<u8> {
    let len = record_len(r);
    zeros(RECLEN_OFFSET as nat) + seq![(len % 256) as u8, (len / 256) as u8, r.1] + r.0 + seq![
        0u8,
    ] + zeros(r.2)
}

/// The records for `rs`, one after the other.
pub open spec fn encode_listing(rs: Seq<RecordSpec>) -> Seq<u8>
    decreases rs.len(),
{
    if rs.len() == 0 {
        Seq::empty()
    } else {
        encode_listing(rs.drop_last()) + encode_record(rs.last())
    }
}

/// A record the kernel could write: a name without zero bytes, and a
/// length between the shortest and the longest record.
pub open spec fn record_fits(r: RecordSpec) -> bool {
    &&& forall|i: int| 0 <= i < r.0.len() ==> #[trigger] r.0[i] != 0u8
    &&& MIN_RECORD_LEN <= record_len(r) <= MAX_RECORD_LEN
}

proof fn lemma_nonzero_prefix_exact(buf: Seq<u8>, start: int, end: int, n: int)
    requires
        0 <= start,
        0 <= n,
        start + n < end <= buf.len(),
        forall|k: int| start <= k < start + n ==> #[trigger] buf[k] != 0u8,
        buf[start + n] == 0u8,
    ensures
        nonzero_prefix(buf, start, end) == n,
    decreases n,
{
    if n > 0 {
        lemma_nonzero_prefix_exact(buf, start + 1, end, n - 1);
    }
}

pub(crate) proof fn lemma_offsets_are_records(buf: Seq<u8>, off: int, used: int)
    ensures
        forall|k: int|
            0 <= k < record_offsets(buf, off, used).len() ==> record_ok(
                buf,
                #[trigger] record_offsets(buf, off, used)[k],
                used,
            ),
    decreases used - off,
{
    if off < used && record_ok(buf, off, used) {
        let next = off + reclen_at(buf, off);
        lemma_offsets_are_records(buf, next, used);
        assert forall|k: int|
            0 <= k < record_offsets(buf, off, used).len() implies record_ok(
            buf,
            #[trigger] record_offsets(buf, off, used)[k],
            used,
        ) by {
            if k > 0 {
                assert(record_offsets(buf, off, used)[k] == record_offsets(buf, next, used)[k
                    - 1]);
            }
        }
    }
}

pub(crate) proof fn lemma_record_agrees(a: Seq<u8>, b: Seq<u8>, off: int, used: int)
    requires
        record_ok(a, off, used),
        used <= a.len(),
        used <= b.len(),
        forall|k: int| 0 <= k < used ==> a[k] == b[k],
    ensures
        name_at(a, off) == name_at(b, off),
        type_at(a, off) == type_at(b, off),
{
    assert(reclen_at(a, off) == reclen_at(b, off));
    lemma_nonzero_prefix_agree(a, b, off + NAME_OFFSET as int, off + reclen_at(a, off));
    assert(name_len_at(a, off) == name_len_at(b, off));
    let start = off + NAME_OFFSET as int;
    let n = name_len_at(a, off);
    lemma_nonzero_prefix(a, start, off + reclen_at(a, off));
    assert forall|i: int| 0 <= i < n implies name_at(a, off)[i] == name_at(b, off)[i] by {
        assert(a[start + i] == b[start + i]);
    }
    assert(name_at(a, off) =~= name_at(b, off));
}

proof fn lemma_last_record(before: Seq<u8>, r: RecordSpec)
    requires
        record_fits(r),
    ensures
        ({
            let buf = before + encode_record(r);
            let m = before.len() as int;
            &&& listing_ok(buf, m, buf.len() as int)
            &&& record_offsets(buf, m, buf.len() as int) == seq![m]
            &&& name_at(buf, m) == r.0
            &&& type_at(buf, m) == r.1
        }),
{
    let e = encode_record(r);
    let buf = before + e;
    let m = before.len() as int;
    let len = record_len(r);
    let n = r.0.len() as int;
    assert(e.len() == len);
    assert(buf[m + 16] == (len % 256) as u8);
    assert(buf[m + 17] == (len / 256) as u8);
    assert(reclen_at(buf, m) == len);
    assert(buf[m + 18] == r.1);
    assert forall|k: int| m + 19 <= k < m + 19 + n implies #[trigger] buf[k] != 0u8 by {
        assert(buf[k] == r.0[k - m - 19]);
    }
    assert(buf[m + 19 + n] == 0u8);
    lemma_nonzero_prefix_exact(buf, m + 19, m + len, n);
    assert(record_ok(buf, m, buf.len() as int));
    assert(listing_ok(buf, m + len, buf.len() as int));
    assert(record_offsets(buf, m + len, buf.len() as int) =~= Seq::<int>::empty());
    assert(record_offsets(buf, m, buf.len() as int) =~= seq![m]);
    assert(name_at(buf, m) =~= r.0);
}

/// Parsing finds what was laid out: in a listing made of `rs.len()` records,
/// each with a name free of zero bytes and a length that fits its field, the
/// walk over the records finds exactly `rs.len()` of them, in order, each with
/// the name and the type tag it was written with.
pub proof fn lemma_listing_round_trip(rs: Seq<RecordSpec>)
    requires
        forall|k: int| 0 <= k < rs.len() ==> record_fits(#[trigger] rs[k]),
    ensures
        ({
            let buf = encode_listing(rs);
            let offs = record_offsets(buf, 0, buf.len() as int);
            &&& listing_ok(buf, 0, buf.len() as int)
            &&& offs.len() == rs.len()
            &&& forall|k: int|
                0 <= k < rs.len() ==> name_at(buf, #[trigger] offs[k]) == rs[k].0 && type_at(
                    buf,
                    offs[k],
                ) == rs[k].1
        }),
    decreases rs.len(),
{
    let buf = encode_listing(rs);
    if rs.len() == 0 {
        assert(record_offsets(buf, 0, 0) =~= Seq::<int>::empty());
    } else {
        let init = rs.drop_last();
        let r = rs.last();
        assert(record_fits(rs[rs.len() - 1]));
        assert forall|k: int| 0 <= k < init.len() implies record_fits(#[trigger] init[k]) by {
            assert(init[k] == rs[k]);
        }
        lemma_listing_round_trip(init);
        let b0 = encode_listing(init);
        let m = b0.len() as int;
        let offs0 = record_offsets(b0, 0, m);
        assert(buf == b0 + encode_record(r));
        assert(buf.subrange(0, m) =~= b0.subrange(0, m));
        lemma_offsets_depend_on_prefix(b0, buf, 0, m);
        lemma_last_record(b0, r);
        lemma_offsets_concat(buf, 0, m, buf.len() as int);
        let offs = record_offsets(buf, 0, buf.len() as int);
        assert(offs == offs0 + seq![m]);
        lemma_offsets_are_records(b0, 0, m);
        assert forall|k: int|
            0 <= k < rs.len() implies name_at(buf, #[trigger] offs[k]) == rs[k].0 && type_at(
            buf,
            offs[k],
        ) == rs[k].1 by {
            if k < rs.len() - 1 {
                assert(offs[k] == offs0[k]);
                assert(record_ok(b0, offs0[k], m));
                assert forall|j: int| 0 <= j < m implies b0[j] == buf[j] by {}
                lemma_record_agrees(b0, buf, offs0[k], m);
                assert(init[k] == rs[k]);
            } else {
                assert(offs[k] == m);
            }
        }
    }
}

/// A directory whose filled bytes are the records for `rs` lists exactly
/// those records: `rs.len()` of them, in order, each with its name and tag.
pub proof fn lemma_directory_lists_records(d: Directory, rs: Seq<RecordSpec>)
    requires
        0 <= d.used() <= d.buf().len(),
        forall|k: int| 0 <= k < rs.len() ==> record_fits(#[trigger] rs[k]),
        d.buf().subrange(0, d.used()) == encode_listing(rs),
    ensures
        d.offsets().len() == rs.len(),
        forall|k: int|
            0 <= k < rs.len() ==> name_at(d.buf(), #[trigger] d.offsets()[k]) == rs[k].0
                && type_at(d.buf(), d.offsets()[k]) == rs[k].1,
{
    let e = encode_listing(rs);
    let used = d.used();
    lemma_listing_round_trip(rs);
    assert(e.len() == used);
    assert(e.subrange(0, used) =~= e);
    lemma_offsets_depend_on_prefix(e, d.buf(), 0, used);
    lemma_offsets_are_records(e, 0, used);
    assert forall|k: int|
        0 <= k < rs.len() implies name_at(d.buf(), #[trigger] d.offsets()[k]) == rs[k].0
        && type_at(d.buf(), d.offsets()[k]) == rs[k].1 by {
        assert forall|j: int| 0 <= j < used implies e[j] == d.buf()[j] by {
            assert(d.buf().subrange(0, used)[j] == d.buf()[j]);
        }
        lemma_record_agrees(e, d.buf(), d.offsets()[k], used);
    }
}

} // verus!
