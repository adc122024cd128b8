use vstd::prelude::*;
use crate::directory::{
    listing_ok, record_offsets, reclen_at, record_ok,
    lemma_offsets_depend_on_prefix, MAX_RECORD_LEN,
};
use crate::error::{Error, CAPACITY_EXCEEDED};

verus! {

/// The size of the first buffer and of each later growth.
pub const READ_CHUNK: usize = 4096;

/// `n` zero bytes.
pub open spec fn zeros(n: nat) -> Seq<u8> {
    Seq::new(n, |i: int| 0u8)
}

/// What to do after one bulk read of directory records.
#[derive(Debug, Clone, Copy, PartialEq, Eq, Structural)]
pub enum ReadStep {
    /// More records came; the buffer now holds this many bytes of them.
    More(usize),
    /// The kernel reported the end of the directory.
    Done,
    /// The read failed.
    Failed(Error),
}

/// The buffer a directory's records are first read into.
pub fn initial_buffer() -> (r: Vec<u8>)
    ensures
        r@ == zeros(READ_CHUNK as nat),
{
    let mut v: Vec<u8> = Vec::with_capacity(READ_CHUNK);
    let mut i: usize = 0;
    while i < READ_CHUNK
        invariant
            i <= READ_CHUNK,
            v@ == zeros(i as nat),
        decreases READ_CHUNK - i,
    {
        v.push(0u8);
        i = i + 1;
        assert(v@ =~= zeros(i as nat));
    }
    v
}

/// Before a read: when fewer than `MAX_RECORD_LEN` bytes are left after
/// `bytes_used`, appends `READ_CHUNK` zero bytes, so that the next read has
/// room for at least one whole record.
pub fn make_room(dirents: &mut Vec<u8>, bytes_used: usize)
    requires
        bytes_used <= old(dirents).len(),
        old(dirents).len() + READ_CHUNK <= usize::MAX,
    ensures
        old(dirents)@.len() - bytes_used < MAX_RECORD_LEN ==> final(dirents)@ == old(dirents)@
            + zeros(READ_CHUNK as nat),
        old(dirents)@.len() - bytes_used >= MAX_RECORD_LEN ==> final(dirents)@ == old(dirents)@,
        final(dirents)@.len() - bytes_used >= MAX_RECORD_LEN,
{
    if dirents.len() - bytes_used < MAX_RECORD_LEN {
        let ghost start = dirents@;
        dirents.reserve(READ_CHUNK);
        let mut i: usize = 0;
        while i < READ_CHUNK
            invariant
                i <= READ_CHUNK,
                start.len() + READ_CHUNK <= usize::MAX,
                dirents@ == start + zeros(i as nat),
            decreases READ_CHUNK - i,
        {
            dirents.push(0u8);
            i = i + 1;
            assert(dirents@ =~= start + zeros(i as nat));
        }
    }
}

/// After a read into the buffer's tail: `Ok(n)` is the byte count the
/// kernel reported, `Err` its error.
pub fn after_read(bytes_used: usize, capacity: usize, result: Result<usize, Error>) -> (r:
    ReadStep)
    requires
        bytes_used <= capacity,
    ensures
        r == (match result {
            Ok(n) => if n == 0 {
                ReadStep::Done
            } else if n <= capacity - bytes_used {
                ReadStep::More((bytes_used + n) as usize)
            } else {
                ReadStep::Failed(Error(CAPACITY_EXCEEDED))
            },
            Err(e) => ReadStep::Failed(e),
        }),
{
    match result {
        Ok(n) => {
            if n == 0 {
                ReadStep::Done
            } else if n <= capacity - bytes_used {
                ReadStep::More(bytes_used + n)
            } else {
                ReadStep::Failed(Error(CAPACITY_EXCEEDED))
            }
        },
        Err(e) => ReadStep::Failed(e),
    }
}

/// Two chains of records, one after the other, are one chain whose records
/// are those of the first, then those of the second.
pub proof fn lemma_offsets_concat(buf: Seq<u8>, off: int, mid: int, used: int)
    requires
        0 <= off <= mid <= used <= buf.len(),
        listing_ok(buf, off, mid),
        listing_ok(buf, mid, used),
    ensures
        listing_ok(buf, off, used),
        record_offsets(buf, off, used) == record_offsets(buf, off, mid) + record_offsets(
            buf,
            mid,
            used,
        ),
    decreases mid - off,
{
    if off == mid {
        assert(record_offsets(buf, off, mid) =~= Seq::<int>::empty());
        assert(record_offsets(buf, off, used) =~= Seq::<int>::empty() + record_offsets(
            buf,
            mid,
            used,
        ));
    } else {
        assert(record_ok(buf, off, mid));
        assert(record_ok(buf, off, used));
        let next = off + reclen_at(buf, off);
        lemma_offsets_concat(buf, next, mid, used);
        assert(record_offsets(buf, off, used) =~= record_offsets(buf, off, mid) + record_offsets(
            buf,
            mid,
            used,
        ));
    }
}

/// A read appends records: when a buffer that held whole records up to
/// `used` gets more whole records after them, and its first `used` bytes are
/// kept, the walk finds every earlier record again, in the same order,
/// followed by the new ones. So the count of records never drops as reads
/// go on, and at the end it is the count of all records read.
pub proof fn lemma_read_keeps_records(
    before: Seq<u8>,
    used: int,
    after: Seq<u8>,
    new_used: int,
)
    requires
        0 <= used <= before.len(),
        used <= new_used <= after.len(),
        after.subrange(0, used) == before.subrange(0, used),
        listing_ok(before, 0, used),
        listing_ok(after, used, new_used),
    ensures
        listing_ok(after, 0, new_used),
        record_offsets(after, 0, new_used) == record_offsets(before, 0, used) + record_offsets(
            after,
            used,
            new_used,
        ),
        record_offsets(after, 0, new_used).len() >= record_offsets(before, 0, used).len(),
{
    lemma_offsets_depend_on_prefix(before, after, 0, used);
    lemma_offsets_concat(after, 0, used, new_used);
}

} // verus!
