use vstd::prelude::*;
use vstd::slice::slice_subrange;
use crate::cstr::{is_terminated, CStr};

verus! {

/// Offset of the record-length field inside a directory record.
pub const RECLEN_OFFSET: usize = 16;

/// Offset of the entry-type tag inside a directory record.
pub const TYPE_OFFSET: usize = 18;

/// Offset of the first byte of the name inside a directory record.
pub const NAME_OFFSET: usize = 19;

/// The largest record the kernel can write: header, name and padding.
pub const MAX_RECORD_LEN: usize = 280;

/// The room that a record needs besides its name.
pub const NAME_SLACK: usize = 256;

/// The shortest record the kernel writes: header, a one-byte name and its
/// terminator, padded to eight bytes.
pub const MIN_RECORD_LEN: usize = 24;

/// Type tag of an entry whose type the kernel did not report.
pub const DT_UNKNOWN: u8 = 0;

/// Type tag of a directory.
pub const DT_DIR: u8 = 4;

/// The record length stored little-endian at `off`.
pub open spec fn reclen_at(buf: Seq<u8>, off: int) -> int {
    buf[off + RECLEN_OFFSET as int] as int + 256 * (buf[off + RECLEN_OFFSET as int + 1] as int)
}

/// How many bytes from `start` on, before `end`, precede the first zero.
pub open spec fn nonzero_prefix(buf: Seq<u8>, start: int, end: int) -> int
    decreases end - start,
{
    if start >= end || buf[start] == 0 {
        0
    } else {
        1 + nonzero_prefix(buf, start + 1, end)
    }
}

/// The length of the name of the record at `off`.
pub open spec fn name_len_at(buf: Seq<u8>, off: int) -> int {
    nonzero_prefix(buf, off + NAME_OFFSET as int, off + reclen_at(buf, off))
}

/// The name of the record at `off`, without its terminator.
pub open spec fn name_at(buf: Seq<u8>, off: int) -> Seq<u8> {
    buf.subrange(off + NAME_OFFSET as int, off + NAME_OFFSET as int + name_len_at(buf, off))
}

/// The type tag of the record at `off`.
pub open spec fn type_at(buf: Seq<u8>, off: int) -> u8 {
    buf[off + TYPE_OFFSET as int]
}

/// The record at `off` lies within the first `used` bytes, has a length the
/// kernel can write and holds a zero-terminated name.
pub open spec fn record_ok(buf: Seq<u8>, off: int, used: int) -> bool {
    &&& 0 <= off
    &&& off + NAME_OFFSET < used
    &&& MIN_RECORD_LEN <= reclen_at(buf, off) <= MAX_RECORD_LEN
    &&& off + reclen_at(buf, off) <= used
    &&& off + NAME_OFFSET + name_len_at(buf, off) < off + reclen_at(buf, off)
}

/// From `off` to `used` the bytes are a chain of whole records.
pub open spec fn listing_ok(buf: Seq<u8>, off: int, used: int) -> bool
    decreases used - off,
{
    if off >= used {
        off == used
    } else {
        record_ok(buf, off, used) && listing_ok(buf, off + reclen_at(buf, off), used)
    }
}

/// The offsets of the records met by walking from `off` to `used`, each
/// found by adding the previous record's length.
pub open spec fn record_offsets(buf: Seq<u8>, off: int, used: int) -> Seq<int>
    decreases used - off,
{
    if off >= used || !record_ok(buf, off, used) {
        Seq::empty()
    } else {
        seq![off].add(record_offsets(buf, off + reclen_at(buf, off), used))
    }
}

/// What `nonzero_prefix` counts: non-zero bytes, then a zero or `end`.
pub proof fn lemma_nonzero_prefix(buf: Seq<u8>, start: int, end: int)
    requires
        0 <= start <= end <= buf.len(),
    ensures
        0 <= nonzero_prefix(buf, start, end) <= end - start,
        forall|k: int|
            start <= k < start + nonzero_prefix(buf, start, end) ==> #[trigger] buf[k] != 0,
        start + nonzero_prefix(buf, start, end) < end ==> buf[start + nonzero_prefix(
            buf,
            start,
            end,
        )] == 0,
    decreases end - start,
{
    if start < end && buf[start] != 0 {
        lemma_nonzero_prefix(buf, start + 1, end);
    }
}

/// A chain of records from `off` to `used` spans at least `MIN_RECORD_LEN`
/// and at most `MAX_RECORD_LEN` bytes per record.
pub proof fn lemma_count_bounds(buf: Seq<u8>, off: int, used: int)
    requires
        listing_ok(buf, off, used),
    ensures
        MIN_RECORD_LEN * record_offsets(buf, off, used).len() <= used - off,
        used - off <= MAX_RECORD_LEN * record_offsets(buf, off, used).len(),
    decreases used - off,
{
    if off < used {
        lemma_count_bounds(buf, off + reclen_at(buf, off), used);
    }
}

/// Only the first `used` bytes decide what a walk from `off` finds.
pub proof fn lemma_offsets_depend_on_prefix(a: Seq<u8>, b: Seq<u8>, off: int, used: int)
    requires
        0 <= off,
        used <= a.len(),
        used <= b.len(),
        a.subrange(0, used) == b.subrange(0, used),
    ensures
        record_offsets(a, off, used) == record_offsets(b, off, used),
        listing_ok(a, off, used) == listing_ok(b, off, used),
    decreases used - off,
{
    if off < used {
        assert forall|k: int| 0 <= k < used implies a[k] == b[k] by {
            assert(a[k] == a.subrange(0, used)[k]);
            assert(b[k] == b.subrange(0, used)[k]);
        }
        if off + NAME_OFFSET < used && MIN_RECORD_LEN <= reclen_at(a, off) <= MAX_RECORD_LEN && off
            + reclen_at(a, off) <= used {
            assert(reclen_at(a, off) == reclen_at(b, off));
            lemma_nonzero_prefix_agree(
                a,
                b,
                off + NAME_OFFSET as int,
                off + reclen_at(a, off),
            );
            lemma_offsets_depend_on_prefix(a, b, off + reclen_at(a, off), used);
        } else if off + NAME_OFFSET < used {
            assert(reclen_at(a, off) == reclen_at(b, off));
        }
    }
}

pub proof fn lemma_nonzero_prefix_agree(a: Seq<u8>, b: Seq<u8>, start: int, end: int)
    requires
        0 <= start <= end <= a.len(),
        end <= b.len(),
        forall|k: int| start <= k < end ==> a[k] == b[k],
    ensures
        nonzero_prefix(a, start, end) == nonzero_prefix(b, start, end),
    decreases end - start,
{
    if start < end {
        lemma_nonzero_prefix_agree(a, b, start + 1, end);
    }
}

/// Counts the non-zero bytes in `buf[start..end]` before the first zero.
fn scan_name(buf: &Vec<u8>, start: usize, end: usize) -> (n: usize)
    requires
        start <= end <= buf@.len(),
    ensures
        n == nonzero_prefix(buf@, start as int, end as int),
{
    let mut j: usize = start;
    while j < end && buf[j] != 0
        invariant
            start <= j <= end <= buf@.len(),
            nonzero_prefix(buf@, start as int, end as int) == (j - start) + nonzero_prefix(
                buf@,
                j as int,
                end as int,
            ),
        decreases end - j,
    {
        j = j + 1;
    }
    j - start
}

/// Reads the record length at `off`.
fn read_reclen(buf: &Vec<u8>, off: usize) -> (r: usize)
    requires
        off + RECLEN_OFFSET + 1 < buf.len(),
    ensures
        r == reclen_at(buf@, off as int),
{
    buf[off + RECLEN_OFFSET] as usize + 256 * (buf[off + RECLEN_OFFSET + 1] as usize)
}

/// Checks the record at `off`.
fn check_record(buf: &Vec<u8>, off: usize, used: usize) -> (r: bool)
    requires
        used <= buf@.len(),
    ensures
        r == record_ok(buf@, off as int, used as int),
{
    if off >= used || used - off <= NAME_OFFSET {
        return false;
    }
    let len = read_reclen(buf, off);
    if len < MIN_RECORD_LEN || len > MAX_RECORD_LEN || len > used - off {
        return false;
    }
    let n = scan_name(buf, off + NAME_OFFSET, off + len);
    n < len - NAME_OFFSET
}

/// An open directory together with the raw records the kernel returned for it.
///
/// The first `bytes_used` bytes of `dirents` are always a chain of whole
/// records.
pub struct Directory {
    fd: i32,
    dirents: Vec<u8>,
    bytes_used: usize,
}

impl Directory {
    #[verifier::type_invariant]
    spec fn inv(self) -> bool {
        &&& self.bytes_used <= self.dirents@.len()
        &&& listing_ok(self.dirents@, 0, self.bytes_used as int)
    }

    /// The descriptor.
    pub closed spec fn fd_spec(self) -> i32 {
        self.fd
    }

    /// The buffer that holds the records.
    pub closed spec fn buf(self) -> Seq<u8> {
        self.dirents@
    }

    /// How many bytes of the buffer hold records.
    pub closed spec fn used(self) -> int {
        self.bytes_used as int
    }

    /// The offsets of the records, in buffer order.
    pub open spec fn offsets(self) -> Seq<int> {
        record_offsets(self.buf(), 0, self.used())
    }

    /// Takes the descriptor and the bytes read from it; `None` when the first
    /// `bytes_used` bytes are not a chain of whole records.
    pub fn from_listing(fd: i32, dirents: Vec<u8>, bytes_used: usize) -> (r: Option<Directory>)
        ensures
            r.is_some() == (bytes_used <= dirents@.len() && listing_ok(
                dirents@,
                0,
                bytes_used as int,
            )),
            r.is_some() ==> r.unwrap().fd_spec() == fd && r.unwrap().buf() == dirents@
                && r.unwrap().used() == bytes_used,
    {
        if bytes_used > dirents.len() {
            return None;
        }
        let mut off: usize = 0;
        while off < bytes_used
            invariant
                bytes_used <= dirents@.len(),
                off <= bytes_used,
                listing_ok(dirents@, 0, bytes_used as int) == listing_ok(
                    dirents@,
                    off as int,
                    bytes_used as int,
                ),
            decreases bytes_used - off,
        {
            if !check_record(&dirents, off, bytes_used) {
                return None;
            }
            let len = read_reclen(&dirents, off);
            off = off + len;
        }
        Some(Directory { fd, dirents, bytes_used })
    }

    /// The size of the buffer that holds the records.
    pub fn buffer_len(&self) -> (r: usize)
        ensures
            r == self.buf().len(),
    {
        self.dirents.len()
    }

    /// The descriptor.
    pub fn raw_fd(&self) -> (r: i32)
        ensures
            r == self.fd_spec(),
    {
        self.fd
    }

    /// A fresh walk over the records, from the first.
    pub fn iter<'a>(&'a self) -> (r: IterDir<'a>)
        ensures
            r.dir() == self,
            r.remaining() == self.offsets(),
    {
        proof {
            use_type_invariant(self);
        }
        IterDir { directory: self, offset: 0 }
    }
}

/// A walk over the records of a directory.
pub struct IterDir<'a> {
    directory: &'a Directory,
    offset: usize,
}

impl<'a> IterDir<'a> {
    #[verifier::type_invariant]
    spec fn inv(self) -> bool {
        &&& self.directory.bytes_used <= self.directory.dirents@.len()
        &&& listing_ok(self.directory.dirents@, self.offset as int, self.directory.bytes_used as int)
    }

    /// The directory walked.
    pub closed spec fn dir(self) -> &'a Directory {
        self.directory
    }

    /// The offsets of the records not yet handed out.
    pub closed spec fn remaining(self) -> Seq<int> {
        record_offsets(self.directory.dirents@, self.offset as int, self.directory.bytes_used as int)
    }

    /// The next record, in buffer order.
    pub fn next(&mut self) -> (r: Option<RawDirEntry<'a>>)
        ensures
            final(self).dir() == old(self).dir(),
            old(self).remaining().len() == 0 ==> r.is_none() && final(self).remaining()
                == old(self).remaining(),
            old(self).remaining().len() > 0 ==> r.is_some() && r.unwrap().dir() == old(self).dir()
                && r.unwrap().offset() == old(self).remaining()[0] && final(self).remaining()
                == old(self).remaining().drop_first(),
    {
        proof {
            use_type_invariant(&*self);
        }
        let dir = self.directory;
        let off = self.offset;
        if off >= dir.bytes_used {
            return None;
        }
        let len = read_reclen(&dir.dirents, off);
        let name_len = scan_name(&dir.dirents, off + NAME_OFFSET, off + len);
        proof {
            lemma_nonzero_prefix(
                dir.dirents@,
                off + NAME_OFFSET as int,
                off + len as int,
            );
            assert(record_offsets(dir.dirents@, off as int, dir.bytes_used as int).drop_first()
                =~= record_offsets(dir.dirents@, off + len as int, dir.bytes_used as int));
        }
        self.offset = off + len;
        Some(RawDirEntry { directory: dir, offset: off, name_len })
    }

    /// Bounds on the number of records of the directory: every record takes
    /// at least `MIN_RECORD_LEN` and at most `MAX_RECORD_LEN` bytes.
    pub fn size_hint(&self) -> (r: (usize, Option<usize>))
        ensures
            r.0 == self.dir().used() / MAX_RECORD_LEN as int,
            r.1 == Some((self.dir().used() / (MAX_RECORD_LEN - NAME_SLACK) as int) as usize),
            r.0 <= self.dir().offsets().len() <= r.1.unwrap(),
    {
        proof {
            use_type_invariant(self.directory);
            lemma_count_bounds(self.directory.dirents@, 0, self.directory.bytes_used as int);
            let c = self.directory.offsets().len() as int;
            let u = self.directory.bytes_used as int;
            assert(u / 280 <= c) by (nonlinear_arith)
                requires
                    u <= 280 * c,
                    0 <= u,
                    0 <= c,
            ;
            assert(c <= u / 24) by (nonlinear_arith)
                requires
                    24 * c <= u,
                    0 <= c,
            ;
        }
        let used = self.directory.bytes_used;
        (used / MAX_RECORD_LEN, Some(used / (MAX_RECORD_LEN - NAME_SLACK)))
    }
}

/// One record of a directory, by its offset in the directory's buffer.
#[derive(Clone, Copy)]
pub struct RawDirEntry<'a> {
    directory: &'a Directory,
    offset: usize,
    name_len: usize,
}

impl<'a> RawDirEntry<'a> {
    #[verifier::type_invariant]
    spec fn inv(self) -> bool {
        &&& self.directory.bytes_used <= self.directory.dirents@.len()
        &&& record_ok(self.directory.dirents@, self.offset as int, self.directory.bytes_used as int)
        &&& self.name_len == name_len_at(self.directory.dirents@, self.offset as int)
    }

    /// The directory the record belongs to.
    pub closed spec fn dir(self) -> &'a Directory {
        self.directory
    }

    /// Where the record starts in the directory's buffer.
    pub closed spec fn offset(self) -> int {
        self.offset as int
    }

    /// The name of the record, without terminator.
    pub open spec fn name_spec(self) -> Seq<u8> {
        name_at(self.dir().buf(), self.offset())
    }

    /// The type tag the kernel wrote into the record.
    pub open spec fn tag(self) -> u8 {
        type_at(self.dir().buf(), self.offset())
    }

    /// The name, borrowed from the directory's buffer.
    pub fn name(&self) -> (r: CStr<'a>)
        ensures
            r@ == self.name_spec(),
            r@.len() < self.dir().buf().len(),
    {
        proof {
            use_type_invariant(self);
            lemma_nonzero_prefix(
                self.directory.dirents@,
                self.offset + NAME_OFFSET as int,
                self.offset + reclen_at(self.directory.dirents@, self.offset as int),
            );
        }
        let start = self.offset + NAME_OFFSET;
        let bytes = slice_subrange(self.directory.dirents.as_slice(), start, start + self.name_len + 1);
        proof {
            assert(is_terminated(bytes@));
            assert(bytes@.drop_last() =~= self.name_spec());
        }
        CStr::from_bytes(bytes)
    }

    /// The type the kernel reported inline, or `None` when it reported
    /// `DT_UNKNOWN` and the type must come from a metadata query.
    pub fn d_type(&self) -> (r: Option<u8>)
        ensures
            r.is_none() == (self.tag() == DT_UNKNOWN),
            r.is_some() ==> r.unwrap() == self.tag(),
    {
        proof {
            use_type_invariant(self);
        }
        let tag = self.directory.dirents[self.offset + TYPE_OFFSET];
        if tag == DT_UNKNOWN {
            None
        } else {
            Some(tag)
        }
    }
}

/// The type tag that a file mode stands for: its format bits, shifted down.
pub open spec fn mode_type(mode: u32) -> u8 {
    ((mode & 0o170000u32) >> 12u32) as u8
}

/// The type tag of an entry whose metadata reports `mode`.
pub fn type_from_mode(mode: u32) -> (r: u8)
    ensures
        r == mode_type(mode),
{
    ((mode & 0o170000u32) >> 12u32) as u8
}

} // verus!
