use vstd::prelude::*;
use vstd::slice::slice_subrange;
use crate::error::{Error, CAPACITY_EXCEEDED, WRITE_ZERO};

verus! {

#[verifier::external_type_specification]
#[verifier::external_body]
pub struct ExStdoutLock<'a>(std::io::StdoutLock<'a>);

/// The byte that ends every output line.
pub const NEWLINE: u8 = 0x0a;

/// One output line: the directory prefix, the entry name and a newline.
pub open spec fn line_of(dir: Seq<u8>, name: Seq<u8>) -> Seq<u8> {
    dir + name + seq![NEWLINE]
}

/// Empty, or ending with a newline: made of whole lines only.
pub open spec fn whole_lines(s: Seq<u8>) -> bool {
    s.len() == 0 || s.last() == NEWLINE
}

/// Batches of whole lines, written one after the other in any order, are
/// whole lines together: no line of one batch is cut by another.
pub proof fn lemma_batches_keep_lines(a: Seq<u8>, b: Seq<u8>)
    requires
        whole_lines(a),
        whole_lines(b),
    ensures
        whole_lines(a + b),
        whole_lines(b + a),
{
    if b.len() > 0 {
        assert((a + b).last() == b.last());
    }
    if a.len() > 0 {
        assert((b + a).last() == a.last());
    }
}

/// A worker's batch of output lines, handed out for writing whenever the
/// next line would bring it to its limit.
pub struct LineBuffer {
    buf: Vec<u8>,
    limit: usize,
}

impl View for LineBuffer {
    type V = Seq<u8>;

    closed spec fn view(&self) -> Seq<u8> {
        self.buf@
    }
}

impl LineBuffer {
    #[verifier::type_invariant]
    spec fn inv(self) -> bool {
        whole_lines(self.buf@)
    }

    /// The size at which the batch is handed out.
    pub closed spec fn limit_spec(self) -> usize {
        self.limit
    }

    /// An empty batch that is handed out before it reaches `limit` bytes.
    pub fn new(limit: usize) -> (r: LineBuffer)
        ensures
            r@ == Seq::<u8>::empty(),
            r.limit_spec() == limit,
    {
        LineBuffer { buf: Vec::with_capacity(limit), limit }
    }

    /// The bytes waiting to be written.
    pub fn pending(&self) -> (r: &[u8])
        ensures
            r@ == self@,
            whole_lines(r@),
    {
        proof {
            use_type_invariant(self);
        }
        self.buf.as_slice()
    }

    /// Adds the line `dir`, `name`, newline. When the batch with that line
    /// would reach the limit, the earlier lines are taken out and returned
    /// first, and the line starts a new batch; otherwise nothing is returned.
    pub fn push_line(&mut self, dir: &[u8], name: &[u8]) -> (flushed: Vec<u8>)
        requires
            dir@.len() + name@.len() + 1 <= usize::MAX,
        ensures
            final(self).limit_spec() == old(self).limit_spec(),
            old(self)@.len() + dir@.len() + name@.len() + 1 >= old(self).limit_spec() ==> flushed@
                == old(self)@ && final(self)@ == line_of(dir@, name@),
            old(self)@.len() + dir@.len() + name@.len() + 1 < old(self).limit_spec() ==> flushed@
                == Seq::<u8>::empty() && final(self)@ == old(self)@ + line_of(dir@, name@),
            whole_lines(flushed@),
            whole_lines(final(self)@),
    {
        proof {
            use_type_invariant(&*self);
        }
        let mut batch: Vec<u8> = Vec::new();
        std::mem::swap(&mut batch, &mut self.buf);
        let mut flushed: Vec<u8> = Vec::new();
        let line_len = dir.len() + name.len() + 1;
        if batch.len().saturating_add(line_len) >= self.limit {
            std::mem::swap(&mut flushed, &mut batch);
        }
        let ghost start = batch@;
        append_bytes(&mut batch, dir);
        append_bytes(&mut batch, name);
        batch.push(NEWLINE);
        assert(batch@ =~= start + line_of(dir@, name@));
        self.buf = batch;
        flushed
    }

    /// Hands out what is left, ending the batch.
    pub fn finish(self) -> (r: Vec<u8>)
        ensures
            r@ == self@,
            whole_lines(r@),
    {
        proof {
            use_type_invariant(&self);
        }
        self.buf
    }
}

/// Appends `src` to `dst`.
pub(crate) fn append_bytes(dst: &mut Vec<u8>, src: &[u8])
    requires
        old(dst)@.len() + src@.len() <= usize::MAX,
    ensures
        final(dst)@ == old(dst)@ + src@,
{
    let ghost start = dst@;
    let mut i: usize = 0;
    while i < src.len()
        invariant
            i <= src@.len(),
            start.len() + src@.len() <= usize::MAX,
            dst@ == start + src@.subrange(0, i as int),
        decreases src@.len() - i,
    {
        dst.push(src[i]);
        i = i + 1;
        assert(dst@ =~= start + src@.subrange(0, i as int));
    }
    assert(src@.subrange(0, src@.len() as int) =~= src@);
}

/// What a locked standard output has accepted so far, in order. Each
/// trusted write below states how one call extends it.
pub uninterp spec fn sent(out: std::io::StdoutLock<'static>) -> Seq<u8>;

/// Relies on std's `Write::write` for a locked standard output. `Ok(n)`
/// means the first `n` bytes of `bytes` were written, with `n` at most
/// `bytes.len()`; an error means none were written.
#[verifier::external_body]
fn write_once(out: &mut std::io::StdoutLock<'static>, bytes: &[u8]) -> (r: Result<usize, Error>)
    ensures
        r matches Ok(n) ==> n <= bytes@.len() && sent(*final(out)) == sent(*old(out))
            + bytes@.subrange(0, n as int),
        r is Err ==> sent(*final(out)) == sent(*old(out)),
{
    match std::io::Write::write(out, bytes) {
        Ok(n) => Ok(n),
        Err(e) => Err(Error::from(e.raw_os_error().unwrap_or(0))),
    }
}

/// What to do after one write of the bytes still owed.
#[derive(Debug, Clone, Copy, PartialEq, Eq, Structural)]
pub enum WriteStep {
    /// This many bytes are now written; write the rest.
    More(usize),
    /// Every byte is written.
    Done,
    /// The write failed.
    Failed(Error),
}

/// After a write of `bytes[written..len]`: `Ok(n)` is the count the writer
/// took, `Err` its error. A write that took nothing fails with `WRITE_ZERO`,
/// one that claims more than was owed with `CAPACITY_EXCEEDED`.
pub fn after_write(written: usize, len: usize, result: Result<usize, Error>) -> (r: WriteStep)
    requires
        written < len,
    ensures
        r == (match result {
            Ok(n) => if n == 0 {
                WriteStep::Failed(Error(WRITE_ZERO))
            } else if n == len - written {
                WriteStep::Done
            } else if n < len - written {
                WriteStep::More((written + n) as usize)
            } else {
                WriteStep::Failed(Error(CAPACITY_EXCEEDED))
            },
            Err(e) => WriteStep::Failed(e),
        }),
{
    match result {
        Ok(n) => {
            if n == 0 {
                WriteStep::Failed(Error(WRITE_ZERO))
            } else if n == len - written {
                WriteStep::Done
            } else if n < len - written {
                WriteStep::More(written + n)
            } else {
                WriteStep::Failed(Error(CAPACITY_EXCEEDED))
            }
        },
        Err(e) => WriteStep::Failed(e),
    }
}

/// Writes all of `bytes` to the locked standard output, calling `write` on
/// the bytes still owed until every one is taken, so short writes lose
/// nothing. Holding the lock for the whole loop keeps the bytes of one call
/// together in the stream. For an empty slice nothing is written. On `Ok`
/// the stream has taken exactly `bytes`, in order; on an error it has taken
/// a strict prefix of them.
pub fn write_to_stdout(out: &mut std::io::StdoutLock<'static>, bytes: &[u8]) -> (r: Result<
    (),
    Error,
>)
    ensures
        bytes@.len() == 0 ==> r is Ok && sent(*final(out)) == sent(*old(out)),
        r is Ok ==> sent(*final(out)) == sent(*old(out)) + bytes@,
        r is Err ==> exists|w: int|
            0 <= w < bytes@.len() && sent(*final(out)) == sent(*old(out)) + bytes@.subrange(0, w),
{
    let len = bytes.len();
    if len == 0 {
        return Ok(());
    }
    let ghost start = sent(*out);
    let mut written: usize = 0;
    loop
        invariant
            written < len == bytes@.len(),
            start == sent(*old(out)),
            sent(*out) == start + bytes@.subrange(0, written as int),
        decreases len - written,
    {
        let ghost before = sent(*out);
        let rest = slice_subrange(bytes, written, len);
        let result = write_once(out, rest);
        proof {
            match result {
                Ok(n) => {
                    assert(sent(*out) == before + rest@.subrange(0, n as int));
                    assert(bytes@.subrange(0, written as int) + rest@.subrange(0, n as int)
                        =~= bytes@.subrange(0, written + n));
                    if n == 0 {
                        assert(bytes@.subrange(0, written as int) =~= bytes@.subrange(
                            0,
                            written + n,
                        ));
                    }
                },
                Err(_) => {},
            }
        }
        match after_write(written, len, result) {
            WriteStep::More(w) => {
                written = w;
            },
            WriteStep::Done => {
                assert(bytes@.subrange(0, len as int) =~= bytes@);
                assert(sent(*out) == start + bytes@);
                return Ok(());
            },
            WriteStep::Failed(e) => {
                assert(sent(*out) == start + bytes@.subrange(0, written as int));
                assert(0 <= written < bytes@.len());
                return Err(e);
            },
        }
    }
}

} // verus!
