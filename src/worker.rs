use vstd::prelude::*;
use crate::directory::{
    name_at, lemma_offsets_depend_on_prefix, mode_type, type_from_mode, Directory, RawDirEntry,
    DT_DIR, DT_UNKNOWN,
};
use crate::error::Error;
use crate::encoding::{lemma_offsets_are_records, lemma_record_agrees};
use crate::output::{append_bytes, line_of, whole_lines, lemma_batches_keep_lines, LineBuffer};

verus! {

#[verifier::external_type_specification]
#[verifier::external_body]
pub struct ExRegex(regex::Regex);

/// The path separator.
pub const SLASH: u8 = 0x2f;

/// The byte `.`.
pub const DOT: u8 = 0x2e;

/// The directory part of an output line for the directory at `path`: the
/// path without its terminator, ending with exactly the separator it had or
/// one added.
pub open spec fn prefix_of(path: Seq<u8>) -> Seq<u8> {
    let p = if path.len() > 0 && path.last() == 0u8 {
        path.drop_last()
    } else {
        path
    };
    if p.len() > 0 && p.last() == SLASH {
        p
    } else {
        p.push(SLASH)
    }
}

/// The terminated path of the entry `name` in the directory whose prefix is
/// `dir`.
pub open spec fn child_of(dir: Seq<u8>, name: Seq<u8>) -> Seq<u8> {
    dir + name + seq![0u8]
}

/// The names `.` and `..`, which every directory lists and no walk follows.
pub open spec fn is_dot_name(name: Seq<u8>) -> bool {
    name == seq![DOT] || name == seq![DOT, DOT]
}

/// A UTF-8 continuation byte.
pub open spec fn is_cont(b: u8) -> bool {
    0x80u8 <= b && b <= 0xbfu8
}

/// The length of the well-formed UTF-8 sequence that starts at `i`, or 0 when
/// none does (the Unicode standard's table of well-formed byte sequences).
pub open spec fn utf8_seq_len(s: Seq<u8>, i: int) -> int {
    let n = s.len() - i;
    let b = s[i];
    if b <= 0x7fu8 {
        1
    } else if 0xc2u8 <= b && b <= 0xdfu8 {
        if n >= 2 && is_cont(s[i + 1]) { 2 } else { 0 }
    } else if 0xe0u8 <= b && b <= 0xefu8 {
        let lo: u8 = if b == 0xe0u8 { 0xa0u8 } else { 0x80u8 };
        let hi: u8 = if b == 0xedu8 { 0x9fu8 } else { 0xbfu8 };
        if n >= 3 && lo <= s[i + 1] && s[i + 1] <= hi && is_cont(s[i + 2]) { 3 } else { 0 }
    } else if 0xf0u8 <= b && b <= 0xf4u8 {
        let lo: u8 = if b == 0xf0u8 { 0x90u8 } else { 0x80u8 };
        let hi: u8 = if b == 0xf4u8 { 0x8fu8 } else { 0xbfu8 };
        if n >= 4 && lo <= s[i + 1] && s[i + 1] <= hi && is_cont(s[i + 2]) && is_cont(s[i + 3]) {
            4
        } else {
            0
        }
    } else {
        0
    }
}

/// The bytes from `i` on are a chain of well-formed UTF-8 sequences.
pub open spec fn valid_utf8_from(s: Seq<u8>, i: int) -> bool
    decreases s.len() - i,
{
    if i < 0 || i >= s.len() {
        true
    } else {
        utf8_seq_len(s, i) > 0 && valid_utf8_from(s, i + utf8_seq_len(s, i))
    }
}

/// Whether bytes are valid UTF-8.
pub open spec fn valid_utf8(b: Seq<u8>) -> bool {
    valid_utf8_from(b, 0)
}

/// The characters that valid UTF-8 bytes decode to, as `std::str::from_utf8`
/// gives them.
pub uninterp spec fn utf8_text(b: Seq<u8>) -> Seq<char>;

/// Whether the compiled pattern `re` matches somewhere in `s`, as
/// `regex::Regex::is_match` decides.
pub uninterp spec fn pattern_matches(re: regex::Regex, s: Seq<char>) -> bool;

/// Whether an entry named `name` passes the pattern: always without one;
/// with one, when the name is UTF-8 text that it matches.
pub open spec fn emits(pattern: Option<&regex::Regex>, name: Seq<u8>) -> bool {
    match pattern {
        None => true,
        Some(re) => valid_utf8(name) && pattern_matches(*re, utf8_text(name)),
    }
}

/// Turns the path of a directory that was just opened into the prefix of
/// its entries' output lines.
pub fn make_prefix(path: &mut Vec<u8>)
    ensures
        final(path)@ == prefix_of(old(path)@),
{
    let n = path.len();
    if n > 0 && path[n - 1] == 0 {
        path.pop();
    }
    let m = path.len();
    if m == 0 || path[m - 1] != SLASH {
        path.push(SLASH);
    }
}

/// Fills `out` with the terminated path of entry `name` under `dir`; `out`
/// is a spent path buffer taken back for reuse.
pub fn make_child_path(out: &mut Vec<u8>, dir: &[u8], name: &[u8])
    requires
        dir@.len() + name@.len() + 1 <= usize::MAX,
    ensures
        final(out)@ == child_of(dir@, name@),
{
    out.clear();
    append_bytes(out, dir);
    append_bytes(out, name);
    out.push(0u8);
    assert(out@ =~= child_of(dir@, name@));
}

/// True for the names `.` and `..`.
pub fn is_dot_entry(name: &[u8]) -> (r: bool)
    ensures
        r == is_dot_name(name@),
{
    let n = name.len();
    let r = if n == 1 {
        name[0] == DOT
    } else if n == 2 {
        name[0] == DOT && name[1] == DOT
    } else {
        false
    };
    proof {
        let one = seq![DOT];
        let two = seq![DOT, DOT];
        assert(one.len() == 1 && one[0] == DOT);
        assert(two.len() == 2 && two[0] == DOT && two[1] == DOT);
        if r {
            if n == 1 {
                assert(name@ =~= one);
            } else {
                assert(name@ =~= two);
            }
        } else {
            if name@ == one {
                assert(name@[0] == one[0]);
            }
            if name@ == two {
                assert(name@[0] == two[0] && name@[1] == two[1]);
            }
        }
    }
    r
}

/// The terminated path the walk starts from: `arg` when given, else `.`.
pub fn start_path(arg: Option<&[u8]>) -> (r: Vec<u8>)
    requires
        arg matches Some(a) ==> a@.len() < usize::MAX,
    ensures
        r@ == (match arg {
            Some(a) => a@.push(0u8),
            None => seq![DOT, 0u8],
        }),
{
    let mut r: Vec<u8> = Vec::new();
    match arg {
        Some(a) => {
            append_bytes(&mut r, a);
            r.push(0u8);
        },
        None => {
            r.push(DOT);
            r.push(0u8);
        },
    }
    proof {
        match arg {
            Some(a) => assert(r@ =~= a@.push(0u8)),
            None => assert(r@ =~= seq![DOT, 0u8]),
        }
    }
    r
}

/// Relies on `std::str::from_utf8`: `Some` exactly for valid UTF-8, holding
/// the text the bytes encode.
#[verifier::external_body]
fn utf8_str(b: &[u8]) -> (r: Option<&str>)
    ensures
        r.is_some() == valid_utf8(b@),
        r matches Some(t) ==> t@ == utf8_text(b@),
{
    std::str::from_utf8(b).ok()
}

/// Relies on `regex::Regex::is_match`: whether the pattern matches `s`.
#[verifier::external_body]
fn regex_is_match(re: &regex::Regex, s: &str) -> (r: bool)
    ensures
        r == pattern_matches(*re, s@),
{
    re.is_match(s)
}

/// Whether the entry `name` goes to the output: every entry when there is
/// no pattern; with a pattern, only a UTF-8 name that it matches.
pub fn accepts(pattern: Option<&regex::Regex>, name: &[u8]) -> (r: bool)
    ensures
        r == emits(pattern, name@),
{
    match pattern {
        None => true,
        Some(re) => match utf8_str(name) {
            Some(s) => regex_is_match(re, s),
            None => false,
        },
    }
}

/// Whether the type of `entry` must come from a metadata query: exactly
/// when the kernel did not report it.
pub fn needs_query(entry: &RawDirEntry) -> (r: bool)
    ensures
        r == (entry.tag() == DT_UNKNOWN),
{
    entry.d_type().is_none()
}

/// The type of `entry`: the one the kernel reported; else, from the one
/// metadata query made for it, the type of the mode it returned, or its
/// error unchanged. With no query made for an unknown type, `DT_UNKNOWN`.
pub fn entry_type(entry: &RawDirEntry, queried: Option<Result<u32, Error>>) -> (r: Result<u8, Error>)
    ensures
        entry.tag() != DT_UNKNOWN ==> r == Ok::<u8, Error>(entry.tag()),
        entry.tag() == DT_UNKNOWN ==> r == (match queried {
            Some(Ok(mode)) => Ok::<u8, Error>(mode_type(mode)),
            Some(Err(e)) => Err(e),
            None => Ok(DT_UNKNOWN),
        }),
{
    match entry.d_type() {
        Some(t) => Ok(t),
        None => match queried {
            Some(Ok(mode)) => Ok(type_from_mode(mode)),
            Some(Err(e)) => Err(e),
            None => Ok(DT_UNKNOWN),
        },
    }
}

/// The tag the walk goes by: the type found, or, when it could not be
/// found, `DT_UNKNOWN`, so that the entry counts as no directory.
pub fn walk_tag(found: Result<u8, Error>) -> (r: u8)
    ensures
        r == (match found {
            Ok(t) => t,
            Err(_) => DT_UNKNOWN,
        }),
{
    match found {
        Ok(t) => t,
        Err(_) => DT_UNKNOWN,
    }
}

/// What becomes of one entry of a directory being read.
#[derive(Debug, Clone, Copy, PartialEq, Eq, Structural)]
pub enum EntryAction {
    /// `.` or `..`, or a name the pattern rejects: nothing.
    Skip,
    /// A subdirectory: its path goes to the pending work.
    Descend,
    /// Any other entry: its line goes to the output.
    Emit,
}

/// A hidden name: one that starts with `.`.
pub open spec fn is_hidden_name(name: Seq<u8>) -> bool {
    name.len() > 0 && name[0] == DOT
}

/// What becomes of the entry `name` whose type tag is `tag`.
pub open spec fn action_of(
    name: Seq<u8>,
    tag: u8,
    pattern: Option<&regex::Regex>,
    include_hidden: bool,
) -> EntryAction {
    if !shown(name, include_hidden) {
        EntryAction::Skip
    } else if tag == DT_DIR {
        EntryAction::Descend
    } else if emits(pattern, name) {
        EntryAction::Emit
    } else {
        EntryAction::Skip
    }
}

/// Decides what becomes of the entry `name` whose type tag is `tag`. Hidden
/// entries, other than `.` and `..`, are walked and listed only when
/// `include_hidden`.
pub fn entry_action(name: &[u8], tag: u8, pattern: Option<&regex::Regex>, include_hidden: bool) -> (r:
    EntryAction)
    ensures
        r == action_of(name@, tag, pattern, include_hidden),
{
    if is_dot_entry(name) {
        EntryAction::Skip
    } else if !include_hidden && name.len() > 0 && name[0] == DOT {
        EntryAction::Skip
    } else if tag == DT_DIR {
        EntryAction::Descend
    } else if accepts(pattern, name) {
        EntryAction::Emit
    } else {
        EntryAction::Skip
    }
}

/// The name of the `k`-th record of `d`.
pub open spec fn entry_name(d: Directory, k: int) -> Seq<u8> {
    name_at(d.buf(), d.offsets()[k])
}

/// Neither `.` nor `..`, nor hidden unless hidden entries are wanted.
pub open spec fn shown(name: Seq<u8>, include_hidden: bool) -> bool {
    !is_dot_name(name) && (include_hidden || !is_hidden_name(name))
}

/// The paths of the subdirectories among the first `k` records of `d`,
/// whose type tags are `tags`, in record order.
pub open spec fn children_upto(
    d: Directory,
    tags: Seq<u8>,
    prefix: Seq<u8>,
    include_hidden: bool,
    k: int,
) -> Seq<Seq<u8>>
    decreases k,
{
    if k <= 0 {
        Seq::empty()
    } else {
        let prev = children_upto(d, tags, prefix, include_hidden, k - 1);
        let name = entry_name(d, k - 1);
        if shown(name, include_hidden) && tags[k - 1] == DT_DIR {
            prev.push(child_of(prefix, name))
        } else {
            prev
        }
    }
}

/// The output lines of the entries other than subdirectories among the first
/// `k` records of `d` that pass `pattern`, in record order.
pub open spec fn lines_upto(
    d: Directory,
    tags: Seq<u8>,
    prefix: Seq<u8>,
    include_hidden: bool,
    pattern: Option<&regex::Regex>,
    k: int,
) -> Seq<u8>
    decreases k,
{
    if k <= 0 {
        Seq::empty()
    } else {
        let prev = lines_upto(d, tags, prefix, include_hidden, pattern, k - 1);
        let name = entry_name(d, k - 1);
        if shown(name, include_hidden) && tags[k - 1] != DT_DIR && emits(pattern, name) {
            prev + line_of(prefix, name)
        } else {
            prev
        }
    }
}

/// The batches `bs`, one after the other.
pub open spec fn joined(bs: Seq<Seq<u8>>) -> Seq<u8>
    decreases bs.len(),
{
    if bs.len() == 0 {
        Seq::empty()
    } else {
        joined(bs.drop_last()) + bs.last()
    }
}

/// The contents of each buffer in `vs`.
pub open spec fn contents(vs: Seq<Vec<u8>>) -> Seq<Seq<u8>> {
    vs.map_values(|v: Vec<u8>| v@)
}

/// Goes through the records of `dir`, whose type tags are `tags` (taken
/// from the records, or from a metadata query where they say unknown), under
/// the output prefix `prefix`. Returns the terminated paths of the
/// subdirectories to visit, built in buffers taken from `pool` where it has
/// any, and the batches of output lines that filled up on the way; the
/// lines not yet in a batch stay in `out`.
pub fn process_directory(
    dir: &Directory,
    tags: &[u8],
    prefix: &[u8],
    pattern: Option<&regex::Regex>,
    include_hidden: bool,
    out: &mut LineBuffer,
    pool: &mut Vec<Vec<u8>>,
) -> (r: (Vec<Vec<u8>>, Vec<Vec<u8>>))
    requires
        tags@.len() == dir.offsets().len(),
        prefix@.len() + dir.buf().len() + 1 <= usize::MAX,
    ensures
        contents(r.0@) == children_upto(*dir, tags@, prefix@, include_hidden, tags@.len() as int),
        joined(contents(r.1@)) + final(out)@ == old(out)@ + lines_upto(
            *dir,
            tags@,
            prefix@,
            include_hidden, pattern,
            tags@.len() as int,
        ),
        whole_lines(joined(contents(r.1@))),
        final(out).limit_spec() == old(out).limit_spec(),
        final(pool)@.len() <= old(pool)@.len(),
{
    let mut children: Vec<Vec<u8>> = Vec::new();
    let mut batches: Vec<Vec<u8>> = Vec::new();
    let mut it = dir.iter();
    let mut k: usize = 0;
    let ghost n = tags@.len() as int;
    proof {
        assert(contents(children@) =~= Seq::<Seq<u8>>::empty());
        assert(contents(batches@) =~= Seq::<Seq<u8>>::empty());
        assert(it.remaining() =~= dir.offsets().subrange(0, n));
    }
    loop
        invariant
            it.dir() == dir,
            n == tags@.len() == dir.offsets().len(),
            0 <= k <= n,
            it.remaining() == dir.offsets().subrange(k as int, n),
            prefix@.len() + dir.buf().len() + 1 <= usize::MAX,
            contents(children@) == children_upto(*dir, tags@, prefix@, include_hidden, k as int),
            joined(contents(batches@)) + out@ == old(out)@ + lines_upto(
                *dir,
                tags@,
                prefix@,
                include_hidden, pattern,
                k as int,
            ),
            whole_lines(joined(contents(batches@))),
            out.limit_spec() == old(out).limit_spec(),
            pool@.len() <= old(pool)@.len(),
        ensures
            k == n,
        decreases n - k,
    {
        let ghost before = it.remaining();
        let entry = match it.next() {
            Some(e) => e,
            None => {
                assert(before.len() == 0);
                break ;
            },
        };
        assert(dir.offsets().subrange(k as int, n)[0] == dir.offsets()[k as int]);
        let cname = entry.name();
        let name = cname.as_bytes();
        let tag = tags[k];
        let ghost old_children = contents(children@);
        let ghost old_batches = contents(batches@);
        let ghost old_out = out@;
        match entry_action(name, tag, pattern, include_hidden) {
            EntryAction::Descend => {
                let mut child = match pool.pop() {
                    Some(b) => b,
                    None => Vec::new(),
                };
                make_child_path(&mut child, prefix, name);
                children.push(child);
                assert(contents(children@) =~= old_children.push(child_of(prefix@, name@)));
            },
            EntryAction::Emit => {
                let batch = out.push_line(prefix, name);
                if batch.len() > 0 {
                    batches.push(batch);
                    assert(contents(batches@) =~= old_batches.push(batch@));
                    assert(contents(batches@).drop_last() =~= old_batches);
                    proof {
                        lemma_batches_keep_lines(joined(old_batches), batch@);
                    }
                } else {
                    assert(batch@ =~= Seq::<u8>::empty());
                }
                assert(joined(contents(batches@)) + out@ =~= joined(old_batches) + old_out
                    + line_of(prefix@, name@));
            },
            EntryAction::Skip => {},
        }
        k = k + 1;
        proof {
            assert(it.remaining() =~= dir.offsets().subrange(k as int, n));
        }
    }
    (children, batches)
}

/// `line` stands somewhere in `s` as a run of consecutive bytes.
pub open spec fn holds_run(s: Seq<u8>, line: Seq<u8>) -> bool {
    exists|a: int| 0 <= a && a + line.len() <= s.len() && #[trigger] s.subrange(a, a + line.len()) == line
}

proof fn lemma_children_grow(
    d: Directory,
    tags: Seq<u8>,
    prefix: Seq<u8>,
    include_hidden: bool,
    j: int,
    k: int,
)
    requires
        0 <= j <= k,
    ensures
        children_upto(d, tags, prefix, include_hidden, j).len() <= children_upto(
            d,
            tags,
            prefix,
            include_hidden,
            k,
        ).len(),
        children_upto(d, tags, prefix, include_hidden, k).subrange(
            0,
            children_upto(d, tags, prefix, include_hidden, j).len() as int,
        ) == children_upto(d, tags, prefix, include_hidden, j),
    decreases k - j,
{
    let cj = children_upto(d, tags, prefix, include_hidden, j);
    if j == k {
        assert(cj.subrange(0, cj.len() as int) =~= cj);
    } else {
        lemma_children_grow(d, tags, prefix, include_hidden, j, k - 1);
        let ck1 = children_upto(d, tags, prefix, include_hidden, k - 1);
        let ck = children_upto(d, tags, prefix, include_hidden, k);
        assert(ck.subrange(0, cj.len() as int) =~= ck1.subrange(0, cj.len() as int));
    }
}

proof fn lemma_lines_grow(
    d: Directory,
    tags: Seq<u8>,
    prefix: Seq<u8>,
    include_hidden: bool,
    pattern: Option<&regex::Regex>,
    j: int,
    k: int,
)
    requires
        0 <= j <= k,
    ensures
        lines_upto(d, tags, prefix, include_hidden, pattern, j).len() <= lines_upto(
            d,
            tags,
            prefix,
            include_hidden, pattern,
            k,
        ).len(),
        lines_upto(d, tags, prefix, include_hidden, pattern, k).subrange(
            0,
            lines_upto(d, tags, prefix, include_hidden, pattern, j).len() as int,
        ) == lines_upto(d, tags, prefix, include_hidden, pattern, j),
    decreases k - j,
{
    let lj = lines_upto(d, tags, prefix, include_hidden, pattern, j);
    if j == k {
        assert(lj.subrange(0, lj.len() as int) =~= lj);
    } else {
        lemma_lines_grow(d, tags, prefix, include_hidden, pattern, j, k - 1);
        let lk1 = lines_upto(d, tags, prefix, include_hidden, pattern, k - 1);
        let lk = lines_upto(d, tags, prefix, include_hidden, pattern, k);
        assert(lk.subrange(0, lj.len() as int) =~= lk1.subrange(0, lj.len() as int));
    }
}

/// Nothing in a directory is lost: every record that is shown either has
/// its path among the subdirectories to visit, when its tag says directory,
/// or has its output line among the lines, when it passes the pattern.
pub proof fn lemma_directory_complete(
    d: Directory,
    tags: Seq<u8>,
    prefix: Seq<u8>,
    include_hidden: bool,
    pattern: Option<&regex::Regex>,
    k: int,
)
    requires
        tags.len() == d.offsets().len(),
        0 <= k < tags.len(),
        shown(entry_name(d, k), include_hidden),
    ensures
        tags[k] == DT_DIR ==> children_upto(d, tags, prefix, include_hidden, tags.len() as int).contains(
            child_of(prefix, entry_name(d, k)),
        ),
        tags[k] != DT_DIR && emits(pattern, entry_name(d, k)) ==> holds_run(
            lines_upto(d, tags, prefix, include_hidden, pattern, tags.len() as int),
            line_of(prefix, entry_name(d, k)),
        ),
{
    let n = tags.len() as int;
    let name = entry_name(d, k);
    if tags[k] == DT_DIR {
        lemma_children_grow(d, tags, prefix, include_hidden, k + 1, n);
        let c0 = children_upto(d, tags, prefix, include_hidden, k);
        let c1 = children_upto(d, tags, prefix, include_hidden, k + 1);
        let cn = children_upto(d, tags, prefix, include_hidden, n);
        assert(c1[c0.len() as int] == child_of(prefix, name));
        assert(cn.subrange(0, c1.len() as int)[c0.len() as int] == cn[c0.len() as int]);
        assert(cn[c0.len() as int] == child_of(prefix, name));
    } else if emits(pattern, name) {
        lemma_lines_grow(d, tags, prefix, include_hidden, pattern, k + 1, n);
        let l0 = lines_upto(d, tags, prefix, include_hidden, pattern, k);
        let l1 = lines_upto(d, tags, prefix, include_hidden, pattern, k + 1);
        let ln = lines_upto(d, tags, prefix, include_hidden, pattern, n);
        let line = line_of(prefix, name);
        let a = l0.len() as int;
        assert(l1 == l0 + line);
        assert(ln.subrange(a, a + line.len()) =~= l1.subrange(a, a + line.len()));
        assert(l1.subrange(a, a + line.len()) =~= line);
        assert(ln.subrange(a, a + line.len()) == line);
    }
}

/// Reading a directory again, unmodified, gives the same work: when two
/// reads hold the same record bytes, the subdirectory paths and the output
/// lines made from them are the same, record for record.
pub proof fn lemma_same_records_same_work(
    d1: Directory,
    d2: Directory,
    tags: Seq<u8>,
    prefix: Seq<u8>,
    include_hidden: bool,
    pattern: Option<&regex::Regex>,
)
    requires
        d1.used() <= d1.buf().len(),
        d2.used() <= d2.buf().len(),
        d1.used() == d2.used(),
        d1.buf().subrange(0, d1.used()) == d2.buf().subrange(0, d2.used()),
        tags.len() == d1.offsets().len(),
    ensures
        d1.offsets() == d2.offsets(),
        forall|k: int| 0 <= k < d1.offsets().len() ==> #[trigger] entry_name(d1, k) == entry_name(d2, k),
        children_upto(d1, tags, prefix, include_hidden, tags.len() as int) == children_upto(
            d2,
            tags,
            prefix,
            include_hidden,
            tags.len() as int,
        ),
        lines_upto(d1, tags, prefix, include_hidden, pattern, tags.len() as int) == lines_upto(
            d2,
            tags,
            prefix,
            include_hidden, pattern,
            tags.len() as int,
        ),
{
    let used = d1.used();
    lemma_offsets_depend_on_prefix(d1.buf(), d2.buf(), 0, used);
    lemma_offsets_are_records(d1.buf(), 0, used);
    assert forall|j: int| 0 <= j < used implies d1.buf()[j] == d2.buf()[j] by {
        assert(d1.buf().subrange(0, used)[j] == d2.buf().subrange(0, used)[j]);
    }
    assert forall|k: int| 0 <= k < d1.offsets().len() implies #[trigger] entry_name(d1, k)
        == entry_name(d2, k) by {
        lemma_record_agrees(d1.buf(), d2.buf(), d1.offsets()[k], used);
    }
    lemma_same_work_upto(d1, d2, tags, prefix, include_hidden, pattern, tags.len() as int);
}

proof fn lemma_same_work_upto(
    d1: Directory,
    d2: Directory,
    tags: Seq<u8>,
    prefix: Seq<u8>,
    include_hidden: bool,
    pattern: Option<&regex::Regex>,
    k: int,
)
    requires
        d1.offsets() == d2.offsets(),
        forall|j: int| 0 <= j < d1.offsets().len() ==> #[trigger] entry_name(d1, j) == entry_name(d2, j),
        k <= d1.offsets().len(),
    ensures
        children_upto(d1, tags, prefix, include_hidden, k) == children_upto(
            d2,
            tags,
            prefix,
            include_hidden,
            k,
        ),
        lines_upto(d1, tags, prefix, include_hidden, pattern, k) == lines_upto(
            d2,
            tags,
            prefix,
            include_hidden, pattern,
            k,
        ),
    decreases k,
{
    if k > 0 {
        lemma_same_work_upto(d1, d2, tags, prefix, include_hidden, pattern, k - 1);
        assert(entry_name(d1, k - 1) == entry_name(d2, k - 1));
    }
}

/// What a worker does after one attempt to claim a path.
#[derive(Debug, Clone, Copy, PartialEq, Eq, Structural)]
pub enum Claim {
    /// Process the claimed path; when `leave_idle`, first take one off the
    /// shared idle count.
    Work { leave_idle: bool },
    /// Add one to the shared idle count, then try again.
    JoinIdle,
    /// Wait a moment, then try again.
    Wait,
    /// Every worker is idle and nothing is in flight: stop.
    Stop,
}

/// How a claim changes the shared idle count.
pub open spec fn count_delta(c: Claim) -> int {
    match c {
        Claim::Work { leave_idle } => if leave_idle {
            -1
        } else {
            0
        },
        Claim::JoinIdle => 1,
        _ => 0,
    }
}

/// The claim made by a worker that is idle or not, found a path or not,
/// and saw `idle_now` of `workers` workers idle; and whether it is idle after.
pub open spec fn claim_of(waiting: bool, found: bool, idle_now: usize, workers: usize) -> (
    Claim,
    bool,
) {
    if found {
        (Claim::Work { leave_idle: waiting }, false)
    } else if !waiting {
        (Claim::JoinIdle, true)
    } else if idle_now == workers {
        (Claim::Stop, true)
    } else {
        (Claim::Wait, true)
    }
}

/// One worker's part in detecting that the whole walk is done.
pub struct IdleState {
    waiting: bool,
}

impl IdleState {
    /// Whether the worker is counted idle.
    pub closed spec fn waiting_spec(self) -> bool {
        self.waiting
    }

    /// A worker that is busy, as every worker is at the start.
    pub fn new() -> (r: IdleState)
        ensures
            !r.waiting_spec(),
    {
        IdleState { waiting: false }
    }

    /// Whether the worker is counted idle.
    pub fn is_waiting(&self) -> (r: bool)
        ensures
            r == self.waiting_spec(),
    {
        self.waiting
    }

    /// Decides after one attempt to claim a path: `found` tells whether a
    /// path was claimed, `idle_now` is the idle count read after the attempt.
    pub fn step(&mut self, found: bool, idle_now: usize, workers: usize) -> (r: Claim)
        ensures
            (r, final(self).waiting_spec()) == claim_of(
                old(self).waiting_spec(),
                found,
                idle_now,
                workers,
            ),
    {
        if found {
            let leave = self.waiting;
            self.waiting = false;
            Claim::Work { leave_idle: leave }
        } else if !self.waiting {
            self.waiting = true;
            Claim::JoinIdle
        } else if idle_now == workers {
            Claim::Stop
        } else {
            Claim::Wait
        }
    }
}

/// How many workers are idle.
pub open spec fn idle_count(flags: Seq<bool>) -> int
    decreases flags.len(),
{
    if flags.len() == 0 {
        0
    } else {
        idle_count(flags.drop_last()) + if flags.last() {
            1int
        } else {
            0int
        }
    }
}

proof fn lemma_idle_count_bounds(flags: Seq<bool>)
    ensures
        0 <= idle_count(flags) <= flags.len(),
        idle_count(flags) == flags.len() ==> forall|i: int|
            0 <= i < flags.len() ==> #[trigger] flags[i],
    decreases flags.len(),
{
    if flags.len() > 0 {
        lemma_idle_count_bounds(flags.drop_last());
        if idle_count(flags) == flags.len() {
            assert forall|i: int| 0 <= i < flags.len() implies #[trigger] flags[i] by {
                if i < flags.len() - 1 {
                    assert(flags.drop_last()[i] == flags[i]);
                }
            }
        }
    }
}

proof fn lemma_idle_count_update(flags: Seq<bool>, i: int, v: bool)
    requires
        0 <= i < flags.len(),
    ensures
        idle_count(flags.update(i, v)) == idle_count(flags) - (if flags[i] {
            1int
        } else {
            0int
        }) + (if v {
            1int
        } else {
            0int
        }),
    decreases flags.len(),
{
    let g = flags.update(i, v);
    if i == flags.len() - 1 {
        assert(g.drop_last() =~= flags.drop_last());
    } else {
        assert(g.drop_last() =~= flags.drop_last().update(i, v));
        lemma_idle_count_update(flags.drop_last(), i, v);
    }
}

/// The shared idle count stays the number of idle workers: when it equals
/// that number before worker `i` claims, applying the claim's change to it
/// gives the number after. And a worker stops only once it has seen the
/// count at `workers`; when the count it saw is the true one, that means
/// every worker is idle, so no path is left in flight.
pub proof fn lemma_idle_count_tracks_workers(
    flags: Seq<bool>,
    i: int,
    found: bool,
    idle_now: usize,
)
    requires
        0 <= i < flags.len(),
    ensures
        ({
            let (c, w) = claim_of(flags[i], found, idle_now, flags.len() as usize);
            idle_count(flags.update(i, w)) == idle_count(flags) + count_delta(c)
        }),
        ({
            let (c, w) = claim_of(flags[i], found, idle_now, flags.len() as usize);
            c == Claim::Stop && idle_now == idle_count(flags) && flags.len() <= usize::MAX
                ==> forall|j: int| 0 <= j < flags.len() ==> #[trigger] flags.update(i, w)[j]
        }),
{
    let (c, w) = claim_of(flags[i], found, idle_now, flags.len() as usize);
    lemma_idle_count_update(flags, i, w);
    lemma_idle_count_bounds(flags);
    if c == Claim::Stop && idle_now == idle_count(flags) && flags.len() <= usize::MAX {
        assert(flags.update(i, w) =~= flags);
    }
}

} // verus!
