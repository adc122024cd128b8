use veneer::error::{CAPACITY_EXCEEDED, WRITE_ZERO};
use veneer::output::{after_write, LineBuffer, WriteStep};
use veneer::Error;

#[test]
fn lines_stay_in_batch_below_limit() {
    let mut b = LineBuffer::new(100);
    let f = b.push_line(b"/d/", b"a");
    assert!(f.is_empty());
    let f = b.push_line(b"/d/", b"bb");
    assert!(f.is_empty());
    assert_eq!(b.pending(), b"/d/a\n/d/bb\n");
    assert_eq!(b.finish(), b"/d/a\n/d/bb\n".to_vec());
}

#[test]
fn batch_is_handed_out_before_limit() {
    let mut b = LineBuffer::new(10);
    assert!(b.push_line(b"/d/", b"abc").is_empty());
    let f = b.push_line(b"/d/", b"e");
    assert_eq!(f, b"/d/abc\n".to_vec());
    assert_eq!(b.pending(), b"/d/e\n");
}

#[test]
fn long_line_is_kept_whole() {
    let mut b = LineBuffer::new(4);
    let f = b.push_line(b"/long/", b"name");
    assert!(f.is_empty());
    assert_eq!(b.pending(), b"/long/name\n");
    let f = b.push_line(b"/", b"x");
    assert_eq!(f, b"/long/name\n".to_vec());
}

#[test]
fn two_workers_never_split_lines() {
    let mut a = LineBuffer::new(4096);
    let mut b = LineBuffer::new(4096);
    let mut stream: Vec<u8> = Vec::new();
    for i in 0..10_000 {
        let na = format!("a{i}");
        let nb = format!("b{i}");
        let fa = a.push_line(b"/one/", na.as_bytes());
        stream.extend(fa);
        let fb = b.push_line(b"/two/", nb.as_bytes());
        stream.extend(fb);
    }
    stream.extend(a.finish());
    stream.extend(b.finish());
    let text = String::from_utf8(stream).unwrap();
    let lines: Vec<&str> = text.split_terminator('\n').collect();
    assert_eq!(lines.len(), 20_000);
    for l in &lines {
        let ok_a = l.strip_prefix("/one/a").map(|r| r.parse::<u32>().is_ok()).unwrap_or(false);
        let ok_b = l.strip_prefix("/two/b").map(|r| r.parse::<u32>().is_ok()).unwrap_or(false);
        assert!(ok_a || ok_b, "bad line {l}");
    }
}

#[test]
fn empty_write_succeeds() {
    let mut out = std::io::stdout().lock();
    assert!(veneer::write_to_stdout(&mut out, b"").is_ok());
}

#[test]
fn after_write_steps() {
    assert_eq!(after_write(0, 10, Ok(10)), WriteStep::Done);
    assert_eq!(after_write(4, 10, Ok(6)), WriteStep::Done);
    assert_eq!(after_write(4, 10, Ok(3)), WriteStep::More(7));
    assert_eq!(after_write(4, 10, Ok(0)), WriteStep::Failed(Error(WRITE_ZERO)));
    assert_eq!(after_write(4, 10, Ok(7)), WriteStep::Failed(Error(CAPACITY_EXCEEDED)));
    assert_eq!(after_write(4, 10, Err(Error(32))), WriteStep::Failed(Error(32)));
}

#[test]
fn whole_batch_write_succeeds() {
    let mut out = std::io::stdout().lock();
    assert!(veneer::write_to_stdout(&mut out, b"/tmp/t/a\n/tmp/t/b/c\n").is_ok());
}
