use veneer::directory::{type_from_mode, DT_DIR, DT_UNKNOWN, MAX_RECORD_LEN};
use veneer::error::CAPACITY_EXCEEDED;
use veneer::reader::{after_read, initial_buffer, make_room, ReadStep, READ_CHUNK};
use veneer::{Directory, Error};

const DT_REG: u8 = 8;

fn record(ino: u64, name: &[u8], tag: u8) -> Vec<u8> {
    let unpadded = 19 + name.len() + 1;
    let reclen = (unpadded + 7) / 8 * 8;
    let mut r = Vec::new();
    r.extend_from_slice(&ino.to_le_bytes());
    r.extend_from_slice(&0u64.to_le_bytes());
    r.extend_from_slice(&(reclen as u16).to_le_bytes());
    r.push(tag);
    r.extend_from_slice(name);
    while r.len() < reclen {
        r.push(0);
    }
    r
}

fn listing(records: &[(&[u8], u8)]) -> Vec<u8> {
    let mut buf = Vec::new();
    for (i, (name, tag)) in records.iter().enumerate() {
        buf.extend(record(i as u64 + 1, name, *tag));
    }
    buf
}

fn collect(dir: &Directory) -> Vec<(Vec<u8>, Option<u8>)> {
    let mut out = Vec::new();
    let mut it = dir.iter();
    while let Some(e) = it.next() {
        out.push((e.name().as_bytes().to_vec(), e.d_type()));
    }
    out
}

#[test]
fn parses_records_in_order() {
    let buf = listing(&[
        (b".", DT_DIR),
        (b"..", DT_DIR),
        (b"alpha", DT_REG),
        (b"a-much-longer-name-than-the-others", DT_DIR),
        (b"mystery", DT_UNKNOWN),
    ]);
    let used = buf.len();
    let dir = Directory::from_listing(7, buf, used).unwrap();
    assert_eq!(dir.raw_fd(), 7);
    let got = collect(&dir);
    assert_eq!(
        got,
        vec![
            (b".".to_vec(), Some(DT_DIR)),
            (b"..".to_vec(), Some(DT_DIR)),
            (b"alpha".to_vec(), Some(DT_REG)),
            (b"a-much-longer-name-than-the-others".to_vec(), Some(DT_DIR)),
            (b"mystery".to_vec(), None),
        ]
    );
}

#[test]
fn fresh_iter_restarts() {
    let buf = listing(&[(b"x", DT_REG), (b"y", DT_REG)]);
    let used = buf.len();
    let dir = Directory::from_listing(3, buf, used).unwrap();
    assert_eq!(collect(&dir).len(), 2);
    assert_eq!(collect(&dir).len(), 2);
}

#[test]
fn empty_listing_yields_nothing() {
    let dir = Directory::from_listing(3, vec![0u8; 64], 0).unwrap();
    assert!(dir.iter().next().is_none());
    assert_eq!(dir.iter().size_hint(), (0, Some(0)));
}

#[test]
fn only_used_bytes_are_walked() {
    let mut buf = listing(&[(b"kept", DT_REG)]);
    let used = buf.len();
    buf.extend(vec![0xffu8; 100]);
    let dir = Directory::from_listing(3, buf, used).unwrap();
    assert_eq!(collect(&dir), vec![(b"kept".to_vec(), Some(DT_REG))]);
}

#[test]
fn malformed_listings_are_refused() {
    let good = listing(&[(b"abc", DT_REG)]);
    let used = good.len();
    assert!(Directory::from_listing(3, good.clone(), used + 1).is_none());
    assert!(Directory::from_listing(3, good.clone(), used - 1).is_none());
    let mut zero_len = good.clone();
    zero_len[16] = 0;
    zero_len[17] = 0;
    assert!(Directory::from_listing(3, zero_len, used).is_none());
    let mut no_terminator = listing(&[(b"abcd", DT_REG)]);
    let n = no_terminator.len();
    for b in no_terminator[19..].iter_mut() {
        *b = b'z';
    }
    assert!(Directory::from_listing(3, no_terminator, n).is_none());
}

#[test]
fn size_hint_bounds() {
    let one: &[u8] = b"a";
    let buf = listing(&[(one, DT_REG); 30]);
    let used = buf.len();
    let dir = Directory::from_listing(3, buf, used).unwrap();
    assert_eq!(used, 30 * 24);
    assert_eq!(dir.iter().size_hint(), (used / 280, Some(used / 24)));
}

#[test]
fn many_records_past_one_chunk() {
    let names: Vec<Vec<u8>> = (0..500).map(|i| format!("entry-{i:04}").into_bytes()).collect();
    let records: Vec<(&[u8], u8)> = names.iter().map(|n| (n.as_slice(), DT_REG)).collect();
    let all = listing(&records);
    assert!(all.len() > READ_CHUNK);

    let mut dirents = initial_buffer();
    let mut used = 0usize;
    let record_len = 32usize;
    assert_eq!(all.len(), 500 * record_len);
    let mut pos = 0usize;
    let mut counts = Vec::new();
    loop {
        make_room(&mut dirents, used);
        let spare = dirents.len() - used;
        let take = (spare.min(600) / record_len * record_len).min(all.len() - pos);
        assert!(take > 0 || pos == all.len());
        dirents[used..used + take].copy_from_slice(&all[pos..pos + take]);
        pos += take;
        let result = Ok(take);
        match after_read(used, dirents.len(), result) {
            ReadStep::More(n) => used = n,
            ReadStep::Done => break,
            ReadStep::Failed(e) => panic!("read failed: {:?}", e),
        }
        let so_far = Directory::from_listing(3, dirents.clone(), used);
        if let Some(d) = so_far {
            counts.push(collect(&d).len());
        }
    }
    assert!(dirents.len() > READ_CHUNK);
    let dir = Directory::from_listing(3, dirents, used).unwrap();
    let got = collect(&dir);
    assert_eq!(got.len(), 500);
    assert_eq!(got[499].0, b"entry-0499".to_vec());
    assert!(counts.windows(2).all(|w| w[0] <= w[1]));
}

#[test]
fn initial_buffer_is_one_chunk() {
    let b = initial_buffer();
    assert_eq!(b.len(), READ_CHUNK);
    assert!(b.iter().all(|&x| x == 0));
}

#[test]
fn make_room_grows_only_when_short() {
    let mut b = vec![1u8; 4096];
    make_room(&mut b, 4096 - MAX_RECORD_LEN);
    assert_eq!(b.len(), 4096);
    make_room(&mut b, 4096 - MAX_RECORD_LEN + 1);
    assert_eq!(b.len(), 8192);
    assert!(b[..4096].iter().all(|&x| x == 1));
    assert!(b[4096..].iter().all(|&x| x == 0));
}

#[test]
fn after_read_steps() {
    assert_eq!(after_read(10, 100, Ok(0)), ReadStep::Done);
    assert_eq!(after_read(10, 100, Ok(40)), ReadStep::More(50));
    assert_eq!(after_read(10, 100, Ok(90)), ReadStep::More(100));
    assert_eq!(after_read(10, 100, Ok(91)), ReadStep::Failed(Error(CAPACITY_EXCEEDED)));
    assert_eq!(after_read(10, 100, Err(Error(9))), ReadStep::Failed(Error(9)));
}

#[test]
fn type_from_mode_reads_format_bits() {
    assert_eq!(type_from_mode(0o040755), DT_DIR);
    assert_eq!(type_from_mode(0o100644), DT_REG);
    assert_eq!(type_from_mode(0o120777), 10);
}

#[test]
fn layout_matches_kernel_definitions() {
    assert_eq!(DT_DIR, libc::DT_DIR);
    assert_eq!(DT_UNKNOWN, libc::DT_UNKNOWN);
    assert_eq!(DT_REG, libc::DT_REG);
    assert_eq!(MAX_RECORD_LEN, std::mem::size_of::<libc::dirent64>());
    assert_eq!(type_from_mode(libc::S_IFDIR | 0o755), libc::DT_DIR);
}

#[test]
fn record_lengths_outside_kernel_range_are_refused() {
    let mut short = vec![0u8; 20];
    short[16] = 20;
    assert!(Directory::from_listing(3, short, 20).is_none());
    let mut long = vec![0u8; 288];
    long[16] = 0x20;
    long[17] = 0x01;
    long[19] = b'x';
    assert!(Directory::from_listing(3, long, 288).is_none());
    let mut ok = vec![0u8; 24];
    ok[16] = 24;
    ok[19] = b'x';
    let dir = Directory::from_listing(3, ok, 24).unwrap();
    assert_eq!(dir.iter().size_hint(), (0, Some(1)));
}
