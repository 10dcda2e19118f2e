use tar::archive::Archive;
use tar::error::{Corruption, Error};
use tar::source::MemSource;
use tar::unpack::{destination, Step, Target, Unpack};

fn octal(field: &mut [u8], value: u64) {
    let digits: usize = field.len() - 1;
    let text = format!("{:0width$o}", value, width = digits);
    field[..digits].copy_from_slice(text.as_bytes());
    field[digits] = 0;
}

fn header(name: &[u8], size: u64) -> [u8; 512] {
    let mut block = [0u8; 512];
    block[..name.len()].copy_from_slice(name);
    octal(&mut block[100..108], 0o644);
    octal(&mut block[124..136], size);
    octal(&mut block[136..148], 0);
    block[156] = b'0';
    let mut sum: u32 = 256;
    for (i, byte) in block.iter().enumerate() {
        if i < 148 || i >= 156 {
            sum += *byte as u32;
        }
    }
    let text = format!("{:06o}\0 ", sum);
    block[148..156].copy_from_slice(text.as_bytes());
    block
}

fn archive_of(members: &[(&[u8], &[u8])]) -> Vec<u8> {
    let mut bytes = Vec::new();
    for (name, content) in members {
        bytes.extend_from_slice(&header(name, content.len() as u64));
        bytes.extend_from_slice(content);
        while bytes.len() % 512 != 0 {
            bytes.push(0);
        }
    }
    bytes.extend_from_slice(&[0u8; 1024]);
    bytes
}

fn write(parts: &[&[u8]]) -> Target {
    Target::Write(parts.iter().map(|part| part.to_vec()).collect())
}

#[test]
fn path_that_climbs_out_is_left_out() {
    assert_eq!(destination(b"../../etc/passwd"), Target::Climbs);
}

#[test]
fn path_that_climbs_within_is_left_out() {
    assert_eq!(destination(b"a/../b"), Target::Climbs);
}

#[test]
fn path_with_a_parent_anywhere_is_left_out() {
    assert_eq!(destination(b".."), Target::Climbs);
    assert_eq!(destination(b"../"), Target::Climbs);
    assert_eq!(destination(b"/.."), Target::Climbs);
    assert_eq!(destination(b"a/.."), Target::Climbs);
    assert_eq!(destination(b"a/b/c/../../../../x"), Target::Climbs);
    assert_eq!(destination(b"./../x"), Target::Climbs);
    assert_eq!(destination(b"a//..//b"), Target::Climbs);
}

#[test]
fn names_that_only_hold_dots_are_names() {
    assert_eq!(destination(b"..."), write(&[b"..."]));
    assert_eq!(destination(b"..a"), write(&[b"..a"]));
    assert_eq!(destination(b"a.."), write(&[b"a.."]));
    assert_eq!(destination(b".a"), write(&[b".a"]));
    assert_eq!(destination(b"a/.b/c."), write(&[b"a", b".b", b"c."]));
}

#[test]
fn path_goes_component_by_component() {
    assert_eq!(destination(b"a"), write(&[b"a"]));
    assert_eq!(destination(b"a/b"), write(&[b"a", b"b"]));
    assert_eq!(destination(b"dir/sub/file.txt"), write(&[b"dir", b"sub", b"file.txt"]));
}

#[test]
fn leading_slashes_are_passed_over() {
    assert_eq!(destination(b"/etc/passwd"), write(&[b"etc", b"passwd"]));
    assert_eq!(destination(b"///test"), write(&[b"test"]));
}

#[test]
fn empty_and_current_components_are_passed_over() {
    assert_eq!(destination(b"a//b"), write(&[b"a", b"b"]));
    assert_eq!(destination(b"a/./b"), write(&[b"a", b"b"]));
    assert_eq!(destination(b"./a"), write(&[b"a"]));
    assert_eq!(destination(b"a/"), write(&[b"a"]));
    assert_eq!(destination(b"a/."), write(&[b"a"]));
    assert_eq!(destination(b"./././a/././/"), write(&[b"a"]));
}

#[test]
fn path_that_names_nothing_is_left_out() {
    assert_eq!(destination(b""), Target::Nameless);
    assert_eq!(destination(b"."), Target::Nameless);
    assert_eq!(destination(b"/"), Target::Nameless);
    assert_eq!(destination(b"//"), Target::Nameless);
    assert_eq!(destination(b"./"), Target::Nameless);
    assert_eq!(destination(b"/./."), Target::Nameless);
}

#[test]
fn written_places_hold_no_slash_and_no_parent() {
    for path in [&b"a/b/c"[..], b"/x/./y//z/", b".hidden/..still/ok..", b"a\\..\\b"] {
        match destination(path) {
            Target::Write(parts) => {
                assert!(!parts.is_empty());
                for part in parts {
                    assert!(!part.is_empty());
                    assert!(!part.contains(&b'/'));
                    assert_ne!(part, b"..".to_vec());
                    assert_ne!(part, b".".to_vec());
                }
            }
            other => panic!("{:?}", other),
        }
    }
}

fn steps(data: Vec<u8>) -> (Vec<(Vec<u8>, Target)>, Option<Error>) {
    let mut archive = Archive::new(MemSource::new(data));
    let mut unpack: Unpack = archive.unpack().unwrap();
    let mut seen = Vec::new();
    loop {
        assert!(unpack.is_done() || archive.raw_file_position() <= unpack.next_offset());
        match unpack.next(&mut archive) {
            Step::Finished => return (seen, None),
            Step::Fail(e) => return (seen, Some(e)),
            Step::Entry { mut entry, target } => {
                let mut content = vec![0u8; entry.size() as usize];
                let n: usize = entry.read_next(&mut archive, &mut content).unwrap();
                assert_eq!(n as u64, entry.size());
                seen.push((content, target));
            }
        }
    }
}

#[test]
fn unpacking_says_where_each_entry_goes() {
    let data = archive_of(&[
        (&b"top.txt"[..], &b"top"[..]),
        (&b"../../etc/passwd"[..], &b"root"[..]),
        (&b"dir/inner.txt"[..], &b"inner"[..]),
        (&b"a/../b"[..], &b"sneaky"[..]),
        (&b"./"[..], &b""[..]),
        (&b"/abs/file"[..], &b"absolute"[..]),
    ]);
    let (seen, end) = steps(data);
    assert_eq!(end, None);
    assert_eq!(
        seen,
        vec![
            (b"top".to_vec(), write(&[b"top.txt"])),
            (b"root".to_vec(), Target::Climbs),
            (b"inner".to_vec(), write(&[b"dir", b"inner.txt"])),
            (b"sneaky".to_vec(), Target::Climbs),
            (b"".to_vec(), Target::Nameless),
            (b"absolute".to_vec(), write(&[b"abs", b"file"])),
        ]
    );
}

#[test]
fn unpacking_goes_on_behind_entries_that_are_not_read() {
    let big = vec![7u8; 70_000];
    let data = archive_of(&[
        (&b"../big"[..], &big[..]),
        (&b"kept"[..], &b"small"[..]),
    ]);
    let mut archive = Archive::new(MemSource::new(data));
    let mut unpack = archive.unpack().unwrap();
    match unpack.next(&mut archive) {
        Step::Entry { entry, target } => {
            assert_eq!(target, Target::Climbs);
            assert_eq!(entry.size(), 70_000);
        }
        other => panic!("{:?}", other),
    }
    assert_eq!(archive.raw_file_position(), 512);
    match unpack.next(&mut archive) {
        Step::Entry { mut entry, target } => {
            assert_eq!(target, write(&[b"kept"]));
            assert_eq!(entry.data_offset(), 512 + 70_144 + 512);
            let mut buf = [0u8; 16];
            assert_eq!(entry.read_next(&mut archive, &mut buf), Ok(5));
            assert_eq!(&buf[..5], b"small");
        }
        other => panic!("{:?}", other),
    }
    assert!(matches!(unpack.next(&mut archive), Step::Finished));
    assert!(unpack.is_done());
    assert!(matches!(unpack.next(&mut archive), Step::Finished));
}

#[test]
fn unpacking_of_an_empty_archive_is_finished_at_once() {
    let (seen, end) = steps(vec![0u8; 1024]);
    assert!(seen.is_empty());
    assert_eq!(end, None);
}

#[test]
fn unpacking_stops_at_the_first_error() {
    let mut data = archive_of(&[
        (&b"one"[..], &b"1"[..]),
        (&b"two"[..], &b"2"[..]),
        (&b"three"[..], &b"3"[..]),
    ]);
    data[1024 + 20] ^= 0xff;
    let (seen, end) = steps(data.clone());
    assert_eq!(seen, vec![(b"1".to_vec(), write(&[b"one"]))]);
    assert_eq!(end, Some(Error::HeaderCorruption(Corruption::ChecksumMismatch)));
    let mut archive = Archive::new(MemSource::new(data));
    let mut unpack = archive.unpack().unwrap();
    assert!(matches!(unpack.next(&mut archive), Step::Entry { .. }));
    assert!(matches!(unpack.next(&mut archive), Step::Fail(_)));
    assert!(unpack.is_done());
    assert!(matches!(unpack.next(&mut archive), Step::Finished));
}

#[test]
fn unpacking_of_a_cut_archive_fails() {
    let mut data = archive_of(&[(&b"one"[..], &b"1"[..])]);
    data.truncate(1024 + 100);
    let (seen, end) = steps(data);
    assert_eq!(seen.len(), 1);
    assert_eq!(end, Some(Error::UnexpectedEof));
}

#[test]
fn unpacking_can_only_start_at_position_zero() {
    let mut archive = Archive::new(MemSource::new(archive_of(&[(&b"one"[..], &b"1"[..])])));
    let mut buf = [0u8; 1];
    assert_eq!(archive.read(&mut buf), Ok(1));
    assert_eq!(archive.unpack().err(), Some(Error::NotAtStart));
}
