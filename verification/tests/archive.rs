use raptor::archive::{Parts, Role};
use raptor::container::read_members;
use raptor::tarball::is_control_path;
use raptor::{Compression, ControlEntry, DebFile, Error};

fn tar_of(entries: &[(&str, &[u8])]) -> Vec<u8> {
    let mut builder = tar::Builder::new(Vec::new());
    for (path, data) in entries.iter() {
        let mut header = tar::Header::new_gnu();
        header.set_size(data.len() as u64);
        header.set_mode(0o644);
        header.set_cksum();
        builder.append_data(&mut header, path, *data).unwrap();
    }
    builder.into_inner().unwrap()
}

fn ar_of(members: &[(&str, &[u8])]) -> Vec<u8> {
    let mut builder = ar::Builder::new(Vec::new());
    for (name, data) in members.iter() {
        let header = ar::Header::new(name.as_bytes().to_vec(), data.len() as u64);
        builder.append(&header, *data).unwrap();
    }
    builder.into_inner().unwrap()
}

fn control_tar() -> Vec<u8> {
    tar_of(&[
        ("./postinst", b"#!/bin/sh\n"),
        ("./control", b"Package: hello\nVersion: 1.2\nDepends: libc6, libfoo\nInstalled-Size: 7\n"),
    ])
}

fn data_tar() -> Vec<u8> {
    tar_of(&[("./usr/bin/hello", b"binary"), ("./usr/share/doc/hello/README", b"read me")])
}

#[test]
fn write_then_parse_gives_the_package_back() {
    for scheme in [
        Compression::Gz,
        Compression::Bz2,
        Compression::Xz,
        Compression::Zst,
    ] {
        let deb = DebFile::pack(control_tar(), data_tar()).unwrap();
        let bytes = deb.write(scheme).unwrap();
        let mut parsed = DebFile::parse(bytes).unwrap();
        assert_eq!(parsed.debian_binary(), "2.0");
        assert_eq!(parsed.control, control_tar());
        assert_eq!(parsed.data, data_tar());
        let control = parsed.control().unwrap();
        assert_eq!(control.len(), 4);
        assert_eq!(control.get("Package").unwrap().to_string(), "hello");
        assert_eq!(control.get("Version").unwrap().to_string(), "1.2");
        assert!(matches!(control.get("Installed-Size"), Some(ControlEntry::Number(7))));
        match control.get("Depends") {
            Some(ControlEntry::MultiValue(list)) => assert_eq!(list, &["libc6", "libfoo"]),
            other => panic!("{:?}", other),
        }
        assert_eq!(
            parsed.list_files().unwrap(),
            ["usr/bin/hello", "usr/share/doc/hello/README"]
        );
    }
}

#[test]
fn pack_sets_the_marker() {
    let deb = DebFile::pack(vec![1, 2, 3], vec![4, 5]).unwrap();
    assert_eq!(deb.debian_binary(), "2.0\n");
    assert_eq!(deb.debian_binary, "2.0\n");
    assert_eq!(deb.control, [1, 2, 3]);
    assert_eq!(deb.data, [4, 5]);
}

#[test]
fn write_emits_three_members_in_order() {
    let deb = DebFile::pack(control_tar(), data_tar()).unwrap();
    let bytes = deb.write(Compression::Gz).unwrap();
    assert_eq!(&bytes[..8], b"!<arch>\n");
    let mut archive = ar::Archive::new(&bytes[..]);
    let mut seen = Vec::new();
    while let Some(entry) = archive.next_entry() {
        let mut entry = entry.unwrap();
        let name = String::from_utf8(entry.header().identifier().to_vec()).unwrap();
        let size = entry.header().size();
        let mut content = Vec::new();
        std::io::Read::read_to_end(&mut entry, &mut content).unwrap();
        assert_eq!(content.len() as u64, size);
        seen.push((name, content));
    }
    assert_eq!(seen.len(), 3);
    assert_eq!(seen[0].0, "debian-binary");
    assert_eq!(seen[0].1, b"2.0\n");
    assert_eq!(seen[1].0, "control.tar.gz");
    assert_eq!(Compression::Gz.decompress(&seen[1].1).unwrap(), control_tar());
    assert_eq!(seen[2].0, "data.tar.gz");
    assert_eq!(Compression::Gz.decompress(&seen[2].1).unwrap(), data_tar());
}

#[test]
fn write_uses_the_length_of_the_marker() {
    let deb = DebFile { debian_binary: "2.0".to_string(), control: control_tar(), data: data_tar() };
    let bytes = deb.write(Compression::Bz2).unwrap();
    let parsed = DebFile::parse(bytes).unwrap();
    assert_eq!(parsed.debian_binary(), "2.0");
    assert_eq!(parsed.data, data_tar());
}

#[test]
fn archive_of_writes_members_as_given() {
    let members = vec![
        (b"one".to_vec(), b"odd".to_vec()),
        (b"two".to_vec(), b"even".to_vec()),
        (b"none".to_vec(), Vec::new()),
    ];
    let bytes = DebFile::archive_of(&members).unwrap();
    assert_eq!(
        bytes,
        ar_of(&[("one", b"odd"), ("two", b"even"), ("none", b"")])
    );
    assert_eq!(DebFile::archive_of(&Vec::new()).unwrap(), Vec::<u8>::new());
}

#[test]
fn members_are_named_after_the_scheme() {
    let members = DebFile::members("2.0\n", Compression::Zst, vec![1], vec![2, 3]);
    assert_eq!(
        members,
        [
            (b"debian-binary".to_vec(), b"2.0\n".to_vec()),
            (b"control.tar.zst".to_vec(), vec![1]),
            (b"data.tar.zst".to_vec(), vec![2, 3]),
        ]
    );
    let empty = DebFile::members("x", Compression::Xz, Vec::new(), Vec::new());
    assert_eq!(empty[0], (b"debian-binary".to_vec(), b"x".to_vec()));
    assert_eq!(empty[1].0, b"control.tar.xz");
    assert_eq!(empty[2].0, b"data.tar.xz");
}

#[test]
fn missing_data_member() {
    let gz = Compression::Gz.compress(&control_tar()).unwrap();
    let bytes = ar_of(&[("debian-binary", b"2.0\n"), ("control.tar.gz", &gz)]);
    match DebFile::parse(bytes) {
        Err(Error::MissingPart(part)) => assert_eq!(part, "data"),
        other => panic!("{:?}", other),
    }
}

#[test]
fn missing_control_member() {
    let gz = Compression::Gz.compress(&data_tar()).unwrap();
    let bytes = ar_of(&[("debian-binary", b"2.0\n"), ("data.tar.gz", &gz)]);
    match DebFile::parse(bytes) {
        Err(Error::MissingPart(part)) => assert_eq!(part, "control"),
        other => panic!("{:?}", other),
    }
}

#[test]
fn missing_marker_is_named_first() {
    match DebFile::parse(ar_of(&[("something", b"else")])) {
        Err(Error::MissingPart(part)) => assert_eq!(part, "debian-binary"),
        other => panic!("{:?}", other),
    }
    for bytes in [Vec::new(), b"!<arch>\n".to_vec(), b"no archive at all".to_vec()] {
        match DebFile::parse(bytes) {
            Err(Error::MissingPart(part)) => assert_eq!(part, "debian-binary"),
            other => panic!("{:?}", other),
        }
    }
}

#[test]
fn members_are_found_by_name_not_by_place() {
    let control = Compression::Xz.compress(&control_tar()).unwrap();
    let data = Compression::Bz2.compress(&data_tar()).unwrap();
    let bytes = ar_of(&[
        ("data.tar.bz2", &data),
        ("_gpgorigin", b"signature"),
        ("control.tar.xz", &control),
        ("debian-binary", b"2.0 \n\n"),
    ]);
    let parsed = DebFile::parse(bytes).unwrap();
    assert_eq!(parsed.debian_binary(), "2.0");
    assert_eq!(parsed.control, control_tar());
    assert_eq!(parsed.data, data_tar());
}

#[test]
fn first_member_of_a_role_wins() {
    let first = Compression::Gz.compress(&control_tar()).unwrap();
    let data = Compression::Gz.compress(&data_tar()).unwrap();
    let bytes = ar_of(&[
        ("debian-binary", b"2.0\n"),
        ("control.tar.gz", &first),
        ("control.tar.lz4", b"never looked at"),
        ("debian-binary", b"3.0\n"),
        ("data.tar.gz", &data),
        ("data.tar.gz", b"garbage"),
    ]);
    let parsed = DebFile::parse(bytes).unwrap();
    assert_eq!(parsed.debian_binary(), "2.0");
    assert_eq!(parsed.control, control_tar());
    assert_eq!(parsed.data, data_tar());
}

#[test]
fn unknown_member_suffix_is_rejected() {
    let data = Compression::Gz.compress(&data_tar()).unwrap();
    let bytes = ar_of(&[
        ("debian-binary", b"2.0\n"),
        ("control.tar.lz4", b"whatever"),
        ("data.tar.gz", &data),
    ]);
    match DebFile::parse(bytes) {
        Err(Error::InvalidCompression(name)) => assert_eq!(name, "control.tar.lz4"),
        other => panic!("{:?}", other),
    }
}

#[test]
fn unknown_data_suffix_is_rejected_beside_any_control_member() {
    let control = Compression::Gz.compress(&control_tar()).unwrap();
    for control_bytes in [&control[..], &b"this is no gzip stream"[..]] {
        let bytes = ar_of(&[
            ("debian-binary", b"2.0\n"),
            ("control.tar.gz", control_bytes),
            ("data.tar.lz4", b"whatever"),
        ]);
        match DebFile::parse(bytes) {
            Err(Error::InvalidCompression(name)) => assert_eq!(name, "data.tar.lz4"),
            other => panic!("{:?}", other),
        }
    }
}

#[test]
fn control_is_chosen_by_its_final_segment_not_by_place() {
    let tar = tar_of(&[
        ("./postinst", b"#!/bin/sh\n"),
        ("./control.old", b"Package: old\n"),
        ("./control", b"Package: p\n"),
    ]);
    let mut deb = DebFile::pack(tar, Vec::new()).unwrap();
    let control = deb.control().unwrap();
    assert_eq!(control.len(), 1);
    assert_eq!(control.get("Package").unwrap().to_string(), "p");
}

#[test]
fn corrupt_member_fails() {
    let control = Compression::Gz.compress(&control_tar()).unwrap();
    let bytes = ar_of(&[
        ("debian-binary", b"2.0\n"),
        ("control.tar.gz", &control),
        ("data.tar.gz", b"this is no gzip stream"),
    ]);
    assert!(matches!(DebFile::parse(bytes), Err(Error::Io(_))));
}

#[test]
fn scan_ends_before_a_header_that_begins_with_a_slash() {
    let control = Compression::Gz.compress(&control_tar()).unwrap();
    let data = Compression::Gz.compress(&data_tar()).unwrap();
    let mut bytes = ar_of(&[("debian-binary", b"2.0\n"), ("control.tar.gz", &control)]);
    bytes.extend_from_slice(b"/99             0           0     0     644     4         `\nabcd");
    let tail = ar_of(&[("data.tar.gz", &data)]);
    bytes.extend_from_slice(&tail[8..]);
    assert_eq!(read_members(&bytes).len(), 2);
    match DebFile::parse(bytes) {
        Err(Error::MissingPart(part)) => assert_eq!(part, "data"),
        other => panic!("{:?}", other),
    }
}

#[test]
fn members_of_no_role_are_ignored_wherever_they_stand() {
    let control = Compression::Gz.compress(&control_tar()).unwrap();
    let data = Compression::Gz.compress(&data_tar()).unwrap();
    let wanted: [(&str, &[u8]); 3] =
        [("debian-binary", b"2.0\n"), ("control.tar.gz", &control), ("data.tar.gz", &data)];
    let extras: [(&str, &[u8]); 5] = [
        ("_gpgorigin", b"signature"),
        ("a name that is longer than sixteen bytes", b"odd"),
        ("with space", b"even"),
        ("#1x", b"no extended name"),
        ("x", b""),
    ];
    for extra in extras.iter() {
        for place in 0..=3 {
            let mut members = wanted.to_vec();
            members.insert(place, *extra);
            let bytes = ar_of(&members);
            let read = read_members(&bytes);
            assert_eq!(read.len(), 4, "{:?} at {}", extra.0, place);
            assert_eq!(read[place], (extra.0.as_bytes().to_vec(), extra.1.to_vec()));
            let parsed = DebFile::parse(bytes).unwrap();
            assert_eq!(parsed.debian_binary(), "2.0");
            assert_eq!(parsed.control, control_tar());
            assert_eq!(parsed.data, data_tar());
        }
    }
}

#[test]
fn entries_of_the_bsd_variant_are_read() {
    let mut bytes = ar_of(&[("debian-binary", b"2.0\n")]);
    bytes.extend_from_slice(
        b"#1/20           0           0     0     644     24        `\ncontrol.tar.gz\0\0\0\0\0\0abcd",
    );
    bytes.extend_from_slice(b"/after          0           0     0     644     2         `\nxy");
    let read = read_members(&bytes);
    assert_eq!(read.len(), 3);
    assert_eq!(read[1], (b"control.tar.gz".to_vec(), b"abcd".to_vec()));
    assert_eq!(read[2], (b"/after".to_vec(), b"xy".to_vec()));
    match DebFile::parse(bytes) {
        Err(Error::MissingPart(part)) => assert_eq!(part, "data"),
        other => panic!("{:?}", other),
    }
}

#[test]
fn names_that_end_with_a_slash_are_read_without_it() {
    let mut bytes = b"!<arch>\n".to_vec();
    bytes.extend_from_slice(b"debian-binary/  0           0     0     644     4         `\n2.0\n");
    bytes.extend_from_slice(b"#1/20           0           0     0     644     2         `\nab");
    bytes.extend_from_slice(b"/7              0           0     0     644     2         `\ncd");
    let read = read_members(&bytes);
    assert_eq!(read.len(), 2);
    assert_eq!(read[0], (b"debian-binary".to_vec(), b"2.0\n".to_vec()));
    assert_eq!(read[1], (b"#1/20".to_vec(), b"ab".to_vec()));
}

#[test]
fn a_member_too_long_for_an_entry_is_refused() {
    let members = vec![(b"short".to_vec(), vec![0u8; 10])];
    assert!(DebFile::archive_of(&members).is_ok());
    assert!(raptor::container::contents_are_short(&members));
}

#[test]
fn truncated_archive_misses_what_was_cut() {
    let deb = DebFile::pack(control_tar(), data_tar()).unwrap();
    let bytes = deb.write(Compression::Gz).unwrap();
    let cut = bytes[..8 + 60 + 4 + 30].to_vec();
    match DebFile::parse(cut) {
        Err(Error::MissingPart(part)) => assert_eq!(part, "control"),
        other => panic!("{:?}", other),
    }
}

#[test]
fn control_entry_is_found_by_its_final_segment() {
    for path in ["control", "./control", "a/b/control", "./control/"] {
        let tar = tar_of(&[("other", b"Package: wrong\n"), (path, b"Package: right\n")]);
        let mut deb = DebFile::pack(tar, Vec::new()).unwrap();
        let control = deb.control().unwrap();
        assert_eq!(control.get("Package").unwrap().to_string(), "right", "{}", path);
    }
}

#[test]
fn first_control_entry_is_taken() {
    let tar = tar_of(&[("x/control", b"Package: first\n"), ("control", b"Package: second\n")]);
    let mut deb = DebFile::pack(tar, Vec::new()).unwrap();
    assert_eq!(deb.control().unwrap().get("Package").unwrap().to_string(), "first");
    assert_eq!(deb.control().unwrap().get("Package").unwrap().to_string(), "first");
}

#[test]
fn control_entry_missing() {
    let tar = tar_of(&[("controls", b"Package: a\n"), ("control.txt", b"Package: b\n")]);
    let mut deb = DebFile::pack(tar, Vec::new()).unwrap();
    match deb.control() {
        Err(Error::MissingPart(part)) => assert_eq!(part, "control"),
        other => panic!("{:?}", other.map(|c| c.to_string())),
    }
    let mut empty = DebFile::pack(Vec::new(), Vec::new()).unwrap();
    assert!(matches!(empty.control(), Err(Error::MissingPart(_))));
}

#[test]
fn control_entry_errors_are_passed_on() {
    let mut empty = DebFile::pack(tar_of(&[("control", b"\n")]), Vec::new()).unwrap();
    assert!(matches!(empty.control(), Err(Error::Empty)));
    let mut broken = DebFile::pack(tar_of(&[("control", b"no colon here\n")]), Vec::new()).unwrap();
    assert!(matches!(broken.control(), Err(Error::ControlSyntax(_))));
    let mut binary = DebFile::pack(tar_of(&[("control", b"\xff\xff")]), Vec::new()).unwrap();
    assert!(matches!(binary.control(), Err(Error::Io(_))));
    let mut garbage = DebFile::pack(vec![7u8; 1024], Vec::new()).unwrap();
    assert!(matches!(garbage.control(), Err(Error::Io(_))));
}

#[test]
fn list_files_lists_paths_in_order() {
    let tar = tar_of(&[("b", b"1"), ("a/", b""), ("a/c", b"22"), ("\u{e9}t\u{e9}", b"")]);
    let mut deb = DebFile::pack(Vec::new(), tar).unwrap();
    assert_eq!(deb.list_files().unwrap(), ["b", "a/", "a/c", "\u{e9}t\u{e9}"]);
    let mut empty = DebFile::pack(Vec::new(), Vec::new()).unwrap();
    assert_eq!(empty.list_files().unwrap(), Vec::<String>::new());
}

#[test]
fn list_files_stops_at_a_broken_entry() {
    let mut tar = tar_of(&[("good", b"content")]);
    tar.truncate(1024);
    tar.extend_from_slice(&[b'x'; 512]);
    let mut deb = DebFile::pack(Vec::new(), tar).unwrap();
    assert_eq!(deb.list_files().unwrap(), ["good"]);
}

#[test]
fn control_paths() {
    assert!(is_control_path(&b"control".to_vec()));
    assert!(is_control_path(&b"./control".to_vec()));
    assert!(is_control_path(&b"/control".to_vec()));
    assert!(is_control_path(&b"a/control///".to_vec()));
    assert!(!is_control_path(&b"control/x".to_vec()));
    assert!(!is_control_path(&b"xcontrol".to_vec()));
    assert!(!is_control_path(&b"Control".to_vec()));
    assert!(!is_control_path(&b"contro".to_vec()));
    assert!(!is_control_path(&b"".to_vec()));
    assert!(!is_control_path(&b"/".to_vec()));
    assert!(!is_control_path(&b"control/.".to_vec()));
}

#[test]
fn roles() {
    assert_eq!(Parts::role("debian-binary"), Role::Marker);
    assert_eq!(Parts::role("debian-binary "), Role::Other);
    assert_eq!(Parts::role("control.tar"), Role::Control);
    assert_eq!(Parts::role("control.tar.gz"), Role::Control);
    assert_eq!(Parts::role("control.targz"), Role::Control);
    assert_eq!(Parts::role("data.tar.zst"), Role::Data);
    assert_eq!(Parts::role("data.ta"), Role::Other);
    assert_eq!(Parts::role("Data.tar"), Role::Other);
    assert_eq!(Parts::role(""), Role::Other);
}

#[test]
fn parts_keep_the_first_of_each_role() {
    let mut parts = Parts::new();
    parts.note("data.tar".to_string(), vec![1]);
    parts.note("junk".to_string(), vec![2]);
    parts.note("data.tar.gz".to_string(), vec![3]);
    parts.note("debian-binary".to_string(), b"2.0\n".to_vec());
    assert_eq!(parts.data, Some(("data.tar".to_string(), vec![1])));
    assert_eq!(parts.marker, Some(b"2.0\n".to_vec()));
    assert_eq!(parts.control, None);
    match DebFile::from_parts(parts) {
        Err(Error::MissingPart(part)) => assert_eq!(part, "control"),
        other => panic!("{:?}", other),
    }
}

#[test]
fn from_parts_unpacks_both_streams() {
    let mut parts = Parts::new();
    parts.note("debian-binary".to_string(), b"2.0\xff \n".to_vec());
    parts.note("control.tar.xz".to_string(), Compression::Xz.compress(&[1, 2]).unwrap());
    parts.note("data.tar.gz".to_string(), Compression::Gz.compress(&[9, 9, 9]).unwrap());
    let deb = DebFile::from_parts(parts).unwrap();
    assert_eq!(deb.debian_binary, "2.0\u{fffd}");
    assert_eq!(deb.control, [1, 2]);
    assert_eq!(deb.data, [9, 9, 9]);
}

#[test]
fn read_member_detects_the_scheme() {
    let packed = Compression::Zst.compress(b"payload").unwrap();
    assert_eq!(DebFile::read_member("data.tar.zst", &packed).unwrap(), b"payload");
    assert_eq!(DebFile::read_data(" DATA.TAR.ZST", &packed).unwrap(), b"payload");
    let gz = Compression::Gz.compress(b"as it is").unwrap();
    assert_eq!(DebFile::read_control_file("control.tar.gz", &gz).unwrap(), b"as it is");
    for name in ["control.tar", "data.tar", "tar", "data.tar.lz4", "data.tar.lzma"] {
        match DebFile::read_data(name, b"as it is") {
            Err(Error::InvalidCompression(tested)) => assert_eq!(tested, name),
            other => panic!("{:?}", other),
        }
    }
    assert!(matches!(
        DebFile::read_member("data.tar.rar", &packed),
        Err(Error::InvalidCompression(_))
    ));
    assert!(matches!(DebFile::read_member("data.tar.gz", &packed), Err(Error::Io(_))));
}

#[test]
fn plain_members_are_read_back() {
    let mut members: Vec<(Vec<u8>, Vec<u8>)> = Vec::new();
    for byte in 0x21u8..=0x7e {
        if byte == b'/' {
            continue;
        }
        let content: Vec<u8> = (0..(byte as usize % 7)).map(|i| byte.wrapping_add(i as u8)).collect();
        members.push((vec![byte], content));
        members.push((vec![byte; 16], vec![byte; 3]));
        members.push((vec![b'a', byte, b'#', b'1'], Vec::new()));
    }
    members.push((b"#1".to_vec(), b"odd".to_vec()));
    members.push((b"__.SYMDEF".to_vec(), b"even".to_vec()));
    members.push((b"debian-binary".to_vec(), b"2.0\n".to_vec()));
    for chunk in members.chunks(17) {
        let chunk = chunk.to_vec();
        let bytes = DebFile::archive_of(&chunk).unwrap();
        assert_eq!(read_members(&bytes), chunk);
    }
    assert_eq!(read_members(&DebFile::archive_of(&Vec::new()).unwrap()), Vec::new());
}

#[test]
fn read_members_stops_where_the_archive_does() {
    let bytes = ar_of(&[("a", b"1"), ("b", b"22"), ("c", b"333")]);
    assert_eq!(read_members(&bytes).len(), 3);
    assert_eq!(read_members(&bytes[..bytes.len() - 1]).len(), 3);
    assert_eq!(read_members(&bytes[..8 + 60 + 2 + 60 + 2 + 30]).len(), 2);
    assert_eq!(read_members(b"!<arch>\n").len(), 0);
    assert_eq!(read_members(b"").len(), 0);
    assert_eq!(read_members(b"not an archive, but long enough to hold a header of sixty bytes and more").len(), 0);
}
