use raptor::bridge::{
    boxed_control, compression_of, deb_boxed_pack, deb_write, entry_bool, entry_from_commalist,
    entry_from_number, entry_from_yesno, entry_multivalue, entry_number, entry_value,
    parse_controlfile, parse_controlfile_multi, parse_deb,
};
use raptor::{Compression, ControlEntry, ControlFile, Error};

#[test]
fn numbers_stand_for_schemes() {
    assert_eq!(compression_of(0), Compression::Bz2);
    assert_eq!(compression_of(1), Compression::Gz);
    assert_eq!(compression_of(2), Compression::Xz);
    assert_eq!(compression_of(3), Compression::Zst);
    assert_eq!(compression_of(4), Compression::Xz);
    assert_eq!(compression_of(255), Compression::Xz);
}

#[test]
fn boxed_entries() {
    assert!(matches!(*entry_value("v".to_string()), ControlEntry::Value(ref v) if v == "v"));
    assert!(matches!(
        *entry_multivalue(vec!["a".to_string()]),
        ControlEntry::MultiValue(ref l) if l.len() == 1
    ));
    assert!(matches!(*entry_number(5), ControlEntry::Number(5)));
    assert!(matches!(*entry_bool(true), ControlEntry::Bool(true)));
    assert!(matches!(*entry_from_yesno("yes"), ControlEntry::Bool(true)));
    assert!(matches!(*entry_from_yesno("no"), ControlEntry::Bool(false)));
    assert!(matches!(*entry_from_number("12"), ControlEntry::Number(12)));
    assert_eq!(entry_from_commalist("a ,b").to_string(), "a, b");
}

#[test]
fn boxed_control_files() {
    let file = parse_controlfile(b"Package: a\n\nPackage: b\n").unwrap();
    assert_eq!(file.get("Package").unwrap().to_string(), "a");
    assert_eq!(parse_controlfile_multi(b"Package: a\n\nPackage: b\n").unwrap().len(), 2);
    assert!(matches!(parse_controlfile(b""), Err(Error::Empty)));
}

#[test]
fn boxed_packages() {
    let deb = deb_boxed_pack(vec![1, 2], vec![3]).unwrap();
    assert_eq!(deb.debian_binary(), "2.0\n");
    let bytes = deb_write(deb, 1).unwrap();
    let parsed = parse_deb(bytes).unwrap();
    assert_eq!(parsed.control, [1, 2]);
    assert_eq!(parsed.data, [3]);
    assert!(matches!(parse_deb(Vec::new()), Err(Error::MissingPart(_))));
}

#[test]
fn boxed_control_of_a_package() {
    let mut builder = tar::Builder::new(Vec::new());
    let mut header = tar::Header::new_gnu();
    header.set_size(11);
    header.set_mode(0o644);
    header.set_cksum();
    builder.append_data(&mut header, "control", &b"Package: x\n"[..]).unwrap();
    let mut deb = deb_boxed_pack(builder.into_inner().unwrap(), Vec::new()).unwrap();
    assert_eq!(boxed_control(&mut deb).unwrap().to_string(), "Package: x\n");
    let mut empty = deb_boxed_pack(Vec::new(), Vec::new()).unwrap();
    assert!(matches!(boxed_control(&mut empty), Err(Error::MissingPart(_))));
}

#[test]
fn scheme_parses_from_text() {
    assert_eq!("zstd".parse::<Compression>().unwrap(), Compression::Zst);
    assert!(matches!("nope".parse::<Compression>(), Err(Error::InvalidCompression(_))));
}

#[test]
fn fields_can_be_removed_and_copied() {
    let mut file = ControlFile::parse(b"A: 1\nB: 2\nC: 3\n").unwrap();
    let copy = file.clone();
    assert!(matches!(file.remove("B"), Some(ControlEntry::Value(ref v)) if v == "2"));
    assert!(file.remove("B").is_none());
    assert!(file.remove("b").is_none());
    assert_eq!(file.keys(), ["A", "C"]);
    assert_eq!(copy.keys(), ["A", "B", "C"]);
    assert_eq!(copy.to_string(), "A: 1\nB: 2\nC: 3\n");
    assert_eq!(file.to_string(), "A: 1\nC: 3\n");
}
