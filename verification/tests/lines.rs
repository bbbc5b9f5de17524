use raptor::lines::{field_of_line, split_lines};
use raptor::{ControlEntry, ControlFile};
use std::collections::BTreeMap;
use std::io::BufRead;

fn expected_fields(data: &[u8]) -> Option<BTreeMap<String, String>> {
    let mut map = BTreeMap::new();
    for line in data.lines() {
        let line = match line {
            Ok(line) => line,
            Err(_) => continue,
        };
        let parts = line.splitn(2, ':').collect::<Vec<_>>();
        if parts.len() < 2 {
            return None;
        }
        map.insert(parts[0].trim().to_string(), parts[1].trim().to_string());
    }
    Some(map)
}

fn texts(file: &ControlFile) -> BTreeMap<String, String> {
    let mut map = BTreeMap::new();
    for key in file.keys() {
        let value = match file.get(&key) {
            Some(ControlEntry::Value(text)) => text.clone(),
            other => panic!("{:?}", other),
        };
        map.insert(key, value);
    }
    map
}

#[test]
fn lines_are_split_like_buffered_reading() {
    for data in [
        &b""[..],
        b"\n",
        b"a",
        b"a\n",
        b"a\nb",
        b"a\r\nb\r\n",
        b"a\r",
        b"a\r\r\n",
        b"\r\n\r\n",
        b"\n\n\nx\n\n",
        b"no newline at the end\r",
        b"\xff\n\xfe",
    ] {
        let expected: Vec<Vec<u8>> =
            data.split(|b| *b == b'\n').map(|piece| piece.to_vec()).collect();
        let mut expected = expected;
        let last = expected.pop().unwrap();
        for line in expected.iter_mut() {
            if line.last() == Some(&b'\r') {
                line.pop();
            }
        }
        if !last.is_empty() {
            expected.push(last);
        }
        assert_eq!(split_lines(data), expected, "{:?}", data);
        let read: Vec<Vec<u8>> = data
            .lines()
            .map(|line| line.map(|l| l.into_bytes()).unwrap_or_default())
            .collect();
        if std::str::from_utf8(data).is_ok() {
            assert_eq!(split_lines(data), read, "{:?}", data);
        }
    }
}

#[test]
fn a_line_is_split_at_its_first_colon() {
    assert_eq!(
        field_of_line("Key: value"),
        Some(("Key".to_string(), "value".to_string()))
    );
    assert_eq!(
        field_of_line("  Homepage :  https://example.org:80/ "),
        Some(("Homepage".to_string(), "https://example.org:80/".to_string()))
    );
    assert_eq!(field_of_line(":"), Some((String::new(), String::new())));
    assert_eq!(field_of_line("a:"), Some(("a".to_string(), String::new())));
    assert_eq!(field_of_line(":b"), Some((String::new(), "b".to_string())));
    assert_eq!(field_of_line("no colon"), None);
    assert_eq!(field_of_line(""), None);
}

#[test]
fn new_reads_one_field_per_line() {
    let file = ControlFile::new(b"Package: p\nDepends: a, b\r\nInstalled-Size: 3\nEssential: yes");
    assert_eq!(file.len(), 4);
    assert_eq!(file.get("Package").unwrap().to_string(), "p");
    assert!(matches!(file.get("Depends"), Some(ControlEntry::MultiValue(_))));
    assert_eq!(file.get("Depends").unwrap().to_string(), "a, b");
    assert!(matches!(file.get("Installed-Size"), Some(ControlEntry::Number(3))));
    assert!(matches!(file.get("Essential"), Some(ControlEntry::Bool(true))));
    assert_eq!(ControlFile::new(b"").len(), 0);
}

#[test]
fn new_agrees_with_line_by_line_reading() {
    for data in [
        &b"A: 1\nB: 2\n"[..],
        b"A: 1\nA: 2\nC:3",
        b" spaced key :  spaced value  \n",
        b"Url: http://x/y:z\n: empty name\nempty value:\n",
        b"Good: 1\n\xff\xfe: skipped\nAlso: good\n",
        b"K: v\r\nL: w\r\n",
        b"Desc: first\n second: line\n",
    ] {
        let expected = expected_fields(data).unwrap();
        let file = ControlFile::try_new(data).unwrap();
        assert_eq!(texts(&file), expected, "{:?}", data);
        assert_eq!(texts(&ControlFile::new(data)), expected);
    }
}

#[test]
fn new_passes_over_lines_without_colon() {
    let file = ControlFile::new(b"Package: a\n\nno colon here\nVersion: 2\n\xff: x\n");
    assert_eq!(file.keys(), ["Package", "Version"]);
    assert_eq!(file.get("Version").unwrap().to_string(), "2");
    assert_eq!(ControlFile::new(b"just text").len(), 0);
    assert_eq!(ControlFile::new(b"\n\n\r\n").len(), 0);
}

#[test]
fn try_new_refuses_a_line_without_colon() {
    for data in [&b"A: 1\n\nB: 2\n"[..], b"just text", b"A: 1\n continuation\n", b"\r\n"] {
        assert!(expected_fields(data).is_none());
        assert!(ControlFile::try_new(data).is_none(), "{:?}", data);
    }
    assert!(ControlFile::try_new(b"\xff\n").is_some());
}
