//! The plain reading of a control file, line by line: every line is one
//! field, with no continuation lines, comments or stanzas.
use vstd::prelude::*;
use vstd::utf8::{decode_utf8, valid_utf8};
use crate::control::ControlFile;
use crate::entry::EntryView;
use crate::stanza::{field_entry, read_text};
use crate::text::{from_chars, lowercase, slice_chars, to_chars, trim, trim_spec};

verus! {

/// The pieces of `data` between line feeds, read left to right: a line
/// feed closes the current piece and opens an empty one.
pub open spec fn pieces(data: Seq<u8>) -> Seq<Seq<u8>>
    decreases data.len(),
{
    if data.len() == 0 {
        seq![Seq::<u8>::empty()]
    } else {
        let before = pieces(data.drop_last());
        if data.last() == 0x0a {
            before.push(Seq::<u8>::empty())
        } else {
            before.drop_last().push(before.last().push(data.last()))
        }
    }
}

/// `line` without one carriage return at its end, if it has one.
pub open spec fn without_cr(line: Seq<u8>) -> Seq<u8> {
    if line.len() > 0 && line.last() == 0x0d {
        line.drop_last()
    } else {
        line
    }
}

/// The lines of `data`: every piece that a line feed ends, without the
/// carriage return before that line feed; and what follows the last line
/// feed, as it is, unless nothing follows it.
pub open spec fn byte_lines(data: Seq<u8>) -> Seq<Seq<u8>> {
    let p = pieces(data);
    let ended = Seq::new((p.len() - 1) as nat, |i: int| without_cr(p[i]));
    if p.last().len() > 0 {
        ended.push(p.last())
    } else {
        ended
    }
}

/// How many characters of `s` stand before the first `c`; all of them
/// where `s` holds no `c`.
pub open spec fn first_index(s: Seq<char>, c: char) -> nat
    decreases s.len(),
{
    if s.len() > 0 && s[0] != c {
        1 + first_index(s.skip(1), c)
    } else {
        0
    }
}

/// Whether `line` holds a colon.
pub open spec fn has_colon(line: Seq<char>) -> bool {
    first_index(line, ':') < line.len()
}

/// The field that a line with a colon is: the text before its first colon
/// is the name, the text after it the value, both trimmed.
pub open spec fn line_field(line: Seq<char>) -> (Seq<char>, Seq<char>) {
    let i = first_index(line, ':') as int;
    (trim_spec(line.take(i)), trim_spec(line.skip(i + 1)))
}

/// The mapping of the fields that `lines` are, in order, a later field
/// replacing an earlier one of the same name. Lines that are not valid
/// UTF-8, or hold no colon, are passed over.
pub open spec fn lines_map(lines: Seq<Seq<u8>>) -> Map<Seq<char>, EntryView>
    decreases lines.len(),
{
    if lines.len() == 0 {
        Map::empty()
    } else {
        let before = lines_map(lines.drop_last());
        let line = lines.last();
        if valid_utf8(line) && has_colon(decode_utf8(line)) {
            let f = line_field(decode_utf8(line));
            before.insert(f.0, field_entry(f.0, f.1))
        } else {
            before
        }
    }
}

/// Every line that is valid UTF-8 holds a colon, and so is a field.
pub open spec fn all_fields(lines: Seq<Seq<u8>>) -> bool {
    forall|i: int|
        0 <= i < lines.len() && valid_utf8(#[trigger] lines[i]) ==> has_colon(decode_utf8(lines[i]))
}

/// The views of lines held as vectors.
pub open spec fn line_views(v: Seq<Vec<u8>>) -> Seq<Seq<u8>> {
    Seq::new(v.len(), |i: int| v[i]@)
}

impl ControlFile {
    /// Reads a control file line by line: the text before the first colon
    /// of a line is the name of a field and the text after it the value,
    /// both trimmed; the name, in lower case, decides how the value is
    /// read. Lines that are not valid UTF-8, and lines without a colon,
    /// are passed over. This never fails.
    pub fn new(data: &[u8]) -> (r: ControlFile)
        ensures
            r.wf(),
            r@ == lines_map(byte_lines(data@)),
    {
        Self::read_lines(data).0
    }

    /// Reads a control file line by line, as `new` does, but refuses
    /// lines without a colon: `None` if and only if some line that is
    /// valid UTF-8 holds no colon.
    pub fn try_new(data: &[u8]) -> (r: Option<ControlFile>)
        ensures
            match r {
                Some(file) => all_fields(byte_lines(data@)) && file.wf() && file@ == lines_map(
                    byte_lines(data@),
                ),
                None => !all_fields(byte_lines(data@)),
            },
    {
        let (file, clean) = Self::read_lines(data);
        if clean {
            Some(file)
        } else {
            None
        }
    }

    /// The control file of the lines of `data`, and whether every line
    /// that is valid UTF-8 held a colon.
    fn read_lines(data: &[u8]) -> (r: (ControlFile, bool))
        ensures
            r.0.wf(),
            r.0@ == lines_map(byte_lines(data@)),
            r.1 == all_fields(byte_lines(data@)),
    {
        let lines = split_lines(data);
        let ghost all = byte_lines(data@);
        let mut file = ControlFile::empty();
        let mut clean = true;
        let mut i: usize = 0;
        assert(all.take(0) =~= Seq::<Seq<u8>>::empty());
        while i < lines.len()
            invariant
                i <= lines.len(),
                line_views(lines@) == all,
                all == byte_lines(data@),
                file.wf(),
                file@ == lines_map(all.take(i as int)),
                clean == all_fields(all.take(i as int)),
            decreases lines.len() - i,
        {
            let ghost upto = all.take(i + 1);
            let ghost before = all.take(i as int);
            assert(upto.drop_last() =~= before);
            assert(upto.last() == all[i as int]);
            assert(all[i as int] == lines@[i as int]@);
            let mut is_field = true;
            match read_text(lines[i].as_slice()) {
                Ok(text) => match field_of_line(text.as_str()) {
                    Some(field) => {
                        let lower = lowercase(field.0.as_str());
                        let kind = Self::classify(lower.as_str());
                        let entry = Self::typed_entry(kind, field.1.as_str());
                        file.insert(field.0, entry);
                    },
                    None => {
                        is_field = false;
                    },
                },
                Err(_) => {},
            }
            proof {
                let line = all[i as int];
                assert(is_field == (valid_utf8(line) ==> has_colon(decode_utf8(line))));
                if clean && is_field {
                    assert forall|j: int| 0 <= j < upto.len() && valid_utf8(#[trigger] upto[j])
                        implies has_colon(decode_utf8(upto[j])) by {
                        if j < i {
                            assert(upto[j] == before[j]);
                        }
                    }
                } else if !is_field {
                    assert(upto[i as int] == line);
                } else {
                    let j = choose|j: int|
                        0 <= j < before.len() && valid_utf8(#[trigger] before[j]) && !has_colon(
                            decode_utf8(before[j]),
                        );
                    assert(upto[j] == before[j]);
                }
            }
            clean = clean && is_field;
            i += 1;
        }
        assert(all.take(lines.len() as int) =~= all);
        (file, clean)
    }
}

/// Splits `data` into its lines.
pub fn split_lines(data: &[u8]) -> (r: Vec<Vec<u8>>)
    ensures
        line_views(r@) == byte_lines(data@),
{
    let mut lines: Vec<Vec<u8>> = Vec::new();
    let mut cur: Vec<u8> = Vec::new();
    let ghost mut raw: Seq<Seq<u8>> = Seq::empty();
    let mut i: usize = 0;
    assert(data@.take(0) =~= Seq::<u8>::empty());
    assert(raw.push(cur@) =~= pieces(data@.take(0)));
    while i < data.len()
        invariant
            i <= data.len(),
            raw.push(cur@) == pieces(data@.take(i as int)),
            lines.len() == raw.len(),
            forall|j: int| 0 <= j < raw.len() ==> (#[trigger] lines@[j])@ == without_cr(raw[j]),
        decreases data.len() - i,
    {
        let ghost next = data@.take(i + 1);
        assert(next.drop_last() =~= data@.take(i as int));
        assert(next.last() == data@[i as int]);
        let b = data[i];
        if b == 0x0a {
            let ghost closed = cur@;
            if cur.len() > 0 && cur[cur.len() - 1] == 0x0d {
                cur.pop();
            }
            assert(cur@ =~= without_cr(closed));
            lines.push(cur);
            cur = Vec::new();
            proof {
                raw = raw.push(closed);
            }
        } else {
            let ghost open = cur@;
            cur.push(b);
            assert(raw.push(open).drop_last() =~= raw);
        }
        i += 1;
    }
    assert(data@.take(data.len() as int) =~= data@);
    let ghost p = pieces(data@);
    assert(p.len() - 1 == raw.len());
    assert(p.last() == cur@);
    assert forall|j: int| 0 <= j < raw.len() implies raw[j] == p[j] by {
        assert(raw.push(cur@)[j] == raw[j]);
    }
    let ghost ended = line_views(lines@);
    assert(ended =~= Seq::new((p.len() - 1) as nat, |i: int| without_cr(p[i])));
    if cur.len() > 0 {
        lines.push(cur);
        assert(line_views(lines@) =~= ended.push(p.last()));
    }
    lines
}

/// The field that `line` is, if it is one.
pub fn field_of_line(line: &str) -> (r: Option<(String, String)>)
    ensures
        match r {
            Some(f) => has_colon(line@) && line_field(line@) == (f.0@, f.1@),
            None => !has_colon(line@),
        },
{
    let chars = to_chars(line);
    let mut i: usize = 0;
    while i < chars.len() && chars[i] != ':'
        invariant
            i <= chars.len(),
            forall|j: int| 0 <= j < i ==> #[trigger] chars@[j] != ':',
        decreases chars.len() - i,
    {
        i += 1;
    }
    proof {
        lemma_first_index_is(chars@, ':', i as nat);
    }
    if i < chars.len() {
        let name = trim(&slice_chars(&chars, 0, i));
        let value = trim(&slice_chars(&chars, i + 1, chars.len()));
        Some((from_chars(&name), from_chars(&value)))
    } else {
        None
    }
}

/// Where `c` stands at place `n` of `s` and nowhere before, or `s` has `n`
/// characters and none is `c`, the first index of `c` is `n`.
proof fn lemma_first_index_is(s: Seq<char>, c: char, n: nat)
    requires
        n <= s.len(),
        forall|i: int| 0 <= i < n ==> #[trigger] s[i] != c,
        n < s.len() ==> s[n as int] == c,
    ensures
        first_index(s, c) == n,
    decreases n,
{
    if n > 0 {
        let t = s.skip(1);
        assert forall|i: int| 0 <= i < n - 1 implies #[trigger] t[i] != c by {
            assert(t[i] == s[i + 1]);
        }
        lemma_first_index_is(t, c, (n - 1) as nat);
    }
}

} // verus!
