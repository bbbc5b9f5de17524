//! From text to control files: the typing of fields by name, and the
//! parsing of stanzas.
use vstd::prelude::*;
use vstd::utf8::{decode_utf8, valid_utf8};
use crate::control::ControlFile;
use crate::entry::{comma_list, number_or_zero, ControlEntry, EntryView};
use crate::error::Error;
use crate::text::{from_chars, is_literal, lowercase, lowercased, to_chars, trim, trim_spec};

verus! {

/// How the text of a field is read, which its name decides.
#[derive(Debug, Clone, Copy, PartialEq, Eq, Structural)]
pub enum FieldKind {
    /// Free-form text.
    Text,
    /// A comma-separated list.
    List,
    /// An unsigned number.
    Number,
    /// A yes/no flag.
    Flag,
}

/// The kind of the field whose name, in lower case, is `lower`.
pub open spec fn kind_of(lower: Seq<char>) -> FieldKind {
    if lower == "installed-size"@ {
        FieldKind::Number
    } else if lower == "essential"@ || lower == "build-essential"@ {
        FieldKind::Flag
    } else if lower == "tag"@ || lower == "depends"@ || lower == "pre-depends"@ || lower
        == "recommends"@ || lower == "suggests"@ || lower == "enhances"@ || lower
        == "build-depends"@ || lower == "breaks"@ || lower == "conflicts"@ || lower == "provides"@
        || lower == "replaces"@ || lower == "built-using"@ {
        FieldKind::List
    } else {
        FieldKind::Text
    }
}

/// The value that the text `value` stands for in a field of kind `kind`.
pub open spec fn typed(kind: FieldKind, value: Seq<char>) -> EntryView {
    match kind {
        FieldKind::Text => EntryView::Value(value),
        FieldKind::List => EntryView::MultiValue(comma_list(value)),
        FieldKind::Number => EntryView::Number(number_or_zero(value)),
        FieldKind::Flag => EntryView::Bool(value == "yes"@),
    }
}

/// The value of the field `name` with the text `value`: the name, put in
/// lower case, decides the kind.
pub open spec fn field_entry(name: Seq<char>, value: Seq<char>) -> EntryView {
    typed(kind_of(lowercased(name)), value)
}

/// The mapping of a stanza: its fields taken in source order, name and
/// value trimmed, a later field replacing an earlier one of the same name.
pub open spec fn stanza_map(raw: Seq<(Seq<char>, Seq<char>)>) -> Map<Seq<char>, EntryView>
    decreases raw.len(),
{
    if raw.len() == 0 {
        Map::empty()
    } else {
        let name = trim_spec(raw.last().0);
        stanza_map(raw.drop_last()).insert(name, field_entry(name, trim_spec(raw.last().1)))
    }
}

/// The views of the raw fields of a stanza.
pub open spec fn raw_view(v: Seq<(String, String)>) -> Seq<(Seq<char>, Seq<char>)> {
    Seq::new(v.len(), |i: int| (v[i].0@, v[i].1@))
}

/// The views of the raw fields of a run of stanzas.
pub open spec fn raw_views(v: Seq<Vec<(String, String)>>) -> Seq<Seq<(Seq<char>, Seq<char>)>> {
    Seq::new(v.len(), |i: int| raw_view(v[i]@))
}

/// What parsing the text `text` yields: the mapping of every stanza, in
/// source order, or the message of the syntax error.
pub open spec fn stanzas_of(text: Seq<char>) -> Result<Seq<Map<Seq<char>, EntryView>>, Seq<char>> {
    match paragraphs_of(text) {
        Ok(ps) => Ok(Seq::new(ps.len(), |i: int| stanza_map(ps[i]))),
        Err(msg) => Err(msg),
    }
}

/// `r` is what parsing the bytes `data` as a package index gives: an I/O
/// error if and only if they are not valid UTF-8; else the control files
/// of all stanzas in source order, or the syntax error of the text.
pub open spec fn index_read(data: Seq<u8>, r: Result<Vec<ControlFile>, Error>) -> bool {
    if valid_utf8(data) {
        match stanzas_of(decode_utf8(data)) {
            Ok(maps) => r matches Ok(files) && files.len() == maps.len() && forall|i: int|
                0 <= i < files.len() ==> (#[trigger] files@[i]).wf() && files@[i]@ == maps[i],
            Err(msg) => r matches Err(Error::ControlSyntax(m)) && m@ == msg,
        }
    } else {
        r matches Err(Error::Io(_))
    }
}

/// `r` is what parsing the bytes `data` as the control file of one
/// package gives: as for an index, but the first stanza alone, and `Empty`
/// if and only if there is none.
pub open spec fn control_read(data: Seq<u8>, r: Result<ControlFile, Error>) -> bool {
    if valid_utf8(data) {
        match stanzas_of(decode_utf8(data)) {
            Ok(maps) => if maps.len() == 0 {
                r matches Err(Error::Empty)
            } else {
                r matches Ok(f) && f.wf() && f@ == maps[0]
            },
            Err(msg) => r matches Err(Error::ControlSyntax(m)) && m@ == msg,
        }
    } else {
        r matches Err(Error::Io(_))
    }
}

impl ControlFile {
    /// The kind of the field whose name, in lower case, is `lower`:
    /// `installed-size` is a number; `essential` and `build-essential` are
    /// flags; `tag`, `depends`, `pre-depends`, `recommends`, `suggests`,
    /// `enhances`, `build-depends`, `breaks`, `conflicts`, `provides`,
    /// `replaces` and `built-using` are lists; every other name is text.
    pub fn classify(lower: &str) -> (kind: FieldKind)
        ensures
            kind == kind_of(lower@),
    {
        let k = to_chars(lower);
        if is_literal(&k, "installed-size") {
            FieldKind::Number
        } else if is_literal(&k, "essential") || is_literal(&k, "build-essential") {
            FieldKind::Flag
        } else if is_literal(&k, "tag") || is_literal(&k, "depends") || is_literal(
            &k,
            "pre-depends",
        ) || is_literal(&k, "recommends") || is_literal(&k, "suggests") || is_literal(
            &k,
            "enhances",
        ) || is_literal(&k, "build-depends") || is_literal(&k, "breaks") || is_literal(
            &k,
            "conflicts",
        ) || is_literal(&k, "provides") || is_literal(&k, "replaces") || is_literal(
            &k,
            "built-using",
        ) {
            FieldKind::List
        } else {
            FieldKind::Text
        }
    }

    /// Reads `value` as a field of kind `kind`.
    pub fn typed_entry(kind: FieldKind, value: &str) -> (r: ControlEntry)
        ensures
            r@ == typed(kind, value@),
    {
        match kind {
            FieldKind::Text => ControlEntry::Value(from_chars(&to_chars(value))),
            FieldKind::List => ControlEntry::from_commalist(value),
            FieldKind::Number => ControlEntry::from_number(value),
            FieldKind::Flag => ControlEntry::from_yesno(value),
        }
    }

    /// The control file of one stanza, from the names and values of its
    /// fields in source order. Names and values are trimmed; the name, in
    /// lower case, decides how the value is read; of two fields with one
    /// name the later stays.
    pub fn from_fields(raw: &Vec<(String, String)>) -> (r: ControlFile)
        ensures
            r.wf(),
            r@ == stanza_map(raw_view(raw@)),
    {
        let mut file = ControlFile::empty();
        let mut i: usize = 0;
        assert(raw_view(raw@).take(0) =~= Seq::<(Seq<char>, Seq<char>)>::empty());
        while i < raw.len()
            invariant
                i <= raw.len(),
                file.wf(),
                file@ == stanza_map(raw_view(raw@).take(i as int)),
            decreases raw.len() - i,
        {
            let ghost upto = raw_view(raw@).take(i + 1);
            assert(upto.drop_last() =~= raw_view(raw@).take(i as int));
            assert(upto.last() == (raw@[i as int].0@, raw@[i as int].1@));
            let name = from_chars(&trim(&to_chars(raw[i].0.as_str())));
            let value = from_chars(&trim(&to_chars(raw[i].1.as_str())));
            let lower = lowercase(name.as_str());
            let kind = Self::classify(lower.as_str());
            let entry = Self::typed_entry(kind, value.as_str());
            file.insert(name, entry);
            i += 1;
        }
        assert(raw_view(raw@).take(raw.len() as int) =~= raw_view(raw@));
        file
    }

    /// The control files of the stanzas of `text`, in source order.
    pub fn parse_text(text: &str) -> (r: Result<Vec<ControlFile>, Error>)
        ensures
            match stanzas_of(text@) {
                Ok(maps) => r matches Ok(files) && files.len() == maps.len() && forall|i: int|
                    0 <= i < files.len() ==> (#[trigger] files@[i]).wf() && files@[i]@ == maps[i],
                Err(msg) => r matches Err(Error::ControlSyntax(m)) && m@ == msg,
            },
    {
        match parse_paragraphs(text) {
            Ok(ps) => {
                let mut files: Vec<ControlFile> = Vec::new();
                let mut i: usize = 0;
                while i < ps.len()
                    invariant
                        i <= ps.len(),
                        files.len() == i,
                        forall|j: int|
                            0 <= j < i ==> (#[trigger] files@[j]).wf() && files@[j]@ == stanza_map(
                                raw_view(ps@[j]@),
                            ),
                    decreases ps.len() - i,
                {
                    files.push(Self::from_fields(&ps[i]));
                    i += 1;
                }
                Ok(files)
            },
            Err(msg) => Err(Error::ControlSyntax(msg)),
        }
    }

    /// Parses a package index: the control files of all stanzas of `data`,
    /// in source order. Fails with `Io` if and only if `data` is not valid
    /// UTF-8, with `ControlSyntax` if and only if it is and the text breaks
    /// the grammar.
    pub fn parse_multi(data: &[u8]) -> (r: Result<Vec<ControlFile>, Error>)
        ensures
            index_read(data@, r),
    {
        match read_text(data) {
            Ok(text) => Self::parse_text(text.as_str()),
            Err(e) => Err(Error::Io(e)),
        }
    }

    /// The first of `files`, or `Empty` where there is none.
    pub fn first_of(files: Vec<ControlFile>) -> (r: Result<ControlFile, Error>)
        ensures
            match r {
                Ok(f) => files.len() > 0 && f == files@[0],
                Err(e) => files.len() == 0 && e is Empty,
            },
    {
        let mut files = files;
        if files.len() == 0 {
            Err(Error::Empty)
        } else {
            Ok(files.remove(0))
        }
    }

    /// Parses the control file of one package: the first stanza of `data`.
    /// Fails as `parse_multi` does, and with `Empty` if and only if `data`
    /// holds no stanza.
    pub fn parse(data: &[u8]) -> (r: Result<ControlFile, Error>)
        ensures
            control_read(data@, r),
    {
        match Self::parse_multi(data) {
            Ok(files) => Self::first_of(files),
            Err(e) => Err(e),
        }
    }
}

/// What `debcontrol::parse_str` makes of a text: the paragraphs in source
/// order, each the names and values of its fields in source order, or the
/// message of the syntax error.
pub uninterp spec fn paragraphs_of(text: Seq<char>) -> Result<
    Seq<Seq<(Seq<char>, Seq<char>)>>,
    Seq<char>,
>;

/// Calls `debcontrol::parse_str` and hands out each paragraph as the names
/// and values of its fields, a syntax error as its `Display` text. The
/// contract only names the result: the grammar is the parser's.
#[verifier::external_body]
fn parse_paragraphs(text: &str) -> (r: Result<Vec<Vec<(String, String)>>, String>)
    ensures
        match r {
            Ok(ps) => paragraphs_of(text@) == Ok::<
                Seq<Seq<(Seq<char>, Seq<char>)>>,
                Seq<char>,
            >(raw_views(ps@)),
            Err(msg) => paragraphs_of(text@) == Err::<
                Seq<Seq<(Seq<char>, Seq<char>)>>,
                Seq<char>,
            >(msg@),
        },
{
    match debcontrol::parse_str(text) {
        Ok(ps) => Ok(
            ps.into_iter().map(
                |p| p.fields.into_iter().map(|f| (f.name.to_string(), f.value)).collect(),
            ).collect(),
        ),
        Err(e) => Err(e.to_string()),
    }
}

/// Calls `std::io::Read::read_to_string` on the bytes: the text that they
/// encode in UTF-8, or an error where they are not valid UTF-8.
#[verifier::external_body]
pub(crate) fn read_text(data: &[u8]) -> (r: Result<String, std::io::Error>)
    ensures
        match r {
            Ok(s) => valid_utf8(data@) && s@ == decode_utf8(data@),
            Err(_) => !valid_utf8(data@),
        },
{
    let mut text = String::new();
    let mut source = data;
    std::io::Read::read_to_string(&mut source, &mut text).map(|_| text)
}

} // verus!
