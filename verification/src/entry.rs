//! The typed values of control fields.
use vstd::prelude::*;
use crate::number::{decimal, parse_u64, parse_u64_spec, render_u64};
use crate::text::{
    from_chars, is_literal, join, join_spec, leading_space, lemma_leading_space,
    lemma_trailing_space, split, split_spec, to_chars, trailing_space, trim, trim_spec,
    trim_start_spec, views, white_space,
};

verus! {

/// A typed value of a control field.
#[derive(Debug)]
pub enum ControlEntry {
    /// Free-form text.
    Value(String),
    /// A comma-separated list, its elements trimmed and in source order.
    MultiValue(Vec<String>),
    /// An unsigned number.
    Number(u64),
    /// A yes/no flag.
    Bool(bool),
}

/// The mathematical value of a `ControlEntry`.
pub enum EntryView {
    Value(Seq<char>),
    MultiValue(Seq<Seq<char>>),
    Number(u64),
    Bool(bool),
}

/// The views of a sequence of strings.
pub open spec fn string_views(v: Seq<String>) -> Seq<Seq<char>> {
    Seq::new(v.len(), |i: int| v[i]@)
}

impl View for ControlEntry {
    type V = EntryView;

    open spec fn view(&self) -> EntryView {
        match self {
            ControlEntry::Value(s) => EntryView::Value(s@),
            ControlEntry::MultiValue(l) => EntryView::MultiValue(string_views(l@)),
            ControlEntry::Number(n) => EntryView::Number(*n),
            ControlEntry::Bool(b) => EntryView::Bool(*b),
        }
    }
}

/// The elements of a comma-separated list: the pieces between commas, each
/// trimmed. Empty pieces stay, as empty elements.
pub open spec fn comma_list(d: Seq<char>) -> Seq<Seq<char>> {
    let pieces = split_spec(d, ',');
    Seq::new(pieces.len(), |i: int| trim_spec(pieces[i]))
}

/// The number that a numeric field holds: what its text denotes, or zero
/// where it denotes no number.
pub open spec fn number_or_zero(d: Seq<char>) -> u64 {
    match parse_u64_spec(d) {
        Some(n) => n,
        None => 0,
    }
}

/// The text that a value is written as, before continuation lines are
/// indented.
pub open spec fn entry_text(e: EntryView) -> Seq<char> {
    match e {
        EntryView::Value(s) => s,
        EntryView::MultiValue(l) => join_spec(l, ", "@),
        EntryView::Number(n) => decimal(n as nat),
        EntryView::Bool(b) => if b {
            "Yes"@
        } else {
            "No"@
        },
    }
}

impl ControlEntry {
    /// A flag: true if and only if `d` is exactly `yes`.
    pub fn from_yesno(d: &str) -> (r: ControlEntry)
        ensures
            r@ == EntryView::Bool(d@ == "yes"@),
    {
        let v = to_chars(d);
        ControlEntry::Bool(is_literal(&v, "yes"))
    }

    /// A list: the pieces of `d` between commas, each trimmed, in order.
    pub fn from_commalist(d: &str) -> (r: ControlEntry)
        ensures
            r@ == EntryView::MultiValue(comma_list(d@)),
    {
        let v = to_chars(d);
        let pieces = split(&v, ',');
        let mut list: Vec<String> = Vec::new();
        let mut i: usize = 0;
        while i < pieces.len()
            invariant
                i <= pieces.len(),
                list.len() == i,
                views(pieces@) == split_spec(d@, ','),
                forall|j: int| 0 <= j < i ==> list@[j]@ == trim_spec(#[trigger] pieces@[j]@),
            decreases pieces.len() - i,
        {
            let t = trim(&pieces[i]);
            list.push(from_chars(&t));
            i += 1;
        }
        assert(string_views(list@) =~= comma_list(d@)) by {
            assert forall|j: int| 0 <= j < list.len() implies string_views(list@)[j] == comma_list(
                d@,
            )[j] by {
                assert(views(pieces@)[j] == pieces@[j]@);
            }
        }
        ControlEntry::MultiValue(list)
    }

    /// A number: the one that `d` denotes in decimal, or zero where `d`
    /// denotes none that fits. This never fails.
    pub fn from_number(d: &str) -> (r: ControlEntry)
        ensures
            r@ == EntryView::Number(number_or_zero(d@)),
    {
        let v = to_chars(d);
        match parse_u64(&v) {
            Some(n) => ControlEntry::Number(n),
            None => ControlEntry::Number(0),
        }
    }

    /// The text of this value: free text as it is, a list joined by a comma
    /// and a space, a number in decimal, a flag as `Yes` or `No`.
    pub fn to_string(&self) -> (r: String)
        ensures
            r@ == entry_text(self@),
    {
        from_chars(&self.chars())
    }

    /// The characters of `to_string`.
    pub(crate) fn chars(&self) -> (r: Vec<char>)
        ensures
            r@ == entry_text(self@),
    {
        match self {
            ControlEntry::Value(s) => to_chars(s.as_str()),
            ControlEntry::MultiValue(l) => {
                let parts = chars_of_all(l);
                join(&parts, ", ")
            },
            ControlEntry::Number(n) => render_u64(*n),
            ControlEntry::Bool(b) => if *b {
                to_chars("Yes")
            } else {
                to_chars("No")
            },
        }
    }
}

impl Clone for ControlEntry {
    fn clone(&self) -> (r: Self)
        ensures
            r@ == self@,
    {
        match self {
            ControlEntry::Value(s) => ControlEntry::Value(s.clone()),
            ControlEntry::MultiValue(l) => {
                let mut copy: Vec<String> = Vec::new();
                let mut i: usize = 0;
                while i < l.len()
                    invariant
                        i <= l.len(),
                        copy.len() == i,
                        forall|j: int| 0 <= j < i ==> copy@[j]@ == l@[j]@,
                    decreases l.len() - i,
                {
                    copy.push(l[i].clone());
                    i += 1;
                }
                assert(string_views(copy@) =~= string_views(l@));
                ControlEntry::MultiValue(copy)
            },
            ControlEntry::Number(n) => ControlEntry::Number(*n),
            ControlEntry::Bool(b) => ControlEntry::Bool(*b),
        }
    }
}

/// Copies of the strings of `l`, each turned into its characters.
fn chars_of_all(l: &Vec<String>) -> (r: Vec<Vec<char>>)
    ensures
        views(r@) == string_views(l@),
{
    let mut r: Vec<Vec<char>> = Vec::new();
    let mut i: usize = 0;
    while i < l.len()
        invariant
            i <= l.len(),
            r.len() == i,
            forall|j: int| 0 <= j < i ==> r@[j]@ == l@[j]@,
        decreases l.len() - i,
    {
        r.push(to_chars(l[i].as_str()));
        i += 1;
    }
    assert(views(r@) =~= string_views(l@));
    r
}

/// A trimmed string neither begins nor ends with white space.
pub proof fn lemma_trimmed(s: Seq<char>)
    ensures
        trim_spec(s).len() > 0 ==> !white_space(trim_spec(s).first()) && !white_space(
            trim_spec(s).last(),
        ),
{
    let start = trim_start_spec(s);
    lemma_leading_space(s);
    lemma_trailing_space(start);
    let t = trim_spec(s);
    if t.len() > 0 {
        assert(t.last() == start[start.len() - trailing_space(start) - 1]);
        assert(t.first() == start[0]);
        assert(start[0] == s[leading_space(s) as int]);
    }
}

/// No element of a comma-separated list begins or ends with white space.
pub proof fn lemma_comma_list_trimmed(d: Seq<char>, i: int)
    requires
        0 <= i < comma_list(d).len(),
    ensures
        comma_list(d)[i].len() > 0 ==> !white_space(comma_list(d)[i].first()) && !white_space(
            comma_list(d)[i].last(),
        ),
{
    let piece = split_spec(d, ',')[i];
    lemma_trimmed(piece);
}

} // verus!
