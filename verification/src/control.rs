//! The mapping from field names to typed values, and its canonical text
//! form.
use vstd::prelude::*;
use crate::entry::{entry_text, ControlEntry, EntryView};
use crate::order::{
    comes_before, lemma_precedes_asymmetric, lemma_precedes_irreflexive, lemma_precedes_total,
    lemma_precedes_transitive, precedes,
};
use crate::text::{extend_chars, from_chars, indent, indent_spec, is_literal, same_chars, to_chars};

verus! {

/// The fields of one stanza: a mapping from field names, in the case they
/// were written in, to typed values. A name occurs at most once; the fields
/// are kept in the natural order of their names.
#[derive(Debug)]
pub struct ControlFile {
    fields: Vec<(String, ControlEntry)>,
}

/// The names in `s` ascend strictly, in the natural order of strings.
pub open spec fn sorted_by_key(s: Seq<(Seq<char>, EntryView)>) -> bool {
    forall|i: int, j: int|
        0 <= i < j < s.len() ==> precedes((#[trigger] s[i]).0, (#[trigger] s[j]).0)
}

/// Some field of `s` is named `k`.
pub open spec fn has_key(s: Seq<(Seq<char>, EntryView)>, k: Seq<char>) -> bool {
    exists|i: int| 0 <= i < s.len() && (#[trigger] s[i]).0 == k
}

/// Where in `s` a field named `k` stands.
pub open spec fn position(s: Seq<(Seq<char>, EntryView)>, k: Seq<char>) -> int {
    choose|i: int| 0 <= i < s.len() && (#[trigger] s[i]).0 == k
}

/// The mapping that the fields of `s` make up.
pub open spec fn as_map(s: Seq<(Seq<char>, EntryView)>) -> Map<Seq<char>, EntryView> {
    Map::new(|k: Seq<char>| has_key(s, k), |k: Seq<char>| s[position(s, k)].1)
}

impl View for ControlFile {
    type V = Map<Seq<char>, EntryView>;

    open spec fn view(&self) -> Map<Seq<char>, EntryView> {
        as_map(self.fields())
    }
}

/// The names that lead the canonical order, first to last.
pub open spec fn leading_names() -> Seq<Seq<char>> {
    seq![
        "Package"@,
        "Version"@,
        "Name"@,
        "Author"@,
        "Maintainer"@,
        "MD5sum"@,
        "SHA1"@,
        "SHA256"@,
    ]
}

/// Whether `k` is one of the leading names.
pub open spec fn is_leading(k: Seq<char>) -> bool {
    leading_names().contains(k)
}

/// For each of `names` in turn, the field of `s` with that name, where
/// there is one.
pub open spec fn picked(s: Seq<(Seq<char>, EntryView)>, names: Seq<Seq<char>>) -> Seq<
    (Seq<char>, EntryView),
>
    decreases names.len(),
{
    if names.len() == 0 {
        Seq::empty()
    } else {
        let before = picked(s, names.drop_last());
        if has_key(s, names.last()) {
            before.push(s[position(s, names.last())])
        } else {
            before
        }
    }
}

/// The fields of `s` whose names are not leading names, in the order of
/// `s`.
pub open spec fn unranked(s: Seq<(Seq<char>, EntryView)>) -> Seq<(Seq<char>, EntryView)>
    decreases s.len(),
{
    if s.len() == 0 {
        Seq::empty()
    } else if is_leading(s.last().0) {
        unranked(s.drop_last())
    } else {
        unranked(s.drop_last()).push(s.last())
    }
}

/// The canonical order of the fields `s`: first those with a leading name,
/// in the order of `leading_names`, then all others in the order of `s`,
/// which for a control file is the natural order of their names.
pub open spec fn canonical(s: Seq<(Seq<char>, EntryView)>) -> Seq<(Seq<char>, EntryView)> {
    picked(s, leading_names()) + unranked(s)
}

/// The line that a field is written as: its name, a colon and a space, its
/// value with a space put after each line feed, and a line feed.
pub open spec fn line_text(f: (Seq<char>, EntryView)) -> Seq<char> {
    f.0 + ": "@ + indent_spec(entry_text(f.1)) + "\n"@
}

/// The lines of the fields `s`, one after the other.
pub open spec fn lines_text(s: Seq<(Seq<char>, EntryView)>) -> Seq<char>
    decreases s.len(),
{
    if s.len() == 0 {
        Seq::empty()
    } else {
        lines_text(s.drop_last()) + line_text(s.last())
    }
}

/// The views of a sequence of named values.
pub open spec fn pairs_view(v: Seq<(String, ControlEntry)>) -> Seq<(Seq<char>, EntryView)> {
    Seq::new(v.len(), |i: int| (v[i].0@, v[i].1@))
}

impl ControlFile {
    /// The fields as pairs of name and value, in storage order.
    pub closed spec fn fields(&self) -> Seq<(Seq<char>, EntryView)> {
        Seq::new(self.fields.len() as nat, |i: int| (self.fields[i].0@, self.fields[i].1@))
    }

    /// The invariant of the type: names ascend strictly, so none repeats.
    pub open spec fn wf(&self) -> bool {
        sorted_by_key(self.fields())
    }

    /// A control file without fields.
    pub fn empty() -> (r: ControlFile)
        ensures
            r.wf(),
            r.fields() == Seq::<(Seq<char>, EntryView)>::empty(),
            r@ == Map::<Seq<char>, EntryView>::empty(),
    {
        let r = ControlFile { fields: Vec::new() };
        assert(r.fields() =~= Seq::<(Seq<char>, EntryView)>::empty());
        assert(r@ =~= Map::<Seq<char>, EntryView>::empty());
        r
    }

    /// The number of fields.
    pub fn len(&self) -> (n: usize)
        ensures
            n == self.fields().len(),
    {
        self.fields.len()
    }

    /// Whether there is no field.
    pub fn is_empty(&self) -> (b: bool)
        ensures
            b == (self.fields().len() == 0),
    {
        self.fields.len() == 0
    }

    /// The value of the field named `key`, if there is one.
    pub fn get(&self, key: &str) -> (r: Option<&ControlEntry>)
        requires
            self.wf(),
        ensures
            match r {
                Some(e) => self@.contains_key(key@) && e@ == self@[key@],
                None => !self@.contains_key(key@),
            },
    {
        let k = to_chars(key);
        let i = self.lower_bound(&k);
        if i < self.fields.len() && self.named(i, &k) {
            proof {
                lemma_position(self.fields(), i as int);
            }
            Some(&self.fields[i].1)
        } else {
            proof {
                if i < self.fields().len() {
                    lemma_precedes_total(k@, self.fields()[i as int].0);
                }
                lemma_absent(self.fields(), k@, i as int);
            }
            None
        }
    }

    /// Whether a field is named `key`.
    pub fn contains_key(&self, key: &str) -> (b: bool)
        requires
            self.wf(),
        ensures
            b == self@.contains_key(key@),
    {
        self.get(key).is_some()
    }

    /// Sets the field named `key` to `value`, and returns the value that
    /// the field had before, if it existed: the last write wins.
    pub fn insert(&mut self, key: String, value: ControlEntry) -> (r: Option<ControlEntry>)
        requires
            old(self).wf(),
        ensures
            final(self).wf(),
            final(self)@ == old(self)@.insert(key@, value@),
            match r {
                Some(e) => old(self)@.contains_key(key@) && e@ == old(self)@[key@],
                None => !old(self)@.contains_key(key@),
            },
    {
        let k = to_chars(key.as_str());
        let i = self.lower_bound(&k);
        let ghost before = self.fields();
        let ghost pair = (key@, value@);
        if i < self.fields.len() && self.named(i, &k) {
            let gone = self.fields.remove(i);
            self.fields.insert(i, (key, value));
            proof {
                let after = self.fields();
                assert(after =~= before.update(i as int, pair));
                lemma_position(before, i as int);
                lemma_replaced(before, i as int, pair.1);
            }
            Some(gone.1)
        } else {
            self.fields.insert(i, (key, value));
            proof {
                let after = self.fields();
                assert(after =~= before.insert(i as int, pair));
                if i < before.len() {
                    lemma_precedes_total(k@, before[i as int].0);
                }
                lemma_absent(before, k@, i as int);
                lemma_inserted(before, i as int, pair);
            }
            None
        }
    }

    /// Takes out the field named `key` and returns its value, if there is
    /// such a field.
    pub fn remove(&mut self, key: &str) -> (r: Option<ControlEntry>)
        requires
            old(self).wf(),
        ensures
            final(self).wf(),
            final(self)@ == old(self)@.remove(key@),
            match r {
                Some(e) => old(self)@.contains_key(key@) && e@ == old(self)@[key@],
                None => !old(self)@.contains_key(key@),
            },
    {
        let k = to_chars(key);
        let i = self.lower_bound(&k);
        let ghost before = self.fields();
        if i < self.fields.len() && self.named(i, &k) {
            let gone = self.fields.remove(i);
            proof {
                assert(self.fields() =~= before.remove(i as int));
                lemma_position(before, i as int);
                lemma_removed(before, i as int);
            }
            Some(gone.1)
        } else {
            proof {
                if i < before.len() {
                    lemma_precedes_total(k@, before[i as int].0);
                }
                lemma_absent(before, k@, i as int);
                assert(as_map(before).remove(k@) =~= as_map(before));
            }
            None
        }
    }

    /// The names of the fields, in their natural order.
    pub fn keys(&self) -> (r: Vec<String>)
        ensures
            r.len() == self.fields().len(),
            forall|i: int| 0 <= i < r.len() ==> (#[trigger] r@[i])@ == self.fields()[i].0,
    {
        let mut names: Vec<String> = Vec::new();
        let mut i: usize = 0;
        while i < self.fields.len()
            invariant
                i <= self.fields.len(),
                names.len() == i,
                self.fields.len() == self.fields().len(),
                forall|j: int| 0 <= j < i ==> (#[trigger] names@[j])@ == self.fields()[j].0,
            decreases self.fields.len() - i,
        {
            names.push(self.fields[i].0.clone());
            i += 1;
        }
        names
    }

    /// The fields in canonical order: `Package`, `Version`, `Name`,
    /// `Author`, `Maintainer`, `MD5sum`, `SHA1` and `SHA256` first, as far as
    /// they are present and in this order, then every other field in the
    /// natural order of the names.
    pub fn sort_keys(&self) -> (r: Vec<(String, ControlEntry)>)
        requires
            self.wf(),
        ensures
            pairs_view(r@) == canonical(self.fields()),
    {
        let names = leading_list();
        let mut out: Vec<(String, ControlEntry)> = Vec::new();
        let mut n: usize = 0;
        assert(leading_names().take(0) =~= Seq::<Seq<char>>::empty());
        assert(pairs_view(out@) =~= picked(self.fields(), leading_names().take(0)));
        while n < names.len()
            invariant
                self.wf(),
                n <= names.len(),
                names.len() == leading_names().len(),
                forall|j: int|
                    0 <= j < names.len() ==> (#[trigger] names@[j])@ == leading_names()[j],
                pairs_view(out@) == picked(self.fields(), leading_names().take(n as int)),
            decreases names.len() - n,
        {
            let ghost upto = leading_names().take(n + 1);
            assert(upto.drop_last() =~= leading_names().take(n as int));
            assert(upto.last() == names@[n as int]@);
            let k = to_chars(names[n]);
            let i = self.lower_bound(&k);
            let ghost before = pairs_view(out@);
            if i < self.fields.len() && self.named(i, &k) {
                proof {
                    lemma_position(self.fields(), i as int);
                }
                out.push((self.fields[i].0.clone(), self.fields[i].1.clone()));
                assert(pairs_view(out@) =~= before.push(self.fields()[i as int]));
            } else {
                proof {
                    if i < self.fields().len() {
                        lemma_precedes_total(k@, self.fields()[i as int].0);
                    }
                    lemma_absent(self.fields(), k@, i as int);
                }
            }
            n += 1;
        }
        assert(leading_names().take(names.len() as int) =~= leading_names());
        let mut i: usize = 0;
        let ghost head = pairs_view(out@);
        assert(self.fields().take(0) =~= Seq::<(Seq<char>, EntryView)>::empty());
        assert(pairs_view(out@) =~= head + unranked(self.fields().take(0)));
        while i < self.fields.len()
            invariant
                i <= self.fields.len(),
                self.fields.len() == self.fields().len(),
                names.len() == leading_names().len(),
                forall|j: int|
                    0 <= j < names.len() ==> (#[trigger] names@[j])@ == leading_names()[j],
                pairs_view(out@) == head + unranked(self.fields().take(i as int)),
            decreases self.fields.len() - i,
        {
            let ghost upto = self.fields().take(i + 1);
            assert(upto.drop_last() =~= self.fields().take(i as int));
            assert(upto.last() == self.fields()[i as int]);
            let k = to_chars(self.fields[i].0.as_str());
            let ghost before = pairs_view(out@);
            if !Self::leads(&k, &names) {
                out.push((self.fields[i].0.clone(), self.fields[i].1.clone()));
                assert(pairs_view(out@) =~= before.push(self.fields()[i as int]));
                assert(before.push(self.fields()[i as int]) =~= head + unranked(
                    self.fields().take(i as int),
                ).push(self.fields()[i as int]));
            }
            i += 1;
        }
        assert(self.fields().take(self.fields.len() as int) =~= self.fields());
        out
    }

    /// The canonical text: one line per field, in canonical order.
    pub fn to_string(&self) -> (r: String)
        requires
            self.wf(),
        ensures
            r@ == lines_text(canonical(self.fields())),
    {
        let ordered = self.sort_keys();
        let mut text: Vec<char> = Vec::new();
        let mut i: usize = 0;
        assert(pairs_view(ordered@).take(0) =~= Seq::<(Seq<char>, EntryView)>::empty());
        while i < ordered.len()
            invariant
                i <= ordered.len(),
                text@ == lines_text(pairs_view(ordered@).take(i as int)),
            decreases ordered.len() - i,
        {
            let ghost upto = pairs_view(ordered@).take(i + 1);
            assert(upto.drop_last() =~= pairs_view(ordered@).take(i as int));
            assert(upto.last() == (ordered@[i as int].0@, ordered@[i as int].1@));
            let ghost before = text@;
            let name = to_chars(ordered[i].0.as_str());
            let colon = to_chars(": ");
            let value = indent(&ordered[i].1.chars());
            let end = to_chars("\n");
            extend_chars(&mut text, &name);
            extend_chars(&mut text, &colon);
            extend_chars(&mut text, &value);
            extend_chars(&mut text, &end);
            assert(text@ =~= before + line_text(upto.last()));
            i += 1;
        }
        assert(pairs_view(ordered@).take(ordered.len() as int) =~= pairs_view(ordered@));
        from_chars(&text)
    }

    /// The canonical text of a control file depends on its fields alone,
    /// not on the order in which they were inserted: two control files with
    /// the same mapping store the same fields and are written the same.
    pub proof fn lemma_text_determined(&self, other: &ControlFile)
        requires
            self.wf(),
            other.wf(),
            self@ == other@,
        ensures
            self.fields() == other.fields(),
            lines_text(canonical(self.fields())) == lines_text(canonical(other.fields())),
    {
        lemma_fields_determined(self.fields(), other.fields());
    }

    /// The place of the first field whose name does not come before `key`.
    fn lower_bound(&self, key: &Vec<char>) -> (i: usize)
        requires
            self.wf(),
        ensures
            i <= self.fields().len(),
            forall|j: int| 0 <= j < i ==> precedes((#[trigger] self.fields()[j]).0, key@),
            i < self.fields().len() ==> !precedes(self.fields()[i as int].0, key@),
    {
        let mut i: usize = 0;
        while i < self.fields.len()
            invariant
                i <= self.fields.len(),
                self.fields.len() == self.fields().len(),
                forall|j: int| 0 <= j < i ==> precedes((#[trigger] self.fields()[j]).0, key@),
            decreases self.fields.len() - i,
        {
            let name = to_chars(self.fields[i].0.as_str());
            assert(name@ == self.fields()[i as int].0);
            if !comes_before(&name, key) {
                return i;
            }
            i += 1;
        }
        i
    }

    /// Whether the field at place `i` is named `key`.
    fn named(&self, i: usize, key: &Vec<char>) -> (b: bool)
        requires
            i < self.fields().len(),
        ensures
            b == (self.fields()[i as int].0 == key@),
    {
        let name = to_chars(self.fields[i].0.as_str());
        same_chars(&name, key)
    }

    /// Whether `key` is one of the leading names.
    fn leads(key: &Vec<char>, names: &Vec<&'static str>) -> (b: bool)
        requires
            names.len() == leading_names().len(),
            forall|i: int| 0 <= i < names.len() ==> (#[trigger] names@[i])@ == leading_names()[i],
        ensures
            b == is_leading(key@),
    {
        let mut i: usize = 0;
        while i < names.len()
            invariant
                i <= names.len(),
                names.len() == leading_names().len(),
                forall|j: int|
                    0 <= j < names.len() ==> (#[trigger] names@[j])@ == leading_names()[j],
                forall|j: int| 0 <= j < i ==> leading_names()[j] != key@,
            decreases names.len() - i,
        {
            if is_literal(key, names[i]) {
                assert(leading_names()[i as int] == key@);
                return true;
            }
            i += 1;
        }
        false
    }
}

impl Clone for ControlFile {
    fn clone(&self) -> (r: Self)
        ensures
            r.fields() == self.fields(),
            r@ == self@,
            self.wf() ==> r.wf(),
    {
        let mut copy: Vec<(String, ControlEntry)> = Vec::new();
        let mut i: usize = 0;
        while i < self.fields.len()
            invariant
                i <= self.fields.len(),
                copy.len() == i,
                forall|j: int|
                    0 <= j < i ==> (#[trigger] copy@[j]).0@ == self.fields@[j].0@ && copy@[j].1@
                        == self.fields@[j].1@,
            decreases self.fields.len() - i,
        {
            copy.push((self.fields[i].0.clone(), self.fields[i].1.clone()));
            i += 1;
        }
        let r = ControlFile { fields: copy };
        assert(r.fields() =~= self.fields());
        r
    }
}

/// The leading names as literals, in order.
fn leading_list() -> (names: Vec<&'static str>)
    ensures
        names.len() == leading_names().len(),
        forall|i: int| 0 <= i < names.len() ==> (#[trigger] names@[i])@ == leading_names()[i],
{
    let names = vec![
        "Package",
        "Version",
        "Name",
        "Author",
        "Maintainer",
        "MD5sum",
        "SHA1",
        "SHA256",
    ];
    names
}

/// The mapping determines the stored fields: two sorted sequences that
/// stand for the same mapping are the same sequence.
pub proof fn lemma_fields_determined(
    a: Seq<(Seq<char>, EntryView)>,
    b: Seq<(Seq<char>, EntryView)>,
)
    requires
        sorted_by_key(a),
        sorted_by_key(b),
        as_map(a) == as_map(b),
    ensures
        a == b,
    decreases a.len(),
{
    if a.len() == 0 {
        if b.len() > 0 {
            lemma_position(b, 0);
            assert(as_map(a).contains_key(b[0].0));
            let j = position(a, b[0].0);
            assert(0 <= j < a.len());
        }
        assert(a =~= b);
    } else {
        let la = a.len() - 1;
        lemma_position(a, la);
        let ka = a[la].0;
        assert(as_map(b).contains_key(ka));
        let p = position(b, ka);
        assert(0 <= p < b.len() && b[p].0 == ka);
        let lb = b.len() - 1;
        lemma_position(b, lb);
        lemma_position(b, p);
        let kb = b[lb].0;
        assert(as_map(a).contains_key(kb));
        let q = position(a, kb);
        assert(0 <= q < a.len() && a[q].0 == kb);
        lemma_position(a, q);
        if p < lb {
            assert(precedes(b[p].0, b[lb].0));
            if q < la {
                assert(precedes(a[q].0, a[la].0));
                lemma_precedes_asymmetric(ka, kb);
            } else {
                lemma_precedes_irreflexive(ka);
            }
        }
        assert(p == lb);
        assert(a[la] == b[lb]);
        lemma_without_last(a);
        lemma_without_last(b);
        lemma_fields_determined(a.drop_last(), b.drop_last());
        assert(a =~= a.drop_last().push(a[la]));
        assert(b =~= b.drop_last().push(b[lb]));
    }
}

/// In a sorted sequence every field is found at its own place.
pub proof fn lemma_position(s: Seq<(Seq<char>, EntryView)>, i: int)
    requires
        sorted_by_key(s),
        0 <= i < s.len(),
    ensures
        has_key(s, s[i].0),
        position(s, s[i].0) == i,
        as_map(s).contains_key(s[i].0),
        as_map(s)[s[i].0] == s[i].1,
{
    let k = s[i].0;
    let p = position(s, k);
    assert(0 <= p < s.len() && s[p].0 == k);
    if p < i {
        assert(precedes(s[p].0, s[i].0));
        lemma_precedes_irreflexive(k);
    } else if i < p {
        assert(precedes(s[i].0, s[p].0));
        lemma_precedes_irreflexive(k);
    }
}

/// A name that falls between two neighbours of a sorted sequence, or before
/// its first or after its last field, is not in it.
pub proof fn lemma_absent(s: Seq<(Seq<char>, EntryView)>, k: Seq<char>, i: int)
    requires
        sorted_by_key(s),
        0 <= i <= s.len(),
        forall|j: int| 0 <= j < i ==> precedes((#[trigger] s[j]).0, k),
        i < s.len() ==> precedes(k, s[i].0),
    ensures
        !has_key(s, k),
{
    assert forall|j: int| 0 <= j < s.len() implies (#[trigger] s[j]).0 != k by {
        lemma_precedes_irreflexive(k);
        if j > i {
            assert(precedes(s[i].0, s[j].0));
            lemma_precedes_transitive(k, s[i].0, s[j].0);
        }
    }
}

/// Replacing the value of one field of a sorted sequence keeps it sorted
/// and updates the mapping at that name.
pub proof fn lemma_replaced(s: Seq<(Seq<char>, EntryView)>, i: int, v: EntryView)
    requires
        sorted_by_key(s),
        0 <= i < s.len(),
    ensures
        sorted_by_key(s.update(i, (s[i].0, v))),
        as_map(s.update(i, (s[i].0, v))) == as_map(s).insert(s[i].0, v),
{
    let k = s[i].0;
    let t = s.update(i, (k, v));
    assert forall|a: int, b: int| 0 <= a < b < t.len() implies precedes(
        (#[trigger] t[a]).0,
        (#[trigger] t[b]).0,
    ) by {
        assert(t[a].0 == s[a].0);
        assert(t[b].0 == s[b].0);
    }
    assert forall|q: Seq<char>| has_key(t, q) == (q == k || has_key(s, q)) by {
        if has_key(t, q) {
            let j = position(t, q);
            assert(s[j].0 == q);
        }
        if has_key(s, q) {
            let j = position(s, q);
            assert(t[j].0 == q);
        }
        if q == k {
            assert(t[i].0 == q);
        }
    }
    assert forall|q: Seq<char>| has_key(t, q) implies #[trigger] as_map(t)[q] == as_map(s).insert(
        k,
        v,
    )[q] by {
        let j = position(t, q);
        assert(0 <= j < t.len() && t[j].0 == q);
        lemma_position(t, j);
        lemma_position(t, i);
        if j != i {
            assert(s[j] == t[j]);
            lemma_position(s, j);
        }
    }
    assert(as_map(t) =~= as_map(s).insert(k, v));
}

/// Putting a new field at its place in a sorted sequence keeps it sorted
/// and extends the mapping by that field.
pub proof fn lemma_inserted(
    s: Seq<(Seq<char>, EntryView)>,
    i: int,
    f: (Seq<char>, EntryView),
)
    requires
        sorted_by_key(s),
        0 <= i <= s.len(),
        forall|j: int| 0 <= j < i ==> precedes((#[trigger] s[j]).0, f.0),
        i < s.len() ==> precedes(f.0, s[i].0),
    ensures
        sorted_by_key(s.insert(i, f)),
        as_map(s.insert(i, f)) == as_map(s).insert(f.0, f.1),
{
    let t = s.insert(i, f);
    assert forall|a: int, b: int| 0 <= a < b < t.len() implies precedes(
        (#[trigger] t[a]).0,
        (#[trigger] t[b]).0,
    ) by {
        if b < i {
            assert(t[a] == s[a] && t[b] == s[b]);
        } else if b == i {
            assert(t[a] == s[a]);
        } else if a < i {
            assert(t[a] == s[a] && t[b] == s[b - 1]);
            if b - 1 == i {
                lemma_precedes_transitive(s[a].0, f.0, s[i].0);
            } else {
                assert(precedes(s[a].0, s[b - 1].0));
            }
        } else if a == i {
            assert(t[b] == s[b - 1]);
            if b - 1 > i {
                assert(precedes(s[i].0, s[b - 1].0));
                lemma_precedes_transitive(f.0, s[i].0, s[b - 1].0);
            }
        } else {
            assert(t[a] == s[a - 1] && t[b] == s[b - 1]);
        }
    }
    assert forall|q: Seq<char>| has_key(t, q) == (q == f.0 || has_key(s, q)) by {
        if has_key(t, q) {
            let j = position(t, q);
            if j < i {
                assert(s[j].0 == q);
            } else if j > i {
                assert(s[j - 1].0 == q);
            }
        }
        if has_key(s, q) {
            let j = position(s, q);
            if j < i {
                assert(t[j].0 == q);
            } else {
                assert(t[j + 1].0 == q);
            }
        }
        if q == f.0 {
            assert(t[i].0 == q);
        }
    }
    assert forall|q: Seq<char>| has_key(t, q) implies #[trigger] as_map(t)[q] == as_map(s).insert(
        f.0,
        f.1,
    )[q] by {
        let j = position(t, q);
        assert(0 <= j < t.len() && t[j].0 == q);
        lemma_position(t, j);
        lemma_position(t, i);
        if j < i {
            assert(s[j] == t[j]);
            lemma_position(s, j);
        } else if j > i {
            assert(s[j - 1] == t[j]);
            lemma_position(s, j - 1);
        }
    }
    assert(as_map(t) =~= as_map(s).insert(f.0, f.1));
}

/// Taking one field out of a sorted sequence keeps it sorted and takes the
/// field's name out of the mapping.
pub proof fn lemma_removed(s: Seq<(Seq<char>, EntryView)>, i: int)
    requires
        sorted_by_key(s),
        0 <= i < s.len(),
    ensures
        sorted_by_key(s.remove(i)),
        as_map(s.remove(i)) == as_map(s).remove(s[i].0),
{
    let t = s.remove(i);
    let k = s[i].0;
    assert forall|a: int, b: int| 0 <= a < b < t.len() implies precedes(
        (#[trigger] t[a]).0,
        (#[trigger] t[b]).0,
    ) by {
        let sa = if a < i { a } else { a + 1 };
        let sb = if b < i { b } else { b + 1 };
        assert(t[a] == s[sa] && t[b] == s[sb]);
    }
    lemma_position(s, i);
    assert forall|q: Seq<char>| has_key(t, q) == (q != k && has_key(s, q)) by {
        if has_key(t, q) {
            let j = position(t, q);
            assert(0 <= j < t.len() && t[j].0 == q);
            let sj = if j < i { j } else { j + 1 };
            assert(s[sj].0 == q);
            lemma_position(s, sj);
        }
        if q != k && has_key(s, q) {
            let j = position(s, q);
            assert(0 <= j < s.len() && s[j].0 == q);
            let tj = if j < i { j } else { j - 1 };
            assert(t[tj].0 == q);
        }
    }
    assert forall|q: Seq<char>| has_key(t, q) implies #[trigger] as_map(t)[q] == as_map(s)[q] by {
        let j = position(t, q);
        assert(0 <= j < t.len() && t[j].0 == q);
        lemma_position(t, j);
        let sj = if j < i { j } else { j + 1 };
        assert(s[sj] == t[j]);
        lemma_position(s, sj);
    }
    assert(as_map(t) =~= as_map(s).remove(k));
}

/// Without its last field, a sorted sequence is sorted, and stands for the
/// mapping without that field's name.
pub proof fn lemma_without_last(s: Seq<(Seq<char>, EntryView)>)
    requires
        sorted_by_key(s),
        s.len() > 0,
    ensures
        sorted_by_key(s.drop_last()),
        as_map(s.drop_last()) == as_map(s).remove(s.last().0),
{
    let t = s.drop_last();
    let k = s.last().0;
    assert forall|a: int, b: int| 0 <= a < b < t.len() implies precedes(
        (#[trigger] t[a]).0,
        (#[trigger] t[b]).0,
    ) by {
        assert(t[a] == s[a] && t[b] == s[b]);
    }
    lemma_position(s, s.len() - 1);
    assert forall|q: Seq<char>| has_key(t, q) == (q != k && has_key(s, q)) by {
        if has_key(t, q) {
            let j = position(t, q);
            assert(0 <= j < t.len() && t[j].0 == q);
            assert(s[j].0 == q);
            lemma_position(s, j);
        }
        if q != k && has_key(s, q) {
            let j = position(s, q);
            assert(0 <= j < s.len() && s[j].0 == q);
            assert(t[j].0 == q);
        }
    }
    assert forall|q: Seq<char>| has_key(t, q) implies #[trigger] as_map(t)[q] == as_map(s)[q] by {
        let j = position(t, q);
        assert(0 <= j < t.len() && t[j].0 == q);
        lemma_position(t, j);
        assert(s[j] == t[j]);
        lemma_position(s, j);
    }
    assert(as_map(t) =~= as_map(s).remove(k));
}

} // verus!
