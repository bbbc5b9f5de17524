//! The tar streams inside a package: their entries, and where the control
//! file is among them.
use vstd::prelude::*;
use vstd::utf8::{decode_utf8, encode_utf8, valid_utf8};

verus! {

/// How many bytes at the end of `p` are slashes (`slashes` true), or are no
/// slashes (`slashes` false).
pub open spec fn trailing_run(p: Seq<u8>, slashes: bool) -> nat
    decreases p.len(),
{
    if p.len() > 0 && ((p.last() == 0x2f) == slashes) {
        1 + trailing_run(p.drop_last(), slashes)
    } else {
        0
    }
}

/// `p` without the slashes at its end.
pub open spec fn without_trailing_slashes(p: Seq<u8>) -> Seq<u8> {
    p.take(p.len() - trailing_run(p, true))
}

/// The final segment of the path `p`: what follows the last slash, the
/// slashes at the end of `p` aside.
pub open spec fn final_segment(p: Seq<u8>) -> Seq<u8> {
    let body = without_trailing_slashes(p);
    body.skip(body.len() - trailing_run(body, false))
}

/// The path `p` names the control file: its final segment is `control`.
pub open spec fn names_control(p: Seq<u8>) -> bool {
    final_segment(p) == encode_utf8("control"@)
}

/// Whether the final segment of `path` is `control`.
pub fn is_control_path(path: &Vec<u8>) -> (r: bool)
    ensures
        r == names_control(path@),
{
    let mut end: usize = path.len();
    while end > 0 && path[end - 1] == 0x2f
        invariant
            end <= path.len(),
            forall|i: int| end <= i < path.len() ==> #[trigger] path@[i] == 0x2f,
        decreases end,
    {
        end -= 1;
    }
    proof {
        lemma_trailing_run_is(path@, true, (path.len() - end) as nat);
    }
    let ghost body = path@.take(end as int);
    let mut start: usize = end;
    while start > 0 && path[start - 1] != 0x2f
        invariant
            start <= end <= path.len(),
            body == path@.take(end as int),
            forall|i: int| start <= i < end ==> #[trigger] body[i] != 0x2f,
        decreases start,
    {
        start -= 1;
    }
    proof {
        lemma_trailing_run_is(body, false, (end - start) as nat);
    }
    let mut segment: Vec<u8> = Vec::new();
    let mut i: usize = start;
    while i < end
        invariant
            start <= i <= end <= path.len(),
            segment@ == path@.subrange(start as int, i as int),
        decreases end - i,
    {
        segment.push(path[i]);
        i += 1;
    }
    assert(segment@ =~= body.skip(start as int));
    same_bytes(segment.as_slice(), "control".as_bytes())
}

/// Where the entry that holds the control file stands among the entries
/// of a tar stream.
pub enum Located {
    /// At this place; every entry before it could be read and is another.
    At(int),
    /// Not known: the entry at this place could not be read, and none
    /// before it is the control file.
    Broken(int),
    /// Nowhere: every entry could be read and none is the control file.
    Absent,
}

/// Where the first entry whose path names the control file stands among
/// `paths`.
pub open spec fn locate(paths: Seq<Option<Seq<u8>>>) -> Located
    decreases paths.len(),
{
    if paths.len() == 0 {
        Located::Absent
    } else {
        match locate(paths.drop_last()) {
            Located::Absent => match paths.last() {
                Some(p) => if names_control(p) {
                    Located::At(paths.len() - 1)
                } else {
                    Located::Absent
                },
                None => Located::Broken(paths.len() - 1),
            },
            found => found,
        }
    }
}

/// The paths among `paths` that are valid UTF-8, as text, in order.
pub open spec fn listed(paths: Seq<Option<Seq<u8>>>) -> Seq<Seq<char>>
    decreases paths.len(),
{
    if paths.len() == 0 {
        Seq::empty()
    } else {
        match paths.last() {
            Some(p) => if valid_utf8(p) {
                listed(paths.drop_last()).push(decode_utf8(p))
            } else {
                listed(paths.drop_last())
            },
            None => listed(paths.drop_last()),
        }
    }
}

/// The paths of the entries handed out, nothing standing for an entry that
/// could not be read.
pub open spec fn path_views(items: Seq<Result<Vec<u8>, std::io::Error>>) -> Seq<Option<Seq<u8>>> {
    Seq::new(
        items.len(),
        |i: int|
            match items[i] {
                Ok(p) => Some(p@),
                Err(_) => None,
            },
    )
}

/// Whether two byte strings are the same.
fn same_bytes(a: &[u8], b: &[u8]) -> (r: bool)
    ensures
        r == (a@ == b@),
{
    if a.len() != b.len() {
        return false;
    }
    let mut i: usize = 0;
    while i < a.len()
        invariant
            i <= a.len(),
            a.len() == b.len(),
            a@.take(i as int) == b@.take(i as int),
        decreases a.len() - i,
    {
        if a[i] != b[i] {
            return false;
        }
        assert(a@.take(i + 1) == a@.take(i as int).push(a@[i as int]));
        assert(b@.take(i + 1) == b@.take(i as int).push(b@[i as int]));
        i += 1;
    }
    assert(a@ == a@.take(a.len() as int));
    assert(b@ == b@.take(b.len() as int));
    true
}

/// A run of `n` bytes of one kind at the end of `p`, with the start of `p`
/// or a byte of the other kind before it, is all of its trailing run.
proof fn lemma_trailing_run_is(p: Seq<u8>, slashes: bool, n: nat)
    requires
        n <= p.len(),
        forall|i: int| p.len() - n <= i < p.len() ==> ((#[trigger] p[i] == 0x2f) == slashes),
        n < p.len() ==> ((p[p.len() - n - 1] == 0x2f) != slashes),
    ensures
        trailing_run(p, slashes) == n,
    decreases n,
{
    if n > 0 {
        let t = p.drop_last();
        assert forall|i: int| t.len() - (n - 1) <= i < t.len() implies ((#[trigger] t[i] == 0x2f)
            == slashes) by {
            assert(t[i] == p[i]);
        }
        lemma_trailing_run_is(t, slashes, (n - 1) as nat);
    }
}

/// Once the control file is located, or an entry found that cannot be
/// read, later entries change nothing.
pub proof fn lemma_locate_prefix(paths: Seq<Option<Seq<u8>>>, i: int)
    requires
        0 <= i <= paths.len(),
        !(locate(paths.take(i)) is Absent),
    ensures
        locate(paths) == locate(paths.take(i)),
    decreases paths.len(),
{
    if i == paths.len() {
        assert(paths.take(i) =~= paths);
    } else {
        assert(paths.drop_last().take(i) =~= paths.take(i));
        lemma_locate_prefix(paths.drop_last(), i);
    }
}

/// The entries of a tar stream as `tar::Archive::entries` yields them, in
/// order: the path of each entry that could be read, nothing for one that
/// could not. Nothing follows an entry that could not be read.
pub uninterp spec fn tar_paths_of(data: Seq<u8>) -> Seq<Option<Seq<u8>>>;

/// Calls `tar::Archive::entries` on a fresh archive over `data` and hands
/// out each entry as the bytes of its path (`tar::Entry::path_bytes`), or
/// as the error that the iterator gave in its place. An error of `entries`
/// itself, which a fresh archive does not give, stands as one such entry.
#[verifier::external_body]
pub(crate) fn tar_paths(data: &[u8]) -> (items: Vec<Result<Vec<u8>, std::io::Error>>)
    ensures
        path_views(items@) == tar_paths_of(data@),
{
    let mut archive = tar::Archive::new(data);
    match archive.entries() {
        Ok(entries) => entries.map(|e| e.map(|e| e.path_bytes().into_owned())).collect(),
        Err(e) => vec![Err(e)],
    }
}

/// The content of the entry at place `index` of a tar stream, as reading
/// the entry to its end gives it; nothing where the stream has no entry at
/// that place or the entry cannot be read.
pub uninterp spec fn tar_content_of(data: Seq<u8>, index: int) -> Option<Seq<u8>>;

/// Calls `tar::Archive::entries` on a fresh archive over `data`, goes to
/// the entry at place `index` and reads it to its end. `None` where the
/// stream has no entry at that place. The bytes alone decide the outcome.
#[verifier::external_body]
pub(crate) fn tar_content(data: &[u8], index: usize) -> (r: Option<
    Result<Vec<u8>, std::io::Error>,
>)
    ensures
        match r {
            Some(Ok(out)) => tar_content_of(data@, index as int) == Some(out@),
            Some(Err(_)) => tar_content_of(data@, index as int) is None,
            None => tar_content_of(data@, index as int) is None && index >= tar_paths_of(
                data@,
            ).len(),
        },
{
    let mut archive = tar::Archive::new(data);
    let mut entry = match archive.entries().map(|mut entries| entries.nth(index)) {
        Ok(Some(Ok(entry))) => entry,
        Ok(Some(Err(e))) => return Some(Err(e)),
        Ok(None) => return None,
        Err(e) => return Some(Err(e)),
    };
    let mut out = Vec::new();
    Some(std::io::Read::read_to_end(&mut entry, &mut out).map(|_| out))
}

} // verus!
