//! The outer container: reading and writing `ar` archives held in memory.
use vstd::prelude::*;

verus! {

/// Length of the global header of an archive.
pub const AR_GLOBAL_HEADER: usize = 8;

/// Length of the header of an entry.
pub const AR_ENTRY_HEADER: usize = 60;

/// The variant of the format that a reader takes an archive to be of.
#[derive(Debug, Clone, Copy, PartialEq, Eq, Structural)]
pub enum Variant {
    /// The common variant: short names, as an archive begins.
    Common,
    /// The GNU variant, after a name that ended with a slash.
    Gnu,
    /// The BSD variant, after a name that began with `#1/`.
    Bsd,
}

/// No header that begins with a slash begins at `pos`: either the bytes
/// end before `pos`, or the byte there is no slash. A header that begins
/// with a slash names an entry through a table of names.
pub open spec fn plain_header(bytes: Seq<u8>, pos: int) -> bool {
    pos >= bytes.len() || bytes[pos] != 0x2f
}

/// The name in the header that begins at `pos` ends with a slash: of the
/// sixteen bytes of the name, the last that is no space is a slash.
pub open spec fn name_ends_with_slash(bytes: Seq<u8>, pos: int) -> bool {
    pos + 16 <= bytes.len() && exists|k: int|
        0 <= k < 16 && #[trigger] bytes[pos + k] == 0x2f && forall|j: int|
            k < j < 16 ==> #[trigger] bytes[pos + j] == 0x20
}

/// The header that begins at `pos` begins with `#1/`.
pub open spec fn name_is_extended(bytes: Seq<u8>, pos: int) -> bool {
    pos + 3 <= bytes.len() && bytes[pos] == 0x23 && bytes[pos + 1] == 0x31 && bytes[pos + 2]
        == 0x2f
}

/// The variant that a reader is in after it has read the entry whose
/// header begins at `pos`, having been in `variant` before. The BSD variant
/// is never left. Outside it, a name that ends with a slash leads to the GNU
/// variant; else, from the common variant, a name that begins with `#1/`
/// leads to the BSD variant.
pub open spec fn next_variant(bytes: Seq<u8>, pos: int, variant: Variant) -> Variant {
    if variant is Bsd {
        Variant::Bsd
    } else if name_ends_with_slash(bytes, pos) {
        Variant::Gnu
    } else if variant is Common && name_is_extended(bytes, pos) {
        Variant::Bsd
    } else {
        variant
    }
}

/// A reader in `variant` can be asked for the entry whose header begins at
/// `pos`: in the BSD variant no table of names is looked up, and outside it
/// the header does not begin with a slash.
pub open spec fn can_ask(bytes: Seq<u8>, pos: int, variant: Variant) -> bool {
    variant is Bsd || plain_header(bytes, pos)
}

/// Where the header after an entry begins whose own header begins at `pos`
/// and whose content has `len` bytes: content of odd length is followed by
/// one byte of padding.
pub open spec fn next_offset(pos: int, len: nat) -> int {
    pos + AR_ENTRY_HEADER + len + len % 2
}

/// The members that a scan reads: those of `ms`, in order, as long as the
/// reader can be asked for the next one. `pos` is where the header of the
/// first of `ms` begins in `bytes`, and `variant` the variant that the
/// reader is in before it. In the BSD variant the place is of no account.
pub open spec fn admitted(
    bytes: Seq<u8>,
    ms: Seq<(Seq<u8>, Seq<u8>)>,
    pos: int,
    variant: Variant,
) -> Seq<(Seq<u8>, Seq<u8>)>
    decreases ms.len(),
{
    if ms.len() == 0 || !can_ask(bytes, pos, variant) {
        Seq::empty()
    } else {
        seq![ms[0]] + admitted(
            bytes,
            ms.skip(1),
            next_offset(pos, ms[0].1.len()),
            next_variant(bytes, pos, variant),
        )
    }
}

/// The members that a scan of the archive `bytes` reads.
pub open spec fn members_read(bytes: Seq<u8>) -> Seq<(Seq<u8>, Seq<u8>)> {
    admitted(bytes, ar_members(bytes), AR_GLOBAL_HEADER as int, Variant::Common)
}

/// The size from which on the header of an entry cannot hold the size of
/// the entry: the field has ten decimal digits.
pub const AR_SIZE_LIMIT: u64 = 10_000_000_000;

/// The identifiers of `ms` are such that an archive of the common variant
/// holds them as they are: each has one to sixteen bytes, all of them
/// visible ASCII characters other than the slash.
pub open spec fn plain_names(ms: Seq<(Seq<u8>, Seq<u8>)>) -> bool {
    forall|i: int|
        0 <= i < ms.len() ==> {
            &&& 1 <= (#[trigger] ms[i]).0.len() <= 16
            &&& forall|j: int|
                0 <= j < ms[i].0.len() ==> 0x21 <= #[trigger] ms[i].0[j] <= 0x7e && ms[i].0[j]
                    != 0x2f
        }
}

/// The content of each of `ms` is short enough for its size to be written
/// in the header of an entry.
pub open spec fn short_contents(ms: Seq<(Seq<u8>, Seq<u8>)>) -> bool {
    forall|i: int| 0 <= i < ms.len() ==> (#[trigger] ms[i]).1.len() < AR_SIZE_LIMIT
}

/// `ms` are members that an archive of the common variant holds as they
/// are.
pub open spec fn plain_members(ms: Seq<(Seq<u8>, Seq<u8>)>) -> bool {
    plain_names(ms) && short_contents(ms)
}

/// `out` is the archive of the members `ms`: the bytes written for them,
/// from which, where the members are plain, a scan reads them again.
pub open spec fn archived(ms: Seq<(Seq<u8>, Seq<u8>)>, out: Seq<u8>) -> bool {
    &&& out == ar_image(ms)
    &&& plain_members(ms) ==> members_read(out) == ms
}

/// Whether the content of each of `members` is short enough for its size
/// to be written in the header of an entry.
pub fn contents_are_short(members: &Vec<(Vec<u8>, Vec<u8>)>) -> (b: bool)
    ensures
        b == short_contents(member_views(members@)),
{
    let mut i: usize = 0;
    while i < members.len()
        invariant
            i <= members.len(),
            forall|j: int|
                0 <= j < i ==> (#[trigger] member_views(members@)[j]).1.len() < AR_SIZE_LIMIT,
        decreases members.len() - i,
    {
        if members[i].1.len() as u64 >= AR_SIZE_LIMIT {
            assert(member_views(members@)[i as int].1.len() >= AR_SIZE_LIMIT);
            return false;
        }
        i += 1;
    }
    true
}

/// The views of members held as vectors.
pub open spec fn member_views(v: Seq<(Vec<u8>, Vec<u8>)>) -> Seq<(Seq<u8>, Seq<u8>)> {
    Seq::new(v.len(), |i: int| (v[i].0@, v[i].1@))
}

/// Whether no header that begins with a slash begins at `pos`.
pub fn header_is_plain(deb: &[u8], pos: usize) -> (b: bool)
    ensures
        b == plain_header(deb@, pos as int),
{
    pos >= deb.len() || deb[pos] != 0x2f
}

/// Whether the name in the header that begins at `pos` ends with a slash.
pub fn header_name_ends_with_slash(deb: &[u8], pos: usize) -> (b: bool)
    ensures
        b == name_ends_with_slash(deb@, pos as int),
{
    if deb.len() < 16 || pos > deb.len() - 16 {
        return false;
    }
    let mut k: usize = 16;
    while k > 0 && deb[pos + k - 1] == 0x20
        invariant
            k <= 16,
            pos + 16 <= deb.len(),
            forall|j: int| k <= j < 16 ==> #[trigger] deb@[pos + j] == 0x20,
        decreases k,
    {
        k -= 1;
    }
    if k > 0 && deb[pos + k - 1] == 0x2f {
        assert(deb@[pos + (k - 1)] == 0x2f);
        true
    } else {
        assert forall|i: int| 0 <= i < 16 && #[trigger] deb@[pos + i] == 0x2f implies !(forall|
            j: int,
        |
            i < j < 16 ==> #[trigger] deb@[pos + j] == 0x20) by {
            if i < k - 1 {
                assert(deb@[pos + (k - 1)] != 0x20);
            }
        }
        false
    }
}

/// Whether the header that begins at `pos` begins with `#1/`.
pub fn header_name_is_extended(deb: &[u8], pos: usize) -> (b: bool)
    ensures
        b == name_is_extended(deb@, pos as int),
{
    deb.len() >= 3 && pos <= deb.len() - 3 && deb[pos] == 0x23 && deb[pos + 1] == 0x31 && deb[pos
        + 2] == 0x2f
}

/// The variant that a reader is in after the entry whose header begins at
/// `pos`.
pub fn variant_after(deb: &[u8], pos: usize, variant: Variant) -> (r: Variant)
    ensures
        r == next_variant(deb@, pos as int, variant),
{
    match variant {
        Variant::Bsd => Variant::Bsd,
        Variant::Gnu => Variant::Gnu,
        Variant::Common => if header_name_ends_with_slash(deb, pos) {
            Variant::Gnu
        } else if header_name_is_extended(deb, pos) {
            Variant::Bsd
        } else {
            Variant::Common
        },
    }
}

/// Where the header after an entry begins whose own header begins at `pos`
/// and whose content has `len` bytes; `None` where that is beyond every
/// place that a `usize` can hold, and so beyond the end of every archive.
pub fn advance(pos: usize, len: usize) -> (r: Option<usize>)
    ensures
        match r {
            Some(next) => next == next_offset(pos as int, len as nat),
            None => next_offset(pos as int, len as nat) > usize::MAX,
        },
{
    let pad: usize = len % 2;
    match pos.checked_add(AR_ENTRY_HEADER) {
        Some(a) => match a.checked_add(len) {
            Some(b) => b.checked_add(pad),
            None => None,
        },
        None => None,
    }
}

/// The members of the archive `deb`, each with its identifier and its
/// content, in order, as far as they can be read. Entries of the common
/// variant and of the BSD variant are read. The scan ends before an entry
/// whose header begins with a slash, unless the archive has turned out to
/// be of the BSD variant before: such an entry is named through a table of
/// names, which is not read.
pub fn read_members(deb: &[u8]) -> (r: Vec<(Vec<u8>, Vec<u8>)>)
    ensures
        member_views(r@) == members_read(deb@),
{
    let ghost bytes = deb@;
    assert(bytes.len() == deb.len());
    let mut archive = ar_open(deb);
    let mut members: Vec<(Vec<u8>, Vec<u8>)> = Vec::new();
    let mut variant = Variant::Common;
    let mut pos: Option<usize> = Some(AR_GLOBAL_HEADER);
    let mut asking = header_is_plain(deb, AR_GLOBAL_HEADER);
    let ghost mut offset: int = AR_GLOBAL_HEADER as int;
    assert(member_views(members@) =~= Seq::<(Seq<u8>, Seq<u8>)>::empty());
    assert(member_views(members@) + admitted(bytes, ar_pending(archive), offset, variant)
        =~= members_read(bytes));
    while asking
        invariant_except_break
            ar_source(archive) == bytes,
            ar_variant(archive) == variant,
            !(variant is Bsd) ==> ar_offset(archive) == offset,
            asking == can_ask(bytes, offset, variant),
            member_views(members@) + admitted(bytes, ar_pending(archive), offset, variant)
                == members_read(bytes),
        invariant
            bytes == deb@,
            bytes.len() <= usize::MAX,
            match pos {
                Some(p) => offset == p,
                None => offset >= bytes.len(),
            },
        ensures
            member_views(members@) == members_read(bytes),
        decreases ar_pending(archive).len(),
    {
        let ghost pending = ar_pending(archive);
        let ghost done = member_views(members@);
        match ar_next(&mut archive) {
            Some(member) => {
                let ghost before = variant;
                let ghost from = offset;
                variant = match pos {
                    Some(p) => variant_after(deb, p, variant),
                    None => {
                        proof {
                            lemma_beyond_the_end(bytes, offset, variant);
                        }
                        variant
                    },
                };
                proof {
                    offset = next_offset(from, member.1@.len());
                    assert(done.push(pending[0]) + admitted(bytes, pending.skip(1), offset, variant)
                        =~= done + admitted(bytes, pending, from, before));
                }
                pos = match pos {
                    Some(p) => advance(p, member.1.len()),
                    None => None,
                };
                asking = match variant {
                    Variant::Bsd => true,
                    _ => match pos {
                        Some(p) => header_is_plain(deb, p),
                        None => true,
                    },
                };
                members.push(member);
                assert(member_views(members@) =~= done.push(pending[0]));
            },
            None => {
                assert(admitted(bytes, pending, offset, variant) =~= Seq::empty());
                assert(done + Seq::<(Seq<u8>, Seq<u8>)>::empty() =~= done);
                break;
            },
        }
    }
    assert(member_views(members@) + Seq::<(Seq<u8>, Seq<u8>)>::empty() =~= member_views(
        members@,
    ));
    members
}

/// Beyond the end of the bytes there is no header, and so none that
/// changes the variant.
proof fn lemma_beyond_the_end(bytes: Seq<u8>, pos: int, variant: Variant)
    requires
        pos >= bytes.len(),
    ensures
        next_variant(bytes, pos, variant) == variant,
{
}

/// A reader of `ar::Archive` over the bytes of an archive held in memory.
#[verifier::external_body]
pub struct ArReader<'a> {
    inner: ar::Archive<&'a [u8]>,
}

/// The entries that `ar::Archive` yields for the bytes of an archive, each
/// with its identifier and its content, up to the end of the archive or
/// to the first entry that it cannot read.
pub uninterp spec fn ar_members(bytes: Seq<u8>) -> Seq<(Seq<u8>, Seq<u8>)>;

/// The entries that a reader has still to yield.
pub uninterp spec fn ar_pending(archive: ArReader) -> Seq<(Seq<u8>, Seq<u8>)>;

/// The bytes that a reader was opened on.
pub uninterp spec fn ar_source(archive: ArReader) -> Seq<u8>;

/// Where in its source the header of the entry that a reader yields next
/// begins, if there is such an entry and the reader is not in the BSD
/// variant.
pub uninterp spec fn ar_offset(archive: ArReader) -> int;

/// The variant that a reader is in.
pub uninterp spec fn ar_variant(archive: ArReader) -> Variant;

/// Calls `ar::Archive::new` on `deb`. The reader begins in the common
/// variant, and the first header, if any, follows the global header.
#[verifier::external_body]
fn ar_open<'a>(deb: &'a [u8]) -> (archive: ArReader<'a>)
    ensures
        ar_pending(archive) == ar_members(deb@),
        ar_source(archive) == deb@,
        ar_offset(archive) == AR_GLOBAL_HEADER,
        ar_variant(archive) == Variant::Common,
{
    ArReader { inner: ar::Archive::new(deb) }
}

/// Calls `ar::Archive::next_entry` and reads the entry to its end: the
/// identifier and the content of the next entry, or nothing where no
/// further entry can be read. Outside the BSD variant the reader is asked
/// only where the next header does not begin with a slash: for such a
/// header `next_entry` may look up a table of names that is not there.
/// Outside the BSD variant an entry has a header of 60 bytes. Reading from
/// memory does not fail.
#[verifier::external_body]
fn ar_next(archive: &mut ArReader) -> (step: Option<(Vec<u8>, Vec<u8>)>)
    requires
        can_ask(ar_source(*old(archive)), ar_offset(*old(archive)), ar_variant(*old(archive))),
    ensures
        ar_source(*final(archive)) == ar_source(*old(archive)),
        match step {
            Some(member) => {
                &&& ar_pending(*old(archive)).len() > 0
                &&& ar_pending(*old(archive))[0] == (member.0@, member.1@)
                &&& ar_pending(*final(archive)) == ar_pending(*old(archive)).skip(1)
                &&& ar_variant(*final(archive)) == next_variant(
                    ar_source(*old(archive)),
                    ar_offset(*old(archive)),
                    ar_variant(*old(archive)),
                )
                &&& !(ar_variant(*final(archive)) is Bsd) ==> ar_offset(*final(archive))
                    == next_offset(ar_offset(*old(archive)), member.1@.len())
            },
            None => ar_pending(*old(archive)).len() == 0,
        },
{
    match archive.inner.next_entry() {
        Some(Ok(mut entry)) => {
            let name = entry.header().identifier().to_vec();
            let mut data = Vec::new();
            match std::io::Read::read_to_end(&mut entry, &mut data) {
                Ok(_) => Some((name, data)),
                Err(_) => None,
            }
        },
        _ => None,
    }
}

/// A writer of `ar::Builder` that collects an archive in memory.
#[verifier::external_body]
pub struct ArWriter {
    inner: ar::Builder<Vec<u8>>,
}

/// The members that a writer holds so far, in the order in which they
/// were appended, each with its identifier and its content.
pub uninterp spec fn ar_staged(writer: ArWriter) -> Seq<(Seq<u8>, Seq<u8>)>;

/// The bytes of the archive that `ar::Builder` writes for the members
/// appended to it, each with a header of its identifier and its size and
/// all other fields zero.
pub uninterp spec fn ar_image(members: Seq<(Seq<u8>, Seq<u8>)>) -> Seq<u8>;

/// Calls `ar::Builder::new` on an empty vector.
#[verifier::external_body]
pub(crate) fn ar_writer() -> (writer: ArWriter)
    ensures
        ar_staged(writer) == Seq::<(Seq<u8>, Seq<u8>)>::empty(),
{
    ArWriter { inner: ar::Builder::new(Vec::new()) }
}

/// Calls `ar::Header::new` and `ar::Builder::append`: one more member is
/// held, under the identifier `name` and with the content `data`. With the
/// size that of `data`, and a vector to write to, `append` does not fail.
#[verifier::external_body]
pub(crate) fn ar_append(writer: &mut ArWriter, name: Vec<u8>, size: u64, data: &[u8]) -> (r:
    Result<(), std::io::Error>)
    requires
        size == data@.len(),
    ensures
        r is Ok,
        ar_staged(*final(writer)) == ar_staged(*old(writer)).push((name@, data@)),
{
    let header = ar::Header::new(name, size);
    writer.inner.append(&header, data)
}

/// Calls `ar::Builder::into_inner`, which hands the vector out and does
/// not fail: the bytes written for the members held. Assumed of reader and
/// writer together: members with short identifiers of visible characters
/// and without a slash are written in the common variant, one header of
/// 60 bytes each, and a scan of the bytes yields them again.
#[verifier::external_body]
pub(crate) fn ar_finish(writer: ArWriter) -> (r: Result<Vec<u8>, std::io::Error>)
    ensures
        r is Ok,
        r matches Ok(out) ==> out@ == ar_image(ar_staged(writer)),
        r matches Ok(out) ==> archived(ar_staged(writer), out@),
{
    writer.inner.into_inner()
}

} // verus!
