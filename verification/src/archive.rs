//! Packages: reading one from the bytes of its archive, looking into it,
//! and writing one out.
use vstd::prelude::*;
use vstd::slice::slice_to_vec;
use vstd::utf8::{decode_utf8, encode_utf8, valid_utf8};
use crate::compression::{
    content, member_name_spec, normal_name, packed, scheme_of_suffix, Compression,
};
use crate::container::{
    ar_append, ar_finish, ar_image, ar_staged, ar_writer, archived, contents_are_short,
    member_views, members_read, read_members, short_contents,
};
use crate::control::ControlFile;
use crate::entry::string_views;
use crate::error::{invalid_input, Error};
use crate::roundtrip::lemma_written_names;
use crate::stanza::{control_read, read_text};
use crate::tarball::{
    is_control_path, lemma_locate_prefix, listed, locate, path_views, tar_content, tar_content_of,
    tar_paths, tar_paths_of, Located,
};
use crate::text::{
    from_chars, is_literal, starts_with, starts_with_spec, to_chars, trim_end, trim_end_spec,
};

verus! {

/// A package held in memory: the format-version marker and the two tar
/// streams, not compressed.
#[derive(Debug)]
pub struct DebFile {
    pub debian_binary: String,
    pub control: Vec<u8>,
    pub data: Vec<u8>,
}

/// What a member of the outer archive is, which its name decides.
#[derive(Debug, Clone, Copy, PartialEq, Eq, Structural)]
pub enum Role {
    /// The format-version marker.
    Marker,
    /// The packed control tar stream.
    Control,
    /// The packed data tar stream.
    Data,
    /// Anything else; such members are ignored.
    Other,
}

/// The role of the member named `name`.
pub open spec fn role_of(name: Seq<char>) -> Role {
    if name == "debian-binary"@ {
        Role::Marker
    } else if starts_with_spec(name, "control.tar"@) {
        Role::Control
    } else if starts_with_spec(name, "data.tar"@) {
        Role::Data
    } else {
        Role::Other
    }
}

/// The first member of each role, as far as members were seen: the
/// content of the marker, and name and content of the two packed streams.
pub struct Parts {
    pub marker: Option<Vec<u8>>,
    pub control: Option<(String, Vec<u8>)>,
    pub data: Option<(String, Vec<u8>)>,
}

/// The mathematical value of `Parts`.
pub struct PartsView {
    pub marker: Option<Seq<u8>>,
    pub control: Option<(Seq<char>, Seq<u8>)>,
    pub data: Option<(Seq<char>, Seq<u8>)>,
}

impl View for Parts {
    type V = PartsView;

    open spec fn view(&self) -> PartsView {
        PartsView {
            marker: match self.marker {
                Some(m) => Some(m@),
                None => None,
            },
            control: match self.control {
                Some(c) => Some((c.0@, c.1@)),
                None => None,
            },
            data: match self.data {
                Some(d) => Some((d.0@, d.1@)),
                None => None,
            },
        }
    }
}

/// The parts after one more member, named `name` and holding `data`, was
/// seen: it fills the place of its role if that is still free, and is
/// ignored otherwise. The first member of a role wins.
pub open spec fn noted(parts: PartsView, name: Seq<char>, data: Seq<u8>) -> PartsView {
    match role_of(name) {
        Role::Marker => if parts.marker is None {
            PartsView { marker: Some(data), ..parts }
        } else {
            parts
        },
        Role::Control => if parts.control is None {
            PartsView { control: Some((name, data)), ..parts }
        } else {
            parts
        },
        Role::Data => if parts.data is None {
            PartsView { data: Some((name, data)), ..parts }
        } else {
            parts
        },
        Role::Other => parts,
    }
}

/// The parts found among the members `ms`, taken in order, the name of
/// each read as text.
pub open spec fn parts_of(ms: Seq<(Seq<u8>, Seq<u8>)>) -> PartsView
    decreases ms.len(),
{
    if ms.len() == 0 {
        PartsView { marker: None, control: None, data: None }
    } else {
        noted(parts_of(ms.drop_last()), lossy_text(ms.last().0), ms.last().1)
    }
}

/// The name of the first role, in the order marker, control, data, that
/// has no member among `parts`.
pub open spec fn missing_part(parts: PartsView) -> Option<Seq<char>> {
    if parts.marker is None {
        Some("debian-binary"@)
    } else if parts.control is None {
        Some("control"@)
    } else if parts.data is None {
        Some("data"@)
    } else {
        None
    }
}

/// What a packed member holds.
pub enum Held {
    /// These bytes: its name stands for a scheme whose codec accepts it.
    Bytes(Seq<u8>),
    /// Nothing that can be told: its name, here trimmed and in lower
    /// case, stands for no scheme.
    NoScheme(Seq<char>),
    /// Nothing: its name stands for a scheme whose codec refuses it.
    Refused,
}

/// What the member named `name` holds in `packed`.
pub open spec fn held(name: Seq<char>, packed: Seq<u8>) -> Held {
    match scheme_of_suffix(normal_name(name)) {
        None => Held::NoScheme(normal_name(name)),
        Some(scheme) => match content(scheme, packed) {
            Some(bytes) => Held::Bytes(bytes),
            None => Held::Refused,
        },
    }
}

/// `r` is what unpacking the member named `name` with the bytes `packed`
/// gives: what it holds; or `InvalidCompression` with its name, trimmed
/// and in lower case, where that stands for no scheme; or an error of the
/// codec where the codec refuses the bytes. Each comes in its case and in
/// no other.
pub open spec fn member_read(name: Seq<char>, packed: Seq<u8>, r: Result<Vec<u8>, Error>) -> bool {
    match held(name, packed) {
        Held::Bytes(bytes) => r matches Ok(out) && out@ == bytes,
        Held::NoScheme(n) => r matches Err(Error::InvalidCompression(m)) && m@ == n,
        Held::Refused => r matches Err(e) && (e is Io || e is Compression),
    }
}

/// `r` is what the parts `parts` make up. In this order: a missing part is
/// reported by the name of its role; a packed member whose name stands for
/// no scheme is rejected with that name, the control member before the
/// data member; a packed member that its codec refuses gives an error of
/// the codec; else `r` is the package whose marker is the text of the
/// marker member without trailing white space, and whose tar streams are
/// what the two packed members hold.
pub open spec fn assembled(parts: PartsView, r: Result<DebFile, Error>) -> bool {
    match missing_part(parts) {
        Some(name) => r matches Err(Error::MissingPart(m)) && m@ == name,
        None => {
            let control = held(parts.control.unwrap().0, parts.control.unwrap().1);
            let data = held(parts.data.unwrap().0, parts.data.unwrap().1);
            match (control, data) {
                (Held::NoScheme(n), _) => r matches Err(Error::InvalidCompression(m)) && m@ == n,
                (_, Held::NoScheme(n)) => r matches Err(Error::InvalidCompression(m)) && m@ == n,
                (Held::Bytes(c), Held::Bytes(d)) => {
                    &&& r matches Ok(deb)
                    &&& deb.debian_binary@ == trim_end_spec(lossy_text(parts.marker.unwrap()))
                    &&& deb.control@ == c
                    &&& deb.data@ == d
                },
                _ => r matches Err(e) && (e is Io || e is Compression),
            }
        },
    }
}

/// `r` is what reading the archive `bytes` gives: what the parts found in
/// the scan make up.
pub open spec fn parsed(bytes: Seq<u8>, r: Result<DebFile, Error>) -> bool {
    assembled(parts_of(members_read(bytes)), r)
}

/// `r` is what looking for the control file in the tar stream `tar`
/// gives. With no entry that is it, `MissingPart` of `control`; with an
/// entry that cannot be read before one is found, or the content of the
/// entry found not to be read, an I/O error; else what parsing the
/// content of the first entry whose path names it gives.
pub open spec fn control_found(tar: Seq<u8>, r: Result<ControlFile, Error>) -> bool {
    match locate(tar_paths_of(tar)) {
        Located::Absent => r matches Err(Error::MissingPart(m)) && m@ == "control"@,
        Located::Broken(_) => r matches Err(Error::Io(_)),
        Located::At(k) => match tar_content_of(tar, k) {
            Some(content) => control_read(content, r),
            None => r matches Err(Error::Io(_)),
        },
    }
}

/// The members of the archive of a package with the marker `marker`,
/// whose two streams, packed under `scheme`, are `control` and `data`.
pub open spec fn members_to_write(
    marker: Seq<char>,
    scheme: Compression,
    control: Seq<u8>,
    data: Seq<u8>,
) -> Seq<(Seq<u8>, Seq<u8>)> {
    seq![
        (encode_utf8("debian-binary"@), encode_utf8(marker)),
        (encode_utf8(member_name_spec("control"@, scheme)), control),
        (encode_utf8(member_name_spec("data"@, scheme)), data),
    ]
}

/// `r` is what writing the package `deb` under `scheme` gives. Where the
/// encoder makes a stream of both tar streams, and marker and streams are
/// short enough for an entry: the archive of the three members, from
/// which a scan reads them again, each stream holding what `deb` holds.
/// Where a member is too long for an entry, an I/O error; where the
/// encoder fails, its error.
pub open spec fn write_result(
    deb: DebFile,
    scheme: Compression,
    r: Result<Vec<u8>, Error>,
) -> bool {
    match (packed(scheme, deb.control@), packed(scheme, deb.data@)) {
        (Some(control), Some(data)) => {
            let members = members_to_write(deb.debian_binary@, scheme, control, data);
            if short_contents(members) {
                &&& r matches Ok(out)
                &&& out@ == ar_image(members)
                &&& members_read(out@) == members
                &&& content(scheme, control) == Some(deb.control@)
                &&& content(scheme, data) == Some(deb.data@)
            } else {
                r matches Err(Error::Io(_))
            }
        },
        _ => r matches Err(e) && (e is Io || e is Compression),
    }
}

impl Parts {
    /// No member seen yet.
    pub fn new() -> (r: Parts)
        ensures
            r@ == parts_of(Seq::empty()),
    {
        Parts { marker: None, control: None, data: None }
    }

    /// The role of the member named `name`: `debian-binary` is the marker,
    /// a name that begins with `control.tar` the control stream, one that
    /// begins with `data.tar` the data stream.
    pub fn role(name: &str) -> (r: Role)
        ensures
            r == role_of(name@),
    {
        let n = to_chars(name);
        if is_literal(&n, "debian-binary") {
            Role::Marker
        } else if starts_with(&n, "control.tar") {
            Role::Control
        } else if starts_with(&n, "data.tar") {
            Role::Data
        } else {
            Role::Other
        }
    }

    /// Takes note of one more member.
    pub fn note(&mut self, name: String, data: Vec<u8>)
        ensures
            final(self)@ == noted(old(self)@, name@, data@),
    {
        match Self::role(name.as_str()) {
            Role::Marker => {
                if self.marker.is_none() {
                    self.marker = Some(data);
                }
            },
            Role::Control => {
                if self.control.is_none() {
                    self.control = Some((name, data));
                }
            },
            Role::Data => {
                if self.data.is_none() {
                    self.data = Some((name, data));
                }
            },
            Role::Other => {},
        }
    }
}

impl DebFile {
    /// Reads a package from the bytes of its outer archive. The archive is
    /// scanned member by member, as `read_members` does: entries of the
    /// common and of the BSD variant are read, and the scan ends before an
    /// entry that is named through a table of names. Members are told
    /// apart by name, not by place; of two members of one role the first
    /// counts, and members of no role are ignored. The result is never a
    /// package with a part missing, and it is a package whenever no part
    /// is missing, both packed members have names that stand for a scheme,
    /// and their codecs accept them.
    pub fn parse(deb: Vec<u8>) -> (r: Result<DebFile, Error>)
        ensures
            parsed(deb@, r),
    {
        let mut members = read_members(deb.as_slice());
        let ghost all = member_views(members@);
        let mut parts = Parts::new();
        let ghost mut done: Seq<(Seq<u8>, Seq<u8>)> = Seq::empty();
        assert(done + member_views(members@) =~= all);
        while members.len() > 0
            invariant
                done + member_views(members@) == all,
                parts@ == parts_of(done),
            decreases members.len(),
        {
            let ghost rest = member_views(members@);
            let member = members.remove(0);
            proof {
                let first = (member.0@, member.1@);
                assert(rest[0] == first);
                assert(member_views(members@) =~= rest.skip(1));
                assert(done.push(first).drop_last() =~= done);
                assert(done.push(first) + rest.skip(1) =~= done + rest);
                done = done.push(first);
            }
            let text = lossy(member.0.as_slice());
            parts.note(text, member.1);
        }
        assert(done + Seq::<(Seq<u8>, Seq<u8>)>::empty() =~= done);
        assert(member_views(members@) =~= Seq::<(Seq<u8>, Seq<u8>)>::empty());
        Self::from_parts(parts)
    }

    /// The package that `parts` make up. A missing part is reported by the
    /// name of its role, the marker before the control stream and that
    /// before the data stream, if and only if one is missing. Then the
    /// names of both packed members are looked at, the control member
    /// first, and one that stands for no scheme is rejected. Only then
    /// are the members unpacked, and a member that its codec refuses is
    /// the only other ground to fail.
    pub fn from_parts(parts: Parts) -> (r: Result<DebFile, Error>)
        ensures
            assembled(parts@, r),
    {
        let marker = match parts.marker {
            Some(m) => m,
            None => {
                return Err(Error::MissingPart(from_chars(&to_chars("debian-binary"))));
            },
        };
        let control = match parts.control {
            Some(c) => c,
            None => {
                return Err(Error::MissingPart(from_chars(&to_chars("control"))));
            },
        };
        let data = match parts.data {
            Some(d) => d,
            None => {
                return Err(Error::MissingPart(from_chars(&to_chars("data"))));
            },
        };
        match Compression::from_str(control.0.as_str()) {
            Ok(_) => {},
            Err(e) => {
                return Err(e);
            },
        }
        match Compression::from_str(data.0.as_str()) {
            Ok(_) => {},
            Err(e) => {
                return Err(e);
            },
        }
        let text = lossy(marker.as_slice());
        let debian_binary = from_chars(&trim_end(&to_chars(text.as_str())));
        let control_tar = match Self::read_control_file(control.0.as_str(), control.1.as_slice()) {
            Ok(tar) => tar,
            Err(e) => {
                return Err(e);
            },
        };
        let data_tar = match Self::read_data(data.0.as_str(), data.1.as_slice()) {
            Ok(tar) => tar,
            Err(e) => {
                return Err(e);
            },
        };
        Ok(DebFile { debian_binary, control: control_tar, data: data_tar })
    }

    /// Detects the scheme of the member named `name` and unpacks `packed`
    /// under it. A name that stands for no scheme is rejected with
    /// `InvalidCompression`; bytes that the codec refuses give the codec's
    /// error; everything else is unpacked.
    pub fn read_member(name: &str, packed: &[u8]) -> (r: Result<Vec<u8>, Error>)
        ensures
            member_read(name@, packed@, r),
    {
        match Compression::from_str(name) {
            Ok(scheme) => scheme.decompress(packed),
            Err(e) => Err(e),
        }
    }

    /// The tar stream that the control member named `name` holds in
    /// `entry`.
    pub fn read_control_file(name: &str, entry: &[u8]) -> (r: Result<Vec<u8>, Error>)
        ensures
            member_read(name@, entry@, r),
    {
        Self::read_member(name, entry)
    }

    /// The tar stream that the data member named `name` holds in `entry`.
    pub fn read_data(name: &str, entry: &[u8]) -> (r: Result<Vec<u8>, Error>)
        ensures
            member_read(name@, entry@, r),
    {
        Self::read_member(name, entry)
    }

    /// The format-version marker.
    pub fn debian_binary(&self) -> (r: &str)
        ensures
            r@ == self.debian_binary@,
    {
        self.debian_binary.as_str()
    }

    /// The control file of the package: the entries of the control tar
    /// stream are taken in order up to the first whose final path segment
    /// is `control`, and that entry is parsed as `ControlFile::parse` does.
    /// With no such entry the error is `MissingPart` of `control`. An
    /// entry that cannot be read before one is found is an I/O error, and
    /// so is the entry found if its content cannot be read; nothing else
    /// is.
    pub fn control(&mut self) -> (r: Result<ControlFile, Error>)
        ensures
            *final(self) == *old(self),
            control_found(old(self).control@, r),
    {
        let mut items = tar_paths(self.control.as_slice());
        let ghost paths = tar_paths_of(self.control@);
        let mut i: usize = 0;
        while i < items.len()
            invariant
                i <= items.len(),
                path_views(items@) == paths,
                paths == tar_paths_of(self.control@),
                *self == *old(self),
                locate(paths.take(i as int)) is Absent,
            decreases items.len() - i,
        {
            let ghost upto = paths.take(i + 1);
            assert(upto.drop_last() =~= paths.take(i as int));
            assert(upto.last() == paths[i as int]);
            assert(paths[i as int] == path_views(items@)[i as int]);
            let is_control = match &items[i] {
                Ok(path) => is_control_path(path),
                Err(_) => false,
            };
            let is_broken = items[i].is_err();
            if is_broken {
                proof {
                    lemma_locate_prefix(paths, i + 1);
                }
                return match items.remove(i) {
                    Err(e) => Err(Error::Io(e)),
                    Ok(_) => Err(Error::MissingPart(from_chars(&to_chars("control")))),
                };
            }
            if is_control {
                proof {
                    lemma_locate_prefix(paths, i + 1);
                }
                return match tar_content(self.control.as_slice(), i) {
                    Some(Ok(content)) => ControlFile::parse(content.as_slice()),
                    Some(Err(e)) => Err(Error::Io(e)),
                    None => Err(Error::MissingPart(from_chars(&to_chars("control")))),
                };
            }
            i += 1;
        }
        assert(paths.take(paths.len() as int) =~= paths);
        Err(Error::MissingPart(from_chars(&to_chars("control"))))
    }

    /// The paths of the entries of the data tar stream, in order: of every
    /// entry that can be read and whose path is valid UTF-8. This never
    /// fails: a stream that is no tar stream has no entry that can be
    /// read.
    pub fn list_files(&mut self) -> (r: Result<Vec<String>, Error>)
        ensures
            *final(self) == *old(self),
            r matches Ok(files) && string_views(files@) == listed(tar_paths_of(old(self).data@)),
    {
        let items = tar_paths(self.data.as_slice());
        let ghost paths = tar_paths_of(self.data@);
        let mut files: Vec<String> = Vec::new();
        let mut i: usize = 0;
        assert(paths.take(0) =~= Seq::<Option<Seq<u8>>>::empty());
        assert(string_views(files@) =~= Seq::<Seq<char>>::empty());
        while i < items.len()
            invariant
                i <= items.len(),
                path_views(items@) == paths,
                string_views(files@) == listed(paths.take(i as int)),
            decreases items.len() - i,
        {
            let ghost upto = paths.take(i + 1);
            assert(upto.drop_last() =~= paths.take(i as int));
            assert(upto.last() == paths[i as int]);
            assert(paths[i as int] == path_views(items@)[i as int]);
            let ghost before = string_views(files@);
            match &items[i] {
                Ok(path) => match read_text(path.as_slice()) {
                    Ok(text) => {
                        files.push(text);
                        assert(string_views(files@) =~= before.push(decode_utf8(path@)));
                    },
                    Err(_) => {},
                },
                Err(_) => {},
            }
            i += 1;
        }
        assert(paths.take(paths.len() as int) =~= paths);
        Ok(files)
    }

    /// A package to be written, from the two tar streams, not compressed.
    /// The marker is `2.0` and a line feed. This never fails.
    pub fn pack(control: Vec<u8>, data: Vec<u8>) -> (r: Result<DebFile, Error>)
        ensures
            r matches Ok(deb) && deb.debian_binary@ == "2.0\n"@ && deb.control == control
                && deb.data == data,
    {
        Ok(DebFile { debian_binary: from_chars(&to_chars("2.0\n")), control, data })
    }

    /// Writes the package as the bytes of its outer archive: both tar
    /// streams are packed under `compression`, then the marker, the
    /// control member and the data member are written in this order, each
    /// with its exact length. This succeeds if and only if the encoder
    /// packs both streams and no member has ten thousand million bytes or
    /// more, which the header of an entry cannot state.
    pub fn write(self, compression: Compression) -> (r: Result<Vec<u8>, Error>)
        ensures
            write_result(self, compression, r),
    {
        let control = match compression.compress(self.control.as_slice()) {
            Ok(stream) => stream,
            Err(e) => {
                return Err(e);
            },
        };
        let data = match compression.compress(self.data.as_slice()) {
            Ok(stream) => stream,
            Err(e) => {
                return Err(e);
            },
        };
        proof {
            lemma_written_names(self.debian_binary@, compression, control@, data@);
        }
        let members = Self::members(self.debian_binary.as_str(), compression, control, data);
        Self::archive_of(&members)
    }

    /// The three members of the outer archive, in the order in which they
    /// are written: the marker, the control stream, the data stream, the
    /// two streams as `control` and `data` hold them packed under
    /// `scheme`.
    pub fn members(marker: &str, scheme: Compression, control: Vec<u8>, data: Vec<u8>) -> (r: Vec<
        (Vec<u8>, Vec<u8>),
    >)
        ensures
            member_views(r@) == members_to_write(marker@, scheme, control@, data@),
    {
        let marker_name = slice_to_vec("debian-binary".as_bytes());
        let marker_data = slice_to_vec(marker.as_bytes());
        let control_name = slice_to_vec(scheme.member_name("control").as_str().as_bytes());
        let data_name = slice_to_vec(scheme.member_name("data").as_str().as_bytes());
        let mut r: Vec<(Vec<u8>, Vec<u8>)> = Vec::new();
        r.push((marker_name, marker_data));
        r.push((control_name, control));
        r.push((data_name, data));
        assert(member_views(r@) =~= members_to_write(marker@, scheme, control@, data@));
        r
    }

    /// The bytes of the archive that holds `members`, in order, each under
    /// its name and with its exact length. This fails, with an I/O error,
    /// if and only if the content of a member has ten thousand million
    /// bytes or more: the header of an entry cannot state such a size.
    /// Where the members are plain, a scan of the bytes reads them again.
    pub fn archive_of(members: &Vec<(Vec<u8>, Vec<u8>)>) -> (r: Result<Vec<u8>, Error>)
        ensures
            if short_contents(member_views(members@)) {
                r matches Ok(out) && archived(member_views(members@), out@)
            } else {
                r matches Err(Error::Io(_))
            },
    {
        if !contents_are_short(members) {
            return Err(Error::Io(invalid_input("member too long for an archive entry")));
        }
        let mut writer = ar_writer();
        let mut i: usize = 0;
        assert(member_views(members@).take(0) =~= Seq::<(Seq<u8>, Seq<u8>)>::empty());
        while i < members.len()
            invariant
                i <= members.len(),
                ar_staged(writer) == member_views(members@).take(i as int),
            decreases members.len() - i,
        {
            let name = members[i].0.clone();
            assert(name@ == members@[i as int].0@);
            let data = members[i].1.as_slice();
            let size = data.len() as u64;
            match ar_append(&mut writer, name, size, data) {
                Ok(()) => {},
                Err(e) => {
                    return Err(Error::Io(e));
                },
            }
            assert(member_views(members@).take(i + 1) =~= member_views(members@).take(
                i as int,
            ).push((members@[i as int].0@, members@[i as int].1@)));
            i += 1;
        }
        assert(member_views(members@).take(members.len() as int) =~= member_views(members@));
        match ar_finish(writer) {
            Ok(out) => Ok(out),
            Err(e) => Err(Error::Io(e)),
        }
    }
}

/// The text of bytes that are not valid UTF-8, every invalid sequence
/// replaced by the replacement character, as `String::from_utf8_lossy`
/// gives it.
pub uninterp spec fn replaced_text(bytes: Seq<u8>) -> Seq<char>;

/// The text of `bytes` read as UTF-8 with every invalid sequence replaced,
/// as `String::from_utf8_lossy` gives it: valid UTF-8 is read as it is.
pub open spec fn lossy_text(bytes: Seq<u8>) -> Seq<char> {
    if valid_utf8(bytes) {
        decode_utf8(bytes)
    } else {
        replaced_text(bytes)
    }
}

/// Calls `String::from_utf8_lossy`. For bytes that are not valid UTF-8 the
/// contract only names the result.
#[verifier::external_body]
fn lossy(bytes: &[u8]) -> (s: String)
    ensures
        s@ == lossy_text(bytes@),
        !valid_utf8(bytes@) ==> s@ == replaced_text(bytes@),
{
    String::from_utf8_lossy(bytes).into_owned()
}

} // verus!
