//! The compression schemes of package members: detection by name, the
//! suffix of each scheme, and the dispatch to the codecs.
use vstd::prelude::*;
use crate::error::{lzma_failure, Error};
use crate::text::{
    ends_with, ends_with_spec, extend_chars, from_chars, lowercase, lowercased, to_chars, trim,
    trim_spec,
};

verus! {

/// How the bytes of a member are packed.
#[derive(Debug, Clone, Copy, PartialEq, Eq, Structural)]
pub enum Compression {
    /// Bzip compression
    Bz2,
    /// Gzip compression
    Gz,
    /// LZMA / XZ compression
    Xz,
    /// Zstandard compression
    Zst,
}

/// The preset at which xz streams are packed.
pub const XZ_PRESET: u32 = 6;

/// The level at which Zstandard streams are packed.
pub const ZSTD_LEVEL: i32 = 6;

/// The bytes that `packed` holds under `scheme`; none where `packed` is no
/// stream that the codec of `scheme` accepts.
pub open spec fn content(scheme: Compression, packed: Seq<u8>) -> Option<Seq<u8>> {
    match scheme {
        Compression::Bz2 => bz2_content(packed),
        Compression::Gz => gz_content(packed),
        Compression::Xz => xz_content(packed),
        Compression::Zst => zst_content(packed),
    }
}

/// The stream that the encoder of `scheme` makes of `data`; none where it
/// fails.
pub open spec fn packed(scheme: Compression, data: Seq<u8>) -> Option<Seq<u8>> {
    match scheme {
        Compression::Bz2 => bz2_packed(data),
        Compression::Gz => gz_packed(data),
        Compression::Xz => xz_packed(data, XZ_PRESET),
        Compression::Zst => zst_packed(data, ZSTD_LEVEL),
    }
}

/// `r` is what packing `data` under `scheme` gives: the stream that the
/// encoder makes of `data`, which holds exactly `data`, if and only if the
/// encoder succeeds, and else an error of the codec.
pub open spec fn packs(scheme: Compression, data: Seq<u8>, r: Result<Vec<u8>, Error>) -> bool {
    match packed(scheme, data) {
        Some(stream) => r matches Ok(out) && out@ == stream && content(scheme, stream) == Some(
            data,
        ),
        None => r matches Err(e) && (e is Io || e is Compression),
    }
}

/// `r` is what unpacking `packed` under `scheme` gives: what `packed`
/// holds, if and only if the codec accepts it, and else an error of the
/// codec.
pub open spec fn unpacks(scheme: Compression, packed: Seq<u8>, r: Result<Vec<u8>, Error>) -> bool {
    match content(scheme, packed) {
        Some(data) => r matches Ok(out) && out@ == data,
        None => r matches Err(e) && (e is Io || e is Compression),
    }
}

/// The suffix that names `scheme`.
pub open spec fn suffix_spec(scheme: Compression) -> Seq<char> {
    match scheme {
        Compression::Bz2 => "bz2"@,
        Compression::Gz => "gz"@,
        Compression::Xz => "xz"@,
        Compression::Zst => "zst"@,
    }
}

/// The scheme that a name stands for, the name being trimmed and in lower
/// case: the one whose suffix the name ends with, `zstd` counting like
/// `zst`; none for any other name, a bare `tar` among them.
pub open spec fn scheme_of_suffix(lower: Seq<char>) -> Option<Compression> {
    if ends_with_spec(lower, "bz2"@) {
        Some(Compression::Bz2)
    } else if ends_with_spec(lower, "gz"@) {
        Some(Compression::Gz)
    } else if ends_with_spec(lower, "xz"@) {
        Some(Compression::Xz)
    } else if ends_with_spec(lower, "zst"@) || ends_with_spec(lower, "zstd"@) {
        Some(Compression::Zst)
    } else {
        None
    }
}

/// A name as detection sees it: trimmed, then put in lower case.
pub open spec fn normal_name(name: Seq<char>) -> Seq<char> {
    lowercased(trim_spec(name))
}

/// The name of the member that holds the tar stream `role` (`control` or
/// `data`) packed under `scheme`.
pub open spec fn member_name_spec(role: Seq<char>, scheme: Compression) -> Seq<char> {
    role + ".tar."@ + suffix_spec(scheme)
}

impl Compression {
    /// The scheme that the trimmed, lower-case name `lower` stands for.
    pub fn detect(lower: &str) -> (r: Option<Compression>)
        ensures
            r == scheme_of_suffix(lower@),
    {
        let s = to_chars(lower);
        if ends_with(&s, "bz2") {
            Some(Compression::Bz2)
        } else if ends_with(&s, "gz") {
            Some(Compression::Gz)
        } else if ends_with(&s, "xz") {
            Some(Compression::Xz)
        } else if ends_with(&s, "zst") || ends_with(&s, "zstd") {
            Some(Compression::Zst)
        } else {
            None
        }
    }

    /// Detects the scheme from a file name or a suffix: the name is
    /// trimmed and put in lower case, then `detect` decides. A name that
    /// stands for no scheme is rejected, and the error carries the name as
    /// it was tested. There is no scheme for a member that is not
    /// compressed: a bare `tar` is rejected like any other unknown name.
    pub fn from_str(s: &str) -> (r: Result<Compression, Error>)
        ensures
            match scheme_of_suffix(normal_name(s@)) {
                Some(scheme) => r matches Ok(c) && c == scheme,
                None => r matches Err(Error::InvalidCompression(m)) && m@ == normal_name(s@),
            },
    {
        let trimmed = from_chars(&trim(&to_chars(s)));
        let lower = lowercase(trimmed.as_str());
        match Self::detect(lower.as_str()) {
            Some(c) => Ok(c),
            None => Err(Error::InvalidCompression(lower)),
        }
    }

    /// The suffix that names this scheme: `bz2`, `gz`, `xz` or `zst`.
    pub fn to_string(&self) -> (r: String)
        ensures
            r@ == suffix_spec(*self),
    {
        match self {
            Compression::Bz2 => from_chars(&to_chars("bz2")),
            Compression::Gz => from_chars(&to_chars("gz")),
            Compression::Xz => from_chars(&to_chars("xz")),
            Compression::Zst => from_chars(&to_chars("zst")),
        }
    }

    /// The name of the member that holds the tar stream `role` under this
    /// scheme: `role`, then `.tar.`, then the suffix.
    pub fn member_name(&self, role: &str) -> (r: String)
        ensures
            r@ == member_name_spec(role@, *self),
    {
        let mut name = to_chars(role);
        extend_chars(&mut name, &to_chars(".tar."));
        extend_chars(&mut name, &to_chars(self.to_string().as_str()));
        from_chars(&name)
    }

    /// Packs `data` under this scheme: the result is the stream that the
    /// encoder makes of `data`, if and only if the encoder succeeds, and
    /// an error of the codec else. The stream is one that the decoder
    /// accepts and that holds exactly `data`.
    pub fn compress(&self, data: &[u8]) -> (r: Result<Vec<u8>, Error>)
        ensures
            packs(*self, data@, r),
    {
        match self {
            Compression::Bz2 => match bz2_encode(data) {
                Ok(out) => Ok(out),
                Err(e) => Err(Error::Io(e)),
            },
            Compression::Gz => match gz_encode(data) {
                Ok(out) => Ok(out),
                Err(e) => Err(Error::Io(e)),
            },
            Compression::Xz => match xz_encode(data, XZ_PRESET) {
                Ok(out) => Ok(out),
                Err(e) => Err(lzma_failure(e)),
            },
            Compression::Zst => match zst_encode(data, ZSTD_LEVEL) {
                Ok(out) => Ok(out),
                Err(e) => Err(Error::Io(e)),
            },
        }
    }

    /// Unpacks `data` under this scheme: the result is what `data` holds,
    /// if and only if `data` is a stream that the codec accepts, and an
    /// error of the codec else.
    pub fn decompress(&self, data: &[u8]) -> (r: Result<Vec<u8>, Error>)
        ensures
            unpacks(*self, data@, r),
    {
        match self {
            Compression::Bz2 => match bz2_decode(data) {
                Ok(out) => Ok(out),
                Err(e) => Err(Error::Io(e)),
            },
            Compression::Gz => match gz_decode(data) {
                Ok(out) => Ok(out),
                Err(e) => Err(Error::Io(e)),
            },
            Compression::Xz => match xz_decode(data) {
                Ok(out) => Ok(out),
                Err(e) => Err(lzma_failure(e)),
            },
            Compression::Zst => match zst_decode(data) {
                Ok(out) => Ok(out),
                Err(e) => Err(Error::Io(e)),
            },
        }
    }
}

impl std::str::FromStr for Compression {
    type Err = Error;

    /// Detects the scheme from a file name or a suffix, as the method
    /// `from_str` of the type itself does: this is what `str::parse` calls.
    fn from_str(s: &str) -> (r: Result<Self, Error>)
        ensures
            match scheme_of_suffix(normal_name(s@)) {
                Some(scheme) => r matches Ok(c) && c == scheme,
                None => r matches Err(Error::InvalidCompression(m)) && m@ == normal_name(s@),
            },
    {
        Compression::from_str(s)
    }
}

/// Unpacking what packing gave succeeds and yields the input again: if
/// `compress` returned `packed` for `data`, then whatever `decompress`
/// returns for `packed` is `data`.
pub proof fn lemma_round_trip(
    scheme: Compression,
    data: Seq<u8>,
    packed: Vec<u8>,
    r: Result<Vec<u8>, Error>,
)
    requires
        packs(scheme, data, Ok(packed)),
        unpacks(scheme, packed@, r),
    ensures
        r matches Ok(out) && out@ == data,
{
}

/// The suffix of a scheme stands for that scheme.
pub proof fn lemma_suffix_detected(scheme: Compression)
    ensures
        scheme_of_suffix(suffix_spec(scheme)) == Some(scheme),
{
    let s = suffix_spec(scheme);
    lemma_suffix_literals();
    assert(s.skip(0) =~= s);
    lemma_ends_with_scheme(s, scheme);
}

/// The name that a member is written under is read back as its scheme.
pub proof fn lemma_member_name_detected(role: Seq<char>, scheme: Compression)
    ensures
        scheme_of_suffix(member_name_spec(role, scheme)) == Some(scheme),
{
    let n = member_name_spec(role, scheme);
    lemma_suffix_literals();
    assert(n.skip(n.len() - suffix_spec(scheme).len()) =~= suffix_spec(scheme));
    lemma_ends_with_scheme(n, scheme);
}

/// The characters of the literals that detection looks for.
proof fn lemma_suffix_literals()
    ensures
        "bz2"@ == seq!['b', 'z', '2'],
        "gz"@ == seq!['g', 'z'],
        "xz"@ == seq!['x', 'z'],
        "zst"@ == seq!['z', 's', 't'],
        "zstd"@ == seq!['z', 's', 't', 'd'],
{
    reveal_strlit("bz2");
    reveal_strlit("gz");
    reveal_strlit("xz");
    reveal_strlit("zst");
    reveal_strlit("zstd");
    assert("bz2"@ =~= seq!['b', 'z', '2']);
    assert("gz"@ =~= seq!['g', 'z']);
    assert("xz"@ =~= seq!['x', 'z']);
    assert("zst"@ =~= seq!['z', 's', 't']);
    assert("zstd"@ =~= seq!['z', 's', 't', 'd']);
}

/// A name does not end with a literal from which it differs at some place
/// counted from the end.
proof fn lemma_differs_at(n: Seq<char>, lit: Seq<char>, back: int)
    requires
        0 <= back < lit.len(),
        back < n.len(),
        n[n.len() - 1 - back] != lit[lit.len() - 1 - back],
    ensures
        !ends_with_spec(n, lit),
{
    if lit.len() <= n.len() {
        let tail = n.skip(n.len() - lit.len());
        assert(tail[lit.len() - 1 - back] == n[n.len() - 1 - back]);
    }
}

/// A name that ends with the suffix of `scheme` is detected as it.
proof fn lemma_ends_with_scheme(n: Seq<char>, scheme: Compression)
    requires
        "bz2"@ == seq!['b', 'z', '2'],
        "gz"@ == seq!['g', 'z'],
        "xz"@ == seq!['x', 'z'],
        "zst"@ == seq!['z', 's', 't'],
        "zstd"@ == seq!['z', 's', 't', 'd'],
        ends_with_spec(n, suffix_spec(scheme)),
    ensures
        scheme_of_suffix(n) == Some(scheme),
{
    let k = n.len();
    match scheme {
        Compression::Bz2 => {},
        Compression::Gz => {
            assert(n.skip(k - 2)[1] == 'z');
            lemma_differs_at(n, "bz2"@, 0);
        },
        Compression::Xz => {
            assert(n.skip(k - 2)[1] == 'z');
            assert(n.skip(k - 2)[0] == 'x');
            lemma_differs_at(n, "bz2"@, 0);
            lemma_differs_at(n, "gz"@, 1);
        },
        Compression::Zst => {
            assert(n.skip(k - 3)[2] == 't');
            lemma_differs_at(n, "bz2"@, 0);
            lemma_differs_at(n, "gz"@, 0);
            lemma_differs_at(n, "xz"@, 0);
        },
    }
}

/// What `flate2::read::GzDecoder` reads to the end from `packed`:
/// the content of the gzip stream, or nothing where it refuses the bytes.
pub uninterp spec fn gz_content(packed: Seq<u8>) -> Option<Seq<u8>>;

/// What `flate2::read::GzEncoder`, at the default level, makes of `data`
/// when read to the end: the gzip stream, or nothing where it fails.
pub uninterp spec fn gz_packed(data: Seq<u8>) -> Option<Seq<u8>>;

/// Reads `data` to the end through `flate2::read::GzEncoder` at the default
/// level: the stream, or an error where the encoder fails; `data` alone
/// decides which. Assumed, not proved: the stream is one that the decoder
/// accepts and whose content is `data`.
#[verifier::external_body]
fn gz_encode(data: &[u8]) -> (r: Result<Vec<u8>, std::io::Error>)
    ensures
        match r {
            Ok(out) => gz_packed(data@) == Some(out@) && gz_content(out@) == Some(data@),
            Err(_) => gz_packed(data@) is None,
        },
{
    let mut out = Vec::new();
    let mut encoder = flate2::read::GzEncoder::new(data, flate2::Compression::default());
    std::io::Read::read_to_end(&mut encoder, &mut out).map(|_| out)
}

/// Reads `data` to the end through `flate2::read::GzDecoder`: the content
/// of the stream, or an error where the decoder refuses the bytes. The
/// bytes alone decide which.
#[verifier::external_body]
fn gz_decode(data: &[u8]) -> (r: Result<Vec<u8>, std::io::Error>)
    ensures
        match r {
            Ok(out) => gz_content(data@) == Some(out@),
            Err(_) => gz_content(data@) is None,
        },
{
    let mut out = Vec::new();
    let mut decoder = flate2::read::GzDecoder::new(data);
    std::io::Read::read_to_end(&mut decoder, &mut out).map(|_| out)
}

/// What `bzip2::read::BzDecoder` reads to the end from `packed`:
/// the content of the bzip2 stream, or nothing where it refuses the bytes.
pub uninterp spec fn bz2_content(packed: Seq<u8>) -> Option<Seq<u8>>;

/// What `bzip2::read::BzEncoder`, at the default level, makes of `data`
/// when read to the end: the bzip2 stream, or nothing where it fails.
pub uninterp spec fn bz2_packed(data: Seq<u8>) -> Option<Seq<u8>>;

/// Reads `data` to the end through `bzip2::read::BzEncoder` at the default
/// level: the stream, or an error where the encoder fails; `data` alone
/// decides which. Assumed, not proved: the stream is one that the decoder
/// accepts and whose content is `data`.
#[verifier::external_body]
fn bz2_encode(data: &[u8]) -> (r: Result<Vec<u8>, std::io::Error>)
    ensures
        match r {
            Ok(out) => bz2_packed(data@) == Some(out@) && bz2_content(out@) == Some(data@),
            Err(_) => bz2_packed(data@) is None,
        },
{
    let mut out = Vec::new();
    let mut encoder = bzip2::read::BzEncoder::new(data, bzip2::Compression::default());
    std::io::Read::read_to_end(&mut encoder, &mut out).map(|_| out)
}

/// Reads `data` to the end through `bzip2::read::BzDecoder`: the content
/// of the stream, or an error where the decoder refuses the bytes. The
/// bytes alone decide which.
#[verifier::external_body]
fn bz2_decode(data: &[u8]) -> (r: Result<Vec<u8>, std::io::Error>)
    ensures
        match r {
            Ok(out) => bz2_content(data@) == Some(out@),
            Err(_) => bz2_content(data@) is None,
        },
{
    let mut out = Vec::new();
    let mut decoder = bzip2::read::BzDecoder::new(data);
    std::io::Read::read_to_end(&mut decoder, &mut out).map(|_| out)
}

/// What `lzma::decompress` reads to the end from `packed`:
/// the content of the xz stream, or nothing where it refuses the bytes.
pub uninterp spec fn xz_content(packed: Seq<u8>) -> Option<Seq<u8>>;

/// What `lzma::compress` makes of `data` at the preset `preset`: the xz
/// stream, or nothing where it fails.
pub uninterp spec fn xz_packed(data: Seq<u8>, preset: u32) -> Option<Seq<u8>>;

/// Calls `lzma::compress`: the stream, or an error where the encoder
/// fails; the arguments alone decide which. Assumed, not proved: the
/// stream is one that the decoder accepts and whose content is `data`.
#[verifier::external_body]
fn xz_encode(data: &[u8], preset: u32) -> (r: Result<Vec<u8>, lzma::LzmaError>)
    ensures
        match r {
            Ok(out) => xz_packed(data@, preset) == Some(out@) && xz_content(out@) == Some(data@),
            Err(_) => xz_packed(data@, preset) is None,
        },
{
    lzma::compress(data, preset)
}

/// Calls `lzma::decompress`: the content of the stream, or an error where
/// the decoder refuses the bytes. The bytes alone decide which.
#[verifier::external_body]
fn xz_decode(data: &[u8]) -> (r: Result<Vec<u8>, lzma::LzmaError>)
    ensures
        match r {
            Ok(out) => xz_content(data@) == Some(out@),
            Err(_) => xz_content(data@) is None,
        },
{
    lzma::decompress(data)
}

/// What `zstd::stream::read::Decoder` reads to the end from `packed`:
/// the content of the Zstandard stream, or nothing where it refuses the bytes.
pub uninterp spec fn zst_content(packed: Seq<u8>) -> Option<Seq<u8>>;

/// What `zstd::stream::read::Encoder` makes of `data` at the level `level`
/// when read to the end: the Zstandard stream, or nothing where it fails.
pub uninterp spec fn zst_packed(data: Seq<u8>, level: i32) -> Option<Seq<u8>>;

/// Reads `data` to the end through `zstd::stream::read::Encoder`: the
/// stream, or an error where the encoder fails; the arguments alone decide
/// which. Assumed, not proved: the stream is one that the decoder accepts
/// and whose content is `data`.
#[verifier::external_body]
fn zst_encode(data: &[u8], level: i32) -> (r: Result<Vec<u8>, std::io::Error>)
    ensures
        match r {
            Ok(out) => zst_packed(data@, level) == Some(out@) && zst_content(out@) == Some(data@),
            Err(_) => zst_packed(data@, level) is None,
        },
{
    let mut out = Vec::new();
    let mut encoder = zstd::stream::read::Encoder::new(data, level)?;
    std::io::Read::read_to_end(&mut encoder, &mut out).map(|_| out)
}

/// Reads `data` to the end through `zstd::stream::read::Decoder`: the
/// content of the stream, or an error where the decoder refuses the bytes.
/// The bytes alone decide which.
#[verifier::external_body]
fn zst_decode(data: &[u8]) -> (r: Result<Vec<u8>, std::io::Error>)
    ensures
        match r {
            Ok(out) => zst_content(data@) == Some(out@),
            Err(_) => zst_content(data@) is None,
        },
{
    let mut out = Vec::new();
    let mut decoder = zstd::stream::read::Decoder::new(data)?;
    std::io::Read::read_to_end(&mut decoder, &mut out).map(|_| out)
}

} // verus!
