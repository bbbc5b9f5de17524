//! What is written can be read: the law that ties `DebFile::write` to
//! `DebFile::parse`.
use vstd::prelude::*;
use vstd::utf8::{
    encode_utf8, encode_utf8_decode_utf8, encode_utf8_valid_utf8, is_ascii_chars,
    is_ascii_chars_encode_utf8,
};
use crate::archive::{
    assembled, held, lossy_text, members_to_write, missing_part, noted, parsed, parts_of, role_of,
    write_result, DebFile, Held, PartsView, Role,
};
use crate::compression::{
    content, lemma_member_name_detected, member_name_spec, normal_name, packed, suffix_spec,
    Compression,
};
use crate::container::plain_names;
use crate::error::Error;
use crate::text::{
    all_ascii, leading_space, lowercased, starts_with_spec, trailing_space, trim_end_spec,
    trim_spec, trim_start_spec, white_space,
};

verus! {

/// A character of the names that this crate gives to members: a small
/// letter, a digit, a dot or a hyphen.
pub open spec fn name_char(c: char) -> bool {
    ('a' <= c && c <= 'z') || ('0' <= c && c <= '9') || c == '.' || c == '-'
}

/// A text of such characters alone.
pub open spec fn name_text(s: Seq<char>) -> bool {
    forall|i: int| 0 <= i < s.len() ==> name_char(#[trigger] s[i])
}

/// Two such texts, one after the other, are such a text.
proof fn lemma_name_text_concat(a: Seq<char>, b: Seq<char>)
    requires
        name_text(a),
        name_text(b),
    ensures
        name_text(a + b),
{
    assert forall|i: int| 0 <= i < (a + b).len() implies name_char(#[trigger] (a + b)[i]) by {
        if i < a.len() {
            assert((a + b)[i] == a[i]);
        } else {
            assert((a + b)[i] == b[i - a.len()]);
        }
    }
}

/// Detection sees such a text as it is: there is nothing to trim, and
/// nothing to put in lower case.
proof fn lemma_name_text_normal(s: Seq<char>)
    requires
        name_text(s),
    ensures
        normal_name(s) == s,
{
    if s.len() > 0 {
        assert(name_char(s[0]));
        assert(name_char(s.last()));
        assert(!white_space(s[0]));
        assert(!white_space(s.last()));
    }
    assert(leading_space(s) == 0);
    assert(trim_start_spec(s) =~= s);
    assert(trailing_space(s) == 0);
    assert(trim_end_spec(s) =~= s);
    assert(trim_spec(s) == s);
    assert(all_ascii(s)) by {
        assert forall|i: int| 0 <= i < s.len() implies #[trigger] s[i] <= '\x7f' by {
            assert(name_char(s[i]));
        }
    }
    assert(lowercased(s) =~= s) by {
        assert forall|i: int| 0 <= i < s.len() implies lowercased(s)[i] == s[i] by {
            assert(name_char(s[i]));
        }
    }
}

/// The bytes of such a text are its characters, one byte each, all visible
/// and none a slash.
proof fn lemma_name_text_bytes(s: Seq<char>)
    requires
        name_text(s),
    ensures
        encode_utf8(s).len() == s.len(),
        forall|j: int|
            0 <= j < s.len() ==> 0x21 <= #[trigger] encode_utf8(s)[j] <= 0x7e && encode_utf8(s)[j]
                != 0x2f,
{
    assert(is_ascii_chars(s)) by {
        assert forall|i: int| 0 <= i < s.len() implies '\0' <= #[trigger] s[i] <= '\u{7f}' by {
            assert(name_char(s[i]));
        }
    }
    is_ascii_chars_encode_utf8(s);
    assert forall|j: int| 0 <= j < s.len() implies 0x21 <= #[trigger] encode_utf8(s)[j] <= 0x7e
        && encode_utf8(s)[j] != 0x2f by {
        assert(name_char(s[j]));
        assert(s[j] as u8 == encode_utf8(s)[j]);
    }
}

/// Bytes that encode a text are read as that text.
proof fn lemma_lossy_of_encoded(s: Seq<char>)
    ensures
        lossy_text(encode_utf8(s)) == s,
{
    encode_utf8_valid_utf8(s);
    encode_utf8_decode_utf8(s);
}

/// The characters of the literals that member names are made of.
proof fn lemma_name_literals()
    ensures
        "debian-binary"@ == seq!['d', 'e', 'b', 'i', 'a', 'n', '-', 'b', 'i', 'n', 'a', 'r', 'y'],
        "control"@ == seq!['c', 'o', 'n', 't', 'r', 'o', 'l'],
        "data"@ == seq!['d', 'a', 't', 'a'],
        ".tar"@ == seq!['.', 't', 'a', 'r'],
        ".tar."@ == seq!['.', 't', 'a', 'r', '.'],
        "control.tar"@ == seq!['c', 'o', 'n', 't', 'r', 'o', 'l', '.', 't', 'a', 'r'],
        "data.tar"@ == seq!['d', 'a', 't', 'a', '.', 't', 'a', 'r'],
        "bz2"@ == seq!['b', 'z', '2'],
        "gz"@ == seq!['g', 'z'],
        "xz"@ == seq!['x', 'z'],
        "zst"@ == seq!['z', 's', 't'],
{
    reveal_strlit("debian-binary");
    reveal_strlit("control");
    reveal_strlit("data");
    reveal_strlit(".tar");
    reveal_strlit(".tar.");
    reveal_strlit("control.tar");
    reveal_strlit("data.tar");
    reveal_strlit("bz2");
    reveal_strlit("gz");
    reveal_strlit("xz");
    reveal_strlit("zst");
    assert("debian-binary"@ =~= seq![
        'd',
        'e',
        'b',
        'i',
        'a',
        'n',
        '-',
        'b',
        'i',
        'n',
        'a',
        'r',
        'y',
    ]);
    assert("control"@ =~= seq!['c', 'o', 'n', 't', 'r', 'o', 'l']);
    assert("data"@ =~= seq!['d', 'a', 't', 'a']);
    assert(".tar"@ =~= seq!['.', 't', 'a', 'r']);
    assert(".tar."@ =~= seq!['.', 't', 'a', 'r', '.']);
    assert("control.tar"@ =~= seq!['c', 'o', 'n', 't', 'r', 'o', 'l', '.', 't', 'a', 'r']);
    assert("data.tar"@ =~= seq!['d', 'a', 't', 'a', '.', 't', 'a', 'r']);
    assert("bz2"@ =~= seq!['b', 'z', '2']);
    assert("gz"@ =~= seq!['g', 'z']);
    assert("xz"@ =~= seq!['x', 'z']);
    assert("zst"@ =~= seq!['z', 's', 't']);
}

/// What follows the role in the name of a member: `.tar.` and the suffix.
pub open spec fn name_tail(scheme: Compression) -> Seq<char> {
    ".tar."@ + suffix_spec(scheme)
}

/// The tail of a member name has seven or eight characters of names and
/// begins with `.tar`.
proof fn lemma_name_tail(scheme: Compression)
    ensures
        name_text(name_tail(scheme)),
        7 <= name_tail(scheme).len() <= 8,
        name_tail(scheme).take(4) == ".tar"@,
{
    lemma_name_literals();
    let t = name_tail(scheme);
    assert(t.take(4) =~= ".tar"@);
    assert forall|i: int| 0 <= i < t.len() implies name_char(#[trigger] t[i]) by {
        if i < 5 {
            assert(t[i] == ".tar."@[i]);
        } else {
            assert(t[i] == suffix_spec(scheme)[i - 5]);
        }
    }
}

/// The three members that are written have plain names, and their names
/// give them their roles.
proof fn lemma_member_names(scheme: Compression)
    ensures
        name_text("debian-binary"@),
        "debian-binary"@.len() == 13,
        role_of("debian-binary"@) == Role::Marker,
        name_text(member_name_spec("control"@, scheme)),
        1 <= member_name_spec("control"@, scheme).len() <= 16,
        role_of(member_name_spec("control"@, scheme)) == Role::Control,
        name_text(member_name_spec("data"@, scheme)),
        1 <= member_name_spec("data"@, scheme).len() <= 16,
        role_of(member_name_spec("data"@, scheme)) == Role::Data,
{
    lemma_name_literals();
    lemma_name_tail(scheme);
    let tail = name_tail(scheme);
    let c = member_name_spec("control"@, scheme);
    let d = member_name_spec("data"@, scheme);
    assert(c =~= "control"@ + tail);
    assert(d =~= "data"@ + tail);
    assert(name_text("debian-binary"@)) by {
        assert forall|i: int| 0 <= i < 13 implies name_char(#[trigger] "debian-binary"@[i]) by {}
    }
    assert(name_text("control"@)) by {
        assert forall|i: int| 0 <= i < 7 implies name_char(#[trigger] "control"@[i]) by {}
    }
    assert(name_text("data"@)) by {
        assert forall|i: int| 0 <= i < 4 implies name_char(#[trigger] "data"@[i]) by {}
    }
    lemma_name_text_concat("control"@, tail);
    lemma_name_text_concat("data"@, tail);
    assert(c[0] == 'c');
    assert(c.take(11) =~= "control.tar"@) by {
        assert forall|i: int| 0 <= i < 11 implies c.take(11)[i] == "control.tar"@[i] by {
            if i >= 7 {
                assert(c[i] == tail[i - 7]);
                assert(tail[i - 7] == tail.take(4)[i - 7]);
            }
        }
    }
    assert(d[1] == 'a');
    assert(d[0] == 'd');
    assert(d.take(8) =~= "data.tar"@) by {
        assert forall|i: int| 0 <= i < 8 implies d.take(8)[i] == "data.tar"@[i] by {
            if i >= 4 {
                assert(d[i] == tail[i - 4]);
                assert(tail[i - 4] == tail.take(4)[i - 4]);
            }
        }
    }
    assert(!starts_with_spec(d, "control.tar"@)) by {
        if d.len() >= 11 {
            assert(d.take(11)[0] == 'd');
        }
    }
}

/// The three members that `write` emits have plain names.
pub proof fn lemma_written_names(
    marker: Seq<char>,
    scheme: Compression,
    control: Seq<u8>,
    data: Seq<u8>,
)
    ensures
        plain_names(members_to_write(marker, scheme, control, data)),
{
    let ms = members_to_write(marker, scheme, control, data);
    let control_name = member_name_spec("control"@, scheme);
    let data_name = member_name_spec("data"@, scheme);
    lemma_member_names(scheme);
    lemma_name_text_bytes("debian-binary"@);
    lemma_name_text_bytes(control_name);
    lemma_name_text_bytes(data_name);
    assert(ms[0] == (encode_utf8("debian-binary"@), encode_utf8(marker)));
    assert(ms[1] == (encode_utf8(control_name), control));
    assert(ms[2] == (encode_utf8(data_name), data));
}

/// What the three members that `write` emits make up is the package
/// again, its marker without trailing white space.
proof fn lemma_written_members(
    marker: Seq<char>,
    scheme: Compression,
    control: Seq<u8>,
    data: Seq<u8>,
    packed_control: Seq<u8>,
    packed_data: Seq<u8>,
    r: Result<DebFile, Error>,
)
    requires
        content(scheme, packed_control) == Some(control),
        content(scheme, packed_data) == Some(data),
        assembled(
            parts_of(members_to_write(marker, scheme, packed_control, packed_data)),
            r,
        ),
    ensures
        r matches Ok(deb) && deb.debian_binary@ == trim_end_spec(marker) && deb.control@ == control
            && deb.data@ == data,
{
    let ms = members_to_write(marker, scheme, packed_control, packed_data);
    let control_name = member_name_spec("control"@, scheme);
    let data_name = member_name_spec("data"@, scheme);
    lemma_member_names(scheme);
    lemma_lossy_of_encoded("debian-binary"@);
    lemma_lossy_of_encoded(control_name);
    lemma_lossy_of_encoded(data_name);
    lemma_lossy_of_encoded(marker);
    let none = PartsView { marker: None, control: None, data: None };
    let one = noted(none, "debian-binary"@, encode_utf8(marker));
    let two = noted(one, control_name, packed_control);
    let three = noted(two, data_name, packed_data);
    assert(parts_of(ms) == three) by {
        let m1 = ms.drop_last();
        let m0 = m1.drop_last();
        assert(m0.drop_last() =~= Seq::<(Seq<u8>, Seq<u8>)>::empty());
        assert(parts_of(m0.drop_last()) == none);
        assert(m0.last() == ms[0]);
        assert(parts_of(m0) == one);
        assert(m1.last() == ms[1]);
        assert(parts_of(m1) == two);
        assert(ms.last() == ms[2]);
    }
    assert(missing_part(three) is None);
    lemma_name_text_normal(control_name);
    lemma_name_text_normal(data_name);
    lemma_member_name_detected("control"@, scheme);
    lemma_member_name_detected("data"@, scheme);
    assert(held(control_name, packed_control) == Held::Bytes(control));
    assert(held(data_name, packed_data) == Held::Bytes(data));
    assert(assembled(three, r));
}

/// What `parse` makes of what `write` wrote is the package again, its
/// marker without trailing white space: if `write` returned `out` for the
/// package `deb`, then whatever `parse` returns for `out` is a package
/// with the tar streams of `deb`.
pub proof fn lemma_write_then_parse(
    deb: DebFile,
    scheme: Compression,
    out: Vec<u8>,
    r: Result<DebFile, Error>,
)
    requires
        write_result(deb, scheme, Ok(out)),
        parsed(out@, r),
    ensures
        r matches Ok(back) && back.debian_binary@ == trim_end_spec(deb.debian_binary@)
            && back.control@ == deb.control@ && back.data@ == deb.data@,
{
    let control = packed(scheme, deb.control@).unwrap();
    let data = packed(scheme, deb.data@).unwrap();
    lemma_written_members(
        deb.debian_binary@,
        scheme,
        deb.control@,
        deb.data@,
        control,
        data,
        r,
    );
}

} // verus!
