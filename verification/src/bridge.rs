//! The binding surface: the operations of the engine in the shape in which
//! a host of another language calls them, with values in boxes and the
//! compression scheme as a number.
use vstd::prelude::*;
use crate::archive::{control_found, parsed, write_result, DebFile};
use crate::compression::Compression;
use crate::control::ControlFile;
use crate::entry::{comma_list, number_or_zero, string_views, ControlEntry, EntryView};
use crate::error::Error;
use crate::stanza::{control_read, index_read};

verus! {

/// What a result holds, out of its box.
pub open spec fn unboxed<T>(r: Result<Box<T>, Error>) -> Result<T, Error> {
    match r {
        Ok(b) => Ok(*b),
        Err(e) => Err(e),
    }
}

/// The scheme that the number `code` stands for: 0 for bzip2, 1 for gzip,
/// 2 for xz, 3 for Zstandard, and xz for every other number.
pub open spec fn scheme_of_code(code: u8) -> Compression {
    if code == 0 {
        Compression::Bz2
    } else if code == 1 {
        Compression::Gz
    } else if code == 3 {
        Compression::Zst
    } else {
        Compression::Xz
    }
}

/// The scheme that the number `code` stands for.
pub fn compression_of(code: u8) -> (r: Compression)
    ensures
        r == scheme_of_code(code),
{
    match code {
        0 => Compression::Bz2,
        1 => Compression::Gz,
        2 => Compression::Xz,
        3 => Compression::Zst,
        _ => Compression::Xz,
    }
}

/// As `DebFile::parse`.
pub fn parse_deb(deb: Vec<u8>) -> (r: Result<Box<DebFile>, Error>)
    ensures
        parsed(deb@, unboxed(r)),
{
    match DebFile::parse(deb) {
        Ok(file) => Ok(Box::new(file)),
        Err(e) => Err(e),
    }
}

/// As `DebFile::pack`.
pub fn deb_boxed_pack(control: Vec<u8>, data: Vec<u8>) -> (r: Result<Box<DebFile>, Error>)
    ensures
        r matches Ok(deb) && deb.debian_binary@ == "2.0\n"@ && deb.control == control && deb.data
            == data,
{
    match DebFile::pack(control, data) {
        Ok(deb) => Ok(Box::new(deb)),
        Err(e) => Err(e),
    }
}

/// As `DebFile::control`.
pub fn boxed_control(deb: &mut DebFile) -> (r: Result<Box<ControlFile>, Error>)
    ensures
        *final(deb) == *old(deb),
        control_found(old(deb).control@, unboxed(r)),
{
    match deb.control() {
        Ok(file) => Ok(Box::new(file)),
        Err(e) => Err(e),
    }
}

/// As `DebFile::write`, under the scheme that `code` stands for.
pub fn deb_write(deb: Box<DebFile>, code: u8) -> (r: Result<Vec<u8>, Error>)
    ensures
        write_result(*deb, scheme_of_code(code), r),
{
    let file: DebFile = *deb;
    file.write(compression_of(code))
}

/// As `ControlFile::parse`.
pub fn parse_controlfile(data: &[u8]) -> (r: Result<Box<ControlFile>, Error>)
    ensures
        control_read(data@, unboxed(r)),
{
    match ControlFile::parse(data) {
        Ok(file) => Ok(Box::new(file)),
        Err(e) => Err(e),
    }
}

/// As `ControlFile::parse_multi`.
pub fn parse_controlfile_multi(data: &[u8]) -> (r: Result<Vec<ControlFile>, Error>)
    ensures
        index_read(data@, r),
{
    ControlFile::parse_multi(data)
}

/// A free-text value.
pub fn entry_value(value: String) -> (r: Box<ControlEntry>)
    ensures
        r@ == EntryView::Value(value@),
{
    Box::new(ControlEntry::Value(value))
}

/// A list value.
pub fn entry_multivalue(value: Vec<String>) -> (r: Box<ControlEntry>)
    ensures
        r@ == EntryView::MultiValue(string_views(value@)),
{
    Box::new(ControlEntry::MultiValue(value))
}

/// A number value.
pub fn entry_number(value: u64) -> (r: Box<ControlEntry>)
    ensures
        r@ == EntryView::Number(value),
{
    Box::new(ControlEntry::Number(value))
}

/// A flag value.
pub fn entry_bool(value: bool) -> (r: Box<ControlEntry>)
    ensures
        r@ == EntryView::Bool(value),
{
    Box::new(ControlEntry::Bool(value))
}

/// As `ControlEntry::from_yesno`.
pub fn entry_from_yesno(value: &str) -> (r: Box<ControlEntry>)
    ensures
        r@ == EntryView::Bool(value@ == "yes"@),
{
    Box::new(ControlEntry::from_yesno(value))
}

/// As `ControlEntry::from_commalist`.
pub fn entry_from_commalist(value: &str) -> (r: Box<ControlEntry>)
    ensures
        r@ == EntryView::MultiValue(comma_list(value@)),
{
    Box::new(ControlEntry::from_commalist(value))
}

/// As `ControlEntry::from_number`.
pub fn entry_from_number(value: &str) -> (r: Box<ControlEntry>)
    ensures
        r@ == EntryView::Number(number_or_zero(value@)),
{
    Box::new(ControlEntry::from_number(value))
}

} // verus!
