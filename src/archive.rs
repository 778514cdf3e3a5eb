use std::io::Cursor;
use std::io::Read;
use vstd::prelude::*;
use zip::result::ZipError;
use zip::ZipArchive;

verus! {

#[verifier::external_type_specification]
#[verifier::external_body]
#[verifier::reject_recursive_types(T)]
pub struct ExCursor<T>(Cursor<T>);

#[verifier::external_type_specification]
#[verifier::external_body]
#[verifier::reject_recursive_types(R)]
pub struct ExZipArchive<R>(ZipArchive<R>);

#[verifier::external_type_specification]
#[verifier::external_body]
pub struct ExZipError(ZipError);

/// A zip archive read from bytes held in memory.
pub type Archive = ZipArchive<Cursor<Vec<u8>>>;

/// The entries of the zip archive that `data` holds, by index: each name
/// with its decompressed bytes, or none where they cannot be read; none for
/// bytes that hold no readable archive.
pub uninterp spec fn zip_entries(data: Seq<u8>) -> Option<Seq<(Seq<char>, Option<Seq<u8>>)>>;

/// The entries of an opened archive, by index, as `zip_entries` gives them.
pub uninterp spec fn archive_entries(a: Archive) -> Seq<(Seq<char>, Option<Seq<u8>>)>;

/// Relies on zip::ZipArchive::new, over a std::io::Cursor on the bytes: it
/// reads the archive's central directory from the bytes alone, or fails.
#[verifier::external_body]
pub(crate) fn open_archive(data: Vec<u8>) -> (r: Result<Archive, ZipError>)
    ensures
        r is Ok <==> zip_entries(data@) is Some,
        r matches Ok(a) ==> zip_entries(data@) == Some(archive_entries(a)),
{
    ZipArchive::new(Cursor::new(data))
}

/// Relies on zip::ZipArchive::len: the number of entries.
#[verifier::external_body]
pub(crate) fn entry_count(a: &Archive) -> (n: usize)
    ensures
        n == archive_entries(*a).len(),
{
    a.len()
}

/// Relies on zip::ZipArchive::name_for_index: the name of the entry at an
/// index, none past the last entry.
#[verifier::external_body]
pub(crate) fn entry_name(a: &Archive, i: usize) -> (r: Option<String>)
    ensures
        i < archive_entries(*a).len() <==> r is Some,
        r is Some ==> r->0@ == archive_entries(*a)[i as int].0,
{
    a.name_for_index(i).map(|n| n.to_string())
}

/// Relies on zip::ZipArchive::by_index and std::io::Read::read_to_end on the
/// entry it gives: the entry's decompressed bytes. Reading seeks to the
/// entry first, so it leaves the entries of the archive as they were.
#[verifier::external_body]
pub(crate) fn entry_data(a: &mut Archive, i: usize) -> (r: Result<Vec<u8>, ZipError>)
    requires
        i < archive_entries(*old(a)).len(),
    ensures
        archive_entries(*final(a)) == archive_entries(*old(a)),
        r is Ok <==> archive_entries(*old(a))[i as int].1 is Some,
        r matches Ok(d) ==> d@ == archive_entries(*old(a))[i as int].1->0,
{
    let mut item = a.by_index(i)?;
    let mut data = Vec::new();
    item.read_to_end(&mut data)?;
    Ok(data)
}

} // verus!
