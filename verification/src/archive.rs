//! The archive reader, taken on trust: a `zip::ZipArchive` over an
//! in-memory cursor is a random-access collection of named byte
//! entries.  `archive_entries` names that collection; the wrappers
//! below say how `len` and `by_index` relate to it.

use vstd::prelude::*;

use crate::error::Error;

verus! {

/// Declares `std::io::Cursor`, the in-memory reader the archive sits
/// on; the library never looks inside it.
#[verifier::external_type_specification]
#[verifier::external_body]
#[verifier::reject_recursive_types(T)]
pub struct ExCursor<T>(std::io::Cursor<T>);

/// Declares `zip::ZipArchive`, the archive reader; its contents are
/// reached only through the wrappers below.
#[verifier::external_type_specification]
#[verifier::external_body]
#[verifier::reject_recursive_types(R)]
pub struct ExZipArchive<R>(zip::ZipArchive<R>);

/// The named entries an archive holds, in central-directory order:
/// each with its full path and its decompressed bytes.  An archive
/// value determines them completely, so they are a function of it.
pub uninterp spec fn archive_entries(a: zip::ZipArchive<std::io::Cursor<Vec<u8>>>) -> Seq<
    (Seq<char>, Seq<u8>),
>;

/// Whether entry `i` of the archive can be delivered: its local
/// header parses, its compression method is supported, and a full
/// read checks out.  Over an in-memory cursor this too is a function
/// of the archive value alone.
pub uninterp spec fn entry_readable(a: zip::ZipArchive<std::io::Cursor<Vec<u8>>>, i: int) -> bool;

/// Every entry of the archive can be delivered.
pub open spec fn all_entries_readable(a: zip::ZipArchive<std::io::Cursor<Vec<u8>>>) -> bool {
    forall|j: int| 0 <= j < archive_entries(a).len() ==> #[trigger] entry_readable(a, j)
}

/// Relies on `zip::ZipArchive::len`: the number of entries the
/// archive's central directory holds.
#[verifier::external_body]
pub fn archive_len(a: &zip::ZipArchive<std::io::Cursor<Vec<u8>>>) -> (n: usize)
    ensures
        n == archive_entries(*a).len(),
{
    a.len()
}

/// Relies on `zip::ZipArchive::by_index`, `zip::read::ZipFile::name`
/// and `std::io::Read::read_to_end`: entry `i`'s full path and its
/// decompressed bytes, delivered exactly when the entry is readable.
/// Reading moves the cursor but leaves the entry collection and the
/// readability of every entry as they were.
#[verifier::external_body]
pub fn read_entry(a: &mut zip::ZipArchive<std::io::Cursor<Vec<u8>>>, i: usize) -> (r: Result<
    (String, Vec<u8>),
    Error,
>)
    requires
        i < archive_entries(*old(a)).len(),
    ensures
        archive_entries(*final(a)) == archive_entries(*old(a)),
        forall|j: int| #[trigger] entry_readable(*final(a), j) == entry_readable(*old(a), j),
        r is Ok <==> entry_readable(*old(a), i as int),
        r matches Ok(e) ==> e.0@ == archive_entries(*old(a))[i as int].0 && e.1@
            == archive_entries(*old(a))[i as int].1,
        r matches Err(err) ==> err == Error::ArchiveRead,
{
    match a.by_index(i) {
        Ok(mut f) => {
            let name = f.name().to_string();
            let mut buf: Vec<u8> = Vec::new();
            match std::io::Read::read_to_end(&mut f, &mut buf) {
                Ok(_) => Ok((name, buf)),
                Err(_) => Err(Error::ArchiveRead),
            }
        },
        Err(_) => Err(Error::ArchiveRead),
    }
}

} // verus!
