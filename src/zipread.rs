use vstd::prelude::*;
use crate::archive::{lemma_same_reads_same_walk, listed, report_of, same_reads, summarize_zip, walk_result, ArchiveSummary, EntryRecord, EntryView, Method, Timestamp, Walked};
use crate::dispatch::IntrospectionError;

verus! {

#[verifier::external_type_specification]
#[verifier::external_body]
#[verifier::reject_recursive_types(R)]
pub struct ExZipArchive<R>(zip::ZipArchive<R>);

#[verifier::external_type_specification]
#[verifier::external_body]
#[verifier::reject_recursive_types(T)]
pub struct ExCursor<T>(std::io::Cursor<T>);

#[verifier::external_type_specification]
#[verifier::external_body]
pub struct ExZipError(zip::result::ZipError);

/// An archive held in memory, with its central directory read.
pub type ZipSource = zip::ZipArchive<std::io::Cursor<Vec<u8>>>;

/// The fields of one central-directory record, as the `zip` crate reads them.
pub struct ZipEntryFields {
    pub name: String,
    pub is_dir: bool,
    pub compressed_size: u64,
    pub size: u64,
    pub method_code: u16,
    pub crc32: u32,
    /// The MS-DOS date and time parts of the modification time.
    pub modified: Option<(u16, u16)>,
    pub comment: String,
    pub encrypted: bool,
}

/// What a central-directory record holds, as plain values.
pub ghost struct FieldsView {
    pub name: Seq<char>,
    pub is_dir: bool,
    pub compressed_size: u64,
    pub size: u64,
    pub method_code: u16,
    pub crc32: u32,
    pub modified: Option<(u16, u16)>,
    pub comment: Seq<char>,
    pub encrypted: bool,
}

impl View for ZipEntryFields {
    type V = FieldsView;

    open spec fn view(&self) -> FieldsView {
        FieldsView {
            name: self.name@,
            is_dir: self.is_dir,
            compressed_size: self.compressed_size,
            size: self.size,
            method_code: self.method_code,
            crc32: self.crc32,
            modified: self.modified,
            comment: self.comment@,
            encrypted: self.encrypted,
        }
    }
}

/// Whether the `zip` crate reads a central directory from these bytes.
pub uninterp spec fn zip_opens(bytes: Seq<u8>) -> bool;

/// The bytes that an opened archive reads from.
pub uninterp spec fn archive_bytes(a: zip::ZipArchive<std::io::Cursor<Vec<u8>>>) -> Seq<u8>;

/// The number of central-directory records that the `zip` crate finds.
pub uninterp spec fn zip_count(bytes: Seq<u8>) -> nat;

/// The archive comment that the `zip` crate finds, as raw bytes.
pub uninterp spec fn zip_comment(bytes: Seq<u8>) -> Seq<u8>;

/// The text that `String::from_utf8_lossy` makes of the bytes.
pub uninterp spec fn lossy_of(b: Seq<u8>) -> Seq<char>;

/// Record `i` as the `zip` crate reads it from these bytes, or `None` where
/// the crate fails to read it.
pub uninterp spec fn zip_entry(bytes: Seq<u8>, i: int) -> Option<FieldsView>;

/// A name that ends in a separator names a directory.
pub open spec fn names_directory(name: Seq<char>) -> bool {
    name.len() > 0 && (name.last() == '/' || name.last() == '\\')
}

/// Relies on `zip::ZipArchive::new`: reads the central directory of the archive
/// in `bytes` (success depends on the bytes alone), and the archive then reads
/// from those bytes; or fails with the crate's error.
#[verifier::external_body]
fn open_archive(bytes: Vec<u8>) -> (r: Result<ZipSource, zip::result::ZipError>)
    ensures
        r is Ok <==> zip_opens(bytes@),
        r matches Ok(a) ==> archive_bytes(a) == bytes@,
{
    zip::ZipArchive::new(std::io::Cursor::new(bytes))
}

/// Relies on `zip::ZipArchive::len`: the number of central-directory records.
#[verifier::external_body]
fn entry_count(a: &ZipSource) -> (r: usize)
    ensures
        r as nat == zip_count(archive_bytes(*a)),
{
    a.len()
}

/// Relies on `zip::ZipArchive::comment`: the archive comment's raw bytes.
#[verifier::external_body]
fn comment_bytes(a: &ZipSource) -> (r: Vec<u8>)
    ensures
        r@ == zip_comment(archive_bytes(*a)),
{
    a.comment().to_vec()
}

/// Relies on `String::from_utf8_lossy`: text of the bytes, with invalid
/// sequences replaced; no bytes give no text.
#[verifier::external_body]
fn lossy_text(b: &Vec<u8>) -> (r: String)
    ensures
        r@ == lossy_of(b@),
        b@.len() == 0 ==> r@.len() == 0,
{
    String::from_utf8_lossy(b.as_slice()).into_owned()
}

/// Relies on the `Display` of `zip::result::ZipError`: a one-line message.
#[verifier::external_body]
fn zip_error_text(e: &zip::result::ZipError) -> (r: String) {
    e.to_string()
}

/// Relies on `zip::ZipArchive::by_index_raw` and the getters of the
/// `zip::read::ZipFile` it gives: reads record `i` without decompressing its
/// body (`zip::DateTime::datepart` and `timepart` give the modification
/// time's packed parts). What it reads depends on the archive's bytes and `i`
/// alone, and the archive keeps reading from the same bytes. A directory is a
/// record whose name ends in a separator.
#[verifier::external_body]
#[allow(deprecated)]
fn entry_fields(a: &mut ZipSource, i: usize) -> (r: Result<ZipEntryFields, zip::result::ZipError>)
    ensures
        archive_bytes(*final(a)) == archive_bytes(*old(a)),
        r is Ok <==> zip_entry(archive_bytes(*old(a)), i as int) is Some,
        r matches Ok(f) ==> zip_entry(archive_bytes(*old(a)), i as int) == Some(f@),
        r matches Ok(f) ==> f.is_dir == names_directory(f.name@),
{
    let f = a.by_index_raw(i)?;
    Ok(ZipEntryFields {
        name: f.name().to_string(),
        is_dir: f.is_dir(),
        compressed_size: f.compressed_size(),
        size: f.size(),
        method_code: f.compression().to_u16(),
        crc32: f.crc32(),
        modified: f.last_modified().map(|d| (d.datepart(), d.timepart())),
        comment: f.comment().to_string(),
        encrypted: f.encrypted(),
    })
}

/// The entry record that the fields of a central-directory record make.
pub open spec fn entry_of_fields(f: FieldsView) -> EntryView {
    EntryView {
        name: f.name,
        is_directory: f.is_dir,
        compressed_size: Some(f.compressed_size),
        uncompressed_size: f.size,
        method: Method::spec_from_code(f.method_code),
        crc32: Some(f.crc32),
        last_modified: match f.modified {
            Some((date, time)) => Some(Timestamp::spec_from_dos((date * 0x10000 + time) as u32)),
            None => None,
        },
        comment: f.comment,
        encrypted: f.encrypted,
    }
}

/// Turns the fields that were read into an entry record.
pub fn record_from_fields(f: ZipEntryFields) -> (e: EntryRecord)
    ensures
        e@ == entry_of_fields(f@),
{
    let last_modified = match &f.modified {
        Some((date, time)) => Some(Timestamp::from_dos(*date as u32 * 0x10000 + *time as u32)),
        None => None,
    };
    EntryRecord {
        name: f.name,
        is_directory: f.is_dir,
        compressed_size: Some(f.compressed_size),
        uncompressed_size: f.size,
        method: Method::from_code(f.method_code),
        crc32: Some(f.crc32),
        last_modified,
        comment: f.comment,
        encrypted: f.encrypted,
    }
}

/// Record `i` of the walk is what the `zip` crate reads as record `i` of
/// `bytes`: the entry it makes, or an error where the crate fails.
pub open spec fn walked_as_read(bytes: Seq<u8>, rs: Walked, i: int) -> bool {
    match zip_entry(bytes, i) {
        Some(f) => rs[i] matches Ok(e) && e@ == entry_of_fields(f),
        None => rs[i] is Err,
    }
}

/// `rs` is the walk over every central-directory record of `bytes`, in order.
pub open spec fn zip_walk(bytes: Seq<u8>, rs: Walked) -> bool {
    &&& rs.len() == zip_count(bytes)
    &&& forall|i: int| 0 <= i < rs.len() ==> #[trigger] walked_as_read(bytes, rs, i)
}

/// Introspects a ZIP archive held in memory: reads its central directory,
/// walks every record in order (a record that cannot be read is noted and the
/// walk goes on), and summarizes the walk. Fails exactly when the archive
/// cannot be opened at all.
pub fn introspect_zip(bytes: Vec<u8>) -> (r: Result<ArchiveSummary, IntrospectionError>)
    ensures
        r is Ok <==> zip_opens(bytes@),
        r matches Err(e) ==> e is Unreadable,
        r matches Ok(s) ==> !s.is_multi_volume && s.recoverable_error.is_none()
            && exists|rs: Walked| #[trigger] zip_walk(bytes@, rs) && walk_result(rs, s),
        r matches Ok(s) ==> (s.archive_comment.is_none() <==> lossy_of(zip_comment(bytes@)).len() == 0),
        r matches Ok(s) ==> (s.archive_comment matches Some(c) ==> c@ == lossy_of(zip_comment(bytes@))),
{
    let ghost b = bytes@;
    let mut a = match open_archive(bytes) {
        Ok(a) => a,
        Err(e) => {
            return Err(IntrospectionError::Unreadable(zip_error_text(&e)));
        },
    };
    let comment = lossy_text(&comment_bytes(&a));
    let n = entry_count(&a);
    let mut records: Vec<Result<EntryRecord, String>> = Vec::new();
    let mut i: usize = 0;
    while i < n
        invariant
            i <= n,
            n as nat == zip_count(b),
            archive_bytes(a) == b,
            records@.len() == i,
            forall|j: int| 0 <= j < i ==> #[trigger] walked_as_read(b, records@, j),
        decreases n - i,
    {
        let ghost before = records@;
        match entry_fields(&mut a, i) {
            Ok(f) => records.push(Ok(record_from_fields(f))),
            Err(e) => records.push(Err(zip_error_text(&e))),
        }
        proof {
            assert forall|j: int| 0 <= j < i + 1 implies #[trigger] walked_as_read(b, records@, j) by {
                if j < i {
                    assert(records@[j] == before[j]);
                    assert(walked_as_read(b, before, j));
                }
            }
        }
        i = i + 1;
    }
    let s = summarize_zip(comment, &records);
    assert(zip_walk(b, records@));
    Ok(s)
}

/// Introspecting the same bytes twice gives the same entry reports, methods
/// and totals: every successful result is the walk of the same records.
pub proof fn lemma_zip_introspection_deterministic(bytes: Seq<u8>, s1: ArchiveSummary, s2: ArchiveSummary)
    requires
        exists|rs: Walked| #[trigger] zip_walk(bytes, rs) && walk_result(rs, s1),
        exists|rs: Walked| #[trigger] zip_walk(bytes, rs) && walk_result(rs, s2),
    ensures
        s1.entries@.len() == s2.entries@.len(),
        forall|i: int| 0 <= i < s1.entries@.len() ==> #[trigger] s1.entries@[i]@ == s2.entries@[i]@,
        s1.compression_methods_used@ == s2.compression_methods_used@,
        s1.total_compressed_size == s2.total_compressed_size,
        s1.total_uncompressed_size == s2.total_uncompressed_size,
{
    let r1 = choose|rs: Walked| #[trigger] zip_walk(bytes, rs) && walk_result(rs, s1);
    let r2 = choose|rs: Walked| #[trigger] zip_walk(bytes, rs) && walk_result(rs, s2);
    assert forall|i: int| 0 <= i < r1.len() implies (#[trigger] r1[i] is Ok <==> r2[i] is Ok) by {
        assert(walked_as_read(bytes, r1, i));
        assert(walked_as_read(bytes, r2, i));
    }
    assert forall|i: int| 0 <= i < r1.len() implies (#[trigger] r1[i] matches Ok(e1)
        ==> r2[i] matches Ok(e2) && e1@ == e2@) by {
        assert(walked_as_read(bytes, r1, i));
        assert(walked_as_read(bytes, r2, i));
    }
    assert(same_reads(r1, r2));
    lemma_same_reads_same_walk(r1, r2);
    assert forall|i: int| 0 <= i < s1.entries@.len() implies #[trigger] s1.entries@[i]@ == s2.entries@[i]@ by {
        assert(s1.entries@[i]@ == report_of(listed(r1)[i]));
        assert(s2.entries@[i]@ == report_of(listed(r2)[i]));
    }
}

} // verus!
