use vstd::prelude::*;

verus! {

/// One entry of a zip archive, read out into plain values: the declared
/// name, the sanitized relative path the entry resolves to, and the
/// decompressed payload.
///
/// `mangled` is the string form of the path the zip crate sanitizes the
/// declared name into, so its components are separated by the platform's
/// separator.  The library joins and splits paths on `/`; on a platform
/// whose separator differs, normalize `mangled` before planning with it.
#[derive(Debug, Clone, PartialEq, Eq)]
pub struct Entry {
    pub name: String,
    pub mangled: String,
    pub data: Vec<u8>,
}

/// The mathematical form of an entry.
pub struct EntryV {
    pub name: Seq<char>,
    pub mangled: Seq<char>,
    pub data: Seq<u8>,
}

impl View for Entry {
    type V = EntryV;

    open spec fn view(&self) -> EntryV {
        EntryV { name: self.name@, mangled: self.mangled@, data: self.data@ }
    }
}

/// An entry whose declared name ends in the separator is a directory marker.
pub open spec fn is_dir_entry(e: EntryV) -> bool {
    e.name.len() > 0 && e.name.last() == '/'
}

/// Why reading an archive failed: the container itself was not a valid zip,
/// or one entry could not be read, identified by its index.
#[derive(Debug, Clone, PartialEq, Eq)]
pub enum ExtractError {
    ArchiveOpen(String),
    Entry(usize, String),
}

#[verifier::external_type_specification]
#[verifier::external_body]
#[verifier::reject_recursive_types(T)]
pub struct ExCursor<T>(std::io::Cursor<T>);

#[verifier::external_type_specification]
#[verifier::external_body]
#[verifier::reject_recursive_types(R)]
pub struct ExZipArchive<R>(zip::ZipArchive<R>);

/// The entries an opened archive holds, in archive storage order.
pub uninterp spec fn zip_entries(ar: zip::ZipArchive<std::io::Cursor<Vec<u8>>>) -> Seq<EntryV>;

/// Whether entry `i` of an opened archive can be read out whole: its local
/// header is intact and its byte stream decompresses.  Out-of-range indices
/// cannot.
pub uninterp spec fn zip_read_ok(ar: zip::ZipArchive<std::io::Cursor<Vec<u8>>>, i: int) -> bool;

/// What parsing a byte buffer as a zip container yields: `None` when the
/// buffer is not a valid container, otherwise the entries it holds.
pub uninterp spec fn zip_parse(bytes: Seq<u8>) -> Option<Seq<EntryV>>;

/// Whether entry `i` of the container held in `bytes` can be read out whole.
/// Reading an in-memory archive is a function of its bytes alone.
pub uninterp spec fn zip_readable(bytes: Seq<u8>, i: int) -> bool;

/// Relies on zip::ZipArchive::new: parsing the central directory of an
/// in-memory buffer succeeds or fails, and yields the entry table it yields,
/// as a function of the buffer's bytes alone; what each entry later reads as
/// is likewise fixed by the buffer.
#[verifier::external_body]
fn zip_open(bytes: &Vec<u8>) -> (r: Result<zip::ZipArchive<std::io::Cursor<Vec<u8>>>, String>)
    ensures
        r matches Ok(ar) ==> zip_parse(bytes@) matches Some(es) && zip_entries(ar) == es && (forall|
            i: int,
        | #[trigger] zip_read_ok(ar, i) == zip_readable(bytes@, i)),
        r is Err <==> zip_parse(bytes@) is None,
{
    match zip::ZipArchive::new(std::io::Cursor::new(bytes.clone())) {
        Ok(ar) => Ok(ar),
        Err(e) => Err(e.to_string()),
    }
}

/// Relies on zip::ZipArchive::len: the number of entries in the archive's
/// central directory.
#[verifier::external_body]
fn zip_len(ar: &zip::ZipArchive<std::io::Cursor<Vec<u8>>>) -> (n: usize)
    ensures
        n == zip_entries(*ar).len(),
{
    ar.len()
}

/// Relies on zip::ZipArchive::by_index and std::io::Read::read_to_end: the
/// entry's declared name, its sanitized path (zip's mangled_name) and its
/// decompressed bytes depend on the archive alone, and so does whether the
/// read goes through; reading seeks the in-memory cursor but leaves the
/// entry table and every entry's readability as they were.
#[verifier::external_body]
fn zip_read_entry(ar: &mut zip::ZipArchive<std::io::Cursor<Vec<u8>>>, i: usize) -> (r: Result<
    Entry,
    String,
>)
    requires
        i < zip_entries(*old(ar)).len(),
    ensures
        zip_entries(*final(ar)) == zip_entries(*old(ar)),
        forall|j: int| #[trigger] zip_read_ok(*final(ar), j) == zip_read_ok(*old(ar), j),
        r is Ok <==> zip_read_ok(*old(ar), i as int),
        r matches Ok(e) ==> e@ == zip_entries(*old(ar))[i as int],
{
    match ar.by_index(i) {
        Ok(mut f) => {
            let name = f.name().to_string();
            let mangled = f.mangled_name().to_string_lossy().into_owned();
            let mut data = Vec::new();
            match std::io::Read::read_to_end(&mut f, &mut data) {
                Ok(_) => Ok(Entry { name, mangled, data }),
                Err(e) => Err(e.to_string()),
            }
        },
        Err(e) => Err(e.to_string()),
    }
}

/// Open the container held in `bytes` for entry-by-entry reading.  Fails
/// with `ArchiveOpen` exactly when the bytes are not a valid container.
pub fn open_archive(bytes: &Vec<u8>) -> (r: Result<
    zip::ZipArchive<std::io::Cursor<Vec<u8>>>,
    ExtractError,
>)
    ensures
        r matches Ok(ar) ==> zip_parse(bytes@) matches Some(es) && zip_entries(ar) == es && (forall|
            i: int,
        | #[trigger] zip_read_ok(ar, i) == zip_readable(bytes@, i)),
        r is Err <==> zip_parse(bytes@) is None,
        r matches Err(e) ==> e is ArchiveOpen,
{
    match zip_open(bytes) {
        Ok(ar) => Ok(ar),
        Err(msg) => Err(ExtractError::ArchiveOpen(msg)),
    }
}

/// The number of entries of an opened archive.
pub fn archive_len(ar: &zip::ZipArchive<std::io::Cursor<Vec<u8>>>) -> (n: usize)
    ensures
        n == zip_entries(*ar).len(),
{
    zip_len(ar)
}

/// Read entry `i` of an opened archive out into plain values.  Succeeds
/// exactly when the entry is readable, and an error names the entry.
pub fn read_entry(ar: &mut zip::ZipArchive<std::io::Cursor<Vec<u8>>>, i: usize) -> (r: Result<
    Entry,
    ExtractError,
>)
    requires
        i < zip_entries(*old(ar)).len(),
    ensures
        zip_entries(*final(ar)) == zip_entries(*old(ar)),
        forall|j: int| #[trigger] zip_read_ok(*final(ar), j) == zip_read_ok(*old(ar), j),
        r is Ok <==> zip_read_ok(*old(ar), i as int),
        r matches Ok(e) ==> e@ == zip_entries(*old(ar))[i as int],
        r matches Err(e) ==> (e matches ExtractError::Entry(j, _) && j == i),
{
    match zip_read_entry(ar, i) {
        Ok(e) => Ok(e),
        Err(msg) => Err(ExtractError::Entry(i, msg)),
    }
}

/// Read every entry of the zip container held in `bytes`, in archive order,
/// before anything else is done with them.  Succeeds exactly when the bytes
/// are a valid container and every entry is readable; `ArchiveOpen` comes
/// exactly when the container is invalid, and an `Entry` error names the
/// first entry that cannot be read out.
pub fn read_archive(bytes: &Vec<u8>) -> (r: Result<Vec<Entry>, ExtractError>)
    ensures
        r is Ok <==> (zip_parse(bytes@) matches Some(es) && (forall|i: int|
            0 <= i < es.len() ==> #[trigger] zip_readable(bytes@, i))),
        r matches Ok(v) ==> zip_parse(bytes@) matches Some(es) && v@.len() == es.len() && (forall|
            i: int,
        |
            0 <= i < es.len() ==> #[trigger] v@[i]@ == es[i]),
        r matches Err(e) ==> (e is ArchiveOpen <==> zip_parse(bytes@) is None),
        r matches Err(e) ==> (e matches ExtractError::Entry(i, _) ==> zip_parse(
            bytes@,
        ) matches Some(es) && i < es.len() && !zip_readable(bytes@, i as int) && (forall|j: int|
            0 <= j < i ==> #[trigger] zip_readable(bytes@, j))),
{
    let mut ar = match open_archive(bytes) {
        Ok(a) => a,
        Err(e) => {
            return Err(e);
        },
    };
    let ghost es = zip_parse(bytes@).unwrap();
    let n = archive_len(&ar);
    let mut out: Vec<Entry> = Vec::new();
    let mut i: usize = 0;
    while i < n
        invariant
            zip_parse(bytes@) == Some(es),
            zip_entries(ar) == es,
            forall|j: int| #[trigger] zip_read_ok(ar, j) == zip_readable(bytes@, j),
            n == es.len(),
            i <= n,
            out@.len() == i,
            forall|j: int| 0 <= j < i ==> #[trigger] out@[j]@ == es[j],
            forall|j: int| 0 <= j < i ==> #[trigger] zip_readable(bytes@, j),
        decreases n - i,
    {
        match read_entry(&mut ar, i) {
            Ok(e) => {
                out.push(e);
            },
            Err(e) => {
                return Err(e);
            },
        }
        i = i + 1;
    }
    Ok(out)
}

} // verus!
