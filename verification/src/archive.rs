//! Reading pet packages (zip archives) safely: bounded reads of archive
//! entries, and the choices made while unpacking one.

use std::io::{self, Cursor, Read};
use std::path::{Path, PathBuf};
use std::string::FromUtf8Error;
use vstd::prelude::*;
use zip::read::ZipFile;
use zip::result::ZipError;
use zip::ZipArchive;

use crate::error::{invalid_pet_id_prefix, io_error_text};
use crate::paths::joined_path;
use crate::pet::validator::{safe_join, valid_pet_id};
use crate::strings::message;
use crate::text::{chars_of, decimal_string, decimal_text, ends_with, range_eq, starts_with, trim, trim_str};

verus! {

/// Most bytes one unpacked entry may hold (50 MB). An entry's declared size
/// is attacker-controlled, so reads are counted rather than trusted.
pub const MAX_PET_FILE_BYTES: usize = 52428800;

/// Most bytes of a `pet.json` (1 MB).
pub const MAX_PET_JSON_BYTES: usize = 1048576;

/// `Read::read`: fills a prefix of `buf` and says how long it is. Nothing is
/// stated of the bytes, which come from the reader.
#[verifier::external_body]
fn read_some<R: Read>(reader: &mut R, buf: &mut [u8]) -> (r: io::Result<usize>)
    ensures
        final(buf)@.len() == old(buf)@.len(),
        r matches Ok(n) ==> n <= old(buf)@.len(),
{
    reader.read(buf)
}

/// `io::Error::new(io::ErrorKind::InvalidData, message)`.
#[verifier::external_body]
fn invalid_data(message: String) -> io::Error {
    io::Error::new(io::ErrorKind::InvalidData, message)
}

/// Takes the first `n` bytes of `chunk` into `buf` when they fit within
/// `max` bytes in all (`true`); otherwise leaves `buf` as it was (`false`).
pub fn append_bounded(buf: &mut Vec<u8>, chunk: &[u8], n: usize, max: usize) -> (fits: bool)
    requires
        n <= chunk@.len(),
        old(buf)@.len() <= max,
    ensures
        fits == (old(buf)@.len() + n <= max),
        fits ==> final(buf)@ == old(buf)@ + chunk@.subrange(0, n as int),
        !fits ==> final(buf)@ == old(buf)@,
{
    if n > max - buf.len() {
        return false;
    }
    let ghost before = buf@;
    let mut i: usize = 0;
    while i < n
        invariant
            i <= n <= chunk@.len(),
            before.len() + n <= max,
            buf@ == before + chunk@.subrange(0, i as int),
        decreases n - i,
    {
        buf.push(chunk[i]);
        proof {
            assert(chunk@.subrange(0, i + 1) =~= chunk@.subrange(0, i as int).push(chunk@[i as int]));
        }
        i = i + 1;
    }
    true
}

/// The message of an entry that passes the size limit `max`.
pub open spec fn too_large_text(max: nat) -> Seq<char> {
    "解压条目超出大小上限（"@ + decimal_text(max) + " 字节）"@
}

/// The message of an entry that passes the size limit `max`.
pub fn too_large_message(max: usize) -> (m: String)
    ensures
        m@ == too_large_text(max as nat),
{
    let mut message = String::from_str("解压条目超出大小上限（");
    let shown = decimal_string(max);
    message.append(shown.as_str());
    message.append(" 字节）");
    message
}

/// Reads `reader` to its end in chunks, refusing to hold more than `max`
/// bytes (a guard against decompression bombs): as soon as the bytes read
/// would pass `max`, an `InvalidData` error is returned. Errors of the reader
/// are passed on. The bytes returned are all the bytes read, in order.
pub fn read_entry_bounded<R: Read>(mut reader: R, max: usize) -> (r: io::Result<Vec<u8>>)
    ensures
        r matches Ok(v) ==> v@.len() <= max,
{
    let mut buf: Vec<u8> = Vec::new();
    let mut chunk = [0u8; 8192];
    // Every byte the reader gave so far, in order.
    let ghost read: Seq<u8> = Seq::empty();
    loop
        invariant
            buf@ == read,
            buf@.len() <= max,
            chunk@.len() == 8192,
        decreases max - buf@.len(),
    {
        let n = match read_some(&mut reader, &mut chunk) {
            Ok(n) => n,
            Err(e) => return Err(e),
        };
        if n == 0 {
            break;
        }
        if !append_bounded(&mut buf, &chunk, n, max) {
            return Err(invalid_data(too_large_message(max)));
        }
        proof {
            read = read + chunk@.subrange(0, n as int);
        }
    }
    Ok(buf)
}

#[verifier::external_type_specification]
#[verifier::external_body]
#[verifier::reject_recursive_types(T)]
pub struct ExCursor<T>(Cursor<T>);

#[verifier::external_type_specification]
#[verifier::external_body]
#[verifier::reject_recursive_types(R)]
pub struct ExZipArchive<R>(ZipArchive<R>);

/// One entry of an opened package, positioned at its start. The zip crate's
/// entry type is held opaquely: Verus does not take its declaration.
#[verifier::external_body]
pub struct ZipEntry<'a> {
    file: ZipFile<'a, Cursor<Vec<u8>>>,
}

#[verifier::external_type_specification]
#[verifier::external_body]
pub struct ExZipError(ZipError);

#[verifier::external_type_specification]
#[verifier::external_body]
pub struct ExFromUtf8Error(FromUtf8Error);

/// What `ZipArchive::new` reads from `bytes`: the names of the entries its
/// central directory lists, in index order, or `None` when the bytes are not
/// an archive it can read. A function of the bytes alone.
pub uninterp spec fn zip_listing(bytes: Seq<u8>) -> Option<Seq<Seq<char>>>;

/// Whether `ZipArchive::by_index` opens entry `i` of the archive in `bytes`
/// (it is listed, not encrypted, and its compression method and local
/// header can be read).
pub uninterp spec fn zip_entry_opens(bytes: Seq<u8>, i: nat) -> bool;

/// `ZipFile::enclosed_name` of entry `i` of the archive in `bytes`: its path
/// when that is relative and stays inside the directory it is extracted to.
pub uninterp spec fn zip_entry_enclosed(bytes: Seq<u8>, i: nat) -> Option<PathBuf>;

/// The bytes entry `i` of the archive in `bytes` decompresses to, as far as
/// decompression gets.
pub uninterp spec fn zip_entry_data(bytes: Seq<u8>, i: nat) -> Seq<u8>;

/// Whether entry `i` of the archive in `bytes` decompresses to its end
/// without an error (its data is whole and its checksum matches).
pub uninterp spec fn zip_entry_reads(bytes: Seq<u8>, i: nat) -> bool;

/// The bytes an archive reads from (what it was opened over).
pub uninterp spec fn zip_source(a: ZipArchive<Cursor<Vec<u8>>>) -> Seq<u8>;

/// What an open entry has still to give when read.
pub uninterp spec fn zip_entry_rest(e: &ZipEntry<'_>) -> Seq<u8>;

/// Whether reading an open entry to its end gives no error.
pub uninterp spec fn zip_entry_sound(e: &ZipEntry<'_>) -> bool;

/// Where an open entry may be extracted to (`ZipFile::enclosed_name`).
pub uninterp spec fn zip_entry_path(e: &ZipEntry<'_>) -> Option<PathBuf>;

/// `ZipArchive::new` over the package bytes: reads the central directory.
/// It succeeds exactly when the bytes are an archive it can read; the
/// archive reads from those bytes and lists the entries read.
#[verifier::external_body]
fn zip_open(bytes: Vec<u8>) -> (r: Result<ZipArchive<Cursor<Vec<u8>>>, ZipError>)
    ensures
        r is Ok <==> zip_listing(bytes@) is Some,
        r matches Ok(a) ==> zip_source(a) == bytes@,
{
    ZipArchive::new(Cursor::new(bytes))
}

/// `ZipArchive::len`: the number of entries.
#[verifier::external_body]
fn zip_len(a: &ZipArchive<Cursor<Vec<u8>>>) -> (n: usize)
    ensures
        zip_listing(zip_source(*a)) matches Some(ns) ==> n == ns.len(),
{
    a.len()
}

/// `ZipArchive::name_for_index`: the name of entry `i`, `None` past the
/// last entry.
#[verifier::external_body]
fn zip_name_at(a: &ZipArchive<Cursor<Vec<u8>>>, i: usize) -> (r: Option<String>)
    ensures
        zip_listing(zip_source(*a)) matches Some(ns) ==> (r is Some <==> i < ns.len()),
        zip_listing(zip_source(*a)) matches Some(ns) ==> (r matches Some(n) ==> n@ == ns[i as int]),
{
    a.name_for_index(i).map(String::from)
}

/// `ZipArchive::by_index`: entry `i`, ready to be read (decompressed). The
/// archive keeps reading from the same bytes.
#[verifier::external_body]
fn zip_entry(a: &mut ZipArchive<Cursor<Vec<u8>>>, i: usize) -> (r: Result<ZipEntry<'_>, ZipError>)
    ensures
        zip_source(*final(a)) == zip_source(*old(a)),
        r is Ok <==> zip_entry_opens(zip_source(*old(a)), i as nat),
        r matches Ok(e) ==> zip_entry_rest(&e) == zip_entry_data(zip_source(*old(a)), i as nat),
        r matches Ok(e) ==> zip_entry_sound(&e) == zip_entry_reads(zip_source(*old(a)), i as nat),
        r matches Ok(e) ==> zip_entry_path(&e) == zip_entry_enclosed(zip_source(*old(a)), i as nat),
{
    match a.by_index(i) {
        Ok(file) => Ok(ZipEntry { file }),
        Err(e) => Err(e),
    }
}

/// `ZipFile::enclosed_name`: the entry's path when it is safe to extract
/// (relative, not escaping the target directory).
#[verifier::external_body]
fn zip_entry_enclosed_name(f: &ZipEntry<'_>) -> (r: Option<PathBuf>)
    ensures
        r == zip_entry_path(f),
{
    f.file.enclosed_name()
}

/// `ZipFile::read`: decompresses the next bytes of the entry into `buf`.
/// What it gives is the front of what the entry has still to give; it gives
/// nothing into a non-empty buffer only at the entry's end; an entry that
/// decompresses soundly gives no error.
#[verifier::external_body]
fn zip_entry_read(e: &mut ZipEntry<'_>, buf: &mut [u8]) -> (r: io::Result<usize>)
    ensures
        final(buf)@.len() == old(buf)@.len(),
        zip_entry_sound(&*old(e)) ==> r is Ok,
        zip_entry_sound(&*old(e)) ==> zip_entry_sound(&*final(e)),
        r matches Ok(n) ==> n <= old(buf)@.len(),
        r matches Ok(n) ==> n <= zip_entry_rest(&*old(e)).len(),
        r matches Ok(n) ==> final(buf)@.subrange(0, n as int) == zip_entry_rest(&*old(e)).subrange(
            0,
            n as int,
        ),
        r matches Ok(n) ==> zip_entry_rest(&*final(e)) == zip_entry_rest(&*old(e)).subrange(
            n as int,
            zip_entry_rest(&*old(e)).len() as int,
        ),
        r matches Ok(n) ==> (n == 0 && old(buf)@.len() > 0 ==> zip_entry_rest(&*old(e)).len() == 0),
{
    e.file.read(buf)
}

/// The `Display` text of a zip error. Nothing is stated of it.
#[verifier::external_body]
fn zip_error_text(e: &ZipError) -> String {
    e.to_string()
}

/// `String::from_utf8`: the text of `bytes` when they are valid UTF-8.
#[verifier::external_body]
fn utf8_string(bytes: Vec<u8>) -> (r: Result<String, FromUtf8Error>)
    ensures
        r is Ok <==> vstd::utf8::valid_utf8(bytes@),
        r matches Ok(s) ==> s@ == vstd::utf8::decode_utf8(bytes@),
{
    String::from_utf8(bytes)
}

/// The `Display` text of a UTF-8 decoding error. Nothing is stated of it.
#[verifier::external_body]
fn utf8_error_text(e: &FromUtf8Error) -> String {
    e.to_string()
}

/// What `Path::to_string_lossy` makes of a path: its text, with each
/// sequence that is not valid Unicode replaced (a function of the path
/// alone).
pub uninterp spec fn path_lossy(p: &PathBuf) -> Seq<char>;

/// `Path::to_string_lossy`: the path as text.
#[verifier::external_body]
fn path_text(p: &PathBuf) -> (r: String)
    ensures
        r@ == path_lossy(p),
{
    p.to_string_lossy().into_owned()
}

/// What `str::to_lowercase` makes of a text (Unicode lower-casing; a
/// function of the text alone).
pub uninterp spec fn unicode_lower(s: Seq<char>) -> Seq<char>;

/// `str::to_lowercase`.
#[verifier::external_body]
pub(crate) fn to_lower(s: &str) -> (r: String)
    ensures
        r@ == unicode_lower(s@),
{
    s.to_lowercase()
}

/// One entry of a pet package, as extraction sees it.
#[derive(Debug)]
pub enum ArchiveEntry {
    /// A directory to create.
    Dir { path: PathBuf },
    /// A file to write, with its bytes (read within `MAX_PET_FILE_BYTES`).
    File {
        path: PathBuf,
        /// The path, lower-cased.
        path_lower: String,
        /// The entry's stored name, lower-cased.
        name_lower: String,
        data: Vec<u8>,
    },
}

/// An opened pet package, with the names of its entries.
pub struct PetArchive {
    zip: ZipArchive<Cursor<Vec<u8>>>,
    names: Vec<String>,
}

/// The text of each string.
pub open spec fn texts(v: Seq<String>) -> Seq<Seq<char>> {
    v.map_values(|s: String| s@)
}

/// Reads an open entry to its end, refusing to hold more than `max` bytes:
/// what comes back is all the entry had to give; an entry with more than
/// `max` bytes is refused; an entry that decompresses soundly within `max`
/// bytes is read.
pub fn read_entry_data(e: &mut ZipEntry<'_>, max: usize) -> (r: io::Result<Vec<u8>>)
    ensures
        r matches Ok(v) ==> v@ == zip_entry_rest(&*old(e)),
        r matches Ok(v) ==> v@.len() <= max,
        zip_entry_rest(&*old(e)).len() > max ==> r is Err,
        zip_entry_sound(&*old(e)) && zip_entry_rest(&*old(e)).len() <= max ==> r is Ok,
{
    let ghost whole = zip_entry_rest(&*e);
    let mut buf: Vec<u8> = Vec::new();
    let mut chunk = [0u8; 8192];
    loop
        invariant
            buf@ + zip_entry_rest(&*e) == whole,
            buf@.len() <= max,
            chunk@.len() == 8192,
            zip_entry_sound(&*old(e)) ==> zip_entry_sound(&*e),
            whole == zip_entry_rest(&*old(e)),
        ensures
            buf@ == whole,
            buf@.len() <= max,
        decreases max - buf@.len(),
    {
        let ghost before = zip_entry_rest(&*e);
        let n = match zip_entry_read(e, &mut chunk) {
            Ok(n) => n,
            Err(err) => return Err(err),
        };
        if n == 0 {
            proof {
                assert(buf@ =~= whole);
            }
            break;
        }
        let ghost prev = buf@;
        if !append_bounded(&mut buf, &chunk, n, max) {
            proof {
                assert(whole.len() >= prev.len() + n);
            }
            return Err(invalid_data(too_large_message(max)));
        }
        proof {
            assert(before =~= chunk@.subrange(0, n as int) + zip_entry_rest(&*e));
            assert(buf@ + zip_entry_rest(&*e) =~= prev + before);
        }
    }
    Ok(buf)
}

impl PetArchive {
    /// The names of the package's entries, in index order.
    pub closed spec fn names(&self) -> Seq<Seq<char>> {
        texts(self.names@)
    }

    /// The package bytes the archive reads from.
    pub closed spec fn source(&self) -> Seq<u8> {
        zip_source(self.zip)
    }

    /// The names held are those the archive lists.
    pub closed spec fn wf(&self) -> bool {
        zip_listing(zip_source(self.zip)) == Some(texts(self.names@))
    }

    /// Opens the package bytes as a zip archive and lists its entries'
    /// names: it succeeds exactly when the bytes are a zip archive.
    pub fn open(bytes: Vec<u8>) -> (r: Result<PetArchive, String>)
        ensures
            r is Ok <==> zip_listing(bytes@) is Some,
            r matches Ok(p) ==> p.wf(),
            r matches Ok(p) ==> p.source() == bytes@,
            r matches Ok(p) ==> zip_listing(bytes@) == Some(p.names()),
            r matches Err(m) ==> starts_with(m@, "zip 打开失败: "@),
    {
        let ghost src = bytes@;
        let zip = match zip_open(bytes) {
            Ok(zip) => zip,
            Err(e) => return Err(message("zip 打开失败: ", zip_error_text(&e))),
        };
        let ghost listed = zip_listing(src)->0;
        let n = zip_len(&zip);
        let mut names: Vec<String> = Vec::new();
        let mut i: usize = 0;
        while i < n
            invariant
                zip_source(zip) == src,
                zip_listing(src) == Some(listed),
                i <= n == listed.len(),
                texts(names@) == listed.take(i as int),
            decreases n - i,
        {
            match zip_name_at(&zip, i) {
                Some(name) => {
                    names.push(name);
                },
                None => {},
            }
            proof {
                assert(listed.take(i + 1) =~= listed.take(i as int).push(listed[i as int]));
                assert(texts(names@) =~= listed.take(i + 1));
            }
            i = i + 1;
        }
        proof {
            assert(listed.take(n as int) =~= listed);
        }
        Ok(PetArchive { zip, names })
    }

    /// Number of entries.
    pub fn len(&self) -> (n: usize)
        ensures
            n == self.names().len(),
    {
        self.names.len()
    }

    /// The text of the first entry whose name ends with `pet.json`, or `None`
    /// without such an entry. Every entry up to it must open, and its text
    /// must be valid UTF-8 of at most `MAX_PET_JSON_BYTES` bytes.
    pub fn read_pet_json(&mut self) -> (r: Result<Option<String>, String>)
        requires
            old(self).wf(),
        ensures
            final(self).wf(),
            final(self).names() == old(self).names(),
            final(self).source() == old(self).source(),
            pet_json_read(old(self).source(), old(self).names(), r),
    {
        let ghost src = zip_source(self.zip);
        let r = first_pet_json(&mut self.zip, &self.names, Ghost(src));
        r
    }

    /// The entry at `i` for extraction: `None` for an entry whose path is
    /// unsafe (absolute or escaping), else a directory when its name ends
    /// with a slash, else a file with its bytes (refused past
    /// `MAX_PET_FILE_BYTES`) and its lower-cased path and name.
    pub fn entry(&mut self, i: usize) -> (r: Result<Option<ArchiveEntry>, String>)
        requires
            old(self).wf(),
        ensures
            final(self).wf(),
            final(self).names() == old(self).names(),
            final(self).source() == old(self).source(),
            entry_read(old(self).source(), old(self).names(), i as nat, r),
    {
        let ghost src = zip_source(self.zip);
        let r = entry_at(&mut self.zip, &self.names, i, Ghost(src));
        r
    }
}

/// Entries `0..k` of the package in `src` all open.
pub open spec fn opens_before(src: Seq<u8>, k: int) -> bool {
    forall|j: nat| j < k ==> #[trigger] zip_entry_opens(src, j)
}

/// No name among the first `k` ends with `pet.json`.
pub open spec fn no_pet_json_before(names: Seq<Seq<char>>, k: int) -> bool {
    forall|j: int| 0 <= j < k ==> !ends_with(#[trigger] names[j], "pet.json"@)
}

/// Entry `k` is the first whose name ends with `pet.json`.
pub open spec fn first_pet_json_at(names: Seq<Seq<char>>, k: int) -> bool {
    &&& 0 <= k < names.len()
    &&& ends_with(names[k], "pet.json"@)
    &&& no_pet_json_before(names, k)
}

/// The outcome of reading a package's `pet.json`, given its bytes and entry
/// names. The entries are opened in order up to the first `pet.json`; an
/// entry that does not open ends the search with an error. Without a
/// `pet.json` the outcome is `None`. Otherwise its bytes are read, within
/// `MAX_PET_JSON_BYTES`, and must be UTF-8; the outcome is their text.
pub open spec fn pet_json_read(
    src: Seq<u8>,
    names: Seq<Seq<char>>,
    r: Result<Option<String>, String>,
) -> bool {
    &&& no_pet_json_before(names, names.len() as int) ==> if opens_before(
        src,
        names.len() as int,
    ) {
        r == Ok::<Option<String>, String>(None)
    } else {
        r matches Err(m) && starts_with(m@, "zip 读取失败: "@)
    }
    &&& forall|k: int| #[trigger]
        first_pet_json_at(names, k) ==> pet_json_read_at(src, k as nat, r)
    &&& r matches Ok(None) ==> no_pet_json_before(names, names.len() as int) && opens_before(
        src,
        names.len() as int,
    )
    &&& r matches Ok(Some(t)) ==> exists|k: int| #[trigger]
        first_pet_json_at(names, k) && opens_before(src, k + 1int) && t@ == vstd::utf8::decode_utf8(
            zip_entry_data(src, k as nat),
        )
    &&& r matches Err(m) ==> starts_with(m@, "zip 读取失败: "@) || starts_with(
        m@,
        "pet.json 读取失败: "@,
    ) || starts_with(m@, "pet.json 编码非 UTF-8: "@)
}

/// The outcome of reading the package's `pet.json` when it is entry `k`.
pub open spec fn pet_json_read_at(src: Seq<u8>, k: nat, r: Result<Option<String>, String>) -> bool {
    let data = zip_entry_data(src, k);
    &&& !opens_before(src, k + 1int) ==> (r matches Err(m) && starts_with(m@, "zip 读取失败: "@))
    &&& opens_before(src, k + 1int) && data.len() > MAX_PET_JSON_BYTES ==> (r matches Err(m)
        && starts_with(m@, "pet.json 读取失败: "@))
    &&& opens_before(src, k + 1int) && zip_entry_reads(src, k) && data.len() <= MAX_PET_JSON_BYTES
        ==> if vstd::utf8::valid_utf8(data) {
        r matches Ok(Some(t)) && t@ == vstd::utf8::decode_utf8(data)
    } else {
        r matches Err(m) && starts_with(m@, "pet.json 编码非 UTF-8: "@)
    }
    &&& r is Ok ==> (r matches Ok(Some(t)) && t@ == vstd::utf8::decode_utf8(data))
}

/// The outcome of taking entry `i` of a package for extraction, given its
/// bytes and entry names: an entry that does not open is an error; one
/// whose path is unsafe is skipped (`None`); a directory is given with its
/// path; a file with its path, its lower-cased path and name, and its bytes,
/// which are read within `MAX_PET_FILE_BYTES`.
pub open spec fn entry_read(
    src: Seq<u8>,
    names: Seq<Seq<char>>,
    i: nat,
    r: Result<Option<ArchiveEntry>, String>,
) -> bool {
    let opens = i < names.len() && zip_entry_opens(src, i);
    let enclosed = zip_entry_enclosed(src, i);
    let data = zip_entry_data(src, i);
    &&& !opens ==> (r matches Err(m) && starts_with(m@, "zip 读取失败: "@))
    &&& opens && enclosed is None ==> r == Ok::<Option<ArchiveEntry>, String>(None)
    &&& opens && enclosed is Some && names_dir(names[i as int]) ==> r == Ok::<
        Option<ArchiveEntry>,
        String,
    >(Some(ArchiveEntry::Dir { path: enclosed->0 }))
    &&& opens && enclosed is Some && !names_dir(names[i as int]) && data.len()
        > MAX_PET_FILE_BYTES ==> (r matches Err(m) && starts_with(m@, "解压读取失败: "@))
    &&& opens && enclosed is Some && !names_dir(names[i as int]) && zip_entry_reads(src, i)
        && data.len() <= MAX_PET_FILE_BYTES ==> (r matches Ok(Some(ArchiveEntry::File { .. })))
    &&& r matches Ok(Some(ArchiveEntry::File { path, path_lower, name_lower, data: d })) ==> {
        &&& opens
        &&& Some(path) == enclosed
        &&& !names_dir(names[i as int])
        &&& d@ == data
        &&& d@.len() <= MAX_PET_FILE_BYTES
        &&& path_lower@ == unicode_lower(path_lossy(&path))
        &&& name_lower@ == unicode_lower(names[i as int])
    }
    &&& r matches Ok(Some(ArchiveEntry::Dir { path })) ==> (opens && names_dir(names[i as int])
        && Some(path) == enclosed)
    &&& r matches Ok(None) ==> opens && enclosed is None
    &&& r matches Err(m) ==> starts_with(m@, "zip 读取失败: "@) || starts_with(
        m@,
        "解压读取失败: "@,
    )
}

/// The message that an entry could not be opened, with no detail.
fn zip_read_failure() -> (m: String)
    ensures
        starts_with(m@, "zip 读取失败: "@),
{
    let m = String::from_str("zip 读取失败: ");
    proof {
        reveal_strlit("zip 读取失败: ");
        assert(m@.subrange(0, m@.len() as int) =~= m@);
    }
    m
}

/// `PetArchive::entry` over the archive and its listed names.
fn entry_at(zip: &mut ZipArchive<Cursor<Vec<u8>>>, names: &Vec<String>, i: usize, src: Ghost<Seq<u8>>) -> (r:
    Result<Option<ArchiveEntry>, String>)
    requires
        zip_source(*old(zip)) == src@,
        zip_listing(src@) == Some(texts(names@)),
    ensures
        zip_source(*final(zip)) == src@,
        entry_read(src@, texts(names@), i as nat, r),
{
    let ghost ns = texts(names@);
    let res: Result<Option<ArchiveEntry>, String> = match zip_entry(zip, i) {
        Err(e) => Err(message("zip 读取失败: ", zip_error_text(&e))),
        Ok(mut entry) => {
            if i >= names.len() {
                Err(zip_read_failure())
            } else {
                let name = names[i].as_str();
                proof {
                    assert(ns[i as int] == name@);
                }
                match zip_entry_enclosed_name(&entry) {
                    None => Ok(None),
                    Some(path) => {
                        if is_dir_name(name) {
                            Ok(Some(ArchiveEntry::Dir { path }))
                        } else {
                            match read_entry_data(&mut entry, MAX_PET_FILE_BYTES) {
                                Err(e) => Err(message("解压读取失败: ", io_error_text(&e))),
                                Ok(data) => {
                                    let shown = path_text(&path);
                                    let path_lower = to_lower(shown.as_str());
                                    let name_lower = to_lower(name);
                                    Ok(Some(ArchiveEntry::File { path, path_lower, name_lower, data }))
                                },
                            }
                        }
                    },
                }
            }
        },
    };
    res
}

/// The text of the first entry of `zip` whose name (as listed in `names`)
/// ends with `pet.json`, read as for `PetArchive::read_pet_json`.
fn first_pet_json(zip: &mut ZipArchive<Cursor<Vec<u8>>>, names: &Vec<String>, src: Ghost<Seq<u8>>) -> (r:
    Result<Option<String>, String>)
    requires
        zip_source(*old(zip)) == src@,
        zip_listing(src@) == Some(texts(names@)),
    ensures
        zip_source(*final(zip)) == src@,
        pet_json_read(src@, texts(names@), r),
{
    let ghost ns = texts(names@);
    let n = names.len();
    let mut i: usize = 0;
    let mut outcome: Option<Result<Option<String>, String>> = None;
    while i < n && outcome.is_none()
        invariant
            i <= n == ns.len(),
            ns == texts(names@),
            zip_source(*zip) == src@,
            no_pet_json_before(ns, i as int),
            opens_before(src@, i as int),
            outcome matches Some(o) ==> pet_json_read(src@, ns, o),
        decreases n - i + (if outcome is None { 1int } else { 0int }),
    {
        let opened: Result<(), String> = match zip_entry(zip, i) {
            Ok(entry) => {
                let _ = entry;
                Ok(())
            },
            Err(e) => Err(message("zip 读取失败: ", zip_error_text(&e))),
        };
        assert(opened is Ok <==> zip_entry_opens(src@, i as nat));
        if let Err(m) = opened {
            let o: Result<Option<String>, String> = Err(m);
            proof {
                assert forall|k: int| #[trigger] first_pet_json_at(ns, k) implies pet_json_read_at(
                    src@,
                    k as nat,
                    o,
                ) by {
                    if k < i {
                        assert(!ends_with(ns[k], "pet.json"@));
                    }
                    assert(!opens_before(src@, k + 1)) by {
                        assert(!zip_entry_opens(src@, i as nat));
                    }
                }
                assert(!opens_before(src@, ns.len() as int)) by {
                    assert(!zip_entry_opens(src@, i as nat));
                }
            }
            outcome = Some(o);
        } else {
            let is_pet_json = ends_with_str(names[i].as_str(), "pet.json");
            proof {
                assert(ns[i as int] == names@[i as int]@);
                assert(zip_entry_opens(src@, i as nat));
                assert(opens_before(src@, i + 1));
            }
            if is_pet_json {
                let read: Result<Vec<u8>, String> = match zip_entry(zip, i) {
                    Ok(mut entry) => match read_entry_data(&mut entry, MAX_PET_JSON_BYTES) {
                        Ok(b) => Ok(b),
                        Err(e) => Err(message("pet.json 读取失败: ", io_error_text(&e))),
                    },
                    Err(e) => Err(message("zip 读取失败: ", zip_error_text(&e))),
                };
                let o: Result<Option<String>, String> = match read {
                    Err(m) => Err(m),
                    Ok(bytes) => match utf8_string(bytes) {
                        Ok(t) => Ok(Some(t)),
                        Err(e) => Err(message("pet.json 编码非 UTF-8: ", utf8_error_text(&e))),
                    },
                };
                proof {
                    assert(first_pet_json_at(ns, i as int));
                    assert forall|k: int| #[trigger] first_pet_json_at(ns, k) implies k == i by {
                        if k < i {
                            assert(!ends_with(ns[k], "pet.json"@));
                        }
                        if k > i {
                            assert(!ends_with(ns[i as int], "pet.json"@));
                        }
                    }
                    assert(pet_json_read_at(src@, i as nat, o));
                    assert(!no_pet_json_before(ns, ns.len() as int)) by {
                        assert(ends_with(ns[i as int], "pet.json"@));
                    }
                }
                outcome = Some(o);
            } else {
                i = i + 1;
            }
        }
    }
    match outcome {
        Some(o) => o,
        None => {
            proof {
                assert forall|k: int| #[trigger] first_pet_json_at(ns, k) implies false by {
                    assert(!ends_with(ns[k], "pet.json"@));
                }
            }
            Ok(None)
        },
    }
}

/// Whether `s` ends with `suffix`.
pub fn ends_with_str(s: &str, suffix: &str) -> (b: bool)
    ensures
        b == ends_with(s@, suffix@),
{
    let cs = chars_of(s);
    let xs = chars_of(suffix);
    if xs.len() > cs.len() {
        return false;
    }
    range_eq(&cs, cs.len() - xs.len(), cs.len(), &xs)
}

/// A zip entry name naming a directory: it ends with `/` or `\`.
pub open spec fn names_dir(name: Seq<char>) -> bool {
    name.len() > 0 && (name.last() == '/' || name.last() == '\\')
}

/// Whether a zip entry name is a directory's (`ZipFile::is_dir`).
pub fn is_dir_name(name: &str) -> (b: bool)
    ensures
        b == names_dir(name@),
{
    let cs = chars_of(name);
    cs.len() > 0 && (cs[cs.len() - 1] == '/' || cs[cs.len() - 1] == '\\')
}

/// Whether an extracted file becomes the sprite sheet: its path must end in
/// `.webp`; a file whose stored name ends in `spritesheet.webp` takes the
/// place of any earlier choice, any other `.webp` only when none was chosen.
pub open spec fn takes_sheet(path_lower: Seq<char>, name_lower: Seq<char>, have: bool) -> bool {
    ends_with(path_lower, ".webp"@) && (ends_with(name_lower, "spritesheet.webp"@) || !have)
}

/// Decides whether an extracted file becomes the package's sprite sheet
/// (`have`: one was already chosen).
pub fn takes_spritesheet(path_lower: &str, name_lower: &str, have: bool) -> (b: bool)
    ensures
        b == takes_sheet(path_lower@, name_lower@, have),
{
    ends_with_str(path_lower, ".webp") && (ends_with_str(name_lower, "spritesheet.webp") || !have)
}

/// The sprite sheet of a package: a `.webp` file whose stored name ends in
/// `spritesheet.webp` is always taken (a later one replacing an earlier
/// one); any other `.webp` file is taken only while none was, so that the
/// first one is kept; a file whose path is not `.webp` is never taken.
pub proof fn lemma_sheet_choice(path_lower: Seq<char>, name_lower: Seq<char>, have: bool)
    ensures
        ends_with(path_lower, ".webp"@) && ends_with(name_lower, "spritesheet.webp"@)
            ==> takes_sheet(path_lower, name_lower, have),
        have && !ends_with(name_lower, "spritesheet.webp"@) ==> !takes_sheet(
            path_lower,
            name_lower,
            have,
        ),
        !have && ends_with(path_lower, ".webp"@) ==> takes_sheet(path_lower, name_lower, have),
        !ends_with(path_lower, ".webp"@) ==> !takes_sheet(path_lower, name_lower, have),
{
}

/// The id a package installs under, and its directory under `root`: the
/// trimmed `id` of its `pet.json`, which must be non-empty and a valid pet
/// id; the directory is `root` joined with it.
pub fn import_target(root: &Path, raw_id: &str) -> (r: Result<(String, PathBuf), String>)
    ensures
        trim(raw_id@).len() == 0 ==> (r is Err && r->Err_0@ == "pet.json 缺少 id"@),
        trim(raw_id@).len() > 0 && !valid_pet_id(trim(raw_id@)) ==> (r is Err && r->Err_0@
            == invalid_pet_id_prefix() + trim(raw_id@)),
        valid_pet_id(trim(raw_id@)) ==> (r matches Ok((id, dir)) && id@ == trim(raw_id@) && dir
            == joined_path(root, trim(raw_id@))),
{
    let id = trim_str(raw_id);
    if id.is_empty() {
        return Err(String::from_str("pet.json 缺少 id"));
    }
    match safe_join(root, id) {
        Ok(dir) => Ok((String::from_str(id), dir)),
        Err(e) => Err(e.message),
    }
}

/// Name of the staging directory a package is unpacked into before it
/// replaces the pet's directory.
pub fn import_tmp_name(id: &str) -> (s: String)
    ensures
        s@ == ".import-tmp-"@ + id@,
{
    let mut s = String::from_str(".import-tmp-");
    s.append(id);
    s
}

} // verus!
