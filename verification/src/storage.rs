//! How Parcel's state files are stored: zstd frames around JSON, written
//! through a temporary file that is then renamed over the target.

use vstd::prelude::*;

use crate::fspath::{self, path_join};
use crate::paths::Paths;
use crate::text;

verus! {

/// What `zstd::decode_all` gives for some bytes: the data of the zstd
/// frames they hold, or `None` when they are not valid frames.
pub uninterp spec fn zstd_content(bytes: Seq<u8>) -> Option<Seq<u8>>;

/// `zstd::encode_all` at level 0 (zstd's default level). The contract
/// claims that it succeeds, and that the frame it returns decodes back to
/// the input: zstd is lossless. It reads from a slice and writes into a
/// `Vec`, neither of which can fail; what is left unsaid is zstd failing
/// to allocate its compression context when memory runs out. Which of the
/// valid frames it returns is not stated.
#[verifier::external_body]
fn zstd_encode(data: &[u8]) -> (r: Option<Vec<u8>>)
    ensures
        r is Some,
        r matches Some(c) ==> zstd_content(c@) == Some(data@),
{
    zstd::encode_all(data, 0).ok()
}

/// `zstd::decode_all`: the contract claims that its result is
/// `zstd_content` of the input, `None` standing for an error.
#[verifier::external_body]
fn zstd_decode(bytes: &[u8]) -> (r: Option<Vec<u8>>)
    ensures
        r is Some <==> zstd_content(bytes@) is Some,
        r matches Some(d) ==> zstd_content(bytes@) == Some(d@),
{
    zstd::decode_all(bytes).ok()
}

/// Why a state file could not be encoded, decoded or written.
#[derive(Debug, PartialEq, Eq, Structural)]
pub enum StorageError {
    /// zstd could not compress the data.
    Compress,
    /// The bytes are not zstd-compressed data.
    Decompress,
    /// The target path has no parent directory.
    NoParent,
    /// The target path has no file name.
    NoFileName,
}

/// Compresses serialized JSON for storage.
pub fn encode_zstd_json(json: &Vec<u8>) -> (r: Result<Vec<u8>, StorageError>)
    ensures
        r is Ok,
        r matches Ok(c) ==> zstd_content(c@) == Some(json@),
{
    match zstd_encode(json.as_slice()) {
        Some(c) => Ok(c),
        None => Err(StorageError::Compress),
    }
}

/// Decompresses stored data back to its JSON text.
pub fn decode_zstd_json(bytes: &Vec<u8>) -> (r: Result<Vec<u8>, StorageError>)
    ensures
        r is Ok <==> zstd_content(bytes@) is Some,
        r matches Ok(j) ==> zstd_content(bytes@) == Some(j@),
        r matches Err(e) ==> e == StorageError::Decompress,
{
    match zstd_decode(bytes.as_slice()) {
        Some(j) => Ok(j),
        None => Err(StorageError::Decompress),
    }
}

/// A file write that goes through a temporary file: create `dir`, write
/// `bytes` to `temp_path`, then rename it to `path`.
pub struct AtomicWrite {
    pub dir: String,
    pub temp_path: String,
    pub path: String,
    pub bytes: Vec<u8>,
}

/// `.<file name>.tmp-<pid>` next to the target.
pub open spec fn temp_name_of(file_name: Seq<char>, pid: nat) -> Seq<char> {
    seq!['.'] + file_name + ".tmp-"@ + text::decimal_of(pid)
}

/// Plans writing `bytes` to `path` through a temporary file named after
/// it and the process id `pid`, in the same directory. Refused when the
/// path has no parent or no file name.
pub fn atomic_write(path: &str, bytes: Vec<u8>, pid: u32) -> (r: Result<AtomicWrite, StorageError>)
    ensures
        fspath::parent_of(path@) is None ==> r == Err::<AtomicWrite, StorageError>(StorageError::NoParent),
        fspath::parent_of(path@) is Some && fspath::file_name_of(path@) is None ==> r == Err::<
            AtomicWrite,
            StorageError,
        >(StorageError::NoFileName),
        r is Ok <==> fspath::parent_of(path@) is Some && fspath::file_name_of(path@) is Some,
        r matches Ok(w) ==> {
            let dir = fspath::parent_of(path@).unwrap();
            &&& w.dir@ == dir
            &&& w.temp_path@ == path_join(dir, temp_name_of(fspath::file_name_of(path@).unwrap(), pid as nat))
            &&& w.path@ == path@
            &&& w.bytes == bytes
        },
{
    let dir = match fspath::path_parent(path) {
        Some(d) => d,
        None => return Err(StorageError::NoParent),
    };
    let name = match fspath::file_name(&text::chars_of(path)) {
        Some(n) => n,
        None => return Err(StorageError::NoFileName),
    };
    let mut temp: Vec<char> = Vec::new();
    temp.push('.');
    let mut i: usize = 0;
    while i < name.len()
        invariant
            i <= name.len(),
            temp@ == seq!['.'] + name@.subrange(0, i as int),
        decreases name.len() - i,
    {
        temp.push(name[i]);
        i = i + 1;
    }
    assert(name@.subrange(0, i as int) =~= name@);
    let tail = text::chars_of(".tmp-");
    let digits = text::decimal_chars(pid as u64);
    let mut s = text::string_of(&temp);
    text::push_chars(&mut s, &tail);
    text::push_chars(&mut s, &digits);
    assert(s@ =~= temp_name_of(name@, pid as nat));
    let temp_path = fspath::join(dir.as_str(), s.as_str());
    Ok(AtomicWrite { dir, temp_path, path: text::string_of(&text::chars_of(path)), bytes })
}

/// Plans writing the already compressed package database atomically to
/// the database path. Refused when that path has no parent or no file
/// name.
pub fn write_compressed_database(paths: &Paths, compressed: Vec<u8>, pid: u32) -> (r: Result<
    AtomicWrite,
    StorageError,
>)
    ensures
        fspath::parent_of(paths.database@) is None ==> r == Err::<AtomicWrite, StorageError>(
            StorageError::NoParent,
        ),
        fspath::parent_of(paths.database@) is Some && fspath::file_name_of(paths.database@) is None
            ==> r == Err::<AtomicWrite, StorageError>(StorageError::NoFileName),
        r is Ok <==> fspath::parent_of(paths.database@) is Some && fspath::file_name_of(paths.database@) is Some,
        r matches Ok(w) ==> {
            let dir = fspath::parent_of(paths.database@).unwrap();
            &&& w.path@ == paths.database@
            &&& w.dir@ == dir
            &&& w.temp_path@ == path_join(
                dir,
                temp_name_of(fspath::file_name_of(paths.database@).unwrap(), pid as nat),
            )
            &&& w.bytes == compressed
        },
{
    atomic_write(paths.database.as_str(), compressed, pid)
}

/// Plans saving the package database, given as JSON: compressed, and
/// written atomically to the database path. Refused exactly as
/// `write_compressed_database` refuses the path.
pub fn save_database(paths: &Paths, json: &Vec<u8>, pid: u32) -> (r: Result<AtomicWrite, StorageError>)
    ensures
        fspath::parent_of(paths.database@) is None ==> r == Err::<AtomicWrite, StorageError>(
            StorageError::NoParent,
        ),
        fspath::parent_of(paths.database@) is Some && fspath::file_name_of(paths.database@) is None
            ==> r == Err::<AtomicWrite, StorageError>(StorageError::NoFileName),
        r is Ok <==> fspath::parent_of(paths.database@) is Some && fspath::file_name_of(paths.database@) is Some,
        r matches Ok(w) ==> w.path@ == paths.database@ && zstd_content(w.bytes@) == Some(json@)
            && w.dir@ == fspath::parent_of(paths.database@).unwrap() && w.temp_path@ == path_join(
            fspath::parent_of(paths.database@).unwrap(),
            temp_name_of(fspath::file_name_of(paths.database@).unwrap(), pid as nat),
        ),
{
    match encode_zstd_json(json) {
        Ok(bytes) => write_compressed_database(paths, bytes, pid),
        Err(e) => Err(e),
    }
}

/// Plans saving the remote configuration, given as JSON: written as it
/// is, atomically, to the remotes path.
pub fn save_remotes(paths: &Paths, json: Vec<u8>, pid: u32) -> (r: Result<AtomicWrite, StorageError>)
    ensures
        r is Ok <==> fspath::parent_of(paths.remotes@) is Some && fspath::file_name_of(paths.remotes@) is Some,
        r matches Ok(w) ==> w.path@ == paths.remotes@ && w.bytes@ == json@,
{
    atomic_write(paths.remotes.as_str(), json, pid)
}

} // verus!
