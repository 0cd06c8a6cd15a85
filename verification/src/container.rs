//! The compound-file container: what it holds, and the calls that read it.
//!
//! A container is a `cfb::CompoundFile` over bytes in memory. Verus sees
//! nothing inside it; the library speaks of what it holds through
//! [`contents`], and every call into `cfb` stands in this module.

use crate::error::MsgError;
use vstd::prelude::*;

verus! {

/// `std::io::Cursor`, carried through as it is.
#[verifier::external_type_specification]
#[verifier::external_body]
#[verifier::reject_recursive_types(T)]
pub struct ExCursor<T>(std::io::Cursor<T>);

/// `cfb::CompoundFile`, carried through as it is. What one holds is named by
/// [`container_streams`] and [`container_storages`].
#[verifier::external_type_specification]
#[verifier::external_body]
#[verifier::reject_recursive_types(F)]
pub struct ExCompoundFile<F>(cfb::CompoundFile<F>);

/// `std::io::Error`, carried from a call to the place that maps it to a
/// [`MsgError`].
#[verifier::external_type_specification]
#[verifier::external_body]
pub struct ExIoError(std::io::Error);

/// A compound file held in memory.
pub type Container = cfb::CompoundFile<std::io::Cursor<Vec<u8>>>;

/// An entry of a storage as a plain value: its name, its full path, and
/// whether it is itself a storage.
pub type EntryView = (Seq<char>, Seq<char>, bool);

/// The streams of a container, by the path that opens each. The value is the
/// stream's bytes, or nothing where the stream opens but cannot be read to
/// its end.
pub uninterp spec fn container_streams(c: cfb::CompoundFile<std::io::Cursor<Vec<u8>>>) -> Map<
    Seq<char>,
    Option<Seq<u8>>,
>;

/// The storages of a container, by the path that names each. The value is
/// the storage's entries in the order in which the container lists them.
pub uninterp spec fn container_storages(c: cfb::CompoundFile<std::io::Cursor<Vec<u8>>>) -> Map<
    Seq<char>,
    Seq<(Seq<char>, Seq<char>, bool)>,
>;

/// What a compound file made of `bytes` holds, streams first, or nothing
/// where `bytes` are no compound file.
pub uninterp spec fn container_of(bytes: Seq<u8>) -> Option<
    (Map<Seq<char>, Option<Seq<u8>>>, Map<Seq<char>, Seq<(Seq<char>, Seq<char>, bool)>>),
>;

/// What a container holds.
pub ghost struct Contents {
    /// The streams, by path.
    pub streams: Map<Seq<char>, Option<Seq<u8>>>,
    /// The entries of each storage, by path.
    pub storages: Map<Seq<char>, Seq<EntryView>>,
}

/// What the container `c` holds.
pub open spec fn contents(c: Container) -> Contents {
    Contents { streams: container_streams(c), storages: container_storages(c) }
}

/// An entry of a storage.
#[derive(Debug)]
pub struct Entry {
    /// The entry's own name.
    pub name: String,
    /// The full path of the entry within the container.
    pub path: String,
    /// Whether the entry is a storage; otherwise it is a stream.
    pub is_storage: bool,
}

impl Entry {
    /// The entry as a plain value.
    pub open spec fn view(&self) -> EntryView {
        (self.name@, self.path@, self.is_storage)
    }
}

/// The entries of a vector as plain values.
pub open spec fn entry_views(entries: Seq<Entry>) -> Seq<EntryView> {
    Seq::new(entries.len(), |i: int| entries[i].view())
}

/// Trusted: `cfb::CompoundFile::open` on a cursor over `bytes`. Whether it
/// succeeds, and what the container then holds, depends on the bytes alone.
#[verifier::external_body]
fn open_cursor(bytes: Vec<u8>) -> (r: Result<Container, std::io::Error>)
    ensures
        match r {
            Ok(c) => container_of(bytes@) == Some((container_streams(c), container_storages(c))),
            Err(_) => container_of(bytes@) is None,
        },
{
    cfb::CompoundFile::open(std::io::Cursor::new(bytes))
}

/// Trusted: `cfb::CompoundFile::open_stream`, the stream then read to its
/// end with `std::io::Read::read_to_end` while the container is borrowed.
/// Opening succeeds exactly at the paths of the container's streams; the
/// inner result is that of the reading, the stream's bytes from its start.
/// Neither changes what the container holds.
#[verifier::external_body]
fn open_and_read(c: &mut Container, path: &str) -> (r: Result<
    Result<Vec<u8>, std::io::Error>,
    std::io::Error,
>)
    ensures
        contents(*final(c)) == contents(*old(c)),
        r is Ok <==> container_streams(*old(c)).dom().contains(path@),
        r matches Ok(read) ==> match read {
            Ok(bytes) => container_streams(*old(c))[path@] == Some(bytes@),
            Err(_) => container_streams(*old(c))[path@] is None,
        },
{
    let mut stream = c.open_stream(path)?;
    let mut bytes = Vec::new();
    match std::io::Read::read_to_end(&mut stream, &mut bytes) {
        Ok(_) => Ok(Ok(bytes)),
        Err(e) => Ok(Err(e)),
    }
}

/// Trusted: `cfb::CompoundFile::read_storage`, each entry handed out as a
/// plain [`Entry`]. It succeeds exactly at the paths of the container's
/// storages, and lists the entries of that storage in the container's order.
#[verifier::external_body]
fn read_storage(c: &Container, path: &str) -> (r: Result<Vec<Entry>, std::io::Error>)
    ensures
        r is Ok <==> container_storages(*c).dom().contains(path@),
        r matches Ok(entries) ==> entry_views(entries@) == container_storages(*c)[path@],
{
    let entries = c.read_storage(path)?;
    Ok(
        entries.map(
            |e|
                Entry {
                    name: e.name().to_string(),
                    path: e.path().to_string_lossy().into_owned(),
                    is_storage: e.is_storage(),
                },
        ).collect(),
    )
}

/// Trusted: `cfb::CompoundFile::is_storage`. It is true exactly at the paths
/// of the container's storages.
#[verifier::external_body]
fn is_storage_path(c: &Container, path: &str) -> (b: bool)
    ensures
        b == container_storages(*c).dom().contains(path@),
{
    c.is_storage(path)
}

/// What a compound file made of `bytes` holds.
pub open spec fn contents_of(bytes: Seq<u8>) -> Result<Contents, MsgError> {
    match container_of(bytes) {
        Some(held) => Ok(Contents { streams: held.0, storages: held.1 }),
        None => Err(MsgError::IO),
    }
}

/// The bytes of the stream at `path`.
pub open spec fn bytes_at(held: Contents, path: Seq<char>) -> Result<Seq<u8>, MsgError> {
    if !held.streams.dom().contains(path) {
        Err(MsgError::PropertyMissing)
    } else {
        match held.streams[path] {
            Some(bytes) => Ok(bytes),
            None => Err(MsgError::IO),
        }
    }
}

/// The entries of the storage at `path`.
pub open spec fn entries_at(held: Contents, path: Seq<char>) -> Result<Seq<EntryView>, MsgError> {
    if held.storages.dom().contains(path) {
        Ok(held.storages[path])
    } else {
        Err(MsgError::PropertyMissing)
    }
}

/// Opens the compound file that `bytes` hold.
pub fn open_container(bytes: Vec<u8>) -> (r: Result<Container, MsgError>)
    ensures
        match r {
            Ok(c) => contents_of(bytes@) == Ok::<Contents, MsgError>(contents(c)),
            Err(e) => contents_of(bytes@) == Err::<Contents, MsgError>(e),
        },
{
    match open_cursor(bytes) {
        Ok(c) => Ok(c),
        Err(_) => Err(MsgError::IO),
    }
}

/// Reads the stream at `path` to its end. A path at which the container has
/// no stream is a missing property; a stream that cannot be read is an IO
/// error.
pub fn read_stream(c: &mut Container, path: &str) -> (r: Result<Vec<u8>, MsgError>)
    ensures
        contents(*final(c)) == contents(*old(c)),
        match r {
            Ok(b) => bytes_at(contents(*old(c)), path@) == Ok::<Seq<u8>, MsgError>(b@),
            Err(e) => bytes_at(contents(*old(c)), path@) == Err::<Seq<u8>, MsgError>(e),
        },
{
    match open_and_read(c, path) {
        Ok(Ok(bytes)) => Ok(bytes),
        Ok(Err(_)) => Err(MsgError::IO),
        Err(_) => Err(MsgError::PropertyMissing),
    }
}

/// Lists the entries of the storage at `path`.
pub fn list_entries(c: &Container, path: &str) -> (r: Result<Vec<Entry>, MsgError>)
    ensures
        match r {
            Ok(entries) => entries_at(contents(*c), path@) == Ok::<Seq<EntryView>, MsgError>(
                entry_views(entries@),
            ),
            Err(e) => entries_at(contents(*c), path@) == Err::<Seq<EntryView>, MsgError>(e),
        },
{
    match read_storage(c, path) {
        Ok(entries) => Ok(entries),
        Err(_) => Err(MsgError::PropertyMissing),
    }
}

/// Whether the container has a storage at `path`.
pub fn is_storage(c: &Container, path: &str) -> (b: bool)
    ensures
        b == (entries_at(contents(*c), path@) is Ok),
{
    is_storage_path(c, path)
}

} // verus!
