use crate::blob::Blob;
use crate::cache::BlobCache;
use crate::error::{DiskRead, OpenReadError, WriteError};
use vstd::prelude::*;

verus! {

/// One entry found while scanning the root directory.
#[derive(Debug)]
pub enum DirEntry {
    /// A regular file, with its whole contents.
    File { name: String, bytes: Vec<u8> },
    /// Anything else (a subdirectory, a symlink): it is skipped.
    Other { name: String },
}

/// What the cache holds after preloading `entries` in order: every regular file,
/// the later of two entries with one name winning.
pub open spec fn preload_map(entries: Seq<DirEntry>) -> Map<Seq<char>, Seq<u8>>
    decreases entries.len(),
{
    if entries.len() == 0 {
        Map::empty()
    } else {
        let m = preload_map(entries.drop_last());
        match entries.last() {
            DirEntry::File { name, bytes } => m.insert(name@, bytes@),
            DirEntry::Other { .. } => m,
        }
    }
}

/// The contents that reading `path` yields, given the cache `m` and what a
/// read of the backing store comes to; `None` where the read fails.
pub open spec fn read_outcome(m: Map<Seq<char>, Seq<u8>>, path: Seq<char>, disk: DiskRead) -> Option<Seq<u8>> {
    if m.contains_key(path) {
        Some(m[path])
    } else {
        match disk {
            DiskRead::Bytes(b) => Some(b@),
            _ => None,
        }
    }
}

/// The cache after reading `path`: a miss that the backing store answers is
/// inserted, nothing else changes.
pub open spec fn cache_after_read(m: Map<Seq<char>, Seq<u8>>, path: Seq<char>, disk: DiskRead) -> Map<Seq<char>, Seq<u8>> {
    match read_outcome(m, path, disk) {
        Some(b) => m.insert(path, b),
        None => m,
    }
}

/// The name of a scanned entry.
pub open spec fn entry_name(e: DirEntry) -> Seq<char> {
    match e {
        DirEntry::File { name, .. } => name@,
        DirEntry::Other { name } => name@,
    }
}

/// A file found by the scan is in a preloaded cache, and reading it returns
/// exactly its bytes from the cache, whatever the backing store says then.
pub proof fn lemma_preloaded_file_is_read(entries: Seq<DirEntry>, i: int, disk: DiskRead)
    requires
        0 <= i < entries.len(),
        entries[i] is File,
        forall|j: int| 0 <= j < entries.len() && j != i ==> entry_name(#[trigger] entries[j]) != entry_name(entries[i]),
    ensures
        preload_map(entries).contains_key(entry_name(entries[i])),
        read_outcome(preload_map(entries), entry_name(entries[i]), disk) == Some(entries[i]->File_bytes@),
        cache_after_read(preload_map(entries), entry_name(entries[i]), disk) == preload_map(entries),
    decreases entries.len(),
{
    let name = entry_name(entries[i]);
    let m = preload_map(entries);
    if i < entries.len() - 1 {
        let prefix = entries.drop_last();
        assert forall|j: int| 0 <= j < prefix.len() && j != i implies entry_name(#[trigger] prefix[j]) != entry_name(prefix[i]) by {
            assert(prefix[j] == entries[j]);
        }
        lemma_preloaded_file_is_read(prefix, i, disk);
        assert(entry_name(entries[entries.len() - 1]) != name);
    }
    assert(m.insert(name, m[name]) =~= m);
}

/// Starting from an empty cache, a path comes to be cached only by reading it:
/// reading another path leaves its membership alone, and a read of it that
/// succeeds caches it.
pub proof fn lemma_read_then_exists(m: Map<Seq<char>, Seq<u8>>, path: Seq<char>, other: Seq<char>, disk: DiskRead)
    requires
        other != path,
    ensures
        !Map::<Seq<char>, Seq<u8>>::empty().contains_key(path),
        cache_after_read(m, other, disk).contains_key(path) == m.contains_key(path),
        read_outcome(m, path, disk) is Some ==> cache_after_read(m, path, disk).contains_key(path),
{
}

/// A deleted path is no longer cached, and deleting a path that is not cached
/// changes nothing.
pub proof fn lemma_delete_then_absent(m: Map<Seq<char>, Seq<u8>>, path: Seq<char>)
    ensures
        !m.remove(path).contains_key(path),
        !m.contains_key(path) ==> m.remove(path) == m,
{
    if !m.contains_key(path) {
        assert(m.remove(path) =~= m);
    }
}

/// A read-oriented directory over a root path, whose file contents are cached in memory.
pub struct RamDirectory {
    root_path: String,
    files: BlobCache,
}

impl View for RamDirectory {
    type V = Map<Seq<char>, Seq<u8>>;

    /// The cached contents, by relative path.
    closed spec fn view(&self) -> Map<Seq<char>, Seq<u8>> {
        self.files@
    }
}

impl RamDirectory {
    pub closed spec fn wf(&self) -> bool {
        self.files.wf()
    }

    /// The root path of the backing store.
    pub closed spec fn root(&self) -> Seq<char> {
        self.root_path@
    }

    /// A directory whose cache starts empty and fills on first read of each path.
    pub fn lazy(root_path: String) -> (r: RamDirectory)
        ensures
            r.wf(),
            r.root() == root_path@,
            r@ == Map::<Seq<char>, Seq<u8>>::empty(),
    {
        RamDirectory { root_path, files: BlobCache::new() }
    }

    /// A directory whose cache holds every regular file among `entries`, the
    /// result of scanning `root_path`; other entries are skipped.
    pub fn preload(root_path: String, entries: Vec<DirEntry>) -> (r: RamDirectory)
        ensures
            r.wf(),
            r.root() == root_path@,
            r@ == preload_map(entries@),
    {
        let ghost orig = entries@;
        let ghost n = entries@.len();
        let mut entries = entries;
        let mut reversed: Vec<DirEntry> = Vec::new();
        while entries.len() > 0
            invariant
                n == orig.len(),
                entries@ == orig.take(entries@.len() as int),
                entries@.len() + reversed@.len() == n,
                forall|j: int| 0 <= j < reversed@.len() ==> #[trigger] reversed@[j] == orig[n - 1 - j],
            decreases entries@.len(),
        {
            let e = entries.pop().unwrap();
            reversed.push(e);
        }
        let mut files = BlobCache::new();
        assert(orig.take(0) =~= Seq::<DirEntry>::empty());
        while reversed.len() > 0
            invariant
                n == orig.len(),
                reversed@.len() <= n,
                forall|j: int| 0 <= j < reversed@.len() ==> #[trigger] reversed@[j] == orig[n - 1 - j],
                files.wf(),
                files@ == preload_map(orig.take(n - reversed@.len())),
            decreases reversed@.len(),
        {
            let ghost k = n - reversed@.len();
            let e = reversed.pop().unwrap();
            assert(e == orig[k]);
            assert(orig.take(k + 1).drop_last() =~= orig.take(k));
            assert(orig.take(k + 1).last() == orig[k]);
            match e {
                DirEntry::File { name, bytes } => {
                    files.insert(name.as_str(), Blob::from_vec(bytes));
                },
                DirEntry::Other { .. } => {},
            }
        }
        assert(orig.take(n as int) =~= orig);
        RamDirectory { root_path, files }
    }

    /// The root path of the backing store, to which relative paths are joined.
    pub fn root_path(&self) -> (r: &str)
        ensures
            r@ == self.root(),
    {
        self.root_path.as_str()
    }

    /// The blob cached for `path`, without touching the backing store.
    pub fn lookup(&self, path: &str) -> (r: Option<Blob>)
        requires
            self.wf(),
        ensures
            match r {
                Some(b) => self@.contains_key(path@) && b@ == self@[path@],
                None => !self@.contains_key(path@),
            },
    {
        self.files.get(path)
    }

    /// Reads `path`: from the cache where it is there, else from what the read of
    /// the backing store `disk` came to, caching what it returned.
    pub fn open_read(&mut self, path: &str, disk: DiskRead) -> (r: Result<Blob, OpenReadError>)
        requires
            old(self).wf(),
        ensures
            final(self).wf(),
            final(self).root() == old(self).root(),
            final(self)@ == cache_after_read(old(self)@, path@, disk),
            match r {
                Ok(b) => read_outcome(old(self)@, path@, disk) == Some(b@),
                Err(e) => read_outcome(old(self)@, path@, disk) is None && e.reports(path@, disk),
            },
    {
        match self.files.get(path) {
            Some(b) => {
                assert(cache_after_read(self@, path@, disk) =~= self@);
                Ok(b)
            },
            None => match disk {
                DiskRead::Bytes(bytes) => {
                    let blob = Blob::from_vec(bytes);
                    self.files.insert(path, blob.share());
                    Ok(blob)
                },
                DiskRead::NotFound => Err(OpenReadError::FileDoesNotExist(path.to_owned())),
                DiskRead::Failed(io_error) => Err(OpenReadError::IoError { filepath: path.to_owned(), io_error }),
            },
        }
    }

    /// Whether `path` is cached. This is membership in the cache: a lazily
    /// filled directory answers `false` for a file it has not read yet.
    pub fn file_exists(&self, path: &str) -> (r: bool)
        requires
            self.wf(),
        ensures
            r == self@.contains_key(path@),
    {
        self.files.contains(path)
    }

    /// Evicts `path` from the cache; the backing file is left alone. Deleting a
    /// path that is not cached does nothing.
    pub fn delete(&mut self, path: &str)
        requires
            old(self).wf(),
        ensures
            final(self).wf(),
            final(self).root() == old(self).root(),
            final(self)@ == old(self)@.remove(path@),
    {
        self.files.remove(path)
    }

    /// Reads `path` straight from the backing store: the result is what the read
    /// `disk` came to, whatever the cache holds.
    pub fn atomic_read(&self, path: &str, disk: DiskRead) -> (r: Result<Vec<u8>, OpenReadError>)
        ensures
            match disk {
                DiskRead::Bytes(b) => r is Ok && r->Ok_0@ == b@,
                _ => r is Err && r->Err_0.reports(path@, disk),
            },
    {
        match disk {
            DiskRead::Bytes(bytes) => Ok(bytes),
            DiskRead::NotFound => Err(OpenReadError::FileDoesNotExist(path.to_owned())),
            DiskRead::Failed(io_error) => Err(OpenReadError::IoError { filepath: path.to_owned(), io_error }),
        }
    }

    /// Opening a file for writing is not offered.
    pub fn open_write(&self, path: &str) -> (r: Result<(), WriteError>)
        ensures
            r == Err::<(), WriteError>(WriteError::Unsupported),
    {
        Err(WriteError::Unsupported)
    }

    /// Replacing a file's contents is not offered.
    pub fn atomic_write(&self, path: &str, data: &[u8]) -> (r: Result<(), WriteError>)
        ensures
            r == Err::<(), WriteError>(WriteError::Unsupported),
    {
        Err(WriteError::Unsupported)
    }
}

} // verus!
