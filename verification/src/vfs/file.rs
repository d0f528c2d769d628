//! File systems and files.
use crate::vfs::memory;
use vstd::prelude::*;

verus! {

/// Errors of a file system.
#[derive(Debug, Clone, PartialEq)]
pub enum VfsError {
    NotFound { path: String },
    Locked { path: String },
    /// An I/O error, for the reason given.
    Io { path: String, reason: String },
}

/// What a [`VfsError`] stands for.
#[verifier::ext_equal]
pub enum VfsErrorView {
    NotFound { path: Seq<char> },
    Locked { path: Seq<char> },
    Io { path: Seq<char>, reason: Seq<char> },
}

impl VfsErrorView {
    /// The error in words.
    pub open spec fn described(self) -> Seq<char> {
        match self {
            VfsErrorView::NotFound { path } => "file not found: "@ + path,
            VfsErrorView::Locked { path } => "database is locked: "@ + path,
            VfsErrorView::Io { path, reason } => "I/O error on "@ + path + ": "@ + reason,
        }
    }
}

impl VfsError {
    pub open spec fn view(&self) -> VfsErrorView {
        match self {
            VfsError::NotFound { path } => VfsErrorView::NotFound { path: path@ },
            VfsError::Locked { path } => VfsErrorView::Locked { path: path@ },
            VfsError::Io { path, reason } => VfsErrorView::Io { path: path@, reason: reason@ },
        }
    }

    /// The error in words.
    pub fn describe(&self) -> (s: String)
        ensures
            s@ == self@.described(),
    {
        match self {
            VfsError::NotFound { path } => {
                let mut s = "file not found: ".to_owned();
                s.append(path.as_str());
                s
            },
            VfsError::Locked { path } => {
                let mut s = "database is locked: ".to_owned();
                s.append(path.as_str());
                s
            },
            VfsError::Io { path, reason } => {
                let mut s = "I/O error on ".to_owned();
                s.append(path.as_str());
                s.append(": ");
                s.append(reason.as_str());
                s
            },
        }
    }

    /// The error for a failed operation on a path: a missing file is told apart from other
    /// failures.
    pub fn from_io(path: &str, not_found: bool, reason: &str) -> (e: VfsError)
        ensures
            e@ == io_failure(path@, not_found, reason@),
    {
        if not_found {
            VfsError::NotFound { path: path.to_owned() }
        } else {
            VfsError::Io { path: path.to_owned(), reason: reason.to_owned() }
        }
    }

    /// Like [`Self::from_io`], but lock contention is told apart too, so that callers can
    /// distinguish "another process holds this lock" from an ordinary I/O failure.
    pub fn from_lock(path: &str, contended: bool, not_found: bool, reason: &str) -> (e: VfsError)
        ensures
            e@ == (if contended {
                VfsErrorView::Locked { path: path@ }
            } else {
                io_failure(path@, not_found, reason@)
            }),
    {
        if contended {
            VfsError::Locked { path: path.to_owned() }
        } else {
            VfsError::from_io(path, not_found, reason)
        }
    }
}

/// What a failed operation on a path is reported as.
pub open spec fn io_failure(path: Seq<char>, not_found: bool, reason: Seq<char>) -> VfsErrorView {
    if not_found {
        VfsErrorView::NotFound { path }
    } else {
        VfsErrorView::Io { path, reason }
    }
}

/// How an operation without a result ended.
pub open spec fn unit_seen(r: Result<(), VfsError>) -> Result<(), VfsErrorView> {
    match r {
        Ok(_) => Ok(()),
        Err(e) => Err(e@),
    }
}

/// A held file lock, released when the guard inside is dropped.
#[derive(Debug)]
pub struct FileLock<G> {
    guard: G,
}

impl<G> FileLock<G> {
    /// What holds the lock.
    pub closed spec fn held_by(&self) -> G {
        self.guard
    }

    /// A lock that is held as long as `guard` lives.
    pub fn new(guard: G) -> (r: Self)
        ensures
            r.held_by() == guard,
    {
        FileLock { guard }
    }
}

/// A single file of a file system `S`, opened by one of [`Vfs`]'s functions.
///
/// What a file does is said by relations, which a file system may define: what may be read,
/// how large the file may be, and what may become of the file system. One that defines none
/// promises nothing.
pub trait VfsFile<S>: Sized {
    /// What holds a lock on the file.
    type Guard;

    /// Reading `len` bytes at `offset` may give these bytes (fewer at the end of the file),
    /// or fail so.
    open spec fn reads(&self, store: S, len: nat, offset: u64, r: Result<Seq<u8>, VfsErrorView>)
        -> bool {
        true
    }

    /// Asking for the size may give this.
    open spec fn sizes(&self, store: S, r: Result<u64, VfsErrorView>) -> bool {
        true
    }

    /// Asking for a SHARED lock may give this lock or fail so.
    open spec fn locks(&self, store: S, r: Result<FileLock<Self::Guard>, VfsErrorView>) -> bool {
        true
    }

    /// Writing `bytes` at `offset` may make `after` of the file system, and end so.
    open spec fn writes(
        &self,
        before: S,
        bytes: Seq<u8>,
        offset: u64,
        after: S,
        r: Result<(), VfsErrorView>,
    ) -> bool {
        true
    }

    /// Giving the file the length `len` may make `after` of the file system, and end so.
    open spec fn truncates(&self, before: S, len: u64, after: S, r: Result<(), VfsErrorView>)
        -> bool {
        true
    }

    /// Flushing the file may make `after` of the file system, and end so.
    open spec fn syncs(&self, before: S, after: S, r: Result<(), VfsErrorView>) -> bool {
        true
    }

    /// Reads into `buf` starting at `offset`, returning the number of bytes actually read
    /// (fewer than `buf.len()` at the end of the file).
    fn read_at(&self, store: &S, buf: &mut Vec<u8>, offset: u64) -> (r: Result<usize, VfsError>)
        ensures
            final(buf)@.len() == old(buf)@.len(),
            match r {
                Ok(n) => {
                    &&& n <= old(buf)@.len()
                    &&& self.reads(
                        *store,
                        old(buf)@.len(),
                        offset,
                        Ok(final(buf)@.take(n as int)),
                    )
                    &&& final(buf)@.skip(n as int) == old(buf)@.skip(n as int)
                },
                Err(e) => self.reads(*store, old(buf)@.len(), offset, Err(e@)),
            },
    ;

    /// The file's total size in bytes.
    fn size(&self, store: &S) -> (r: Result<u64, VfsError>)
        ensures
            match r {
                Ok(n) => self.sizes(*store, Ok(n)),
                Err(e) => self.sizes(*store, Err(e@)),
            },
    ;

    /// Acquires a SHARED byte-range lock on the file's journal-mode lock bytes, so that a
    /// concurrent writer can detect this reader. Released when the returned lock is dropped.
    fn lock_shared(&self, store: &S) -> (r: Result<FileLock<Self::Guard>, VfsError>)
        ensures
            self.locks(*store, file_seen(r)),
    ;

    /// Writes `buf` at `offset`, extending the file if `offset + buf.len()` is past the
    /// current end.
    fn write_at(&self, store: &mut S, buf: &Vec<u8>, offset: u64) -> (r: Result<(), VfsError>)
        ensures
            self.writes(*old(store), buf@, offset, *final(store), unit_seen(r)),
    ;

    /// Truncates (or, if `len` is past the current end, extends with zeros) the file to
    /// exactly `len` bytes.
    fn truncate(&self, store: &mut S, len: u64) -> (r: Result<(), VfsError>)
        ensures
            self.truncates(*old(store), len, *final(store), unit_seen(r)),
    ;

    /// Flushes any buffered writes to durable storage.
    fn sync(&self, store: &mut S) -> (r: Result<(), VfsError>)
        ensures
            self.syncs(*old(store), *final(store), unit_seen(r)),
    ;
}

/// A source of database files, opened by path.
pub trait Vfs: Sized {
    /// What the files stand in.
    type Store;

    type File: VfsFile<Self::Store>;

    /// What holds a claimed reader-mark slot.
    type WalGuard;

    /// Opening the file at `path`, which must exist, may give this file or fail so.
    open spec fn opens(&self, path: Seq<char>, writing: bool, r: Result<Self::File, VfsErrorView>)
        -> bool {
        true
    }

    /// Asking whether `path` exists may give this.
    open spec fn existence(&self, path: Seq<char>, r: Result<bool, VfsErrorView>) -> bool {
        true
    }

    /// Opening the file at `path`, created where it is missing, may make `after` of the file
    /// system and `left` of what its files stand in, and give this file or fail so.
    open spec fn creates(
        &self,
        before: Self::Store,
        path: Seq<char>,
        after: Self,
        left: Self::Store,
        r: Result<Self::File, VfsErrorView>,
    ) -> bool {
        true
    }

    /// Removing `path` may make `after` of the file system, and end so.
    open spec fn deletes(&self, path: Seq<char>, after: Self, r: Result<(), VfsErrorView>) -> bool {
        true
    }

    /// Claiming a reader-mark slot for the file at `path` may give this or fail so.
    open spec fn claims(
        &self,
        path: Seq<char>,
        r: Result<Option<FileLock<Self::WalGuard>>, VfsErrorView>,
    ) -> bool {
        true
    }

    /// Opens `path` for reading.
    fn open_read(&self, path: &str) -> (r: Result<Self::File, VfsError>)
        ensures
            self.opens(path@, false, file_seen(r)),
    ;

    /// Opens `path` for reading and writing. The file must already exist.
    fn open_write(&self, path: &str) -> (r: Result<Self::File, VfsError>)
        ensures
            self.opens(path@, true, file_seen(r)),
    ;

    /// Whether `path` exists; used to detect sibling `-wal` / `-journal` files.
    fn file_exists(&self, path: &str) -> (r: Result<bool, VfsError>)
        ensures
            match r {
                Ok(b) => self.existence(path@, Ok(b)),
                Err(e) => self.existence(path@, Err(e@)),
            },
    ;

    /// Opens `path` for reading and writing, creating it (empty) first if it doesn't already
    /// exist.
    fn create_or_open_write(&mut self, store: &mut Self::Store, path: &str) -> (r: Result<
        Self::File,
        VfsError,
    >)
        ensures
            old(self).creates(*old(store), path@, *final(self), *final(store), file_seen(r)),
    ;

    /// Removes `path` if it exists; a no-op (not an error) if it doesn't.
    fn delete(&mut self, path: &str) -> (r: Result<(), VfsError>)
        ensures
            old(self).deletes(path@, *final(self), unit_seen(r)),
    ;

    /// Claims a WAL reader-mark slot on `path`'s `-shm` companion file (if one exists), so
    /// that a live checkpointer backs off rather than overwriting frames this reader depends
    /// on. Released when the returned lock is dropped.
    fn claim_wal_read_lock(&self, path: &str) -> (r: Result<
        Option<FileLock<Self::WalGuard>>,
        VfsError,
    >)
        ensures
            self.claims(path@, file_seen(r)),
    ;
}

/// What a file keeps to beyond what its operations may do: it holds bytes, and they are what
/// the operations go by.
pub trait FileLaws<S>: VfsFile<S> {
    /// What the file holds, where there is such a file.
    spec fn bytes(&self, store: S) -> Option<Seq<u8>>;

    /// A size that is given is the number of bytes that the file holds.
    proof fn lemma_size(&self, store: S, n: u64)
        requires
            self.sizes(store, Ok(n)),
        ensures
            self.bytes(store) is Some ==> n == self.bytes(store)->0.len() as u64,
    ;

    /// A file that was given a length holds exactly that many bytes: what it held below it, and
    /// zeros.
    proof fn lemma_truncated(&self, before: S, len: u64, after: S)
        requires
            self.truncates(before, len, after, Ok(())),
            self.bytes(before) is Some,
        ensures
            self.bytes(after) == Some(memory::resized(self.bytes(before)->0, len as nat)),
    ;
}

/// What a file system keeps to beyond what its operations may do: there is a file at a path or
/// there is none, and that is what the operations go by.
pub trait VfsLaws: Vfs {
    /// Whether there is a file at `path`.
    spec fn lists(&self, path: Seq<char>) -> bool;

    /// Whether two paths name one file wherever they name one.
    spec fn same_path(&self, a: Seq<char>, b: Seq<char>) -> bool;

    /// An answer on whether a path exists says whether there is a file at it.
    proof fn lemma_existence(&self, path: Seq<char>, b: bool)
        requires
            self.existence(path, Ok(b)),
        ensures
            b == self.lists(path),
    ;

    /// Removing a path that does not exist succeeds and changes nothing; one that was removed
    /// is gone; and no other path is touched.
    proof fn lemma_deleted(
        &self,
        path: Seq<char>,
        after: Self,
        r: Result<(), VfsErrorView>,
        other: Seq<char>,
    )
        requires
            self.deletes(path, after, r),
        ensures
            !self.lists(path) ==> r is Ok && after.lists(other) == self.lists(other),
            r is Ok ==> !after.lists(path),
            !self.same_path(path, other) ==> after.lists(other) == self.lists(other),
    ;
}

/// How opening a file, or asking for a lock, ended.
pub open spec fn file_seen<F>(r: Result<F, VfsError>) -> Result<F, VfsErrorView> {
    match r {
        Ok(f) => Ok(f),
        Err(e) => Err(e@),
    }
}

/// Builds the path of a companion file (e.g. `-wal`, `-journal`) by appending `suffix` to
/// `path`'s full name: companion suffixes are appended after the existing `.db` extension,
/// not substituted for it (`test.db` + `-wal` = `test.db-wal`, not `test.wal`).
pub fn companion_path(path: &str, suffix: &str) -> (r: String)
    ensures
        r@ == path@ + suffix@,
{
    let mut name = path.to_owned();
    name.append(suffix);
    name
}

/// A file, for callers that hold a file handle across several calls.
pub struct AnyVfsFile<F> {
    file: F,
}

impl<F> AnyVfsFile<F> {
    /// The file inside.
    pub closed spec fn inner(&self) -> F {
        self.file
    }

    pub fn new(file: F) -> (r: Self)
        ensures
            r.inner() == file,
    {
        AnyVfsFile { file }
    }

    /// The file inside.
    pub fn into_inner(self) -> (r: F)
        ensures
            r == self.inner(),
    {
        self.file
    }

    pub fn read_at<S>(&self, store: &S, buf: &mut Vec<u8>, offset: u64) -> (r: Result<
        usize,
        VfsError,
    >) where F: VfsFile<S>
        ensures
            final(buf)@.len() == old(buf)@.len(),
            match r {
                Ok(n) => {
                    &&& n <= old(buf)@.len()
                    &&& self.inner().reads(
                        *store,
                        old(buf)@.len(),
                        offset,
                        Ok(final(buf)@.take(n as int)),
                    )
                    &&& final(buf)@.skip(n as int) == old(buf)@.skip(n as int)
                },
                Err(e) => self.inner().reads(*store, old(buf)@.len(), offset, Err(e@)),
            },
    {
        self.file.read_at(store, buf, offset)
    }

    pub fn size<S>(&self, store: &S) -> (r: Result<u64, VfsError>) where F: VfsFile<S>
        ensures
            match r {
                Ok(n) => self.inner().sizes(*store, Ok(n)),
                Err(e) => self.inner().sizes(*store, Err(e@)),
            },
    {
        self.file.size(store)
    }

    pub fn write_at<S>(&self, store: &mut S, buf: &Vec<u8>, offset: u64) -> (r: Result<
        (),
        VfsError,
    >) where F: VfsFile<S>
        ensures
            self.inner().writes(*old(store), buf@, offset, *final(store), unit_seen(r)),
    {
        self.file.write_at(store, buf, offset)
    }

    pub fn truncate<S>(&self, store: &mut S, len: u64) -> (r: Result<(), VfsError>) where
        F: VfsFile<S>,

        ensures
            self.inner().truncates(*old(store), len, *final(store), unit_seen(r)),
    {
        self.file.truncate(store, len)
    }

    pub fn sync<S>(&self, store: &mut S) -> (r: Result<(), VfsError>) where F: VfsFile<S>
        ensures
            self.inner().syncs(*old(store), *final(store), unit_seen(r)),
    {
        self.file.sync(store)
    }
}

/// A file system, for a long-lived struct that holds the one it was opened with.
pub struct AnyVfs<V> {
    vfs: V,
}

impl<V: Vfs> AnyVfs<V> {
    /// The file system inside.
    pub closed spec fn inner(&self) -> V {
        self.vfs
    }

    pub fn new(vfs: V) -> (r: Self)
        ensures
            r.inner() == vfs,
    {
        AnyVfs { vfs }
    }

    pub fn file_exists(&self, path: &str) -> (r: Result<bool, VfsError>)
        ensures
            match r {
                Ok(b) => self.inner().existence(path@, Ok(b)),
                Err(e) => self.inner().existence(path@, Err(e@)),
            },
    {
        self.vfs.file_exists(path)
    }

    pub fn open_read(&self, path: &str) -> (r: Result<AnyVfsFile<V::File>, VfsError>)
        ensures
            self.inner().opens(path@, false, inner_seen(r)),
    {
        match self.vfs.open_read(path) {
            Ok(f) => Ok(AnyVfsFile::new(f)),
            Err(e) => Err(e),
        }
    }

    pub fn open_write(&self, path: &str) -> (r: Result<AnyVfsFile<V::File>, VfsError>)
        ensures
            self.inner().opens(path@, true, inner_seen(r)),
    {
        match self.vfs.open_write(path) {
            Ok(f) => Ok(AnyVfsFile::new(f)),
            Err(e) => Err(e),
        }
    }

    pub fn create_or_open_write(&mut self, store: &mut V::Store, path: &str) -> (r: Result<
        AnyVfsFile<V::File>,
        VfsError,
    >)
        ensures
            old(self).inner().creates(
                *old(store),
                path@,
                final(self).inner(),
                *final(store),
                inner_seen(r),
            ),
    {
        match self.vfs.create_or_open_write(store, path) {
            Ok(f) => Ok(AnyVfsFile::new(f)),
            Err(e) => Err(e),
        }
    }

    pub fn delete(&mut self, path: &str) -> (r: Result<(), VfsError>)
        ensures
            old(self).inner().deletes(path@, final(self).inner(), unit_seen(r)),
    {
        self.vfs.delete(path)
    }
}

/// How opening a file ended.
pub open spec fn inner_seen<F>(r: Result<AnyVfsFile<F>, VfsError>) -> Result<F, VfsErrorView> {
    match r {
        Ok(f) => Ok(f.inner()),
        Err(e) => Err(e@),
    }
}

/// A companion's path names the file it belongs to and nothing else does: companions of
/// different files differ, and so do the companions of one file.
pub proof fn law_companions_differ(
    path: Seq<char>,
    suffix: Seq<char>,
    other_path: Seq<char>,
    other_suffix: Seq<char>,
)
    ensures
        path != other_path ==> path + suffix != other_path + suffix,
        suffix != other_suffix ==> path + suffix != path + other_suffix,
{
    let a = path + suffix;
    if path + suffix == other_path + suffix {
        assert((path + suffix).len() == (other_path + suffix).len());
        assert(path =~= a.take(path.len() as int));
        assert(other_path =~= (other_path + suffix).take(path.len() as int));
    }
    if path + suffix == path + other_suffix {
        assert(suffix =~= a.skip(path.len() as int));
        assert(other_suffix =~= (path + other_suffix).skip(path.len() as int));
    }
}

/// Whatever the file, as long as it keeps to what it holds: giving it a length gives it exactly
/// that length. The bytes below it stay, what is added is zero, and that is the size that is
/// given from then on.
pub proof fn law_every_file_is_truncated<S, F: FileLaws<S>>(
    f: F,
    before: S,
    len: u64,
    after: S,
    k: int,
    size: u64,
)
    requires
        f.bytes(before) is Some,
        f.truncates(before, len, after, Ok(())),
        f.sizes(after, Ok(size)),
    ensures
        size == len,
        f.bytes(after) is Some,
        f.bytes(after)->0.len() == len,
        0 <= k < len && k < f.bytes(before)->0.len() ==> f.bytes(after)->0[k] == f.bytes(
            before,
        )->0[k],
        f.bytes(before)->0.len() <= k < len ==> f.bytes(after)->0[k] == 0,
{
    f.lemma_truncated(before, len, after);
    f.lemma_size(after, size);
}

/// Whatever the file system, as long as it keeps to what it lists: removing a missing file
/// succeeds, a file that was removed does not exist, removing it again succeeds, and no other
/// path comes or goes.
pub proof fn law_every_file_is_deleted<V: VfsLaws>(
    v: V,
    path: Seq<char>,
    after: V,
    r: Result<(), VfsErrorView>,
    again: V,
    second: Result<(), VfsErrorView>,
    there: bool,
    other: Seq<char>,
)
    requires
        v.deletes(path, after, r),
        after.deletes(path, again, second),
        after.existence(path, Ok(there)),
    ensures
        !v.lists(path) ==> r is Ok,
        r is Ok ==> !there && second is Ok,
        !v.same_path(path, other) ==> after.lists(other) == v.lists(other),
        r is Ok ==> again.lists(other) == after.lists(other),
{
    v.lemma_deleted(path, after, r, other);
    after.lemma_deleted(path, again, second, other);
    after.lemma_existence(path, there);
}

} // verus!
