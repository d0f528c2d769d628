//! In-memory file system.
use crate::text;
use crate::vfs::file;
use crate::vfs::file::{
    FileLaws, FileLock, Vfs, VfsError, VfsErrorView, VfsFile, VfsLaws,
};
use vstd::prelude::*;

verus! {

/// The bytes that reading `len` bytes at `offset` gives: fewer at the end, none beyond it.
pub open spec fn bytes_at(data: Seq<u8>, len: nat, offset: nat) -> Seq<u8> {
    if offset >= data.len() {
        Seq::empty()
    } else if offset + len <= data.len() {
        data.subrange(offset as int, (offset + len) as int)
    } else {
        data.subrange(offset as int, data.len() as int)
    }
}

/// The data with `bytes` written at `offset`, extended with zeros up to it.
pub open spec fn with_bytes(data: Seq<u8>, bytes: Seq<u8>, offset: nat) -> Seq<u8> {
    Seq::new(
        if offset + bytes.len() > data.len() {
            offset + bytes.len()
        } else {
            data.len()
        },
        |i: int|
            if offset <= i < offset + bytes.len() {
                bytes[i - offset]
            } else if i < data.len() {
                data[i]
            } else {
                0
            },
    )
}

/// The data cut, or extended with zeros, to the length `len`.
pub open spec fn resized(data: Seq<u8>, len: nat) -> Seq<u8> {
    Seq::new(
        len,
        |i: int|
            if i < data.len() {
                data[i]
            } else {
                0
            },
    )
}

// ---- paths ----------------------------------------------------------------------------

/// The part of a path from `begin` to `end`, as a list: nothing where it is empty, or `.`
/// anywhere but at the beginning.
pub open spec fn kept_part(path: Seq<char>, begin: int, end: int) -> Seq<Seq<char>> {
    let part = path.subrange(begin, end);
    if part.len() == 0 || (part == seq!['.'] && begin > 0) {
        seq![]
    } else {
        seq![part]
    }
}

/// The parts of a path between its slashes, where the current one began at `begin` and the
/// characters up to `i` have been looked at.
pub open spec fn parts_from(path: Seq<char>, begin: int, i: int) -> Seq<Seq<char>>
    decreases path.len() - i,
{
    if i < 0 || i >= path.len() {
        kept_part(path, begin, path.len() as int)
    } else if path[i] == '/' {
        kept_part(path, begin, i) + parts_from(path, i + 1, i + 1)
    } else {
        parts_from(path, begin, i + 1)
    }
}

/// The components of a path: the root, where it begins with a slash, and the parts between
/// its slashes. Repeated and trailing slashes make no component, nor does a `.` that does
/// not stand at the beginning.
pub open spec fn components(path: Seq<char>) -> Seq<Seq<char>> {
    (if path.len() > 0 && path[0] == '/' {
        seq![seq!['/']]
    } else {
        seq![]
    }) + parts_from(path, 0, 0)
}

/// The components of a stored path.
pub open spec fn part_views(v: Seq<Vec<char>>) -> Seq<Seq<char>> {
    v.map_values(|c: Vec<char>| c@)
}

fn push_part(parts: &mut Vec<Vec<char>>, path: &Vec<char>, begin: usize, end: usize)
    requires
        begin <= end <= path.len(),
    ensures
        part_views(final(parts)@) == part_views(old(parts)@) + kept_part(
            path@,
            begin as int,
            end as int,
        ),
{
    let mut part: Vec<char> = Vec::new();
    let mut i: usize = begin;
    while i < end
        invariant
            begin <= i <= end <= path.len(),
            part@ == path@.subrange(begin as int, i as int),
        decreases end - i,
    {
        part.push(path[i]);
        i = i + 1;
        assert(part@ =~= path@.subrange(begin as int, i as int));
    }
    let dot = part.len() == 1 && part[0] == '.' && begin > 0;
    assert(dot == (part@ == seq!['.'] && begin > 0)) by {
        if dot {
            assert(part@ =~= seq!['.']);
        }
    }
    if part.len() > 0 && !dot {
        parts.push(part);
    }
    assert(part_views(parts@) =~= part_views(old(parts)@) + kept_part(
        path@,
        begin as int,
        end as int,
    ));
}

/// The components of `path`.
fn split_path(path: &str) -> (parts: Vec<Vec<char>>)
    ensures
        part_views(parts@) == components(path@),
{
    let chars = text::chars_of(path);
    let mut parts: Vec<Vec<char>> = Vec::new();
    if chars.len() > 0 && chars[0] == '/' {
        let mut root: Vec<char> = Vec::new();
        root.push('/');
        assert(root@ =~= seq!['/']);
        parts.push(root);
        assert(part_views(parts@) =~= seq![seq!['/']]);
    } else {
        assert(part_views(parts@) =~= seq![]);
    }
    let ghost root = part_views(parts@);
    let mut begin: usize = 0;
    let mut i: usize = 0;
    assert(components(path@) =~= root + parts_from(path@, 0, 0));
    while i < chars.len()
        invariant
            begin <= i <= chars.len(),
            chars@ == path@,
            components(path@) == part_views(parts@) + parts_from(
                path@,
                begin as int,
                i as int,
            ),
        decreases chars.len() - i,
    {
        if chars[i] == '/' {
            let ghost before = part_views(parts@);
            push_part(&mut parts, &chars, begin, i);
            assert(before + (kept_part(path@, begin as int, i as int) + parts_from(
                path@,
                i + 1,
                i + 1,
            )) =~= part_views(parts@) + parts_from(path@, i + 1, i + 1));
            begin = i + 1;
        }
        i = i + 1;
    }
    push_part(&mut parts, &chars, begin, i);
    parts
}

fn same_parts(a: &Vec<Vec<char>>, b: &Vec<Vec<char>>) -> (r: bool)
    ensures
        r == (part_views(a@) == part_views(b@)),
{
    assert(part_views(a@).len() == a@.len());
    assert(part_views(b@).len() == b@.len());
    if a.len() != b.len() {
        return false;
    }
    let mut i: usize = 0;
    while i < a.len()
        invariant
            i <= a.len(),
            a.len() == b.len(),
            forall|k: int| 0 <= k < i ==> (#[trigger] a@[k])@ == b@[k]@,
        decreases a.len() - i,
    {
        if !same_chars(&a[i], &b[i]) {
            assert(part_views(a@)[i as int] != part_views(b@)[i as int]);
            return false;
        }
        i = i + 1;
    }
    assert(part_views(a@) =~= part_views(b@));
    true
}

fn copy_parts(parts: &Vec<Vec<char>>) -> (r: Vec<Vec<char>>)
    ensures
        part_views(r@) == part_views(parts@),
{
    let mut r: Vec<Vec<char>> = Vec::new();
    let mut i: usize = 0;
    while i < parts.len()
        invariant
            i <= parts@.len(),
            r@.len() == i,
            forall|k: int| 0 <= k < i ==> (#[trigger] r@[k])@ == parts@[k]@,
        decreases parts.len() - i,
    {
        let copy = parts[i].clone();
        assert(copy@ =~= parts@[i as int]@);
        r.push(copy);
        i = i + 1;
    }
    assert(part_views(r@) =~= part_views(parts@));
    r
}

fn same_chars(a: &Vec<char>, b: &Vec<char>) -> (r: bool)
    ensures
        r == (a@ == b@),
{
    if a.len() != b.len() {
        return false;
    }
    let mut i: usize = 0;
    while i < a.len()
        invariant
            i <= a.len(),
            a.len() == b.len(),
            forall|k: int| 0 <= k < i ==> a@[k] == b@[k],
        decreases a.len() - i,
    {
        if a[i] != b[i] {
            return false;
        }
        i = i + 1;
    }
    assert(a@ =~= b@);
    true
}

// ---- the file system --------------------------------------------------------------------

/// An in-memory [`Vfs`]: paths, and the files in a [`MemoryFiles`] that they name. Paths are
/// compared by their components. A file that is deleted or replaced keeps its contents for the
/// handles that are open on it. A clone lists the same files: what is written to one of them is
/// seen through both, and what is listed later is listed in one alone.
#[derive(Debug)]
pub struct MemoryVfs {
    names: Vec<(Vec<Vec<char>>, usize)>,
}

/// The memory that files stand in, each by its number. The handles of a file system, and of
/// its clones, go to one such memory.
#[derive(Debug)]
pub struct MemoryFiles {
    contents: Vec<Vec<u8>>,
}

/// Whether every listed file is there.
pub open spec fn all_there(names: Map<Seq<Seq<char>>, nat>, files: Seq<Seq<u8>>) -> bool {
    forall|p: Seq<Seq<char>>| #[trigger] names.contains_key(p) ==> names[p] < files.len()
}

impl MemoryFiles {
    pub closed spec fn view(&self) -> Seq<Seq<u8>> {
        self.contents@.map_values(|c: Vec<u8>| c@)
    }

    /// A memory without files.
    pub fn new() -> (r: Self)
        ensures
            r@ == Seq::<Seq<u8>>::empty(),
    {
        let r = MemoryFiles { contents: Vec::new() };
        assert(r@ =~= Seq::empty());
        r
    }

    /// Puts a file behind the others, and gives its number.
    fn put(&mut self, contents: Vec<u8>) -> (number: usize)
        ensures
            number == old(self)@.len(),
            final(self)@ == old(self)@.push(contents@),
            final(self)@.len() <= usize::MAX,
    {
        let ghost bytes = contents@;
        let number: usize = self.contents.len();
        self.contents.push(contents);
        assert(self@ =~= old(self)@.push(bytes));
        assert(self.contents@.len() == self.contents.len());
        number
    }
}

impl Default for MemoryFiles {
    /// A memory without files.
    fn default() -> (r: Self)
        ensures
            r@ == Seq::<Seq<u8>>::empty(),
    {
        Self::new()
    }
}

/// The first entry for a path, from the `k`th on.
pub open spec fn entry_from(names: Seq<(Vec<Vec<char>>, usize)>, path: Seq<Seq<char>>, k: int)
    -> Option<int>
    decreases names.len() - k,
{
    if k < 0 || k >= names.len() {
        None
    } else if part_views(names[k].0@) == path {
        Some(k)
    } else {
        entry_from(names, path, k + 1)
    }
}

proof fn lemma_entry(names: Seq<(Vec<Vec<char>>, usize)>, path: Seq<Seq<char>>, k: int)
    requires
        0 <= k,
    ensures
        match entry_from(names, path, k) {
            Some(i) => k <= i < names.len() && part_views(names[i].0@) == path,
            None => forall|i: int| k <= i < names.len() ==>
                part_views((#[trigger] names[i]).0@) != path,
        },
    decreases names.len() - k,
{
    if k < names.len() && part_views(names[k].0@) != path {
        lemma_entry(names, path, k + 1);
    }
}

/// The number of the file listed under a path.
spec fn number_of(names: Seq<(Vec<Vec<char>>, usize)>, path: Seq<Seq<char>>) -> Option<usize> {
    match entry_from(names, path, 0) {
        Some(k) => Some(names[k].1),
        None => None,
    }
}

/// Where the path is listed.
fn find(names: &Vec<(Vec<Vec<char>>, usize)>, path: &str) -> (r: Option<usize>)
    ensures
        match r {
            Some(i) => entry_from(names@, components(path@), 0) == Some(i as int) && i
                < names@.len(),
            None => entry_from(names@, components(path@), 0) is None,
        },
{
    let wanted = split_path(path);
    let ghost key = components(path@);
    let mut i: usize = 0;
    while i < names.len()
        invariant
            i <= names@.len(),
            part_views(wanted@) == key,
            key == components(path@),
            entry_from(names@, key, i as int) == entry_from(names@, key, 0),
        decreases names.len() - i,
    {
        if same_parts(&names[i].0, &wanted) {
            return Some(i);
        }
        i = i + 1;
    }
    None
}

impl Clone for MemoryVfs {
    fn clone(&self) -> (r: Self)
        ensures
            r@ == self@,
    {
        let mut names: Vec<(Vec<Vec<char>>, usize)> = Vec::new();
        let mut i: usize = 0;
        while i < self.names.len()
            invariant
                i <= self.names@.len(),
                names@.len() == i,
                forall|k: int|
                    0 <= k < i ==> part_views((#[trigger] names@[k]).0@) == part_views(
                        self.names@[k].0@,
                    ) && names@[k].1 == self.names@[k].1,
            decreases self.names.len() - i,
        {
            names.push((copy_parts(&self.names[i].0), self.names[i].1));
            i = i + 1;
        }
        assert forall|p: Seq<Seq<char>>| #[trigger] number_of(names@, p) == number_of(
            self.names@,
            p,
        ) by {
            lemma_same_entries(self.names@, names@, p, 0);
            lemma_entry(self.names@, p, 0);
        }
        let r = MemoryVfs { names };
        proof {
            r.lemma_listed();
            self.lemma_listed();
            assert(r@ =~= self@);
        }
        r
    }
}

impl MemoryVfs {
    /// The number of the file at each path, given by its components.
    pub closed spec fn view(&self) -> Map<Seq<Seq<char>>, nat> {
        Map::new(
            |p: Seq<Seq<char>>| entry_from(self.names@, p, 0) is Some,
            |p: Seq<Seq<char>>| self.names@[entry_from(self.names@, p, 0)->0].1 as nat,
        )
    }

    proof fn lemma_listed(&self)
        ensures
            forall|p: Seq<Seq<char>>| #[trigger]
                self@.contains_key(p) == (number_of(self.names@, p) is Some),
            forall|p: Seq<Seq<char>>| #[trigger]
                self@.contains_key(p) ==> self@[p] == number_of(self.names@, p)->0,
    {
    }

    /// A file system without files.
    pub fn new() -> (r: Self)
        ensures
            r@ == Map::<Seq<Seq<char>>, nat>::empty(),
    {
        let r = MemoryVfs { names: Vec::new() };
        assert(r@ =~= Map::empty());
        r
    }

    /// Binds `path` to the file with this number.
    fn bind(&mut self, path: &str, number: usize)
        ensures
            final(self)@ == old(self)@.insert(components(path@), number as nat),
    {
        let ghost key = components(path@);
        let ghost before = self.names@;
        let place = find(&self.names, path);
        proof {
            lemma_entry(before, key, 0);
        }
        let entry = (split_path(path), number);
        match place {
            Some(i) => {
                self.names.set(i, entry);
                assert forall|p: Seq<Seq<char>>| #[trigger]
                    entry_from(self.names@, p, 0) == entry_from(before, p, 0) by {
                    lemma_same_entries(before, self.names@, p, 0);
                }
            },
            None => {
                self.names.push(entry);
                assert forall|p: Seq<Seq<char>>| #[trigger]
                    entry_from(self.names@, p, 0) == (if p == key {
                        Some(before.len() as int)
                    } else {
                        entry_from(before, p, 0)
                    }) by {
                    lemma_pushed_entry(before, self.names@.last(), p, 0);
                    assert(self.names@ =~= before.push(self.names@.last()));
                }
            },
        }
        assert forall|p: Seq<Seq<char>>| p != key && entry_from(before, p, 0) is Some implies
            #[trigger] self.names@[entry_from(before, p, 0)->0].1 == before[entry_from(
            before,
            p,
            0,
        )->0].1 by {
            lemma_entry(before, p, 0);
        }
        assert(self@ =~= old(self)@.insert(key, number as nat));
    }

    /// Registers a file's contents under `path`.
    pub fn insert(&mut self, files: &mut MemoryFiles, path: &str, contents: Vec<u8>)
        ensures
            final(self)@ == with_name(old(self)@, path@, old(files)@.len()),
            final(files)@ == old(files)@.push(contents@),
            final(files)@.len() <= usize::MAX,
    {
        let number = files.put(contents);
        self.bind(path, number);
    }

    fn handle(&self, path: &str) -> (r: Result<MemoryVfsFile, VfsError>)
        ensures
            file::file_seen(r) == opened(self@, path@),
    {
        proof {
            lemma_entry(self.names@, components(path@), 0);
        }
        match find(&self.names, path) {
            Some(i) => Ok(MemoryVfsFile { number: self.names[i].1 }),
            None => Err(VfsError::NotFound { path: path.to_owned() }),
        }
    }
}

/// The paths with one more, or one that names another file.
pub open spec fn with_name(
    names: Map<Seq<Seq<char>>, nat>,
    path: Seq<char>,
    number: nat,
) -> Map<Seq<Seq<char>>, nat> {
    names.insert(components(path), number)
}

/// The paths without one.
pub open spec fn without_name(names: Map<Seq<Seq<char>>, nat>, path: Seq<char>) -> Map<
    Seq<Seq<char>>,
    nat,
> {
    names.remove(components(path))
}

proof fn lemma_same_entries(
    a: Seq<(Vec<Vec<char>>, usize)>,
    b: Seq<(Vec<Vec<char>>, usize)>,
    path: Seq<Seq<char>>,
    k: int,
)
    requires
        a.len() == b.len(),
        forall|i: int| 0 <= i < a.len() ==> part_views((#[trigger] a[i]).0@) == part_views(b[i].0@),
    ensures
        entry_from(a, path, k) == entry_from(b, path, k),
    decreases a.len() - k,
{
    if 0 <= k < a.len() {
        assert(part_views(a[k].0@) == part_views(b[k].0@));
        lemma_same_entries(a, b, path, k + 1);
    }
}

proof fn lemma_pushed_entry(
    names: Seq<(Vec<Vec<char>>, usize)>,
    entry: (Vec<Vec<char>>, usize),
    path: Seq<Seq<char>>,
    k: int,
)
    requires
        0 <= k <= names.len(),
    ensures
        entry_from(names.push(entry), path, k) == (match entry_from(names, path, k) {
            Some(i) => Some(i),
            None => if part_views(entry.0@) == path {
                Some(names.len() as int)
            } else {
                None
            },
        }),
    decreases names.len() - k,
{
    if k < names.len() {
        assert(names.push(entry)[k] == names[k]);
        lemma_pushed_entry(names, entry, path, k + 1);
    } else {
        assert(names.push(entry)[k] == entry);
        assert(entry_from(names.push(entry), path, k + 1) is None);
    }
}

/// The file at a path, or the error for a missing one.
pub open spec fn opened(names: Map<Seq<Seq<char>>, nat>, path: Seq<char>) -> Result<
    MemoryVfsFile,
    VfsErrorView,
> {
    if names.contains_key(components(path)) {
        Ok(MemoryVfsFile { number: names[components(path)] as usize })
    } else {
        Err(VfsErrorView::NotFound { path })
    }
}

impl Default for MemoryVfs {
    /// A file system without files.
    fn default() -> (r: Self)
        ensures
            r@ == Map::<Seq<Seq<char>>, nat>::empty(),
    {
        Self::new()
    }
}

/// A file of a [`MemoryFiles`], by its number.
#[derive(Debug, Clone, Copy, PartialEq, Eq, Structural)]
pub struct MemoryVfsFile {
    pub number: usize,
}

/// The in-memory file system has no real file descriptor to lock.
#[derive(Debug, Clone, Copy, PartialEq, Eq, Structural)]
pub struct NoopLock;

/// The error for a handle on a file of another memory.
pub open spec fn foreign() -> VfsErrorView {
    VfsErrorView::Io { path: "<memory>"@, reason: "no such in-memory file"@ }
}

/// The error for a file that would not fit into memory.
pub open spec fn too_large() -> VfsErrorView {
    VfsErrorView::Io { path: "<memory>"@, reason: "file too large for memory"@ }
}

fn foreign_error() -> (e: VfsError)
    ensures
        e@ == foreign(),
{
    VfsError::Io { path: "<memory>".to_owned(), reason: "no such in-memory file".to_owned() }
}

fn too_large_error() -> (e: VfsError)
    ensures
        e@ == too_large(),
{
    VfsError::Io { path: "<memory>".to_owned(), reason: "file too large for memory".to_owned() }
}

/// What reading gives.
pub open spec fn read_result(files: Seq<Seq<u8>>, number: nat, len: nat, offset: nat) -> Result<
    Seq<u8>,
    VfsErrorView,
> {
    if number < files.len() {
        Ok(bytes_at(files[number as int], len, offset))
    } else {
        Err(foreign())
    }
}

/// What writing makes of the files, and how it ends.
pub open spec fn write_result(files: Seq<Seq<u8>>, number: nat, bytes: Seq<u8>, offset: nat) -> (
    Seq<Seq<u8>>,
    Result<(), VfsErrorView>,
) {
    if number >= files.len() {
        (files, Err(foreign()))
    } else if offset + bytes.len() > usize::MAX {
        (files, Err(too_large()))
    } else {
        (files.update(number as int, with_bytes(files[number as int], bytes, offset)), Ok(()))
    }
}

/// What giving a file another length makes of the files, and how it ends.
pub open spec fn truncate_result(files: Seq<Seq<u8>>, number: nat, len: nat) -> (
    Seq<Seq<u8>>,
    Result<(), VfsErrorView>,
) {
    if number >= files.len() {
        (files, Err(foreign()))
    } else if len > usize::MAX {
        (files, Err(too_large()))
    } else {
        (files.update(number as int, resized(files[number as int], len)), Ok(()))
    }
}

fn resize(data: &mut Vec<u8>, len: usize)
    ensures
        final(data)@ == resized(old(data)@, len as nat),
{
    let ghost before = data@;
    if data.len() > len {
        data.truncate(len);
        assert(data@ =~= resized(before, len as nat));
        return;
    }
    while data.len() < len
        invariant
            data@.len() <= len,
            before.len() <= data@.len(),
            data@ == resized(before, data@.len()),
        decreases len - data.len(),
    {
        data.push(0);
        assert(data@ =~= resized(before, data@.len()));
    }
    assert(data@ =~= resized(before, len as nat));
}

impl VfsFile<MemoryFiles> for MemoryVfsFile {
    type Guard = NoopLock;

    open spec fn reads(
        &self,
        store: MemoryFiles,
        len: nat,
        offset: u64,
        r: Result<Seq<u8>, VfsErrorView>,
    ) -> bool {
        r == read_result(store@, self.number as nat, len, offset as nat)
    }

    open spec fn sizes(&self, store: MemoryFiles, r: Result<u64, VfsErrorView>) -> bool {
        r == (if self.number < store@.len() {
            Ok::<u64, VfsErrorView>(store@[self.number as int].len() as u64)
        } else {
            Err(foreign())
        })
    }

    open spec fn writes(
        &self,
        before: MemoryFiles,
        bytes: Seq<u8>,
        offset: u64,
        after: MemoryFiles,
        r: Result<(), VfsErrorView>,
    ) -> bool {
        (after@, r) == write_result(before@, self.number as nat, bytes, offset as nat)
    }

    open spec fn truncates(
        &self,
        before: MemoryFiles,
        len: u64,
        after: MemoryFiles,
        r: Result<(), VfsErrorView>,
    ) -> bool {
        (after@, r) == truncate_result(before@, self.number as nat, len as nat)
    }

    open spec fn syncs(
        &self,
        before: MemoryFiles,
        after: MemoryFiles,
        r: Result<(), VfsErrorView>,
    ) -> bool {
        after@ == before@ && r == Ok::<(), VfsErrorView>(())
    }

    /// Nobody else can hold a file in memory, so the lock is always given.
    open spec fn locks(&self, store: MemoryFiles, r: Result<FileLock<NoopLock>, VfsErrorView>)
        -> bool {
        r is Ok
    }

    fn read_at(&self, store: &MemoryFiles, buf: &mut Vec<u8>, offset: u64) -> (r: Result<
        usize,
        VfsError,
    >) {
        assert(store@.len() == store.contents@.len());
        if self.number >= store.contents.len() {
            return Err(foreign_error());
        }
        let data = &store.contents[self.number];
        let size: usize = data.len();
        let len: usize = buf.len();
        let ghost before = buf@;
        assert(store@[self.number as int] == data@);
        if offset >= size as u64 {
            assert(buf@.take(0) =~= bytes_at(data@, len as nat, offset as nat));
            return Ok(0);
        }
        let from: usize = offset as usize;
        let n: usize = if len < size - from {
            len
        } else {
            size - from
        };
        let mut i: usize = 0;
        while i < n
            invariant
                i <= n <= len,
                from + n <= size,
                size == data@.len(),
                len == buf@.len(),
                before.len() == len,
                forall|k: int| 0 <= k < i ==> #[trigger] buf@[k] == data@[from + k],
                forall|k: int| i <= k < len ==> #[trigger] buf@[k] == before[k],
            decreases n - i,
        {
            buf.set(i, data[from + i]);
            i = i + 1;
        }
        assert(buf@.take(n as int) =~= bytes_at(data@, len as nat, offset as nat));
        assert(buf@.skip(n as int) =~= before.skip(n as int));
        Ok(n)
    }

    fn size(&self, store: &MemoryFiles) -> (r: Result<u64, VfsError>) {
        assert(store@.len() == store.contents@.len());
        if self.number >= store.contents.len() {
            return Err(foreign_error());
        }
        Ok(store.contents[self.number].len() as u64)
    }

    fn lock_shared(&self, store: &MemoryFiles) -> (r: Result<FileLock<NoopLock>, VfsError>) {
        Ok(FileLock::new(NoopLock))
    }

    fn write_at(&self, store: &mut MemoryFiles, buf: &Vec<u8>, offset: u64) -> (r: Result<
        (),
        VfsError,
    >) {
        assert(store@.len() == store.contents@.len());
        if self.number >= store.contents.len() {
            return Err(foreign_error());
        }
        let len: usize = buf.len();
        if offset > usize::MAX as u64 || offset as usize > usize::MAX - len {
            return Err(too_large_error());
        }
        let from: usize = offset as usize;
        let end: usize = from + len;
        let ghost m = store@;
        let ghost data = m[self.number as int];
        let file = &mut store.contents[self.number];
        if file.len() < end {
            resize(file, end);
        }
        let ghost grown = file@;
        let mut i: usize = 0;
        while i < len
            invariant
                i <= len,
                len == buf@.len(),
                from + len == end,
                end <= grown.len(),
                file@.len() == grown.len(),
                forall|k: int| 0 <= k < i ==> #[trigger] file@[from + k] == buf@[k],
                forall|k: int|
                    0 <= k < grown.len() && !(from <= k < from + i) ==> #[trigger] file@[k]
                        == grown[k],
            decreases len - i,
        {
            file.set(from + i, buf[i]);
            i = i + 1;
        }
        assert forall|k: int| 0 <= k < file@.len() implies #[trigger] file@[k] == with_bytes(
            data,
            buf@,
            offset as nat,
        )[k] by {
            if from <= k < end {
                assert(file@[from + (k - from)] == buf@[k - from]);
            }
        }
        assert(file@ =~= with_bytes(data, buf@, offset as nat));
        assert(store@ =~= m.update(
            self.number as int,
            with_bytes(data, buf@, offset as nat),
        ));
        Ok(())
    }

    fn truncate(&self, store: &mut MemoryFiles, len: u64) -> (r: Result<(), VfsError>) {
        assert(store@.len() == store.contents@.len());
        if self.number >= store.contents.len() {
            return Err(foreign_error());
        }
        if len > usize::MAX as u64 {
            return Err(too_large_error());
        }
        let ghost m = store@;
        let file = &mut store.contents[self.number];
        resize(file, len as usize);
        assert(store@ =~= m.update(
            self.number as int,
            resized(m[self.number as int], len as nat),
        ));
        Ok(())
    }

    fn sync(&self, store: &mut MemoryFiles) -> (r: Result<(), VfsError>) {
        Ok(())
    }
}

impl Vfs for MemoryVfs {
    type Store = MemoryFiles;

    type File = MemoryVfsFile;

    type WalGuard = NoopLock;

    open spec fn opens(
        &self,
        path: Seq<char>,
        writing: bool,
        r: Result<MemoryVfsFile, VfsErrorView>,
    ) -> bool {
        r == opened(self@, path)
    }

    open spec fn existence(&self, path: Seq<char>, r: Result<bool, VfsErrorView>) -> bool {
        r == Ok::<bool, VfsErrorView>(self@.contains_key(components(path)))
    }

    open spec fn creates(
        &self,
        before: MemoryFiles,
        path: Seq<char>,
        after: MemoryVfs,
        left: MemoryFiles,
        r: Result<MemoryVfsFile, VfsErrorView>,
    ) -> bool {
        if self@.contains_key(components(path)) {
            after@ == self@ && left@ == before@ && r == opened(self@, path)
        } else {
            &&& after@ == with_name(self@, path, before@.len())
            &&& left@ == before@.push(Seq::empty())
            &&& left@.len() <= usize::MAX
            &&& r == Ok::<MemoryVfsFile, VfsErrorView>(
                MemoryVfsFile { number: before@.len() as usize },
            )
        }
    }

    open spec fn deletes(
        &self,
        path: Seq<char>,
        after: MemoryVfs,
        r: Result<(), VfsErrorView>,
    ) -> bool {
        after@ == without_name(self@, path) && r == Ok::<(), VfsErrorView>(())
    }

    /// Files in memory have no reader marks.
    open spec fn claims(
        &self,
        path: Seq<char>,
        r: Result<Option<FileLock<NoopLock>>, VfsErrorView>,
    ) -> bool {
        r == Ok::<Option<FileLock<NoopLock>>, VfsErrorView>(None)
    }

    fn open_read(&self, path: &str) -> (r: Result<MemoryVfsFile, VfsError>) {
        self.handle(path)
    }

    fn open_write(&self, path: &str) -> (r: Result<MemoryVfsFile, VfsError>) {
        self.handle(path)
    }

    fn file_exists(&self, path: &str) -> (r: Result<bool, VfsError>) {
        Ok(find(&self.names, path).is_some())
    }

    fn create_or_open_write(&mut self, store: &mut MemoryFiles, path: &str) -> (r: Result<
        MemoryVfsFile,
        VfsError,
    >) {
        if find(&self.names, path).is_some() {
            return self.handle(path);
        }
        let empty: Vec<u8> = Vec::new();
        assert(empty@ =~= Seq::empty());
        let number: usize = store.put(empty);
        self.bind(path, number);
        Ok(MemoryVfsFile { number })
    }

    fn delete(&mut self, path: &str) -> (r: Result<(), VfsError>) {
        let ghost m = self@;
        let ghost key = components(path@);
        let ghost before = self.names@;
        let mut place = find(&self.names, path);
        while place.is_some()
            invariant
                key == components(path@),
                match place {
                    Some(i) => entry_from(self.names@, key, 0) == Some(i as int) && i
                        < self.names@.len(),
                    None => entry_from(self.names@, key, 0) is None,
                },
                forall|p: Seq<Seq<char>>|
                    p != key ==> #[trigger] number_of(self.names@, p) == number_of(before, p),
            decreases self.names@.len(),
        {
            let i: usize = place.unwrap();
            let ghost all = self.names@;
            proof {
                lemma_entry(all, key, 0);
            }
            let _ = self.names.remove(i);
            assert(self.names@ =~= all.remove(i as int));
            assert forall|p: Seq<Seq<char>>| p != key implies #[trigger] number_of(self.names@, p)
                == number_of(before, p) by {
                lemma_removed_entry(all, i as int, p, 0);
                assert(number_of(all, p) == number_of(before, p));
            }
            place = find(&self.names, path);
        }
        assert forall|p: Seq<Seq<char>>| #[trigger] self@.contains_key(p) == m.remove(
            key,
        ).contains_key(p) by {
            assert(p != key ==> number_of(self.names@, p) == number_of(before, p));
        }
        assert forall|p: Seq<Seq<char>>| #[trigger] self@.contains_key(p) implies self@[p]
            == m.remove(key)[p] by {
            assert(p != key ==> number_of(self.names@, p) == number_of(before, p));
        }
        assert(self@ =~= m.remove(key));
        Ok(())
    }

    fn claim_wal_read_lock(&self, path: &str) -> (r: Result<
        Option<FileLock<NoopLock>>,
        VfsError,
    >) {
        Ok(None)
    }
}

impl FileLaws<MemoryFiles> for MemoryVfsFile {
    open spec fn bytes(&self, store: MemoryFiles) -> Option<Seq<u8>> {
        if self.number < store@.len() {
            Some(store@[self.number as int])
        } else {
            None
        }
    }

    proof fn lemma_size(&self, store: MemoryFiles, n: u64) {
    }

    proof fn lemma_truncated(&self, before: MemoryFiles, len: u64, after: MemoryFiles) {
    }
}

impl VfsLaws for MemoryVfs {
    open spec fn lists(&self, path: Seq<char>) -> bool {
        self@.contains_key(components(path))
    }

    open spec fn same_path(&self, a: Seq<char>, b: Seq<char>) -> bool {
        components(a) == components(b)
    }

    proof fn lemma_existence(&self, path: Seq<char>, b: bool) {
    }

    proof fn lemma_deleted(
        &self,
        path: Seq<char>,
        after: MemoryVfs,
        r: Result<(), VfsErrorView>,
        other: Seq<char>,
    ) {
    }
}

proof fn lemma_removed_entry(names: Seq<(Vec<Vec<char>>, usize)>, i: int, path: Seq<Seq<char>>,
    k: int)
    requires
        0 <= i < names.len(),
        part_views(names[i].0@) != path,
        0 <= k,
    ensures
        match entry_from(names, path, k) {
            None => entry_from(
                names.remove(i),
                path,
                if k <= i {
                    k
                } else {
                    k - 1
                },
            ) is None,
            Some(j) => entry_from(
                names.remove(i),
                path,
                if k <= i {
                    k
                } else {
                    k - 1
                },
            ) == Some(
                if j < i {
                    j
                } else {
                    j - 1
                },
            ) && 0 <= j < names.len() && j != i,
        },
    decreases names.len() - k,
{
    if k < names.len() {
        if k != i {
            let less = names.remove(i);
            if k < i {
                assert(less[k] == names[k]);
            } else {
                assert(less[k - 1] == names[k]);
            }
        }
        lemma_removed_entry(names, i, path, k + 1);
    }
}

// ---- laws ---------------------------------------------------------------------------

/// What was written is read back, and every other byte is as before: zero where the file was
/// too short.
pub proof fn law_read_after_write(data: Seq<u8>, bytes: Seq<u8>, offset: nat, k: int)
    ensures
        bytes_at(with_bytes(data, bytes, offset), bytes.len(), offset) == bytes,
        0 <= k < data.len() && !(offset <= k < offset + bytes.len()) ==> with_bytes(
            data,
            bytes,
            offset,
        )[k] == data[k],
        with_bytes(data, bytes, offset).len() >= data.len(),
{
    assert(bytes_at(with_bytes(data, bytes, offset), bytes.len(), offset) =~= bytes);
}

/// A write through one handle is what another handle on the same file reads, whichever file
/// system opened it.
pub proof fn law_writes_are_shared(
    files: Seq<Seq<u8>>,
    number: nat,
    bytes: Seq<u8>,
    offset: nat,
)
    requires
        number < files.len(),
        offset + bytes.len() <= usize::MAX,
    ensures
        write_result(files, number, bytes, offset).1 == Ok::<(), VfsErrorView>(()),
        read_result(write_result(files, number, bytes, offset).0, number, bytes.len(), offset)
            == Ok::<Seq<u8>, VfsErrorView>(bytes),
{
    law_read_after_write(files[number as int], bytes, offset, 0);
}

/// A clone shares its files with what it was cloned from: both open one path as the same file,
/// and go on to do so whatever is written. What is listed in one alone, and put behind the
/// files, changes neither the paths nor the files of the other.
pub proof fn law_clones_share_files(
    names: Map<Seq<Seq<char>>, nat>,
    clone: Map<Seq<Seq<char>>, nat>,
    files: Seq<Seq<u8>>,
    path: Seq<char>,
    bytes: Seq<u8>,
    offset: nat,
    added: Seq<u8>,
)
    requires
        clone == names,
        all_there(names, files),
        names.contains_key(components(path)),
        offset + bytes.len() <= usize::MAX,
    ensures
        opened(clone, path) == opened(names, path),
        ({
            let number = names[components(path)];
            let after = write_result(files, number, bytes, offset).0;
            read_result(after, clone[components(path)], bytes.len(), offset) == Ok::<
                Seq<u8>,
                VfsErrorView,
            >(bytes)
        }),
        files.push(added)[clone[components(path)] as int] == files[clone[components(path)] as int],
{
    law_writes_are_shared(files, names[components(path)], bytes, offset);
}

/// Nothing that is done to one file changes another.
pub proof fn law_files_are_apart(
    files: Seq<Seq<u8>>,
    number: nat,
    other: nat,
    bytes: Seq<u8>,
    offset: nat,
    len: nat,
)
    requires
        number != other,
        other < files.len(),
    ensures
        write_result(files, number, bytes, offset).0[other as int] == files[other as int],
        truncate_result(files, number, len).0[other as int] == files[other as int],
{
}

/// Every listed file is there, and whatever is done it stays so.
pub proof fn law_listed_files_are_there(
    names: Map<Seq<Seq<char>>, nat>,
    files: Seq<Seq<u8>>,
    path: Seq<char>,
    number: nat,
    bytes: Seq<u8>,
    offset: nat,
)
    requires
        all_there(names, files),
    ensures
        all_there(Map::empty(), Seq::empty()),
        all_there(with_name(names, path, files.len()), files.push(bytes)),
        all_there(without_name(names, path), files),
        all_there(names, write_result(files, number, bytes, offset).0),
        all_there(names, truncate_result(files, number, offset).0),
{
    let more = with_name(names, path, files.len());
    assert forall|p: Seq<Seq<char>>| #[trigger] more.contains_key(p) implies more[p] < files.push(
        bytes,
    ).len() by {
        if p != components(path) {
            assert(names.contains_key(p));
        }
    }
    let less = without_name(names, path);
    assert forall|p: Seq<Seq<char>>| #[trigger] less.contains_key(p) implies less[p]
        < files.len() by {
        assert(names.contains_key(p));
    }
}

/// Reading never gives more than was asked for, nor anything at or beyond the end.
pub proof fn law_reads_stay_inside(data: Seq<u8>, len: nat, offset: nat)
    ensures
        bytes_at(data, len, offset).len() <= len,
        offset >= data.len() ==> bytes_at(data, len, offset).len() == 0,
        offset + len <= data.len() ==> bytes_at(data, len, offset).len() == len,
{
}

/// A file that is registered is there with exactly its contents, a handle on it reads them and
/// sees what is written through any other, and every other path names what it named before,
/// with the contents it had.
pub proof fn law_insert_binds_one_path(
    names: Map<Seq<Seq<char>>, nat>,
    files: Seq<Seq<u8>>,
    path: Seq<char>,
    contents: Seq<u8>,
    other: Seq<char>,
)
    requires
        all_there(names, files),
    ensures
        ({
            let after = with_name(names, path, files.len());
            let now = files.push(contents);
            &&& after.contains_key(components(path))
            &&& read_result(now, after[components(path)], contents.len(), 0) == Ok::<
                Seq<u8>,
                VfsErrorView,
            >(contents)
            &&& components(other) != components(path) ==> {
                &&& after.contains_key(components(other)) == names.contains_key(components(other))
                &&& opened(after, other) == opened(names, other)
                &&& names.contains_key(components(other)) ==> now[names[components(other)] as int]
                    == files[names[components(other)] as int]
            }
        }),
{
    let now = files.push(contents);
    assert(bytes_at(contents, contents.len(), 0) =~= contents);
    if names.contains_key(components(other)) {
        assert(names[components(other)] < files.len());
    }
}

/// Paths with the same components name the same file.
pub proof fn law_paths_are_components(
    names: Map<Seq<Seq<char>>, nat>,
    path: Seq<char>,
    other: Seq<char>,
)
    requires
        components(path) == components(other),
    ensures
        names.contains_key(components(path)) == names.contains_key(components(other)),
        opened(names, path) is Ok ==> opened(names, other) == opened(names, path),
{
}

/// A file that is removed is gone, removing it again changes nothing, and no other path
/// changes.
pub proof fn law_delete_removes_one_path(
    names: Map<Seq<Seq<char>>, nat>,
    path: Seq<char>,
    other: Seq<char>,
)
    ensures
        !without_name(names, path).contains_key(components(path)),
        without_name(without_name(names, path), path) == without_name(names, path),
        !names.contains_key(components(path)) ==> without_name(names, path) == names,
        components(other) != components(path) ==> opened(without_name(names, path), other)
            == opened(names, other),
{
    let less = without_name(names, path);
    assert(without_name(less, path) =~= less);
    if !names.contains_key(components(path)) {
        assert(less =~= names);
    }
}

/// Giving a file a length gives it exactly that length: the bytes below it stay, and what is
/// added is zero.
pub proof fn law_truncate_sets_the_length(files: Seq<Seq<u8>>, number: nat, len: nat, k: int)
    requires
        number < files.len(),
        len <= usize::MAX,
    ensures
        ({
            let (after, r) = truncate_result(files, number, len);
            let old_data = files[number as int];
            let data = after[number as int];
            &&& r == Ok::<(), VfsErrorView>(())
            &&& data.len() == len
            &&& 0 <= k < len && k < old_data.len() ==> data[k] == old_data[k]
            &&& old_data.len() <= k < len ==> data[k] == 0
        }),
{
}

} // verus!
