//! Whole-page reads and writes on top of a file, for the b-tree layer.
use crate::text;
use crate::vfs::file;
use crate::vfs::file::{AnyVfsFile, FileLock, Vfs, VfsError, VfsErrorView, VfsFile};
use crate::vfs::memory;
use vstd::prelude::*;

verus! {

/// Failure reading or writing a whole page.
#[derive(Debug, Clone, PartialEq)]
pub enum PageError {
    /// Page numbers are 1-based; page 0 was requested.
    InvalidPageNumber,
    /// A read returned fewer bytes than a full page.
    ShortRead {
        /// The page that came up short.
        page_num: u32,
        /// The page size that was expected.
        expected: usize,
        /// The number of bytes actually read.
        got: usize,
    },
    /// A page was to be written from a buffer that isn't exactly one page long.
    WrongLength {
        /// The page that was being written.
        page_num: u32,
        /// The page size that was expected.
        expected: usize,
        /// The length of the buffer actually given.
        got: usize,
    },
    /// The underlying file operation failed.
    Vfs(VfsError),
}

/// What a [`PageError`] stands for.
#[verifier::ext_equal]
pub enum PageErrorView {
    InvalidPageNumber,
    ShortRead { page_num: u32, expected: usize, got: usize },
    WrongLength { page_num: u32, expected: usize, got: usize },
    Vfs(VfsErrorView),
}

impl PageErrorView {
    /// The error in words.
    pub open spec fn described(self) -> Seq<char> {
        match self {
            PageErrorView::InvalidPageNumber => "invalid page number 0"@,
            PageErrorView::ShortRead { page_num, expected, got } => "short read on page "@
                + text::decimal(page_num as nat) + ": expected "@ + text::decimal(expected as nat)
                + " bytes, got "@ + text::decimal(got as nat),
            PageErrorView::WrongLength { page_num, expected, got } =>
                "wrong buffer length writing page "@ + text::decimal(page_num as nat)
                + ": expected "@ + text::decimal(expected as nat) + " bytes, got "@
                + text::decimal(got as nat),
            PageErrorView::Vfs(e) => e.described(),
        }
    }
}

impl PageError {
    pub open spec fn view(&self) -> PageErrorView {
        match self {
            PageError::InvalidPageNumber => PageErrorView::InvalidPageNumber,
            PageError::ShortRead { page_num, expected, got } => PageErrorView::ShortRead {
                page_num: *page_num,
                expected: *expected,
                got: *got,
            },
            PageError::WrongLength { page_num, expected, got } => PageErrorView::WrongLength {
                page_num: *page_num,
                expected: *expected,
                got: *got,
            },
            PageError::Vfs(e) => PageErrorView::Vfs(e@),
        }
    }

    /// The error in words.
    pub fn describe(&self) -> (s: String)
        ensures
            s@ == self@.described(),
    {
        match self {
            PageError::InvalidPageNumber => "invalid page number 0".to_owned(),
            PageError::ShortRead { page_num, expected, got } => {
                let mut s = "short read on page ".to_owned();
                s.append(text::unsigned_to_text(*page_num as u64).as_str());
                s.append(": expected ");
                s.append(text::unsigned_to_text(*expected as u64).as_str());
                s.append(" bytes, got ");
                s.append(text::unsigned_to_text(*got as u64).as_str());
                s
            },
            PageError::WrongLength { page_num, expected, got } => {
                let mut s = "wrong buffer length writing page ".to_owned();
                s.append(text::unsigned_to_text(*page_num as u64).as_str());
                s.append(": expected ");
                s.append(text::unsigned_to_text(*expected as u64).as_str());
                s.append(" bytes, got ");
                s.append(text::unsigned_to_text(*got as u64).as_str());
                s
            },
            PageError::Vfs(e) => e.describe(),
        }
    }
}

/// Where a page begins.
pub open spec fn page_offset(page_num: u32, page_size: u32) -> u64 {
    ((page_num - 1) * page_size) as u64
}

/// The page that a read of its bytes gives: all of it, or an error.
pub open spec fn page_of(page_num: u32, page_size: u32, read: Result<Seq<u8>, VfsErrorView>) ->
    Result<Seq<u8>, PageErrorView> {
    match read {
        Err(e) => Err(PageErrorView::Vfs(e)),
        Ok(bytes) => if bytes.len() != page_size {
            Err(
                PageErrorView::ShortRead {
                    page_num,
                    expected: page_size as usize,
                    got: bytes.len() as usize,
                },
            )
        } else {
            Ok(bytes)
        },
    }
}

/// Reading a page of a file may give this: an error for page 0, and else what a read of
/// exactly its bytes gives.
pub open spec fn gives_page<S, F: VfsFile<S>>(
    f: F,
    store: S,
    page_num: u32,
    page_size: u32,
    r: Result<Seq<u8>, PageErrorView>,
) -> bool {
    if page_num == 0 {
        r == Err::<Seq<u8>, PageErrorView>(PageErrorView::InvalidPageNumber)
    } else {
        exists|read: Result<Seq<u8>, VfsErrorView>|
            #[trigger] f.reads(
                store,
                page_size as nat,
                page_offset(page_num, page_size),
                read,
            ) && r == page_of(page_num, page_size, read)
    }
}

/// How reading a page ended.
pub open spec fn page_seen(r: Result<Vec<u8>, PageError>) -> Result<Seq<u8>, PageErrorView> {
    match r {
        Ok(bytes) => Ok(bytes@),
        Err(e) => Err(e@),
    }
}

fn offset_of(page_num: u32, page_size: u32) -> (offset: u64)
    requires
        page_num >= 1,
    ensures
        offset == page_offset(page_num, page_size),
        offset == (page_num - 1) * page_size,
{
    assert((page_num - 1) * page_size <= 0xffff_ffff * 0xffff_ffff) by (nonlinear_arith)
        requires
            0 <= page_num - 1 <= 0xffff_ffff,
            0 <= page_size <= 0xffff_ffff,
    ;
    (page_num as u64 - 1) * page_size as u64
}

/// The page that a read into a buffer of its size gives: `read` is the number of bytes read.
pub fn whole_page(page_num: u32, buf: Vec<u8>, read: usize) -> (r: Result<Vec<u8>, PageError>)
    requires
        read <= buf@.len() <= u32::MAX,
    ensures
        page_seen(r) == page_of(
            page_num,
            buf@.len() as u32,
            Ok::<Seq<u8>, VfsErrorView>(buf@.take(read as int)),
        ),
{
    if read != buf.len() {
        return Err(PageError::ShortRead { page_num, expected: buf.len(), got: read });
    }
    assert(buf@.take(read as int) =~= buf@);
    Ok(buf)
}

/// Reads page `page_num` of `file`.
fn read_page_at<S, F: VfsFile<S>>(f: &F, store: &S, page_size: u32, page_num: u32) -> (r: Result<
    Vec<u8>,
    PageError,
>)
    ensures
        gives_page(*f, *store, page_num, page_size, page_seen(r)),
{
    if page_num == 0 {
        return Err(PageError::InvalidPageNumber);
    }
    let mut buf: Vec<u8> = Vec::new();
    while buf.len() < page_size as usize
        invariant
            buf@.len() <= page_size,
        decreases page_size - buf.len(),
    {
        buf.push(0);
    }
    let offset = offset_of(page_num, page_size);
    match f.read_at(store, &mut buf, offset) {
        Ok(n) => whole_page(page_num, buf, n),
        Err(e) => Err(PageError::Vfs(e)),
    }
}

/// A source of whole database pages, numbered from 1.
pub trait PageSource<S> {
    /// Reading a page may give this.
    open spec fn pages(&self, store: S, page_num: u32, r: Result<Seq<u8>, PageErrorView>) -> bool {
        true
    }

    /// Reads page `page_num` (1-based) and returns exactly one page's bytes. `page_num == 0`
    /// or a short read is `Err`.
    fn read_page(&self, store: &S, page_num: u32) -> (r: Result<Vec<u8>, PageError>)
        ensures
            self.pages(*store, page_num, page_seen(r)),
    ;
}

/// A [`PageSource`] backed by a file opened for reading.
pub struct VfsPageSource<F> {
    pub file: F,
    pub page_size: u32,
}

impl<F> VfsPageSource<F> {
    /// Opens `path` for reading through `vfs`.
    pub fn open<V: Vfs<File = F>>(vfs: &V, path: &str, page_size: u32) -> (r: Result<Self,
        VfsError>)
        ensures
            match r {
                Ok(p) => p.page_size == page_size && vfs.opens(path@, false, Ok(p.file)),
                Err(e) => vfs.opens(path@, false, Err(e@)),
            },
    {
        let file = vfs.open_read(path)?;
        Ok(VfsPageSource { file, page_size })
    }

    /// Acquires a SHARED lock on the underlying file.
    pub fn lock_shared<S>(&self, store: &S) -> (r: Result<FileLock<F::Guard>, VfsError>) where
        F: VfsFile<S>,

        ensures
            self.file.locks(*store, file::file_seen(r)),
    {
        self.file.lock_shared(store)
    }
}

impl<S, F: VfsFile<S>> PageSource<S> for VfsPageSource<F> {
    open spec fn pages(
        &self,
        store: S,
        page_num: u32,
        r: Result<Seq<u8>, PageErrorView>,
    ) -> bool {
        gives_page(self.file, store, page_num, self.page_size, r)
    }

    fn read_page(&self, store: &S, page_num: u32) -> (r: Result<Vec<u8>, PageError>) {
        read_page_at(&self.file, store, self.page_size, page_num)
    }
}

/// A [`PageSource`] backed by a file opened for reading and writing: one handle for both
/// directions.
pub struct WritablePageSource<F> {
    pub file: F,
    pub page_size: u32,
}

/// Writing a page may make `after` of the file system, and end so: an error for page 0 or a
/// buffer that is not one page long, and else what writing exactly its bytes does.
pub open spec fn puts_page<S, F: VfsFile<S>>(
    f: F,
    before: S,
    page_num: u32,
    page_size: u32,
    bytes: Seq<u8>,
    after: S,
    r: Result<(), PageErrorView>,
) -> bool {
    if page_num == 0 {
        after == before && r == Err::<(), PageErrorView>(PageErrorView::InvalidPageNumber)
    } else if bytes.len() != page_size {
        after == before && r == Err::<(), PageErrorView>(
            PageErrorView::WrongLength {
                page_num,
                expected: page_size as usize,
                got: bytes.len() as usize,
            },
        )
    } else {
        match r {
            Ok(_) => f.writes(before, bytes, page_offset(page_num, page_size), after, Ok(())),
            Err(PageErrorView::Vfs(e)) => f.writes(
                before,
                bytes,
                page_offset(page_num, page_size),
                after,
                Err(e),
            ),
            _ => false,
        }
    }
}

pub open spec fn put_seen(r: Result<(), PageError>) -> Result<(), PageErrorView> {
    match r {
        Ok(_) => Ok(()),
        Err(e) => Err(e@),
    }
}

impl<F> WritablePageSource<F> {
    /// Opens `path` for reading and writing through `vfs`.
    pub fn open<V: Vfs<File = F>>(vfs: &V, path: &str, page_size: u32) -> (r: Result<Self,
        VfsError>)
        ensures
            match r {
                Ok(p) => p.page_size == page_size && vfs.opens(path@, true, Ok(p.file)),
                Err(e) => vfs.opens(path@, true, Err(e@)),
            },
    {
        let file = vfs.open_write(path)?;
        Ok(WritablePageSource { file, page_size })
    }

    /// Wraps an already-opened file handle rather than opening a fresh one.
    pub fn from_file(file: AnyVfsFile<F>, page_size: u32) -> (r: Self)
        ensures
            r.file == file.inner(),
            r.page_size == page_size,
    {
        WritablePageSource { file: file.into_inner(), page_size }
    }

    /// Acquires a SHARED lock on the underlying file.
    pub fn lock_shared<S>(&self, store: &S) -> (r: Result<FileLock<F::Guard>, VfsError>) where
        F: VfsFile<S>,

        ensures
            self.file.locks(*store, file::file_seen(r)),
    {
        self.file.lock_shared(store)
    }

    /// Writes exactly one page's bytes as page `page_num` (1-based). `page_num == 0` or a
    /// wrong-length buffer is `Err`.
    pub fn write_page<S>(&self, store: &mut S, page_num: u32, bytes: &Vec<u8>) -> (r: Result<
        (),
        PageError,
    >) where F: VfsFile<S>
        ensures
            puts_page(
                self.file,
                *old(store),
                page_num,
                self.page_size,
                bytes@,
                *final(store),
                put_seen(r),
            ),
    {
        if page_num == 0 {
            return Err(PageError::InvalidPageNumber);
        }
        if bytes.len() != self.page_size as usize {
            return Err(
                PageError::WrongLength {
                    page_num,
                    expected: self.page_size as usize,
                    got: bytes.len(),
                },
            );
        }
        let offset = offset_of(page_num, self.page_size);
        match self.file.write_at(store, bytes, offset) {
            Ok(_) => Ok(()),
            Err(e) => Err(PageError::Vfs(e)),
        }
    }

    /// Flushes all writes to durable storage.
    pub fn sync<S>(&self, store: &mut S) -> (r: Result<(), VfsError>) where F: VfsFile<S>
        ensures
            self.file.syncs(*old(store), *final(store), file::unit_seen(r)),
    {
        self.file.sync(store)
    }
}

impl<S, F: VfsFile<S>> PageSource<S> for WritablePageSource<F> {
    open spec fn pages(
        &self,
        store: S,
        page_num: u32,
        r: Result<Seq<u8>, PageErrorView>,
    ) -> bool {
        gives_page(self.file, store, page_num, self.page_size, r)
    }

    fn read_page(&self, store: &S, page_num: u32) -> (r: Result<Vec<u8>, PageError>) {
        read_page_at(&self.file, store, self.page_size, page_num)
    }
}

// ---- laws ---------------------------------------------------------------------------

/// Page 0 is never read nor written.
pub proof fn law_page_zero_is_refused<S, F: VfsFile<S>>(
    f: F,
    store: S,
    page_size: u32,
    r: Result<Seq<u8>, PageErrorView>,
)
    requires
        gives_page(f, store, 0, page_size, r),
    ensures
        r == Err::<Seq<u8>, PageErrorView>(PageErrorView::InvalidPageNumber),
{
}

/// A page that is read has the page size.
pub proof fn law_pages_are_whole<S, F: VfsFile<S>>(
    f: F,
    store: S,
    page_num: u32,
    page_size: u32,
    page: Seq<u8>,
)
    requires
        gives_page(f, store, page_num, page_size, Ok(page)),
    ensures
        page.len() == page_size,
        page_num > 0,
{
}

/// Pages do not overlap.
pub proof fn law_pages_are_apart(a: u32, b: u32, page_size: u32)
    requires
        1 <= a < b,
    ensures
        page_offset(a, page_size) + page_size <= page_offset(b, page_size),
{
    assert((a - 1) * page_size + page_size <= (b - 1) * page_size) by (nonlinear_arith)
        requires
            a < b,
            page_size >= 0,
    ;
    assert(0 <= (a - 1) * page_size) by (nonlinear_arith)
        requires
            a >= 1,
            page_size >= 0,
    ;
    assert((b - 1) * page_size <= 0xffff_ffff * 0xffff_ffff) by (nonlinear_arith)
        requires
            0 <= b - 1 <= 0xffff_ffff,
            0 <= page_size <= 0xffff_ffff,
    ;
}

/// In memory, a page that was written is read back, and every other whole page of the file is
/// as before.
pub proof fn law_page_reads_back(
    m: Seq<Seq<u8>>,
    number: nat,
    page_num: u32,
    page_size: u32,
    bytes: Seq<u8>,
    other: u32,
)
    requires
        number < m.len(),
        page_num >= 1,
        bytes.len() == page_size,
        page_offset(page_num, page_size) + page_size <= usize::MAX,
        other >= 1,
        other != page_num,
        page_offset(other, page_size) + page_size <= m[number as int].len(),
    ensures
        ({
            let after = memory::write_result(
                m,
                number,
                bytes,
                page_offset(page_num, page_size) as nat,
            ).0;
            &&& page_of(
                page_num,
                page_size,
                memory::read_result(
                    after,
                    number,
                    page_size as nat,
                    page_offset(page_num, page_size) as nat,
                ),
            ) == Ok::<Seq<u8>, PageErrorView>(bytes)
            &&& page_of(
                other,
                page_size,
                memory::read_result(
                    after,
                    number,
                    page_size as nat,
                    page_offset(other, page_size) as nat,
                ),
            ) == page_of(
                other,
                page_size,
                memory::read_result(
                    m,
                    number,
                    page_size as nat,
                    page_offset(other, page_size) as nat,
                ),
            )
        }),
{
    let data = m[number as int];
    let at = page_offset(page_num, page_size);
    let place = page_offset(other, page_size);
    let after = memory::with_bytes(data, bytes, at as nat);
    memory::law_read_after_write(data, bytes, at as nat, 0);
    if other < page_num {
        law_pages_are_apart(other, page_num, page_size);
    } else {
        law_pages_are_apart(page_num, other, page_size);
    }
    assert(memory::bytes_at(after, page_size as nat, place as nat) =~= memory::bytes_at(
        data,
        page_size as nat,
        place as nat,
    ));
}

} // verus!
