use vstd::prelude::*;

use crate::error::StorageError;
use crate::storage::page::{Page, PAGE_SIZE};

verus! {

/// The byte images of pages.
pub open spec fn page_images(pages: Seq<Page>) -> Seq<Seq<u8>> {
    Seq::new(pages.len(), |i: int| pages[i].data@)
}

/// A page of zero bytes.
pub open spec fn zero_page() -> Seq<u8> {
    Seq::new(PAGE_SIZE as nat, |i: int| 0u8)
}

/// The pages of a database held in memory, numbered from 0; page 0 holds the file
/// header. Reading and writing the file is left to the caller.
#[derive(Debug)]
pub struct Pager {
    pages: Vec<Page>,
}

impl Pager {
    /// Every page has the page size; there is a header page; page numbers fit 32 bits.
    pub closed spec fn wf(&self) -> bool {
        &&& forall|i: int| 0 <= i < self.pages@.len() ==> (#[trigger] self.pages@[i]).wf()
        &&& 1 <= self.pages@.len() <= u32::MAX
    }

    /// The byte images of the pages, by page number.
    pub closed spec fn images(&self) -> Seq<Seq<u8>> {
        page_images(self.pages@)
    }

    /// Every image has the page size.
    pub proof fn lemma_images(&self)
        requires
            self.wf(),
        ensures
            1 <= self.images().len() <= u32::MAX,
            forall|i: int| 0 <= i < self.images().len() ==> (#[trigger] self.images()[i]).len() == PAGE_SIZE,
    {
        assert forall|i: int| 0 <= i < self.images().len() implies (#[trigger] self.images()[i]).len() == PAGE_SIZE by {
            assert(self.pages@[i].wf());
        }
    }

    /// A store holding only a zeroed header page.
    pub fn new() -> (p: Self)
        ensures
            p.wf(),
            p.images() == seq![zero_page()],
    {
        let mut pages: Vec<Page> = Vec::new();
        let z = Page::zeroed();
        assert(z.data@ =~= zero_page());
        pages.push(z);
        let p = Pager { pages };
        assert(p.images() =~= seq![zero_page()]);
        p
    }

    /// Number of pages.
    pub fn page_count(&self) -> (n: u32)
        requires
            self.wf(),
        ensures
            n == self.images().len(),
    {
        self.pages.len() as u32
    }

    /// The page numbered `n`.
    pub fn get_page(&self, n: u32) -> (r: Result<&Page, StorageError>)
        requires
            self.wf(),
        ensures
            n < self.images().len() ==> (r matches Ok(p) && p.wf() && p.data@ == self.images()[n as int]),
            n >= self.images().len() ==> (r matches Err(StorageError::PageOutOfBounds(m)) && m == n),
    {
        if (n as usize) < self.pages.len() {
            assert(self.pages@[n as int].wf());
            Ok(&self.pages[n as usize])
        } else {
            Err(StorageError::PageOutOfBounds(n))
        }
    }

    /// Adds a zeroed page and returns its number; refused once page numbers run out.
    pub fn allocate_page(&mut self) -> (r: Result<u32, StorageError>)
        requires
            old(self).wf(),
        ensures
            final(self).wf(),
            old(self).images().len() < u32::MAX ==> (r matches Ok(n) && n == old(self).images().len()
                && final(self).images() == old(self).images().push(zero_page())),
            old(self).images().len() == u32::MAX ==> (r matches Err(StorageError::PageOutOfBounds(m))
                && m == u32::MAX && final(self).images() == old(self).images()),
    {
        if self.pages.len() >= 4294967295usize {
            return Err(StorageError::PageOutOfBounds(4294967295u32));
        }
        let n = self.pages.len() as u32;
        let z = Page::zeroed();
        assert(z.data@ =~= zero_page());
        self.pages.push(z);
        assert(self.images() =~= old(self).images().push(zero_page()));
        Ok(n)
    }

    /// Replaces the page numbered `n`.
    pub fn put_page(&mut self, n: u32, page: Page) -> (r: Result<(), StorageError>)
        requires
            old(self).wf(),
            page.wf(),
        ensures
            final(self).wf(),
            n < old(self).images().len() ==> (r is Ok && final(self).images() == old(self).images().update(
                n as int,
                page.data@,
            )),
            n >= old(self).images().len() ==> (r matches Err(StorageError::PageOutOfBounds(m)) && m == n
                && final(self).images() == old(self).images()),
    {
        if (n as usize) < self.pages.len() {
            let ghost data = page.data@;
            self.pages.set(n as usize, page);
            assert(self.images() =~= old(self).images().update(n as int, data));
            Ok(())
        } else {
            Err(StorageError::PageOutOfBounds(n))
        }
    }
}

} // verus!
