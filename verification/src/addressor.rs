//! The virtual addressor's bookkeeping: which virtual page is backed by
//! which physical frame, plus the base page of the always-mapped
//! physical-memory window. The page-table formats themselves are outside
//! this core; what the allocators decide — map this page to that frame,
//! unmap that page — is recorded and reasoned about here.

use vstd::prelude::*;

verus! {

use crate::frame::Frame;
use crate::frame::Page;

/// Records the page-to-frame mappings the allocators have established.
pub struct VirtualAddressor {
    mappings: Vec<Option<u64>>,
    mapped_page: Page,
}

impl VirtualAddressor {
    /// The frame backing a page, if any.
    pub closed spec fn maps(self, page: int) -> Option<u64> {
        if 0 <= page < self.mappings.len() {
            self.mappings[page]
        } else {
            None
        }
    }

    /// Base page of the physical-memory window.
    pub closed spec fn spec_mapped_page(self) -> Page {
        self.mapped_page
    }

    /// A page with a backing frame lies in the tracked index range.
    pub proof fn lemma_maps_in_range(self, page: int)
        ensures
            self.maps(page) is Some ==> 0 <= page <= usize::MAX,
    {
    }

    /// A fresh addressor with no mappings, its physical-memory window at
    /// `mapped_page`.
    pub fn new(mapped_page: Page) -> (r: Self)
        ensures
            forall|p: int| r.maps(p) is None,
            r.spec_mapped_page() == mapped_page,
    {
        Self { mappings: Vec::new(), mapped_page }
    }

    /// Back `page` with `frame`.
    pub fn map(&mut self, page: &Page, frame: &Frame)
        requires
            page@ < usize::MAX,
        ensures
            final(self).maps(page@ as int) == Some(frame@),
            forall|p: int| p != page@ as int ==> final(self).maps(p) == old(self).maps(p),
            final(self).spec_mapped_page() == old(self).spec_mapped_page(),
    {
        let index: usize = page.index() as usize;
        while self.mappings.len() <= index
            invariant
                index < usize::MAX,
                forall|p: int| self.maps(p) == old(self).maps(p),
                self.mapped_page == old(self).mapped_page,
            decreases index + 1 - self.mappings.len(),
        {
            self.mappings.push(None);
        }
        self.mappings.set(index, Some(frame.index()));
    }

    /// Back the page with the frame of the same index.
    pub fn identity_map(&mut self, frame: &Frame)
        requires
            frame@ < usize::MAX,
        ensures
            final(self).maps(frame@ as int) == Some(frame@),
            forall|p: int| p != frame@ as int ==> final(self).maps(p) == old(self).maps(p),
            final(self).spec_mapped_page() == old(self).spec_mapped_page(),
    {
        let page = Page::from_index(frame.index());
        self.map(&page, frame);
    }

    /// Remove the backing of `page`.
    pub fn unmap(&mut self, page: &Page)
        ensures
            final(self).maps(page@ as int) is None,
            forall|p: int| p != page@ as int ==> final(self).maps(p) == old(self).maps(p),
            final(self).spec_mapped_page() == old(self).spec_mapped_page(),
    {
        let index_wide: u64 = page.index();
        if index_wide < self.mappings.len() as u64 {
            let index: usize = index_wide as usize;
            self.mappings.set(index, None);
        }
    }

    /// The frame backing `page`, if any.
    pub fn translate_page(&self, page: &Page) -> (r: Option<Frame>)
        ensures
            r is Some <==> self.maps(page@ as int) is Some,
            r is Some ==> Some(r->Some_0@) == self.maps(page@ as int),
    {
        let index_wide: u64 = page.index();
        if index_wide < self.mappings.len() as u64 {
            let index: usize = index_wide as usize;
            match self.mappings[index] {
                Some(f) => Some(Frame::from_index(f)),
                None => None,
            }
        } else {
            None
        }
    }

    /// Move the physical-memory window to `page`.
    pub fn modify_mapped_page(&mut self, page: Page)
        ensures
            final(self).spec_mapped_page() == page,
            forall|p: int| final(self).maps(p) == old(self).maps(p),
    {
        self.mapped_page = page;
    }

    /// Base page of the physical-memory window.
    pub fn mapped_page(&self) -> (r: Page)
        ensures
            r == self.spec_mapped_page(),
    {
        self.mapped_page
    }
}

} // verus!
