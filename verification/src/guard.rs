//! References to pages, and access to their bytes.
use vstd::prelude::*;

use crate::page::{FrameId, PageData, PageId};
use crate::pool::BufferPoolManager;
use crate::step::{grants_read, grants_write};

verus! {

/// A reference to a page in the pool. The page keeps its frame until the
/// reference is released; to drop it releases nothing.
#[must_use]
pub struct PageRef {
    page_id: PageId,
    frame_id: FrameId,
}

impl PageRef {
    /// The id of the page.
    pub closed spec fn id(&self) -> PageId {
        self.page_id
    }

    /// The frame of the page.
    pub closed spec fn frame(&self) -> FrameId {
        self.frame_id
    }

    /// Whether this refers to the page in the frame.
    pub open spec fn is_to(&self, page_id: PageId, frame_id: FrameId) -> bool {
        self.id() == page_id && self.frame() == frame_id
    }

    /// A reference to the page in the given frame.
    pub fn new(page_id: PageId, frame_id: FrameId) -> (page: PageRef)
        ensures
            page.id() == page_id,
            page.frame() == frame_id,
    {
        PageRef { page_id, frame_id }
    }

    /// The id of the page.
    pub fn page_id(&self) -> (page_id: PageId)
        ensures
            page_id == self.id(),
    {
        self.page_id
    }

    /// The frame of the page.
    pub fn frame_id(&self) -> (frame_id: FrameId)
        ensures
            frame_id == self.frame(),
    {
        self.frame_id
    }

    /// Gives the reference back: the page is held once less, and when nobody is
    /// left its frame may be given up.
    pub fn release(self, pool: &mut BufferPoolManager)
        requires
            old(pool).wf(),
            old(pool).has_frame(self.frame()),
        ensures
            final(pool).wf(),
            final(pool)@.pages.len() == old(pool)@.pages.len(),
            final(pool)@ == old(pool)@.unpin(self.frame()),
    {
        pool.unpin(self.frame_id);
    }

    /// Takes the bytes of the page in order to change them. Nobody else gets at
    /// them until the guard is given back. There is no guard while another one
    /// or a flush is at the bytes; it has to be asked for again then.
    pub fn data_write(&self, pool: &mut BufferPoolManager) -> (guard: Option<
        PageDataWriteGuard<'_>,
    >)
        requires
            old(pool).wf(),
            old(pool).has_frame(self.frame()),
        ensures
            final(pool).wf(),
            final(pool)@.pages.len() == old(pool)@.pages.len(),
            grants_write(old(pool)@, self.frame(), final(pool)@, guard is Some),
            guard matches Some(g) ==> {
                &&& g.reference() == self
                &&& g.bytes() == old(pool)@.page(self.frame()).data
            },
    {
        match pool.take_write(self.frame_id) {
            Some(data) => Some(PageDataWriteGuard { data, page_ref: self }),
            None => None,
        }
    }

    /// Takes the bytes of the page in order to read them. Nobody can change
    /// them until the guard is given back. There is no guard while another one
    /// may change the bytes, while a flush is at them, or while there are too
    /// many readers; it has to be asked for again then.
    pub fn data_read(&self, pool: &mut BufferPoolManager) -> (guard: Option<PageDataReadGuard<'_>>)
        requires
            old(pool).wf(),
            old(pool).has_frame(self.frame()),
        ensures
            final(pool).wf(),
            final(pool)@.pages.len() == old(pool)@.pages.len(),
            grants_read(old(pool)@, self.frame(), final(pool)@, guard is Some),
            guard matches Some(g) ==> {
                &&& g.reference() == self
                &&& g.bytes() == old(pool)@.page(self.frame()).data
            },
    {
        match pool.take_read(self.frame_id) {
            Some(data) => Some(PageDataReadGuard { data, page_ref: self }),
            None => None,
        }
    }

    /// As [`Self::data_write`], with the reference kept alongside. Where there
    /// is no guard, the reference is handed back, to ask again with.
    pub fn data_write_owned(self, pool: &mut BufferPoolManager) -> (result: Result<
        OwnedPageDataWriteGuard,
        PageRef,
    >)
        requires
            old(pool).wf(),
            old(pool).has_frame(self.frame()),
        ensures
            final(pool).wf(),
            final(pool)@.pages.len() == old(pool)@.pages.len(),
            grants_write(old(pool)@, self.frame(), final(pool)@, result is Ok),
            match result {
                Ok(guard) => {
                    &&& guard.reference() == self
                    &&& guard.bytes() == old(pool)@.page(self.frame()).data
                },
                Err(same) => same == self,
            },
    {
        match pool.take_write(self.frame_id) {
            Some(data) => Ok(OwnedPageDataWriteGuard { data, page_ref: self }),
            None => Err(self),
        }
    }

    /// As [`Self::data_read`], with the reference kept alongside. Where there is
    /// no guard, the reference is handed back, to ask again with.
    pub fn data_read_owned(self, pool: &mut BufferPoolManager) -> (result: Result<
        OwnedPageDataReadGuard,
        PageRef,
    >)
        requires
            old(pool).wf(),
            old(pool).has_frame(self.frame()),
        ensures
            final(pool).wf(),
            final(pool)@.pages.len() == old(pool)@.pages.len(),
            grants_read(old(pool)@, self.frame(), final(pool)@, result is Ok),
            match result {
                Ok(guard) => {
                    &&& guard.reference() == self
                    &&& guard.bytes() == old(pool)@.page(self.frame()).data
                },
                Err(same) => same == self,
            },
    {
        match pool.take_read(self.frame_id) {
            Some(data) => Ok(OwnedPageDataReadGuard { data, page_ref: self }),
            None => Err(self),
        }
    }
}

/// The bytes of a page, to be changed and then put back. The reference to the
/// page cannot be given back before. Nobody else gets at the bytes until this is
/// released; to drop it releases nothing.
#[must_use]
pub struct PageDataWriteGuard<'a> {
    data: PageData,
    page_ref: &'a PageRef,
}

impl<'a> PageDataWriteGuard<'a> {
    /// The reference to the page.
    pub closed spec fn reference(&self) -> &PageRef {
        self.page_ref
    }

    /// The bytes.
    pub closed spec fn bytes(&self) -> Seq<u8> {
        self.data@
    }

    /// The id of the page.
    pub fn page_id(&self) -> (page_id: PageId)
        ensures
            page_id == self.reference().id(),
    {
        self.page_ref.page_id()
    }

    /// The bytes.
    pub fn deref(&self) -> (data: &PageData)
        ensures
            data@ == self.bytes(),
    {
        &self.data
    }

    /// The bytes, to be changed.
    pub fn deref_mut(&mut self) -> (data: &mut PageData)
        ensures
            data@ == old(self).bytes(),
            final(self).bytes() == final(data)@,
            final(self).reference() == old(self).reference(),
    {
        &mut self.data
    }

    /// Puts the bytes back into the page, which then needs a write. Others can
    /// get at them again.
    pub fn release(self, pool: &mut BufferPoolManager)
        requires
            old(pool).wf(),
            old(pool).has_frame(self.reference().frame()),
        ensures
            final(pool).wf(),
            final(pool)@.pages.len() == old(pool)@.pages.len(),
            final(pool)@ == old(pool)@.store(self.reference().frame(), self.bytes()),
    {
        pool.store(self.page_ref.frame_id(), self.data);
    }
}

/// The bytes of a page, to be read. The reference to the page cannot be given
/// back before. Nobody can change the bytes until this is released; to drop it
/// releases nothing.
#[must_use]
pub struct PageDataReadGuard<'a> {
    data: PageData,
    page_ref: &'a PageRef,
}

impl<'a> PageDataReadGuard<'a> {
    /// The reference to the page.
    pub closed spec fn reference(&self) -> &PageRef {
        self.page_ref
    }

    /// The bytes.
    pub closed spec fn bytes(&self) -> Seq<u8> {
        self.data@
    }

    /// The id of the page.
    pub fn page_id(&self) -> (page_id: PageId)
        ensures
            page_id == self.reference().id(),
    {
        self.page_ref.page_id()
    }

    /// The bytes.
    pub fn deref(&self) -> (data: &PageData)
        ensures
            data@ == self.bytes(),
    {
        &self.data
    }

    /// Ends the reading of the bytes.
    pub fn release(self, pool: &mut BufferPoolManager)
        requires
            old(pool).wf(),
            old(pool).has_frame(self.reference().frame()),
        ensures
            final(pool).wf(),
            final(pool)@.pages.len() == old(pool)@.pages.len(),
            final(pool)@ == old(pool)@.unlatch_read(self.reference().frame()),
    {
        pool.end_read(self.page_ref.frame_id());
    }
}

/// The bytes of a page, to be changed and then put back, with the reference to
/// the page. Nobody else gets at the bytes until this is released; to drop it
/// releases nothing.
#[must_use]
pub struct OwnedPageDataWriteGuard {
    data: PageData,
    page_ref: PageRef,
}

impl OwnedPageDataWriteGuard {
    /// The reference to the page.
    pub closed spec fn reference(&self) -> PageRef {
        self.page_ref
    }

    /// The bytes.
    pub closed spec fn bytes(&self) -> Seq<u8> {
        self.data@
    }

    /// The id of the page.
    pub fn page_id(&self) -> (page_id: PageId)
        ensures
            page_id == self.reference().id(),
    {
        self.page_ref.page_id()
    }

    /// The bytes.
    pub fn deref(&self) -> (data: &PageData)
        ensures
            data@ == self.bytes(),
    {
        &self.data
    }

    /// The bytes, to be changed.
    pub fn deref_mut(&mut self) -> (data: &mut PageData)
        ensures
            data@ == old(self).bytes(),
            final(self).bytes() == final(data)@,
            final(self).reference() == old(self).reference(),
    {
        &mut self.data
    }

    /// Puts the bytes back into the page, which then needs a write, and hands
    /// the reference out. Others can get at the bytes again.
    pub fn unlatch(self, pool: &mut BufferPoolManager) -> (page: PageRef)
        requires
            old(pool).wf(),
            old(pool).has_frame(self.reference().frame()),
        ensures
            final(pool).wf(),
            final(pool)@.pages.len() == old(pool)@.pages.len(),
            final(pool)@ == old(pool)@.store(self.reference().frame(), self.bytes()),
            page == self.reference(),
    {
        pool.store(self.page_ref.frame_id(), self.data);
        self.page_ref
    }

    /// Puts the bytes back into the page, which then needs a write, and gives
    /// the reference back.
    pub fn release(self, pool: &mut BufferPoolManager)
        requires
            old(pool).wf(),
            old(pool).has_frame(self.reference().frame()),
        ensures
            final(pool).wf(),
            final(pool)@.pages.len() == old(pool)@.pages.len(),
            final(pool)@ == old(pool)@.store(self.reference().frame(), self.bytes()).unpin(
                self.reference().frame(),
            ),
    {
        self.unlatch(pool).release(pool);
    }
}

/// The bytes of a page, to be read, with the reference to the page. Nobody can
/// change the bytes until this is released; to drop it releases nothing.
#[must_use]
pub struct OwnedPageDataReadGuard {
    data: PageData,
    page_ref: PageRef,
}

impl OwnedPageDataReadGuard {
    /// The reference to the page.
    pub closed spec fn reference(&self) -> PageRef {
        self.page_ref
    }

    /// The bytes.
    pub closed spec fn bytes(&self) -> Seq<u8> {
        self.data@
    }

    /// The id of the page.
    pub fn page_id(&self) -> (page_id: PageId)
        ensures
            page_id == self.reference().id(),
    {
        self.page_ref.page_id()
    }

    /// The bytes.
    pub fn deref(&self) -> (data: &PageData)
        ensures
            data@ == self.bytes(),
    {
        &self.data
    }

    /// Ends the reading of the bytes, and hands the reference out.
    pub fn unlatch(self, pool: &mut BufferPoolManager) -> (page: PageRef)
        requires
            old(pool).wf(),
            old(pool).has_frame(self.reference().frame()),
        ensures
            final(pool).wf(),
            final(pool)@.pages.len() == old(pool)@.pages.len(),
            final(pool)@ == old(pool)@.unlatch_read(self.reference().frame()),
            page == self.reference(),
    {
        pool.end_read(self.page_ref.frame_id());
        self.page_ref
    }

    /// Ends the reading of the bytes, and gives the reference back.
    pub fn release(self, pool: &mut BufferPoolManager)
        requires
            old(pool).wf(),
            old(pool).has_frame(self.reference().frame()),
        ensures
            final(pool).wf(),
            final(pool)@.pages.len() == old(pool)@.pages.len(),
            final(pool)@ == old(pool)@.unlatch_read(self.reference().frame()).unpin(
                self.reference().frame(),
            ),
    {
        self.unlatch(pool).release(pool);
    }
}

} // verus!
