//! The buffer pool.
use std::collections::{HashMap, VecDeque};
use vstd::prelude::*;

use crate::error::{RustDBError, RustDBResult};
use crate::guard::PageRef;
use crate::node::{Decoder, Encoder, Node, NodeTrait};
use crate::page::{FrameId, Latch, Page1, PageData, PageId, PageState};
use crate::replacer::LruKReplacer;
use crate::state::{
    lemma_forget_in_bounds, lemma_hold_in_bounds, lemma_map_in_bounds, lemma_unmap_in_bounds,
    lemma_with_page_in_bounds, wrapping_next, wrapping_previous, Claim, PoolState,
};
use crate::step::{
    begins_flush, begins_flush_all, creates_after_write, creates_or_fails, deletes_after_write,
    deletes_page, fetches_after_read, fetches_after_write, fetches_or_fails, fetches_page,
    flush_goes_on, flushes_after_write, flushes_all_after_write, flushes_all_latched,
    flushes_latched, grants_read, grants_write, makes_page, makes_page_after_write, reads_node,
    FetchStep, FlushStep, FrameStep, NodeStep, PageRead, PageWrite, WriteStep,
};

verus! {

broadcast use vstd::std_specs::hash::group_hash_axioms;

/// A pool of frames for the pages of a database file.
///
/// An operation that needs the disk returns a request. The caller performs it
/// and hands the reply to the matching function, with no other operation
/// started in between. References may be given back at any time, and guards
/// taken and given back. Guards keep out of each other's way and out of the way
/// of a flush: one that would not is refused, and has to be asked for again.
pub struct BufferPoolManager {
    pages: Vec<Page1>,
    replacer: LruKReplacer,
    page_table: HashMap<PageId, FrameId>,
    free_list: VecDeque<FrameId>,
    next_page_id: PageId,
    pool_size: usize,
}

impl View for BufferPoolManager {
    type V = PoolState;

    closed spec fn view(&self) -> PoolState {
        PoolState {
            pages: Seq::new(self.pages@.len(), |i: int| self.pages@[i]@),
            page_table: self.page_table@,
            free_list: self.free_list@,
            replacer: self.replacer@,
            next_page_id: self.next_page_id,
        }
    }
}

impl BufferPoolManager {
    /// Whether the pool knows its size, and every frame that it mentions exists.
    pub closed spec fn wf(&self) -> bool {
        &&& self.pool_size == self@.pages.len()
        &&& self@.in_bounds()
    }

    /// Whether the frame exists.
    pub open spec fn has_frame(&self, frame_id: FrameId) -> bool {
        frame_id < self@.pages.len()
    }

    /// A pool of `pool_size` free frames that gives up pages by the LRU-K
    /// policy. It never fails.
    pub fn new(pool_size: usize, k: usize) -> (result: RustDBResult<BufferPoolManager>)
        ensures
            result matches Ok(pool) && pool.wf() && pool@ == PoolState::initial(
                pool_size as nat,
                k as nat,
            ),
    {
        let replacer = LruKReplacer::new(k);
        let mut free_list: VecDeque<FrameId> = VecDeque::new();
        let mut pages: Vec<Page1> = Vec::new();
        let mut frame_id: FrameId = 0;
        while frame_id < pool_size
            invariant
                frame_id <= pool_size,
                free_list@ == Seq::new(frame_id as nat, |i: int| i as FrameId),
                pages@.len() == frame_id,
                forall|i: int| 0 <= i < frame_id ==> #[trigger] pages@[i]@ == PageState::blank(0),
            decreases pool_size - frame_id,
        {
            free_list.push_back(frame_id);
            pages.push(Page1::new(0));
            frame_id += 1;
            assert(free_list@ =~= Seq::new(frame_id as nat, |i: int| i as FrameId));
        }
        let pool = BufferPoolManager {
            pages,
            replacer,
            page_table: HashMap::new(),
            free_list,
            next_page_id: 0,
            pool_size,
        };
        assert(pool@ =~= PoolState::initial(pool_size as nat, k as nat));
        Ok(pool)
    }

    /// The number of frames.
    pub fn pool_size(&self) -> (pool_size: usize)
        requires
            self.wf(),
        ensures
            pool_size == self@.pages.len(),
    {
        self.pool_size
    }

    /// Hands out the id of the next new page.
    fn allocate_page(&mut self) -> (page_id: PageId)
        ensures
            page_id == old(self)@.next_page_id,
            final(self)@ == (PoolState {
                next_page_id: wrapping_next(page_id),
                ..old(self)@
            }),
            old(self).wf() ==> final(self).wf(),
    {
        let page_id: PageId = self.next_page_id;
        self.next_page_id = page_id.wrapping_add(1);
        assert(self@.pages =~= old(self)@.pages);
        page_id
    }

    /// The request to write the page in the frame.
    fn write_request(&self, frame_id: FrameId) -> (write: PageWrite)
        requires
            self.has_frame(frame_id),
        ensures
            write.is_of(self@, frame_id),
    {
        let page = &self.pages[frame_id];
        PageWrite::new(page.page_id(), frame_id, page.data())
    }

    /// Takes the page out of the table.
    fn unmap(&mut self, page_id: PageId)
        requires
            old(self).wf(),
        ensures
            final(self).wf(),
            final(self)@.pages.len() == old(self)@.pages.len(),
            final(self)@ == old(self)@.unmap(page_id),
    {
        let _ = self.page_table.remove(&page_id);
        assert(self@ =~= old(self)@.unmap(page_id));
        proof {
            lemma_unmap_in_bounds(old(self)@, page_id);
        }
    }

    /// Records an access of the frame, which then may not be given up.
    fn hold(&mut self, frame_id: FrameId)
        requires
            old(self).wf(),
            old(self).has_frame(frame_id),
        ensures
            final(self).wf(),
            final(self)@.pages.len() == old(self)@.pages.len(),
            final(self)@ == old(self)@.hold(frame_id),
    {
        self.replacer.record_access(frame_id);
        self.replacer.set_evictable(frame_id, false);
        assert(self@ =~= old(self)@.hold(frame_id));
        proof {
            lemma_hold_in_bounds(old(self)@, frame_id);
        }
    }

    /// Marks the page in the frame as clean.
    fn mark_clean(&mut self, frame_id: FrameId)
        requires
            old(self).wf(),
            old(self).has_frame(frame_id),
        ensures
            final(self).wf(),
            final(self)@.pages.len() == old(self)@.pages.len(),
            final(self)@ == old(self)@.clean(frame_id),
    {
        self.pages[frame_id].set_dirty(false);
        assert(self@ =~= old(self)@.clean(frame_id));
        proof {
            lemma_with_page_in_bounds(
                old(self)@,
                frame_id,
                PageState { is_dirty: false, ..old(self)@.page(frame_id) },
            );
        }
    }

    /// Goes on from the replacer's choice: the frame can be used at once where
    /// its page is clean, and only after a write where it is not.
    fn claim_victim(&mut self, victim: Option<FrameId>) -> (step: FrameStep)
        requires
            old(self).wf(),
            victim matches Some(f) ==> old(self).has_frame(f),
        ensures
            final(self).wf(),
            final(self)@.pages.len() == old(self)@.pages.len(),
            final(self)@ == old(self)@.after_claim_victim(victim),
            match old(self)@.claim_victim(victim) {
                Claim::Exhausted => step is Exhausted,
                Claim::Ready(f) => step == FrameStep::Ready(f),
                Claim::Dirty(f) => step matches FrameStep::Write(w) && w.is_of(old(self)@, f),
            },
    {
        match victim {
            None => FrameStep::Exhausted,
            Some(frame_id) => {
                if self.pages[frame_id].is_dirty() {
                    return FrameStep::Write(self.write_request(frame_id));
                }
                let page_id: PageId = self.pages[frame_id].page_id();
                self.unmap(page_id);
                FrameStep::Ready(frame_id)
            },
        }
    }

    /// Looks for a frame to use for another page.
    fn available_frame(&mut self) -> (step: FrameStep)
        requires
            old(self).wf(),
        ensures
            final(self).wf(),
            final(self)@.pages.len() == old(self)@.pages.len(),
            final(self)@ == old(self)@.after_claim(),
            match old(self)@.claim() {
                Claim::Exhausted => step is Exhausted,
                Claim::Ready(f) => step == FrameStep::Ready(f) && old(self).has_frame(f),
                Claim::Dirty(f) => {
                    &&& step matches FrameStep::Write(w)
                    &&& w.is_of(old(self)@, f)
                    &&& old(self).has_frame(f)
                },
            },
    {
        let ghost before = self@;
        if let Some(frame_id) = self.free_list.pop_front() {
            assert(self@ =~= before.after_claim());
            assert(before.free_list[0] == frame_id);
            assert forall|i: int| 0 <= i < self@.free_list.len() implies #[trigger]
                self@.free_list[i] < self@.pages.len() by {
                assert(self@.free_list[i] == before.free_list[i + 1]);
            }
            assert(self@.in_bounds());
            return FrameStep::Ready(frame_id);
        }
        let victim = self.replacer.evict();
        proof {
            match victim {
                Some(f) => {
                    assert(before.replacer.may_evict(f));
                    lemma_forget_in_bounds(before, f);
                    assert(self@ =~= PoolState { replacer: before.replacer.forget(f), ..before });
                },
                None => {
                    assert(self@ =~= before);
                },
            }
        }
        self.claim_victim(victim)
    }

    /// Goes on once the page in a frame that is being given up was written, or
    /// could not be.
    fn give_up(&mut self, write: PageWrite, reply: RustDBResult<()>) -> (result: RustDBResult<
        FrameId,
    >)
        requires
            old(self).wf(),
            old(self).has_frame(write.frame()),
        ensures
            final(self).wf(),
            final(self)@.pages.len() == old(self)@.pages.len(),
            match reply {
                Ok(_) => {
                    &&& final(self)@ == old(self)@.give_up(write.frame())
                    &&& result == Ok::<FrameId, RustDBError>(write.frame())
                },
                Err(e) => {
                    &&& final(self)@ == old(self)@
                    &&& result == Err::<FrameId, RustDBError>(e)
                },
            },
    {
        let frame_id: FrameId = write.frame_id();
        match reply {
            Ok(_) => {
                let page_id: PageId = self.pages[frame_id].page_id();
                self.mark_clean(frame_id);
                self.unmap(page_id);
                Ok(frame_id)
            },
            Err(e) => Err(e),
        }
    }

    /// Puts the page into the frame and into the table, and holds the frame.
    fn install(&mut self, frame_id: FrameId, page: Page1)
        requires
            old(self).wf(),
            old(self).has_frame(frame_id),
        ensures
            final(self).wf(),
            final(self)@.pages.len() == old(self)@.pages.len(),
            final(self)@ == (PoolState {
                page_table: old(self)@.page_table.insert(page@.page_id, frame_id),
                ..old(self)@
            }).with_page(frame_id, page@).hold(frame_id),
    {
        let page_id: PageId = page.page_id();
        self.pages.set(frame_id, page);
        let _ = self.page_table.insert(page_id, frame_id);
        proof {
            let before = old(self)@;
            let mapped = PoolState {
                page_table: before.page_table.insert(page_id, frame_id),
                ..before
            };
            lemma_map_in_bounds(before, page_id, frame_id);
            lemma_with_page_in_bounds(mapped, frame_id, page@);
            assert(self@ =~= mapped.with_page(frame_id, page@));
        }
        self.hold(frame_id);
    }

    /// Puts a new page into the frame.
    fn create_page(&mut self, frame_id: FrameId) -> (page: PageRef)
        requires
            old(self).wf(),
            old(self).has_frame(frame_id),
        ensures
            final(self).wf(),
            final(self)@.pages.len() == old(self)@.pages.len(),
            final(self)@ == old(self)@.create(frame_id),
            page.is_to(old(self)@.next_page_id, frame_id),
    {
        let page_id: PageId = self.allocate_page();
        let mut page = Page1::new(page_id);
        page.set_pin_count(1);
        self.install(frame_id, page);
        PageRef::new(page_id, frame_id)
    }

    /// Makes a new page and holds it once.
    ///
    /// Where no frame is free and none may be given up, there is no new page.
    /// Where a dirty page has to make room, it is to be written first, and
    /// [`Self::new_page_written`] goes on from there.
    pub fn new_page_ref(&mut self) -> (step: WriteStep<Option<PageRef>>)
        requires
            old(self).wf(),
        ensures
            final(self).wf(),
            final(self)@.pages.len() == old(self)@.pages.len(),
            makes_page(old(self)@, final(self)@, step),
    {
        match self.available_frame() {
            FrameStep::Exhausted => WriteStep::Done(Ok(None)),
            FrameStep::Ready(frame_id) => {
                let page = self.create_page(frame_id);
                WriteStep::Done(Ok(Some(page)))
            },
            FrameStep::Write(write) => WriteStep::Write(write),
        }
    }

    /// Goes on with a new page once the page that makes room for it was
    /// written. Where the write failed, there is no new page, and the page that
    /// was to make room stays.
    pub fn new_page_written(&mut self, write: PageWrite, reply: RustDBResult<()>) -> (result:
        RustDBResult<PageRef>)
        requires
            old(self).wf(),
            old(self).has_frame(write.frame()),
        ensures
            final(self).wf(),
            final(self)@.pages.len() == old(self)@.pages.len(),
            makes_page_after_write(old(self)@, write, reply, final(self)@, result),
    {
        match self.give_up(write, reply) {
            Ok(frame_id) => Ok(self.create_page(frame_id)),
            Err(e) => Err(e),
        }
    }

    /// Fetches a page and holds it once more.
    ///
    /// A page in the pool is found at once. Any other needs a frame, as a new
    /// page does: where there is none, the page cannot be had. Where a dirty
    /// page has to make room, it is to be written first, and
    /// [`Self::fetch_page_written`] goes on from there. Then the page is to be
    /// read, and [`Self::fetch_page_read`] ends the operation.
    pub fn fetch_page_ref(&mut self, page_id: PageId) -> (step: FetchStep<Option<PageRef>>)
        requires
            old(self).wf(),
        ensures
            final(self).wf(),
            final(self)@.pages.len() == old(self)@.pages.len(),
            fetches_page(old(self)@, page_id, final(self)@, step),
    {
        let found: Option<FrameId> = match self.page_table.get(&page_id) {
            Some(frame_id) => Some(*frame_id),
            None => None,
        };
        if let Some(frame_id) = found {
            assert(self@.page_table.contains_key(page_id));
            return FetchStep::Done(Ok(Some(self.pin(frame_id))));
        }
        match self.available_frame() {
            FrameStep::Exhausted => FetchStep::Done(Ok(None)),
            FrameStep::Ready(frame_id) => FetchStep::Read(PageRead::new(page_id, frame_id)),
            FrameStep::Write(write) => FetchStep::Write(write),
        }
    }

    /// Holds the page in the frame once more.
    fn pin(&mut self, frame_id: FrameId) -> (page: PageRef)
        requires
            old(self).wf(),
            old(self).has_frame(frame_id),
        ensures
            final(self).wf(),
            final(self)@.pages.len() == old(self)@.pages.len(),
            final(self)@ == old(self)@.pin(frame_id),
            page.is_to(old(self)@.page(frame_id).page_id, frame_id),
    {
        let page_id: PageId = self.pages[frame_id].page_id();
        let count: usize = self.pages[frame_id].pin_count();
        self.pages[frame_id].set_pin_count(count.wrapping_add(1));
        proof {
            let page = PageState { pin_count: wrapping_next(count), ..old(self)@.page(frame_id) };
            assert(self@ =~= old(self)@.with_page(frame_id, page));
            lemma_with_page_in_bounds(old(self)@, frame_id, page);
        }
        self.hold(frame_id);
        PageRef::new(page_id, frame_id)
    }

    /// Holds the page in the frame once less.
    pub(crate) fn unpin(&mut self, frame_id: FrameId)
        requires
            old(self).wf(),
            old(self).has_frame(frame_id),
        ensures
            final(self).wf(),
            final(self)@.pages.len() == old(self)@.pages.len(),
            final(self)@ == old(self)@.unpin(frame_id),
    {
        let count: usize = self.pages[frame_id].pin_count();
        self.pages[frame_id].set_pin_count(count.wrapping_sub(1));
        proof {
            let page = PageState {
                pin_count: wrapping_previous(count),
                ..old(self)@.page(frame_id)
            };
            assert(self@ =~= old(self)@.with_page(frame_id, page));
            lemma_with_page_in_bounds(old(self)@, frame_id, page);
        }
        if count == 1 {
            let ghost before = self@;
            self.replacer.set_evictable(frame_id, true);
            proof {
                assert(self@ =~= old(self)@.unpin(frame_id));
                assert(self@.replacer.log == before.replacer.log);
                assert forall|f: FrameId| #[trigger] self@.replacer.tracks(f) implies f
                    < self@.pages.len() by {
                    assert(before.replacer.tracks(f));
                }
            }
        }
    }

    /// Puts another latch on the bytes in the frame.
    fn set_latch(&mut self, frame_id: FrameId, latch: Latch)
        requires
            old(self).wf(),
            old(self).has_frame(frame_id),
        ensures
            final(self).wf(),
            final(self)@.pages.len() == old(self)@.pages.len(),
            final(self)@ == old(self)@.with_latch(frame_id, latch),
    {
        self.pages[frame_id].set_latch(latch);
        proof {
            let page = PageState { latch, ..old(self)@.page(frame_id) };
            assert(self@ =~= old(self)@.with_page(frame_id, page));
            lemma_with_page_in_bounds(old(self)@, frame_id, page);
        }
    }

    /// Latches the bytes in the frame for a change and hands them out, where
    /// nobody is at them.
    pub(crate) fn take_write(&mut self, frame_id: FrameId) -> (data: Option<PageData>)
        requires
            old(self).wf(),
            old(self).has_frame(frame_id),
        ensures
            final(self).wf(),
            final(self)@.pages.len() == old(self)@.pages.len(),
            grants_write(old(self)@, frame_id, final(self)@, data is Some),
            data matches Some(d) ==> d@ == old(self)@.page(frame_id).data,
    {
        if self.pages[frame_id].latch().is_free() {
            let data = self.pages[frame_id].data();
            self.set_latch(frame_id, Latch::Write);
            Some(data)
        } else {
            None
        }
    }

    /// Latches the bytes in the frame for one more reader and hands them out,
    /// where nobody may change them and there is room for the reader.
    pub(crate) fn take_read(&mut self, frame_id: FrameId) -> (data: Option<PageData>)
        requires
            old(self).wf(),
            old(self).has_frame(frame_id),
        ensures
            final(self).wf(),
            final(self)@.pages.len() == old(self)@.pages.len(),
            grants_read(old(self)@, frame_id, final(self)@, data is Some),
            data matches Some(d) ==> d@ == old(self)@.page(frame_id).data,
    {
        let mut latch = self.pages[frame_id].latch();
        if latch.enter() {
            let data = self.pages[frame_id].data();
            self.set_latch(frame_id, latch);
            Some(data)
        } else {
            None
        }
    }

    /// Takes one reader off the latch on the bytes in the frame.
    pub(crate) fn end_read(&mut self, frame_id: FrameId)
        requires
            old(self).wf(),
            old(self).has_frame(frame_id),
        ensures
            final(self).wf(),
            final(self)@.pages.len() == old(self)@.pages.len(),
            final(self)@ == old(self)@.unlatch_read(frame_id),
    {
        let mut latch = self.pages[frame_id].latch();
        latch.leave();
        self.set_latch(frame_id, latch);
    }

    /// Replaces the bytes of the page in the frame, which then needs a write,
    /// and takes the latch off them.
    pub(crate) fn store(&mut self, frame_id: FrameId, data: PageData)
        requires
            old(self).wf(),
            old(self).has_frame(frame_id),
        ensures
            final(self).wf(),
            final(self)@.pages.len() == old(self)@.pages.len(),
            final(self)@ == old(self)@.store(frame_id, data@),
    {
        self.pages[frame_id].set_data(data);
        self.pages[frame_id].set_dirty(true);
        self.pages[frame_id].set_latch(Latch::Free);
        proof {
            let page = PageState {
                data: data@,
                is_dirty: true,
                latch: Latch::Free,
                ..old(self)@.page(frame_id)
            };
            assert(self@ =~= old(self)@.with_page(frame_id, page));
            lemma_with_page_in_bounds(old(self)@, frame_id, page);
        }
    }

    /// Goes on with a fetch once the page that makes room was written. Where
    /// the write failed, the fetch fails, and the page that was to make room
    /// stays.
    pub fn fetch_page_written(
        &mut self,
        page_id: PageId,
        write: PageWrite,
        reply: RustDBResult<()>,
    ) -> (result: RustDBResult<PageRead>)
        requires
            old(self).wf(),
            old(self).has_frame(write.frame()),
        ensures
            final(self).wf(),
            final(self)@.pages.len() == old(self)@.pages.len(),
            fetches_after_write(old(self)@, page_id, write, reply, final(self)@, result),
    {
        match self.give_up(write, reply) {
            Ok(frame_id) => Ok(PageRead::new(page_id, frame_id)),
            Err(e) => Err(e),
        }
    }

    /// Ends a fetch once the page was read. Where the read failed, the fetch
    /// fails, and the frame that was set aside for the page stays out of use.
    pub fn fetch_page_read(&mut self, read: PageRead, reply: RustDBResult<PageData>) -> (result:
        RustDBResult<PageRef>)
        requires
            old(self).wf(),
            old(self).has_frame(read.frame()),
        ensures
            final(self).wf(),
            final(self)@.pages.len() == old(self)@.pages.len(),
            fetches_after_read(old(self)@, read, reply, final(self)@, result),
    {
        let page_id: PageId = read.page_id();
        let frame_id: FrameId = read.frame_id();
        match reply {
            Ok(data) => {
                let mut page = Page1::new(page_id);
                page.set_data(data);
                page.set_dirty(self.pages[frame_id].is_dirty());
                page.set_latch(self.pages[frame_id].latch());
                page.set_pin_count(1);
                self.install(frame_id, page);
                Ok(PageRef::new(page_id, frame_id))
            },
            Err(e) => Err(e),
        }
    }

    /// Starts to flush a page: where it is in the pool, its frame is to be
    /// latched, and [`Self::flush_page_latched`] goes on. A page that is not in
    /// the pool needs no flush.
    pub fn flush_page(&self, page_id: PageId) -> (step: FlushStep)
        requires
            self.wf(),
        ensures
            begins_flush(self@, page_id, step),
    {
        match self.page_table.get(&page_id) {
            Some(frame_id) => {
                assert(self@.page_table.contains_key(page_id));
                FlushStep::Latch(*frame_id)
            },
            None => FlushStep::Done(Ok(())),
        }
    }

    /// The request to write the page in the frame for a flush, with the bytes
    /// latched, where the page is dirty.
    fn latch_dirty(&mut self, frame_id: FrameId) -> (write: Option<PageWrite>)
        requires
            old(self).wf(),
            old(self).has_frame(frame_id),
        ensures
            final(self).wf(),
            final(self)@.pages.len() == old(self)@.pages.len(),
            write is Some <==> old(self)@.page(frame_id).is_dirty,
            match write {
                Some(w) => {
                    &&& final(self)@ == old(self)@.latch_write(frame_id)
                    &&& w.is_of(old(self)@, frame_id)
                },
                None => final(self)@ == old(self)@,
            },
    {
        if self.pages[frame_id].is_dirty() {
            let write = self.write_request(frame_id);
            self.set_latch(frame_id, Latch::Write);
            Some(write)
        } else {
            None
        }
    }

    /// Takes the latch of a flush off the bytes in the frame. The page is clean
    /// where the write succeeded.
    fn unlatch_flushed(&mut self, frame_id: FrameId, ok: bool)
        requires
            old(self).wf(),
            old(self).has_frame(frame_id),
        ensures
            final(self).wf(),
            final(self)@.pages.len() == old(self)@.pages.len(),
            final(self)@ == old(self)@.end_flush(frame_id, ok),
    {
        if ok {
            self.mark_clean(frame_id);
        }
        self.set_latch(frame_id, Latch::Free);
        assert(self@ =~= old(self)@.end_flush(frame_id, ok));
    }

    /// Goes on with the flush of one page. While a guard is at its bytes, the
    /// flush has to wait and come back here. A dirty page is latched and to be
    /// written, and [`Self::flush_page_written`] ends the flush. A clean one
    /// needs no write.
    pub fn flush_page_latched(&mut self, frame_id: FrameId) -> (step: FlushStep)
        requires
            old(self).wf(),
            old(self).has_frame(frame_id),
        ensures
            final(self).wf(),
            final(self)@.pages.len() == old(self)@.pages.len(),
            flushes_latched(old(self)@, frame_id, None, final(self)@, step),
    {
        if !self.pages[frame_id].latch().is_free() {
            return FlushStep::Latch(frame_id);
        }
        match self.latch_dirty(frame_id) {
            Some(write) => FlushStep::Write(write),
            None => FlushStep::Done(Ok(())),
        }
    }

    /// Ends the flush of one page once it was written, and takes the latch off
    /// its bytes. Where the write failed, the page stays dirty.
    pub fn flush_page_written(&mut self, write: PageWrite, reply: RustDBResult<()>) -> (result:
        RustDBResult<()>)
        requires
            old(self).wf(),
            old(self).has_frame(write.frame()),
        ensures
            final(self).wf(),
            final(self)@.pages.len() == old(self)@.pages.len(),
            result == reply,
            flushes_after_write(
                old(self)@,
                write,
                reply,
                None,
                final(self)@,
                FlushStep::Done(result),
            ),
    {
        self.unlatch_flushed(write.frame_id(), reply.is_ok());
        reply
    }

    /// Starts to flush all pages, one frame after the other: the first frame is
    /// to be latched, and [`Self::flush_page_all_latched`] goes on.
    pub fn flush_page_all(&self) -> (step: FlushStep)
        requires
            self.wf(),
        ensures
            begins_flush_all(self@, step),
    {
        if self.pool_size > 0 {
            FlushStep::Latch(0)
        } else {
            FlushStep::Done(Ok(()))
        }
    }

    /// Goes on with the flush of all pages behind the given frame.
    fn flush_next(&self, frame_id: FrameId) -> (step: FlushStep)
        requires
            self.wf(),
            self.has_frame(frame_id),
        ensures
            flush_goes_on(self@.frame_from(frame_id + 1), step),
    {
        if frame_id + 1 < self.pool_size {
            FlushStep::Latch(frame_id + 1)
        } else {
            FlushStep::Done(Ok(()))
        }
    }

    /// Goes on with the flush of all pages. While a guard is at the bytes in the
    /// frame, the flush has to wait and come back here. A dirty page is latched
    /// and to be written, and [`Self::flush_page_all_written`] goes on from
    /// there. After a clean one the next frame is to be latched.
    pub fn flush_page_all_latched(&mut self, frame_id: FrameId) -> (step: FlushStep)
        requires
            old(self).wf(),
            old(self).has_frame(frame_id),
        ensures
            final(self).wf(),
            final(self)@.pages.len() == old(self)@.pages.len(),
            flushes_all_latched(old(self)@, frame_id, final(self)@, step),
    {
        if !self.pages[frame_id].latch().is_free() {
            return FlushStep::Latch(frame_id);
        }
        match self.latch_dirty(frame_id) {
            Some(write) => FlushStep::Write(write),
            None => self.flush_next(frame_id),
        }
    }

    /// Goes on with the flush of all pages once one was written, and takes the
    /// latch off its bytes. Where the write failed, the flush fails, and that
    /// page stays dirty.
    pub fn flush_page_all_written(&mut self, write: PageWrite, reply: RustDBResult<()>) -> (step:
        FlushStep)
        requires
            old(self).wf(),
            old(self).has_frame(write.frame()),
        ensures
            final(self).wf(),
            final(self)@.pages.len() == old(self)@.pages.len(),
            flushes_all_after_write(old(self)@, write, reply, final(self)@, step),
    {
        let frame_id: FrameId = write.frame_id();
        self.unlatch_flushed(frame_id, reply.is_ok());
        match reply {
            Ok(_) => self.flush_next(frame_id),
            Err(e) => FlushStep::Done(Err(e)),
        }
    }

    /// Deletes a page from the pool: a clean page at once, a dirty one after a
    /// write, with [`Self::delete_page_written`] to go on from there. A page
    /// that is held, or is not in the pool, is not deleted.
    pub fn delete_page(&mut self, page_id: PageId) -> (step: WriteStep<Option<PageId>>)
        requires
            old(self).wf(),
        ensures
            final(self).wf(),
            final(self)@.pages.len() == old(self)@.pages.len(),
            deletes_page(old(self)@, page_id, final(self)@, step),
    {
        let found: Option<FrameId> = match self.page_table.get(&page_id) {
            Some(frame_id) => Some(*frame_id),
            None => None,
        };
        match found {
            Some(frame_id) => {
                assert(self@.page_table.contains_key(page_id));
                if self.pages[frame_id].pin_count() > 0 {
                    WriteStep::Done(Ok(None))
                } else if self.pages[frame_id].is_dirty() {
                    WriteStep::Write(self.write_request(frame_id))
                } else {
                    WriteStep::Done(self.erase(page_id, frame_id))
                }
            },
            None => WriteStep::Done(Ok(None)),
        }
    }

    /// Goes on with a delete once the page was written. Where the write failed,
    /// the page stays.
    pub fn delete_page_written(
        &mut self,
        page_id: PageId,
        write: PageWrite,
        reply: RustDBResult<()>,
    ) -> (result: RustDBResult<Option<PageId>>)
        requires
            old(self).wf(),
            old(self).has_frame(write.frame()),
        ensures
            final(self).wf(),
            final(self)@.pages.len() == old(self)@.pages.len(),
            deletes_after_write(old(self)@, page_id, write, reply, final(self)@, result),
    {
        let frame_id: FrameId = write.frame_id();
        match reply {
            Ok(_) => {
                self.mark_clean(frame_id);
                self.erase(page_id, frame_id)
            },
            Err(e) => Err(e),
        }
    }

    /// Deletes a clean page from its frame.
    fn erase(&mut self, page_id: PageId, frame_id: FrameId) -> (result: RustDBResult<
        Option<PageId>,
    >)
        requires
            old(self).wf(),
            old(self).has_frame(frame_id),
        ensures
            final(self).wf(),
            final(self)@.pages.len() == old(self)@.pages.len(),
            final(self)@ == old(self)@.erase(page_id, frame_id),
            old(self)@.erase_result(page_id, frame_id, result),
    {
        self.pages[frame_id].reset();
        let ghost blanked = old(self)@.with_page(frame_id, PageState::blank(0));
        proof {
            assert(self@ =~= blanked);
            lemma_with_page_in_bounds(old(self)@, frame_id, PageState::blank(0));
        }
        match self.replacer.remove(frame_id) {
            Ok(_) => {
                self.free_list.push_back(frame_id);
                proof {
                    lemma_forget_in_bounds(blanked, frame_id);
                    let freed = PoolState {
                        replacer: blanked.replacer.forget(frame_id),
                        free_list: blanked.free_list.push(frame_id),
                        ..blanked
                    };
                    assert(self@ =~= freed);
                    assert forall|i: int| 0 <= i < freed.free_list.len() implies #[trigger]
                        freed.free_list[i] < freed.pages.len() by {
                        if i < blanked.free_list.len() {
                            assert(freed.free_list[i] == blanked.free_list[i]);
                        }
                    }
                    assert forall|f: FrameId| #[trigger] freed.replacer.tracks(f) implies f
                        < freed.pages.len() by {
                        assert((PoolState {
                            replacer: blanked.replacer.forget(frame_id),
                            ..blanked
                        }).replacer.tracks(f));
                    }
                    assert(freed.in_bounds());
                }
                self.unmap(page_id);
                Ok(Some(page_id))
            },
            Err(e) => {
                assert(self@ =~= blanked);
                Err(e)
            },
        }
    }

    /// Fetches a page, and fails where there is no frame for it.
    fn fetch_or_fail(&mut self, page_id: PageId) -> (step: FetchStep<PageRef>)
        requires
            old(self).wf(),
        ensures
            final(self).wf(),
            final(self)@.pages.len() == old(self)@.pages.len(),
            fetches_or_fails(old(self)@, page_id, final(self)@, step),
    {
        match self.fetch_page_ref(page_id) {
            FetchStep::Done(Ok(Some(page))) => FetchStep::Done(Ok(page)),
            FetchStep::Done(Ok(None)) => FetchStep::Done(
                Err(RustDBError::BufferPool("Can't fetch page".to_string())),
            ),
            FetchStep::Done(Err(e)) => FetchStep::Done(Err(e)),
            FetchStep::Write(write) => FetchStep::Write(write),
            FetchStep::Read(read) => FetchStep::Read(read),
        }
    }

    /// Fetches a page whose bytes are to be read, and fails where there is no
    /// frame for it. [`PageRef::data_read_owned`] then takes the bytes.
    pub fn fetch_page_read_owned(&mut self, page_id: PageId) -> (step: FetchStep<PageRef>)
        requires
            old(self).wf(),
        ensures
            final(self).wf(),
            final(self)@.pages.len() == old(self)@.pages.len(),
            fetches_or_fails(old(self)@, page_id, final(self)@, step),
    {
        self.fetch_or_fail(page_id)
    }

    /// Fetches a page whose bytes are to be changed, and fails where there is
    /// no frame for it. [`PageRef::data_write_owned`] then takes the bytes.
    pub fn fetch_page_write_owned(&mut self, page_id: PageId) -> (step: FetchStep<PageRef>)
        requires
            old(self).wf(),
        ensures
            final(self).wf(),
            final(self)@.pages.len() == old(self)@.pages.len(),
            fetches_or_fails(old(self)@, page_id, final(self)@, step),
    {
        self.fetch_or_fail(page_id)
    }

    /// Fetches a page that holds a node, and fails where there is no frame for
    /// it. [`Self::decode_page_node`] then reads the node.
    pub fn fetch_page_node(&mut self, page_id: PageId) -> (step: FetchStep<PageRef>)
        requires
            old(self).wf(),
        ensures
            final(self).wf(),
            final(self)@.pages.len() == old(self)@.pages.len(),
            fetches_or_fails(old(self)@, page_id, final(self)@, step),
    {
        self.fetch_or_fail(page_id)
    }

    /// Reads the node in a page that was fetched. While the bytes may be
    /// changed, the reference is handed back, to come back here with. Where the
    /// bytes hold no node, the reference is given back to the pool.
    pub fn decode_page_node<K>(&mut self, page: PageRef) -> (step: NodeStep<K>) where K: Decoder
        requires
            old(self).wf(),
            old(self).has_frame(page.frame()),
        ensures
            final(self).wf(),
            final(self)@.pages.len() == old(self)@.pages.len(),
            reads_node(old(self)@, page, final(self)@, step),
    {
        let frame_id: FrameId = page.frame_id();
        let mut latch = self.pages[frame_id].latch();
        if !latch.enter() {
            return NodeStep::Latch(page);
        }
        let data = self.pages[frame_id].data();
        match data.node() {
            Ok(node) => NodeStep::Done(Ok((page, node))),
            Err(e) => {
                page.release(self);
                NodeStep::Done(Err(e))
            },
        }
    }

    /// Makes a new page for a node, and fails where there is no frame for it.
    fn create_or_fail<K>(&mut self, node: &mut Node<K>) -> (step: WriteStep<PageRef>)
        requires
            old(self).wf(),
        ensures
            final(self).wf(),
            final(self)@.pages.len() == old(self)@.pages.len(),
            creates_or_fails(old(self)@, *old(node), final(self)@, *final(node), step),
    {
        match self.new_page_ref() {
            WriteStep::Done(Ok(Some(page))) => {
                node.set_page_id(page.page_id());
                WriteStep::Done(Ok(page))
            },
            WriteStep::Done(Ok(None)) => WriteStep::Done(
                Err(RustDBError::BufferPool("Can't new page".to_string())),
            ),
            WriteStep::Done(Err(e)) => WriteStep::Done(Err(e)),
            WriteStep::Write(write) => WriteStep::Write(write),
        }
    }

    /// Makes a new page for a node, and puts the node under its id. It fails
    /// where there is no frame for the page. Where a dirty page has to make
    /// room, [`Self::new_page_node_written`] goes on after the write.
    pub fn new_page_node<K>(&mut self, node: &mut Node<K>) -> (step: WriteStep<
        PageRef,
    >) where K: Encoder
        requires
            old(self).wf(),
        ensures
            final(self).wf(),
            final(self)@.pages.len() == old(self)@.pages.len(),
            creates_or_fails(old(self)@, *old(node), final(self)@, *final(node), step),
    {
        self.create_or_fail(node)
    }

    /// Makes a new page for a node whose bytes are to be written, and puts the
    /// node under its id. It fails where there is no frame for the page. Where
    /// a dirty page has to make room, [`Self::new_page_node_written`] goes on
    /// after the write. [`PageRef::data_write_owned`] then takes the bytes.
    pub fn new_page_write_owned<K>(&mut self, node: &mut Node<K>) -> (step: WriteStep<
        PageRef,
    >) where K: Encoder
        requires
            old(self).wf(),
        ensures
            final(self).wf(),
            final(self)@.pages.len() == old(self)@.pages.len(),
            creates_or_fails(old(self)@, *old(node), final(self)@, *final(node), step),
    {
        self.create_or_fail(node)
    }

    /// Goes on with a new page for a node once the page that makes room for it
    /// was written. Where the write failed, there is no new page, and the node
    /// stays as it is.
    pub fn new_page_node_written<K>(
        &mut self,
        node: &mut Node<K>,
        write: PageWrite,
        reply: RustDBResult<()>,
    ) -> (result: RustDBResult<PageRef>) where K: Encoder
        requires
            old(self).wf(),
            old(self).has_frame(write.frame()),
        ensures
            final(self).wf(),
            final(self)@.pages.len() == old(self)@.pages.len(),
            creates_after_write(
                old(self)@,
                *old(node),
                write,
                reply,
                final(self)@,
                *final(node),
                result,
            ),
    {
        match self.new_page_written(write, reply) {
            Ok(page) => {
                node.set_page_id(page.page_id());
                Ok(page)
            },
            Err(e) => Err(e),
        }
    }
}

} // verus!
