//! What a caller gets from each call, and what the call leaves alone.
//!
//! The laws speak of the functions themselves, of what goes into a call, what
//! comes out of it, and the tables and pages before and after.
use vstd::prelude::*;

use crate::availability::law_refused_exactly_when_all_are_held;
use crate::error::{RustDBError, RustDBResult};
use crate::guard::{
    OwnedPageDataReadGuard, OwnedPageDataWriteGuard, PageDataReadGuard, PageDataWriteGuard, PageRef,
};
use crate::node::{decodes_to, Decoder, Encoder, Node};
use crate::page::{FrameId, Latch, PageData, PageId, PageState, MAX_READERS, PAGE_SIZE};
use crate::pool::BufferPoolManager;
use crate::replacer::{
    law_last_k_accesses_count, law_victim_comes_first, lemma_access_tracks, lemma_without, without,
};
use crate::state::{Claim, PoolState};
use crate::step::{
    fetches_page, makes_page, FetchStep, FlushStep, NodeStep, PageRead, PageWrite, WriteStep,
};
use crate::system::System;

verus! {

/// Whether at most the page in one frame differs.
pub open spec fn same_but_frame(before: PoolState, after: PoolState, frame_id: FrameId) -> bool {
    &&& after.pages.len() == before.pages.len()
    &&& forall|f: FrameId|
        f < before.pages.len() && f != frame_id ==> after.pages[f as int]
            == #[trigger] before.pages[f as int]
}

/// Whether every page but those two is found where it was found before, and no
/// other page is found that was not.
pub open spec fn same_but_pages(
    before: PoolState,
    after: PoolState,
    one: PageId,
    other: PageId,
) -> bool {
    forall|p: PageId|
        p != one && p != other ==> {
            &&& #[trigger] after.page_table.contains_key(p) == before.page_table.contains_key(p)
            &&& before.page_table.contains_key(p) ==> after.page_table[p] == before.page_table[p]
        }
}

/// Whether the latest access on record is one of the frame, which may not be given
/// up.
pub open spec fn was_just_accessed(pool: PoolState, frame_id: FrameId) -> bool {
    &&& pool.replacer.log.len() > 0
    &&& pool.replacer.log.last() == frame_id
    &&& !pool.replacer.evictable.contains(frame_id)
}

/// Whether the page is in the frame as a new one: found there, held once, clean,
/// with nobody at its bytes, all of which are 0.
pub open spec fn is_new_in(pool: PoolState, page_id: PageId, frame_id: FrameId) -> bool {
    let page = pool.pages[frame_id as int];
    &&& frame_id < pool.pages.len()
    &&& pool.page_table.contains_pair(page_id, frame_id)
    &&& page.page_id == page_id
    &&& page.pin_count == 1
    &&& !page.is_dirty
    &&& page.latch is Free
    &&& was_just_accessed(pool, frame_id)
    &&& page.data.len() == PAGE_SIZE
    &&& forall|i: int| 0 <= i < PAGE_SIZE ==> #[trigger] page.data[i] == 0
}

/// Whether the request is to write a page that nobody holds, that needs the
/// write, and as it is in the pool, which has no frame that is free. Until it is
/// written, everything is found where it was.
pub open spec fn writes_back_for_room(
    before: PoolState,
    after: PoolState,
    write: PageWrite,
) -> bool {
    let page = before.pages[write.frame() as int];
    &&& before.free_list.len() == 0
    &&& write.frame() < before.pages.len()
    &&& write.id() == page.page_id
    &&& write.bytes() == page.data
    &&& page.is_dirty
    &&& before.coherent() ==> {
        &&& before.page_table.contains_pair(page.page_id, write.frame())
        &&& page.pin_count == 0
    }
    &&& after.pages == before.pages
    &&& after.page_table == before.page_table
    &&& after.free_list == before.free_list
    &&& after.next_page_id == before.next_page_id
    &&& !after.replacer.log.contains(write.frame())
}

/// Whether a page is refused as it should: nothing changes, no frame is free,
/// and none may be given up, as every page that could make room is held.
pub open spec fn is_refused(before: PoolState, after: PoolState) -> bool {
    &&& after == before
    &&& before.free_list.len() == 0
    &&& forall|f: FrameId| #[trigger]
        before.replacer.tracks(f) ==> {
            &&& !before.replacer.evictable.contains(f)
            &&& before.coherent() ==> before.pages[f as int].pin_count > 0
        }
}

/// Whether a frame was free, and the first of them is taken, or none was, and
/// the frame is taken from a clean page that nobody holds, which is no longer
/// found.
pub open spec fn takes_frame(before: PoolState, after: PoolState, frame_id: FrameId) -> bool {
    let page = before.pages[frame_id as int];
    if before.free_list.len() > 0 {
        &&& frame_id == before.free_list[0]
        &&& after.free_list == before.free_list.subrange(1, before.free_list.len() as int)
    } else {
        &&& !page.is_dirty
        &&& after.free_list.len() == 0
        &&& before.coherent() ==> {
            &&& before.page_table.contains_pair(page.page_id, frame_id)
            &&& page.pin_count == 0
        }
    }
}

/// A new pool has as many frames as asked for, all of them free and to be used
/// in order, no page, the first id still to give, and counts as many accesses of
/// a page as asked for.
pub proof fn law_new_pool_is_empty(
    pool_size: usize,
    k: usize,
    result: RustDBResult<BufferPoolManager>,
)
    requires
        call_ensures(BufferPoolManager::new, (pool_size, k), result),
    ensures
        result matches Ok(pool) && {
            &&& pool.wf()
            &&& pool@.pages.len() == pool_size
            &&& pool@.free_list.len() == pool_size
            &&& forall|i: int| 0 <= i < pool_size ==> #[trigger] pool@.free_list[i] == i
            &&& pool@.page_table == Map::<PageId, FrameId>::empty()
            &&& pool@.next_page_id == 0
            &&& pool@.replacer.k == k
            &&& forall|f: FrameId| !#[trigger] pool@.replacer.tracks(f)
            &&& forall|f: FrameId|
                f < pool_size ==> {
                    let page = #[trigger] pool@.pages[f as int];
                    page.pin_count == 0 && !page.is_dirty && page.latch is Free
                }
        },
{
}

/// While some frame is free, a new page is made at once, in the first of the
/// free frames. Nothing is to be written, and no page leaves the pool: every
/// other page is found where it was.
pub proof fn law_new_page_uses_a_free_frame_first(
    pool: &mut BufferPoolManager,
    step: WriteStep<Option<PageRef>>,
)
    requires
        call_ensures(BufferPoolManager::new_page_ref, (pool,), step),
        old(pool)@.free_list.len() > 0,
    ensures
        step matches WriteStep::Done(Ok(Some(page))) && page.frame() == old(pool)@.free_list[0],
        !(step is Write),
        forall|p: PageId| #[trigger]
            old(pool)@.page_table.contains_key(p) ==> {
                &&& final(pool)@.page_table.contains_key(p)
                &&& p != old(pool)@.next_page_id ==> final(pool)@.page_table[p]
                    == old(pool)@.page_table[p]
            },
{
}

/// While some frame is free, a fetch finds the page or reads it into the first
/// of the free frames. Nothing is to be written, and no page leaves the pool:
/// every page is found where it was.
pub proof fn law_fetch_uses_a_free_frame_first(
    pool: &mut BufferPoolManager,
    page_id: PageId,
    step: FetchStep<Option<PageRef>>,
)
    requires
        call_ensures(BufferPoolManager::fetch_page_ref, (pool, page_id), step),
        old(pool)@.free_list.len() > 0,
    ensures
        !(step is Write),
        !old(pool)@.page_table.contains_key(page_id) ==> (step matches FetchStep::Read(read)
            && read.id() == page_id && read.frame() == old(pool)@.free_list[0]),
        final(pool)@.page_table == old(pool)@.page_table,
        final(pool)@.free_list.len() > 0 || old(pool)@.free_list.len() == 1,
{
}

/// What a new page comes to. The page gets the next id and is put into one
/// frame; at most the clean page that was in the frame leaves the pool, and that
/// only when no frame was free. A dirty page is written first, and until then
/// nothing changes that a caller can find. Where there is no page, nothing
/// changes at all, no frame is free, and none may be given up.
pub open spec fn new_page_comes_to(
    before: PoolState,
    after: PoolState,
    step: WriteStep<Option<PageRef>>,
) -> bool {
    &&& after.pages.len() == before.pages.len()
    &&& match step {
        WriteStep::Done(Ok(Some(page))) => {
            let left = before.pages[page.frame() as int].page_id;
            &&& page.id() == before.next_page_id
            &&& is_new_in(after, page.id(), page.frame())
            &&& same_but_frame(before, after, page.frame())
            &&& same_but_pages(before, after, page.id(), left)
            &&& takes_frame(before, after, page.frame())
            &&& before.free_list.len() == 0 && left != page.id()
                ==> !after.page_table.contains_key(left)
            &&& before.free_list.len() > 0 && left != page.id()
                ==> after.page_table.contains_key(left)
                == before.page_table.contains_key(left)
            &&& after.next_page_id == if page.id() == usize::MAX {
                0
            } else {
                page.id() + 1
            }
        },
        WriteStep::Done(Ok(None)) => is_refused(before, after),
        WriteStep::Done(Err(_)) => false,
        WriteStep::Write(write) => writes_back_for_room(before, after, write),
    }
}

/// A frame that was held was just accessed.
proof fn lemma_hold_is_access(pool: PoolState, frame_id: FrameId)
    ensures
        was_just_accessed(pool.hold(frame_id), frame_id),
{
    law_last_k_accesses_count(pool.replacer, frame_id, frame_id);
    lemma_access_tracks(pool.replacer, frame_id);
    assert(pool.replacer.access(frame_id).tracks(frame_id));
}

/// A new page comes to what it should.
proof fn lemma_makes_page(before: PoolState, after: PoolState, step: WriteStep<Option<PageRef>>)
    requires
        makes_page(before, after, step),
    ensures
        new_page_comes_to(before, after, step),
{
    if let Claim::Ready(f) = before.claim() {
        lemma_hold_is_access(before.after_claim(), f);
    }
    law_victim_comes_first(before.replacer);
    if let Some(f) = before.replacer.victim() {
        assert(before.replacer.may_evict(f));
        assert(before.replacer.tracks(f));
        assert(before.coherent() ==> before.resident(f));
        lemma_without(before.replacer.log, f);
        assert(!without(before.replacer.log, f).contains(f));
    }
    assert forall|f: FrameId| before.claim() is Exhausted && #[trigger]
        before.replacer.tracks(f) implies !before.replacer.evictable.contains(f) by {
        assert(!before.replacer.may_evict(f));
    }
}

/// [`BufferPoolManager::new_page_ref`] makes a new page.
pub proof fn law_new_page_outcome(
    pool: &mut BufferPoolManager,
    step: WriteStep<Option<PageRef>>,
)
    requires
        call_ensures(BufferPoolManager::new_page_ref, (pool,), step),
    ensures
        new_page_comes_to(old(pool)@, final(pool)@, step),
{
    lemma_makes_page(old(pool)@, final(pool)@, step);
}

/// What a new page comes to once the disk has replied. Where the write
/// succeeded, the new page takes the frame of the page that was written, which
/// alone leaves the pool. Where it failed, that error is returned, and nothing
/// changes.
pub open spec fn new_page_written_comes_to(
    before: PoolState,
    write: PageWrite,
    reply: RustDBResult<()>,
    after: PoolState,
    result: RustDBResult<PageRef>,
) -> bool {
    match reply {
        Ok(_) => result matches Ok(page) && {
            &&& page.id() == before.next_page_id
            &&& page.frame() == write.frame()
            &&& is_new_in(after, page.id(), page.frame())
            &&& same_but_frame(before, after, page.frame())
            &&& same_but_pages(before, after, page.id(), write.id())
            &&& write.id() != page.id() ==> !after.page_table.contains_key(write.id())
            &&& after.free_list == before.free_list
            &&& after.next_page_id == if page.id() == usize::MAX {
                0
            } else {
                page.id() + 1
            }
        },
        Err(e) => {
            &&& result == Err::<PageRef, RustDBError>(e)
            &&& after == before
        },
    }
}

/// [`BufferPoolManager::new_page_written`] makes a new page.
pub proof fn law_new_page_written_outcome(
    pool: &mut BufferPoolManager,
    write: PageWrite,
    reply: RustDBResult<()>,
    result: RustDBResult<PageRef>,
)
    requires
        call_ensures(BufferPoolManager::new_page_written, (pool, write, reply), result),
        write.frame() < old(pool)@.pages.len(),
        write.id() == old(pool)@.pages[write.frame() as int].page_id,
    ensures
        new_page_written_comes_to(old(pool)@, write, reply, final(pool)@, result),
{
    lemma_hold_is_access(old(pool)@.give_up(write.frame()), write.frame());
}

/// What a fetch comes to. A page in the pool is found where it is, and held
/// once more. For any other a frame is taken: at most the clean page that was in
/// the frame leaves the pool, and that only when no frame was free. A dirty page
/// is written first. Where the page cannot be had, nothing changes, no frame is
/// free, and none may be given up.
pub open spec fn fetch_comes_to(
    before: PoolState,
    page_id: PageId,
    after: PoolState,
    step: FetchStep<Option<PageRef>>,
) -> bool {
    &&& after.next_page_id == before.next_page_id
    &&& (step matches FetchStep::Done(Ok(Some(_)))) <==> before.page_table.contains_key(page_id)
    &&& match step {
        FetchStep::Done(Ok(Some(page))) => {
            let held = before.pages[page.frame() as int];
            let now = after.pages[page.frame() as int];
            &&& before.coherent() ==> page.id() == page_id
            &&& page.id() == held.page_id
            &&& page.frame() < before.pages.len()
            &&& before.page_table.contains_pair(page_id, page.frame())
            &&& after.page_table == before.page_table
            &&& after.free_list == before.free_list
            &&& same_but_frame(before, after, page.frame())
            &&& now.page_id == held.page_id
            &&& now.data == held.data
            &&& now.is_dirty == held.is_dirty
            &&& now.latch == held.latch
            &&& was_just_accessed(after, page.frame())
            &&& now.pin_count == if held.pin_count == usize::MAX {
                0
            } else {
                held.pin_count + 1
            }
        },
        FetchStep::Done(Ok(None)) => is_refused(before, after),
        FetchStep::Done(Err(_)) => false,
        FetchStep::Write(write) => writes_back_for_room(before, after, write),
        FetchStep::Read(read) => {
            let left = before.pages[read.frame() as int].page_id;
            &&& read.id() == page_id
            &&& read.frame() < before.pages.len()
            &&& after.pages == before.pages
            &&& takes_frame(before, after, read.frame())
            &&& before.free_list.len() > 0 ==> {
                &&& after.page_table == before.page_table
                &&& after.replacer == before.replacer
            }
            &&& before.free_list.len() == 0 ==> {
                &&& same_but_pages(before, after, left, left)
                &&& !after.page_table.contains_key(left)
                &&& !after.replacer.log.contains(read.frame())
            }
        },
    }
}

/// A fetch comes to what it should.
proof fn lemma_fetches_page(
    before: PoolState,
    page_id: PageId,
    after: PoolState,
    step: FetchStep<Option<PageRef>>,
)
    requires
        fetches_page(before, page_id, after, step),
    ensures
        fetch_comes_to(before, page_id, after, step),
{
    lemma_hold_is_access(before, before.page_table[page_id]);
    law_victim_comes_first(before.replacer);
    if let Some(f) = before.replacer.victim() {
        assert(before.replacer.may_evict(f));
        assert(before.replacer.tracks(f));
        assert(before.coherent() ==> before.resident(f));
        lemma_without(before.replacer.log, f);
        assert(!without(before.replacer.log, f).contains(f));
    }
    assert forall|f: FrameId| before.claim() is Exhausted && #[trigger]
        before.replacer.tracks(f) implies !before.replacer.evictable.contains(f) by {
        assert(!before.replacer.may_evict(f));
    }
}

/// [`BufferPoolManager::fetch_page_ref`] fetches a page.
pub proof fn law_fetch_outcome(
    pool: &mut BufferPoolManager,
    page_id: PageId,
    step: FetchStep<Option<PageRef>>,
)
    requires
        call_ensures(BufferPoolManager::fetch_page_ref, (pool, page_id), step),
    ensures
        fetch_comes_to(old(pool)@, page_id, final(pool)@, step),
{
    lemma_fetches_page(old(pool)@, page_id, final(pool)@, step);
}

/// What a fetch comes to once the disk has replied to the write. Where it
/// succeeded, the page is to be read into the frame of the page that was
/// written, which alone leaves the pool. Where it failed, that error is
/// returned, and nothing changes.
pub proof fn law_fetch_written_outcome(
    pool: &mut BufferPoolManager,
    page_id: PageId,
    write: PageWrite,
    reply: RustDBResult<()>,
    result: RustDBResult<PageRead>,
)
    requires
        call_ensures(BufferPoolManager::fetch_page_written, (pool, page_id, write, reply), result),
        write.frame() < old(pool)@.pages.len(),
        write.id() == old(pool)@.pages[write.frame() as int].page_id,
    ensures
        match reply {
            Ok(_) => result matches Ok(read) && {
                let page = old(pool)@.pages[write.frame() as int];
                let after = final(pool)@.pages[write.frame() as int];
                &&& read.id() == page_id
                &&& read.frame() == write.frame()
                &&& same_but_frame(old(pool)@, final(pool)@, write.frame())
                &&& !after.is_dirty
                &&& after.pin_count == page.pin_count
                &&& after.latch == page.latch
                &&& final(pool)@.page_table == old(pool)@.page_table.remove(write.id())
                &&& final(pool)@.free_list == old(pool)@.free_list
                &&& final(pool)@.next_page_id == old(pool)@.next_page_id
            },
            Err(e) => {
                &&& result == Err::<PageRead, RustDBError>(e)
                &&& final(pool)@ == old(pool)@
            },
        },
{
}

/// What a fetch comes to once the disk has replied to the read. Where it
/// succeeded, the page is in the frame with the bytes that were read, clean as
/// the frame was, and held once. Where it failed, that error is returned, and
/// nothing changes.
pub proof fn law_fetch_read_outcome(
    pool: &mut BufferPoolManager,
    read: PageRead,
    reply: RustDBResult<PageData>,
    result: RustDBResult<PageRef>,
)
    requires
        call_ensures(BufferPoolManager::fetch_page_read, (pool, read, reply), result),
        read.frame() < old(pool)@.pages.len(),
    ensures
        match reply {
            Ok(data) => result matches Ok(page) && {
                let after = final(pool)@.pages[read.frame() as int];
                &&& page.id() == read.id()
                &&& page.frame() == read.frame()
                &&& after.page_id == read.id()
                &&& after.data == data@
                &&& after.pin_count == 1
                &&& after.is_dirty == old(pool)@.pages[read.frame() as int].is_dirty
                &&& after.latch == old(pool)@.pages[read.frame() as int].latch
                &&& same_but_frame(old(pool)@, final(pool)@, read.frame())
                &&& was_just_accessed(final(pool)@, read.frame())
                &&& final(pool)@.page_table.contains_pair(read.id(), read.frame())
                &&& same_but_pages(old(pool)@, final(pool)@, read.id(), read.id())
                &&& final(pool)@.free_list == old(pool)@.free_list
                &&& final(pool)@.next_page_id == old(pool)@.next_page_id
            },
            Err(e) => {
                &&& result == Err::<PageRef, RustDBError>(e)
                &&& final(pool)@ == old(pool)@
            },
        },
{
    lemma_hold_is_access(old(pool)@, read.frame());
}

/// Whether `result` says that the page was deleted, and the pool bears it out:
/// the page was in it and is not any more, its frame is the last of the free
/// ones, and every other page is found where it was.
pub open spec fn tells_deletion(
    before: PoolState,
    page_id: PageId,
    after: PoolState,
    result: RustDBResult<Option<PageId>>,
) -> bool {
    let f = before.page_table[page_id];
    &&& result matches Ok(Some(q)) && q == page_id
    &&& before.page_table.contains_key(page_id)
    &&& !after.page_table.contains_key(page_id)
    &&& same_but_pages(before, after, page_id, page_id)
    &&& same_but_frame(before, after, f)
    &&& after.free_list.len() == before.free_list.len() + 1
    &&& after.free_list.last() == f
    &&& after.free_list.subrange(0, before.free_list.len() as int) == before.free_list
    &&& after.pages[f as int].pin_count == 0
    &&& !after.pages[f as int].is_dirty
    &&& after.pages[f as int].latch is Free
    &&& after.next_page_id == before.next_page_id
    &&& !after.replacer.log.contains(f)
}

/// Whether the deletion fails as it should where the replacer has a frame on
/// record that nobody holds and that it may not give up: the page is still found.
pub open spec fn refuses_deletion(
    before: PoolState,
    after: PoolState,
    result: RustDBResult<Option<PageId>>,
) -> bool {
    &&& result matches Err(e) && e.is_buffer_pool("Frame is not evictable"@)
    &&& after.page_table == before.page_table
    &&& after.free_list == before.free_list
    &&& after.replacer == before.replacer
    &&& after.next_page_id == before.next_page_id
}

/// Whether the replacer has the frame on record and may not give it up.
pub open spec fn is_kept(pool: PoolState, frame_id: FrameId) -> bool {
    pool.replacer.log.contains(frame_id) && !pool.replacer.evictable.contains(frame_id)
}

/// What the deletion of a page comes to. It tells the id of the page that was
/// deleted, exactly when that page was in the pool before and is not after. A
/// page that is held, or is not in the pool, is left alone, with nothing told. A
/// dirty page is to be written first, as it is in the pool. It never fails while
/// the parts of the pool agree with each other.
pub proof fn law_delete_outcome(
    pool: &mut BufferPoolManager,
    page_id: PageId,
    step: WriteStep<Option<PageId>>,
)
    requires
        call_ensures(BufferPoolManager::delete_page, (pool, page_id), step),
    ensures
        step matches WriteStep::Done(Ok(Some(q))) ==> q == page_id,
        (step matches WriteStep::Done(Ok(Some(_)))) <==> old(pool)@.page_table.contains_key(page_id)
            && !final(pool)@.page_table.contains_key(page_id),
        old(pool)@.coherent() ==> !(step matches WriteStep::Done(Err(_))),
        ({
            let f = old(pool)@.page_table[page_id];
            let page = old(pool)@.pages[f as int];
            if !old(pool)@.page_table.contains_key(page_id) || page.pin_count > 0 {
                &&& step matches WriteStep::Done(Ok(None))
                &&& final(pool)@ == old(pool)@
            } else if page.is_dirty {
                &&& step matches WriteStep::Write(write)
                &&& write.id() == page.page_id
                &&& old(pool)@.coherent() ==> write.id() == page_id
                &&& write.frame() == f
                &&& write.bytes() == page.data
                &&& final(pool)@ == old(pool)@
            } else {
                &&& step matches WriteStep::Done(result)
                &&& if is_kept(old(pool)@, f) {
                    refuses_deletion(old(pool)@, final(pool)@, result)
                } else {
                    tells_deletion(old(pool)@, page_id, final(pool)@, result)
                }
            }
        }),
{
    let before = old(pool)@;
    let f = before.page_table[page_id];
    lemma_pushed(before.free_list, f);
    lemma_without(before.replacer.log, f);
    assert(!without(before.replacer.log, f).contains(f));
    if before.coherent() && before.page_table.contains_key(page_id) {
        assert(before.replacer.tracks(f) ==> (before.replacer.evictable.contains(f)
            <==> before.page(f).pin_count == 0));
    }
}

/// What the deletion of a dirty page comes to once the disk has replied. Where
/// the write succeeded, the page is deleted, and its id is told. Where it
/// failed, that error is returned, and the page stays.
pub proof fn law_delete_written_outcome(
    pool: &mut BufferPoolManager,
    page_id: PageId,
    write: PageWrite,
    reply: RustDBResult<()>,
    result: RustDBResult<Option<PageId>>,
)
    requires
        call_ensures(
            BufferPoolManager::delete_page_written,
            (pool, page_id, write, reply),
            result,
        ),
        write.frame() < old(pool)@.pages.len(),
        old(pool)@.page_table.contains_pair(page_id, write.frame()),
    ensures
        result matches Ok(Some(q)) ==> q == page_id,
        (result matches Ok(Some(_))) <==> !final(pool)@.page_table.contains_key(page_id),
        match reply {
            Ok(_) => if is_kept(old(pool)@, write.frame()) {
                refuses_deletion(old(pool)@, final(pool)@, result)
            } else {
                tells_deletion(old(pool)@, page_id, final(pool)@, result)
            },
            Err(e) => {
                &&& result == Err::<Option<PageId>, RustDBError>(e)
                &&& final(pool)@ == old(pool)@
            },
        },
        old(pool)@.coherent() && old(pool)@.pages[write.frame() as int].pin_count == 0
            ==> !is_kept(old(pool)@, write.frame()),
{
    let before = old(pool)@;
    let f = write.frame();
    lemma_pushed(before.free_list, f);
    lemma_without(before.replacer.log, f);
    assert(!without(before.replacer.log, f).contains(f));
    if before.coherent() {
        assert(before.replacer.tracks(f) ==> (before.replacer.evictable.contains(f)
            <==> before.page(f).pin_count == 0));
    }
}

/// What was in a sequence before a push is still there.
proof fn lemma_pushed(frames: Seq<FrameId>, f: FrameId)
    ensures
        frames.push(f).subrange(0, frames.len() as int) == frames,
{
    assert(frames.push(f).subrange(0, frames.len() as int) =~= frames);
}

/// What a new page that must be had would be, were it not an error that there is
/// none.
pub open spec fn plain_new(step: WriteStep<PageRef>) -> WriteStep<Option<PageRef>> {
    match step {
        WriteStep::Done(Ok(page)) => WriteStep::Done(Ok(Some(page))),
        WriteStep::Done(Err(_)) => WriteStep::Done(Ok(None)),
        WriteStep::Write(write) => WriteStep::Write(write),
    }
}

/// What a fetch that must come to a page would be, were it not an error that
/// there is none.
pub open spec fn plain_fetch(step: FetchStep<PageRef>) -> FetchStep<Option<PageRef>> {
    match step {
        FetchStep::Done(Ok(page)) => FetchStep::Done(Ok(Some(page))),
        FetchStep::Done(Err(_)) => FetchStep::Done(Ok(None)),
        FetchStep::Write(write) => FetchStep::Write(write),
        FetchStep::Read(read) => FetchStep::Read(read),
    }
}

/// Whether the node, and nothing else of it than its page, is put under the id of
/// the page that the step comes to, and is left alone where it comes to none.
pub open spec fn names_node<K>(node: Node<K>, named: Node<K>, step: WriteStep<PageRef>) -> bool {
    match step {
        WriteStep::Done(Ok(page)) => named.page_id == page.id() && named.body == node.body,
        _ => named == node,
    }
}

/// [`BufferPoolManager::new_page_node`] makes a page as any new page is made, and
/// the node gets the id of the page that the caller gets. Where there is no
/// page, the caller is told so.
pub proof fn law_new_page_node_outcome<K: Encoder>(
    pool: &mut BufferPoolManager,
    node: &mut Node<K>,
    step: WriteStep<PageRef>,
)
    requires
        call_ensures(BufferPoolManager::new_page_node::<K>, (pool, node), step),
    ensures
        new_page_comes_to(old(pool)@, final(pool)@, plain_new(step)),
        names_node(*old(node), *final(node), step),
        step matches WriteStep::Done(Err(e)) ==> e.is_buffer_pool("Can't new page"@),
{
    lemma_makes_page(old(pool)@, final(pool)@, plain_new(step));
}

/// [`BufferPoolManager::new_page_write_owned`] makes a page as any new page is
/// made, and the node gets the id of the page that the caller gets. Where there
/// is no page, the caller is told so.
pub proof fn law_new_page_write_owned_outcome<K: Encoder>(
    pool: &mut BufferPoolManager,
    node: &mut Node<K>,
    step: WriteStep<PageRef>,
)
    requires
        call_ensures(BufferPoolManager::new_page_write_owned::<K>, (pool, node), step),
    ensures
        new_page_comes_to(old(pool)@, final(pool)@, plain_new(step)),
        names_node(*old(node), *final(node), step),
        step matches WriteStep::Done(Err(e)) ==> e.is_buffer_pool("Can't new page"@),
{
    lemma_makes_page(old(pool)@, final(pool)@, plain_new(step));
}

/// [`BufferPoolManager::new_page_node_written`] goes on with the page as
/// [`BufferPoolManager::new_page_written`] does, and the node gets the id of the
/// page that the caller gets.
pub proof fn law_new_page_node_written_outcome<K: Encoder>(
    pool: &mut BufferPoolManager,
    node: &mut Node<K>,
    write: PageWrite,
    reply: RustDBResult<()>,
    result: RustDBResult<PageRef>,
)
    requires
        call_ensures(
            BufferPoolManager::new_page_node_written::<K>,
            (pool, node, write, reply),
            result,
        ),
        write.frame() < old(pool)@.pages.len(),
        write.id() == old(pool)@.pages[write.frame() as int].page_id,
    ensures
        new_page_written_comes_to(old(pool)@, write, reply, final(pool)@, result),
        names_node(*old(node), *final(node), WriteStep::Done(result)),
{
    lemma_hold_is_access(old(pool)@.give_up(write.frame()), write.frame());
}

/// [`BufferPoolManager::fetch_page_read_owned`] fetches a page as any fetch does.
/// Where the page cannot be had, the caller is told so.
pub proof fn law_fetch_page_read_owned_outcome(
    pool: &mut BufferPoolManager,
    page_id: PageId,
    step: FetchStep<PageRef>,
)
    requires
        call_ensures(BufferPoolManager::fetch_page_read_owned, (pool, page_id), step),
    ensures
        fetch_comes_to(old(pool)@, page_id, final(pool)@, plain_fetch(step)),
        step matches FetchStep::Done(Err(e)) ==> e.is_buffer_pool("Can't fetch page"@),
{
    lemma_fetches_page(old(pool)@, page_id, final(pool)@, plain_fetch(step));
}

/// [`BufferPoolManager::fetch_page_write_owned`] fetches a page as any fetch
/// does. Where the page cannot be had, the caller is told so.
pub proof fn law_fetch_page_write_owned_outcome(
    pool: &mut BufferPoolManager,
    page_id: PageId,
    step: FetchStep<PageRef>,
)
    requires
        call_ensures(BufferPoolManager::fetch_page_write_owned, (pool, page_id), step),
    ensures
        fetch_comes_to(old(pool)@, page_id, final(pool)@, plain_fetch(step)),
        step matches FetchStep::Done(Err(e)) ==> e.is_buffer_pool("Can't fetch page"@),
{
    lemma_fetches_page(old(pool)@, page_id, final(pool)@, plain_fetch(step));
}

/// [`BufferPoolManager::fetch_page_node`] fetches a page as any fetch does. Where
/// the page cannot be had, the caller is told so.
pub proof fn law_fetch_page_node_outcome(
    pool: &mut BufferPoolManager,
    page_id: PageId,
    step: FetchStep<PageRef>,
)
    requires
        call_ensures(BufferPoolManager::fetch_page_node, (pool, page_id), step),
    ensures
        fetch_comes_to(old(pool)@, page_id, final(pool)@, plain_fetch(step)),
        step matches FetchStep::Done(Err(e)) ==> e.is_buffer_pool("Can't fetch page"@),
{
    lemma_fetches_page(old(pool)@, page_id, final(pool)@, plain_fetch(step));
}

/// [`BufferPoolManager::decode_page_node`] hands the reference back, and changes
/// nothing, where it has to wait, which is exactly while the bytes may be
/// changed or there are too many readers, and where the bytes of the page hold a
/// node, which it hands out too. Where they hold none, the page is held once
/// less, and nothing else about the pages changes.
pub proof fn law_decode_outcome<K: Decoder>(
    pool: &mut BufferPoolManager,
    page: PageRef,
    step: NodeStep<K>,
)
    requires
        call_ensures(BufferPoolManager::decode_page_node::<K>, (pool, page), step),
        page.frame() < old(pool)@.pages.len(),
    ensures
        ({
            let held = old(pool)@.pages[page.frame() as int];
            &&& step is Latch <==> match held.latch {
                Latch::Free => false,
                Latch::Read(readers) => readers >= MAX_READERS,
                Latch::Write => true,
            }
            &&& match step {
                NodeStep::Latch(same) => same == page && final(pool)@ == old(pool)@,
                NodeStep::Done(Ok((same, node))) => {
                    &&& same == page
                    &&& final(pool)@ == old(pool)@
                    &&& decodes_to(held.data, Ok(node))
                },
                NodeStep::Done(Err(e)) => {
                    &&& decodes_to::<K>(held.data, Err(e))
                    &&& holds_once_less(old(pool)@, final(pool)@, page.frame())
                },
            }
        }),
{
}

/// Whether the page in the frame is held once less, nothing else about the pages
/// is changed, and the frame may be given up once nobody is left.
pub open spec fn holds_once_less(before: PoolState, after: PoolState, frame_id: FrameId) -> bool {
    let held = before.pages[frame_id as int];
    let now = after.pages[frame_id as int];
    &&& same_but_frame(before, after, frame_id)
    &&& now.pin_count == if held.pin_count == 0 {
        usize::MAX as int
    } else {
        held.pin_count - 1
    }
    &&& now.page_id == held.page_id
    &&& now.data == held.data
    &&& now.is_dirty == held.is_dirty
    &&& now.latch == held.latch
    &&& after.page_table == before.page_table
    &&& after.free_list == before.free_list
    &&& after.next_page_id == before.next_page_id
    &&& after.replacer.log == before.replacer.log
    &&& after.replacer.k == before.replacer.k
    &&& before.replacer.tracks(frame_id) ==> (after.replacer.evictable.contains(frame_id) <==> (
    held.pin_count == 1 || before.replacer.evictable.contains(frame_id)))
    &&& forall|f: FrameId|
        f != frame_id ==> #[trigger] after.replacer.evictable.contains(f)
            == before.replacer.evictable.contains(f)
}

/// [`PageRef::release`] has the page held once less, and changes nothing else.
pub proof fn law_release_outcome(page: PageRef, pool: &mut BufferPoolManager)
    requires
        call_ensures(PageRef::release, (page, pool), ()),
        page.frame() < old(pool)@.pages.len(),
    ensures
        holds_once_less(old(pool)@, final(pool)@, page.frame()),
{
}

/// Whether nothing changes but the page in one frame, which becomes `now`.
pub open spec fn only_page_becomes(
    before: PoolState,
    after: PoolState,
    frame_id: FrameId,
    now: PageState,
) -> bool {
    &&& same_but_frame(before, after, frame_id)
    &&& after.pages[frame_id as int] == now
    &&& after.page_table == before.page_table
    &&& after.free_list == before.free_list
    &&& after.replacer == before.replacer
    &&& after.next_page_id == before.next_page_id
}

/// Whether a guard that may change the bytes in the frame is handed out exactly
/// when nobody is at them, and nothing changes but that it is at them then.
pub open spec fn lets_writer_in(
    before: PoolState,
    after: PoolState,
    frame_id: FrameId,
    granted: bool,
) -> bool {
    let page = before.pages[frame_id as int];
    &&& granted <==> page.latch == Latch::Free
    &&& granted ==> only_page_becomes(
        before,
        after,
        frame_id,
        PageState { latch: Latch::Write, ..page },
    )
    &&& !granted ==> after == before
}

/// Whether a guard that reads the bytes in the frame is handed out exactly when
/// nobody may change them and there are not too many readers, and nothing
/// changes but that there is one reader more then.
pub open spec fn lets_reader_in(
    before: PoolState,
    after: PoolState,
    frame_id: FrameId,
    granted: bool,
) -> bool {
    let page = before.pages[frame_id as int];
    &&& granted <==> (page.latch == Latch::Free || (page.latch matches Latch::Read(n) && n
        < MAX_READERS))
    &&& granted ==> only_page_becomes(
        before,
        after,
        frame_id,
        PageState {
            latch: match page.latch {
                Latch::Read(n) => Latch::Read((n + 1) as usize),
                _ => Latch::Read(1),
            },
            ..page
        },
    )
    &&& !granted ==> after == before
}

/// Whether the bytes are put into the page in the frame, which then needs a
/// write and has nobody at its bytes, and nothing else changes.
pub open spec fn puts_bytes(
    before: PoolState,
    after: PoolState,
    frame_id: FrameId,
    bytes: Seq<u8>,
) -> bool {
    let page = before.pages[frame_id as int];
    only_page_becomes(
        before,
        after,
        frame_id,
        PageState {
            page_id: page.page_id,
            pin_count: page.pin_count,
            is_dirty: true,
            data: bytes,
            latch: Latch::Free,
        },
    )
}

/// Whether there is one reader less at the bytes in the frame, nobody after the
/// last one, and nothing else changes.
pub open spec fn lets_reader_out(before: PoolState, after: PoolState, frame_id: FrameId) -> bool {
    let page = before.pages[frame_id as int];
    page.latch matches Latch::Read(n) ==> n > 0 ==> only_page_becomes(
        before,
        after,
        frame_id,
        PageState {
            latch: if n == 1 {
                Latch::Free
            } else {
                Latch::Read((n - 1) as usize)
            },
            ..page
        },
    )
}

/// As many readers are let in as `tokio::sync::RwLock` lets in.
pub proof fn law_reader_limit()
    ensures
        MAX_READERS == u32::MAX / 8,
{
}

/// [`PageRef::data_write`] hands out the bytes as they are in the pool, exactly
/// when nobody is at them.
pub proof fn law_data_write_outcome<'a>(
    page: &'a PageRef,
    pool: &mut BufferPoolManager,
    guard: Option<PageDataWriteGuard<'a>>,
)
    requires
        call_ensures(PageRef::data_write, (page, pool), guard),
        page.frame() < old(pool)@.pages.len(),
    ensures
        lets_writer_in(old(pool)@, final(pool)@, page.frame(), guard is Some),
        guard matches Some(g) ==> {
            &&& *g.reference() == *page
            &&& g.bytes() == old(pool)@.pages[page.frame() as int].data
        },
{
}

/// [`PageRef::data_read`] hands out the bytes as they are in the pool, exactly
/// when nobody may change them and there are not too many readers.
pub proof fn law_data_read_outcome<'a>(
    page: &'a PageRef,
    pool: &mut BufferPoolManager,
    guard: Option<PageDataReadGuard<'a>>,
)
    requires
        call_ensures(PageRef::data_read, (page, pool), guard),
        page.frame() < old(pool)@.pages.len(),
    ensures
        lets_reader_in(old(pool)@, final(pool)@, page.frame(), guard is Some),
        guard matches Some(g) ==> {
            &&& *g.reference() == *page
            &&& g.bytes() == old(pool)@.pages[page.frame() as int].data
        },
{
}

/// [`PageRef::data_write_owned`] hands out the bytes as they are in the pool,
/// exactly when nobody is at them, and otherwise the reference.
pub proof fn law_data_write_owned_outcome(
    page: PageRef,
    pool: &mut BufferPoolManager,
    result: Result<OwnedPageDataWriteGuard, PageRef>,
)
    requires
        call_ensures(PageRef::data_write_owned, (page, pool), result),
        page.frame() < old(pool)@.pages.len(),
    ensures
        lets_writer_in(old(pool)@, final(pool)@, page.frame(), result is Ok),
        match result {
            Ok(guard) => {
                &&& guard.reference() == page
                &&& guard.bytes() == old(pool)@.pages[page.frame() as int].data
            },
            Err(same) => same == page,
        },
{
}

/// [`PageRef::data_read_owned`] hands out the bytes as they are in the pool,
/// exactly when nobody may change them and there are not too many readers, and
/// otherwise the reference.
pub proof fn law_data_read_owned_outcome(
    page: PageRef,
    pool: &mut BufferPoolManager,
    result: Result<OwnedPageDataReadGuard, PageRef>,
)
    requires
        call_ensures(PageRef::data_read_owned, (page, pool), result),
        page.frame() < old(pool)@.pages.len(),
    ensures
        lets_reader_in(old(pool)@, final(pool)@, page.frame(), result is Ok),
        match result {
            Ok(guard) => {
                &&& guard.reference() == page
                &&& guard.bytes() == old(pool)@.pages[page.frame() as int].data
            },
            Err(same) => same == page,
        },
{
}

/// [`PageDataWriteGuard::release`] puts the bytes of the guard into the page.
pub proof fn law_write_guard_release_outcome<'a>(
    guard: PageDataWriteGuard<'a>,
    pool: &mut BufferPoolManager,
)
    requires
        call_ensures(PageDataWriteGuard::<'a>::release, (guard, pool), ()),
        guard.reference().frame() < old(pool)@.pages.len(),
    ensures
        puts_bytes(old(pool)@, final(pool)@, guard.reference().frame(), guard.bytes()),
{
}

/// [`PageDataReadGuard::release`] takes one reader off the bytes.
pub proof fn law_read_guard_release_outcome<'a>(
    guard: PageDataReadGuard<'a>,
    pool: &mut BufferPoolManager,
)
    requires
        call_ensures(PageDataReadGuard::<'a>::release, (guard, pool), ()),
        guard.reference().frame() < old(pool)@.pages.len(),
    ensures
        lets_reader_out(old(pool)@, final(pool)@, guard.reference().frame()),
{
}

/// [`OwnedPageDataWriteGuard::unlatch`] puts the bytes of the guard into the
/// page, and hands the reference out.
pub proof fn law_owned_write_guard_unlatch_outcome(
    guard: OwnedPageDataWriteGuard,
    pool: &mut BufferPoolManager,
    page: PageRef,
)
    requires
        call_ensures(OwnedPageDataWriteGuard::unlatch, (guard, pool), page),
        guard.reference().frame() < old(pool)@.pages.len(),
    ensures
        page == guard.reference(),
        puts_bytes(old(pool)@, final(pool)@, page.frame(), guard.bytes()),
{
}

/// [`OwnedPageDataReadGuard::unlatch`] takes one reader off the bytes, and hands
/// the reference out.
pub proof fn law_owned_read_guard_unlatch_outcome(
    guard: OwnedPageDataReadGuard,
    pool: &mut BufferPoolManager,
    page: PageRef,
)
    requires
        call_ensures(OwnedPageDataReadGuard::unlatch, (guard, pool), page),
        guard.reference().frame() < old(pool)@.pages.len(),
    ensures
        page == guard.reference(),
        lets_reader_out(old(pool)@, final(pool)@, page.frame()),
{
}

/// [`OwnedPageDataWriteGuard::release`] puts the bytes of the guard into the
/// page, and then has the page held once less.
pub proof fn law_owned_write_guard_release_outcome(
    guard: OwnedPageDataWriteGuard,
    pool: &mut BufferPoolManager,
)
    requires
        call_ensures(OwnedPageDataWriteGuard::release, (guard, pool), ()),
        guard.reference().frame() < old(pool)@.pages.len(),
    ensures
        exists|put: PoolState|
            {
                &&& #[trigger] puts_bytes(
                    old(pool)@,
                    put,
                    guard.reference().frame(),
                    guard.bytes(),
                )
                &&& holds_once_less(put, final(pool)@, guard.reference().frame())
            },
{
    let f = guard.reference().frame();
    let put = old(pool)@.store(f, guard.bytes());
    assert(puts_bytes(old(pool)@, put, f, guard.bytes()));
    assert(holds_once_less(put, final(pool)@, f));
}

/// [`OwnedPageDataReadGuard::release`] takes one reader off the bytes, and then
/// has the page held once less.
pub proof fn law_owned_read_guard_release_outcome(
    guard: OwnedPageDataReadGuard,
    pool: &mut BufferPoolManager,
)
    requires
        call_ensures(OwnedPageDataReadGuard::release, (guard, pool), ()),
        guard.reference().frame() < old(pool)@.pages.len(),
        old(pool)@.pages[guard.reference().frame() as int].latch matches Latch::Read(n) && n > 0,
    ensures
        exists|left: PoolState|
            {
                &&& #[trigger] lets_reader_out(old(pool)@, left, guard.reference().frame())
                &&& holds_once_less(left, final(pool)@, guard.reference().frame())
            },
{
    let f = guard.reference().frame();
    let left = old(pool)@.unlatch_read(f);
    assert(lets_reader_out(old(pool)@, left, f));
    assert(holds_once_less(left, final(pool)@, f));
}

/// [`BufferPoolManager::flush_page`] begins at the frame in which the page is
/// found, and is over at once where it is not found.
pub proof fn law_flush_page_outcome(
    pool: &BufferPoolManager,
    page_id: PageId,
    step: FlushStep,
)
    requires
        call_ensures(BufferPoolManager::flush_page, (pool, page_id), step),
    ensures
        step matches FlushStep::Latch(f) ==> pool@.page_table.contains_pair(page_id, f),
        !(step is Latch) ==> {
            &&& !pool@.page_table.contains_key(page_id)
            &&& step matches FlushStep::Done(Ok(_))
        },
{
}

/// Whether a flush that has come to a frame does what it should: while anybody
/// is at the bytes it has to come back, with nothing changed. A dirty page is to
/// be written as it is, and nobody gets at its bytes meanwhile. A clean page
/// needs nothing, and the flush goes on as given.
pub open spec fn flush_comes_to(
    before: PoolState,
    frame_id: FrameId,
    after: PoolState,
    step: FlushStep,
    goes_on: bool,
) -> bool {
    let page = before.pages[frame_id as int];
    if page.latch != Latch::Free {
        &&& step == FlushStep::Latch(frame_id)
        &&& after == before
    } else if page.is_dirty {
        &&& step matches FlushStep::Write(write)
        &&& write.frame() == frame_id
        &&& write.id() == page.page_id
        &&& write.bytes() == page.data
        &&& only_page_becomes(before, after, frame_id, PageState { latch: Latch::Write, ..page })
    } else {
        &&& goes_on
        &&& after == before
    }
}

/// Whether a flush ends the write of a page as it should: nobody is at the bytes
/// any more, and the page is clean where the write succeeded, and as it was
/// where it did not.
pub open spec fn flush_written_comes_to(
    before: PoolState,
    frame_id: FrameId,
    ok: bool,
    after: PoolState,
) -> bool {
    let page = before.pages[frame_id as int];
    only_page_becomes(
        before,
        after,
        frame_id,
        PageState {
            page_id: page.page_id,
            pin_count: page.pin_count,
            is_dirty: if ok {
                false
            } else {
                page.is_dirty
            },
            data: page.data,
            latch: Latch::Free,
        },
    )
}

/// [`BufferPoolManager::flush_page_latched`] flushes the page in the frame, and
/// is over where the page is clean.
pub proof fn law_flush_page_latched_outcome(
    pool: &mut BufferPoolManager,
    frame_id: FrameId,
    step: FlushStep,
)
    requires
        call_ensures(BufferPoolManager::flush_page_latched, (pool, frame_id), step),
        frame_id < old(pool)@.pages.len(),
    ensures
        flush_comes_to(
            old(pool)@,
            frame_id,
            final(pool)@,
            step,
            step matches FlushStep::Done(Ok(_)),
        ),
{
}

/// [`BufferPoolManager::flush_page_written`] ends the flush, and tells what the
/// disk replied.
pub proof fn law_flush_page_written_outcome(
    pool: &mut BufferPoolManager,
    write: PageWrite,
    reply: RustDBResult<()>,
    result: RustDBResult<()>,
)
    requires
        call_ensures(BufferPoolManager::flush_page_written, (pool, write, reply), result),
        write.frame() < old(pool)@.pages.len(),
    ensures
        flush_written_comes_to(old(pool)@, write.frame(), reply is Ok, final(pool)@),
        result == reply,
{
}

/// Whether a flush of all pages goes on behind a frame as it should: at the frame
/// after it, and is over only after the last one.
pub open spec fn goes_to_next(pool: PoolState, frame_id: FrameId, step: FlushStep) -> bool {
    if frame_id + 1 == pool.pages.len() {
        step matches FlushStep::Done(Ok(_))
    } else {
        step matches FlushStep::Latch(f) && f == frame_id + 1
    }
}

/// [`BufferPoolManager::flush_page_all`] begins at frame 0, and is over at once
/// only where there is no frame.
pub proof fn law_flush_page_all_outcome(pool: &BufferPoolManager, step: FlushStep)
    requires
        call_ensures(BufferPoolManager::flush_page_all, (pool,), step),
    ensures
        if pool@.pages.len() == 0 {
            step matches FlushStep::Done(Ok(_))
        } else {
            step == FlushStep::Latch(0)
        },
{
}

/// [`BufferPoolManager::flush_page_all_latched`] flushes the page in the frame,
/// and goes on behind it where the page is clean.
pub proof fn law_flush_page_all_latched_outcome(
    pool: &mut BufferPoolManager,
    frame_id: FrameId,
    step: FlushStep,
)
    requires
        call_ensures(BufferPoolManager::flush_page_all_latched, (pool, frame_id), step),
        frame_id < old(pool)@.pages.len() <= usize::MAX,
    ensures
        flush_comes_to(
            old(pool)@,
            frame_id,
            final(pool)@,
            step,
            goes_to_next(old(pool)@, frame_id, step),
        ),
{
}

/// [`BufferPoolManager::flush_page_all_written`] ends the write of one page, and
/// goes on behind it, or is over with the error of the disk.
pub proof fn law_flush_page_all_written_outcome(
    pool: &mut BufferPoolManager,
    write: PageWrite,
    reply: RustDBResult<()>,
    step: FlushStep,
)
    requires
        call_ensures(BufferPoolManager::flush_page_all_written, (pool, write, reply), step),
        write.frame() < old(pool)@.pages.len() <= usize::MAX,
    ensures
        flush_written_comes_to(old(pool)@, write.frame(), reply is Ok, final(pool)@),
        match reply {
            Ok(_) => goes_to_next(old(pool)@, write.frame(), step),
            Err(e) => step == FlushStep::Done(Err(e)),
        },
{
}

/// Between operations, while no frame is lost, a new page is refused exactly when
/// every frame holds a page that somebody holds.
pub proof fn law_new_page_refused_exactly_when_all_are_held(
    system: System,
    pool: &mut BufferPoolManager,
    step: WriteStep<Option<PageRef>>,
)
    requires
        system.inv(),
        system.accounts_for_frames(),
        system.pending is Idle,
        system.pool == old(pool)@,
        call_ensures(BufferPoolManager::new_page_ref, (pool,), step),
    ensures
        (step matches WriteStep::Done(Ok(None))) <==> forall|f: FrameId|
            f < old(pool)@.pages.len() ==> (#[trigger] old(pool)@.pages[f as int]).pin_count > 0,
{
    law_refused_exactly_when_all_are_held(system);
}

/// Between operations, while no frame is lost, a page that is not in the pool is
/// refused exactly when every frame holds a page that somebody holds. One that
/// is in the pool is never refused.
pub proof fn law_fetch_refused_exactly_when_all_are_held(
    system: System,
    pool: &mut BufferPoolManager,
    page_id: PageId,
    step: FetchStep<Option<PageRef>>,
)
    requires
        system.inv(),
        system.accounts_for_frames(),
        system.pending is Idle,
        system.pool == old(pool)@,
        call_ensures(BufferPoolManager::fetch_page_ref, (pool, page_id), step),
    ensures
        (step matches FetchStep::Done(Ok(None))) <==> !old(pool)@.page_table.contains_key(page_id)
            && forall|f: FrameId|
            f < old(pool)@.pages.len() ==> (#[trigger] old(pool)@.pages[f as int]).pin_count > 0,
{
    law_refused_exactly_when_all_are_held(system);
}

/// A page that was just made is found at once, in its frame, by a fetch of the id
/// that the caller was told.
pub proof fn law_new_page_is_found(
    pool: &mut BufferPoolManager,
    page: PageRef,
    later: &mut BufferPoolManager,
    step: FetchStep<Option<PageRef>>,
)
    requires
        call_ensures(
            BufferPoolManager::new_page_ref,
            (pool,),
            WriteStep::Done(Ok(Some(page))),
        ),
        old(later)@ == final(pool)@,
        call_ensures(BufferPoolManager::fetch_page_ref, (later, page.id()), step),
    ensures
        step matches FetchStep::Done(Ok(Some(found))) && found.id() == page.id() && found.frame()
            == page.frame(),
{
    law_new_page_outcome(pool, WriteStep::Done(Ok(Some(page))));
}

/// A page that was just read is found at once, in its frame, by another fetch.
pub proof fn law_fetched_page_is_found(
    pool: &mut BufferPoolManager,
    read: PageRead,
    reply: RustDBResult<PageData>,
    page: PageRef,
    later: &mut BufferPoolManager,
    step: FetchStep<Option<PageRef>>,
)
    requires
        read.frame() < old(pool)@.pages.len(),
        call_ensures(BufferPoolManager::fetch_page_read, (pool, read, reply), Ok(page)),
        old(later)@ == final(pool)@,
        call_ensures(BufferPoolManager::fetch_page_ref, (later, read.id()), step),
    ensures
        step matches FetchStep::Done(Ok(Some(found))) && found.id() == read.id() && found.frame()
            == page.frame(),
{
    law_fetch_read_outcome(pool, read, reply, Ok(page));
}

/// A reference tells the page and the frame that it was made for.
pub proof fn law_reference_tells_its_page(
    page_id: PageId,
    frame_id: FrameId,
    page: PageRef,
    told_page: PageId,
    told_frame: FrameId,
)
    requires
        call_ensures(PageRef::new, (page_id, frame_id), page),
        call_ensures(PageRef::page_id, (&page,), told_page),
        call_ensures(PageRef::frame_id, (&page,), told_frame),
    ensures
        told_page == page_id,
        told_frame == frame_id,
{
}

/// The request to write that a flush hands out tells the caller the page in the
/// frame, the frame, and the bytes of the page.
pub proof fn law_write_request_tells_its_page(
    pool: &mut BufferPoolManager,
    frame_id: FrameId,
    write: PageWrite,
    told_page: PageId,
    told_frame: FrameId,
    told_data: &PageData,
)
    requires
        frame_id < old(pool)@.pages.len(),
        call_ensures(
            BufferPoolManager::flush_page_latched,
            (pool, frame_id),
            FlushStep::Write(write),
        ),
        call_ensures(PageWrite::page_id, (&write,), told_page),
        call_ensures(PageWrite::frame_id, (&write,), told_frame),
        call_ensures(PageWrite::data, (&write,), told_data),
    ensures
        told_page == old(pool)@.pages[frame_id as int].page_id,
        told_frame == frame_id,
        told_data@ == old(pool)@.pages[frame_id as int].data,
{
}

/// The request to read that a fetch hands out tells the caller the page that was
/// asked for, and a frame, from the free ones where there are any.
pub proof fn law_read_request_tells_its_page(
    pool: &mut BufferPoolManager,
    page_id: PageId,
    read: PageRead,
    told_page: PageId,
    told_frame: FrameId,
)
    requires
        call_ensures(
            BufferPoolManager::fetch_page_ref,
            (pool, page_id),
            FetchStep::Read(read),
        ),
        call_ensures(PageRead::page_id, (&read,), told_page),
        call_ensures(PageRead::frame_id, (&read,), told_frame),
    ensures
        told_page == page_id,
        told_frame < old(pool)@.pages.len(),
        old(pool)@.free_list.len() > 0 ==> told_frame == old(pool)@.free_list[0],
{
    law_fetch_outcome(pool, page_id, FetchStep::Read(read));
}

/// [`PageDataWriteGuard`] tells the id of its page, and shows its bytes.
pub proof fn law_write_guard_tells_its_page<'a>(
    guard: &PageDataWriteGuard<'a>,
    told_page: PageId,
    shown: &PageData,
)
    requires
        call_ensures(PageDataWriteGuard::<'a>::page_id, (guard,), told_page),
        call_ensures(PageDataWriteGuard::<'a>::deref, (guard,), shown),
    ensures
        told_page == guard.reference().id(),
        shown@ == guard.bytes(),
{
}

/// [`PageDataReadGuard`] tells the id of its page, and shows its bytes.
pub proof fn law_read_guard_tells_its_page<'a>(
    guard: &PageDataReadGuard<'a>,
    told_page: PageId,
    shown: &PageData,
)
    requires
        call_ensures(PageDataReadGuard::<'a>::page_id, (guard,), told_page),
        call_ensures(PageDataReadGuard::<'a>::deref, (guard,), shown),
    ensures
        told_page == guard.reference().id(),
        shown@ == guard.bytes(),
{
}

/// [`OwnedPageDataWriteGuard`] tells the id of its page, and shows its bytes.
pub proof fn law_owned_write_guard_tells_its_page(
    guard: &OwnedPageDataWriteGuard,
    told_page: PageId,
    shown: &PageData,
)
    requires
        call_ensures(OwnedPageDataWriteGuard::page_id, (guard,), told_page),
        call_ensures(OwnedPageDataWriteGuard::deref, (guard,), shown),
    ensures
        told_page == guard.reference().id(),
        shown@ == guard.bytes(),
{
}

/// [`OwnedPageDataReadGuard`] tells the id of its page, and shows its bytes.
pub proof fn law_owned_read_guard_tells_its_page(
    guard: &OwnedPageDataReadGuard,
    told_page: PageId,
    shown: &PageData,
)
    requires
        call_ensures(OwnedPageDataReadGuard::page_id, (guard,), told_page),
        call_ensures(OwnedPageDataReadGuard::deref, (guard,), shown),
    ensures
        told_page == guard.reference().id(),
        shown@ == guard.bytes(),
{
}

/// The pool tells how many frames it has.
pub proof fn law_pool_tells_its_size(pool: &BufferPoolManager, told: usize)
    requires
        call_ensures(BufferPoolManager::pool_size, (pool,), told),
    ensures
        told == pool@.pages.len(),
{
}

/// [`PageDataWriteGuard::deref_mut`] shows the bytes of the guard, which then has
/// what the caller makes of them, for the same page.
pub proof fn law_write_guard_is_changed<'a, 'b>(
    guard: &'b mut PageDataWriteGuard<'a>,
    shown: &'b mut PageData,
)
    requires
        call_ensures(PageDataWriteGuard::<'a>::deref_mut, (guard,), shown),
    ensures
        old(shown)@ == old(guard).bytes(),
        final(guard).bytes() == final(shown)@,
        final(guard).reference() == old(guard).reference(),
{
}

/// [`OwnedPageDataWriteGuard::deref_mut`] shows the bytes of the guard, which then
/// has what the caller makes of them, for the same page.
pub proof fn law_owned_write_guard_is_changed<'b>(
    guard: &'b mut OwnedPageDataWriteGuard,
    shown: &'b mut PageData,
)
    requires
        call_ensures(OwnedPageDataWriteGuard::deref_mut, (guard,), shown),
    ensures
        old(shown)@ == old(guard).bytes(),
        final(guard).bytes() == final(shown)@,
        final(guard).reference() == old(guard).reference(),
{
}

} // verus!
