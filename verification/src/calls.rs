//! Every call of the pool is an action of the system: what the contracts of the
//! functions say of the pool before and after is a step of a run, so that what
//! holds of every run holds of the functions.
use vstd::prelude::*;

use crate::error::RustDBResult;
use crate::flushing::{flushes_frame, needs_no_write};
use crate::guard::PageRef;
use crate::node::{Decoder, Node};
use crate::page::{FrameId, PageData, PageId};
use crate::state::PoolState;
use crate::step::{
    begins_flush, creates_after_write, creates_or_fails, deletes_after_write, deletes_page,
    fetches_after_read, fetches_after_write, fetches_or_fails, fetches_page, flush_goes_on,
    flushes_after_write, flushes_latched, grants_read, grants_write, makes_page,
    makes_page_after_write, reads_node, FetchStep, FlushStep, NodeStep, PageRead, PageWrite,
    WriteStep,
};
use crate::system::{writes, Action, Pending, System};

verus! {

/// The request under way once a new page took the step.
pub open spec fn pending_new<T>(step: WriteStep<T>) -> Pending {
    match step {
        WriteStep::Write(write) => Pending::NewWrite { write },
        WriteStep::Done(_) => Pending::Idle,
    }
}

/// The request under way once the fetch of a page took the step.
pub open spec fn pending_fetch<T>(page_id: PageId, step: FetchStep<T>) -> Pending {
    match step {
        FetchStep::Write(write) => Pending::FetchWrite { page_id, write },
        FetchStep::Read(read) => Pending::FetchRead { read },
        FetchStep::Done(_) => Pending::Idle,
    }
}

/// The request under way once the write that makes room for a fetched page came
/// to the result.
pub open spec fn pending_read(result: RustDBResult<PageRead>) -> Pending {
    match result {
        Ok(read) => Pending::FetchRead { read },
        Err(_) => Pending::Idle,
    }
}

/// The request under way once a flush took the step.
pub open spec fn pending_flush(step: FlushStep) -> Pending {
    match step {
        FlushStep::Write(write) => Pending::FlushWrite { write },
        _ => Pending::Idle,
    }
}

/// The request under way once the deletion of a page took the step.
pub open spec fn pending_delete<T>(page_id: PageId, step: WriteStep<T>) -> Pending {
    match step {
        WriteStep::Write(write) => Pending::DeleteWrite { page_id, write },
        WriteStep::Done(_) => Pending::Idle,
    }
}

impl System {
    /// Whether the next new page, if it needs no write first, gets an id that is
    /// not in the pool.
    pub open spec fn next_id_is_unused(self) -> bool {
        self.pool.claim() is Ready ==> !self.pool.after_claim().page_table.contains_key(
            self.pool.next_page_id,
        )
    }

    /// Whether the page, if it is in the pool, can be held once more.
    pub open spec fn can_be_held(self, page_id: PageId) -> bool {
        self.pool.page_table.contains_key(page_id) ==> self.pool.page(
            self.pool.page_table[page_id],
        ).pin_count < usize::MAX
    }

    /// Whether there is a reference to the page in the frame.
    pub open spec fn is_held(self, frame_id: FrameId) -> bool {
        frame_id < self.pool.pages.len() && self.pool.page(frame_id).pin_count > 0
    }
}

/// [`crate::pool::BufferPoolManager::new_page_ref`] is an action.
pub proof fn law_new_page_ref_is_an_action(
    before: System,
    pool: PoolState,
    step: WriteStep<Option<PageRef>>,
)
    requires
        before.pending is Idle,
        before.next_id_is_unused(),
        makes_page(before.pool, pool, step),
    ensures
        before.steps_to(
            Action::NewPage,
            System { pool, pending: pending_new(step), ..before },
        ),
{
}

/// [`crate::pool::BufferPoolManager::new_page_written`] is an action, whatever
/// the disk replied.
pub proof fn law_new_page_written_is_an_action(
    before: System,
    write: PageWrite,
    reply: RustDBResult<()>,
    disk: Map<PageId, Seq<u8>>,
    pool: PoolState,
    result: RustDBResult<PageRef>,
)
    requires
        before.pending == (Pending::NewWrite { write }),
        writes(before.disk, write, reply is Ok, disk),
        reply is Ok ==> !before.pool.give_up(write.frame()).page_table.contains_key(
            before.pool.next_page_id,
        ),
        makes_page_after_write(before.pool, write, reply, pool, result),
    ensures
        before.steps_to(
            Action::NewPageWritten { ok: reply is Ok },
            System { pool, disk, pending: Pending::Idle },
        ),
{
}

/// [`crate::pool::BufferPoolManager::fetch_page_ref`] is an action.
pub proof fn law_fetch_page_ref_is_an_action(
    before: System,
    page_id: PageId,
    pool: PoolState,
    step: FetchStep<Option<PageRef>>,
)
    requires
        before.pending is Idle,
        before.can_be_held(page_id),
        fetches_page(before.pool, page_id, pool, step),
    ensures
        before.steps_to(
            Action::FetchPage { page_id },
            System { pool, pending: pending_fetch(page_id, step), ..before },
        ),
{
}

/// [`crate::pool::BufferPoolManager::fetch_page_written`] is an action, whatever
/// the disk replied.
pub proof fn law_fetch_page_written_is_an_action(
    before: System,
    page_id: PageId,
    write: PageWrite,
    reply: RustDBResult<()>,
    disk: Map<PageId, Seq<u8>>,
    pool: PoolState,
    result: RustDBResult<PageRead>,
)
    requires
        before.pending == (Pending::FetchWrite { page_id, write }),
        writes(before.disk, write, reply is Ok, disk),
        fetches_after_write(before.pool, page_id, write, reply, pool, result),
    ensures
        before.steps_to(
            Action::FetchWritten { ok: reply is Ok },
            System { pool, disk, pending: pending_read(result) },
        ),
{
}

/// [`crate::pool::BufferPoolManager::fetch_page_read`] is an action, whatever
/// the disk replied, as long as it does not bring other bytes than it holds.
pub proof fn law_fetch_page_read_is_an_action(
    before: System,
    read: PageRead,
    reply: RustDBResult<PageData>,
    pool: PoolState,
    result: RustDBResult<PageRef>,
)
    requires
        before.pending == (Pending::FetchRead { read }),
        reply matches Ok(data) ==> before.disk.contains_key(read.id()) ==> data@
            == before.disk[read.id()],
        fetches_after_read(before.pool, read, reply, pool, result),
    ensures
        before.steps_to(
            Action::FetchRead {
                reply: match reply {
                    Ok(data) => Some(data@),
                    Err(_) => None,
                },
            },
            System { pool, pending: Pending::Idle, ..before },
        ),
{
}

/// [`crate::pool::BufferPoolManager::flush_page`] is no action. Where it has a
/// flush begin, it is at the frame of the page, and where it has none begin, the
/// page needs no write.
pub proof fn law_flush_page_begins_at_the_page(before: System, page_id: PageId, step: FlushStep)
    requires
        begins_flush(before.pool, page_id, step),
    ensures
        step matches FlushStep::Latch(f) ==> {
            &&& before.pool.page_table.contains_pair(page_id, f)
            &&& f < before.pool.pages.len()
        },
        !(step is Latch) ==> {
            &&& step matches FlushStep::Done(Ok(_))
            &&& needs_no_write(before, page_id)
        },
{
}

/// [`crate::pool::BufferPoolManager::flush_page_latched`] and
/// [`crate::pool::BufferPoolManager::flush_page_all_latched`] are actions.
pub proof fn law_flush_latched_is_an_action(
    before: System,
    frame_id: FrameId,
    next: Option<FrameId>,
    pool: PoolState,
    step: FlushStep,
)
    requires
        before.pending is Idle,
        frame_id < before.pool.pages.len(),
        flushes_latched(before.pool, frame_id, next, pool, step),
    ensures
        before.steps_to(
            Action::Flush { frame_id },
            System { pool, pending: pending_flush(step), ..before },
        ),
{
}

/// [`crate::pool::BufferPoolManager::flush_page_written`] and
/// [`crate::pool::BufferPoolManager::flush_page_all_written`] are actions,
/// whatever the disk replied.
pub proof fn law_flush_written_is_an_action(
    before: System,
    write: PageWrite,
    reply: RustDBResult<()>,
    disk: Map<PageId, Seq<u8>>,
    next: Option<FrameId>,
    pool: PoolState,
    step: FlushStep,
)
    requires
        before.pending == (Pending::FlushWrite { write }),
        writes(before.disk, write, reply is Ok, disk),
        flushes_after_write(before.pool, write, reply, next, pool, step),
    ensures
        before.steps_to(
            Action::FlushWritten { ok: reply is Ok },
            System { pool, disk, pending: pending_flush(step) },
        ),
{
}

/// Where no guard is at the bytes in a frame and the disk does not fail, the
/// calls of a flush at that frame flush it, and go on with the next one: of one
/// page [`crate::pool::BufferPoolManager::flush_page_latched`] and
/// [`crate::pool::BufferPoolManager::flush_page_written`], of all pages
/// [`crate::pool::BufferPoolManager::flush_page_all_latched`] and
/// [`crate::pool::BufferPoolManager::flush_page_all_written`].
pub proof fn law_flush_calls_flush_the_frame(
    before: System,
    frame_id: FrameId,
    next: Option<FrameId>,
    begun: PoolState,
    step: FlushStep,
    after: System,
    last: FlushStep,
)
    requires
        before.pending is Idle,
        frame_id < before.pool.pages.len(),
        before.pool.page(frame_id).latch is Free,
        flushes_latched(before.pool, frame_id, next, begun, step),
        match step {
            FlushStep::Write(write) => {
                &&& writes(before.disk, write, true, after.disk)
                &&& flushes_after_write(begun, write, Ok(()), next, after.pool, last)
            },
            _ => {
                &&& after.disk == before.disk
                &&& after.pool == begun
                &&& last == step
            },
        },
        after.pending is Idle,
    ensures
        flushes_frame(before, frame_id, after),
        flush_goes_on(next, last),
{
    let started = System { pool: begun, pending: pending_flush(step), ..before };
    law_flush_latched_is_an_action(before, frame_id, next, begun, step);
    if let FlushStep::Write(write) = step {
        law_flush_written_is_an_action(
            started,
            write,
            Ok(()),
            after.disk,
            next,
            after.pool,
            last,
        );
        assert(started.steps_to(Action::FlushWritten { ok: true }, after));
    }
    assert(before.steps_to(Action::Flush { frame_id }, started));
}

/// [`crate::pool::BufferPoolManager::delete_page`] is an action.
pub proof fn law_delete_page_is_an_action(
    before: System,
    page_id: PageId,
    pool: PoolState,
    step: WriteStep<Option<PageId>>,
)
    requires
        before.pending is Idle,
        deletes_page(before.pool, page_id, pool, step),
    ensures
        before.steps_to(
            Action::DeletePage { page_id },
            System { pool, pending: pending_delete(page_id, step), ..before },
        ),
{
}

/// [`crate::pool::BufferPoolManager::delete_page_written`] is an action,
/// whatever the disk replied.
pub proof fn law_delete_page_written_is_an_action(
    before: System,
    page_id: PageId,
    write: PageWrite,
    reply: RustDBResult<()>,
    disk: Map<PageId, Seq<u8>>,
    pool: PoolState,
    result: RustDBResult<Option<PageId>>,
)
    requires
        before.pending == (Pending::DeleteWrite { page_id, write }),
        writes(before.disk, write, reply is Ok, disk),
        deletes_after_write(before.pool, page_id, write, reply, pool, result),
    ensures
        before.steps_to(
            Action::DeleteWritten { ok: reply is Ok },
            System { pool, disk, pending: Pending::Idle },
        ),
{
}

/// [`crate::pool::BufferPoolManager::fetch_page_read_owned`],
/// [`crate::pool::BufferPoolManager::fetch_page_write_owned`] and
/// [`crate::pool::BufferPoolManager::fetch_page_node`] are the action of a
/// fetch.
pub proof fn law_fetch_or_fail_is_an_action(
    before: System,
    page_id: PageId,
    pool: PoolState,
    step: FetchStep<PageRef>,
)
    requires
        before.pending is Idle,
        before.can_be_held(page_id),
        fetches_or_fails(before.pool, page_id, pool, step),
    ensures
        before.steps_to(
            Action::FetchPage { page_id },
            System { pool, pending: pending_fetch(page_id, step), ..before },
        ),
{
}

/// [`crate::pool::BufferPoolManager::new_page_node`] and
/// [`crate::pool::BufferPoolManager::new_page_write_owned`] are the action of a
/// new page.
pub proof fn law_create_or_fail_is_an_action<K>(
    before: System,
    node: Node<K>,
    pool: PoolState,
    named: Node<K>,
    step: WriteStep<PageRef>,
)
    requires
        before.pending is Idle,
        before.next_id_is_unused(),
        creates_or_fails(before.pool, node, pool, named, step),
    ensures
        before.steps_to(
            Action::NewPage,
            System { pool, pending: pending_new(step), ..before },
        ),
{
}

/// [`crate::pool::BufferPoolManager::new_page_node_written`] is an action,
/// whatever the disk replied.
pub proof fn law_new_page_node_written_is_an_action<K>(
    before: System,
    node: Node<K>,
    write: PageWrite,
    reply: RustDBResult<()>,
    disk: Map<PageId, Seq<u8>>,
    pool: PoolState,
    named: Node<K>,
    result: RustDBResult<PageRef>,
)
    requires
        before.pending == (Pending::NewWrite { write }),
        writes(before.disk, write, reply is Ok, disk),
        reply is Ok ==> !before.pool.give_up(write.frame()).page_table.contains_key(
            before.pool.next_page_id,
        ),
        creates_after_write(before.pool, node, write, reply, pool, named, result),
    ensures
        before.steps_to(
            Action::NewPageWritten { ok: reply is Ok },
            System { pool, disk, pending: Pending::Idle },
        ),
{
}

/// [`crate::pool::BufferPoolManager::decode_page_node`] is no action where it
/// reads a node or has to wait, and the release of the reference where the bytes
/// hold no node.
pub proof fn law_decode_is_a_release_or_no_action<K: Decoder>(
    before: System,
    page: PageRef,
    pool: PoolState,
    step: NodeStep<K>,
)
    requires
        before.is_held(page.frame()),
        reads_node(before.pool, page, pool, step),
        step matches NodeStep::Done(Err(_)) ==> before.pool.page(page.frame()).pin_count > 1
            || before.pool.page(page.frame()).latch is Free,
    ensures
        step matches NodeStep::Done(Err(_)) ==> before.steps_to(
            Action::Release { frame_id: page.frame() },
            System { pool, ..before },
        ),
        !(step matches NodeStep::Done(Err(_))) ==> pool == before.pool,
{
}

/// [`PageRef::data_write`] and [`PageRef::data_write_owned`] are actions,
/// whether or not there is a guard.
pub proof fn law_data_write_is_an_action(
    before: System,
    frame_id: FrameId,
    pool: PoolState,
    granted: bool,
)
    requires
        before.is_held(frame_id),
        grants_write(before.pool, frame_id, pool, granted),
    ensures
        before.steps_to(Action::TakeWrite { frame_id }, System { pool, ..before }),
{
}

/// [`PageRef::data_read`] and [`PageRef::data_read_owned`] are actions, whether
/// or not there is a guard.
pub proof fn law_data_read_is_an_action(
    before: System,
    frame_id: FrameId,
    pool: PoolState,
    granted: bool,
)
    requires
        before.is_held(frame_id),
        grants_read(before.pool, frame_id, pool, granted),
    ensures
        before.steps_to(Action::TakeRead { frame_id }, System { pool, ..before }),
{
}

/// [`PageRef::release`] is an action, as long as the last reference to a page is
/// given back after the guards of the page.
pub proof fn law_release_is_an_action(before: System, frame_id: FrameId, pool: PoolState)
    requires
        before.is_held(frame_id),
        before.pool.page(frame_id).pin_count > 1 || before.pool.page(frame_id).latch is Free
            || before.is_flushing(frame_id),
        pool == before.pool.unpin(frame_id),
    ensures
        before.steps_to(Action::Release { frame_id }, System { pool, ..before }),
{
}

/// The release of a guard that may change the bytes is an action:
/// [`crate::guard::PageDataWriteGuard::release`] and
/// [`crate::guard::OwnedPageDataWriteGuard::unlatch`].
pub proof fn law_write_guard_release_is_an_action(
    before: System,
    frame_id: FrameId,
    data: Seq<u8>,
    pool: PoolState,
)
    requires
        frame_id < before.pool.pages.len(),
        before.pool.page(frame_id).latch is Write,
        !before.is_flushing(frame_id),
        pool == before.pool.store(frame_id, data),
    ensures
        before.steps_to(Action::Store { frame_id, data }, System { pool, ..before }),
{
}

/// The release of a guard that reads the bytes is an action:
/// [`crate::guard::PageDataReadGuard::release`] and
/// [`crate::guard::OwnedPageDataReadGuard::unlatch`].
pub proof fn law_read_guard_release_is_an_action(
    before: System,
    frame_id: FrameId,
    pool: PoolState,
)
    requires
        frame_id < before.pool.pages.len(),
        before.pool.page(frame_id).latch is Read,
        pool == before.pool.unlatch_read(frame_id),
    ensures
        before.steps_to(Action::EndRead { frame_id }, System { pool, ..before }),
{
}

/// [`crate::guard::OwnedPageDataWriteGuard::release`] is two actions: the guard
/// is given back, and then the reference.
pub proof fn law_owned_write_guard_release_is_two_actions(
    before: System,
    frame_id: FrameId,
    data: Seq<u8>,
    pool: PoolState,
)
    requires
        before.is_held(frame_id),
        before.pool.page(frame_id).latch is Write,
        !before.is_flushing(frame_id),
        pool == before.pool.store(frame_id, data).unpin(frame_id),
    ensures
        ({
            let stored = System { pool: before.pool.store(frame_id, data), ..before };
            &&& before.steps_to(Action::Store { frame_id, data }, stored)
            &&& stored.steps_to(Action::Release { frame_id }, System { pool, ..before })
        }),
{
}

/// [`crate::guard::OwnedPageDataReadGuard::release`] is two actions: the guard
/// is given back, and then the reference. Where it is the last reference, the
/// guard was the only one.
pub proof fn law_owned_read_guard_release_is_two_actions(
    before: System,
    frame_id: FrameId,
    pool: PoolState,
)
    requires
        before.is_held(frame_id),
        before.pool.page(frame_id).latch is Read,
        before.pool.page(frame_id).pin_count > 1 || before.pool.page(
            frame_id,
        ).latch.without_reader() is Free,
        pool == before.pool.unlatch_read(frame_id).unpin(frame_id),
    ensures
        ({
            let ended = System { pool: before.pool.unlatch_read(frame_id), ..before };
            &&& before.steps_to(Action::EndRead { frame_id }, ended)
            &&& ended.steps_to(Action::Release { frame_id }, System { pool, ..before })
        }),
{
}

} // verus!
