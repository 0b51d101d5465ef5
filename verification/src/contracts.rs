//! What the contract of each function of the pool says, by the relation that the
//! laws speak of: every call keeps it, so that [`crate::calls`] makes it an
//! action of a run.
use vstd::prelude::*;

use crate::error::RustDBResult;
use crate::guard::{
    OwnedPageDataReadGuard, OwnedPageDataWriteGuard, PageDataReadGuard, PageDataWriteGuard, PageRef,
};
use crate::node::{Decoder, Encoder, Node};
use crate::page::{FrameId, PageData, PageId};
use crate::pool::BufferPoolManager;
use crate::state::PoolState;
use crate::step::{
    begins_flush, creates_after_write, creates_or_fails, deletes_after_write, deletes_page,
    fetches_after_read, fetches_after_write, fetches_or_fails, fetches_page, flushes_after_write,
    flushes_all_after_write, flushes_all_latched, flushes_latched, grants_read, grants_write,
    makes_page, makes_page_after_write, reads_node, FetchStep, FlushStep, NodeStep, PageRead,
    PageWrite, WriteStep,
};

verus! {

/// A new pool is the initial state of a run.
pub proof fn law_new_is_initial(
    pool_size: usize,
    k: usize,
    result: RustDBResult<BufferPoolManager>,
)
    requires
        call_ensures(BufferPoolManager::new, (pool_size, k), result),
    ensures
        result matches Ok(pool) && pool@ == PoolState::initial(pool_size as nat, k as nat),
{
}

/// [`BufferPoolManager::new_page_ref`] keeps [`makes_page`].
pub proof fn law_new_page_ref_keeps_its_relation(
    pool: &mut BufferPoolManager,
    step: WriteStep<Option<PageRef>>,
)
    requires
        call_ensures(BufferPoolManager::new_page_ref, (pool,), step),
    ensures
        makes_page(old(pool)@, final(pool)@, step),
{
}

/// [`BufferPoolManager::new_page_written`] keeps [`makes_page_after_write`].
pub proof fn law_new_page_written_keeps_its_relation(
    pool: &mut BufferPoolManager,
    write: PageWrite,
    reply: RustDBResult<()>,
    result: RustDBResult<PageRef>,
)
    requires
        call_ensures(BufferPoolManager::new_page_written, (pool, write, reply), result),
    ensures
        makes_page_after_write(old(pool)@, write, reply, final(pool)@, result),
{
}

/// [`BufferPoolManager::fetch_page_ref`] keeps [`fetches_page`].
pub proof fn law_fetch_page_ref_keeps_its_relation(
    pool: &mut BufferPoolManager,
    page_id: PageId,
    step: FetchStep<Option<PageRef>>,
)
    requires
        call_ensures(BufferPoolManager::fetch_page_ref, (pool, page_id), step),
    ensures
        fetches_page(old(pool)@, page_id, final(pool)@, step),
{
}

/// [`BufferPoolManager::fetch_page_written`] keeps [`fetches_after_write`].
pub proof fn law_fetch_page_written_keeps_its_relation(
    pool: &mut BufferPoolManager,
    page_id: PageId,
    write: PageWrite,
    reply: RustDBResult<()>,
    result: RustDBResult<PageRead>,
)
    requires
        call_ensures(BufferPoolManager::fetch_page_written, (pool, page_id, write, reply), result),
    ensures
        fetches_after_write(old(pool)@, page_id, write, reply, final(pool)@, result),
{
}

/// [`BufferPoolManager::fetch_page_read`] keeps [`fetches_after_read`].
pub proof fn law_fetch_page_read_keeps_its_relation(
    pool: &mut BufferPoolManager,
    read: PageRead,
    reply: RustDBResult<PageData>,
    result: RustDBResult<PageRef>,
)
    requires
        call_ensures(BufferPoolManager::fetch_page_read, (pool, read, reply), result),
    ensures
        fetches_after_read(old(pool)@, read, reply, final(pool)@, result),
{
}

/// [`BufferPoolManager::flush_page_latched`] keeps [`flushes_latched`].
pub proof fn law_flush_page_latched_keeps_its_relation(
    pool: &mut BufferPoolManager,
    frame_id: FrameId,
    step: FlushStep,
)
    requires
        call_ensures(BufferPoolManager::flush_page_latched, (pool, frame_id), step),
    ensures
        flushes_latched(old(pool)@, frame_id, None, final(pool)@, step),
{
}

/// [`BufferPoolManager::flush_page_written`] keeps [`flushes_after_write`].
pub proof fn law_flush_page_written_keeps_its_relation(
    pool: &mut BufferPoolManager,
    write: PageWrite,
    reply: RustDBResult<()>,
    result: RustDBResult<()>,
)
    requires
        call_ensures(BufferPoolManager::flush_page_written, (pool, write, reply), result),
    ensures
        flushes_after_write(
            old(pool)@,
            write,
            reply,
            None,
            final(pool)@,
            FlushStep::Done(result),
        ),
{
}

/// [`BufferPoolManager::flush_page_all_latched`] keeps [`flushes_all_latched`].
pub proof fn law_flush_page_all_latched_keeps_its_relation(
    pool: &mut BufferPoolManager,
    frame_id: FrameId,
    step: FlushStep,
)
    requires
        call_ensures(BufferPoolManager::flush_page_all_latched, (pool, frame_id), step),
    ensures
        flushes_all_latched(old(pool)@, frame_id, final(pool)@, step),
{
}

/// [`BufferPoolManager::flush_page_all_written`] keeps [`flushes_all_after_write`].
pub proof fn law_flush_page_all_written_keeps_its_relation(
    pool: &mut BufferPoolManager,
    write: PageWrite,
    reply: RustDBResult<()>,
    step: FlushStep,
)
    requires
        call_ensures(BufferPoolManager::flush_page_all_written, (pool, write, reply), step),
    ensures
        flushes_all_after_write(old(pool)@, write, reply, final(pool)@, step),
{
}

/// [`BufferPoolManager::delete_page`] keeps [`deletes_page`].
pub proof fn law_delete_page_keeps_its_relation(
    pool: &mut BufferPoolManager,
    page_id: PageId,
    step: WriteStep<Option<PageId>>,
)
    requires
        call_ensures(BufferPoolManager::delete_page, (pool, page_id), step),
    ensures
        deletes_page(old(pool)@, page_id, final(pool)@, step),
{
}

/// [`BufferPoolManager::delete_page_written`] keeps [`deletes_after_write`].
pub proof fn law_delete_page_written_keeps_its_relation(
    pool: &mut BufferPoolManager,
    page_id: PageId,
    write: PageWrite,
    reply: RustDBResult<()>,
    result: RustDBResult<Option<PageId>>,
)
    requires
        call_ensures(BufferPoolManager::delete_page_written, (pool, page_id, write, reply), result),
    ensures
        deletes_after_write(old(pool)@, page_id, write, reply, final(pool)@, result),
{
}

/// [`BufferPoolManager::fetch_page_read_owned`] keeps [`fetches_or_fails`].
pub proof fn law_fetch_page_read_owned_keeps_its_relation(
    pool: &mut BufferPoolManager,
    page_id: PageId,
    step: FetchStep<PageRef>,
)
    requires
        call_ensures(BufferPoolManager::fetch_page_read_owned, (pool, page_id), step),
    ensures
        fetches_or_fails(old(pool)@, page_id, final(pool)@, step),
{
}

/// [`BufferPoolManager::fetch_page_write_owned`] keeps [`fetches_or_fails`].
pub proof fn law_fetch_page_write_owned_keeps_its_relation(
    pool: &mut BufferPoolManager,
    page_id: PageId,
    step: FetchStep<PageRef>,
)
    requires
        call_ensures(BufferPoolManager::fetch_page_write_owned, (pool, page_id), step),
    ensures
        fetches_or_fails(old(pool)@, page_id, final(pool)@, step),
{
}

/// [`BufferPoolManager::fetch_page_node`] keeps [`fetches_or_fails`].
pub proof fn law_fetch_page_node_keeps_its_relation(
    pool: &mut BufferPoolManager,
    page_id: PageId,
    step: FetchStep<PageRef>,
)
    requires
        call_ensures(BufferPoolManager::fetch_page_node, (pool, page_id), step),
    ensures
        fetches_or_fails(old(pool)@, page_id, final(pool)@, step),
{
}

/// [`BufferPoolManager::decode_page_node`] keeps [`reads_node`].
pub proof fn law_decode_page_node_keeps_its_relation<K: Decoder>(
    pool: &mut BufferPoolManager,
    page: PageRef,
    step: NodeStep<K>,
)
    requires
        call_ensures(BufferPoolManager::decode_page_node::<K>, (pool, page), step),
    ensures
        reads_node(old(pool)@, page, final(pool)@, step),
{
}

/// [`BufferPoolManager::new_page_node`] keeps [`creates_or_fails`].
pub proof fn law_new_page_node_keeps_its_relation<K: Encoder>(
    pool: &mut BufferPoolManager,
    node: &mut Node<K>,
    step: WriteStep<PageRef>,
)
    requires
        call_ensures(BufferPoolManager::new_page_node::<K>, (pool, node), step),
    ensures
        creates_or_fails(old(pool)@, *old(node), final(pool)@, *final(node), step),
{
}

/// [`BufferPoolManager::new_page_write_owned`] keeps [`creates_or_fails`].
pub proof fn law_new_page_write_owned_keeps_its_relation<K: Encoder>(
    pool: &mut BufferPoolManager,
    node: &mut Node<K>,
    step: WriteStep<PageRef>,
)
    requires
        call_ensures(BufferPoolManager::new_page_write_owned::<K>, (pool, node), step),
    ensures
        creates_or_fails(old(pool)@, *old(node), final(pool)@, *final(node), step),
{
}

/// [`BufferPoolManager::new_page_node_written`] keeps [`creates_after_write`].
pub proof fn law_new_page_node_written_keeps_its_relation<K: Encoder>(
    pool: &mut BufferPoolManager,
    node: &mut Node<K>,
    write: PageWrite,
    reply: RustDBResult<()>,
    result: RustDBResult<PageRef>,
)
    requires
        call_ensures(BufferPoolManager::new_page_node_written::<K>, (pool, node, write, reply), result),
    ensures
        creates_after_write(
            old(pool)@,
            *old(node),
            write,
            reply,
            final(pool)@,
            *final(node),
            result,
        ),
{
}

/// [`BufferPoolManager::flush_page`] keeps [`begins_flush`].
pub proof fn law_flush_page_keeps_its_relation(
    pool: &BufferPoolManager,
    page_id: PageId,
    step: FlushStep,
)
    requires
        call_ensures(BufferPoolManager::flush_page, (pool, page_id), step),
    ensures
        begins_flush(pool@, page_id, step),
{
}

/// [`PageRef::data_write`] keeps [`grants_write`].
pub proof fn law_data_write_keeps_its_relation<'a>(
    page: &'a PageRef,
    pool: &mut BufferPoolManager,
    guard: Option<PageDataWriteGuard<'a>>,
)
    requires
        call_ensures(PageRef::data_write, (page, pool), guard),
    ensures
        grants_write(old(pool)@, page.frame(), final(pool)@, guard is Some),
{
}

/// [`PageRef::data_read`] keeps [`grants_read`].
pub proof fn law_data_read_keeps_its_relation<'a>(
    page: &'a PageRef,
    pool: &mut BufferPoolManager,
    guard: Option<PageDataReadGuard<'a>>,
)
    requires
        call_ensures(PageRef::data_read, (page, pool), guard),
    ensures
        grants_read(old(pool)@, page.frame(), final(pool)@, guard is Some),
{
}

/// [`PageRef::data_write_owned`] keeps [`grants_write`].
pub proof fn law_data_write_owned_keeps_its_relation(
    page: PageRef,
    pool: &mut BufferPoolManager,
    result: Result<OwnedPageDataWriteGuard, PageRef>,
)
    requires
        call_ensures(PageRef::data_write_owned, (page, pool), result),
    ensures
        grants_write(old(pool)@, page.frame(), final(pool)@, result is Ok),
{
}

/// [`PageRef::data_read_owned`] keeps [`grants_read`].
pub proof fn law_data_read_owned_keeps_its_relation(
    page: PageRef,
    pool: &mut BufferPoolManager,
    result: Result<OwnedPageDataReadGuard, PageRef>,
)
    requires
        call_ensures(PageRef::data_read_owned, (page, pool), result),
    ensures
        grants_read(old(pool)@, page.frame(), final(pool)@, result is Ok),
{
}

} // verus!
