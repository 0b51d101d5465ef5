//! What an operation of the pool asks of its caller.
use vstd::prelude::*;

use crate::error::{RustDBError, RustDBResult};
use crate::guard::PageRef;
use crate::node::{decodes_to, Decoder, Node};
use crate::page::{FrameId, PageData, PageId};
use crate::state::{Claim, PoolState};

verus! {

/// A page to be written to disk, and the frame that holds it.
pub struct PageWrite {
    page_id: PageId,
    frame_id: FrameId,
    data: PageData,
}

impl PageWrite {
    /// The page to be written.
    pub closed spec fn id(&self) -> PageId {
        self.page_id
    }

    /// The frame that holds the page.
    pub closed spec fn frame(&self) -> FrameId {
        self.frame_id
    }

    /// The bytes to be written.
    pub closed spec fn bytes(&self) -> Seq<u8> {
        self.data@
    }

    /// Whether this asks to write the page in the frame as it stands.
    pub open spec fn is_of(&self, state: PoolState, frame_id: FrameId) -> bool {
        &&& self.frame() == frame_id
        &&& self.id() == state.page(frame_id).page_id
        &&& self.bytes() == state.page(frame_id).data
    }

    /// A request to write `data` as the page.
    pub(crate) fn new(page_id: PageId, frame_id: FrameId, data: PageData) -> (write: PageWrite)
        ensures
            write.id() == page_id,
            write.frame() == frame_id,
            write.bytes() == data@,
    {
        PageWrite { page_id, frame_id, data }
    }

    /// The page to be written.
    pub fn page_id(&self) -> (page_id: PageId)
        ensures
            page_id == self.id(),
    {
        self.page_id
    }

    /// The frame that holds the page.
    pub fn frame_id(&self) -> (frame_id: FrameId)
        ensures
            frame_id == self.frame(),
    {
        self.frame_id
    }

    /// The bytes to be written.
    pub fn data(&self) -> (data: &PageData)
        ensures
            data@ == self.bytes(),
    {
        &self.data
    }
}

/// A page to be read from disk, and the frame set aside for it.
pub struct PageRead {
    page_id: PageId,
    frame_id: FrameId,
}

impl PageRead {
    /// The page to be read.
    pub closed spec fn id(&self) -> PageId {
        self.page_id
    }

    /// The frame set aside for the page.
    pub closed spec fn frame(&self) -> FrameId {
        self.frame_id
    }

    /// Whether this asks to read the page into the frame.
    pub open spec fn is_into(&self, page_id: PageId, frame_id: FrameId) -> bool {
        self.id() == page_id && self.frame() == frame_id
    }

    /// A request to read the page.
    pub(crate) fn new(page_id: PageId, frame_id: FrameId) -> (read: PageRead)
        ensures
            read.id() == page_id,
            read.frame() == frame_id,
    {
        PageRead { page_id, frame_id }
    }

    /// The page to be read.
    pub fn page_id(&self) -> (page_id: PageId)
        ensures
            page_id == self.id(),
    {
        self.page_id
    }

    /// The frame set aside for the page.
    pub fn frame_id(&self) -> (frame_id: FrameId)
        ensures
            frame_id == self.frame(),
    {
        self.frame_id
    }
}

/// Where the search for a frame stands.
pub enum FrameStep {
    /// There is no frame to use.
    Exhausted,
    /// The frame can be used.
    Ready(FrameId),
    /// The page in the frame has to be written first.
    Write(PageWrite),
}

/// Where an operation stands that may have to write one page.
pub enum WriteStep<T> {
    /// The operation is over.
    Done(RustDBResult<T>),
    /// The page has to be written before the operation goes on.
    Write(PageWrite),
}

/// Where an operation stands that may have to write one page and read another.
pub enum FetchStep<T> {
    /// The operation is over.
    Done(RustDBResult<T>),
    /// The page has to be written before the operation goes on.
    Write(PageWrite),
    /// The page has to be read before the operation goes on.
    Read(PageRead),
}

/// Where a flush stands.
pub enum FlushStep {
    /// The flush is over.
    Done(RustDBResult<()>),
    /// The flush goes on once no guard is at the bytes in the frame.
    Latch(FrameId),
    /// The page has to be written before the flush goes on.
    Write(PageWrite),
}

/// Where the decoding of a node stands.
pub enum NodeStep<K> {
    /// The node was read, or could not be.
    Done(RustDBResult<(PageRef, Node<K>)>),
    /// The decoding goes on once no guard can change the bytes of the page.
    Latch(PageRef),
}

/// Whether a new page goes from `before` to `after` and takes the given step.
pub open spec fn makes_page(
    before: PoolState,
    after: PoolState,
    step: WriteStep<Option<PageRef>>,
) -> bool {
    match before.claim() {
        Claim::Exhausted => {
            &&& after == before
            &&& step matches WriteStep::Done(Ok(None))
        },
        Claim::Ready(f) => {
            &&& after == before.after_claim().create(f)
            &&& f < before.pages.len()
            &&& step matches WriteStep::Done(Ok(Some(page)))
            &&& page.is_to(before.next_page_id, f)
        },
        Claim::Dirty(f) => {
            &&& after == before.after_claim()
            &&& f < before.pages.len()
            &&& step matches WriteStep::Write(w)
            &&& w.is_of(before, f)
        },
    }
}

/// Whether a new page goes from `before` to `after` and has the given result
/// once the disk has replied to the write that makes room for it.
pub open spec fn makes_page_after_write(
    before: PoolState,
    write: PageWrite,
    reply: RustDBResult<()>,
    after: PoolState,
    result: RustDBResult<PageRef>,
) -> bool {
    match reply {
        Ok(_) => {
            &&& after == before.give_up(write.frame()).create(write.frame())
            &&& result matches Ok(page)
            &&& page.is_to(before.next_page_id, write.frame())
        },
        Err(e) => {
            &&& after == before
            &&& result == Err::<PageRef, RustDBError>(e)
        },
    }
}

/// Whether a fetch goes from `before` to `after` and takes the given step.
pub open spec fn fetches_page(
    before: PoolState,
    page_id: PageId,
    after: PoolState,
    step: FetchStep<Option<PageRef>>,
) -> bool {
    if before.page_table.contains_key(page_id) {
        let f = before.page_table[page_id];
        &&& after == before.pin(f)
        &&& f < before.pages.len()
        &&& step matches FetchStep::Done(Ok(Some(page)))
        &&& page.is_to(before.page(f).page_id, f)
    } else {
        match before.claim() {
            Claim::Exhausted => {
                &&& after == before
                &&& step matches FetchStep::Done(Ok(None))
            },
            Claim::Ready(f) => {
                &&& after == before.after_claim()
                &&& f < before.pages.len()
                &&& step matches FetchStep::Read(r)
                &&& r.is_into(page_id, f)
            },
            Claim::Dirty(f) => {
                &&& after == before.after_claim()
                &&& f < before.pages.len()
                &&& step matches FetchStep::Write(w)
                &&& w.is_of(before, f)
            },
        }
    }
}

/// Whether a fetch goes from `before` to `after` and has the given result once
/// the disk has replied to the write that makes room for the page.
pub open spec fn fetches_after_write(
    before: PoolState,
    page_id: PageId,
    write: PageWrite,
    reply: RustDBResult<()>,
    after: PoolState,
    result: RustDBResult<PageRead>,
) -> bool {
    match reply {
        Ok(_) => {
            &&& after == before.give_up(write.frame())
            &&& result matches Ok(r)
            &&& r.is_into(page_id, write.frame())
        },
        Err(e) => {
            &&& after == before
            &&& result == Err::<PageRead, RustDBError>(e)
        },
    }
}

/// Whether a fetch goes from `before` to `after` and has the given result once
/// the disk has replied to the read.
pub open spec fn fetches_after_read(
    before: PoolState,
    read: PageRead,
    reply: RustDBResult<PageData>,
    after: PoolState,
    result: RustDBResult<PageRef>,
) -> bool {
    match reply {
        Ok(data) => {
            &&& after == before.load(read.frame(), read.id(), data@)
            &&& result matches Ok(page)
            &&& page.is_to(read.id(), read.frame())
        },
        Err(e) => {
            &&& after == before
            &&& result == Err::<PageRef, RustDBError>(e)
        },
    }
}

/// Whether the flush of a page begins with the given step: at its frame, where
/// it is in the pool.
pub open spec fn begins_flush(before: PoolState, page_id: PageId, step: FlushStep) -> bool {
    if before.page_table.contains_key(page_id) {
        &&& step == FlushStep::Latch(before.page_table[page_id])
        &&& before.page_table[page_id] < before.pages.len()
    } else {
        step matches FlushStep::Done(Ok(_))
    }
}

/// Whether a flush goes on with the next frame, or is over where there is none.
pub open spec fn flush_goes_on(next: Option<FrameId>, step: FlushStep) -> bool {
    match next {
        Some(f) => step == FlushStep::Latch(f),
        None => step matches FlushStep::Done(Ok(_)),
    }
}

/// Whether a flush that has come to a frame goes from `before` to `after` and
/// takes the given step: it waits while a guard is at the bytes, it latches them
/// and has a dirty page written, and it leaves a clean page for the next frame.
pub open spec fn flushes_latched(
    before: PoolState,
    frame_id: FrameId,
    next: Option<FrameId>,
    after: PoolState,
    step: FlushStep,
) -> bool {
    if !(before.page(frame_id).latch is Free) {
        &&& after == before
        &&& step == FlushStep::Latch(frame_id)
    } else if before.page(frame_id).is_dirty {
        &&& after == before.latch_write(frame_id)
        &&& step matches FlushStep::Write(w)
        &&& w.is_of(before, frame_id)
    } else {
        &&& after == before
        &&& flush_goes_on(next, step)
    }
}

/// Whether a flush goes from `before` to `after` and takes the given step once
/// the disk has replied to the write.
pub open spec fn flushes_after_write(
    before: PoolState,
    write: PageWrite,
    reply: RustDBResult<()>,
    next: Option<FrameId>,
    after: PoolState,
    step: FlushStep,
) -> bool {
    &&& after == before.end_flush(write.frame(), reply is Ok)
    &&& match reply {
        Ok(_) => flush_goes_on(next, step),
        Err(e) => step == FlushStep::Done(Err(e)),
    }
}

/// Whether the flush of all pages begins with the given step: at the first
/// frame.
pub open spec fn begins_flush_all(before: PoolState, step: FlushStep) -> bool {
    flush_goes_on(before.frame_from(0), step)
}

/// Whether a flush of all pages that has come to a frame goes from `before` to
/// `after` and takes the given step.
pub open spec fn flushes_all_latched(
    before: PoolState,
    frame_id: FrameId,
    after: PoolState,
    step: FlushStep,
) -> bool {
    flushes_latched(before, frame_id, before.frame_from(frame_id + 1), after, step)
}

/// Whether a flush of all pages goes from `before` to `after` and takes the
/// given step once the disk has replied to the write.
pub open spec fn flushes_all_after_write(
    before: PoolState,
    write: PageWrite,
    reply: RustDBResult<()>,
    after: PoolState,
    step: FlushStep,
) -> bool {
    flushes_after_write(before, write, reply, before.frame_from(write.frame() + 1), after, step)
}

/// Whether the bytes in the frame are handed out to be changed, from `before`
/// to `after`: exactly when nobody is at them.
pub open spec fn grants_write(
    before: PoolState,
    frame_id: FrameId,
    after: PoolState,
    granted: bool,
) -> bool {
    &&& granted <==> before.page(frame_id).latch is Free
    &&& after == if granted {
        before.latch_write(frame_id)
    } else {
        before
    }
}

/// Whether the bytes in the frame are handed out to be read, from `before` to
/// `after`: exactly when nobody may change them and there is room for another
/// reader.
pub open spec fn grants_read(
    before: PoolState,
    frame_id: FrameId,
    after: PoolState,
    granted: bool,
) -> bool {
    &&& granted <==> before.page(frame_id).latch.admits_reader()
    &&& after == if granted {
        before.latch_read(frame_id)
    } else {
        before
    }
}

/// Whether the node in a page that was fetched is read, from `before` to
/// `after`, with the given step: it waits while the bytes may be changed, and
/// where they hold no node, the reference is given back.
pub open spec fn reads_node<K: Decoder>(
    before: PoolState,
    page: PageRef,
    after: PoolState,
    step: NodeStep<K>,
) -> bool {
    let data = before.page(page.frame()).data;
    match step {
        NodeStep::Latch(same) => {
            &&& !before.page(page.frame()).latch.admits_reader()
            &&& same == page
            &&& after == before
        },
        NodeStep::Done(result) => {
            &&& before.page(page.frame()).latch.admits_reader()
            &&& match result {
                Ok((same, node)) => {
                    &&& same == page
                    &&& after == before
                    &&& decodes_to(data, Ok(node))
                },
                Err(e) => {
                    &&& after == before.unpin(page.frame())
                    &&& decodes_to::<K>(data, Err(e))
                },
            }
        },
    }
}

/// Whether the deletion of a page goes from `before` to `after` and takes the
/// given step.
pub open spec fn deletes_page(
    before: PoolState,
    page_id: PageId,
    after: PoolState,
    step: WriteStep<Option<PageId>>,
) -> bool {
    if !before.page_table.contains_key(page_id) {
        &&& after == before
        &&& step matches WriteStep::Done(Ok(None))
    } else {
        let f = before.page_table[page_id];
        &&& f < before.pages.len()
        &&& if before.page(f).pin_count > 0 {
            &&& after == before
            &&& step matches WriteStep::Done(Ok(None))
        } else if before.page(f).is_dirty {
            &&& after == before
            &&& step matches WriteStep::Write(w)
            &&& w.is_of(before, f)
        } else {
            &&& after == before.erase(page_id, f)
            &&& step matches WriteStep::Done(result)
            &&& before.erase_result(page_id, f, result)
        }
    }
}

/// Whether the deletion of a page goes from `before` to `after` and has the
/// given result once the disk has replied to the write.
pub open spec fn deletes_after_write(
    before: PoolState,
    page_id: PageId,
    write: PageWrite,
    reply: RustDBResult<()>,
    after: PoolState,
    result: RustDBResult<Option<PageId>>,
) -> bool {
    match reply {
        Ok(_) => {
            &&& after == before.clean(write.frame()).erase(page_id, write.frame())
            &&& before.erase_result(page_id, write.frame(), result)
        },
        Err(e) => {
            &&& after == before
            &&& result == Err::<Option<PageId>, RustDBError>(e)
        },
    }
}

/// Whether a fetch that must come to a page goes from `before` to `after` and
/// takes the given step: as an ordinary fetch, but it fails where there is no
/// frame for the page.
pub open spec fn fetches_or_fails(
    before: PoolState,
    page_id: PageId,
    after: PoolState,
    step: FetchStep<PageRef>,
) -> bool {
    if before.page_table.contains_key(page_id) {
        let f = before.page_table[page_id];
        &&& after == before.pin(f)
        &&& step matches FetchStep::Done(Ok(page))
        &&& page.is_to(before.page(f).page_id, f)
        &&& f < before.pages.len()
    } else {
        match before.claim() {
            Claim::Exhausted => {
                &&& after == before
                &&& step matches FetchStep::Done(Err(e))
                &&& e.is_buffer_pool("Can't fetch page"@)
            },
            Claim::Ready(f) => {
                &&& after == before.after_claim()
                &&& f < before.pages.len()
                &&& step matches FetchStep::Read(r)
                &&& r.is_into(page_id, f)
            },
            Claim::Dirty(f) => {
                &&& after == before.after_claim()
                &&& f < before.pages.len()
                &&& step matches FetchStep::Write(w)
                &&& w.is_of(before, f)
            },
        }
    }
}

/// Whether a new page for a node goes from `before` to `after`, takes the node
/// from `node` to `named`, and takes the given step: as any new page, but it
/// fails where there is no frame for the page, and the node gets the id of the
/// page once there is one.
pub open spec fn creates_or_fails<K>(
    before: PoolState,
    node: Node<K>,
    after: PoolState,
    named: Node<K>,
    step: WriteStep<PageRef>,
) -> bool {
    match before.claim() {
        Claim::Exhausted => {
            &&& after == before
            &&& named == node
            &&& step matches WriteStep::Done(Err(e))
            &&& e.is_buffer_pool("Can't new page"@)
        },
        Claim::Ready(f) => {
            &&& after == before.after_claim().create(f)
            &&& f < before.pages.len()
            &&& named == (Node { page_id: before.next_page_id, ..node })
            &&& step matches WriteStep::Done(Ok(page))
            &&& page.is_to(before.next_page_id, f)
        },
        Claim::Dirty(f) => {
            &&& after == before.after_claim()
            &&& f < before.pages.len()
            &&& named == node
            &&& step matches WriteStep::Write(w)
            &&& w.is_of(before, f)
        },
    }
}

/// Whether a new page for a node goes from `before` to `after`, takes the node
/// from `node` to `named`, and has the given result once the disk has replied to
/// the write that makes room for it.
pub open spec fn creates_after_write<K>(
    before: PoolState,
    node: Node<K>,
    write: PageWrite,
    reply: RustDBResult<()>,
    after: PoolState,
    named: Node<K>,
    result: RustDBResult<PageRef>,
) -> bool {
    &&& makes_page_after_write(before, write, reply, after, result)
    &&& named == if reply is Ok {
        Node { page_id: before.next_page_id, ..node }
    } else {
        node
    }
}

} // verus!
