//! The pool together with the disk: what the operations come to when the disk
//! replies to their requests, and what holds of every run.
use vstd::prelude::*;

use crate::coherence::{
    lemma_claim, lemma_clean, lemma_create, lemma_end_flush, lemma_erase, lemma_give_up,
    lemma_initial_coherent, lemma_latch, lemma_load, lemma_pin, lemma_store, lemma_unpin,
};
use crate::page::{FrameId, Latch, PageId};
use crate::state::{Claim, PoolState};
use crate::step::{PageRead, PageWrite};

verus! {

/// The request that the disk has yet to reply to.
pub enum Pending {
    /// No operation is under way.
    Idle,
    /// A page is being written to make room for a new one.
    NewWrite { write: PageWrite },
    /// A page is being written to make room for another.
    FetchWrite { page_id: PageId, write: PageWrite },
    /// A page is being read.
    FetchRead { read: PageRead },
    /// A page is being flushed. Its frame is latched.
    FlushWrite { write: PageWrite },
    /// A page is being written in order to be deleted.
    DeleteWrite { page_id: PageId, write: PageWrite },
}

/// The pool, the pages on disk, and the request under way.
pub struct System {
    /// The pool.
    pub pool: PoolState,
    /// The pages on disk.
    pub disk: Map<PageId, Seq<u8>>,
    /// The request under way.
    pub pending: Pending,
}

/// What can happen. A reply of the disk to a write says whether it succeeded,
/// and a reply to a read brings the bytes where it did.
pub enum Action {
    /// A new page is asked for.
    NewPage,
    /// The disk replies to the write that makes room for it.
    NewPageWritten { ok: bool },
    /// A page is asked for.
    FetchPage { page_id: PageId },
    /// The disk replies to the write that makes room for it.
    FetchWritten { ok: bool },
    /// The disk replies to the read.
    FetchRead { reply: Option<Seq<u8>> },
    /// A flush comes to a frame, and has to come back where a guard is at the
    /// bytes.
    Flush { frame_id: FrameId },
    /// The disk replies to the write.
    FlushWritten { ok: bool },
    /// The deletion of a page is asked for.
    DeletePage { page_id: PageId },
    /// The disk replies to the write.
    DeleteWritten { ok: bool },
    /// A reference to the page in a frame is given back.
    Release { frame_id: FrameId },
    /// The bytes in a frame are asked for in order to change them.
    TakeWrite { frame_id: FrameId },
    /// The bytes in a frame are asked for in order to read them.
    TakeRead { frame_id: FrameId },
    /// A guard that reads the bytes in a frame is given back.
    EndRead { frame_id: FrameId },
    /// A guard that may change the bytes in a frame is given back, with these
    /// bytes in it.
    Store { frame_id: FrameId, data: Seq<u8> },
}

/// Whether the write takes the disk from `before` to `after`. One that failed
/// may have left anything in that page.
pub open spec fn writes(
    before: Map<PageId, Seq<u8>>,
    write: PageWrite,
    ok: bool,
    after: Map<PageId, Seq<u8>>,
) -> bool {
    if ok {
        after == before.insert(write.id(), write.bytes())
    } else {
        after.remove(write.id()) == before.remove(write.id())
    }
}

impl System {
    /// A system with a pool without any page.
    pub open spec fn initial(pool_size: nat, k: nat, disk: Map<PageId, Seq<u8>>) -> System {
        System { pool: PoolState::initial(pool_size, k), disk, pending: Pending::Idle }
    }

    /// Whether the page in the frame is being flushed.
    pub open spec fn is_flushing(self, frame_id: FrameId) -> bool {
        self.pending matches Pending::FlushWrite { write } && write.frame() == frame_id
    }

    /// Whether the action can take the system to `after`.
    ///
    /// An operation starts only when none is under way. A new page gets an id
    /// that is not in the pool, a page is not held more than `usize::MAX`
    /// times, only references and guards that are held are given back, and the
    /// last reference to a page after the guards of the page.
    pub open spec fn steps_to(self, action: Action, after: System) -> bool {
        match action {
            Action::NewPage => {
                &&& self.pending is Idle
                &&& after.disk == self.disk
                &&& match self.pool.claim() {
                    Claim::Exhausted => after == self,
                    Claim::Ready(f) => {
                        &&& !self.pool.after_claim().page_table.contains_key(self.pool.next_page_id)
                        &&& after.pool == self.pool.after_claim().create(f)
                        &&& after.pending is Idle
                    },
                    Claim::Dirty(f) => {
                        &&& after.pool == self.pool.after_claim()
                        &&& after.pending matches Pending::NewWrite { write }
                        &&& write.is_of(self.pool, f)
                    },
                }
            },
            Action::NewPageWritten { ok } => {
                &&& self.pending matches Pending::NewWrite { write }
                &&& after.pending is Idle
                &&& writes(self.disk, write, ok, after.disk)
                &&& if ok {
                    &&& !self.pool.give_up(write.frame()).page_table.contains_key(
                        self.pool.next_page_id,
                    )
                    &&& after.pool == self.pool.give_up(write.frame()).create(write.frame())
                } else {
                    after.pool == self.pool
                }
            },
            Action::FetchPage { page_id } => {
                &&& self.pending is Idle
                &&& after.disk == self.disk
                &&& if self.pool.page_table.contains_key(page_id) {
                    &&& self.pool.page(self.pool.page_table[page_id]).pin_count < usize::MAX
                    &&& after.pool == self.pool.pin(self.pool.page_table[page_id])
                    &&& after.pending is Idle
                } else {
                    match self.pool.claim() {
                        Claim::Exhausted => after == self,
                        Claim::Ready(f) => {
                            &&& after.pool == self.pool.after_claim()
                            &&& after.pending matches Pending::FetchRead { read }
                            &&& read.is_into(page_id, f)
                        },
                        Claim::Dirty(f) => {
                            &&& after.pool == self.pool.after_claim()
                            &&& after.pending matches Pending::FetchWrite { page_id: wanted, write }
                            &&& wanted == page_id
                            &&& write.is_of(self.pool, f)
                        },
                    }
                }
            },
            Action::FetchWritten { ok } => {
                &&& self.pending matches Pending::FetchWrite { page_id, write }
                &&& writes(self.disk, write, ok, after.disk)
                &&& if ok {
                    &&& after.pool == self.pool.give_up(write.frame())
                    &&& after.pending matches Pending::FetchRead { read }
                    &&& read.is_into(page_id, write.frame())
                } else {
                    &&& after.pool == self.pool
                    &&& after.pending is Idle
                }
            },
            Action::FetchRead { reply } => {
                &&& self.pending matches Pending::FetchRead { read }
                &&& after.disk == self.disk
                &&& after.pending is Idle
                &&& match reply {
                    Some(data) => {
                        &&& self.disk.contains_key(read.id()) ==> data == self.disk[read.id()]
                        &&& after.pool == self.pool.load(read.frame(), read.id(), data)
                    },
                    None => after.pool == self.pool,
                }
            },
            Action::Flush { frame_id } => {
                &&& self.pending is Idle
                &&& frame_id < self.pool.pages.len()
                &&& if self.pool.page(frame_id).latch is Free && self.pool.page(
                    frame_id,
                ).is_dirty {
                    &&& after.pool == self.pool.latch_write(frame_id)
                    &&& after.disk == self.disk
                    &&& after.pending matches Pending::FlushWrite { write }
                    &&& write.is_of(self.pool, frame_id)
                } else {
                    after == self
                }
            },
            Action::FlushWritten { ok } => {
                &&& self.pending matches Pending::FlushWrite { write }
                &&& after.pending is Idle
                &&& writes(self.disk, write, ok, after.disk)
                &&& after.pool == self.pool.end_flush(write.frame(), ok)
            },
            Action::DeletePage { page_id } => {
                let f = self.pool.page_table[page_id];
                &&& self.pending is Idle
                &&& after.disk == self.disk
                &&& if !self.pool.page_table.contains_key(page_id) || self.pool.page(f).pin_count
                    > 0 {
                    after == self
                } else if self.pool.page(f).is_dirty {
                    &&& after.pool == self.pool
                    &&& after.pending matches Pending::DeleteWrite { page_id: doomed, write }
                    &&& doomed == page_id
                    &&& write.is_of(self.pool, f)
                } else {
                    &&& after.pool == self.pool.erase(page_id, f)
                    &&& after.pending is Idle
                }
            },
            Action::DeleteWritten { ok } => {
                &&& self.pending matches Pending::DeleteWrite { page_id, write }
                &&& after.pending is Idle
                &&& writes(self.disk, write, ok, after.disk)
                &&& after.pool == if ok {
                    self.pool.clean(write.frame()).erase(page_id, write.frame())
                } else {
                    self.pool
                }
            },
            Action::Release { frame_id } => {
                &&& frame_id < self.pool.pages.len()
                &&& self.pool.page(frame_id).pin_count > 0
                &&& self.pool.page(frame_id).pin_count > 1 || self.pool.page(frame_id).latch is Free
                    || self.is_flushing(frame_id)
                &&& after == (System { pool: self.pool.unpin(frame_id), ..self })
            },
            Action::TakeWrite { frame_id } => {
                &&& frame_id < self.pool.pages.len()
                &&& self.pool.page(frame_id).pin_count > 0
                &&& after == if self.pool.page(frame_id).latch is Free {
                    System { pool: self.pool.latch_write(frame_id), ..self }
                } else {
                    self
                }
            },
            Action::TakeRead { frame_id } => {
                &&& frame_id < self.pool.pages.len()
                &&& self.pool.page(frame_id).pin_count > 0
                &&& after == if self.pool.page(frame_id).latch.admits_reader() {
                    System { pool: self.pool.latch_read(frame_id), ..self }
                } else {
                    self
                }
            },
            Action::EndRead { frame_id } => {
                &&& frame_id < self.pool.pages.len()
                &&& self.pool.page(frame_id).latch is Read
                &&& after == (System { pool: self.pool.unlatch_read(frame_id), ..self })
            },
            Action::Store { frame_id, data } => {
                &&& frame_id < self.pool.pages.len()
                &&& self.pool.page(frame_id).latch is Write
                &&& !self.is_flushing(frame_id)
                &&& after == (System { pool: self.pool.store(frame_id, data), ..self })
            },
        }
    }

    /// Whether the write concerns a page whose frame is set aside.
    pub open spec fn makes_room(self, write: PageWrite) -> bool {
        let f = write.frame();
        &&& self.pool.set_aside(f)
        &&& self.pool.resident(f)
        &&& self.pool.page(f).is_dirty
        &&& write.is_of(self.pool, f)
    }

    /// Whether the bytes in every frame are latched by the flush of its page, or
    /// only while the page is held.
    pub open spec fn latches_fit(self) -> bool {
        forall|f: FrameId|
            f < self.pool.pages.len() ==> if self.is_flushing(f) {
                (#[trigger] self.pool.page(f)).latch is Write
            } else {
                self.pool.page(f).latch is Free || self.pool.page(f).pin_count > 0
            }
    }

    /// What holds at any time.
    pub open spec fn inv(self) -> bool {
        &&& self.pool.coherent()
        &&& self.latches_fit()
        &&& match self.pending {
            Pending::Idle => true,
            Pending::NewWrite { write } => self.makes_room(write),
            Pending::FetchWrite { page_id, write } => {
                &&& self.makes_room(write)
                &&& !self.pool.page_table.contains_key(page_id)
            },
            Pending::FetchRead { read } => {
                &&& self.pool.set_aside(read.frame())
                &&& !self.pool.resident(read.frame())
                &&& !self.pool.page(read.frame()).is_dirty
                &&& !self.pool.page_table.contains_key(read.id())
            },
            Pending::FlushWrite { write } => {
                &&& write.frame() < self.pool.pages.len()
                &&& self.pool.page(write.frame()).is_dirty
                &&& write.is_of(self.pool, write.frame())
            },
            Pending::DeleteWrite { page_id, write } => {
                &&& self.pool.page_table.contains_pair(page_id, write.frame())
                &&& self.pool.page(write.frame()).pin_count == 0
                &&& self.pool.page(write.frame()).is_dirty
                &&& write.is_of(self.pool, write.frame())
            },
        }
    }

    /// The bytes of a page: those in the pool, or else those on disk.
    pub open spec fn contents(self, page_id: PageId) -> Seq<u8> {
        if self.pool.page_table.contains_key(page_id) {
            self.pool.page(self.pool.page_table[page_id]).data
        } else {
            self.disk[page_id]
        }
    }

    /// Whether the bytes of a page are on disk, or will be written there before
    /// its frame is given up.
    pub open spec fn settled(self, page_id: PageId) -> bool {
        let f = self.pool.page_table[page_id];
        if self.pool.page_table.contains_key(page_id) && self.pool.page(f).is_dirty {
            true
        } else {
            self.disk.contains_pair(page_id, self.contents(page_id))
        }
    }

    /// Whether the action puts other bytes into the page, or makes it anew.
    pub open spec fn rewrites(self, action: Action, page_id: PageId) -> bool {
        match action {
            Action::Store { frame_id, .. } => self.pool.page(frame_id).page_id == page_id,
            Action::NewPage | Action::NewPageWritten { .. } => self.pool.next_page_id == page_id,
            _ => false,
        }
    }
}

/// A system whose pool holds no page is in order.
pub proof fn law_start_is_in_order(pool_size: usize, k: nat, disk: Map<PageId, Seq<u8>>)
    ensures
        System::initial(pool_size as nat, k, disk).inv(),
{
    lemma_initial_coherent(pool_size, k);
}

/// Every action keeps the system in order: the table leads to the pages that it
/// names, no page is in two frames, free frames are not in use, a frame may be
/// given up exactly when nobody holds its page, and only the bytes of a page
/// that is held or flushed are latched.
pub proof fn law_order_is_kept(before: System, action: Action, after: System)
    requires
        before.inv(),
        before.steps_to(action, after),
    ensures
        after.inv(),
{
    let pool = before.pool;
    match action {
        Action::NewPage => {
            lemma_claim(pool);
            if let Claim::Ready(f) = pool.claim() {
                lemma_create(pool.after_claim(), f);
            }
            if let Claim::Dirty(f) = pool.claim() {
                assert(pool.resident(f));
            }
        },
        Action::NewPageWritten { ok } => {
            if let Pending::NewWrite { write } = before.pending {
                if ok {
                    lemma_give_up(pool, write.frame());
                    lemma_create(pool.give_up(write.frame()), write.frame());
                }
            }
        },
        Action::FetchPage { page_id } => {
            if pool.page_table.contains_key(page_id) {
                lemma_pin(pool, page_id);
            } else {
                lemma_claim(pool);
                if let Claim::Dirty(f) = pool.claim() {
                    assert(pool.resident(f));
                }
            }
        },
        Action::FetchWritten { ok } => {
            if let Pending::FetchWrite { page_id, write } = before.pending {
                if ok {
                    lemma_give_up(pool, write.frame());
                }
            }
        },
        Action::FetchRead { reply } => {
            if let Pending::FetchRead { read } = before.pending {
                if let Some(data) = reply {
                    lemma_load(pool, read.frame(), read.id(), data);
                }
            }
        },
        Action::Flush { frame_id } => {
            lemma_latch(pool, frame_id, Latch::Write);
        },
        Action::FlushWritten { ok } => {
            if let Pending::FlushWrite { write } = before.pending {
                lemma_end_flush(pool, write.frame(), ok);
            }
        },
        Action::DeletePage { page_id } => {
            let f = pool.page_table[page_id];
            if pool.page_table.contains_key(page_id) && pool.page(f).pin_count == 0 && !pool.page(
                f,
            ).is_dirty {
                lemma_erase(pool, page_id);
            }
        },
        Action::DeleteWritten { ok } => {
            if let Pending::DeleteWrite { page_id, write } = before.pending {
                lemma_clean(pool, write.frame());
                lemma_erase(pool.clean(write.frame()), page_id);
            }
        },
        Action::Release { frame_id } => {
            lemma_unpin(pool, frame_id);
            assert(after.pool.replacer.log == pool.replacer.log);
        },
        Action::TakeWrite { frame_id } => {
            lemma_latch(pool, frame_id, Latch::Write);
        },
        Action::TakeRead { frame_id } => {
            lemma_latch(pool, frame_id, pool.page(frame_id).latch.with_reader());
        },
        Action::EndRead { frame_id } => {
            lemma_latch(pool, frame_id, pool.page(frame_id).latch.without_reader());
        },
        Action::Store { frame_id, data } => {
            lemma_store(pool, frame_id, data);
        },
    }
}

/// A write leaves the other pages on disk as they are.
proof fn lemma_write_elsewhere(
    before: Map<PageId, Seq<u8>>,
    write: PageWrite,
    ok: bool,
    after: Map<PageId, Seq<u8>>,
    page_id: PageId,
)
    requires
        writes(before, write, ok, after),
    ensures
        page_id != write.id() ==> {
            &&& after.contains_key(page_id) == before.contains_key(page_id)
            &&& after[page_id] == before[page_id]
        },
{
    if !ok && page_id != write.id() {
        let rest = before.remove(write.id());
        assert(rest.contains_key(page_id) == before.contains_key(page_id));
        assert(rest[page_id] == before[page_id]);
        assert(after.remove(write.id()).contains_key(page_id) == after.contains_key(page_id));
        assert(after.remove(write.id())[page_id] == after[page_id]);
    }
}

/// No action loses the bytes of a page: whatever is evicted, written, read,
/// flushed or deleted, and whether or not the disk fails, a page whose bytes
/// are settled keeps them until it is rewritten.
pub proof fn law_contents_are_kept(before: System, action: Action, after: System, page_id: PageId)
    requires
        before.inv(),
        before.steps_to(action, after),
        before.settled(page_id),
        !before.rewrites(action, page_id),
    ensures
        after.settled(page_id),
        after.contents(page_id) == before.contents(page_id),
{
    law_order_is_kept(before, action, after);
    let pool = before.pool;
    match action {
        Action::NewPage => {
            lemma_claim(pool);
        },
        Action::NewPageWritten { ok } => {
            if let Pending::NewWrite { write } = before.pending {
                lemma_write_elsewhere(before.disk, write, ok, after.disk, page_id);
            }
        },
        Action::FetchPage { page_id: wanted } => {
            lemma_claim(pool);
        },
        Action::FetchWritten { ok } => {
            if let Pending::FetchWrite { page_id: wanted, write } = before.pending {
                lemma_write_elsewhere(before.disk, write, ok, after.disk, page_id);
            }
        },
        Action::FlushWritten { ok } => {
            if let Pending::FlushWrite { write } = before.pending {
                assert(pool.resident(write.frame()));
                lemma_write_elsewhere(before.disk, write, ok, after.disk, page_id);
            }
        },
        Action::DeletePage { page_id: doomed } => {
            if pool.page_table.contains_key(doomed) && pool.page(
                pool.page_table[doomed],
            ).pin_count == 0 && !pool.page(pool.page_table[doomed]).is_dirty {
                lemma_erase(pool, doomed);
            }
        },
        Action::DeleteWritten { ok } => {
            if let Pending::DeleteWrite { page_id: doomed, write } = before.pending {
                lemma_clean(pool, write.frame());
                lemma_erase(pool.clean(write.frame()), doomed);
                lemma_write_elsewhere(before.disk, write, ok, after.disk, page_id);
            }
        },
        _ => {},
    }
}

/// Bytes that are put into a page become its contents, and are settled.
pub proof fn law_store_settles(
    before: System,
    frame_id: FrameId,
    data: Seq<u8>,
    after: System,
)
    requires
        before.inv(),
        before.steps_to(Action::Store { frame_id, data }, after),
    ensures
        after.settled(before.pool.page(frame_id).page_id),
        after.contents(before.pool.page(frame_id).page_id) == data,
{
    assert(before.pool.replacer.tracks(frame_id));
    assert(before.pool.resident(frame_id));
}

/// A page that is held stays where it is: until its last reference is given
/// back, no action takes its frame away, and none but a store changes its
/// bytes.
pub proof fn law_held_pages_stay(before: System, action: Action, after: System, frame_id: FrameId)
    requires
        before.inv(),
        before.steps_to(action, after),
        frame_id < before.pool.pages.len(),
        before.pool.page(frame_id).pin_count > 0,
    ensures
        before.pool.resident(frame_id),
        after.pool.resident(frame_id),
        after.pool.page(frame_id).page_id == before.pool.page(frame_id).page_id,
        after.pool.page(frame_id).data == match action {
            Action::Store { frame_id: f, data } if f == frame_id => data,
            _ => before.pool.page(frame_id).data,
        },
        after.pool.page(frame_id).pin_count >= match action {
            Action::Release { frame_id: f } if f == frame_id => before.pool.page(
                frame_id,
            ).pin_count - 1,
            _ => before.pool.page(frame_id).pin_count as int,
        },
{
    law_order_is_kept(before, action, after);
    let pool = before.pool;
    assert(pool.replacer.tracks(frame_id));
    match action {
        Action::NewPage => {
            lemma_claim(pool);
        },
        Action::FetchPage { .. } => {
            lemma_claim(pool);
        },
        Action::DeletePage { page_id: doomed } => {
            if pool.page_table.contains_key(doomed) && pool.page(
                pool.page_table[doomed],
            ).pin_count == 0 && !pool.page(pool.page_table[doomed]).is_dirty {
                lemma_erase(pool, doomed);
            }
        },
        Action::DeleteWritten { ok } => {
            if let Pending::DeleteWrite { page_id: doomed, write } = before.pending {
                lemma_clean(pool, write.frame());
                lemma_erase(pool.clean(write.frame()), doomed);
            }
        },
        _ => {},
    }
}

/// Whether the actions lead from each state to the next, beginning in order.
pub open spec fn is_run(states: Seq<System>, actions: Seq<Action>) -> bool {
    &&& states.len() == actions.len() + 1
    &&& states[0].inv()
    &&& forall|i: int|
        0 <= i < actions.len() ==> states[i].steps_to(#[trigger] actions[i], states[i + 1])
}

/// The system is in order throughout a run.
pub proof fn law_runs_stay_in_order(states: Seq<System>, actions: Seq<Action>, i: int)
    requires
        is_run(states, actions),
        0 <= i < states.len(),
    ensures
        states[i].inv(),
    decreases i,
{
    if i > 0 {
        law_runs_stay_in_order(states, actions, i - 1);
        law_order_is_kept(states[i - 1], actions[i - 1], states[i]);
    }
}

/// What was written to a page a while ago is read back: the bytes stored by the
/// `i`-th action of a run are the contents of the page up to the `j`-th state,
/// unless the page is rewritten in between, and where the page is in the pool
/// then, its frame holds them.
pub proof fn law_read_gives_back_what_was_written(
    states: Seq<System>,
    actions: Seq<Action>,
    i: int,
    j: int,
    frame_id: FrameId,
    data: Seq<u8>,
)
    requires
        is_run(states, actions),
        0 <= i < j < states.len(),
        actions[i] == (Action::Store { frame_id, data }),
        forall|l: int|
            i < l < j ==> !states[l].rewrites(
                #[trigger] actions[l],
                states[i].pool.page(frame_id).page_id,
            ),
    ensures
        ({
            let page_id = states[i].pool.page(frame_id).page_id;
            &&& states[j].settled(page_id)
            &&& states[j].contents(page_id) == data
            &&& states[j].pool.page_table.contains_key(page_id) ==> states[j].pool.page(
                states[j].pool.page_table[page_id],
            ).data == data
            &&& !states[j].pool.page_table.contains_key(page_id)
                ==> states[j].disk.contains_pair(page_id, data)
        }),
    decreases j,
{
    let page_id = states[i].pool.page(frame_id).page_id;
    law_runs_stay_in_order(states, actions, j - 1);
    if j == i + 1 {
        law_store_settles(states[i], frame_id, data, states[j]);
    } else {
        law_read_gives_back_what_was_written(states, actions, i, j - 1, frame_id, data);
        law_contents_are_kept(states[j - 1], actions[j - 1], states[j], page_id);
    }
}

} // verus!
