//! Pages, and the ids by which pages and frames are named.
use vstd::prelude::*;

verus! {

/// The number of bytes in a page.
pub const PAGE_SIZE: usize = 4096;

/// The number of a page of the database file.
pub type PageId = usize;

/// The number of a frame of the pool.
pub type FrameId = usize;

/// The bytes of one page.
pub type PageData = [u8; PAGE_SIZE];

/// How many guards can read the bytes of a page at a time: as many as a
/// `tokio::sync::RwLock` lets in.
pub const MAX_READERS: usize = 536_870_911;

/// Who is at the bytes of a page.
#[derive(Debug, Clone, Copy, PartialEq, Eq, Structural)]
pub enum Latch {
    /// Nobody.
    Free,
    /// As many guards as given read them.
    Read(usize),
    /// A guard may change them, or a flush writes them to disk.
    Write,
}

impl Latch {
    /// Whether another guard can read the bytes: nobody may change them, and
    /// there are not too many readers.
    pub open spec fn admits_reader(self) -> bool {
        match self {
            Latch::Free => true,
            Latch::Read(n) => n < MAX_READERS,
            Latch::Write => false,
        }
    }

    /// The latch with one reader more.
    pub open spec fn with_reader(self) -> Latch {
        match self {
            Latch::Read(n) => Latch::Read((n + 1) as usize),
            _ => Latch::Read(1),
        }
    }

    /// The latch with one reader less.
    pub open spec fn without_reader(self) -> Latch {
        match self {
            Latch::Read(n) if n > 1 => Latch::Read((n - 1) as usize),
            Latch::Read(_) => Latch::Free,
            _ => self,
        }
    }

    /// Whether nobody is at the bytes.
    pub fn is_free(&self) -> (free: bool)
        ensures
            free == (self is Free),
    {
        matches!(self, Latch::Free)
    }

    /// Counts one more guard that reads the bytes, where it can be let in.
    pub fn enter(&mut self) -> (granted: bool)
        ensures
            granted == old(self).admits_reader(),
            *final(self) == if granted {
                old(self).with_reader()
            } else {
                *old(self)
            },
    {
        let readers: usize = match *self {
            Latch::Free => 0,
            Latch::Read(n) => n,
            Latch::Write => return false,
        };
        if readers < MAX_READERS {
            *self = Latch::Read(readers + 1);
            true
        } else {
            false
        }
    }

    /// Counts one guard less that reads the bytes.
    pub fn leave(&mut self)
        ensures
            *final(self) == old(self).without_reader(),
    {
        if let Latch::Read(n) = *self {
            *self = if n > 1 {
                Latch::Read(n - 1)
            } else {
                Latch::Free
            };
        }
    }
}

/// What a frame holds, as a mathematical value.
#[verifier::ext_equal]
pub struct PageState {
    /// The page in the frame.
    pub page_id: PageId,
    /// How many references to the page are held.
    pub pin_count: usize,
    /// Whether the bytes may differ from those on disk.
    pub is_dirty: bool,
    /// The bytes of the page.
    pub data: Seq<u8>,
    /// Who is at the bytes.
    pub latch: Latch,
}

impl PageState {
    /// A page of zero bytes that nobody refers to or is at, and that needs no
    /// write.
    pub open spec fn blank(page_id: PageId) -> PageState {
        PageState {
            page_id,
            pin_count: 0,
            is_dirty: false,
            data: Seq::new(PAGE_SIZE as nat, |i: int| 0u8),
            latch: Latch::Free,
        }
    }
}

/// The page held by one frame.
pub struct Page1 {
    page_id: PageId,
    pin_count: usize,
    is_dirty: bool,
    data: PageData,
    latch: Latch,
}

impl View for Page1 {
    type V = PageState;

    closed spec fn view(&self) -> PageState {
        PageState {
            page_id: self.page_id,
            pin_count: self.pin_count,
            is_dirty: self.is_dirty,
            data: self.data@,
            latch: self.latch,
        }
    }
}

impl Page1 {
    /// A blank page under the given id.
    pub fn new(page_id: PageId) -> (page: Page1)
        ensures
            page@ == PageState::blank(page_id),
    {
        let page = Page1 {
            page_id,
            pin_count: 0,
            is_dirty: false,
            data: [0u8; PAGE_SIZE],
            latch: Latch::Free,
        };
        assert(page@.data =~= PageState::blank(page_id).data);
        page
    }

    /// The id of the page.
    pub fn page_id(&self) -> (page_id: PageId)
        ensures
            page_id == self@.page_id,
    {
        self.page_id
    }

    /// How many references to the page are held.
    pub fn pin_count(&self) -> (pin_count: usize)
        ensures
            pin_count == self@.pin_count,
    {
        self.pin_count
    }

    /// Sets the number of references to the page.
    pub fn set_pin_count(&mut self, pin_count: usize)
        ensures
            final(self)@ == (PageState { pin_count, ..old(self)@ }),
    {
        self.pin_count = pin_count;
    }

    /// Whether the bytes may differ from those on disk.
    pub fn is_dirty(&self) -> (is_dirty: bool)
        ensures
            is_dirty == self@.is_dirty,
    {
        self.is_dirty
    }

    /// Marks the page as dirty or clean.
    pub fn set_dirty(&mut self, is_dirty: bool)
        ensures
            final(self)@ == (PageState { is_dirty, ..old(self)@ }),
    {
        self.is_dirty = is_dirty;
    }

    /// The bytes of the page.
    pub fn data(&self) -> (data: PageData)
        ensures
            data@ == self@.data,
    {
        self.data
    }

    /// Replaces the bytes of the page.
    pub fn set_data(&mut self, data: PageData)
        ensures
            final(self)@ == (PageState { data: data@, ..old(self)@ }),
    {
        self.data = data;
    }

    /// Who is at the bytes.
    pub fn latch(&self) -> (latch: Latch)
        ensures
            latch == self@.latch,
    {
        self.latch
    }

    /// Notes who is at the bytes.
    pub fn set_latch(&mut self, latch: Latch)
        ensures
            final(self)@ == (PageState { latch, ..old(self)@ }),
    {
        self.latch = latch;
    }

    /// Turns the page into a blank one under id 0, as at the start.
    pub fn reset(&mut self)
        ensures
            final(self)@ == PageState::blank(0),
    {
        *self = Page1::new(0);
    }
}

} // verus!
