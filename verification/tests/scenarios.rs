//! The pool over a disk in memory, through whole scenarios.
use std::collections::HashMap;

use rustdb::error::{RustDBError, RustDBResult};
use rustdb::guard::PageRef;
use rustdb::page::{Latch, PageData, PageId, MAX_READERS, PAGE_SIZE};
use rustdb::pool::BufferPoolManager;
use rustdb::step::{FetchStep, FlushStep, PageRead, PageWrite, WriteStep};

/// A disk that keeps pages in memory, and can be made to fail.
struct Disk {
    pages: HashMap<PageId, PageData>,
    writes: Vec<PageId>,
    reads: Vec<PageId>,
    broken: bool,
}

impl Disk {
    fn new() -> Disk {
        Disk {
            pages: HashMap::new(),
            writes: Vec::new(),
            reads: Vec::new(),
            broken: false,
        }
    }

    fn failure() -> RustDBError {
        RustDBError::Disk("broken".to_string())
    }

    fn write(&mut self, write: &PageWrite) -> RustDBResult<()> {
        if self.broken {
            return Err(Disk::failure());
        }
        self.writes.push(write.page_id());
        self.pages.insert(write.page_id(), *write.data());
        Ok(())
    }

    fn read(&mut self, read: &PageRead) -> RustDBResult<PageData> {
        if self.broken {
            return Err(Disk::failure());
        }
        self.reads.push(read.page_id());
        match self.pages.get(&read.page_id()) {
            Some(data) => Ok(*data),
            None => Ok([0u8; PAGE_SIZE]),
        }
    }
}

fn pool(pool_size: usize, k: usize) -> BufferPoolManager {
    match BufferPoolManager::new(pool_size, k) {
        Ok(pool) => pool,
        Err(_) => unreachable!(),
    }
}

fn new_page(pool: &mut BufferPoolManager, disk: &mut Disk) -> RustDBResult<Option<PageRef>> {
    match pool.new_page_ref() {
        WriteStep::Done(result) => result,
        WriteStep::Write(write) => {
            let reply = disk.write(&write);
            pool.new_page_written(write, reply).map(Some)
        }
    }
}

fn fetch(
    pool: &mut BufferPoolManager,
    disk: &mut Disk,
    page_id: PageId,
) -> RustDBResult<Option<PageRef>> {
    let read = match pool.fetch_page_ref(page_id) {
        FetchStep::Done(result) => return result,
        FetchStep::Write(write) => {
            let reply = disk.write(&write);
            pool.fetch_page_written(page_id, write, reply)?
        }
        FetchStep::Read(read) => read,
    };
    let reply = disk.read(&read);
    pool.fetch_page_read(read, reply).map(Some)
}

fn flush(pool: &mut BufferPoolManager, disk: &mut Disk, page_id: PageId) -> RustDBResult<()> {
    let mut step = pool.flush_page(page_id);
    loop {
        step = match step {
            FlushStep::Done(result) => return result,
            FlushStep::Latch(frame_id) => pool.flush_page_latched(frame_id),
            FlushStep::Write(write) => {
                let reply = disk.write(&write);
                return pool.flush_page_written(write, reply);
            }
        };
    }
}

fn flush_all(pool: &mut BufferPoolManager, disk: &mut Disk) -> RustDBResult<()> {
    let mut step = pool.flush_page_all();
    loop {
        step = match step {
            FlushStep::Done(result) => return result,
            FlushStep::Latch(frame_id) => pool.flush_page_all_latched(frame_id),
            FlushStep::Write(write) => {
                let reply = disk.write(&write);
                pool.flush_page_all_written(write, reply)
            }
        };
    }
}

fn delete(
    pool: &mut BufferPoolManager,
    disk: &mut Disk,
    page_id: PageId,
) -> RustDBResult<Option<PageId>> {
    match pool.delete_page(page_id) {
        WriteStep::Done(result) => result,
        WriteStep::Write(write) => {
            let reply = disk.write(&write);
            pool.delete_page_written(page_id, write, reply)
        }
    }
}

fn some_page(result: RustDBResult<Option<PageRef>>) -> PageRef {
    match result {
        Ok(Some(page)) => page,
        _ => panic!("a page was expected"),
    }
}

fn store(pool: &mut BufferPoolManager, page: &PageRef, data: &PageData) {
    let mut guard = page.data_write(pool).unwrap();
    guard.deref_mut().clone_from_slice(data);
    guard.release(pool);
}

fn touch(pool: &mut BufferPoolManager, page: &PageRef) {
    page.data_write(pool).unwrap().release(pool);
}

fn bytes(pool: &mut BufferPoolManager, page: &PageRef) -> PageData {
    let guard = page.data_read(pool).unwrap();
    let data = *guard.deref();
    guard.release(pool);
    data
}

#[test]
fn test_buffer_pool_manager() {
    let random_data = [2u8; PAGE_SIZE];
    let buffer_pool_size = 10;
    let k = 5;
    let mut disk = Disk::new();
    let mut bpm = pool(buffer_pool_size, k);

    // The buffer pool is empty, so a new page can be had.
    let page0 = new_page(&mut bpm, &mut disk).unwrap();
    assert!(page0.is_some());
    let page0 = page0.unwrap();
    assert_eq!(0, page0.page_id());

    // Once there is a page, its content can be read and written.
    store(&mut bpm, &page0, &random_data);

    // New pages can be had until the buffer pool is full.
    let mut pages = Vec::new();
    for _ in 1..buffer_pool_size {
        let page = new_page(&mut bpm, &mut disk).unwrap();
        assert!(page.is_some());
        pages.push(page.unwrap());
    }

    // Once the buffer pool is full, no new page can be had.
    for _i in buffer_pool_size..2 * buffer_pool_size {
        assert!(new_page(&mut bpm, &mut disk).unwrap().is_none());
    }

    // After pages 0 to 4 are released, five new pages can be had.
    touch(&mut bpm, &page0);
    page0.release(&mut bpm);
    for i in 0..4 {
        if let Some(page) = pages.get(i) {
            touch(&mut bpm, page);
        }
        let page = pages.remove(0);
        flush(&mut bpm, &mut disk, i).unwrap();
        page.release(&mut bpm);
    }
    for _ in 0..5 {
        let page = new_page(&mut bpm, &mut disk).unwrap();
        assert!(page.is_some());
        page.unwrap().release(&mut bpm);
    }

    // The data written a while ago can be fetched.
    let page0 = fetch(&mut bpm, &mut disk, 0).unwrap();
    assert!(page0.is_some());
    let page0 = page0.unwrap();
    assert_eq!(bytes(&mut bpm, &page0), random_data);
}

#[test]
fn test_simple() {
    let buffer_pool_size = 10;
    let k = 5;
    let mut disk = Disk::new();
    let mut bpm = pool(buffer_pool_size, k);

    // The buffer pool is empty, so a new page can be had.
    let page0 = new_page(&mut bpm, &mut disk).unwrap();
    assert!(page0.is_some());
    let page0 = page0.unwrap();
    assert_eq!(0, page0.page_id());

    // Once there is a page, its content can be read and written.
    let data = "Hello".as_bytes();
    let mut guard = page0.data_write(&mut bpm).unwrap();
    guard.deref_mut()[..data.len()].clone_from_slice(data);
    guard.release(&mut bpm);

    // New pages can be had until the buffer pool is full.
    let mut pages = Vec::new();
    for _ in 1..buffer_pool_size {
        let page = new_page(&mut bpm, &mut disk).unwrap();
        assert!(page.is_some());
        let page = page.unwrap();
        touch(&mut bpm, &page);
        pages.push(page);
    }

    // Once the buffer pool is full, no new page can be had.
    for _ in buffer_pool_size..buffer_pool_size * 2 {
        assert!(new_page(&mut bpm, &mut disk).unwrap().is_none());
    }

    // After pages 0 to 4 are released and four new pages are made, one frame is
    // left for page 0.
    touch(&mut bpm, &page0);
    page0.release(&mut bpm);
    for _ in 0..4 {
        pages.remove(0).release(&mut bpm);
    }
    for _ in 0..4 {
        let page = new_page(&mut bpm, &mut disk).unwrap();
        assert!(page.is_some());
        pages.push(page.unwrap());
    }

    // The data written a while ago can be fetched.
    let page0 = fetch(&mut bpm, &mut disk, 0).unwrap();
    assert!(page0.is_some());
    let page0 = page0.unwrap();
    let mut expected = [0u8; PAGE_SIZE];
    expected[..5].clone_from_slice("Hello".as_bytes());
    assert_eq!(bytes(&mut bpm, &page0), expected);

    // Once page 0 is released and a new page is made, all pages are held again,
    // and page 0 cannot be fetched until the new page is released.
    touch(&mut bpm, &page0);
    page0.release(&mut bpm);
    let last = new_page(&mut bpm, &mut disk).unwrap();
    assert!(last.is_some());
    assert!(fetch(&mut bpm, &mut disk, 0).unwrap().is_none());
    last.unwrap().release(&mut bpm);
    assert!(fetch(&mut bpm, &mut disk, 0).unwrap().is_some());
}

#[test]
fn new_ids_count_up() {
    let mut disk = Disk::new();
    let mut bpm = pool(2, 2);
    for expected in 0..7 {
        let page = some_page(new_page(&mut bpm, &mut disk));
        assert_eq!(page.page_id(), expected);
        page.release(&mut bpm);
    }
}

#[test]
fn a_pool_without_frames_serves_nothing() {
    let mut disk = Disk::new();
    let mut bpm = pool(0, 2);
    assert_eq!(bpm.pool_size(), 0);
    assert!(new_page(&mut bpm, &mut disk).unwrap().is_none());
    assert!(fetch(&mut bpm, &mut disk, 0).unwrap().is_none());
    assert!(flush_all(&mut bpm, &mut disk).is_ok());
}

#[test]
fn frames_are_used_in_order() {
    let mut disk = Disk::new();
    let mut bpm = pool(3, 2);
    for expected in 0..3 {
        assert_eq!(some_page(new_page(&mut bpm, &mut disk)).frame_id(), expected);
    }
}

#[test]
fn a_new_page_is_blank() {
    let mut disk = Disk::new();
    let mut bpm = pool(1, 2);
    let page = some_page(new_page(&mut bpm, &mut disk));
    store(&mut bpm, &page, &[9u8; PAGE_SIZE]);
    page.release(&mut bpm);
    let page = some_page(new_page(&mut bpm, &mut disk));
    assert_eq!(bytes(&mut bpm, &page), [0u8; PAGE_SIZE]);
    assert_eq!(disk.writes, vec![0]);
}

#[test]
fn a_page_in_the_pool_is_shared() {
    let mut disk = Disk::new();
    let mut bpm = pool(1, 2);
    let first = some_page(new_page(&mut bpm, &mut disk));
    let second = some_page(fetch(&mut bpm, &mut disk, 0));
    assert_eq!(first.frame_id(), second.frame_id());
    assert!(disk.reads.is_empty());
    first.release(&mut bpm);
    assert!(new_page(&mut bpm, &mut disk).unwrap().is_none());
    second.release(&mut bpm);
    assert!(new_page(&mut bpm, &mut disk).unwrap().is_some());
}

#[test]
fn a_clean_page_is_given_up_without_a_write() {
    let mut disk = Disk::new();
    let mut bpm = pool(1, 2);
    some_page(new_page(&mut bpm, &mut disk)).release(&mut bpm);
    assert!(new_page(&mut bpm, &mut disk).unwrap().is_some());
    assert!(disk.writes.is_empty());
}

#[test]
fn a_fetch_writes_back_the_page_it_pushes_out() {
    let mut disk = Disk::new();
    disk.pages.insert(7, [3u8; PAGE_SIZE]);
    let mut bpm = pool(1, 2);
    let page = some_page(new_page(&mut bpm, &mut disk));
    store(&mut bpm, &page, &[1u8; PAGE_SIZE]);
    page.release(&mut bpm);
    let page = some_page(fetch(&mut bpm, &mut disk, 7));
    assert_eq!(page.page_id(), 7);
    assert_eq!(bytes(&mut bpm, &page), [3u8; PAGE_SIZE]);
    assert_eq!(disk.pages.get(&0), Some(&[1u8; PAGE_SIZE]));
    assert_eq!(disk.reads, vec![7]);
}

#[test]
fn a_failed_write_back_keeps_the_page() {
    let mut disk = Disk::new();
    let mut bpm = pool(1, 2);
    let page = some_page(new_page(&mut bpm, &mut disk));
    store(&mut bpm, &page, &[1u8; PAGE_SIZE]);
    page.release(&mut bpm);
    disk.broken = true;
    assert!(matches!(new_page(&mut bpm, &mut disk), Err(RustDBError::Disk(_))));
    disk.broken = false;
    // The page is still found, and gets back into circulation when it is used.
    assert!(new_page(&mut bpm, &mut disk).unwrap().is_none());
    let page = some_page(fetch(&mut bpm, &mut disk, 0));
    assert_eq!(bytes(&mut bpm, &page), [1u8; PAGE_SIZE]);
    page.release(&mut bpm);
    let page = some_page(new_page(&mut bpm, &mut disk));
    assert_eq!(page.page_id(), 1);
    assert_eq!(disk.pages.get(&0), Some(&[1u8; PAGE_SIZE]));
}

#[test]
fn a_fetch_fails_when_the_write_back_does() {
    let mut disk = Disk::new();
    let mut bpm = pool(1, 2);
    let page = some_page(new_page(&mut bpm, &mut disk));
    touch(&mut bpm, &page);
    page.release(&mut bpm);
    disk.broken = true;
    assert!(matches!(fetch(&mut bpm, &mut disk, 4), Err(RustDBError::Disk(_))));
}

#[test]
fn a_failed_read_leaves_the_frame_out_of_use() {
    let mut disk = Disk::new();
    let mut bpm = pool(1, 2);
    disk.broken = true;
    assert!(matches!(fetch(&mut bpm, &mut disk, 4), Err(RustDBError::Disk(_))));
    disk.broken = false;
    assert!(fetch(&mut bpm, &mut disk, 4).unwrap().is_none());
    assert!(new_page(&mut bpm, &mut disk).unwrap().is_none());
}

#[test]
fn a_flush_writes_dirty_pages_once() {
    let mut disk = Disk::new();
    let mut bpm = pool(2, 2);
    let page = some_page(new_page(&mut bpm, &mut disk));
    flush(&mut bpm, &mut disk, 0).unwrap();
    assert!(disk.writes.is_empty());
    store(&mut bpm, &page, &[5u8; PAGE_SIZE]);
    flush(&mut bpm, &mut disk, 0).unwrap();
    flush(&mut bpm, &mut disk, 0).unwrap();
    flush(&mut bpm, &mut disk, 99).unwrap();
    assert_eq!(disk.writes, vec![0]);
    assert_eq!(disk.pages.get(&0), Some(&[5u8; PAGE_SIZE]));
}

#[test]
fn a_failed_flush_keeps_the_page_dirty() {
    let mut disk = Disk::new();
    let mut bpm = pool(2, 2);
    let page = some_page(new_page(&mut bpm, &mut disk));
    touch(&mut bpm, &page);
    disk.broken = true;
    assert!(matches!(flush(&mut bpm, &mut disk, 0), Err(RustDBError::Disk(_))));
    assert!(matches!(flush_all(&mut bpm, &mut disk), Err(RustDBError::Disk(_))));
    disk.broken = false;
    flush_all(&mut bpm, &mut disk).unwrap();
    assert_eq!(disk.writes, vec![0]);
}

#[test]
fn a_flush_of_all_pages_writes_every_dirty_one() {
    let mut disk = Disk::new();
    let mut bpm = pool(4, 2);
    let mut pages = Vec::new();
    for i in 0..4 {
        let page = some_page(new_page(&mut bpm, &mut disk));
        if i != 1 {
            store(&mut bpm, &page, &[i as u8; PAGE_SIZE]);
        }
        pages.push(page);
    }
    flush_all(&mut bpm, &mut disk).unwrap();
    assert_eq!(disk.writes, vec![0, 2, 3]);
    assert_eq!(disk.pages.get(&3), Some(&[3u8; PAGE_SIZE]));
    flush_all(&mut bpm, &mut disk).unwrap();
    assert_eq!(disk.writes, vec![0, 2, 3]);
}

#[test]
fn a_page_that_is_held_is_not_deleted() {
    let mut disk = Disk::new();
    let mut bpm = pool(1, 2);
    let page = some_page(new_page(&mut bpm, &mut disk));
    assert_eq!(delete(&mut bpm, &mut disk, 0).unwrap(), None);
    assert_eq!(delete(&mut bpm, &mut disk, 8).unwrap(), None);
    page.release(&mut bpm);
    assert_eq!(delete(&mut bpm, &mut disk, 0).unwrap(), Some(0));
    assert_eq!(delete(&mut bpm, &mut disk, 0).unwrap(), None);
}

#[test]
fn a_dirty_page_is_written_before_it_is_deleted() {
    let mut disk = Disk::new();
    let mut bpm = pool(2, 2);
    let page = some_page(new_page(&mut bpm, &mut disk));
    store(&mut bpm, &page, &[6u8; PAGE_SIZE]);
    page.release(&mut bpm);
    disk.broken = true;
    assert!(matches!(delete(&mut bpm, &mut disk, 0), Err(RustDBError::Disk(_))));
    disk.broken = false;
    assert_eq!(delete(&mut bpm, &mut disk, 0).unwrap(), Some(0));
    assert_eq!(disk.writes, vec![0]);
    // Its frame is used after those that were free before.
    assert_eq!(some_page(new_page(&mut bpm, &mut disk)).frame_id(), 1);
    let page = some_page(fetch(&mut bpm, &mut disk, 0));
    assert_eq!(page.frame_id(), 0);
    assert_eq!(bytes(&mut bpm, &page), [6u8; PAGE_SIZE]);
}

#[test]
fn owned_guards_keep_the_page_held() {
    let mut disk = Disk::new();
    let mut bpm = pool(1, 2);
    let page = some_page(new_page(&mut bpm, &mut disk));
    let mut guard = page.data_write_owned(&mut bpm).ok().unwrap();
    assert_eq!(guard.page_id(), 0);
    guard.deref_mut()[1] = 4;
    assert_eq!(guard.deref()[1], 4);
    assert!(new_page(&mut bpm, &mut disk).unwrap().is_none());
    guard.release(&mut bpm);
    let page = some_page(fetch(&mut bpm, &mut disk, 0));
    let guard = page.data_read_owned(&mut bpm).ok().unwrap();
    assert_eq!(guard.page_id(), 0);
    assert_eq!(guard.deref()[1], 4);
    assert!(new_page(&mut bpm, &mut disk).unwrap().is_none());
    guard.release(&mut bpm);
    assert!(new_page(&mut bpm, &mut disk).unwrap().is_some());
    assert_eq!(disk.writes, vec![0]);
}

#[test]
fn guards_name_their_page() {
    let mut disk = Disk::new();
    let mut bpm = pool(2, 2);
    some_page(new_page(&mut bpm, &mut disk)).release(&mut bpm);
    let page = some_page(new_page(&mut bpm, &mut disk));
    let guard = page.data_read(&mut bpm).unwrap();
    assert_eq!(guard.page_id(), 1);
    guard.release(&mut bpm);
    let guard = page.data_write(&mut bpm).unwrap();
    assert_eq!(guard.page_id(), 1);
    assert_eq!(guard.deref(), &[0u8; PAGE_SIZE]);
    guard.release(&mut bpm);
    assert_eq!(PageRef::new(5, 1).page_id(), 5);
}

#[test]
fn many_pages_survive_a_small_pool() {
    let mut disk = Disk::new();
    let mut bpm = pool(3, 2);
    for i in 0..20 {
        let page = some_page(new_page(&mut bpm, &mut disk));
        store(&mut bpm, &page, &[i as u8; PAGE_SIZE]);
        page.release(&mut bpm);
    }
    for i in (0..20).rev() {
        let page = some_page(fetch(&mut bpm, &mut disk, i));
        assert_eq!(page.page_id(), i);
        assert_eq!(bytes(&mut bpm, &page), [i as u8; PAGE_SIZE]);
        page.release(&mut bpm);
    }
}

#[test]
fn a_new_page_takes_over_an_id_that_was_fetched() {
    let mut disk = Disk::new();
    let mut bpm = pool(2, 2);
    let fetched = some_page(fetch(&mut bpm, &mut disk, 0));
    assert_eq!(fetched.frame_id(), 0);
    let created = some_page(new_page(&mut bpm, &mut disk));
    assert_eq!(created.page_id(), 0);
    assert_eq!(created.frame_id(), 1);
    assert_eq!(some_page(fetch(&mut bpm, &mut disk, 0)).frame_id(), 1);
}

#[test]
fn as_many_pages_can_be_made_as_were_released() {
    let mut disk = Disk::new();
    let mut bpm = pool(6, 3);
    let mut pages = Vec::new();
    for _ in 0..6 {
        pages.push(some_page(new_page(&mut bpm, &mut disk)));
    }
    for released in 1..6 {
        for _ in 0..released {
            pages.remove(0).release(&mut bpm);
        }
        for _ in 0..released {
            pages.push(some_page(new_page(&mut bpm, &mut disk)));
        }
        assert!(new_page(&mut bpm, &mut disk).unwrap().is_none());
    }
}

#[test]
fn a_second_flush_writes_nothing_whatever_happened_since() {
    let mut disk = Disk::new();
    let mut bpm = pool(2, 2);
    let page = some_page(new_page(&mut bpm, &mut disk));
    store(&mut bpm, &page, &[5u8; PAGE_SIZE]);
    flush(&mut bpm, &mut disk, 0).unwrap();
    assert_eq!(disk.writes, vec![0]);
    page.release(&mut bpm);
    // Other pages come and go, and page 0 is given up and fetched again.
    for _ in 0..3 {
        some_page(new_page(&mut bpm, &mut disk)).release(&mut bpm);
    }
    let page = some_page(fetch(&mut bpm, &mut disk, 0));
    assert_eq!(disk.reads, vec![0]);
    flush(&mut bpm, &mut disk, 0).unwrap();
    assert_eq!(disk.writes, vec![0]);
    touch(&mut bpm, &page);
    flush(&mut bpm, &mut disk, 0).unwrap();
    assert_eq!(disk.writes, vec![0, 0]);
}

#[test]
fn a_flush_of_all_is_a_flush_of_each_in_any_order() {
    let build = |disk: &mut Disk| {
        let mut bpm = pool(4, 2);
        for i in 0..4 {
            let page = some_page(new_page(&mut bpm, disk));
            if i != 2 {
                store(&mut bpm, &page, &[i as u8 + 1; PAGE_SIZE]);
            }
            page.release(&mut bpm);
        }
        bpm
    };
    let mut all = Disk::new();
    let mut bpm = build(&mut all);
    flush_all(&mut bpm, &mut all).unwrap();
    for order in [[0, 1, 2, 3], [3, 1, 0, 2], [2, 3, 1, 0]] {
        let mut each = Disk::new();
        let mut bpm = build(&mut each);
        for page_id in order {
            flush(&mut bpm, &mut each, page_id).unwrap();
        }
        assert_eq!(each.pages, all.pages);
        flush_all(&mut bpm, &mut each).unwrap();
        assert_eq!(each.writes.len(), 3);
    }
}

#[test]
fn a_page_is_held_until_its_last_reference_is_given_back() {
    let mut disk = Disk::new();
    let mut bpm = pool(1, 2);
    let mut pages = vec![some_page(new_page(&mut bpm, &mut disk))];
    for _ in 0..4 {
        pages.push(some_page(fetch(&mut bpm, &mut disk, 0)));
    }
    while let Some(page) = pages.pop() {
        assert!(new_page(&mut bpm, &mut disk).unwrap().is_none());
        assert_eq!(delete(&mut bpm, &mut disk, 0).unwrap(), None);
        page.release(&mut bpm);
    }
    assert_eq!(delete(&mut bpm, &mut disk, 0).unwrap(), Some(0));
    assert!(new_page(&mut bpm, &mut disk).unwrap().is_some());
}

#[test]
fn a_second_writer_waits_and_finds_what_the_first_wrote() {
    let mut disk = Disk::new();
    let mut bpm = pool(1, 2);
    let first = some_page(new_page(&mut bpm, &mut disk));
    let second = some_page(fetch(&mut bpm, &mut disk, 0));
    let mut guard = first.data_write(&mut bpm).unwrap();
    assert!(second.data_write(&mut bpm).is_none());
    assert!(second.data_read(&mut bpm).is_none());
    guard.deref_mut()[0] = 1;
    guard.release(&mut bpm);
    let mut guard = second.data_write(&mut bpm).unwrap();
    assert_eq!(guard.deref()[0], 1);
    guard.deref_mut()[1] = 2;
    guard.release(&mut bpm);
    assert_eq!(bytes(&mut bpm, &first)[..3], [1, 2, 0]);
}

#[test]
fn an_owned_writer_waits_with_its_reference() {
    let mut disk = Disk::new();
    let mut bpm = pool(1, 2);
    let first = some_page(new_page(&mut bpm, &mut disk));
    let second = some_page(fetch(&mut bpm, &mut disk, 0));
    let mut guard = first.data_write_owned(&mut bpm).ok().unwrap();
    guard.deref_mut()[0] = 1;
    let second = second.data_write_owned(&mut bpm).err().unwrap();
    let second = second.data_read_owned(&mut bpm).err().unwrap();
    assert_eq!(second.page_id(), 0);
    let first = guard.unlatch(&mut bpm);
    let guard = second.data_read_owned(&mut bpm).ok().unwrap();
    assert_eq!(guard.deref()[0], 1);
    // Both references are still held.
    assert!(new_page(&mut bpm, &mut disk).unwrap().is_none());
    first.release(&mut bpm);
    assert!(new_page(&mut bpm, &mut disk).unwrap().is_none());
    let second = guard.unlatch(&mut bpm);
    assert!(new_page(&mut bpm, &mut disk).unwrap().is_none());
    second.release(&mut bpm);
    assert!(new_page(&mut bpm, &mut disk).unwrap().is_some());
}

#[test]
fn readers_share_the_bytes_and_keep_writers_out() {
    let mut disk = Disk::new();
    let mut bpm = pool(1, 2);
    let page = some_page(new_page(&mut bpm, &mut disk));
    let first = page.data_read(&mut bpm).unwrap();
    let second = page.data_read(&mut bpm).unwrap();
    assert!(page.data_write(&mut bpm).is_none());
    first.release(&mut bpm);
    assert!(page.data_write(&mut bpm).is_none());
    second.release(&mut bpm);
    assert!(page.data_write(&mut bpm).is_some());
}

#[test]
fn guards_of_other_pages_are_not_in_the_way() {
    let mut disk = Disk::new();
    let mut bpm = pool(2, 2);
    let first = some_page(new_page(&mut bpm, &mut disk));
    let second = some_page(new_page(&mut bpm, &mut disk));
    let guard = first.data_write(&mut bpm).unwrap();
    store(&mut bpm, &second, &[3u8; PAGE_SIZE]);
    flush(&mut bpm, &mut disk, 1).unwrap();
    guard.release(&mut bpm);
    flush_all(&mut bpm, &mut disk).unwrap();
    assert_eq!(disk.writes, vec![1, 0]);
}

#[test]
fn a_flush_waits_for_guards() {
    let mut disk = Disk::new();
    let mut bpm = pool(1, 2);
    let page = some_page(new_page(&mut bpm, &mut disk));
    let mut guard = page.data_write(&mut bpm).unwrap();
    assert!(matches!(bpm.flush_page(0), FlushStep::Latch(0)));
    assert!(matches!(bpm.flush_page_latched(0), FlushStep::Latch(0)));
    assert!(matches!(bpm.flush_page_all_latched(0), FlushStep::Latch(0)));
    guard.deref_mut()[0] = 8;
    guard.release(&mut bpm);
    let guard = page.data_read(&mut bpm).unwrap();
    assert!(matches!(bpm.flush_page_latched(0), FlushStep::Latch(0)));
    guard.release(&mut bpm);
    let write = match bpm.flush_page_latched(0) {
        FlushStep::Write(write) => write,
        _ => panic!("a write was expected"),
    };
    assert_eq!(write.data()[0], 8);
    assert!(bpm.flush_page_written(write, Ok(())).is_ok());
    assert!(matches!(bpm.flush_page_latched(0), FlushStep::Done(Ok(()))));
}

#[test]
fn guards_wait_for_a_flush() {
    let mut disk = Disk::new();
    let mut bpm = pool(1, 2);
    let page = some_page(new_page(&mut bpm, &mut disk));
    touch(&mut bpm, &page);
    for reply in [Err(Disk::failure()), Ok(())] {
        let write = match bpm.flush_page_all_latched(0) {
            FlushStep::Write(write) => write,
            _ => panic!("a write was expected"),
        };
        assert!(page.data_write(&mut bpm).is_none());
        assert!(page.data_read(&mut bpm).is_none());
        let failed = reply.is_err();
        let step = bpm.flush_page_all_written(write, reply);
        assert_eq!(matches!(step, FlushStep::Done(Err(_))), failed);
        let guard = page.data_read(&mut bpm).unwrap();
        guard.release(&mut bpm);
    }
    assert!(page.data_write(&mut bpm).is_some());
}

#[test]
fn a_latch_counts_its_readers() {
    let mut latch = Latch::Free;
    assert!(latch.is_free());
    assert!(latch.enter());
    assert_eq!(latch, Latch::Read(1));
    assert!(latch.enter());
    assert_eq!(latch, Latch::Read(2));
    latch.leave();
    latch.leave();
    assert_eq!(latch, Latch::Free);
    let mut latch = Latch::Read(MAX_READERS - 1);
    assert!(latch.enter());
    assert!(!latch.enter());
    assert_eq!(latch, Latch::Read(MAX_READERS));
    let mut latch = Latch::Write;
    assert!(!latch.enter());
    latch.leave();
    assert_eq!(latch, Latch::Write);
}
