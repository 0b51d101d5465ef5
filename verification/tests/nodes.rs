//! Nodes in pages, and the operations that must come to a page.
use rustdb::error::{RustDBError, RustDBResult};
use rustdb::guard::PageRef;
use rustdb::node::{Decoder, Encoder, Node, NodeTrait};
use rustdb::page::{PageData, PAGE_SIZE};
use rustdb::pool::BufferPoolManager;
use rustdb::step::{FetchStep, NodeStep, WriteStep};

/// Bytes that are laid out behind the page id and their number.
#[derive(Debug, PartialEq)]
struct Blob(Vec<u8>);

impl Encoder for Blob {
    fn encode(node: &Node<Blob>) -> RustDBResult<Vec<u8>> {
        if node.body.0.len() > PAGE_SIZE {
            return Err(RustDBError::Codec("huge".to_string()));
        }
        let mut code = vec![node.page_id as u8, node.body.0.len() as u8];
        code.extend_from_slice(&node.body.0);
        Ok(code)
    }
}

impl Decoder for Blob {
    fn decode(data: &PageData) -> RustDBResult<Node<Blob>> {
        let len = data[1] as usize;
        if len == 0 {
            return Err(RustDBError::Codec("empty".to_string()));
        }
        Ok(Node {
            page_id: data[0] as usize,
            body: Blob(data[2..2 + len].to_vec()),
        })
    }
}

fn blob(bytes: &[u8]) -> Node<Blob> {
    Node {
        page_id: 9,
        body: Blob(bytes.to_vec()),
    }
}

fn pool(pool_size: usize) -> BufferPoolManager {
    match BufferPoolManager::new(pool_size, 2) {
        Ok(pool) => pool,
        Err(_) => unreachable!(),
    }
}

fn new_page(pool: &mut BufferPoolManager, node: &mut Node<Blob>) -> PageRef {
    match pool.new_page_node(node) {
        WriteStep::Done(Ok(page)) => page,
        _ => panic!("a page was expected"),
    }
}

fn decode(pool: &mut BufferPoolManager, page: PageRef) -> RustDBResult<(PageRef, Node<Blob>)> {
    match pool.decode_page_node(page) {
        NodeStep::Done(result) => result,
        NodeStep::Latch(_) => panic!("a result was expected"),
    }
}

#[test]
fn a_node_is_read_back() {
    let mut data = [7u8; PAGE_SIZE];
    data.write_back(&blob(&[1, 2, 3])).unwrap();
    assert_eq!(data[..6], [9, 3, 1, 2, 3, 7]);
    let node: Node<Blob> = data.node().unwrap();
    assert_eq!(node.page_id, 9);
    assert_eq!(node.body, Blob(vec![1, 2, 3]));
}

#[test]
fn a_node_that_does_not_fit_changes_nothing() {
    let mut data = [7u8; PAGE_SIZE];
    let too_long = blob(&[1; PAGE_SIZE]);
    assert_eq!(
        data.write_back(&too_long),
        Err(RustDBError::Codec("Node does not fit in a page".to_string()))
    );
    let huge = blob(&[1; PAGE_SIZE + 1]);
    assert_eq!(
        data.write_back(&huge),
        Err(RustDBError::Codec("huge".to_string()))
    );
    assert_eq!(data, [7u8; PAGE_SIZE]);
}

#[test]
fn bytes_without_a_node_are_refused() {
    let data = [0u8; PAGE_SIZE];
    let node: RustDBResult<Node<Blob>> = data.node();
    assert!(matches!(node, Err(RustDBError::Codec(_))));
}

#[test]
fn a_new_page_names_its_node() {
    let mut bpm = pool(2);
    let mut node = blob(&[4]);
    let page = new_page(&mut bpm, &mut node);
    assert_eq!(page.page_id(), 0);
    assert_eq!(node.page_id, 0);
    let mut second = blob(&[5]);
    match bpm.new_page_write_owned(&mut second) {
        WriteStep::Done(Ok(page)) => {
            assert_eq!(second.page_id, 1);
            let mut guard = page.data_write_owned(&mut bpm).ok().unwrap();
            assert_eq!(guard.page_id(), 1);
            assert_eq!(guard.deref(), &[0u8; PAGE_SIZE]);
            guard.deref_mut().write_back(&second).unwrap();
            guard.release(&mut bpm);
        }
        _ => panic!("a guard was expected"),
    }
    let page = match bpm.fetch_page_node(1) {
        FetchStep::Done(Ok(page)) => page,
        _ => panic!("a page was expected"),
    };
    let (page, read) = decode(&mut bpm, page).unwrap();
    assert_eq!(page.page_id(), 1);
    assert_eq!(read.body, Blob(vec![5]));
}

#[test]
fn a_page_without_a_node_is_given_back() {
    let mut bpm = pool(1);
    let page = new_page(&mut bpm, &mut blob(&[4]));
    let read = decode(&mut bpm, page);
    assert!(matches!(read, Err(RustDBError::Codec(_))));
    // Nobody holds the page any more, so that its frame can be given up.
    assert!(matches!(bpm.new_page_ref(), WriteStep::Done(Ok(Some(_)))));
}

#[test]
fn a_full_pool_is_an_error() {
    let mut bpm = pool(1);
    let _page = new_page(&mut bpm, &mut blob(&[4]));
    let mut node = blob(&[5]);
    match bpm.new_page_node(&mut node) {
        WriteStep::Done(Err(e)) => {
            assert_eq!(e, RustDBError::BufferPool("Can't new page".to_string()))
        }
        _ => panic!("an error was expected"),
    }
    assert!(matches!(
        bpm.new_page_write_owned(&mut node),
        WriteStep::Done(Err(RustDBError::BufferPool(_)))
    ));
    assert_eq!(node.page_id, 9);
    match bpm.fetch_page_read_owned(3) {
        FetchStep::Done(Err(e)) => {
            assert_eq!(e, RustDBError::BufferPool("Can't fetch page".to_string()))
        }
        _ => panic!("an error was expected"),
    }
    assert!(matches!(
        bpm.fetch_page_write_owned(3),
        FetchStep::Done(Err(RustDBError::BufferPool(_)))
    ));
    assert!(matches!(
        bpm.fetch_page_node(3),
        FetchStep::Done(Err(RustDBError::BufferPool(_)))
    ));
}

#[test]
fn a_node_gets_its_page_after_the_write_back() {
    let mut bpm = pool(1);
    let page = new_page(&mut bpm, &mut blob(&[4]));
    page.data_write(&mut bpm).unwrap().release(&mut bpm);
    page.release(&mut bpm);
    let mut node = blob(&[5]);
    let write = match bpm.new_page_node(&mut node) {
        WriteStep::Write(write) => write,
        _ => panic!("a write was expected"),
    };
    assert_eq!(write.page_id(), 0);
    assert_eq!(write.frame_id(), 0);
    assert_eq!(node.page_id, 9);
    let page = bpm.new_page_node_written(&mut node, write, Ok(())).unwrap();
    assert_eq!(page.page_id(), 1);
    assert_eq!(node.page_id, 1);
    page.data_write(&mut bpm).unwrap().release(&mut bpm);
    page.release(&mut bpm);
    let write = match bpm.new_page_write_owned(&mut node) {
        WriteStep::Write(write) => write,
        _ => panic!("a write was expected"),
    };
    let page = bpm.new_page_node_written(&mut node, write, Ok(())).unwrap();
    let guard = page.data_write_owned(&mut bpm).ok().unwrap();
    assert_eq!(guard.page_id(), 2);
    assert_eq!(node.page_id, 2);
    assert_eq!(guard.deref(), &[0u8; PAGE_SIZE]);
}

#[test]
fn a_node_keeps_its_page_when_the_write_back_fails() {
    let mut bpm = pool(1);
    let page = new_page(&mut bpm, &mut blob(&[4]));
    page.data_write(&mut bpm).unwrap().release(&mut bpm);
    page.release(&mut bpm);
    let mut node = blob(&[5]);
    let write = match bpm.new_page_node(&mut node) {
        WriteStep::Write(write) => write,
        _ => panic!("a write was expected"),
    };
    let failure = RustDBError::Disk("broken".to_string());
    assert!(matches!(
        bpm.new_page_node_written(&mut node, write, Err(failure)),
        Err(RustDBError::Disk(_))
    ));
    assert_eq!(node.page_id, 9);
}

#[test]
fn a_read_page_is_found_under_its_id() {
    let mut bpm = pool(1);
    let read = match bpm.fetch_page_read_owned(5) {
        FetchStep::Read(read) => read,
        _ => panic!("a read was expected"),
    };
    assert_eq!(read.page_id(), 5);
    assert_eq!(read.frame_id(), 0);
    let page = bpm.fetch_page_read(read, Ok([8u8; PAGE_SIZE])).unwrap();
    let guard = page.data_read_owned(&mut bpm).ok().unwrap();
    assert_eq!(guard.page_id(), 5);
    assert_eq!(guard.deref(), &[8u8; PAGE_SIZE]);
    guard.release(&mut bpm);
    match bpm.fetch_page_write_owned(5) {
        FetchStep::Done(Ok(page)) => {
            let guard = page.data_write_owned(&mut bpm).ok().unwrap();
            assert_eq!(guard.deref(), &[8u8; PAGE_SIZE]);
            guard.release(&mut bpm);
        }
        _ => panic!("a page was expected"),
    }
}

#[test]
fn the_reader_of_a_node_waits_for_a_writer() {
    let mut bpm = pool(1);
    let mut node = blob(&[6]);
    let page = new_page(&mut bpm, &mut node);
    let mut guard = page.data_write(&mut bpm).unwrap();
    let second = match bpm.fetch_page_node(0) {
        FetchStep::Done(Ok(page)) => page,
        _ => panic!("a page was expected"),
    };
    let step: NodeStep<Blob> = bpm.decode_page_node(second);
    let second = match step {
        NodeStep::Latch(page) => page,
        NodeStep::Done(_) => panic!("a wait was expected"),
    };
    guard.deref_mut().write_back(&node).unwrap();
    guard.release(&mut bpm);
    // Readers are not in the way.
    let guard = page.data_read(&mut bpm).unwrap();
    let (second, read) = decode(&mut bpm, second).unwrap();
    assert_eq!(second.page_id(), 0);
    assert_eq!(read.body, Blob(vec![6]));
    guard.release(&mut bpm);
    assert!(page.data_write(&mut bpm).is_some());
}
