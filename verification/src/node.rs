//! Tree nodes, and how they are laid out in the bytes of a page.
use vstd::prelude::*;

use crate::error::{RustDBError, RustDBResult};
use crate::page::{PageData, PageId, PAGE_SIZE};

verus! {

/// A node of a tree. The pool cares for the page that it is kept in, and leaves
/// the rest to `K`.
pub struct Node<K> {
    /// The page that the node is kept in.
    pub page_id: PageId,
    /// What the node holds.
    pub body: K,
}

impl<K> Node<K> {
    /// Puts the node into another page.
    pub fn set_page_id(&mut self, page_id: PageId)
        ensures
            *final(self) == (Node { page_id, body: old(self).body }),
    {
        self.page_id = page_id;
    }
}

/// What can be read from the bytes of a page.
pub trait Decoder: Sized {
    /// Reads a node from the bytes of a page.
    fn decode(data: &PageData) -> RustDBResult<Node<Self>>;
}

/// What can be written as bytes.
pub trait Encoder: Sized {
    /// The bytes of a node.
    fn encode(node: &Node<Self>) -> RustDBResult<Vec<u8>>;
}

/// Whether reading a node from `data` can come to `result`.
pub open spec fn decodes_to<K: Decoder>(data: Seq<u8>, result: RustDBResult<Node<K>>) -> bool {
    exists|page: &PageData| page@ == data && #[trigger] call_ensures(K::decode, (page,), result)
}

/// Whether the bytes of `node` can come to `result`.
pub open spec fn encodes_to<K: Encoder>(node: &Node<K>, result: RustDBResult<Vec<u8>>) -> bool {
    call_ensures(K::encode, (node,), result)
}

/// Whether writing `node` over the bytes `before` can come to the bytes `after`
/// and the given result.
pub open spec fn writes_node<K: Encoder>(
    before: Seq<u8>,
    node: &Node<K>,
    after: Seq<u8>,
    result: RustDBResult<()>,
) -> bool {
    exists|encoded: RustDBResult<Vec<u8>>| #[trigger]
        encodes_to(node, encoded) && match encoded {
            Ok(code) if code@.len() <= before.len() => {
                &&& result is Ok
                &&& after == code@ + before.skip(code@.len() as int)
            },
            Ok(_) => {
                &&& result matches Err(e)
                &&& e.is_codec("Node does not fit in a page"@)
                &&& after == before
            },
            Err(e) => {
                &&& result == Err::<(), RustDBError>(e)
                &&& after == before
            },
        }
}

/// The bytes that can hold a node.
pub trait NodeTrait {
    /// The bytes.
    spec fn bytes(&self) -> Seq<u8>;

    /// The node in the bytes, as its decoder reads it.
    fn node<K>(&self) -> (result: RustDBResult<Node<K>>) where K: Decoder
        ensures
            decodes_to(self.bytes(), result),
    ;

    /// Writes the node over the first bytes, as its encoder lays it out. The
    /// bytes behind it stay. It fails, and changes nothing, where the encoder
    /// fails or the node is too long.
    fn write_back<K>(&mut self, node: &Node<K>) -> (result: RustDBResult<()>) where K: Encoder
        ensures
            writes_node(old(self).bytes(), node, final(self).bytes(), result),
    ;
}

impl NodeTrait for [u8; PAGE_SIZE] {
    open spec fn bytes(&self) -> Seq<u8> {
        self@
    }

    fn node<K>(&self) -> (result: RustDBResult<Node<K>>) where K: Decoder {
        K::decode(self)
    }

    fn write_back<K>(&mut self, node: &Node<K>) -> (result: RustDBResult<()>) where K: Encoder {
        let encoded = K::encode(node);
        let ghost outcome = encoded;
        assert(encodes_to(node, outcome));
        match encoded {
            Ok(code) => {
                if code.len() > PAGE_SIZE {
                    return Err(RustDBError::Codec("Node does not fit in a page".to_string()));
                }
                let mut i: usize = 0;
                while i < code.len()
                    invariant
                        i <= code.len() <= PAGE_SIZE,
                        self@ =~= code@.take(i as int) + old(self)@.skip(i as int),
                    decreases code.len() - i,
                {
                    self[i] = code[i];
                    i += 1;
                }
                assert(code@.take(i as int) =~= code@);
                Ok(())
            },
            Err(e) => Err(e),
        }
    }
}

/// A node that was written to a page is read back from it, whatever lies behind
/// it, as long as its decoder goes by the bytes of the node alone.
pub proof fn law_node_is_read_back<K: Decoder>(
    before: Seq<u8>,
    code: Seq<u8>,
    node: Node<K>,
    result: RustDBResult<Node<K>>,
)
    requires
        code.len() <= before.len(),
        forall|page: &PageData, decoded: RustDBResult<Node<K>>|
            code.is_prefix_of(page@) && #[trigger] call_ensures(K::decode, (page,), decoded)
                ==> decoded == Ok::<Node<K>, RustDBError>(node),
        decodes_to(code + before.skip(code.len() as int), result),
    ensures
        result == Ok::<Node<K>, RustDBError>(node),
{
    let after = code + before.skip(code.len() as int);
    let page = choose|page: &PageData|
        page@ == after && #[trigger] call_ensures(K::decode, (page,), result);
    assert(after.take(code.len() as int) =~= code);
    assert(code.is_prefix_of(page@));
}

/// What the encoder gives for the node is what is written, byte for byte, and
/// the bytes behind it stay. A node that the encoder refuses is refused with the
/// error of the encoder. Nothing is written of a node that is refused or that
/// does not fit, and one that fits is never refused.
pub proof fn law_write_back_outcome<K: Encoder>(
    data: &mut [u8; PAGE_SIZE],
    node: &Node<K>,
    result: RustDBResult<()>,
)
    requires
        call_ensures(<[u8; PAGE_SIZE] as NodeTrait>::write_back::<K>, (data, node), result),
    ensures
        result is Err ==> final(data)@ == old(data)@,
        exists|encoded: RustDBResult<Vec<u8>>| #[trigger]
            encodes_to(node, encoded) && match encoded {
                Ok(code) => {
                    &&& result is Ok <==> code@.len() <= PAGE_SIZE
                    &&& result is Ok ==> forall|i: int|
                        0 <= i < PAGE_SIZE ==> #[trigger] final(data)@[i] == if i < code@.len() {
                            code@[i]
                        } else {
                            old(data)@[i]
                        }
                },
                Err(e) => result == Err::<(), RustDBError>(e),
            },
{
    let encoded = choose|encoded: RustDBResult<Vec<u8>>| #[trigger]
        encodes_to(node, encoded) && match encoded {
            Ok(code) if code@.len() <= old(data)@.len() => {
                &&& result is Ok
                &&& final(data)@ == code@ + old(data)@.skip(code@.len() as int)
            },
            Ok(_) => {
                &&& result matches Err(e)
                &&& e.is_codec("Node does not fit in a page"@)
                &&& final(data)@ == old(data)@
            },
            Err(e) => {
                &&& result == Err::<(), RustDBError>(e)
                &&& final(data)@ == old(data)@
            },
        };
    assert(encodes_to(node, encoded));
}

/// The node that is read is what the decoder reads from those bytes.
pub proof fn law_node_outcome<K: Decoder>(
    data: &[u8; PAGE_SIZE],
    result: RustDBResult<Node<K>>,
)
    requires
        call_ensures(<[u8; PAGE_SIZE] as NodeTrait>::node::<K>, (data,), result),
    ensures
        exists|page: &PageData|
            page@ == data@ && #[trigger] call_ensures(K::decode, (page,), result),
{
}

} // verus!
