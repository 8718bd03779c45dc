//! Blocks and the durable fetch-progress cursor.

use vstd::prelude::*;

verus! {

/// A sequentially numbered block received from the network.
///
/// The payload is opaque to the bridge: blocks are ordered, buffered and
/// applied purely by their number, and no two blocks share a number.
pub struct Block {
    pub number: u64,
    pub payload: Vec<u8>,
}

/// The mathematical value of a [`Block`].
pub struct BlockView {
    pub number: u64,
    pub payload: Seq<u8>,
}

impl View for Block {
    type V = BlockView;

    open spec fn view(&self) -> BlockView {
        BlockView { number: self.number, payload: self.payload@ }
    }
}

impl Block {
    /// Builds a block from its number and payload.
    pub fn new(number: u64, payload: Vec<u8>) -> (b: Block)
        ensures
            b@.number == number,
            b@.payload == payload@,
    {
        Block { number, payload }
    }
}

/// The durable marker of fetch progress: the number of the last block the
/// local node has durably applied. It is read once from the durable store at
/// startup and is the sole resume point after a crash or redeploy.
pub struct Cursor {
    pub last_applied_block_number: u64,
}

impl Cursor {
    /// Wraps the block number read from the durable store.
    pub fn new(last_applied_block_number: u64) -> (c: Cursor)
        ensures
            c.last_applied_block_number == last_applied_block_number,
    {
        Cursor { last_applied_block_number }
    }
}

} // verus!
