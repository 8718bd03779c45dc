//! The durable block store adapter: cursor bookkeeping for the gap-free,
//! strictly ascending stream of durably applied blocks.
//!
//! The relational store itself lives outside this crate. The process around
//! the library performs the actual durable write and drives this adapter,
//! which owns the exclusive write path: it guards the ordering invariant and
//! advances the cursor exactly in step with each acknowledged write.

use vstd::prelude::*;

verus! {

use crate::block::{Block, Cursor};

/// Errors of the durable store boundary.
#[derive(Clone, Copy, Debug, PartialEq, Eq, Structural)]
pub enum StorageError {
    /// The store connection could not be acquired. Transient: surfaced to the
    /// caller, never retried inside the bridge.
    Connection,
    /// A block was handed in whose number is not the immediate successor of
    /// the cursor. A programmer-invariant violation: fatal, never skipped.
    OutOfOrder,
    /// The durable write itself failed.
    Write,
}

/// Bookkeeping for the durable store's exclusive write path.
///
/// `log` records, in order, every block number acknowledged as durably
/// applied through this adapter since startup; the well-formedness invariant
/// pins it to the contiguous run that ends exactly at the cursor.
pub struct StoreAdapter {
    cursor: u64,
    log: Ghost<Seq<u64>>,
}

impl StoreAdapter {
    /// The number of the last durably applied block.
    pub closed spec fn cursor_spec(self) -> u64 {
        self.cursor
    }

    /// Every block number applied through this adapter, in application order.
    pub closed spec fn log(self) -> Seq<u64> {
        self.log@
    }

    /// The applied stream is gap-free and strictly ascending: the `i`-th
    /// entry from the end of the log sits exactly `i` below the cursor.
    pub open spec fn wf(self) -> bool {
        forall|i: int| 0 <= i < self.log().len()
            ==> #[trigger] self.log()[i] == self.cursor_spec() - (self.log().len() - 1 - i)
    }

    /// Adopts the cursor read once from the durable store at startup.
    pub fn load(cursor: Cursor) -> (s: StoreAdapter)
        ensures
            s.wf(),
            s.cursor_spec() == cursor.last_applied_block_number,
            s.log() == Seq::<u64>::empty(),
    {
        StoreAdapter { cursor: cursor.last_applied_block_number, log: Ghost(Seq::empty()) }
    }

    /// The number of the last durably applied block, for "what do we have"
    /// queries.
    pub fn last_applied(&self) -> (n: u64)
        ensures
            n == self.cursor_spec(),
    {
        self.cursor
    }

    /// Records the durable application of `b`.
    ///
    /// Accepts exactly the immediate successor of the cursor and advances the
    /// cursor in step with it; any other number fails loudly with
    /// [`StorageError::OutOfOrder`] and changes nothing.
    pub fn apply(&mut self, b: &Block) -> (r: Result<(), StorageError>)
        ensures
            b@.number == old(self).cursor_spec() + 1 ==> {
                &&& r == Ok::<(), StorageError>(())
                &&& final(self).cursor_spec() == old(self).cursor_spec() + 1
                &&& final(self).log() == old(self).log().push(b@.number)
            },
            b@.number != old(self).cursor_spec() + 1 ==> {
                &&& r == Err::<(), StorageError>(StorageError::OutOfOrder)
                &&& *final(self) == *old(self)
            },
            old(self).wf() ==> final(self).wf(),
    {
        if self.cursor < u64::MAX && b.number == self.cursor + 1 {
            self.cursor = self.cursor + 1;
            self.log = Ghost(self.log@.push(b.number));
            proof {
                if old(self).wf() {
                    assert forall|i: int| 0 <= i < self.log().len()
                        implies #[trigger] self.log()[i] == self.cursor_spec() - (self.log().len()
                        - 1 - i) by {
                        if i < self.log().len() - 1 {
                            assert(self.log()[i] == old(self).log()[i]);
                        }
                    }
                }
            }
            Ok(())
        } else {
            Err(StorageError::OutOfOrder)
        }
    }
}

/// Law: the durable store is never asked to apply out of order — whatever
/// the adapter acknowledged is the strictly ascending, gap-free run of
/// numbers that ends exactly at the cursor, each entry the immediate
/// successor of the one before it.
pub proof fn lemma_applied_stream_gap_free(s: StoreAdapter)
    requires
        s.wf(),
    ensures
        forall|i: int| 0 <= i < s.log().len() ==> #[trigger] s.log()[i] == s.cursor_spec() - (
        s.log().len() - 1 - i),
        forall|i: int, j: int| 0 <= i < j < s.log().len() ==> s.log()[i] < s.log()[j],
{
}

} // verus!
