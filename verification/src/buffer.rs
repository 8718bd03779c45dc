//! The buffering layer: decouples network arrival order from durable
//! application order.
//!
//! Blocks arrive in arbitrary order. The buffer holds the out-of-order ones,
//! answers "what is our current head" queries with the latest durably applied
//! number, and releases a strictly ascending, gap-free run to the durable
//! store adapter the moment the run becomes contiguous with the head.

use vstd::prelude::*;

verus! {

use crate::block::{Block, BlockView};
use crate::store::StoreAdapter;

/// True when some block in `s` carries number `n`.
pub open spec fn contains_number(s: Seq<BlockView>, n: u64) -> bool {
    exists|i: int| 0 <= i < s.len() && s[i].number == n
}

/// The block of `s` that carries number `n` (meaningful when numbers in `s`
/// are distinct and `n` occurs).
pub open spec fn entry_at(s: Seq<BlockView>, n: u64) -> BlockView {
    s[choose|i: int| 0 <= i < s.len() && s[i].number == n]
}

/// True when no two blocks of `s` share a number.
pub open spec fn distinct_numbers(s: Seq<BlockView>) -> bool {
    forall|i: int, j: int| 0 <= i < j < s.len() ==> s[i].number != s[j].number
}

/// What one arrival does to the pending map: a block at or below the head or
/// one whose number is already buffered is ignored; anything else is added.
pub open spec fn push_spec(head: u64, m: Map<u64, BlockView>, b: BlockView) -> Map<u64, BlockView> {
    if b.number <= head || m.dom().contains(b.number) {
        m
    } else {
        m.insert(b.number, b)
    }
}

/// The block numbers a flush from `lo` up to `hi` applies, in application
/// order: `lo + 1, lo + 2, ..., hi`.
pub open spec fn run_seq(lo: u64, hi: u64) -> Seq<u64>
    recommends
        lo <= hi,
{
    Seq::new((hi - lo) as nat, |i: int| (lo + 1 + i) as u64)
}

/// `m` with every entry at or below `head` discarded.
pub open spec fn beyond_head(m: Map<u64, BlockView>, head: u64) -> Map<u64, BlockView> {
    Map::new(|n: u64| m.dom().contains(n) && n > head, |n: u64| m[n])
}

proof fn lemma_contains_push(s: Seq<BlockView>, b: BlockView, n: u64)
    ensures
        contains_number(s.push(b), n) <==> (contains_number(s, n) || n == b.number),
{
    if contains_number(s.push(b), n) {
        let i = choose|i: int| 0 <= i < s.push(b).len() && s.push(b)[i].number == n;
        if i < s.len() {
            assert(s[i].number == n);
        }
    }
    if contains_number(s, n) {
        let i = choose|i: int| 0 <= i < s.len() && s[i].number == n;
        assert(s.push(b)[i].number == n);
    }
    if n == b.number {
        assert(s.push(b)[s.len() as int].number == n);
    }
}

proof fn lemma_entry_at(s: Seq<BlockView>, i: int, n: u64)
    requires
        distinct_numbers(s),
        0 <= i < s.len(),
        s[i].number == n,
    ensures
        contains_number(s, n),
        entry_at(s, n) == s[i],
{
    assert(contains_number(s, n));
    let j = choose|j: int| 0 <= j < s.len() && s[j].number == n;
    if i < j {
        assert(s[i].number != s[j].number);
    } else if j < i {
        assert(s[j].number != s[i].number);
    }
}

proof fn lemma_remove_index(s: Seq<BlockView>, i: int, j: int)
    requires
        0 <= i < s.len(),
        0 <= j < s.len() - 1,
    ensures
        s.remove(i)[j] == (if j < i {
            s[j]
        } else {
            s[j + 1]
        }),
{
}

proof fn lemma_contains_remove(s: Seq<BlockView>, i: int, n: u64)
    requires
        distinct_numbers(s),
        0 <= i < s.len(),
    ensures
        contains_number(s.remove(i), n) <==> (contains_number(s, n) && n != s[i].number),
{
    let r = s.remove(i);
    if contains_number(r, n) {
        let j = choose|j: int| 0 <= j < r.len() && r[j].number == n;
        lemma_remove_index(s, i, j);
        if j < i {
            assert(s[j].number == n);
            assert(s[j].number != s[i].number);
        } else {
            assert(s[j + 1].number == n);
            assert(s[i].number != s[j + 1].number);
        }
    }
    if contains_number(s, n) && n != s[i].number {
        let j = choose|j: int| 0 <= j < s.len() && s[j].number == n;
        if j < i {
            lemma_remove_index(s, i, j);
            assert(r[j].number == n);
        } else {
            lemma_remove_index(s, i, j - 1);
            assert(r[j - 1].number == n);
        }
    }
}

/// Reorders out-of-order network deliveries into a gap-free applied stream.
///
/// The head mirrors the durable store adapter's cursor and reflects only
/// durably applied state; every buffered block sits strictly beyond it.
pub struct Buffered {
    head: u64,
    pending: Vec<Block>,
}

impl Buffered {
    /// The latest durably applied block number this buffer has seen.
    pub closed spec fn head_spec(self) -> u64 {
        self.head
    }

    /// The buffered blocks, in arrival order.
    pub closed spec fn entries(self) -> Seq<BlockView> {
        self.pending@.map_values(|b: Block| b@)
    }

    /// The buffered blocks, keyed by number.
    pub closed spec fn pending_map(self) -> Map<u64, BlockView> {
        Map::new(
            |n: u64| contains_number(self.entries(), n),
            |n: u64| entry_at(self.entries(), n),
        )
    }

    /// Every buffered block sits strictly beyond the head, no two share a
    /// number, and each carries the number it is keyed by.
    pub closed spec fn wf(self) -> bool {
        &&& forall|i: int| 0 <= i < self.entries().len()
            ==> #[trigger] self.entries()[i].number > self.head_spec()
        &&& distinct_numbers(self.entries())
    }

    /// The number the durable stream is waiting for.
    pub open spec fn next_number(self) -> u64 {
        (self.head_spec() + 1) as u64
    }

    /// True when the block the durable stream is waiting for is buffered.
    pub open spec fn has_next_spec(self) -> bool {
        self.head_spec() < u64::MAX && self.pending_map().dom().contains(self.next_number())
    }

    /// Everything the buffer publishes about a buffered entry: it is keyed by
    /// its own number and lies strictly beyond the head.
    pub proof fn lemma_wf_map(self)
        requires
            self.wf(),
        ensures
            forall|n: u64| self.pending_map().dom().contains(n)
                ==> #[trigger] self.pending_map()[n].number == n && n > self.head_spec(),
    {
        assert forall|n: u64| self.pending_map().dom().contains(n)
            implies #[trigger] self.pending_map()[n].number == n && n > self.head_spec() by {
            let i = choose|i: int| 0 <= i < self.entries().len() && self.entries()[i].number == n;
            lemma_entry_at(self.entries(), i, n);
        }
    }

    /// Starts an empty buffer at the durably applied head read at startup.
    pub fn new(head: u64) -> (b: Buffered)
        ensures
            b.wf(),
            b.head_spec() == head,
            b.pending_map() == Map::<u64, BlockView>::empty(),
    {
        let b = Buffered { head, pending: Vec::new() };
        proof {
            assert(b.pending_map() =~= Map::<u64, BlockView>::empty());
        }
        b
    }

    /// Answers the network executor's "what do we already have" query: the
    /// latest durably applied block number, never buffered-but-unflushed
    /// state.
    pub fn current_head(&self) -> (n: u64)
        ensures
            n == self.head_spec(),
    {
        self.head
    }

    /// True when a block numbered `n` is buffered.
    pub fn contains_block(&self, n: u64) -> (r: bool)
        ensures
            r == self.pending_map().dom().contains(n),
    {
        let mut i: usize = 0;
        while i < self.pending.len()
            invariant
                0 <= i <= self.pending@.len(),
                forall|j: int| 0 <= j < i ==> self.entries()[j].number != n,
            decreases self.pending@.len() - i,
        {
            if self.pending[i].number == n {
                proof {
                    assert(self.entries()[i as int].number == n);
                }
                return true;
            }
            i = i + 1;
        }
        false
    }

    /// Accepts one block from the network, in whatever order it arrived.
    ///
    /// A block at or below the current head has already been applied and is a
    /// no-op; a duplicate of a buffered number is idempotently ignored; any
    /// other block is held until its number becomes contiguous with the head.
    pub fn push(&mut self, b: Block)
        requires
            old(self).wf(),
        ensures
            final(self).wf(),
            final(self).head_spec() == old(self).head_spec(),
            final(self).pending_map() == push_spec(
                old(self).head_spec(),
                old(self).pending_map(),
                b@,
            ),
    {
        if b.number <= self.head {
            return;
        }
        if self.contains_block(b.number) {
            return;
        }
        let ghost pre = self.entries();
        let ghost bv = b@;
        self.pending.push(b);
        proof {
            assert(self.entries() =~= pre.push(bv));
            assert forall|i: int| 0 <= i < self.entries().len()
                implies #[trigger] self.entries()[i].number > self.head_spec() by {
                if i < pre.len() {
                    assert(self.entries()[i] == pre[i]);
                }
            }
            assert(distinct_numbers(self.entries())) by {
                assert forall|i: int, j: int| 0 <= i < j < self.entries().len()
                    implies self.entries()[i].number != self.entries()[j].number by {
                    if j < pre.len() {
                        assert(pre[i].number != pre[j].number);
                    } else {
                        lemma_entry_at(pre, i, pre[i].number);
                        assert(!contains_number(pre, bv.number));
                    }
                }
            }
            assert(self.pending_map() =~= old(self).pending_map().insert(bv.number, bv)) by {
                assert forall|n: u64| #[trigger] self.pending_map().dom().contains(n)
                        == (old(self).pending_map().dom().contains(n) || n == bv.number) by {
                    lemma_contains_push(pre, bv, n);
                }
                assert forall|n: u64| self.pending_map().dom().contains(n)
                    implies #[trigger] self.pending_map()[n] == old(self).pending_map().insert(
                    bv.number,
                    bv,
                )[n] by {
                    if n == bv.number {
                        lemma_entry_at(self.entries(), pre.len() as int, n);
                    } else {
                        lemma_contains_push(pre, bv, n);
                        let i = choose|i: int| 0 <= i < pre.len() && pre[i].number == n;
                        lemma_entry_at(pre, i, n);
                        lemma_entry_at(self.entries(), i, n);
                    }
                }
            }
        }
    }

    /// Hands out the block the durable stream is waiting for — always the
    /// immediate successor of the head, so the store is never asked to apply
    /// out of order. The block stays buffered until its durable write is
    /// confirmed.
    pub fn peek_next(&self) -> (r: Option<&Block>)
        requires
            self.wf(),
        ensures
            match r {
                Some(b) => self.has_next_spec() && b@ == self.pending_map()[self.next_number()],
                None => !self.has_next_spec(),
            },
    {
        if self.head == u64::MAX {
            return None;
        }
        let target = self.head + 1;
        let mut i: usize = 0;
        while i < self.pending.len()
            invariant
                self.wf(),
                target == self.next_number(),
                0 <= i <= self.pending@.len(),
                forall|j: int| 0 <= j < i ==> self.entries()[j].number != target,
            decreases self.pending@.len() - i,
        {
            if self.pending[i].number == target {
                proof {
                    lemma_entry_at(self.entries(), i as int, target);
                }
                return Some(&self.pending[i]);
            }
            i = i + 1;
        }
        None
    }

    /// Advances the head once the surrounding process has durably written the
    /// released block: removes it from the buffer and records it with the
    /// store adapter, which acknowledges it in order. Returns the applied
    /// number.
    ///
    /// If the durable write failed, the caller simply does not confirm: the
    /// buffer retains the block and the head stays put.
    pub fn confirm_applied(&mut self, store: &mut StoreAdapter) -> (n: u64)
        requires
            old(self).wf(),
            old(self).has_next_spec(),
            old(store).wf(),
            old(store).cursor_spec() == old(self).head_spec(),
        ensures
            final(self).wf(),
            final(store).wf(),
            n == old(self).next_number(),
            final(self).head_spec() == n,
            final(store).cursor_spec() == n,
            final(self).pending_map() == old(self).pending_map().remove(n),
            final(store).log() == old(store).log().push(n),
    {
        let target = self.head + 1;
        let len = self.pending.len();
        let mut i: usize = 0;
        proof {
            let w = choose|w: int|
                0 <= w < self.entries().len() && self.entries()[w].number == target;
            assert(w < self.pending@.len());
        }
        while self.pending[i].number != target
            invariant
                self.wf(),
                *self == *old(self),
                target == old(self).next_number(),
                self.pending@.len() == len,
                0 <= i < self.pending@.len(),
                contains_number(self.entries(), target),
                forall|j: int| 0 <= j < i ==> self.entries()[j].number != target,
            decreases self.pending@.len() - i,
        {
            proof {
                let w = choose|w: int|
                    0 <= w < self.entries().len() && self.entries()[w].number == target;
                assert(w > i);
            }
            i = i + 1;
        }
        let ghost pre = self.entries();
        let b = self.pending.remove(i);
        let _ = store.apply(&b);
        self.head = target;
        proof {
            assert(b@ == pre[i as int]);
            assert(self.entries() =~= pre.remove(i as int));
            assert forall|a: int, c: int| 0 <= a < c < self.entries().len()
                implies self.entries()[a].number != self.entries()[c].number by {
                lemma_remove_index(pre, i as int, a);
                lemma_remove_index(pre, i as int, c);
            }
            assert forall|a: int| 0 <= a < self.entries().len()
                implies #[trigger] self.entries()[a].number > self.head_spec() by {
                lemma_remove_index(pre, i as int, a);
                let orig: int = if a < i { a } else { a + 1 };
                assert(pre[orig].number > old(self).head_spec());
                assert(pre[orig].number != pre[i as int].number);
            }
            assert(self.pending_map() =~= old(self).pending_map().remove(target)) by {
                assert forall|n: u64| #[trigger] contains_number(self.entries(), n)
                        == (contains_number(pre, n) && n != target) by {
                    lemma_contains_remove(pre, i as int, n);
                }
                assert forall|n: u64| contains_number(self.entries(), n)
                    implies #[trigger] entry_at(self.entries(), n) == entry_at(pre, n) by {
                    let j = choose|j: int|
                        0 <= j < self.entries().len() && self.entries()[j].number == n;
                    lemma_remove_index(pre, i as int, j);
                    let orig: int = if j < i { j } else { j + 1 };
                    lemma_entry_at(pre, orig, n);
                    lemma_entry_at(self.entries(), j, n);
                }
            }
        }
        target
    }

    /// True when the block the durable stream is waiting for is buffered.
    pub fn has_next(&self) -> (r: bool)
        requires
            self.wf(),
        ensures
            r == self.has_next_spec(),
    {
        if self.head == u64::MAX {
            return false;
        }
        self.contains_block(self.head + 1)
    }

    /// Mirrors an externally observed advance of the durable head into the
    /// buffer's view: adopts the larger head and discards buffered entries
    /// whose numbers have fallen behind it. A smaller or equal head changes
    /// nothing — the head never moves backwards.
    pub fn sync_head(&mut self, new_head: u64)
        requires
            old(self).wf(),
        ensures
            final(self).wf(),
            final(self).head_spec() == (if new_head > old(self).head_spec() {
                new_head
            } else {
                old(self).head_spec()
            }),
            final(self).pending_map() == beyond_head(
                old(self).pending_map(),
                final(self).head_spec(),
            ),
    {
        if new_head <= self.head {
            proof {
                self.lemma_wf_map();
                assert(self.pending_map() =~= beyond_head(
                    self.pending_map(),
                    self.head_spec(),
                ));
            }
            return;
        }
        self.head = new_head;
        let ghost orig = self.entries();
        let mut i: usize = 0;
        while i < self.pending.len()
            invariant
                self.head_spec() == new_head,
                distinct_numbers(self.entries()),
                0 <= i <= self.pending@.len(),
                forall|j: int| 0 <= j < i ==> #[trigger] self.entries()[j].number > new_head,
                forall|j: int| 0 <= j < self.entries().len()
                    ==> contains_number(orig, #[trigger] self.entries()[j].number)
                        && entry_at(orig, self.entries()[j].number) == self.entries()[j],
                forall|n: u64| contains_number(orig, n) && n > new_head
                    ==> #[trigger] contains_number(self.entries(), n),
            decreases self.pending@.len() - i,
        {
            if self.pending[i].number <= new_head {
                let ghost pre = self.entries();
                let _ = self.pending.remove(i);
                proof {
                    assert(self.entries() =~= pre.remove(i as int));
                    assert forall|a: int, c: int| 0 <= a < c < self.entries().len()
                        implies self.entries()[a].number != self.entries()[c].number by {
                        lemma_remove_index(pre, i as int, a);
                        lemma_remove_index(pre, i as int, c);
                    }
                    assert forall|j: int| 0 <= j < self.entries().len()
                        implies contains_number(orig, #[trigger] self.entries()[j].number)
                            && entry_at(orig, self.entries()[j].number) == self.entries()[j] by {
                        lemma_remove_index(pre, i as int, j);
                    }
                    assert forall|j: int| 0 <= j < i
                        implies #[trigger] self.entries()[j].number > new_head by {
                        lemma_remove_index(pre, i as int, j);
                    }
                    assert forall|n: u64| contains_number(orig, n) && n > new_head
                        implies #[trigger] contains_number(self.entries(), n) by {
                        assert(contains_number(pre, n));
                        lemma_contains_remove(pre, i as int, n);
                    }
                }
            } else {
                i = i + 1;
            }
        }
        proof {
            old(self).lemma_wf_map();
            assert(self.pending_map() =~= beyond_head(old(self).pending_map(), new_head)) by {
                assert forall|n: u64| #[trigger] contains_number(self.entries(), n)
                    implies contains_number(orig, n) && n > new_head by {
                    let j = choose|j: int|
                        0 <= j < self.entries().len() && self.entries()[j].number == n;
                }
                assert forall|n: u64| contains_number(self.entries(), n)
                    implies #[trigger] entry_at(self.entries(), n) == entry_at(orig, n) by {
                    let j = choose|j: int|
                        0 <= j < self.entries().len() && self.entries()[j].number == n;
                    lemma_entry_at(self.entries(), j, n);
                }
            }
        }
    }

    /// The moment the run at the head is gap-free, releases it: applies
    /// buffered blocks through the store adapter one at a time, in strictly
    /// ascending order, until the first missing number. Returns the numbers
    /// applied, in application order.
    ///
    /// This drives the in-crate adapter bookkeeping; a caller that must wait
    /// for an external durable write between blocks steps with [`Self::peek_next`]
    /// and [`Self::confirm_applied`] instead.
    pub fn flush_ready(&mut self, store: &mut StoreAdapter) -> (applied: Vec<u64>)
        requires
            old(self).wf(),
            old(store).wf(),
            old(store).cursor_spec() == old(self).head_spec(),
        ensures
            final(self).wf(),
            final(store).wf(),
            final(store).cursor_spec() == final(self).head_spec(),
            old(self).head_spec() <= final(self).head_spec(),
            forall|k: int| old(self).head_spec() < k <= final(self).head_spec()
                ==> old(self).pending_map().dom().contains(#[trigger] (k as u64)),
            !final(self).has_next_spec(),
            final(self).pending_map() == beyond_head(
                old(self).pending_map(),
                final(self).head_spec(),
            ),
            final(store).log() == old(store).log() + run_seq(
                old(self).head_spec(),
                final(self).head_spec(),
            ),
            applied@ == run_seq(old(self).head_spec(), final(self).head_spec()),
    {
        let mut applied: Vec<u64> = Vec::new();
        proof {
            old(self).lemma_wf_map();
            assert(self.pending_map() =~= beyond_head(
                old(self).pending_map(),
                self.head_spec(),
            ));
            assert(applied@ =~= run_seq(old(self).head_spec(), self.head_spec()));
            assert(store.log() =~= old(store).log() + run_seq(
                old(self).head_spec(),
                self.head_spec(),
            ));
        }
        while self.has_next()
            invariant
                self.wf(),
                store.wf(),
                store.cursor_spec() == self.head_spec(),
                old(self).head_spec() <= self.head_spec(),
                forall|k: int| old(self).head_spec() < k <= self.head_spec()
                    ==> old(self).pending_map().dom().contains(#[trigger] (k as u64)),
                self.pending_map() == beyond_head(old(self).pending_map(), self.head_spec()),
                store.log() == old(store).log() + run_seq(
                    old(self).head_spec(),
                    self.head_spec(),
                ),
                applied@ == run_seq(old(self).head_spec(), self.head_spec()),
            decreases u64::MAX - self.head_spec(),
        {
            let ghost pre_head = self.head_spec();
            let n = self.confirm_applied(store);
            applied.push(n);
            proof {
                assert(self.pending_map() =~= beyond_head(
                    old(self).pending_map(),
                    self.head_spec(),
                ));
                assert(run_seq(old(self).head_spec(), pre_head).push(n) =~= run_seq(
                    old(self).head_spec(),
                    self.head_spec(),
                ));
                assert(store.log() =~= old(store).log() + run_seq(
                    old(self).head_spec(),
                    self.head_spec(),
                ));
            }
        }
        applied
    }

    /// Accepts one arrival and immediately releases any run that thereby
    /// became contiguous with the head, exactly as [`Self::push`] followed by
    /// [`Self::flush_ready`].
    pub fn push_and_flush(&mut self, store: &mut StoreAdapter, b: Block) -> (applied: Vec<u64>)
        requires
            old(self).wf(),
            old(store).wf(),
            old(store).cursor_spec() == old(self).head_spec(),
        ensures
            final(self).wf(),
            final(store).wf(),
            final(store).cursor_spec() == final(self).head_spec(),
            old(self).head_spec() <= final(self).head_spec(),
            forall|k: int| old(self).head_spec() < k <= final(self).head_spec()
                ==> push_spec(old(self).head_spec(), old(self).pending_map(), b@).dom().contains(
                #[trigger] (k as u64),
            ),
            !final(self).has_next_spec(),
            final(self).pending_map() == beyond_head(
                push_spec(old(self).head_spec(), old(self).pending_map(), b@),
                final(self).head_spec(),
            ),
            final(store).log() == old(store).log() + run_seq(
                old(self).head_spec(),
                final(self).head_spec(),
            ),
            applied@ == run_seq(old(self).head_spec(), final(self).head_spec()),
    {
        self.push(b);
        self.flush_ready(store)
    }
}

/// The views of a sequence of blocks.
pub open spec fn views_of(bs: Seq<Block>) -> Seq<BlockView> {
    bs.map_values(|b: Block| b@)
}

/// Runs a whole batch of arrivals through the buffering layer in their given
/// order, flushing eagerly, and returns every number handed to the durable
/// store adapter, in application order.
pub fn synchronize(buf: &mut Buffered, store: &mut StoreAdapter, arrivals: Vec<Block>) -> (applied:
    Vec<u64>)
    requires
        old(buf).wf(),
        old(store).wf(),
        old(store).cursor_spec() == old(buf).head_spec(),
    ensures
        final(buf).wf(),
        final(store).wf(),
        final(store).cursor_spec() == final(buf).head_spec(),
        old(buf).head_spec() <= final(buf).head_spec(),
        forall|k: int| old(buf).head_spec() < k <= final(buf).head_spec()
            ==> contains_number(views_of(arrivals@), #[trigger] (k as u64)) || old(
                buf,
            ).pending_map().dom().contains(k as u64),
        !final(buf).has_next_spec(),
        final(buf).head_spec() < u64::MAX ==> !contains_number(
            views_of(arrivals@),
            final(buf).next_number(),
        ) && !old(buf).pending_map().dom().contains(final(buf).next_number()),
        forall|n: u64| #[trigger] final(buf).pending_map().dom().contains(n)
            ==> n > final(buf).head_spec() && (old(buf).pending_map().dom().contains(n)
                || contains_number(views_of(arrivals@), n)),
        forall|n: u64| (old(buf).pending_map().dom().contains(n) || contains_number(
            views_of(arrivals@),
            n,
        )) && n > final(buf).head_spec() ==> #[trigger] final(buf).pending_map().dom().contains(n),
        forall|n: u64| #[trigger] final(buf).pending_map().dom().contains(n)
            ==> (if old(buf).pending_map().dom().contains(n) {
                final(buf).pending_map()[n] == old(buf).pending_map()[n]
            } else {
                exists|i: int| 0 <= i < views_of(arrivals@).len() && views_of(arrivals@)[i]
                    == final(buf).pending_map()[n] && views_of(arrivals@)[i].number == n
            }),
        final(store).log() == old(store).log() + run_seq(
            old(buf).head_spec(),
            final(buf).head_spec(),
        ),
        applied@ == run_seq(old(buf).head_spec(), final(buf).head_spec()),
{
    let ghost all = views_of(arrivals@);
    let mut rest = arrivals;
    let ghost mut done: Seq<BlockView> = Seq::empty();
    let mut applied = buf.flush_ready(store);
    proof {
        assert(done + views_of(rest@) =~= all);
    }
    while rest.len() > 0
        invariant
            buf.wf(),
            store.wf(),
            store.cursor_spec() == buf.head_spec(),
            old(buf).head_spec() <= buf.head_spec(),
            done + views_of(rest@) == all,
            !buf.has_next_spec(),
            forall|k: int| old(buf).head_spec() < k <= buf.head_spec()
                ==> contains_number(done, #[trigger] (k as u64)) || old(
                    buf,
                ).pending_map().dom().contains(k as u64),
            forall|n: u64| #[trigger] buf.pending_map().dom().contains(n)
                ==> n > buf.head_spec() && (old(buf).pending_map().dom().contains(n)
                    || contains_number(done, n)),
            forall|n: u64| (old(buf).pending_map().dom().contains(n) || contains_number(done, n))
                && n > buf.head_spec() ==> #[trigger] buf.pending_map().dom().contains(n),
            forall|n: u64| #[trigger] buf.pending_map().dom().contains(n)
                ==> (if old(buf).pending_map().dom().contains(n) {
                    buf.pending_map()[n] == old(buf).pending_map()[n]
                } else {
                    exists|i: int| 0 <= i < done.len() && done[i] == buf.pending_map()[n]
                        && done[i].number == n
                }),
            store.log() == old(store).log() + run_seq(old(buf).head_spec(), buf.head_spec()),
            applied@ == run_seq(old(buf).head_spec(), buf.head_spec()),
        decreases rest@.len(),
    {
        let ghost pre_head = buf.head_spec();
        let ghost pre_map = buf.pending_map();
        let ghost pre_rest = rest@;
        let ghost pre_done = done;
        let b = rest.remove(0);
        let ghost bv = b@;
        let mut more = buf.push_and_flush(store, b);
        applied.append(&mut more);
        proof {
            done = pre_done.push(bv);
            assert(done + views_of(rest@) =~= all) by {
                assert(views_of(pre_rest) =~= seq![bv] + views_of(rest@));
            }
            assert(run_seq(old(buf).head_spec(), pre_head) + run_seq(pre_head, buf.head_spec())
                =~= run_seq(old(buf).head_spec(), buf.head_spec()));
            assert(store.log() =~= old(store).log() + run_seq(
                old(buf).head_spec(),
                buf.head_spec(),
            ));
            assert(applied@ =~= run_seq(old(buf).head_spec(), buf.head_spec()));
            let ghost m1 = push_spec(pre_head, pre_map, bv);
            assert forall|k: int| old(buf).head_spec() < k <= buf.head_spec()
                implies contains_number(done, #[trigger] (k as u64)) || old(
                buf,
            ).pending_map().dom().contains(k as u64) by {
                if k <= pre_head {
                    lemma_contains_push(pre_done, bv, k as u64);
                } else {
                    assert(m1.dom().contains((k as u64)));
                    if pre_map.dom().contains((k as u64)) {
                        lemma_contains_push(pre_done, bv, k as u64);
                    } else {
                        assert(k as u64 == bv.number);
                        lemma_contains_push(pre_done, bv, bv.number);
                    }
                }
            }
            assert forall|n: u64| #[trigger] buf.pending_map().dom().contains(n)
                implies n > buf.head_spec() && (old(buf).pending_map().dom().contains(n)
                || contains_number(done, n)) by {
                assert(m1.dom().contains(n));
                lemma_contains_push(pre_done, bv, n);
            }
            assert forall|n: u64| (old(buf).pending_map().dom().contains(n) || contains_number(
                done,
                n,
            )) && n > buf.head_spec() implies #[trigger] buf.pending_map().dom().contains(n) by {
                lemma_contains_push(pre_done, bv, n);
                if old(buf).pending_map().dom().contains(n) || contains_number(pre_done, n) {
                    assert(pre_map.dom().contains(n));
                    assert(m1.dom().contains(n));
                } else {
                    assert(n == bv.number);
                    assert(m1.dom().contains(n));
                }
            }
            assert forall|n: u64| #[trigger] buf.pending_map().dom().contains(n)
                implies (if old(buf).pending_map().dom().contains(n) {
                buf.pending_map()[n] == old(buf).pending_map()[n]
            } else {
                exists|i: int| 0 <= i < done.len() && done[i] == buf.pending_map()[n]
                    && done[i].number == n
            }) by {
                assert(buf.pending_map()[n] == m1[n]);
                if pre_map.dom().contains(n) {
                    assert(m1[n] == pre_map[n]);
                    if !old(buf).pending_map().dom().contains(n) {
                        let i = choose|i: int|
                            0 <= i < pre_done.len() && pre_done[i] == pre_map[n] && pre_done[i].number
                                == n;
                        assert(done[i] == pre_done[i]);
                    }
                } else {
                    assert(n == bv.number && m1[n] == bv);
                    if old(buf).pending_map().dom().contains(n) {
                        assert(pre_map.dom().contains(n));
                    }
                    assert(done[pre_done.len() as int] == bv);
                }
            }
        }
    }
    proof {
        assert(views_of(rest@) =~= Seq::<BlockView>::empty());
        assert(done + views_of(rest@) =~= done);
        assert(done == all);
        if buf.head_spec() < u64::MAX {
            let n = buf.next_number();
            if contains_number(all, n) || old(buf).pending_map().dom().contains(n) {
                assert(buf.pending_map().dom().contains(n));
                assert(buf.has_next_spec());
            }
        }
    }
    applied
}

/// Law: the resting point of a full run is fixed by the set of block numbers
/// that were available, not by the order they arrived in.
///
/// Any two heads that both start from the same durable head `low`, cover a
/// run whose every number was available, and stop short of an available
/// successor are equal — so the durably applied stream `run_seq(low, h)` of a
/// completed run is the same for every permutation of the arrivals.
pub proof fn lemma_resting_head_unique(low: u64, available: Set<u64>, h1: u64, h2: u64)
    requires
        low <= h1,
        low <= h2,
        forall|k: int| low < k <= h1 ==> available.contains(#[trigger] (k as u64)),
        forall|k: int| low < k <= h2 ==> available.contains(#[trigger] (k as u64)),
        h1 < u64::MAX ==> !available.contains((h1 + 1) as u64),
        h2 < u64::MAX ==> !available.contains((h2 + 1) as u64),
    ensures
        h1 == h2,
        run_seq(low, h1) == run_seq(low, h2),
{
    if h1 < h2 {
        assert(available.contains(((h1 + 1) as int) as u64));
    }
    if h2 < h1 {
        assert(available.contains(((h2 + 1) as int) as u64));
    }
}

/// Law: arrival order cannot affect the final applied order.
///
/// Take two full runs that start from the same head `low` and the same
/// pending map `m0`, and whose arrival batches `v1` and `v2` carry the same
/// set of block numbers (in particular, any two permutations of one batch).
/// Each run's resting head satisfies the characterization that
/// [`synchronize`] ensures; this law concludes that the two runs applied
/// exactly the same stream, `run_seq(low, h1) == run_seq(low, h2)`.
pub proof fn lemma_applied_stream_order_independent(
    low: u64,
    m0: Map<u64, BlockView>,
    v1: Seq<BlockView>,
    v2: Seq<BlockView>,
    h1: u64,
    h2: u64,
)
    requires
        forall|n: u64| #[trigger] contains_number(v1, n) <==> contains_number(v2, n),
        low <= h1,
        low <= h2,
        forall|k: int| low < k <= h1 ==> contains_number(v1, #[trigger] (k as u64))
            || m0.dom().contains(k as u64),
        forall|k: int| low < k <= h2 ==> contains_number(v2, #[trigger] (k as u64))
            || m0.dom().contains(k as u64),
        h1 < u64::MAX ==> !contains_number(v1, (h1 + 1) as u64) && !m0.dom().contains(
            (h1 + 1) as u64,
        ),
        h2 < u64::MAX ==> !contains_number(v2, (h2 + 1) as u64) && !m0.dom().contains(
            (h2 + 1) as u64,
        ),
    ensures
        h1 == h2,
        run_seq(low, h1) == run_seq(low, h2),
{
    let available = Set::new(|n: u64| contains_number(v1, n) || m0.dom().contains(n));
    assert forall|k: int| low < k <= h1 implies available.contains(#[trigger] (k as u64)) by {
        assert(contains_number(v1, (k as u64)) || m0.dom().contains(k as u64));
    }
    assert forall|k: int| low < k <= h2 implies available.contains(#[trigger] (k as u64)) by {
        assert(contains_number(v2, (k as u64)) || m0.dom().contains(k as u64));
        assert(contains_number(v2, (k as u64)) ==> contains_number(v1, (k as u64)));
    }
    if h1 < u64::MAX {
        assert(!available.contains((h1 + 1) as u64));
    }
    if h2 < u64::MAX {
        assert(!available.contains((h2 + 1) as u64)) by {
            assert(contains_number(v1, (h2 + 1) as u64) ==> contains_number(v2, (h2 + 1) as u64));
        }
    }
    lemma_resting_head_unique(low, available, h1, h2);
}

/// Law: pushing the same block twice leaves the same pending state as
/// pushing it once — the second arrival is idempotently ignored.
pub proof fn lemma_push_idempotent(head: u64, m: Map<u64, BlockView>, b: BlockView)
    ensures
        push_spec(head, push_spec(head, m, b), b) == push_spec(head, m, b),
{
}

} // verus!
