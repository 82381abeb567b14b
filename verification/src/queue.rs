//! Bounded queues that count bytes as well as items.

use std::collections::VecDeque;
use vstd::prelude::*;

verus! {

/// Something that takes up a number of bytes in a queue.
pub trait ByteSize {
    /// How many bytes the value takes up; a single one, unless it is said otherwise.
    open spec fn size(&self) -> nat {
        1
    }

    /// How many bytes the value takes up.
    fn byte_size(&self) -> (bytes: usize)
        ensures
            bytes == self.size(),
    ;
}

/// What a queue does with an item that does not fit.
#[derive(Debug, Clone, Copy, PartialEq, Eq, Structural)]
pub enum OverflowPolicy {
    Reject,
    DropOldest,
    ClearToLowWater,
}

/// What a push displaced.
#[derive(Debug, Clone, Copy, PartialEq, Eq, Structural)]
pub struct PushOutcome {
    pub dropped_items: usize,
    pub dropped_bytes: usize,
}

/// What a waiting consumer is told.
#[derive(Debug)]
pub enum PopOutcome<T> {
    /// The oldest item.
    Item(T),
    /// Nothing will come within the time that is left.
    Ended,
    /// Nothing is there yet.
    Wait,
}

/// What a queue holds, and how much it may hold.
#[verifier::ext_equal]
pub struct QueueState<T> {
    pub items: Seq<T>,
    pub closed: bool,
    pub max_bytes: nat,
    pub max_items: nat,
}

/// The bytes of all items together.
pub open spec fn total<T: ByteSize>(items: Seq<T>) -> nat
    decreases items.len(),
{
    if items.len() == 0 {
        0
    } else {
        items[0].size() + total(items.drop_first())
    }
}

/// Whether an item of some size fits behind these items.
pub open spec fn fits<T: ByteSize>(items: Seq<T>, size: nat, max_bytes: nat, max_items: nat) -> bool {
    total(items) + size <= max_bytes && items.len() + 1 <= max_items
}

/// Whether these items are at or below the low-water mark.
pub open spec fn low_water<T: ByteSize>(items: Seq<T>, max_bytes: nat, max_items: nat) -> bool {
    total(items) <= max_bytes / 2 && items.len() < max_items / 2
}

/// What stays when the oldest items leave until an item of some size fits.
pub open spec fn drop_oldest<T: ByteSize>(
    items: Seq<T>,
    size: nat,
    max_bytes: nat,
    max_items: nat,
) -> Seq<T>
    decreases items.len(),
{
    if items.len() == 0 || fits(items, size, max_bytes, max_items) {
        items
    } else {
        drop_oldest(items.drop_first(), size, max_bytes, max_items)
    }
}

/// What stays when the oldest items leave until the low-water mark is reached and
/// an item of some size fits.
pub open spec fn clear_to_low_water<T: ByteSize>(
    items: Seq<T>,
    size: nat,
    max_bytes: nat,
    max_items: nat,
) -> Seq<T>
    decreases items.len(),
{
    if items.len() == 0 || (low_water(items, max_bytes, max_items) && total(items) + size
        <= max_bytes) {
        items
    } else {
        clear_to_low_water(items.drop_first(), size, max_bytes, max_items)
    }
}

impl<T: ByteSize> QueueState<T> {
    /// Whether an item is turned away.
    pub open spec fn refuses(self, size: nat, policy: OverflowPolicy) -> bool {
        ||| self.closed
        ||| size > self.max_bytes
        ||| policy == OverflowPolicy::Reject && !fits(
            self.items,
            size,
            self.max_bytes,
            self.max_items,
        )
    }

    /// Which items an accepted item finds before it.
    pub open spec fn kept(self, size: nat, policy: OverflowPolicy) -> Seq<T> {
        if fits(self.items, size, self.max_bytes, self.max_items) {
            self.items
        } else {
            match policy {
                OverflowPolicy::Reject => self.items,
                OverflowPolicy::DropOldest => drop_oldest(
                    self.items,
                    size,
                    self.max_bytes,
                    self.max_items,
                ),
                OverflowPolicy::ClearToLowWater => clear_to_low_water(
                    self.items,
                    size,
                    self.max_bytes,
                    self.max_items,
                ),
            }
        }
    }

    /// The queue after an item was accepted.
    pub open spec fn pushed(self, item: T, policy: OverflowPolicy) -> QueueState<T> {
        QueueState { items: self.kept(item.size(), policy).push(item), ..self }
    }

    /// The queue without its oldest item.
    pub open spec fn popped(self) -> QueueState<T> {
        QueueState { items: self.items.drop_first(), ..self }
    }

    /// What an accepted item displaces.
    pub open spec fn displaced(self, size: nat, policy: OverflowPolicy) -> (nat, nat) {
        let kept = self.kept(size, policy);
        ((self.items.len() - kept.len()) as nat, (total(self.items) - total(kept)) as nat)
    }

    /// The limits hold: the bytes always, the item count down to a single item.
    pub open spec fn within_limits(self) -> bool {
        &&& total(self.items) <= self.max_bytes
        &&& self.items.len() <= self.max_items || self.items.len() <= 1
    }
}

/// An item behind others adds its size.
pub proof fn lemma_total_push<T: ByteSize>(items: Seq<T>, item: T)
    ensures
        total(items.push(item)) == total(items) + item.size(),
    decreases items.len(),
{
    if items.len() == 0 {
        assert(items.push(item).drop_first() =~= items);
    } else {
        lemma_total_push(items.drop_first(), item);
        assert(items.push(item).drop_first() =~= items.drop_first().push(item));
    }
}

/// What stays after dropping is a suffix, fits what it had to make room for, and
/// is no larger than before.
proof fn lemma_kept<T: ByteSize>(items: Seq<T>, size: nat, max_bytes: nat, max_items: nat)
    requires
        size <= max_bytes,
    ensures
        drop_oldest(items, size, max_bytes, max_items).is_suffix_of(items),
        total(drop_oldest(items, size, max_bytes, max_items)) <= total(items),
        total(drop_oldest(items, size, max_bytes, max_items)) + size <= max_bytes,
        drop_oldest(items, size, max_bytes, max_items).len() + 1 <= max_items || drop_oldest(
            items,
            size,
            max_bytes,
            max_items,
        ).len() == 0,
        clear_to_low_water(items, size, max_bytes, max_items).is_suffix_of(items),
        total(clear_to_low_water(items, size, max_bytes, max_items)) <= total(items),
        total(clear_to_low_water(items, size, max_bytes, max_items)) + size <= max_bytes,
        clear_to_low_water(items, size, max_bytes, max_items).len() + 1 <= max_items
            || clear_to_low_water(items, size, max_bytes, max_items).len() == 0,
    decreases items.len(),
{
    assert(items.is_suffix_of(items));
    if items.len() > 0 {
        let rest = items.drop_first();
        lemma_kept(rest, size, max_bytes, max_items);
        let dropped = drop_oldest(rest, size, max_bytes, max_items);
        let cleared = clear_to_low_water(rest, size, max_bytes, max_items);
        assert(dropped.is_suffix_of(items)) by {
            assert(items.subrange((items.len() - dropped.len()) as int, items.len() as int)
                =~= rest.subrange((rest.len() - dropped.len()) as int, rest.len() as int));
        }
        assert(cleared.is_suffix_of(items)) by {
            assert(items.subrange((items.len() - cleared.len()) as int, items.len() as int)
                =~= rest.subrange((rest.len() - cleared.len()) as int, rest.len() as int));
        }
    }
}

/// Whatever the policy displaces is the oldest: what stays is the newest part of
/// the queue, in order.
pub proof fn law_only_the_oldest_leave<T: ByteSize>(
    state: QueueState<T>,
    size: nat,
    policy: OverflowPolicy,
)
    requires
        !state.refuses(size, policy),
    ensures
        state.kept(size, policy).is_suffix_of(state.items),
{
    lemma_kept(state.items, size, state.max_bytes, state.max_items);
    assert(state.items.is_suffix_of(state.items));
}

/// A queue within its limits is within them after every accepted push and after
/// every pop.
pub proof fn law_limits_are_kept<T: ByteSize>(
    state: QueueState<T>,
    item: T,
    policy: OverflowPolicy,
)
    requires
        state.within_limits(),
    ensures
        !state.refuses(item.size(), policy) ==> state.pushed(item, policy).within_limits(),
        state.items.len() > 0 ==> state.popped().within_limits(),
{
    if !state.refuses(item.size(), policy) {
        lemma_kept(state.items, item.size(), state.max_bytes, state.max_items);
        lemma_total_push(state.kept(item.size(), policy), item);
    }
}

/// Items leave in the order in which they came: an accepted item is the newest, and
/// whoever takes items off meets those that stayed before it first.
pub proof fn law_items_leave_in_order_of_arrival<T: ByteSize>(
    state: QueueState<T>,
    item: T,
    policy: OverflowPolicy,
)
    requires
        !state.refuses(item.size(), policy),
    ensures
        state.pushed(item, policy).items.last() == item,
        state.pushed(item, policy).items.drop_last() == state.kept(item.size(), policy),
        state.kept(item.size(), policy).len() > 0 ==> state.pushed(item, policy).popped().items
            == state.kept(item.size(), policy).drop_first().push(item),
{
    let kept = state.kept(item.size(), policy);
    assert(kept.push(item).drop_last() =~= kept);
    if kept.len() > 0 {
        assert(kept.push(item).drop_first() =~= kept.drop_first().push(item));
    }
}

/// A queue bounded in bytes and in items.
pub struct ByteQueue<T: ByteSize> {
    items: VecDeque<T>,
    bytes: usize,
    closed: bool,
    max_bytes: usize,
    max_items: usize,
    low_water_bytes: usize,
}

impl<T: ByteSize> View for ByteQueue<T> {
    type V = QueueState<T>;

    closed spec fn view(&self) -> QueueState<T> {
        QueueState {
            items: self.items@,
            closed: self.closed,
            max_bytes: self.max_bytes as nat,
            max_items: self.max_items as nat,
        }
    }
}

impl<T: ByteSize> ByteQueue<T> {
    /// The byte count is right, and the limits hold.
    pub closed spec fn wf(&self) -> bool {
        &&& self.bytes == total(self.items@)
        &&& self.low_water_bytes == self.max_bytes / 2
        &&& self@.within_limits()
    }

    /// What a well-formed queue holds is within its limits.
    pub proof fn lemma_within_limits(&self)
        requires
            self.wf(),
        ensures
            self@.within_limits(),
    {
    }

    /// An empty, open queue with these limits.
    pub fn new(max_bytes: usize, max_items: usize) -> (queue: ByteQueue<T>)
        ensures
            queue.wf(),
            queue@ == (QueueState::<T> {
                items: Seq::empty(),
                closed: false,
                max_bytes: max_bytes as nat,
                max_items: max_items as nat,
            }),
    {
        let queue = ByteQueue {
            items: VecDeque::new(),
            bytes: 0,
            closed: false,
            max_bytes,
            max_items,
            low_water_bytes: max_bytes / 2,
        };
        assert(queue@.items =~= Seq::<T>::empty());
        queue
    }

    /// Takes the oldest item off.
    fn take_front(&mut self) -> (item: Option<T>)
        requires
            old(self).bytes == total(old(self).items@),
        ensures
            final(self).bytes == total(final(self).items@),
            final(self).closed == old(self).closed,
            final(self).max_bytes == old(self).max_bytes,
            final(self).max_items == old(self).max_items,
            final(self).low_water_bytes == old(self).low_water_bytes,
            match item {
                Some(item) => old(self).items@.len() > 0 && item == old(self).items@[0]
                    && final(self).items@ == old(self).items@.drop_first() && final(self).bytes
                    + item.size() == old(self).bytes,
                None => old(self).items@.len() == 0 && final(self).items@ == old(self).items@
                    && final(self).bytes == old(self).bytes,
            },
    {
        match self.items.pop_front() {
            Some(item) => {
                assert(self.items@ =~= old(self).items@.drop_first());
                self.bytes = self.bytes - item.byte_size();
                Some(item)
            },
            None => None,
        }
    }

    /// Puts an item behind the others, after making room as the policy says, or
    /// hands it back.
    pub fn push(&mut self, item: T, policy: OverflowPolicy) -> (result: Result<PushOutcome, T>)
        requires
            old(self).wf(),
        ensures
            final(self).wf(),
            match result {
                Ok(outcome) => {
                    &&& !old(self)@.refuses(item.size(), policy)
                    &&& final(self)@ == old(self)@.pushed(item, policy)
                    &&& outcome.dropped_items == old(self)@.displaced(item.size(), policy).0
                    &&& outcome.dropped_bytes == old(self)@.displaced(item.size(), policy).1
                    &&& outcome.dropped_bytes <= total(old(self)@.items)
                },
                Err(back) => old(self)@.refuses(item.size(), policy) && back == item
                    && final(self)@ == old(self)@,
            },
    {
        let item_bytes = item.byte_size();
        if self.closed || item_bytes > self.max_bytes {
            return Err(item);
        }
        let ghost before = self@;
        let ghost size = item.size();
        let ghost (max_bytes, max_items) = (self.max_bytes as nat, self.max_items as nat);
        let mut outcome = PushOutcome { dropped_items: 0, dropped_bytes: 0 };
        let count = self.items.len();
        if item_bytes > self.max_bytes - self.bytes || count >= self.max_items {
            match policy {
                OverflowPolicy::Reject => {
                    return Err(item);
                },
                OverflowPolicy::DropOldest => {
                    while item_bytes > self.max_bytes - self.bytes || self.items.len()
                        >= self.max_items
                        invariant_except_break
                            drop_oldest(before.items, size, max_bytes, max_items) == drop_oldest(
                                self.items@,
                                size,
                                max_bytes,
                                max_items,
                            ),
                        invariant
                            self.bytes == total(self.items@),
                            self.closed == before.closed,
                            self.max_bytes == max_bytes,
                            self.max_items == max_items,
                            max_bytes == before.max_bytes,
                            max_items == before.max_items,
                            self.low_water_bytes == self.max_bytes / 2,
                            self.bytes <= self.max_bytes,
                            count == before.items.len(),
                            item_bytes == size,
                            size <= max_bytes,
                            total(before.items) <= max_bytes,
                            outcome.dropped_items + self.items@.len() == before.items.len(),
                            outcome.dropped_bytes + self.bytes == total(before.items),
                        ensures
                            self.items@ == drop_oldest(before.items, size, max_bytes, max_items),
                        decreases self.items@.len(),
                    {
                        match self.take_front() {
                            None => {
                                break ;
                            },
                            Some(old_item) => {
                                outcome.dropped_items = outcome.dropped_items + 1;
                                outcome.dropped_bytes = outcome.dropped_bytes
                                    + old_item.byte_size();
                            },
                        }
                    }
                },
                OverflowPolicy::ClearToLowWater => {
                    while self.bytes > self.low_water_bytes || self.items.len() >= self.max_items
                        / 2 || item_bytes > self.max_bytes - self.bytes
                        invariant_except_break
                            clear_to_low_water(before.items, size, max_bytes, max_items)
                                == clear_to_low_water(self.items@, size, max_bytes, max_items),
                        invariant
                            self.bytes == total(self.items@),
                            self.closed == before.closed,
                            self.max_bytes == max_bytes,
                            self.max_items == max_items,
                            max_bytes == before.max_bytes,
                            max_items == before.max_items,
                            self.low_water_bytes == self.max_bytes / 2,
                            self.bytes <= self.max_bytes,
                            count == before.items.len(),
                            item_bytes == size,
                            size <= max_bytes,
                            total(before.items) <= max_bytes,
                            outcome.dropped_items + self.items@.len() == before.items.len(),
                            outcome.dropped_bytes + self.bytes == total(before.items),
                        ensures
                            self.items@ == clear_to_low_water(
                                before.items,
                                size,
                                max_bytes,
                                max_items,
                            ),
                        decreases self.items@.len(),
                    {
                        match self.take_front() {
                            None => {
                                break ;
                            },
                            Some(old_item) => {
                                outcome.dropped_items = outcome.dropped_items + 1;
                                outcome.dropped_bytes = outcome.dropped_bytes
                                    + old_item.byte_size();
                            },
                        }
                    }
                },
            }
        }
        proof {
            lemma_kept(before.items, size, max_bytes, max_items);
            lemma_total_push(self.items@, item);
            law_limits_are_kept(before, item, policy);
            assert(self.items@ == before.kept(size, policy));
        }
        self.bytes = self.bytes + item_bytes;
        self.items.push_back(item);
        assert(self@ =~= before.pushed(item, policy));
        Ok(outcome)
    }

    /// Takes the oldest item off, if there is one.
    pub fn try_pop(&mut self) -> (item: Option<T>)
        requires
            old(self).wf(),
        ensures
            final(self).wf(),
            match item {
                Some(item) => old(self)@.items.len() > 0 && item == old(self)@.items[0]
                    && final(self)@ == old(self)@.popped(),
                None => old(self)@.items.len() == 0 && final(self)@ == old(self)@,
            },
    {
        let item = self.take_front();
        assert(item is Some ==> self@ =~= old(self)@.popped());
        assert(item is None ==> self@ =~= old(self)@);
        item
    }

    /// What a consumer that is ready to wait is told; `expired` says that its time
    /// is up.
    pub fn pop_timeout(&mut self, expired: bool) -> (outcome: PopOutcome<T>)
        requires
            old(self).wf(),
        ensures
            final(self).wf(),
            match outcome {
                PopOutcome::Item(item) => old(self)@.items.len() > 0 && item == old(self)@.items[0]
                    && final(self)@ == old(self)@.popped(),
                PopOutcome::Ended => old(self)@.items.len() == 0 && (old(self)@.closed || expired)
                    && final(self)@ == old(self)@,
                PopOutcome::Wait => old(self)@.items.len() == 0 && !old(self)@.closed && !expired
                    && final(self)@ == old(self)@,
            },
    {
        match self.try_pop() {
            Some(item) => PopOutcome::Item(item),
            None => if self.closed || expired {
                PopOutcome::Ended
            } else {
                PopOutcome::Wait
            },
        }
    }

    /// Refuses every further item; what is there can still be taken.
    pub fn close(&mut self)
        requires
            old(self).wf(),
        ensures
            final(self).wf(),
            final(self)@ == (QueueState { closed: true, ..old(self)@ }),
    {
        self.closed = true;
        assert(self@.items =~= old(self)@.items);
    }

    /// The bytes of all items together.
    pub fn depth_bytes(&self) -> (bytes: usize)
        requires
            self.wf(),
        ensures
            bytes == total(self@.items),
    {
        self.bytes
    }

    /// How many items there are.
    pub fn depth_items(&self) -> (items: usize)
        ensures
            items == self@.items.len(),
    {
        self.items.len()
    }
}

/// The bytes of items are those of their parts together, and a single item counts as its
/// size.
pub proof fn law_bytes_add_up<T: ByteSize>(left: Seq<T>, right: Seq<T>, item: T)
    ensures
        total(left + right) == total(left) + total(right),
        total(seq![item]) == item.size(),
        total(Seq::<T>::empty()) == 0,
    decreases left.len(),
{
    assert(seq![item].drop_first() =~= Seq::<T>::empty());
    assert(total(seq![item].drop_first()) == 0);
    if left.len() == 0 {
        assert(left + right =~= right);
    } else {
        assert((left + right).drop_first() =~= left.drop_first() + right);
        law_bytes_add_up(left.drop_first(), right, item);
    }
}

/// Whether items behind which another one comes are too many or too large.
pub open spec fn too_much<T: ByteSize>(items: Seq<T>, item: T, max_bytes: nat, max_items: nat) -> bool {
    total(items) + item.size() > max_bytes || items.len() + 1 > max_items
}

/// Whether items are more than half of what a queue may hold, or leave no room for another.
pub open spec fn above_low_water<T: ByteSize>(
    items: Seq<T>,
    item: T,
    max_bytes: nat,
    max_items: nat,
) -> bool {
    ||| 2 * total(items) > max_bytes
    ||| items.len() >= max_items / 2
    ||| total(items) + item.size() > max_bytes
}

proof fn lemma_dropped<T: ByteSize>(items: Seq<T>, item: T, max_bytes: nat, max_items: nat)
    ensures
        ({
            let kept = drop_oldest(items, item.size(), max_bytes, max_items);
            let gone = items.len() - kept.len();
            &&& 0 <= gone
            &&& kept == items.skip(gone)
            &&& kept.len() > 0 ==> !too_much(kept, item, max_bytes, max_items)
            &&& gone > 0 ==> too_much(items.skip(gone - 1), item, max_bytes, max_items)
        }),
        ({
            let kept = clear_to_low_water(items, item.size(), max_bytes, max_items);
            let gone = items.len() - kept.len();
            &&& 0 <= gone
            &&& kept == items.skip(gone)
            &&& kept.len() > 0 ==> !above_low_water(kept, item, max_bytes, max_items)
            &&& gone > 0 ==> above_low_water(items.skip(gone - 1), item, max_bytes, max_items)
        }),
    decreases items.len(),
{
    let rest = items.drop_first();
    assert(items.skip(0) =~= items);
    if items.len() > 0 {
        lemma_dropped(rest, item, max_bytes, max_items);
        let dropped = drop_oldest(rest, item.size(), max_bytes, max_items);
        let cleared = clear_to_low_water(rest, item.size(), max_bytes, max_items);
        let gone = rest.len() - dropped.len();
        let left = rest.len() - cleared.len();
        assert(rest.skip(gone) =~= items.skip(gone + 1));
        assert(rest.skip(left) =~= items.skip(left + 1));
        if gone > 0 {
            assert(rest.skip(gone - 1) =~= items.skip(gone));
        }
        if left > 0 {
            assert(rest.skip(left - 1) =~= items.skip(left));
        }
    }
}

/// Pushing refuses an item only where the queue is closed, the item is larger than the whole
/// queue, or nothing may be displaced for it. Otherwise the item comes last; the oldest items
/// leave, no more of them than the policy asks for, and what they held is reported.
pub proof fn law_a_push_displaces_no_more_than_it_must<T: ByteSize>(
    queue: &mut ByteQueue<T>,
    item: T,
    policy: OverflowPolicy,
    result: Result<PushOutcome, T>,
)
    requires
        old(queue).wf(),
        call_ensures(ByteQueue::<T>::push, (queue, item, policy), result),
    ensures
        final(queue)@.max_bytes == old(queue)@.max_bytes,
        final(queue)@.max_items == old(queue)@.max_items,
        final(queue)@.closed == old(queue)@.closed,
        ({
            let before = old(queue)@;
            let full = too_much(before.items, item, before.max_bytes, before.max_items);
            result is Err <==> {
                ||| before.closed
                ||| item.size() > before.max_bytes
                ||| policy == OverflowPolicy::Reject && full
            }
        }),
        result matches Err(back) ==> back == item && final(queue)@.items == old(queue)@.items,
        result matches Ok(outcome) ==> {
            let before = old(queue)@;
            let gone = outcome.dropped_items as int;
            let full = too_much(before.items, item, before.max_bytes, before.max_items);
            &&& 0 <= gone <= before.items.len()
            &&& final(queue)@.items == before.items.skip(gone).push(item)
            &&& outcome.dropped_bytes == total(before.items.take(gone))
            &&& !full ==> gone == 0
            &&& full && policy == OverflowPolicy::DropOldest ==> {
                &&& gone < before.items.len() ==> !too_much(
                    before.items.skip(gone),
                    item,
                    before.max_bytes,
                    before.max_items,
                )
                &&& gone > 0 ==> too_much(
                    before.items.skip(gone - 1),
                    item,
                    before.max_bytes,
                    before.max_items,
                )
            }
            &&& full && policy == OverflowPolicy::ClearToLowWater ==> {
                &&& gone < before.items.len() ==> !above_low_water(
                    before.items.skip(gone),
                    item,
                    before.max_bytes,
                    before.max_items,
                )
                &&& gone > 0 ==> above_low_water(
                    before.items.skip(gone - 1),
                    item,
                    before.max_bytes,
                    before.max_items,
                )
            }
        },
{
    let before = old(queue)@;
    lemma_dropped(before.items, item, before.max_bytes, before.max_items);
    if let Ok(outcome) = result {
        let gone = outcome.dropped_items as int;
        let kept = before.kept(item.size(), policy);
        assert(before.items.skip(0) =~= before.items);
        law_only_the_oldest_leave(before, item.size(), policy);
        assert(kept =~= before.items.skip(gone));
        assert(before.items.take(gone) + before.items.skip(gone) =~= before.items);
        law_bytes_add_up(before.items.take(gone), before.items.skip(gone), item);
    }
}

/// First in, first out: what was put into a new queue comes out in the order in which it went
/// in, and then nothing more. A queue that was closed still hands out what it holds, and then
/// tells that nothing will come.
pub proof fn law_first_in_first_out<T: ByteSize>(
    max_bytes: usize,
    max_items: usize,
    created: ByteQueue<T>,
    first: &mut ByteQueue<T>,
    second: &mut ByteQueue<T>,
    closed: &mut ByteQueue<T>,
    popped: &mut ByteQueue<T>,
    waited: &mut ByteQueue<T>,
    ended: &mut ByteQueue<T>,
    items: (T, T),
    policy: OverflowPolicy,
    results: (Result<PushOutcome, T>, Result<PushOutcome, T>),
    out: (Option<T>, PopOutcome<T>, PopOutcome<T>),
)
    requires
        items.0.size() + items.1.size() <= max_bytes,
        max_items >= 2,
        call_ensures(ByteQueue::<T>::new, (max_bytes, max_items), created),
        *old(first) == created,
        call_ensures(ByteQueue::<T>::push, (first, items.0, policy), results.0),
        *old(second) == *final(first),
        call_ensures(ByteQueue::<T>::push, (second, items.1, policy), results.1),
        *old(closed) == *final(second),
        call_ensures(ByteQueue::<T>::close, (closed,), ()),
        *old(popped) == *final(closed),
        call_ensures(ByteQueue::<T>::try_pop, (popped,), out.0),
        *old(waited) == *final(popped),
        call_ensures(ByteQueue::<T>::pop_timeout, (waited, false), out.1),
        *old(ended) == *final(waited),
        call_ensures(ByteQueue::<T>::pop_timeout, (ended, false), out.2),
    ensures
        results.0 is Ok,
        results.1 is Ok,
        out.0 == Some(items.0),
        out.1 == PopOutcome::Item(items.1),
        out.2 is Ended,
{
    law_bytes_add_up(Seq::<T>::empty(), Seq::<T>::empty(), items.0);
    let none = Seq::<T>::empty();
    law_a_push_displaces_no_more_than_it_must(first, items.0, policy, results.0);
    assert(none.skip(0).push(items.0) =~= seq![items.0]);
    law_a_push_displaces_no_more_than_it_must(second, items.1, policy, results.1);
    assert(seq![items.0].skip(0) =~= seq![items.0]);
    assert(old(closed)@.items =~= seq![items.0, items.1]);
    assert(final(popped)@.items =~= seq![items.1]);
    assert(final(waited)@.items =~= Seq::<T>::empty());
}

} // verus!
