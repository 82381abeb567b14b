//! Per-channel transforms, some of which remember earlier values.

use crate::ident::Uuid;
use crate::math::{evaluates, Operation, SampleMath};
use crate::model::{ResetReason, TransformSpec};
use std::collections::VecDeque;
use vstd::prelude::*;

verus! {

/// Whose memory it is: that of one transform of one channel of one source.
#[derive(Debug, Clone, Copy, PartialEq, Eq, Structural)]
pub struct TransformKey {
    pub source_id: Uuid,
    pub channel_id: Uuid,
    pub transform_id: Uuid,
}

/// What a transform remembers.
#[verifier::ext_equal]
pub enum TransformMemory<V> {
    /// The last value that came out.
    Ema(V),
    /// The values in the window, oldest first, and their running sum.
    MovingAverage { values: Seq<V>, sum: V },
    /// The last value that went in, and when.
    Derivative { value: V, time_ns: i64 },
}

/// Everything that is remembered.
pub type Memories<V> = Map<TransformKey, TransformMemory<V>>;

/// The values and the sum that are left once a window is down to its limit.
pub open spec fn trimmed<V, M: SampleMath<V>>(
    math: &M,
    values: Seq<V>,
    sum: V,
    limit: nat,
    kept: Seq<V>,
    kept_sum: V,
) -> bool
    decreases values.len(),
{
    if values.len() <= limit {
        kept == values && kept_sum == sum
    } else {
        exists|less: V|
            {
                &&& #[trigger] evaluates(
                    math,
                    Operation::Difference { left: sum, right: values[0] },
                    less,
                )
                &&& trimmed(math, values.drop_first(), less, limit, kept, kept_sum)
            }
    }
}

/// How many values a moving average of some window looks at.
pub open spec fn window_limit(window: usize) -> nat {
    if window == 0 {
        1
    } else {
        window as nat
    }
}

/// The window before a value enters it.
pub open spec fn window_before<V, M: SampleMath<V>>(
    math: &M,
    memories: Memories<V>,
    key: TransformKey,
    values: Seq<V>,
    sum: V,
) -> bool {
    if memories.dom().contains(key) {
        memories[key] == (TransformMemory::MovingAverage { values, sum })
    } else {
        values == Seq::<V>::empty() && evaluates(math, Operation::Zero, sum)
    }
}

/// A value enters a window and becomes the mean of what the window then holds.
pub open spec fn window_step<V, M: SampleMath<V>>(
    math: &M,
    window: usize,
    values: Seq<V>,
    sum: V,
    value: V,
    kept: Seq<V>,
    kept_sum: V,
    next: V,
) -> bool {
    exists|grown: V|
        {
            &&& #[trigger] evaluates(math, Operation::Sum { left: sum, right: value }, grown)
            &&& trimmed(math, values.push(value), grown, window_limit(window), kept, kept_sum)
            &&& evaluates(math, Operation::Mean { sum: kept_sum, count: kept.len() as usize }, next)
        }
}

/// One transform takes a value to the next one and updates its memory. A transform
/// whose memory is of another kind leaves both alone.
pub open spec fn transform_step<V, M: SampleMath<V>>(
    math: &M,
    key: TransformKey,
    spec: TransformSpec<V>,
    time_ns: i64,
    value: V,
    memories: Memories<V>,
    next: V,
    after: Memories<V>,
) -> bool {
    let known = memories.dom().contains(key);
    match spec {
        TransformSpec::ScaleBias { scale, bias, .. } => {
            &&& evaluates(math, Operation::ScaleBias { value, scale, bias }, next)
            &&& after == memories
        },
        TransformSpec::Ema { alpha, .. } => {
            if known && !(memories[key] is Ema) {
                next == value && after == memories
            } else {
                &&& if known {
                    evaluates(
                        math,
                        Operation::Blend { value, old: memories[key]->Ema_0, alpha },
                        next,
                    )
                } else {
                    next == value
                }
                &&& after == memories.insert(key, TransformMemory::Ema(next))
            }
        },
        TransformSpec::MovingAverage { window, .. } => {
            if known && !(memories[key] is MovingAverage) {
                next == value && after == memories
            } else {
                exists|values: Seq<V>, sum: V, kept: Seq<V>, kept_sum: V|
                    {
                        &&& #[trigger] window_before(math, memories, key, values, sum)
                        &&& #[trigger] window_step(
                            math,
                            window,
                            values,
                            sum,
                            value,
                            kept,
                            kept_sum,
                            next,
                        )
                        &&& after == memories.insert(
                            key,
                            TransformMemory::MovingAverage { values: kept, sum: kept_sum },
                        )
                    }
            }
        },
        TransformSpec::Derivative { .. } => {
            if known && !(memories[key] is Derivative) {
                next == value && after == memories
            } else {
                &&& if known && time_ns > memories[key]->time_ns {
                    evaluates(
                        math,
                        Operation::Slope {
                            value,
                            old: memories[key]->Derivative_value,
                            elapsed_ns: (time_ns - memories[key]->time_ns) as u64,
                        },
                        next,
                    )
                } else {
                    evaluates(math, Operation::Zero, next)
                }
                &&& after == memories.insert(key, TransformMemory::Derivative { value, time_ns })
            }
        },
    }
}

/// The key of a transform of a channel.
pub open spec fn transform_key<V>(
    source_id: Uuid,
    channel_id: Uuid,
    spec: TransformSpec<V>,
) -> TransformKey {
    TransformKey { source_id, channel_id, transform_id: spec.id_spec() }
}

/// A chain of transforms takes a value to a result: some run of intermediate values
/// and memories leads from one to the other, one step for each transform.
pub open spec fn transformed<V, M: SampleMath<V>>(
    math: &M,
    source_id: Uuid,
    channel_id: Uuid,
    specs: Seq<TransformSpec<V>>,
    time_ns: i64,
    value: V,
    memories: Memories<V>,
    result: V,
    after: Memories<V>,
) -> bool
    decreases specs.len(),
{
    if specs.len() == 0 {
        result == value && after == memories
    } else {
        exists|last: V, before_last: Memories<V>|
            {
                &&& transformed(
                    math,
                    source_id,
                    channel_id,
                    specs.drop_last(),
                    time_ns,
                    value,
                    memories,
                    last,
                    before_last,
                )
                &&& #[trigger] transform_step(
                    math,
                    transform_key(source_id, channel_id, specs.last()),
                    specs.last(),
                    time_ns,
                    last,
                    before_last,
                    result,
                    after,
                )
            }
    }
}

/// Trimming leaves no more than the limit.
proof fn lemma_trimmed_bound<V, M: SampleMath<V>>(
    math: &M,
    values: Seq<V>,
    sum: V,
    limit: nat,
    kept: Seq<V>,
    kept_sum: V,
)
    requires
        trimmed(math, values, sum, limit, kept, kept_sum),
    ensures
        kept.len() <= limit,
        kept.is_suffix_of(values),
    decreases values.len(),
{
    if values.len() > limit {
        let less = choose|less: V|
            {
                &&& #[trigger] evaluates(
                    math,
                    Operation::Difference { left: sum, right: values[0] },
                    less,
                )
                &&& trimmed(math, values.drop_first(), less, limit, kept, kept_sum)
            };
        let rest = values.drop_first();
        lemma_trimmed_bound(math, rest, less, limit, kept, kept_sum);
        assert(values.subrange((values.len() - kept.len()) as int, values.len() as int)
            =~= rest.subrange((rest.len() - kept.len()) as int, rest.len() as int));
    } else {
        assert(values.subrange(0, values.len() as int) =~= values);
    }
}

/// A moving average never remembers more values than its window has, and they are
/// the newest.
pub proof fn law_moving_average_stays_in_its_window<V, M: SampleMath<V>>(
    math: &M,
    key: TransformKey,
    id: Uuid,
    window: usize,
    time_ns: i64,
    value: V,
    memories: Memories<V>,
    next: V,
    after: Memories<V>,
)
    requires
        !memories.dom().contains(key) || memories[key] is MovingAverage,
        transform_step(
            math,
            key,
            TransformSpec::MovingAverage { id, window },
            time_ns,
            value,
            memories,
            next,
            after,
        ),
    ensures
        after.dom().contains(key),
        after[key] is MovingAverage,
        after[key]->values.len() <= window_limit(window),
        after[key]->values.is_suffix_of(
            (if memories.dom().contains(key) {
                memories[key]->values
            } else {
                Seq::<V>::empty()
            }).push(value),
        ),
{
    let (values, sum, kept, kept_sum) = choose|
        values: Seq<V>,
        sum: V,
        kept: Seq<V>,
        kept_sum: V,
    |
        {
            &&& #[trigger] window_before(math, memories, key, values, sum)
            &&& #[trigger] window_step(math, window, values, sum, value, kept, kept_sum, next)
            &&& after == memories.insert(
                key,
                TransformMemory::MovingAverage { values: kept, sum: kept_sum },
            )
        };
    let grown = choose|grown: V|
        {
            &&& #[trigger] evaluates(math, Operation::Sum { left: sum, right: value }, grown)
            &&& trimmed(math, values.push(value), grown, window_limit(window), kept, kept_sum)
            &&& evaluates(math, Operation::Mean { sum: kept_sum, count: kept.len() as usize }, next)
        };
    lemma_trimmed_bound(math, values.push(value), grown, window_limit(window), kept, kept_sum);
}

/// What happens on one channel of one source leaves the memory of every other
/// channel and source alone.
pub proof fn law_channels_do_not_disturb_each_other<V, M: SampleMath<V>>(
    math: &M,
    source_id: Uuid,
    channel_id: Uuid,
    specs: Seq<TransformSpec<V>>,
    time_ns: i64,
    value: V,
    memories: Memories<V>,
    result: V,
    after: Memories<V>,
    other: TransformKey,
)
    requires
        transformed(
            math,
            source_id,
            channel_id,
            specs,
            time_ns,
            value,
            memories,
            result,
            after,
        ),
        other.source_id != source_id || other.channel_id != channel_id,
    ensures
        after.dom().contains(other) == memories.dom().contains(other),
        memories.dom().contains(other) ==> after[other] == memories[other],
    decreases specs.len(),
{
    if specs.len() > 0 {
        let (last, before_last) = choose|last: V, before_last: Memories<V>|
            {
                &&& transformed(
                    math,
                    source_id,
                    channel_id,
                    specs.drop_last(),
                    time_ns,
                    value,
                    memories,
                    last,
                    before_last,
                )
                &&& #[trigger] transform_step(
                    math,
                    transform_key(source_id, channel_id, specs.last()),
                    specs.last(),
                    time_ns,
                    last,
                    before_last,
                    result,
                    after,
                )
            };
        law_channels_do_not_disturb_each_other(
            math,
            source_id,
            channel_id,
            specs.drop_last(),
            time_ns,
            value,
            memories,
            last,
            before_last,
            other,
        );
    }
}

/// What a transform remembers, in executable form.
enum TransformState<V> {
    Ema(V),
    MovingAverage { values: VecDeque<V>, sum: V },
    Derivative { value: V, time_ns: i64 },
}

impl<V> View for TransformState<V> {
    type V = TransformMemory<V>;

    closed spec fn view(&self) -> TransformMemory<V> {
        match self {
            TransformState::Ema(value) => TransformMemory::Ema(*value),
            TransformState::MovingAverage { values, sum } => TransformMemory::MovingAverage {
                values: values@,
                sum: *sum,
            },
            TransformState::Derivative { value, time_ns } => TransformMemory::Derivative {
                value: *value,
                time_ns: *time_ns,
            },
        }
    }
}

/// What all transforms remember, by key.
pub struct TransformTable<V> {
    states: Vec<(TransformKey, TransformState<V>)>,
}

/// Whether filters have to warm up again after everything was forgotten.
pub open spec fn warms_up(reason: ResetReason) -> bool {
    reason == ResetReason::ReplaySeek || reason == ResetReason::StreamGap || reason
        == ResetReason::EpochChanged
}

/// Applies transforms and remembers what they need.
pub struct TransformEngine<V> {
    pub states: TransformTable<V>,
    pub last_reset: Option<ResetReason>,
    pub warming: bool,
}

spec fn holds_key<V>(states: Seq<(TransformKey, TransformState<V>)>, key: TransformKey) -> bool {
    exists|i: int| 0 <= i < states.len() && (#[trigger] states[i]).0 == key
}

spec fn key_place<V>(states: Seq<(TransformKey, TransformState<V>)>, key: TransformKey) -> int {
    choose|i: int| 0 <= i < states.len() && (#[trigger] states[i]).0 == key
}

spec fn distinct<V>(states: Seq<(TransformKey, TransformState<V>)>) -> bool {
    forall|i: int, j: int|
        0 <= i < j < states.len() ==> (#[trigger] states[i]).0 != (#[trigger] states[j]).0
}

spec fn remembered<V>(states: Seq<(TransformKey, TransformState<V>)>) -> Memories<V> {
    Map::new(|key: TransformKey| holds_key(states, key), |key: TransformKey|
        states[key_place(states, key)].1@)
}

proof fn lemma_place<V>(states: Seq<(TransformKey, TransformState<V>)>, i: int)
    requires
        distinct(states),
        0 <= i < states.len(),
    ensures
        remembered(states).dom().contains(states[i].0),
        remembered(states)[states[i].0] == states[i].1@,
{
    let key = states[i].0;
    assert(holds_key(states, key));
    let k = key_place(states, key);
    assert(states[k].0 == key);
    if k < i {
        assert(states[k].0 != states[i].0);
    }
    if i < k {
        assert(states[i].0 != states[k].0);
    }
}

impl<V> View for TransformTable<V> {
    type V = Memories<V>;

    closed spec fn view(&self) -> Memories<V> {
        remembered(self.states@)
    }
}

impl<V: Copy> TransformTable<V> {
    /// Each key occurs once.
    pub closed spec fn wf(&self) -> bool {
        distinct(self.states@)
    }

    /// A table without entries.
    fn new() -> (table: TransformTable<V>)
        ensures
            table.wf(),
            table@ == Memories::<V>::empty(),
    {
        let table = TransformTable { states: Vec::new() };
        assert(table@ =~= Memories::<V>::empty());
        table
    }

    /// Takes the memory of a key out.
    fn take(&mut self, key: TransformKey) -> (state: Option<TransformState<V>>)
        requires
            old(self).wf(),
        ensures
            final(self).wf(),
            final(self)@ == old(self)@.remove(key),
            match state {
                Some(state) => old(self)@.dom().contains(key) && old(self)@[key] == state@,
                None => !old(self)@.dom().contains(key),
            },
    {
        let ghost before = self.states@;
        let mut i: usize = 0;
        while i < self.states.len() && self.states[i].0 != key
            invariant
                i <= self.states@.len(),
                self.states@ == before,
                forall|j: int| 0 <= j < i ==> (#[trigger] self.states@[j]).0 != key,
            decreases self.states@.len() - i,
        {
            i += 1;
        }
        if i < self.states.len() {
            proof {
                lemma_place(before, i as int);
            }
            let (_, state) = self.states.remove(i);
            proof {
                let states = self.states@;
                assert(states =~= before.remove(i as int));
                assert(distinct(states));
                assert forall|other: TransformKey| #[trigger]
                    remembered(states).dom().contains(other) == remembered(before).remove(
                        key,
                    ).dom().contains(other) by {
                    if holds_key(states, other) {
                        let k = key_place(states, other);
                        if k < i {
                            assert(before[k].0 == other);
                        } else {
                            assert(before[k + 1].0 == other);
                        }
                    }
                    if holds_key(before, other) && other != key {
                        let k = key_place(before, other);
                        if k < i {
                            assert(states[k].0 == other);
                        } else {
                            assert(states[k - 1].0 == other);
                        }
                    }
                }
                assert forall|other: TransformKey| #[trigger]
                    remembered(states).dom().contains(other) implies remembered(states)[other]
                    == remembered(before).remove(key)[other] by {
                    let k = key_place(states, other);
                    lemma_place(states, k);
                    if k < i {
                        lemma_place(before, k);
                    } else {
                        lemma_place(before, k + 1);
                    }
                }
                assert(remembered(states) =~= remembered(before).remove(key));
            }
            Some(state)
        } else {
            proof {
                if holds_key(before, key) {
                    let k = key_place(before, key);
                    assert(before[k].0 == key);
                }
                assert(remembered(before).remove(key) =~= remembered(before));
            }
            None
        }
    }

    /// Puts the memory of a key in.
    fn put(&mut self, key: TransformKey, state: TransformState<V>)
        requires
            old(self).wf(),
            !old(self)@.dom().contains(key),
        ensures
            final(self).wf(),
            final(self)@ == old(self)@.insert(key, state@),
    {
        let ghost before = self.states@;
        self.states.push((key, state));
        proof {
            let states = self.states@;
            assert(distinct(states)) by {
                assert forall|i: int, j: int| 0 <= i < j < states.len() implies (
                #[trigger] states[i]).0 != (#[trigger] states[j]).0 by {
                    assert(states[i] == before[i]);
                    if j == before.len() {
                        if states[i].0 == key {
                            assert(before[i].0 == key);
                            assert(holds_key(before, key));
                        }
                    } else {
                        assert(states[j] == before[j]);
                    }
                }
            }
            lemma_place(states, before.len() as int);
            assert forall|other: TransformKey| #[trigger]
                remembered(states).dom().contains(other) == remembered(before).insert(
                    key,
                    state@,
                ).dom().contains(other) by {
                if holds_key(states, other) && other != key {
                    let k = key_place(states, other);
                    assert(before[k].0 == other);
                }
                if holds_key(before, other) {
                    let k = key_place(before, other);
                    assert(states[k].0 == other);
                }
            }
            assert forall|other: TransformKey| #[trigger]
                remembered(states).dom().contains(other) implies remembered(states)[other]
                == remembered(before).insert(key, state@)[other] by {
                if other != key {
                    let k = key_place(states, other);
                    lemma_place(states, k);
                    lemma_place(before, k);
                }
            }
            assert(remembered(states) =~= remembered(before).insert(key, state@));
        }
    }
}

impl<V: Copy> Default for TransformEngine<V> {
    fn default() -> (engine: TransformEngine<V>)
        ensures
            engine.wf(),
            engine.memories() == Memories::<V>::empty(),
            engine.last_reset is None,
            !engine.warming,
    {
        TransformEngine::new()
    }
}

impl<V: Copy> TransformEngine<V> {
    /// Each key occurs once.
    pub open spec fn wf(&self) -> bool {
        self.states.wf()
    }

    /// What is remembered.
    pub open spec fn memories(&self) -> Memories<V> {
        self.states@
    }

    /// An engine that remembers nothing.
    pub fn new() -> (engine: TransformEngine<V>)
        ensures
            engine.wf(),
            engine.memories() == Memories::<V>::empty(),
            engine.last_reset is None,
            !engine.warming,
    {
        TransformEngine { states: TransformTable::new(), last_reset: None, warming: false }
    }

    /// Forgets everything, and notes why.
    pub fn reset(&mut self, reason: ResetReason)
        ensures
            final(self).wf(),
            final(self).memories() == Memories::<V>::empty(),
            final(self).last_reset == Some(reason),
            final(self).warming == warms_up(reason),
    {
        self.states = TransformTable::new();
        self.last_reset = Some(reason);
        self.warming =
        matches!(
            reason,
            ResetReason::ReplaySeek | ResetReason::StreamGap | ResetReason::EpochChanged
        );
    }

    /// Brings a window down to its limit.
    fn trim<M: SampleMath<V>>(values: &mut VecDeque<V>, sum: V, limit: usize, math: &M) -> (kept_sum: V)
        ensures
            trimmed(math, old(values)@, sum, limit as nat, final(values)@, kept_sum),
    {
        let mut rest: V = sum;
        let ghost start = values@;
        while values.len() > limit
            invariant
                forall|kept: Seq<V>, kept_sum: V|
                    #![trigger trimmed(math, values@, rest, limit as nat, kept, kept_sum)]
                    trimmed(math, values@, rest, limit as nat, kept, kept_sum) ==> trimmed(
                        math,
                        start,
                        sum,
                        limit as nat,
                        kept,
                        kept_sum,
                    ),
            decreases values@.len(),
        {
            let ghost before = values@;
            let ghost before_sum = rest;
            match values.pop_front() {
                Some(removed) => {
                    assert(values@ =~= before.drop_first());
                    rest = math.evaluate(Operation::Difference { left: rest, right: removed });
                    assert(evaluates(
                        math,
                        Operation::Difference { left: before_sum, right: before[0] },
                        rest,
                    ));
                    assert forall|kept: Seq<V>, kept_sum: V|
                        #![trigger trimmed(math, values@, rest, limit as nat, kept, kept_sum)]
                        trimmed(
                            math,
                            values@,
                            rest,
                            limit as nat,
                            kept,
                            kept_sum,
                        ) implies trimmed(math, start, sum, limit as nat, kept, kept_sum) by {
                        assert(trimmed(math, before, before_sum, limit as nat, kept, kept_sum));
                    }
                },
                None => {},
            }
        }
        assert(trimmed(math, values@, rest, limit as nat, values@, rest));
        rest
    }

    /// One transform.
    fn step<M: SampleMath<V>>(
        &mut self,
        key: TransformKey,
        spec: &TransformSpec<V>,
        value: V,
        timestamp_ns: i64,
        math: &M,
    ) -> (next: V)
        requires
            old(self).wf(),
        ensures
            final(self).wf(),
            final(self).last_reset == old(self).last_reset,
            transform_step(
                math,
                key,
                *spec,
                timestamp_ns,
                value,
                old(self).memories(),
                next,
                final(self).memories(),
            ),
    {
        let ghost before = self.memories();
        match spec {
            TransformSpec::ScaleBias { scale, bias, .. } => math.evaluate(
                Operation::ScaleBias { value, scale: *scale, bias: *bias },
            ),
            TransformSpec::Ema { alpha, .. } => {
                match self.states.take(key) {
                    None => {
                        self.states.put(key, TransformState::Ema(value));
                        assert(self.memories() =~= before.insert(key, TransformMemory::Ema(value)));
                        value
                    },
                    Some(TransformState::Ema(previous)) => {
                        let next = math.evaluate(
                            Operation::Blend { value, old: previous, alpha: *alpha },
                        );
                        self.states.put(key, TransformState::Ema(next));
                        assert(self.memories() =~= before.insert(key, TransformMemory::Ema(next)));
                        next
                    },
                    Some(other) => {
                        self.states.put(key, other);
                        assert(self.memories() =~= before);
                        value
                    },
                }
            },
            TransformSpec::MovingAverage { window, .. } => {
                let (mut values, sum) = match self.states.take(key) {
                    None => {
                        let zero = math.evaluate(Operation::Zero);
                        let values: VecDeque<V> = VecDeque::new();
                        assert(values@ =~= Seq::<V>::empty());
                        (values, zero)
                    },
                    Some(TransformState::MovingAverage { values, sum }) => (values, sum),
                    Some(other) => {
                        self.states.put(key, other);
                        assert(self.memories() =~= before);
                        return value;
                    },
                };
                let ghost held = values@;
                assert(window_before(math, before, key, held, sum));
                values.push_back(value);
                let grown = math.evaluate(Operation::Sum { left: sum, right: value });
                assert(evaluates(math, Operation::Sum { left: sum, right: value }, grown));
                let limit: usize = if *window == 0 {
                    1
                } else {
                    *window
                };
                let kept_sum = Self::trim(&mut values, grown, limit, math);
                let next = math.evaluate(Operation::Mean { sum: kept_sum, count: values.len() });
                let ghost kept = values@;
                assert(window_step(math, *window, held, sum, value, kept, kept_sum, next));
                self.states.put(key, TransformState::MovingAverage { values, sum: kept_sum });
                assert(self.memories() =~= before.insert(
                    key,
                    TransformMemory::MovingAverage { values: kept, sum: kept_sum },
                ));
                next
            },
            TransformSpec::Derivative { .. } => {
                let next = match self.states.take(key) {
                    None => math.evaluate(Operation::Zero),
                    Some(TransformState::Derivative { value: previous, time_ns }) => {
                        if timestamp_ns > time_ns {
                            let elapsed = (timestamp_ns as i128 - time_ns as i128) as u64;
                            math.evaluate(
                                Operation::Slope { value, old: previous, elapsed_ns: elapsed },
                            )
                        } else {
                            math.evaluate(Operation::Zero)
                        }
                    },
                    Some(other) => {
                        self.states.put(key, other);
                        assert(self.memories() =~= before);
                        return value;
                    },
                };
                self.states.put(key, TransformState::Derivative { value, time_ns: timestamp_ns });
                assert(self.memories() =~= before.insert(
                    key,
                    TransformMemory::Derivative { value, time_ns: timestamp_ns },
                ));
                next
            },
        }
    }

    /// Takes a value through the transforms of a channel, in order.
    pub fn apply<M: SampleMath<V>>(
        &mut self,
        source_id: Uuid,
        channel_id: Uuid,
        specs: &[TransformSpec<V>],
        value: V,
        timestamp_ns: i64,
        math: &M,
    ) -> (result: V)
        requires
            old(self).wf(),
        ensures
            final(self).wf(),
            final(self).last_reset == old(self).last_reset,
            !final(self).warming,
            transformed(
                math,
                source_id,
                channel_id,
                specs@,
                timestamp_ns,
                value,
                old(self).memories(),
                result,
                final(self).memories(),
            ),
    {
        let mut current: V = value;
        let mut i: usize = 0;
        let ghost before = self.memories();
        assert(specs@.take(0) =~= Seq::<TransformSpec<V>>::empty());
        while i < specs.len()
            invariant
                i <= specs@.len(),
                self.wf(),
                self.last_reset == old(self).last_reset,
                transformed(
                    math,
                    source_id,
                    channel_id,
                    specs@.take(i as int),
                    timestamp_ns,
                    value,
                    before,
                    current,
                    self.memories(),
                ),
            decreases specs@.len() - i,
        {
            let spec = &specs[i];
            let key = TransformKey { source_id, channel_id, transform_id: spec.id() };
            let ghost held = self.memories();
            let next = self.step(key, spec, current, timestamp_ns, math);
            proof {
                let longer = specs@.take(i + 1);
                assert(longer.drop_last() =~= specs@.take(i as int));
                assert(longer.last() == *spec);
                assert(transform_step(
                    math,
                    transform_key(source_id, channel_id, longer.last()),
                    longer.last(),
                    timestamp_ns,
                    current,
                    held,
                    next,
                    self.memories(),
                ));
            }
            current = next;
            i += 1;
        }
        assert(specs@.take(specs@.len() as int) =~= specs@);
        self.warming = false;
        current
    }
}

/// A value that went through the transforms of a channel, when, and what came out.
pub struct TransformCall<V> {
    pub time_ns: i64,
    pub value: V,
    pub result: V,
}

/// Values that went through the transforms of one channel, one after the other, from when
/// nothing was remembered of it.
pub open spec fn applied_in_turn<V, M: SampleMath<V>>(
    math: &M,
    source_id: Uuid,
    channel_id: Uuid,
    specs: Seq<TransformSpec<V>>,
    memories: Seq<Memories<V>>,
    calls: Seq<TransformCall<V>>,
) -> bool {
    &&& memories.len() == calls.len() + 1
    &&& forall|key: TransformKey|
        key.source_id == source_id && key.channel_id == channel_id
            ==> !#[trigger] memories[0].dom().contains(key)
    &&& forall|i: int|
        #![trigger calls[i]]
        0 <= i < calls.len() ==> transformed(
            math,
            source_id,
            channel_id,
            specs,
            calls[i].time_ns,
            calls[i].value,
            memories[i],
            calls[i].result,
            memories[i + 1],
        )
}

/// A chain of one transform is that transform.
proof fn lemma_single<V, M: SampleMath<V>>(
    math: &M,
    source_id: Uuid,
    channel_id: Uuid,
    spec: TransformSpec<V>,
    time_ns: i64,
    value: V,
    memories: Memories<V>,
    result: V,
    after: Memories<V>,
)
    requires
        transformed(
            math,
            source_id,
            channel_id,
            seq![spec],
            time_ns,
            value,
            memories,
            result,
            after,
        ),
    ensures
        transform_step(
            math,
            transform_key(source_id, channel_id, spec),
            spec,
            time_ns,
            value,
            memories,
            result,
            after,
        ),
{
    let specs = seq![spec];
    let (last, before_last) = choose|last: V, before_last: Memories<V>|
        {
            &&& transformed(
                math,
                source_id,
                channel_id,
                specs.drop_last(),
                time_ns,
                value,
                memories,
                last,
                before_last,
            )
            &&& #[trigger] transform_step(
                math,
                transform_key(source_id, channel_id, specs.last()),
                specs.last(),
                time_ns,
                last,
                before_last,
                result,
                after,
            )
        };
    assert(specs.drop_last() =~= Seq::<TransformSpec<V>>::empty());
}

/// Scaling looks at each value alone: it is scaled and shifted, whatever came before.
pub proof fn law_scaling_looks_at_each_value_alone<V: Copy, M: SampleMath<V>>(
    math: &M,
    engine: &mut TransformEngine<V>,
    source_id: Uuid,
    channel_id: Uuid,
    specs: &[TransformSpec<V>],
    id: Uuid,
    scale: V,
    bias: V,
    value: V,
    time_ns: i64,
    result: V,
)
    requires
        old(engine).wf(),
        specs@ == seq![TransformSpec::ScaleBias { id, scale, bias }],
        call_ensures(
            TransformEngine::<V>::apply::<M>,
            (engine, source_id, channel_id, specs, value, time_ns, math),
            result,
        ),
    ensures
        evaluates(math, Operation::ScaleBias { value, scale, bias }, result),
{
    lemma_single(
        math,
        source_id,
        channel_id,
        specs@[0],
        time_ns,
        value,
        old(engine).memories(),
        result,
        final(engine).memories(),
    );
}

/// Without transforms a value comes out as it went in.
pub proof fn law_without_transforms_nothing_changes<V: Copy, M: SampleMath<V>>(
    math: &M,
    engine: &mut TransformEngine<V>,
    source_id: Uuid,
    channel_id: Uuid,
    specs: &[TransformSpec<V>],
    value: V,
    time_ns: i64,
    result: V,
)
    requires
        old(engine).wf(),
        specs@.len() == 0,
        call_ensures(
            TransformEngine::<V>::apply::<M>,
            (engine, source_id, channel_id, specs, value, time_ns, math),
            result,
        ),
    ensures
        result == value,
        final(engine).memories() == old(engine).memories(),
{
}

proof fn lemma_smoothing<V, M: SampleMath<V>>(
    math: &M,
    source_id: Uuid,
    channel_id: Uuid,
    id: Uuid,
    alpha: V,
    memories: Seq<Memories<V>>,
    calls: Seq<TransformCall<V>>,
    i: int,
)
    requires
        applied_in_turn(
            math,
            source_id,
            channel_id,
            seq![TransformSpec::Ema { id, alpha }],
            memories,
            calls,
        ),
        0 <= i < calls.len(),
    ensures
        i == 0 ==> calls[0].result == calls[0].value,
        i > 0 ==> evaluates(
            math,
            Operation::Blend { value: calls[i].value, old: calls[i - 1].result, alpha },
            calls[i].result,
        ),
        ({
            let key = TransformKey { source_id, channel_id, transform_id: id };
            &&& memories[i + 1].dom().contains(key)
            &&& memories[i + 1][key] == TransformMemory::Ema(calls[i].result)
        }),
    decreases i,
{
    let spec = TransformSpec::Ema { id, alpha };
    let call = calls[i];
    lemma_single(
        math,
        source_id,
        channel_id,
        spec,
        call.time_ns,
        call.value,
        memories[i],
        call.result,
        memories[i + 1],
    );
    if i > 0 {
        lemma_smoothing(math, source_id, channel_id, id, alpha, memories, calls, i - 1);
        assert(calls[i - 1].result == calls[i - 1].result);
    }
}

/// Smoothing: the first value comes out as it is, and every later one is blended with what
/// came out before it.
pub proof fn law_smoothing_blends_with_what_came_out<V, M: SampleMath<V>>(
    math: &M,
    source_id: Uuid,
    channel_id: Uuid,
    id: Uuid,
    alpha: V,
    memories: Seq<Memories<V>>,
    calls: Seq<TransformCall<V>>,
)
    requires
        applied_in_turn(
            math,
            source_id,
            channel_id,
            seq![TransformSpec::Ema { id, alpha }],
            memories,
            calls,
        ),
    ensures
        calls.len() > 0 ==> calls[0].result == calls[0].value,
        forall|i: int|
            0 < i < calls.len() ==> evaluates(
                math,
                Operation::Blend {
                    value: (#[trigger] calls[i]).value,
                    old: calls[i - 1].result,
                    alpha,
                },
                calls[i].result,
            ),
{
    if calls.len() > 0 {
        lemma_smoothing(math, source_id, channel_id, id, alpha, memories, calls, 0);
    }
    assert forall|i: int| 0 < i < calls.len() implies evaluates(
        math,
        Operation::Blend { value: (#[trigger] calls[i]).value, old: calls[i - 1].result, alpha },
        calls[i].result,
    ) by {
        lemma_smoothing(math, source_id, channel_id, id, alpha, memories, calls, i);
    }
}

proof fn lemma_slopes<V, M: SampleMath<V>>(
    math: &M,
    source_id: Uuid,
    channel_id: Uuid,
    id: Uuid,
    memories: Seq<Memories<V>>,
    calls: Seq<TransformCall<V>>,
    i: int,
)
    requires
        applied_in_turn(
            math,
            source_id,
            channel_id,
            seq![TransformSpec::Derivative { id }],
            memories,
            calls,
        ),
        0 <= i < calls.len(),
    ensures
        i == 0 ==> evaluates(math, Operation::Zero, calls[0].result),
        i > 0 && calls[i].time_ns <= calls[i - 1].time_ns ==> evaluates(
            math,
            Operation::Zero,
            calls[i].result,
        ),
        i > 0 && calls[i].time_ns > calls[i - 1].time_ns ==> evaluates(
            math,
            Operation::Slope {
                value: calls[i].value,
                old: calls[i - 1].value,
                elapsed_ns: (calls[i].time_ns - calls[i - 1].time_ns) as u64,
            },
            calls[i].result,
        ),
        ({
            let key = TransformKey { source_id, channel_id, transform_id: id };
            &&& memories[i + 1].dom().contains(key)
            &&& memories[i + 1][key] == (TransformMemory::Derivative {
                value: calls[i].value,
                time_ns: calls[i].time_ns,
            })
        }),
    decreases i,
{
    let spec = TransformSpec::<V>::Derivative { id };
    let call = calls[i];
    lemma_single(
        math,
        source_id,
        channel_id,
        spec,
        call.time_ns,
        call.value,
        memories[i],
        call.result,
        memories[i + 1],
    );
    if i > 0 {
        lemma_slopes(math, source_id, channel_id, id, memories, calls, i - 1);
        assert(calls[i - 1].result == calls[i - 1].result);
    }
}

/// A derivative is the slope from the value before to the present one over the time between
/// them. It is zero for the first value, and wherever time does not go on.
pub proof fn law_a_derivative_is_the_slope_to_the_value_before<V, M: SampleMath<V>>(
    math: &M,
    source_id: Uuid,
    channel_id: Uuid,
    id: Uuid,
    memories: Seq<Memories<V>>,
    calls: Seq<TransformCall<V>>,
)
    requires
        applied_in_turn(
            math,
            source_id,
            channel_id,
            seq![TransformSpec::Derivative { id }],
            memories,
            calls,
        ),
    ensures
        forall|i: int|
            0 <= i < calls.len() ==> evaluates(
                math,
                if i > 0 && (#[trigger] calls[i]).time_ns > calls[i - 1].time_ns {
                    Operation::Slope {
                        value: calls[i].value,
                        old: calls[i - 1].value,
                        elapsed_ns: (calls[i].time_ns - calls[i - 1].time_ns) as u64,
                    }
                } else {
                    Operation::Zero
                },
                calls[i].result,
            ),
{
    assert forall|i: int| 0 <= i < calls.len() implies evaluates(
        math,
        if i > 0 && (#[trigger] calls[i]).time_ns > calls[i - 1].time_ns {
            Operation::Slope {
                value: calls[i].value,
                old: calls[i - 1].value,
                elapsed_ns: (calls[i].time_ns - calls[i - 1].time_ns) as u64,
            }
        } else {
            Operation::Zero
        },
        calls[i].result,
    ) by {
        lemma_slopes(math, source_id, channel_id, id, memories, calls, i);
    }
}

/// How many values a moving average of some window has at most.
pub open spec fn most_values(window: usize) -> int {
    if window < 1 {
        1
    } else {
        window as int
    }
}

/// The running sum goes on by one value: it enters, and the one that no longer fits leaves.
pub open spec fn sum_goes_on<V, M: SampleMath<V>>(
    math: &M,
    window: usize,
    calls: Seq<TransformCall<V>>,
    i: int,
    sum: V,
    next: V,
) -> bool {
    exists|grown: V|
        {
            &&& #[trigger] evaluates(
                math,
                Operation::Sum { left: sum, right: calls[i].value },
                grown,
            )
            &&& if i < most_values(window) {
                next == grown
            } else {
                evaluates(
                    math,
                    Operation::Difference {
                        left: grown,
                        right: calls[i - most_values(window)].value,
                    },
                    next,
                )
            }
        }
}

/// What came out at a place is the mean over the running sum.
pub open spec fn averaged<V, M: SampleMath<V>>(
    math: &M,
    window: usize,
    calls: Seq<TransformCall<V>>,
    sums: Seq<V>,
    i: int,
) -> bool {
    &&& sum_goes_on(math, window, calls, i, sums[i], sums[i + 1])
    &&& evaluates(
        math,
        Operation::Mean {
            sum: sums[i + 1],
            count: (if i + 1 < most_values(window) {
                i + 1
            } else {
                most_values(window)
            }) as usize,
        },
        calls[i].result,
    )
}

/// The values that went in last, as many as fit into a window.
spec fn latest_values<V>(calls: Seq<TransformCall<V>>, window: usize) -> Seq<V> {
    let values = calls.map_values(|call: TransformCall<V>| call.value);
    if values.len() <= most_values(window) {
        values
    } else {
        values.skip(values.len() - most_values(window))
    }
}

#[verifier::rlimit(30)]
proof fn lemma_averages<V, M: SampleMath<V>>(
    math: &M,
    source_id: Uuid,
    channel_id: Uuid,
    id: Uuid,
    window: usize,
    memories: Seq<Memories<V>>,
    calls: Seq<TransformCall<V>>,
    count: int,
) -> (sums: Seq<V>)
    requires
        applied_in_turn(
            math,
            source_id,
            channel_id,
            seq![TransformSpec::MovingAverage { id, window }],
            memories,
            calls,
        ),
        0 < count <= calls.len(),
    ensures
        sums.len() == count + 1,
        evaluates(math, Operation::Zero, sums[0]),
        forall|i: int| 0 <= i < count ==> #[trigger] averaged(math, window, calls, sums, i),
        ({
            let key = TransformKey { source_id, channel_id, transform_id: id };
            &&& memories[count].dom().contains(key)
            &&& memories[count][key] == (TransformMemory::MovingAverage {
                values: latest_values(calls.take(count), window),
                sum: sums[count],
            })
        }),
    decreases count,
{
    let spec = TransformSpec::<V>::MovingAverage { id, window };
    let key = TransformKey { source_id, channel_id, transform_id: id };
    let i = count - 1;
    let call = calls[i];
    lemma_single(
        math,
        source_id,
        channel_id,
        spec,
        call.time_ns,
        call.value,
        memories[i],
        call.result,
        memories[count],
    );
    let earlier: Seq<V> = if i > 0 {
        lemma_averages(math, source_id, channel_id, id, window, memories, calls, i)
    } else {
        Seq::empty()
    };
    let (values, sum, kept, kept_sum) = choose|
        values: Seq<V>,
        sum: V,
        kept: Seq<V>,
        kept_sum: V,
    |
        {
            &&& #[trigger] window_before(math, memories[i], key, values, sum)
            &&& #[trigger] window_step(
                math,
                window,
                values,
                sum,
                call.value,
                kept,
                kept_sum,
                call.result,
            )
            &&& memories[count] == memories[i].insert(
                key,
                TransformMemory::MovingAverage { values: kept, sum: kept_sum },
            )
        };
    let grown = choose|grown: V|
        {
            &&& #[trigger] evaluates(math, Operation::Sum { left: sum, right: call.value }, grown)
            &&& trimmed(math, values.push(call.value), grown, window_limit(window), kept, kept_sum)
            &&& evaluates(
                math,
                Operation::Mean { sum: kept_sum, count: kept.len() as usize },
                call.result,
            )
        };
    let starts: Seq<V> = if i > 0 {
        earlier
    } else {
        seq![sum]
    };
    let sums = starts.push(kept_sum);
    let held = latest_values(calls.take(i), window);
    let now = latest_values(calls.take(count), window);
    assert(values =~= held);
    let pushed = values.push(call.value);
    reveal_with_fuel(trimmed, 2);
    if i < most_values(window) {
        assert(pushed.len() <= window_limit(window));
        assert(pushed =~= now);
        assert(kept =~= now);
    } else {
        assert(pushed.len() == window_limit(window) + 1);
        let less = choose|less: V|
            {
                &&& #[trigger] evaluates(
                    math,
                    Operation::Difference { left: grown, right: pushed[0] },
                    less,
                )
                &&& trimmed(math, pushed.drop_first(), less, window_limit(window), kept, kept_sum)
            };
        assert(pushed.drop_first() =~= now);
        assert(pushed[0] == calls[i - most_values(window)].value);
        assert(kept_sum == less);
    }
    assert(sum_goes_on(math, window, calls, i, sum, kept_sum));
    assert forall|j: int| 0 <= j < count implies #[trigger] averaged(
        math,
        window,
        calls,
        sums,
        j,
    ) by {
        if j < i {
            assert(averaged(math, window, calls, earlier, j));
            assert(sums[j] == earlier[j]);
            assert(sums[j + 1] == earlier[j + 1]);
        } else {
            assert(sums[i] == sum);
            assert(sums[i + 1] == kept_sum);
        }
    }
    sums
}

/// A moving average is the mean of the latest values that went in, as many as its window
/// holds: their sum runs on from zero, each value enters it, and each leaves it again when
/// the window is over.
pub proof fn law_a_moving_average_is_the_mean_of_the_latest_values<V, M: SampleMath<V>>(
    math: &M,
    source_id: Uuid,
    channel_id: Uuid,
    id: Uuid,
    window: usize,
    memories: Seq<Memories<V>>,
    calls: Seq<TransformCall<V>>,
)
    requires
        applied_in_turn(
            math,
            source_id,
            channel_id,
            seq![TransformSpec::MovingAverage { id, window }],
            memories,
            calls,
        ),
        calls.len() > 0,
    ensures
        exists|sums: Seq<V>|
            {
                &&& sums.len() == calls.len() + 1
                &&& evaluates(math, Operation::Zero, #[trigger] sums[0])
                &&& forall|i: int|
                    0 <= i < calls.len() ==> #[trigger] averaged(math, window, calls, sums, i)
            },
{
    let sums = lemma_averages(
        math,
        source_id,
        channel_id,
        id,
        window,
        memories,
        calls,
        calls.len() as int,
    );
    assert(evaluates(math, Operation::Zero, sums[0]));
}

/// Transforms follow one another: a chain takes a value to what its end makes of what its
/// beginning made of it.
pub proof fn law_transforms_follow_one_another<V, M: SampleMath<V>>(
    math: &M,
    source_id: Uuid,
    channel_id: Uuid,
    first: Seq<TransformSpec<V>>,
    second: Seq<TransformSpec<V>>,
    time_ns: i64,
    value: V,
    memories: Memories<V>,
    result: V,
    after: Memories<V>,
)
    requires
        transformed(
            math,
            source_id,
            channel_id,
            first + second,
            time_ns,
            value,
            memories,
            result,
            after,
        ),
    ensures
        exists|between: V, held: Memories<V>|
            {
                &&& #[trigger] transformed(
                    math,
                    source_id,
                    channel_id,
                    first,
                    time_ns,
                    value,
                    memories,
                    between,
                    held,
                )
                &&& transformed(
                    math,
                    source_id,
                    channel_id,
                    second,
                    time_ns,
                    between,
                    held,
                    result,
                    after,
                )
            },
    decreases second.len(),
{
    let whole = first + second;
    if second.len() == 0 {
        assert(whole =~= first);
        assert(transformed(
            math,
            source_id,
            channel_id,
            second,
            time_ns,
            result,
            after,
            result,
            after,
        ));
    } else {
        let (last, before_last) = choose|last: V, before_last: Memories<V>|
            {
                &&& transformed(
                    math,
                    source_id,
                    channel_id,
                    whole.drop_last(),
                    time_ns,
                    value,
                    memories,
                    last,
                    before_last,
                )
                &&& #[trigger] transform_step(
                    math,
                    transform_key(source_id, channel_id, whole.last()),
                    whole.last(),
                    time_ns,
                    last,
                    before_last,
                    result,
                    after,
                )
            };
        assert(whole.drop_last() =~= first + second.drop_last());
        assert(whole.last() == second.last());
        law_transforms_follow_one_another(
            math,
            source_id,
            channel_id,
            first,
            second.drop_last(),
            time_ns,
            value,
            memories,
            last,
            before_last,
        );
        let (between, held) = choose|between: V, held: Memories<V>|
            {
                &&& #[trigger] transformed(
                    math,
                    source_id,
                    channel_id,
                    first,
                    time_ns,
                    value,
                    memories,
                    between,
                    held,
                )
                &&& transformed(
                    math,
                    source_id,
                    channel_id,
                    second.drop_last(),
                    time_ns,
                    between,
                    held,
                    last,
                    before_last,
                )
            };
        assert(transform_step(
            math,
            transform_key(source_id, channel_id, second.last()),
            second.last(),
            time_ns,
            last,
            before_last,
            result,
            after,
        ));
        assert(transformed(
            math,
            source_id,
            channel_id,
            second,
            time_ns,
            between,
            held,
            result,
            after,
        ));
    }
}

/// Two calls of an engine for one channel: the second value is blended with what came out
/// for the first one, even where other channels are served in between. After a reset
/// nothing of the first call is left.
pub proof fn law_an_engine_smooths_each_channel<V: Copy, M: SampleMath<V>>(
    math: &M,
    created: TransformEngine<V>,
    first: &mut TransformEngine<V>,
    between: &mut TransformEngine<V>,
    second: &mut TransformEngine<V>,
    reset: &mut TransformEngine<V>,
    third: &mut TransformEngine<V>,
    reason: ResetReason,
    source_id: Uuid,
    channel_id: Uuid,
    other_channel: Uuid,
    specs: &[TransformSpec<V>],
    other_specs: &[TransformSpec<V>],
    id: Uuid,
    alpha: V,
    values: (V, V, V, V),
    times: (i64, i64, i64, i64),
    results: (V, V, V, V),
)
    requires
        specs@ == seq![TransformSpec::Ema { id, alpha }],
        other_channel != channel_id,
        call_ensures(TransformEngine::<V>::new, (), created),
        *old(first) == created,
        call_ensures(
            TransformEngine::<V>::apply::<M>,
            (first, source_id, channel_id, specs, values.0, times.0, math),
            results.0,
        ),
        *old(between) == *final(first),
        call_ensures(
            TransformEngine::<V>::apply::<M>,
            (between, source_id, other_channel, other_specs, values.1, times.1, math),
            results.1,
        ),
        *old(second) == *final(between),
        call_ensures(
            TransformEngine::<V>::apply::<M>,
            (second, source_id, channel_id, specs, values.2, times.2, math),
            results.2,
        ),
        *old(reset) == *final(second),
        call_ensures(TransformEngine::<V>::reset, (reset, reason), ()),
        *old(third) == *final(reset),
        call_ensures(
            TransformEngine::<V>::apply::<M>,
            (third, source_id, channel_id, specs, values.3, times.3, math),
            results.3,
        ),
    ensures
        results.0 == values.0,
        evaluates(
            math,
            Operation::Blend { value: values.2, old: results.0, alpha },
            results.2,
        ),
        results.3 == values.3,
{
    let spec = specs@[0];
    let key = transform_key(source_id, channel_id, spec);
    lemma_single(
        math,
        source_id,
        channel_id,
        spec,
        times.0,
        values.0,
        old(first).memories(),
        results.0,
        final(first).memories(),
    );
    law_channels_do_not_disturb_each_other(
        math,
        source_id,
        other_channel,
        other_specs@,
        times.1,
        values.1,
        old(between).memories(),
        results.1,
        final(between).memories(),
        key,
    );
    lemma_single(
        math,
        source_id,
        channel_id,
        spec,
        times.2,
        values.2,
        old(second).memories(),
        results.2,
        final(second).memories(),
    );
    lemma_single(
        math,
        source_id,
        channel_id,
        spec,
        times.3,
        values.3,
        old(third).memories(),
        results.3,
        final(third).memories(),
    );
}

/// An engine that was just made, or reset, has nothing remembered; from there each call takes
/// its value, at its time, through the transforms of the channel, and remembers for the next.
pub proof fn law_an_engine_remembers_from_call_to_call<V: Copy, M: SampleMath<V>>(
    math: &M,
    created: TransformEngine<V>,
    reset: &mut TransformEngine<V>,
    reason: ResetReason,
    fresh: bool,
    first: &mut TransformEngine<V>,
    second: &mut TransformEngine<V>,
    source_id: Uuid,
    channel_id: Uuid,
    specs: &[TransformSpec<V>],
    calls: (TransformCall<V>, TransformCall<V>),
)
    requires
        call_ensures(TransformEngine::<V>::new, (), created),
        old(reset).wf(),
        call_ensures(TransformEngine::<V>::reset, (reset, reason), ()),
        fresh ==> *old(first) == created,
        !fresh ==> *old(first) == *final(reset),
        call_ensures(
            TransformEngine::<V>::apply::<M>,
            (first, source_id, channel_id, specs, calls.0.value, calls.0.time_ns, math),
            calls.0.result,
        ),
        *old(second) == *final(first),
        call_ensures(
            TransformEngine::<V>::apply::<M>,
            (second, source_id, channel_id, specs, calls.1.value, calls.1.time_ns, math),
            calls.1.result,
        ),
    ensures
        applied_in_turn(
            math,
            source_id,
            channel_id,
            specs@,
            seq![
                Map::<TransformKey, TransformMemory<V>>::empty(),
                final(first).memories(),
                final(second).memories(),
            ],
            seq![calls.0, calls.1],
        ),
{
    let memories = seq![
        Map::<TransformKey, TransformMemory<V>>::empty(),
        final(first).memories(),
        final(second).memories(),
    ];
    let run = seq![calls.0, calls.1];
    assert(old(first).memories() == memories[0]);
    assert forall|i: int|
        #![trigger run[i]]
        0 <= i < run.len() implies transformed(
        math,
        source_id,
        channel_id,
        specs@,
        run[i].time_ns,
        run[i].value,
        memories[i],
        run[i].result,
        memories[i + 1],
    ) by {
        if i == 0 {
            assert(run[i] == calls.0);
        } else {
            assert(run[i] == calls.1);
        }
    }
}

} // verus!
