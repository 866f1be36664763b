//! The result store of one parallel-map batch.
//!
//! A batch of `n` tasks owns one slot per input position. Each task records
//! its outcome in the slot of its own index, in whatever order the tasks
//! finish; once every slot is filled the store is read out in input order.
use vstd::prelude::*;

verus! {

/// A task raised a fault while it ran; `message` describes it.
#[derive(Debug, Clone, PartialEq, Eq)]
pub struct CapturedFailure {
    pub message: String,
}

impl CapturedFailure {
    pub fn new(message: String) -> (r: Self)
        ensures
            r.message == message,
    {
        CapturedFailure { message }
    }
}

/// Why an outcome was not recorded.
#[derive(Debug, Clone, Copy, PartialEq, Eq, Structural)]
pub enum RecordError {
    /// The index is not a position of the batch.
    OutOfRange,
    /// The slot of that index already holds an outcome.
    AlreadyRecorded,
}

/// Number of filled slots.
pub open spec fn count_filled<O>(s: Seq<Option<O>>) -> nat
    decreases s.len(),
{
    if s.len() == 0 {
        0
    } else {
        count_filled(s.drop_last()) + if s.last() is Some {
            1nat
        } else {
            0nat
        }
    }
}

/// `n` empty slots.
pub open spec fn empty_slots<O>(n: nat) -> Seq<Option<O>> {
    Seq::new(n, |i: int| None)
}

/// The slots after recording `o` at index `i`: only an empty slot inside
/// the batch takes an outcome; anything else leaves the slots as they were.
pub open spec fn record_slot<O>(s: Seq<Option<O>>, i: int, o: O) -> Seq<Option<O>> {
    if 0 <= i < s.len() && s[i] is None {
        s.update(i, Some(o))
    } else {
        s
    }
}

/// Every slot is filled.
pub open spec fn all_filled<O>(s: Seq<Option<O>>) -> bool {
    forall|i: int| 0 <= i < s.len() ==> (#[trigger] s[i]) is Some
}

/// The outcomes of filled slots, position by position.
pub open spec fn gathered<O>(s: Seq<Option<O>>) -> Seq<O> {
    s.map_values(|x: Option<O>| x->0)
}

/// The slots after tasks finish in the order `order`, the task of index
/// `order[k]` recording `outs[order[k]]` as the `k`-th.
pub open spec fn replay<O>(s: Seq<Option<O>>, order: Seq<int>, outs: Seq<O>) -> Seq<Option<O>>
    decreases order.len(),
{
    if order.len() == 0 {
        s
    } else {
        let i = order.last();
        record_slot(replay(s, order.drop_last(), outs), i, outs[i])
    }
}

proof fn lemma_count_le_len<O>(s: Seq<Option<O>>)
    ensures
        count_filled(s) <= s.len(),
        count_filled(s) == s.len() <==> all_filled(s),
    decreases s.len(),
{
    if s.len() > 0 {
        lemma_count_le_len(s.drop_last());
        if count_filled(s) == s.len() {
            assert forall|i: int| 0 <= i < s.len() implies (#[trigger] s[i]) is Some by {
                if i < s.len() - 1 {
                    assert(s.drop_last()[i] == s[i]);
                }
            }
        }
        if all_filled(s) {
            assert forall|i: int| 0 <= i < s.drop_last().len() implies (
            #[trigger] s.drop_last()[i]) is Some by {
                assert(s[i] is Some);
            }
        }
    }
}

proof fn lemma_count_empty<O>(n: nat)
    ensures
        count_filled(empty_slots::<O>(n)) == 0,
    decreases n,
{
    if n > 0 {
        lemma_count_empty::<O>((n - 1) as nat);
        assert(empty_slots::<O>(n).drop_last() =~= empty_slots::<O>((n - 1) as nat));
    }
}

proof fn lemma_count_record<O>(s: Seq<Option<O>>, i: int, o: O)
    requires
        0 <= i < s.len(),
        s[i] is None,
    ensures
        count_filled(s.update(i, Some(o))) == count_filled(s) + 1,
    decreases s.len(),
{
    let t = s.update(i, Some(o));
    if i == s.len() - 1 {
        assert(t.drop_last() =~= s.drop_last());
    } else {
        lemma_count_record(s.drop_last(), i, o);
        assert(t.drop_last() =~= s.drop_last().update(i, Some(o)));
    }
}

proof fn lemma_replay_slots<O>(n: nat, order: Seq<int>, outs: Seq<O>)
    requires
        outs.len() == n,
    ensures
        replay(empty_slots::<O>(n), order, outs).len() == n,
        forall|i: int|
            0 <= i < n ==> #[trigger] replay(empty_slots::<O>(n), order, outs)[i] == if order.contains(i) {
                Some(outs[i])
            } else {
                None
            },
    decreases order.len(),
{
    if order.len() > 0 {
        let prev = order.drop_last();
        lemma_replay_slots(n, prev, outs);
        let before = replay(empty_slots::<O>(n), prev, outs);
        let after = replay(empty_slots::<O>(n), order, outs);
        assert forall|i: int| 0 <= i < n implies #[trigger] after[i] == if order.contains(i) {
            Some(outs[i])
        } else {
            None
        } by {
            assert(order.contains(i) == (prev.contains(i) || order.last() == i)) by {
                if order.contains(i) {
                    let k = choose|k: int| 0 <= k < order.len() && order[k] == i;
                    if k < order.len() - 1 {
                        assert(prev[k] == i);
                    }
                }
                if prev.contains(i) {
                    let k = choose|k: int| 0 <= k < prev.len() && prev[k] == i;
                    assert(order[k] == i);
                }
                if order.last() == i {
                    assert(order[order.len() - 1] == i);
                }
            }
        }
    }
}

/// Results come back in input order: whatever order the tasks of a batch
/// finish in, once each position has recorded its outcome the batch is
/// complete and reads out as the outcomes in input order.
pub proof fn lemma_gather_in_input_order<O>(outs: Seq<O>, order: Seq<int>)
    requires
        forall|i: int| 0 <= i < outs.len() ==> order.contains(i),
    ensures
        all_filled(replay(empty_slots::<O>(outs.len()), order, outs)),
        gathered(replay(empty_slots::<O>(outs.len()), order, outs)) == outs,
{
    lemma_replay_slots(outs.len(), order, outs);
    let s = replay(empty_slots::<O>(outs.len()), order, outs);
    assert forall|i: int| 0 <= i < s.len() implies (#[trigger] s[i]) is Some by {}
    assert(gathered(s) =~= outs);
}

/// Mapping the identity over any inputs gives the inputs back, in their
/// order, for every order in which the tasks finish.
pub proof fn lemma_identity_map_returns_inputs<A>(args: Seq<A>, order: Seq<int>)
    requires
        forall|i: int| 0 <= i < args.len() ==> order.contains(i),
    ensures
        ({
            let outs = args.map_values(|a: A| Ok::<A, CapturedFailure>(a));
            &&& all_filled(replay(empty_slots(args.len()), order, outs))
            &&& gathered(replay(empty_slots(args.len()), order, outs)) == outs
            &&& forall|i: int|
                0 <= i < args.len() ==> #[trigger] gathered(
                    replay(empty_slots(args.len()), order, outs),
                )[i] == Ok::<A, CapturedFailure>(args[i])
        }),
{
    let outs = args.map_values(|a: A| Ok::<A, CapturedFailure>(a));
    lemma_gather_in_input_order(outs, order);
}

/// A fault stays in its own slot: when only the task at `k` fails, the
/// gathered outcome at `k` is that failure and every other position holds
/// its own success.
pub proof fn lemma_failure_stays_in_place<S>(
    outs: Seq<Result<S, CapturedFailure>>,
    order: Seq<int>,
    k: int,
)
    requires
        0 <= k < outs.len(),
        outs[k] is Err,
        forall|i: int| 0 <= i < outs.len() && i != k ==> (#[trigger] outs[i]) is Ok,
        forall|i: int| 0 <= i < outs.len() ==> order.contains(i),
    ensures
        gathered(replay(empty_slots(outs.len()), order, outs))[k] == outs[k],
        gathered(replay(empty_slots(outs.len()), order, outs))[k] is Err,
        forall|i: int|
            0 <= i < outs.len() && i != k ==> #[trigger] gathered(
                replay(empty_slots(outs.len()), order, outs),
            )[i] == outs[i] && outs[i] is Ok,
{
    lemma_gather_in_input_order(outs, order);
}

/// An empty batch is complete before any task runs and reads out as an
/// empty list.
pub proof fn lemma_empty_batch<O>()
    ensures
        all_filled(empty_slots::<O>(0)),
        gathered(empty_slots::<O>(0)) == Seq::<O>::empty(),
{
    assert(gathered(empty_slots::<O>(0)) =~= Seq::<O>::empty());
}

/// Pairs each input with its position: the tasks of a batch, each carrying
/// the index of the slot it records into.
pub fn tag_args<A>(args: Vec<A>) -> (r: Vec<(usize, A)>)
    ensures
        r@.len() == args@.len(),
        forall|i: int| 0 <= i < args@.len() ==> #[trigger] r@[i] == (i as usize, args@[i]),
{
    let ghost orig = args@;
    let n = args.len();
    let mut rest = args;
    let mut rev: Vec<(usize, A)> = Vec::new();
    while rest.len() > 0
        invariant
            rev@.len() + rest@.len() == n,
            n == orig.len(),
            rest@ == orig.subrange(0, rest@.len() as int),
            forall|j: int|
                0 <= j < rev@.len() ==> #[trigger] rev@[j] == ((n - 1 - j) as usize, orig[n - 1 - j]),
        decreases rest@.len(),
    {
        if let Some(a) = rest.pop() {
            rev.push((rest.len(), a));
        }
    }
    let mut out: Vec<(usize, A)> = Vec::new();
    let ghost rev0 = rev@;
    while rev.len() > 0
        invariant
            out@.len() + rev@.len() == n,
            rev0.len() == n,
            rev@ == rev0.subrange(0, rev@.len() as int),
            forall|j: int| 0 <= j < out@.len() ==> #[trigger] out@[j] == rev0[n - 1 - j],
        decreases rev@.len(),
    {
        if let Some(t) = rev.pop() {
            out.push(t);
        }
    }
    proof {
        assert forall|i: int| 0 <= i < n implies #[trigger] out@[i] == (i as usize, orig[i]) by {
            assert(rev0[n - 1 - i] == ((n - 1 - (n - 1 - i)) as usize, orig[n - 1 - (n - 1 - i)]));
        }
    }
    out
}

/// The slots of one batch, filled as its tasks finish.
pub struct ResultStore<S> {
    slots: Vec<Option<Result<S, CapturedFailure>>>,
    filled: usize,
}

impl<S> ResultStore<S> {
    /// The slots, one per input position.
    pub closed spec fn slots(&self) -> Seq<Option<Result<S, CapturedFailure>>> {
        self.slots@
    }

    /// The kept count of filled slots is the true one.
    pub closed spec fn wf(&self) -> bool {
        self.filled == count_filled(self.slots@)
    }

    /// Every task of the batch has recorded its outcome.
    pub open spec fn complete(&self) -> bool {
        all_filled(self.slots())
    }

    /// A store for a batch of `n` tasks, with every slot empty. A batch of
    /// no task is complete from the start.
    pub fn new(n: usize) -> (r: Self)
        ensures
            r.wf(),
            r.slots() == empty_slots::<Result<S, CapturedFailure>>(n as nat),
            n == 0 ==> r.complete(),
    {
        let mut slots: Vec<Option<Result<S, CapturedFailure>>> = Vec::new();
        let mut i: usize = 0;
        while i < n
            invariant
                i <= n,
                slots@ =~= empty_slots::<Result<S, CapturedFailure>>(i as nat),
            decreases n - i,
        {
            slots.push(None);
            i = i + 1;
        }
        proof {
            lemma_count_empty::<Result<S, CapturedFailure>>(n as nat);
        }
        ResultStore { slots, filled: 0 }
    }

    /// Number of input positions.
    pub fn len(&self) -> (r: usize)
        ensures
            r == self.slots().len(),
    {
        self.slots.len()
    }

    /// Number of slots filled so far.
    pub fn filled(&self) -> (r: usize)
        requires
            self.wf(),
        ensures
            r == count_filled(self.slots()),
    {
        self.filled
    }

    /// Whether every task has recorded its outcome.
    pub fn is_complete(&self) -> (r: bool)
        requires
            self.wf(),
        ensures
            r == self.complete(),
    {
        proof {
            lemma_count_le_len(self.slots@);
        }
        self.filled == self.slots.len()
    }

    /// Records the outcome of the task of position `index`. Returns whether
    /// the batch is now complete, which is when the waiting caller is to be
    /// woken. An index outside the batch, or one already recorded, is refused
    /// and the store is left as it was.
    pub fn record(&mut self, index: usize, outcome: Result<S, CapturedFailure>) -> (r: Result<
        bool,
        RecordError,
    >)
        requires
            old(self).wf(),
        ensures
            final(self).wf(),
            final(self).slots() == record_slot(old(self).slots(), index as int, outcome),
            index >= old(self).slots().len() ==> r == Err::<bool, RecordError>(
                RecordError::OutOfRange,
            ),
            index < old(self).slots().len() && old(self).slots()[index as int] is Some ==> r
                == Err::<bool, RecordError>(RecordError::AlreadyRecorded),
            index < old(self).slots().len() && old(self).slots()[index as int] is None ==> r
                == Ok::<bool, RecordError>(final(self).complete()),
    {
        if index >= self.slots.len() {
            return Err(RecordError::OutOfRange);
        }
        if self.slots[index].is_some() {
            return Err(RecordError::AlreadyRecorded);
        }
        proof {
            lemma_count_record(self.slots@, index as int, outcome);
            lemma_count_le_len(self.slots@);
        }
        self.slots.set(index, Some(outcome));
        proof {
            lemma_count_le_len(self.slots@);
        }
        self.filled = self.filled + 1;
        Ok(self.filled == self.slots.len())
    }

    /// Reads a complete store out in input order: position `i` of the result
    /// holds the outcome of input `i`, whatever order the tasks finished in.
    pub fn into_ordered(self) -> (r: Vec<Result<S, CapturedFailure>>)
        requires
            self.wf(),
            self.complete(),
        ensures
            r@ == gathered(self.slots()),
    {
        let ghost orig = self.slots@;
        let n = self.slots.len();
        let mut slots = self.slots;
        let mut rev: Vec<Result<S, CapturedFailure>> = Vec::new();
        while slots.len() > 0
            invariant
                rev@.len() + slots@.len() == n,
                n == orig.len(),
                slots@ == orig.subrange(0, slots@.len() as int),
                all_filled(orig),
                forall|j: int| 0 <= j < rev@.len() ==> Some(#[trigger] rev@[j]) == orig[n - 1 - j],
            decreases slots@.len(),
        {
            let last = slots.pop();
            let ghost k = slots@.len() as int;
            assert(orig[k] is Some);
            if let Some(Some(o)) = last {
                rev.push(o);
            }
        }
        let mut out: Vec<Result<S, CapturedFailure>> = Vec::new();
        let ghost rev0 = rev@;
        while rev.len() > 0
            invariant
                out@.len() + rev@.len() == n,
                rev0.len() == n,
                rev@ == rev0.subrange(0, rev@.len() as int),
                forall|j: int| 0 <= j < out@.len() ==> #[trigger] out@[j] == rev0[n - 1 - j],
            decreases rev@.len(),
        {
            if let Some(o) = rev.pop() {
                out.push(o);
            }
        }
        proof {
            assert forall|j: int| 0 <= j < n implies out@[j] == (#[trigger] gathered(orig)[j]) by {
                assert(Some(rev0[n - 1 - j]) == orig[n - 1 - (n - 1 - j)]);
            }
        }
        assert(out@ =~= gathered(orig));
        out
    }
}

} // verus!
