use vstd::prelude::*;

verus! {

/// The live elements after inserting `x` into a buffer holding `q`
/// (oldest first) with room for `cap` elements: when the buffer is full
/// the oldest element makes way for `x`.
pub open spec fn insert_result<T>(q: Seq<T>, cap: nat, x: T) -> Seq<T> {
    if q.len() < cap {
        q.push(x)
    } else {
        q.drop_first().push(x)
    }
}

/// What inserting into a buffer holding `q` hands back: nothing while
/// there is room, the oldest element once the buffer is full.
pub open spec fn insert_evicts<T>(q: Seq<T>, cap: nat) -> Option<T> {
    if q.len() < cap {
        None
    } else {
        Some(q[0])
    }
}

/// The live elements after a removal from a buffer holding `q`.
pub open spec fn remove_result<T>(q: Seq<T>) -> Seq<T> {
    if q.len() == 0 {
        q
    } else {
        q.drop_first()
    }
}

/// What a removal from a buffer holding `q` returns: the oldest element,
/// or nothing when the buffer is empty.
pub open spec fn remove_returns<T>(q: Seq<T>) -> Option<T> {
    if q.len() == 0 {
        None
    } else {
        Some(q[0])
    }
}

/// One call on a buffer.
pub enum BufferOp<T> {
    /// Insert the value.
    Insert(T),
    /// Remove the oldest element.
    Remove,
}

/// The live elements after `op` on a buffer holding `q`, and what the call
/// hands back.
pub open spec fn step<T>(q: Seq<T>, cap: nat, op: BufferOp<T>) -> (Seq<T>, Option<T>) {
    match op {
        BufferOp::Insert(x) => (insert_result(q, cap, x), insert_evicts(q, cap)),
        BufferOp::Remove => (remove_result(q), remove_returns(q)),
    }
}

/// The live elements after the calls `ops`, in order, on a buffer holding
/// `q`, and what each call handed back.
pub open spec fn run<T>(q: Seq<T>, cap: nat, ops: Seq<BufferOp<T>>) -> (Seq<T>, Seq<Option<T>>)
    decreases ops.len(),
{
    if ops.len() == 0 {
        (q, Seq::empty())
    } else {
        let (q1, outs) = run(q, cap, ops.drop_last());
        let (q2, out) = step(q1, cap, ops.last());
        (q2, outs.push(out))
    }
}

/// The values that the calls `ops` insert, in order.
pub open spec fn inserted<T>(ops: Seq<BufferOp<T>>) -> Seq<T>
    decreases ops.len(),
{
    if ops.len() == 0 {
        Seq::empty()
    } else {
        match ops.last() {
            BufferOp::Insert(x) => inserted(ops.drop_last()).push(x),
            BufferOp::Remove => inserted(ops.drop_last()),
        }
    }
}

/// The values among `outs`, in order, leaving out the empty results.
pub open spec fn handed_back<T>(outs: Seq<Option<T>>) -> Seq<T>
    decreases outs.len(),
{
    if outs.len() == 0 {
        Seq::empty()
    } else {
        match outs.last() {
            Some(x) => handed_back(outs.drop_last()).push(x),
            None => handed_back(outs.drop_last()),
        }
    }
}

/// An insert of each of `vals`, in order.
pub open spec fn inserts<T>(vals: Seq<T>) -> Seq<BufferOp<T>> {
    vals.map_values(|x: T| BufferOp::Insert(x))
}

/// `n` removals.
pub open spec fn removes<T>(n: nat) -> Seq<BufferOp<T>> {
    Seq::new(n, |i: int| BufferOp::Remove)
}

/// Whatever the calls, the buffer never holds more than its capacity.
pub proof fn lemma_run_bounded<T>(q: Seq<T>, cap: nat, ops: Seq<BufferOp<T>>)
    requires
        0 < cap,
        q.len() <= cap,
    ensures
        run(q, cap, ops).0.len() <= cap,
        run(q, cap, ops).1.len() == ops.len(),
    decreases ops.len(),
{
    if ops.len() > 0 {
        lemma_run_bounded(q, cap, ops.drop_last());
    }
}

/// First in, first out: over any mix of inserts and removals, the values
/// handed back (by removals and by evicting inserts), followed by what is
/// still held, are the values held at the start followed by the values
/// inserted, in the same order. No value is lost, duplicated or reordered.
pub proof fn lemma_fifo<T>(q: Seq<T>, cap: nat, ops: Seq<BufferOp<T>>)
    requires
        0 < cap,
        q.len() <= cap,
    ensures
        handed_back(run(q, cap, ops).1) + run(q, cap, ops).0 == q + inserted(ops),
    decreases ops.len(),
{
    if ops.len() > 0 {
        let prev = ops.drop_last();
        lemma_fifo(q, cap, prev);
        lemma_run_bounded(q, cap, prev);
        let (q1, outs) = run(q, cap, prev);
        let h = handed_back(outs);
        match ops.last() {
            BufferOp::Insert(x) => {
                if q1.len() < cap {
                    assert(h + q1.push(x) =~= (h + q1).push(x));
                } else {
                    assert(h.push(q1[0]) + q1.drop_first().push(x) =~= (h + q1).push(x));
                }
            },
            BufferOp::Remove => {
                if q1.len() > 0 {
                    assert(h.push(q1[0]) + q1.drop_first() =~= h + q1);
                }
            },
        }
        assert(outs.push(step(q1, cap, ops.last()).1).drop_last() =~= outs);
    }
}

/// An insert into a full buffer hands back exactly what a removal would
/// have returned, and leaves the buffer as that removal followed by the
/// insert would: the evicted element is gone.
pub proof fn lemma_eviction_takes_oldest<T>(q: Seq<T>, cap: nat, x: T)
    requires
        0 < cap,
        q.len() == cap,
    ensures
        insert_evicts(q, cap) == remove_returns(q),
        insert_evicts(q, cap) == Some(q[0]),
        insert_result(q, cap, x) == insert_result(remove_result(q), cap, x),
        insert_evicts(remove_result(q), cap) is None,
{
}

/// Removals from an empty buffer all return nothing and leave it empty.
pub proof fn lemma_removes_on_empty<T>(cap: nat, n: nat)
    ensures
        run(Seq::<T>::empty(), cap, removes(n)) == (Seq::<T>::empty(), Seq::new(n, |i: int| None::<T>)),
    decreases n,
{
    if n > 0 {
        lemma_removes_on_empty::<T>(cap, (n - 1) as nat);
        assert(removes::<T>(n).drop_last() =~= removes::<T>((n - 1) as nat));
        assert(Seq::new((n - 1) as nat, |i: int| None::<T>).push(None) =~= Seq::new(n, |i: int| None::<T>));
    }
}

/// Running two lists of calls one after the other is running them joined.
pub proof fn lemma_run_append<T>(q: Seq<T>, cap: nat, a: Seq<BufferOp<T>>, b: Seq<BufferOp<T>>)
    ensures
        run(q, cap, a + b).0 == run(run(q, cap, a).0, cap, b).0,
        run(q, cap, a + b).1 == run(q, cap, a).1 + run(run(q, cap, a).0, cap, b).1,
    decreases b.len(),
{
    if b.len() == 0 {
        assert(a + b =~= a);
        assert(run(q, cap, a).1 + Seq::<Option<T>>::empty() =~= run(q, cap, a).1);
    } else {
        lemma_run_append(q, cap, a, b.drop_last());
        assert((a + b).drop_last() =~= a + b.drop_last());
        assert((a + b).last() == b.last());
        let (q1, outs1) = run(q, cap, a);
        let outs2 = run(q1, cap, b.drop_last()).1;
        let o = step(run(q1, cap, b.drop_last()).0, cap, b.last()).1;
        assert((outs1 + outs2).push(o) =~= outs1 + outs2.push(o));
    }
}

proof fn lemma_run_inserts<T>(vals: Seq<T>, cap: nat)
    requires
        vals.len() <= cap,
    ensures
        run(Seq::<T>::empty(), cap, inserts(vals)) == (vals, Seq::new(vals.len(), |i: int| None::<T>)),
    decreases vals.len(),
{
    if vals.len() > 0 {
        lemma_run_inserts(vals.drop_last(), cap);
        assert(inserts(vals).drop_last() =~= inserts(vals.drop_last()));
        assert(vals.drop_last().push(vals.last()) =~= vals);
        assert(Seq::new((vals.len() - 1) as nat, |i: int| None::<T>).push(None)
            =~= Seq::new(vals.len(), |i: int| None::<T>));
    } else {
        assert(vals =~= Seq::<T>::empty());
        assert(Seq::new(0, |i: int| None::<T>) =~= Seq::<Option<T>>::empty());
    }
}

proof fn lemma_run_removes<T>(vals: Seq<T>, cap: nat, n: nat)
    requires
        n <= vals.len(),
    ensures
        run(vals, cap, removes(n)) == (vals.skip(n as int), vals.take(n as int).map_values(|x: T| Some(x))),
    decreases n,
{
    if n > 0 {
        lemma_run_removes(vals, cap, (n - 1) as nat);
        assert(removes::<T>(n).drop_last() =~= removes::<T>((n - 1) as nat));
        assert(vals.skip(n - 1).drop_first() =~= vals.skip(n as int));
        assert(vals.take(n - 1).map_values(|x: T| Some(x)).push(Some(vals[n - 1]))
            =~= vals.take(n as int).map_values(|x: T| Some(x)));
    } else {
        assert(vals.skip(0) =~= vals);
        assert(vals.take(0).map_values(|x: T| Some(x)) =~= Seq::<Option<T>>::empty());
    }
}

/// Filling an empty buffer to capacity and then removing as many times
/// returns the inserted values in the order of insertion; no insert hands
/// anything back, and the buffer ends empty.
pub proof fn lemma_round_trip<T>(vals: Seq<T>, cap: nat)
    requires
        0 < cap,
        vals.len() == cap,
    ensures
        run(Seq::<T>::empty(), cap, inserts(vals) + removes(cap)) == (
            Seq::<T>::empty(),
            Seq::new(cap, |i: int| None::<T>) + vals.map_values(|x: T| Some(x)),
        ),
{
    lemma_run_append(Seq::<T>::empty(), cap, inserts(vals), removes(cap));
    lemma_run_inserts(vals, cap);
    lemma_run_removes(vals, cap, cap);
    assert(vals.skip(cap as int) =~= Seq::<T>::empty());
    assert(vals.take(cap as int) =~= vals);
}

/// With room for one element, inserting `a` and then `b` hands back `a`,
/// and the following removal returns `b` and empties the buffer.
pub proof fn lemma_capacity_one<T>(a: T, b: T)
    ensures
        run(Seq::<T>::empty(), 1, seq![BufferOp::Insert(a), BufferOp::Insert(b), BufferOp::Remove])
            == (Seq::<T>::empty(), seq![None, Some(a), Some(b)]),
{
    let ops = seq![BufferOp::Insert(a), BufferOp::Insert(b), BufferOp::Remove];
    assert(ops.drop_last() =~= seq![BufferOp::Insert(a), BufferOp::Insert(b)]);
    assert(ops.drop_last().drop_last() =~= seq![BufferOp::Insert(a)]);
    assert(seq![BufferOp::Insert(a)].drop_last() =~= Seq::<BufferOp<T>>::empty());
    assert(seq![BufferOp::Insert(a), BufferOp::Insert(b)].drop_last() =~= seq![BufferOp::Insert(a)]);
    let r0 = run(Seq::<T>::empty(), 1, Seq::<BufferOp<T>>::empty());
    assert(r0 == (Seq::<T>::empty(), Seq::<Option<T>>::empty()));
    let r1 = run(Seq::<T>::empty(), 1, seq![BufferOp::Insert(a)]);
    assert(r1 == (Seq::<T>::empty().push(a), Seq::<Option<T>>::empty().push(None)));
    assert(r1.0 =~= seq![a]);
    assert(r1.1 =~= seq![None]);
    let r2 = run(Seq::<T>::empty(), 1, seq![BufferOp::Insert(a), BufferOp::Insert(b)]);
    assert(r2.0 =~= seq![b]);
    assert(r2.1 =~= seq![None, Some(a)]);
    let r3 = run(Seq::<T>::empty(), 1, ops);
    assert(r3.0 =~= Seq::<T>::empty());
    assert(r3.1 =~= seq![None, Some(a), Some(b)]);
}

} // verus!
