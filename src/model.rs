//! The mathematical model of a queue: its contents as a sequence, oldest
//! element first, and the effect of each operation on that sequence.
use vstd::prelude::*;

verus! {

/// How many elements fit in a queue whose storage has `n` slots: one slot
/// always stays free, and a queue without slots holds nothing.
pub open spec fn usable(n: nat) -> nat {
    if n == 0 {
        0
    } else {
        (n - 1) as nat
    }
}

/// Whether a push onto contents `s`, with room for `cap` elements, is accepted.
pub open spec fn has_room<T>(s: Seq<T>, cap: nat) -> bool {
    s.len() < cap
}

/// The contents after pushing `v`: appended at the back when there is room,
/// unchanged otherwise.
pub open spec fn after_push<T>(s: Seq<T>, cap: nat, v: T) -> Seq<T> {
    if has_room(s, cap) {
        s.push(v)
    } else {
        s
    }
}

/// What a pop returns: the oldest element, if there is one.
pub open spec fn front<T>(s: Seq<T>) -> Option<T> {
    if s.len() > 0 {
        Some(s[0])
    } else {
        None
    }
}

/// The contents after a pop: the oldest element removed, if there is one.
pub open spec fn after_pop<T>(s: Seq<T>) -> Seq<T> {
    if s.len() > 0 {
        s.drop_first()
    } else {
        s
    }
}

/// What `pop_into` leaves in its output slot, which held `out` before: the
/// oldest element, or `out` itself when the queue is empty.
pub open spec fn taken_into<T>(s: Seq<T>, out: T) -> T {
    if s.len() > 0 {
        s[0]
    } else {
        out
    }
}

/// One call on a queue, as the laws about runs of calls describe it.
pub enum Call<T> {
    Push(T),
    Pop,
}

/// The contents after a run of `calls`, starting from `s`.
pub open spec fn contents_after<T>(s: Seq<T>, cap: nat, calls: Seq<Call<T>>) -> Seq<T>
    decreases calls.len(),
{
    if calls.len() == 0 {
        s
    } else {
        let before = contents_after(s, cap, calls.drop_last());
        match calls.last() {
            Call::Push(v) => after_push(before, cap, v),
            Call::Pop => after_pop(before),
        }
    }
}

/// The values that the pops of a run of `calls` returned, in order.
pub open spec fn popped_during<T>(s: Seq<T>, cap: nat, calls: Seq<Call<T>>) -> Seq<T>
    decreases calls.len(),
{
    if calls.len() == 0 {
        Seq::empty()
    } else {
        let before = contents_after(s, cap, calls.drop_last());
        let earlier = popped_during(s, cap, calls.drop_last());
        match calls.last() {
            Call::Push(_) => earlier,
            Call::Pop => if before.len() > 0 {
                earlier.push(before[0])
            } else {
                earlier
            },
        }
    }
}

/// The values whose push was accepted during a run of `calls`, in order.
pub open spec fn accepted_during<T>(s: Seq<T>, cap: nat, calls: Seq<Call<T>>) -> Seq<T>
    decreases calls.len(),
{
    if calls.len() == 0 {
        Seq::empty()
    } else {
        let before = contents_after(s, cap, calls.drop_last());
        let earlier = accepted_during(s, cap, calls.drop_last());
        match calls.last() {
            Call::Push(v) => if has_room(before, cap) {
                earlier.push(v)
            } else {
                earlier
            },
            Call::Pop => earlier,
        }
    }
}

/// A push of each of `vs`, in order.
pub open spec fn pushes_of<T>(vs: Seq<T>) -> Seq<Call<T>> {
    vs.map_values(|v: T| Call::Push(v))
}

/// `k` pops.
pub open spec fn pops<T>(k: nat) -> Seq<Call<T>> {
    Seq::new(k, |i: int| Call::<T>::Pop)
}

/// Only pops free room: over any run of calls, whatever their interleaving,
/// a queue that starts within its capacity stays within it, and the pushes
/// that succeed number at most the free room at the start plus the values
/// that were popped.
pub proof fn lemma_capacity_bound<T>(s: Seq<T>, cap: nat, calls: Seq<Call<T>>)
    requires
        s.len() <= cap,
    ensures
        contents_after(s, cap, calls).len() <= cap,
        s.len() + accepted_during(s, cap, calls).len() == contents_after(s, cap, calls).len()
            + popped_during(s, cap, calls).len(),
        accepted_during(s, cap, calls).len() <= cap - s.len() + popped_during(s, cap, calls).len(),
    decreases calls.len(),
{
    if calls.len() > 0 {
        lemma_capacity_bound(s, cap, calls.drop_last());
    }
}

/// First in, first out, across any interleaving of pushes and pops and
/// however often the storage wraps round: what was popped, followed by what
/// is still queued, is what was queued at the start followed by every value
/// whose push was accepted.
pub proof fn lemma_fifo<T>(s: Seq<T>, cap: nat, calls: Seq<Call<T>>)
    ensures
        popped_during(s, cap, calls) + contents_after(s, cap, calls) == s + accepted_during(
            s,
            cap,
            calls,
        ),
    decreases calls.len(),
{
    if calls.len() > 0 {
        let rest = calls.drop_last();
        lemma_fifo(s, cap, rest);
        let before = contents_after(s, cap, rest);
        let out = popped_during(s, cap, rest);
        let acc = accepted_during(s, cap, rest);
        match calls.last() {
            Call::Push(v) => {
                if has_room(before, cap) {
                    assert(out + before.push(v) =~= (out + before).push(v));
                    assert(s + acc.push(v) =~= (s + acc).push(v));
                }
            },
            Call::Pop => {
                if before.len() > 0 {
                    assert(out.push(before[0]) + before.drop_first() =~= out + before);
                }
            },
        }
    }
}

/// Running `a` and then `b` is running `b` from where `a` left the queue.
proof fn lemma_run_split<T>(s: Seq<T>, cap: nat, a: Seq<Call<T>>, b: Seq<Call<T>>)
    ensures
        contents_after(s, cap, a + b) == contents_after(contents_after(s, cap, a), cap, b),
        popped_during(s, cap, a + b) == popped_during(s, cap, a) + popped_during(
            contents_after(s, cap, a),
            cap,
            b,
        ),
        accepted_during(s, cap, a + b) == accepted_during(s, cap, a) + accepted_during(
            contents_after(s, cap, a),
            cap,
            b,
        ),
    decreases b.len(),
{
    let mid = contents_after(s, cap, a);
    if b.len() == 0 {
        assert(a + b =~= a);
        assert(popped_during(s, cap, a) + Seq::<T>::empty() =~= popped_during(s, cap, a));
        assert(accepted_during(s, cap, a) + Seq::<T>::empty() =~= accepted_during(s, cap, a));
    } else {
        lemma_run_split(s, cap, a, b.drop_last());
        assert((a + b).drop_last() =~= a + b.drop_last());
        assert((a + b).last() == b.last());
        let p1 = popped_during(s, cap, a);
        let p2 = popped_during(mid, cap, b.drop_last());
        let a1 = accepted_during(s, cap, a);
        let a2 = accepted_during(mid, cap, b.drop_last());
        let before = contents_after(mid, cap, b.drop_last());
        match b.last() {
            Call::Push(v) => {
                assert(a1 + a2.push(v) =~= (a1 + a2).push(v));
            },
            Call::Pop => {
                if before.len() > 0 {
                    assert(p1 + p2.push(before[0]) =~= (p1 + p2).push(before[0]));
                }
            },
        }
    }
}

/// Pushing each of `vs` onto `s` with room for all of them.
proof fn lemma_push_all<T>(s: Seq<T>, cap: nat, vs: Seq<T>)
    requires
        s.len() + vs.len() <= cap,
    ensures
        contents_after(s, cap, pushes_of(vs)) == s + vs,
        accepted_during(s, cap, pushes_of(vs)) == vs,
        popped_during(s, cap, pushes_of(vs)) == Seq::<T>::empty(),
    decreases vs.len(),
{
    if vs.len() == 0 {
        assert(s + vs =~= s);
        assert(pushes_of(vs) =~= Seq::<Call<T>>::empty());
    } else {
        let rest = vs.drop_last();
        lemma_push_all(s, cap, rest);
        assert(pushes_of(vs).drop_last() =~= pushes_of(rest));
        assert(s + vs =~= (s + rest).push(vs.last()));
        assert(vs =~= rest.push(vs.last()));
    }
}

/// Popping `k` times from `s`, which holds at least `k` elements.
proof fn lemma_pop_all<T>(s: Seq<T>, cap: nat, k: nat)
    requires
        k <= s.len(),
    ensures
        contents_after(s, cap, pops(k)) == s.skip(k as int),
        popped_during(s, cap, pops(k)) == s.take(k as int),
        accepted_during(s, cap, pops(k)) == Seq::<T>::empty(),
    decreases k,
{
    if k == 0 {
        assert(s.skip(0) =~= s);
        assert(s.take(0) =~= Seq::<T>::empty());
    } else {
        lemma_pop_all(s, cap, (k - 1) as nat);
        assert(pops::<T>(k).drop_last() =~= pops::<T>((k - 1) as nat));
        assert(s.skip((k - 1) as int).drop_first() =~= s.skip(k as int));
        assert(s.take((k - 1) as int).push(s.skip((k - 1) as int)[0]) =~= s.take(k as int));
    }
}

/// First in, first out, in its plainest form: pushing `vs` onto an empty queue
/// with room for all of them and then popping as many times returns `vs` in
/// the order it was pushed, and leaves the queue empty.
pub proof fn lemma_fill_then_drain<T>(cap: nat, vs: Seq<T>)
    requires
        vs.len() <= cap,
    ensures
        accepted_during(Seq::empty(), cap, pushes_of(vs) + pops(vs.len())) == vs,
        popped_during(Seq::empty(), cap, pushes_of(vs) + pops(vs.len())) == vs,
        contents_after(Seq::empty(), cap, pushes_of(vs) + pops(vs.len())) == Seq::<T>::empty(),
{
    let e = Seq::<T>::empty();
    lemma_run_split(e, cap, pushes_of(vs), pops(vs.len()));
    lemma_push_all(e, cap, vs);
    assert(e + vs =~= vs);
    lemma_pop_all(vs, cap, vs.len());
    assert(vs.skip(vs.len() as int) =~= e);
    assert(vs.take(vs.len() as int) =~= vs);
    assert(vs + e =~= vs);
    assert(e + vs =~= vs);
}

/// Emptiness is stable: once a pop has found the queue empty, any number of
/// further pops find it empty too and change nothing.
pub proof fn lemma_drained_stays_empty<T>(s: Seq<T>, cap: nat, k: nat)
    requires
        front(s) is None,
    ensures
        popped_during(s, cap, pops(k)) == Seq::<T>::empty(),
        contents_after(s, cap, pops(k)) == s,
    decreases k,
{
    if k > 0 {
        lemma_drained_stays_empty(s, cap, (k - 1) as nat);
        assert(pops::<T>(k).drop_last() =~= pops::<T>((k - 1) as nat));
    }
}

/// `pop` and `pop_into` take the same element: where `pop` returns `Some(v)`,
/// `pop_into` writes `v` to its output slot, and where `pop` returns `None`,
/// `pop_into` leaves the slot as it was. Both leave the same contents behind
/// (`after_pop`).
pub proof fn lemma_pop_matches_pop_into<T>(s: Seq<T>, out: T)
    ensures
        match front(s) {
            Some(v) => taken_into(s, out) == v,
            None => taken_into(s, out) == out,
        },
{
}

} // verus!
