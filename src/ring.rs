use vstd::prelude::*;

verus! {

/// Contents of a buffer of capacity `cap` holding `s`, after `x` is pushed:
/// with no room the oldest element is evicted, and a buffer of capacity zero
/// keeps nothing.
pub open spec fn pushed<T>(cap: nat, s: Seq<T>, x: T) -> Seq<T> {
    if cap == 0 {
        s
    } else if s.len() >= cap {
        s.drop_first().push(x)
    } else {
        s.push(x)
    }
}

/// Contents after a pop: the oldest element leaves, an empty buffer stays empty.
pub open spec fn popped<T>(s: Seq<T>) -> Seq<T> {
    if s.len() == 0 {
        s
    } else {
        s.drop_first()
    }
}

/// Slot of the `k`-th oldest element on a ring of `cap` slots whose oldest
/// element sits at `start` (for `start < cap` and `k <= cap`).
pub open spec fn slot_of(start: int, k: int, cap: int) -> int {
    if start + k < cap {
        start + k
    } else {
        start + k - cap
    }
}

/// Distance from `start` forward to slot `i` on a ring of `cap` slots
/// (for `start, i < cap`).
pub open spec fn offset_of(start: int, i: int, cap: int) -> int {
    if i >= start {
        i - start
    } else {
        i + cap - start
    }
}

/// The position `k` places after `start` on a ring of `cap` slots, that is
/// `(start + k) mod cap`, computed without overflow.
pub fn ring_index(start: usize, k: usize, cap: usize) -> (r: usize)
    requires
        start < cap,
        k <= cap,
    ensures
        r as int == (start + k) % (cap as int),
        r < cap,
        r as int == slot_of(start as int, k as int, cap as int),
{
    proof {
        lemma_wrap_once(start + k, cap as int);
    }
    if k < cap - start {
        start + k
    } else {
        k - (cap - start)
    }
}

/// A value below twice the modulus wraps at most once.
pub proof fn lemma_wrap_once(x: int, m: int)
    requires
        0 <= x < 2 * m,
    ensures
        x < m ==> x % m == x,
        x >= m ==> x % m == x - m,
{
    if x < m {
        vstd::arithmetic::div_mod::lemma_small_mod(x as nat, m as nat);
    } else {
        vstd::arithmetic::div_mod::lemma_small_mod((x - m) as nat, m as nat);
        vstd::arithmetic::div_mod::lemma_mod_sub_multiples_vanish(x, m);
    }
}

/// Contents after pushing each of `xs` in turn.
pub open spec fn push_all<T>(cap: nat, s: Seq<T>, xs: Seq<T>) -> Seq<T>
    decreases xs.len(),
{
    if xs.len() == 0 {
        s
    } else {
        pushed(cap, push_all(cap, s, xs.drop_last()), xs.last())
    }
}

/// Contents after `n` pops.
pub open spec fn pop_n<T>(s: Seq<T>, n: nat) -> Seq<T>
    decreases n,
{
    if n == 0 {
        s
    } else {
        popped(pop_n(s, (n - 1) as nat))
    }
}

/// Whatever was pushed, a buffer holds the newest `cap` of all the elements
/// it has seen, oldest first.
pub proof fn lemma_push_all_keeps_newest<T>(cap: nat, s: Seq<T>, xs: Seq<T>)
    requires
        s.len() <= cap,
    ensures
        push_all(cap, s, xs) == (s + xs).subrange(
            if s.len() + xs.len() > cap { s.len() + xs.len() - cap } else { 0 },
            s.len() + xs.len() as int,
        ),
    decreases xs.len(),
{
    let all = s + xs;
    let n = s.len() + xs.len();
    if xs.len() == 0 {
        assert(all =~= s);
        assert(all.subrange(0, n as int) =~= s);
    } else {
        lemma_push_all_keeps_newest(cap, s, xs.drop_last());
        let m = n - 1;
        let prev = push_all(cap, s, xs.drop_last());
        let lo_prev: int = if m > cap { m - cap } else { 0 };
        let lo: int = if n > cap { n - cap } else { 0 };
        assert(s + xs.drop_last() =~= all.subrange(0, m as int));
        assert(prev =~= all.subrange(lo_prev, m as int));
        assert(all[m as int] == xs.last());
        if cap == 0 {
            assert(all.subrange(lo, n as int) =~= prev);
        } else if prev.len() >= cap {
            assert(all.subrange(lo, n as int) =~= prev.drop_first().push(xs.last()));
        } else {
            assert(all.subrange(lo, n as int) =~= prev.push(xs.last()));
        }
    }
}

/// Up to capacity, elements come out in the order they went in: after `n`
/// pops the oldest remaining element is the `n`-th one pushed.
pub proof fn lemma_fifo<T>(cap: nat, xs: Seq<T>, n: nat)
    requires
        xs.len() <= cap,
        n < xs.len(),
    ensures
        pop_n(push_all(cap, Seq::empty(), xs), n).len() == xs.len() - n,
        pop_n(push_all(cap, Seq::empty(), xs), n)[0] == xs[n as int],
{
    lemma_push_all_keeps_newest(cap, Seq::empty(), xs);
    assert(Seq::<T>::empty() + xs =~= xs);
    assert(push_all(cap, Seq::empty(), xs) =~= xs);
    lemma_pop_n_drops(xs, n);
}

/// `n` pops remove the `n` oldest elements, or all of them.
pub proof fn lemma_pop_n_drops<T>(s: Seq<T>, n: nat)
    ensures
        pop_n(s, n) == s.subrange(if n < s.len() { n as int } else { s.len() as int }, s.len() as int),
    decreases n,
{
    if n == 0 {
        assert(s.subrange(0, s.len() as int) =~= s);
    } else {
        lemma_pop_n_drops(s, (n - 1) as nat);
        let prev = pop_n(s, (n - 1) as nat);
        if n - 1 < s.len() {
            assert(prev.drop_first() =~= s.subrange(
                if n < s.len() { n as int } else { s.len() as int },
                s.len() as int,
            ));
        }
    }
}

/// Pushing more than `cap` elements into an empty buffer keeps exactly the
/// last `cap` of them, oldest first.
pub proof fn lemma_overwrite_keeps_last<T>(cap: nat, xs: Seq<T>)
    requires
        cap >= 1,
        xs.len() > cap,
    ensures
        push_all(cap, Seq::empty(), xs) == xs.subrange(xs.len() - cap, xs.len() as int),
{
    lemma_push_all_keeps_newest(cap, Seq::empty(), xs);
    assert(Seq::<T>::empty() + xs =~= xs);
}

/// Pushes followed by pops leave `min(pushes, cap) - pops` elements, and
/// never fewer than none.
pub proof fn lemma_size_after_pushes_then_pops<T>(cap: nat, xs: Seq<T>, n: nat)
    ensures
        pop_n(push_all(cap, Seq::empty(), xs), n).len() == {
            let kept: int = if xs.len() < cap { xs.len() as int } else { cap as int };
            if kept > n { kept - n } else { 0 }
        },
{
    lemma_push_all_keeps_newest(cap, Seq::empty(), xs);
    lemma_pop_n_drops(push_all(cap, Seq::empty(), xs), n);
}

/// With the unbounded capacity of element types without a footprint, pushes
/// never evict as long as the count fits in a `usize`.
pub proof fn lemma_unbounded_never_evicts<T>(s: Seq<T>, xs: Seq<T>)
    requires
        s.len() + xs.len() <= usize::MAX,
    ensures
        push_all(usize::MAX as nat, s, xs) == s + xs,
{
    lemma_push_all_keeps_newest(usize::MAX as nat, s, xs);
    assert((s + xs).subrange(0, s.len() + xs.len() as int) =~= s + xs);
}

} // verus!
