use vstd::prelude::*;

verus! {

/// A drawing made step by step: the pixels that each step contributes.
pub type Trace = spec_fn(nat) -> Set<(int, int)>;

/// The pixels of the first `n` steps of `t`.
pub open spec fn steps_upto(t: Trace, n: nat) -> Set<(int, int)>
    decreases n,
{
    if n == 0 {
        Set::empty()
    } else {
        steps_upto(t, (n - 1) as nat).union(t((n - 1) as nat))
    }
}

/// The pixels of all the steps of `t`.
pub open spec fn steps_all(t: Trace) -> Set<(int, int)> {
    Set::new(|p: (int, int)| exists|m: nat| (#[trigger] t(m)).contains(p))
}

/// A pixel is among the first `n` steps exactly when one of them holds it.
pub proof fn lemma_steps_upto(t: Trace, n: nat, p: (int, int))
    ensures
        steps_upto(t, n).contains(p) <==> exists|m: nat| m < n && (#[trigger] t(m)).contains(p),
    decreases n,
{
    if n > 0 {
        lemma_steps_upto(t, (n - 1) as nat, p);
        if steps_upto(t, n).contains(p) {
            if t((n - 1) as nat).contains(p) {
                let last = (n - 1) as nat;
                assert(last < n && t(last).contains(p));
            } else {
                let m = choose|m: nat| m < n - 1 && (#[trigger] t(m)).contains(p);
                assert(m < n && t(m).contains(p));
            }
        }
        if exists|m: nat| m < n && (#[trigger] t(m)).contains(p) {
            let m = choose|m: nat| m < n && (#[trigger] t(m)).contains(p);
            if m < n - 1 {
                assert(m < n - 1 && t(m).contains(p));
            } else {
                assert(m == (n - 1) as nat);
            }
        }
    }
}

/// Once every step from the `n`-th on contributes nothing, the first `n`
/// steps are the whole drawing.
pub proof fn lemma_steps_done(t: Trace, n: nat)
    requires
        forall|m: nat| m >= n ==> #[trigger] t(m) == Set::<(int, int)>::empty(),
    ensures
        steps_all(t) == steps_upto(t, n),
{
    assert forall|p: (int, int)| steps_all(t).contains(p) <==> steps_upto(t, n).contains(p) by {
        lemma_steps_upto(t, n, p);
        if steps_all(t).contains(p) {
            let m = choose|m: nat| (#[trigger] t(m)).contains(p);
            assert(m < n);
        }
    }
    assert(steps_all(t) =~= steps_upto(t, n));
}

/// Once every step from the `n`-th on contributes what the `n`-th does, the
/// first `n + 1` steps are the whole drawing.
pub proof fn lemma_steps_settled(t: Trace, n: nat)
    requires
        forall|m: nat| m >= n ==> #[trigger] t(m) == t(n),
    ensures
        steps_all(t) == steps_upto(t, n + 1),
{
    assert forall|p: (int, int)| steps_all(t).contains(p) <==> steps_upto(t, n + 1).contains(
        p,
    ) by {
        lemma_steps_upto(t, n + 1, p);
        if steps_all(t).contains(p) {
            let m = choose|m: nat| (#[trigger] t(m)).contains(p);
            if m >= n {
                assert(t(m) == t(n));
                assert(n < n + 1 && t(n).contains(p));
            }
        }
    }
    assert(steps_all(t) =~= steps_upto(t, n + 1));
}

/// If every step of `a` lies inside the same step of `b`, the drawing `a`
/// lies inside the drawing `b`.
pub proof fn lemma_steps_subset(a: Trace, b: Trace)
    requires
        forall|m: nat| (#[trigger] a(m)).subset_of(b(m)),
    ensures
        steps_all(a).subset_of(steps_all(b)),
{
    assert forall|p: (int, int)| steps_all(a).contains(p) implies steps_all(b).contains(p) by {
        let m = choose|m: nat| (#[trigger] a(m)).contains(p);
        assert(a(m).subset_of(b(m)));
        assert(b(m).contains(p));
    }
}

} // verus!
