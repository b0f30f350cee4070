//! The geometric growth policy for the stack's capacity.
use vstd::prelude::*;

verus! {

/// The capacity a fresh buffer starts from when it first has to grow.
pub const BASE_CAPACITY: usize = 10;

/// The step of the growth policy: an empty buffer jumps to the base
/// capacity, any other one doubles.
pub open spec fn next_cap(cap: nat) -> nat {
    if cap == 0 {
        BASE_CAPACITY as nat
    } else {
        2 * cap
    }
}

/// The capacity the growth policy reaches from `cap` when at least `needed`
/// slots are wanted: `cap` itself if it already suffices, else the first
/// value of the sequence `next_cap(cap), next_cap(next_cap(cap)), ...`
/// that does.
pub open spec fn grown_cap(cap: nat, needed: nat) -> nat
    decreases (if cap >= needed { 0 } else { needed - cap }),
{
    if cap >= needed {
        cap
    } else {
        grown_cap(next_cap(cap), needed)
    }
}

/// The result of the growth policy is never below where it starts nor below
/// what was asked for.
pub proof fn lemma_grown_cap_bounds(cap: nat, needed: nat)
    ensures
        grown_cap(cap, needed) >= cap,
        grown_cap(cap, needed) >= needed,
        cap >= needed ==> grown_cap(cap, needed) == cap,
        cap == 0 && needed > 0 ==> grown_cap(cap, needed) >= BASE_CAPACITY,
    decreases (if cap >= needed { 0 } else { needed - cap }),
{
    if cap < needed {
        lemma_grown_cap_bounds(next_cap(cap), needed);
    }
}

/// Asking for more never yields a smaller capacity.
pub proof fn lemma_grown_cap_monotone(cap: nat, n1: nat, n2: nat)
    requires
        n1 <= n2,
    ensures
        grown_cap(cap, n1) <= grown_cap(cap, n2),
    decreases (if cap >= n2 { 0 } else { n2 - cap }),
{
    lemma_grown_cap_bounds(cap, n2);
    if cap < n1 {
        lemma_grown_cap_monotone(next_cap(cap), n1, n2);
    }
}

/// A capacity that the policy already yields is a fixed point of it.
pub proof fn lemma_grown_cap_idempotent(cap: nat, needed: nat)
    ensures
        grown_cap(cap, grown_cap(cap, needed)) == grown_cap(cap, needed),
    decreases (if cap >= needed { 0 } else { needed - cap }),
{
    lemma_grown_cap_bounds(cap, needed);
    if cap < needed {
        let m = grown_cap(cap, needed);
        lemma_grown_cap_bounds(next_cap(cap), needed);
        lemma_grown_cap_idempotent(next_cap(cap), needed);
        assert(grown_cap(cap, m) == grown_cap(next_cap(cap), m));
    }
}

/// Growing from `a` passes through every capacity `c` on its way to `c`:
/// from there on both runs coincide.
pub proof fn lemma_grown_cap_passes(a: nat, c: nat, needed: nat)
    requires
        a <= c,
        c <= needed,
        grown_cap(a, c) == c,
    ensures
        grown_cap(a, needed) == grown_cap(c, needed),
    decreases c - a,
{
    if a < c {
        lemma_grown_cap_bounds(next_cap(a), c);
        lemma_grown_cap_passes(next_cap(a), c, needed);
    }
}

/// A capacity reachable from an empty buffer stays reachable from an empty
/// buffer after the policy grows it.
pub proof fn lemma_grown_cap_reachable(cap: nat, needed: nat)
    requires
        grown_cap(0, cap) == cap,
    ensures
        grown_cap(0, grown_cap(cap, needed)) == grown_cap(cap, needed),
{
    if cap < needed {
        lemma_grown_cap_passes(0, cap, needed);
        lemma_grown_cap_idempotent(0, needed);
    }
}

/// Computes the capacity the growth policy reaches from `cap` for at least
/// `supposed_size` slots; `None` when that capacity does not fit in a `usize`.
pub fn cap_inc(cap: usize, supposed_size: usize) -> (r: Option<usize>)
    ensures
        r matches Some(c) ==> c == grown_cap(cap as nat, supposed_size as nat),
        r is None <==> grown_cap(cap as nat, supposed_size as nat) > usize::MAX,
{
    let mut c: usize = cap;
    while c < supposed_size
        invariant
            grown_cap(c as nat, supposed_size as nat) == grown_cap(cap as nat, supposed_size as nat),
        decreases usize::MAX - c,
    {
        if c == 0 {
            c = BASE_CAPACITY;
        } else if c > usize::MAX / 2 {
            proof {
                lemma_grown_cap_bounds(next_cap(c as nat), supposed_size as nat);
            }
            return None;
        } else {
            c = c * 2;
        }
    }
    Some(c)
}

} // verus!
