//! Sets of small numbers packed into the bits of a `u64`.

use vstd::prelude::*;

verus! {

/// Whether bit `i` of `v` is set.
pub open spec fn is_set(v: u64, i: nat) -> bool {
    i < 64 && (v >> (i as u64)) & 1 == 1
}

/// The set of the numbers whose bit is set in `v`.
pub open spec fn members(v: u64) -> Set<nat> {
    Set::new(|i: nat| is_set(v, i))
}

/// The numbers from `from` to `to`, both included.
pub open spec fn span(from: nat, to: nat) -> Set<nat> {
    Set::new(|i: nat| from <= i <= to)
}

/// The numbers below `n`.
pub open spec fn below(n: nat) -> Set<nat> {
    Set::new(|i: nat| i < n)
}

/// The multiples of `m` below `n`.
pub open spec fn multiples(m: nat, n: nat) -> Set<nat> {
    Set::new(|i: nat| i < n && i % m == 0)
}

/// No bit of zero is set.
pub proof fn lemma_members_of_zero()
    ensures
        members(0) == Set::<nat>::empty(),
{
    assert forall|i: nat| !is_set(0, i) by {
        if i < 64 {
            let j = i as u64;
            assert((0u64 >> j) & 1 == 0) by (bit_vector);
        }
    }
    assert(members(0) =~= Set::<nat>::empty());
}

/// Whether bit `i` of `v` is set.
pub fn has_bit(v: u64, i: u64) -> (set: bool)
    requires
        i < 64,
    ensures
        set == is_set(v, i as nat),
{
    assert(((v & (1u64 << i)) != 0) == ((v >> i) & 1 == 1)) by (bit_vector)
        requires
            i < 64,
    ;
    (v & (1u64 << i)) != 0
}

/// `v` with bit `i` set as well.
pub fn with_bit(v: u64, i: u64) -> (r: u64)
    requires
        i < 64,
    ensures
        members(r) == members(v).insert(i as nat),
{
    let r = v | (1u64 << i);
    proof {
        assert forall|k: nat| is_set(r, k) == (is_set(v, k) || k == i) by {
            if k < 64 {
                let j = k as u64;
                assert((((v | (1u64 << i)) >> j) & 1 == 1) == ((v >> j) & 1 == 1 || j == i))
                    by (bit_vector)
                    requires
                        i < 64,
                        j < 64,
                ;
            }
        }
        assert(members(r) =~= members(v).insert(i as nat));
    }
    r
}

/// The bits of `v` and of `w` together.
pub fn union(v: u64, w: u64) -> (r: u64)
    ensures
        members(r) == members(v).union(members(w)),
{
    let r = v | w;
    proof {
        assert forall|k: nat| is_set(r, k) == (is_set(v, k) || is_set(w, k)) by {
            if k < 64 {
                let j = k as u64;
                assert((((v | w) >> j) & 1 == 1) == ((v >> j) & 1 == 1 || (w >> j) & 1 == 1))
                    by (bit_vector);
            }
        }
        assert(members(r) =~= members(v).union(members(w)));
    }
    r
}

/// The bit vector of the numbers from `from` to `to`, both included.
pub fn fill_span(from: u64, to: u64) -> (r: u64)
    requires
        from <= to < 64,
    ensures
        members(r) == span(from as nat, to as nat),
{
    let mut r: u64 = 0;
    let mut i: u64 = from;
    proof {
        lemma_members_of_zero();
        assert(members(r) =~= Set::new(|k: nat| from <= k < i));
    }
    while i <= to
        invariant
            from <= i <= to + 1,
            to < 64,
            members(r) == Set::new(|k: nat| from <= k < i),
        decreases to + 1 - i,
    {
        r = with_bit(r, i);
        i += 1;
        proof {
            assert(members(r) =~= Set::new(|k: nat| from <= k < i));
        }
    }
    proof {
        assert(members(r) =~= span(from as nat, to as nat));
    }
    r
}

/// The bit vector of the numbers below `n`.
pub fn fill_below(n: u64) -> (r: u64)
    requires
        n <= 64,
    ensures
        members(r) == below(n as nat),
{
    if n == 0 {
        proof {
            lemma_members_of_zero();
            assert(below(0) =~= Set::<nat>::empty());
        }
        0
    } else {
        let r = fill_span(0, n - 1);
        proof {
            assert(span(0, (n - 1) as nat) =~= below(n as nat));
        }
        r
    }
}

/// The bit vector of the multiples of `m` below `n`.
pub fn fill_multiples(m: u64, n: u64) -> (r: u64)
    requires
        m > 0,
        n <= 64,
    ensures
        members(r) == multiples(m as nat, n as nat),
{
    let mut r: u64 = 0;
    let mut i: u64 = 0;
    proof {
        lemma_members_of_zero();
        assert(members(r) =~= multiples(m as nat, 0));
    }
    while i < n
        invariant
            i <= n <= 64,
            m > 0,
            members(r) == multiples(m as nat, i as nat),
        decreases n - i,
    {
        if i % m == 0 {
            r = with_bit(r, i);
        }
        i += 1;
        proof {
            assert(members(r) =~= multiples(m as nat, i as nat));
        }
    }
    r
}

} // verus!
