//! Sums over the entries of a map.

use vstd::prelude::*;

verus! {

/// The sum of `f` over the values of a finite map.
pub open spec fn sum_over<K>(m: Map<K, i128>, f: spec_fn(i128) -> int) -> int
    decreases m.len(),
{
    if m.dom().finite() && m.len() > 0 {
        let key = m.dom().choose();
        f(m[key]) + sum_over(m.remove(key), f)
    } else {
        0
    }
}

/// The sum of the values of a finite map.
pub open spec fn sum_of<K>(m: Map<K, i128>) -> int {
    sum_over(m, |value: i128| value as int)
}

/// A sum over nothing is nothing, and a sum over one entry is that entry's part.
pub proof fn law_small_sums<K>(f: spec_fn(i128) -> int, key: K, value: i128)
    ensures
        sum_over(Map::<K, i128>::empty(), f) == 0,
        sum_over(Map::<K, i128>::empty().insert(key, value), f) == f(value),
{
    lemma_sum_insert(Map::<K, i128>::empty(), f, key, value);
}

/// Any entry can be taken out of a sum.
pub proof fn lemma_sum_remove<K>(m: Map<K, i128>, f: spec_fn(i128) -> int, key: K)
    requires
        m.dom().finite(),
        m.contains_key(key),
    ensures
        sum_over(m, f) == f(m[key]) + sum_over(m.remove(key), f),
    decreases m.len(),
{
    let first = m.dom().choose();
    assert(m.len() > 0) by {
        if m.len() == 0 {
            assert(m.dom() =~= Set::empty());
        }
    }
    if first != key {
        lemma_sum_remove(m.remove(first), f, key);
        lemma_sum_remove(m.remove(key), f, first);
        assert(m.remove(first).remove(key) =~= m.remove(key).remove(first));
    }
}

/// A sum follows a write of one entry.
pub proof fn lemma_sum_insert<K>(m: Map<K, i128>, f: spec_fn(i128) -> int, key: K, value: i128)
    requires
        m.dom().finite(),
    ensures
        m.insert(key, value).dom().finite(),
        m.contains_key(key) ==> sum_over(m.insert(key, value), f) == sum_over(m, f) - f(m[key])
            + f(value),
        !m.contains_key(key) ==> sum_over(m.insert(key, value), f) == sum_over(m, f) + f(value),
{
    let after = m.insert(key, value);
    lemma_sum_remove(after, f, key);
    if m.contains_key(key) {
        lemma_sum_remove(m, f, key);
        assert(after.remove(key) =~= m.remove(key));
    } else {
        assert(after.remove(key) =~= m);
    }
}

/// A sum of two functions is the sum of their sums.
pub proof fn lemma_sum_add<K>(
    m: Map<K, i128>,
    f: spec_fn(i128) -> int,
    g: spec_fn(i128) -> int,
    h: spec_fn(i128) -> int,
)
    requires
        forall|v: i128| #[trigger] h(v) == f(v) + g(v),
    ensures
        sum_over(m, h) == sum_over(m, f) + sum_over(m, g),
    decreases m.len(),
{
    if m.dom().finite() && m.len() > 0 {
        let key = m.dom().choose();
        lemma_sum_add(m.remove(key), f, g, h);
        assert(h(m[key]) == f(m[key]) + g(m[key]));
    }
}

/// A sum of values that are not negative is not negative.
pub proof fn lemma_sum_nonnegative<K>(m: Map<K, i128>)
    requires
        forall|key: K| #[trigger] m.contains_key(key) ==> m[key] >= 0,
    ensures
        sum_of(m) >= 0,
    decreases m.len(),
{
    if m.dom().finite() && m.len() > 0 {
        let key = m.dom().choose();
        assert(m.contains_key(key));
        lemma_sum_nonnegative(m.remove(key));
    }
}

/// A part of the entries adds up to no more than all of them, if no value is negative.
pub proof fn lemma_sum_submap<K>(part: Map<K, i128>, whole: Map<K, i128>)
    requires
        part.submap_of(whole),
        whole.dom().finite(),
        forall|key: K| #[trigger] whole.contains_key(key) ==> whole[key] >= 0,
    ensures
        part.dom().finite(),
        sum_of(part) <= sum_of(whole),
    decreases whole.len(),
{
    assert(part.dom().subset_of(whole.dom()));
    vstd::set_lib::lemma_len_subset(part.dom(), whole.dom());
    if whole.len() > 0 {
        let key = whole.dom().choose();
        let own = |value: i128| value as int;
        assert(whole.contains_key(key));
        lemma_sum_submap(part.remove(key), whole.remove(key));
        if part.contains_key(key) {
            lemma_sum_remove(part, own, key);
        } else {
            assert(part.remove(key) =~= part);
        }
    }
}

/// Parts that are each rounded down add up to no more than the whole, rounded down.
pub proof fn lemma_sum_of_parts<K>(m: Map<K, i128>, pool: int, total: int)
    requires
        total > 0,
        pool >= 0,
        forall|key: K| #[trigger] m.contains_key(key) ==> m[key] >= 0,
    ensures
        sum_over(m, |value: i128| (value * pool) / total) <= (sum_of(m) * pool) / total,
    decreases m.len(),
{
    let part = |value: i128| (value * pool) / total;
    if m.dom().finite() && m.len() > 0 {
        let key = m.dom().choose();
        let rest = m.remove(key);
        assert(m.contains_key(key));
        lemma_sum_of_parts(rest, pool, total);
        let a = m[key] * pool;
        let b = sum_of(rest) * pool;
        assert(sum_of(m) * pool == a + b) by (nonlinear_arith)
            requires
                sum_of(m) == m[key] + sum_of(rest),
                a == m[key] * pool,
                b == sum_of(rest) * pool,
        ;
        assert(a / total + b / total <= (a + b) / total) by (nonlinear_arith)
            requires
                total > 0,
        ;
    } else {
        assert(0 * pool == 0);
        assert(0int / total == 0) by (nonlinear_arith)
            requires
                total > 0,
        ;
    }
}

} // verus!
