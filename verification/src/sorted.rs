use crate::order::eqv;
use crate::order::lemma_eqv_transitive;
use crate::order::lemma_lt_eqv;
use crate::order::lemma_lt_transitive;
use crate::order::lemma_trichotomy;
use crate::order::lt;
use crate::order::total_order;
use vstd::prelude::*;

verus! {

/// Every element comes strictly before each later one.
pub open spec fn strictly_increasing<T: Ord>(s: Seq<T>) -> bool {
    forall|i: int, j: int| 0 <= i < j < s.len() ==> #[trigger] lt(s[i], s[j])
}

/// Every element of `s` comes strictly before `bound`.
pub open spec fn all_below<T: Ord>(s: Seq<T>, bound: T) -> bool {
    forall|i: int| 0 <= i < s.len() ==> #[trigger] lt(s[i], bound)
}

/// Every element of `s` comes strictly after `bound`.
pub open spec fn all_above<T: Ord>(s: Seq<T>, bound: T) -> bool {
    forall|i: int| 0 <= i < s.len() ==> #[trigger] lt(bound, s[i])
}

/// Some element of `s` holds the same place in the order as `v`.
pub open spec fn holds<T: Ord>(s: Seq<T>, v: T) -> bool {
    exists|i: int| 0 <= i < s.len() && #[trigger] eqv(s[i], v)
}

/// The values of `s` lie strictly between the bounds that are present.
pub open spec fn within<T: Ord>(s: Seq<T>, min: Option<&T>, max: Option<&T>) -> bool {
    &&& (min matches Some(m) ==> all_above(s, *m))
    &&& (max matches Some(m) ==> all_below(s, *m))
}

/// `s` with `v` put in front of the first element that does not come before it,
/// unless that element already holds `v`'s place.
pub open spec fn placed<T: Ord>(s: Seq<T>, v: T) -> Seq<T>
    decreases s.len(),
{
    if s.len() == 0 {
        seq![v]
    } else if lt(s[0], v) {
        seq![s[0]] + placed(s.drop_first(), v)
    } else if lt(v, s[0]) {
        seq![v] + s
    } else {
        s
    }
}

/// A sequence joined from `a`, `v` and `b` increases strictly exactly when both
/// parts do and `v` separates them.
pub proof fn lemma_increasing_join<T: Ord>(a: Seq<T>, v: T, b: Seq<T>)
    requires
        total_order::<T>(),
    ensures
        strictly_increasing(a + seq![v] + b) <==> (strictly_increasing(a) && strictly_increasing(b)
            && all_below(a, v) && all_above(b, v)),
{
    let s = a + seq![v] + b;
    let n = a.len() as int;
    if strictly_increasing(s) {
        assert forall|i: int, j: int| 0 <= i < j < a.len() implies #[trigger] lt(a[i], a[j]) by {
            assert(lt(s[i], s[j]));
        }
        assert forall|i: int, j: int| 0 <= i < j < b.len() implies #[trigger] lt(b[i], b[j]) by {
            assert(lt(s[n + 1 + i], s[n + 1 + j]));
        }
        assert forall|i: int| 0 <= i < a.len() implies #[trigger] lt(a[i], v) by {
            assert(lt(s[i], s[n]));
        }
        assert forall|i: int| 0 <= i < b.len() implies #[trigger] lt(v, b[i]) by {
            assert(lt(s[n], s[n + 1 + i]));
        }
    }
    if strictly_increasing(a) && strictly_increasing(b) && all_below(a, v) && all_above(b, v) {
        assert forall|i: int, j: int| 0 <= i < j < s.len() implies #[trigger] lt(s[i], s[j]) by {
            if j < n {
                assert(lt(a[i], a[j]));
            } else if j == n {
                assert(lt(a[i], v));
            } else if i < n {
                assert(lt(a[i], v));
                assert(lt(v, b[j - n - 1]));
                lemma_lt_transitive(a[i], v, b[j - n - 1]);
            } else if i == n {
                assert(lt(v, b[j - n - 1]));
            } else {
                assert(lt(b[i - n - 1], b[j - n - 1]));
            }
        }
    }
}

/// Placing a value that comes after the separator only touches the right part.
pub proof fn lemma_placed_right<T: Ord>(a: Seq<T>, c: T, b: Seq<T>, v: T)
    requires
        total_order::<T>(),
        all_below(a, c),
        lt(c, v),
    ensures
        placed(a + seq![c] + b, v) == a + seq![c] + placed(b, v),
    decreases a.len(),
{
    let s = a + seq![c] + b;
    if a.len() == 0 {
        assert(s.drop_first() == b);
        assert(s[0] == c);
        assert(a + seq![c] + placed(b, v) == seq![c] + placed(b, v));
    } else {
        let rest = a.drop_first();
        assert(lt(a[0], c));
        lemma_lt_transitive(a[0], c, v);
        assert(s[0] == a[0]);
        assert(s.drop_first() == rest + seq![c] + b);
        assert forall|i: int| 0 <= i < rest.len() implies #[trigger] lt(rest[i], c) by {
            assert(lt(a[i + 1], c));
        }
        lemma_placed_right(rest, c, b, v);
        assert(seq![a[0]] + (rest + seq![c] + placed(b, v)) == a + seq![c] + placed(b, v));
    }
}

/// Placing a value that comes before the separator only touches the left part.
pub proof fn lemma_placed_left<T: Ord>(a: Seq<T>, c: T, b: Seq<T>, v: T)
    requires
        total_order::<T>(),
        lt(v, c),
    ensures
        placed(a + seq![c] + b, v) == placed(a, v) + seq![c] + b,
    decreases a.len(),
{
    let s = a + seq![c] + b;
    lemma_trichotomy(v, c);
    if a.len() == 0 {
        assert(s[0] == c);
        assert(s == seq![c] + b);
        assert(placed(a, v) == seq![v]);
        assert(seq![v] + s == seq![v] + seq![c] + b);
    } else {
        let rest = a.drop_first();
        assert(s[0] == a[0]);
        lemma_trichotomy(v, a[0]);
        if lt(a[0], v) {
            assert(s.drop_first() == rest + seq![c] + b);
            lemma_placed_left(rest, c, b, v);
            assert(seq![a[0]] + (placed(rest, v) + seq![c] + b) == seq![a[0]] + placed(rest, v)
                + seq![c] + b);
        } else if lt(v, a[0]) {
            assert(seq![v] + s == seq![v] + a + seq![c] + b);
        } else {
        }
    }
}

/// Placing a value whose place the separator holds changes nothing.
pub proof fn lemma_placed_found<T: Ord>(a: Seq<T>, c: T, b: Seq<T>, v: T)
    requires
        total_order::<T>(),
        all_below(a, c),
        eqv(c, v),
    ensures
        placed(a + seq![c] + b, v) == a + seq![c] + b,
    decreases a.len(),
{
    let s = a + seq![c] + b;
    if a.len() == 0 {
        assert(s[0] == c);
        lemma_trichotomy(c, v);
    } else {
        let rest = a.drop_first();
        assert(lt(a[0], c));
        lemma_lt_eqv(a[0], c, v);
        assert(s[0] == a[0]);
        assert(s.drop_first() == rest + seq![c] + b);
        assert forall|i: int| 0 <= i < rest.len() implies #[trigger] lt(rest[i], c) by {
            assert(lt(a[i + 1], c));
        }
        lemma_placed_found(rest, c, b, v);
        assert(seq![a[0]] + (rest + seq![c] + b) == s);
    }
}

/// What two subtrees and the value between them must meet for the joined
/// sequence to increase strictly between two bounds.
pub proof fn lemma_within_join<T: Ord>(
    a: Seq<T>,
    v: T,
    b: Seq<T>,
    min: Option<&T>,
    max: Option<&T>,
)
    requires
        total_order::<T>(),
        min matches Some(m) ==> lt(*m, v),
        max matches Some(m) ==> lt(v, *m),
    ensures
        (strictly_increasing(a + seq![v] + b) && within(a + seq![v] + b, min, max)) <==> (
        strictly_increasing(a) && within(a, min, Some(&v)) && strictly_increasing(b) && within(
            b,
            Some(&v),
            max,
        )),
{
    let s = a + seq![v] + b;
    let n = a.len() as int;
    lemma_increasing_join(a, v, b);
    if strictly_increasing(s) && within(s, min, max) {
        if let Some(m) = min {
            assert forall|i: int| 0 <= i < a.len() implies #[trigger] lt(*m, a[i]) by {
                assert(lt(*m, s[i]));
            }
        }
        if let Some(m) = max {
            assert forall|i: int| 0 <= i < b.len() implies #[trigger] lt(b[i], *m) by {
                assert(lt(s[n + 1 + i], *m));
            }
        }
    }
    if strictly_increasing(a) && within(a, min, Some(&v)) && strictly_increasing(b) && within(
        b,
        Some(&v),
        max,
    ) {
        if let Some(m) = min {
            assert forall|i: int| 0 <= i < s.len() implies #[trigger] lt(*m, s[i]) by {
                if i < n {
                    assert(lt(*m, a[i]));
                } else if i > n {
                    assert(lt(v, b[i - n - 1]));
                    lemma_lt_transitive(*m, v, b[i - n - 1]);
                }
            }
        }
        if let Some(m) = max {
            assert forall|i: int| 0 <= i < s.len() implies #[trigger] lt(s[i], *m) by {
                if i < n {
                    assert(lt(a[i], v));
                    lemma_lt_transitive(a[i], v, *m);
                } else if i > n {
                    assert(lt(b[i - n - 1], *m));
                }
            }
        }
    }
}

/// Placing a value above a bound keeps everything above that bound.
pub proof fn lemma_placed_above<T: Ord>(s: Seq<T>, v: T, bound: T)
    requires
        all_above(s, bound),
        lt(bound, v),
    ensures
        all_above(placed(s, v), bound),
    decreases s.len(),
{
    let out = placed(s, v);
    if s.len() == 0 {
    } else if lt(s[0], v) {
        let rest = s.drop_first();
        assert forall|i: int| 0 <= i < rest.len() implies #[trigger] lt(bound, rest[i]) by {
            assert(lt(bound, s[i + 1]));
        }
        lemma_placed_above(rest, v, bound);
        assert forall|i: int| 0 <= i < out.len() implies #[trigger] lt(bound, out[i]) by {
            if i == 0 {
                assert(lt(bound, s[0]));
            } else {
                assert(lt(bound, placed(rest, v)[i - 1]));
            }
        }
    } else if lt(v, s[0]) {
        assert forall|i: int| 0 <= i < out.len() implies #[trigger] lt(bound, out[i]) by {
            if i > 0 {
                assert(lt(bound, s[i - 1]));
            }
        }
    } else {
    }
}

/// Placing a value into a strictly increasing sequence gives a strictly
/// increasing sequence.
pub proof fn lemma_placed_increasing<T: Ord>(s: Seq<T>, v: T)
    requires
        total_order::<T>(),
        strictly_increasing(s),
    ensures
        strictly_increasing(placed(s, v)),
    decreases s.len(),
{
    if s.len() == 0 {
    } else if lt(s[0], v) {
        let rest = s.drop_first();
        assert(s == Seq::<T>::empty() + seq![s[0]] + rest);
        lemma_increasing_join(Seq::<T>::empty(), s[0], rest);
        lemma_placed_increasing(rest, v);
        lemma_placed_above(rest, v, s[0]);
        lemma_increasing_join(Seq::<T>::empty(), s[0], placed(rest, v));
        assert(placed(s, v) == Seq::<T>::empty() + seq![s[0]] + placed(rest, v));
    } else if lt(v, s[0]) {
        assert forall|i: int| 0 <= i < s.len() implies #[trigger] lt(v, s[i]) by {
            if i > 0 {
                assert(lt(s[0], s[i]));
                lemma_lt_transitive(v, s[0], s[i]);
            }
        }
        lemma_increasing_join(Seq::<T>::empty(), v, s);
        assert(placed(s, v) == Seq::<T>::empty() + seq![v] + s);
    } else {
    }
}

/// After a value has been placed the sequence holds its place.
pub proof fn lemma_placed_holds<T: Ord>(s: Seq<T>, v: T)
    requires
        total_order::<T>(),
    ensures
        holds(placed(s, v), v),
    decreases s.len(),
{
    let out = placed(s, v);
    lemma_trichotomy(v, v);
    if s.len() == 0 {
        assert(eqv(out[0], v));
    } else if lt(s[0], v) {
        let inner = placed(s.drop_first(), v);
        lemma_placed_holds(s.drop_first(), v);
        let k = choose|k: int| 0 <= k < inner.len() && #[trigger] eqv(inner[k], v);
        assert(eqv(out[k + 1], v));
    } else if lt(v, s[0]) {
        assert(eqv(out[0], v));
    } else {
        lemma_trichotomy(s[0], v);
        assert(eqv(out[0], v));
    }
}

/// Every value of a sequence is still there after another has been placed:
/// the lemma returns an index at which it stands.
pub proof fn lemma_placed_keeps<T: Ord>(s: Seq<T>, v: T, i: int) -> (t: int)
    requires
        0 <= i < s.len(),
    ensures
        0 <= t < placed(s, v).len(),
        placed(s, v)[t] == s[i],
    decreases s.len(),
{
    if lt(s[0], v) {
        if i == 0 {
            0
        } else {
            let t = lemma_placed_keeps(s.drop_first(), v, i - 1);
            t + 1
        }
    } else if lt(v, s[0]) {
        i + 1
    } else {
        i
    }
}

/// After a value has been placed, every value of the sequence is the placed
/// one or was there before: the lemma returns an index at which it stood, or
/// -1 for the placed value.
pub proof fn lemma_placed_source<T: Ord>(s: Seq<T>, v: T, j: int) -> (m: int)
    requires
        0 <= j < placed(s, v).len(),
    ensures
        -1 <= m < s.len(),
        m == -1 ==> placed(s, v)[j] == v,
        m >= 0 ==> placed(s, v)[j] == s[m],
    decreases s.len(),
{
    if s.len() == 0 {
        -1
    } else if lt(s[0], v) {
        if j == 0 {
            0
        } else {
            let m = lemma_placed_source(s.drop_first(), v, j - 1);
            if m == -1 {
                -1
            } else {
                m + 1
            }
        }
    } else if lt(v, s[0]) {
        j - 1
    } else {
        j
    }
}

/// In a strictly increasing sequence a value changes nothing exactly when
/// the sequence holds its place already; otherwise the sequence gains one
/// value.
pub proof fn lemma_placed_held<T: Ord>(s: Seq<T>, v: T)
    requires
        total_order::<T>(),
        strictly_increasing(s),
    ensures
        holds(s, v) ==> placed(s, v) == s,
        !holds(s, v) ==> placed(s, v).len() == s.len() + 1,
    decreases s.len(),
{
    if s.len() == 0 {
    } else {
        let rest = s.drop_first();
        lemma_trichotomy(s[0], v);
        if lt(s[0], v) {
            assert(s == Seq::<T>::empty() + seq![s[0]] + rest);
            lemma_increasing_join(Seq::<T>::empty(), s[0], rest);
            lemma_placed_held(rest, v);
            if holds(s, v) {
                let k = choose|k: int| 0 <= k < s.len() && #[trigger] eqv(s[k], v);
                assert(k > 0);
                assert(eqv(rest[k - 1], v));
                assert(seq![s[0]] + rest == s);
            } else {
                if holds(rest, v) {
                    let k = choose|k: int| 0 <= k < rest.len() && #[trigger] eqv(rest[k], v);
                    assert(eqv(s[k + 1], v));
                }
            }
        } else if lt(v, s[0]) {
            if holds(s, v) {
                let k = choose|k: int| 0 <= k < s.len() && #[trigger] eqv(s[k], v);
                if k > 0 {
                    assert(lt(s[0], s[k]));
                    lemma_lt_transitive(v, s[0], s[k]);
                }
                lemma_trichotomy(s[k], v);
            }
        } else {
            assert(eqv(s[0], v));
        }
    }
}

/// The values of `values` placed one after the other, starting from the empty
/// sequence.
pub open spec fn placed_all<T: Ord>(values: Seq<T>) -> Seq<T>
    decreases values.len(),
{
    if values.len() == 0 {
        Seq::empty()
    } else {
        placed(placed_all(values.drop_last()), values.last())
    }
}

/// `x` stands at index `i` of `values`, and no earlier value holds its place.
pub open spec fn first_at<T: Ord>(values: Seq<T>, i: int, x: T) -> bool {
    &&& 0 <= i < values.len()
    &&& values[i] == x
    &&& forall|k: int| 0 <= k < i ==> !eqv(#[trigger] values[k], x)
}

/// `x` is a value of `values`, and the first one that holds its place.
pub open spec fn comes_first<T: Ord>(values: Seq<T>, x: T) -> bool {
    exists|i: int| first_at(values, i, x)
}

/// Placing all values of a sequence gives a strictly increasing sequence.
pub proof fn lemma_placed_all_increasing<T: Ord>(values: Seq<T>)
    requires
        total_order::<T>(),
    ensures
        strictly_increasing(placed_all(values)),
    decreases values.len(),
{
    if values.len() > 0 {
        lemma_placed_all_increasing(values.drop_last());
        lemma_placed_increasing(placed_all(values.drop_last()), values.last());
    }
}

/// After all values of a sequence have been placed, the result holds the
/// place of each of them.
pub proof fn lemma_placed_all_holds<T: Ord>(values: Seq<T>, i: int)
    requires
        total_order::<T>(),
        0 <= i < values.len(),
    ensures
        holds(placed_all(values), values[i]),
    decreases values.len(),
{
    let prev = values.drop_last();
    let v = values.last();
    let before = placed_all(prev);
    let out = placed(before, v);
    if i == values.len() - 1 {
        lemma_placed_holds(before, v);
    } else {
        lemma_placed_all_holds(prev, i);
        let m = choose|m: int| 0 <= m < before.len() && #[trigger] eqv(before[m], prev[i]);
        let t = lemma_placed_keeps(before, v, m);
        assert(eqv(out[t], values[i]));
    }
}

/// After all values of a sequence have been placed, each value of the result
/// is the first of the sequence that holds its place: the lemma returns the
/// index at which it stands.
pub proof fn lemma_placed_all_first<T: Ord>(values: Seq<T>, j: int) -> (i: int)
    requires
        total_order::<T>(),
        0 <= j < placed_all(values).len(),
    ensures
        first_at(values, i, placed_all(values)[j]),
    decreases values.len(),
{
    let n = values.len() as int;
    let prev = values.drop_last();
    let v = values.last();
    let before = placed_all(prev);
    let out = placed(before, v);
    let m = lemma_placed_source(before, v, j);
    if m >= 0 {
        let i = lemma_placed_all_first(prev, m);
        assert forall|k: int| 0 <= k < i implies !eqv(#[trigger] values[k], out[j]) by {
            assert(values[k] == prev[k]);
        }
        i
    } else if holds(before, v) {
        lemma_placed_all_increasing(prev);
        lemma_placed_held(before, v);
        let i = lemma_placed_all_first(prev, j);
        assert forall|k: int| 0 <= k < i implies !eqv(#[trigger] values[k], out[j]) by {
            assert(values[k] == prev[k]);
        }
        i
    } else {
        assert forall|k: int| 0 <= k < n - 1 implies !eqv(#[trigger] values[k], v) by {
            if eqv(values[k], v) {
                lemma_placed_all_holds(prev, k);
                let t = choose|t: int| 0 <= t < before.len() && #[trigger] eqv(before[t], prev[k]);
                lemma_eqv_transitive(before[t], prev[k], v);
                assert(holds(before, v));
            }
        }
        n - 1
    }
}

} // verus!
