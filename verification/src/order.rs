use core::cmp::Ordering;
use vstd::laws_cmp::obeys_cmp;
use vstd::laws_cmp::obeys_cmp_ord;
use vstd::laws_cmp::obeys_cmp_partial_ord;
use vstd::laws_cmp::obeys_partial_cmp_spec_properties;
use vstd::laws_eq::obeys_eq_spec_properties;
use vstd::prelude::*;
use vstd::std_specs::cmp::OrdSpec;
use vstd::std_specs::cmp::PartialEqSpec;
use vstd::std_specs::cmp::PartialOrdSpec;

verus! {

/// The comparisons of `T` are those of one total order: of two values exactly
/// one comes first or they hold the same place, "before" is transitive, and
/// `==`, `<` and `cmp` all speak of that order.
pub open spec fn total_order<T: Ord>() -> bool {
    obeys_cmp::<T>()
}

/// `a` comes strictly before `b`.
pub open spec fn lt<T: Ord>(a: T, b: T) -> bool {
    a.partial_cmp_spec(&b) == Some(Ordering::Less)
}

/// `a` comes strictly after `b`.
pub open spec fn gt<T: Ord>(a: T, b: T) -> bool {
    a.partial_cmp_spec(&b) == Some(Ordering::Greater)
}

/// `a` and `b` hold the same place in the order.
pub open spec fn eqv<T: Ord>(a: T, b: T) -> bool {
    a.partial_cmp_spec(&b) == Some(Ordering::Equal)
}

/// Under a total order the operators `<`, `<=`, `>`, `>=` and `==` of `T` return
/// what the order says.
pub proof fn lemma_operators_agree<T: Ord>()
    requires
        total_order::<T>(),
    ensures
        T::obeys_eq_spec(),
        T::obeys_partial_cmp_spec(),
        T::obeys_cmp_spec(),
{
    reveal(obeys_cmp_ord);
    reveal(obeys_cmp_partial_ord);
}

/// Of two values exactly one of "before", "same place" and "after" holds.
pub proof fn lemma_trichotomy<T: Ord>(a: T, b: T)
    requires
        total_order::<T>(),
    ensures
        lt(a, b) || eqv(a, b) || lt(b, a),
        !(lt(a, b) && eqv(a, b)),
        !(lt(b, a) && eqv(a, b)),
        !(lt(a, b) && lt(b, a)),
        gt(a, b) <==> lt(b, a),
{
    reveal(obeys_cmp_ord);
    reveal(obeys_cmp_partial_ord);
    reveal(obeys_partial_cmp_spec_properties);
    reveal(obeys_eq_spec_properties);
    let _ = a.cmp_spec(&b);
    let _ = b.cmp_spec(&a);
}

/// Two values hold the same place whichever of them is named first.
pub proof fn lemma_eqv_symmetric<T: Ord>(a: T, b: T)
    requires
        total_order::<T>(),
        eqv(a, b),
    ensures
        eqv(b, a),
{
    reveal(obeys_cmp_ord);
    reveal(obeys_cmp_partial_ord);
    reveal(obeys_partial_cmp_spec_properties);
    reveal(obeys_eq_spec_properties);
    assert(a.eq_spec(&b));
    assert(b.eq_spec(&a));
}

/// What comes before a value comes before everything after that value.
pub proof fn lemma_lt_transitive<T: Ord>(a: T, b: T, c: T)
    requires
        total_order::<T>(),
        lt(a, b),
        lt(b, c),
    ensures
        lt(a, c),
{
    reveal(obeys_partial_cmp_spec_properties);
}

/// What comes before a value comes before everything that holds its place.
pub proof fn lemma_lt_eqv<T: Ord>(a: T, b: T, c: T)
    requires
        total_order::<T>(),
        lt(a, b),
        eqv(b, c),
    ensures
        lt(a, c),
{
    lemma_trichotomy(a, c);
    if eqv(a, c) {
        lemma_eqv_symmetric(b, c);
        lemma_eqv_transitive(a, c, b);
        lemma_trichotomy(a, b);
    } else if lt(c, a) {
        lemma_lt_transitive(c, a, b);
        lemma_eqv_symmetric(b, c);
        lemma_trichotomy(c, b);
    }
}

/// Values that hold the place of a common third hold the same place.
pub proof fn lemma_eqv_transitive<T: Ord>(a: T, b: T, c: T)
    requires
        total_order::<T>(),
        eqv(a, b),
        eqv(b, c),
    ensures
        eqv(a, c),
{
    reveal(obeys_cmp_ord);
    reveal(obeys_cmp_partial_ord);
    reveal(obeys_partial_cmp_spec_properties);
    reveal(obeys_eq_spec_properties);
    assert(a.eq_spec(&b));
    assert(b.eq_spec(&c));
    assert(a.eq_spec(&c));
}

} // verus!
