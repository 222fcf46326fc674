//! Outcomes of reading one value after another.

use vstd::prelude::*;

verus! {

/// An outcome of reading values up to an index, with one more value in
/// front.
pub open spec fn preceded<V, E>(first: V, rest: Result<(Seq<V>, int), E>) -> Result<
    (Seq<V>, int),
    E,
> {
    match rest {
        Err(error) => Err(error),
        Ok((values, end)) => Ok((seq![first] + values, end)),
    }
}

/// An outcome of reading values up to an index, with more values in
/// front.
pub open spec fn prefixed<V, E>(prefix: Seq<V>, rest: Result<(Seq<V>, int), E>) -> Result<
    (Seq<V>, int),
    E,
> {
    match rest {
        Err(error) => Err(error),
        Ok((values, end)) => Ok((prefix + values, end)),
    }
}

/// An outcome of reading the rest of the values, with those that precede
/// in front.
pub open spec fn continued<V, E>(prefix: Seq<V>, rest: Result<Seq<V>, E>) -> Result<Seq<V>, E> {
    match rest {
        Err(error) => Err(error),
        Ok(values) => Ok(prefix + values),
    }
}

/// Moving the first value of an outcome to the end of what precedes it
/// changes nothing, and nothing in front changes nothing.
pub proof fn lemma_prefixed_step<V, E>(prefix: Seq<V>, first: V, rest: Result<(Seq<V>, int), E>)
    ensures
        prefixed(prefix, preceded(first, rest)) == prefixed(prefix.push(first), rest),
        prefixed(Seq::<V>::empty(), rest) == rest,
{
    if let Ok((values, _)) = rest {
        assert(prefix + (seq![first] + values) =~= prefix.push(first) + values);
        assert(Seq::<V>::empty() + values =~= values);
    }
}

} // verus!
