//! Growable rows of values: the evaluation stack and the array part of a
//! table are both written through [`set_vec`].

use vstd::prelude::*;
use crate::value::{Value, Val, models};

verus! {

/// A row of `n` nils.
pub open spec fn nils(n: int) -> Seq<Val> {
    Seq::new(n as nat, |i: int| Val::Nil)
}

/// A row after `v` has been written at place `i`: a place inside the row is
/// overwritten; the place just behind its end is appended; a place further
/// out is reached by filling the gap with nil first.
pub open spec fn put(s: Seq<Val>, i: int, v: Val) -> Seq<Val> {
    if i < s.len() {
        s.update(i, v)
    } else {
        (s + nils(i - s.len())).push(v)
    }
}

/// A row after nil has been written at the places from `begin` up to, not
/// including, `end`, the row growing as far as needed.
pub open spec fn cleared(s: Seq<Val>, begin: int, end: int) -> Seq<Val> {
    Seq::new(
        if end > s.len() { end as nat } else { s.len() },
        |i: int| if begin <= i < end || i >= s.len() { Val::Nil } else { s[i] },
    )
}

/// A row without the places from `begin` up to, not including, `end`; what
/// lay behind them moves down.
pub open spec fn without(s: Seq<Val>, begin: int, end: int) -> Seq<Val> {
    s.subrange(0, begin) + s.subrange(end, s.len() as int)
}

/// A row after `values` have been written from place `at` on, one after
/// the other.
pub open spec fn spread(s: Seq<Val>, at: int, values: Seq<Val>) -> Seq<Val> {
    if values.len() == 0 {
        s
    } else {
        Seq::new(
            if at + values.len() > s.len() { (at + values.len()) as nat } else { s.len() },
            |i: int|
                if at <= i < at + values.len() {
                    values[i - at]
                } else if i < s.len() {
                    s[i]
                } else {
                    Val::Nil
                },
        )
    }
}

/// The views of two rows put together are the views of each, put together.
pub proof fn lemma_models_add(s: Seq<Value>, t: Seq<Value>)
    ensures
        models(s + t) == models(s) + models(t),
{
    assert(models(s + t) =~= models(s) + models(t));
}

/// Writes `value` at place `i` of `vec`, which grows if `i` lies beyond it.
pub fn set_vec(vec: &mut Vec<Value>, i: usize, value: Value)
    ensures
        models(final(vec)@) == put(models(old(vec)@), i as int, value@),
{
    if i < vec.len() {
        vec[i] = value;
        assert(models(vec@) =~= put(models(old(vec)@), i as int, value@));
    } else {
        while vec.len() < i
            invariant
                old(vec)@.len() <= vec@.len() <= i,
                forall|j: int| 0 <= j < vec@.len() ==> #[trigger] vec@[j]@ == if j < old(vec)@.len() { old(vec)@[j]@ } else { Val::Nil },
            decreases i - vec@.len(),
        {
            vec.push(Value::Nil);
        }
        vec.push(value);
        assert(models(vec@) =~= put(models(old(vec)@), i as int, value@));
    }
}

/// Writes nil at the places from `begin` up to, not including, `begin + n`.
pub fn fill(vec: &mut Vec<Value>, begin: usize, n: usize)
    requires
        begin + n <= usize::MAX,
    ensures
        models(final(vec)@) == cleared(models(old(vec)@), begin as int, begin + n),
{
    let end: usize = begin + n;
    let mut i: usize = begin;
    while i < end && i < vec.len()
        invariant
            begin <= i <= end,
            vec@.len() == old(vec)@.len(),
            forall|j: int| 0 <= j < vec@.len() ==> #[trigger] vec@[j]@ == if begin <= j < i { Val::Nil } else { old(vec)@[j]@ },
        decreases end - i,
    {
        vec[i] = Value::Nil;
        i += 1;
    }
    while vec.len() < end
        invariant
            old(vec)@.len() <= vec@.len(),
            vec@.len() <= end || vec@.len() == old(vec)@.len(),
            forall|j: int| 0 <= j < vec@.len() ==> #[trigger] vec@[j]@ == if begin <= j < end || j >= old(vec)@.len() { Val::Nil } else { old(vec)@[j]@ },
        decreases end - vec@.len(),
    {
        vec.push(Value::Nil);
    }
    assert(models(vec@) =~= cleared(models(old(vec)@), begin as int, begin + n));
}

/// Takes the places from `begin` up to, not including, `end` out of `vec`.
pub fn take_range(vec: &mut Vec<Value>, begin: usize, end: usize) -> (taken: Vec<Value>)
    requires
        begin <= end <= old(vec)@.len(),
    ensures
        models(final(vec)@) == without(models(old(vec)@), begin as int, end as int),
        models(taken@) == models(old(vec)@).subrange(begin as int, end as int),
{
    let mut tail = vec.split_off(end);
    let taken = vec.split_off(begin);
    vec.append(&mut tail);
    assert(models(vec@) =~= without(models(old(vec)@), begin as int, end as int));
    assert(models(taken@) =~= models(old(vec)@).subrange(begin as int, end as int));
    taken
}

/// Writes the first `n` of `values` to the places from `at` on.
pub fn copy_to(vec: &mut Vec<Value>, at: usize, values: &Vec<Value>, n: usize)
    requires
        n <= values@.len(),
        at + n <= usize::MAX,
    ensures
        models(final(vec)@) == spread(
            models(old(vec)@),
            at as int,
            models(values@).subrange(0, n as int),
        ),
{
    let mut i: usize = 0;
    assert(models(vec@) =~= spread(models(old(vec)@), at as int, models(values@).subrange(0, 0)));
    while i < n
        invariant
            i <= n <= values@.len(),
            at + n <= usize::MAX,
            models(vec@) == spread(
                models(old(vec)@),
                at as int,
                models(values@).subrange(0, i as int),
            ),
        decreases n - i,
    {
        let ghost before = models(vec@);
        set_vec(vec, at + i, values[i].clone());
        assert(models(vec@) =~= spread(
            models(old(vec)@),
            at as int,
            models(values@).subrange(0, i + 1),
        )) by {
            let s0 = models(old(vec)@);
            let vals = models(values@);
            assert(before == spread(s0, at as int, vals.subrange(0, i as int)));
            assert(models(vec@) == put(before, at + i, values@[i as int]@));
            assert(vals[i as int] == values@[i as int]@);
        }
        i += 1;
    }
}

} // verus!
