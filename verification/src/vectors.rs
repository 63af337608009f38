//! Small helpers that build vectors.

use vstd::prelude::*;

verus! {

/// A vector of `n` entries, each `value`.
pub fn filled<T: Copy>(n: usize, value: T) -> (v: Vec<T>)
    ensures
        v@ == Seq::new(n as nat, |i: int| value),
{
    let mut v: Vec<T> = Vec::new();
    let mut i: usize = 0;
    while i < n
        invariant
            i <= n,
            v@ == Seq::new(i as nat, |j: int| value),
        decreases n - i,
    {
        v.push(value);
        i += 1;
        assert(v@ =~= Seq::new(i as nat, |j: int| value));
    }
    v
}

/// The entries `values[from..to]` on their own.
pub fn copy_range<T: Copy>(values: &Vec<T>, from: usize, to: usize) -> (part: Vec<T>)
    requires
        from <= to <= values@.len(),
    ensures
        part@ == values@.subrange(from as int, to as int),
{
    let mut part: Vec<T> = Vec::new();
    let mut i: usize = from;
    while i < to
        invariant
            from <= i <= to <= values@.len(),
            part@ == values@.subrange(from as int, i as int),
        decreases to - i,
    {
        part.push(values[i]);
        i += 1;
        assert(part@ =~= values@.subrange(from as int, i as int));
    }
    part
}

/// A second vector with the same entries.
pub fn copy_of<T: Copy>(values: &Vec<T>) -> (copy: Vec<T>)
    ensures
        copy@ == values@,
{
    let copy = copy_range(values, 0, values.len());
    assert(values@.subrange(0, values@.len() as int) =~= values@);
    copy
}

} // verus!
