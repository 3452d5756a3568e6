use vstd::prelude::*;

verus! {

broadcast use {vstd::seq::group_seq_axioms, vstd::std_specs::vec::group_vec_axioms};

/// The same elements in reverse order, moved rather than copied.
pub fn reversed<T>(v: Vec<T>) -> (r: Vec<T>)
    ensures
        r@ == v@.reverse(),
{
    let ghost orig = v@;
    let mut v = v;
    let mut r: Vec<T> = Vec::new();
    while v.len() > 0
        invariant
            v@ == orig.subrange(0, orig.len() - r@.len()),
            r@ == orig.subrange(orig.len() - r@.len(), orig.len() as int).reverse(),
            r@.len() <= orig.len(),
        decreases v@.len(),
    {
        let x = v.pop().unwrap();
        r.push(x);
        assert(r@ =~= orig.subrange(orig.len() - r@.len(), orig.len() as int).reverse());
        assert(v@ =~= orig.subrange(0, orig.len() - r@.len()));
    }
    assert(orig.subrange(0, orig.len() as int) =~= orig);
    r
}

} // verus!
