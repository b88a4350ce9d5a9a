//! Taking lists apart from the front.
use vstd::prelude::*;

verus! {

/// The items of a list, the last one first, so that the first one can be taken off.
pub fn reversed<T>(list: Vec<T>) -> (r: Vec<T>)
    ensures
        r@ == list@.reverse(),
{
    let ghost all = list@;
    let mut rest = list;
    let mut r: Vec<T> = Vec::new();
    while rest.len() > 0
        invariant
            rest@ + r@.reverse() == all,
        decreases rest@.len(),
    {
        let ghost kept = rest@.drop_last();
        let ghost item = rest@.last();
        let ghost done = r@;
        if let Some(x) = rest.pop() {
            r.push(x);
        }
        assert(kept + seq![item] + done.reverse() == all);
        assert(r@.reverse() == seq![item] + done.reverse());
        assert(kept + (seq![item] + done.reverse()) == kept + seq![item] + done.reverse());
    }
    assert(r@.reverse() == all);
    assert(r@ == all.reverse());
    r
}

/// What is left of a reversed list, of which `n` items were taken off, ends with the next item.
pub proof fn lemma_next<T>(all: Seq<T>, left: Seq<T>, n: int)
    requires
        0 <= n < all.len(),
        left == all.skip(n).reverse(),
    ensures
        left.last() == all[n],
        left.drop_last() == all.skip(n + 1).reverse(),
{
    assert(left.drop_last() =~= all.skip(n + 1).reverse());
}

} // verus!
