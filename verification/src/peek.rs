//! Items handed out one by one, with a look at those to come.

use vstd::prelude::*;

verus! {

/// A consumable run of items with look-ahead at any distance.
///
/// Its view is the sequence of items that have not been consumed yet, the
/// next one first.
#[derive(Clone)]
pub struct BufferedPeekable<T> {
    /// The items that are left, the next one last.
    rest: Vec<T>,
}

impl<T> View for BufferedPeekable<T> {
    type V = Seq<T>;

    closed spec fn view(&self) -> Seq<T> {
        self.rest@.reverse()
    }
}

impl<T> BufferedPeekable<T> {
    /// Takes over the items of `v`, to hand them out in their order.
    pub fn new(v: Vec<T>) -> (r: BufferedPeekable<T>)
        ensures
            r@ == v@,
    {
        let mut v = v;
        let ghost items = v@;
        let mut rest: Vec<T> = Vec::new();
        while v.len() > 0
            invariant
                v@.len() + rest@.len() == items.len(),
                v@ == items.subrange(0, v@.len() as int),
                rest@ == items.subrange(v@.len() as int, items.len() as int).reverse(),
            decreases v@.len(),
        {
            let ghost before = rest@;
            let ghost n = v@.len() as int;
            let x = v.pop().unwrap();
            rest.push(x);
            assert(rest@ == items.subrange(n - 1, items.len() as int).reverse()) by {
                let a = items.subrange(n - 1, items.len() as int).reverse();
                assert(rest@.len() == a.len());
                assert forall|i: int| 0 <= i < a.len() implies rest@[i] == a[i] by {
                    if i < before.len() {
                        assert(before[i] == items.subrange(n, items.len() as int).reverse()[i]);
                    }
                }
                assert(rest@ =~= a);
            }
        }
        assert(items.subrange(0, items.len() as int) == items);
        assert(rest@.reverse() == items) by {
            assert(rest@.reverse() =~= items);
        }
        BufferedPeekable { rest }
    }

    /// Tells whether every item has been consumed.
    pub fn is_empty(&mut self) -> (r: bool)
        ensures
            r == (old(self)@.len() == 0),
            final(self)@ == old(self)@,
    {
        self.rest.len() == 0
    }

    /// The next item, which stays in place.
    pub fn peek(&mut self) -> (r: Option<&T>)
        ensures
            final(self)@ == old(self)@,
            old(self)@.len() == 0 ==> r is None,
            old(self)@.len() > 0 ==> r == Some(&old(self)@[0]),
    {
        let n = self.rest.len();
        if n == 0 {
            None
        } else {
            Some(&self.rest[n - 1])
        }
    }

    /// The item `distance` places after the next one, which stays in place.
    pub fn peek_ahead(&mut self, distance: usize) -> (r: Option<&T>)
        ensures
            final(self)@ == old(self)@,
            distance >= old(self)@.len() ==> r is None,
            distance < old(self)@.len() ==> r == Some(&old(self)@[distance as int]),
    {
        let n = self.rest.len();
        if distance < n {
            Some(&self.rest[n - 1 - distance])
        } else {
            None
        }
    }

    /// Hands out the next item and moves past it.
    pub fn consume(&mut self) -> (r: Option<T>)
        ensures
            old(self)@.len() == 0 ==> r is None && final(self)@ == old(self)@,
            old(self)@.len() > 0 ==> r == Some(old(self)@[0]) && final(self)@ == old(self)@.skip(1),
    {
        let ghost before = self.rest@;
        let r = self.rest.pop();
        proof {
            if before.len() > 0 {
                assert(self.rest@.reverse() =~= before.reverse().skip(1));
            }
        }
        r
    }
}

} // verus!
