//! The order of a depth-first directory walk: the entries of a directory
//! just read are visited before the entries still waiting from the
//! directories above it.
use vstd::prelude::*;

verus! {

/// Entries waiting to be visited, the next one first.
pub struct DepthFirst<T> {
    stack: Vec<T>,
}

impl<T> View for DepthFirst<T> {
    type V = Seq<T>;

    /// The waiting entries in visiting order (the stack holds them last
    /// first).
    closed spec fn view(&self) -> Seq<T> {
        self.stack@.reverse()
    }
}

impl<T> DepthFirst<T> {
    /// A walk with nothing waiting.
    pub fn new() -> (r: Self)
        ensures
            r@ == Seq::<T>::empty(),
    {
        let r = DepthFirst { stack: Vec::new() };
        assert(r@ =~= Seq::<T>::empty());
        r
    }

    /// Puts the entries of a directory just read ahead of everything
    /// waiting, keeping their order.
    pub fn enter(&mut self, entries: Vec<T>)
        ensures
            final(self)@ == entries@ + old(self)@,
    {
        let mut entries = entries;
        let ghost all = entries@;
        while entries.len() > 0
            invariant
                all.len() >= entries@.len(),
                entries@ == all.subrange(0, entries@.len() as int),
                self.stack@.reverse() == all.subrange(entries@.len() as int, all.len() as int)
                    + old(self)@,
            decreases entries@.len(),
        {
            let ghost before = self.stack@;
            let ghost n = entries@.len();
            let e = entries.pop().unwrap();
            self.stack.push(e);
            assert(self.stack@.reverse() =~= all.subrange(n - 1, all.len() as int) + old(self)@) by {
                assert(self.stack@ == before.push(e));
                assert(e == all[n - 1]);
                assert(before.push(e).reverse() =~= seq![e] + before.reverse());
                assert(all.subrange(n - 1, all.len() as int) =~= seq![e] + all.subrange(
                    n as int,
                    all.len() as int,
                ));
            }
        }
        assert(all.subrange(0, all.len() as int) == all);
    }

    /// The next entry to visit, taken out of the walk; `None` when the walk
    /// is over.
    pub fn next(&mut self) -> (r: Option<T>)
        ensures
            old(self)@.len() == 0 ==> r is None && final(self)@ == old(self)@,
            old(self)@.len() > 0 ==> r == Some(old(self)@[0]) && final(self)@ == old(self)@.drop_first(),
    {
        let ghost before = self.stack@;
        let r = self.stack.pop();
        proof {
            if before.len() > 0 {
                assert(before.reverse()[0] == before.last());
                assert(self.stack@.reverse() =~= before.reverse().drop_first());
            }
        }
        r
    }
}

} // verus!
