use vstd::prelude::*;

verus! {

/// Restartable adjacent-run grouping over a sequence of items.
///
/// Each call of `next` emits the next maximal run of consecutive items in
/// which every item is chained to its immediate left neighbour by the
/// predicate.  Emitted groups concatenate, in order, to exactly the original
/// sequence: nothing is dropped, duplicated, or reordered.
pub struct GroupBy<T, P> {
    /// The items not yet emitted, in their original order.
    pub items: Vec<T>,
    /// The "same group" predicate over adjacent items.
    pub pred: P,
}

impl<T, P: Fn(&T, &T) -> bool> GroupBy<T, P> {
    /// Starts grouping `items` by `pred`.
    pub fn new(items: Vec<T>, pred: P) -> (r: GroupBy<T, P>)
        ensures
            r.items@ == items@,
            r.pred == pred,
    {
        GroupBy { items, pred }
    }

    /// Emits the next maximal predicate-chained run, or `None` once every
    /// item has been emitted.  A trailing unmatched item forms its own
    /// singleton group.
    pub fn next(&mut self) -> (r: Option<Vec<T>>)
        requires
            forall|a: &T, b: &T| #[trigger] call_requires(old(self).pred, (a, b)),
        ensures
            final(self).pred == old(self).pred,
            match r {
                None => {
                    &&& old(self).items@.len() == 0
                    &&& final(self).items@ == old(self).items@
                },
                Some(g) => {
                    &&& g@.len() >= 1
                    &&& old(self).items@ == g@ + final(self).items@
                    &&& forall|j: int|
                        #![trigger g@[j]]
                        0 < j < g@.len() ==> call_ensures(
                            old(self).pred,
                            (&g@[j - 1], &g@[j]),
                            true,
                        )
                    &&& final(self).items@.len() > 0 ==> call_ensures(
                        old(self).pred,
                        (&g@[g@.len() - 1], &final(self).items@[0]),
                        false,
                    )
                },
            },
    {
        if self.items.len() == 0 {
            return None;
        }
        let mut arr: Vec<T> = Vec::new();
        arr.push(self.items.remove(0));
        proof {
            assert(old(self).items@ =~= arr@ + self.items@);
        }
        loop
            invariant_except_break
                forall|a: &T, b: &T| #[trigger] call_requires(self.pred, (a, b)),
                self.pred == old(self).pred,
                arr@.len() >= 1,
                old(self).items@ == arr@ + self.items@,
                forall|j: int|
                    #![trigger arr@[j]]
                    0 < j < arr@.len() ==> call_ensures(self.pred, (&arr@[j - 1], &arr@[j]), true),
            ensures
                self.pred == old(self).pred,
                arr@.len() >= 1,
                old(self).items@ == arr@ + self.items@,
                forall|j: int|
                    #![trigger arr@[j]]
                    0 < j < arr@.len() ==> call_ensures(self.pred, (&arr@[j - 1], &arr@[j]), true),
                self.items@.len() > 0 ==> call_ensures(
                    self.pred,
                    (&arr@[arr@.len() - 1], &self.items@[0]),
                    false,
                ),
            decreases self.items@.len(),
        {
            if self.items.len() == 0 {
                break;
            }
            let chained = (self.pred)(&arr[arr.len() - 1], &self.items[0]);
            if !chained {
                break;
            }
            arr.push(self.items.remove(0));
            proof {
                assert(old(self).items@ =~= arr@ + self.items@);
            }
        }
        Some(arr)
    }
}

/// Attaches `group_by` to a sequence-like type, the entry point of the
/// run-grouping primitive.
pub trait GroupByItr<T>: Sized {
    /// The items the grouping will run over, in order.
    spec fn seq_of(&self) -> Seq<T>;

    /// Starts grouping the items by `pred`.
    fn group_by<P: Fn(&T, &T) -> bool>(self, pred: P) -> (r: GroupBy<T, P>)
        ensures
            r.items@ == self.seq_of(),
            r.pred == pred,
    ;
}

impl<T> GroupByItr<T> for Vec<T> {
    open spec fn seq_of(&self) -> Seq<T> {
        self@
    }

    fn group_by<P: Fn(&T, &T) -> bool>(self, pred: P) -> (r: GroupBy<T, P>) {
        GroupBy::new(self, pred)
    }
}

/// The groups' items, concatenated in order.
pub open spec fn concat_groups<T>(gs: Seq<Seq<T>>) -> Seq<T>
    decreases gs.len(),
{
    if gs.len() == 0 {
        Seq::empty()
    } else {
        concat_groups(gs.take(gs.len() - 1)) + gs[gs.len() - 1]
    }
}

impl<T, P: Fn(&T, &T) -> bool> GroupBy<T, P> {
    /// Emits every remaining group.  Concatenating the emitted groups in
    /// order reproduces the original items exactly: none is dropped,
    /// duplicated, or reordered; and no group is empty.
    pub fn collect_groups(&mut self) -> (r: Vec<Vec<T>>)
        requires
            forall|a: &T, b: &T| #[trigger] call_requires(old(self).pred, (a, b)),
        ensures
            final(self).pred == old(self).pred,
            final(self).items@.len() == 0,
            concat_groups(r@.map_values(|g: Vec<T>| g@)) == old(self).items@,
            forall|i: int| 0 <= i < r@.len() ==> (#[trigger] r@[i])@.len() >= 1,
    {
        let mut acc: Vec<Vec<T>> = Vec::new();
        proof {
            assert(concat_groups(acc@.map_values(|g: Vec<T>| g@)) + self.items@ =~= self.items@);
        }
        loop
            invariant_except_break
                forall|a: &T, b: &T| #[trigger] call_requires(self.pred, (a, b)),
                self.pred == old(self).pred,
                concat_groups(acc@.map_values(|g: Vec<T>| g@)) + self.items@ == old(
                    self,
                ).items@,
                forall|i: int| 0 <= i < acc@.len() ==> (#[trigger] acc@[i])@.len() >= 1,
            ensures
                self.pred == old(self).pred,
                self.items@.len() == 0,
                concat_groups(acc@.map_values(|g: Vec<T>| g@)) == old(self).items@,
                forall|i: int| 0 <= i < acc@.len() ==> (#[trigger] acc@[i])@.len() >= 1,
            decreases self.items@.len(),
        {
            let ghost acc_map = acc@.map_values(|g: Vec<T>| g@);
            match self.next() {
                None => {
                    proof {
                        assert(concat_groups(acc_map) + self.items@ =~= concat_groups(acc_map));
                    }
                    break;
                },
                Some(g) => {
                    let ghost gv = g@;
                    acc.push(g);
                    proof {
                        let m = acc@.map_values(|g: Vec<T>| g@);
                        assert(m.take(m.len() - 1) =~= acc_map);
                        assert(m[m.len() - 1] == gv);
                        assert((concat_groups(acc_map) + gv) + self.items@ =~= concat_groups(
                            acc_map,
                        ) + (gv + self.items@));
                    }
                },
            }
        }
        acc
    }
}

} // verus!
