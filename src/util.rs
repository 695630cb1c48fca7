use vstd::prelude::*;

verus! {

/// Every item is `Ok`.
pub open spec fn all_ok<A, E>(items: Seq<Result<A, E>>) -> bool {
    forall|i: int| 0 <= i < items.len() ==> #[trigger] items[i] is Ok
}

/// The values of the items when all are `Ok`, else the first error.
pub fn collect_or_first_err<A, E>(items: Vec<Result<A, E>>) -> (r: Result<Vec<A>, E>)
    ensures
        match r {
            Ok(v) => {
                &&& all_ok(items@)
                &&& v@.len() == items@.len()
                &&& forall|i: int| #![trigger items@[i]] 0 <= i < items@.len() ==> items@[i] == Ok::<A, E>(v@[i])
            },
            Err(e) => exists|i: int| #![trigger items@[i]]
                0 <= i < items@.len() && items@[i] == Err::<A, E>(e) && forall|j: int|
                    0 <= j < i ==> (#[trigger] items@[j]) is Ok,
        },
{
    let ghost all = items@;
    let mut rest = items;
    let mut buffer: Vec<A> = Vec::new();
    while rest.len() > 0
        invariant
            rest@.len() <= all.len(),
            rest@ == all.skip(all.len() - rest@.len()),
            buffer@.len() == all.len() - rest@.len(),
            forall|i: int| #![trigger all[i]] 0 <= i < buffer@.len() ==> all[i] == Ok::<A, E>(buffer@[i]),
            all == items@,
        decreases rest@.len(),
    {
        let ghost done = all.len() - rest@.len();
        let item = rest.remove(0);
        assert(item == all[done]);
        assert(rest@ =~= all.skip(all.len() - rest@.len()));
        match item {
            Ok(v) => {
                buffer.push(v);
            },
            Err(e) => {
                assert forall|j: int| 0 <= j < done implies #[trigger] all[j] is Ok by {
                    assert(all[j] == Ok::<A, E>(buffer@[j]));
                }
                assert(all[done] == Err::<A, E>(e));
                return Err(e);
            },
        }
    }
    Ok(buffer)
}

/// Collects a list of results into the list of their values, or the first
/// error among them.
pub trait CollectOrFirstErr<A, E> {
    fn collect_or_first_err(self) -> Result<Vec<A>, E>;
}

impl<A, E> CollectOrFirstErr<A, E> for Vec<Result<A, E>> {
    fn collect_or_first_err(self) -> Result<Vec<A>, E> {
        collect_or_first_err(self)
    }
}

} // verus!
