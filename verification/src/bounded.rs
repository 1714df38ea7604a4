//! Lists that forget their oldest entries.
use vstd::prelude::*;

verus! {

/// A list with `value` at its end, and without its first entry where it grew beyond `limit`.
pub open spec fn pushed<T>(list: Seq<T>, value: T, limit: int) -> Seq<T> {
    if list.len() + 1 > limit {
        list.push(value).drop_first()
    } else {
        list.push(value)
    }
}

/// Appends to a list and forgets its first entry where it grew beyond `limit`.
pub fn push_bounded<T>(list: &mut Vec<T>, value: T, limit: usize)
    ensures
        final(list)@ == pushed(old(list)@, value, limit as int),
{
    list.push(value);
    if list.len() > limit {
        let _oldest = list.remove(0);
        assert(list@ =~= pushed(old(list)@, value, limit as int));
    }
}

/// A list within its limit stays within it.
pub proof fn bounded_list_stays_bounded<T>(list: Seq<T>, value: T, limit: int)
    requires
        list.len() <= limit,
    ensures
        pushed(list, value, limit).len() <= limit || limit <= 0,
        limit > 0 ==> pushed(list, value, limit).last() == value,
{
}

/// A list without its first `n` entries.
pub fn drop_oldest<T>(list: &mut Vec<T>, n: usize)
    requires
        n <= old(list)@.len(),
    ensures
        final(list)@ == old(list)@.skip(n as int),
{
    let mut kept = list.split_off(n);
    list.clear();
    list.append(&mut kept);
    assert(list@ =~= old(list)@.skip(n as int));
}

/// A list takes in a value at its end and keeps the order of the rest: all of it below the limit, all
/// but the first entry at it.
pub proof fn the_oldest_makes_room<T>(list: Seq<T>, value: T, limit: int)
    requires
        list.len() <= limit,
        limit > 0,
    ensures
        ({
            let after = pushed(list, value, limit);
            &&& after.last() == value
            &&& after.drop_last() == if list.len() < limit {
                list
            } else {
                list.drop_first()
            }
        }),
{
    let after = pushed(list, value, limit);
    if list.len() < limit {
        assert(after.drop_last() =~= list);
    } else {
        assert(after.drop_last() =~= list.drop_first());
    }
}

} // verus!
