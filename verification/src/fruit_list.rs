//! Editing a list of fruit in the middle, and writing it out on one line.

use std::collections::VecDeque;
use vstd::prelude::*;
use vstd::string::StringExecFns;

verus! {

/// The items on one line, separated by a comma and a space.
pub open spec fn joined(items: Seq<String>) -> Seq<char>
    decreases items.len(),
{
    if items.len() == 0 {
        Seq::empty()
    } else if items.len() == 1 {
        items[0]@
    } else {
        joined(items.drop_last()) + ", "@ + items.last()@
    }
}

/// Puts `value` at position `idx` of the list; what stood there and after it moves one
/// place back. The list is cut in two at `idx`, takes the value at its end, and gets
/// its tail back.
pub fn insert_at(list: &mut VecDeque<String>, idx: usize, value: String)
    requires
        idx <= old(list)@.len(),
    ensures
        final(list)@ == old(list)@.insert(idx as int, value),
{
    let mut tail = list.split_off(idx);
    list.push_back(value);
    list.append(&mut tail);
    assert(list@ =~= old(list)@.insert(idx as int, value));
}

/// Takes the item at position `idx` out of the list; what stood after it moves one place
/// forward. The list is cut in two behind `idx`, loses its last item, and gets its tail
/// back.
pub fn remove_from(list: &mut VecDeque<String>, idx: usize)
    requires
        idx < old(list)@.len(),
    ensures
        final(list)@ == old(list)@.remove(idx as int),
{
    proof {
        vstd::std_specs::vecdeque::axiom_spec_len(list);
    }
    let mut tail = list.split_off(idx + 1);
    list.pop_back();
    list.append(&mut tail);
    assert(list@ =~= old(list)@.remove(idx as int));
}

/// The fruit of the salad on one line, in order, separated by a comma and a space.
pub fn salad_line(salad: &VecDeque<String>) -> (line: String)
    ensures
        line@ == joined(salad@),
{
    let mut line = String::new();
    let mut i: usize = 0;
    while i < salad.len()
        invariant
            i <= salad.len(),
            line@ == joined(salad@.take(i as int)),
        decreases salad.len() - i,
    {
        if i != 0 {
            line.append(", ");
        }
        line.append(salad[i].as_str());
        proof {
            assert(salad@.take(i + 1).drop_last() =~= salad@.take(i as int));
            assert(salad@.take(i + 1).last() == salad@[i as int]);
        }
        i += 1;
    }
    assert(salad@.take(i as int) =~= salad@);
    line
}

} // verus!
