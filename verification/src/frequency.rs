//! Counting how often each value occurs in a list.

use std::collections::HashMap;
use std::hash::Hash;
use vstd::prelude::*;
use vstd::std_specs::hash::obeys_key_model;
use vstd::std_specs::iter::IteratorSpec;

verus! {

/// How often `x` occurs in `values`.
pub open spec fn occurrences<T>(values: Seq<T>, x: T) -> nat
    decreases values.len(),
{
    if values.len() == 0 {
        0
    } else {
        occurrences(values.drop_last(), x) + if values.last() == x {
            1nat
        } else {
            0nat
        }
    }
}

/// Some entry of `table` is for the value `x`.
pub open spec fn names<T>(table: Seq<(T, u32)>, x: T) -> bool {
    exists|i: int| 0 <= i < table.len() && (#[trigger] table[i]).0 == x
}

/// `table` names each value that occurs in `values` once, with the number of times it
/// occurs, and names nothing else.
pub open spec fn is_frequency_table<T>(values: Seq<T>, table: Seq<(T, u32)>) -> bool {
    &&& forall|i: int|
        0 <= i < table.len() ==> (#[trigger] table[i]).1 > 0 && table[i].1 == occurrences(
            values,
            table[i].0,
        )
    &&& forall|i: int, j: int|
        0 <= i < j < table.len() ==> (#[trigger] table[i]).0 != (#[trigger] table[j]).0
    &&& forall|k: int| 0 <= k < values.len() ==> names(table, #[trigger] values[k])
}

/// A value occurs in a list no more often than the list is long, and at least once
/// where the list holds it.
pub proof fn lemma_occurrences_bounds<T>(values: Seq<T>, x: T)
    ensures
        occurrences(values, x) <= values.len(),
        occurrences(values, x) > 0 <==> values.contains(x),
    decreases values.len(),
{
    if values.len() > 0 {
        lemma_occurrences_bounds(values.drop_last(), x);
        if values.contains(x) && values.last() != x {
            let i = choose|i: int| 0 <= i < values.len() && values[i] == x;
            assert(values.drop_last()[i] == x);
        }
        if values.drop_last().contains(x) {
            let i = choose|i: int| 0 <= i < values.drop_last().len() && values.drop_last()[i] == x;
            assert(values[i] == x);
        }
    }
}

/// The frequency of each value in `values`: every distinct value once, paired with the
/// number of times it occurs. The order of the pairs is left open.
pub fn logic<T: Eq + Hash + Copy>(values: &Vec<T>) -> (result: Vec<(T, u32)>)
    requires
        obeys_key_model::<T>(),
        values.len() <= u32::MAX,
    ensures
        is_frequency_table(values@, result@),
{
    broadcast use vstd::std_specs::hash::group_hash_axioms;

    let mut frequencies: HashMap<T, u32> = HashMap::new();
    let mut at: usize = 0;
    while at < values.len()
        invariant
            obeys_key_model::<T>(),
            values.len() <= u32::MAX,
            at <= values.len(),
            forall|x: T|
                frequencies@.contains_key(x) <==> occurrences(values@.take(at as int), x) > 0,
            forall|x: T|
                frequencies@.contains_key(x) ==> #[trigger] frequencies@[x] == occurrences(
                    values@.take(at as int),
                    x,
                ),
        decreases values.len() - at,
    {
        let val = values[at];
        let seen: u32 = match frequencies.get(&val) {
            Some(count) => *count,
            None => 0,
        };
        proof {
            assert(values@.take(at + 1).drop_last() =~= values@.take(at as int));
            lemma_occurrences_bounds(values@.take(at as int), val);
        }
        frequencies.insert(val, seen + 1);
        at += 1;
    }
    assert(values@.take(at as int) =~= values@);
    let mut result: Vec<(T, u32)> = Vec::new();
    let ghost pairs = vstd::std_specs::hash::spec_hash_map_iter(&frequencies).remaining();
    for pair in it: frequencies.iter()
        invariant
            it.seq() == pairs,
            result.len() == it.index(),
            forall|j: int|
                0 <= j < result.len() ==> (#[trigger] result[j]) == (*pairs[j].0, *pairs[j].1),
    {
        let (num, frequency) = pair;
        result.push((*num, *frequency));
    }
    proof {
        let table = result@;
        assert(table.len() == pairs.len());
        assert(pairs.no_duplicates());
        assert forall|i: int| 0 <= i < table.len() implies (#[trigger] table[i]).1 > 0
            && table[i].1 == occurrences(values@, table[i].0) by {
            assert(table[i] == result[i]);
            assert(frequencies@.contains_key(*pairs[i].0));
            assert(frequencies@[*pairs[i].0] == *pairs[i].1);
        }
        assert forall|i: int, j: int| 0 <= i < j < table.len() implies (#[trigger] table[i]).0 != (
        #[trigger] table[j]).0 by {
            assert(table[i] == result[i]);
            assert(table[j] == result[j]);
            assert(frequencies@.contains_key(*pairs[i].0));
            assert(frequencies@[*pairs[i].0] == *pairs[i].1);
            assert(frequencies@.contains_key(*pairs[j].0));
            assert(frequencies@[*pairs[j].0] == *pairs[j].1);
            assert(pairs[i] != pairs[j]);
        }
        assert forall|k: int| 0 <= k < values@.len() implies names(table, #[trigger] values@[k]) by {
            let x = values@[k];
            lemma_occurrences_bounds(values@, x);
            assert(frequencies@.contains_key(x));
            assert(pairs.contains((&x, &frequencies@[x])));
            let i = choose|i: int| 0 <= i < pairs.len() && pairs[i] == (&x, &frequencies@[x]);
            assert(table[i] == result[i]);
            assert(table[i].0 == x);
        }
    }
    result
}

} // verus!
