//! Making fruit salads: drawing fruit at random until the second fig, picking from a
//! basket, and filling a salad from the pantry.

use vstd::prelude::*;
use crate::fruit::{fruit_named, kinds, Fruit, FruitKind};
use crate::random::{pick_one, shuffle_all, texts};
use crate::table::{lemma_with_entry, value_of, with_entry, NameTable};

verus! {

/// How often `name` has been served so far.
pub open spec fn served(counts: Seq<(Seq<char>, usize)>, name: Seq<char>) -> nat {
    match value_of(counts, name) {
        Some(n) => n as nat,
        None => 0,
    }
}

/// The counts after one more serving of `pick`.
pub open spec fn counts_with(counts: Seq<(Seq<char>, usize)>, pick: Seq<char>) -> Seq<
    (Seq<char>, usize),
> {
    with_entry(counts, pick, (served(counts, pick) + 1) as usize)
}

/// The counts after each of `picks` has been served, in order.
pub open spec fn counts_after(counts: Seq<(Seq<char>, usize)>, picks: Seq<Seq<char>>) -> Seq<
    (Seq<char>, usize),
>
    decreases picks.len(),
{
    if picks.len() == 0 {
        counts
    } else {
        counts_with(counts_after(counts, picks.drop_last()), picks.last())
    }
}

/// The salad is complete with the last of `picks`: it is a fig, and the second to be
/// counted.
pub open spec fn completes(counts: Seq<(Seq<char>, usize)>, picks: Seq<Seq<char>>) -> bool {
    &&& picks.len() > 0
    &&& picks.last() == "Fig"@
    &&& served(counts_after(counts, picks), "Fig"@) == 2
}

/// The fruit that a salad is drawn from. Four in nine are figs.
pub open spec fn salad_names() -> Seq<Seq<char>> {
    seq![
        "Apple"@,
        "Orange"@,
        "Pear"@,
        "Peach"@,
        "Banana"@,
        "Fig"@,
        "Fig"@,
        "Fig"@,
        "Fig"@,
    ]
}

/// The fruit of the basket.
pub open spec fn basket_names() -> Seq<Seq<char>> {
    seq![
        "Apple"@,
        "Banana"@,
        "Cherry"@,
        "Date"@,
        "Elderberry"@,
        "Fig"@,
        "Grape"@,
        "Honeydew"@,
    ]
}

/// The fruit of the pantry.
pub open spec fn pantry_names() -> Seq<Seq<char>> {
    seq![
        "Arbutus"@,
        "Loquat"@,
        "Strawberry Tree Berry"@,
        "Pomegranate"@,
        "Fig"@,
        "Cherry"@,
        "Orange"@,
        "Pear"@,
        "Peach"@,
        "Apple"@,
    ]
}

/// The texts of a list of names.
pub open spec fn name_texts(names: Seq<&'static str>) -> Seq<Seq<char>> {
    Seq::new(names.len(), |i: int| names[i]@)
}

/// `salad` and `counts` are what serving `picks`, in order, makes of the counts `before`.
pub open spec fn made_from(
    before: Seq<(Seq<char>, usize)>,
    picks: Seq<Seq<char>>,
    counts: Seq<(Seq<char>, usize)>,
    salad: Seq<Fruit>,
) -> bool {
    &&& counts == counts_after(before, picks)
    &&& kinds(salad) == Seq::new(picks.len(), |i: int| fruit_named(picks[i]))
    &&& forall|i: int| 0 <= i < picks.len() ==> salad_names().contains(#[trigger] picks[i])
    &&& forall|k: int| 0 < k < picks.len() ==> !completes(before, #[trigger] picks.take(k))
}

/// Serving `picks` adds at most one to any count for each pick.
pub proof fn lemma_counts_grow_slowly(
    counts: Seq<(Seq<char>, usize)>,
    picks: Seq<Seq<char>>,
    name: Seq<char>,
)
    requires
        served(counts, name) + picks.len() <= usize::MAX,
        crate::table::distinct_names(counts),
        forall|i: int|
            0 <= i < picks.len() ==> served(counts, #[trigger] picks[i]) + picks.len()
                <= usize::MAX,
    ensures
        served(counts_after(counts, picks), name) <= served(counts, name) + picks.len(),
        crate::table::distinct_names(counts_after(counts, picks)),
    decreases picks.len(),
{
    if picks.len() > 0 {
        let earlier = picks.drop_last();
        assert forall|i: int| 0 <= i < earlier.len() implies served(counts, #[trigger] earlier[i])
            + earlier.len() <= usize::MAX by {
            assert(earlier[i] == picks[i]);
        }
        lemma_counts_grow_slowly(counts, earlier, name);
        lemma_counts_grow_slowly(counts, earlier, picks.last());
        let before = counts_after(counts, earlier);
        lemma_with_entry(before, picks.last(), (served(before, picks.last()) + 1) as usize);
    }
}

/// The names that a salad is drawn from.
pub fn salad_fruits() -> (fruits: Vec<&'static str>)
    ensures
        name_texts(fruits@) == salad_names(),
{
    let mut fruits: Vec<&'static str> = Vec::new();
    fruits.push("Apple");
    fruits.push("Orange");
    fruits.push("Pear");
    fruits.push("Peach");
    fruits.push("Banana");
    fruits.push("Fig");
    fruits.push("Fig");
    fruits.push("Fig");
    fruits.push("Fig");
    assert(name_texts(fruits@) =~= salad_names());
    fruits
}

/// Serves one fruit: counts it under its name, and puts it into the salad. The answer is
/// whether the salad is complete, which it is with the fig that brings the count of figs
/// to two.
pub fn serve(pick: &str, freq_map: &mut NameTable<usize>, salad: &mut Vec<Fruit>) -> (done: bool)
    requires
        old(freq_map).wf(),
        served(old(freq_map)@, pick@) < usize::MAX,
    ensures
        final(freq_map).wf(),
        final(freq_map)@ == counts_with(old(freq_map)@, pick@),
        kinds(final(salad)@) == kinds(old(salad)@).push(fruit_named(pick@)),
        done == (pick@ == "Fig"@ && served(final(freq_map)@, "Fig"@) == 2),
{
    let count: usize = match freq_map.get(pick) {
        Some(n) => n + 1,
        None => 1,
    };
    proof {
        lemma_with_entry(freq_map@, pick@, count);
    }
    freq_map.insert(pick.to_owned(), count);
    let fruit = Fruit::named(pick);
    let is_fig = match fruit {
        Fruit::Fig => true,
        Fruit::Other(_) => false,
    };
    salad.push(fruit);
    assert(kinds(salad@) =~= kinds(old(salad)@).push(fruit_named(pick@)));
    is_fig && count == 2
}

/// Draws fruit at random and serves each, until the second fig has come or `limit`
/// fruit have been drawn. Returns the salad in the order in which the fruit were drawn;
/// `freq_map` has counted each fruit under its name.
pub fn generate_fruit_salad(
    rng: &mut rand::rngs::StdRng,
    freq_map: &mut NameTable<usize>,
    limit: usize,
) -> (salad: Vec<Fruit>)
    requires
        old(freq_map).wf(),
        forall|i: int|
            0 <= i < salad_names().len() ==> served(old(freq_map)@, #[trigger] salad_names()[i])
                + limit <= usize::MAX,
    ensures
        final(freq_map).wf(),
        salad.len() <= limit,
        exists|picks: Seq<Seq<char>>|
            {
                &&& picks.len() == salad.len()
                &&& made_from(old(freq_map)@, picks, final(freq_map)@, salad@)
                &&& picks.len() < limit ==> completes(old(freq_map)@, picks)
            },
{
    let fruits = salad_fruits();
    let mut salad: Vec<Fruit> = Vec::new();
    let ghost before = freq_map@;
    let ghost mut picks: Seq<Seq<char>> = Seq::empty();
    let mut done = false;
    assert(kinds(salad@) =~= Seq::new(picks.len(), |i: int| fruit_named(picks[i])));
    while !done && salad.len() < limit
        invariant
            freq_map.wf(),
            crate::table::distinct_names(before),
            name_texts(fruits@) == salad_names(),
            forall|i: int|
                0 <= i < salad_names().len() ==> served(before, #[trigger] salad_names()[i])
                    + limit <= usize::MAX,
            picks.len() == salad.len(),
            salad.len() <= limit,
            made_from(before, picks, freq_map@, salad@),
            done ==> completes(before, picks),
            !done && picks.len() > 0 ==> !completes(before, picks),
        decreases limit - salad.len() + if done { 0int } else { 1int },
    {
        match pick_one(&fruits, rng) {
            Some(fruit) => {
                proof {
                    let at = choose|i: int| 0 <= i < fruits.len() && #[trigger] fruits[i] == fruit;
                    assert(name_texts(fruits@)[at] == fruit@);
                    assert(salad_names()[at] == fruit@);
                    assert forall|i: int| 0 <= i < picks.len() implies served(
                        before,
                        #[trigger] picks[i],
                    ) + picks.len() <= usize::MAX by {
                        let j = choose|j: int|
                            0 <= j < salad_names().len() && salad_names()[j] == picks[i];
                        assert(served(before, salad_names()[j]) + limit <= usize::MAX);
                    }
                    lemma_counts_grow_slowly(before, picks, fruit@);
                }
                let ghost earlier = picks;
                done = serve(fruit, freq_map, &mut salad);
                proof {
                    picks = picks.push(fruit@);
                    assert(picks.drop_last() =~= earlier);
                    assert(kinds(salad@) =~= Seq::new(
                        picks.len(),
                        |i: int| fruit_named(picks[i]),
                    ));
                    assert forall|k: int| 0 < k < picks.len() implies !completes(
                        before,
                        #[trigger] picks.take(k),
                    ) by {
                        if k < earlier.len() {
                            assert(picks.take(k) =~= earlier.take(k));
                        } else {
                            assert(picks.take(k) =~= earlier);
                        }
                    }
                    assert(salad_names().contains(fruit@));
                }
            },
            None => {
                assert(name_texts(fruits@).len() == 9);
            },
        }
    }
    salad
}

/// The figs of a salad where `figs` holds, and its other fruit where it does not, in
/// the order of the salad.
pub open spec fn only(salad: Seq<FruitKind>, figs: bool) -> Seq<FruitKind>
    decreases salad.len(),
{
    if salad.len() == 0 {
        Seq::empty()
    } else if (salad.last() is Fig) == figs {
        only(salad.drop_last(), figs).push(salad.last())
    } else {
        only(salad.drop_last(), figs)
    }
}

/// The salad in the order of serving: the figs first, then the other fruit, each group
/// in the order in which it was drawn.
pub fn serving_order(salad: &Vec<Fruit>) -> (served: Vec<Fruit>)
    ensures
        kinds(served@) == only(kinds(salad@), true) + only(kinds(salad@), false),
        forall|i: int, j: int|
            0 <= i < j < served.len() ==> (#[trigger] served[i]).rank() >= (
            #[trigger] served[j]).rank(),
{
    let mut figs: Vec<Fruit> = Vec::new();
    let mut others: Vec<Fruit> = Vec::new();
    let mut i: usize = 0;
    assert(kinds(figs@) =~= only(kinds(salad@).take(0), true));
    assert(kinds(others@) =~= only(kinds(salad@).take(0), false));
    while i < salad.len()
        invariant
            i <= salad.len(),
            kinds(figs@) == only(kinds(salad@).take(i as int), true),
            kinds(others@) == only(kinds(salad@).take(i as int), false),
            forall|j: int| 0 <= j < figs.len() ==> (#[trigger] figs[j]).rank() == 1,
            forall|j: int| 0 <= j < others.len() ==> (#[trigger] others[j]).rank() == 0,
        decreases salad.len() - i,
    {
        let ghost figs_before = kinds(figs@);
        let ghost others_before = kinds(others@);
        proof {
            assert(kinds(salad@).take(i + 1).drop_last() =~= kinds(salad@).take(i as int));
            assert(kinds(salad@).take(i + 1).last() == salad@[i as int]@);
        }
        match &salad[i] {
            Fruit::Fig => {
                figs.push(Fruit::Fig);
                assert(kinds(figs@) =~= figs_before.push(FruitKind::Fig));
            },
            Fruit::Other(name) => {
                others.push(Fruit::Other(name.clone()));
                assert(kinds(others@) =~= others_before.push(FruitKind::Other(name@)));
            },
        }
        i += 1;
    }
    assert(kinds(salad@).take(i as int) =~= kinds(salad@));
    let ghost fig_kinds = kinds(figs@);
    let ghost other_kinds = kinds(others@);
    figs.append(&mut others);
    assert(kinds(figs@) =~= fig_kinds + other_kinds);
    figs
}

/// The names of the basket.
pub fn basket() -> (fruits: Vec<&'static str>)
    ensures
        name_texts(fruits@) == basket_names(),
{
    let mut fruits: Vec<&'static str> = Vec::new();
    fruits.push("Apple");
    fruits.push("Banana");
    fruits.push("Cherry");
    fruits.push("Date");
    fruits.push("Elderberry");
    fruits.push("Fig");
    fruits.push("Grape");
    fruits.push("Honeydew");
    assert(name_texts(fruits@) =~= basket_names());
    fruits
}

/// One fruit of the basket, drawn at random.
pub fn generate_fruit(rng: &mut rand::rngs::StdRng) -> (fruit: &'static str)
    ensures
        basket_names().contains(fruit@),
{
    let fruits = basket();
    match pick_one(&fruits, rng) {
        Some(fruit) => {
            proof {
                let at = choose|i: int| 0 <= i < fruits.len() && #[trigger] fruits[i] == fruit;
                assert(name_texts(fruits@)[at] == fruit@);
                assert(basket_names()[at] == fruit@);
            }
            fruit
        },
        None => {
            assert(name_texts(fruits@).len() == 8);
            "Apple"
        },
    }
}

/// The fruit of the pantry.
pub fn pantry() -> (fruits: Vec<String>)
    ensures
        texts(fruits@) == pantry_names(),
{
    let mut fruits: Vec<String> = Vec::new();
    fruits.push("Arbutus".to_owned());
    fruits.push("Loquat".to_owned());
    fruits.push("Strawberry Tree Berry".to_owned());
    fruits.push("Pomegranate".to_owned());
    fruits.push("Fig".to_owned());
    fruits.push("Cherry".to_owned());
    fruits.push("Orange".to_owned());
    fruits.push("Pear".to_owned());
    fruits.push("Peach".to_owned());
    fruits.push("Apple".to_owned());
    assert(texts(fruits@) =~= pantry_names());
    fruits
}

/// How many fruit of the pantry go into a salad that asks for `count`.
pub open spec fn pantry_share(count: nat) -> int {
    if count < 10 {
        count as int
    } else {
        10
    }
}

/// `order` holds the fruit of the pantry, each once.
pub open spec fn is_pantry_order(order: Seq<Seq<char>>) -> bool {
    order.to_multiset() == pantry_names().to_multiset()
}

/// `salad` starts with `count` fruit of the pantry, or all ten where `count` is more, no
/// fruit twice and in an order left to chance, and goes on with `own`.
pub open spec fn is_fruit_salad(salad: Seq<Seq<char>>, count: nat, own: Seq<Seq<char>>) -> bool {
    exists|order: Seq<Seq<char>>|
        #[trigger] is_pantry_order(order) && salad == order.take(pantry_share(count)) + own
}

/// A salad of `num_fruits` fruit drawn from the pantry, none twice, followed by the
/// caller's own fruit, if any, which are taken out of `my_fruits`.
pub fn create_fruit_salad(
    rng: &mut rand::rngs::StdRng,
    num_fruits: usize,
    my_fruits: Option<&mut Vec<String>>,
) -> (salad: Vec<String>)
    ensures
        match my_fruits {
            Some(own) => {
                &&& is_fruit_salad(texts(salad@), num_fruits as nat, texts(own@))
                &&& final(own)@.len() == 0
            },
            None => is_fruit_salad(texts(salad@), num_fruits as nat, Seq::empty()),
        },
{
    let mut fruits = pantry();
    if num_fruits > 0 {
        shuffle_all(&mut fruits, rng);
    }
    let ghost order = texts(fruits@);
    proof {
        vstd::seq_lib::to_multiset_len(order);
        vstd::seq_lib::to_multiset_len(pantry_names());
        assert(is_pantry_order(order));
    }
    fruits.truncate(num_fruits);
    assert(texts(fruits@) =~= order.take(pantry_share(num_fruits as nat)));
    if let Some(own) = my_fruits {
        let ghost own_before = texts(own@);
        fruits.append(own);
        assert(texts(fruits@) =~= order.take(pantry_share(num_fruits as nat)) + own_before);
    } else {
        assert(texts(fruits@) =~= order.take(pantry_share(num_fruits as nat)) + Seq::empty());
    }
    fruits
}

} // verus!
