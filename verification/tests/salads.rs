use graph_centrality::fruit::Fruit;
use graph_centrality::salad::{
    basket, create_fruit_salad, generate_fruit, generate_fruit_salad, pantry, salad_fruits, serve,
    serving_order,
};
use graph_centrality::table::NameTable;
use graph_centrality::text::same_text;
use rand::rngs::StdRng;
use rand::SeedableRng;
use std::cmp::Ordering;

fn other(name: &str) -> Fruit {
    Fruit::Other(name.to_string())
}

#[test]
fn figs_stand_above_all_other_fruit() {
    assert_eq!(Fruit::Fig.cmp(&Fruit::Fig), Ordering::Equal);
    assert_eq!(Fruit::Fig.cmp(&other("Pear")), Ordering::Greater);
    assert_eq!(other("Pear").cmp(&Fruit::Fig), Ordering::Less);
    assert_eq!(other("Pear").cmp(&other("Apple")), Ordering::Equal);
    assert_eq!(other("Pear").cmp(&other("Pear")), Ordering::Equal);
}

#[test]
fn a_fruit_goes_by_its_name() {
    assert_eq!(Fruit::named("Fig"), Fruit::Fig);
    assert_eq!(Fruit::named("Pear"), other("Pear"));
    assert_eq!(Fruit::named("fig"), other("fig"));
    assert_eq!(Fruit::named(""), other(""));
}

#[test]
fn texts_are_compared_by_their_characters() {
    assert!(same_text("Fig", "Fig"));
    assert!(same_text("", ""));
    assert!(!same_text("Fig", "Figs"));
    assert!(!same_text("Fig", "Fib"));
    assert!(same_text("Grüße", "Grüße"));
    assert!(!same_text("Grüße", "Grüsse"));
}

#[test]
fn the_second_fig_completes_the_salad() {
    let mut counts: NameTable<usize> = NameTable::new();
    let mut salad = Vec::new();
    assert!(!serve("Pear", &mut counts, &mut salad));
    assert!(!serve("Fig", &mut counts, &mut salad));
    assert!(!serve("Pear", &mut counts, &mut salad));
    assert!(serve("Fig", &mut counts, &mut salad));
    assert_eq!(salad, vec![other("Pear"), Fruit::Fig, other("Pear"), Fruit::Fig]);
    assert_eq!(counts.get("Pear"), Some(2));
    assert_eq!(counts.get("Fig"), Some(2));
    assert_eq!(counts.get("Apple"), None);
    assert!(!serve("Fig", &mut counts, &mut salad));
    assert_eq!(counts.get("Fig"), Some(3));
}

#[test]
fn only_a_fig_completes_the_salad() {
    let mut counts: NameTable<usize> = NameTable::new();
    let mut salad = Vec::new();
    assert!(!serve("Pear", &mut counts, &mut salad));
    assert!(!serve("Pear", &mut counts, &mut salad));
    assert_eq!(counts.get("Pear"), Some(2));
}

#[test]
fn a_salad_ends_with_its_second_fig() {
    let fruits = salad_fruits();
    assert_eq!(
        fruits,
        vec!["Apple", "Orange", "Pear", "Peach", "Banana", "Fig", "Fig", "Fig", "Fig"]
    );
    for seed in 0..50 {
        let mut rng = StdRng::seed_from_u64(seed);
        let mut counts: NameTable<usize> = NameTable::new();
        let salad = generate_fruit_salad(&mut rng, &mut counts, usize::MAX);
        assert_eq!(salad.last(), Some(&Fruit::Fig));
        assert_eq!(salad.iter().filter(|f| **f == Fruit::Fig).count(), 2);
        assert_eq!(counts.get("Fig"), Some(2));
        let mut counted = 0;
        for i in 0..counts.len() {
            assert!(fruits.contains(&counts.name(i)));
            let of_this = salad.iter().filter(|f| **f == Fruit::named(counts.name(i))).count();
            assert_eq!(counts.value(i), of_this);
            counted += counts.value(i);
        }
        assert_eq!(counted, salad.len());
    }
}

#[test]
fn salads_differ_from_draw_to_draw() {
    let mut lengths = Vec::new();
    for seed in 0..50 {
        let mut rng = StdRng::seed_from_u64(seed);
        let mut counts: NameTable<usize> = NameTable::new();
        lengths.push(generate_fruit_salad(&mut rng, &mut counts, usize::MAX).len());
    }
    lengths.sort();
    lengths.dedup();
    assert!(lengths.len() > 1);
}

#[test]
fn a_salad_stops_at_its_limit() {
    let mut rng = StdRng::seed_from_u64(1);
    let mut counts: NameTable<usize> = NameTable::new();
    assert_eq!(generate_fruit_salad(&mut rng, &mut counts, 0), vec![]);
    assert_eq!(counts.len(), 0);
    let salad = generate_fruit_salad(&mut rng, &mut counts, 1);
    assert_eq!(salad.len(), 1);
    assert_eq!(counts.len(), 1);
    assert_eq!(counts.value(0), 1);
}

#[test]
fn figs_are_served_first() {
    let salad = vec![other("Pear"), Fruit::Fig, other("Apple"), other("Pear"), Fruit::Fig];
    assert_eq!(
        serving_order(&salad),
        vec![Fruit::Fig, Fruit::Fig, other("Pear"), other("Apple"), other("Pear")]
    );
    assert_eq!(serving_order(&vec![]), vec![]);
    assert_eq!(serving_order(&vec![other("Pear")]), vec![other("Pear")]);
}

#[test]
fn a_fruit_comes_from_the_basket() {
    let names = basket();
    assert_eq!(
        names,
        vec!["Apple", "Banana", "Cherry", "Date", "Elderberry", "Fig", "Grape", "Honeydew"]
    );
    let mut rng = StdRng::seed_from_u64(3);
    let mut drawn = Vec::new();
    for _ in 0..200 {
        let fruit = generate_fruit(&mut rng);
        assert!(names.contains(&fruit));
        drawn.push(fruit);
    }
    drawn.sort();
    drawn.dedup();
    assert!(drawn.len() > 1);
}

#[test]
fn a_salad_from_the_pantry() {
    let all = pantry();
    assert_eq!(all.len(), 10);
    assert_eq!(all[2], "Strawberry Tree Berry");
    for seed in 0..20 {
        let mut rng = StdRng::seed_from_u64(seed);
        let salad = create_fruit_salad(&mut rng, 4, None);
        assert_eq!(salad.len(), 4);
        for (i, fruit) in salad.iter().enumerate() {
            assert!(all.contains(fruit));
            assert!(!salad[..i].contains(fruit));
        }
    }
}

#[test]
fn the_pantry_is_shuffled() {
    let all = pantry();
    let mut orders = Vec::new();
    for seed in 0..20 {
        let mut rng = StdRng::seed_from_u64(seed);
        let mut salad = create_fruit_salad(&mut rng, 10, None);
        orders.push(salad.clone());
        salad.sort();
        let mut sorted = all.clone();
        sorted.sort();
        assert_eq!(salad, sorted);
    }
    assert!(orders.iter().any(|order| *order != all));
    orders.sort();
    orders.dedup();
    assert!(orders.len() > 1);
}

#[test]
fn own_fruit_follow_those_of_the_pantry() {
    let mut rng = StdRng::seed_from_u64(5);
    let mut own = vec!["Kiwi".to_string(), "Lime".to_string()];
    let salad = create_fruit_salad(&mut rng, 3, Some(&mut own));
    assert_eq!(salad.len(), 5);
    assert_eq!(salad[3..], ["Kiwi".to_string(), "Lime".to_string()]);
    assert!(own.is_empty());
    assert!(pantry().contains(&salad[0]));
}

#[test]
fn a_salad_of_own_fruit_alone() {
    let mut rng = StdRng::seed_from_u64(5);
    let mut own = vec!["Kiwi".to_string()];
    assert_eq!(create_fruit_salad(&mut rng, 0, Some(&mut own)), vec!["Kiwi".to_string()]);
    assert!(own.is_empty());
    assert_eq!(create_fruit_salad(&mut rng, 0, None), Vec::<String>::new());
}

#[test]
fn the_pantry_holds_ten_fruit() {
    let mut rng = StdRng::seed_from_u64(9);
    assert_eq!(create_fruit_salad(&mut rng, 25, None).len(), 10);
}
