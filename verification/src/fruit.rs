//! Fruit for a salad, where figs come first.

use std::cmp::Ordering;
use vstd::prelude::*;
use crate::text::same_text;

verus! {

/// A fruit of the salad. Figs are told apart from all others, which go by name.
#[derive(Debug, PartialEq, Eq)]
pub enum Fruit {
    Fig,
    Other(String),
}

/// What a fruit is, as far as any contract is concerned.
pub ghost enum FruitKind {
    Fig,
    Other(Seq<char>),
}

impl View for Fruit {
    type V = FruitKind;

    open spec fn view(&self) -> FruitKind {
        match self {
            Fruit::Fig => FruitKind::Fig,
            Fruit::Other(name) => FruitKind::Other(name@),
        }
    }
}

/// The fruit that a name stands for: `Fig` is the fig, any other name a fruit of its own.
pub open spec fn fruit_named(name: Seq<char>) -> FruitKind {
    if name == "Fig"@ {
        FruitKind::Fig
    } else {
        FruitKind::Other(name)
    }
}

/// The kinds of a list of fruit.
pub open spec fn kinds(salad: Seq<Fruit>) -> Seq<FruitKind> {
    Seq::new(salad.len(), |i: int| salad[i]@)
}

impl Fruit {
    /// The place of the fruit in the order of serving: figs stand above all others.
    pub open spec fn rank(&self) -> int {
        match self {
            Fruit::Fig => 1,
            Fruit::Other(_) => 0,
        }
    }

    /// Orders two fruit for serving: a fig is greater than any other fruit, two figs are
    /// equal, and so are two fruit of which neither is a fig.
    pub fn cmp(&self, other: &Fruit) -> (r: Ordering)
        ensures
            match r {
                Ordering::Less => self.rank() < other.rank(),
                Ordering::Equal => self.rank() == other.rank(),
                Ordering::Greater => self.rank() > other.rank(),
            },
    {
        match (self, other) {
            (Fruit::Fig, Fruit::Fig) => Ordering::Equal,
            (Fruit::Fig, Fruit::Other(_)) => Ordering::Greater,
            (Fruit::Other(_), Fruit::Fig) => Ordering::Less,
            (Fruit::Other(_), Fruit::Other(_)) => Ordering::Equal,
        }
    }

    /// The fruit that `name` stands for.
    pub fn named(name: &str) -> (fruit: Fruit)
        ensures
            fruit@ == fruit_named(name@),
    {
        if same_text(name, "Fig") {
            Fruit::Fig
        } else {
            Fruit::Other(name.to_owned())
        }
    }
}

} // verus!
