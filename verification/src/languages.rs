//! Programming languages by the year they appeared, and how old each is among the rest.

use vstd::prelude::*;
use crate::table::NameTable;

verus! {

/// The year against which ages are taken.
pub const THIS_YEAR: i32 = 2024;

/// A table from the name of a language to the year it appeared, or to its age.
pub type Languages = NameTable<i32>;

/// How old a language is among the others: its age above the youngest, and the range
/// of ages from the youngest to the oldest.
#[derive(Debug, PartialEq, Eq)]
pub struct Standing {
    pub name: String,
    /// The age of the language less the least age in the table.
    pub above_youngest: u32,
    /// The greatest age in the table less the least.
    pub age_range: u32,
}

/// The languages that every table starts with, and the year each appeared.
pub open spec fn first_languages() -> Seq<(Seq<char>, i32)> {
    seq![
        ("JavaScript"@, 1995i32),
        ("HTML/CSS"@, 1990i32),
        ("Python"@, 1991i32),
        ("SQL"@, 1974i32),
        ("TypeScript"@, 2012i32),
        ("Bash/Shell"@, 1989i32),
        ("Java"@, 1995i32),
        ("C#"@, 2000i32),
        ("C++"@, 1985i32),
        ("C"@, 1972i32),
        ("PHP"@, 1995i32),
        ("PowerShell"@, 2006i32),
        ("Go"@, 2007i32),
        ("Rust"@, 2010i32),
    ]
}

/// The ages that the years of `table` make, counted back from `THIS_YEAR`.
pub open spec fn ages_of(table: Seq<(Seq<char>, i32)>) -> Seq<int> {
    Seq::new(table.len(), |i: int| THIS_YEAR - table[i].1)
}

/// The table with each year replaced by the age it makes.
pub open spec fn aged(table: Seq<(Seq<char>, i32)>) -> Seq<(Seq<char>, i32)> {
    Seq::new(table.len(), |i: int| (table[i].0, (THIS_YEAR - table[i].1) as i32))
}

/// Every age that the years of `table` make fits in 32 bits.
pub open spec fn ages_fit(table: Seq<(Seq<char>, i32)>) -> bool {
    forall|i: int| 0 <= i < table.len() ==> THIS_YEAR - (#[trigger] table[i]).1 <= i32::MAX
}

/// `standings` gives, for each entry of `table` and in its order, the age above the
/// least age of the table, and the range from the least age to the greatest.
pub open spec fn ranks(table: Seq<(Seq<char>, i32)>, standings: Seq<Standing>) -> bool {
    &&& standings.len() == table.len()
    &&& forall|i: int|
        0 <= i < table.len() ==> {
            &&& (#[trigger] standings[i]).name@ == table[i].0
            &&& standings[i].above_youngest == ages_of(table)[i] - ages_of(table).min()
            &&& standings[i].age_range == ages_of(table).max() - ages_of(table).min()
        }
}

/// The table that every run starts with: fourteen languages and the year each appeared.
pub fn init_languages() -> (languages: Languages)
    ensures
        languages.wf(),
        languages@ == first_languages(),
{
    proof {
        reveal_strlit("JavaScript");
        reveal_strlit("HTML/CSS");
        reveal_strlit("Python");
        reveal_strlit("SQL");
        reveal_strlit("TypeScript");
        reveal_strlit("Bash/Shell");
        reveal_strlit("Java");
        reveal_strlit("C#");
        reveal_strlit("C++");
        reveal_strlit("C");
        reveal_strlit("PHP");
        reveal_strlit("PowerShell");
        reveal_strlit("Go");
        reveal_strlit("Rust");
        assert("JavaScript"@.len() == 10 && "JavaScript"@[0] == 'J');
        assert("HTML/CSS"@.len() == 8 && "HTML/CSS"@[0] == 'H');
        assert("Python"@.len() == 6 && "Python"@[0] == 'P');
        assert("SQL"@.len() == 3 && "SQL"@[0] == 'S');
        assert("TypeScript"@.len() == 10 && "TypeScript"@[0] == 'T');
        assert("Bash/Shell"@.len() == 10 && "Bash/Shell"@[0] == 'B');
        assert("Java"@.len() == 4 && "Java"@[0] == 'J');
        assert("C#"@.len() == 2 && "C#"@[0] == 'C');
        assert("C++"@.len() == 3 && "C++"@[0] == 'C');
        assert("C"@.len() == 1 && "C"@[0] == 'C');
        assert("PHP"@.len() == 3 && "PHP"@[0] == 'P');
        assert("PowerShell"@.len() == 10 && "PowerShell"@[0] == 'P');
        assert("Go"@.len() == 2 && "Go"@[0] == 'G');
        assert("Rust"@.len() == 4 && "Rust"@[0] == 'R');
    }
    let mut languages = Languages::new();
    assert(languages@ =~= first_languages().take(0));
    languages.insert("JavaScript".to_owned(), 1995);
    assert(languages@ =~= first_languages().take(1));
    languages.insert("HTML/CSS".to_owned(), 1990);
    assert(languages@ =~= first_languages().take(2));
    languages.insert("Python".to_owned(), 1991);
    assert(languages@ =~= first_languages().take(3));
    languages.insert("SQL".to_owned(), 1974);
    assert(languages@ =~= first_languages().take(4));
    languages.insert("TypeScript".to_owned(), 2012);
    assert(languages@ =~= first_languages().take(5));
    languages.insert("Bash/Shell".to_owned(), 1989);
    assert(languages@ =~= first_languages().take(6));
    languages.insert("Java".to_owned(), 1995);
    assert(languages@ =~= first_languages().take(7));
    languages.insert("C#".to_owned(), 2000);
    assert(languages@ =~= first_languages().take(8));
    languages.insert("C++".to_owned(), 1985);
    assert(languages@ =~= first_languages().take(9));
    languages.insert("C".to_owned(), 1972);
    assert(languages@ =~= first_languages().take(10));
    languages.insert("PHP".to_owned(), 1995);
    assert(languages@ =~= first_languages().take(11));
    languages.insert("PowerShell".to_owned(), 2006);
    assert(languages@ =~= first_languages().take(12));
    languages.insert("Go".to_owned(), 2007);
    assert(languages@ =~= first_languages().take(13));
    languages.insert("Rust".to_owned(), 2010);
    assert(languages@ =~= first_languages().take(14));
    assert(first_languages().take(14) =~= first_languages());
    languages
}

/// Turns the year of each language into its age in `THIS_YEAR`, and returns for each
/// language, in the order of the table, how far its age lies above the least age and how
/// wide the range of ages is. The share of the one in the other places the language
/// between the youngest (0) and the oldest (1). An empty table has the range 0.
pub fn calculate_weights(years_active: &mut Languages) -> (weights: Vec<Standing>)
    requires
        old(years_active).wf(),
        ages_fit(old(years_active)@),
    ensures
        final(years_active).wf(),
        final(years_active)@ == aged(old(years_active)@),
        ranks(old(years_active)@, weights@),
{
    let ghost years = years_active@;
    let ghost ages = ages_of(years);
    let count = years_active.len();
    let mut i: usize = 0;
    while i < count
        invariant
            count == years.len(),
            years_active@.len() == count,
            years_active.wf(),
            i <= count,
            ages_fit(years),
            forall|j: int| 0 <= j < i ==> (#[trigger] years_active@[j]) == aged(years)[j],
            forall|j: int| i <= j < count ==> (#[trigger] years_active@[j]) == years[j],
        decreases count - i,
    {
        assert(THIS_YEAR - years[i as int].1 <= i32::MAX);
        let age: i32 = THIS_YEAR - years_active.value(i);
        years_active.set_value(i, age);
        i += 1;
    }
    assert(years_active@ =~= aged(years));
    let mut youngest: i32 = 0;
    let mut oldest: i32 = 0;
    if count > 0 {
        youngest = years_active.value(0);
        oldest = years_active.value(0);
        assert(ages[0] == youngest);
        let mut k: usize = 1;
        while k < count
            invariant
                count == years.len(),
                years_active@ == aged(years),
                ages == ages_of(years),
                ages_fit(years),
                1 <= k <= count,
                exists|j: int| 0 <= j < k && #[trigger] ages[j] == youngest,
                exists|j: int| 0 <= j < k && #[trigger] ages[j] == oldest,
                forall|j: int| 0 <= j < k ==> youngest <= #[trigger] ages[j] <= oldest,
            decreases count - k,
        {
            let age = years_active.value(k);
            assert(THIS_YEAR - years[k as int].1 <= i32::MAX);
            assert(age == ages[k as int]);
            if age < youngest {
                youngest = age;
            }
            if age > oldest {
                oldest = age;
            }
            k += 1;
        }
        proof {
            ages.min_ensures();
            ages.max_ensures();
            let at_min = choose|j: int| 0 <= j < ages.len() && ages[j] == ages.min();
            let at_max = choose|j: int| 0 <= j < ages.len() && ages[j] == ages.max();
            assert(youngest <= ages[at_min]);
            assert(ages[at_max] <= oldest);
            let lo = choose|j: int| 0 <= j < count && #[trigger] ages[j] == youngest;
            let hi = choose|j: int| 0 <= j < count && #[trigger] ages[j] == oldest;
            assert(ages.min() <= ages[lo]);
            assert(ages[hi] <= ages.max());
        }
    }
    let range: u32 = (oldest as i64 - youngest as i64) as u32;
    let mut weights: Vec<Standing> = Vec::new();
    let mut n: usize = 0;
    while n < count
        invariant
            count == years.len(),
            years_active@ == aged(years),
            ages == ages_of(years),
            ages_fit(years),
            count > 0 ==> youngest == ages.min() && oldest == ages.max(),
            range == oldest - youngest,
            forall|j: int| 0 <= j < count ==> youngest <= #[trigger] ages[j] <= oldest,
            n <= count,
            weights.len() == n,
            forall|j: int|
                0 <= j < n ==> {
                    &&& (#[trigger] weights[j]).name@ == years[j].0
                    &&& weights[j].above_youngest == ages[j] - youngest
                    &&& weights[j].age_range == range
                },
        decreases count - n,
    {
        let age = years_active.value(n);
        assert(THIS_YEAR - years[n as int].1 <= i32::MAX);
        assert(age == ages[n as int]);
        let name = years_active.name(n).to_owned();
        weights.push(
            Standing { name, above_youngest: (age as i64 - youngest as i64) as u32, age_range: range },
        );
        n += 1;
    }
    weights
}

} // verus!
