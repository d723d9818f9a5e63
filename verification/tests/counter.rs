use molecule::{Counter, Error, Isotope, Table};
use std::collections::BTreeMap;

fn h() -> Isotope {
    Isotope::new(1, 1)
}

fn c() -> Isotope {
    Isotope::new(6, 12)
}

fn o() -> Isotope {
    Isotope::new(8, 16)
}

fn table() -> Table {
    let mut table = Table::new();
    assert!(table.insert("O", o()));
    assert!(table.insert("H", h()));
    assert!(table.insert("C", c()));
    assert!(table.insert("Cl", Isotope::new(17, 35)));
    assert!(table.insert("D", Isotope::new(1, 2)));
    table
}

#[test]
fn counter_test() {
    let table = table();
    let counter = Counter::accumulate(&vec![(c(), 2), (h(), 5), (o(), 1), (h(), 1)]);
    assert_eq!(counter.render(&table).unwrap(), "H6C2O");
    assert_eq!(Ok(counter), Counter::parse("C2H5OH", &table));
}

#[test]
fn counter() {
    let table = table();
    let counter = Counter::accumulate(&vec![(c(), 2), (h(), 5), (o(), 1), (h(), 1)]);
    assert_eq!(counter.render(&table).unwrap(), "H6C2O");
    assert_eq!(Ok(counter), Counter::parse("C2H5OH", &table));
}

#[test]
fn worked_example_counts() {
    let counter = Counter::parse("C2H5OH", &table()).unwrap();
    assert_eq!(counter.count(c()), 2);
    assert_eq!(counter.count(h()), 6);
    assert_eq!(counter.count(o()), 1);
    assert_eq!(counter.count(Isotope::new(7, 14)), 0);
    assert_eq!(counter.len(), 3);
    assert_eq!(counter.entries(), vec![(h(), 6), (c(), 2), (o(), 1)]);
}

#[test]
fn worked_example_weight() {
    let counter = Counter::parse("C2H5OH", &table()).unwrap();
    let mut weight = 0.0_f64;
    for (isotope, count) in counter.entries() {
        let mass = match isotope.protons {
            1 => 1.008,
            6 => 12.011,
            8 => 15.999,
            _ => panic!("no mass for {:?}", isotope),
        };
        weight += mass * count as f64;
    }
    assert!((weight - 46.069).abs() < 1e-9);
    assert!((weight - 46.07).abs() < 0.01);
}

#[test]
fn empty_formula_is_the_empty_counter() {
    let counter = Counter::parse("", &table()).unwrap();
    assert_eq!(counter.len(), 0);
    assert_eq!(counter, Counter::default());
    assert_eq!(counter.render(&table()).unwrap(), "");
}

#[test]
fn count_defaults_to_one() {
    let counter = Counter::parse("CO", &table()).unwrap();
    assert_eq!(counter.count(c()), 1);
    assert_eq!(counter.count(o()), 1);
    assert_eq!(counter.render(&table()).unwrap(), "CO");
}

#[test]
fn symbols_take_their_lower_case_letters() {
    let counter = Counter::parse("CCl4", &table()).unwrap();
    assert_eq!(counter.count(c()), 1);
    assert_eq!(counter.count(Isotope::new(17, 35)), 4);
    assert_eq!(counter.render(&table()).unwrap(), "CCl4");
}

#[test]
fn leading_zeros_are_read() {
    let counter = Counter::parse("H007", &table()).unwrap();
    assert_eq!(counter.count(h()), 7);
}

#[test]
fn characters_outside_terms_are_passed_over() {
    let counter = Counter::parse(" 2h C2-H6;", &table()).unwrap();
    assert_eq!(counter.count(c()), 2);
    assert_eq!(counter.count(h()), 6);
    assert_eq!(counter.len(), 2);
}

#[test]
fn unknown_symbol_is_reported() {
    assert_eq!(Counter::parse("C2Xx5", &table()), Err(Error::UnknownSpecies));
    assert_eq!(Counter::parse("Co", &table()), Err(Error::UnknownSpecies));
}

#[test]
fn zero_count_is_malformed() {
    assert_eq!(Counter::parse("C0", &table()), Err(Error::MalformedCount));
    assert_eq!(Counter::parse("H2O000", &table()), Err(Error::MalformedCount));
}

#[test]
fn count_beyond_usize_is_malformed() {
    let max = usize::MAX.to_string();
    let fits = format!("C{}", max);
    let counter = Counter::parse(&fits, &table()).unwrap();
    assert_eq!(counter.count(c()), usize::MAX);
    let beyond = format!("C{}0", max);
    assert_eq!(Counter::parse(&beyond, &table()), Err(Error::MalformedCount));
    assert_eq!(
        Counter::parse("C99999999999999999999999999999999999999999", &table()),
        Err(Error::MalformedCount)
    );
}

#[test]
fn first_failure_wins() {
    assert_eq!(Counter::parse("Xx0C0", &table()), Err(Error::UnknownSpecies));
    assert_eq!(Counter::parse("C0Xx", &table()), Err(Error::MalformedCount));
    assert_eq!(Counter::parse("H2Xx3C0", &table()), Err(Error::UnknownSpecies));
}

#[test]
fn repeated_symbols_add_up() {
    let counter = Counter::parse("HHH2H", &table()).unwrap();
    assert_eq!(counter.count(h()), 5);
}

#[test]
fn counts_saturate() {
    let max = usize::MAX.to_string();
    let text = format!("C{}C5", max);
    let counter = Counter::parse(&text, &table()).unwrap();
    assert_eq!(counter.count(c()), usize::MAX);

    let mut merged = Counter::default();
    merged.merge(h(), usize::MAX - 1);
    merged.merge(h(), 1);
    assert_eq!(merged.count(h()), usize::MAX);
    merged.merge(h(), 1);
    assert_eq!(merged.count(h()), usize::MAX);
}

#[test]
fn merging_nothing_adds_no_entry() {
    let mut counter = Counter::default();
    counter.merge(h(), 0);
    assert_eq!(counter.len(), 0);
    assert_eq!(counter.count(h()), 0);
    counter.merge(h(), 3);
    counter.merge(h(), 0);
    assert_eq!(counter.count(h()), 3);
}

#[test]
fn accumulation_does_not_depend_on_order() {
    let one = Counter::accumulate(&vec![(c(), 2), (h(), 5), (o(), 1), (h(), 1)]);
    let other = Counter::accumulate(&vec![(h(), 1), (o(), 1), (h(), 5), (c(), 2)]);
    assert_eq!(one, other);
    let table = table();
    assert_eq!(one.render(&table), other.render(&table));

    let big = Counter::accumulate(&vec![(c(), usize::MAX), (c(), 7), (h(), 1)]);
    let big_again = Counter::accumulate(&vec![(c(), 7), (h(), 1), (c(), usize::MAX)]);
    assert_eq!(big, big_again);
    assert_eq!(big.count(c()), usize::MAX);
}

#[test]
fn rendering_follows_the_order_of_the_isotopes() {
    let table = table();
    let counter = Counter::accumulate(&vec![
        (Isotope::new(17, 35), 1),
        (o(), 12),
        (Isotope::new(1, 2), 3),
        (c(), 1),
        (h(), 10),
    ]);
    assert_eq!(counter.render(&table).unwrap(), "H10D3CO12Cl");
    assert_eq!(
        counter.entries(),
        vec![
            (h(), 10),
            (Isotope::new(1, 2), 3),
            (c(), 1),
            (o(), 12),
            (Isotope::new(17, 35), 1)
        ]
    );
}

#[test]
fn rendering_needs_a_symbol_for_each_isotope() {
    let counter = Counter::accumulate(&vec![(c(), 1), (Isotope::new(7, 14), 2)]);
    assert_eq!(counter.render(&table()), None);
}

#[test]
fn reading_what_was_written_gives_the_counter_back() {
    let table = table();
    let counters = vec![
        Counter::default(),
        Counter::accumulate(&vec![(c(), 2), (h(), 6)]),
        Counter::accumulate(&vec![(c(), 1), (Isotope::new(17, 35), 4)]),
        Counter::accumulate(&vec![(h(), usize::MAX), (o(), 1), (Isotope::new(1, 2), 10)]),
        Counter::accumulate(&vec![(o(), 100), (c(), 11), (h(), 1)]),
    ];
    for counter in counters {
        let text = counter.render(&table).unwrap();
        assert_eq!(Counter::parse(&text, &table), Ok(counter));
    }
}

#[test]
fn new_refuses_a_count_of_zero() {
    let mut counts = BTreeMap::new();
    counts.insert(c().to_key(), 2);
    counts.insert(h().to_key(), 6);
    let counter = Counter::new(counts.clone()).unwrap();
    assert_eq!(counter, Counter::accumulate(&vec![(h(), 6), (c(), 2)]));
    assert_eq!(counter.clone(), counter);
    counts.insert(o().to_key(), 0);
    assert!(Counter::new(counts).is_none());
}

#[test]
fn counters_differ_by_any_entry() {
    let ethane = Counter::accumulate(&vec![(c(), 2), (h(), 6)]);
    let ethene = Counter::accumulate(&vec![(c(), 2), (h(), 4)]);
    let carbon = Counter::accumulate(&vec![(c(), 2)]);
    let deuterated = Counter::accumulate(&vec![(c(), 2), (Isotope::new(1, 2), 6)]);
    assert_ne!(ethane, ethene);
    assert_ne!(ethane, carbon);
    assert_ne!(carbon, ethane);
    assert_ne!(ethane, deuterated);
    assert_eq!(ethane, Counter::accumulate(&vec![(h(), 3), (c(), 2), (h(), 3)]));
}

#[test]
fn error_messages() {
    assert_eq!(Error::UnknownSpecies.message(), "unknown species");
    assert_eq!(Error::MalformedCount.message(), "malformed count");
}
