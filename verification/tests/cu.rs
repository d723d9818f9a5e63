use molecule::{Counter, Cu, Isotope, Saturable, Saturation};

#[test]
fn cu_round_trip() {
    let cu = Cu { c: 18, u: 1 };
    assert_eq!(cu.h(), 34);
    let counter = cu.to_counter();
    assert_eq!(counter, Counter::accumulate(&vec![(Isotope::c(), 18), (Isotope::h(), 34)]));
    assert_eq!(Cu::from(&counter), Cu { c: 18, u: 1 });
}

#[test]
fn hydrogen_count() {
    assert_eq!(Cu { c: 0, u: 0 }.h(), 0);
    assert_eq!(Cu { c: 1, u: 0 }.h(), 2);
    assert_eq!(Cu { c: 18, u: 0 }.h(), 36);
    assert_eq!(Cu { c: 18, u: 3 }.h(), 30);
    assert_eq!(Cu { c: 4, u: 4 }.h(), 0);
}

#[test]
fn hydrogen_count_stays_in_range() {
    assert_eq!(Cu { c: 1, u: 2 }.h(), 0);
    assert_eq!(Cu { c: 0, u: usize::MAX }.h(), 0);
    assert_eq!(Cu { c: usize::MAX, u: 0 }.h(), usize::MAX);
    assert_eq!(Cu { c: usize::MAX / 2, u: 0 }.h(), usize::MAX - 1);
    assert_eq!(Cu { c: usize::MAX / 2 + 1, u: 0 }.h(), usize::MAX);
}

#[test]
fn cu_as_text() {
    assert_eq!(Cu { c: 18, u: 1 }.to_string(), "18:1");
    assert_eq!(Cu { c: 0, u: 0 }.to_string(), "0:0");
    assert_eq!(Cu { c: 1234567890, u: 10 }.to_string(), "1234567890:10");
    assert_eq!(Cu::default().to_string(), "0:0");
}

#[test]
fn counter_from_cu() {
    let counter = Counter::from(Cu { c: 18, u: 1 });
    assert_eq!(counter, Counter::accumulate(&vec![(Isotope::c(), 18), (Isotope::h(), 34)]));
    let same: Counter = Cu { c: 18, u: 1 }.into();
    assert_eq!(same, counter);
    assert_eq!(Counter::from(Cu { c: 0, u: 0 }), Counter::default());
    assert_eq!(Counter::from(Cu { c: 2, u: 5 }).count(Isotope::h()), 0);
    assert_eq!(Counter::from(Cu { c: 2, u: 5 }).count(Isotope::c()), 2);
}

#[test]
fn cu_and_pairs() {
    assert_eq!(Cu::from((18, 1)), Cu { c: 18, u: 1 });
    let pair: (usize, usize) = Cu { c: 18, u: 1 }.into();
    assert_eq!(pair, (18, 1));
}

#[test]
fn counter_of_a_chain_leaves_out_what_is_not_there() {
    assert_eq!(Cu { c: 0, u: 0 }.to_counter(), Counter::default());
    let bare = Cu { c: 3, u: 3 }.to_counter();
    assert_eq!(bare.len(), 1);
    assert_eq!(bare.count(Isotope::c()), 3);
    assert_eq!(bare.count(Isotope::h()), 0);
}

#[test]
fn cu_of_a_counter_is_a_lossy_inverse() {
    let odd = Counter::accumulate(&vec![(Isotope::c(), 18), (Isotope::h(), 35)]);
    assert_eq!(Cu::from(&odd), Cu { c: 18, u: 1 });
    let over = Cu { c: 2, u: 5 };
    assert_eq!(Cu::from(&over.to_counter()), Cu { c: 2, u: 2 });
    let methane = Counter::accumulate(&vec![(Isotope::c(), 1), (Isotope::h(), 4)]);
    assert_eq!(Cu::from(&methane), Cu { c: 1, u: 0 });
    assert_eq!(Cu::from(&Counter::default()), Cu { c: 0, u: 0 });
}

#[test]
fn ethane_is_saturated() {
    let ethane = Counter::accumulate(&vec![(Isotope::c(), 2), (Isotope::h(), 6)]);
    assert_eq!(ethane.unsaturated(), 0);
    assert!(ethane.saturated());
    assert_eq!(ethane.saturation(), Saturation::Saturated);
}

#[test]
fn unsaturation_is_carbon_less_half_hydrogen() {
    let oleyl = Counter::accumulate(&vec![(Isotope::c(), 18), (Isotope::h(), 34)]);
    assert_eq!(oleyl.unsaturated(), 1);
    assert!(!oleyl.saturated());
    assert_eq!(oleyl.saturation(), Saturation::Unsaturated);

    let odd = Counter::accumulate(&vec![(Isotope::c(), 3), (Isotope::h(), 5)]);
    assert_eq!(odd.unsaturated(), 1);

    let ethene = Counter::accumulate(&vec![(Isotope::c(), 2), (Isotope::h(), 4)]);
    assert_eq!(ethene.unsaturated(), 0);

    let carbon = Counter::accumulate(&vec![(Isotope::c(), 7)]);
    assert_eq!(carbon.unsaturated(), 7);
    assert_eq!(carbon.saturation(), Saturation::Unsaturated);

    assert_eq!(Counter::default().unsaturated(), 0);
    assert_eq!(Counter::default().saturation(), Saturation::Saturated);
}

#[test]
fn saturation_as_text() {
    assert_eq!(Saturation::Saturated.to_string(), "S");
    assert_eq!(Saturation::Unsaturated.to_string(), "U");
    assert_eq!(Saturation::Saturated.render(false), "S");
    assert_eq!(Saturation::Unsaturated.render(false), "U");
    assert_eq!(Saturation::Saturated.render(true), "Saturated");
    assert_eq!(Saturation::Unsaturated.render(true), "Unsaturated");
}
