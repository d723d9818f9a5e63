use molecule::molecule::{butene, ethane, ethene, methane, pentene, propane, propene};
use molecule::{Isotope, Molecule};
use petgraph::graph::NodeIndex;

fn carbon() -> u32 {
    Isotope::c().to_key()
}

fn hydrogen() -> u32 {
    Isotope::h().to_key()
}

#[test]
fn bounds() {
    for molecule in [ethene(), propene(), butene(), pentene()] {
        let graph = molecule.graph();
        assert_eq!(
            graph
                .edge_indices()
                .filter(|&bound| {
                    graph.edge_endpoints(bound).is_some_and(|(left, right)| {
                        graph[bound] == 2 && graph[left] == carbon() && graph[right] == carbon()
                    })
                })
                .count(),
            1
        );
    }
}

#[test]
fn molecule_bounds() {
    for molecule in [ethene(), propene(), butene(), pentene()] {
        let graph = molecule.graph();
        assert!(molecule.c().iter().all(|&c| graph
            .edges(NodeIndex::new(c as usize))
            .map(|edge| *edge.weight())
            .sum::<u8>()
            == 4));
        assert!(molecule.h().iter().all(|&h| graph
            .edges(NodeIndex::new(h as usize))
            .map(|edge| *edge.weight())
            .sum::<u8>()
            == 1));
    }
}

#[test]
fn molecule_test() {
    let mut molecule = Molecule::new();
    let c = [molecule.add_atom(Isotope::c())];
    let h = [molecule.add_atom(Isotope::h())];
    molecule.add_bond(h[0], c[0], 1);
    println!("{molecule:?}");
    println!("{:?}", propene());
    let check = molecule.is_isomorphic(&propene());
    println!("{check}");
}

#[test]
fn valences_of_the_library() {
    for molecule in [methane(), ethane(), propane(), ethene(), propene(), butene(), pentene()] {
        for c in molecule.c() {
            assert_eq!(molecule.valence(c), 4);
        }
        for h in molecule.h() {
            assert_eq!(molecule.valence(h), 1);
        }
        assert_eq!(molecule.c().len() + molecule.h().len(), molecule.atom_count() as usize);
    }
}

#[test]
fn sizes_of_the_library() {
    let sizes = [
        (methane(), 1, 4, 4),
        (ethane(), 2, 6, 7),
        (propane(), 3, 8, 10),
        (ethene(), 2, 4, 5),
        (propene(), 3, 6, 8),
        (butene(), 4, 8, 11),
        (pentene(), 5, 10, 14),
    ];
    for (molecule, carbons, hydrogens, bonds) in sizes {
        assert_eq!(molecule.c(), (0..carbons).collect::<Vec<u32>>());
        assert_eq!(molecule.h(), (carbons..carbons + hydrogens).collect::<Vec<u32>>());
        assert_eq!(molecule.atom_count(), carbons + hydrogens);
        assert_eq!(molecule.bond_count(), bonds);
        assert_eq!(molecule.graph().node_count(), (carbons + hydrogens) as usize);
        assert_eq!(molecule.graph().edge_count(), bonds as usize);
    }
}

#[test]
fn alkanes_have_single_bonds_only() {
    for molecule in [methane(), ethane(), propane()] {
        for i in 0..molecule.bond_count() {
            assert_eq!(molecule.bond(i).unwrap().2, 1);
        }
    }
}

#[test]
fn bonds_of_propene() {
    let propene = propene();
    let bonds: Vec<(u32, u32, u8)> =
        (0..propene.bond_count()).map(|i| propene.bond(i).unwrap()).collect();
    assert_eq!(
        bonds,
        vec![
            (0, 1, 2),
            (1, 2, 1),
            (3, 0, 1),
            (4, 0, 1),
            (5, 1, 1),
            (6, 2, 1),
            (7, 2, 1),
            (8, 2, 1)
        ]
    );
    assert_eq!(propene.bond(7), Some((8, 2, 1)));
    assert_eq!(propene.bond(8), None);
    assert_eq!(propene.atom(0), Some(Isotope::c()));
    assert_eq!(propene.atom(2), Some(Isotope::c()));
    assert_eq!(propene.atom(3), Some(Isotope::h()));
    assert_eq!(propene.atom(8), Some(Isotope::h()));
    assert_eq!(propene.atom(9), None);
    let graph = propene.graph();
    assert_eq!(graph[NodeIndex::new(0)], carbon());
    assert_eq!(graph[NodeIndex::new(8)], hydrogen());
}

#[test]
fn building_by_hand() {
    let mut water = Molecule::new();
    assert_eq!(water.atom_count(), 0);
    assert_eq!(water.bond_count(), 0);
    let oxygen = Isotope::new(8, 16);
    let o = water.add_atom(oxygen);
    assert_eq!(o, 0);
    water.add_atoms(Isotope::h(), 2);
    assert_eq!(water.atom_count(), 3);
    assert_eq!(water.add_bond(1, o, 1), 0);
    assert_eq!(water.add_bond(2, o, 1), 1);
    assert_eq!(water.atom(0), Some(oxygen));
    assert_eq!(water.atoms_of(oxygen), vec![0]);
    assert_eq!(water.h(), vec![1, 2]);
    assert_eq!(water.c(), Vec::<u32>::new());
    assert_eq!(water.valence(0), 2);
    assert_eq!(water.valence(1), 1);
    assert_eq!(water.valence(7), 0);
    assert_eq!(water.bond(1), Some((2, 0, 1)));

    let copy = water.clone();
    water.add_atom(Isotope::c());
    assert_eq!(copy.atom_count(), 3);
    assert_eq!(water.atom_count(), 4);
    assert_eq!(copy.bond(0), Some((1, 0, 1)));
    assert_eq!(Molecule::default().atom_count(), 0);
}

#[test]
fn a_bond_from_an_atom_to_itself_counts_once() {
    let mut molecule = Molecule::new();
    molecule.add_atom(Isotope::c());
    molecule.add_bond(0, 0, 3);
    assert_eq!(molecule.valence(0), 3);
}

#[test]
fn a_carbon_hydrogen_bond_is_found_in_propene() {
    let mut fragment = Molecule::new();
    let c = fragment.add_atom(Isotope::c());
    let h = fragment.add_atom(Isotope::h());
    fragment.add_bond(h, c, 1);
    assert!(fragment.is_isomorphic(&propene()));
    assert!(!propene().is_isomorphic(&fragment));
    assert!(fragment.is_isomorphic(&methane()));
    let mut double = Molecule::new();
    double.add_atom(Isotope::c());
    double.add_atom(Isotope::h());
    double.add_bond(1, 0, 2);
    assert!(!double.is_isomorphic(&propene()));
}

#[test]
fn ethene_is_found_in_itself() {
    assert!(ethene().is_isomorphic(&ethene()));
    for molecule in [methane(), ethane(), propane(), propene(), butene(), pentene()] {
        assert!(molecule.is_isomorphic(&molecule.clone()));
    }
}

#[test]
fn ethene_is_not_found_in_ethane() {
    assert!(!ethene().is_isomorphic(&ethane()));
    assert!(!ethane().is_isomorphic(&ethene()));
}

#[test]
fn a_larger_molecule_is_not_found_in_a_smaller_one() {
    assert!(!propene().is_isomorphic(&ethene()));
    assert!(!pentene().is_isomorphic(&butene()));
    assert!(!ethane().is_isomorphic(&methane()));
}

#[test]
fn isotopes_and_orders_must_agree() {
    let mut single = Molecule::new();
    single.add_atoms(Isotope::c(), 2);
    single.add_bond(0, 1, 1);
    let mut double = Molecule::new();
    double.add_atoms(Isotope::c(), 2);
    double.add_bond(0, 1, 2);
    let mut heavy = Molecule::new();
    heavy.add_atom(Isotope::c());
    heavy.add_atom(Isotope::new(6, 13));
    heavy.add_bond(0, 1, 1);
    assert!(single.is_isomorphic(&single.clone()));
    assert!(!single.is_isomorphic(&double));
    assert!(!double.is_isomorphic(&single));
    assert!(!single.is_isomorphic(&heavy));
    assert!(double.is_isomorphic(&ethene()));
    assert!(!single.is_isomorphic(&ethene()));
    assert!(Molecule::new().is_isomorphic(&ethene()));
}

#[test]
fn bonds_that_the_other_has_between_the_atoms_count_too() {
    let mut chain = Molecule::new();
    chain.add_atoms(Isotope::c(), 3);
    chain.add_bond(0, 1, 1);
    chain.add_bond(1, 2, 1);
    let mut ring = Molecule::new();
    ring.add_atoms(Isotope::c(), 3);
    ring.add_bond(0, 1, 1);
    ring.add_bond(1, 2, 1);
    ring.add_bond(2, 0, 1);
    let mut loose = Molecule::new();
    loose.add_atoms(Isotope::c(), 2);
    let mut pair = Molecule::new();
    pair.add_atoms(Isotope::c(), 2);
    pair.add_bond(0, 1, 1);
    assert!(pair.is_isomorphic(&ring));
    assert!(pair.is_isomorphic(&chain));
    assert!(!chain.is_isomorphic(&ring));
    assert!(!loose.is_isomorphic(&pair));
    assert!(loose.is_isomorphic(&chain));
}
