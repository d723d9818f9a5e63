//! Molecules as graphs of atoms and bonds, and a few small hydrocarbons.
use crate::graph::{
    edges_of, embeds, graph_add_edge, graph_add_node, graph_clone, graph_edge_count,
    graph_edge_endpoints, graph_edge_weight, graph_embeds, graph_new, graph_node_count,
    graph_node_weight, nodes_of,
};
use crate::isotope::{carbon, hydrogen, Isotope};
use crate::matching::{found_within, is_simple};
use petgraph::graph::Graph;
use petgraph::Undirected;
use vstd::prelude::*;

verus! {

/// A bond: the indices of the two atoms that it joins, and its order.
pub type Bond = (u32, u32, u8);

/// What a molecule holds: the isotope key of each atom, by atom index, and
/// the bonds, by bond index.
pub struct Structure {
    pub atoms: Seq<u32>,
    pub bonds: Seq<Bond>,
}

/// What makes atoms and bonds a structure: every bond joins atoms that
/// exist, and atoms and bonds can be numbered in 32 bits.
pub open spec fn is_structure(s: Structure) -> bool {
    &&& s.atoms.len() <= u32::MAX
    &&& s.bonds.len() <= u32::MAX
    &&& forall|i: int|
        0 <= i < s.bonds.len() ==> (#[trigger] s.bonds[i]).0 < s.atoms.len() && s.bonds[i].1
            < s.atoms.len()
}

/// The indices of the atoms with isotope key `key`, in rising order.
pub open spec fn indices_of(atoms: Seq<u32>, key: u32) -> Seq<u32>
    decreases atoms.len(),
{
    if atoms.len() == 0 {
        Seq::empty()
    } else if atoms.last() == key {
        indices_of(atoms.drop_last(), key).push((atoms.len() - 1) as u32)
    } else {
        indices_of(atoms.drop_last(), key)
    }
}

/// What a bond adds to the valence of an atom: its order, if it ends there.
pub open spec fn order_at(bond: Bond, atom: u32) -> nat {
    if bond.0 == atom || bond.1 == atom {
        bond.2 as nat
    } else {
        0
    }
}

/// The valence that an atom uses: the sum of the orders of its bonds.
#[verifier::opaque]
pub open spec fn valence(bonds: Seq<Bond>, atom: u32) -> nat
    decreases bonds.len(),
{
    if bonds.len() == 0 {
        0
    } else {
        valence(bonds.drop_last(), atom) + order_at(bonds.last(), atom)
    }
}

/// No atom uses more valence than 255 for each bond.
pub proof fn lemma_valence_bound(bonds: Seq<Bond>, atom: u32)
    ensures
        valence(bonds, atom) <= 255 * bonds.len(),
    decreases bonds.len(),
{
    reveal(valence);
    if bonds.len() > 0 {
        lemma_valence_bound(bonds.drop_last(), atom);
    }
}

/// A bond more adds its order to the valence of the atoms at its ends, and
/// nothing to that of the others.
pub proof fn lemma_valence_push(bonds: Seq<Bond>, bond: Bond, atom: u32)
    ensures
        valence(bonds.push(bond), atom) == valence(bonds, atom) + order_at(bond, atom),
{
    reveal(valence);
    assert(bonds.push(bond).drop_last() =~= bonds);
}

/// Whether `bond` is a double bond between two carbon atoms of `atoms`.
pub open spec fn joins_carbons_twice(atoms: Seq<u32>, bond: Bond) -> bool {
    &&& bond.2 == 2
    &&& bond.0 < atoms.len()
    &&& bond.1 < atoms.len()
    &&& atoms[bond.0 as int] == carbon().key()
    &&& atoms[bond.1 as int] == carbon().key()
}

/// Whether the bond with index `i` is a double bond between two carbon atoms.
#[verifier::opaque]
pub open spec fn is_double_bond(s: Structure, i: int) -> bool {
    0 <= i < s.bonds.len() && joins_carbons_twice(s.atoms, s.bonds[i])
}

/// Whether exactly one bond is a double bond between two carbon atoms.
pub open spec fn has_one_double_bond(s: Structure) -> bool {
    exists|i: int| #[trigger]
        is_double_bond(s, i) && forall|j: int| #[trigger] is_double_bond(s, j) ==> j == i
}

/// Whether every carbon atom uses a valence of four and every hydrogen atom
/// a valence of one.
pub open spec fn valences_filled(s: Structure) -> bool {
    forall|atom: u32|
        atom < s.atoms.len() ==> {
            &&& s.atoms[atom as int] == carbon().key() ==> #[trigger] valence(s.bonds, atom) == 4
            &&& s.atoms[atom as int] == hydrogen().key() ==> valence(s.bonds, atom) == 1
        }
}

/// `count` atoms with isotope key `key`.
pub open spec fn repeated(key: u32, count: nat) -> Seq<u32> {
    Seq::new(count, |i: int| key)
}

/// A molecule: atoms, each of an isotope, and bonds between them, each of
/// an order. Atoms and bonds are numbered from zero in the order in which
/// they were added. Nothing is asked of the valences.
#[derive(Debug)]
pub struct Molecule {
    graph: Graph<u32, u8, Undirected, u32>,
}

impl View for Molecule {
    type V = Structure;

    closed spec fn view(&self) -> Structure {
        Structure { atoms: nodes_of(self.graph), bonds: edges_of(self.graph) }
    }
}

impl Clone for Molecule {
    fn clone(&self) -> (copy: Molecule)
        ensures
            copy@ == self@,
            is_structure(copy@),
    {
        proof {
            use_type_invariant(self);
        }
        Molecule { graph: graph_clone(&self.graph) }
    }
}

impl Default for Molecule {
    fn default() -> (molecule: Molecule)
        ensures
            molecule@.atoms == Seq::<u32>::empty(),
            molecule@.bonds == Seq::<Bond>::empty(),
    {
        Molecule::new()
    }
}

impl Molecule {
    #[verifier::type_invariant]
    spec fn well_formed(&self) -> bool {
        is_structure(self@)
    }

    /// A molecule without atoms.
    pub fn new() -> (molecule: Molecule)
        ensures
            molecule@.atoms == Seq::<u32>::empty(),
            molecule@.bonds == Seq::<Bond>::empty(),
            is_structure(molecule@),
            forall|atom: u32| #[trigger] valence(molecule@.bonds, atom) == 0,
            forall|i: int| !#[trigger] is_double_bond(molecule@, i),
    {
        proof {
            reveal(valence);
            reveal(is_double_bond);
        }
        Molecule { graph: graph_new() }
    }

    /// The graph that holds the molecule.
    pub fn graph(&self) -> (graph: &Graph<u32, u8, Undirected, u32>)
        ensures
            nodes_of(*graph) == self@.atoms,
            edges_of(*graph) == self@.bonds,
            is_structure(self@),
    {
        proof {
            use_type_invariant(self);
        }
        &self.graph
    }

    /// The number of atoms.
    pub fn atom_count(&self) -> (count: u32)
        ensures
            count == self@.atoms.len(),
    {
        proof {
            use_type_invariant(self);
        }
        graph_node_count(&self.graph) as u32
    }

    /// The number of bonds.
    pub fn bond_count(&self) -> (count: u32)
        ensures
            count == self@.bonds.len(),
    {
        proof {
            use_type_invariant(self);
        }
        graph_edge_count(&self.graph) as u32
    }

    /// The isotope of the atom with the given index, if there is such an atom.
    pub fn atom(&self, index: u32) -> (isotope: Option<Isotope>)
        ensures
            isotope == if index < self@.atoms.len() {
                Some(Isotope::of_key(self@.atoms[index as int]))
            } else {
                None
            },
    {
        match graph_node_weight(&self.graph, index) {
            Some(key) => Some(Isotope::from_key(key)),
            None => None,
        }
    }

    /// The bond with the given index, if there is such a bond.
    pub fn bond(&self, index: u32) -> (bond: Option<Bond>)
        ensures
            bond == if index < self@.bonds.len() {
                Some(self@.bonds[index as int])
            } else {
                None
            },
    {
        match (graph_edge_endpoints(&self.graph, index), graph_edge_weight(&self.graph, index)) {
            (Some((a, b)), Some(order)) => Some((a, b, order)),
            _ => None,
        }
    }

    /// Adds an atom of `isotope` and returns its index.
    pub fn add_atom(&mut self, isotope: Isotope) -> (index: u32)
        requires
            old(self)@.atoms.len() < u32::MAX,
        ensures
            index == old(self)@.atoms.len(),
            final(self)@.atoms == old(self)@.atoms.push(isotope.key()),
            final(self)@.bonds == old(self)@.bonds,
            is_structure(final(self)@),
            forall|i: int|
                #[trigger] is_double_bond(final(self)@, i) == is_double_bond(old(self)@, i),
    {
        proof {
            use_type_invariant(&*self);
            reveal(is_double_bond);
            let before = self@;
            let after = Structure { atoms: before.atoms.push(isotope.key()), bonds: before.bonds };
            assert forall|i: int|
                #[trigger] is_double_bond(after, i) == is_double_bond(before, i) by {
                if 0 <= i < before.bonds.len() {
                    assert(before.bonds[i].0 < before.atoms.len());
                    assert(before.bonds[i].1 < before.atoms.len());
                }
            }
        }
        let mut graph = graph_new();
        core::mem::swap(&mut graph, &mut self.graph);
        let index = graph_add_node(&mut graph, isotope.to_key());
        self.graph = graph;
        index
    }

    /// Adds `count` atoms of `isotope`.
    pub fn add_atoms(&mut self, isotope: Isotope, count: u32)
        requires
            old(self)@.atoms.len() + count <= u32::MAX,
        ensures
            final(self)@.atoms == old(self)@.atoms + repeated(isotope.key(), count as nat),
            final(self)@.bonds == old(self)@.bonds,
            is_structure(final(self)@),
            forall|i: int|
                #[trigger] is_double_bond(final(self)@, i) == is_double_bond(old(self)@, i),
    {
        let mut i: u32 = 0;
        proof {
            assert(self@.atoms + repeated(isotope.key(), 0) =~= self@.atoms);
        }
        while i < count
            invariant
                i <= count,
                old(self)@.atoms.len() + count <= u32::MAX,
                self@.atoms == old(self)@.atoms + repeated(isotope.key(), i as nat),
                self@.bonds == old(self)@.bonds,
                forall|k: int|
                    #[trigger] is_double_bond(self@, k) == is_double_bond(old(self)@, k),
            decreases count - i,
        {
            proof {
                assert((old(self)@.atoms + repeated(isotope.key(), i as nat)).push(isotope.key())
                    =~= old(self)@.atoms + repeated(isotope.key(), (i + 1) as nat));
            }
            self.add_atom(isotope);
            i += 1;
        }
        proof {
            use_type_invariant(&*self);
        }
    }

    /// Adds a bond of the given order between the atoms `a` and `b`, and
    /// returns its index.
    pub fn add_bond(&mut self, a: u32, b: u32, order: u8) -> (index: u32)
        requires
            a < old(self)@.atoms.len(),
            b < old(self)@.atoms.len(),
            old(self)@.bonds.len() < u32::MAX,
        ensures
            index == old(self)@.bonds.len(),
            final(self)@.atoms == old(self)@.atoms,
            final(self)@.bonds == old(self)@.bonds.push((a, b, order)),
            is_structure(final(self)@),
            forall|atom: u32|
                #[trigger] valence(final(self)@.bonds, atom) == valence(old(self)@.bonds, atom)
                    + order_at((a, b, order), atom),
            forall|i: int|
                #[trigger] is_double_bond(final(self)@, i) == (is_double_bond(old(self)@, i) || (i
                    == index && joins_carbons_twice(old(self)@.atoms, (a, b, order)))),
    {
        proof {
            use_type_invariant(&*self);
            reveal(is_double_bond);
            let before = self@;
            let bond = (a, b, order);
            let after = Structure { atoms: before.atoms, bonds: before.bonds.push(bond) };
            assert forall|i: int|
                #[trigger] is_double_bond(after, i) == (is_double_bond(before, i) || (i
                    == before.bonds.len() && joins_carbons_twice(before.atoms, bond))) by {
                if 0 <= i < before.bonds.len() {
                    assert(after.bonds[i] == before.bonds[i]);
                }
            }
            assert forall|atom: u32|
                #[trigger] valence(before.bonds.push(bond), atom) == valence(before.bonds, atom)
                    + order_at(bond, atom) by {
                lemma_valence_push(before.bonds, bond, atom);
            }
        }
        let mut graph = graph_new();
        core::mem::swap(&mut graph, &mut self.graph);
        let index = graph_add_edge(&mut graph, a, b, order);
        self.graph = graph;
        index
    }

    /// The indices of the atoms of `isotope`, in rising order.
    pub fn atoms_of(&self, isotope: Isotope) -> (indices: Vec<u32>)
        ensures
            indices@ == indices_of(self@.atoms, isotope.key()),
    {
        let key = isotope.to_key();
        let count = self.atom_count();
        let mut indices: Vec<u32> = Vec::new();
        let mut i: u32 = 0;
        proof {
            assert(self@.atoms.take(0) =~= Seq::<u32>::empty());
        }
        while i < count
            invariant
                i <= count,
                count == self@.atoms.len(),
                key == isotope.key(),
                indices@ == indices_of(self@.atoms.take(i as int), key),
            decreases count - i,
        {
            proof {
                assert(self@.atoms.take(i + 1).drop_last() =~= self@.atoms.take(i as int));
            }
            if graph_node_weight(&self.graph, i) == Some(key) {
                indices.push(i);
            }
            i += 1;
        }
        proof {
            assert(self@.atoms.take(count as int) =~= self@.atoms);
        }
        indices
    }

    /// The indices of the hydrogen atoms, in rising order.
    pub fn h(&self) -> (indices: Vec<u32>)
        ensures
            indices@ == indices_of(self@.atoms, hydrogen().key()),
    {
        self.atoms_of(Isotope::h())
    }

    /// The indices of the carbon atoms, in rising order.
    pub fn c(&self) -> (indices: Vec<u32>)
        ensures
            indices@ == indices_of(self@.atoms, carbon().key()),
    {
        self.atoms_of(Isotope::c())
    }

    /// The valence that the atom with the given index uses.
    pub fn valence(&self, atom: u32) -> (sum: u64)
        ensures
            sum == valence(self@.bonds, atom),
    {
        let count = self.bond_count();
        let mut sum: u64 = 0;
        let mut i: u32 = 0;
        proof {
            reveal(valence);
            assert(self@.bonds.take(0) =~= Seq::<Bond>::empty());
        }
        while i < count
            invariant
                i <= count,
                count == self@.bonds.len(),
                sum == valence(self@.bonds.take(i as int), atom),
            decreases count - i,
        {
            proof {
                assert(self@.bonds.take(i as int).push(self@.bonds[i as int]) =~= self@.bonds.take(
                    i + 1,
                ));
                lemma_valence_push(self@.bonds.take(i as int), self@.bonds[i as int], atom);
                lemma_valence_bound(self@.bonds.take(i + 1), atom);
            }
            match self.bond(i) {
                Some((a, b, order)) => {
                    if a == atom || b == atom {
                        sum = sum + order as u64;
                    }
                },
                None => {},
            }
            i += 1;
        }
        proof {
            assert(self@.bonds.take(count as int) =~= self@.bonds);
        }
        sum
    }

    /// Whether this molecule is found within `other`: whether atoms of
    /// `other`, of the same isotopes, are bonded among themselves exactly as
    /// the atoms of this molecule are, with the same orders.
    ///
    /// That is what the answer means for molecules in which no bond joins an
    /// atom to itself and no two bonds join the same two atoms. For others
    /// the answer is what `petgraph`'s search gives. A molecule with more
    /// atoms or more bonds than `other` is never found.
    ///
    /// The search keeps a table of all pairs of atoms of `other`, so their
    /// number has to fit in `usize`: it does for any molecule where `usize`
    /// has 64 bits, and for up to 65,535 atoms where it has 32.
    pub fn is_isomorphic(&self, other: &Molecule) -> (found: bool)
        requires
            other@.atoms.len() * other@.atoms.len() <= usize::MAX,
        ensures
            found == embeds(self@.atoms, self@.bonds, other@.atoms, other@.bonds),
            is_simple(self@.bonds) && is_simple(other@.bonds) ==> found == found_within(
                self@.atoms,
                self@.bonds,
                other@.atoms,
                other@.bonds,
            ),
            self@.atoms.len() > other@.atoms.len() ==> !found,
            self@.bonds.len() > other@.bonds.len() ==> !found,
    {
        graph_embeds(&self.graph, &other.graph)
    }
}

/// Methane, CH4: one carbon atom with four hydrogen atoms.
pub fn methane() -> (molecule: Molecule)
    ensures
        molecule@.atoms == repeated(carbon().key(), 1) + repeated(hydrogen().key(), 4),
        molecule@.bonds == seq![
            (1u32, 0u32, 1u8),
            (2, 0, 1),
            (3, 0, 1),
            (4, 0, 1),
        ],
        is_structure(molecule@),
        is_simple(molecule@.bonds),
        valences_filled(molecule@),
{
    let mut molecule = Molecule::new();
    molecule.add_atoms(Isotope::c(), 1);
    molecule.add_atoms(Isotope::h(), 4);
    molecule.add_bond(1, 0, 1);
    molecule.add_bond(2, 0, 1);
    molecule.add_bond(3, 0, 1);
    molecule.add_bond(4, 0, 1);
    proof {
        let s = molecule@;
        assert(s.atoms =~= repeated(carbon().key(), 1) + repeated(hydrogen().key(), 4));
        assert(s.bonds =~= seq![
            (1u32, 0u32, 1u8),
            (2, 0, 1),
            (3, 0, 1),
            (4, 0, 1),
        ]);
    }
    molecule
}

/// Ethane, C2H6: two carbon atoms joined by a single bond, each with three
/// hydrogen atoms.
pub fn ethane() -> (molecule: Molecule)
    ensures
        molecule@.atoms == repeated(carbon().key(), 2) + repeated(hydrogen().key(), 6),
        molecule@.bonds == seq![
            (0u32, 1u32, 1u8),
            (2, 0, 1),
            (3, 0, 1),
            (4, 0, 1),
            (5, 1, 1),
            (6, 1, 1),
            (7, 1, 1),
        ],
        is_structure(molecule@),
        is_simple(molecule@.bonds),
        valences_filled(molecule@),
{
    let mut molecule = Molecule::new();
    molecule.add_atoms(Isotope::c(), 2);
    molecule.add_atoms(Isotope::h(), 6);
    molecule.add_bond(0, 1, 1);
    molecule.add_bond(2, 0, 1);
    molecule.add_bond(3, 0, 1);
    molecule.add_bond(4, 0, 1);
    molecule.add_bond(5, 1, 1);
    molecule.add_bond(6, 1, 1);
    molecule.add_bond(7, 1, 1);
    proof {
        let s = molecule@;
        assert(s.atoms =~= repeated(carbon().key(), 2) + repeated(hydrogen().key(), 6));
        assert(s.bonds =~= seq![
            (0u32, 1u32, 1u8),
            (2, 0, 1),
            (3, 0, 1),
            (4, 0, 1),
            (5, 1, 1),
            (6, 1, 1),
            (7, 1, 1),
        ]);
    }
    molecule
}

/// Propane, C3H8: a chain of three carbon atoms joined by single bonds, with
/// three, two and three hydrogen atoms.
#[verifier::rlimit(60)]
pub fn propane() -> (molecule: Molecule)
    ensures
        molecule@.atoms == repeated(carbon().key(), 3) + repeated(hydrogen().key(), 8),
        molecule@.bonds == seq![
            (0u32, 1u32, 1u8),
            (1, 2, 1),
            (3, 0, 1),
            (4, 0, 1),
            (5, 0, 1),
            (6, 1, 1),
            (7, 1, 1),
            (8, 2, 1),
            (9, 2, 1),
            (10, 2, 1),
        ],
        is_structure(molecule@),
        is_simple(molecule@.bonds),
        valences_filled(molecule@),
{
    let mut molecule = Molecule::new();
    molecule.add_atoms(Isotope::c(), 3);
    molecule.add_atoms(Isotope::h(), 8);
    molecule.add_bond(0, 1, 1);
    molecule.add_bond(1, 2, 1);
    molecule.add_bond(3, 0, 1);
    molecule.add_bond(4, 0, 1);
    molecule.add_bond(5, 0, 1);
    molecule.add_bond(6, 1, 1);
    molecule.add_bond(7, 1, 1);
    molecule.add_bond(8, 2, 1);
    molecule.add_bond(9, 2, 1);
    molecule.add_bond(10, 2, 1);
    proof {
        let s = molecule@;
        assert(s.atoms =~= repeated(carbon().key(), 3) + repeated(hydrogen().key(), 8));
        assert(s.bonds =~= seq![
            (0u32, 1u32, 1u8),
            (1, 2, 1),
            (3, 0, 1),
            (4, 0, 1),
            (5, 0, 1),
            (6, 1, 1),
            (7, 1, 1),
            (8, 2, 1),
            (9, 2, 1),
            (10, 2, 1),
        ]);
    }
    molecule
}

/// Ethene, C2H4: two carbon atoms joined by a double bond, each with two
/// hydrogen atoms.
pub fn ethene() -> (molecule: Molecule)
    ensures
        molecule@.atoms == repeated(carbon().key(), 2) + repeated(hydrogen().key(), 4),
        molecule@.bonds == seq![
            (0u32, 1u32, 2u8),
            (2, 0, 1),
            (3, 0, 1),
            (4, 1, 1),
            (5, 1, 1),
        ],
        is_structure(molecule@),
        is_simple(molecule@.bonds),
        valences_filled(molecule@),
        has_one_double_bond(molecule@),
{
    let mut molecule = Molecule::new();
    molecule.add_atoms(Isotope::c(), 2);
    molecule.add_atoms(Isotope::h(), 4);
    molecule.add_bond(0, 1, 2);
    molecule.add_bond(2, 0, 1);
    molecule.add_bond(3, 0, 1);
    molecule.add_bond(4, 1, 1);
    molecule.add_bond(5, 1, 1);
    proof {
        let s = molecule@;
        assert(s.atoms =~= repeated(carbon().key(), 2) + repeated(hydrogen().key(), 4));
        assert(s.bonds =~= seq![
            (0u32, 1u32, 2u8),
            (2, 0, 1),
            (3, 0, 1),
            (4, 1, 1),
            (5, 1, 1),
        ]);
        assert(is_double_bond(s, 0));
    }
    molecule
}

/// Propene, C3H6: a chain of three carbon atoms, the first two joined by a
/// double bond, with two, one and three hydrogen atoms.
#[verifier::rlimit(60)]
pub fn propene() -> (molecule: Molecule)
    ensures
        molecule@.atoms == repeated(carbon().key(), 3) + repeated(hydrogen().key(), 6),
        molecule@.bonds == seq![
            (0u32, 1u32, 2u8),
            (1, 2, 1),
            (3, 0, 1),
            (4, 0, 1),
            (5, 1, 1),
            (6, 2, 1),
            (7, 2, 1),
            (8, 2, 1),
        ],
        is_structure(molecule@),
        is_simple(molecule@.bonds),
        valences_filled(molecule@),
        has_one_double_bond(molecule@),
{
    let mut molecule = Molecule::new();
    molecule.add_atoms(Isotope::c(), 3);
    molecule.add_atoms(Isotope::h(), 6);
    molecule.add_bond(0, 1, 2);
    molecule.add_bond(1, 2, 1);
    molecule.add_bond(3, 0, 1);
    molecule.add_bond(4, 0, 1);
    molecule.add_bond(5, 1, 1);
    molecule.add_bond(6, 2, 1);
    molecule.add_bond(7, 2, 1);
    molecule.add_bond(8, 2, 1);
    proof {
        let s = molecule@;
        assert(s.atoms =~= repeated(carbon().key(), 3) + repeated(hydrogen().key(), 6));
        assert(s.bonds =~= seq![
            (0u32, 1u32, 2u8),
            (1, 2, 1),
            (3, 0, 1),
            (4, 0, 1),
            (5, 1, 1),
            (6, 2, 1),
            (7, 2, 1),
            (8, 2, 1),
        ]);
        assert(is_double_bond(s, 0));
    }
    molecule
}

/// Butene, C4H8: a chain of four carbon atoms, the first two joined by a
/// double bond, with two, one, two and three hydrogen atoms.
#[verifier::rlimit(60)]
pub fn butene() -> (molecule: Molecule)
    ensures
        molecule@.atoms == repeated(carbon().key(), 4) + repeated(hydrogen().key(), 8),
        molecule@.bonds == seq![
            (0u32, 1u32, 2u8),
            (1, 2, 1),
            (2, 3, 1),
            (4, 0, 1),
            (5, 0, 1),
            (6, 1, 1),
            (7, 2, 1),
            (8, 2, 1),
            (9, 3, 1),
            (10, 3, 1),
            (11, 3, 1),
        ],
        is_structure(molecule@),
        is_simple(molecule@.bonds),
        valences_filled(molecule@),
        has_one_double_bond(molecule@),
{
    let mut molecule = Molecule::new();
    molecule.add_atoms(Isotope::c(), 4);
    molecule.add_atoms(Isotope::h(), 8);
    molecule.add_bond(0, 1, 2);
    molecule.add_bond(1, 2, 1);
    molecule.add_bond(2, 3, 1);
    molecule.add_bond(4, 0, 1);
    molecule.add_bond(5, 0, 1);
    molecule.add_bond(6, 1, 1);
    molecule.add_bond(7, 2, 1);
    molecule.add_bond(8, 2, 1);
    molecule.add_bond(9, 3, 1);
    molecule.add_bond(10, 3, 1);
    molecule.add_bond(11, 3, 1);
    proof {
        let s = molecule@;
        assert(s.atoms =~= repeated(carbon().key(), 4) + repeated(hydrogen().key(), 8));
        assert(s.bonds =~= seq![
            (0u32, 1u32, 2u8),
            (1, 2, 1),
            (2, 3, 1),
            (4, 0, 1),
            (5, 0, 1),
            (6, 1, 1),
            (7, 2, 1),
            (8, 2, 1),
            (9, 3, 1),
            (10, 3, 1),
            (11, 3, 1),
        ]);
        assert(is_double_bond(s, 0));
    }
    molecule
}

/// Pentene, C5H10: a chain of five carbon atoms, the first two joined by a
/// double bond, with two, one, two, two and three hydrogen atoms.
#[verifier::rlimit(60)]
pub fn pentene() -> (molecule: Molecule)
    ensures
        molecule@.atoms == repeated(carbon().key(), 5) + repeated(hydrogen().key(), 10),
        molecule@.bonds == seq![
            (0u32, 1u32, 2u8),
            (1, 2, 1),
            (2, 3, 1),
            (3, 4, 1),
            (5, 0, 1),
            (6, 0, 1),
            (7, 1, 1),
            (8, 2, 1),
            (9, 2, 1),
            (10, 3, 1),
            (11, 3, 1),
            (12, 4, 1),
            (13, 4, 1),
            (14, 4, 1),
        ],
        is_structure(molecule@),
        is_simple(molecule@.bonds),
        valences_filled(molecule@),
        has_one_double_bond(molecule@),
{
    let mut molecule = Molecule::new();
    molecule.add_atoms(Isotope::c(), 5);
    molecule.add_atoms(Isotope::h(), 10);
    molecule.add_bond(0, 1, 2);
    molecule.add_bond(1, 2, 1);
    molecule.add_bond(2, 3, 1);
    molecule.add_bond(3, 4, 1);
    molecule.add_bond(5, 0, 1);
    molecule.add_bond(6, 0, 1);
    molecule.add_bond(7, 1, 1);
    molecule.add_bond(8, 2, 1);
    molecule.add_bond(9, 2, 1);
    molecule.add_bond(10, 3, 1);
    molecule.add_bond(11, 3, 1);
    molecule.add_bond(12, 4, 1);
    molecule.add_bond(13, 4, 1);
    molecule.add_bond(14, 4, 1);
    proof {
        let s = molecule@;
        assert(s.atoms =~= repeated(carbon().key(), 5) + repeated(hydrogen().key(), 10));
        assert(s.bonds =~= seq![
            (0u32, 1u32, 2u8),
            (1, 2, 1),
            (2, 3, 1),
            (3, 4, 1),
            (5, 0, 1),
            (6, 0, 1),
            (7, 1, 1),
            (8, 2, 1),
            (9, 2, 1),
            (10, 3, 1),
            (11, 3, 1),
            (12, 4, 1),
            (13, 4, 1),
            (14, 4, 1),
        ]);
        assert(is_double_bond(s, 0));
    }
    molecule
}

} // verus!
