//! The table of species: which isotope an element symbol stands for.
//!
//! The library holds no chemical reference data of its own. Whoever reads or
//! writes formulas hands it a table, filled from whatever source they trust.
use crate::formula::is_symbol;
use crate::isotope::Isotope;
use vstd::prelude::*;
use vstd::string::*;

verus! {

/// One row of the table: a symbol and the isotope it stands for.
#[derive(Debug)]
struct Row {
    symbol: String,
    isotope: Isotope,
}

impl View for Row {
    type V = (Seq<char>, Isotope);

    closed spec fn view(&self) -> (Seq<char>, Isotope) {
        (self.symbol@, self.isotope)
    }
}

/// The rows of a table as plain values.
pub type Rows = Seq<(Seq<char>, Isotope)>;

/// The isotope that `symbol` stands for in `rows`, if it stands there.
pub open spec fn lookup(rows: Rows, symbol: Seq<char>) -> Option<Isotope>
    decreases rows.len(),
{
    if rows.len() == 0 {
        None
    } else if rows[0].0 == symbol {
        Some(rows[0].1)
    } else {
        lookup(rows.drop_first(), symbol)
    }
}

/// The symbol under which `isotope` stands in `rows`: that of the first row
/// that holds it.
pub open spec fn symbol_of(rows: Rows, isotope: Isotope) -> Option<Seq<char>>
    decreases rows.len(),
{
    if rows.len() == 0 {
        None
    } else if rows[0].1 == isotope {
        Some(rows[0].0)
    } else {
        symbol_of(rows.drop_first(), isotope)
    }
}

/// What makes rows a table: every symbol has the shape of an element symbol,
/// and no symbol stands twice.
pub open spec fn is_table(rows: Rows) -> bool {
    &&& forall|i: int| 0 <= i < rows.len() ==> is_symbol(#[trigger] rows[i].0)
    &&& forall|i: int, j: int|
        0 <= i < j < rows.len() ==> #[trigger] rows[i].0 != #[trigger] rows[j].0
}

/// A symbol is found exactly when some row holds it, and then with the
/// isotope of the first such row.
pub proof fn lemma_lookup(rows: Rows, symbol: Seq<char>)
    ensures
        match lookup(rows, symbol) {
            Some(isotope) => exists|i: int|
                0 <= i < rows.len() && #[trigger] rows[i] == (symbol, isotope),
            None => forall|i: int| 0 <= i < rows.len() ==> (#[trigger] rows[i]).0 != symbol,
        },
    decreases rows.len(),
{
    if rows.len() > 0 && rows[0].0 != symbol {
        let rest = rows.drop_first();
        lemma_lookup(rest, symbol);
        match lookup(rest, symbol) {
            Some(isotope) => {
                let i = choose|i: int|
                    0 <= i < rest.len() && #[trigger] rest[i] == (symbol, isotope);
                assert(rows[i + 1] == (symbol, isotope));
            },
            None => {
                assert forall|i: int| 0 <= i < rows.len() implies (#[trigger] rows[i]).0
                    != symbol by {
                    if i > 0 {
                        assert(rest[i - 1] == rows[i]);
                    }
                }
            },
        }
    } else if rows.len() > 0 {
        assert(rows[0] == (symbol, rows[0].1));
    }
}

/// An isotope has a symbol exactly when some row holds it, and the symbol is
/// that of one of its rows.
pub proof fn lemma_symbol_of(rows: Rows, isotope: Isotope)
    ensures
        match symbol_of(rows, isotope) {
            Some(symbol) => exists|i: int|
                0 <= i < rows.len() && #[trigger] rows[i] == (symbol, isotope),
            None => forall|i: int| 0 <= i < rows.len() ==> (#[trigger] rows[i]).1 != isotope,
        },
    decreases rows.len(),
{
    if rows.len() > 0 && rows[0].1 != isotope {
        let rest = rows.drop_first();
        lemma_symbol_of(rest, isotope);
        match symbol_of(rest, isotope) {
            Some(symbol) => {
                let i = choose|i: int|
                    0 <= i < rest.len() && #[trigger] rest[i] == (symbol, isotope);
                assert(rows[i + 1] == (symbol, isotope));
            },
            None => {
                assert forall|i: int| 0 <= i < rows.len() implies (#[trigger] rows[i]).1
                    != isotope by {
                    if i > 0 {
                        assert(rest[i - 1] == rows[i]);
                    }
                }
            },
        }
    } else if rows.len() > 0 {
        assert(rows[0] == (rows[0].0, isotope));
    }
}

/// In a table, the symbol of an isotope has the shape of an element symbol
/// and leads back to the isotope.
pub proof fn lemma_symbol_leads_back(rows: Rows, isotope: Isotope)
    requires
        is_table(rows),
        symbol_of(rows, isotope) is Some,
    ensures
        is_symbol(symbol_of(rows, isotope)->0),
        lookup(rows, symbol_of(rows, isotope)->0) == Some(isotope),
{
    let symbol = symbol_of(rows, isotope)->0;
    lemma_symbol_of(rows, isotope);
    lemma_lookup(rows, symbol);
    let i = choose|i: int| 0 <= i < rows.len() && #[trigger] rows[i] == (symbol, isotope);
    assert(is_symbol(rows[i].0));
    match lookup(rows, symbol) {
        Some(found) => {
            let j = choose|j: int| 0 <= j < rows.len() && #[trigger] rows[j] == (symbol, found);
            if i < j {
                assert(rows[i].0 != rows[j].0);
            } else if j < i {
                assert(rows[j].0 != rows[i].0);
            }
        },
        None => {
            assert(rows[i].0 != symbol);
        },
    }
}

/// A table of species.
#[derive(Debug)]
pub struct Table {
    rows: Vec<Row>,
}

impl View for Table {
    type V = Rows;

    closed spec fn view(&self) -> Rows {
        self.rows@.map_values(|row: Row| row@)
    }
}

/// Whether `text` has the shape of an element symbol.
pub fn is_symbol_text(text: &str) -> (shaped: bool)
    ensures
        shaped == is_symbol(text@),
{
    let mut shaped: bool = true;
    let mut first: bool = true;
    for c in it: text.chars()
        invariant
            it.seq() == text@,
            first == (it.index() == 0),
            shaped == (it.index() == 0 || is_symbol(text@.take(it.index() as int))),
    {
        let ghost before = text@.take(it.index() as int);
        let ghost after = text@.take(it.index() + 1);
        proof {
            assert(after.len() == before.len() + 1);
            assert(after[it.index() as int] == c);
            assert forall|i: int| 0 <= i < before.len() implies after[i] == before[i] by {}
            if !first && is_symbol(after) {
                assert(after[0] == before[0]);
                assert forall|i: int| 1 <= i < before.len() implies crate::formula::is_lower(
                    #[trigger] before[i],
                ) by {
                    assert(before[i] == after[i]);
                }
            }
        }
        if first {
            shaped = 'A' <= c && c <= 'Z';
        } else {
            shaped = shaped && 'a' <= c && c <= 'z';
        }
        first = false;
    }
    assert(text@.take(text@.len() as int) =~= text@);
    shaped && !first
}

impl Table {
    #[verifier::type_invariant]
    spec fn well_formed(&self) -> bool {
        is_table(self@)
    }

    /// A table without rows.
    pub fn new() -> (table: Table)
        ensures
            table@ == Rows::empty(),
            is_table(table@),
    {
        let table = Table { rows: Vec::new() };
        assert(table@ =~= Rows::empty());
        table
    }

    /// The number of rows.
    pub fn len(&self) -> (n: usize)
        ensures
            n == self@.len(),
            is_table(self@),
    {
        proof {
            use_type_invariant(self);
        }
        self.rows.len()
    }

    /// The isotope that `symbol` stands for.
    pub fn lookup(&self, symbol: &str) -> (found: Option<Isotope>)
        ensures
            found == lookup(self@, symbol@),
    {
        let wanted = String::from_str(symbol);
        let mut i: usize = 0;
        assert(self@.skip(0) =~= self@);
        while i < self.rows.len()
            invariant
                i <= self.rows.len(),
                wanted@ == symbol@,
                lookup(self@, symbol@) == lookup(self@.skip(i as int), symbol@),
            decreases self.rows.len() - i,
        {
            proof {
                assert(self@.skip(i as int).drop_first() =~= self@.skip(i + 1));
            }
            if self.rows[i].symbol == wanted {
                return Some(self.rows[i].isotope);
            }
            i += 1;
        }
        None
    }

    /// The symbol under which `isotope` stands.
    pub fn symbol(&self, isotope: Isotope) -> (found: Option<&String>)
        ensures
            match found {
                Some(symbol) => symbol_of(self@, isotope) == Some(symbol@),
                None => symbol_of(self@, isotope) is None,
            },
    {
        let mut i: usize = 0;
        assert(self@.skip(0) =~= self@);
        while i < self.rows.len()
            invariant
                i <= self.rows.len(),
                symbol_of(self@, isotope) == symbol_of(self@.skip(i as int), isotope),
            decreases self.rows.len() - i,
        {
            proof {
                assert(self@.skip(i as int).drop_first() =~= self@.skip(i + 1));
            }
            if self.rows[i].isotope == isotope {
                return Some(&self.rows[i].symbol);
            }
            i += 1;
        }
        None
    }

    /// Adds a row, unless the symbol is not shaped as one or stands in the
    /// table already. Says whether the row was added.
    pub fn insert(&mut self, symbol: &str, isotope: Isotope) -> (added: bool)
        ensures
            added == (is_symbol(symbol@) && lookup(old(self)@, symbol@) is None),
            final(self)@ == if added {
                old(self)@.push((symbol@, isotope))
            } else {
                old(self)@
            },
            is_table(final(self)@),
    {
        proof {
            use_type_invariant(&*self);
            lemma_lookup(self@, symbol@);
        }
        if !is_symbol_text(symbol) || self.lookup(symbol).is_some() {
            return false;
        }
        let row = Row { symbol: String::from_str(symbol), isotope };
        let mut rows: Vec<Row> = Vec::new();
        proof {
            assert(rows@.map_values(|row: Row| row@) =~= Rows::empty());
            assert(self.rows@.push(row).map_values(|row: Row| row@) =~= self@.push(
                (symbol@, isotope),
            ));
        }
        core::mem::swap(&mut rows, &mut self.rows);
        rows.push(row);
        self.rows = rows;
        true
    }
}

} // verus!
