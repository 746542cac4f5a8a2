//! The structures that the grammars build: atoms, bonds, cells and molecules.
//!
//! Numbers are kept as the text the file wrote them in (`"-11.4286"`), so that
//! no precision is lost and every value can be told apart exactly.
use vstd::prelude::*;
use crate::text::{digits_value, is_digit, is_digits, scan_run, lemma_run_end, digits_to_usize, CharClass, run_end};

verus! {

/// The kind of a bond.
#[derive(Debug, Clone, Copy, PartialEq, Eq, Structural)]
pub enum BondKind {
    Single,
    Double,
    Triple,
    Aromatic,
    Partial,
    Dummy,
}

/// A connection between two atoms.
#[derive(Debug, Clone, Copy, PartialEq, Eq, Structural)]
pub struct Bond {
    pub kind: BondKind,
}

/// One chemical site: its element symbol, its position (three numbers as
/// written) and an optional label.
#[derive(Debug, Clone)]
pub struct Atom {
    pub symbol: String,
    pub x: String,
    pub y: String,
    pub z: String,
    pub label: Option<String>,
}

/// A periodic cell, given by its six parameters as written: the lengths
/// `a`, `b`, `c` and the angles `alpha`, `beta`, `gamma` in degrees.
#[derive(Debug, Clone)]
pub struct Lattice {
    pub a: String,
    pub b: String,
    pub c: String,
    pub alpha: String,
    pub beta: String,
    pub gamma: String,
}

/// One parsed structure. Atoms keep their order of insertion, which is their
/// index; a bond names its two atoms by that index. Where `fractional` holds,
/// every position is fractional in the cell `lattice` (the cell matrix then
/// gives the cartesian ones); otherwise every position is cartesian.
#[derive(Debug, Clone)]
pub struct Molecule {
    pub name: String,
    pub atoms: Vec<Atom>,
    pub bonds: Vec<(usize, usize, Bond)>,
    pub lattice: Option<Lattice>,
    pub fractional: bool,
}

impl Molecule {
    /// Bonds name atoms that exist, and fractional positions come with a cell.
    pub open spec fn wf(&self) -> bool {
        &&& forall|k: int|
            0 <= k < self.bonds@.len() ==> (#[trigger] self.bonds@[k]).0 < self.atoms@.len()
                && self.bonds@[k].1 < self.atoms@.len()
        &&& self.fractional ==> self.lattice is Some
    }

    /// An empty molecule named `name`.
    pub fn new(name: String) -> (r: Molecule)
        ensures
            r.name == name,
            r.atoms@.len() == 0,
            r.bonds@.len() == 0,
            r.lattice is None,
            !r.fractional,
            r.wf(),
    {
        Molecule { name, atoms: Vec::new(), bonds: Vec::new(), lattice: None, fractional: false }
    }

    /// Appends an atom; returns its index.
    pub fn add_atom(&mut self, a: Atom) -> (n: usize)
        ensures
            final(self).atoms@ == old(self).atoms@.push(a),
            n == old(self).atoms@.len(),
            final(self).bonds@ == old(self).bonds@,
            final(self).name == old(self).name,
            final(self).lattice == old(self).lattice,
            final(self).fractional == old(self).fractional,
            old(self).wf() ==> final(self).wf(),
    {
        let n = self.atoms.len();
        self.atoms.push(a);
        n
    }

    /// Appends a bond between the atoms of index `i` and `j`.
    pub fn add_bond(&mut self, i: usize, j: usize, b: Bond)
        requires
            i < old(self).atoms@.len(),
            j < old(self).atoms@.len(),
        ensures
            final(self).bonds@ == old(self).bonds@.push((i, j, b)),
            final(self).atoms@ == old(self).atoms@,
            final(self).name == old(self).name,
            final(self).lattice == old(self).lattice,
            final(self).fractional == old(self).fractional,
            old(self).wf() ==> final(self).wf(),
    {
        self.bonds.push((i, j, b));
    }

    /// The number of atoms.
    pub fn natoms(&self) -> (r: usize)
        ensures
            r == self.atoms@.len(),
    {
        self.atoms.len()
    }

    /// The number of bonds.
    pub fn nbonds(&self) -> (r: usize)
        ensures
            r == self.bonds@.len(),
    {
        self.bonds.len()
    }
}

/// A disagreement between what a file declares and what it holds. It never
/// stops a parse: files often carry stale counts.
#[derive(Debug, Clone, Copy, PartialEq, Eq, Structural)]
pub enum Warning {
    /// The file declares `declared` atoms and holds `found`.
    AtomCount { declared: usize, found: usize },
    /// The file declares `declared` bonds and holds `found`.
    BondCount { declared: usize, found: usize },
}

/// The warnings for declared and found atom and bond counts, in that order;
/// `None` for a count that is not declared.
pub open spec fn count_warnings(
    atoms: Option<(usize, usize)>,
    bonds: Option<(usize, usize)>,
) -> Seq<Warning> {
    let wa = match atoms {
        Some((d, f)) => if d != f {
            seq![Warning::AtomCount { declared: d, found: f }]
        } else {
            Seq::empty()
        },
        None => Seq::empty(),
    };
    let wb = match bonds {
        Some((d, f)) => if d != f {
            seq![Warning::BondCount { declared: d, found: f }]
        } else {
            Seq::empty()
        },
        None => Seq::empty(),
    };
    wa + wb
}

/// Compares declared and found counts.
pub fn check_counts(atoms: Option<(usize, usize)>, bonds: Option<(usize, usize)>) -> (r: Vec<Warning>)
    ensures
        r@ == count_warnings(atoms, bonds),
{
    let mut r: Vec<Warning> = Vec::new();
    match atoms {
        Some((d, f)) => if d != f {
            r.push(Warning::AtomCount { declared: d, found: f });
        },
        None => {},
    }
    match bonds {
        Some((d, f)) => if d != f {
            r.push(Warning::BondCount { declared: d, found: f });
        },
        None => {},
    }
    assert(r@ =~= count_warnings(atoms, bonds));
    r
}

/// Whether `t` holds nothing but Unicode whitespace.
pub open spec fn is_blank_text(t: Seq<char>) -> bool {
    forall|k: int| 0 <= k < t.len() ==> crate::text::is_unicode_space(#[trigger] t[k])
}

/// The value that an unsigned number in text reads as: digits after an optional `+`.
pub open spec fn unsigned_text_value(t: Seq<char>) -> Option<nat> {
    let d = if t.len() > 0 && t[0] == '+' {
        t.skip(1)
    } else {
        t
    };
    if is_digits(d) {
        Some(digits_value(d, 0, d.len() as int))
    } else {
        None
    }
}

/// A label that names an element by number names one of the 118 known elements.
pub open spec fn element_label_ok(t: Seq<char>) -> bool {
    unsigned_text_value(t) matches Some(v) ==> 1 <= v <= 118
}

/// The element symbol that an atom label stands for.
pub uninterp spec fn element_symbol_of(label: Seq<char>) -> Seq<char>;

/// Relies on gchemol's `AtomKind::from(&str)` followed by `AtomKind::symbol`:
/// the symbol of the element that `label` names (by symbol, in any case, by
/// name or by atomic number), or `label` itself where it names none. The
/// table lookup by number panics outside 1..=118, hence the requirement.
#[verifier::external_body]
fn element_symbol(label: &str) -> (r: String)
    requires
        element_label_ok(label@),
    ensures
        r@ == element_symbol_of(label@),
{
    gchemol::AtomKind::from(label).symbol().to_string()
}

/// Whether `t` meets `element_label_ok`.
pub fn label_ok(t: &Vec<char>) -> (r: bool)
    ensures
        r == element_label_ok(t@),
{
    let start: usize = if t.len() > 0 && t[0] == '+' {
        1
    } else {
        0
    };
    let ghost d = if t@.len() > 0 && t@[0] == '+' {
        t@.skip(1)
    } else {
        t@
    };
    assert(d =~= t@.subrange(start as int, t@.len() as int));
    let e = scan_run(t, start, CharClass::Digit);
    proof {
        lemma_run_end(t@, start as int, CharClass::Digit);
    }
    if e < t.len() || e == start {
        assert(!is_digits(d)) by {
            if e < t.len() {
                assert(!is_digit(d[e - start]));
            }
        }
        return true;
    }
    assert(is_digits(d));
    proof {
        lemma_digits_shift(t@, start as int, t@.len() as int);
    }
    match digits_to_usize(t, start, t.len()) {
        Some(v) => 1 <= v && v <= 118,
        None => false,
    }
}

proof fn lemma_digits_shift(t: Seq<char>, s: int, e: int)
    requires
        0 <= s <= e <= t.len(),
    ensures
        digits_value(t.subrange(s, t.len() as int), 0, e - s) == digits_value(t, s, e),
    decreases e - s,
{
    if e > s {
        lemma_digits_shift(t, s, e - 1);
    }
}

/// The symbol of the element that `label` names, where `element_label_ok` holds.
pub fn element_symbol_checked(label: &str, t: &Vec<char>) -> (r: Option<String>)
    requires
        t@ == label@,
    ensures
        element_label_ok(label@) ==> (r matches Some(x) && x@ == element_symbol_of(label@)),
        !element_label_ok(label@) ==> r is None,
{
    if label_ok(t) {
        Some(element_symbol(label))
    } else {
        None
    }
}

} // verus!
