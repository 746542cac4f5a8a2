//! The MDL SD format (V2000 connection tables). Columns are fixed: a counts
//! line of 3-character fields, atom lines of three 10-character coordinates
//! and a 3-character symbol, bond lines of three 3-character fields. A block
//! ends with a line that starts with `$$$$`.
use vstd::prelude::*;
use crate::text::{
    ParseError, PResult, CharClass, lemma_run_end, line_end, scan_line, scan_run, to_chars, rest_of,
    strip_cr, slice_text, token_chars, field_float_at, field_usize_at, scan_field_float,
    scan_field_usize, trim_ws, trim_bounds,
};
use crate::formula::{decimal, push_decimal};
use crate::molecule::{
    Atom, Bond, BondKind, Molecule, Warning, element_label_ok, element_symbol_of,
    element_symbol_checked, count_warnings, check_counts,
};

verus! {

/// Where an atom line's parts lie: the coordinate texts, the symbol, and the
/// index after the line.
pub type SdfAtomSpans = (Seq<Seq<char>>, Seq<char>, int);

/// An atom line at `i`.
pub open spec fn sdf_atom_at(cs: Seq<char>, i: int) -> Result<SdfAtomSpans, ParseError> {
    match field_float_at(cs, i, 10) {
        Err(e) => Err(e),
        Ok(x) => match field_float_at(cs, i + 10, 10) {
            Err(e) => Err(e),
            Ok(y) => match field_float_at(cs, i + 20, 10) {
                Err(e) => Err(e),
                Ok(z) => if i + 33 > cs.len() {
                    Err(ParseError::Incomplete)
                } else if !element_label_ok(trim_ws(cs.subrange(i + 30, i + 33))) {
                    Err(ParseError::Error)
                } else if line_end(cs, i + 33) == cs.len() {
                    Err(ParseError::Incomplete)
                } else {
                    Ok((seq![x, y, z], trim_ws(cs.subrange(i + 30, i + 33)), line_end(cs, i + 33) + 1))
                },
            },
        },
    }
}

/// A bond line at `i`: the two atom numbers, the bond order code, and the
/// index after the line.
pub open spec fn sdf_bond_at(cs: Seq<char>, i: int) -> Result<((nat, nat, nat), int), ParseError> {
    match field_usize_at(cs, i, 3) {
        Err(e) => Err(e),
        Ok(p) => match field_usize_at(cs, i + 3, 3) {
            Err(e) => Err(e),
            Ok(q) => match field_usize_at(cs, i + 6, 3) {
                Err(e) => Err(e),
                Ok(o) => if line_end(cs, i + 9) == cs.len() {
                    Err(ParseError::Incomplete)
                } else {
                    Ok(((p, q, o), line_end(cs, i + 9) + 1))
                },
            },
        },
    }
}

/// Atom lines from `i` on, as many as follow each other.
pub open spec fn sdf_atoms_from(cs: Seq<char>, i: int) -> Result<(Seq<SdfAtomSpans>, int), ParseError>
    decreases cs.len() - i,
{
    match sdf_atom_at(cs, i) {
        Err(ParseError::Error) => Ok((Seq::empty(), i)),
        Err(x) => Err(x),
        Ok(t) => if i < t.2 <= cs.len() {
            match sdf_atoms_from(cs, t.2) {
                Ok((rest, n)) => Ok((seq![t] + rest, n)),
                Err(x) => Err(x),
            }
        } else {
            Err(ParseError::Failure)
        },
    }
}

/// Bond lines from `i` on, as many as follow each other.
pub open spec fn sdf_bonds_from(cs: Seq<char>, i: int) -> Result<(Seq<(nat, nat, nat)>, int), ParseError>
    decreases cs.len() - i,
{
    match sdf_bond_at(cs, i) {
        Err(ParseError::Error) => Ok((Seq::empty(), i)),
        Err(x) => Err(x),
        Ok((b, n)) => if i < n <= cs.len() {
            match sdf_bonds_from(cs, n) {
                Ok((rest, m)) => Ok((seq![b] + rest, m)),
                Err(x) => Err(x),
            }
        } else {
            Err(ParseError::Failure)
        },
    }
}

/// Whether a line ends an SD block.
pub open spec fn is_block_end(t: Seq<char>) -> bool {
    t.len() >= 4 && t[0] == '$' && t[1] == '$' && t[2] == '$' && t[3] == '$'
}

/// The index after the first line from `i` on that ends the block; the
/// lines before it are annotations and are skipped. A last line without a
/// line feed ends the block too, when it starts with `$$$$`.
pub open spec fn sdf_end_at(cs: Seq<char>, i: int) -> Result<int, ParseError>
    decreases cs.len() - i,
{
    let e = line_end(cs, i);
    if !(0 <= i <= e <= cs.len()) {
        Err(ParseError::Incomplete)
    } else if is_block_end(cs.subrange(i, e)) {
        if e < cs.len() {
            Ok(e + 1)
        } else {
            Ok(e)
        }
    } else if e == cs.len() {
        Err(ParseError::Incomplete)
    } else {
        sdf_end_at(cs, e + 1)
    }
}

/// The bond kind of an order code: 1, 2, 3 single, double, triple; 4 aromatic;
/// any other code single.
pub open spec fn sdf_bond_kind(o: nat) -> BondKind {
    if o == 2 {
        BondKind::Double
    } else if o == 3 {
        BondKind::Triple
    } else if o == 4 {
        BondKind::Aromatic
    } else {
        BondKind::Single
    }
}

pub fn bond_kind_of_order(o: usize) -> (r: BondKind)
    ensures
        r == sdf_bond_kind(o as nat),
{
    if o == 2 {
        BondKind::Double
    } else if o == 3 {
        BondKind::Triple
    } else if o == 4 {
        BondKind::Aromatic
    } else {
        BondKind::Single
    }
}

/// Where an SD molecule's parts lie: the title line, the declared atom and
/// bond counts, the atom lines, the bond lines, and the index after the block.
pub type SdfSpans = ((int, int), nat, nat, Seq<SdfAtomSpans>, Seq<(nat, nat, nat)>, int);

/// An SD molecule at `i`: three header lines, the counts line, one or more atom
/// lines, bond lines, and the lines up to the block's end.
pub open spec fn sdf_molecule_at(cs: Seq<char>, i: int) -> Result<SdfSpans, ParseError> {
    let l1 = line_end(cs, i);
    let l2 = line_end(cs, l1 + 1);
    let l3 = line_end(cs, l2 + 1);
    let c = l3 + 1;
    if l1 == cs.len() || l2 == cs.len() || l3 == cs.len() {
        Err(ParseError::Incomplete)
    } else {
        match field_usize_at(cs, c, 3) {
            Err(e) => Err(e),
            Ok(na) => match field_usize_at(cs, c + 3, 3) {
                Err(e) => Err(e),
                Ok(nb) => if line_end(cs, c + 6) == cs.len() {
                    Err(ParseError::Incomplete)
                } else {
                    match sdf_atoms_from(cs, line_end(cs, c + 6) + 1) {
                        Err(e) => Err(e),
                        Ok((atoms, n1)) => if atoms.len() == 0 {
                            Err(ParseError::Error)
                        } else {
                            match sdf_bonds_from(cs, n1) {
                                Err(e) => Err(e),
                                Ok((bonds, n2)) => match sdf_end_at(cs, n2) {
                                    Err(e) => Err(e),
                                    Ok(n) => if exists|k: int|
                                        0 <= k < bonds.len() && !(1 <= (#[trigger] bonds[k]).0
                                            <= atoms.len() && 1 <= bonds[k].1 <= atoms.len()) {
                                        Err(ParseError::Failure)
                                    } else {
                                        Ok(((i, l1), na, nb, atoms, bonds, n))
                                    },
                                },
                            }
                        },
                    }
                },
            },
        }
    }
}

/// Whether `a` is the atom that the parts `t` describe.
pub open spec fn sdf_atom_from(a: Atom, t: SdfAtomSpans) -> bool {
    &&& a.symbol@ == element_symbol_of(t.1)
    &&& a.x@ == t.0[0]
    &&& a.y@ == t.0[1]
    &&& a.z@ == t.0[2]
    &&& a.label is None
}

/// Whether `m` and the warnings `w` are what the parts `t` of `cs` describe:
/// atom number `k` of the file is atom `k - 1` of the molecule.
pub open spec fn sdf_molecule_from(m: Molecule, w: Seq<Warning>, cs: Seq<char>, t: SdfSpans) -> bool {
    &&& m.name@ == trim_ws(strip_cr(cs.subrange(t.0.0, t.0.1)))
    &&& m.atoms@.len() == t.3.len()
    &&& forall|k: int| 0 <= k < t.3.len() ==> sdf_atom_from(#[trigger] m.atoms@[k], t.3[k])
    &&& m.bonds@.len() == t.4.len()
    &&& forall|k: int|
        0 <= k < t.4.len() ==> (#[trigger] m.bonds@[k]).0 + 1 == t.4[k].0 && m.bonds@[k].1 + 1
            == t.4[k].1 && m.bonds@[k].2.kind == sdf_bond_kind(t.4[k].2)
    &&& m.lattice is None
    &&& !m.fractional
    &&& m.wf()
    &&& w == count_warnings(
        Some((t.1 as usize, t.3.len() as usize)),
        Some((t.2 as usize, t.4.len() as usize)),
    )
}

fn scan_atom(s: &str, cs: &Vec<char>, i: usize) -> (r: Result<(Atom, usize), ParseError>)
    requires
        cs@ == s@,
        i <= cs@.len(),
    ensures
        match sdf_atom_at(cs@, i as int) {
            Ok(t) => r matches Ok((a, n)) && n == t.2 && i < n <= cs@.len() && sdf_atom_from(a, t),
            Err(x) => r == Err::<(Atom, usize), ParseError>(x),
        },
{
    assert(cs@.len() == cs.len());
    let x = match scan_field_float(s, cs, i, 10) {
        Ok(v) => v,
        Err(e) => {
            return Err(e);
        },
    };
    if 10 > cs.len() - i {
        return Err(ParseError::Incomplete);
    }
    let y = match scan_field_float(s, cs, i + 10, 10) {
        Ok(v) => v,
        Err(e) => {
            return Err(e);
        },
    };
    if 20 > cs.len() - i {
        return Err(ParseError::Incomplete);
    }
    let z = match scan_field_float(s, cs, i + 20, 10) {
        Ok(v) => v,
        Err(e) => {
            return Err(e);
        },
    };
    if 33 > cs.len() - i {
        return Err(ParseError::Incomplete);
    }
    let fc = token_chars(s, cs, i + 30, i + 33);
    let (a, b) = trim_bounds(&fc);
    let label = slice_text(s, cs, i + 30 + a, i + 30 + b);
    let lc = token_chars(s, cs, i + 30 + a, i + 30 + b);
    assert(lc@ =~= trim_ws(cs@.subrange(i + 30, i + 33)));
    let symbol = match element_symbol_checked(label.as_str(), &lc) {
        Some(v) => v,
        None => {
            return Err(ParseError::Error);
        },
    };
    proof {
        lemma_run_end(cs@, i + 33, CharClass::NotNewline);
    }
    let n = match scan_line(cs, i + 33) {
        Ok((_t, n)) => n,
        Err(e) => {
            return Err(e);
        },
    };
    proof {
        let t = sdf_atom_at(cs@, i as int)->Ok_0;
        assert(t.0 =~= seq![x@, y@, z@]);
    }
    Ok((Atom { symbol, x, y, z, label: None }, n))
}

fn scan_bond(s: &str, cs: &Vec<char>, i: usize) -> (r: Result<((usize, usize, usize), usize), ParseError>)
    requires
        cs@ == s@,
        i <= cs@.len(),
    ensures
        match sdf_bond_at(cs@, i as int) {
            Ok((b, n)) => r matches Ok((x, m)) && m == n && i < n <= cs@.len() && x.0 as nat == b.0
                && x.1 as nat == b.1 && x.2 as nat == b.2,
            Err(x) => r == Err::<((usize, usize, usize), usize), ParseError>(x),
        },
{
    assert(cs@.len() == cs.len());
    let p = match scan_field_usize(s, cs, i, 3) {
        Ok(v) => v,
        Err(e) => {
            return Err(e);
        },
    };
    if 3 > cs.len() - i {
        return Err(ParseError::Incomplete);
    }
    let q = match scan_field_usize(s, cs, i + 3, 3) {
        Ok(v) => v,
        Err(e) => {
            return Err(e);
        },
    };
    if 6 > cs.len() - i {
        return Err(ParseError::Incomplete);
    }
    let o = match scan_field_usize(s, cs, i + 6, 3) {
        Ok(v) => v,
        Err(e) => {
            return Err(e);
        },
    };
    if 9 > cs.len() - i {
        return Err(ParseError::Incomplete);
    }
    proof {
        lemma_run_end(cs@, i + 9, CharClass::NotNewline);
    }
    match scan_line(cs, i + 9) {
        Ok((_t, n)) => Ok(((p, q, o), n)),
        Err(e) => Err(e),
    }
}


fn scan_atoms(s: &str, cs: &Vec<char>, i: usize) -> (r: Result<(Vec<Atom>, usize), ParseError>)
    requires
        cs@ == s@,
        i <= cs@.len(),
    ensures
        match sdf_atoms_from(cs@, i as int) {
            Ok((ts, n)) => r matches Ok((v, m)) && m == n && i <= n <= cs@.len() && v@.len()
                == ts.len() && forall|k: int| 0 <= k < ts.len() ==> sdf_atom_from(#[trigger] v@[k], ts[k]),
            Err(x) => r == Err::<(Vec<Atom>, usize), ParseError>(x),
        },
{
    let mut atoms: Vec<Atom> = Vec::new();
    let mut j: usize = i;
    let ghost mut done: Seq<SdfAtomSpans> = Seq::empty();
    loop
        invariant
            cs@ == s@,
            i <= j <= cs@.len(),
            atoms@.len() == done.len(),
            forall|k: int| 0 <= k < done.len() ==> sdf_atom_from(#[trigger] atoms@[k], done[k]),
            match sdf_atoms_from(cs@, j as int) {
                Ok((ts, n)) => sdf_atoms_from(cs@, i as int) == Ok::<(Seq<SdfAtomSpans>, int), ParseError>(
                    (done + ts, n),
                ),
                Err(x) => sdf_atoms_from(cs@, i as int) == Err::<(Seq<SdfAtomSpans>, int), ParseError>(x),
            },
        decreases cs@.len() - j,
    {
        match scan_atom(s, cs, j) {
            Ok((a, n)) => {
                let ghost t = sdf_atom_at(cs@, j as int)->Ok_0;
                proof {
                    match sdf_atoms_from(cs@, n as int) {
                        Ok((ts, m)) => {
                            assert(done + (seq![t] + ts) =~= done.push(t) + ts);
                        },
                        Err(x) => {},
                    }
                    done = done.push(t);
                }
                atoms.push(a);
                j = n;
            },
            Err(ParseError::Error) => {
                assert(done + Seq::<SdfAtomSpans>::empty() =~= done);
                return Ok((atoms, j));
            },
            Err(x) => {
                return Err(x);
            },
        }
    }
}

fn scan_bonds(s: &str, cs: &Vec<char>, i: usize) -> (r: Result<(Vec<(usize, usize, usize)>, usize), ParseError>)
    requires
        cs@ == s@,
        i <= cs@.len(),
    ensures
        match sdf_bonds_from(cs@, i as int) {
            Ok((ts, n)) => r matches Ok((v, m)) && m == n && i <= n <= cs@.len() && v@.len()
                == ts.len() && forall|k: int|
                0 <= k < ts.len() ==> (#[trigger] v@[k]).0 as nat == ts[k].0 && v@[k].1 as nat
                    == ts[k].1 && v@[k].2 as nat == ts[k].2,
            Err(x) => r == Err::<(Vec<(usize, usize, usize)>, usize), ParseError>(x),
        },
{
    let mut bonds: Vec<(usize, usize, usize)> = Vec::new();
    let mut j: usize = i;
    let ghost mut done: Seq<(nat, nat, nat)> = Seq::empty();
    loop
        invariant
            cs@ == s@,
            i <= j <= cs@.len(),
            bonds@.len() == done.len(),
            forall|k: int|
                0 <= k < done.len() ==> (#[trigger] bonds@[k]).0 as nat == done[k].0 && bonds@[k].1 as nat
                    == done[k].1 && bonds@[k].2 as nat == done[k].2,
            match sdf_bonds_from(cs@, j as int) {
                Ok((ts, n)) => sdf_bonds_from(cs@, i as int) == Ok::<(Seq<(nat, nat, nat)>, int), ParseError>(
                    (done + ts, n),
                ),
                Err(x) => sdf_bonds_from(cs@, i as int) == Err::<(Seq<(nat, nat, nat)>, int), ParseError>(x),
            },
        decreases cs@.len() - j,
    {
        match scan_bond(s, cs, j) {
            Ok((b, n)) => {
                let ghost t = sdf_bond_at(cs@, j as int)->Ok_0.0;
                proof {
                    match sdf_bonds_from(cs@, n as int) {
                        Ok((ts, m)) => {
                            assert(done + (seq![t] + ts) =~= done.push(t) + ts);
                        },
                        Err(x) => {},
                    }
                    done = done.push(t);
                }
                bonds.push(b);
                j = n;
            },
            Err(ParseError::Error) => {
                assert(done + Seq::<(nat, nat, nat)>::empty() =~= done);
                return Ok((bonds, j));
            },
            Err(x) => {
                return Err(x);
            },
        }
    }
}

fn scan_end(cs: &Vec<char>, i: usize) -> (r: Result<usize, ParseError>)
    requires
        i <= cs@.len(),
    ensures
        match sdf_end_at(cs@, i as int) {
            Ok(n) => r == Ok::<usize, ParseError>(n as usize) && 0 <= n <= cs@.len(),
            Err(x) => r == Err::<usize, ParseError>(x),
        },
{
    let mut j: usize = i;
    loop
        invariant
            i <= j <= cs@.len(),
            sdf_end_at(cs@, j as int) == sdf_end_at(cs@, i as int),
        decreases cs@.len() - j,
    {
        proof {
            lemma_run_end(cs@, j as int, CharClass::NotNewline);
        }
        let e = scan_run(cs, j, CharClass::NotNewline);
        let is_end = e - j >= 4 && cs[j] == '$' && cs[j + 1] == '$' && cs[j + 2] == '$' && cs[j + 3]
            == '$';
        proof {
            let t = cs@.subrange(j as int, e as int);
            if is_end {
                assert(t[0] == cs@[j as int] && t[1] == cs@[j + 1] && t[2] == cs@[j + 2] && t[3]
                    == cs@[j + 3]);
            } else if t.len() >= 4 {
                assert(t[0] == cs@[j as int] && t[1] == cs@[j + 1] && t[2] == cs@[j + 2] && t[3]
                    == cs@[j + 3]);
            }
        }
        if is_end {
            if e < cs.len() {
                return Ok(e + 1);
            }
            return Ok(e);
        }
        if e == cs.len() {
            return Err(ParseError::Incomplete);
        }
        j = e + 1;
    }
}

/// The first bond, if any, that names an atom number outside `1..=natoms`.
fn bonds_resolve(bonds: &Vec<(usize, usize, usize)>, natoms: usize) -> (r: bool)
    ensures
        r <==> forall|k: int|
            0 <= k < bonds@.len() ==> 1 <= (#[trigger] bonds@[k]).0 <= natoms && 1 <= bonds@[k].1 <= natoms,
{
    let mut k: usize = 0;
    while k < bonds.len()
        invariant
            k <= bonds@.len(),
            forall|q: int| 0 <= q < k ==> 1 <= (#[trigger] bonds@[q]).0 <= natoms && 1 <= bonds@[q].1 <= natoms,
        decreases bonds@.len() - k,
    {
        let (p, q, _o) = bonds[k];
        if !(1 <= p && p <= natoms && 1 <= q && q <= natoms) {
            return false;
        }
        k = k + 1;
    }
    true
}

pub fn scan_molecule(s: &str, cs: &Vec<char>, i: usize) -> (r: Result<((Molecule, Vec<Warning>), usize), ParseError>)
    requires
        cs@ == s@,
        i <= cs@.len(),
    ensures
        match sdf_molecule_at(cs@, i as int) {
            Ok(t) => r matches Ok((mw, n)) && n == t.5 && n <= cs@.len() && sdf_molecule_from(
                mw.0,
                mw.1@,
                cs@,
                t,
            ),
            Err(x) => r == Err::<((Molecule, Vec<Warning>), usize), ParseError>(x),
        },
{
    assert(cs@.len() == cs.len());
    proof {
        lemma_run_end(cs@, i as int, CharClass::NotNewline);
    }
    let (t1, n1) = match scan_line(cs, i) {
        Ok(p) => p,
        Err(e) => {
            return Err(e);
        },
    };
    proof {
        lemma_run_end(cs@, n1 as int, CharClass::NotNewline);
    }
    let (_t2, n2) = match scan_line(cs, n1) {
        Ok(p) => p,
        Err(e) => {
            return Err(e);
        },
    };
    proof {
        lemma_run_end(cs@, n2 as int, CharClass::NotNewline);
    }
    let (_t3, c) = match scan_line(cs, n2) {
        Ok(p) => p,
        Err(e) => {
            return Err(e);
        },
    };
    let na = match scan_field_usize(s, cs, c, 3) {
        Ok(v) => v,
        Err(e) => {
            return Err(e);
        },
    };
    if 3 > cs.len() - c {
        return Err(ParseError::Incomplete);
    }
    let nb = match scan_field_usize(s, cs, c + 3, 3) {
        Ok(v) => v,
        Err(e) => {
            return Err(e);
        },
    };
    if 6 > cs.len() - c {
        return Err(ParseError::Incomplete);
    }
    proof {
        lemma_run_end(cs@, c + 6, CharClass::NotNewline);
    }
    let (_t4, n4) = match scan_line(cs, c + 6) {
        Ok(p) => p,
        Err(e) => {
            return Err(e);
        },
    };
    let (atoms, n5) = match scan_atoms(s, cs, n4) {
        Ok(p) => p,
        Err(e) => {
            return Err(e);
        },
    };
    if atoms.len() == 0 {
        return Err(ParseError::Error);
    }
    let (bonds, n6) = match scan_bonds(s, cs, n5) {
        Ok(p) => p,
        Err(e) => {
            return Err(e);
        },
    };
    let n = match scan_end(cs, n6) {
        Ok(p) => p,
        Err(e) => {
            return Err(e);
        },
    };
    let natoms = atoms.len();
    let ghost ta = sdf_atoms_from(cs@, n4 as int)->Ok_0.0;
    let ghost tb = sdf_bonds_from(cs@, n5 as int)->Ok_0.0;
    if !bonds_resolve(&bonds, natoms) {
        proof {
            let k = choose|k: int|
                0 <= k < bonds@.len() && !(1 <= (#[trigger] bonds@[k]).0 <= natoms && 1 <= bonds@[k].1
                    <= natoms);
            assert(!(1 <= tb[k].0 <= ta.len() && 1 <= tb[k].1 <= ta.len()));
        }
        return Err(ParseError::Failure);
    }
    let title = slice_text(s, cs, i, t1);
    let tc = token_chars(s, cs, i, t1);
    let (a, b) = trim_bounds(&tc);
    let name = slice_text(s, cs, i + a, i + b);
    assert(name@ =~= trim_ws(tc@));
    let ghost name_v = name@;
    let ghost atoms_v = atoms@;
    let mut mol = Molecule::new(name);
    mol.atoms = atoms;
    let mut k: usize = 0;
    while k < bonds.len()
        invariant
            mol.atoms@.len() == natoms,
            mol.name@ == name_v,
            mol.atoms@ == atoms_v,
            k <= bonds@.len(),
            mol.bonds@.len() == k,
            mol.wf(),
            mol.lattice is None,
            !mol.fractional,
            forall|q: int|
                0 <= q < bonds@.len() ==> 1 <= (#[trigger] bonds@[q]).0 <= natoms && 1 <= bonds@[q].1
                    <= natoms,
            forall|q: int|
                0 <= q < k ==> (#[trigger] mol.bonds@[q]).0 + 1 == bonds@[q].0 && mol.bonds@[q].1 + 1
                    == bonds@[q].1 && mol.bonds@[q].2.kind == sdf_bond_kind(bonds@[q].2 as nat),
        decreases bonds@.len() - k,
    {
        let (p, q, o) = bonds[k];
        let kind = bond_kind_of_order(o);
        mol.add_bond(p - 1, q - 1, Bond { kind });
        k = k + 1;
    }
    let w = check_counts(Some((na, natoms)), Some((nb, bonds.len())));
    proof {
        assert(line_end(cs@, i as int) + 1 == n1);
        assert(line_end(cs@, n1 as int) + 1 == n2);
        assert(line_end(cs@, n2 as int) + 1 == c);
        assert(field_usize_at(cs@, c as int, 3) == Ok::<nat, ParseError>(na as nat));
        assert(field_usize_at(cs@, c + 3, 3) == Ok::<nat, ParseError>(nb as nat));
        assert(line_end(cs@, c + 6) + 1 == n4);
        assert(sdf_atoms_from(cs@, n4 as int) == Ok::<(Seq<SdfAtomSpans>, int), ParseError>((ta, n5 as int)));
        assert(sdf_bonds_from(cs@, n5 as int) == Ok::<(Seq<(nat, nat, nat)>, int), ParseError>((tb, n6 as int)));
        assert(sdf_end_at(cs@, n6 as int) == Ok::<int, ParseError>(n as int));
        assert(line_end(cs@, i as int) < cs@.len());
        assert(ta.len() == natoms);
        assert forall|k: int| 0 <= k < tb.len() implies 1 <= (#[trigger] tb[k]).0 <= ta.len() && 1
            <= tb[k].1 <= ta.len() by {
            assert(1 <= bonds@[k].0 <= natoms && 1 <= bonds@[k].1 <= natoms);
        }
        assert(sdf_molecule_at(cs@, i as int) is Ok);
        let t = sdf_molecule_at(cs@, i as int)->Ok_0;
        assert(t.4 == tb);
        assert(strip_cr(cs@.subrange(i as int, t.0.1)) == cs@.subrange(i as int, t1 as int));
        assert(mol.name@ == trim_ws(strip_cr(cs@.subrange(t.0.0, t.0.1))));
        assert(forall|k: int| 0 <= k < t.3.len() ==> sdf_atom_from(#[trigger] mol.atoms@[k], t.3[k]));
        assert(w@ == count_warnings(
            Some((t.1 as usize, t.3.len() as usize)),
            Some((t.2 as usize, t.4.len() as usize)),
        ));
        assert(sdf_molecule_from(mol, w@, cs@, t));
    }
    Ok(((mol, w), n))
}

/// Reads one SD molecule block, up to and including its `$$$$` line. Counts
/// that disagree with the atom and bond lines give warnings; a bond that
/// names a missing atom is a `Failure`.
pub fn read_molecule_sdf(input: &str) -> (r: PResult<'_, (Molecule, Vec<Warning>)>)
    ensures
        match sdf_molecule_at(input@, 0) {
            Ok(t) => r matches Ok((rest, mw)) && rest@ == input@.skip(t.5) && sdf_molecule_from(
                mw.0,
                mw.1@,
                input@,
                t,
            ),
            Err(x) => r == Err::<(&str, (Molecule, Vec<Warning>)), ParseError>(x),
        },
{
    let cs = to_chars(input);
    match scan_molecule(input, &cs, 0) {
        Ok((mw, n)) => Ok((rest_of(input, &cs, n), mw)),
        Err(x) => Err(x),
    }
}


/// The counts line at `i`: the atom and bond counts (3 characters each), and
/// the index after the line, whose other fields are ignored.
pub open spec fn counts_at(cs: Seq<char>, i: int) -> Result<(nat, nat, int), ParseError> {
    match field_usize_at(cs, i, 3) {
        Err(e) => Err(e),
        Ok(na) => match field_usize_at(cs, i + 3, 3) {
            Err(e) => Err(e),
            Ok(nb) => if line_end(cs, i + 6) == cs.len() {
                Err(ParseError::Incomplete)
            } else {
                Ok((na, nb, line_end(cs, i + 6) + 1))
            },
        },
    }
}

/// Reads a counts line: `" 16 14  0  0  0  0  0  0  0  0999 V2000\n"` gives (16, 14).
pub fn counts_line(input: &str) -> (r: PResult<'_, (usize, usize)>)
    ensures
        match counts_at(input@, 0) {
            Ok((na, nb, n)) => r matches Ok((rest, x)) && rest@ == input@.skip(n) && x.0 as nat == na
                && x.1 as nat == nb,
            Err(e) => r == Err::<(&str, (usize, usize)), ParseError>(e),
        },
{
    let cs = to_chars(input);
    assert(cs@.len() == cs.len());
    let na = match scan_field_usize(input, &cs, 0, 3) {
        Ok(v) => v,
        Err(e) => {
            return Err(e);
        },
    };
    if 3 > cs.len() {
        return Err(ParseError::Incomplete);
    }
    let nb = match scan_field_usize(input, &cs, 3, 3) {
        Ok(v) => v,
        Err(e) => {
            return Err(e);
        },
    };
    if 6 > cs.len() {
        return Err(ParseError::Incomplete);
    }
    proof {
        lemma_run_end(cs@, 6, CharClass::NotNewline);
    }
    match scan_line(&cs, 6) {
        Ok((_t, n)) => Ok((rest_of(input, &cs, n), (na, nb))),
        Err(e) => Err(e),
    }
}

/// Reads the lines up to and including the one that ends the block (`$$$$`).
pub fn block_end(input: &str) -> (r: PResult<'_, ()>)
    ensures
        match sdf_end_at(input@, 0) {
            Ok(n) => r matches Ok((rest, _u)) && rest@ == input@.skip(n),
            Err(e) => r == Err::<(&str, ()), ParseError>(e),
        },
{
    let cs = to_chars(input);
    assert(cs@.len() == cs.len());
    match scan_end(&cs, 0) {
        Ok(n) => Ok((rest_of(input, &cs, n), ())),
        Err(e) => Err(e),
    }
}


/// `n` right-aligned in a field of three characters, as `{:>3}` writes it
/// (a number of more digits takes all it needs).
pub open spec fn pad3(n: nat) -> Seq<char> {
    let d = decimal(n);
    if d.len() < 3 {
        Seq::new((3 - d.len()) as nat, |_i: int| ' ') + d
    } else {
        d
    }
}

/// `n` right-aligned in a field of three characters.
fn field3(n: usize) -> (r: String)
    ensures
        r@ == pad3(n as nat),
{
    let d = push_decimal(String::new(), n);
    assert(d@ =~= decimal(n as nat));
    let len = d.as_str().unicode_len();
    let mut out = String::new();
    let mut k: usize = len;
    while k < 3
        invariant
            len <= k <= 3 || (len > 3 && k == len),
            len == decimal(n as nat).len(),
            out@ == Seq::new((k - len) as nat, |_i: int| ' '),
        decreases 3 - k,
    {
        out = out.concat(" ");
        proof {
            reveal_strlit(" ");
        }
        assert(out@ =~= Seq::new((k + 1 - len) as nat, |_i: int| ' '));
        k = k + 1;
    }
    let r = out.concat(d.as_str());
    if len >= 3 {
        assert(out@ =~= Seq::<char>::empty());
        assert(r@ =~= decimal(n as nat));
    }
    r
}

/// The V2000 order code written for a bond kind: 1, 2, 3 for single, double
/// and triple, 4 for aromatic; kinds V2000 has no code for are written as 1.
pub open spec fn sdf_order_code(k: BondKind) -> nat {
    match k {
        BondKind::Double => 2,
        BondKind::Triple => 3,
        BondKind::Aromatic => 4,
        _ => 1,
    }
}

/// A bond line: the two atom numbers and the order code, three characters
/// each, then the unused fields (`"  6  7  1  0  0  0 \n"`).
pub fn format_bond(index1: usize, index2: usize, bond: &Bond) -> (r: String)
    ensures
        r@ == pad3(index1 as nat) + pad3(index2 as nat) + pad3(sdf_order_code(bond.kind))
            + "  0  0  0 \n"@,
{
    let code: usize = match bond.kind {
        BondKind::Double => 2,
        BondKind::Triple => 3,
        BondKind::Aromatic => 4,
        _ => 1,
    };
    let r = field3(index1).concat(field3(index2).as_str()).concat(field3(code).as_str()).concat("  0  0  0 \n");
    r
}

/// A counts line for `natoms` atoms and `nbonds` bonds, the other fields
/// zero, version V2000.
pub fn format_counts_line(natoms: usize, nbonds: usize) -> (r: String)
    ensures
        r@ == pad3(natoms as nat) + pad3(nbonds as nat) + "  0  0  0  0  0  0  0  0999 V2000 \n"@,
{
    field3(natoms).concat(field3(nbonds).as_str()).concat("  0  0  0  0  0  0  0  0999 V2000 \n")
}

/// Reads one bond line: the two atom numbers and the bond.
pub fn get_bond_from(input: &str) -> (r: PResult<'_, (usize, usize, Bond)>)
    ensures
        match sdf_bond_at(input@, 0) {
            Ok((b, n)) => r matches Ok((rest, x)) && rest@ == input@.skip(n) && x.0 as nat == b.0
                && x.1 as nat == b.1 && x.2.kind == sdf_bond_kind(b.2),
            Err(e) => r == Err::<(&str, (usize, usize, Bond)), ParseError>(e),
        },
{
    let cs = to_chars(input);
    match scan_bond(input, &cs, 0) {
        Ok(((p, q, o), n)) => Ok((rest_of(input, &cs, n), (p, q, Bond { kind: bond_kind_of_order(o) }))),
        Err(e) => Err(e),
    }
}


/// A bond kind that V2000 has a code for reads back as itself from the code
/// written for it.
pub proof fn lemma_sdf_order_round_trip(k: BondKind)
    requires
        k != BondKind::Partial,
        k != BondKind::Dummy,
    ensures
        sdf_bond_kind(sdf_order_code(k)) == k,
{
}

} // verus!
