//! The XYZ format: a line with the atom count, a title line, then one line per
//! atom, `symbol x y z` with anything after the coordinates ignored.
use vstd::prelude::*;
use vstd::string::StringExecFns;
use crate::text::{
    ParseError, PResult, CharClass, run_end, lemma_run_end, scan_run, line_end, scan_line,
    xyz_at, scan_xyz, span_text, to_chars, rest_of, usize_line_at, scan_usize_line, strip_cr,
    slice_text, token_chars,
};
use crate::molecule::{
    Atom, Molecule, Warning, element_label_ok, element_symbol_of, element_symbol_checked,
    count_warnings, check_counts, is_blank_text,
};

verus! {

/// Where the parts of an atom line lie: the symbol's span, the spans of the
/// three coordinates, and the index after the line.
pub type AtomSpans = ((int, int), Seq<(int, int)>, int);

/// End of the element symbol at `a`: letters, or else digits.
pub open spec fn symbol_end(cs: Seq<char>, a: int) -> int {
    let e = run_end(cs, a, CharClass::Alpha);
    if e > a {
        e
    } else {
        run_end(cs, a, CharClass::Digit)
    }
}

/// An atom line at `i`: spaces, a symbol, spaces, three coordinates, and the
/// rest of the line, which is ignored.
pub open spec fn xyz_atom_at(cs: Seq<char>, i: int) -> Result<AtomSpans, ParseError> {
    let a = run_end(cs, i, CharClass::InlineSpace);
    let e = symbol_end(cs, a);
    if e == cs.len() {
        Err(ParseError::Incomplete)
    } else if e == a || !element_label_ok(cs.subrange(a, e)) {
        Err(ParseError::Error)
    } else {
        match xyz_at(cs, run_end(cs, e, CharClass::InlineSpace)) {
            Err(x) => Err(x),
            Ok(sp) => if line_end(cs, sp[2].1) == cs.len() {
                Err(ParseError::Incomplete)
            } else {
                Ok(((a, e), sp, line_end(cs, sp[2].1) + 1))
            },
        }
    }
}

/// Atom lines from `i` on, as many as follow each other; the list stops at
/// the first line that is no atom line.
pub open spec fn xyz_atoms_from(cs: Seq<char>, i: int) -> Result<(Seq<AtomSpans>, int), ParseError>
    decreases cs.len() - i,
{
    match xyz_atom_at(cs, i) {
        Err(ParseError::Error) => Ok((Seq::empty(), i)),
        Err(x) => Err(x),
        Ok(t) => if i < t.2 <= cs.len() {
            match xyz_atoms_from(cs, t.2) {
                Ok((rest, n)) => Ok((seq![t] + rest, n)),
                Err(x) => Err(x),
            }
        } else {
            Err(ParseError::Failure)
        },
    }
}

/// Whether `a` is the atom that the spans `t` of `cs` describe.
pub open spec fn atom_from_spans(a: Atom, cs: Seq<char>, t: AtomSpans) -> bool {
    &&& a.symbol@ == element_symbol_of(cs.subrange(t.0.0, t.0.1))
    &&& a.x@ == span_text(cs, t.1[0])
    &&& a.y@ == span_text(cs, t.1[1])
    &&& a.z@ == span_text(cs, t.1[2])
    &&& a.label is None
}

/// Whether `atoms` are the atoms that the spans `ts` describe, in order.
pub open spec fn atoms_from_spans(atoms: Seq<Atom>, cs: Seq<char>, ts: Seq<AtomSpans>) -> bool {
    atoms.len() == ts.len() && forall|k: int|
        0 <= k < ts.len() ==> atom_from_spans(#[trigger] atoms[k], cs, ts[k])
}

fn scan_atom(s: &str, cs: &Vec<char>, i: usize) -> (r: Result<(Atom, usize), ParseError>)
    requires
        cs@ == s@,
        i <= cs@.len(),
    ensures
        match xyz_atom_at(cs@, i as int) {
            Ok(t) => r matches Ok((a, n)) && n == t.2 && i < n <= cs@.len() && atom_from_spans(
                a,
                cs@,
                t,
            ),
            Err(x) => r == Err::<(Atom, usize), ParseError>(x),
        },
{
    assert(cs@.len() == cs.len());
    let a = scan_run(cs, i, CharClass::InlineSpace);
    proof {
        lemma_run_end(cs@, i as int, CharClass::InlineSpace);
    }
    let mut e = scan_run(cs, a, CharClass::Alpha);
    if e == a {
        e = scan_run(cs, a, CharClass::Digit);
    }
    proof {
        lemma_run_end(cs@, a as int, CharClass::Alpha);
        lemma_run_end(cs@, a as int, CharClass::Digit);
    }
    if e == cs.len() {
        return Err(ParseError::Incomplete);
    }
    if e == a {
        return Err(ParseError::Error);
    }
    let label = s.substring_char(a, e);
    let lc = token_chars(s, cs, a, e);
    let symbol = match element_symbol_checked(label, &lc) {
        Some(x) => x,
        None => {
            return Err(ParseError::Error);
        },
    };
    let p = scan_run(cs, e, CharClass::InlineSpace);
    proof {
        lemma_run_end(cs@, e as int, CharClass::InlineSpace);
    }
    let (v, m) = match scan_xyz(s, cs, p) {
        Ok(x) => x,
        Err(x) => {
            return Err(x);
        },
    };
    assert(symbol_end(cs@, a as int) == e);
    assert(element_label_ok(cs@.subrange(a as int, e as int)));
    assert(run_end(cs@, e as int, CharClass::InlineSpace) == p);
    assert(xyz_at(cs@, p as int) is Ok);
    proof {
        lemma_run_end(cs@, m as int, CharClass::NotNewline);
    }
    let n = match scan_line(cs, m) {
        Ok((_t, n)) => n,
        Err(x) => {
            assert(line_end(cs@, m as int) == cs@.len());
            assert(x == ParseError::Incomplete);
            return Err(x);
        },
    };
    proof {
        lemma_run_end(cs@, m as int, CharClass::NotNewline);
    }
    let ghost sp = xyz_at(cs@, p as int)->Ok_0;
    assert(xyz_atom_at(cs@, i as int) == Ok::<AtomSpans, ParseError>(((a as int, e as int), sp, n as int)));
    let mut v = v;
    let z = v.pop().unwrap();
    let y = v.pop().unwrap();
    let x = v.pop().unwrap();
    Ok((Atom { symbol, x, y, z, label: None }, n))
}

fn scan_atoms(s: &str, cs: &Vec<char>, i: usize) -> (r: Result<(Vec<Atom>, usize), ParseError>)
    requires
        cs@ == s@,
        i <= cs@.len(),
    ensures
        match xyz_atoms_from(cs@, i as int) {
            Ok((ts, n)) => r matches Ok((v, m)) && m == n && i <= n <= cs@.len() && atoms_from_spans(
                v@,
                cs@,
                ts,
            ),
            Err(x) => r == Err::<(Vec<Atom>, usize), ParseError>(x),
        },
{
    let mut atoms: Vec<Atom> = Vec::new();
    let mut j: usize = i;
    let ghost mut done: Seq<AtomSpans> = Seq::empty();
    loop
        invariant
            cs@ == s@,
            i <= j <= cs@.len(),
            atoms_from_spans(atoms@, cs@, done),
            match xyz_atoms_from(cs@, j as int) {
                Ok((ts, n)) => xyz_atoms_from(cs@, i as int) == Ok::<(Seq<AtomSpans>, int), ParseError>(
                    (done + ts, n),
                ),
                Err(x) => xyz_atoms_from(cs@, i as int) == Err::<(Seq<AtomSpans>, int), ParseError>(x),
            },
        decreases cs@.len() - j,
    {
        match scan_atom(s, cs, j) {
            Ok((a, n)) => {
                let ghost t = xyz_atom_at(cs@, j as int)->Ok_0;
                proof {
                    match xyz_atoms_from(cs@, n as int) {
                        Ok((ts, m)) => {
                            assert(done + (seq![t] + ts) =~= done.push(t) + ts);
                        },
                        Err(x) => {},
                    }
                    done = done.push(t);
                }
                atoms.push(a);
                j = n;
            },
            Err(ParseError::Error) => {
                assert(done + Seq::<AtomSpans>::empty() =~= done);
                return Ok((atoms, j));
            },
            Err(x) => {
                return Err(x);
            },
        }
    }
}

/// Reads the atom lines at the start of `input`, as many as follow each other.
pub fn read_atoms_xyz(input: &str) -> (r: PResult<'_, Vec<Atom>>)
    ensures
        match xyz_atoms_from(input@, 0) {
            Ok((ts, n)) => if ts.len() > 0 {
                r matches Ok((rest, v)) && rest@ == input@.skip(n) && atoms_from_spans(v@, input@, ts)
            } else {
                r == Err::<(&str, Vec<Atom>), ParseError>(ParseError::Error)
            },
            Err(x) => r == Err::<(&str, Vec<Atom>), ParseError>(x),
        },
{
    let cs = to_chars(input);
    match scan_atoms(input, &cs, 0) {
        Ok((v, n)) => if v.len() > 0 {
            Ok((rest_of(input, &cs, n), v))
        } else {
            Err(ParseError::Error)
        },
        Err(x) => Err(x),
    }
}

/// Reads one atom line: `"C -11.4286 -1.3155  0.0000\n"`.
pub fn read_atom_xyz(input: &str) -> (r: PResult<'_, Atom>)
    ensures
        match xyz_atom_at(input@, 0) {
            Ok(t) => r matches Ok((rest, a)) && rest@ == input@.skip(t.2) && atom_from_spans(a, input@, t),
            Err(x) => r == Err::<(&str, Atom), ParseError>(x),
        },
{
    let cs = to_chars(input);
    match scan_atom(input, &cs, 0) {
        Ok((a, n)) => Ok((rest_of(input, &cs, n), a)),
        Err(x) => Err(x),
    }
}


/// Where the parts of an XYZ molecule lie: the declared atom count, the
/// title line's span, the atom lines, and the index after the last of them.
pub type XyzSpans = (nat, (int, int), Seq<AtomSpans>, int);

/// An XYZ molecule at `i`: a line with the atom count, a title line, and one
/// or more atom lines.
pub open spec fn xyz_molecule_at(cs: Seq<char>, i: int) -> Result<XyzSpans, ParseError> {
    match usize_line_at(cs, i) {
        Err(x) => Err(x),
        Ok((vals, n1)) => if vals.len() != 1 {
            Err(ParseError::Error)
        } else if line_end(cs, n1) == cs.len() {
            Err(ParseError::Incomplete)
        } else {
            match xyz_atoms_from(cs, line_end(cs, n1) + 1) {
                Err(x) => Err(x),
                Ok((ts, n)) => if ts.len() == 0 {
                    Err(ParseError::Error)
                } else {
                    Ok((vals[0], (n1, line_end(cs, n1)), ts, n))
                },
            }
        },
    }
}

/// The name a molecule takes from its title line: the title, unless it is
/// blank.
pub open spec fn title_name(title: Seq<char>, default: Seq<char>) -> Seq<char> {
    if is_blank_text(title) {
        default
    } else {
        title
    }
}

/// Whether `m` and the warnings `w` are what the spans `t` of `cs` describe.
pub open spec fn xyz_molecule_from_spans(m: Molecule, w: Seq<Warning>, cs: Seq<char>, t: XyzSpans) -> bool {
    &&& m.name@ == title_name(strip_cr(cs.subrange(t.1.0, t.1.1)), "plain xyz"@)
    &&& atoms_from_spans(m.atoms@, cs, t.2)
    &&& m.bonds@.len() == 0
    &&& m.lattice is None
    &&& !m.fractional
    &&& m.wf()
    &&& w == count_warnings(Some((t.0 as usize, t.2.len() as usize)), None)
}

fn blank_ok(t: &Vec<char>) -> (r: bool)
    ensures
        r == is_blank_text(t@),
{
    let mut k: usize = 0;
    while k < t.len()
        invariant
            k <= t@.len(),
            forall|q: int| 0 <= q < k ==> crate::text::is_unicode_space(#[trigger] t@[q]),
        decreases t@.len() - k,
    {
        let c = t[k];
        if !crate::text::unicode_space(c) {
            return false;
        }
        k = k + 1;
    }
    true
}

pub fn scan_molecule(s: &str, cs: &Vec<char>, i: usize) -> (r: Result<((Molecule, Vec<Warning>), usize), ParseError>)
    requires
        cs@ == s@,
        i <= cs@.len(),
    ensures
        match xyz_molecule_at(cs@, i as int) {
            Ok(t) => r matches Ok((mw, n)) && n == t.3 && n <= cs@.len()
                && xyz_molecule_from_spans(mw.0, mw.1@, cs@, t),
            Err(x) => r == Err::<((Molecule, Vec<Warning>), usize), ParseError>(x),
        },
{
    assert(cs@.len() == cs.len());
    let (vals, n1) = match scan_usize_line(s, cs, i) {
        Ok(p) => p,
        Err(x) => {
            return Err(x);
        },
    };
    if vals.len() != 1 {
        return Err(ParseError::Error);
    }
    let natoms = vals[0];
    proof {
        lemma_run_end(cs@, n1 as int, CharClass::NotNewline);
    }
    let (t, n2) = match scan_line(cs, n1) {
        Ok(p) => p,
        Err(x) => {
            return Err(x);
        },
    };
    let (atoms, n) = match scan_atoms(s, cs, n2) {
        Ok(p) => p,
        Err(x) => {
            return Err(x);
        },
    };
    if atoms.len() == 0 {
        return Err(ParseError::Error);
    }
    let title = slice_text(s, cs, n1, t);
    let tc = token_chars(s, cs, n1, t);
    let name = if blank_ok(&tc) {
        String::from_str("plain xyz")
    } else {
        title
    };
    let found = atoms.len();
    let mut mol = Molecule::new(name);
    mol.atoms = atoms;
    let w = check_counts(Some((natoms, found)), None);
    Ok(((mol, w), n))
}

/// Reads one XYZ molecule: its atom count, title and atom lines. A count that
/// disagrees with the atom lines gives a warning, not an error.
pub fn read_molecule_xyz(input: &str) -> (r: PResult<'_, (Molecule, Vec<Warning>)>)
    ensures
        match xyz_molecule_at(input@, 0) {
            Ok(t) => r matches Ok((rest, mw)) && rest@ == input@.skip(t.3) && xyz_molecule_from_spans(
                mw.0,
                mw.1@,
                input@,
                t,
            ),
            Err(x) => r == Err::<(&str, (Molecule, Vec<Warning>)), ParseError>(x),
        },
{
    let cs = to_chars(input);
    match scan_molecule(input, &cs, 0) {
        Ok((mw, n)) => Ok((rest_of(input, &cs, n), mw)),
        Err(x) => Err(x),
    }
}

} // verus!
