//! The Tripos MOL2 format: sections opened by `@<TRIPOS>` markers. A molecule
//! is a `MOLECULE` header (title, counts, molecule type, charge type), an
//! `ATOM` section, and optionally a `BOND` section and a `CRYSIN` cell.
use vstd::prelude::*;
use crate::text::{
    ParseError, PResult, CharClass, run_end, lemma_run_end, scan_run, line_end, scan_line,
    to_chars, rest_of, strip_cr, slice_text, token_chars, span_text, spans_view, usize_token,
    is_float_text, is_digits, line_tokens_at, scan_line_tokens, usize_line_at, scan_usize_line,
    usize_of_token, float_text_ok, digits_ok, text_at, match_at, find_from, find_text, eol_len,
    eol_undecided, scan_eol, END_MARK_LINE, chars_eq,
};
use crate::molecule::{
    Atom, Bond, BondKind, Lattice, Molecule, Warning, element_symbol_of, element_symbol_checked,
    count_warnings, check_counts,
};

verus! {

pub const MOLECULE_TAG: &'static str = "@<TRIPOS>MOLECULE";

pub const ATOM_TAG: &'static str = "@<TRIPOS>ATOM";

pub const BOND_TAG: &'static str = "@<TRIPOS>BOND";

pub const CRYSIN_TAG: &'static str = "@<TRIPOS>CRYSIN";

pub const SECTION_TAG: &'static str = "@<TRIPOS>";

/// Whether `t` is an atom type: letters, optionally a point and letters or digits.
pub open spec fn is_mm_type(t: Seq<char>) -> bool {
    let a = run_end(t, 0, CharClass::Alpha);
    a > 0 && (a == t.len() || (t[a] == '.' && a + 1 < t.len() && run_end(
        t,
        a + 1,
        CharClass::Alnum,
    ) == t.len()))
}

/// The element part of an atom type: its leading letters (`"C.ar"` gives `"C"`).
pub open spec fn mm_element(t: Seq<char>) -> Seq<char> {
    t.take(run_end(t, 0, CharClass::Alpha))
}

/// Whether `t` is a non-empty run of letters.
pub open spec fn is_alpha_text(t: Seq<char>) -> bool {
    t.len() > 0 && run_end(t, 0, CharClass::Alpha) == t.len()
}

/// The optional fields of an atom line, from token 6 on: none, or a
/// substructure id and name, then a charge, a status, both, or neither.
pub open spec fn atom_tail_ok(cs: Seq<char>, sp: Seq<(int, int)>) -> bool {
    sp.len() == 6 || (8 <= sp.len() <= 10 && is_digits(span_text(cs, sp[6])) && (sp.len() == 8 || (
    sp.len() == 9 && (is_float_text(span_text(cs, sp[8])) || is_alpha_text(span_text(cs, sp[8]))))
        || (sp.len() == 10 && is_float_text(span_text(cs, sp[8])) && is_alpha_text(
        span_text(cs, sp[9]),
    ))))
}

/// An atom line at `i`: `id name x y z type [subst_id subst_name [charge] [status]]`.
/// Gives the id, the token spans and the index after the line.
pub open spec fn mol2_atom_at(cs: Seq<char>, i: int) -> Result<(nat, Seq<(int, int)>, int), ParseError> {
    match line_tokens_at(cs, i) {
        Err(e) => Err(e),
        Ok((sp, n)) => if sp.len() >= 6 && usize_token(span_text(cs, sp[0])) is Some
            && is_float_text(span_text(cs, sp[2])) && is_float_text(span_text(cs, sp[3]))
            && is_float_text(span_text(cs, sp[4])) && is_mm_type(span_text(cs, sp[5]))
            && atom_tail_ok(cs, sp) {
            Ok((usize_token(span_text(cs, sp[0]))->0, sp, n))
        } else {
            Err(ParseError::Error)
        },
    }
}

/// Atom lines from `i` on, as many as follow each other.
pub open spec fn mol2_atoms_from(cs: Seq<char>, i: int) -> Result<(Seq<(nat, Seq<(int, int)>, int)>, int), ParseError>
    decreases cs.len() - i,
{
    match mol2_atom_at(cs, i) {
        Err(ParseError::Error) => Ok((Seq::empty(), i)),
        Err(x) => Err(x),
        Ok(t) => if i < t.2 <= cs.len() {
            match mol2_atoms_from(cs, t.2) {
                Ok((rest, n)) => Ok((seq![t] + rest, n)),
                Err(x) => Err(x),
            }
        } else {
            Err(ParseError::Failure)
        },
    }
}

/// Whether `a` is the atom that the tokens `sp` of `cs` describe; the atom name
/// becomes the label.
pub open spec fn mol2_atom_from(a: Atom, cs: Seq<char>, sp: Seq<(int, int)>) -> bool {
    &&& a.symbol@ == element_symbol_of(mm_element(span_text(cs, sp[5])))
    &&& a.x@ == span_text(cs, sp[2])
    &&& a.y@ == span_text(cs, sp[3])
    &&& a.z@ == span_text(cs, sp[4])
    &&& a.label matches Some(l) && l@ == span_text(cs, sp[1])
}

fn alpha_text_ok(t: &Vec<char>) -> (r: bool)
    ensures
        r == is_alpha_text(t@),
{
    let e = scan_run(t, 0, CharClass::Alpha);
    t.len() > 0 && e == t.len()
}

/// Where the element part of an atom type ends, if `t` is one.
fn mm_type_split(t: &Vec<char>) -> (r: Option<usize>)
    ensures
        is_mm_type(t@) <==> r is Some,
        r matches Some(a) ==> a == run_end(t@, 0, CharClass::Alpha) && a <= t@.len(),
{
    let a = scan_run(t, 0, CharClass::Alpha);
    if a == 0 {
        return None;
    }
    if a == t.len() {
        return Some(a);
    }
    if t[a] == '.' && a + 1 < t.len() {
        let b = scan_run(t, a + 1, CharClass::Alnum);
        if b == t.len() {
            return Some(a);
        }
    }
    None
}

fn scan_atom(s: &str, cs: &Vec<char>, i: usize) -> (r: Result<((usize, Atom), usize), ParseError>)
    requires
        cs@ == s@,
        i <= cs@.len(),
    ensures
        match mol2_atom_at(cs@, i as int) {
            Ok(t) => r matches Ok((ia, n)) && n == t.2 && i < n <= cs@.len() && ia.0 as nat == t.0
                && mol2_atom_from(ia.1, cs@, t.1),
            Err(x) => r == Err::<((usize, Atom), usize), ParseError>(x),
        },
{
    let (spans, n) = match scan_line_tokens(cs, i) {
        Ok(p) => p,
        Err(e) => {
            return Err(e);
        },
    };
    let ghost sp = spans_view(spans@);
    if spans.len() < 6 {
        return Err(ParseError::Error);
    }
    let t0 = token_chars(s, cs, spans[0].0, spans[0].1);
    let id = match usize_of_token(&t0) {
        Some(v) => v,
        None => {
            return Err(ParseError::Error);
        },
    };
    let t2 = token_chars(s, cs, spans[2].0, spans[2].1);
    let t3 = token_chars(s, cs, spans[3].0, spans[3].1);
    let t4 = token_chars(s, cs, spans[4].0, spans[4].1);
    let t5 = token_chars(s, cs, spans[5].0, spans[5].1);
    if !(float_text_ok(&t2) && float_text_ok(&t3) && float_text_ok(&t4)) {
        return Err(ParseError::Error);
    }
    let a = match mm_type_split(&t5) {
        Some(a) => a,
        None => {
            return Err(ParseError::Error);
        },
    };
    let k = spans.len();
    let tail = if k == 6 {
        true
    } else if 8 <= k && k <= 10 {
        let t6 = token_chars(s, cs, spans[6].0, spans[6].1);
        if !digits_ok(&t6) {
            false
        } else if k == 8 {
            true
        } else {
            let t8 = token_chars(s, cs, spans[8].0, spans[8].1);
            if k == 9 {
                float_text_ok(&t8) || alpha_text_ok(&t8)
            } else {
                let t9 = token_chars(s, cs, spans[9].0, spans[9].1);
                float_text_ok(&t8) && alpha_text_ok(&t9)
            }
        }
    } else {
        false
    };
    if !tail {
        return Err(ParseError::Error);
    }
    let e0 = spans[5].0;
    let el = slice_text(s, cs, e0, e0 + a);
    let elc = token_chars(s, cs, e0, e0 + a);
    assert(elc@ =~= mm_element(t5@));
    let symbol = match element_symbol_checked(el.as_str(), &elc) {
        Some(v) => v,
        None => {
            assert(false);
            return Err(ParseError::Error);
        },
    };
    let atom = Atom {
        symbol,
        x: slice_text(s, cs, spans[2].0, spans[2].1),
        y: slice_text(s, cs, spans[3].0, spans[3].1),
        z: slice_text(s, cs, spans[4].0, spans[4].1),
        label: Some(slice_text(s, cs, spans[1].0, spans[1].1)),
    };
    Ok(((id, atom), n))
}


fn scan_atoms(s: &str, cs: &Vec<char>, i: usize) -> (r: Result<(Vec<usize>, Vec<Atom>, usize), ParseError>)
    requires
        cs@ == s@,
        i <= cs@.len(),
    ensures
        match mol2_atoms_from(cs@, i as int) {
            Ok((ts, n)) => r matches Ok((ids, v, m)) && m == n && i <= n <= cs@.len() && v@.len()
                == ts.len() && ids@.len() == ts.len() && forall|k: int|
                0 <= k < ts.len() ==> (#[trigger] ids@[k]) as nat == ts[k].0 && mol2_atom_from(
                    v@[k],
                    cs@,
                    ts[k].1,
                ),
            Err(x) => r == Err::<(Vec<usize>, Vec<Atom>, usize), ParseError>(x),
        },
{
    let mut ids: Vec<usize> = Vec::new();
    let mut atoms: Vec<Atom> = Vec::new();
    let mut j: usize = i;
    let ghost mut done: Seq<(nat, Seq<(int, int)>, int)> = Seq::empty();
    loop
        invariant
            cs@ == s@,
            i <= j <= cs@.len(),
            atoms@.len() == done.len(),
            ids@.len() == done.len(),
            forall|k: int|
                0 <= k < done.len() ==> (#[trigger] ids@[k]) as nat == done[k].0 && mol2_atom_from(
                    atoms@[k],
                    cs@,
                    done[k].1,
                ),
            match mol2_atoms_from(cs@, j as int) {
                Ok((ts, n)) => mol2_atoms_from(cs@, i as int) == Ok::<
                    (Seq<(nat, Seq<(int, int)>, int)>, int),
                    ParseError,
                >((done + ts, n)),
                Err(x) => mol2_atoms_from(cs@, i as int) == Err::<
                    (Seq<(nat, Seq<(int, int)>, int)>, int),
                    ParseError,
                >(x),
            },
        decreases cs@.len() - j,
    {
        match scan_atom(s, cs, j) {
            Ok((a, n)) => {
                let ghost t = mol2_atom_at(cs@, j as int)->Ok_0;
                proof {
                    match mol2_atoms_from(cs@, n as int) {
                        Ok((ts, m)) => {
                            assert(done + (seq![t] + ts) =~= done.push(t) + ts);
                        },
                        Err(x) => {},
                    }
                    done = done.push(t);
                }
                let (id, atom) = a;
                ids.push(id);
                atoms.push(atom);
                j = n;
            },
            Err(ParseError::Error) => {
                assert(done + Seq::<(nat, Seq<(int, int)>, int)>::empty() =~= done);
                return Ok((ids, atoms, j));
            },
            Err(x) => {
                return Err(x);
            },
        }
    }
}

/// A bond line at `i`: `bond_id atom1 atom2 type [status]`. Gives the two atom
/// ids, the type code (the letters and digits that start the type field) and
/// the index after the line.
pub open spec fn mol2_bond_at(cs: Seq<char>, i: int) -> Result<((nat, nat, Seq<char>), int), ParseError> {
    match line_tokens_at(cs, i) {
        Err(e) => Err(e),
        Ok((sp, n)) => if sp.len() >= 4 && usize_token(span_text(cs, sp[0])) is Some
            && usize_token(span_text(cs, sp[1])) is Some && usize_token(span_text(cs, sp[2])) is Some
            && run_end(span_text(cs, sp[3]), 0, CharClass::Alnum) > 0 {
            Ok(
                (
                    (
                        usize_token(span_text(cs, sp[1]))->0,
                        usize_token(span_text(cs, sp[2]))->0,
                        span_text(cs, sp[3]).take(run_end(span_text(cs, sp[3]), 0, CharClass::Alnum)),
                    ),
                    n,
                ),
            )
        } else {
            Err(ParseError::Error)
        },
    }
}

/// Bond lines from `i` on, as many as follow each other.
pub open spec fn mol2_bonds_from(cs: Seq<char>, i: int) -> Result<(Seq<(nat, nat, Seq<char>)>, int), ParseError>
    decreases cs.len() - i,
{
    match mol2_bond_at(cs, i) {
        Err(ParseError::Error) => Ok((Seq::empty(), i)),
        Err(x) => Err(x),
        Ok((b, n)) => if i < n <= cs.len() {
            match mol2_bonds_from(cs, n) {
                Ok((rest, m)) => Ok((seq![b] + rest, m)),
                Err(x) => Err(x),
            }
        } else {
            Err(ParseError::Failure)
        },
    }
}

pub open spec fn ascii_lower(c: char) -> char {
    if 'A' <= c && c <= 'Z' {
        ((c as u8) + 32) as char
    } else {
        c
    }
}

/// The bond kind of a type code, case ignored: `1`, `2`, `3` single, double,
/// triple; `ar` and `am` aromatic; `nc` dummy; `wc` partial; any other code
/// single.
pub open spec fn mol2_bond_kind(code: Seq<char>) -> BondKind {
    let l = code.map_values(|c: char| ascii_lower(c));
    if l == seq!['2'] {
        BondKind::Double
    } else if l == seq!['3'] {
        BondKind::Triple
    } else if l == seq!['a', 'r'] || l == seq!['a', 'm'] {
        BondKind::Aromatic
    } else if l == seq!['n', 'c'] {
        BondKind::Dummy
    } else if l == seq!['w', 'c'] {
        BondKind::Partial
    } else {
        BondKind::Single
    }
}

fn lower(c: char) -> (r: char)
    ensures
        r == ascii_lower(c),
{
    if 'A' <= c && c <= 'Z' {
        ((c as u8) + 32) as char
    } else {
        c
    }
}

/// Decodes a bond type code; a code it does not know is a single bond.
pub fn bond_kind_of_code(code: &Vec<char>) -> (r: BondKind)
    ensures
        r == mol2_bond_kind(code@),
{
    let ghost l = code@.map_values(|c: char| ascii_lower(c));
    if code.len() == 1 {
        let c = lower(code[0]);
        if c == '2' {
            assert(l =~= seq!['2']);
            return BondKind::Double;
        } else if c == '3' {
            assert(l =~= seq!['3']);
            return BondKind::Triple;
        }
        assert(l != seq!['2'] && l != seq!['3']) by {
            assert(l[0] == c);
        }
        assert(l.len() == 1);
        return BondKind::Single;
    }
    if code.len() == 2 {
        let c0 = lower(code[0]);
        let c1 = lower(code[1]);
        assert(l[0] == c0 && l[1] == c1);
        if c0 == 'a' && (c1 == 'r' || c1 == 'm') {
            assert(l =~= seq!['a', 'r'] || l =~= seq!['a', 'm']);
            return BondKind::Aromatic;
        } else if c0 == 'n' && c1 == 'c' {
            assert(l =~= seq!['n', 'c']);
            return BondKind::Dummy;
        } else if c0 == 'w' && c1 == 'c' {
            assert(l =~= seq!['w', 'c']);
            return BondKind::Partial;
        }
        assert(l != seq!['a', 'r'] && l != seq!['a', 'm'] && l != seq!['n', 'c'] && l != seq!['w', 'c']) by {
            if l == seq!['a', 'r'] {
                assert(l[0] == 'a' && l[1] == 'r');
            }
            if l == seq!['a', 'm'] {
                assert(l[0] == 'a' && l[1] == 'm');
            }
            if l == seq!['n', 'c'] {
                assert(l[0] == 'n' && l[1] == 'c');
            }
            if l == seq!['w', 'c'] {
                assert(l[0] == 'w' && l[1] == 'c');
            }
        }
        assert(l != seq!['2'] && l != seq!['3']) by {
            if l == seq!['2'] || l == seq!['3'] {
                assert(l.len() == 1);
            }
        }
        return BondKind::Single;
    }
    assert(l.len() != 1 && l.len() != 2);
    assert(l != seq!['2'] && l != seq!['3'] && l != seq!['a', 'r'] && l != seq!['a', 'm'] && l
        != seq!['n', 'c'] && l != seq!['w', 'c']) by {
        if l == seq!['2'] || l == seq!['3'] {
            assert(l.len() == 1);
        }
        if l == seq!['a', 'r'] || l == seq!['a', 'm'] || l == seq!['n', 'c'] || l == seq!['w', 'c'] {
            assert(l.len() == 2);
        }
    }
    BondKind::Single
}

fn scan_bond(s: &str, cs: &Vec<char>, i: usize) -> (r: Result<((usize, usize, BondKind), usize), ParseError>)
    requires
        cs@ == s@,
        i <= cs@.len(),
    ensures
        match mol2_bond_at(cs@, i as int) {
            Ok((b, n)) => r matches Ok((x, m)) && m == n && i < n <= cs@.len() && x.0 as nat == b.0
                && x.1 as nat == b.1 && x.2 == mol2_bond_kind(b.2),
            Err(x) => r == Err::<((usize, usize, BondKind), usize), ParseError>(x),
        },
{
    let (spans, n) = match scan_line_tokens(cs, i) {
        Ok(p) => p,
        Err(e) => {
            return Err(e);
        },
    };
    if spans.len() < 4 {
        return Err(ParseError::Error);
    }
    let t0 = token_chars(s, cs, spans[0].0, spans[0].1);
    let t1 = token_chars(s, cs, spans[1].0, spans[1].1);
    let t2 = token_chars(s, cs, spans[2].0, spans[2].1);
    let t3 = token_chars(s, cs, spans[3].0, spans[3].1);
    let _id = match usize_of_token(&t0) {
        Some(v) => v,
        None => {
            return Err(ParseError::Error);
        },
    };
    let p = match usize_of_token(&t1) {
        Some(v) => v,
        None => {
            return Err(ParseError::Error);
        },
    };
    let q = match usize_of_token(&t2) {
        Some(v) => v,
        None => {
            return Err(ParseError::Error);
        },
    };
    let e = scan_run(&t3, 0, CharClass::Alnum);
    if e == 0 {
        return Err(ParseError::Error);
    }
    let code = token_chars(s, cs, spans[3].0, spans[3].0 + e);
    assert(code@ =~= t3@.take(e as int));
    let kind = bond_kind_of_code(&code);
    Ok(((p, q, kind), n))
}

fn scan_bonds(s: &str, cs: &Vec<char>, i: usize) -> (r: Result<(Vec<(usize, usize, BondKind)>, usize), ParseError>)
    requires
        cs@ == s@,
        i <= cs@.len(),
    ensures
        match mol2_bonds_from(cs@, i as int) {
            Ok((ts, n)) => r matches Ok((v, m)) && m == n && i <= n <= cs@.len() && v@.len()
                == ts.len() && forall|k: int|
                0 <= k < ts.len() ==> (#[trigger] v@[k]).0 as nat == ts[k].0 && v@[k].1 as nat
                    == ts[k].1 && v@[k].2 == mol2_bond_kind(ts[k].2),
            Err(x) => r == Err::<(Vec<(usize, usize, BondKind)>, usize), ParseError>(x),
        },
{
    let mut bonds: Vec<(usize, usize, BondKind)> = Vec::new();
    let mut j: usize = i;
    let ghost mut done: Seq<(nat, nat, Seq<char>)> = Seq::empty();
    loop
        invariant
            cs@ == s@,
            i <= j <= cs@.len(),
            bonds@.len() == done.len(),
            forall|k: int|
                0 <= k < done.len() ==> (#[trigger] bonds@[k]).0 as nat == done[k].0 && bonds@[k].1 as nat
                    == done[k].1 && bonds@[k].2 == mol2_bond_kind(done[k].2),
            match mol2_bonds_from(cs@, j as int) {
                Ok((ts, n)) => mol2_bonds_from(cs@, i as int) == Ok::<
                    (Seq<(nat, nat, Seq<char>)>, int),
                    ParseError,
                >((done + ts, n)),
                Err(x) => mol2_bonds_from(cs@, i as int) == Err::<
                    (Seq<(nat, nat, Seq<char>)>, int),
                    ParseError,
                >(x),
            },
        decreases cs@.len() - j,
    {
        match scan_bond(s, cs, j) {
            Ok((b, n)) => {
                let ghost t = mol2_bond_at(cs@, j as int)->Ok_0.0;
                proof {
                    match mol2_bonds_from(cs@, n as int) {
                        Ok((ts, m)) => {
                            assert(done + (seq![t] + ts) =~= done.push(t) + ts);
                        },
                        Err(x) => {},
                    }
                    done = done.push(t);
                }
                bonds.push(b);
                j = n;
            },
            Err(ParseError::Error) => {
                assert(done + Seq::<(nat, nat, Seq<char>)>::empty() =~= done);
                return Ok((bonds, j));
            },
            Err(x) => {
                return Err(x);
            },
        }
    }
}


/// A `CRYSIN` record at `j`: the marker line, then a line with the six cell
/// parameters, the space group and the setting. Gives the six parameters and
/// the index after the record.
pub open spec fn crysin_at(cs: Seq<char>, j: int) -> Result<(Seq<Seq<char>>, int), ParseError> {
    let h = j + CRYSIN_TAG@.len();
    if h > cs.len() {
        Err(ParseError::Incomplete)
    } else if !text_at(cs, j, CRYSIN_TAG@) {
        Err(ParseError::Error)
    } else {
        match line_tokens_at(cs, h) {
            Err(e) => Err(e),
            Ok((sp0, n1)) => if sp0.len() != 0 {
                Err(ParseError::Error)
            } else {
                match line_tokens_at(cs, n1) {
                    Err(e) => Err(e),
                    Ok((sp, n2)) => if sp.len() >= 8 && (forall|q: int|
                        0 <= q < 6 ==> is_float_text(span_text(cs, #[trigger] sp[q])))
                        && usize_token(span_text(cs, sp[6])) is Some && usize_token(
                        span_text(cs, sp[7]),
                    ) is Some {
                        Ok((sp.take(6).map_values(|t: (int, int)| span_text(cs, t)), n2))
                    } else {
                        Err(ParseError::Error)
                    },
                }
            },
        }
    }
}

/// Whether `l` is the cell whose parameters are `p`.
pub open spec fn lattice_from(l: Lattice, p: Seq<Seq<char>>) -> bool {
    &&& l.a@ == p[0]
    &&& l.b@ == p[1]
    &&& l.c@ == p[2]
    &&& l.alpha@ == p[3]
    &&& l.beta@ == p[4]
    &&& l.gamma@ == p[5]
}

fn scan_crysin(s: &str, cs: &Vec<char>, j: usize) -> (r: Result<(Lattice, usize), ParseError>)
    requires
        cs@ == s@,
        j <= cs@.len(),
    ensures
        match crysin_at(cs@, j as int) {
            Ok((p, n)) => r matches Ok((l, m)) && m == n && j < n <= cs@.len() && lattice_from(l, p),
            Err(x) => r == Err::<(Lattice, usize), ParseError>(x),
        },
{
    let tag = to_chars(CRYSIN_TAG);
    assert(cs@.len() == cs.len());
    if tag.len() > cs.len() - j {
        return Err(ParseError::Incomplete);
    }
    if !match_at(cs, j, &tag) {
        return Err(ParseError::Error);
    }
    let h = j + tag.len();
    let (sp0, n1) = match scan_line_tokens(cs, h) {
        Ok(p) => p,
        Err(e) => {
            return Err(e);
        },
    };
    if sp0.len() != 0 {
        return Err(ParseError::Error);
    }
    let (spans, n2) = match scan_line_tokens(cs, n1) {
        Ok(p) => p,
        Err(e) => {
            return Err(e);
        },
    };
    if spans.len() < 8 {
        return Err(ParseError::Error);
    }
    let ghost sp = spans_view(spans@);
    if !leading_floats_ok(s, cs, &spans, 6) {
        return Err(ParseError::Error);
    }
    let t6 = token_chars(s, cs, spans[6].0, spans[6].1);
    let t7 = token_chars(s, cs, spans[7].0, spans[7].1);
    if usize_of_token(&t6).is_none() || usize_of_token(&t7).is_none() {
        return Err(ParseError::Error);
    }
    let l = Lattice {
        a: slice_text(s, cs, spans[0].0, spans[0].1),
        b: slice_text(s, cs, spans[1].0, spans[1].1),
        c: slice_text(s, cs, spans[2].0, spans[2].1),
        alpha: slice_text(s, cs, spans[3].0, spans[3].1),
        beta: slice_text(s, cs, spans[4].0, spans[4].1),
        gamma: slice_text(s, cs, spans[5].0, spans[5].1),
    };
    proof {
        assert(t6@ == span_text(cs@, sp[6]));
        assert(t7@ == span_text(cs@, sp[7]));
        let p = sp.take(6).map_values(|t: (int, int)| span_text(cs@, t));
        assert(crysin_at(cs@, j as int) == Ok::<(Seq<Seq<char>>, int), ParseError>((p, n2 as int)));
        assert(lattice_from(l, p));
    }
    Ok((l, n2))
}

/// Whether the first `count` tokens of `spans` are floating-point literals.
fn leading_floats_ok(s: &str, cs: &Vec<char>, spans: &Vec<(usize, usize)>, count: usize) -> (r: bool)
    requires
        cs@ == s@,
        count <= spans@.len(),
        forall|k: int| 0 <= k < spans@.len() ==> (#[trigger] spans@[k]).0 <= spans@[k].1 <= cs@.len(),
    ensures
        r == forall|k: int| 0 <= k < count ==> is_float_text(span_text(cs@, #[trigger] spans_view(spans@)[k])),
{
    let ghost sp = spans_view(spans@);
    let mut q: usize = 0;
    while q < count
        invariant
            cs@ == s@,
            count <= spans@.len(),
            sp == spans_view(spans@),
            forall|k: int| 0 <= k < spans@.len() ==> (#[trigger] spans@[k]).0 <= spans@[k].1 <= cs@.len(),
            q <= count,
            forall|k: int| 0 <= k < q ==> is_float_text(span_text(cs@, #[trigger] sp[k])),
        decreases count - q,
    {
        let t = token_chars(s, cs, spans[q].0, spans[q].1);
        assert(t@ == span_text(cs@, sp[q as int]));
        if !float_text_ok(&t) {
            return false;
        }
        q = q + 1;
    }
    true
}

/// The first line from `j` on that starts a section (`Ok((k, true))`) or is
/// the end mark (`Ok((k, false))`); `k` is where that line starts.
pub open spec fn mol2_section_at(cs: Seq<char>, j: int) -> Result<(int, bool), ParseError>
    decreases cs.len() - j,
{
    let e = line_end(cs, j);
    if !(0 <= j <= e < cs.len()) {
        Err(ParseError::Incomplete)
    } else if text_at(cs, j, SECTION_TAG@) {
        Ok((j, true))
    } else if cs.subrange(j, e) == END_MARK_LINE@ {
        Ok((j, false))
    } else {
        mol2_section_at(cs, e + 1)
    }
}

fn scan_section(cs: &Vec<char>, j: usize) -> (r: Result<(usize, bool), ParseError>)
    requires
        j <= cs@.len(),
    ensures
        match mol2_section_at(cs@, j as int) {
            Ok((k, f)) => r matches Ok((m, g)) && m == k && g == f && j <= k <= cs@.len(),
            Err(x) => r == Err::<(usize, bool), ParseError>(x),
        },
{
    let sec = to_chars(SECTION_TAG);
    let mark = to_chars(END_MARK_LINE);
    let mut i: usize = j;
    loop
        invariant
            j <= i <= cs@.len(),
            sec@ == SECTION_TAG@,
            mark@ == END_MARK_LINE@,
            mol2_section_at(cs@, i as int) == mol2_section_at(cs@, j as int),
        decreases cs@.len() - i,
    {
        proof {
            lemma_run_end(cs@, i as int, CharClass::NotNewline);
        }
        match scan_line(cs, i) {
            Ok((_t, n)) => {
                let e = n - 1;
                if match_at(cs, i, &sec) {
                    return Ok((i, true));
                }
                let line = copy_range(cs, i, e);
                if chars_eq(&line, &mark) {
                    return Ok((i, false));
                }
                i = n;
            },
            Err(x) => {
                return Err(x);
            },
        }
    }
}

/// A copy of `cs[a..b]`.
fn copy_range(cs: &Vec<char>, a: usize, b: usize) -> (r: Vec<char>)
    requires
        a <= b <= cs@.len(),
    ensures
        r@ == cs@.subrange(a as int, b as int),
{
    let mut v: Vec<char> = Vec::new();
    let mut k: usize = a;
    while k < b
        invariant
            a <= k <= b <= cs@.len(),
            v@ == cs@.subrange(a as int, k as int),
        decreases b - k,
    {
        v.push(cs[k]);
        assert(v@ =~= cs@.subrange(a as int, k + 1));
        k = k + 1;
    }
    v
}



/// What follows the atoms at `j`: the bonds, the cell parameters where a
/// `CRYSIN` record follows, and the index where the molecule ends. Lines up
/// to the next section marker (or the end mark) are skipped; a `BOND` section
/// is read, then a `CRYSIN` record directly after it.
pub open spec fn mol2_tail_at(cs: Seq<char>, j: int) -> Result<
    (Seq<(nat, nat, Seq<char>)>, Option<Seq<Seq<char>>>, int),
    ParseError,
> {
    match mol2_section_at(cs, j) {
        Err(e) => Err(e),
        Ok((k, found)) => if !found {
            Ok((Seq::empty(), None, k))
        } else if text_at(cs, k, BOND_TAG@) {
            let w = run_end(cs, k + BOND_TAG@.len(), CharClass::Whitespace);
            if w == cs.len() {
                Err(ParseError::Incomplete)
            } else {
                match mol2_bonds_from(cs, w) {
                    Err(e) => Err(e),
                    Ok((bs, nb)) => match crysin_at(cs, nb) {
                        Ok((lat, nl)) => Ok((bs, Some(lat), nl)),
                        Err(ParseError::Error) => Ok((bs, None, nb)),
                        Err(e) => Err(e),
                    },
                }
            }
        } else {
            match crysin_at(cs, k) {
                Ok((lat, nl)) => Ok((Seq::empty(), Some(lat), nl)),
                Err(ParseError::Error) => Ok((Seq::empty(), None, k)),
                Err(e) => Err(e),
            }
        },
    }
}

/// The index of the last atom whose id is `id`, among the first `n`.
pub open spec fn id_index(ids: Seq<nat>, n: int, id: nat) -> Option<int>
    decreases n,
{
    if n <= 0 || n > ids.len() {
        None
    } else if ids[n - 1] == id {
        Some(n - 1)
    } else {
        id_index(ids, n - 1, id)
    }
}

/// Where a MOL2 molecule's parts lie: the title's span, the counts, the
/// atom lines, the bond lines, the cell parameters, and the index after it.
pub type Mol2Spans = (
    (int, int),
    Seq<nat>,
    Seq<(nat, Seq<(int, int)>, int)>,
    Seq<(nat, nat, Seq<char>)>,
    Option<Seq<Seq<char>>>,
    int,
);

pub open spec fn atom_ids(atoms: Seq<(nat, Seq<(int, int)>, int)>) -> Seq<nat> {
    atoms.map_values(|t: (nat, Seq<(int, int)>, int)| t.0)
}

/// A MOL2 molecule from `i` on: anything up to the `MOLECULE` marker, the
/// title line, the counts line, the molecule and charge type lines, the
/// `ATOM` marker and one or more atom lines, then what `mol2_tail_at` reads.
/// A bond that names an unknown atom id is a `Failure`.
pub open spec fn mol2_molecule_at(cs: Seq<char>, i: int) -> Result<Mol2Spans, ParseError> {
    match mol2_header_at(cs, i) {
        Err(e) => Err(e),
        Ok((title, counts, k)) => match mol2_atoms_from(cs, k) {
            Err(e) => Err(e),
            Ok((atoms, na)) => if atoms.len() == 0 {
                Err(ParseError::Error)
            } else {
                match mol2_tail_at(cs, na) {
                    Err(e) => Err(e),
                    Ok((bonds, lat, n)) => if exists|q: int|
                        0 <= q < bonds.len() && (id_index(
                            atom_ids(atoms),
                            atoms.len() as int,
                            (#[trigger] bonds[q]).0,
                        ) is None || id_index(atom_ids(atoms), atoms.len() as int, bonds[q].1) is None) {
                        Err(ParseError::Failure)
                    } else {
                        Ok((title, counts, atoms, bonds, lat, n))
                    },
                }
            },
        },
    }
}

/// The header of a MOL2 molecule from `i` on: anything up to the `MOLECULE`
/// marker, the title line (its span, leading spaces left out), the counts
/// line, the molecule and charge type lines, and the `ATOM` marker. Gives the
/// index where the atom lines start.
pub open spec fn mol2_header_at(cs: Seq<char>, i: int) -> Result<((int, int), Seq<nat>, int), ParseError> {
    match find_from(cs, i, MOLECULE_TAG@) {
        None => Err(ParseError::Incomplete),
        Some(m) => {
            let h = m + MOLECULE_TAG@.len();
            if eol_undecided(cs, h) {
                Err(ParseError::Incomplete)
            } else if eol_len(cs, h) == 0 {
                Err(ParseError::Error)
            } else {
                let a = run_end(cs, h + eol_len(cs, h), CharClass::InlineSpace);
                let le = line_end(cs, a);
                if le == cs.len() {
                    Err(ParseError::Incomplete)
                } else {
                    match usize_line_at(cs, le + 1) {
                        Err(e) => Err(e),
                        Ok((counts, n1)) => {
                            let l2 = line_end(cs, n1);
                            let l3 = line_end(cs, l2 + 1);
                            if l2 == cs.len() || l3 == cs.len() {
                                Err(ParseError::Incomplete)
                            } else {
                                let w = run_end(cs, l3 + 1, CharClass::Whitespace);
                                if w + ATOM_TAG@.len() > cs.len() {
                                    Err(ParseError::Incomplete)
                                } else if !text_at(cs, w, ATOM_TAG@) {
                                    Err(ParseError::Error)
                                } else {
                                    let k = run_end(cs, w + ATOM_TAG@.len(), CharClass::Whitespace);
                                    if k == cs.len() {
                                        Err(ParseError::Incomplete)
                                    } else {
                                        Ok(((a, le), counts, k))
                                    }
                                }
                            }
                        },
                    }
                }
            }
        },
    }
}

/// Whether `m` and the warnings `w` are what the parts `t` of `cs` describe.
/// A bond's atoms are found by id; where ids repeat, the last such atom counts.
pub open spec fn mol2_molecule_from(m: Molecule, w: Seq<Warning>, cs: Seq<char>, t: Mol2Spans) -> bool {
    let ids = atom_ids(t.2);
    &&& m.name@ == strip_cr(cs.subrange(t.0.0, t.0.1))
    &&& m.atoms@.len() == t.2.len()
    &&& forall|k: int| 0 <= k < t.2.len() ==> mol2_atom_from(#[trigger] m.atoms@[k], cs, t.2[k].1)
    &&& m.bonds@.len() == t.3.len()
    &&& forall|k: int|
        0 <= k < t.3.len() ==> Some((#[trigger] m.bonds@[k]).0 as int) == id_index(
            ids,
            t.2.len() as int,
            t.3[k].0,
        ) && Some(m.bonds@[k].1 as int) == id_index(ids, t.2.len() as int, t.3[k].1)
            && m.bonds@[k].2.kind == mol2_bond_kind(t.3[k].2)
    &&& match t.4 {
        Some(p) => m.lattice matches Some(l) && lattice_from(l, p),
        None => m.lattice is None,
    }
    &&& !m.fractional
    &&& m.wf()
    &&& w == count_warnings(
        Some((t.1[0] as usize, t.2.len() as usize)),
        if t.1.len() >= 2 {
            Some((t.1[1] as usize, t.3.len() as usize))
        } else {
            None
        },
    )
}

fn scan_tail(s: &str, cs: &Vec<char>, j: usize) -> (r: Result<(Vec<(usize, usize, BondKind)>, Option<Lattice>, usize), ParseError>)
    requires
        cs@ == s@,
        j <= cs@.len(),
    ensures
        match mol2_tail_at(cs@, j as int) {
            Ok((bs, lat, n)) => r matches Ok((v, l, m)) && m == n && n <= cs@.len() && v@.len()
                == bs.len() && (forall|k: int|
                0 <= k < bs.len() ==> (#[trigger] v@[k]).0 as nat == bs[k].0 && v@[k].1 as nat
                    == bs[k].1 && v@[k].2 == mol2_bond_kind(bs[k].2)) && match lat {
                Some(p) => l matches Some(x) && lattice_from(x, p),
                None => l is None,
            },
            Err(x) => r == Err::<(Vec<(usize, usize, BondKind)>, Option<Lattice>, usize), ParseError>(x),
        },
{
    let (k, found) = match scan_section(cs, j) {
        Ok(p) => p,
        Err(e) => {
            return Err(e);
        },
    };
    if !found {
        return Ok((Vec::new(), None, k));
    }
    let btag = to_chars(BOND_TAG);
    assert(cs@.len() == cs.len());
    if match_at(cs, k, &btag) {
        let w = scan_run(cs, k + btag.len(), CharClass::Whitespace);
        if w == cs.len() {
            return Err(ParseError::Incomplete);
        }
        let (bonds, nb) = match scan_bonds(s, cs, w) {
            Ok(p) => p,
            Err(e) => {
                return Err(e);
            },
        };
        match scan_crysin(s, cs, nb) {
            Ok((l, nl)) => Ok((bonds, Some(l), nl)),
            Err(ParseError::Error) => Ok((bonds, None, nb)),
            Err(e) => Err(e),
        }
    } else {
        match scan_crysin(s, cs, k) {
            Ok((l, nl)) => Ok((Vec::new(), Some(l), nl)),
            Err(ParseError::Error) => Ok((Vec::new(), None, k)),
            Err(e) => Err(e),
        }
    }
}

/// The index of the last of the first `atoms.len()` atoms whose id is `id`.
fn find_id(atoms: &Vec<usize>, id: usize) -> (r: Option<usize>)
    ensures
        match id_index(atoms@.map_values(|a: usize| a as nat), atoms@.len() as int, id as nat) {
            Some(k) => r == Some(k as usize) && 0 <= k < atoms@.len(),
            None => r is None,
        },
{
    let ghost ids = atoms@.map_values(|a: usize| a as nat);
    let mut n: usize = atoms.len();
    while n > 0
        invariant
            n <= atoms@.len(),
            ids == atoms@.map_values(|a: usize| a as nat),
            id_index(ids, n as int, id as nat) == id_index(ids, atoms@.len() as int, id as nat),
        decreases n,
    {
        if atoms[n - 1] == id {
            return Some(n - 1);
        }
        n = n - 1;
    }
    None
}


fn scan_header(s: &str, cs: &Vec<char>, i: usize) -> (r: Result<(usize, usize, Vec<usize>, usize), ParseError>)
    requires
        cs@ == s@,
        i <= cs@.len(),
    ensures
        match mol2_header_at(cs@, i as int) {
            Ok((title, counts, k)) => r matches Ok((a, te, cv, kk)) && kk == k && k <= cs@.len()
                && a == title.0 && a <= te <= title.1 <= cs@.len() && cs@.subrange(a as int, te as int)
                == strip_cr(cs@.subrange(title.0, title.1)) && cv@.len() == counts.len() && counts.len() >= 1
                && forall|q: int| 0 <= q < counts.len() ==> counts[q] == (#[trigger] cv@[q]) as nat,
            Err(x) => r == Err::<(usize, usize, Vec<usize>, usize), ParseError>(x),
        },
{
    assert(cs@.len() == cs.len());
    let mtag = to_chars(MOLECULE_TAG);
    let m = match find_text(cs, i, &mtag) {
        Some(m) => m,
        None => {
            return Err(ParseError::Incomplete);
        },
    };
    let h = m + mtag.len();
    let t0 = match scan_eol(cs, h) {
        Ok(p) => p,
        Err(e) => {
            return Err(e);
        },
    };
    let a = scan_run(cs, t0, CharClass::InlineSpace);
    proof {
        lemma_run_end(cs@, t0 as int, CharClass::InlineSpace);
        lemma_run_end(cs@, a as int, CharClass::NotNewline);
    }
    let (te, n0) = match scan_line(cs, a) {
        Ok(p) => p,
        Err(e) => {
            return Err(e);
        },
    };
    let (counts, n1) = match scan_usize_line(s, cs, n0) {
        Ok(p) => p,
        Err(e) => {
            return Err(e);
        },
    };
    proof {
        lemma_run_end(cs@, n1 as int, CharClass::NotNewline);
    }
    let (_t2, n2) = match scan_line(cs, n1) {
        Ok(p) => p,
        Err(e) => {
            return Err(e);
        },
    };
    proof {
        lemma_run_end(cs@, n2 as int, CharClass::NotNewline);
    }
    let (_t3, n3) = match scan_line(cs, n2) {
        Ok(p) => p,
        Err(e) => {
            return Err(e);
        },
    };
    let w = scan_run(cs, n3, CharClass::Whitespace);
    let atag = to_chars(ATOM_TAG);
    if atag.len() > cs.len() - w {
        return Err(ParseError::Incomplete);
    }
    if !match_at(cs, w, &atag) {
        return Err(ParseError::Error);
    }
    let k = scan_run(cs, w + atag.len(), CharClass::Whitespace);
    if k == cs.len() {
        return Err(ParseError::Incomplete);
    }
    Ok((a, te, counts, k))
}

pub fn scan_molecule(s: &str, cs: &Vec<char>, i: usize) -> (r: Result<((Molecule, Vec<Warning>), usize), ParseError>)
    requires
        cs@ == s@,
        i <= cs@.len(),
    ensures
        match mol2_molecule_at(cs@, i as int) {
            Ok(t) => r matches Ok((mw, n)) && n == t.5 && n <= cs@.len() && mol2_molecule_from(
                mw.0,
                mw.1@,
                cs@,
                t,
            ),
            Err(x) => r == Err::<((Molecule, Vec<Warning>), usize), ParseError>(x),
        },
{
    let (a, te, counts, k) = match scan_header(s, cs, i) {
        Ok(p) => p,
        Err(e) => {
            return Err(e);
        },
    };
    let (ids, atoms, na) = match scan_atoms(s, cs, k) {
        Ok(p) => p,
        Err(e) => {
            return Err(e);
        },
    };
    if atoms.len() == 0 {
        return Err(ParseError::Error);
    }
    let (bonds, lattice, n) = match scan_tail(s, cs, na) {
        Ok(p) => p,
        Err(e) => {
            return Err(e);
        },
    };
    let ghost ta = mol2_atoms_from(cs@, k as int)->Ok_0.0;
    let ghost tb = mol2_tail_at(cs@, na as int)->Ok_0.0;
    assert(ids@.map_values(|a: usize| a as nat) =~= atom_ids(ta));
    let title = slice_text(s, cs, a, te);
    let ghost atoms_v = atoms@;
    let ghost ids_v = ids@;
    let r = assemble(title, ids, atoms, &bonds, lattice, &counts);
    proof {
        let good = forall|q: int|
            0 <= q < tb.len() ==> !(id_index(atom_ids(ta), ta.len() as int, (#[trigger] tb[q]).0) is None
                || id_index(atom_ids(ta), ta.len() as int, tb[q].1) is None);
        assert(good <==> forall|q: int|
            0 <= q < bonds@.len() ==> id_index(
                atom_ids(ta),
                ta.len() as int,
                (#[trigger] bonds@[q]).0 as nat,
            ) is Some && id_index(atom_ids(ta), ta.len() as int, bonds@[q].1 as nat) is Some) by {
            if good {
                assert forall|q: int| 0 <= q < bonds@.len() implies id_index(
                    atom_ids(ta),
                    ta.len() as int,
                    (#[trigger] bonds@[q]).0 as nat,
                ) is Some && id_index(atom_ids(ta), ta.len() as int, bonds@[q].1 as nat) is Some by {
                    assert(tb[q].0 == bonds@[q].0 as nat && tb[q].1 == bonds@[q].1 as nat);
                }
            } else {
                let q = choose|q: int|
                    0 <= q < tb.len() && (id_index(atom_ids(ta), ta.len() as int, (#[trigger] tb[q]).0) is None
                        || id_index(atom_ids(ta), ta.len() as int, tb[q].1) is None);
                assert(tb[q].0 == bonds@[q].0 as nat && tb[q].1 == bonds@[q].1 as nat);
            }
        }
        if good {
            let mw = r->Ok_0;
            assert(mol2_molecule_at(cs@, i as int) is Ok);
            let t = mol2_molecule_at(cs@, i as int)->Ok_0;
            assert(t.2 == ta && t.3 == tb && t.5 == n);
            let hd = mol2_header_at(cs@, i as int)->Ok_0;
            assert(t.0 == hd.0 && t.1 == hd.1);
            assert(t.4 == mol2_tail_at(cs@, na as int)->Ok_0.1);
            assert(t.1.len() == counts@.len());
            assert(forall|k: int| 0 <= k < t.1.len() ==> t.1[k] == counts@[k] as nat);
            assert(mw.0.name@ == strip_cr(cs@.subrange(t.0.0, t.0.1)));
            assert(mw.1@ == count_warnings(
                Some((t.1[0] as usize, t.2.len() as usize)),
                if t.1.len() >= 2 {
                    Some((t.1[1] as usize, t.3.len() as usize))
                } else {
                    None
                },
            ));
            assert forall|k: int| 0 <= k < t.2.len() implies mol2_atom_from(
                #[trigger] mw.0.atoms@[k],
                cs@,
                t.2[k].1,
            ) by {
                assert(ids_v[k] as nat == ta[k].0);
            }
            assert(mol2_molecule_from(mw.0, mw.1@, cs@, t));
        }
    }
    match r {
        Ok(mw) => Ok((mw, n)),
        Err(e) => Err(e),
    }
}

/// Builds a molecule from its parts: the atoms in order, and each bond's
/// atoms found by id (the last atom with that id). A bond that names an id
/// no atom has gives `Failure`.
pub fn assemble(
    title: String,
    ids: Vec<usize>,
    atoms: Vec<Atom>,
    bonds: &Vec<(usize, usize, BondKind)>,
    lattice: Option<Lattice>,
    counts: &Vec<usize>,
) -> (r: Result<(Molecule, Vec<Warning>), ParseError>)
    requires
        ids@.len() == atoms@.len(),
        counts@.len() >= 1,
    ensures
        (forall|q: int|
            0 <= q < bonds@.len() ==> id_index(
                ids@.map_values(|a: usize| a as nat),
                ids@.len() as int,
                (#[trigger] bonds@[q]).0 as nat,
            ) is Some && id_index(ids@.map_values(|a: usize| a as nat), ids@.len() as int, bonds@[q].1 as nat)
                is Some) <==> r is Ok,
        r is Err ==> r == Err::<(Molecule, Vec<Warning>), ParseError>(ParseError::Failure),
        r matches Ok((m, w)) ==> {
            &&& m.name == title
            &&& m.atoms@ == atoms@
            &&& m.bonds@.len() == bonds@.len()
            &&& forall|k: int|
                0 <= k < bonds@.len() ==> Some((#[trigger] m.bonds@[k]).0 as int) == id_index(
                    ids@.map_values(|a: usize| a as nat),
                    ids@.len() as int,
                    bonds@[k].0 as nat,
                ) && Some(m.bonds@[k].1 as int) == id_index(
                    ids@.map_values(|a: usize| a as nat),
                    ids@.len() as int,
                    bonds@[k].1 as nat,
                ) && m.bonds@[k].2.kind == bonds@[k].2
            &&& m.lattice == lattice
            &&& !m.fractional
            &&& m.wf()
            &&& w@ == count_warnings(
                Some((counts@[0], atoms@.len() as usize)),
                if counts@.len() >= 2 {
                    Some((counts@[1], bonds@.len() as usize))
                } else {
                    None
                },
            )
        },
{
    let ghost tids = ids@.map_values(|a: usize| a as nat);
    let natoms = atoms.len();
    let ghost atoms_v = atoms@;
    let mut mol = Molecule::new(title);
    mol.atoms = atoms;
    let mut q: usize = 0;
    while q < bonds.len()
        invariant
            natoms == ids@.len(),
            mol.atoms@ == atoms_v,
            atoms_v.len() == natoms,
            q <= bonds@.len(),
            mol.bonds@.len() == q,
            mol.name == title,
            mol.lattice is None,
            !mol.fractional,
            mol.wf(),
            tids == ids@.map_values(|a: usize| a as nat),
            forall|k: int|
                0 <= k < q ==> Some((#[trigger] mol.bonds@[k]).0 as int) == id_index(
                    tids,
                    natoms as int,
                    bonds@[k].0 as nat,
                ) && Some(mol.bonds@[k].1 as int) == id_index(tids, natoms as int, bonds@[k].1 as nat)
                    && mol.bonds@[k].2.kind == bonds@[k].2,
            forall|k: int|
                0 <= k < q ==> id_index(tids, natoms as int, (#[trigger] bonds@[k]).0 as nat) is Some
                    && id_index(tids, natoms as int, bonds@[k].1 as nat) is Some,
        decreases bonds@.len() - q,
    {
        let (p, pq, kind) = bonds[q];
        let ip = match find_id(&ids, p) {
            Some(x) => x,
            None => {
                return Err(ParseError::Failure);
            },
        };
        let iq = match find_id(&ids, pq) {
            Some(x) => x,
            None => {
                return Err(ParseError::Failure);
            },
        };
        mol.add_bond(ip, iq, Bond { kind });
        q = q + 1;
    }
    let nbonds = bonds.len();
    mol.lattice = lattice;
    let w = if counts.len() >= 2 {
        check_counts(Some((counts[0], natoms)), Some((counts[1], nbonds)))
    } else {
        check_counts(Some((counts[0], natoms)), None)
    };
    Ok((mol, w))
}

/// Reads one MOL2 molecule. Text before its `MOLECULE` marker is skipped; it
/// ends where the next section marker after its atoms, bonds and cell stands,
/// or at the end mark. Counts that disagree with what was read give warnings.
pub fn read_molecule_mol2(input: &str) -> (r: PResult<'_, (Molecule, Vec<Warning>)>)
    ensures
        match mol2_molecule_at(input@, 0) {
            Ok(t) => r matches Ok((rest, mw)) && rest@ == input@.skip(t.5) && mol2_molecule_from(
                mw.0,
                mw.1@,
                input@,
                t,
            ),
            Err(x) => r == Err::<(&str, (Molecule, Vec<Warning>)), ParseError>(x),
        },
{
    let cs = to_chars(input);
    match scan_molecule(input, &cs, 0) {
        Ok((mw, n)) => Ok((rest_of(input, &cs, n), mw)),
        Err(x) => Err(x),
    }
}


/// An atom type at the start of `cs`: letters, then optionally a point and
/// letters or digits (`"C.ar"`, `"C.3"`, `"Cl"`). Gives the element, the
/// subtype and the index after them.
pub open spec fn mm_type_at(cs: Seq<char>) -> Result<(Seq<char>, Option<Seq<char>>, int), ParseError> {
    let a = run_end(cs, 0, CharClass::Alpha);
    if a == cs.len() {
        Err(ParseError::Incomplete)
    } else if a == 0 {
        Err(ParseError::Error)
    } else if cs[a] == '.' {
        let b = run_end(cs, a + 1, CharClass::Alnum);
        if b == cs.len() {
            Err(ParseError::Incomplete)
        } else if b > a + 1 {
            Ok((cs.take(a), Some(cs.subrange(a + 1, b)), b))
        } else {
            Ok((cs.take(a), None, a))
        }
    } else {
        Ok((cs.take(a), None, a))
    }
}

/// Reads an atom type: `"C.ar\n"` gives `("C", Some("ar"))`.
pub fn mm_type(input: &str) -> (r: PResult<'_, (String, Option<String>)>)
    ensures
        match mm_type_at(input@) {
            Ok((e, t, n)) => r matches Ok((rest, x)) && x.0@ == e && rest@ == input@.skip(n) && match t {
                Some(tt) => x.1 matches Some(y) && y@ == tt,
                None => x.1 is None,
            },
            Err(err) => r == Err::<(&str, (String, Option<String>)), ParseError>(err),
        },
{
    let cs = to_chars(input);
    assert(cs@.len() == cs.len());
    let a = scan_run(&cs, 0, CharClass::Alpha);
    if a == cs.len() {
        return Err(ParseError::Incomplete);
    }
    if a == 0 {
        return Err(ParseError::Error);
    }
    let el = slice_text(input, &cs, 0, a);
    assert(el@ =~= input@.take(a as int));
    if cs[a] == '.' {
        let b = scan_run(&cs, a + 1, CharClass::Alnum);
        if b == cs.len() {
            return Err(ParseError::Incomplete);
        }
        if b > a + 1 {
            let sub = slice_text(input, &cs, a + 1, b);
            return Ok((rest_of(input, &cs, b), (el, Some(sub))));
        }
    }
    Ok((rest_of(input, &cs, a), (el, None)))
}

/// Reads one atom line: its id and the atom.
pub fn read_atom_record(input: &str) -> (r: PResult<'_, (usize, Atom)>)
    ensures
        match mol2_atom_at(input@, 0) {
            Ok(t) => r matches Ok((rest, ia)) && rest@ == input@.skip(t.2) && ia.0 as nat == t.0
                && mol2_atom_from(ia.1, input@, t.1),
            Err(x) => r == Err::<(&str, (usize, Atom)), ParseError>(x),
        },
{
    let cs = to_chars(input);
    match scan_atom(input, &cs, 0) {
        Ok((ia, n)) => Ok((rest_of(input, &cs, n), ia)),
        Err(x) => Err(x),
    }
}

/// Reads one bond line: the two atom ids and the bond.
pub fn read_bond_record(input: &str) -> (r: PResult<'_, (usize, usize, Bond)>)
    ensures
        match mol2_bond_at(input@, 0) {
            Ok((b, n)) => r matches Ok((rest, x)) && rest@ == input@.skip(n) && x.0 as nat == b.0
                && x.1 as nat == b.1 && x.2.kind == mol2_bond_kind(b.2),
            Err(e) => r == Err::<(&str, (usize, usize, Bond)), ParseError>(e),
        },
{
    let cs = to_chars(input);
    match scan_bond(input, &cs, 0) {
        Ok(((p, q, kind), n)) => Ok((rest_of(input, &cs, n), (p, q, Bond { kind }))),
        Err(x) => Err(x),
    }
}

/// A marked section at `i`: whitespace, the marker `tag`, whitespace; the
/// index after.
pub open spec fn marker_at(cs: Seq<char>, i: int, tag: Seq<char>) -> Result<int, ParseError> {
    let w = run_end(cs, i, CharClass::Whitespace);
    if w + tag.len() > cs.len() {
        Err(ParseError::Incomplete)
    } else if !text_at(cs, w, tag) {
        Err(ParseError::Error)
    } else {
        let k = run_end(cs, w + tag.len(), CharClass::Whitespace);
        if k == cs.len() {
            Err(ParseError::Incomplete)
        } else {
            Ok(k)
        }
    }
}

fn scan_marker(cs: &Vec<char>, i: usize, tag: &str) -> (r: Result<usize, ParseError>)
    requires
        i <= cs@.len(),
    ensures
        match marker_at(cs@, i as int, tag@) {
            Ok(k) => r == Ok::<usize, ParseError>(k as usize) && i <= k <= cs@.len(),
            Err(e) => r == Err::<usize, ParseError>(e),
        },
{
    assert(cs@.len() == cs.len());
    let tc = to_chars(tag);
    let w = scan_run(cs, i, CharClass::Whitespace);
    if tc.len() > cs.len() - w {
        return Err(ParseError::Incomplete);
    }
    if !match_at(cs, w, &tc) {
        return Err(ParseError::Error);
    }
    let k = scan_run(cs, w + tc.len(), CharClass::Whitespace);
    if k == cs.len() {
        return Err(ParseError::Incomplete);
    }
    Ok(k)
}

/// Reads an `ATOM` section: the marker and one or more atom lines.
pub fn read_atoms(input: &str) -> (r: PResult<'_, Vec<(usize, Atom)>>)
    ensures
        match marker_at(input@, 0, ATOM_TAG@) {
            Err(e) => r == Err::<(&str, Vec<(usize, Atom)>), ParseError>(e),
            Ok(k) => match mol2_atoms_from(input@, k) {
                Err(e) => r == Err::<(&str, Vec<(usize, Atom)>), ParseError>(e),
                Ok((ts, n)) => if ts.len() == 0 {
                    r == Err::<(&str, Vec<(usize, Atom)>), ParseError>(ParseError::Error)
                } else {
                    r matches Ok((rest, v)) && rest@ == input@.skip(n) && v@.len() == ts.len() && forall|q: int|
                        0 <= q < ts.len() ==> (#[trigger] v@[q]).0 as nat == ts[q].0 && mol2_atom_from(
                            v@[q].1,
                            input@,
                            ts[q].1,
                        )
                },
            },
        },
{
    let cs = to_chars(input);
    let k = match scan_marker(&cs, 0, ATOM_TAG) {
        Ok(k) => k,
        Err(e) => {
            return Err(e);
        },
    };
    let (ids, atoms, n) = match scan_atoms(input, &cs, k) {
        Ok(x) => x,
        Err(e) => {
            return Err(e);
        },
    };
    if atoms.len() == 0 {
        return Err(ParseError::Error);
    }
    let mut out: Vec<(usize, Atom)> = Vec::new();
    let mut atoms = atoms;
    let ghost av = atoms@;
    let ghost ts = mol2_atoms_from(cs@, k as int)->Ok_0.0;
    let mut rev: Vec<(usize, Atom)> = Vec::new();
    while atoms.len() > 0
        invariant
            atoms@ == av.take(atoms@.len() as int),
            av.len() == ids@.len(),
            av.len() == ts.len(),
            rev@.len() + atoms@.len() == av.len(),
            forall|j: int| 0 <= j < rev@.len() ==> (#[trigger] rev@[j]).1 == av[av.len() - 1 - j]
                && rev@[j].0 == ids@[av.len() - 1 - j],
        decreases atoms@.len(),
    {
        let a = atoms.pop().unwrap();
        let i = atoms.len();
        rev.push((ids[i], a));
    }
    while rev.len() > 0
        invariant
            av.len() == ids@.len(),
            rev@.len() + out@.len() == av.len(),
            forall|j: int| 0 <= j < rev@.len() ==> (#[trigger] rev@[j]).1 == av[av.len() - 1 - j]
                && rev@[j].0 == ids@[av.len() - 1 - j],
            forall|j: int| 0 <= j < out@.len() ==> (#[trigger] out@[j]).1 == av[j] && out@[j].0 == ids@[j],
        decreases rev@.len(),
    {
        let x = rev.pop().unwrap();
        out.push(x);
    }
    proof {
        assert forall|j: int| 0 <= j < ts.len() implies (#[trigger] out@[j]).0 as nat == ts[j].0
            && mol2_atom_from(out@[j].1, cs@, ts[j].1) by {
            assert(ids@[j] as nat == ts[j].0);
        }
    }
    Ok((rest_of(input, &cs, n), out))
}

/// Reads a `BOND` section: the marker and the bond lines that follow.
pub fn get_bonds_from(input: &str) -> (r: PResult<'_, Vec<(usize, usize, Bond)>>)
    ensures
        match marker_at(input@, 0, BOND_TAG@) {
            Err(e) => r == Err::<(&str, Vec<(usize, usize, Bond)>), ParseError>(e),
            Ok(k) => match mol2_bonds_from(input@, k) {
                Err(e) => r == Err::<(&str, Vec<(usize, usize, Bond)>), ParseError>(e),
                Ok((bs, n)) => r matches Ok((rest, v)) && rest@ == input@.skip(n) && v@.len() == bs.len()
                    && forall|q: int|
                    0 <= q < bs.len() ==> (#[trigger] v@[q]).0 as nat == bs[q].0 && v@[q].1 as nat
                        == bs[q].1 && v@[q].2.kind == mol2_bond_kind(bs[q].2),
            },
        },
{
    let cs = to_chars(input);
    let k = match scan_marker(&cs, 0, BOND_TAG) {
        Ok(k) => k,
        Err(e) => {
            return Err(e);
        },
    };
    let (bonds, n) = match scan_bonds(input, &cs, k) {
        Ok(x) => x,
        Err(e) => {
            return Err(e);
        },
    };
    let mut out: Vec<(usize, usize, Bond)> = Vec::new();
    let mut q: usize = 0;
    while q < bonds.len()
        invariant
            q <= bonds@.len(),
            out@.len() == q,
            forall|j: int| 0 <= j < q ==> (#[trigger] out@[j]).0 == bonds@[j].0 && out@[j].1 == bonds@[j].1
                && out@[j].2.kind == bonds@[j].2,
        decreases bonds@.len() - q,
    {
        let (a, b, kind) = bonds[q];
        out.push((a, b, Bond { kind }));
        q = q + 1;
    }
    Ok((rest_of(input, &cs, n), out))
}

/// Reads a `CRYSIN` record: the cell.
pub fn read_lattice(input: &str) -> (r: PResult<'_, Lattice>)
    ensures
        match crysin_at(input@, 0) {
            Ok((p, n)) => r matches Ok((rest, l)) && rest@ == input@.skip(n) && lattice_from(l, p),
            Err(x) => r == Err::<(&str, Lattice), ParseError>(x),
        },
{
    let cs = to_chars(input);
    match scan_crysin(input, &cs, 0) {
        Ok((l, n)) => Ok((rest_of(input, &cs, n), l)),
        Err(x) => Err(x),
    }
}


/// Reads the counts line of a molecule header: one or more unsigned integers.
pub fn counts_line(input: &str) -> (r: PResult<'_, Vec<usize>>)
    ensures
        match usize_line_at(input@, 0) {
            Ok((vals, n)) => r matches Ok((rest, v)) && rest@ == input@.skip(n) && v@.len()
                == vals.len() && forall|q: int| 0 <= q < vals.len() ==> vals[q] == (#[trigger] v@[q]) as nat,
            Err(e) => r == Err::<(&str, Vec<usize>), ParseError>(e),
        },
{
    crate::text::read_usize_many(input)
}


/// The atom type that a written MOL2 file gives an element, without regard
/// to its bonding: a fixed subtype for a few elements, the bare symbol for
/// the others.
pub open spec fn atom_type_of(symbol: Seq<char>) -> Seq<char> {
    if symbol == "C"@ {
        "C.3"@
    } else if symbol == "P"@ {
        "P.3"@
    } else if symbol == "Co"@ {
        "Co.oh"@
    } else if symbol == "Ru"@ {
        "Ru.oh"@
    } else if symbol == "O"@ {
        "O.2"@
    } else if symbol == "N"@ {
        "N.3"@
    } else if symbol == "S"@ {
        "S.2"@
    } else if symbol == "Ti"@ {
        "Ti.oh"@
    } else if symbol == "Cr"@ {
        "Cr.oh"@
    } else {
        symbol
    }
}

fn same_text(t: &Vec<char>, lit: &str) -> (r: bool)
    ensures
        r == (t@ == lit@),
{
    let l = to_chars(lit);
    chars_eq(t, &l)
}

/// The atom type to write for an element symbol.
pub fn get_atom_type<'a>(symbol: &'a str) -> (r: &'a str)
    ensures
        r@ == atom_type_of(symbol@),
{
    let t = to_chars(symbol);
    if same_text(&t, "C") {
        "C.3"
    } else if same_text(&t, "P") {
        "P.3"
    } else if same_text(&t, "Co") {
        "Co.oh"
    } else if same_text(&t, "Ru") {
        "Ru.oh"
    } else if same_text(&t, "O") {
        "O.2"
    } else if same_text(&t, "N") {
        "N.3"
    } else if same_text(&t, "S") {
        "S.2"
    } else if same_text(&t, "Ti") {
        "Ti.oh"
    } else if same_text(&t, "Cr") {
        "Cr.oh"
    } else {
        symbol
    }
}

/// The type code to write for a bond kind.
pub open spec fn bond_code_of(k: BondKind) -> Seq<char> {
    match k {
        BondKind::Single => "1"@,
        BondKind::Double => "2"@,
        BondKind::Triple => "3"@,
        BondKind::Aromatic => "ar"@,
        BondKind::Partial => "wc"@,
        BondKind::Dummy => "nc"@,
    }
}

/// The type code to write for a bond.
pub fn format_bond_order(bond: &Bond) -> (r: &'static str)
    ensures
        r@ == bond_code_of(bond.kind),
{
    match bond.kind {
        BondKind::Single => "1",
        BondKind::Double => "2",
        BondKind::Triple => "3",
        BondKind::Aromatic => "ar",
        BondKind::Partial => "wc",
        BondKind::Dummy => "nc",
    }
}


/// A bond kind written as its type code reads back as the same kind.
pub proof fn lemma_bond_code_round_trip(k: BondKind)
    ensures
        mol2_bond_kind(bond_code_of(k)) == k,
{
    reveal_strlit("1");
    reveal_strlit("2");
    reveal_strlit("3");
    reveal_strlit("ar");
    reveal_strlit("wc");
    reveal_strlit("nc");
    let code = bond_code_of(k);
    let l = code.map_values(|c: char| ascii_lower(c));
    match k {
        BondKind::Single => {
            assert(l =~= seq!['1']);
            assert(l != seq!['2'] && l != seq!['3']) by {
                assert(l[0] == '1');
                assert(seq!['2'][0] == '2' && seq!['3'][0] == '3');
            }
            assert(l != seq!['a', 'r'] && l != seq!['a', 'm'] && l != seq!['n', 'c'] && l != seq![
                'w',
                'c',
            ]) by {
                if l == seq!['a', 'r'] || l == seq!['a', 'm'] || l == seq!['n', 'c'] || l == seq![
                    'w',
                    'c',
                ] {
                    assert(l.len() == 2);
                }
            }
        },
        BondKind::Double => {
            assert(l =~= seq!['2']);
        },
        BondKind::Triple => {
            assert(l =~= seq!['3']);
            assert(l != seq!['2']) by {
                assert(l[0] == '3');
                assert(seq!['2'][0] == '2');
            }
        },
        BondKind::Aromatic => {
            assert(l =~= seq!['a', 'r']);
            assert(l != seq!['2'] && l != seq!['3']) by {
                if l == seq!['2'] || l == seq!['3'] {
                    assert(l.len() == 1);
                }
            }
        },
        BondKind::Partial => {
            assert(l =~= seq!['w', 'c']);
            assert(l != seq!['2'] && l != seq!['3']) by {
                if l == seq!['2'] || l == seq!['3'] {
                    assert(l.len() == 1);
                }
            }
            assert(l != seq!['a', 'r'] && l != seq!['a', 'm'] && l != seq!['n', 'c']) by {
                assert(l[0] == 'w');
            }
        },
        BondKind::Dummy => {
            assert(l =~= seq!['n', 'c']);
            assert(l != seq!['2'] && l != seq!['3']) by {
                if l == seq!['2'] || l == seq!['3'] {
                    assert(l.len() == 1);
                }
            }
            assert(l != seq!['a', 'r'] && l != seq!['a', 'm']) by {
                assert(l[0] == 'n');
            }
        },
    }
}

} // verus!
