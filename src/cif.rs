//! The CIF format, in the subset the grammar relies on: the `data_` title,
//! the six cell parameters as tagged values in any order, and the
//! `_atom_site_` loop, whose columns are found by name.
use vstd::prelude::*;
use vstd::string::StringExecFns;
use crate::text::{
    ParseError, PResult, CharClass, run_end, lemma_run_end, scan_run, to_chars, rest_of,
    slice_text, token_chars, span_text, spans_view, float_at, scan_float, float_end,
    mantissa_has_digit, after_sign, is_float_text, line_tokens_at, scan_line_tokens, text_at,
    match_at, find_from, find_text, float_text_ok, chars_eq, line_end,
};
use crate::molecule::{Atom, Lattice, Molecule, element_label_ok, element_symbol_of, element_symbol_checked};

verus! {

/// A number with an optional uncertainty at `i`, as in `0.391(6)`: the
/// digits in parentheses are appended to the number's text, so `0.391(6)`
/// reads as `0.3916`. Gives that text and the index after the number.
pub open spec fn cif_number_at(cs: Seq<char>, i: int) -> Result<(Seq<char>, int), ParseError> {
    match float_at(cs, i) {
        Err(e) => Err(e),
        Ok(e) => if cs[e] == '(' {
            let d = run_end(cs, e + 1, CharClass::Digit);
            if d == cs.len() {
                Err(ParseError::Incomplete)
            } else if d > e + 1 && cs[d] == ')' {
                Ok((cs.subrange(i, e) + cs.subrange(e + 1, d), d + 1))
            } else {
                Ok((cs.subrange(i, e), e))
            }
        } else {
            Ok((cs.subrange(i, e), e))
        },
    }
}

/// The number that the token `t` holds as a whole, an uncertainty allowed:
/// `"0.391(6)"` gives `"0.3916"`.
pub open spec fn cif_value(t: Seq<char>) -> Option<Seq<char>> {
    let e = float_end(t, 0);
    if !mantissa_has_digit(t, after_sign(t, 0)) {
        None
    } else if e == t.len() {
        Some(t)
    } else if t[e] == '(' && t.len() >= e + 3 && t[t.len() - 1] == ')' && run_end(
        t,
        e + 1,
        CharClass::Digit,
    ) == t.len() - 1 {
        Some(t.take(e) + t.subrange(e + 1, t.len() - 1))
    } else {
        None
    }
}

pub fn scan_cif_number(s: &str, cs: &Vec<char>, i: usize) -> (r: Result<(String, usize), ParseError>)
    requires
        cs@ == s@,
        i <= cs@.len(),
    ensures
        match cif_number_at(cs@, i as int) {
            Ok((v, n)) => r matches Ok((t, m)) && t@ == v && m == n && i < n <= cs@.len(),
            Err(x) => r == Err::<(String, usize), ParseError>(x),
        },
{
    let e = match scan_float(cs, i) {
        Ok(e) => e,
        Err(x) => {
            return Err(x);
        },
    };
    assert(cs@.len() == cs.len());
    let v = slice_text(s, cs, i, e);
    if cs[e] == '(' {
        let d = scan_run(cs, e + 1, CharClass::Digit);
        proof {
            lemma_run_end(cs@, e + 1, CharClass::Digit);
        }
        if d == cs.len() {
            return Err(ParseError::Incomplete);
        }
        if d > e + 1 && cs[d] == ')' {
            let u = slice_text(s, cs, e + 1, d);
            let joined = v.concat(u.as_str());
            return Ok((joined, d + 1));
        }
    }
    assert(v@ == cs@.subrange(i as int, e as int));
    Ok((v, e))
}

/// Reads a number with an optional uncertainty: `"0.391(6)\n"` gives `"0.3916"`.
pub fn double_cif(input: &str) -> (r: PResult<'_, String>)
    ensures
        match cif_number_at(input@, 0) {
            Ok((v, n)) => r matches Ok((rest, t)) && t@ == v && rest@ == input@.skip(n),
            Err(x) => r == Err::<(&str, String), ParseError>(x),
        },
{
    let cs = to_chars(input);
    match scan_cif_number(input, &cs, 0) {
        Ok((t, n)) => Ok((rest_of(input, &cs, n), t)),
        Err(x) => Err(x),
    }
}

/// The number that a whole token holds, an uncertainty allowed.
pub fn cif_value_of(t: &Vec<char>, s: &str) -> (r: Option<String>)
    requires
        t@ == s@,
    ensures
        match cif_value(t@) {
            Some(v) => r matches Some(x) && x@ == v,
            None => r is None,
        },
{
    let a: usize = if t.len() > 0 && (t[0] == '+' || t[0] == '-') {
        1
    } else {
        0
    };
    let e = match scan_float_parts(t) {
        Some(e) => e,
        None => {
            return None;
        },
    };
    if e == t.len() {
        return Some(slice_text(s, t, 0, e));
    }
    let n = t.len();
    assert(t@.len() == t.len());
    if t[e] == '(' && n - e >= 3 && t[n - 1] == ')' {
        let d = scan_run(t, e + 1, CharClass::Digit);
        if d == n - 1 {
            let v = slice_text(s, t, 0, e);
            let u = slice_text(s, t, e + 1, n - 1);
            let joined = v.concat(u.as_str());
            assert(joined@ =~= t@.take(e as int) + t@.subrange(e + 1, n - 1));
            return Some(joined);
        }
    }
    None
}

/// `float_end(t, 0)`, where the mantissa holds a digit.
fn scan_float_parts(t: &Vec<char>) -> (r: Option<usize>)
    ensures
        mantissa_has_digit(t@, after_sign(t@, 0)) <==> r is Some,
        r matches Some(e) ==> e == float_end(t@, 0) && e <= t@.len(),
{
    let a: usize = if t.len() > 0 && (t[0] == '+' || t[0] == '-') {
        1
    } else {
        0
    };
    let b = scan_run(t, a, CharClass::Digit);
    proof {
        lemma_run_end(t@, a as int, CharClass::Digit);
    }
    let mut has_digit = b > a;
    let mut m = b;
    if b < t.len() && t[b] == '.' {
        m = scan_run(t, b + 1, CharClass::Digit);
        proof {
            lemma_run_end(t@, b + 1, CharClass::Digit);
        }
        has_digit = has_digit || m > b + 1;
    }
    let mut e = m;
    if m < t.len() && (t[m] == 'e' || t[m] == 'E') {
        let d: usize = if m + 1 < t.len() && (t[m + 1] == '+' || t[m + 1] == '-') {
            m + 2
        } else {
            m + 1
        };
        let x = scan_run(t, d, CharClass::Digit);
        proof {
            lemma_run_end(t@, d as int, CharClass::Digit);
        }
        if x > d {
            e = x;
        }
    }
    if has_digit {
        Some(e)
    } else {
        None
    }
}


/// Reads `tag` and then a number with an optional uncertainty, both after
/// optional spaces: `" abc 4.1 \n"` with tag `"abc"` gives `"4.1"`.
pub open spec fn tagged_at(cs: Seq<char>, i: int, tag: Seq<char>) -> Result<(Seq<char>, int), ParseError> {
    let a = run_end(cs, i, CharClass::InlineSpace);
    if a + tag.len() > cs.len() {
        Err(ParseError::Incomplete)
    } else if !text_at(cs, a, tag) {
        Err(ParseError::Error)
    } else {
        cif_number_at(cs, run_end(cs, a + tag.len(), CharClass::InlineSpace))
    }
}

pub fn tagged_f64<'a>(input: &'a str, tag: &str) -> (r: PResult<'a, String>)
    ensures
        match tagged_at(input@, 0, tag@) {
            Ok((v, n)) => r matches Ok((rest, t)) && t@ == v && rest@ == input@.skip(n),
            Err(x) => r == Err::<(&str, String), ParseError>(x),
        },
{
    let cs = to_chars(input);
    let tc = to_chars(tag);
    assert(cs@.len() == cs.len());
    let a = scan_run(&cs, 0, CharClass::InlineSpace);
    if tc.len() > cs.len() - a {
        return Err(ParseError::Incomplete);
    }
    if !match_at(&cs, a, &tc) {
        return Err(ParseError::Error);
    }
    let c = scan_run(&cs, a + tc.len(), CharClass::InlineSpace);
    match scan_cif_number(input, &cs, c) {
        Ok((t, n)) => Ok((rest_of(input, &cs, n), t)),
        Err(x) => Err(x),
    }
}

pub const CELL_A: &'static str = "_cell_length_a";

pub const CELL_B: &'static str = "_cell_length_b";

pub const CELL_C: &'static str = "_cell_length_c";

pub const CELL_ALPHA: &'static str = "_cell_angle_alpha";

pub const CELL_BETA: &'static str = "_cell_angle_beta";

pub const CELL_GAMMA: &'static str = "_cell_angle_gamma";

/// The tag of cell parameter `k`: lengths a, b, c, then angles alpha, beta, gamma.
pub open spec fn cell_tag(k: int) -> Seq<char> {
    if k == 0 {
        CELL_A@
    } else if k == 1 {
        CELL_B@
    } else if k == 2 {
        CELL_C@
    } else if k == 3 {
        CELL_ALPHA@
    } else if k == 4 {
        CELL_BETA@
    } else {
        CELL_GAMMA@
    }
}

fn cell_tag_str(k: usize) -> (r: &'static str)
    ensures
        r@ == cell_tag(k as int),
{
    if k == 0 {
        CELL_A
    } else if k == 1 {
        CELL_B
    } else if k == 2 {
        CELL_C
    } else if k == 3 {
        CELL_ALPHA
    } else if k == 4 {
        CELL_BETA
    } else {
        CELL_GAMMA
    }
}

/// Which cell parameter the tag `t` names: 0 to 5, or -1 for none.
pub open spec fn tag_index(t: Seq<char>) -> int {
    if t == cell_tag(0) {
        0
    } else if t == cell_tag(1) {
        1
    } else if t == cell_tag(2) {
        2
    } else if t == cell_tag(3) {
        3
    } else if t == cell_tag(4) {
        4
    } else if t == cell_tag(5) {
        5
    } else {
        -1
    }
}

fn find_tag(t: &Vec<char>) -> (r: i64)
    ensures
        r == tag_index(t@),
{
    let mut k: usize = 0;
    while k < 6
        invariant
            k <= 6,
            forall|q: int| 0 <= q < k ==> t@ != cell_tag(q),
        decreases 6 - k,
    {
        let c = to_chars(cell_tag_str(k));
        if chars_eq(t, &c) {
            return k as i64;
        }
        k = k + 1;
    }
    -1
}

/// One tagged cell parameter from `p` on, whitespace and blank lines first:
/// which parameter, its value, and the index after it. A tag that is not a
/// cell parameter, or one already read, is an error.
pub open spec fn cell_step(cs: Seq<char>, p: int, vals: Seq<Option<Seq<char>>>) -> Result<(int, Seq<char>, int), ParseError> {
    let a = run_end(cs, p, CharClass::Whitespace);
    let b = run_end(cs, a, CharClass::NotSpace);
    if b == cs.len() {
        Err(ParseError::Incomplete)
    } else {
        let k = tag_index(cs.subrange(a, b));
        if k < 0 || vals[k] is Some {
            Err(ParseError::Error)
        } else {
            match cif_number_at(cs, run_end(cs, b, CharClass::InlineSpace)) {
                Err(e) => Err(e),
                Ok((v, n)) => Ok((k, v, n)),
            }
        }
    }
}

/// The six cell parameters from `p` on, in any order: `left` more to read
/// into `vals`.
pub open spec fn cell_from(cs: Seq<char>, p: int, vals: Seq<Option<Seq<char>>>, left: nat) -> Result<(Seq<Option<Seq<char>>>, int), ParseError>
    decreases left,
{
    if left == 0 {
        if forall|k: int| 0 <= k < vals.len() ==> (#[trigger] vals[k]) is Some {
            Ok((vals, p))
        } else {
            Err(ParseError::Error)
        }
    } else {
        match cell_step(cs, p, vals) {
            Err(e) => Err(e),
            Ok((k, v, n)) => cell_from(cs, n, vals.update(k, Some(v)), (left - 1) as nat),
        }
    }
}

pub open spec fn no_cell_values() -> Seq<Option<Seq<char>>> {
    seq![None, None, None, None, None, None]
}

fn scan_cell(s: &str, cs: &Vec<char>, p: usize) -> (r: Result<(Vec<String>, usize), ParseError>)
    requires
        cs@ == s@,
        p <= cs@.len(),
    ensures
        match cell_from(cs@, p as int, no_cell_values(), 6) {
            Ok((vals, n)) => r matches Ok((v, m)) && m == n && n <= cs@.len() && v@.len() == 6
                && forall|k: int| 0 <= k < 6 ==> vals[k] == Some((#[trigger] v@[k])@),
            Err(x) => r == Err::<(Vec<String>, usize), ParseError>(x),
        },
{
    let mut slots: Vec<String> = Vec::new();
    let mut filled: Vec<bool> = Vec::new();
    let mut q: usize = 0;
    while q < 6
        invariant
            q <= 6,
            slots@.len() == q,
            filled@.len() == q,
            forall|k: int| 0 <= k < q ==> !(#[trigger] filled@[k]),
        decreases 6 - q,
    {
        slots.push(String::new());
        filled.push(false);
        q = q + 1;
    }
    let ghost mut vals = no_cell_values();
    let mut j: usize = p;
    let mut left: usize = 6;
    while left > 0
        invariant
            cs@ == s@,
            j <= cs@.len(),
            left <= 6,
            slots@.len() == 6,
            filled@.len() == 6,
            vals.len() == 6,
            forall|k: int|
                0 <= k < 6 ==> (#[trigger] filled@[k] ==> vals[k] == Some(slots@[k]@)) && (!filled@[k]
                    ==> vals[k] is None),
            cell_from(cs@, j as int, vals, left as nat) == cell_from(cs@, p as int, no_cell_values(), 6),
        decreases left,
    {
        assert(cs@.len() == cs.len());
        let a = scan_run(cs, j, CharClass::Whitespace);
        let b = scan_run(cs, a, CharClass::NotSpace);
        if b == cs.len() {
            return Err(ParseError::Incomplete);
        }
        let t = token_chars(s, cs, a, b);
        let k = find_tag(&t);
        if k < 0 {
            return Err(ParseError::Error);
        }
        let ku = k as usize;
        if filled[ku] {
            return Err(ParseError::Error);
        }
        let c = scan_run(cs, b, CharClass::InlineSpace);
        let (v, n) = match scan_cif_number(s, cs, c) {
            Ok(x) => x,
            Err(e) => {
                return Err(e);
            },
        };
        proof {
            vals = vals.update(ku as int, Some(v@));
        }
        slots.set(ku, v);
        filled.set(ku, true);
        j = n;
        left = left - 1;
    }
    let mut k: usize = 0;
    while k < 6
        invariant
            k <= 6,
            filled@.len() == 6,
            slots@.len() == 6,
            vals.len() == 6,
            j <= cs@.len(),
            forall|q: int| 0 <= q < k ==> #[trigger] filled@[q],
            forall|q: int|
                0 <= q < 6 ==> (#[trigger] filled@[q] ==> vals[q] == Some(slots@[q]@)) && (!filled@[q]
                    ==> vals[q] is None),
            cell_from(cs@, j as int, vals, 0) == cell_from(cs@, p as int, no_cell_values(), 6),
        decreases 6 - k,
    {
        if !filled[k] {
            proof {
                assert(!(vals[k as int] is Some));
            }
            return Err(ParseError::Error);
        }
        k = k + 1;
    }
    assert forall|q: int| 0 <= q < vals.len() implies (#[trigger] vals[q]) is Some by {
        assert(filled@[q]);
    }
    assert forall|q: int| 0 <= q < 6 implies vals[q] == Some((#[trigger] slots@[q])@) by {
        assert(filled@[q]);
    }
    Ok((slots, j))
}


/// Reads the six cell parameters, in any order, blank lines allowed: their
/// values in the order a, b, c, alpha, beta, gamma.
pub fn cell_params(input: &str) -> (r: PResult<'_, Vec<String>>)
    ensures
        match cell_from(input@, 0, no_cell_values(), 6) {
            Ok((vals, n)) => r matches Ok((rest, v)) && rest@ == input@.skip(n) && v@.len() == 6
                && forall|k: int| 0 <= k < 6 ==> vals[k] == Some((#[trigger] v@[k])@),
            Err(x) => r == Err::<(&str, Vec<String>), ParseError>(x),
        },
{
    let cs = to_chars(input);
    match scan_cell(input, &cs, 0) {
        Ok((v, n)) => Ok((rest_of(input, &cs, n), v)),
        Err(x) => Err(x),
    }
}

/// Reads the cell: the six parameters, in any order.
pub fn read_cell(input: &str) -> (r: PResult<'_, Lattice>)
    ensures
        match cell_from(input@, 0, no_cell_values(), 6) {
            Ok((vals, n)) => r matches Ok((rest, l)) && rest@ == input@.skip(n) && cell_lattice(l, vals),
            Err(x) => r == Err::<(&str, Lattice), ParseError>(x),
        },
{
    let cs = to_chars(input);
    match scan_cell(input, &cs, 0) {
        Ok((v, n)) => Ok((rest_of(input, &cs, n), lattice_of(v))),
        Err(x) => Err(x),
    }
}

/// Whether `l` is the cell whose parameters are `vals`.
pub open spec fn cell_lattice(l: Lattice, vals: Seq<Option<Seq<char>>>) -> bool {
    &&& vals[0] == Some(l.a@)
    &&& vals[1] == Some(l.b@)
    &&& vals[2] == Some(l.c@)
    &&& vals[3] == Some(l.alpha@)
    &&& vals[4] == Some(l.beta@)
    &&& vals[5] == Some(l.gamma@)
}

fn lattice_of(v: Vec<String>) -> (r: Lattice)
    requires
        v@.len() == 6,
    ensures
        r.a@ == v@[0]@ && r.b@ == v@[1]@ && r.c@ == v@[2]@ && r.alpha@ == v@[3]@ && r.beta@
            == v@[4]@ && r.gamma@ == v@[5]@,
{
    let mut v = v;
    let gamma = v.pop().unwrap();
    let beta = v.pop().unwrap();
    let alpha = v.pop().unwrap();
    let c = v.pop().unwrap();
    let b = v.pop().unwrap();
    let a = v.pop().unwrap();
    Lattice { a, b, c, alpha, beta, gamma }
}

pub const SITE_PREFIX: &'static str = "_atom_site_";

pub const BOND_PREFIX: &'static str = "_geom_bond_";

pub const CCDC_BOND_PREFIX: &'static str = "_ccdc_geom_bond_";

/// The length of the prefix (`lead`, or else `alt_lead`) that stands at `a`; 0 where
/// neither does.
pub open spec fn prefix_at(cs: Seq<char>, a: int, lead: Seq<char>, alt_lead: Seq<char>) -> Result<int, ParseError> {
    if text_at(cs, a, lead) {
        Ok(lead.len() as int)
    } else if text_at(cs, a, alt_lead) {
        Ok(alt_lead.len() as int)
    } else if may_become(cs.skip(a), lead) || may_become(cs.skip(a), alt_lead) {
        Err(ParseError::Incomplete)
    } else {
        Ok(0)
    }
}

/// Whether `t` is shorter than `p` and starts it, so that more text may make `p`.
pub open spec fn may_become(t: Seq<char>, p: Seq<char>) -> bool {
    t.len() < p.len() && t == p.take(t.len() as int)
}

fn may_become_at(cs: &Vec<char>, a: usize, p: &Vec<char>) -> (r: bool)
    requires
        a <= cs@.len(),
    ensures
        r == may_become(cs@.skip(a as int), p@),
{
    assert(cs@.len() == cs.len());
    let n = cs.len() - a;
    if n >= p.len() {
        return false;
    }
    let mut k: usize = 0;
    while k < n
        invariant
            n == cs@.len() - a,
            cs@.len() == cs.len(),
            n < p@.len(),
            k <= n,
            forall|q: int| 0 <= q < k ==> cs@[a + q] == p@[q],
        decreases n - k,
    {
        if cs[a + k] != p[k] {
            assert(cs@.skip(a as int)[k as int] != p@.take(n as int)[k as int]);
            return false;
        }
        k = k + 1;
    }
    assert(cs@.skip(a as int) =~= p@.take(n as int));
    true
}

/// Loop headers from `p` on, each after whitespace: a prefix (`lead` or `alt_lead`)
/// and a name, which is what the list holds. Gives the names and the index
/// after the whitespace that follows the last.
pub open spec fn headers_from(cs: Seq<char>, p: int, lead: Seq<char>, alt_lead: Seq<char>) -> Result<(Seq<Seq<char>>, int), ParseError>
    decreases cs.len() - p,
{
    let a = run_end(cs, p, CharClass::Whitespace);
    match prefix_at(cs, a, lead, alt_lead) {
        Err(e) => Err(e),
        Ok(l) => if l == 0 {
            Ok((Seq::empty(), a))
        } else {
            let b = run_end(cs, a + l, CharClass::NotSpace);
            if b == cs.len() {
                Err(ParseError::Incomplete)
            } else if b == a + l || !(p <= a && a + l < b <= cs.len()) {
                Ok((Seq::empty(), a))
            } else {
                match headers_from(cs, b, lead, alt_lead) {
                    Ok((hs, n)) => Ok((seq![cs.subrange(a + l, b)] + hs, n)),
                    Err(e) => Err(e),
                }
            }
        },
    }
}

fn scan_headers(s: &str, cs: &Vec<char>, p: usize, lead: &Vec<char>, alt_lead: &Vec<char>) -> (r: Result<(Vec<String>, usize), ParseError>)
    requires
        cs@ == s@,
        p <= cs@.len(),
    ensures
        match headers_from(cs@, p as int, lead@, alt_lead@) {
            Ok((hs, n)) => r matches Ok((v, m)) && m == n && n <= cs@.len() && v@.len() == hs.len()
                && forall|k: int| 0 <= k < hs.len() ==> hs[k] == (#[trigger] v@[k])@,
            Err(x) => r == Err::<(Vec<String>, usize), ParseError>(x),
        },
{
    let mut v: Vec<String> = Vec::new();
    let mut j: usize = p;
    let ghost mut done: Seq<Seq<char>> = Seq::empty();
    loop
        invariant
            cs@ == s@,
            p <= j <= cs@.len(),
            v@.len() == done.len(),
            forall|k: int| 0 <= k < done.len() ==> done[k] == (#[trigger] v@[k])@,
            match headers_from(cs@, j as int, lead@, alt_lead@) {
                Ok((hs, n)) => headers_from(cs@, p as int, lead@, alt_lead@) == Ok::<(Seq<Seq<char>>, int), ParseError>(
                    (done + hs, n),
                ),
                Err(x) => headers_from(cs@, p as int, lead@, alt_lead@) == Err::<(Seq<Seq<char>>, int), ParseError>(x),
            },
        decreases cs@.len() - j,
    {
        assert(cs@.len() == cs.len());
        let a = scan_run(cs, j, CharClass::Whitespace);
        proof {
            lemma_run_end(cs@, j as int, CharClass::Whitespace);
        }
        let l: usize = if match_at(cs, a, lead) {
            lead.len()
        } else if match_at(cs, a, alt_lead) {
            alt_lead.len()
        } else if may_become_at(cs, a, lead) || may_become_at(cs, a, alt_lead) {
            return Err(ParseError::Incomplete);
        } else {
            0
        };
        if l == 0 {
            assert(done + Seq::<Seq<char>>::empty() =~= done);
            return Ok((v, a));
        }
        let b = scan_run(cs, a + l, CharClass::NotSpace);
        proof {
            lemma_run_end(cs@, a + l, CharClass::NotSpace);
        }
        if b == cs.len() {
            return Err(ParseError::Incomplete);
        }
        if b == a + l {
            assert(done + Seq::<Seq<char>>::empty() =~= done);
            return Ok((v, a));
        }
        let name = slice_text(s, cs, a + l, b);
        proof {
            let t = cs@.subrange(a + l, b as int);
            match headers_from(cs@, b as int, lead@, alt_lead@) {
                Ok((hs, m)) => {
                    assert(done + (seq![t] + hs) =~= done.push(t) + hs);
                },
                Err(x) => {},
            }
            done = done.push(t);
        }
        v.push(name);
        j = b;
    }
}

/// Reads the `_atom_site_` headers of a loop, blank lines allowed: the column
/// names, prefix left out (`"label"`, `"fract_x"`, ...).
pub fn atom_site_headers(input: &str) -> (r: PResult<'_, Vec<String>>)
    ensures
        match headers_from(input@, 0, SITE_PREFIX@, SITE_PREFIX@) {
            Ok((hs, n)) => if hs.len() > 0 {
                r matches Ok((rest, v)) && rest@ == input@.skip(n) && v@.len() == hs.len() && forall|k: int|
                    0 <= k < hs.len() ==> hs[k] == (#[trigger] v@[k])@
            } else {
                r == Err::<(&str, Vec<String>), ParseError>(ParseError::Error)
            },
            Err(x) => r == Err::<(&str, Vec<String>), ParseError>(x),
        },
{
    let cs = to_chars(input);
    let p = to_chars(SITE_PREFIX);
    match scan_headers(input, &cs, 0, &p, &p) {
        Ok((v, n)) => if v.len() > 0 {
            Ok((rest_of(input, &cs, n), v))
        } else {
            Err(ParseError::Error)
        },
        Err(x) => Err(x),
    }
}

pub const LOOP_TAG: &'static str = "loop_";

/// Reads `loop_` and the bond headers after it (`_geom_bond_` or
/// `_ccdc_geom_bond_`), whitespace allowed around each: the column names.
pub fn geom_bond_headers(input: &str) -> (r: PResult<'_, Vec<String>>)
    ensures
        ({
            let a = run_end(input@, 0, CharClass::Whitespace);
            if a + LOOP_TAG@.len() > input@.len() {
                r == Err::<(&str, Vec<String>), ParseError>(ParseError::Incomplete)
            } else if !text_at(input@, a, LOOP_TAG@) {
                r == Err::<(&str, Vec<String>), ParseError>(ParseError::Error)
            } else {
                match headers_from(input@, a + LOOP_TAG@.len(), BOND_PREFIX@, CCDC_BOND_PREFIX@) {
                    Ok((hs, n)) => if hs.len() > 0 {
                        r matches Ok((rest, v)) && rest@ == input@.skip(n) && v@.len() == hs.len()
                            && forall|k: int| 0 <= k < hs.len() ==> hs[k] == (#[trigger] v@[k])@
                    } else {
                        r == Err::<(&str, Vec<String>), ParseError>(ParseError::Error)
                    },
                    Err(x) => r == Err::<(&str, Vec<String>), ParseError>(x),
                }
            }
        }),
{
    let cs = to_chars(input);
    let lt = to_chars(LOOP_TAG);
    assert(cs@.len() == cs.len());
    let a = scan_run(&cs, 0, CharClass::Whitespace);
    if lt.len() > cs.len() - a {
        return Err(ParseError::Incomplete);
    }
    if !match_at(&cs, a, &lt) {
        return Err(ParseError::Error);
    }
    let lead = to_chars(BOND_PREFIX);
    let alt_lead = to_chars(CCDC_BOND_PREFIX);
    match scan_headers(input, &cs, a + lt.len(), &lead, &alt_lead) {
        Ok((v, n)) => if v.len() > 0 {
            Ok((rest_of(input, &cs, n), v))
        } else {
            Err(ParseError::Error)
        },
        Err(x) => Err(x),
    }
}


/// Data rows from `p` on: lines of exactly `h` tokens; the list stops at the
/// first line that is not one. Gives each row's token spans and the index
/// after the last row.
pub open spec fn rows_from(cs: Seq<char>, p: int, h: nat) -> Result<(Seq<Seq<(int, int)>>, int), ParseError>
    decreases cs.len() - p,
{
    match line_tokens_at(cs, p) {
        Err(ParseError::Error) => Ok((Seq::empty(), p)),
        Err(e) => Err(e),
        Ok((sp, n)) => if sp.len() != h {
            Ok((Seq::empty(), p))
        } else if p < n <= cs.len() {
            match rows_from(cs, n, h) {
                Ok((rs, m)) => Ok((seq![sp] + rs, m)),
                Err(e) => Err(e),
            }
        } else {
            Err(ParseError::Failure)
        },
    }
}

/// The texts of the tokens `sp`.
pub open spec fn row_texts(cs: Seq<char>, sp: Seq<(int, int)>) -> Seq<Seq<char>> {
    sp.map_values(|t: (int, int)| span_text(cs, t))
}

fn span_strings(s: &str, cs: &Vec<char>, spans: &Vec<(usize, usize)>) -> (r: Vec<String>)
    requires
        cs@ == s@,
        forall|k: int| 0 <= k < spans@.len() ==> (#[trigger] spans@[k]).0 <= spans@[k].1 <= cs@.len(),
    ensures
        r@.len() == spans@.len(),
        forall|k: int| 0 <= k < spans@.len() ==> (#[trigger] r@[k])@ == row_texts(cs@, spans_view(spans@))[k],
{
    let mut v: Vec<String> = Vec::new();
    let mut q: usize = 0;
    while q < spans.len()
        invariant
            cs@ == s@,
            forall|k: int| 0 <= k < spans@.len() ==> (#[trigger] spans@[k]).0 <= spans@[k].1 <= cs@.len(),
            q <= spans@.len(),
            v@.len() == q,
            forall|k: int| 0 <= k < q ==> (#[trigger] v@[k])@ == row_texts(cs@, spans_view(spans@))[k],
        decreases spans@.len() - q,
    {
        v.push(slice_text(s, cs, spans[q].0, spans[q].1));
        q = q + 1;
    }
    v
}

fn scan_rows(s: &str, cs: &Vec<char>, p: usize, h: usize) -> (r: Result<(Vec<Vec<String>>, usize), ParseError>)
    requires
        cs@ == s@,
        p <= cs@.len(),
    ensures
        match rows_from(cs@, p as int, h as nat) {
            Ok((rs, n)) => r matches Ok((v, m)) && m == n && n <= cs@.len() && v@.len() == rs.len()
                && forall|k: int|
                0 <= k < rs.len() ==> strings_view((#[trigger] v@[k])@) == row_texts(cs@, rs[k]),
            Err(x) => r == Err::<(Vec<Vec<String>>, usize), ParseError>(x),
        },
{
    let mut v: Vec<Vec<String>> = Vec::new();
    let mut j: usize = p;
    let ghost mut done: Seq<Seq<(int, int)>> = Seq::empty();
    loop
        invariant
            cs@ == s@,
            p <= j <= cs@.len(),
            v@.len() == done.len(),
            forall|k: int| 0 <= k < done.len() ==> strings_view((#[trigger] v@[k])@) == row_texts(cs@, done[k]),
            match rows_from(cs@, j as int, h as nat) {
                Ok((rs, n)) => rows_from(cs@, p as int, h as nat) == Ok::<(Seq<Seq<(int, int)>>, int), ParseError>(
                    (done + rs, n),
                ),
                Err(x) => rows_from(cs@, p as int, h as nat) == Err::<(Seq<Seq<(int, int)>>, int), ParseError>(x),
            },
        decreases cs@.len() - j,
    {
        match scan_line_tokens(cs, j) {
            Ok((spans, n)) => {
                if spans.len() != h {
                    assert(done + Seq::<Seq<(int, int)>>::empty() =~= done);
                    return Ok((v, j));
                }
                let row = span_strings(s, cs, &spans);
                proof {
                    let t = spans_view(spans@);
                    assert(strings_view(row@) =~= row_texts(cs@, t));
                    match rows_from(cs@, n as int, h as nat) {
                        Ok((rs, m)) => {
                            assert(done + (seq![t] + rs) =~= done.push(t) + rs);
                        },
                        Err(x) => {},
                    }
                    done = done.push(t);
                }
                v.push(row);
                j = n;
            },
            Err(ParseError::Error) => {
                assert(done + Seq::<Seq<(int, int)>>::empty() =~= done);
                return Ok((v, j));
            },
            Err(x) => {
                return Err(x);
            },
        }
    }
}

/// The views of a sequence of strings.
pub open spec fn strings_view(v: Seq<String>) -> Seq<Seq<char>> {
    v.map_values(|x: String| x@)
}

pub const COL_LABEL: &'static str = "label";

pub const COL_SYMBOL: &'static str = "type_symbol";

pub const COL_X: &'static str = "fract_x";

pub const COL_Y: &'static str = "fract_y";

pub const COL_Z: &'static str = "fract_z";

/// The column of the last of the first `n` headers named `name`.
pub open spec fn col_index(hs: Seq<Seq<char>>, n: int, name: Seq<char>) -> Option<int>
    decreases n,
{
    if n <= 0 || n > hs.len() {
        None
    } else if hs[n - 1] == name {
        Some(n - 1)
    } else {
        col_index(hs, n - 1, name)
    }
}

/// An atom of the site loop, as text: the type symbol, the three fractional
/// coordinates (uncertainties folded in), and the label.
pub type SiteAtom = (Seq<char>, Seq<char>, Seq<char>, Seq<char>, Seq<char>);

/// The columns that the atoms are read from: type symbol, x, y, z, label.
pub open spec fn site_columns(hs: Seq<Seq<char>>) -> Option<(int, int, int, int, int)> {
    let n = hs.len() as int;
    match (col_index(hs, n, COL_SYMBOL@), col_index(hs, n, COL_X@), col_index(hs, n, COL_Y@), col_index(hs, n, COL_Z@), col_index(hs, n, COL_LABEL@)) {
        (Some(a), Some(b), Some(c), Some(d), Some(e)) => Some((a, b, c, d, e)),
        _ => None,
    }
}

/// The atom that a data row describes, found through the header names.
pub open spec fn site_atom(hs: Seq<Seq<char>>, row: Seq<Seq<char>>) -> Option<SiteAtom> {
    match site_columns(hs) {
        None => None,
        Some((is, ix, iy, iz, il)) => match (cif_value(row[ix]), cif_value(row[iy]), cif_value(row[iz])) {
            (Some(x), Some(y), Some(z)) => if element_label_ok(row[is]) {
                Some((row[is], x, y, z, row[il]))
            } else {
                None
            },
            _ => None,
        },
    }
}

/// The atoms that the rows describe, where every row describes one.
pub open spec fn site_atoms(hs: Seq<Seq<char>>, rows: Seq<Seq<Seq<char>>>) -> Option<Seq<SiteAtom>> {
    if site_columns(hs) is Some && forall|k: int| 0 <= k < rows.len() ==> site_atom(hs, #[trigger] rows[k]) is Some {
        Some(rows.map_values(|r: Seq<Seq<char>>| site_atom(hs, r)->0))
    } else {
        None
    }
}

/// An `_atom_site_` loop at `p`: the header names, the rows' token texts and
/// the index after the last row.
pub open spec fn site_loop_at(cs: Seq<char>, p: int) -> Result<(Seq<Seq<char>>, Seq<Seq<Seq<char>>>, int), ParseError> {
    match headers_from(cs, p, SITE_PREFIX@, SITE_PREFIX@) {
        Err(e) => Err(e),
        Ok((hs, a)) => if hs.len() == 0 {
            Err(ParseError::Error)
        } else {
            match rows_from(cs, a, hs.len()) {
                Err(e) => Err(e),
                Ok((rs, n)) => if rs.len() == 0 {
                    Err(ParseError::Error)
                } else {
                    Ok((hs, rs.map_values(|sp: Seq<(int, int)>| row_texts(cs, sp)), n))
                },
            }
        },
    }
}

/// The atoms of an `_atom_site_` loop at `p`, and the index after it. A
/// missing column or a field that is no number is an error.
pub open spec fn site_atoms_at(cs: Seq<char>, p: int) -> Result<(Seq<SiteAtom>, int), ParseError> {
    match site_loop_at(cs, p) {
        Err(e) => Err(e),
        Ok((hs, rows, n)) => match site_atoms(hs, rows) {
            None => Err(ParseError::Error),
            Some(atoms) => Ok((atoms, n)),
        },
    }
}

/// Whether `a` is the atom that `t` describes.
pub open spec fn site_atom_from(a: Atom, t: SiteAtom) -> bool {
    &&& a.symbol@ == element_symbol_of(t.0)
    &&& a.x@ == t.1
    &&& a.y@ == t.2
    &&& a.z@ == t.3
    &&& a.label matches Some(l) && l@ == t.4
}


fn find_col(hs: &Vec<String>, name: &str) -> (r: Option<usize>)
    ensures
        match col_index(strings_view(hs@), hs@.len() as int, name@) {
            Some(k) => r == Some(k as usize) && 0 <= k < hs@.len(),
            None => r is None,
        },
{
    let nc = to_chars(name);
    let ghost hv = strings_view(hs@);
    let mut n: usize = hs.len();
    while n > 0
        invariant
            n <= hs@.len(),
            hv == strings_view(hs@),
            nc@ == name@,
            col_index(hv, n as int, name@) == col_index(hv, hs@.len() as int, name@),
        decreases n,
    {
        let hc = to_chars(hs[n - 1].as_str());
        if chars_eq(&hc, &nc) {
            return Some(n - 1);
        }
        n = n - 1;
    }
    None
}

/// The atoms that the rows describe; `None` where a column is missing or a
/// row does not describe an atom.
pub fn atoms_of_rows(hs: &Vec<String>, rows: &Vec<Vec<String>>) -> (r: Option<Vec<Atom>>)
    requires
        forall|k: int| 0 <= k < rows@.len() ==> (#[trigger] rows@[k])@.len() == hs@.len(),
    ensures
        match site_atoms(strings_view(hs@), rows@.map_values(|r: Vec<String>| strings_view(r@))) {
            Some(ts) => r matches Some(v) && v@.len() == ts.len() && forall|k: int|
                0 <= k < ts.len() ==> site_atom_from(#[trigger] v@[k], ts[k]),
            None => r is None,
        },
{
    let ghost hv = strings_view(hs@);
    let ghost rv = rows@.map_values(|r: Vec<String>| strings_view(r@));
    assert(hv.len() == hs@.len());
    assert(hs@.len() == hs.len());
    let is = match find_col(hs, COL_SYMBOL) {
        Some(v) => v,
        None => {
            return None;
        },
    };
    let ix = match find_col(hs, COL_X) {
        Some(v) => v,
        None => {
            return None;
        },
    };
    let iy = match find_col(hs, COL_Y) {
        Some(v) => v,
        None => {
            return None;
        },
    };
    let iz = match find_col(hs, COL_Z) {
        Some(v) => v,
        None => {
            return None;
        },
    };
    let il = match find_col(hs, COL_LABEL) {
        Some(v) => v,
        None => {
            return None;
        },
    };
    let mut out: Vec<Atom> = Vec::new();
    let mut q: usize = 0;
    while q < rows.len()
        invariant
            hv == strings_view(hs@),
            rv == rows@.map_values(|r: Vec<String>| strings_view(r@)),
            forall|k: int| 0 <= k < rows@.len() ==> (#[trigger] rows@[k])@.len() == hs@.len(),
            site_columns(hv) == Some((is as int, ix as int, iy as int, iz as int, il as int)),
            is < hs@.len() && ix < hs@.len() && iy < hs@.len() && iz < hs@.len() && il < hs@.len(),
            q <= rows@.len(),
            out@.len() == q,
            forall|k: int| 0 <= k < q ==> site_atom(hv, #[trigger] rv[k]) is Some,
            forall|k: int| 0 <= k < q ==> site_atom_from(#[trigger] out@[k], site_atom(hv, rv[k])->0),
        decreases rows@.len() - q,
    {
        let row = &rows[q];
        let ghost rw = rv[q as int];
        assert(rw == strings_view(row@));
        let xc = to_chars(row[ix].as_str());
        let yc = to_chars(row[iy].as_str());
        let zc = to_chars(row[iz].as_str());
        let sc = to_chars(row[is].as_str());
        let x = cif_value_of(&xc, row[ix].as_str());
        let y = cif_value_of(&yc, row[iy].as_str());
        let z = cif_value_of(&zc, row[iz].as_str());
        let (x, y, z) = match (x, y, z) {
            (Some(x), Some(y), Some(z)) => (x, y, z),
            _ => {
                return None;
            },
        };
        let symbol = match element_symbol_checked(row[is].as_str(), &sc) {
            Some(v) => v,
            None => {
                return None;
            },
        };
        let label = slice_all(row[il].as_str());
        out.push(Atom { symbol, x, y, z, label: Some(label) });
        q = q + 1;
    }
    proof {
        assert(rv.map_values(|r: Seq<Seq<char>>| site_atom(hv, r)->0).len() == rows@.len());
    }
    Some(out)
}

/// A copy of `t`.
fn slice_all(t: &str) -> (r: String)
    ensures
        r@ == t@,
{
    t.to_owned()
}

fn scan_site_atoms(s: &str, cs: &Vec<char>, p: usize) -> (r: Result<(Vec<Atom>, usize), ParseError>)
    requires
        cs@ == s@,
        p <= cs@.len(),
    ensures
        match site_atoms_at(cs@, p as int) {
            Ok((ts, n)) => r matches Ok((v, m)) && m == n && n <= cs@.len() && v@.len() == ts.len()
                && forall|k: int| 0 <= k < ts.len() ==> site_atom_from(#[trigger] v@[k], ts[k]),
            Err(x) => r == Err::<(Vec<Atom>, usize), ParseError>(x),
        },
{
    let pre = to_chars(SITE_PREFIX);
    let (hs, a) = match scan_headers(s, cs, p, &pre, &pre) {
        Ok(x) => x,
        Err(e) => {
            return Err(e);
        },
    };
    if hs.len() == 0 {
        return Err(ParseError::Error);
    }
    let (rows, n) = match scan_rows(s, cs, a, hs.len()) {
        Ok(x) => x,
        Err(e) => {
            return Err(e);
        },
    };
    if rows.len() == 0 {
        return Err(ParseError::Error);
    }
    let ghost hd = headers_from(cs@, p as int, SITE_PREFIX@, SITE_PREFIX@)->Ok_0.0;
    let ghost rs = rows_from(cs@, a as int, hd.len())->Ok_0.0;
    proof {
        assert(strings_view(hs@) =~= hd);
        assert(rows@.map_values(|r: Vec<String>| strings_view(r@)) =~= rs.map_values(
            |sp: Seq<(int, int)>| row_texts(cs@, sp),
        ));
        assert forall|k: int| 0 <= k < rows@.len() implies (#[trigger] rows@[k])@.len() == hs@.len() by {
            assert(strings_view(rows@[k]@) == row_texts(cs@, rs[k]));
            assert(rs[k].len() == hd.len()) by {
                lemma_rows_width(cs@, a as int, hd.len(), k);
            }
        }
    }
    match atoms_of_rows(&hs, &rows) {
        Some(v) => Ok((v, n)),
        None => Err(ParseError::Error),
    }
}

proof fn lemma_rows_width(cs: Seq<char>, p: int, h: nat, k: int)
    requires
        rows_from(cs, p, h) is Ok,
        0 <= k < rows_from(cs, p, h)->Ok_0.0.len(),
    ensures
        rows_from(cs, p, h)->Ok_0.0[k].len() == h,
    decreases cs.len() - p,
{
    match line_tokens_at(cs, p) {
        Ok((sp, n)) => {
            if sp.len() == h && p < n <= cs.len() {
                if k > 0 {
                    lemma_rows_width(cs, n, h, k - 1);
                }
            }
        },
        Err(_) => {},
    }
}

/// Reads an `_atom_site_` loop: its headers, then its rows. Columns are found
/// by name, in whatever order the headers give them.
pub fn read_atoms(input: &str) -> (r: PResult<'_, Vec<Atom>>)
    ensures
        match site_atoms_at(input@, 0) {
            Ok((ts, n)) => r matches Ok((rest, v)) && rest@ == input@.skip(n) && v@.len() == ts.len()
                && forall|k: int| 0 <= k < ts.len() ==> site_atom_from(#[trigger] v@[k], ts[k]),
            Err(x) => r == Err::<(&str, Vec<Atom>), ParseError>(x),
        },
{
    let cs = to_chars(input);
    match scan_site_atoms(input, &cs, 0) {
        Ok((v, n)) => Ok((rest_of(input, &cs, n), v)),
        Err(x) => Err(x),
    }
}


pub const DATA_TAG: &'static str = "data_";

pub const CELL_MARK: &'static str = "\n_cell";

pub const ATOM_MARK: &'static str = "\n_atom";

/// Where a CIF structure's parts lie: its name, the cell parameters, the
/// atoms, and the index after the atom loop.
pub type CifSpans = (Seq<char>, Seq<Option<Seq<char>>>, Seq<SiteAtom>, int);

/// A CIF structure at `i`: `data_` and the name; the lines up to the first
/// `_cell` tag are skipped; the six cell parameters; the lines up to the first
/// `_atom` tag are skipped; the `_atom_site_` loop.
pub open spec fn cif_molecule_at(cs: Seq<char>, i: int) -> Result<CifSpans, ParseError> {
    let a = run_end(cs, i, CharClass::InlineSpace);
    let l = DATA_TAG@.len() as int;
    if a + l > cs.len() {
        Err(ParseError::Incomplete)
    } else if !text_at(cs, a, DATA_TAG@) {
        Err(ParseError::Error)
    } else {
        let b = run_end(cs, a + l, CharClass::NotSpace);
        if b == cs.len() {
            Err(ParseError::Incomplete)
        } else if b == a + l {
            Err(ParseError::Error)
        } else {
            match find_from(cs, b, CELL_MARK@) {
                None => Err(ParseError::Incomplete),
                Some(c) => match cell_from(cs, c, no_cell_values(), 6) {
                    Err(e) => Err(e),
                    Ok((vals, d)) => match find_from(cs, d, ATOM_MARK@) {
                        None => Err(ParseError::Incomplete),
                        Some(f) => match site_atoms_at(cs, f) {
                            Err(e) => Err(e),
                            Ok((atoms, n)) => Ok((cs.subrange(a + l, b), vals, atoms, n)),
                        },
                    },
                },
            }
        }
    }
}

/// Whether `m` is the structure that `t` describes: its positions are
/// fractional in its cell.
pub open spec fn cif_molecule_from(m: Molecule, t: CifSpans) -> bool {
    &&& m.name@ == t.0
    &&& m.atoms@.len() == t.2.len()
    &&& forall|k: int| 0 <= k < t.2.len() ==> site_atom_from(#[trigger] m.atoms@[k], t.2[k])
    &&& m.bonds@.len() == 0
    &&& m.lattice matches Some(l) && cell_lattice(l, t.1)
    &&& m.fractional
    &&& m.wf()
}

pub fn scan_molecule(s: &str, cs: &Vec<char>, i: usize) -> (r: Result<(Molecule, usize), ParseError>)
    requires
        cs@ == s@,
        i <= cs@.len(),
    ensures
        match cif_molecule_at(cs@, i as int) {
            Ok(t) => r matches Ok((m, n)) && n == t.3 && n <= cs@.len() && cif_molecule_from(m, t),
            Err(x) => r == Err::<(Molecule, usize), ParseError>(x),
        },
{
    assert(cs@.len() == cs.len());
    let dt = to_chars(DATA_TAG);
    let a = scan_run(cs, i, CharClass::InlineSpace);
    if dt.len() > cs.len() - a {
        return Err(ParseError::Incomplete);
    }
    if !match_at(cs, a, &dt) {
        return Err(ParseError::Error);
    }
    let b = scan_run(cs, a + dt.len(), CharClass::NotSpace);
    if b == cs.len() {
        return Err(ParseError::Incomplete);
    }
    if b == a + dt.len() {
        return Err(ParseError::Error);
    }
    let name = slice_text(s, cs, a + dt.len(), b);
    let cm = to_chars(CELL_MARK);
    let c = match find_text(cs, b, &cm) {
        Some(c) => c,
        None => {
            return Err(ParseError::Incomplete);
        },
    };
    let (vals, d) = match scan_cell(s, cs, c) {
        Ok(x) => x,
        Err(e) => {
            return Err(e);
        },
    };
    let am = to_chars(ATOM_MARK);
    let f = match find_text(cs, d, &am) {
        Some(f) => f,
        None => {
            return Err(ParseError::Incomplete);
        },
    };
    let (atoms, n) = match scan_site_atoms(s, cs, f) {
        Ok(x) => x,
        Err(e) => {
            return Err(e);
        },
    };
    let ghost cv = cell_from(cs@, c as int, no_cell_values(), 6)->Ok_0.0;
    let lat = lattice_of(vals);
    let mut mol = Molecule::new(name);
    mol.atoms = atoms;
    mol.lattice = Some(lat);
    mol.fractional = true;
    proof {
        let t = cif_molecule_at(cs@, i as int)->Ok_0;
        assert(t.1 == cv);
        assert(cell_lattice(lat, cv));
    }
    Ok((mol, n))
}

/// Reads one CIF structure. Its positions stay fractional: the molecule
/// carries its cell, whose matrix gives the cartesian positions.
pub fn read_molecule_cif(input: &str) -> (r: PResult<'_, Molecule>)
    ensures
        match cif_molecule_at(input@, 0) {
            Ok(t) => r matches Ok((rest, m)) && rest@ == input@.skip(t.3) && cif_molecule_from(m, t),
            Err(x) => r == Err::<(&str, Molecule), ParseError>(x),
        },
{
    let cs = to_chars(input);
    match scan_molecule(input, &cs, 0) {
        Ok((m, n)) => Ok((rest_of(input, &cs, n), m)),
        Err(x) => Err(x),
    }
}


/// `v` reordered by `perm`: entry `j` is `v[perm[j]]`.
pub open spec fn permuted<T>(v: Seq<T>, perm: Seq<int>) -> Seq<T> {
    perm.map_values(|i: int| v[i])
}

/// Whether `perm` and `inv` are permutations of `0..n` that undo each other.
pub open spec fn is_permutation(perm: Seq<int>, inv: Seq<int>, n: int) -> bool {
    &&& perm.len() == n
    &&& inv.len() == n
    &&& forall|j: int| 0 <= j < n ==> 0 <= #[trigger] perm[j] < n && inv[perm[j]] == j
    &&& forall|k: int| 0 <= k < n ==> 0 <= #[trigger] inv[k] < n && perm[inv[k]] == k
}

proof fn lemma_col_index(hs: Seq<Seq<char>>, n: int, name: Seq<char>)
    requires
        0 <= n <= hs.len(),
    ensures
        col_index(hs, n, name) matches Some(k) ==> 0 <= k < n && hs[k] == name,
        col_index(hs, n, name) is None ==> forall|k: int| 0 <= k < n ==> hs[k] != name,
    decreases n,
{
    if n > 0 {
        lemma_col_index(hs, n - 1, name);
    }
}

proof fn lemma_col_index_permuted(hs: Seq<Seq<char>>, perm: Seq<int>, inv: Seq<int>, name: Seq<char>)
    requires
        is_permutation(perm, inv, hs.len() as int),
        hs.no_duplicates(),
    ensures
        col_index(permuted(hs, perm), hs.len() as int, name) == match col_index(hs, hs.len() as int, name) {
            Some(k) => Some(inv[k]),
            None => None::<int>,
        },
{
    let n = hs.len() as int;
    let hp = permuted(hs, perm);
    lemma_col_index(hs, n, name);
    lemma_col_index(hp, n, name);
    match col_index(hs, n, name) {
        Some(k) => {
            assert(hp[inv[k]] == hs[k]);
            match col_index(hp, n, name) {
                Some(j) => {
                    assert(hs[perm[j]] == name);
                    assert(perm[j] == k);
                },
                None => {
                    assert(hp[inv[k]] != name);
                },
            }
        },
        None => {
            match col_index(hp, n, name) {
                Some(j) => {
                    assert(hp[j] == hs[perm[j]]);
                },
                None => {},
            }
        },
    }
}

/// Permuting the headers of an `_atom_site_` loop, with every row's fields
/// permuted the same way, leaves the atoms it describes unchanged: columns
/// are found by name, never by position.
pub proof fn lemma_site_header_order(
    hs: Seq<Seq<char>>,
    rows: Seq<Seq<Seq<char>>>,
    perm: Seq<int>,
    inv: Seq<int>,
)
    requires
        is_permutation(perm, inv, hs.len() as int),
        hs.no_duplicates(),
        forall|r: int| 0 <= r < rows.len() ==> (#[trigger] rows[r]).len() == hs.len(),
    ensures
        site_atoms(permuted(hs, perm), rows.map_values(|r: Seq<Seq<char>>| permuted(r, perm)))
            == site_atoms(hs, rows),
{
    let hp = permuted(hs, perm);
    let rp = rows.map_values(|r: Seq<Seq<char>>| permuted(r, perm));
    lemma_col_index_permuted(hs, perm, inv, COL_SYMBOL@);
    lemma_col_index_permuted(hs, perm, inv, COL_X@);
    lemma_col_index_permuted(hs, perm, inv, COL_Y@);
    lemma_col_index_permuted(hs, perm, inv, COL_Z@);
    lemma_col_index_permuted(hs, perm, inv, COL_LABEL@);
    let n = hs.len() as int;
    lemma_col_index(hs, n, COL_SYMBOL@);
    lemma_col_index(hs, n, COL_X@);
    lemma_col_index(hs, n, COL_Y@);
    lemma_col_index(hs, n, COL_Z@);
    lemma_col_index(hs, n, COL_LABEL@);
    assert(site_columns(hp) is Some <==> site_columns(hs) is Some);
    assert forall|r: int| 0 <= r < rows.len() implies site_atom(hp, #[trigger] rp[r]) == site_atom(
        hs,
        rows[r],
    ) by {
        let row = rows[r];
        let rowp = rp[r];
        assert(rowp == permuted(row, perm));
        match site_columns(hs) {
            Some((is, ix, iy, iz, il)) => {
                assert(rowp[inv[is]] == row[is]);
                assert(rowp[inv[ix]] == row[ix]);
                assert(rowp[inv[iy]] == row[iy]);
                assert(rowp[inv[iz]] == row[iz]);
                assert(rowp[inv[il]] == row[il]);
            },
            None => {},
        }
    }
    if site_atoms(hs, rows) is Some {
        assert(rp.map_values(|r: Seq<Seq<char>>| site_atom(hp, r)->0) =~= rows.map_values(
            |r: Seq<Seq<char>>| site_atom(hs, r)->0,
        ));
    } else if site_columns(hs) is Some {
        let r = choose|r: int| 0 <= r < rows.len() && !(site_atom(hs, #[trigger] rows[r]) is Some);
        assert(site_atom(hp, rp[r]) == site_atom(hs, rows[r]));
    }
}

} // verus!
