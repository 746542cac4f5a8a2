//! Gaussian formatted checkpoint files: labelled sections, each a header line
//! of fixed columns (a 40-character label, a 7-character type code, a
//! 2-character array marker, then a value or an array size) and, for arrays,
//! fixed-width values wrapped over lines.
use vstd::prelude::*;
use crate::text::{
    ParseError, PResult, CharClass, run_end, lemma_run_end, scan_run, line_end, scan_line, to_chars,
    rest_of, strip_cr, slice_text, token_chars, trim_ws, trim_bounds, find_from, find_text,
    usize_token, usize_of_token, END_MARK_LINE,
};

verus! {

/// The type of a section's values, with the width of one value in an array.
#[derive(Debug, Clone, Copy, PartialEq, Eq, Structural)]
pub enum DataType {
    /// `I`, written 6 to a line, 12 wide.
    Integer,
    /// `R`, written 5 to a line, 16 wide.
    Real,
    /// `L`, written 72 to a line, 1 wide.
    Logical,
    /// `C`, written 5 to a line, 12 wide.
    Character1,
    /// `H`, written 9 to a line, 8 wide.
    Character2,
}

pub open spec fn width_of(t: DataType) -> nat {
    match t {
        DataType::Integer => 12,
        DataType::Real => 16,
        DataType::Logical => 1,
        DataType::Character1 => 12,
        DataType::Character2 => 8,
    }
}

/// The type that a type code names, surrounding whitespace ignored: `I`, `R`,
/// `C` or `H`.
pub open spec fn data_type_of(code: Seq<char>) -> Option<DataType> {
    let t = trim_ws(code);
    if t == seq!['I'] {
        Some(DataType::Integer)
    } else if t == seq!['R'] {
        Some(DataType::Real)
    } else if t == seq!['C'] {
        Some(DataType::Character1)
    } else if t == seq!['H'] {
        Some(DataType::Character2)
    } else {
        None
    }
}

impl DataType {
    /// The width of one value of this type in an array.
    pub fn width(&self) -> (r: usize)
        ensures
            r == width_of(*self),
    {
        match self {
            DataType::Integer => 12,
            DataType::Real => 16,
            DataType::Logical => 1,
            DataType::Character1 => 12,
            DataType::Character2 => 8,
        }
    }

    /// The type that `code` names.
    pub fn from_code(code: &str) -> (r: Option<DataType>)
        ensures
            r == data_type_of(code@),
    {
        let cs = to_chars(code);
        let (a, b) = trim_bounds(&cs);
        if b - a != 1 {
            proof {
                let t = trim_ws(cs@);
                assert(t.len() != 1);
                assert(t != seq!['I'] && t != seq!['R'] && t != seq!['C'] && t != seq!['H']) by {
                    if t == seq!['I'] || t == seq!['R'] || t == seq!['C'] || t == seq!['H'] {
                        assert(t.len() == 1);
                    }
                }
            }
            return None;
        }
        let c = cs[a];
        let ghost t = trim_ws(cs@);
        assert(t =~= seq![c]);
        if c == 'I' {
            Some(DataType::Integer)
        } else if c == 'R' {
            Some(DataType::Real)
        } else if c == 'C' {
            Some(DataType::Character1)
        } else if c == 'H' {
            Some(DataType::Character2)
        } else {
            assert(t != seq!['I'] && t != seq!['R'] && t != seq!['C'] && t != seq!['H']) by {
                if t == seq!['I'] {
                    assert(t[0] == 'I');
                }
                if t == seq!['R'] {
                    assert(t[0] == 'R');
                }
                if t == seq!['C'] {
                    assert(t[0] == 'C');
                }
                if t == seq!['H'] {
                    assert(t[0] == 'H');
                }
            }
            None
        }
    }
}

impl std::str::FromStr for DataType {
    type Err = ParseError;

    fn from_str(s: &str) -> Result<DataType, ParseError> {
        match DataType::from_code(s) {
            Some(t) => Ok(t),
            None => Err(ParseError::Error),
        }
    }
}

/// One section of a formatted checkpoint file. `value` is the scalar value,
/// or for an array its size; `data_array` holds an array's values as written,
/// each as wide as its type says.
#[derive(Debug)]
pub struct Section {
    pub label: String,
    pub data_type: DataType,
    pub is_array: bool,
    pub value: String,
    pub data_array: Option<Vec<String>>,
}

/// Where a section header's parts lie: the label, type and value texts
/// (trimmed), whether it announces an array, and the index after the line.
pub type HeaderSpans = (Seq<char>, DataType, bool, Seq<char>, int);

/// A section header line at `i`.
pub open spec fn header_at(cs: Seq<char>, i: int) -> Result<HeaderSpans, ParseError> {
    if i + 49 > cs.len() || line_end(cs, i + 49) == cs.len() {
        Err(ParseError::Incomplete)
    } else {
        match data_type_of(cs.subrange(i + 40, i + 47)) {
            None => Err(ParseError::Error),
            Some(t) => Ok(
                (
                    trim_ws(cs.subrange(i, i + 40)),
                    t,
                    trim_ws(cs.subrange(i + 47, i + 49)) == seq!['N', '='],
                    trim_ws(strip_cr(cs.subrange(i + 49, line_end(cs, i + 49)))),
                    line_end(cs, i + 49) + 1,
                ),
            ),
        }
    }
}

/// The trimmed text of `cs[a..b]`.
fn trimmed(s: &str, cs: &Vec<char>, a: usize, b: usize) -> (r: String)
    requires
        cs@ == s@,
        a <= b <= cs@.len(),
    ensures
        r@ == trim_ws(cs@.subrange(a as int, b as int)),
{
    let t = token_chars(s, cs, a, b);
    let (x, y) = trim_bounds(&t);
    let r = slice_text(s, cs, a + x, a + y);
    assert(r@ =~= t@.subrange(x as int, y as int));
    r
}

fn scan_header(s: &str, cs: &Vec<char>, i: usize) -> (r: Result<(Section, usize), ParseError>)
    requires
        cs@ == s@,
        i <= cs@.len(),
    ensures
        match header_at(cs@, i as int) {
            Ok(h) => r matches Ok((sec, n)) && n == h.4 && n <= cs@.len() && sec.label@ == h.0
                && sec.data_type == h.1 && sec.is_array == h.2 && sec.value@ == h.3
                && sec.data_array is None,
            Err(x) => r == Err::<(Section, usize), ParseError>(x),
        },
{
    assert(cs@.len() == cs.len());
    if 49 > cs.len() - i {
        return Err(ParseError::Incomplete);
    }
    proof {
        lemma_run_end(cs@, i + 49, CharClass::NotNewline);
    }
    let (t, n) = match scan_line(cs, i + 49) {
        Ok(x) => x,
        Err(e) => {
            return Err(e);
        },
    };
    let code = slice_text(s, cs, i + 40, i + 47);
    let dt = match DataType::from_code(code.as_str()) {
        Some(x) => x,
        None => {
            return Err(ParseError::Error);
        },
    };
    let label = trimmed(s, cs, i, i + 40);
    let marker = token_chars(s, cs, i + 47, i + 49);
    let (x, y) = trim_bounds(&marker);
    let is_array = y - x == 2 && marker[x] == 'N' && marker[x + 1] == '=';
    proof {
        let m = trim_ws(cs@.subrange(i + 47, i + 49));
        assert(m =~= marker@.subrange(x as int, y as int));
        if is_array {
            assert(m =~= seq!['N', '=']);
        } else if m == seq!['N', '='] {
            assert(m.len() == 2 && m[0] == 'N' && m[1] == '=');
        }
    }
    let value = trimmed(s, cs, i + 49, t);
    Ok((Section { label, data_type: dt, is_array, value, data_array: None }, n))
}

/// Reads a section header line:
/// `"Nuclear charges                            R   N=          11 \n"`.
pub fn read_section_header(input: &str) -> (r: PResult<'_, Section>)
    ensures
        match header_at(input@, 0) {
            Ok(h) => r matches Ok((rest, sec)) && rest@ == input@.skip(h.4) && sec.label@ == h.0
                && sec.data_type == h.1 && sec.is_array == h.2 && sec.value@ == h.3
                && sec.data_array is None,
            Err(x) => r == Err::<(&str, Section), ParseError>(x),
        },
{
    let cs = to_chars(input);
    match scan_header(input, &cs, 0) {
        Ok((sec, n)) => Ok((rest_of(input, &cs, n), sec)),
        Err(x) => Err(x),
    }
}

/// `m` values of width `w` from `p` on, each after any carriage returns and
/// line feeds: their texts and the index after the last.
pub open spec fn items_from(cs: Seq<char>, p: int, m: nat, w: nat) -> Result<(Seq<Seq<char>>, int), ParseError>
    decreases m,
{
    if m == 0 {
        Ok((Seq::empty(), p))
    } else {
        let a = run_end(cs, p, CharClass::LineSpace);
        if a + w > cs.len() {
            Err(ParseError::Incomplete)
        } else {
            match items_from(cs, a + w, (m - 1) as nat, w) {
                Ok((rest, n)) => Ok((seq![cs.subrange(a, a + w)] + rest, n)),
                Err(e) => Err(e),
            }
        }
    }
}

fn scan_items(s: &str, cs: &Vec<char>, p: usize, m: usize, w: usize) -> (r: Result<(Vec<String>, usize), ParseError>)
    requires
        cs@ == s@,
        p <= cs@.len(),
    ensures
        match items_from(cs@, p as int, m as nat, w as nat) {
            Ok((its, n)) => r matches Ok((v, q)) && q == n && n <= cs@.len() && v@.len() == its.len()
                && forall|k: int| 0 <= k < its.len() ==> (#[trigger] v@[k])@ == its[k],
            Err(x) => r == Err::<(Vec<String>, usize), ParseError>(x),
        },
{
    let mut v: Vec<String> = Vec::new();
    let mut j: usize = p;
    let mut left: usize = m;
    let ghost mut done: Seq<Seq<char>> = Seq::empty();
    while left > 0
        invariant
            cs@ == s@,
            j <= cs@.len(),
            left <= m,
            v@.len() == done.len(),
            forall|k: int| 0 <= k < done.len() ==> (#[trigger] v@[k])@ == done[k],
            match items_from(cs@, j as int, left as nat, w as nat) {
                Ok((its, n)) => items_from(cs@, p as int, m as nat, w as nat) == Ok::<(Seq<Seq<char>>, int), ParseError>(
                    (done + its, n),
                ),
                Err(x) => items_from(cs@, p as int, m as nat, w as nat) == Err::<(Seq<Seq<char>>, int), ParseError>(x),
            },
        decreases left,
    {
        assert(cs@.len() == cs.len());
        let a = scan_run(cs, j, CharClass::LineSpace);
        if w > cs.len() - a {
            return Err(ParseError::Incomplete);
        }
        let item = slice_text(s, cs, a, a + w);
        proof {
            let t = cs@.subrange(a as int, a + w);
            match items_from(cs@, a + w, (left - 1) as nat, w as nat) {
                Ok((its, n)) => {
                    assert(done + (seq![t] + its) =~= done.push(t) + its);
                },
                Err(x) => {},
            }
            done = done.push(t);
        }
        v.push(item);
        j = a + w;
        left = left - 1;
    }
    assert(done + Seq::<Seq<char>>::empty() =~= done);
    Ok((v, j))
}

/// Reads `m` values of width `w`; line endings between them are skipped.
pub fn read_data_array(input: &str, array_size: usize, width: usize) -> (r: PResult<'_, Vec<String>>)
    ensures
        match items_from(input@, 0, array_size as nat, width as nat) {
            Ok((its, n)) => r matches Ok((rest, v)) && rest@ == input@.skip(n) && v@.len() == its.len()
                && forall|k: int| 0 <= k < its.len() ==> (#[trigger] v@[k])@ == its[k],
            Err(x) => r == Err::<(&str, Vec<String>), ParseError>(x),
        },
{
    let cs = to_chars(input);
    match scan_items(input, &cs, 0, array_size, width) {
        Ok((v, n)) => Ok((rest_of(input, &cs, n), v)),
        Err(x) => Err(x),
    }
}


/// The section labelled `label`: the first line that starts with it (after
/// a line feed), its header, its array values if it announces an array, and
/// the index after it. An array size that is no number is a `Failure`; so is
/// a section still missing once the end mark has arrived.
pub open spec fn section_at(cs: Seq<char>, label: Seq<char>) -> Result<(HeaderSpans, Option<Seq<Seq<char>>>, int), ParseError> {
    match find_from(cs, 0, seq!['\n'] + label) {
        None => if find_from(cs, 0, END_MARK_LINE@) is Some {
            Err(ParseError::Failure)
        } else {
            Err(ParseError::Incomplete)
        },
        Some(j) => match header_at(cs, j + 1) {
            Err(e) => Err(e),
            Ok(h) => if !h.2 {
                Ok((h, None, h.4))
            } else {
                match usize_token(h.3) {
                    None => Err(ParseError::Failure),
                    Some(size) => match items_from(cs, h.4, size, width_of(h.1)) {
                        Err(e) => Err(e),
                        Ok((its, n)) => Ok((h, Some(its), n)),
                    },
                }
            },
        },
    }
}

/// Whether `sec` is the section that `t` describes.
pub open spec fn section_from(sec: Section, t: (HeaderSpans, Option<Seq<Seq<char>>>, int)) -> bool {
    &&& sec.label@ == t.0.0
    &&& sec.data_type == t.0.1
    &&& sec.is_array == t.0.2
    &&& sec.value@ == t.0.3
    &&& match t.1 {
        None => sec.data_array is None,
        Some(its) => sec.data_array matches Some(v) && v@.len() == its.len() && forall|k: int|
            0 <= k < its.len() ==> (#[trigger] v@[k])@ == its[k],
    }
}

fn scan_section(s: &str, cs: &Vec<char>, label: &str) -> (r: Result<(Section, usize), ParseError>)
    requires
        cs@ == s@,
    ensures
        match section_at(cs@, label@) {
            Ok(t) => r matches Ok((sec, n)) && n == t.2 && n <= cs@.len() && section_from(sec, t),
            Err(x) => r == Err::<(Section, usize), ParseError>(x),
        },
{
    let lc = to_chars(label);
    let mut pat: Vec<char> = Vec::new();
    pat.push('\n');
    let mut k: usize = 0;
    while k < lc.len()
        invariant
            k <= lc@.len(),
            pat@ == seq!['\n'] + lc@.take(k as int),
        decreases lc@.len() - k,
    {
        pat.push(lc[k]);
        assert(lc@.take(k + 1) =~= lc@.take(k as int).push(lc@[k as int]));
        k = k + 1;
    }
    assert(lc@.take(lc@.len() as int) =~= lc@);
    let j = match find_text(cs, 0, &pat) {
        Some(j) => j,
        None => {
            let mark = to_chars(END_MARK_LINE);
            if find_text(cs, 0, &mark).is_some() {
                return Err(ParseError::Failure);
            }
            return Err(ParseError::Incomplete);
        },
    };
    assert(cs@.len() == cs.len());
    assert(pat@.len() >= 1);
    assert(j + 1 <= cs@.len());
    let (sec, n) = match scan_header(s, cs, j + 1) {
        Ok(x) => x,
        Err(e) => {
            return Err(e);
        },
    };
    if !sec.is_array {
        return Ok((sec, n));
    }
    let vc = to_chars(sec.value.as_str());
    let size = match usize_of_token(&vc) {
        Some(v) => v,
        None => {
            return Err(ParseError::Failure);
        },
    };
    let w = sec.data_type.width();
    let (items, m) = match scan_items(s, cs, n, size, w) {
        Ok(x) => x,
        Err(e) => {
            return Err(e);
        },
    };
    let Section { label, data_type, is_array, value, data_array: _ } = sec;
    Ok((Section { label, data_type, is_array, value, data_array: Some(items) }, m))
}

/// Reads the section labelled `label`, skipping everything before it.
pub fn read_section<'a>(input: &'a str, label: &str) -> (r: PResult<'a, Section>)
    ensures
        match section_at(input@, label@) {
            Ok(t) => r matches Ok((rest, sec)) && rest@ == input@.skip(t.2) && section_from(sec, t),
            Err(x) => r == Err::<(&str, Section), ParseError>(x),
        },
{
    let cs = to_chars(input);
    match scan_section(input, &cs, label) {
        Ok((sec, n)) => Ok((rest_of(input, &cs, n), sec)),
        Err(x) => Err(x),
    }
}

/// The value of a real scalar section: `Error` where the section holds
/// another type or an array.
pub open spec fn real_value_at(cs: Seq<char>, label: Seq<char>) -> Result<(Seq<char>, int), ParseError> {
    match section_at(cs, label) {
        Err(e) => Err(e),
        Ok(t) => if t.0.1 != DataType::Real || t.0.2 {
            Err(ParseError::Error)
        } else {
            Ok((t.0.3, t.2))
        },
    }
}

/// The values of a real array section, each trimmed: `Error` where the
/// section holds another type or a scalar.
pub open spec fn real_array_at(cs: Seq<char>, label: Seq<char>) -> Result<(Seq<Seq<char>>, int), ParseError> {
    match section_at(cs, label) {
        Err(e) => Err(e),
        Ok(t) => if t.0.1 != DataType::Real || !t.0.2 {
            Err(ParseError::Error)
        } else {
            Ok((t.1->Some_0.map_values(|x: Seq<char>| trim_ws(x)), t.2))
        },
    }
}

/// Reads the real scalar section labelled `label`: its value as written.
pub fn read_real_value<'a>(input: &'a str, label: &str) -> (r: PResult<'a, String>)
    ensures
        match real_value_at(input@, label@) {
            Ok((v, n)) => r matches Ok((rest, x)) && x@ == v && rest@ == input@.skip(n),
            Err(e) => r == Err::<(&str, String), ParseError>(e),
        },
{
    match read_section(input, label) {
        Ok((rest, sec)) => if sec.data_type != DataType::Real || sec.is_array {
            Err(ParseError::Error)
        } else {
            Ok((rest, sec.value))
        },
        Err(e) => Err(e),
    }
}

/// Reads the real array section labelled `label`: its values, trimmed.
pub fn read_real_array<'a>(input: &'a str, label: &str) -> (r: PResult<'a, Vec<String>>)
    ensures
        match real_array_at(input@, label@) {
            Ok((v, n)) => r matches Ok((rest, x)) && rest@ == input@.skip(n) && x@.len() == v.len()
                && forall|k: int| 0 <= k < v.len() ==> (#[trigger] x@[k])@ == v[k],
            Err(e) => r == Err::<(&str, Vec<String>), ParseError>(e),
        },
{
    let (rest, sec) = match read_section(input, label) {
        Ok(x) => x,
        Err(e) => {
            return Err(e);
        },
    };
    if sec.data_type != DataType::Real || !sec.is_array {
        return Err(ParseError::Error);
    }
    let items = match sec.data_array {
        Some(v) => v,
        None => {
            return Err(ParseError::Error);
        },
    };
    let mut out: Vec<String> = Vec::new();
    let mut k: usize = 0;
    while k < items.len()
        invariant
            k <= items@.len(),
            out@.len() == k,
            forall|q: int| 0 <= q < k ==> (#[trigger] out@[q])@ == trim_ws(items@[q]@),
        decreases items@.len() - k,
    {
        let t = items[k].as_str();
        let tc = to_chars(t);
        let (a, b) = trim_bounds(&tc);
        out.push(slice_text(t, &tc, a, b));
        k = k + 1;
    }
    Ok((rest, out))
}

/// Reads the total energy: the `Total Energy` section's value as written.
pub fn read_total_energy(input: &str) -> (r: PResult<'_, String>)
    ensures
        match real_value_at(input@, "Total Energy"@) {
            Ok((v, n)) => r matches Ok((rest, x)) && x@ == v && rest@ == input@.skip(n),
            Err(e) => r == Err::<(&str, String), ParseError>(e),
        },
{
    read_real_value(input, "Total Energy")
}

/// Reads the Mulliken charges: the `Mulliken Charges` array, trimmed.
pub fn read_mulliken_charges(input: &str) -> (r: PResult<'_, Vec<String>>)
    ensures
        match real_array_at(input@, "Mulliken Charges"@) {
            Ok((v, n)) => r matches Ok((rest, x)) && rest@ == input@.skip(n) && x@.len() == v.len()
                && forall|k: int| 0 <= k < v.len() ==> (#[trigger] x@[k])@ == v[k],
            Err(e) => r == Err::<(&str, Vec<String>), ParseError>(e),
        },
{
    read_real_array(input, "Mulliken Charges")
}

/// Reads the Cartesian gradient: the `Cartesian Gradient` array, trimmed.
pub fn read_cartesian_gradient(input: &str) -> (r: PResult<'_, Vec<String>>)
    ensures
        match real_array_at(input@, "Cartesian Gradient"@) {
            Ok((v, n)) => r matches Ok((rest, x)) && rest@ == input@.skip(n) && x@.len() == v.len()
                && forall|k: int| 0 <= k < v.len() ==> (#[trigger] x@[k])@ == v[k],
            Err(e) => r == Err::<(&str, Vec<String>), ParseError>(e),
        },
{
    read_real_array(input, "Cartesian Gradient")
}

/// Reads the dipole moment: the `Dipole Moment` array, trimmed.
pub fn read_dipole_moment(input: &str) -> (r: PResult<'_, Vec<String>>)
    ensures
        match real_array_at(input@, "Dipole Moment"@) {
            Ok((v, n)) => r matches Ok((rest, x)) && rest@ == input@.skip(n) && x@.len() == v.len()
                && forall|k: int| 0 <= k < v.len() ==> (#[trigger] x@[k])@ == v[k],
            Err(e) => r == Err::<(&str, Vec<String>), ParseError>(e),
        },
{
    read_real_array(input, "Dipole Moment")
}

/// Reads what a model calculation needs: the total energy, then the Mulliken
/// charges from the text after it.
pub fn read_model_properties(input: &str) -> (r: PResult<'_, (String, Vec<String>)>)
    ensures
        match real_value_at(input@, "Total Energy"@) {
            Err(e) => r == Err::<(&str, (String, Vec<String>)), ParseError>(e),
            Ok((energy, n)) => match real_array_at(input@.skip(n), "Mulliken Charges"@) {
                Err(e) => r == Err::<(&str, (String, Vec<String>)), ParseError>(e),
                Ok((charges, m)) => r matches Ok((rest, x)) && x.0@ == energy && rest@ == input@.skip(
                    n,
                ).skip(m) && x.1@.len() == charges.len() && forall|k: int|
                    0 <= k < charges.len() ==> (#[trigger] x.1@[k])@ == charges[k],
            },
        },
{
    let (rest, energy) = match read_total_energy(input) {
        Ok(x) => x,
        Err(e) => {
            return Err(e);
        },
    };
    match read_mulliken_charges(rest) {
        Ok((rest2, charges)) => Ok((rest2, (energy, charges))),
        Err(e) => Err(e),
    }
}

} // verus!
