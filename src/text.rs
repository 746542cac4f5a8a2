//! Token and line primitives shared by every record grammar.
//!
//! Every scanner works on the characters of the input (`s@`). A scanner
//! that runs into the end of the input before it can decide reports
//! `ParseError::Incomplete`: more text may complete the token.
use vstd::prelude::*;
use vstd::string::StringExecFns;

verus! {

/// The line that the stream driver appends once the source is exhausted; no
/// valid input holds it.
pub const END_MARK_LINE: &'static str = "xTHIS_IS_THE=MAGIC_END_OF_FILE";

/// The text appended at the end of the stream: two line feeds, the end mark
/// line, and a line feed.
pub const END_MARK: &'static str = "\n\nxTHIS_IS_THE=MAGIC_END_OF_FILE\n";

/// Why a grammar did not produce a record.
#[derive(Debug, Clone, Copy, PartialEq, Eq, Structural)]
pub enum ParseError {
    /// The input ends before the record is complete; more text is needed.
    Incomplete,
    /// The record is malformed.
    Error,
    /// The input holds a defect that no further text can mend.
    Failure,
}

/// The result of a grammar: the unconsumed rest of the input and the value.
pub type PResult<'a, T> = Result<(&'a str, T), ParseError>;

/// Character classes that the scanners recognise.
#[derive(Debug, Clone, Copy, PartialEq, Eq, Structural)]
pub enum CharClass {
    /// Space or tab: the inline separator, which never crosses a line.
    InlineSpace,
    /// Carriage return or line feed: the line separator.
    LineSpace,
    /// `0`-`9`.
    Digit,
    /// `a`-`z`, `A`-`Z`.
    Alpha,
    /// Letters and digits.
    Alnum,
    /// Anything but space, tab, carriage return and line feed.
    NotSpace,
    /// Anything but line feed.
    NotNewline,
    /// Space, tab, carriage return, line feed.
    Whitespace,
    /// Any character of Unicode's White_Space property: what trimming removes.
    UnicodeSpace,
}

pub open spec fn is_digit(c: char) -> bool {
    '0' <= c && c <= '9'
}

pub open spec fn is_alpha(c: char) -> bool {
    ('a' <= c && c <= 'z') || ('A' <= c && c <= 'Z')
}

pub open spec fn is_whitespace(c: char) -> bool {
    c == ' ' || c == '\t' || c == '\r' || c == '\n'
}

/// Unicode's White_Space property: tab to carriage return, space, next line,
/// no-break space, ogham space mark, the spaces from en quad to hair space,
/// line and paragraph separators, narrow no-break space, medium mathematical
/// space and ideographic space.
pub open spec fn is_unicode_space(c: char) -> bool {
    ('\u{9}' <= c && c <= '\u{d}') || c == ' ' || c == '\u{85}' || c == '\u{a0}' || c == '\u{1680}'
        || ('\u{2000}' <= c && c <= '\u{200a}') || c == '\u{2028}' || c == '\u{2029}' || c
        == '\u{202f}' || c == '\u{205f}' || c == '\u{3000}'
}

/// Whether `c` is Unicode White_Space.
pub fn unicode_space(c: char) -> (r: bool)
    ensures
        r == is_unicode_space(c),
{
    ('\u{9}' <= c && c <= '\u{d}') || c == ' ' || c == '\u{85}' || c == '\u{a0}' || c == '\u{1680}'
        || ('\u{2000}' <= c && c <= '\u{200a}') || c == '\u{2028}' || c == '\u{2029}' || c
        == '\u{202f}' || c == '\u{205f}' || c == '\u{3000}'
}

pub open spec fn in_class(k: CharClass, c: char) -> bool {
    match k {
        CharClass::InlineSpace => c == ' ' || c == '\t',
        CharClass::LineSpace => c == '\r' || c == '\n',
        CharClass::Digit => is_digit(c),
        CharClass::Alpha => is_alpha(c),
        CharClass::Alnum => is_alpha(c) || is_digit(c),
        CharClass::NotSpace => !is_whitespace(c),
        CharClass::NotNewline => c != '\n',
        CharClass::Whitespace => is_whitespace(c),
        CharClass::UnicodeSpace => is_unicode_space(c),
    }
}

/// The end of the longest run of class `k` that starts at `i`.
pub open spec fn run_end(cs: Seq<char>, i: int, k: CharClass) -> int
    decreases cs.len() - i,
{
    if 0 <= i < cs.len() && in_class(k, cs[i]) {
        run_end(cs, i + 1, k)
    } else {
        i
    }
}

pub proof fn lemma_run_end(cs: Seq<char>, i: int, k: CharClass)
    requires
        0 <= i <= cs.len(),
    ensures
        i <= run_end(cs, i, k) <= cs.len(),
        forall|j: int| i <= j < run_end(cs, i, k) ==> in_class(k, #[trigger] cs[j]),
        run_end(cs, i, k) < cs.len() ==> !in_class(k, cs[run_end(cs, i, k)]),
    decreases cs.len() - i,
{
    if i < cs.len() && in_class(k, cs[i]) {
        lemma_run_end(cs, i + 1, k);
    }
}

fn char_in_class(k: CharClass, c: char) -> (r: bool)
    ensures
        r == in_class(k, c),
{
    match k {
        CharClass::InlineSpace => c == ' ' || c == '\t',
        CharClass::LineSpace => c == '\r' || c == '\n',
        CharClass::Digit => '0' <= c && c <= '9',
        CharClass::Alpha => ('a' <= c && c <= 'z') || ('A' <= c && c <= 'Z'),
        CharClass::Alnum => ('a' <= c && c <= 'z') || ('A' <= c && c <= 'Z') || ('0' <= c && c
            <= '9'),
        CharClass::NotSpace => !(c == ' ' || c == '\t' || c == '\r' || c == '\n'),
        CharClass::NotNewline => c != '\n',
        CharClass::Whitespace => c == ' ' || c == '\t' || c == '\r' || c == '\n',
        CharClass::UnicodeSpace => unicode_space(c),
    }
}

/// Index just past the run of class `k` that starts at `i`.
pub fn scan_run(cs: &Vec<char>, i: usize, k: CharClass) -> (r: usize)
    requires
        i <= cs@.len(),
    ensures
        r == run_end(cs@, i as int, k),
        i <= r <= cs@.len(),
{
    let mut j: usize = i;
    while j < cs.len() && char_in_class(k, cs[j])
        invariant
            i <= j <= cs@.len(),
            run_end(cs@, i as int, k) == run_end(cs@, j as int, k),
        decreases cs@.len() - j,
    {
        j = j + 1;
    }
    proof {
        lemma_run_end(cs@, j as int, k);
    }
    j
}

/// The characters of `s`, one per element.
pub fn to_chars(s: &str) -> (r: Vec<char>)
    ensures
        r@ == s@,
{
    let mut v: Vec<char> = Vec::new();
    for c in it: s.chars()
        invariant
            v@ == it.seq().take(it.index() as int),
            it.seq() == s@,
    {
        v.push(c);
    }
    v
}

/// The text of `s` from character `i` to character `j`.
pub fn slice_text(s: &str, cs: &Vec<char>, i: usize, j: usize) -> (r: String)
    requires
        cs@ == s@,
        i <= j <= cs@.len(),
    ensures
        r@ == s@.subrange(i as int, j as int),
{
    s.substring_char(i, j).to_owned()
}

/// The rest of `s` from character `i` on.
pub fn rest_of<'a>(s: &'a str, cs: &Vec<char>, i: usize) -> (r: &'a str)
    requires
        cs@ == s@,
        i <= cs@.len(),
    ensures
        r@ == s@.skip(i as int),
{
    let r = s.substring_char(i, cs.len());
    assert(r@ =~= s@.skip(i as int));
    r
}

/// The value of the decimal digits `cs[i..j]`.
pub open spec fn digits_value(cs: Seq<char>, i: int, j: int) -> nat
    decreases j - i,
{
    if j <= i {
        0
    } else {
        digits_value(cs, i, j - 1) * 10 + (cs[j - 1] as nat - '0' as nat) as nat
    }
}

proof fn lemma_digits_value_grows(cs: Seq<char>, i: int, j: int, k: int)
    requires
        i <= j <= k <= cs.len(),
        forall|m: int| i <= m < k ==> is_digit(#[trigger] cs[m]),
    ensures
        digits_value(cs, i, j) <= digits_value(cs, i, k),
    decreases k - j,
{
    if j < k {
        lemma_digits_value_grows(cs, i, j, k - 1);
        assert(digits_value(cs, i, k) == digits_value(cs, i, k - 1) * 10 + (cs[k - 1] as nat
            - '0' as nat) as nat);
    }
}

/// The value of the digits `cs[i..j]`, or `None` where it exceeds `usize::MAX`.
pub fn digits_to_usize(cs: &Vec<char>, i: usize, j: usize) -> (r: Option<usize>)
    requires
        i <= j <= cs@.len(),
        forall|m: int| i <= m < j ==> is_digit(#[trigger] cs@[m]),
    ensures
        r == (if digits_value(cs@, i as int, j as int) <= usize::MAX {
            Some(digits_value(cs@, i as int, j as int) as usize)
        } else {
            None::<usize>
        }),
{
    let mut acc: usize = 0;
    let mut m: usize = i;
    while m < j
        invariant
            i <= m <= j <= cs@.len(),
            forall|q: int| i <= q < j ==> is_digit(#[trigger] cs@[q]),
            acc == digits_value(cs@, i as int, m as int),
        decreases j - m,
    {
        let d = (cs[m] as u32 - '0' as u32) as usize;
        assert(is_digit(cs@[m as int]));
        if acc > (usize::MAX - d) / 10 {
            proof {
                assert(digits_value(cs@, i as int, m as int + 1) == acc * 10 + d) by {
                    assert(d == (cs@[m as int] as nat - '0' as nat));
                }
                assert(acc * 10 + d > usize::MAX) by (nonlinear_arith)
                    requires
                        acc > (usize::MAX - d) / 10,
                        d <= 9,
                ;
                lemma_digits_value_grows(cs@, i as int, m as int + 1, j as int);
            }
            return None;
        }
        assert(acc * 10 + d <= usize::MAX) by (nonlinear_arith)
            requires
                acc <= (usize::MAX - d) / 10,
                d <= 9,
        ;
        acc = acc * 10 + d;
        m = m + 1;
    }
    Some(acc)
}


// ---------------------------------------------------------------- lines

/// Index of the first line feed at or after `i` (the input's length if none).
pub open spec fn line_end(cs: Seq<char>, i: int) -> int {
    run_end(cs, i, CharClass::NotNewline)
}

/// `t` without one trailing carriage return.
pub open spec fn strip_cr(t: Seq<char>) -> Seq<char> {
    if t.len() > 0 && t.last() == '\r' {
        t.drop_last()
    } else {
        t
    }
}

/// Length of the line ending (`"\n"` or `"\r\n"`) at `i`, 0 where none starts there.
pub open spec fn eol_len(cs: Seq<char>, i: int) -> int {
    if 0 <= i < cs.len() && cs[i] == '\n' {
        1
    } else if 0 <= i && i + 1 < cs.len() && cs[i] == '\r' && cs[i + 1] == '\n' {
        2
    } else {
        0
    }
}

/// Whether the input ends too early to tell if a line ending starts at `i`.
pub open spec fn eol_undecided(cs: Seq<char>, i: int) -> bool {
    i == cs.len() || (i + 1 == cs.len() && cs[i] == '\r')
}

/// Decides the line ending at `i`: the index after it.
pub fn scan_eol(cs: &Vec<char>, i: usize) -> (r: Result<usize, ParseError>)
    requires
        i <= cs@.len(),
    ensures
        eol_undecided(cs@, i as int) ==> r == Err::<usize, ParseError>(ParseError::Incomplete),
        !eol_undecided(cs@, i as int) && eol_len(cs@, i as int) == 0 ==> r == Err::<
            usize,
            ParseError,
        >(ParseError::Error),
        !eol_undecided(cs@, i as int) && eol_len(cs@, i as int) > 0 ==> r == Ok::<
            usize,
            ParseError,
        >((i + eol_len(cs@, i as int)) as usize),
{
    if i == cs.len() {
        Err(ParseError::Incomplete)
    } else if cs[i] == '\n' {
        Ok(i + 1)
    } else if cs[i] == '\r' {
        if i + 1 == cs.len() {
            Err(ParseError::Incomplete)
        } else if cs[i + 1] == '\n' {
            Ok(i + 2)
        } else {
            Err(ParseError::Error)
        }
    } else {
        Err(ParseError::Error)
    }
}

/// Finds the line that starts at `i`: the end of its text (a trailing carriage
/// return left out) and the index after its line feed.
pub fn scan_line(cs: &Vec<char>, i: usize) -> (r: Result<(usize, usize), ParseError>)
    requires
        i <= cs@.len(),
    ensures
        line_end(cs@, i as int) == cs@.len() ==> r == Err::<(usize, usize), ParseError>(
            ParseError::Incomplete,
        ),
        line_end(cs@, i as int) < cs@.len() ==> (r matches Ok((t, n)) && n == line_end(
            cs@,
            i as int,
        ) + 1 && i <= t <= line_end(cs@, i as int) && cs@.subrange(i as int, t as int)
            == strip_cr(cs@.subrange(i as int, line_end(cs@, i as int)))),
        r matches Ok((t, n)) ==> n <= cs@.len(),
{
    let e = scan_run(cs, i, CharClass::NotNewline);
    proof {
        lemma_run_end(cs@, i as int, CharClass::NotNewline);
    }
    if e == cs.len() {
        return Err(ParseError::Incomplete);
    }
    let ghost line = cs@.subrange(i as int, e as int);
    if e > i && cs[e - 1] == '\r' {
        assert(cs@.subrange(i as int, e - 1) =~= line.drop_last());
        Ok((e - 1, e + 1))
    } else {
        Ok((e, e + 1))
    }
}

/// Reads one line: its text without the line ending, and the rest after it.
pub fn read_line(input: &str) -> (r: PResult<'_, &str>)
    ensures
        line_end(input@, 0) == input@.len() ==> r == Err::<(&str, &str), ParseError>(
            ParseError::Incomplete,
        ),
        line_end(input@, 0) < input@.len() ==> (r matches Ok((rest, line)) && line@ == strip_cr(
            input@.subrange(0, line_end(input@, 0)),
        ) && rest@ == input@.skip(line_end(input@, 0) + 1)),
{
    let cs = to_chars(input);
    proof {
        lemma_run_end(cs@, 0, CharClass::NotNewline);
    }
    match scan_line(&cs, 0) {
        Ok((t, n)) => {
            let line = input.substring_char(0, t);
            Ok((rest_of(input, &cs, n), line))
        },
        Err(e) => Err(e),
    }
}

/// Reads the rest of a line, as `read_line` does.
pub fn read_until_eol(input: &str) -> (r: PResult<'_, &str>)
    ensures
        line_end(input@, 0) == input@.len() ==> r == Err::<(&str, &str), ParseError>(
            ParseError::Incomplete,
        ),
        line_end(input@, 0) < input@.len() ==> (r matches Ok((rest, line)) && line@ == strip_cr(
            input@.subrange(0, line_end(input@, 0)),
        ) && rest@ == input@.skip(line_end(input@, 0) + 1)),
{
    read_line(input)
}

/// Line `k` (counted from 0) of `cs` from `i` on, as the pair
/// (start, end of its text).
pub open spec fn nth_line_start(cs: Seq<char>, i: int, k: nat) -> int
    decreases k,
{
    if k == 0 {
        i
    } else {
        line_end(cs, nth_line_start(cs, i, (k - 1) as nat)) + 1
    }
}

/// Whether `m` complete lines start at `i`.
pub open spec fn has_lines(cs: Seq<char>, i: int, m: nat) -> bool {
    forall|k: nat| k < m ==> line_end(cs, #[trigger] nth_line_start(cs, i, k)) < cs.len()
}

/// Reads exactly `m` lines.
pub fn read_many_lines(input: &str, m: usize) -> (r: PResult<'_, Vec<&str>>)
    ensures
        has_lines(input@, 0, m as nat) <==> r is Ok,
        !has_lines(input@, 0, m as nat) ==> r == Err::<(&str, Vec<&str>), ParseError>(
            ParseError::Incomplete,
        ),
        r matches Ok((rest, lines)) ==> lines@.len() == m && rest@ == input@.skip(
            nth_line_start(input@, 0, m as nat),
        ) && forall|k: int|
            0 <= k < m ==> (#[trigger] lines@[k])@ == strip_cr(
                input@.subrange(
                    nth_line_start(input@, 0, k as nat),
                    line_end(input@, nth_line_start(input@, 0, k as nat)),
                ),
            ),
{
    let cs = to_chars(input);
    let mut lines: Vec<&str> = Vec::new();
    let mut i: usize = 0;
    let mut k: usize = 0;
    while k < m
        invariant
            cs@ == input@,
            k <= m,
            i <= cs@.len(),
            i == nth_line_start(cs@, 0, k as nat),
            lines@.len() == k,
            has_lines(cs@, 0, k as nat),
            forall|q: int|
                0 <= q < k ==> (#[trigger] lines@[q])@ == strip_cr(
                    cs@.subrange(
                        nth_line_start(cs@, 0, q as nat),
                        line_end(cs@, nth_line_start(cs@, 0, q as nat)),
                    ),
                ),
        decreases m - k,
    {
        proof {
            lemma_run_end(cs@, i as int, CharClass::NotNewline);
        }
        match scan_line(&cs, i) {
            Ok((t, n)) => {
                let line = input.substring_char(i, t);
                lines.push(line);
                assert(nth_line_start(cs@, 0, (k + 1) as nat) == line_end(
                    cs@,
                    nth_line_start(cs@, 0, k as nat),
                ) + 1);
                i = n;
                k = k + 1;
                assert(has_lines(cs@, 0, k as nat)) by {
                    assert forall|q: nat| q < k implies line_end(
                        cs@,
                        #[trigger] nth_line_start(cs@, 0, q),
                    ) < cs@.len() by {
                        if q < k - 1 {
                            assert(has_lines(cs@, 0, (k - 1) as nat));
                        }
                    }
                }
            },
            Err(e) => {
                assert(!has_lines(cs@, 0, m as nat)) by {
                    assert(line_end(cs@, nth_line_start(cs@, 0, k as nat)) == cs@.len());
                }
                return Err(e);
            },
        }
    }
    Ok((rest_of(input, &cs, i), lines))
}


// ---------------------------------------------------------------- numbers

/// An unsigned integer at `i`: the index after its digits and its value.
pub open spec fn unsigned_at(cs: Seq<char>, i: int) -> Result<(int, nat), ParseError> {
    let d = run_end(cs, i, CharClass::Digit);
    if d == cs.len() {
        Err(ParseError::Incomplete)
    } else if d == i {
        Err(ParseError::Error)
    } else {
        Ok((d, digits_value(cs, i, d)))
    }
}

/// `unsigned_at` for a value that must fit in `usize`.
pub open spec fn usize_at(cs: Seq<char>, i: int) -> Result<(int, nat), ParseError> {
    match unsigned_at(cs, i) {
        Ok((d, v)) => if v <= usize::MAX {
            Ok((d, v))
        } else {
            Err(ParseError::Error)
        },
        Err(e) => Err(e),
    }
}

pub fn scan_unsigned(cs: &Vec<char>, i: usize) -> (r: Result<(usize, usize), ParseError>)
    requires
        i <= cs@.len(),
    ensures
        match usize_at(cs@, i as int) {
            Ok((d, v)) => 0 <= d <= cs@.len() && r == Ok::<(usize, usize), ParseError>(
                (d as usize, v as usize),
            ),
            Err(e) => r == Err::<(usize, usize), ParseError>(e),
        },
        r matches Ok((d, v)) ==> i < d < cs@.len(),
{
    let d = scan_run(cs, i, CharClass::Digit);
    proof {
        lemma_run_end(cs@, i as int, CharClass::Digit);
    }
    if d == cs.len() {
        return Err(ParseError::Incomplete);
    }
    if d == i {
        return Err(ParseError::Error);
    }
    match digits_to_usize(cs, i, d) {
        Some(v) => Ok((d, v)),
        None => Err(ParseError::Error),
    }
}

/// Reads one unsigned integer: `"12\n"` gives 12.
pub fn unsigned_digit(input: &str) -> (r: PResult<'_, usize>)
    ensures
        match usize_at(input@, 0) {
            Ok((d, v)) => r matches Ok((rest, x)) && x == v && rest@ == input@.skip(d),
            Err(e) => r == Err::<(&str, usize), ParseError>(e),
        },
{
    let cs = to_chars(input);
    match scan_unsigned(&cs, 0) {
        Ok((d, v)) => {
            assert(usize_at(cs@, 0) matches Ok((d1, v1)) && d1 == d && v1 == v);
            Ok((rest_of(input, &cs, d), v))
        },
        Err(e) => Err(e),
    }
}

/// Index after an optional `+` or `-` at `i`.
pub open spec fn after_sign(cs: Seq<char>, i: int) -> int {
    if 0 <= i < cs.len() && (cs[i] == '+' || cs[i] == '-') {
        i + 1
    } else {
        i
    }
}

/// A signed integer at `i`: the index after it and its value.
pub open spec fn signed_at(cs: Seq<char>, i: int) -> Result<(int, int), ParseError> {
    let a = after_sign(cs, i);
    if i == cs.len() {
        Err(ParseError::Incomplete)
    } else {
        match unsigned_at(cs, a) {
            Ok((d, v)) => {
                let x: int = if cs[i] == '-' {
                    -v
                } else {
                    v as int
                };
                if isize::MIN <= x <= isize::MAX {
                    Ok((d, x))
                } else {
                    Err(ParseError::Error)
                }
            },
            Err(e) => Err(e),
        }
    }
}

/// Reads one signed integer: `"+12"`, `"12"`, `"-12"`.
pub fn signed_digit(input: &str) -> (r: PResult<'_, isize>)
    ensures
        match signed_at(input@, 0) {
            Ok((d, v)) => r matches Ok((rest, x)) && x == v && rest@ == input@.skip(d),
            Err(e) => r == Err::<(&str, isize), ParseError>(e),
        },
{
    let cs = to_chars(input);
    if cs.len() == 0 {
        return Err(ParseError::Incomplete);
    }
    let neg = cs[0] == '-';
    let a: usize = if cs[0] == '+' || cs[0] == '-' {
        1
    } else {
        0
    };
    let d = scan_run(&cs, a, CharClass::Digit);
    proof {
        lemma_run_end(cs@, a as int, CharClass::Digit);
    }
    if d == cs.len() {
        return Err(ParseError::Incomplete);
    }
    if d == a {
        return Err(ParseError::Error);
    }
    match digits_to_usize(&cs, a, d) {
        Some(v) => {
            if neg {
                if v <= isize::MAX as usize {
                    Ok((rest_of(input, &cs, d), -(v as isize)))
                } else if v == isize::MAX as usize + 1 {
                    Ok((rest_of(input, &cs, d), isize::MIN))
                } else {
                    Err(ParseError::Error)
                }
            } else if v <= isize::MAX as usize {
                Ok((rest_of(input, &cs, d), v as isize))
            } else {
                Err(ParseError::Error)
            }
        },
        None => Err(ParseError::Error),
    }
}

/// End of the mantissa that starts at `i` (after any sign): digits, then
/// optionally a point and more digits.
pub open spec fn mantissa_end(cs: Seq<char>, i: int) -> int {
    let b = run_end(cs, i, CharClass::Digit);
    if 0 <= b < cs.len() && cs[b] == '.' {
        run_end(cs, b + 1, CharClass::Digit)
    } else {
        b
    }
}

/// Whether the mantissa that starts at `i` holds at least one digit.
pub open spec fn mantissa_has_digit(cs: Seq<char>, i: int) -> bool {
    let b = run_end(cs, i, CharClass::Digit);
    b > i || (0 <= b < cs.len() && cs[b] == '.' && run_end(cs, b + 1, CharClass::Digit) > b + 1)
}

/// End of an optional exponent (`e` or `E`, a sign, digits) at `m`.
pub open spec fn exponent_end(cs: Seq<char>, m: int) -> int {
    if 0 <= m < cs.len() && (cs[m] == 'e' || cs[m] == 'E') {
        let d = after_sign(cs, m + 1);
        let e = run_end(cs, d, CharClass::Digit);
        if e > d {
            e
        } else {
            m
        }
    } else {
        m
    }
}

/// End of the floating-point literal at `i`.
pub open spec fn float_end(cs: Seq<char>, i: int) -> int {
    exponent_end(cs, mantissa_end(cs, after_sign(cs, i)))
}

/// A floating-point literal at `i`: the index after it. Its text is
/// `cs[i..end]`, kept as written so that no precision is lost.
pub open spec fn float_at(cs: Seq<char>, i: int) -> Result<int, ParseError> {
    if float_end(cs, i) == cs.len() {
        Err(ParseError::Incomplete)
    } else if !mantissa_has_digit(cs, after_sign(cs, i)) {
        Err(ParseError::Error)
    } else {
        Ok(float_end(cs, i))
    }
}

/// The end of the floating-point literal at `i`, and whether its mantissa has a digit.
fn float_parts(cs: &Vec<char>, i: usize) -> (r: (usize, bool))
    requires
        i <= cs@.len(),
    ensures
        r.0 == float_end(cs@, i as int),
        r.1 == mantissa_has_digit(cs@, after_sign(cs@, i as int)),
        i <= r.0 <= cs@.len(),
        r.1 ==> i < r.0,
{
    let a: usize = if i < cs.len() && (cs[i] == '+' || cs[i] == '-') {
        i + 1
    } else {
        i
    };
    let b = scan_run(cs, a, CharClass::Digit);
    proof {
        lemma_run_end(cs@, a as int, CharClass::Digit);
    }
    let mut has_digit = b > a;
    let mut m = b;
    if b < cs.len() && cs[b] == '.' {
        m = scan_run(cs, b + 1, CharClass::Digit);
        proof {
            lemma_run_end(cs@, b + 1, CharClass::Digit);
        }
        has_digit = has_digit || m > b + 1;
    }
    let mut e = m;
    if m < cs.len() && (cs[m] == 'e' || cs[m] == 'E') {
        let d: usize = if m + 1 < cs.len() && (cs[m + 1] == '+' || cs[m + 1] == '-') {
            m + 2
        } else {
            m + 1
        };
        let x = scan_run(cs, d, CharClass::Digit);
        proof {
            lemma_run_end(cs@, d as int, CharClass::Digit);
        }
        if x > d {
            e = x;
        }
    }
    (e, has_digit)
}

pub fn scan_float(cs: &Vec<char>, i: usize) -> (r: Result<usize, ParseError>)
    requires
        i <= cs@.len(),
    ensures
        match float_at(cs@, i as int) {
            Ok(e) => 0 <= e <= cs@.len() && r == Ok::<usize, ParseError>(e as usize),
            Err(x) => r == Err::<usize, ParseError>(x),
        },
        r matches Ok(e) ==> i < e < cs@.len(),
{
    let (e, has_digit) = float_parts(cs, i);
    if e == cs.len() {
        Err(ParseError::Incomplete)
    } else if !has_digit {
        Err(ParseError::Error)
    } else {
        Ok(e)
    }
}

/// Whether `t` is, as a whole, one floating-point literal.
pub open spec fn is_float_text(t: Seq<char>) -> bool {
    float_end(t, 0) == t.len() && mantissa_has_digit(t, after_sign(t, 0))
}

/// Whether `t` is a non-empty run of decimal digits.
pub open spec fn is_digits(t: Seq<char>) -> bool {
    t.len() > 0 && forall|k: int| 0 <= k < t.len() ==> is_digit(#[trigger] t[k])
}

pub fn float_text_ok(t: &Vec<char>) -> (r: bool)
    ensures
        r == is_float_text(t@),
{
    let (e, has_digit) = float_parts(t, 0);
    e == t.len() && has_digit
}

pub fn digits_ok(t: &Vec<char>) -> (r: bool)
    ensures
        r == is_digits(t@),
{
    let e = scan_run(t, 0, CharClass::Digit);
    proof {
        lemma_run_end(t@, 0, CharClass::Digit);
    }
    t.len() > 0 && e == t.len()
}

/// Reads one floating-point literal and returns its text: `"1.7E-5 "` gives `"1.7E-5"`.
pub fn double(input: &str) -> (r: PResult<'_, String>)
    ensures
        match float_at(input@, 0) {
            Ok(e) => r matches Ok((rest, x)) && x@ == input@.take(e) && rest@ == input@.skip(e),
            Err(err) => r == Err::<(&str, String), ParseError>(err),
        },
{
    let cs = to_chars(input);
    match scan_float(&cs, 0) {
        Ok(e) => {
            let t = slice_text(input, &cs, 0, e);
            assert(input@.subrange(0, e as int) =~= input@.take(e as int));
            Ok((rest_of(input, &cs, e), t))
        },
        Err(x) => Err(x),
    }
}


// ---------------------------------------------------------------- tokens

/// The whitespace-separated tokens from `i` on, as (start, end) pairs: runs of
/// anything but whitespace, apart by spaces and tabs. The list stops at the
/// first character that is neither (a carriage return or a line feed).
pub open spec fn token_spans(cs: Seq<char>, i: int) -> Seq<(int, int)>
    decreases cs.len() - i,
{
    let a = run_end(cs, i, CharClass::InlineSpace);
    let b = run_end(cs, a, CharClass::NotSpace);
    if 0 <= i <= a && a < b <= cs.len() {
        seq![(a, b)] + token_spans(cs, b)
    } else {
        Seq::empty()
    }
}

/// The index after the tokens from `i` on and the spaces that follow them.
pub open spec fn spans_end(cs: Seq<char>, i: int) -> int
    decreases cs.len() - i,
{
    let a = run_end(cs, i, CharClass::InlineSpace);
    let b = run_end(cs, a, CharClass::NotSpace);
    if 0 <= i <= a && a < b <= cs.len() {
        spans_end(cs, b)
    } else {
        a
    }
}

/// The characters of the token `t`.
pub open spec fn span_text(cs: Seq<char>, t: (int, int)) -> Seq<char> {
    cs.subrange(t.0, t.1)
}

pub open spec fn spans_view(v: Seq<(usize, usize)>) -> Seq<(int, int)> {
    v.map_values(|p: (usize, usize)| (p.0 as int, p.1 as int))
}

proof fn lemma_run_in_line(cs: Seq<char>, i: int, k: CharClass)
    requires
        0 <= i <= cs.len(),
        !in_class(k, '\n'),
    ensures
        run_end(cs, i, k) <= line_end(cs, i),
        line_end(cs, run_end(cs, i, k)) == line_end(cs, i),
    decreases cs.len() - i,
{
    lemma_run_end(cs, i, CharClass::NotNewline);
    if i < cs.len() && in_class(k, cs[i]) {
        lemma_run_in_line(cs, i + 1, k);
    }
}

proof fn lemma_spans_in_line(cs: Seq<char>, i: int)
    requires
        0 <= i <= cs.len(),
    ensures
        i <= spans_end(cs, i) <= line_end(cs, i),
        forall|q: int|
            0 <= q < token_spans(cs, i).len() ==> i <= (#[trigger] token_spans(cs, i)[q]).0
                < token_spans(cs, i)[q].1 <= spans_end(cs, i),
    decreases cs.len() - i,
{
    let a = run_end(cs, i, CharClass::InlineSpace);
    lemma_run_end(cs, i, CharClass::InlineSpace);
    lemma_run_in_line(cs, i, CharClass::InlineSpace);
    lemma_run_end(cs, a, CharClass::NotSpace);
    lemma_run_in_line(cs, a, CharClass::NotSpace);
    let b = run_end(cs, a, CharClass::NotSpace);
    if 0 <= i <= a && a < b <= cs.len() {
        lemma_spans_in_line(cs, b);
        assert forall|q: int|
            0 <= q < token_spans(cs, i).len() implies i <= (#[trigger] token_spans(
            cs,
            i,
        )[q]).0 < token_spans(cs, i)[q].1 <= spans_end(cs, i) by {
            if q > 0 {
                assert(token_spans(cs, i)[q] == token_spans(cs, b)[q - 1]);
            }
        }
    }
}

/// Splits from `i` on into tokens: their spans and the index after them and
/// the spaces that follow.
pub fn scan_tokens(cs: &Vec<char>, i: usize) -> (r: (Vec<(usize, usize)>, usize))
    requires
        i <= cs@.len(),
    ensures
        spans_view(r.0@) == token_spans(cs@, i as int),
        r.1 == spans_end(cs@, i as int),
        i <= r.1 <= cs@.len(),
{
    let mut spans: Vec<(usize, usize)> = Vec::new();
    let mut j: usize = i;
    proof {
        lemma_spans_in_line(cs@, i as int);
        lemma_run_end(cs@, i as int, CharClass::NotNewline);
    }
    loop
        invariant
            i <= j <= cs@.len(),
            spans_view(spans@) + token_spans(cs@, j as int) == token_spans(cs@, i as int),
            spans_end(cs@, j as int) == spans_end(cs@, i as int),
        decreases cs@.len() - j,
    {
        let a = scan_run(cs, j, CharClass::InlineSpace);
        let b = scan_run(cs, a, CharClass::NotSpace);
        if a < b {
            proof {
                assert(token_spans(cs@, j as int) == seq![(a as int, b as int)] + token_spans(
                    cs@,
                    b as int,
                ));
                assert(spans_view(spans@.push((a, b))) =~= spans_view(spans@).push(
                    (a as int, b as int),
                ));
                assert(spans_view(spans@.push((a, b))) + token_spans(cs@, b as int) =~= spans_view(
                    spans@,
                ) + token_spans(cs@, j as int));
            }
            spans.push((a, b));
            j = b;
        } else {
            proof {
                assert(token_spans(cs@, j as int) == Seq::<(int, int)>::empty());
                assert(spans_view(spans@) + token_spans(cs@, j as int) =~= spans_view(spans@));
            }
            return (spans, a);
        }
    }
}

/// A line of tokens at `i`: the token spans and the index after the line.
/// Text that is neither a token nor a space before the line ending is an error.
pub open spec fn line_tokens_at(cs: Seq<char>, i: int) -> Result<(Seq<(int, int)>, int), ParseError> {
    if line_end(cs, i) == cs.len() {
        Err(ParseError::Incomplete)
    } else if eol_len(cs, spans_end(cs, i)) == 0 {
        Err(ParseError::Error)
    } else {
        Ok((token_spans(cs, i), spans_end(cs, i) + eol_len(cs, spans_end(cs, i))))
    }
}

pub fn scan_line_tokens(cs: &Vec<char>, i: usize) -> (r: Result<(Vec<(usize, usize)>, usize), ParseError>)
    requires
        i <= cs@.len(),
    ensures
        match line_tokens_at(cs@, i as int) {
            Ok((sp, n)) => r matches Ok((v, m)) && spans_view(v@) == sp && m == n && n
                <= cs@.len(),
            Err(e) => r == Err::<(Vec<(usize, usize)>, usize), ParseError>(e),
        },
        r matches Ok((v, m)) ==> forall|q: int|
            0 <= q < v@.len() ==> i <= (#[trigger] v@[q]).0 < v@[q].1 < m,
        r matches Ok((v, m)) ==> i < m,
{
    proof {
        lemma_run_end(cs@, i as int, CharClass::NotNewline);
        lemma_spans_in_line(cs@, i as int);
    }
    let e = scan_run(cs, i, CharClass::NotNewline);
    if e == cs.len() {
        return Err(ParseError::Incomplete);
    }
    let (spans, t) = scan_tokens(cs, i);
    match scan_eol(cs, t) {
        Ok(n) => {
            proof {
                assert forall|q: int| 0 <= q < spans@.len() implies i <= (
                #[trigger] spans@[q]).0 < spans@[q].1 < n by {
                    assert(spans_view(spans@)[q] == token_spans(cs@, i as int)[q]);
                }
            }
            Ok((spans, n))
        },
        Err(x) => {
            assert(x == ParseError::Error);
            Err(ParseError::Error)
        },
    }
}


// ---------------------------------------------------------------- line readers

/// The value of an unsigned integer token that fits in `usize`.
pub open spec fn usize_token(t: Seq<char>) -> Option<nat> {
    if is_digits(t) && digits_value(t, 0, t.len() as int) <= usize::MAX {
        Some(digits_value(t, 0, t.len() as int))
    } else {
        None
    }
}

/// The characters of the token `cs[a..b]`, as a vector of their own.
pub fn token_chars(s: &str, cs: &Vec<char>, a: usize, b: usize) -> (r: Vec<char>)
    requires
        cs@ == s@,
        a <= b <= cs@.len(),
    ensures
        r@ == s@.subrange(a as int, b as int),
{
    to_chars(s.substring_char(a, b))
}

/// The value of a token, where it is an unsigned integer that fits in `usize`.
pub fn usize_of_token(t: &Vec<char>) -> (r: Option<usize>)
    ensures
        r matches Some(v) ==> usize_token(t@) == Some(v as nat),
        r is None ==> usize_token(t@) is None,
{
    if !digits_ok(t) {
        return None;
    }
    digits_to_usize(t, 0, t.len())
}

/// The values of the tokens `spans`, where each is an unsigned integer that fits in `usize`.
pub fn usize_tokens(s: &str, cs: &Vec<char>, spans: &Vec<(usize, usize)>) -> (r: Option<Vec<usize>>)
    requires
        cs@ == s@,
        forall|q: int| 0 <= q < spans@.len() ==> (#[trigger] spans@[q]).0 <= spans@[q].1 <= cs@.len(),
    ensures
        r is Some <==> forall|q: int|
            0 <= q < spans@.len() ==> usize_token(span_text(cs@, spans_view(spans@)[q])) is Some,
        r matches Some(v) ==> v@.len() == spans@.len() && forall|q: int|
            0 <= q < spans@.len() ==> usize_token(span_text(cs@, spans_view(spans@)[q])) == Some(
                (#[trigger] v@[q]) as nat,
            ),
{
    let mut v: Vec<usize> = Vec::new();
    let mut q: usize = 0;
    while q < spans.len()
        invariant
            cs@ == s@,
            forall|q: int| 0 <= q < spans@.len() ==> (#[trigger] spans@[q]).0 <= spans@[q].1 <= cs@.len(),
            q <= spans@.len(),
            v@.len() == q,
            forall|k: int|
                0 <= k < q ==> usize_token(span_text(cs@, spans_view(spans@)[k])) == Some(
                    (#[trigger] v@[k]) as nat,
                ),
        decreases spans@.len() - q,
    {
        let (a, b) = spans[q];
        let t = token_chars(s, cs, a, b);
        assert(span_text(cs@, spans_view(spans@)[q as int]) == t@);
        match usize_of_token(&t) {
            Some(x) => {
                v.push(x);
            },
            None => {
                return None;
            },
        }
        q = q + 1;
    }
    assert forall|k: int| 0 <= k < spans@.len() implies usize_token(
        span_text(cs@, spans_view(spans@)[k]),
    ) is Some by {
        assert(usize_token(span_text(cs@, spans_view(spans@)[k])) == Some(v@[k] as nat));
    }
    Some(v)
}

/// The texts of the tokens `spans`, where each is a floating-point literal.
pub fn float_tokens(s: &str, cs: &Vec<char>, spans: &Vec<(usize, usize)>) -> (r: Option<Vec<String>>)
    requires
        cs@ == s@,
        forall|q: int| 0 <= q < spans@.len() ==> (#[trigger] spans@[q]).0 <= spans@[q].1 <= cs@.len(),
    ensures
        r is Some <==> forall|q: int|
            0 <= q < spans@.len() ==> is_float_text(span_text(cs@, spans_view(spans@)[q])),
        r matches Some(v) ==> v@.len() == spans@.len() && forall|q: int|
            0 <= q < spans@.len() ==> (#[trigger] v@[q])@ == span_text(cs@, spans_view(spans@)[q]),
{
    let mut v: Vec<String> = Vec::new();
    let mut q: usize = 0;
    while q < spans.len()
        invariant
            cs@ == s@,
            forall|q: int| 0 <= q < spans@.len() ==> (#[trigger] spans@[q]).0 <= spans@[q].1 <= cs@.len(),
            q <= spans@.len(),
            v@.len() == q,
            forall|k: int| 0 <= k < q ==> is_float_text(span_text(cs@, spans_view(spans@)[k])),
            forall|k: int| 0 <= k < q ==> (#[trigger] v@[k])@ == span_text(cs@, spans_view(spans@)[k]),
        decreases spans@.len() - q,
    {
        let (a, b) = spans[q];
        let t = token_chars(s, cs, a, b);
        assert(span_text(cs@, spans_view(spans@)[q as int]) == t@);
        if !float_text_ok(&t) {
            return None;
        }
        v.push(slice_text(s, cs, a, b));
        q = q + 1;
    }
    Some(v)
}

/// What a line of unsigned integers gives: their values and the index after the line.
pub open spec fn usize_line_at(cs: Seq<char>, i: int) -> Result<(Seq<nat>, int), ParseError> {
    match line_tokens_at(cs, i) {
        Err(e) => Err(e),
        Ok((sp, n)) => if sp.len() > 0 && forall|q: int|
            0 <= q < sp.len() ==> usize_token(span_text(cs, #[trigger] sp[q])) is Some {
            Ok((sp.map_values(|t: (int, int)| usize_token(span_text(cs, t))->0), n))
        } else {
            Err(ParseError::Error)
        },
    }
}

/// What a line of floating-point literals gives: their texts and the index after the line.
pub open spec fn float_line_at(cs: Seq<char>, i: int) -> Result<(Seq<Seq<char>>, int), ParseError> {
    match line_tokens_at(cs, i) {
        Err(e) => Err(e),
        Ok((sp, n)) => if sp.len() > 0 && forall|q: int|
            0 <= q < sp.len() ==> is_float_text(span_text(cs, #[trigger] sp[q])) {
            Ok((sp.map_values(|t: (int, int)| span_text(cs, t)), n))
        } else {
            Err(ParseError::Error)
        },
    }
}

pub fn scan_usize_line(s: &str, cs: &Vec<char>, i: usize) -> (r: Result<(Vec<usize>, usize), ParseError>)
    requires
        cs@ == s@,
        i <= cs@.len(),
    ensures
        match usize_line_at(cs@, i as int) {
            Ok((vals, n)) => r matches Ok((v, m)) && m == n && n <= cs@.len() && v@.len()
                == vals.len() && forall|q: int| 0 <= q < vals.len() ==> vals[q] == (#[trigger] v@[q]) as nat,
            Err(e) => r == Err::<(Vec<usize>, usize), ParseError>(e),
        },
{
    match scan_line_tokens(cs, i) {
        Ok((spans, n)) => {
            if spans.len() == 0 {
                return Err(ParseError::Error);
            }
            match usize_tokens(s, cs, &spans) {
                Some(v) => Ok((v, n)),
                None => Err(ParseError::Error),
            }
        },
        Err(e) => Err(e),
    }
}

pub fn scan_float_line(s: &str, cs: &Vec<char>, i: usize) -> (r: Result<(Vec<String>, usize), ParseError>)
    requires
        cs@ == s@,
        i <= cs@.len(),
    ensures
        match float_line_at(cs@, i as int) {
            Ok((vals, n)) => r matches Ok((v, m)) && m == n && n <= cs@.len() && v@.len()
                == vals.len() && forall|q: int| 0 <= q < vals.len() ==> vals[q] == (#[trigger] v@[q])@,
            Err(e) => r == Err::<(Vec<String>, usize), ParseError>(e),
        },
{
    match scan_line_tokens(cs, i) {
        Ok((spans, n)) => {
            if spans.len() == 0 {
                return Err(ParseError::Error);
            }
            match float_tokens(s, cs, &spans) {
                Some(v) => Ok((v, n)),
                None => Err(ParseError::Error),
            }
        },
        Err(e) => Err(e),
    }
}

/// Reads a line holding one or more unsigned integers: `" 11 2 3 4 5 \r\n"`.
pub fn read_usize_many(input: &str) -> (r: PResult<'_, Vec<usize>>)
    ensures
        match usize_line_at(input@, 0) {
            Ok((vals, n)) => r matches Ok((rest, v)) && rest@ == input@.skip(n) && v@.len()
                == vals.len() && forall|q: int| 0 <= q < vals.len() ==> vals[q] == (#[trigger] v@[q]) as nat,
            Err(e) => r == Err::<(&str, Vec<usize>), ParseError>(e),
        },
{
    let cs = to_chars(input);
    match scan_usize_line(input, &cs, 0) {
        Ok((v, n)) => Ok((rest_of(input, &cs, n), v)),
        Err(e) => Err(e),
    }
}

/// Reads a line holding exactly one unsigned integer.
pub fn read_usize(input: &str) -> (r: PResult<'_, usize>)
    ensures
        match usize_line_at(input@, 0) {
            Ok((vals, n)) => if vals.len() == 1 {
                r matches Ok((rest, v)) && rest@ == input@.skip(n) && v as nat == vals[0]
            } else {
                r == Err::<(&str, usize), ParseError>(ParseError::Error)
            },
            Err(e) => r == Err::<(&str, usize), ParseError>(e),
        },
{
    let cs = to_chars(input);
    match scan_usize_line(input, &cs, 0) {
        Ok((v, n)) => if v.len() == 1 {
            Ok((rest_of(input, &cs, n), v[0]))
        } else {
            Err(ParseError::Error)
        },
        Err(e) => Err(e),
    }
}

/// Reads a line holding one or more floating-point literals: `"1.2  3.4 -5.7 0.2 \n"`.
pub fn read_f64_many(input: &str) -> (r: PResult<'_, Vec<String>>)
    ensures
        match float_line_at(input@, 0) {
            Ok((vals, n)) => r matches Ok((rest, v)) && rest@ == input@.skip(n) && v@.len()
                == vals.len() && forall|q: int| 0 <= q < vals.len() ==> vals[q] == (#[trigger] v@[q])@,
            Err(e) => r == Err::<(&str, Vec<String>), ParseError>(e),
        },
{
    let cs = to_chars(input);
    match scan_float_line(input, &cs, 0) {
        Ok((v, n)) => Ok((rest_of(input, &cs, n), v)),
        Err(e) => Err(e),
    }
}

/// Reads a line holding exactly one floating-point literal.
pub fn read_f64(input: &str) -> (r: PResult<'_, String>)
    ensures
        match float_line_at(input@, 0) {
            Ok((vals, n)) => if vals.len() == 1 {
                r matches Ok((rest, v)) && rest@ == input@.skip(n) && v@ == vals[0]
            } else {
                r == Err::<(&str, String), ParseError>(ParseError::Error)
            },
            Err(e) => r == Err::<(&str, String), ParseError>(e),
        },
{
    let cs = to_chars(input);
    match scan_float_line(input, &cs, 0) {
        Ok((v, n)) => if v.len() == 1 {
            let mut v = v;
            let x = v.pop().unwrap();
            Ok((rest_of(input, &cs, n), x))
        } else {
            Err(ParseError::Error)
        },
        Err(e) => Err(e),
    }
}

/// Reads a blank line: spaces and tabs, then the line ending.
pub fn blank_line(input: &str) -> (r: PResult<'_, ()>)
    ensures
        match line_tokens_at(input@, 0) {
            Ok((sp, n)) => if sp.len() == 0 {
                r matches Ok((rest, _u)) && rest@ == input@.skip(n)
            } else {
                r == Err::<(&str, ()), ParseError>(ParseError::Error)
            },
            Err(e) => r == Err::<(&str, ()), ParseError>(e),
        },
{
    let cs = to_chars(input);
    match scan_line_tokens(&cs, 0) {
        Ok((spans, n)) => if spans.len() == 0 {
            Ok((rest_of(input, &cs, n), ()))
        } else {
            Err(ParseError::Error)
        },
        Err(e) => Err(e),
    }
}


// ---------------------------------------------------------------- coordinates

/// A floating-point literal at `i` followed by one or more spaces or tabs:
/// the index after the spaces.
pub open spec fn float_then_space(cs: Seq<char>, i: int) -> Result<int, ParseError> {
    match float_at(cs, i) {
        Err(e) => Err(e),
        Ok(e) => {
            let sp = run_end(cs, e, CharClass::InlineSpace);
            if sp == cs.len() {
                Err(ParseError::Incomplete)
            } else if sp == e {
                Err(ParseError::Error)
            } else {
                Ok(sp)
            }
        },
    }
}

/// Three floating-point literals at `i`, apart by spaces or tabs: their spans.
pub open spec fn xyz_at(cs: Seq<char>, i: int) -> Result<Seq<(int, int)>, ParseError> {
    match float_then_space(cs, i) {
        Err(e) => Err(e),
        Ok(s1) => match float_then_space(cs, s1) {
            Err(e) => Err(e),
            Ok(s2) => match float_at(cs, s2) {
                Err(e) => Err(e),
                Ok(e3) => Ok(seq![(i, float_end(cs, i)), (s1, float_end(cs, s1)), (s2, e3)]),
            },
        },
    }
}

fn scan_float_space(cs: &Vec<char>, i: usize) -> (r: Result<(usize, usize), ParseError>)
    requires
        i <= cs@.len(),
    ensures
        match float_then_space(cs@, i as int) {
            Ok(sp) => r matches Ok((e, m)) && m == sp && e == float_end(cs@, i as int) && i < e
                < m <= cs@.len(),
            Err(x) => r == Err::<(usize, usize), ParseError>(x),
        },
{
    match scan_float(cs, i) {
        Ok(e) => {
            let sp = scan_run(cs, e, CharClass::InlineSpace);
            if sp == cs.len() {
                Err(ParseError::Incomplete)
            } else if sp == e {
                Err(ParseError::Error)
            } else {
                Ok((e, sp))
            }
        },
        Err(x) => Err(x),
    }
}

/// Reads three coordinates at `i`: their texts and the index after the third.
pub fn scan_xyz(s: &str, cs: &Vec<char>, i: usize) -> (r: Result<(Vec<String>, usize), ParseError>)
    requires
        cs@ == s@,
        i <= cs@.len(),
    ensures
        match xyz_at(cs@, i as int) {
            Ok(sp) => r matches Ok((v, m)) && v@.len() == 3 && m == sp[2].1 && m < cs@.len()
                && forall|q: int| 0 <= q < 3 ==> (#[trigger] v@[q])@ == span_text(cs@, sp[q]),
            Err(x) => r == Err::<(Vec<String>, usize), ParseError>(x),
        },
        r matches Ok((v, m)) ==> i < m,
{
    let (e1, s1) = match scan_float_space(cs, i) {
        Ok(p) => p,
        Err(x) => {
            return Err(x);
        },
    };
    let (e2, s2) = match scan_float_space(cs, s1) {
        Ok(p) => p,
        Err(x) => {
            return Err(x);
        },
    };
    let r3 = scan_float(cs, s2);
    let e3 = match r3 {
        Ok(e) => e,
        Err(x) => {
            return Err(x);
        },
    };
    let mut v: Vec<String> = Vec::new();
    v.push(slice_text(s, cs, i, e1));
    v.push(slice_text(s, cs, s1, e2));
    v.push(slice_text(s, cs, s2, e3));
    proof {
        let sp = seq![(i as int, e1 as int), (s1 as int, e2 as int), (s2 as int, e3 as int)];
        assert(float_then_space(cs@, i as int) == Ok::<int, ParseError>(s1 as int));
        assert(float_then_space(cs@, s1 as int) == Ok::<int, ParseError>(s2 as int));
        assert(cs@.len() == cs.len());
        assert(float_at(cs@, s2 as int) == Ok::<int, ParseError>(e3 as int));
        assert(xyz_at(cs@, i as int) is Ok);
        let spans_found = xyz_at(cs@, i as int)->Ok_0;
        assert(spans_found =~= sp);
        assert forall|q: int| 0 <= q < 3 implies (#[trigger] v@[q])@ == span_text(cs@, sp[q]) by {
            if q == 0 {
            } else if q == 1 {
            } else {
            }
        }
    }
    Ok((v, e3))
}

/// Reads three floating-point literals apart by spaces or tabs: `"-11.4286  1.7645  0.0000 "`.
pub fn xyz_array(input: &str) -> (r: PResult<'_, Vec<String>>)
    ensures
        match xyz_at(input@, 0) {
            Ok(sp) => r matches Ok((rest, v)) && v@.len() == 3 && rest@ == input@.skip(sp[2].1)
                && forall|q: int| 0 <= q < 3 ==> (#[trigger] v@[q])@ == span_text(input@, sp[q]),
            Err(x) => r == Err::<(&str, Vec<String>), ParseError>(x),
        },
{
    let cs = to_chars(input);
    match scan_xyz(input, &cs, 0) {
        Ok((v, m)) => Ok((rest_of(input, &cs, m), v)),
        Err(x) => Err(x),
    }
}

/// Reads a run of anything but whitespace; the run must not touch the end of the input.
pub fn not_space(input: &str) -> (r: PResult<'_, &str>)
    ensures
        ({
            let e = run_end(input@, 0, CharClass::NotSpace);
            if e == input@.len() {
                r == Err::<(&str, &str), ParseError>(ParseError::Incomplete)
            } else if e == 0 {
                r == Err::<(&str, &str), ParseError>(ParseError::Error)
            } else {
                r matches Ok((rest, t)) && t@ == input@.take(e) && rest@ == input@.skip(e)
            }
        }),
{
    let cs = to_chars(input);
    let e = scan_run(&cs, 0, CharClass::NotSpace);
    if e == cs.len() {
        Err(ParseError::Incomplete)
    } else if e == 0 {
        Err(ParseError::Error)
    } else {
        let t = input.substring_char(0, e);
        assert(t@ =~= input@.take(e as int));
        Ok((rest_of(input, &cs, e), t))
    }
}


// ---------------------------------------------------------------- fixed columns

/// Start of the whitespace that ends `t[..j]`.
pub open spec fn trailing_ws_start(t: Seq<char>, j: int) -> int
    decreases j,
{
    if 0 < j <= t.len() && is_unicode_space(t[j - 1]) {
        trailing_ws_start(t, j - 1)
    } else {
        j
    }
}

/// `t` without Unicode whitespace at either end, as `str::trim` leaves it.
pub open spec fn trim_ws(t: Seq<char>) -> Seq<char> {
    let a = run_end(t, 0, CharClass::UnicodeSpace);
    if a == t.len() {
        Seq::empty()
    } else {
        t.subrange(a, trailing_ws_start(t, t.len() as int))
    }
}

proof fn lemma_trailing(t: Seq<char>, j: int)
    requires
        0 <= j <= t.len(),
    ensures
        0 <= trailing_ws_start(t, j) <= j,
        forall|q: int| trailing_ws_start(t, j) <= q < j ==> is_unicode_space(#[trigger] t[q]),
        trailing_ws_start(t, j) > 0 ==> !is_unicode_space(t[trailing_ws_start(t, j) - 1]),
    decreases j,
{
    if 0 < j && is_unicode_space(t[j - 1]) {
        lemma_trailing(t, j - 1);
    }
}

/// Bounds of `trim_ws(t)` within `t`.
pub fn trim_bounds(t: &Vec<char>) -> (r: (usize, usize))
    ensures
        r.0 <= r.1 <= t@.len(),
        t@.subrange(r.0 as int, r.1 as int) == trim_ws(t@),
{
    let a = scan_run(t, 0, CharClass::UnicodeSpace);
    proof {
        lemma_run_end(t@, 0, CharClass::UnicodeSpace);
    }
    if a == t.len() {
        assert(t@.subrange(a as int, a as int) =~= Seq::<char>::empty());
        return (a, a);
    }
    let mut j: usize = t.len();
    while j > 0 && unicode_space(t[j - 1])
        invariant
            j <= t@.len(),
            trailing_ws_start(t@, j as int) == trailing_ws_start(t@, t@.len() as int),
        decreases j,
    {
        j = j - 1;
    }
    proof {
        lemma_trailing(t@, t@.len() as int);
        assert(!is_unicode_space(t@[a as int]));
    }
    (a, j)
}

/// The `w` characters at `i`, without the whitespace at either end:
/// `Incomplete` where fewer than `w` characters are left.
pub open spec fn field_at(cs: Seq<char>, i: int, w: int) -> Result<Seq<char>, ParseError> {
    if i + w > cs.len() {
        Err(ParseError::Incomplete)
    } else {
        Ok(trim_ws(cs.subrange(i, i + w)))
    }
}

/// The field of width `w` at `i`, whitespace at either end left out: its text
/// and characters.
pub fn scan_field(s: &str, cs: &Vec<char>, i: usize, w: usize) -> (r: Result<(String, Vec<char>), ParseError>)
    requires
        cs@ == s@,
        i <= cs@.len(),
    ensures
        match field_at(cs@, i as int, w as int) {
            Ok(f) => r matches Ok((t, c)) && t@ == f && c@ == f,
            Err(x) => r == Err::<(String, Vec<char>), ParseError>(x),
        },
{
    if w > cs.len() - i {
        return Err(ParseError::Incomplete);
    }
    let fc = token_chars(s, cs, i, i + w);
    let (a, b) = trim_bounds(&fc);
    assert(cs@.subrange(i + a, i + b) =~= fc@.subrange(a as int, b as int));
    Ok((slice_text(s, cs, i + a, i + b), token_chars(s, cs, i + a, i + b)))
}

/// The unsigned integer in the field of width `w` at `i`.
pub open spec fn field_usize_at(cs: Seq<char>, i: int, w: int) -> Result<nat, ParseError> {
    match field_at(cs, i, w) {
        Err(x) => Err(x),
        Ok(f) => match usize_token(f) {
            Some(v) => Ok(v),
            None => Err(ParseError::Error),
        },
    }
}

/// The floating-point literal in the field of width `w` at `i`: its text.
pub open spec fn field_float_at(cs: Seq<char>, i: int, w: int) -> Result<Seq<char>, ParseError> {
    match field_at(cs, i, w) {
        Err(x) => Err(x),
        Ok(f) => if is_float_text(f) {
            Ok(f)
        } else {
            Err(ParseError::Error)
        },
    }
}

pub fn scan_field_usize(s: &str, cs: &Vec<char>, i: usize, w: usize) -> (r: Result<usize, ParseError>)
    requires
        cs@ == s@,
        i <= cs@.len(),
    ensures
        match field_usize_at(cs@, i as int, w as int) {
            Ok(v) => r matches Ok(x) && x as nat == v,
            Err(x) => r == Err::<usize, ParseError>(x),
        },
{
    match scan_field(s, cs, i, w) {
        Ok((_t, c)) => match usize_of_token(&c) {
            Some(v) => Ok(v),
            None => Err(ParseError::Error),
        },
        Err(x) => Err(x),
    }
}

pub fn scan_field_float(s: &str, cs: &Vec<char>, i: usize, w: usize) -> (r: Result<String, ParseError>)
    requires
        cs@ == s@,
        i <= cs@.len(),
    ensures
        match field_float_at(cs@, i as int, w as int) {
            Ok(f) => r matches Ok(x) && x@ == f,
            Err(x) => r == Err::<String, ParseError>(x),
        },
{
    match scan_field(s, cs, i, w) {
        Ok((t, c)) => if float_text_ok(&c) {
            Ok(t)
        } else {
            Err(ParseError::Error)
        },
        Err(x) => Err(x),
    }
}


// ---------------------------------------------------------------- literal text

/// Whether `pat` stands at `i`.
pub open spec fn text_at(cs: Seq<char>, i: int, pat: Seq<char>) -> bool {
    0 <= i && i + pat.len() <= cs.len() && cs.subrange(i, i + pat.len()) == pat
}

/// Whether `cs[i..]` is long enough to decide whether `pat` stands at `i`.
pub fn match_at(cs: &Vec<char>, i: usize, pat: &Vec<char>) -> (r: bool)
    requires
        i <= cs@.len(),
    ensures
        r == text_at(cs@, i as int, pat@),
{
    if pat.len() > cs.len() - i {
        return false;
    }
    let mut k: usize = 0;
    while k < pat.len()
        invariant
            i + pat@.len() <= cs@.len(),
            cs@.len() == cs.len(),
            k <= pat@.len(),
            forall|q: int| 0 <= q < k ==> cs@[i + q] == pat@[q],
        decreases pat@.len() - k,
    {
        if cs[i + k] != pat[k] {
            assert(cs@.subrange(i as int, i + pat@.len())[k as int] != pat@[k as int]);
            return false;
        }
        k = k + 1;
    }
    assert(cs@.subrange(i as int, i + pat@.len()) =~= pat@);
    true
}

/// The first index at or after `i` where `pat` stands, if any.
pub open spec fn find_from(cs: Seq<char>, i: int, pat: Seq<char>) -> Option<int>
    decreases cs.len() - i,
{
    if i < 0 || i + pat.len() > cs.len() {
        None
    } else if pat.len() == 0 || text_at(cs, i, pat) {
        Some(i)
    } else {
        find_from(cs, i + 1, pat)
    }
}

pub fn find_text(cs: &Vec<char>, i: usize, pat: &Vec<char>) -> (r: Option<usize>)
    requires
        i <= cs@.len(),
    ensures
        match find_from(cs@, i as int, pat@) {
            Some(j) => r == Some(j as usize) && i <= j <= cs@.len(),
            None => r is None,
        },
        r matches Some(j) ==> pat@.len() == 0 || text_at(cs@, j as int, pat@),
{
    let mut j: usize = i;
    while j <= cs.len() && pat.len() <= cs.len() - j
        invariant
            i <= j,
            cs@.len() == cs.len(),
            find_from(cs@, j as int, pat@) == find_from(cs@, i as int, pat@),
        decreases cs@.len() + 1 - j,
    {
        if pat.len() == 0 || match_at(cs, j, pat) {
            return Some(j);
        }
        j = j + 1;
    }
    None
}


/// Whether two character vectors are equal.
pub fn chars_eq(x: &Vec<char>, y: &Vec<char>) -> (r: bool)
    ensures
        r == (x@ == y@),
{
    if x.len() != y.len() {
        return false;
    }
    let mut k: usize = 0;
    while k < x.len()
        invariant
            x@.len() == y@.len(),
            k <= x@.len(),
            forall|q: int| 0 <= q < k ==> x@[q] == y@[q],
        decreases x@.len() - k,
    {
        if x[k] != y[k] {
            return false;
        }
        k = k + 1;
    }
    assert(x@ =~= y@);
    true
}


/// Every token span from `i` on lies within the input, in order.
pub proof fn lemma_token_spans_bounds(cs: Seq<char>, i: int)
    requires
        0 <= i <= cs.len(),
    ensures
        forall|q: int|
            0 <= q < token_spans(cs, i).len() ==> i <= (#[trigger] token_spans(cs, i)[q]).0
                < token_spans(cs, i)[q].1 <= cs.len(),
{
    lemma_spans_in_line(cs, i);
    lemma_run_end(cs, i, CharClass::NotNewline);
}

} // verus!
