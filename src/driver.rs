//! The chunk-incremental driver. It holds the unparsed text of a stream;
//! each event (a batch of lines read, or the end of the source) appends to
//! it, after which the record grammar is applied again and again until it
//! asks for more text. Reading the source is left to the caller, which hands
//! the lines over and delivers the records to its collector.
use vstd::prelude::*;
use vstd::string::StringExecFns;
use crate::text::{ParseError, PResult, END_MARK, END_MARK_LINE, to_chars, find_from, find_text, text_at};
use crate::molecule::{Molecule, Warning, is_blank_text};
use crate::xyz::{xyz_molecule_at, xyz_molecule_from_spans, read_molecule_xyz};
use crate::sdf::{sdf_molecule_at, sdf_molecule_from, read_molecule_sdf};
use crate::mol2::{mol2_molecule_at, mol2_molecule_from, read_molecule_mol2};
use crate::cif::{cif_molecule_at, cif_molecule_from, read_molecule_cif};
use crate::fchk::{real_value_at, real_array_at, read_model_properties};

verus! {

/// The record grammar a stream is parsed with.
#[derive(Debug, Clone, Copy, PartialEq, Eq, Structural)]
pub enum Grammar {
    Xyz,
    Mol2,
    Sdf,
    Cif,
    /// The total energy and Mulliken charges of a formatted checkpoint file.
    ModelProperties,
}

/// One record that a grammar produced.
#[derive(Debug)]
pub enum Record {
    /// A molecule and the warnings its counts gave.
    Molecule(Molecule, Vec<Warning>),
    /// A total energy and Mulliken charges, as written.
    Properties(String, Vec<String>),
}

/// What is left of `cs` after the grammar `g` reads one record from its start.
#[verifier::opaque]
pub open spec fn grammar_at(g: Grammar, cs: Seq<char>) -> Result<Seq<char>, ParseError> {
    match g {
        Grammar::Xyz => match xyz_molecule_at(cs, 0) {
            Ok(t) => Ok(cs.skip(t.3)),
            Err(e) => Err(e),
        },
        Grammar::Mol2 => match mol2_molecule_at(cs, 0) {
            Ok(t) => Ok(cs.skip(t.5)),
            Err(e) => Err(e),
        },
        Grammar::Sdf => match sdf_molecule_at(cs, 0) {
            Ok(t) => Ok(cs.skip(t.5)),
            Err(e) => Err(e),
        },
        Grammar::Cif => match cif_molecule_at(cs, 0) {
            Ok(t) => Ok(cs.skip(t.3)),
            Err(e) => Err(e),
        },
        Grammar::ModelProperties => match real_value_at(cs, "Total Energy"@) {
            Err(e) => Err(e),
            Ok((_v, n)) => match real_array_at(cs.skip(n), "Mulliken Charges"@) {
                Err(e) => Err(e),
                Ok((_c, m)) => Ok(cs.skip(n).skip(m)),
            },
        },
    }
}

/// Whether `r` is the record that `g` reads from the start of `cs`.
#[verifier::opaque]
pub open spec fn record_ok(g: Grammar, r: Record, cs: Seq<char>) -> bool {
    match g {
        Grammar::Xyz => r matches Record::Molecule(m, w) && (xyz_molecule_at(cs, 0) matches Ok(t)
            && xyz_molecule_from_spans(m, w@, cs, t)),
        Grammar::Mol2 => r matches Record::Molecule(m, w) && (mol2_molecule_at(cs, 0) matches Ok(t)
            && mol2_molecule_from(m, w@, cs, t)),
        Grammar::Sdf => r matches Record::Molecule(m, w) && (sdf_molecule_at(cs, 0) matches Ok(t)
            && sdf_molecule_from(m, w@, cs, t)),
        Grammar::Cif => r matches Record::Molecule(m, w) && w@.len() == 0 && (cif_molecule_at(cs, 0) matches Ok(t)
            && cif_molecule_from(m, t)),
        Grammar::ModelProperties => r matches Record::Properties(e, c) && (real_value_at(cs, "Total Energy"@) matches Ok((v, n))
            && e@ == v && (real_array_at(cs.skip(n), "Mulliken Charges"@) matches Ok((cv, _m))
            && c@.len() == cv.len() && forall|k: int| 0 <= k < cv.len() ==> (#[trigger] c@[k])@ == cv[k])),
    }
}

/// Applies the grammar `g` once to the start of `input`.
pub fn parse_record<'a>(g: Grammar, input: &'a str) -> (r: PResult<'a, Record>)
    ensures
        match grammar_at(g, input@) {
            Ok(rest_v) => r matches Ok((rest, rec)) && rest@ == rest_v && record_ok(g, rec, input@),
            Err(e) => r == Err::<(&str, Record), ParseError>(e),
        },
{
    reveal(grammar_at);
    reveal(record_ok);
    match g {
        Grammar::Xyz => match read_molecule_xyz(input) {
            Ok((rest, (m, w))) => Ok((rest, Record::Molecule(m, w))),
            Err(e) => Err(e),
        },
        Grammar::Mol2 => match read_molecule_mol2(input) {
            Ok((rest, (m, w))) => Ok((rest, Record::Molecule(m, w))),
            Err(e) => Err(e),
        },
        Grammar::Sdf => match read_molecule_sdf(input) {
            Ok((rest, (m, w))) => Ok((rest, Record::Molecule(m, w))),
            Err(e) => Err(e),
        },
        Grammar::Cif => match read_molecule_cif(input) {
            Ok((rest, m)) => Ok((rest, Record::Molecule(m, Vec::new()))),
            Err(e) => Err(e),
        },
        Grammar::ModelProperties => match read_model_properties(input) {
            Ok((rest, (e, c))) => Ok((rest, Record::Properties(e, c))),
            Err(e) => Err(e),
        },
    }
}

/// How a drain of the buffer ended.
#[derive(Debug, Clone, Copy, PartialEq, Eq, Structural)]
pub enum DrainEnd {
    /// The grammar needs more text.
    NeedMore,
    /// The grammar found a malformed record; the rest of the buffer is dropped.
    Malformed,
    /// The grammar found a defect that ends the whole parse.
    Fatal,
    /// The grammar produced a record without consuming any text.
    Stalled,
}

/// Drains `cs`: the texts the records were read from, in order, what is left
/// of the buffer, and how the drain ended. A buffer that holds nothing but
/// whitespace and the end mark waits for more text.
pub open spec fn drain(g: Grammar, cs: Seq<char>) -> (Seq<Seq<char>>, Seq<char>, DrainEnd)
    decreases cs.len(),
{
    if !has_leftover(cs) {
        (Seq::empty(), cs, DrainEnd::NeedMore)
    } else {
    match grammar_at(g, cs) {
        Ok(rest) => if rest.len() < cs.len() {
            let (ins, rest2, e) = drain(g, rest);
            (seq![cs] + ins, rest2, e)
        } else {
            (Seq::empty(), cs, DrainEnd::Stalled)
        },
        Err(ParseError::Incomplete) => (Seq::empty(), cs, DrainEnd::NeedMore),
        Err(ParseError::Error) => (Seq::empty(), Seq::empty(), DrainEnd::Malformed),
        Err(ParseError::Failure) => (Seq::empty(), cs, DrainEnd::Fatal),
    }
    }
}

/// Drains `chunk`: the records, what is left, how it ended, and on a
/// malformed record the text that was dropped.
pub fn drain_chunk(g: Grammar, chunk: String) -> (r: (Vec<Record>, String, DrainEnd, Option<String>))
    ensures
        ({
            let (ins, rest, e) = drain(g, chunk@);
            &&& r.0@.len() == ins.len()
            &&& forall|k: int| 0 <= k < ins.len() ==> record_ok(g, #[trigger] r.0@[k], ins[k])
            &&& r.1@ == rest
            &&& r.2 == e
            &&& (e == DrainEnd::Malformed <==> r.3 is Some)
        }),
{
    let mut records: Vec<Record> = Vec::new();
    let mut cur: String = chunk;
    let ghost mut ins: Seq<Seq<char>> = Seq::empty();
    loop
        invariant
            records@.len() == ins.len(),
            forall|k: int| 0 <= k < ins.len() ==> record_ok(g, #[trigger] records@[k], ins[k]),
            ({
                let (a, b, c) = drain(g, cur@);
                drain(g, chunk@) == (ins + a, b, c)
            }),
        decreases cur@.len(),
    {
        if !leftover_of(&cur) {
            assert(ins + Seq::<Seq<char>>::empty() =~= ins);
            return (records, cur, DrainEnd::NeedMore, None);
        }
        let before = cur.as_str().unicode_len();
        let outcome = parse_record(g, cur.as_str());
        match outcome {
            Ok((rest, rec)) => {
                let after = rest.unicode_len();
                if after >= before {
                    proof {
                        assert(ins + Seq::<Seq<char>>::empty() =~= ins);
                    }
                    return (records, cur, DrainEnd::Stalled, None);
                }
                let next = rest.to_owned();
                proof {
                    let (a, b, c) = drain(g, next@);
                    assert(ins + (seq![cur@] + a) =~= ins.push(cur@) + a);
                    ins = ins.push(cur@);
                }
                records.push(rec);
                cur = next;
            },
            Err(ParseError::Incomplete) => {
                assert(ins + Seq::<Seq<char>>::empty() =~= ins);
                return (records, cur, DrainEnd::NeedMore, None);
            },
            Err(ParseError::Error) => {
                assert(ins + Seq::<Seq<char>>::empty() =~= ins);
                return (records, String::new(), DrainEnd::Malformed, Some(cur));
            },
            Err(ParseError::Failure) => {
                assert(ins + Seq::<Seq<char>>::empty() =~= ins);
                return (records, cur, DrainEnd::Fatal, None);
            },
        }
    }
}


/// The driver's configuration: how many lines one refill reads.
pub struct TextParser {
    pub nlines: usize,
}

impl Default for TextParser {
    fn default() -> (r: TextParser)
        ensures
            r.nlines == 100,
    {
        TextParser { nlines: 100 }
    }
}

/// The text that a list of lines makes, one after another.
pub open spec fn joined(ls: Seq<Seq<char>>) -> Seq<char>
    decreases ls.len(),
{
    if ls.len() == 0 {
        Seq::empty()
    } else {
        joined(ls.drop_last()) + ls.last()
    }
}

/// The buffer between events, and whether the source has ended.
pub struct ParserState {
    pub chunk: String,
    pub ended: bool,
}

impl ParserState {
    pub fn new() -> (r: ParserState)
        ensures
            r.chunk@.len() == 0,
            !r.ended,
    {
        ParserState { chunk: String::new(), ended: false }
    }
}

/// What the caller observed of the source.
pub enum Event {
    /// Lines that a refill read, each with its line ending.
    Lines(Vec<String>),
    /// The source has no more lines.
    End,
}

/// What one step hands back: the records, in order; on a malformed record the
/// text that was dropped; at the end, text that no record took (the end mark
/// left out).
pub struct StepOutput {
    pub records: Vec<Record>,
    /// Whether the grammar met a defect that ends the whole parse.
    pub fatal: bool,
    pub malformed: Option<String>,
    pub leftover: Option<String>,
}

/// The buffer that an event leaves before the drain: lines are appended; the
/// end appends the end mark, once.
pub open spec fn buffer_after(chunk: Seq<char>, ended: bool, lines: Option<Seq<Seq<char>>>) -> Seq<char> {
    match lines {
        Some(ls) => chunk + joined(ls),
        None => if ended {
            chunk
        } else {
            chunk + END_MARK@
        },
    }
}

/// Whether `t` holds text besides whitespace and the end mark line.
pub open spec fn has_leftover(t: Seq<char>) -> bool {
    match find_from(t, 0, END_MARK_LINE@) {
        Some(j) => !(is_blank_text(t.take(j)) && is_blank_text(t.skip(j + END_MARK_LINE@.len()))),
        None => !is_blank_text(t),
    }
}

fn blank(t: &Vec<char>, a: usize, b: usize) -> (r: bool)
    requires
        a <= b <= t@.len(),
    ensures
        r == is_blank_text(t@.subrange(a as int, b as int)),
{
    let mut k: usize = a;
    while k < b
        invariant
            a <= k <= b <= t@.len(),
            forall|q: int| a <= q < k ==> crate::text::is_unicode_space(#[trigger] t@[q]),
        decreases b - k,
    {
        let c = t[k];
        if !crate::text::unicode_space(c) {
            assert(!crate::text::is_unicode_space(t@.subrange(a as int, b as int)[k - a]));
            return false;
        }
        k = k + 1;
    }
    assert forall|q: int| 0 <= q < b - a implies crate::text::is_unicode_space(
        #[trigger] t@.subrange(a as int, b as int)[q],
    ) by {
        assert(t@.subrange(a as int, b as int)[q] == t@[a + q]);
    }
    true
}

/// `t` without the end mark line, where it holds one.
pub open spec fn without_mark(t: Seq<char>) -> Seq<char> {
    match find_from(t, 0, END_MARK_LINE@) {
        Some(j) => t.take(j) + t.skip(j + END_MARK_LINE@.len()),
        None => t,
    }
}

fn strip_mark(t: &String) -> (r: String)
    ensures
        r@ == without_mark(t@),
{
    let tc = to_chars(t.as_str());
    let mark = to_chars(END_MARK_LINE);
    assert(tc@.len() == tc.len());
    match find_text(&tc, 0, &mark) {
        Some(j) => {
            let e = j + mark.len();
            let head = t.as_str().substring_char(0, j).to_owned();
            let tail = t.as_str().substring_char(e, tc.len());
            let r = head.concat(tail);
            assert(r@ =~= tc@.take(j as int) + tc@.skip(e as int));
            r
        },
        None => t.clone(),
    }
}

fn leftover_of(t: &String) -> (r: bool)
    ensures
        r == has_leftover(t@),
{
    let tc = to_chars(t.as_str());
    let mark = to_chars(END_MARK_LINE);
    assert(tc@.len() == tc.len());
    match find_text(&tc, 0, &mark) {
        Some(j) => {
            let e = j + mark.len();
            assert(tc@.take(j as int) =~= tc@.subrange(0, j as int));
            assert(tc@.skip(e as int) =~= tc@.subrange(e as int, tc@.len() as int));
            !(blank(&tc, 0, j) && blank(&tc, e, tc.len()))
        },
        None => {
            assert(tc@ =~= tc@.subrange(0, tc@.len() as int));
            !blank(&tc, 0, tc.len())
        },
    }
}

/// One step of the driver: the event's text is appended to the buffer, which
/// is then drained. A grammar's `Failure`, or a record read without consuming
/// text, sets `fatal`: the parse ends there, and the records drained before it
/// are handed back all the same.
pub fn step(g: Grammar, state: ParserState, ev: Event) -> (r: (ParserState, StepOutput))
    ensures
        ({
            let lines = match ev {
                Event::Lines(v) => Some(v@.map_values(|x: String| x@)),
                Event::End => None,
            };
            let buf = buffer_after(state.chunk@, state.ended, lines);
            let (ins, rest, e) = drain(g, buf);
            let fatal = e == DrainEnd::Fatal || e == DrainEnd::Stalled;
            let (st, out) = r;
            &&& st.chunk@ == rest
            &&& st.ended == (state.ended || lines is None)
            &&& out.records@.len() == ins.len()
            &&& forall|k: int| 0 <= k < ins.len() ==> record_ok(g, #[trigger] out.records@[k], ins[k])
            &&& out.fatal == fatal
            &&& (out.malformed is Some <==> e == DrainEnd::Malformed)
            &&& (out.leftover is Some <==> (!fatal && lines is None && has_leftover(rest)))
            &&& (out.leftover matches Some(t) ==> t@ == without_mark(rest))
        }),
{
    let ParserState { chunk, ended } = state;
    let is_end: bool;
    let mut buf = chunk;
    match ev {
        Event::Lines(v) => {
            is_end = false;
            let ghost ls = v@.map_values(|x: String| x@);
            let ghost start = buf@;
            let mut k: usize = 0;
            while k < v.len()
                invariant
                    k <= v@.len(),
                    ls == v@.map_values(|x: String| x@),
                    buf@ == start + joined(ls.take(k as int)),
                decreases v@.len() - k,
            {
                buf = buf.concat(v[k].as_str());
                proof {
                    assert(ls.take(k + 1).drop_last() =~= ls.take(k as int));
                    assert(start + joined(ls.take(k as int)) + v@[k as int]@ =~= start + (joined(
                        ls.take(k as int),
                    ) + ls[k as int]));
                }
                k = k + 1;
            }
            assert(ls.take(v@.len() as int) =~= ls);
        },
        Event::End => {
            is_end = true;
            if !ended {
                buf = buf.concat(END_MARK);
            }
        },
    }
    let (records, rest, e, dropped) = drain_chunk(g, buf);
    let fatal = match e {
        DrainEnd::Fatal => true,
        DrainEnd::Stalled => true,
        _ => false,
    };
    let leftover = if !fatal && is_end && leftover_of(&rest) {
        Some(strip_mark(&rest))
    } else {
        None
    };
    (
        ParserState { chunk: rest, ended: ended || is_end },
        StepOutput { records, malformed: dropped, leftover, fatal },
    )
}

/// A whole parse: the buffer `chunk`, then `lines` handed over `n` at a time
/// (each batch followed by a drain), then the end of the source. Gives the
/// texts the records were read from, in order, what is left of the buffer,
/// how many malformed records were dropped, and whether a hard failure ended
/// the parse (the records before it are kept).
pub open spec fn run(g: Grammar, chunk: Seq<char>, lines: Seq<Seq<char>>, n: nat) -> (Seq<Seq<char>>, Seq<char>, nat, bool)
    decreases lines.len(),
{
    let k = if n < lines.len() {
        n as int
    } else {
        lines.len() as int
    };
    let buf = if lines.len() == 0 {
        chunk + END_MARK@
    } else {
        chunk + joined(lines.take(k))
    };
    let (ins, rest, e) = drain(g, buf);
    let bad: nat = if e == DrainEnd::Malformed {
        1
    } else {
        0
    };
    if e == DrainEnd::Fatal || e == DrainEnd::Stalled {
        (ins, rest, bad, true)
    } else if lines.len() == 0 {
        (ins, rest, bad, false)
    } else if k <= 0 {
        (ins, rest, bad, true)
    } else {
        let (ins2, rest2, m, f) = run(g, rest, lines.skip(k), n);
        (ins + ins2, rest2, bad + m, f)
    }
}

/// The outcome of a whole parse.
pub struct Parsed {
    pub records: Vec<Record>,
    /// The text dropped at each malformed record.
    pub malformed: Vec<String>,
    /// Text that no record took, if any besides whitespace; the end mark is
    /// left out of it.
    pub leftover: Option<String>,
    /// Whether a hard failure ended the parse; `records` holds those read
    /// before it.
    pub fatal: bool,
}

impl TextParser {
    /// Parses `lines` (each with its line ending) with the grammar `g`,
    /// handing them to the driver `nlines` at a time.
    pub fn parse(&self, g: Grammar, lines: &Vec<String>) -> (p: Parsed)
        requires
            self.nlines >= 1,
        ensures
            ({
                let (ins, rest, m, fatal) = run(g, Seq::empty(), lines@.map_values(|x: String| x@), self.nlines as nat);
                &&& p.records@.len() == ins.len()
                &&& forall|k: int| 0 <= k < ins.len() ==> record_ok(g, #[trigger] p.records@[k], ins[k])
                &&& p.malformed@.len() == m
                &&& p.fatal == fatal
                &&& (p.leftover is Some <==> (!fatal && has_leftover(rest)))
                &&& (p.leftover matches Some(t) ==> t@ == without_mark(rest))
            }),
    {
        let ghost all = lines@.map_values(|x: String| x@);
        let n = self.nlines;
        let mut state = ParserState::new();
        let mut records: Vec<Record> = Vec::new();
        let mut malformed: Vec<String> = Vec::new();
        let mut pos: usize = 0;
        let ghost mut ins_done: Seq<Seq<char>> = Seq::empty();
        let ghost mut bad_done: nat = 0;
        assert(state.chunk@ =~= Seq::<char>::empty());
        proof {
            assert(all.skip(0) =~= all);
            let (a, b, c, f) = run(g, Seq::empty(), all, n as nat);
            assert(Seq::<Seq<char>>::empty() + a =~= a);
        }
        while pos < lines.len()
            invariant
                n >= 1,
                n == self.nlines,
                pos <= lines@.len(),
                all == lines@.map_values(|x: String| x@),
                !state.ended,
                records@.len() == ins_done.len(),
                forall|k: int| 0 <= k < ins_done.len() ==> record_ok(g, #[trigger] records@[k], ins_done[k]),
                malformed@.len() == bad_done,
                ({
                    let (a, b, c, f) = run(g, state.chunk@, all.skip(pos as int), n as nat);
                    run(g, Seq::empty(), all, n as nat) == (ins_done + a, b, bad_done + c, f)
                }),
            decreases lines@.len() - pos,
        {
            let end = if n < lines.len() - pos {
                pos + n
            } else {
                lines.len()
            };
            let mut batch: Vec<String> = Vec::new();
            let mut q: usize = pos;
            while q < end
                invariant
                    pos <= q <= end <= lines@.len(),
                    batch@.len() == q - pos,
                    forall|k: int| 0 <= k < q - pos ==> (#[trigger] batch@[k])@ == lines@[pos + k]@,
                decreases end - q,
            {
                batch.push(lines[q].clone());
                q = q + 1;
            }
            let ghost rest_lines = all.skip(pos as int);
            let ghost kk = (end - pos) as int;
            proof {
                assert(batch@.map_values(|x: String| x@) =~= rest_lines.take(kk));
                assert(all.skip(pos as int).skip(kk) =~= all.skip(end as int));
            }
            let ghost old_chunk = state.chunk@;
            let (st, out) = step(g, state, Event::Lines(batch));
            let StepOutput { records: mut recs, malformed: mal, leftover: _, fatal } = out;
            let ghost (a, b, c) = drain(g, old_chunk + joined(rest_lines.take(kk)));
            proof {
                let bad: nat = if c == DrainEnd::Malformed { 1 } else { 0 };
                if !fatal {
                    let (a2, b2, c2, f2) = run(g, b, all.skip(end as int), n as nat);
                    assert(ins_done + (a + a2) =~= (ins_done + a) + a2);
                    assert(bad_done + (bad + c2) == (bad_done + bad) + c2);
                }
                ins_done = ins_done + a;
                bad_done = bad_done + bad;
            }
            records.append(&mut recs);
            match mal {
                Some(t) => {
                    malformed.push(t);
                },
                None => {},
            }
            if fatal {
                return Parsed { records, malformed, leftover: None, fatal: true };
            }
            state = st;
            pos = end;
        }
        let ghost old_chunk = state.chunk@;
        proof {
            assert(all.skip(pos as int).len() == 0);
        }
        let (_st, out) = step(g, state, Event::End);
        let StepOutput { records: mut recs, malformed: mal, leftover, fatal } = out;
        let ghost (a, b, c) = drain(g, old_chunk + END_MARK@);
        proof {
            let bad: nat = if c == DrainEnd::Malformed { 1 } else { 0 };
            ins_done = ins_done + a;
            bad_done = bad_done + bad;
        }
        records.append(&mut recs);
        match mal {
            Some(t) => {
                malformed.push(t);
            },
            None => {},
        }
        Parsed { records, malformed, leftover, fatal }
    }
}

} // verus!
