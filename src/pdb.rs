//! The PDB subset: `ATOM` records, whose coordinates stand in fixed columns.
use vstd::prelude::*;
use crate::text::{
    ParseError, to_chars, slice_text, token_spans, spans_view, span_text, scan_tokens,
    is_float_text, float_text_ok, token_chars, text_at, match_at,
};

verus! {

pub const ATOM_RECORD: &'static str = "ATOM ";

/// The coordinates of an `ATOM` line, as written: the text of columns 29 to
/// 55 (characters 28 up to 55), split on whitespace into exactly three
/// floating-point literals. `Ok(None)` for a line that is no `ATOM` record.
pub open spec fn pdb_position(cs: Seq<char>) -> Result<Option<Seq<Seq<char>>>, ParseError> {
    if !text_at(cs, 0, ATOM_RECORD@) {
        Ok(None)
    } else if cs.len() < 55 {
        Err(ParseError::Error)
    } else {
        let f = cs.subrange(28, 55);
        let sp = token_spans(f, 0);
        if sp.len() == 3 && forall|k: int| 0 <= k < 3 ==> is_float_text(span_text(f, #[trigger] sp[k])) {
            Ok(Some(sp.map_values(|t: (int, int)| span_text(f, t))))
        } else {
            Err(ParseError::Error)
        }
    }
}

/// Reads the coordinates of a PDB line:
/// `"ATOM      1  N   SER A  26     285.994 214.551 358.350 ..."` gives
/// `["285.994", "214.551", "358.350"]`; a line of another record gives `None`.
pub fn read_xyz(line: &str) -> (r: Result<Option<Vec<String>>, ParseError>)
    ensures
        match pdb_position(line@) {
            Ok(None) => r == Ok::<Option<Vec<String>>, ParseError>(None),
            Ok(Some(v)) => r matches Ok(Some(x)) && x@.len() == 3 && forall|k: int|
                0 <= k < 3 ==> (#[trigger] x@[k])@ == v[k],
            Err(e) => r == Err::<Option<Vec<String>>, ParseError>(e),
        },
{
    let cs = to_chars(line);
    let tag = to_chars(ATOM_RECORD);
    if !match_at(&cs, 0, &tag) {
        return Ok(None);
    }
    assert(cs@.len() == cs.len());
    if cs.len() < 55 {
        return Err(ParseError::Error);
    }
    let field = slice_text(line, &cs, 28, 55);
    let fc = to_chars(field.as_str());
    let (spans, _e) = scan_tokens(&fc, 0);
    if spans.len() != 3 {
        return Err(ParseError::Error);
    }
    proof {
        crate::text::lemma_token_spans_bounds(fc@, 0);
        assert forall|q: int| 0 <= q < spans@.len() implies (#[trigger] spans@[q]).0 <= spans@[q].1
            <= fc@.len() by {
            assert(spans_view(spans@)[q] == token_spans(fc@, 0)[q]);
        }
    }
    let mut out: Vec<String> = Vec::new();
    let mut k: usize = 0;
    while k < 3
        invariant
            text_at(line@, 0, ATOM_RECORD@),
            line@.len() >= 55,
            fc@ == field@,
            field@ == line@.subrange(28, 55),
            spans@.len() == 3,
            spans_view(spans@) == token_spans(fc@, 0),
            forall|q: int| 0 <= q < spans@.len() ==> (#[trigger] spans@[q]).0 <= spans@[q].1 <= fc@.len(),
            k <= 3,
            out@.len() == k,
            forall|q: int| 0 <= q < k ==> is_float_text(span_text(fc@, #[trigger] spans_view(spans@)[q])),
            forall|q: int| 0 <= q < k ==> (#[trigger] out@[q])@ == span_text(fc@, spans_view(spans@)[q]),
        decreases 3 - k,
    {
        let t = token_chars(field.as_str(), &fc, spans[k].0, spans[k].1);
        assert(t@ == span_text(fc@, spans_view(spans@)[k as int]));
        if !float_text_ok(&t) {
            return Err(ParseError::Error);
        }
        out.push(slice_text(field.as_str(), &fc, spans[k].0, spans[k].1));
        k = k + 1;
    }
    Ok(Some(out))
}

} // verus!
