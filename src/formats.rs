//! The formats the library reads: their names, file extensions, and the
//! record grammar of each. Whether a format can be read or written is a
//! question to ask before calling, not a failure found by calling.
use vstd::prelude::*;
use crate::text::{to_chars, chars_eq};
use crate::driver::Grammar;

verus! {

/// A chemical file format.
#[derive(Debug, Clone, Copy, PartialEq, Eq, Structural)]
pub enum FileFormat {
    Xyz,
    Mol2,
    Sdf,
    Cif,
    Fchk,
}

/// The lower-case form of a text.
pub uninterp spec fn lower_of(s: Seq<char>) -> Seq<char>;

/// Relies on `str::to_lowercase`: the lower-case form of `s`, which depends
/// on its characters alone.
#[verifier::external_body]
fn lowercase(s: &str) -> (r: String)
    ensures
        r@ == lower_of(s@),
{
    s.to_lowercase()
}

/// Whether `name` ends with `ext`.
pub open spec fn ends_with(name: Seq<char>, ext: Seq<char>) -> bool {
    ext.len() <= name.len() && name.skip(name.len() - ext.len()) == ext
}

/// Whether `name` ends with one of `exts`; both are compared as given, so a
/// caller that wants case ignored lowers both first.
pub fn has_extension(name: &str, exts: &Vec<String>) -> (r: bool)
    ensures
        r == exists|k: int| 0 <= k < exts@.len() && ends_with(name@, (#[trigger] exts@[k])@),
{
    let nc = to_chars(name);
    let mut k: usize = 0;
    while k < exts.len()
        invariant
            nc@ == name@,
            k <= exts@.len(),
            forall|q: int| 0 <= q < k ==> !ends_with(name@, (#[trigger] exts@[q])@),
        decreases exts@.len() - k,
    {
        let ec = to_chars(exts[k].as_str());
        if ec.len() <= nc.len() {
            let tail = suffix(&nc, nc.len() - ec.len());
            if chars_eq(&tail, &ec) {
                return true;
            }
        }
        k = k + 1;
    }
    false
}

fn suffix(v: &Vec<char>, a: usize) -> (r: Vec<char>)
    requires
        a <= v@.len(),
    ensures
        r@ == v@.skip(a as int),
{
    let mut out: Vec<char> = Vec::new();
    let mut k: usize = a;
    while k < v.len()
        invariant
            a <= k <= v@.len(),
            out@ == v@.subrange(a as int, k as int),
        decreases v@.len() - k,
    {
        out.push(v[k]);
        assert(out@ =~= v@.subrange(a as int, k + 1));
        k = k + 1;
    }
    assert(out@ =~= v@.skip(a as int));
    out
}

/// `e` between double quotes.
pub open spec fn quote(e: Seq<char>) -> Seq<char> {
    "\""@ + e + "\""@
}

/// The quoted texts of `es`, separated by `", "`.
pub open spec fn quoted_list(es: Seq<Seq<char>>) -> Seq<char>
    decreases es.len(),
{
    if es.len() == 0 {
        Seq::empty()
    } else if es.len() == 1 {
        quote(es[0])
    } else {
        quoted_list(es.drop_last()) + ", "@ + quote(es.last())
    }
}

pub open spec fn ftype_of(f: FileFormat) -> Seq<char> {
    match f {
        FileFormat::Xyz => "xyz"@,
        FileFormat::Mol2 => "mol2"@,
        FileFormat::Sdf => "sdf"@,
        FileFormat::Cif => "cif"@,
        FileFormat::Fchk => "fchk"@,
    }
}

pub open spec fn extensions_of(f: FileFormat) -> Seq<Seq<char>> {
    match f {
        FileFormat::Xyz => seq![".xyz"@],
        FileFormat::Mol2 => seq![".mol2"@],
        FileFormat::Sdf => seq![".sdf"@, ".mol"@],
        FileFormat::Cif => seq![".cif"@],
        FileFormat::Fchk => seq![".fchk"@, ".fch"@],
    }
}

pub open spec fn grammar_of(f: FileFormat) -> Grammar {
    match f {
        FileFormat::Xyz => Grammar::Xyz,
        FileFormat::Mol2 => Grammar::Mol2,
        FileFormat::Sdf => Grammar::Sdf,
        FileFormat::Cif => Grammar::Cif,
        FileFormat::Fchk => Grammar::ModelProperties,
    }
}

impl FileFormat {
    /// The format's name.
    pub fn ftype(&self) -> (r: &'static str)
        ensures
            r@ == ftype_of(*self),
    {
        match self {
            FileFormat::Xyz => "xyz",
            FileFormat::Mol2 => "mol2",
            FileFormat::Sdf => "sdf",
            FileFormat::Cif => "cif",
            FileFormat::Fchk => "fchk",
        }
    }

    /// The file extensions the format is known by.
    pub fn extensions(&self) -> (r: Vec<String>)
        ensures
            r@.map_values(|x: String| x@) == extensions_of(*self),
    {
        let mut v: Vec<String> = Vec::new();
        match self {
            FileFormat::Xyz => {
                v.push(String::from_str(".xyz"));
            },
            FileFormat::Mol2 => {
                v.push(String::from_str(".mol2"));
            },
            FileFormat::Sdf => {
                v.push(String::from_str(".sdf"));
                v.push(String::from_str(".mol"));
            },
            FileFormat::Cif => {
                v.push(String::from_str(".cif"));
            },
            FileFormat::Fchk => {
                v.push(String::from_str(".fchk"));
                v.push(String::from_str(".fch"));
            },
        }
        assert(v@.map_values(|x: String| x@) =~= extensions_of(*self));
        v
    }

    /// Whether a file named `filename` is in this format, by its extension,
    /// case ignored.
    pub fn parsable(&self, filename: &str) -> (r: bool)
        ensures
            r == exists|k: int|
                0 <= k < extensions_of(*self).len() && ends_with(
                    lower_of(filename@),
                    lower_of(#[trigger] extensions_of(*self)[k]),
                ),
    {
        let name = lowercase(filename);
        let exts = self.extensions();
        let mut lowered: Vec<String> = Vec::new();
        let mut k: usize = 0;
        while k < exts.len()
            invariant
                k <= exts@.len(),
                exts@.map_values(|x: String| x@) == extensions_of(*self),
                lowered@.len() == k,
                forall|q: int| 0 <= q < k ==> (#[trigger] lowered@[q])@ == lower_of(exts@[q]@),
            decreases exts@.len() - k,
        {
            lowered.push(lowercase(exts[k].as_str()));
            k = k + 1;
        }
        let r = has_extension(name.as_str(), &lowered);
        proof {
            if r {
                let q = choose|q: int| 0 <= q < lowered@.len() && ends_with(name@, (#[trigger] lowered@[q])@);
                assert(extensions_of(*self)[q] == exts@[q]@);
            } else {
                assert forall|q: int| 0 <= q < extensions_of(*self).len() implies !ends_with(
                    lower_of(filename@),
                    lower_of(#[trigger] extensions_of(*self)[q]),
                ) by {
                    assert(extensions_of(*self)[q] == exts@[q]@);
                    assert(!ends_with(name@, lowered@[q]@));
                }
            }
        }
        r
    }

    /// The record grammar that reads this format.
    pub fn grammar(&self) -> (r: Grammar)
        ensures
            r == grammar_of(*self),
    {
        match self {
            FileFormat::Xyz => Grammar::Xyz,
            FileFormat::Mol2 => Grammar::Mol2,
            FileFormat::Sdf => Grammar::Sdf,
            FileFormat::Cif => Grammar::Cif,
            FileFormat::Fchk => Grammar::ModelProperties,
        }
    }

    /// Whether the library writes this format: none is written here, since
    /// writing needs the coordinates as floating-point numbers.
    pub fn writable(&self) -> (r: bool)
        ensures
            !r,
    {
        false
    }

    /// A one-line description: the name and the extensions, each in quotes
    /// (`filetype: "sdf", possible extensions: [".sdf", ".mol"]`).
    pub fn describe(&self) -> (r: String)
        ensures
            r@ == "filetype: \""@ + ftype_of(*self) + "\", possible extensions: ["@ + quoted_list(
                extensions_of(*self),
            ) + "]"@,
    {
        let exts = self.extensions();
        let ghost ev = exts@.map_values(|x: String| x@);
        let mut list = String::new();
        let mut k: usize = 0;
        while k < exts.len()
            invariant
                k <= exts@.len(),
                ev == exts@.map_values(|x: String| x@),
                ev == extensions_of(*self),
                list@ == quoted_list(ev.take(k as int)),
            decreases exts@.len() - k,
        {
            if k > 0 {
                list = list.concat(", ");
            }
            list = list.concat("\"").concat(exts[k].as_str()).concat("\"");
            proof {
                assert(ev.take(k + 1).drop_last() =~= ev.take(k as int));
                assert(ev.take(k + 1).last() == ev[k as int]);
                if k == 0 {
                    assert(quoted_list(ev.take(1)) == quote(ev[0]));
                }
            }
            k = k + 1;
        }
        assert(ev.take(exts@.len() as int) =~= ev);
        let s = String::from_str("filetype: \"");
        let s = s.concat(self.ftype()).concat("\", possible extensions: [");
        let s = s.concat(list.as_str()).concat("]");
        s
    }
}


/// What every chemical file format offers: its name, its extensions, whether
/// it handles a file name, the grammar that reads it, and a description.
pub trait ChemFileLike {
    fn ftype(&self) -> &'static str;

    fn extensions(&self) -> Vec<String>;

    fn parsable(&self, filename: &str) -> bool;

    fn grammar(&self) -> Grammar;

    fn describe(&self) -> String;
}

impl ChemFileLike for FileFormat {
    fn ftype(&self) -> &'static str {
        FileFormat::ftype(self)
    }

    fn extensions(&self) -> Vec<String> {
        FileFormat::extensions(self)
    }

    fn parsable(&self, filename: &str) -> bool {
        FileFormat::parsable(self, filename)
    }

    fn grammar(&self) -> Grammar {
        FileFormat::grammar(self)
    }

    fn describe(&self) -> String {
        FileFormat::describe(self)
    }
}

} // verus!
