//! Line-oriented incremental parsing of small-molecule structure files:
//! XYZ, a PDB subset, CIF, Tripos MOL2, MDL SDF (V2000) and Gaussian
//! formatted checkpoint files.
//!
//! - `text`: the token and line primitives every grammar shares, and the
//!   outcome type (`Incomplete`, `Error`, `Failure`) of a grammar.
//! - `molecule`: atoms, bonds, cells and molecules. Numbers keep the text
//!   they were written in, so that nothing is rounded on the way.
//! - `xyz`, `pdb`, `cif`, `mol2`, `sdf`, `fchk`: one record grammar per
//!   format, each a function from the unconsumed input to the rest and one
//!   record, specified by a spec function over the input's characters.
//! - `driver`: the chunk-incremental driver, a step function from the buffer
//!   and an event (lines read, or the end of the source) to the next buffer
//!   and the records found.
//! - `formats`: format names, extensions and the grammar of each.
//! - `formula`: the reduced formula of a list of element symbols.
use vstd::prelude::*;

pub mod text;
pub mod molecule;
pub mod xyz;
pub mod sdf;
pub mod mol2;
pub mod cif;
pub mod fchk;
pub mod driver;
pub mod formats;
pub mod pdb;
pub mod formula;

verus! {

} // verus!
