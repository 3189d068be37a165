use vstd::prelude::*;

verus! {

/// Identifier of an entry: issued once, in increasing order, never reused.
#[derive(Clone, Copy, Debug, PartialEq, Eq, Structural, Hash)]
pub struct CorpusId(pub usize);

/// The integer behind an optional identifier.
pub open spec fn opt_ix(o: Option<CorpusId>) -> Option<usize> {
    match o {
        Some(c) => Some(c.0),
        None => None,
    }
}

} // verus!
