use vstd::prelude::*;

verus! {

/// A language that the service can tokenize.
#[derive(Clone, Copy, Debug)]
pub enum Language {
    English,
}

} // verus!
