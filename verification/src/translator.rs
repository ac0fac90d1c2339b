pub mod analyzer;
pub mod assembly;
pub mod ast;
pub mod common;
pub mod expression;
pub mod lir;
pub mod simplifier;

use crate::parser::SyntaxTree;
use vstd::prelude::*;

verus! {

/// The machine words for a syntax tree. No instruction is selected from the tree at this
/// stage, so the result is empty whatever the tree holds.
pub fn translate_to_bin(tree: SyntaxTree) -> (words: Vec<u32>)
    ensures
        words@ == Seq::<u32>::empty(),
{
    let _ = tree;
    Vec::new()
}

} // verus!
