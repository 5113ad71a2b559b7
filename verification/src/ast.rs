//! The abstract-syntax side of the analysis: constants with their lexical
//! scope, source locations, and the shape of a parsed file.

pub mod constant;

use crate::ast::constant::Constant;
use vstd::prelude::*;

verus! {

/// The constants extracted from one source file: the constant definitions
/// it makes and the constant references it contains.
pub struct ParsedFile {
    pub path: String,
    pub definitions: Vec<Constant>,
    pub references: Vec<Constant>,
}

/// The mathematical value of a `ParsedFile`.
pub ghost struct ParsedFileView {
    pub path: Seq<char>,
    pub definitions: Seq<crate::ast::constant::ConstantView>,
    pub references: Seq<crate::ast::constant::ConstantView>,
}

impl DeepView for ParsedFile {
    type V = ParsedFileView;

    open spec fn deep_view(&self) -> ParsedFileView {
        ParsedFileView {
            path: self.path@,
            definitions: self.definitions.deep_view(),
            references: self.references.deep_view(),
        }
    }
}

} // verus!
