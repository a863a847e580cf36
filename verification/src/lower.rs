//! Lowering: from declarations of the template language to the execution form.
use vstd::prelude::*;
use crate::diagnostics::{diagnostic_views, Diagnostic, DiagnosticView};

pub mod files;
pub mod finish;
pub mod inline;
pub mod meaning;
pub mod order;
pub mod stmt;

verus! {

/// Why a configuration does not compile.
#[derive(Debug, PartialEq)]
pub enum CompileError {
    Parse(Vec<Diagnostic>),
    Validation(Vec<Diagnostic>),
}

/// The contents of a [`CompileError`].
pub enum CompileErrorView {
    Parse(Seq<DiagnosticView>),
    Validation(Seq<DiagnosticView>),
}

impl CompileError {
    pub open spec fn view(&self) -> CompileErrorView {
        match self {
            CompileError::Parse(d) => CompileErrorView::Parse(diagnostic_views(d@)),
            CompileError::Validation(d) => CompileErrorView::Validation(diagnostic_views(d@)),
        }
    }
}

} // verus!
