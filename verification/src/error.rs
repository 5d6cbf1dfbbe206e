//! Aggregation of parse errors: the parser batches every error found in
//! one parse attempt and surfaces them together; and the top-level error
//! of the whole pipeline.

use vstd::prelude::*;

use crate::interpreter::RuntimeError;
use crate::lexer::LexerError;
use crate::parser::{parser_err_view, errs_view, ParseErrV, ParserError};

verus! {

/// What one run of the pipeline can fail with: a lexical error, the batch
/// of parse errors, or the first runtime error.
#[derive(Debug, PartialEq)]
pub enum Error {
    Lexer(LexerError),
    Parser(ParserErrorReporter),
    Runtime(RuntimeError),
}

/// An ordered batch of parse errors, collected across one parse attempt.
#[derive(Debug, PartialEq)]
pub struct ParserErrorReporter {
    parser_errors: Vec<ParserError>,
}

impl ParserErrorReporter {
    /// The batch as a sequence of ghost errors.
    pub closed spec fn view(&self) -> Seq<ParseErrV> {
        errs_view(self.parser_errors@)
    }

    /// A fresh, empty batch.
    pub fn new() -> (r: Self)
        ensures
            r.view() == Seq::<ParseErrV>::empty(),
    {
        let r = ParserErrorReporter { parser_errors: Vec::new() };
        proof {
            assert(r.view() =~= Seq::<ParseErrV>::empty());
        }
        r
    }

    /// Whether any error has been recorded.
    pub fn has_errors(&self) -> (r: bool)
        ensures
            r == (self.view().len() > 0),
    {
        self.parser_errors.len() > 0
    }

    /// Record one more error at the end of the batch.
    pub fn add_parser_error(&mut self, error: ParserError)
        ensures
            final(self).view() == old(self).view().push(parser_err_view(error)),
    {
        let ghost prev = self.parser_errors@;
        self.parser_errors.push(error);
        proof {
            assert(errs_view(prev.push(error)) =~= errs_view(prev).push(parser_err_view(error)));
        }
    }

    /// The recorded errors, in order.
    pub fn error_list(&self) -> (r: &Vec<ParserError>)
        ensures
            errs_view(r@) == self.view(),
    {
        &self.parser_errors
    }
}

} // verus!
