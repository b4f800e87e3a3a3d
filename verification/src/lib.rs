//! `.rama` v2 toolchain: lexer, parser, semantic IR, rules, gradual JVM
//! typing, Clojure IR, and the Clojure emitter.

pub mod ast;
pub mod check;
pub mod cli;
pub mod clj;
pub mod clj_verify;
pub mod contracts;
pub mod emit_clj;
pub mod error;
pub mod learn;
pub mod lex;
pub mod lower;
pub mod nrepl;
pub mod parse;
pub mod rama_ir;
pub mod rules;
pub mod sexp;
pub mod span;
pub mod text;
pub mod types;

pub use ast::SourceFile;
pub use check::{check, CheckResult, TypeEnv};
pub use clj::{Document as CljDocument, Form as CljForm};
pub use emit_clj::{compile as compile_clj, emit_clojure};
pub use error::{Diagnostic, DiagnosticKind, ParseError};
pub use lex::{lex, SpannedToken, TokenKind};
pub use parse::parse;
pub use rama_ir::Program as RamaProgram;
pub use rules::Violation as RuleViolation;

use vstd::prelude::*;
use crate::clj_verify::Issue;
use crate::span::Span;
use crate::text::cat;

verus! {

/// The diagnostics an invalid emitted IR is reported with.
fn ir_issue_error(issues: &Vec<Issue>) -> (out: ParseError)
    ensures
        out.diagnostics@.len() == issues@.len(),
{
    let mut diagnostics: Vec<Diagnostic> = Vec::new();
    let mut i: usize = 0;
    while i < issues.len()
        invariant
            i <= issues.len(),
            diagnostics@.len() == i,
        decreases issues.len() - i,
    {
        let message = cat(
            vec!["compiler produced invalid Clojure IR: [", issues[i].invariant, "] ", issues[i].message.as_str()],
        );
        diagnostics.push(Diagnostic::rule(Span::new(0, 0), message));
        i += 1;
    }
    ParseError { diagnostics }
}

/// Transpile a `.rama` source string to Clojure.
///
/// Surface modules (`module …`) go through the typed pipeline. Files whose
/// first non-comment token is `(` are sexp-mode and emit arbitrary Clojure
/// via the Form IR (used for tests).
pub fn transpile_source(src: &str) -> (out: Result<String, ParseError>)
    ensures
        out matches Err(e) ==> e.diagnostics@.len() > 0,
        sexp::is_sexp_source(src@) ==> (out is Ok <==> sexp::doc_reads(src@)),
        sexp::is_sexp_source(src@) ==> (out matches Ok(text) ==> sexp_text(src@, text@)),
        !sexp::is_sexp_source(src@) ==> (out matches Ok(text) ==> exists|file: SourceFile|
            #[trigger] emitted_text(file, text@) && findings_free(file)),
{
    if sexp::looks_like_sexp(src) {
        return match sexp::parse_document(src) {
            Ok(doc) => {
                let text = doc.render();
                assert(sexp_text(src@, text@));
                Ok(text)
            },
            Err(e) => Err(e),
        };
    }
    let (file, result) = match analyze(src) {
        Ok(pair) => pair,
        Err(e) => {
            return Err(e);
        },
    };
    if !result.ok() {
        return Err(ParseError { diagnostics: result.diagnostics });
    }
    match emit_clojure(&file) {
        Ok(text) => {
            let out: Result<String, ParseError> = Ok(text);
            assert(emitted_text(file, out->Ok_0@) && findings_free(file));
            out
        },
        Err(issues) => {
            let e = ir_issue_error(&issues);
            assert(e.diagnostics@.len() > 0);
            Err(e)
        },
    }
}

/// The text of an s-expression document: its forms, read from `src` behind
/// the generated-file header, rendered.
pub open spec fn sexp_text(src: Seq<char>, text: Seq<char>) -> bool {
    exists|doc: clj::Document|
        #[trigger] clj::models(doc.forms@) == seq![
            clj::FormModel::Comment("Generated from .rama sexp mode — edit the .rama source."@),
        ] + sexp::doc_forms(src) && text == clj::document_text(doc.forms@)
}

/// `text` renders IR compiled from `file` that passes every check.
pub open spec fn emitted_text(file: SourceFile, text: Seq<char>) -> bool {
    exists|doc: clj::Document|
        #[trigger] emit_clj::compiled(file, doc) && clj_verify::forms_issues(doc.forms@, false).len() == 0 && text
            == clj::document_text(doc.forms@)
}

/// No Rama rule finds anything in the program built from `file`.
pub open spec fn findings_free(file: SourceFile) -> bool {
    exists|p: rama_ir::Program| #[trigger] rama_ir::built_from(p, file) && check::rama_findings(p).len() == 0
}

/// The parsed file and the result of checking it.
pub fn analyze(src: &str) -> (out: Result<(SourceFile, CheckResult), ParseError>)
    ensures
        out matches Err(e) ==> e.diagnostics@.len() > 0,
        out matches Ok((file, result)) ==> check::rules_then_types(result.diagnostics@) && exists|p: rama_ir::Program|
            #[trigger] rama_ir::built_from(p, file) && check::reports_findings(result.diagnostics@, p),
{
    let file = match parse(src) {
        Ok(file) => file,
        Err(e) => {
            return Err(e);
        },
    };
    let result = check(&file);
    let ghost f = file;
    let out = (file, result);
    assert(out.0 == f);
    Ok(out)
}

/// As [`analyze`], consulting `oracle` while typing.
pub fn analyze_with_oracle<O: types::TypeOracle>(src: &str, oracle: &O) -> (out: Result<(SourceFile, CheckResult), ParseError>)
    ensures
        out matches Err(e) ==> e.diagnostics@.len() > 0,
        out matches Ok((file, result)) ==> check::rules_then_types(result.diagnostics@) && exists|p: rama_ir::Program|
            #[trigger] rama_ir::built_from(p, file) && check::reports_findings(result.diagnostics@, p),
{
    let file = match parse(src) {
        Ok(file) => file,
        Err(e) => {
            return Err(e);
        },
    };
    let program = rama_ir::Program::from_ast(&file);
    let result = check::check_program_ir_with_oracle(&program, Some(oracle));
    assert(rama_ir::built_from(program, file) && check::reports_findings(result.diagnostics@, program));
    let ghost f = file;
    let out = (file, result);
    assert(out.0 == f);
    Ok(out)
}

} // verus!
