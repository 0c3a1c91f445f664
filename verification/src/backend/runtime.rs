//! JS minification, by oxc.

use vstd::prelude::*;

verus! {

/// What oxc's parse, minify and minified codegen make of a module source:
/// `None` when the source does not parse as an ES module.
pub uninterp spec fn minified(source: Seq<char>) -> Option<Seq<char>>;

/// Minify an ES module with oxc: parse it, let the minifier compute the
/// mangled scoping, and print the program in minified form with that scoping.
/// `None` when the parser reports an error or panics.
///
/// Claimed of oxc (`oxc_parser::Parser::parse`, `oxc_minifier::Minifier::minify`,
/// `oxc_codegen::Codegen::build`): the result is a fixed function of the
/// source text, named [`minified`]; nothing more is stated about it. The
/// parser turns a fatal error into `panicked` rather than unwinding; whether
/// the minifier or the code generator can panic on a program that parsed
/// without error is not ruled out here — oxc documents no such case, and
/// this contract does not claim that the call returns.
#[verifier::external_body]
pub fn minify(source: &str) -> (r: Option<String>)
    ensures
        match r {
            Some(m) => minified(source@) == Some(m@),
            None => minified(source@) is None,
        },
{
    let allocator = oxc_allocator::Allocator::default();
    let parsed = oxc_parser::Parser::new(&allocator, source, oxc_span::SourceType::mjs()).parse();
    if parsed.panicked || parsed.diagnostics.has_errors() {
        return None;
    }
    let mut program = parsed.program;
    let ret = oxc_minifier::Minifier::new(oxc_minifier::MinifierOptions::default()).minify(&allocator, &mut program);
    let opts = oxc_codegen::CodegenOptions::minify();
    Some(oxc_codegen::Codegen::new().with_options(opts).with_scoping(ret.scoping).build(&program).code)
}

} // verus!
