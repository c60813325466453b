//! Shell-style wildcard patterns. Compiling and matching are the `glob`
//! crate's; this module states what the rest of the library relies on.

use vstd::prelude::*;

verus! {

/// `glob::Pattern`, a compiled pattern. Opaque here.
#[verifier::external_type_specification]
#[verifier::external_body]
pub struct ExPattern(glob::Pattern);

/// `glob::PatternError`, the reason a pattern did not compile. Opaque here.
#[verifier::external_type_specification]
#[verifier::external_body]
pub struct ExPatternError(glob::PatternError);

/// Whether `glob::Pattern::new` accepts `text`. It rejects a run of three or
/// more `*`, a `**` that is not a path component of its own, and a `[` that
/// opens no complete character class.
pub uninterp spec fn glob_syntax_ok(text: Seq<char>) -> bool;

/// The text a pattern was compiled from, which `glob::Pattern::as_str`
/// hands back. A pattern's tokens are computed from this text alone.
pub uninterp spec fn pattern_text(pattern: glob::Pattern) -> Seq<char>;

/// Whether the pattern compiled from `text` matches the whole of `path`
/// under `glob::Pattern::matches`, that is with the default options: case
/// matters, and `*`, `?` and `[...]` may match a path separator or a leading
/// dot. What counts as a separator is the build platform's convention.
pub uninterp spec fn glob_matches(text: Seq<char>, path: Seq<char>) -> bool;

/// `glob::Pattern::new` compiles `pattern` or reports a syntax error. Which
/// of the two depends on the text alone, and a compiled pattern keeps its
/// text.
pub assume_specification[ glob::Pattern::new ](pattern: &str) -> (r: Result<
    glob::Pattern,
    glob::PatternError,
>)
    ensures
        r is Ok <==> glob_syntax_ok(pattern@),
        r matches Ok(p) ==> pattern_text(p) == pattern@,
;

/// `glob::Pattern::matches` tells whether the pattern matches `str` with the
/// default match options. The answer depends on the pattern's text and on
/// `str` alone.
pub assume_specification[ glob::Pattern::matches ](pattern: &glob::Pattern, str: &str) -> (b: bool)
    ensures
        b == glob_matches(pattern_text(*pattern), str@),
;

/// A pattern that does not compile.
pub struct PatternSyntaxError {
    /// The text that was rejected.
    pub pattern: String,
}

/// Compiles a wildcard pattern.
pub fn parse_pattern(text: &str) -> (r: Result<glob::Pattern, PatternSyntaxError>)
    ensures
        match r {
            Ok(p) => glob_syntax_ok(text@) && pattern_text(p) == text@,
            Err(e) => !glob_syntax_ok(text@) && e.pattern@ == text@,
        },
{
    match glob::Pattern::new(text) {
        Ok(p) => Ok(p),
        Err(_) => Err(PatternSyntaxError { pattern: text.to_owned() }),
    }
}

} // verus!
