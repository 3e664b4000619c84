//! Shell-style name patterns, compiled and matched by the `glob` crate.

use vstd::prelude::*;

verus! {

/// `glob::Pattern`, a compiled pattern. Nothing inside it is read here.
#[verifier::external_type_specification]
#[verifier::external_body]
pub struct ExPattern(glob::Pattern);

/// `glob::PatternError`, the reason why a text is no pattern. It is only
/// told apart from success.
#[verifier::external_type_specification]
#[verifier::external_body]
pub struct ExPatternError(glob::PatternError);

/// Whether `glob::Pattern::new` accepts the text `pattern` as a pattern.
pub uninterp spec fn glob_compiles(pattern: Seq<char>) -> bool;

/// The text that a compiled pattern was made from, as `glob::Pattern::as_str`
/// gives it back.
pub uninterp spec fn pattern_text(p: glob::Pattern) -> Seq<char>;

/// Whether `glob::Pattern::matches_with` finds that the pattern compiled from
/// `pattern` matches `name` under the three match options.
pub uninterp spec fn glob_accepts(
    pattern: Seq<char>,
    name: Seq<char>,
    case_sensitive: bool,
    literal_separator: bool,
    literal_leading_dot: bool,
) -> bool;

/// No character of `name` separates path segments, on any platform.
pub open spec fn is_single_segment(name: Seq<char>) -> bool {
    forall|i: int| 0 <= i < name.len() ==> #[trigger] name[i] != '/' && name[i] != '\\'
}

/// `glob::Pattern::new` compiles a pattern. Believed of it: whether it
/// succeeds depends on the text alone, the lone wildcard `*` is a pattern,
/// and a compiled pattern keeps the text it was made from.
pub assume_specification[ glob::Pattern::new ](pattern: &str) -> (r: Result<
    glob::Pattern,
    glob::PatternError,
>)
    ensures
        r.is_ok() == glob_compiles(pattern@),
        pattern@ == seq!['*'] ==> r.is_ok(),
        r matches Ok(p) ==> pattern_text(p) == pattern@,
;

/// Calls `glob::Pattern::matches_with` with match options built from the
/// three flags. Believed of it: on one target platform the answer depends
/// only on the pattern's text, the name and the options; and the pattern `*`
/// matches every name without a path separator, unless a leading dot has to
/// be matched literally.
#[verifier::external_body]
pub(crate) fn pattern_matches(
    p: &glob::Pattern,
    name: &str,
    case_sensitive: bool,
    literal_separator: bool,
    literal_leading_dot: bool,
) -> (m: bool)
    ensures
        m == glob_accepts(
            pattern_text(*p),
            name@,
            case_sensitive,
            literal_separator,
            literal_leading_dot,
        ),
        pattern_text(*p) == seq!['*'] && is_single_segment(name@) && !literal_leading_dot ==> m,
{
    let options = glob::MatchOptions {
        case_sensitive,
        require_literal_separator: literal_separator,
        require_literal_leading_dot: literal_leading_dot,
    };
    p.matches_with(name, options)
}

/// How the name test of one entry came out.
#[derive(Debug, Clone, Copy, PartialEq, Eq, Structural)]
pub enum NameTest {
    /// No pattern was asked for, or an empty one: every entry passes.
    Unfiltered,
    /// The pattern is not a well-formed glob: no entry passes.
    Malformed,
    /// The entry has no base name that can be read as text: it fails.
    Unnamed,
    /// The pattern was matched against the base name, with this answer.
    Compared(bool),
}

impl NameTest {
    /// The test lets the entry through.
    pub open spec fn passes(self) -> bool {
        self == NameTest::Unfiltered || self == NameTest::Compared(true)
    }

    /// Whether the test lets the entry through.
    pub fn verdict(&self) -> (r: bool)
        ensures
            r == self.passes(),
    {
        match self {
            NameTest::Unfiltered => true,
            NameTest::Malformed => false,
            NameTest::Unnamed => false,
            NameTest::Compared(m) => *m,
        }
    }
}

/// The outcome of testing base name `base` against `pattern`. The base name
/// is compared as a single path segment: a wildcard never matches a path
/// separator, and a leading dot needs no literal dot in the pattern.
pub open spec fn name_test(pattern: Option<Seq<char>>, case_sensitive: bool, base: Option<Seq<char>>) -> NameTest {
    match pattern {
        None => NameTest::Unfiltered,
        Some(p) => if p.len() == 0 {
            NameTest::Unfiltered
        } else if !glob_compiles(p) {
            NameTest::Malformed
        } else {
            match base {
                None => NameTest::Unnamed,
                Some(b) => NameTest::Compared(glob_accepts(p, b, case_sensitive, true, false)),
            }
        },
    }
}

/// Whether `text` is a well-formed glob pattern.
pub fn pattern_compiles(text: &str) -> (r: bool)
    ensures
        r == glob_compiles(text@),
{
    match glob::Pattern::new(text) {
        Ok(_) => true,
        Err(_) => false,
    }
}

/// Tests `base` against `pattern`, compiling the pattern first.
pub fn test_name(pattern: Option<&str>, case_sensitive: bool, base: Option<&str>) -> (t: NameTest)
    ensures
        t == name_test(text_of(pattern), case_sensitive, text_of(base)),
        text_of(pattern) == Some(seq!['*']) && base is Some && is_single_segment(base->0@)
            ==> t == NameTest::Compared(true),
{
    let text: &str = match pattern {
        Some(p) => p,
        None => { return NameTest::Unfiltered; },
    };
    if text.is_empty() {
        return NameTest::Unfiltered;
    }
    let compiled = match glob::Pattern::new(text) {
        Ok(p) => p,
        Err(_) => { return NameTest::Malformed; },
    };
    match base {
        None => NameTest::Unnamed,
        Some(b) => NameTest::Compared(pattern_matches(&compiled, b, case_sensitive, true, false)),
    }
}

/// The characters of an optional string slice.
pub open spec fn text_of(s: Option<&str>) -> Option<Seq<char>> {
    match s {
        Some(t) => Some(t@),
        None => None,
    }
}

} // verus!
