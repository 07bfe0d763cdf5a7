//! Path matchers built from a query: the literal fast path, compiled glob
//! sets, exclude sets, and the optional path regex.

use vstd::prelude::*;
use vstd::string::StringSliceAdditionalSpecFns;

use crate::pattern_cache::glob_compiles;
use crate::pattern_cache::glob_seq_matches;
use crate::pattern_cache::glob_set_is_match;
use crate::pattern_cache::glob_set_of;
use crate::pattern_cache::is_literal_pattern;
use crate::pattern_cache::spec_adjusted;
use crate::pattern_cache::spec_has_separator;
use crate::pattern_cache::spec_is_literal;
use crate::pattern_cache::PatternCache;
use crate::simd_string::spec_filename_matches;
use crate::simd_string::spec_path_ends_with;
use crate::simd_string::FastPatternMatch;
use crate::QueryError;

verus! {

#[verifier::external_type_specification]
#[verifier::external_body]
pub struct ExRegex(regex::Regex);

/// Whether the regex engine compiles `pattern`.
pub uninterp spec fn regex_compiles(pattern: Seq<char>) -> bool;

/// The pattern a compiled regex was built from.
pub uninterp spec fn regex_of(r: regex::Regex) -> Seq<char>;

/// Whether the regex compiled from `pattern` matches somewhere in `text`.
pub uninterp spec fn regex_matches(pattern: Seq<char>, text: Seq<char>) -> bool;

/// Relies on regex::Regex::new: whether compilation succeeds depends on the
/// pattern alone.
#[verifier::external_body]
pub(crate) fn build_path_regex(pattern: &str) -> (r: Result<regex::Regex, String>)
    ensures
        r is Ok <==> regex_compiles(pattern@),
        r matches Ok(re) ==> regex_of(re) == pattern@,
{
    regex::Regex::new(pattern).map_err(|e| e.to_string())
}

/// Relies on regex::Regex::is_match: the result depends on the compiled
/// pattern and the text alone.
#[verifier::external_body]
pub(crate) fn path_regex_is_match(re: &regex::Regex, text: &str) -> (r: bool)
    ensures
        r == regex_matches(regex_of(*re), text@),
{
    re.is_match(text)
}

/// A pattern matcher that optimizes for literal patterns: a literal pattern
/// is compared byte-wise, every other pattern goes through its compiled glob
/// set.
pub enum PatternMatcher {
    Literal { pattern: String, case_sensitive: bool },
    Glob(globset::GlobSet),
}

/// What a literal pattern matches: one with a separator must be a suffix of
/// the full path, one without must equal the basename; the comparison is
/// byte-wise, with ASCII case folding when `case_sensitive` is false.
pub open spec fn spec_literal_matches(
    pattern: Seq<char>,
    case_sensitive: bool,
    path: Seq<char>,
    file_name: Seq<char>,
) -> bool {
    if spec_has_separator(pattern) {
        spec_path_ends_with(
            vstd::utf8::encode_utf8(path),
            vstd::utf8::encode_utf8(pattern),
            case_sensitive,
        )
    } else {
        spec_filename_matches(
            vstd::utf8::encode_utf8(file_name),
            vstd::utf8::encode_utf8(pattern),
            case_sensitive,
        )
    }
}

/// What a matcher accepts, given the full path and its basename.
pub open spec fn spec_matcher_matches(
    m: PatternMatcher,
    path: Seq<char>,
    file_name: Seq<char>,
) -> bool {
    match m {
        PatternMatcher::Literal { pattern, case_sensitive } => spec_literal_matches(
            pattern@,
            case_sensitive,
            path,
            file_name,
        ),
        PatternMatcher::Glob(gs) => glob_seq_matches(glob_set_of(gs), path),
    }
}

/// The matcher built for `(pattern, case_sensitive)`.
pub open spec fn matcher_for(m: PatternMatcher, pattern: Seq<char>, case_sensitive: bool) -> bool {
    match m {
        PatternMatcher::Literal { pattern: p, case_sensitive: c } => {
            &&& spec_is_literal(pattern)
            &&& p@ == pattern
            &&& c == case_sensitive
        },
        PatternMatcher::Glob(gs) => {
            &&& !spec_is_literal(pattern)
            &&& glob_set_of(gs) == seq![(spec_adjusted(pattern), !case_sensitive)]
        },
    }
}

impl PatternMatcher {
    /// Build a matcher, compiling non-literal patterns through the cache.
    pub fn new(pattern: &str, case_sensitive: bool, cache: &mut PatternCache) -> (r: Result<
        Self,
        QueryError,
    >)
        requires
            old(cache).wf(),
        ensures
            final(cache).wf(),
            r is Ok <==> (spec_is_literal(pattern@) || glob_compiles(
                spec_adjusted(pattern@),
                !case_sensitive,
            )),
            r matches Ok(m) ==> matcher_for(m, pattern@, case_sensitive),
            r matches Err(e) ==> e is InvalidPattern,
    {
        if is_literal_pattern(pattern) {
            Ok(PatternMatcher::Literal { pattern: pattern.to_owned(), case_sensitive })
        } else {
            match cache.get_or_compile(pattern, case_sensitive) {
                Ok(entry) => Ok(PatternMatcher::Glob(entry.glob_set)),
                Err(e) => Err(e),
            }
        }
    }

    /// Whether the matcher accepts an entry with this path and basename.
    pub fn is_match(&self, path: &str, file_name: &str) -> (r: bool)
        ensures
            r == spec_matcher_matches(*self, path@, file_name@),
    {
        match self {
            PatternMatcher::Literal { pattern, case_sensitive } => {
                if crate::pattern_cache::has_separator(pattern.as_str()) {
                    FastPatternMatch::path_ends_with(path, pattern.as_str(), *case_sensitive)
                } else {
                    FastPatternMatch::filename_equals(file_name, pattern.as_str(), *case_sensitive)
                }
            },
            PatternMatcher::Glob(gs) => glob_set_is_match(gs, path),
        }
    }
}

/// Turning the case flag off only widens a literal match: a path and
/// basename the case-sensitive literal comparison accepts, the
/// case-insensitive one accepts too.
pub proof fn lemma_literal_case_superset(pattern: Seq<char>, path: Seq<char>, file_name: Seq<char>)
    requires
        spec_literal_matches(pattern, true, path, file_name),
    ensures
        spec_literal_matches(pattern, false, path, file_name),
{
    if spec_has_separator(pattern) {
        crate::simd_string::lemma_path_suffix_case_superset(
            vstd::utf8::encode_utf8(path),
            vstd::utf8::encode_utf8(pattern),
        );
    } else {
        crate::simd_string::lemma_filename_case_superset(
            vstd::utf8::encode_utf8(file_name),
            vstd::utf8::encode_utf8(pattern),
        );
    }
}

/// Build one compiled glob set per exclude pattern, through the cache.
/// Exclusion then means: some set matches.
pub fn build_glob_set(patterns: &Vec<String>, case_sensitive: bool, cache: &mut PatternCache) -> (r:
    Result<Vec<globset::GlobSet>, QueryError>)
    requires
        old(cache).wf(),
    ensures
        final(cache).wf(),
        r is Ok <==> (forall|i: int|
            0 <= i < patterns@.len() ==> glob_compiles(
                spec_adjusted(#[trigger] patterns@[i]@),
                !case_sensitive,
            )),
        r matches Ok(v) ==> v@.len() == patterns@.len() && (forall|i: int|
            0 <= i < patterns@.len() ==> glob_set_of(#[trigger] v@[i]) == seq![
                (spec_adjusted(patterns@[i]@), !case_sensitive),
            ]),
        r matches Err(e) ==> e is InvalidPattern,
{
    let mut out: Vec<globset::GlobSet> = Vec::new();
    let n = patterns.len();
    let mut i: usize = 0;
    while i < n
        invariant
            n == patterns@.len(),
            i <= n,
            cache.wf(),
            out@.len() == i,
            forall|j: int|
                0 <= j < i ==> glob_compiles(spec_adjusted(#[trigger] patterns@[j]@), !case_sensitive),
            forall|j: int|
                0 <= j < i ==> glob_set_of(#[trigger] out@[j]) == seq![
                    (spec_adjusted(patterns@[j]@), !case_sensitive),
                ],
        decreases n - i,
    {
        match cache.get_or_compile(patterns[i].as_str(), case_sensitive) {
            Ok(entry) => {
                out.push(entry.glob_set);
            },
            Err(e) => {
                return Err(e);
            },
        }
        i += 1;
    }
    Ok(out)
}

/// Some exclude set matches the path.
pub open spec fn spec_any_glob_set_matches(sets: Seq<globset::GlobSet>, path: Seq<char>) -> bool {
    exists|i: int| 0 <= i < sets.len() && glob_seq_matches(glob_set_of(#[trigger] sets[i]), path)
}

/// Whether any of the compiled sets matches the path.
pub fn any_glob_set_matches(sets: &Vec<globset::GlobSet>, path: &str) -> (r: bool)
    ensures
        r == spec_any_glob_set_matches(sets@, path@),
{
    let n = sets.len();
    let mut i: usize = 0;
    while i < n
        invariant
            n == sets@.len(),
            i <= n,
            forall|j: int| 0 <= j < i ==> !glob_seq_matches(glob_set_of(#[trigger] sets@[j]), path@),
        decreases n - i,
    {
        if glob_set_is_match(&sets[i], path) {
            return true;
        }
        i += 1;
    }
    false
}

} // verus!
