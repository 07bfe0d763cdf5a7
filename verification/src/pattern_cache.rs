//! A bounded, least-recently-used cache of compiled glob matchers.
//!
//! Compilation goes through `globset`; the cache keeps one entry per
//! `(pattern text, case flag)` key, promotes a key on every hit, and evicts
//! the least-recently-used key when an insert finds the cache full. Patterns
//! with no path separator are compiled with a `**/` prefix so that they match
//! in any directory.

use vstd::prelude::*;
use vstd::string::StrSliceExecFns;

use crate::simd_string::str_eq;
use crate::CACHE_SIZE;
use crate::QueryError;

verus! {

#[verifier::external_type_specification]
#[verifier::external_body]
pub struct ExGlobSet(globset::GlobSet);

/// The globs a compiled set was built from, each as
/// (pattern text, case-insensitive flag).
pub uninterp spec fn glob_set_of(s: globset::GlobSet) -> Seq<(Seq<char>, bool)>;

/// Whether globset compiles `pattern` with the given case-insensitive flag.
pub uninterp spec fn glob_compiles(pattern: Seq<char>, case_insensitive: bool) -> bool;

/// Whether the glob compiled from `pattern` with the given case-insensitive
/// flag matches `path`.
pub uninterp spec fn glob_matches(
    pattern: Seq<char>,
    case_insensitive: bool,
    path: Seq<char>,
) -> bool;

/// A set of globs matches a path when any of its globs does.
pub open spec fn glob_seq_matches(globs: Seq<(Seq<char>, bool)>, path: Seq<char>) -> bool {
    exists|i: int|
        0 <= i < globs.len() && #[trigger] glob_matches(globs[i].0, globs[i].1, path)
}

/// Relies on globset::GlobBuilder and globset::GlobSetBuilder: compiles the
/// single pattern with the given case mode into a one-pattern set; whether
/// the chain succeeds depends on the pattern and the flag alone.
#[verifier::external_body]
pub(crate) fn compile_glob_set(pattern: &str, case_insensitive: bool) -> (r: Result<
    globset::GlobSet,
    String,
>)
    ensures
        r is Ok <==> glob_compiles(pattern@, case_insensitive),
        r matches Ok(s) ==> glob_set_of(s) == seq![(pattern@, case_insensitive)],
{
    let glob = globset::GlobBuilder::new(pattern)
        .case_insensitive(case_insensitive)
        .build()
        .map_err(|e| e.to_string())?;
    let mut builder = globset::GlobSetBuilder::new();
    builder.add(glob);
    builder.build().map_err(|e| e.to_string())
}

/// Relies on globset::GlobSet::is_match: true iff any glob in the set
/// matches the path.
#[verifier::external_body]
pub(crate) fn glob_set_is_match(s: &globset::GlobSet, path: &str) -> (r: bool)
    ensures
        r == (exists|i: int|
            0 <= i < glob_set_of(*s).len() && #[trigger] glob_matches(
                glob_set_of(*s)[i].0,
                glob_set_of(*s)[i].1,
                path@,
            )),
{
    s.is_match(path)
}

/// Relies on globset::GlobSet::clone (derived): the clone is the same set.
#[verifier::external_body]
pub(crate) fn clone_glob_set(s: &globset::GlobSet) -> (r: globset::GlobSet)
    ensures
        glob_set_of(r) == glob_set_of(*s),
{
    s.clone()
}

/// The characters that make a pattern non-literal.
pub open spec fn spec_wildcard(c: char) -> bool {
    c == '*' || c == '?' || c == '[' || c == ']' || c == '{' || c == '}'
}

/// A pattern is literal when it holds no wildcard character.
pub open spec fn spec_is_literal(p: Seq<char>) -> bool {
    forall|i: int| 0 <= i < p.len() ==> !spec_wildcard(#[trigger] p[i])
}

/// Check if a pattern is literal (no wildcards).
pub fn is_literal_pattern(pattern: &str) -> (r: bool)
    ensures
        r == spec_is_literal(pattern@),
{
    let n = pattern.unicode_len();
    let mut i: usize = 0;
    while i < n
        invariant
            n == pattern@.len(),
            i <= n,
            forall|j: int| 0 <= j < i ==> !spec_wildcard(#[trigger] pattern@[j]),
        decreases n - i,
    {
        let c = pattern.get_char(i);
        if c == '*' || c == '?' || c == '[' || c == ']' || c == '{' || c == '}' {
            return false;
        }
        i += 1;
    }
    true
}

/// A pattern holds a path separator.
pub open spec fn spec_has_separator(p: Seq<char>) -> bool {
    exists|i: int| 0 <= i < p.len() && (#[trigger] p[i] == '/' || p[i] == '\\')
}

/// The pattern as handed to the glob compiler: one with no separator is
/// prefixed with `**/` so that it matches in any directory.
pub open spec fn spec_adjusted(p: Seq<char>) -> Seq<char> {
    if spec_has_separator(p) {
        p
    } else {
        "**/"@ + p
    }
}

/// Whether a pattern holds a `/` or `\` separator.
pub fn has_separator(p: &str) -> (r: bool)
    ensures
        r == spec_has_separator(p@),
{
    let n = p.unicode_len();
    let mut i: usize = 0;
    while i < n
        invariant
            n == p@.len(),
            i <= n,
            forall|j: int| 0 <= j < i ==> !(#[trigger] p@[j] == '/' || p@[j] == '\\'),
        decreases n - i,
    {
        let c = p.get_char(i);
        if c == '/' || c == '\\' {
            return true;
        }
        i += 1;
    }
    false
}

/// Prefix a separator-free pattern with `**/`; leave others unchanged.
pub fn adjust_pattern(p: &str) -> (r: String)
    ensures
        r@ == spec_adjusted(p@),
{
    if has_separator(p) {
        p.to_owned()
    } else {
        let mut s = "**/".to_owned();
        s.append(p);
        s
    }
}

/// A compiled pattern: the original text, its one-glob set, and how it was
/// compiled.
pub struct CacheEntry {
    pub pattern: String,
    pub glob_set: globset::GlobSet,
    pub is_literal: bool,
    pub case_sensitive: bool,
}

/// What the cache promises of every stored entry.
pub open spec fn entry_wf(e: CacheEntry) -> bool {
    &&& e.is_literal == spec_is_literal(e.pattern@)
    &&& glob_compiles(spec_adjusted(e.pattern@), !e.case_sensitive)
    &&& glob_set_of(e.glob_set) == seq![(spec_adjusted(e.pattern@), !e.case_sensitive)]
}

/// The entry handed back for `(pattern, case_sensitive)`.
pub open spec fn entry_for(e: CacheEntry, pattern: Seq<char>, case_sensitive: bool) -> bool {
    &&& e.pattern@ == pattern
    &&& e.case_sensitive == case_sensitive
    &&& e.is_literal == spec_is_literal(pattern)
    &&& glob_set_of(e.glob_set) == seq![(spec_adjusted(pattern), !case_sensitive)]
}

fn clone_entry(e: &CacheEntry) -> (r: CacheEntry)
    ensures
        r.pattern@ == e.pattern@,
        r.is_literal == e.is_literal,
        r.case_sensitive == e.case_sensitive,
        glob_set_of(r.glob_set) == glob_set_of(e.glob_set),
{
    CacheEntry {
        pattern: e.pattern.clone(),
        glob_set: clone_glob_set(&e.glob_set),
        is_literal: e.is_literal,
        case_sensitive: e.case_sensitive,
    }
}

/// LRU cache of compiled patterns. The entries stand in access order: index 0
/// is the least recently used key, the last index the most recently used.
pub struct PatternCache {
    entries: Vec<CacheEntry>,
}

impl PatternCache {
    /// The cache keys, least recently used first.
    pub closed spec fn keys(self) -> Seq<(Seq<char>, bool)> {
        self.entries@.map_values(|e: CacheEntry| (e.pattern@, e.case_sensitive))
    }

    /// Bounded size, well-formed entries, no duplicate keys.
    pub closed spec fn wf(self) -> bool {
        &&& self.entries@.len() <= CACHE_SIZE
        &&& forall|i: int| 0 <= i < self.entries@.len() ==> entry_wf(#[trigger] self.entries@[i])
        &&& forall|i: int, j: int|
            0 <= i < j < self.keys().len() ==> self.keys()[i] != self.keys()[j]
    }

    fn find_index(&self, pattern: &str, case_sensitive: bool) -> (r: Option<usize>)
        ensures
            r matches Some(i) ==> i < self.keys().len() && self.keys()[i as int] == (
                pattern@,
                case_sensitive,
            ),
            r is None ==> forall|j: int|
                0 <= j < self.keys().len() ==> self.keys()[j] != (pattern@, case_sensitive),
    {
        let n = self.entries.len();
        let mut i: usize = 0;
        while i < n
            invariant
                n == self.entries@.len(),
                i <= n,
                forall|j: int| 0 <= j < i ==> self.keys()[j] != (pattern@, case_sensitive),
            decreases n - i,
        {
            let e = &self.entries[i];
            if e.case_sensitive == case_sensitive && str_eq(e.pattern.as_str(), pattern) {
                return Some(i);
            }
            i += 1;
        }
        None
    }

    /// Create a cache pre-warmed with common developer patterns, each in both
    /// case modes: afterwards every compilable pattern of the list is cached.
    pub fn new() -> (r: Self)
        ensures
            r.wf(),
            ({
                let pats = common_patterns_view();
                forall|i: int, cs: bool|
                    0 <= i < pats.len() && glob_compiles(spec_adjusted(pats[i]), !cs)
                        ==> #[trigger] r.keys().contains((pats[i], cs))
            }),
    {
        let mut cache = PatternCache { entries: Vec::new() };
        let pats = common_patterns();
        proof {
            assert(cache.keys() =~= Seq::<(Seq<char>, bool)>::empty());
            assert(pats@.len() == pats.deep_view().len());
            assert(pats@.len() == 47);
        }
        cache.prewarm(&pats);
        proof {
            assert forall|i: int, cs: bool|
                0 <= i < common_patterns_view().len() && glob_compiles(
                    spec_adjusted(common_patterns_view()[i]),
                    !cs,
                ) implies #[trigger] cache.keys().contains((common_patterns_view()[i], cs)) by {
                assert(pats@[i]@ == pats.deep_view()[i]);
            }
        }
        cache
    }

    /// Compile a list of patterns into the cache, in both case modes. Room
    /// permitting, every compilable listed pattern is cached afterwards.
    pub fn prewarm(&mut self, patterns: &Vec<&str>)
        requires
            old(self).wf(),
            old(self).keys().len() + 2 * patterns@.len() <= CACHE_SIZE,
        ensures
            final(self).wf(),
            forall|i: int, cs: bool|
                0 <= i < patterns@.len() && glob_compiles(spec_adjusted(patterns@[i]@), !cs)
                    ==> #[trigger] final(self).keys().contains((patterns@[i]@, cs)),
            forall|k: (Seq<char>, bool)|
                old(self).keys().contains(k) ==> final(self).keys().contains(k),
    {
        let n = patterns.len();
        let mut i: usize = 0;
        while i < n
            invariant
                n == patterns@.len(),
                i <= n,
                self.wf(),
                self.keys().len() <= old(self).keys().len() + 2 * i,
                forall|j: int, cs: bool|
                    0 <= j < i && glob_compiles(spec_adjusted(patterns@[j]@), !cs)
                        ==> #[trigger] self.keys().contains((patterns@[j]@, cs)),
                forall|k: (Seq<char>, bool)|
                    old(self).keys().contains(k) ==> self.keys().contains(k),
            decreases n - i,
        {
            let p: &str = patterns[i];
            let ghost keys0 = self.keys();
            let _ = self.get_or_compile(p, true);
            proof {
                assert(keys0.len() < CACHE_SIZE);
                lemma_keys_grow_without_eviction(keys0, self.keys(), (p@, true));
                assert(self.keys().len() <= keys0.len() + 1);
                if glob_compiles(spec_adjusted(p@), !true) {
                    if keys0.contains((p@, true)) {
                        assert(self.keys().contains((p@, true)));
                    } else {
                        assert(self.keys() == keys0.push((p@, true)));
                        assert(self.keys().contains((p@, true)));
                    }
                }
            }
            let ghost keys1 = self.keys();
            let _ = self.get_or_compile(p, false);
            proof {
                assert(keys1.len() < CACHE_SIZE);
                lemma_keys_grow_without_eviction(keys1, self.keys(), (p@, false));
                assert(self.keys().len() <= keys1.len() + 1);
                if glob_compiles(spec_adjusted(p@), !false) {
                    if keys1.contains((p@, false)) {
                        assert(self.keys().contains((p@, false)));
                    } else {
                        assert(self.keys() == keys1.push((p@, false)));
                        assert(self.keys().contains((p@, false)));
                    }
                }
                if glob_compiles(spec_adjusted(p@), !true) {
                    assert(self.keys().contains((p@, true)));
                }
            }
            i += 1;
        }
    }

    /// Get a compiled pattern from the cache, or compile and cache it.
    ///
    /// On a hit the key is promoted to most recently used. On a miss the
    /// pattern is compiled; if the cache is full, the least-recently-used
    /// key is evicted before the insert. An invalid pattern is reported and
    /// not cached.
    pub fn get_or_compile(&mut self, pattern: &str, case_sensitive: bool) -> (r: Result<
        CacheEntry,
        QueryError,
    >)
        requires
            old(self).wf(),
        ensures
            final(self).wf(),
            r is Ok <==> glob_compiles(spec_adjusted(pattern@), !case_sensitive),
            r matches Ok(e) ==> entry_for(e, pattern@, case_sensitive),
            r matches Err(e) ==> e is InvalidPattern,
            ({
                let k = (pattern@, case_sensitive);
                let old_keys = old(self).keys();
                if old_keys.contains(k) {
                    final(self).keys() == old_keys.remove(old_keys.index_of(k)).push(k)
                } else if glob_compiles(spec_adjusted(pattern@), !case_sensitive) {
                    if old_keys.len() < CACHE_SIZE {
                        final(self).keys() == old_keys.push(k)
                    } else {
                        final(self).keys() == old_keys.drop_first().push(k)
                    }
                } else {
                    final(self).keys() == old_keys
                }
            }),
    {
        let ghost k = (pattern@, case_sensitive);
        match self.find_index(pattern, case_sensitive) {
            Some(i) => {
                proof {
                    assert(old(self).keys().contains(k)) by {
                        assert(old(self).keys()[i as int] == k);
                    }
                    assert(old(self).keys().index_of(k) == i as int) by {
                        let fi = old(self).keys().index_of(k);
                        assert(old(self).keys()[fi] == k);
                    }
                }
                let e = self.entries.remove(i);
                let out = clone_entry(&e);
                self.entries.push(e);
                proof {
                    assert(self.keys() =~= old(self).keys().remove(i as int).push(k));
                    assert(entry_wf(old(self).entries@[i as int]));
                }
                Ok(out)
            },
            None => {
                let adjusted = adjust_pattern(pattern);
                match compile_glob_set(adjusted.as_str(), !case_sensitive) {
                    Err(msg) => Err(QueryError::InvalidPattern(msg)),
                    Ok(gs) => {
                        let lit = is_literal_pattern(pattern);
                        let e = CacheEntry {
                            pattern: pattern.to_owned(),
                            glob_set: gs,
                            is_literal: lit,
                            case_sensitive,
                        };
                        let out = clone_entry(&e);
                        if self.entries.len() >= CACHE_SIZE {
                            let _ = self.entries.remove(0);
                            self.entries.push(e);
                            proof {
                                assert(self.keys() =~= old(self).keys().drop_first().push(k));
                            }
                        } else {
                            self.entries.push(e);
                            proof {
                                assert(self.keys() =~= old(self).keys().push(k));
                            }
                        }
                        Ok(out)
                    },
                }
            },
        }
    }

    /// Whether a key is currently cached.
    pub fn contains(&self, pattern: &str, case_sensitive: bool) -> (r: bool)
        ensures
            r == self.keys().contains((pattern@, case_sensitive)),
    {
        match self.find_index(pattern, case_sensitive) {
            Some(i) => {
                proof {
                    assert(self.keys()[i as int] == (pattern@, case_sensitive));
                }
                true
            },
            None => false,
        }
    }

    /// Current cache statistics.
    pub fn stats(&self) -> (r: CacheStats)
        ensures
            r.size == self.keys().len(),
            r.capacity == CACHE_SIZE,
            r.precompiled_patterns == 2 * common_patterns_view().len(),
    {
        let pats = common_patterns();
        proof {
            assert(pats@.len() == pats.deep_view().len());
        }
        CacheStats {
            size: self.entries.len(),
            capacity: CACHE_SIZE,
            precompiled_patterns: pats.len() * 2,
        }
    }
}

/// Cache statistics.
pub struct CacheStats {
    pub size: usize,
    pub capacity: usize,
    pub precompiled_patterns: usize,
}

/// The texts of the common file patterns, in list order.
pub open spec fn common_patterns_view() -> Seq<Seq<char>> {
    seq![
        "*.py"@, "*.rs"@, "*.js"@, "*.ts"@, "*.jsx"@, "*.tsx"@,
        "*.c"@, "*.cpp"@, "*.h"@, "*.hpp"@, "*.java"@, "*.go"@,
        "*.rb"@, "*.php"@, "*.swift"@, "*.kt"@, "*.scala"@,
        "*.json"@, "*.yaml"@, "*.yml"@, "*.toml"@, "*.xml"@,
        "*.csv"@, "*.txt"@, "*.md"@, "*.rst"@,
        "*.html"@, "*.css"@, "*.scss"@, "*.sass"@, "*.less"@,
        "*.jpg"@, "*.jpeg"@, "*.png"@, "*.gif"@, "*.svg"@, "*.webp"@,
        "**/*.py"@, "**/*.rs"@, "**/*.js"@, "**/*.ts"@,
        "**/node_modules/**"@, "**/.git/**"@, "**/target/**"@,
        "**/__pycache__/**"@, "**/*.pyc"@, "**/.venv/**"@,
    ]
}

/// Common file patterns compiled when the cache is created.
pub fn common_patterns() -> (r: Vec<&'static str>)
    ensures
        r.deep_view() == common_patterns_view(),
{
    let r: Vec<&'static str> = vec![
        "*.py", "*.rs", "*.js", "*.ts", "*.jsx", "*.tsx",
        "*.c", "*.cpp", "*.h", "*.hpp", "*.java", "*.go",
        "*.rb", "*.php", "*.swift", "*.kt", "*.scala",
        "*.json", "*.yaml", "*.yml", "*.toml", "*.xml",
        "*.csv", "*.txt", "*.md", "*.rst",
        "*.html", "*.css", "*.scss", "*.sass", "*.less",
        "*.jpg", "*.jpeg", "*.png", "*.gif", "*.svg", "*.webp",
        "**/*.py", "**/*.rs", "**/*.js", "**/*.ts",
        "**/node_modules/**", "**/.git/**", "**/target/**",
        "**/__pycache__/**", "**/*.pyc", "**/.venv/**",
    ];
    proof {
        assert(r.deep_view() =~= common_patterns_view());
    }
    r
}

/// What one non-evicting cache update can do to the key order: nothing, a
/// push of the new key, or a promotion of an existing key to the back.
/// Either way every key survives.
proof fn lemma_keys_grow_without_eviction(
    before: Seq<(Seq<char>, bool)>,
    after: Seq<(Seq<char>, bool)>,
    k: (Seq<char>, bool),
)
    requires
        after == before || after == before.push(k) || (before.contains(k) && after
            == before.remove(before.index_of(k)).push(k)),
    ensures
        forall|x: (Seq<char>, bool)| before.contains(x) ==> after.contains(x),
        after == before || after.contains(k),
{
    if after == before {
    } else if after == before.push(k) {
        assert forall|x: (Seq<char>, bool)| before.contains(x) implies after.contains(x) by {
            let j = choose|j: int| 0 <= j < before.len() && before[j] == x;
            assert(after[j] == x);
        }
        assert(after[after.len() - 1] == k);
        assert(after.contains(k));
    } else {
        let idx = before.index_of(k);
        assert(0 <= idx < before.len() && before[idx] == k);
        assert forall|x: (Seq<char>, bool)| before.contains(x) implies after.contains(x) by {
            let j = choose|j: int| 0 <= j < before.len() && before[j] == x;
            if j == idx {
                assert(after[after.len() - 1] == k);
            } else if j < idx {
                assert(after[j] == x);
            } else {
                assert(after[j - 1] == x);
            }
        }
        assert(after[after.len() - 1] == k);
        assert(after.contains(k));
    }
}

/// When a miss-insert finds the cache full, exactly the least-recently-used
/// key leaves: every other key survives, and the new key is present.
pub proof fn lemma_lru_eviction(keys: Seq<(Seq<char>, bool)>, k: (Seq<char>, bool))
    requires
        keys.len() == CACHE_SIZE,
        !keys.contains(k),
        forall|i: int, j: int| 0 <= i < j < keys.len() ==> keys[i] != keys[j],
    ensures
        !keys.drop_first().push(k).contains(keys[0]),
        keys.drop_first().push(k).contains(k),
        forall|i: int| 1 <= i < keys.len() ==> keys.drop_first().push(k).contains(keys[i]),
{
    let new = keys.drop_first().push(k);
    assert(keys.contains(keys[0]));
    assert(forall|j: int| 0 <= j < new.len() - 1 ==> new[j] == keys[j + 1]);
    assert forall|j: int| 0 <= j < new.len() implies new[j] != keys[0] by {
        if j < new.len() - 1 {
            assert(new[j] == keys[j + 1]);
        } else {
            assert(new[j] == k);
        }
    }
    assert(new[new.len() - 1] == k);
    assert forall|i: int| 1 <= i < keys.len() implies new.contains(keys[i]) by {
        assert(new[i - 1] == keys[i]);
    }
}

/// A key promoted by a hit survives, and so does every other key.
pub proof fn lemma_lru_promotion(keys: Seq<(Seq<char>, bool)>, i: int)
    requires
        0 <= i < keys.len(),
    ensures
        forall|j: int|
            0 <= j < keys.len() ==> keys.remove(i).push(keys[i]).contains(#[trigger] keys[j]),
{
    let new = keys.remove(i).push(keys[i]);
    assert forall|j: int| 0 <= j < keys.len() implies new.contains(keys[j]) by {
        if j == i {
            assert(new[new.len() - 1] == keys[i]);
        } else if j < i {
            assert(new[j] == keys[j]);
        } else {
            assert(new[j - 1] == keys[j]);
        }
    }
}

} // verus!
