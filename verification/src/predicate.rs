//! The composite predicate evaluator: decide inclusion for one directory
//! entry against the compiled query, and filter a whole listing.

use vstd::prelude::*;

use crate::matcher::path_regex_is_match;
use crate::matcher::regex_matches;
use crate::matcher::regex_of;
use crate::matcher::lemma_literal_case_superset;
use crate::matcher::spec_any_glob_set_matches;
use crate::matcher::spec_matcher_matches;
use crate::matcher::PatternMatcher;
use crate::matcher::any_glob_set_matches;
use crate::query::CompiledQuery;
use crate::query::FileType;
use crate::simd_string::str_eq;

verus! {

/// What kind of filesystem object an entry is. `Other` stands for objects
/// that are none of the three (sockets, devices); `Unknown` for entries
/// whose type could not be read.
#[derive(Clone, Copy, Debug, PartialEq, Eq, Structural)]
pub enum EntryKind {
    File,
    Dir,
    Symlink,
    Other,
    Unknown,
}

/// An entry's metadata, as far as it could be read. Timestamps are
/// nanoseconds since the epoch; one that could not be read is `None`.
#[derive(Clone, Debug)]
pub struct MetaInfo {
    pub size: u64,
    pub mtime_ns: Option<u64>,
    pub atime_ns: Option<u64>,
    pub ctime_ns: Option<u64>,
}

/// One filesystem entry, as plain values: the UTF-8-lossy path, its
/// basename, its extension without the dot, its kind, and its metadata
/// when it was read (`None` when the query needs none or the read failed).
#[derive(Clone, Debug)]
pub struct EntryInfo {
    pub path: String,
    pub file_name: String,
    pub extension: Option<String>,
    pub kind: EntryKind,
    pub meta: Option<MetaInfo>,
}

/// The path pattern accepts the entry (no pattern accepts everything).
pub open spec fn spec_pattern_ok(q: CompiledQuery, e: EntryInfo) -> bool {
    match q.pattern {
        Option::None => true,
        Option::Some(m) => spec_matcher_matches(m, e.path@, e.file_name@),
    }
}

/// No exclude pattern matches the entry's path.
pub open spec fn spec_not_excluded(q: CompiledQuery, e: EntryInfo) -> bool {
    !spec_any_glob_set_matches(q.excludes@, e.path@)
}

/// The path regex accepts the entry (no regex accepts everything).
pub open spec fn spec_regex_ok(q: CompiledQuery, e: EntryInfo) -> bool {
    match q.path_regex {
        Option::None => true,
        Option::Some(re) => regex_matches(regex_of(re), e.path@),
    }
}

/// The entry has the requested file type (no filter accepts everything).
pub open spec fn spec_type_ok(q: CompiledQuery, e: EntryInfo) -> bool {
    match q.file_type {
        Option::None => true,
        Option::Some(ft) => match ft {
            FileType::File => e.kind is File,
            FileType::Dir => e.kind is Dir,
            FileType::Symlink => e.kind is Symlink,
        },
    }
}

/// With a non-empty extension set, the entry's extension must be one of the
/// set; an entry without an extension is rejected.
pub open spec fn spec_ext_ok(q: CompiledQuery, e: EntryInfo) -> bool {
    q.extensions@.len() == 0 || (match e.extension {
        Option::Some(x) => exists|i: int|
            0 <= i < q.extensions@.len() && #[trigger] q.extensions@[i]@ == x@,
        Option::None => false,
    })
}

/// The size range applies to regular files only; non-files skip this
/// predicate. A regular file whose size could not be read cannot be said
/// to satisfy a configured bound, so it is rejected.
pub open spec fn spec_size_ok(q: CompiledQuery, e: EntryInfo) -> bool {
    if q.min_size is Some || q.max_size is Some {
        if e.kind is File {
            match e.meta {
                Option::Some(m) => {
                    &&& (q.min_size matches Some(lo) ==> m.size >= lo)
                    &&& (q.max_size matches Some(hi) ==> m.size <= hi)
                },
                Option::None => false,
            }
        } else {
            true
        }
    } else {
        true
    }
}

/// One timestamp against its half-open interval `[after, before)`. An
/// entry whose timestamp could not be read cannot be said to lie in a
/// configured interval, so it is rejected.
pub open spec fn spec_time_ok(t: Option<u64>, after: Option<u64>, before: Option<u64>) -> bool {
    if after is Some || before is Some {
        match t {
            Option::Some(v) => {
                &&& (after matches Some(a) ==> v >= a)
                &&& (before matches Some(b) ==> v < b)
            },
            Option::None => false,
        }
    } else {
        true
    }
}

/// The timestamp of the given entry, when its metadata was read.
pub open spec fn spec_meta_mtime(e: EntryInfo) -> Option<u64> {
    match e.meta {
        Option::Some(m) => m.mtime_ns,
        Option::None => Option::None,
    }
}

pub open spec fn spec_meta_atime(e: EntryInfo) -> Option<u64> {
    match e.meta {
        Option::Some(m) => m.atime_ns,
        Option::None => Option::None,
    }
}

pub open spec fn spec_meta_ctime(e: EntryInfo) -> Option<u64> {
    match e.meta {
        Option::Some(m) => m.ctime_ns,
        Option::None => Option::None,
    }
}

/// All three time intervals accept the entry.
pub open spec fn spec_times_ok(q: CompiledQuery, e: EntryInfo) -> bool {
    &&& spec_time_ok(spec_meta_mtime(e), q.mtime_after_ns, q.mtime_before_ns)
    &&& spec_time_ok(spec_meta_atime(e), q.atime_after_ns, q.atime_before_ns)
    &&& spec_time_ok(spec_meta_ctime(e), q.ctime_after_ns, q.ctime_before_ns)
}

/// The composite predicate: an entry is included exactly when every
/// configured predicate accepts it.
pub open spec fn spec_accept(q: CompiledQuery, e: EntryInfo) -> bool {
    &&& spec_pattern_ok(q, e)
    &&& spec_not_excluded(q, e)
    &&& spec_regex_ok(q, e)
    &&& spec_type_ok(q, e)
    &&& spec_ext_ok(q, e)
    &&& spec_size_ok(q, e)
    &&& spec_times_ok(q, e)
}

fn ext_in_set(exts: &Vec<String>, x: &str) -> (r: bool)
    ensures
        r == (exists|i: int| 0 <= i < exts@.len() && #[trigger] exts@[i]@ == x@),
{
    let n = exts.len();
    let mut i: usize = 0;
    while i < n
        invariant
            n == exts@.len(),
            i <= n,
            forall|j: int| 0 <= j < i ==> #[trigger] exts@[j]@ != x@,
        decreases n - i,
    {
        if str_eq(exts[i].as_str(), x) {
            return true;
        }
        i += 1;
    }
    false
}

fn time_ok(t: &Option<u64>, after: &Option<u64>, before: &Option<u64>) -> (r: bool)
    ensures
        r == spec_time_ok(*t, *after, *before),
{
    if after.is_none() && before.is_none() {
        return true;
    }
    match t {
        Option::None => false,
        Option::Some(v) => {
            if let Option::Some(a) = after {
                if *v < *a {
                    return false;
                }
            }
            if let Option::Some(b) = before {
                if *v >= *b {
                    return false;
                }
            }
            true
        },
    }
}

/// Check if a directory entry should be included based on the query's
/// filters: path pattern, excludes, path regex, file type, extension set,
/// size range, and time intervals, in that order, short-circuiting. An
/// entry is included only when every configured predicate is known to
/// hold of it: where a size or time bound is set and the value it needs
/// could not be read, the entry is rejected.
pub fn should_include_entry(e: &EntryInfo, q: &CompiledQuery) -> (r: bool)
    ensures
        r == spec_accept(*q, *e),
{
    if let Option::Some(m) = &q.pattern {
        if !m.is_match(e.path.as_str(), e.file_name.as_str()) {
            return false;
        }
    }
    if any_glob_set_matches(&q.excludes, e.path.as_str()) {
        return false;
    }
    if let Option::Some(re) = &q.path_regex {
        if !path_regex_is_match(re, e.path.as_str()) {
            return false;
        }
    }
    if let Option::Some(ft) = &q.file_type {
        let ok = match ft {
            FileType::File => matches!(e.kind, EntryKind::File),
            FileType::Dir => matches!(e.kind, EntryKind::Dir),
            FileType::Symlink => matches!(e.kind, EntryKind::Symlink),
        };
        if !ok {
            return false;
        }
    }
    if q.extensions.len() > 0 {
        match &e.extension {
            Option::None => {
                return false;
            },
            Option::Some(x) => {
                if !ext_in_set(&q.extensions, x.as_str()) {
                    return false;
                }
            },
        }
    }
    if q.min_size.is_some() || q.max_size.is_some() {
        if matches!(e.kind, EntryKind::File) {
            match &e.meta {
                Option::None => {
                    return false;
                },
                Option::Some(m) => {
                    if let Option::Some(lo) = &q.min_size {
                        if m.size < *lo {
                            return false;
                        }
                    }
                    if let Option::Some(hi) = &q.max_size {
                        if m.size > *hi {
                            return false;
                        }
                    }
                },
            }
        }
    }
    let (mt, at, ct) = match &e.meta {
        Option::Some(m) => (m.mtime_ns, m.atime_ns, m.ctime_ns),
        Option::None => (Option::None, Option::None, Option::None),
    };
    if !time_ok(&mt, &q.mtime_after_ns, &q.mtime_before_ns) {
        return false;
    }
    if !time_ok(&at, &q.atime_after_ns, &q.atime_before_ns) {
        return false;
    }
    if !time_ok(&ct, &q.ctime_after_ns, &q.ctime_before_ns) {
        return false;
    }
    true
}

/// The predicates that read no metadata: path pattern, excludes, path
/// regex, file type, and extension set.
pub open spec fn spec_cheap_accept(q: CompiledQuery, e: EntryInfo) -> bool {
    &&& spec_pattern_ok(q, e)
    &&& spec_not_excluded(q, e)
    &&& spec_regex_ok(q, e)
    &&& spec_type_ok(q, e)
    &&& spec_ext_ok(q, e)
}

/// Evaluate only the predicates that read no metadata. Metadata access is
/// lazy: an entry these predicates reject is rejected whatever its
/// metadata, so the caller need not read it.
pub fn passes_cheap_predicates(e: &EntryInfo, q: &CompiledQuery) -> (r: bool)
    ensures
        r == spec_cheap_accept(*q, *e),
        !r ==> !spec_accept(*q, *e),
{
    if let Option::Some(m) = &q.pattern {
        if !m.is_match(e.path.as_str(), e.file_name.as_str()) {
            return false;
        }
    }
    if any_glob_set_matches(&q.excludes, e.path.as_str()) {
        return false;
    }
    if let Option::Some(re) = &q.path_regex {
        if !path_regex_is_match(re, e.path.as_str()) {
            return false;
        }
    }
    if let Option::Some(ft) = &q.file_type {
        let ok = match ft {
            FileType::File => matches!(e.kind, EntryKind::File),
            FileType::Dir => matches!(e.kind, EntryKind::Dir),
            FileType::Symlink => matches!(e.kind, EntryKind::Symlink),
        };
        if !ok {
            return false;
        }
    }
    if q.extensions.len() > 0 {
        match &e.extension {
            Option::None => {
                return false;
            },
            Option::Some(x) => {
                if !ext_in_set(&q.extensions, x.as_str()) {
                    return false;
                }
            },
        }
    }
    true
}

/// Whether a search query opens this entry for content search: it passed
/// every predicate and is a regular file.
pub fn wants_content_search(e: &EntryInfo, q: &CompiledQuery) -> (r: bool)
    ensures
        r == (spec_accept(*q, *e) && e.kind is File),
{
    should_include_entry(e, q) && matches!(e.kind, EntryKind::File)
}

/// An included entry satisfies every configured predicate.
pub proof fn lemma_accept_implies_each(q: CompiledQuery, e: EntryInfo)
    requires
        spec_accept(q, e),
    ensures
        spec_pattern_ok(q, e),
        spec_not_excluded(q, e),
        spec_regex_ok(q, e),
        spec_type_ok(q, e),
        spec_ext_ok(q, e),
        spec_size_ok(q, e),
        spec_times_ok(q, e),
{
}

/// Case flag round-trip, in its provable fragment: two queries identical
/// but for the case flag of a literal path pattern, with no exclude
/// patterns, stand in a superset relation — an entry the case-sensitive
/// query accepts, the case-insensitive one accepts too. For glob patterns
/// and exclude sets the case handling is the glob engine's own, so there
/// the relation is checked by tests instead.
pub proof fn lemma_case_flag_superset(strict: CompiledQuery, loose: CompiledQuery, e: EntryInfo)
    requires
        strict.excludes@.len() == 0,
        loose.excludes@.len() == 0,
        (match (strict.pattern, loose.pattern) {
            (
                Option::Some(PatternMatcher::Literal { pattern: p1, case_sensitive: c1 }),
                Option::Some(PatternMatcher::Literal { pattern: p2, case_sensitive: c2 }),
            ) => p1@ == p2@ && c1 == true && c2 == false,
            _ => false,
        }),
        strict.path_regex == loose.path_regex,
        strict.file_type == loose.file_type,
        strict.extensions@ == loose.extensions@,
        strict.min_size == loose.min_size,
        strict.max_size == loose.max_size,
        strict.mtime_after_ns == loose.mtime_after_ns,
        strict.mtime_before_ns == loose.mtime_before_ns,
        strict.atime_after_ns == loose.atime_after_ns,
        strict.atime_before_ns == loose.atime_before_ns,
        strict.ctime_after_ns == loose.ctime_after_ns,
        strict.ctime_before_ns == loose.ctime_before_ns,
        spec_accept(strict, e),
    ensures
        spec_accept(loose, e),
{
    match (strict.pattern, loose.pattern) {
        (
            Option::Some(PatternMatcher::Literal { pattern: p1, case_sensitive: _ }),
            Option::Some(PatternMatcher::Literal { pattern: p2, case_sensitive: _ }),
        ) => {
            lemma_literal_case_superset(p1@, e.path@, e.file_name@);
            assert(spec_pattern_ok(loose, e));
        },
        _ => {},
    }
    assert(spec_not_excluded(loose, e));
}

/// The paths of the accepted entries, in listing order.
pub open spec fn spec_accepted_paths(q: CompiledQuery, s: Seq<EntryInfo>) -> Seq<Seq<char>>
    decreases s.len(),
{
    if s.len() == 0 {
        Seq::empty()
    } else {
        let rest = spec_accepted_paths(q, s.drop_last());
        if spec_accept(q, s.last()) {
            rest.push(s.last().path@)
        } else {
            rest
        }
    }
}

/// Filter a listing: keep exactly the paths of the entries the query
/// accepts, in order.
pub fn filter_entries(entries: &Vec<EntryInfo>, q: &CompiledQuery) -> (r: Vec<String>)
    ensures
        r.deep_view() == spec_accepted_paths(*q, entries@),
{
    let mut out: Vec<String> = Vec::new();
    let n = entries.len();
    let mut i: usize = 0;
    proof {
        assert(entries@.take(0) =~= Seq::<EntryInfo>::empty());
        assert(out.deep_view() =~= spec_accepted_paths(*q, entries@.take(0)));
    }
    while i < n
        invariant
            n == entries@.len(),
            i <= n,
            out.deep_view() == spec_accepted_paths(*q, entries@.take(i as int)),
        decreases n - i,
    {
        proof {
            assert(entries@.take(i + 1).drop_last() =~= entries@.take(i as int));
            assert(entries@.take(i + 1).last() == entries@[i as int]);
        }
        let ghost old_out = out.deep_view();
        if should_include_entry(&entries[i], q) {
            out.push(entries[i].path.clone());
            proof {
                assert(out.deep_view() =~= old_out.push(entries@[i as int].path@));
            }
        }
        i += 1;
    }
    proof {
        assert(entries@.take(n as int) =~= entries@);
    }
    out
}

/// Completeness: a path stands among the accepted paths exactly when some
/// listed entry carries it and satisfies every predicate.
pub proof fn lemma_accepted_paths_membership(q: CompiledQuery, s: Seq<EntryInfo>, p: Seq<char>)
    ensures
        spec_accepted_paths(q, s).contains(p) <==> (exists|i: int|
            0 <= i < s.len() && #[trigger] spec_accept(q, s[i]) && s[i].path@ == p),
    decreases s.len(),
{
    let out = spec_accepted_paths(q, s);
    if s.len() == 0 {
        assert(!out.contains(p));
    } else {
        let rest = spec_accepted_paths(q, s.drop_last());
        lemma_accepted_paths_membership(q, s.drop_last(), p);
        assert forall|i: int| 0 <= i < s.len() - 1 implies s.drop_last()[i] == s[i] by {}
        if out.contains(p) {
            let k = choose|k: int| 0 <= k < out.len() && out[k] == p;
            if spec_accept(q, s.last()) && k == rest.len() {
                assert(out[k] == s.last().path@);
                assert(spec_accept(q, s[s.len() - 1]) && s[s.len() - 1].path@ == p);
            } else {
                assert(rest[k] == p);
                assert(rest.contains(p));
                let i = choose|i: int|
                    0 <= i < s.drop_last().len() && #[trigger] spec_accept(q, s.drop_last()[i])
                        && s.drop_last()[i].path@ == p;
                assert(spec_accept(q, s[i]) && s[i].path@ == p);
            }
        }
        if exists|i: int| 0 <= i < s.len() && #[trigger] spec_accept(q, s[i]) && s[i].path@ == p {
            let i = choose|i: int|
                0 <= i < s.len() && #[trigger] spec_accept(q, s[i]) && s[i].path@ == p;
            if i < s.len() - 1 {
                assert(spec_accept(q, s.drop_last()[i]) && s.drop_last()[i].path@ == p);
                assert(rest.contains(p));
                let k = choose|k: int| 0 <= k < rest.len() && rest[k] == p;
                assert(out[k] == p);
                assert(out.contains(p));
            } else {
                assert(spec_accept(q, s.last()));
                assert(out[out.len() - 1] == p);
                assert(out.contains(p));
            }
        }
    }
}

/// Every accepted path is the path of some listed entry.
pub proof fn lemma_accepted_paths_from_entries(q: CompiledQuery, s: Seq<EntryInfo>, k: int)
    requires
        0 <= k < spec_accepted_paths(q, s).len(),
    ensures
        exists|i: int| 0 <= i < s.len() && #[trigger] s[i].path@ == spec_accepted_paths(q, s)[k],
    decreases s.len(),
{
    let out = spec_accepted_paths(q, s);
    let rest = spec_accepted_paths(q, s.drop_last());
    if s.len() == 0 {
    } else if k < rest.len() {
        lemma_accepted_paths_from_entries(q, s.drop_last(), k);
        let i = choose|i: int| 0 <= i < s.drop_last().len() && #[trigger] s.drop_last()[i].path@
            == rest[k];
        assert(s[i].path@ == out[k]);
    } else {
        assert(spec_accept(q, s.last()));
        assert(out[k] == s.last().path@);
        assert(s[s.len() - 1].path@ == out[k]);
    }
}

/// No duplication: when the listed entries carry pairwise distinct paths,
/// each appears at most once among the accepted paths.
pub proof fn lemma_accepted_paths_no_dup(q: CompiledQuery, s: Seq<EntryInfo>)
    requires
        forall|i: int, j: int| 0 <= i < j < s.len() ==> s[i].path@ != s[j].path@,
    ensures
        forall|i: int, j: int|
            0 <= i < j < spec_accepted_paths(q, s).len() ==> spec_accepted_paths(q, s)[i]
                != spec_accepted_paths(q, s)[j],
    decreases s.len(),
{
    if s.len() == 0 {
    } else {
        let out = spec_accepted_paths(q, s);
        let rest = spec_accepted_paths(q, s.drop_last());
        assert forall|i: int, j: int|
            0 <= i < j < s.drop_last().len() implies s.drop_last()[i].path@
            != s.drop_last()[j].path@ by {
            assert(s.drop_last()[i] == s[i]);
            assert(s.drop_last()[j] == s[j]);
        }
        lemma_accepted_paths_no_dup(q, s.drop_last());
        if spec_accept(q, s.last()) {
            assert forall|i: int, j: int| 0 <= i < j < out.len() implies out[i] != out[j] by {
                if j < rest.len() {
                } else {
                    assert(out[j] == s.last().path@);
                    lemma_accepted_paths_from_entries(q, s.drop_last(), i);
                    let e = choose|e: int|
                        0 <= e < s.drop_last().len() && #[trigger] s.drop_last()[e].path@
                            == rest[i];
                    assert(s[e].path@ == out[i]);
                    assert(s[e].path@ != s[s.len() - 1].path@);
                }
            }
        }
    }
}

} // verus!
