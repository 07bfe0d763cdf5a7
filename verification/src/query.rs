//! The query record, its validation, and the compiled form handed to the
//! predicate evaluator; also the walker configuration derived from the
//! traversal flags and the workload-dependent channel capacity rule.

use vstd::prelude::*;

use crate::content::build_content_regex;
use crate::content::content_regex_compiles;
use crate::content::content_regex_of;
use crate::matcher::build_glob_set;
use crate::matcher::build_path_regex;
use crate::matcher::matcher_for;
use crate::matcher::regex_compiles;
use crate::matcher::regex_of;
use crate::matcher::PatternMatcher;
use crate::pattern_cache::glob_compiles;
use crate::pattern_cache::glob_set_of;
use crate::pattern_cache::spec_adjusted;
use crate::pattern_cache::spec_is_literal;
use crate::pattern_cache::PatternCache;
use crate::simd_string::str_eq;
use crate::QueryError;

verus! {

/// The file-type filter: regular files, directories, or symlinks.
#[derive(Clone, Copy, Debug, PartialEq, Eq, Structural)]
pub enum FileType {
    File,
    Dir,
    Symlink,
}

/// The sort key for collected results.
#[derive(Clone, Copy, Debug, PartialEq, Eq, Structural)]
pub enum SortKey {
    Name,
    Path,
    Size,
    Mtime,
}

/// How a file-type code reads: `f`, `d` or `l`; anything else is invalid.
pub open spec fn spec_parse_file_type(s: Seq<char>) -> Option<FileType> {
    if s == "f"@ {
        Some(FileType::File)
    } else if s == "d"@ {
        Some(FileType::Dir)
    } else if s == "l"@ {
        Some(FileType::Symlink)
    } else {
        None
    }
}

/// Parse a file-type code.
pub fn parse_file_type(s: &str) -> (r: Option<FileType>)
    ensures
        r == spec_parse_file_type(s@),
{
    if str_eq(s, "f") {
        Some(FileType::File)
    } else if str_eq(s, "d") {
        Some(FileType::Dir)
    } else if str_eq(s, "l") {
        Some(FileType::Symlink)
    } else {
        None
    }
}

/// How a sort key reads: `name`, `path`, `size` or `mtime`.
pub open spec fn spec_parse_sort_key(s: Seq<char>) -> Option<SortKey> {
    if s == "name"@ {
        Some(SortKey::Name)
    } else if s == "path"@ {
        Some(SortKey::Path)
    } else if s == "size"@ {
        Some(SortKey::Size)
    } else if s == "mtime"@ {
        Some(SortKey::Mtime)
    } else {
        None
    }
}

/// Parse a sort key.
pub fn parse_sort_key(s: &str) -> (r: Option<SortKey>)
    ensures
        r == spec_parse_sort_key(s@),
{
    if str_eq(s, "name") {
        Some(SortKey::Name)
    } else if str_eq(s, "path") {
        Some(SortKey::Path)
    } else if str_eq(s, "size") {
        Some(SortKey::Size)
    } else if str_eq(s, "mtime") {
        Some(SortKey::Mtime)
    } else {
        None
    }
}

/// An immutable configuration record describing a single call. Timestamps
/// are nanoseconds since the epoch.
pub struct Query {
    /// Non-empty ordered list of root directories.
    pub roots: Vec<String>,
    /// Optional glob on the path.
    pub glob: Option<String>,
    /// Optional regex on the UTF-8-lossy path.
    pub regex_on_path: Option<String>,
    /// Globs whose match rejects an entry.
    pub exclude_patterns: Vec<String>,
    /// Optional file-type code: `f`, `d` or `l`.
    pub file_type: Option<String>,
    /// Accepted extensions, compared without the dot; empty means no filter.
    pub extensions: Vec<String>,
    pub min_size: Option<u64>,
    pub max_size: Option<u64>,
    pub mtime_after_ns: Option<u64>,
    pub mtime_before_ns: Option<u64>,
    pub atime_after_ns: Option<u64>,
    pub atime_before_ns: Option<u64>,
    pub ctime_after_ns: Option<u64>,
    pub ctime_before_ns: Option<u64>,
    /// Include entries whose basename begins with a dot.
    pub hidden: bool,
    /// Do not honor `.ignore`, `.gitignore`, `.git/info/exclude` or `.fdignore`.
    pub no_ignore: bool,
    /// Do not honor the user's global ignore file.
    pub no_global_ignore: bool,
    /// Extra ignore files supplied with the query.
    pub custom_ignore_files: Vec<String>,
    pub follow_symlinks: bool,
    pub same_file_system: bool,
    pub max_depth: Option<usize>,
    pub case_sensitive_glob: bool,
    pub case_sensitive_content: bool,
    /// Stream results instead of collecting them.
    pub yield_results: bool,
    /// Optional sort key for collected results.
    pub sort: Option<String>,
    /// Worker threads; 0 means the host parallelism.
    pub threads: usize,
    /// Present only for content-search queries.
    pub content_regex: Option<String>,
}

/// The compiled form of a query: every pattern compiled, every plain field
/// copied.
pub struct CompiledQuery {
    pub pattern: Option<PatternMatcher>,
    pub excludes: Vec<globset::GlobSet>,
    pub path_regex: Option<regex::Regex>,
    pub file_type: Option<FileType>,
    pub extensions: Vec<String>,
    pub min_size: Option<u64>,
    pub max_size: Option<u64>,
    pub mtime_after_ns: Option<u64>,
    pub mtime_before_ns: Option<u64>,
    pub atime_after_ns: Option<u64>,
    pub atime_before_ns: Option<u64>,
    pub ctime_after_ns: Option<u64>,
    pub ctime_before_ns: Option<u64>,
    pub content_matcher: Option<regex::bytes::Regex>,
    pub sort_key: Option<SortKey>,
}

/// The argument checks raised as `InvalidArgument`: roots present, known
/// file-type code, known sort key.
pub open spec fn spec_args_valid(q: Query) -> bool {
    &&& q.roots@.len() > 0
    &&& (q.file_type matches Some(t) ==> spec_parse_file_type(t@) is Some)
    &&& (q.sort matches Some(s) ==> spec_parse_sort_key(s@) is Some)
}

/// The pattern checks raised as `InvalidPattern`: the glob, every exclude,
/// the path regex and the content regex compile.
pub open spec fn spec_patterns_valid(q: Query) -> bool {
    &&& (q.glob matches Some(g) ==> (spec_is_literal(g@) || glob_compiles(
        spec_adjusted(g@),
        !q.case_sensitive_glob,
    )))
    &&& (forall|i: int|
        0 <= i < q.exclude_patterns@.len() ==> glob_compiles(
            spec_adjusted(#[trigger] q.exclude_patterns@[i]@),
            !q.case_sensitive_glob,
        ))
    &&& (q.regex_on_path matches Some(p) ==> regex_compiles(p@))
    &&& (q.content_regex matches Some(c) ==> content_regex_compiles(c@, !q.case_sensitive_content))
}

/// A query is valid when its arguments and its patterns are.
pub open spec fn spec_query_valid(q: Query) -> bool {
    spec_args_valid(q) && spec_patterns_valid(q)
}

/// The compiled query corresponds to the query, field by field.
pub open spec fn compiled_from(cq: CompiledQuery, q: Query) -> bool {
    &&& match (q.glob, cq.pattern) {
        (Option::None, Option::None) => true,
        (Option::Some(g), Option::Some(m)) => matcher_for(m, g@, q.case_sensitive_glob),
        _ => false,
    }
    &&& cq.excludes@.len() == q.exclude_patterns@.len()
    &&& (forall|i: int|
        0 <= i < cq.excludes@.len() ==> glob_set_of(#[trigger] cq.excludes@[i]) == seq![
            (spec_adjusted(q.exclude_patterns@[i]@), !q.case_sensitive_glob),
        ])
    &&& match (q.regex_on_path, cq.path_regex) {
        (Option::None, Option::None) => true,
        (Option::Some(p), Option::Some(re)) => regex_of(re) == p@,
        _ => false,
    }
    &&& cq.file_type == (match q.file_type {
        Option::Some(t) => spec_parse_file_type(t@),
        Option::None => Option::<FileType>::None,
    })
    &&& cq.extensions@ == q.extensions@
    &&& cq.min_size == q.min_size
    &&& cq.max_size == q.max_size
    &&& cq.mtime_after_ns == q.mtime_after_ns
    &&& cq.mtime_before_ns == q.mtime_before_ns
    &&& cq.atime_after_ns == q.atime_after_ns
    &&& cq.atime_before_ns == q.atime_before_ns
    &&& cq.ctime_after_ns == q.ctime_after_ns
    &&& cq.ctime_before_ns == q.ctime_before_ns
    &&& match (q.content_regex, cq.content_matcher) {
        (Option::None, Option::None) => true,
        (Option::Some(c), Option::Some(re)) => content_regex_of(re) == (
            c@,
            !q.case_sensitive_content,
        ),
        _ => false,
    }
    &&& cq.sort_key == (match q.sort {
        Option::Some(s) => spec_parse_sort_key(s@),
        Option::None => Option::<SortKey>::None,
    })
}

impl CompiledQuery {
    /// Validate a query and compile its patterns. Argument failures come
    /// first, as `InvalidArgument`; then pattern failures, as
    /// `InvalidPattern`. On success every field of the result corresponds to
    /// the query.
    pub fn build(q: &Query, cache: &mut PatternCache) -> (r: Result<CompiledQuery, QueryError>)
        requires
            old(cache).wf(),
        ensures
            final(cache).wf(),
            r is Ok <==> spec_query_valid(*q),
            r matches Ok(cq) ==> compiled_from(cq, *q),
            r matches Err(e) ==> if !spec_args_valid(*q) {
                e is InvalidArgument
            } else {
                e is InvalidPattern
            },
    {
        if q.roots.len() == 0 {
            return Err(QueryError::InvalidArgument("roots must not be empty".to_owned()));
        }
        let file_type = match &q.file_type {
            Option::None => Option::None,
            Option::Some(t) => match parse_file_type(t.as_str()) {
                Option::Some(ft) => Option::Some(ft),
                Option::None => {
                    return Err(
                        QueryError::InvalidArgument("unknown file type code".to_owned()),
                    );
                },
            },
        };
        let sort_key = match &q.sort {
            Option::None => Option::None,
            Option::Some(s) => match parse_sort_key(s.as_str()) {
                Option::Some(k) => Option::Some(k),
                Option::None => {
                    return Err(QueryError::InvalidArgument("unknown sort key".to_owned()));
                },
            },
        };
        let pattern = match &q.glob {
            Option::None => Option::None,
            Option::Some(g) => match PatternMatcher::new(g.as_str(), q.case_sensitive_glob, cache) {
                Ok(m) => Option::Some(m),
                Err(e) => {
                    return Err(e);
                },
            },
        };
        let excludes = match build_glob_set(&q.exclude_patterns, q.case_sensitive_glob, cache) {
            Ok(v) => v,
            Err(e) => {
                return Err(e);
            },
        };
        let path_regex = match &q.regex_on_path {
            Option::None => Option::None,
            Option::Some(p) => match build_path_regex(p.as_str()) {
                Ok(re) => Option::Some(re),
                Err(msg) => {
                    return Err(QueryError::InvalidPattern(msg));
                },
            },
        };
        let content_matcher = match &q.content_regex {
            Option::None => Option::None,
            Option::Some(c) => match build_content_regex(c.as_str(), !q.case_sensitive_content) {
                Ok(re) => Option::Some(re),
                Err(msg) => {
                    return Err(QueryError::InvalidPattern(msg));
                },
            },
        };
        let extensions = q.extensions.clone();
        proof {
            assert(extensions@ =~= q.extensions@);
        }
        Ok(
            CompiledQuery {
                pattern,
                excludes,
                path_regex,
                file_type,
                extensions,
                min_size: q.min_size,
                max_size: q.max_size,
                mtime_after_ns: q.mtime_after_ns,
                mtime_before_ns: q.mtime_before_ns,
                atime_after_ns: q.atime_after_ns,
                atime_before_ns: q.atime_before_ns,
                ctime_after_ns: q.ctime_after_ns,
                ctime_before_ns: q.ctime_before_ns,
                content_matcher,
                sort_key,
            },
        )
    }
}

/// Relies on num_cpus::get, which always returns at least 1.
#[verifier::external_body]
pub(crate) fn host_parallelism() -> (r: usize)
    ensures
        r >= 1,
{
    num_cpus::get()
}

/// The worker-thread count: 0 asks for the host parallelism.
pub fn resolve_threads(threads: usize) -> (r: usize)
    ensures
        threads != 0 ==> r == threads,
        r >= 1,
{
    if threads == 0 {
        host_parallelism()
    } else {
        threads
    }
}

/// Buffer configuration for the bounded result channel.
pub struct BufferConfig {
    pub channel_capacity: usize,
}

impl BufferConfig {
    /// The capacity rule: content search 500; find with sort 10000;
    /// streaming find 1000 per thread, counting at least 1 and at most 8
    /// threads.
    pub fn for_workload(is_content_search: bool, has_sorting: bool, thread_count: usize) -> (r:
        Self)
        ensures
            is_content_search ==> r.channel_capacity == 500,
            !is_content_search && has_sorting ==> r.channel_capacity == 10000,
            !is_content_search && !has_sorting ==> r.channel_capacity == 1000 * (
            if thread_count == 0 {
                1int
            } else if thread_count > 8 {
                8int
            } else {
                thread_count as int
            }),
    {
        if is_content_search {
            BufferConfig { channel_capacity: 500 }
        } else if has_sorting {
            BufferConfig { channel_capacity: 10000 }
        } else {
            let t: usize = if thread_count == 0 {
                1
            } else if thread_count > 8 {
                8
            } else {
                thread_count
            };
            BufferConfig { channel_capacity: 1000 * t }
        }
    }
}

/// How the walker is to be configured, derived from the traversal flags.
/// Field names follow the walker's own switches: `skip_hidden` prunes
/// hidden entries, the ignore switches enable each ignore source.
pub struct WalkOptions {
    pub skip_hidden: bool,
    pub use_ignore_files: bool,
    pub use_git_ignore: bool,
    pub use_git_global: bool,
    pub use_git_exclude: bool,
    pub follow_links: bool,
    pub same_file_system: bool,
    pub max_depth: Option<usize>,
    pub threads: usize,
}

/// Derive the walker configuration from a query: hidden entries are pruned
/// unless asked for; `.ignore`, `.gitignore` and the repository exclude file
/// are honored unless `no_ignore` is set; the global ignore file is honored
/// unless `no_global_ignore` is set.
pub fn walk_options(q: &Query) -> (r: WalkOptions)
    ensures
        r.skip_hidden == !q.hidden,
        r.use_ignore_files == !q.no_ignore,
        r.use_git_ignore == !q.no_ignore,
        r.use_git_global == !q.no_global_ignore,
        r.use_git_exclude == !q.no_ignore,
        r.follow_links == q.follow_symlinks,
        r.same_file_system == q.same_file_system,
        r.max_depth == q.max_depth,
        q.threads != 0 ==> r.threads == q.threads,
        r.threads >= 1,
{
    WalkOptions {
        skip_hidden: !q.hidden,
        use_ignore_files: !q.no_ignore,
        use_git_ignore: !q.no_ignore,
        use_git_global: !q.no_global_ignore,
        use_git_exclude: !q.no_ignore,
        follow_links: q.follow_symlinks,
        same_file_system: q.same_file_system,
        max_depth: q.max_depth,
        threads: resolve_threads(q.threads),
    }
}

} // verus!
