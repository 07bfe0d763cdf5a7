use vexy_glob::matcher::PatternMatcher;
use vexy_glob::pattern_cache::PatternCache;
use vexy_glob::predicate::{
    filter_entries, passes_cheap_predicates, should_include_entry, EntryInfo, EntryKind, MetaInfo,
};
use vexy_glob::query::{parse_file_type, parse_sort_key, CompiledQuery, Query};
use vexy_glob::content::search_content;
use vexy_glob::global_init::ChannelPool;
use vexy_glob::results::{find_result_for, FindResult, ResultStream, StreamStep, WalkEvent};
use vexy_glob::sorting::{sort_by_key, sort_strings, StringOrder};
use vexy_glob::QueryError;

fn base_query() -> Query {
    Query {
        roots: vec![String::from(".")],
        glob: None,
        regex_on_path: None,
        exclude_patterns: vec![],
        file_type: None,
        extensions: vec![],
        min_size: None,
        max_size: None,
        mtime_after_ns: None,
        mtime_before_ns: None,
        atime_after_ns: None,
        atime_before_ns: None,
        ctime_after_ns: None,
        ctime_before_ns: None,
        hidden: false,
        no_ignore: false,
        no_global_ignore: false,
        custom_ignore_files: vec![],
        follow_symlinks: false,
        same_file_system: false,
        max_depth: None,
        case_sensitive_glob: true,
        case_sensitive_content: true,
        yield_results: true,
        sort: None,
        threads: 0,
        content_regex: None,
    }
}

fn entry(path: &str, kind: EntryKind, size: Option<u64>) -> EntryInfo {
    let file_name = path.rsplit('/').next().unwrap_or(path).to_string();
    let extension = file_name.rsplit_once('.').map(|(_, e)| e.to_string());
    EntryInfo {
        path: path.to_string(),
        file_name,
        extension,
        kind,
        meta: size.map(|s| MetaInfo { size: s, mtime_ns: None, atime_ns: None, ctime_ns: None }),
    }
}

fn file(path: &str) -> EntryInfo {
    entry(path, EntryKind::File, None)
}

fn dir(path: &str) -> EntryInfo {
    entry(path, EntryKind::Dir, None)
}

fn compile(q: &Query) -> CompiledQuery {
    let mut cache = PatternCache::new();
    CompiledQuery::build(q, &mut cache).unwrap()
}

// Tree {a.py, b.txt, sub/c.py}, query glob="*.py": both Python files come
// out, nothing else — through the streaming channel and through the batch
// filter alike.
#[test]
fn scenario_glob_streaming() {
    let mut q = base_query();
    q.glob = Some(String::from("*.py"));
    let cq = compile(&q);
    let tree = vec![file("a.py"), file("b.txt"), dir("sub"), file("sub/c.py")];

    let got = filter_entries(&tree, &cq);
    assert_eq!(got, vec![String::from("a.py"), String::from("sub/c.py")]);

    let pool = ChannelPool::new();
    let (tx, rx) = pool.get_channel(16);
    for e in &tree {
        if let Some(msg) = find_result_for(&cq, WalkEvent::Entry(e.clone())) {
            tx.send(msg).unwrap();
        }
    }
    drop(tx);
    let mut stream = ResultStream::new(rx);
    let mut streamed: Vec<String> = Vec::new();
    loop {
        match stream.poll() {
            StreamStep::Item(FindResult::Path(p)) => streamed.push(p),
            StreamStep::Item(_) => panic!("unexpected result kind"),
            StreamStep::Skipped => {}
            StreamStep::End => break,
        }
    }
    assert_eq!(streamed, vec![String::from("a.py"), String::from("sub/c.py")]);
}

// Same tree with exclude=["sub/**"]: the excluded subtree disappears.
#[test]
fn scenario_glob_with_exclude() {
    let mut q = base_query();
    q.glob = Some(String::from("*.py"));
    q.exclude_patterns = vec![String::from("sub/**")];
    let cq = compile(&q);
    let tree = vec![file("a.py"), file("b.txt"), dir("sub"), file("sub/c.py")];
    let got = filter_entries(&tree, &cq);
    assert_eq!(got, vec![String::from("a.py")]);
}

// Tree {x/1.txt (10 B), x/2.txt (2000 B)}, min_size=100: only the large
// file survives.
#[test]
fn scenario_min_size() {
    let mut q = base_query();
    q.min_size = Some(100);
    let cq = compile(&q);
    let tree = vec![
        entry("x/1.txt", EntryKind::File, Some(10)),
        entry("x/2.txt", EntryKind::File, Some(2000)),
    ];
    let got = filter_entries(&tree, &cq);
    assert_eq!(got, vec![String::from("x/2.txt")]);
}

// A file holding "TODO: fix\nok\nTODO: test\n", searched for "TODO": two
// records, line numbers 1 and 3, the line text without its newline.
#[test]
fn scenario_content_search() {
    let mut q = base_query();
    q.content_regex = Some(String::from("TODO"));
    let cq = compile(&q);
    let re = cq.content_matcher.as_ref().unwrap();
    let data = b"TODO: fix\nok\nTODO: test\n";
    let records = search_content("readme.md", data, re);
    assert_eq!(records.len(), 2);
    assert_eq!(records[0].path, "readme.md");
    assert_eq!(records[0].line_number, 1);
    assert_eq!(records[0].line_text, "TODO: fix");
    assert_eq!(records[0].matches, vec![String::from("TODO: fix")]);
    assert_eq!(records[1].line_number, 3);
    assert_eq!(records[1].line_text, "TODO: test");
}

#[test]
fn content_search_final_line_without_newline() {
    let mut q = base_query();
    q.content_regex = Some(String::from("end"));
    let cq = compile(&q);
    let re = cq.content_matcher.as_ref().unwrap();
    let records = search_content("f", b"start\nthe end", re);
    assert_eq!(records.len(), 1);
    assert_eq!(records[0].line_number, 2);
    assert_eq!(records[0].line_text, "the end");
}

#[test]
fn content_search_empty_file() {
    let mut q = base_query();
    q.content_regex = Some(String::from("x"));
    let cq = compile(&q);
    let re = cq.content_matcher.as_ref().unwrap();
    assert_eq!(search_content("f", b"", re).len(), 0);
}

#[test]
fn content_search_case_insensitive() {
    let mut q = base_query();
    q.content_regex = Some(String::from("todo"));
    q.case_sensitive_content = false;
    let cq = compile(&q);
    let re = cq.content_matcher.as_ref().unwrap();
    let records = search_content("f", b"TODO: x\nnothing\n", re);
    assert_eq!(records.len(), 1);
    // The match text is the trimmed line.
    assert_eq!(records[0].matches, vec![String::from("TODO: x")]);
}

// An invalid regex is refused synchronously, before any traversal.
#[test]
fn scenario_invalid_regex() {
    let mut q = base_query();
    q.content_regex = Some(String::from("[unterminated"));
    let mut cache = PatternCache::new();
    let r = CompiledQuery::build(&q, &mut cache);
    assert!(matches!(r, Err(QueryError::InvalidPattern(_))));
}

#[test]
fn invalid_path_regex_is_refused() {
    let mut q = base_query();
    q.regex_on_path = Some(String::from("[unterminated"));
    let mut cache = PatternCache::new();
    assert!(matches!(
        CompiledQuery::build(&q, &mut cache),
        Err(QueryError::InvalidPattern(_))
    ));
}

#[test]
fn empty_roots_are_refused() {
    let mut q = base_query();
    q.roots = vec![];
    let mut cache = PatternCache::new();
    assert!(matches!(
        CompiledQuery::build(&q, &mut cache),
        Err(QueryError::InvalidArgument(_))
    ));
}

#[test]
fn unknown_file_type_is_refused() {
    let mut q = base_query();
    q.file_type = Some(String::from("x"));
    let mut cache = PatternCache::new();
    assert!(matches!(
        CompiledQuery::build(&q, &mut cache),
        Err(QueryError::InvalidArgument(_))
    ));
}

#[test]
fn unknown_sort_key_is_refused() {
    let mut q = base_query();
    q.sort = Some(String::from("color"));
    let mut cache = PatternCache::new();
    assert!(matches!(
        CompiledQuery::build(&q, &mut cache),
        Err(QueryError::InvalidArgument(_))
    ));
}

#[test]
fn parse_codes() {
    assert!(parse_file_type("f").is_some());
    assert!(parse_file_type("d").is_some());
    assert!(parse_file_type("l").is_some());
    assert!(parse_file_type("q").is_none());
    assert!(parse_sort_key("name").is_some());
    assert!(parse_sort_key("path").is_some());
    assert!(parse_sort_key("size").is_some());
    assert!(parse_sort_key("mtime").is_some());
    assert!(parse_sort_key("age").is_none());
}

// When several predicates are set, every emitted entry satisfies each one.
#[test]
fn predicate_conjunction() {
    let mut q = base_query();
    q.glob = Some(String::from("*.txt"));
    q.file_type = Some(String::from("f"));
    q.min_size = Some(100);
    q.extensions = vec![String::from("txt")];
    let cq = compile(&q);
    let tree = vec![
        entry("a.txt", EntryKind::File, Some(200)),  // passes all
        entry("b.txt", EntryKind::File, Some(10)),   // too small
        entry("c.py", EntryKind::File, Some(200)),   // wrong glob and ext
        entry("d.txt", EntryKind::Dir, Some(200)),   // wrong type
    ];
    let got = filter_entries(&tree, &cq);
    assert_eq!(got, vec![String::from("a.txt")]);
    // And each survivor, re-checked alone, passes every single filter.
    for p in &got {
        let e = tree.iter().find(|e| &e.path == p).unwrap();
        assert!(should_include_entry(e, &cq));
    }
}

// A literal pattern L matches exactly what the glob **/L matches.
#[test]
fn literal_glob_equivalence() {
    let mut cache = PatternCache::new();
    let literal = PatternMatcher::new("main.rs", true, &mut cache).unwrap();
    let glob = PatternMatcher::new("**/main.rs", true, &mut cache).unwrap();
    let samples = [
        "main.rs",
        "src/main.rs",
        "deep/a/b/main.rs",
        "domain.rs",
        "src/xmain.rs",
        "main.rs.bak",
        "MAIN.RS",
    ];
    for p in samples {
        let base = p.rsplit('/').next().unwrap_or(p);
        assert_eq!(
            literal.is_match(p, base),
            glob.is_match(p, base),
            "pattern disagreement on {}",
            p
        );
    }
}

// Case-insensitive results are a superset of case-sensitive results.
#[test]
fn case_flag_superset_for_globs() {
    let mut cache = PatternCache::new();
    let strict = PatternMatcher::new("*.Py", true, &mut cache).unwrap();
    let loose = PatternMatcher::new("*.Py", false, &mut cache).unwrap();
    let samples = ["a.Py", "a.py", "a.PY", "b.txt", "dir/c.Py"];
    for p in samples {
        let base = p.rsplit('/').next().unwrap_or(p);
        if strict.is_match(p, base) {
            assert!(loose.is_match(p, base), "case flag narrowed match on {}", p);
        }
    }
}

// With sort=path, results are in lexicographic order of the path string.
#[test]
fn sort_by_path_is_lexicographic() {
    let v = vec![
        String::from("b/z.txt"),
        String::from("a/y.txt"),
        String::from("a/x.txt"),
        String::from("c"),
    ];
    let sorted = sort_strings(v.clone(), StringOrder::Path);
    let mut expect = v;
    expect.sort();
    assert_eq!(sorted, expect);
}

#[test]
fn sort_by_name_compares_basenames() {
    let v = vec![
        String::from("zzz/a.txt"),
        String::from("aaa/c.txt"),
        String::from("mmm/b.txt"),
    ];
    let sorted = sort_strings(v, StringOrder::Name);
    assert_eq!(
        sorted,
        vec![
            String::from("zzz/a.txt"),
            String::from("mmm/b.txt"),
            String::from("aaa/c.txt"),
        ]
    );
}

// With sort=size (or mtime), results are non-decreasing by the key.
#[test]
fn sort_by_key_is_non_decreasing() {
    let v = vec![
        (String::from("big"), 2000u64),
        (String::from("small"), 10u64),
        (String::from("mid"), 500u64),
        (String::from("also-small"), 10u64),
    ];
    let sorted = sort_by_key(v);
    let keys: Vec<u64> = sorted.iter().map(|p| p.1).collect();
    assert_eq!(keys, vec![10, 10, 500, 2000]);
}

// Entries with pairwise distinct paths come out without duplicates.
#[test]
fn no_duplicates_in_filtered_output() {
    let q = base_query();
    let cq = compile(&q);
    let tree = vec![file("a"), file("b"), file("c")];
    let got = filter_entries(&tree, &cq);
    assert_eq!(got.len(), 3);
    for i in 0..got.len() {
        for j in i + 1..got.len() {
            assert_ne!(got[i], got[j]);
        }
    }
}

// With no predicates at all, every entry is emitted: the filter is complete.
#[test]
fn completeness_without_filters() {
    let q = base_query();
    let cq = compile(&q);
    let tree = vec![file("a.py"), dir("sub"), file("sub/c.py"), file("b.txt")];
    let got = filter_entries(&tree, &cq);
    let want: Vec<String> = tree.iter().map(|e| e.path.clone()).collect();
    assert_eq!(got, want);
}

#[test]
fn path_regex_filters_entries() {
    let mut q = base_query();
    q.regex_on_path = Some(String::from("^a.*\\.py$"));
    let cq = compile(&q);
    let tree = vec![file("a1.py"), file("b.py"), file("a2.py")];
    let got = filter_entries(&tree, &cq);
    assert_eq!(got, vec![String::from("a1.py"), String::from("a2.py")]);
}

#[test]
fn match_text_is_trimmed() {
    let mut q = base_query();
    q.content_regex = Some(String::from("TODO"));
    let cq = compile(&q);
    let re = cq.content_matcher.as_ref().unwrap();
    let records = search_content("f", b"  TODO: y  \n", re);
    assert_eq!(records.len(), 1);
    assert_eq!(records[0].line_text, "  TODO: y  ");
    assert_eq!(records[0].matches, vec![String::from("TODO: y")]);
}

#[test]
fn extension_filter_rejects_missing_extension() {
    let mut q = base_query();
    q.extensions = vec![String::from("rs")];
    let cq = compile(&q);
    let tree = vec![file("Makefile"), file("lib.rs")];
    let got = filter_entries(&tree, &cq);
    assert_eq!(got, vec![String::from("lib.rs")]);
}

// The time interval is half-open: the lower bound is included, the upper
// bound excluded; a timestamp that could not be read never satisfies a
// configured interval.
#[test]
fn time_interval_is_half_open() {
    let mut q = base_query();
    q.mtime_after_ns = Some(1_000);
    q.mtime_before_ns = Some(2_000);
    let cq = compile(&q);
    let mk = |path: &str, t: Option<u64>| EntryInfo {
        path: path.to_string(),
        file_name: path.to_string(),
        extension: None,
        kind: EntryKind::File,
        meta: Some(MetaInfo { size: 0, mtime_ns: t, atime_ns: None, ctime_ns: None }),
    };
    let no_meta = EntryInfo {
        path: String::from("statless"),
        file_name: String::from("statless"),
        extension: None,
        kind: EntryKind::File,
        meta: None,
    };
    let tree = vec![
        mk("old", Some(500)),
        mk("at-lower", Some(1_000)),
        mk("in-range", Some(1_500)),
        mk("at-upper", Some(2_000)),
        mk("new", Some(9_999)),
        mk("unknown", None),
        no_meta,
    ];
    let got = filter_entries(&tree, &cq);
    assert_eq!(got, vec![String::from("at-lower"), String::from("in-range")]);
}

// A regular file whose size could not be read never satisfies a size
// bound; non-files skip the size predicate.
#[test]
fn missing_size_rejects_under_size_bound() {
    let mut q = base_query();
    q.min_size = Some(1);
    let cq = compile(&q);
    let tree = vec![
        entry("statless.txt", EntryKind::File, None),
        entry("ok.txt", EntryKind::File, Some(5)),
        entry("somedir", EntryKind::Dir, None),
    ];
    let got = filter_entries(&tree, &cq);
    assert_eq!(got, vec![String::from("ok.txt"), String::from("somedir")]);
}

#[test]
fn cheap_predicates_need_no_metadata() {
    let mut q = base_query();
    q.glob = Some(String::from("*.py"));
    q.min_size = Some(100);
    let cq = compile(&q);
    // The cheap predicates decide without metadata: a rejected entry never
    // needs a stat.
    assert!(!passes_cheap_predicates(&file("b.txt"), &cq));
    assert!(passes_cheap_predicates(&file("a.py"), &cq));
    // A cheap pass is not yet an accept: the size bound still applies.
    assert!(!should_include_entry(&file("a.py"), &cq));
}
