use vexy_glob::global_init::ChannelPool;
use vexy_glob::pattern_cache::PatternCache;
use vexy_glob::predicate::{EntryInfo, EntryKind};
use vexy_glob::query::{walk_options, BufferConfig, CompiledQuery, Query};
use vexy_glob::content::SearchResultRust;
use vexy_glob::results::{
    collect_paths, collect_search_results, find_result_for, process_find_event, worker_step,
    FindResult, ResultStream, StreamStep, WalkEvent, WorkerEvent, WorkerState,
};

fn base_query() -> Query {
    Query {
        roots: vec![String::from(".")],
        glob: None,
        regex_on_path: None,
        exclude_patterns: vec![],
        file_type: None,
        extensions: vec![],
        min_size: None,
        max_size: None,
        mtime_after_ns: None,
        mtime_before_ns: None,
        atime_after_ns: None,
        atime_before_ns: None,
        ctime_after_ns: None,
        ctime_before_ns: None,
        hidden: false,
        no_ignore: false,
        no_global_ignore: false,
        custom_ignore_files: vec![],
        follow_symlinks: false,
        same_file_system: false,
        max_depth: None,
        case_sensitive_glob: true,
        case_sensitive_content: true,
        yield_results: true,
        sort: None,
        threads: 2,
        content_regex: None,
    }
}

fn plain_file(path: &str) -> EntryInfo {
    EntryInfo {
        path: path.to_string(),
        file_name: path.rsplit('/').next().unwrap_or(path).to_string(),
        extension: None,
        kind: EntryKind::File,
        meta: None,
    }
}

#[test]
fn test_channel_pool() {
    let pool = ChannelPool::new();
    let (tx, rx) = pool.get_channel(1000);

    // Test that channel works
    tx.send(FindResult::Path("test".to_string())).unwrap();
    let result = rx.recv().unwrap();

    match result {
        FindResult::Path(path) => assert_eq!(path, "test"),
        _ => panic!("Expected Path result"),
    }
}

// The pool hands out a channel of exactly the requested capacity.
#[test]
fn channel_has_requested_capacity() {
    let pool = ChannelPool::new();
    let (tx, rx) = pool.get_channel(7);
    assert_eq!(tx.capacity(), Some(7));
    assert_eq!(rx.capacity(), Some(7));
}

#[test]
fn test_channel_pool_stats() {
    let pool = ChannelPool::new();
    let stats = pool.stats();
    assert_eq!(stats.small_channels, 4);
    assert_eq!(stats.medium_channels, 4);
    assert_eq!(stats.large_channels, 2);
}

#[test]
fn buffer_capacity_rule() {
    assert_eq!(BufferConfig::for_workload(true, false, 4).channel_capacity, 500);
    assert_eq!(BufferConfig::for_workload(true, true, 4).channel_capacity, 500);
    assert_eq!(BufferConfig::for_workload(false, true, 4).channel_capacity, 10_000);
    assert_eq!(BufferConfig::for_workload(false, false, 0).channel_capacity, 1000);
    assert_eq!(BufferConfig::for_workload(false, false, 3).channel_capacity, 3000);
    assert_eq!(BufferConfig::for_workload(false, false, 20).channel_capacity, 8000);
}

#[test]
fn walk_options_follow_the_flags() {
    let mut q = base_query();
    q.hidden = true;
    q.no_ignore = true;
    q.follow_symlinks = true;
    q.max_depth = Some(3);
    let w = walk_options(&q);
    assert!(!w.skip_hidden);
    assert!(!w.use_ignore_files);
    assert!(!w.use_git_ignore);
    assert!(w.use_git_global);
    assert!(!w.use_git_exclude);
    assert!(w.follow_links);
    assert_eq!(w.max_depth, Some(3));
    assert_eq!(w.threads, 2);
}

// The stream hands out only real results; error records go to the side.
#[test]
fn stream_filters_errors() {
    let pool = ChannelPool::new();
    let (tx, rx) = pool.get_channel(10);
    tx.send(FindResult::Error("cannot read dir".to_string())).unwrap();
    tx.send(FindResult::Path("a".to_string())).unwrap();
    drop(tx);
    let mut stream = ResultStream::new(rx);
    assert!(matches!(stream.poll(), StreamStep::Skipped));
    match stream.poll() {
        StreamStep::Item(FindResult::Path(p)) => assert_eq!(p, "a"),
        other => panic!("expected a path, got {:?}", other),
    }
    assert!(matches!(stream.poll(), StreamStep::End));
    assert!(matches!(stream.poll(), StreamStep::End));
    assert_eq!(stream.errors().len(), 1);
    assert_eq!(stream.errors()[0], "cannot read dir");
}

// Dropping the receiving end cancels the producer on its next send.
#[test]
fn cancellation_on_dropped_receiver() {
    let mut cache = PatternCache::new();
    let cq = CompiledQuery::build(&base_query(), &mut cache).unwrap();
    let pool = ChannelPool::new();
    let (tx, rx) = pool.get_channel(1);
    drop(rx);
    let st = process_find_event(&tx, &cq, WalkEvent::Entry(plain_file("a")));
    assert!(matches!(st, WorkerState::Terminating));
}

#[test]
fn producer_keeps_visiting_while_consumer_lives() {
    let mut cache = PatternCache::new();
    let cq = CompiledQuery::build(&base_query(), &mut cache).unwrap();
    let pool = ChannelPool::new();
    let (tx, rx) = pool.get_channel(4);
    let st = process_find_event(&tx, &cq, WalkEvent::Entry(plain_file("a")));
    assert!(matches!(st, WorkerState::Visiting));
    let st = process_find_event(&tx, &cq, WalkEvent::Failure("oops".to_string()));
    assert!(matches!(st, WorkerState::Visiting));
    drop(tx);
    let got: Vec<FindResult> = std::iter::from_fn(|| rx.recv().ok()).collect();
    assert_eq!(got.len(), 2);
    assert!(matches!(&got[0], FindResult::Path(p) if p == "a"));
    assert!(matches!(&got[1], FindResult::Error(m) if m == "oops"));
}

#[test]
fn find_result_decision() {
    let mut cache = PatternCache::new();
    let mut q = base_query();
    q.glob = Some(String::from("*.py"));
    let cq = CompiledQuery::build(&q, &mut cache).unwrap();
    let mut e = plain_file("x.py");
    e.file_name = String::from("x.py");
    match find_result_for(&cq, WalkEvent::Entry(e)) {
        Some(FindResult::Path(p)) => assert_eq!(p, "x.py"),
        other => panic!("expected a path, got {:?}", other),
    }
    assert!(find_result_for(&cq, WalkEvent::Entry(plain_file("x.txt"))).is_none());
    match find_result_for(&cq, WalkEvent::Failure("broken".to_string())) {
        Some(FindResult::Error(m)) => assert_eq!(m, "broken"),
        other => panic!("expected an error record, got {:?}", other),
    }
}

// A closed channel terminates a worker from every state, and a terminated
// worker stays terminated.
#[test]
fn worker_state_machine_cancellation() {
    let states = [
        WorkerState::Idle,
        WorkerState::Visiting,
        WorkerState::Filtering,
        WorkerState::Emitting,
        WorkerState::ReportingError,
        WorkerState::Terminating,
    ];
    for s in states {
        assert_eq!(worker_step(s, WorkerEvent::ChannelClosed), WorkerState::Terminating);
        assert_eq!(worker_step(s, WorkerEvent::Drained), WorkerState::Terminating);
        assert_eq!(
            worker_step(WorkerState::Terminating, WorkerEvent::GetWork),
            WorkerState::Terminating
        );
    }
    assert_eq!(worker_step(WorkerState::Idle, WorkerEvent::GetWork), WorkerState::Visiting);
    assert_eq!(worker_step(WorkerState::Visiting, WorkerEvent::EntryOk), WorkerState::Filtering);
    assert_eq!(
        worker_step(WorkerState::Visiting, WorkerEvent::EntryErr),
        WorkerState::ReportingError
    );
    assert_eq!(worker_step(WorkerState::Filtering, WorkerEvent::Accepted), WorkerState::Emitting);
    assert_eq!(worker_step(WorkerState::Filtering, WorkerEvent::Rejected), WorkerState::Visiting);
    assert_eq!(worker_step(WorkerState::Emitting, WorkerEvent::Emitted), WorkerState::Visiting);
}

#[test]
fn cancel_closes_the_stream() {
    let pool = ChannelPool::new();
    let (tx, rx) = pool.get_channel(4);
    tx.send(FindResult::Path("a".to_string())).unwrap();
    let mut stream = ResultStream::new(rx);
    stream.cancel();
    assert!(matches!(stream.poll(), StreamStep::End));
    // The producer's next send observes the disconnect.
    assert!(tx.send(FindResult::Path("b".to_string())).is_err());
}

#[test]
fn auto_threads_resolve_to_at_least_one() {
    let mut q = base_query();
    q.threads = 0;
    let w = walk_options(&q);
    assert!(w.threads >= 1);
}

#[test]
fn collect_paths_keeps_only_paths_in_order() {
    let results = vec![
        FindResult::Path("b".to_string()),
        FindResult::Error("x".to_string()),
        FindResult::Path("a".to_string()),
    ];
    let got = collect_paths(results);
    assert_eq!(got, vec![String::from("b"), String::from("a")]);
}

#[test]
fn collect_search_results_keeps_only_matches() {
    let rec = SearchResultRust {
        path: String::from("f"),
        line_number: 2,
        line_text: String::from("hit"),
        matches: vec![String::from("hit")],
    };
    let results = vec![
        FindResult::Error("x".to_string()),
        FindResult::Search(rec),
        FindResult::Path("p".to_string()),
    ];
    let got = collect_search_results(results);
    assert_eq!(got.len(), 1);
    assert_eq!(got[0].path, "f");
    assert_eq!(got[0].line_number, 2);
}
