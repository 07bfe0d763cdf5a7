use std::sync::Arc;
use vexy_glob::zero_copy_path::{OptimizedPath, PathBufPool, PathInterner};

#[test]
fn test_path_interner() {
    let mut interner = PathInterner::new();

    let s1 = interner.intern("components");
    let s2 = interner.intern("components");

    // Should return the same Arc
    assert!(Arc::ptr_eq(&s1, &s2));

    let (size, _) = interner.stats();
    assert_eq!(size, 1);
}

#[test]
fn test_optimized_path() {
    let path = "/home/user/documents/file.txt";
    let opt_path = OptimizedPath::from_path(path);

    match opt_path {
        OptimizedPath::Borrowed(p) => assert_eq!(p, path),
        _ => panic!("Expected borrowed path"),
    }

    let cow_str = opt_path.to_str_cow();
    assert_eq!(cow_str.as_str(), "/home/user/documents/file.txt");
}

#[test]
fn test_path_buf_pool() {
    let mut pool = PathBufPool::new(10);

    let path1 = pool.get();
    assert_eq!(path1, String::new());

    pool.put(path1);

    let path2 = pool.get();
    // Should reuse the same allocation
    assert_eq!(path2, String::new());
}

#[test]
fn test_interner_stats_bytes() {
    let mut interner = PathInterner::new();
    interner.intern("ab");
    interner.intern("cde");
    interner.intern("ab");
    let (size, bytes) = interner.stats();
    assert_eq!(size, 2);
    // Keys and values each hold the text once: (2 + 3) * 2.
    assert_eq!(bytes, 10);
}

#[test]
fn test_intern_deep_path_shallow_stays_owned() {
    let mut interner = PathInterner::new();
    let p = OptimizedPath::intern_deep_path("a/b", &mut interner, 5);
    match p {
        OptimizedPath::Owned(s) => assert_eq!(s, "a/b"),
        _ => panic!("Expected owned path"),
    }
}

#[test]
fn test_intern_deep_path_round_trip() {
    let mut interner = PathInterner::new();
    let p = OptimizedPath::intern_deep_path("/home/user/documents/file.txt", &mut interner, 2);
    match &p {
        OptimizedPath::Interned { components, is_absolute } => {
            assert!(*is_absolute);
            assert_eq!(components.len(), 4);
            assert_eq!(components[0].as_str(), "home");
            assert_eq!(components[3].as_str(), "file.txt");
        }
        _ => panic!("Expected interned path"),
    }
    assert_eq!(p.to_str_cow().as_str(), "/home/user/documents/file.txt");
    assert_eq!(p.as_path().as_str(), "/home/user/documents/file.txt");

    // Interning a second path reuses the shared components.
    let q = OptimizedPath::intern_deep_path("home/user/documents/other.txt", &mut interner, 2);
    assert_eq!(q.to_str_cow().as_str(), "home/user/documents/other.txt");
    let (size, _) = interner.stats();
    // home, user, documents, file.txt, other.txt
    assert_eq!(size, 5);
}

#[test]
fn test_to_owned_keeps_text() {
    let p = OptimizedPath::from_path("x/y.txt");
    let o = p.to_owned();
    match &o {
        OptimizedPath::Owned(s) => assert_eq!(s, "x/y.txt"),
        _ => panic!("Expected owned path"),
    }
    assert_eq!(o.to_str_cow(), p.to_str_cow());
}

#[test]
fn test_pool_respects_bound() {
    let mut pool = PathBufPool::new(1);
    pool.put(String::from("abc"));
    pool.put(String::from("def"));
    // Only one buffer is kept, and it comes back cleared.
    let b1 = pool.get();
    assert_eq!(b1, "");
    let b2 = pool.get();
    assert_eq!(b2, "");
}
