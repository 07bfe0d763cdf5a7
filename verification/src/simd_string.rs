//! Byte-wise string comparisons used by the literal-pattern fast path.
//!
//! Literal patterns bypass glob compilation and are matched by direct
//! byte-wise comparison; case-insensitive comparison folds the ASCII
//! upper-case letters and leaves every other byte unchanged.

use vstd::prelude::*;
use vstd::string::StringSliceAdditionalSpecFns;

verus! {

/// ASCII lower-case folding of one byte: `A`..`Z` map to `a`..`z`,
/// every other byte is unchanged.
pub open spec fn fold_byte(b: u8) -> u8 {
    if 65 <= b && b <= 90 {
        (b + 32) as u8
    } else {
        b
    }
}

/// ASCII lower-case folding of a byte sequence, byte by byte.
pub open spec fn fold_bytes(s: Seq<u8>) -> Seq<u8> {
    s.map_values(|b: u8| fold_byte(b))
}

/// `needle` is a suffix of `hay`.
pub open spec fn ends_with_bytes(hay: Seq<u8>, needle: Seq<u8>) -> bool {
    needle.len() <= hay.len() && hay.skip(hay.len() - needle.len()) == needle
}

/// The bytes of `filename` equal those of `pattern`, folded when
/// `case_sensitive` is false.
pub open spec fn spec_filename_matches(
    filename: Seq<u8>,
    pattern: Seq<u8>,
    case_sensitive: bool,
) -> bool {
    if case_sensitive {
        filename == pattern
    } else {
        fold_bytes(filename) == fold_bytes(pattern)
    }
}

/// The bytes of `pattern` are a suffix of those of `path`, folded when
/// `case_sensitive` is false.
pub open spec fn spec_path_ends_with(
    path: Seq<u8>,
    pattern: Seq<u8>,
    case_sensitive: bool,
) -> bool {
    if case_sensitive {
        ends_with_bytes(path, pattern)
    } else {
        ends_with_bytes(fold_bytes(path), fold_bytes(pattern))
    }
}

fn fold(b: u8) -> (r: u8)
    ensures
        r == fold_byte(b),
{
    if 65 <= b && b <= 90 {
        b + 32
    } else {
        b
    }
}

/// High-performance string comparison operations.
pub struct FastStringOps;

impl FastStringOps {
    /// Case-insensitive string equality: the folded bytes are equal.
    pub fn eq_ignore_case(a: &str, b: &str) -> (r: bool)
        ensures
            r == (fold_bytes(a.spec_bytes()) == fold_bytes(b.spec_bytes())),
    {
        let ab = a.as_bytes();
        let bb = b.as_bytes();
        if ab.len() != bb.len() {
            assert(fold_bytes(ab@).len() != fold_bytes(bb@).len());
            return false;
        }
        let n = ab.len();
        let mut i: usize = 0;
        while i < n
            invariant
                n == ab@.len() == bb@.len(),
                i <= n,
                forall|j: int| 0 <= j < i ==> fold_byte(ab@[j]) == fold_byte(bb@[j]),
            decreases n - i,
        {
            if fold(ab[i]) != fold(bb[i]) {
                assert(fold_bytes(ab@)[i as int] != fold_bytes(bb@)[i as int]);
                return false;
            }
            i += 1;
        }
        assert(fold_bytes(ab@) =~= fold_bytes(bb@));
        true
    }

    /// Case-insensitive suffix test: the folded bytes of `needle` are a
    /// suffix of the folded bytes of `haystack`.
    pub fn ends_with_ignore_case(haystack: &str, needle: &str) -> (r: bool)
        ensures
            r == ends_with_bytes(
                fold_bytes(haystack.spec_bytes()),
                fold_bytes(needle.spec_bytes()),
            ),
    {
        let hb = haystack.as_bytes();
        let nb = needle.as_bytes();
        if nb.len() > hb.len() {
            return false;
        }
        let off = hb.len() - nb.len();
        let n = nb.len();
        let mut i: usize = 0;
        while i < n
            invariant
                n == nb@.len(),
                off == hb@.len() - nb@.len(),
                n + off == hb@.len(),
                i <= n,
                forall|j: int| 0 <= j < i ==> fold_byte(hb@[off + j]) == fold_byte(nb@[j]),
            decreases n - i,
        {
            if fold(hb[off + i]) != fold(nb[i]) {
                assert(fold_bytes(hb@).skip(off as int)[i as int] != fold_bytes(nb@)[i as int]);
                return false;
            }
            i += 1;
        }
        assert(fold_bytes(hb@).skip(off as int) =~= fold_bytes(nb@));
        true
    }

    /// Case-sensitive suffix test on the bytes.
    pub fn ends_with(haystack: &str, needle: &str) -> (r: bool)
        ensures
            r == ends_with_bytes(haystack.spec_bytes(), needle.spec_bytes()),
    {
        let hb = haystack.as_bytes();
        let nb = needle.as_bytes();
        if nb.len() > hb.len() {
            return false;
        }
        let off = hb.len() - nb.len();
        let n = nb.len();
        let mut i: usize = 0;
        while i < n
            invariant
                n == nb@.len(),
                off == hb@.len() - nb@.len(),
                n + off == hb@.len(),
                i <= n,
                forall|j: int| 0 <= j < i ==> hb@[off + j] == nb@[j],
            decreases n - i,
        {
            if hb[off + i] != nb[i] {
                assert(hb@.skip(off as int)[i as int] != nb@[i as int]);
                return false;
            }
            i += 1;
        }
        assert(hb@.skip(off as int) =~= nb@);
        true
    }

    /// Case-sensitive equality on the bytes.
    pub fn eq(a: &str, b: &str) -> (r: bool)
        ensures
            r == (a.spec_bytes() == b.spec_bytes()),
    {
        let ab = a.as_bytes();
        let bb = b.as_bytes();
        if ab.len() != bb.len() {
            return false;
        }
        let n = ab.len();
        let mut i: usize = 0;
        while i < n
            invariant
                n == ab@.len() == bb@.len(),
                i <= n,
                forall|j: int| 0 <= j < i ==> ab@[j] == bb@[j],
            decreases n - i,
        {
            if ab[i] != bb[i] {
                return false;
            }
            i += 1;
        }
        assert(ab@ =~= bb@);
        true
    }
}

/// Pattern-matching entry points that pick the comparison from the case flag.
pub struct FastPatternMatch;

impl FastPatternMatch {
    /// Filename comparison with the configured case handling.
    pub fn filename_equals(filename: &str, pattern: &str, case_sensitive: bool) -> (r: bool)
        ensures
            r == spec_filename_matches(
                filename.spec_bytes(),
                pattern.spec_bytes(),
                case_sensitive,
            ),
    {
        if case_sensitive {
            FastStringOps::eq(filename, pattern)
        } else {
            FastStringOps::eq_ignore_case(filename, pattern)
        }
    }

    /// Path suffix comparison with the configured case handling.
    pub fn path_ends_with(path_str: &str, pattern: &str, case_sensitive: bool) -> (r: bool)
        ensures
            r == spec_path_ends_with(path_str.spec_bytes(), pattern.spec_bytes(), case_sensitive),
    {
        if case_sensitive {
            FastStringOps::ends_with(path_str, pattern)
        } else {
            FastStringOps::ends_with_ignore_case(path_str, pattern)
        }
    }
}

/// UTF-8 encoding is injective: equal encodings come from equal texts.
pub proof fn lemma_encode_utf8_injective(a: Seq<char>, b: Seq<char>)
    requires
        vstd::utf8::encode_utf8(a) == vstd::utf8::encode_utf8(b),
    ensures
        a == b,
{
    vstd::utf8::encode_utf8_decode_utf8(a);
    vstd::utf8::encode_utf8_decode_utf8(b);
}

/// String equality as text equality, decided byte-wise.
pub fn str_eq(a: &str, b: &str) -> (r: bool)
    ensures
        r == (a@ == b@),
{
    let r = FastStringOps::eq(a, b);
    proof {
        if a.spec_bytes() == b.spec_bytes() {
            lemma_encode_utf8_injective(a@, b@);
        }
    }
    r
}

/// A filename accepted by the case-sensitive comparison is also accepted by
/// the case-insensitive one.
pub proof fn lemma_filename_case_superset(filename: Seq<u8>, pattern: Seq<u8>)
    requires
        spec_filename_matches(filename, pattern, true),
    ensures
        spec_filename_matches(filename, pattern, false),
{
}

/// A path suffix accepted by the case-sensitive comparison is also accepted
/// by the case-insensitive one.
pub proof fn lemma_path_suffix_case_superset(path: Seq<u8>, pattern: Seq<u8>)
    requires
        spec_path_ends_with(path, pattern, true),
    ensures
        spec_path_ends_with(path, pattern, false),
{
    assert(fold_bytes(path).skip(path.len() - pattern.len()) =~= fold_bytes(
        path.skip(path.len() - pattern.len()),
    ));
}

} // verus!
