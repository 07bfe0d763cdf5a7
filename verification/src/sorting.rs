//! Sort post-processing for collected results: by full path string, by
//! basename, or by a caller-supplied numeric key (size or mtime). String
//! order is byte-wise lexicographic; the basename is the part of the path
//! after the last `/` byte.

use vstd::prelude::*;
use vstd::seq_lib::lemma_multiset_commutative;
use vstd::string::StringSliceAdditionalSpecFns;

verus! {

/// Byte-wise lexicographic order.
pub open spec fn lex_le(a: Seq<u8>, b: Seq<u8>) -> bool
    decreases a.len(),
{
    if a.len() == 0 {
        true
    } else if b.len() == 0 {
        false
    } else if a[0] < b[0] {
        true
    } else if a[0] > b[0] {
        false
    } else {
        lex_le(a.drop_first(), b.drop_first())
    }
}

/// Lexicographic order is total.
pub proof fn lemma_lex_le_total(a: Seq<u8>, b: Seq<u8>)
    ensures
        lex_le(a, b) || lex_le(b, a),
    decreases a.len(),
{
    if a.len() == 0 || b.len() == 0 {
    } else if a[0] == b[0] {
        lemma_lex_le_total(a.drop_first(), b.drop_first());
    }
}

/// Lexicographic order is transitive.
pub proof fn lemma_lex_le_trans(a: Seq<u8>, b: Seq<u8>, c: Seq<u8>)
    requires
        lex_le(a, b),
        lex_le(b, c),
    ensures
        lex_le(a, c),
    decreases a.len(),
{
    if a.len() == 0 {
    } else if b.len() == 0 {
    } else if c.len() == 0 {
    } else {
        if a[0] == b[0] && b[0] == c[0] {
            lemma_lex_le_trans(a.drop_first(), b.drop_first(), c.drop_first());
        }
    }
}

/// Chopping an equal prefix keeps the order.
pub proof fn lemma_lex_le_common_prefix(a: Seq<u8>, b: Seq<u8>, i: int)
    requires
        0 <= i <= a.len(),
        i <= b.len(),
        forall|j: int| 0 <= j < i ==> a[j] == b[j],
    ensures
        lex_le(a, b) == lex_le(a.skip(i), b.skip(i)),
    decreases i,
{
    if i == 0 {
        assert(a.skip(0) =~= a);
        assert(b.skip(0) =~= b);
    } else {
        assert(a.len() > 0 && b.len() > 0 && a[0] == b[0]);
        assert(a.drop_first().skip(i - 1) =~= a.skip(i));
        assert(b.drop_first().skip(i - 1) =~= b.skip(i));
        lemma_lex_le_common_prefix(a.drop_first(), b.drop_first(), i - 1);
    }
}

/// Decide `lex_le` on two byte slices.
pub fn bytes_lex_le(a: &[u8], b: &[u8]) -> (r: bool)
    ensures
        r == lex_le(a@, b@),
{
    let na = a.len();
    let nb = b.len();
    let n = if na < nb {
        na
    } else {
        nb
    };
    let mut i: usize = 0;
    while i < n
        invariant
            n == if na < nb {
                na as int
            } else {
                nb as int
            },
            na == a@.len(),
            nb == b@.len(),
            i <= n,
            forall|j: int| 0 <= j < i ==> a@[j] == b@[j],
        decreases n - i,
    {
        if a[i] < b[i] {
            proof {
                lemma_lex_le_common_prefix(a@, b@, i as int);
            }
            return true;
        }
        if a[i] > b[i] {
            proof {
                lemma_lex_le_common_prefix(a@, b@, i as int);
            }
            return false;
        }
        i += 1;
    }
    proof {
        lemma_lex_le_common_prefix(a@, b@, n as int);
        if na <= nb {
            assert(a@.skip(n as int) =~= Seq::<u8>::empty());
        } else {
            assert(b@.skip(n as int) =~= Seq::<u8>::empty());
            assert(a@.skip(n as int).len() > 0);
        }
    }
    na <= nb
}

/// Where the basename begins: just after the last `/` byte.
pub open spec fn basename_start(s: Seq<u8>) -> int
    decreases s.len(),
{
    if s.len() == 0 {
        0
    } else if s.last() == 47 {
        s.len() as int
    } else {
        basename_start(s.drop_last())
    }
}

pub proof fn lemma_basename_start_bounds(s: Seq<u8>)
    ensures
        0 <= basename_start(s) <= s.len(),
        forall|j: int| basename_start(s) <= j < s.len() ==> s[j] != 47,
        basename_start(s) > 0 ==> s[basename_start(s) - 1] == 47,
    decreases s.len(),
{
    if s.len() == 0 {
    } else if s.last() == 47 {
    } else {
        lemma_basename_start_bounds(s.drop_last());
        assert forall|j: int| basename_start(s) <= j < s.len() implies s[j] != 47 by {
            if j < s.len() - 1 {
                assert(s.drop_last()[j] != 47);
            }
        }
    }
}

/// The basename: the bytes after the last `/`.
pub open spec fn basename_bytes(s: Seq<u8>) -> Seq<u8> {
    s.skip(basename_start(s))
}

fn basename_start_exec(s: &[u8]) -> (r: usize)
    ensures
        r == basename_start(s@),
{
    let n = s.len();
    let mut i: usize = n;
    proof {
        assert(s@.take(n as int) =~= s@);
    }
    while i > 0
        invariant
            n == s@.len(),
            i <= n,
            basename_start(s@) == basename_start(s@.take(i as int)),
            forall|j: int| i <= j < n ==> s@[j] != 47,
        decreases i,
    {
        if s[i - 1] == 47 {
            proof {
                assert(s@.take(i as int).last() == s@[i - 1]);
            }
            return i;
        }
        proof {
            assert(s@.take(i as int).last() == s@[i - 1]);
            assert(s@.take(i as int).drop_last() =~= s@.take(i - 1));
        }
        i -= 1;
    }
    proof {
        assert(s@.take(0) =~= Seq::<u8>::empty());
    }
    0
}

/// The two orders a string sort can use.
#[derive(Clone, Copy, Debug, PartialEq, Eq, Structural)]
pub enum StringOrder {
    /// Compare full path strings.
    Path,
    /// Compare basenames.
    Name,
}

/// The comparison a string sort uses, over the strings' bytes.
pub open spec fn spec_str_le(ord: StringOrder, a: Seq<u8>, b: Seq<u8>) -> bool {
    match ord {
        StringOrder::Path => lex_le(a, b),
        StringOrder::Name => lex_le(basename_bytes(a), basename_bytes(b)),
    }
}

pub proof fn lemma_str_le_total(ord: StringOrder, a: Seq<u8>, b: Seq<u8>)
    ensures
        spec_str_le(ord, a, b) || spec_str_le(ord, b, a),
{
    match ord {
        StringOrder::Path => lemma_lex_le_total(a, b),
        StringOrder::Name => lemma_lex_le_total(basename_bytes(a), basename_bytes(b)),
    }
}

pub proof fn lemma_str_le_trans(ord: StringOrder, a: Seq<u8>, b: Seq<u8>, c: Seq<u8>)
    requires
        spec_str_le(ord, a, b),
        spec_str_le(ord, b, c),
    ensures
        spec_str_le(ord, a, c),
{
    match ord {
        StringOrder::Path => lemma_lex_le_trans(a, b, c),
        StringOrder::Name => lemma_lex_le_trans(
            basename_bytes(a),
            basename_bytes(b),
            basename_bytes(c),
        ),
    }
}

fn str_le(ord: StringOrder, a: &str, b: &str) -> (r: bool)
    ensures
        r == spec_str_le(ord, a.spec_bytes(), b.spec_bytes()),
{
    let ab = a.as_bytes();
    let bb = b.as_bytes();
    match ord {
        StringOrder::Path => bytes_lex_le(ab, bb),
        StringOrder::Name => {
            let sa = basename_start_exec(ab);
            let sb = basename_start_exec(bb);
            proof {
                lemma_basename_start_bounds(ab@);
                lemma_basename_start_bounds(bb@);
            }
            let r = bytes_lex_le(&ab[sa..ab.len()], &bb[sb..bb.len()]);
            proof {
                assert(ab@.subrange(sa as int, ab@.len() as int) =~= basename_bytes(ab@));
                assert(bb@.subrange(sb as int, bb@.len() as int) =~= basename_bytes(bb@));
            }
            r
        },
    }
}

/// A string sequence is sorted under the given order.
pub open spec fn spec_strings_sorted(ord: StringOrder, s: Seq<String>) -> bool {
    forall|i: int, j: int|
        0 <= i < j < s.len() ==> spec_str_le(
            ord,
            vstd::utf8::encode_utf8(#[trigger] s[i]@),
            vstd::utf8::encode_utf8(#[trigger] s[j]@),
        )
}

/// Sort strings by the given order: the result is sorted and holds exactly
/// the input strings.
pub fn sort_strings(v: Vec<String>, ord: StringOrder) -> (r: Vec<String>)
    ensures
        r@.to_multiset() == v@.to_multiset(),
        spec_strings_sorted(ord, r@),
{
    let mut arr = v;
    let n = arr.len();
    let mut i: usize = 1;
    if n == 0 {
        return arr;
    }
    while i < n
        invariant
            n == arr@.len(),
            1 <= i <= n,
            arr@.to_multiset() == v@.to_multiset(),
            spec_strings_sorted(ord, arr@.take(i as int)),
        decreases n - i,
    {
        let mut j: usize = i;
        proof {
            assert forall|k: int, l: int| 0 <= k < l <= i && l != j implies spec_str_le(
                ord,
                vstd::utf8::encode_utf8(#[trigger] arr@[k]@),
                vstd::utf8::encode_utf8(#[trigger] arr@[l]@),
            ) by {
                assert(arr@.take(i as int)[k] == arr@[k]);
                assert(arr@.take(i as int)[l] == arr@[l]);
            }
        }
        while j > 0 && !str_le(ord, arr[j - 1].as_str(), arr[j].as_str())
            invariant
                n == arr@.len(),
                0 <= j <= i < n,
                arr@.to_multiset() == v@.to_multiset(),
                forall|k: int, l: int|
                    0 <= k < l <= i && l != j ==> spec_str_le(
                        ord,
                        vstd::utf8::encode_utf8(#[trigger] arr@[k]@),
                        vstd::utf8::encode_utf8(#[trigger] arr@[l]@),
                    ),
                forall|k: int|
                    j < k <= i ==> spec_str_le(
                        ord,
                        vstd::utf8::encode_utf8(arr@[j as int]@),
                        vstd::utf8::encode_utf8(#[trigger] arr@[k]@),
                    ),
            decreases j,
        {
            proof {
                lemma_str_le_total(
                    ord,
                    vstd::utf8::encode_utf8(arr@[j - 1]@),
                    vstd::utf8::encode_utf8(arr@[j as int]@),
                );
            }
            let ghost before = arr@;
            let x = arr.remove(j);
            let ghost mid = arr@;
            arr.insert(j - 1, x);
            proof {
                lemma_swap_adjacent(before, mid, arr@, j as int);
            }
            j -= 1;
        }
        proof {
            assert forall|k: int, l: int| 0 <= k < l <= i implies spec_str_le(
                ord,
                vstd::utf8::encode_utf8(#[trigger] arr@[k]@),
                vstd::utf8::encode_utf8(#[trigger] arr@[l]@),
            ) by {
                if l == j {
                    assert(j > 0);
                    assert(spec_str_le(
                        ord,
                        vstd::utf8::encode_utf8(arr@[j - 1]@),
                        vstd::utf8::encode_utf8(arr@[j as int]@),
                    ));
                    if k < j - 1 {
                        lemma_str_le_trans(
                            ord,
                            vstd::utf8::encode_utf8(arr@[k]@),
                            vstd::utf8::encode_utf8(arr@[j - 1]@),
                            vstd::utf8::encode_utf8(arr@[j as int]@),
                        );
                    }
                }
            }
            assert(spec_strings_sorted(ord, arr@.take(i + 1)));
        }
        i += 1;
    }
    proof {
        assert(arr@.take(n as int) =~= arr@);
    }
    arr
}

/// A keyed sequence is sorted non-decreasing by key.
pub open spec fn spec_keys_sorted(s: Seq<(String, u64)>) -> bool {
    forall|i: int, j: int| 0 <= i < j < s.len() ==> (#[trigger] s[i]).1 <= (#[trigger] s[j]).1
}

/// Sort path/key pairs non-decreasing by key: used for size and mtime
/// sorts, where the caller reads each path's metadata and a missing value
/// counts as 0.
pub fn sort_by_key(v: Vec<(String, u64)>) -> (r: Vec<(String, u64)>)
    ensures
        r@.to_multiset() == v@.to_multiset(),
        spec_keys_sorted(r@),
{
    let mut arr = v;
    let n = arr.len();
    let mut i: usize = 1;
    if n == 0 {
        return arr;
    }
    while i < n
        invariant
            n == arr@.len(),
            1 <= i <= n,
            arr@.to_multiset() == v@.to_multiset(),
            spec_keys_sorted(arr@.take(i as int)),
        decreases n - i,
    {
        let mut j: usize = i;
        proof {
            assert forall|k: int, l: int| 0 <= k < l <= i && l != j implies (#[trigger] arr@[k]).1
                <= (#[trigger] arr@[l]).1 by {
                assert(arr@.take(i as int)[k] == arr@[k]);
                assert(arr@.take(i as int)[l] == arr@[l]);
            }
        }
        while j > 0 && arr[j - 1].1 > arr[j].1
            invariant
                n == arr@.len(),
                0 <= j <= i < n,
                arr@.to_multiset() == v@.to_multiset(),
                forall|k: int, l: int|
                    0 <= k < l <= i && l != j ==> (#[trigger] arr@[k]).1 <= (#[trigger] arr@[l]).1,
                forall|k: int| j < k <= i ==> arr@[j as int].1 <= (#[trigger] arr@[k]).1,
            decreases j,
        {
            let ghost before = arr@;
            let x = arr.remove(j);
            let ghost mid = arr@;
            arr.insert(j - 1, x);
            proof {
                lemma_swap_adjacent(before, mid, arr@, j as int);
            }
            j -= 1;
        }
        proof {
            assert forall|k: int, l: int| 0 <= k < l <= i implies (#[trigger] arr@[k]).1
                <= (#[trigger] arr@[l]).1 by {
                if l == j {
                    assert(arr@[j - 1].1 <= arr@[j as int].1);
                }
            }
            assert(spec_keys_sorted(arr@.take(i + 1)));
        }
        i += 1;
    }
    proof {
        assert(arr@.take(n as int) =~= arr@);
    }
    arr
}

/// Moving the element at `j` one place down keeps the elements, swapping
/// only the two positions.
proof fn lemma_swap_adjacent<T>(before: Seq<T>, mid: Seq<T>, after: Seq<T>, j: int)
    requires
        0 < j < before.len(),
        mid == before.remove(j),
        after == mid.insert(j - 1, before[j]),
    ensures
        after.to_multiset() == before.to_multiset(),
        after =~= before.update(j - 1, before[j]).update(j, before[j - 1]),
{
    broadcast use vstd::seq_lib::to_multiset_remove;
    broadcast use vstd::seq_lib::to_multiset_insert;
    broadcast use vstd::seq_lib::to_multiset_contains;
    broadcast use vstd::multiset::group_multiset_axioms;

    assert(before.contains(before[j]));
    assert(before.to_multiset().count(before[j]) > 0);
    assert(after.to_multiset() =~= before.to_multiset());
}

} // verus!
