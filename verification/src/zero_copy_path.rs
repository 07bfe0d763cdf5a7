//! Path handling that avoids repeated allocation: an interner for path
//! components, a path value that can borrow, own, or hold interned
//! components, and a pool of reusable path buffers. Paths are modeled as
//! text; components are the nonempty pieces between `/` separators.

use vstd::prelude::*;
use vstd::string::StrSliceExecFns;
use vstd::string::StringExecFns;
use std::sync::Arc;

use crate::simd_string::str_eq;

verus! {

/// Relies on Arc::clone: the clone shares the same value.
#[verifier::external_body]
fn arc_clone(a: &Arc<String>) -> (r: Arc<String>)
    ensures
        r == *a,
{
    Arc::clone(a)
}

/// Relies on Arc's Deref: the shared String reads as the Arc's value.
#[verifier::external_body]
fn arc_string<'a>(a: &'a Arc<String>) -> (r: &'a String)
    ensures
        *r == *a,
{
    &**a
}

/// Relies on String::clear: the text is emptied.
#[verifier::external_body]
fn string_clear(s: &mut String)
    ensures
        final(s)@ == Seq::<char>::empty(),
{
    s.clear()
}

/// String interner for path components: one shared allocation per distinct
/// string.
pub struct PathInterner {
    entries: Vec<(String, Arc<String>)>,
}

impl PathInterner {
    /// The interned strings, in insertion order.
    pub closed spec fn keys(self) -> Seq<Seq<char>> {
        self.entries@.map_values(|p: (String, Arc<String>)| p.0@)
    }

    /// Each stored value reads as its key; keys are distinct.
    pub closed spec fn wf(self) -> bool {
        &&& forall|i: int|
            0 <= i < self.entries@.len() ==> (#[trigger] self.entries@[i].1)@ == self.entries@[i].0@
        &&& forall|i: int, j: int|
            0 <= i < j < self.entries@.len() ==> self.entries@[i].0@ != self.entries@[j].0@
    }

    /// An empty interner.
    pub fn new() -> (r: Self)
        ensures
            r.wf(),
            r.keys() == Seq::<Seq<char>>::empty(),
    {
        let r = PathInterner { entries: Vec::new() };
        proof {
            assert(r.keys() =~= Seq::<Seq<char>>::empty());
        }
        r
    }

    fn find(&self, s: &str) -> (r: Option<usize>)
        ensures
            r matches Some(i) ==> i < self.keys().len() && self.keys()[i as int] == s@,
            r is None ==> !self.keys().contains(s@),
    {
        let n = self.entries.len();
        let mut i: usize = 0;
        while i < n
            invariant
                n == self.entries@.len(),
                i <= n,
                forall|j: int| 0 <= j < i ==> self.keys()[j] != s@,
            decreases n - i,
        {
            if str_eq(self.entries[i].0.as_str(), s) {
                return Some(i);
            }
            i += 1;
        }
        proof {
            if self.keys().contains(s@) {
                let j = choose|j: int| 0 <= j < self.keys().len() && self.keys()[j] == s@;
            }
        }
        None
    }

    /// Intern a string: hand back a shared allocation that reads as `s`,
    /// storing it on first sight.
    pub fn intern(&mut self, s: &str) -> (r: Arc<String>)
        requires
            old(self).wf(),
        ensures
            final(self).wf(),
            r@ == s@,
            final(self).keys().contains(s@),
            old(self).keys().contains(s@) ==> final(self).keys() == old(self).keys(),
            !old(self).keys().contains(s@) ==> final(self).keys() == old(self).keys().push(s@),
    {
        match self.find(s) {
            Some(i) => {
                proof {
                    assert(self.keys()[i as int] == s@);
                }
                arc_clone(&self.entries[i].1)
            },
            None => {
                let ghost olde = self.entries@;
                proof {
                    assert forall|j: int| 0 <= j < olde.len() implies olde[j].0@ != s@ by {
                        if olde[j].0@ == s@ {
                            assert(self.keys()[j] == s@);
                            assert(self.keys().contains(s@));
                        }
                    }
                }
                let owned = s.to_owned();
                let a = Arc::new(owned);
                let stored = arc_clone(&a);
                self.entries.push((s.to_owned(), stored));
                proof {
                    assert forall|i: int, j: int|
                        0 <= i < j < self.entries@.len() implies self.entries@[i].0@
                        != self.entries@[j].0@ by {
                        if j == olde.len() {
                            assert(self.entries@[i] == olde[i]);
                            assert(self.entries@[j].0@ == s@);
                        } else {
                            assert(self.entries@[i] == olde[i]);
                            assert(self.entries@[j] == olde[j]);
                        }
                    }
                    assert(self.keys() =~= old(self).keys().push(s@));
                    assert(self.keys()[self.keys().len() - 1] == s@);
                }
                a
            },
        }
    }

    /// How many bytes the interner holds, were each sum exact; the count
    /// saturates at the machine's limit.
    pub closed spec fn spec_byte_total(self) -> int {
        byte_total_of(self.entries@)
    }

    /// Get interner statistics: the number of interned strings, and the
    /// bytes held by keys and values together (each string counted twice,
    /// saturating).
    pub fn stats(&self) -> (r: (usize, usize))
        requires
            self.wf(),
        ensures
            r.0 == self.keys().len(),
            r.1 == cap_usize(self.spec_byte_total()),
    {
        let n = self.entries.len();
        let mut total: usize = 0;
        let mut i: usize = 0;
        proof {
            assert(self.entries@.take(0) =~= Seq::<(String, Arc<String>)>::empty());
        }
        while i < n
            invariant
                n == self.entries@.len(),
                i <= n,
                total == cap_usize(byte_total_of(self.entries@.take(i as int))),
            decreases n - i,
        {
            proof {
                assert(self.entries@.take(i + 1).drop_last() =~= self.entries@.take(i as int));
                assert(self.entries@.take(i + 1).last() == self.entries@[i as int]);
            }
            let ghost t = byte_total_of(self.entries@.take(i as int));
            let l = self.entries[i].0.as_str().len();
            proof {
                lemma_byte_total_nonneg(self.entries@.take(i as int));
                assert(l == vstd::utf8::encode_utf8(self.entries@[i as int].0@).len() as usize);
                assert(byte_total_of(self.entries@.take(i + 1)) == t + 2 * l);
            }
            total = sat_add(total, l);
            proof {
                assert(total == cap_usize(t + l));
            }
            total = sat_add(total, l);
            proof {
                assert(total == cap_usize(t + 2 * l));
            }
            i += 1;
        }
        proof {
            assert(self.entries@.take(n as int) =~= self.entries@);
        }
        (n, total)
    }
}

/// Twice the byte length of every key, summed.
pub open spec fn byte_total_of(s: Seq<(String, Arc<String>)>) -> int
    decreases s.len(),
{
    if s.len() == 0 {
        0
    } else {
        byte_total_of(s.drop_last()) + 2 * (vstd::utf8::encode_utf8(s.last().0@).len() as usize)
    }
}

proof fn lemma_byte_total_nonneg(s: Seq<(String, Arc<String>)>)
    ensures
        byte_total_of(s) >= 0,
    decreases s.len(),
{
    if s.len() > 0 {
        lemma_byte_total_nonneg(s.drop_last());
    }
}

/// A non-negative count, capped at the machine's limit.
pub open spec fn cap_usize(x: int) -> int {
    if x > usize::MAX {
        usize::MAX as int
    } else {
        x
    }
}

fn sat_add(a: usize, b: usize) -> (r: usize)
    requires
        a >= 0,
    ensures
        r == cap_usize(a + b),
{
    if a > usize::MAX - b {
        usize::MAX
    } else {
        a + b
    }
}

/// Index of the first `/`, or the length when there is none.
pub open spec fn find_sep(p: Seq<char>) -> int
    decreases p.len(),
{
    if p.len() == 0 {
        0
    } else if p[0] == '/' {
        0
    } else {
        1 + find_sep(p.drop_first())
    }
}

pub proof fn lemma_find_sep_bounds(p: Seq<char>)
    ensures
        0 <= find_sep(p) <= p.len(),
        find_sep(p) < p.len() ==> p[find_sep(p)] == '/',
        forall|j: int| 0 <= j < find_sep(p) ==> p[j] != '/',
    decreases p.len(),
{
    if p.len() == 0 {
    } else if p[0] == '/' {
    } else {
        lemma_find_sep_bounds(p.drop_first());
        assert forall|j: int| 0 <= j < find_sep(p) implies p[j] != '/' by {
            if j > 0 {
                assert(p.drop_first()[j - 1] != '/');
            }
        }
    }
}

pub proof fn lemma_find_sep_is(p: Seq<char>, k: int)
    requires
        0 <= k <= p.len(),
        forall|j: int| 0 <= j < k ==> p[j] != '/',
        k < p.len() ==> p[k] == '/',
    ensures
        find_sep(p) == k,
    decreases k,
{
    if k == 0 {
    } else {
        lemma_find_sep_is(p.drop_first(), k - 1);
    }
}

/// The components of a path: the nonempty maximal runs between `/`
/// separators.
pub open spec fn spec_components(p: Seq<char>) -> Seq<Seq<char>>
    decreases p.len(), via spec_components_dec
{
    if p.len() == 0 {
        seq![]
    } else if p[0] == '/' {
        spec_components(p.drop_first())
    } else {
        let i = find_sep(p);
        if i >= p.len() {
            seq![p]
        } else {
            seq![p.take(i)] + spec_components(p.skip(i))
        }
    }
}

#[via_fn]
proof fn spec_components_dec(p: Seq<char>) {
    lemma_find_sep_bounds(p);
    if p.len() > 0 && p[0] != '/' {
        assert(find_sep(p) > 0);
    }
}

/// Split a path into its components.
pub fn split_components(path: &str) -> (r: Vec<String>)
    ensures
        r.deep_view() == spec_components(path@),
{
    let n = path.unicode_len();
    let mut out: Vec<String> = Vec::new();
    let mut pos: usize = 0;
    proof {
        assert(path@.skip(0) =~= path@);
        assert(out.deep_view() + spec_components(path@.skip(0)) =~= spec_components(path@));
    }
    while pos < n
        invariant
            n == path@.len(),
            pos <= n,
            spec_components(path@) == out.deep_view() + spec_components(path@.skip(pos as int)),
        decreases n - pos,
    {
        let c = path.get_char(pos);
        if c == '/' {
            proof {
                assert(path@.skip(pos as int).drop_first() =~= path@.skip(pos + 1));
            }
            pos += 1;
        } else {
            let start = pos;
            let mut end = pos + 1;
            while end < n && path.get_char(end) != '/'
                invariant
                    n == path@.len(),
                    start < end <= n,
                    forall|j: int| start <= j < end ==> path@[j] != '/',
                decreases n - end,
            {
                end += 1;
            }
            proof {
                let rest = path@.skip(start as int);
                lemma_find_sep_is(rest, end - start);
                assert(rest.take(end - start) =~= path@.subrange(start as int, end as int));
                assert(rest.skip(end - start) =~= path@.skip(end as int));
                if end < n {
                    assert(spec_components(rest) == seq![
                        path@.subrange(start as int, end as int),
                    ] + spec_components(path@.skip(end as int)));
                } else {
                    assert(rest =~= path@.subrange(start as int, end as int));
                    assert(spec_components(rest) == seq![rest]);
                    assert(path@.skip(end as int) =~= Seq::<char>::empty());
                }
            }
            let piece = path.substring_char(start, end);
            let ghost old_out = out.deep_view();
            out.push(piece.to_owned());
            proof {
                assert(out.deep_view() =~= old_out.push(
                    path@.subrange(start as int, end as int),
                ));
                assert(out.deep_view() + spec_components(path@.skip(end as int))
                    =~= spec_components(path@));
            }
            pos = end;
        }
    }
    proof {
        assert(path@.skip(n as int) =~= Seq::<char>::empty());
        assert(out.deep_view() =~= spec_components(path@));
    }
    out
}

/// The components joined with `/`, prefixed with `/` when absolute.
pub open spec fn spec_join(parts: Seq<Seq<char>>, is_absolute: bool) -> Seq<char> {
    (if is_absolute {
        seq!['/']
    } else {
        Seq::<char>::empty()
    }) + spec_join_parts(parts)
}

pub open spec fn spec_join_parts(parts: Seq<Seq<char>>) -> Seq<char>
    decreases parts.len(),
{
    if parts.len() == 0 {
        Seq::empty()
    } else if parts.len() == 1 {
        parts[0]
    } else {
        spec_join_parts(parts.drop_last()) + seq!['/'] + parts.last()
    }
}

/// Optimized path representation that minimizes allocations. A path is its
/// text: borrowed, owned, or held as interned components.
pub enum OptimizedPath<'a> {
    /// Borrowed path (zero allocation).
    Borrowed(&'a str),
    /// Owned path (only when necessary).
    Owned(String),
    /// Interned components for deeply nested paths.
    Interned { components: Vec<Arc<String>>, is_absolute: bool },
}

impl<'a> OptimizedPath<'a> {
    /// The text this value stands for.
    pub open spec fn path_text(self) -> Seq<char> {
        match self {
            OptimizedPath::Borrowed(p) => p@,
            OptimizedPath::Owned(p) => p@,
            OptimizedPath::Interned { components, is_absolute } => spec_join(
                components.deep_view(),
                is_absolute,
            ),
        }
    }

    /// Create from a borrowed path.
    pub fn from_path(path: &'a str) -> (r: Self)
        ensures
            r == OptimizedPath::Borrowed(path),
            r.path_text() == path@,
    {
        OptimizedPath::Borrowed(path)
    }

    /// Create an owned variant when borrowing isn't possible.
    pub fn to_owned(&self) -> (r: OptimizedPath<'static>)
        ensures
            r.path_text() == self.path_text(),
            !(self is Interned) ==> r is Owned,
            self is Interned ==> r is Interned,
    {
        match self {
            OptimizedPath::Borrowed(p) => OptimizedPath::Owned((*p).to_owned()),
            OptimizedPath::Owned(p) => OptimizedPath::Owned(p.clone()),
            OptimizedPath::Interned { components, is_absolute } => {
                let mut cs: Vec<Arc<String>> = Vec::new();
                let m = components.len();
                let mut i: usize = 0;
                while i < m
                    invariant
                        m == components@.len(),
                        i <= m,
                        cs@.len() == i,
                        forall|j: int| 0 <= j < i ==> cs@[j] == components@[j],
                    decreases m - i,
                {
                    cs.push(arc_clone(&components[i]));
                    i += 1;
                }
                proof {
                    assert(cs.deep_view() =~= components.deep_view());
                }
                OptimizedPath::Interned { components: cs, is_absolute: *is_absolute }
            },
        }
    }

    /// The path's text, rebuilt from interned components when needed.
    pub fn as_path(&self) -> (r: String)
        ensures
            r@ == self.path_text(),
    {
        self.to_str_string()
    }

    /// Convert to an owned string; named for the borrowed form it avoids
    /// copying in the common cases.
    pub fn to_str_cow(&self) -> (r: String)
        ensures
            r@ == self.path_text(),
    {
        self.to_str_string()
    }

    fn to_str_string(&self) -> (r: String)
        ensures
            r@ == self.path_text(),
    {
        match self {
            OptimizedPath::Borrowed(p) => (*p).to_owned(),
            OptimizedPath::Owned(p) => p.clone(),
            OptimizedPath::Interned { components, is_absolute } => {
                let mut s = String::new();
                if *is_absolute {
                    s.append("/");
                    proof {
                        reveal_strlit("/");
                        assert(s@ =~= seq!['/']);
                    }
                }
                let m = components.len();
                let mut i: usize = 0;
                proof {
                    assert(components.deep_view().take(0) =~= Seq::<Seq<char>>::empty());
                }
                while i < m
                    invariant
                        m == components@.len(),
                        i <= m,
                        s@ == (if *is_absolute {
                            seq!['/']
                        } else {
                            Seq::<char>::empty()
                        }) + spec_join_parts(components.deep_view().take(i as int)),
                    decreases m - i,
                {
                    if i > 0 {
                        s.append("/");
                        proof {
                            reveal_strlit("/");
                            assert("/"@ =~= seq!['/']);
                        }
                    }
                    let piece = arc_string(&components[i]);
                    s.append(piece.as_str());
                    proof {
                        let parts = components.deep_view();
                        assert(parts.take(i + 1).drop_last() =~= parts.take(i as int));
                        assert(parts.take(i + 1).last() == parts[i as int]);
                        assert(parts[i as int] == components@[i as int]@);
                        if i == 0 {
                            assert(spec_join_parts(parts.take(1)) =~= parts[0]);
                        }
                        assert(s@ =~= (if *is_absolute {
                            seq!['/']
                        } else {
                            Seq::<char>::empty()
                        }) + spec_join_parts(parts.take(i + 1)));
                    }
                    i += 1;
                }
                proof {
                    assert(components.deep_view().take(m as int) =~= components.deep_view());
                }
                s
            },
        }
    }

    /// Create an interned version for deep paths: a path with fewer
    /// components than the threshold is simply owned; a deeper one has
    /// each component interned.
    pub fn intern_deep_path(path: &str, interner: &mut PathInterner, depth_threshold: usize) -> (r:
        OptimizedPath<'static>)
        requires
            old(interner).wf(),
        ensures
            final(interner).wf(),
            spec_components(path@).len() < depth_threshold ==> (r matches OptimizedPath::Owned(p)
                && p@ == path@),
            spec_components(path@).len() >= depth_threshold ==> (r matches OptimizedPath::Interned {
                components,
                is_absolute,
            } && components.deep_view() == spec_components(path@) && is_absolute == (path@.len()
                > 0 && path@[0] == '/')),
            forall|k: Seq<char>|
                old(interner).keys().contains(k) ==> final(interner).keys().contains(k),
            forall|k: Seq<char>|
                final(interner).keys().contains(k) ==> old(interner).keys().contains(k)
                    || spec_components(path@).contains(k),
    {
        let comps = split_components(path);
        if comps.len() < depth_threshold {
            let owned: OptimizedPath<'static> = OptimizedPath::Owned(path.to_owned());
            return owned;
        }
        let is_absolute = path.unicode_len() > 0 && path.get_char(0) == '/';
        let mut interned: Vec<Arc<String>> = Vec::new();
        let m = comps.len();
        let mut i: usize = 0;
        while i < m
            invariant
                m == comps@.len(),
                i <= m,
                interner.wf(),
                interned@.len() == i,
                forall|j: int| 0 <= j < i ==> (#[trigger] interned@[j])@ == comps@[j]@,
                forall|k: Seq<char>|
                    old(interner).keys().contains(k) ==> interner.keys().contains(k),
                forall|k: Seq<char>|
                    interner.keys().contains(k) ==> old(interner).keys().contains(k)
                        || comps.deep_view().contains(k),
            decreases m - i,
        {
            proof {
                assert(comps.deep_view()[i as int] == comps@[i as int]@);
            }
            let ghost prev_keys = interner.keys();
            let a = interner.intern(comps[i].as_str());
            proof {
                assert forall|k: Seq<char>| prev_keys.contains(k) implies interner.keys().contains(
                    k,
                ) by {
                    let j = choose|j: int| 0 <= j < prev_keys.len() && prev_keys[j] == k;
                    assert(interner.keys()[j] == k);
                }
                assert forall|k: Seq<char>| interner.keys().contains(k) implies
                    prev_keys.contains(k) || comps.deep_view().contains(k) by {
                    let j = choose|j: int|
                        0 <= j < interner.keys().len() && interner.keys()[j] == k;
                    if j < prev_keys.len() {
                        assert(prev_keys[j] == k);
                        assert(prev_keys.contains(k));
                    } else {
                        assert(k == comps@[i as int]@);
                        assert(comps.deep_view()[i as int] == k);
                        assert(comps.deep_view().contains(k));
                    }
                }
            }
            interned.push(a);
            i += 1;
        }
        proof {
            assert(interned.deep_view() =~= comps.deep_view());
        }
        OptimizedPath::Interned { components: interned, is_absolute }
    }
}

/// Pool for reusing path-buffer allocations: every pooled buffer is empty.
pub struct PathBufPool {
    pool: Vec<String>,
    max_size: usize,
}

impl PathBufPool {
    /// How many buffers the pool holds.
    pub closed spec fn size(self) -> int {
        self.pool@.len() as int
    }

    /// The most buffers the pool keeps.
    pub closed spec fn cap(self) -> int {
        self.max_size as int
    }

    /// Every pooled buffer is empty.
    pub closed spec fn wf(self) -> bool {
        forall|i: int| 0 <= i < self.pool@.len() ==> (#[trigger] self.pool@[i])@ == Seq::<
            char,
        >::empty()
    }

    /// An empty pool with the given bound.
    pub fn new(max_size: usize) -> (r: Self)
        ensures
            r.wf(),
            r.size() == 0,
            r.cap() == max_size,
    {
        PathBufPool { pool: Vec::new(), max_size }
    }

    /// Get an empty buffer from the pool, or a new one.
    pub fn get(&mut self) -> (r: String)
        requires
            old(self).wf(),
        ensures
            final(self).wf(),
            final(self).cap() == old(self).cap(),
            r@ == Seq::<char>::empty(),
            final(self).size() == if old(self).size() > 0 {
                old(self).size() - 1
            } else {
                0
            },
    {
        match self.pool.pop() {
            Some(s) => s,
            None => String::new(),
        }
    }

    /// Return a buffer to the pool for reuse: it is cleared, and kept only
    /// while the pool is under its bound.
    pub fn put(&mut self, path: String)
        requires
            old(self).wf(),
        ensures
            final(self).wf(),
            final(self).cap() == old(self).cap(),
            final(self).size() == if old(self).size() < old(self).cap() {
                old(self).size() + 1
            } else {
                old(self).size()
            },
    {
        if self.pool.len() < self.max_size {
            let mut p = path;
            string_clear(&mut p);
            self.pool.push(p);
        }
    }
}

} // verus!
