//! Line-oriented content search: a file's bytes are split at newline bytes,
//! each line is tested against the compiled content regex, and every
//! matching line yields one record with its 1-based line number, its text
//! (without the trailing newline), and the trimmed line as the match text.

use vstd::prelude::*;
use vstd::seq_lib::*;
use vstd::slice::slice_to_vec;

verus! {

#[verifier::external_type_specification]
#[verifier::external_body]
pub struct ExBytesRegex(regex::bytes::Regex);

/// Whether the byte-regex engine compiles `pattern` with the given
/// case-insensitive flag.
pub uninterp spec fn content_regex_compiles(pattern: Seq<char>, case_insensitive: bool) -> bool;

/// The pattern and case-insensitive flag a compiled content regex was built
/// from.
pub uninterp spec fn content_regex_of(r: regex::bytes::Regex) -> (Seq<char>, bool);

/// Whether the content regex compiled from `pattern` with the given flag
/// matches somewhere in `haystack`.
pub uninterp spec fn content_regex_matches(
    pattern: Seq<char>,
    case_insensitive: bool,
    haystack: Seq<u8>,
) -> bool;

/// Relies on regex::bytes::RegexBuilder: whether the build succeeds depends
/// on the pattern and the flag alone.
#[verifier::external_body]
pub(crate) fn build_content_regex(pattern: &str, case_insensitive: bool) -> (r: Result<
    regex::bytes::Regex,
    String,
>)
    ensures
        r is Ok <==> content_regex_compiles(pattern@, case_insensitive),
        r matches Ok(re) ==> content_regex_of(re) == (pattern@, case_insensitive),
{
    regex::bytes::RegexBuilder::new(pattern)
        .case_insensitive(case_insensitive)
        .build()
        .map_err(|e| e.to_string())
}

/// Relies on regex::bytes::Regex::is_match: the result depends on the
/// compiled pattern and the haystack alone.
#[verifier::external_body]
pub(crate) fn content_regex_is_match(re: &regex::bytes::Regex, haystack: &[u8]) -> (r: bool)
    ensures
        r == content_regex_matches(content_regex_of(*re).0, content_regex_of(*re).1, haystack@),
{
    re.is_match(haystack)
}

/// What String::from_utf8_lossy returns for the given bytes.
pub uninterp spec fn lossy_decoded(bytes: Seq<u8>) -> Seq<char>;

/// Relies on String::from_utf8_lossy: the result depends on the bytes alone,
/// and valid UTF-8 decodes to its own text.
#[verifier::external_body]
pub(crate) fn utf8_lossy(bytes: &[u8]) -> (r: String)
    ensures
        r@ == lossy_decoded(bytes@),
        vstd::utf8::valid_utf8(bytes@) ==> r@ == vstd::utf8::decode_utf8(bytes@),
{
    String::from_utf8_lossy(bytes).into_owned()
}

/// What str::trim returns for the given text.
pub uninterp spec fn trimmed(text: Seq<char>) -> Seq<char>;

/// Relies on str::trim: the trimmed text depends on the text alone.
#[verifier::external_body]
pub(crate) fn trim_str(s: &str) -> (r: String)
    ensures
        r@ == trimmed(s@),
{
    s.trim().to_owned()
}

/// Search result for content matching.
#[derive(Debug)]
pub struct SearchResultRust {
    pub path: String,
    pub line_number: u64,
    pub line_text: String,
    pub matches: Vec<String>,
}

/// Index of the first newline byte, or the length when there is none.
pub open spec fn find_nl(data: Seq<u8>) -> int
    decreases data.len(),
{
    if data.len() == 0 {
        0
    } else if data[0] == 10 {
        0
    } else {
        1 + find_nl(data.drop_first())
    }
}

pub proof fn lemma_find_nl_bounds(data: Seq<u8>)
    ensures
        0 <= find_nl(data) <= data.len(),
        find_nl(data) < data.len() ==> data[find_nl(data)] == 10,
        forall|j: int| 0 <= j < find_nl(data) ==> data[j] != 10,
    decreases data.len(),
{
    if data.len() == 0 {
    } else if data[0] == 10 {
    } else {
        lemma_find_nl_bounds(data.drop_first());
        assert forall|j: int| 0 <= j < find_nl(data) implies data[j] != 10 by {
            if j > 0 {
                assert(data.drop_first()[j - 1] != 10);
            }
        }
    }
}

/// The first newline stands exactly after the newline-free prefix.
pub proof fn lemma_find_nl_is(data: Seq<u8>, k: int)
    requires
        0 <= k <= data.len(),
        forall|j: int| 0 <= j < k ==> data[j] != 10,
        k < data.len() ==> data[k] == 10,
    ensures
        find_nl(data) == k,
    decreases k,
{
    if k == 0 {
    } else {
        lemma_find_nl_is(data.drop_first(), k - 1);
    }
}

/// The lines of a byte string: the pieces between newline bytes. A trailing
/// newline closes the last line and opens no empty one; a final piece
/// without a newline is still a line.
pub open spec fn spec_lines(data: Seq<u8>) -> Seq<Seq<u8>>
    decreases data.len(), via spec_lines_dec
{
    if data.len() == 0 {
        seq![]
    } else {
        let i = find_nl(data);
        if i >= data.len() {
            seq![data]
        } else {
            seq![data.take(i)] + spec_lines(data.skip(i + 1))
        }
    }
}

#[via_fn]
proof fn spec_lines_dec(data: Seq<u8>) {
    lemma_find_nl_bounds(data);
}

/// Split a byte string into its lines.
pub fn split_lines(data: &[u8]) -> (r: Vec<Vec<u8>>)
    ensures
        r.deep_view() == spec_lines(data@),
{
    let mut out: Vec<Vec<u8>> = Vec::new();
    let n = data.len();
    let mut start: usize = 0;
    let mut i: usize = 0;
    proof {
        assert(data@.skip(0) =~= data@);
        assert(out.deep_view() + spec_lines(data@.skip(0)) =~= spec_lines(data@));
    }
    while i < n
        invariant
            n == data@.len(),
            start <= i <= n,
            spec_lines(data@) == out.deep_view() + spec_lines(data@.skip(start as int)),
            forall|j: int| start <= j < i ==> data@[j] != 10,
        decreases n - i,
    {
        if data[i] == 10 {
            let line = slice_to_vec(&data[start..i]);
            proof {
                let rest = data@.skip(start as int);
                lemma_find_nl_is(rest, i - start);
                assert(rest.take(i - start) =~= data@.subrange(start as int, i as int));
                assert(rest.skip(i - start + 1) =~= data@.skip(i + 1));
                assert(spec_lines(rest) == seq![data@.subrange(start as int, i as int)]
                    + spec_lines(data@.skip(i + 1)));
            }
            let ghost old_out = out.deep_view();
            out.push(line);
            proof {
                assert(line.deep_view() =~= line@);
                assert(out.deep_view() =~= old_out.push(data@.subrange(start as int, i as int)));
                assert(out.deep_view() + spec_lines(data@.skip(i + 1)) =~= spec_lines(data@));
            }
            start = i + 1;
        }
        i += 1;
    }
    if start < n {
        let line = slice_to_vec(&data[start..n]);
        proof {
            let rest = data@.skip(start as int);
            lemma_find_nl_is(rest, n - start);
            assert(rest =~= data@.subrange(start as int, n as int));
            assert(spec_lines(rest) == seq![rest]);
        }
        let ghost old_out = out.deep_view();
        out.push(line);
        proof {
            assert(line.deep_view() =~= line@);
            assert(line@ == data@.skip(start as int));
            assert(out.deep_view() =~= old_out.push(data@.skip(start as int)));
            assert(out.deep_view() =~= spec_lines(data@));
        }
    } else {
        proof {
            assert(data@.skip(start as int) =~= Seq::<u8>::empty());
            assert(out.deep_view() =~= spec_lines(data@));
        }
    }
    out
}

/// The indices of the lines the content regex matches.
pub open spec fn spec_search_hits(
    lines: Seq<Seq<u8>>,
    pattern: Seq<char>,
    case_insensitive: bool,
) -> Seq<int>
    decreases lines.len(),
{
    if lines.len() == 0 {
        seq![]
    } else {
        let rest = spec_search_hits(lines.drop_last(), pattern, case_insensitive);
        if content_regex_matches(pattern, case_insensitive, lines.last()) {
            rest.push(lines.len() - 1)
        } else {
            rest
        }
    }
}

/// The record emitted for a matching line: the path, the 1-based line
/// number, the line's text, and the trimmed line as the single match text.
pub open spec fn spec_record_for(
    rec: SearchResultRust,
    path: Seq<char>,
    line_idx: int,
    line: Seq<u8>,
) -> bool {
    &&& rec.path@ == path
    &&& rec.line_number == line_idx + 1
    &&& rec.line_text@ == lossy_decoded(line)
    &&& rec.matches.deep_view() == seq![trimmed(lossy_decoded(line))]
}

fn make_record(path: &str, line_idx: usize, line: &[u8]) -> (r: SearchResultRust)
    requires
        line_idx < usize::MAX,
    ensures
        spec_record_for(r, path@, line_idx as int, line@),
{
    let line_text = utf8_lossy(line);
    let t = trim_str(line_text.as_str());
    let mut ms: Vec<String> = Vec::new();
    ms.push(t);
    proof {
        assert(ms.deep_view() =~= seq![trimmed(lossy_decoded(line@))]);
    }
    SearchResultRust {
        path: path.to_owned(),
        line_number: (line_idx as u64) + 1,
        line_text,
        matches: ms,
    }
}

/// Run the content regex over every line of `data` and return one record per
/// matching line, in line order.
pub fn search_content(path: &str, data: &[u8], re: &regex::bytes::Regex) -> (r: Vec<
    SearchResultRust,
>)
    ensures
        ({
            let lines = spec_lines(data@);
            let hits = spec_search_hits(lines, content_regex_of(*re).0, content_regex_of(*re).1);
            &&& r@.len() == hits.len()
            &&& forall|k: int|
                0 <= k < hits.len() ==> spec_record_for(
                    #[trigger] r@[k],
                    path@,
                    hits[k],
                    lines[hits[k]],
                )
        }),
{
    let lines = split_lines(data);
    let ghost slines = spec_lines(data@);
    let ghost pat = content_regex_of(*re).0;
    let ghost ci = content_regex_of(*re).1;
    let mut out: Vec<SearchResultRust> = Vec::new();
    let n = lines.len();
    let mut i: usize = 0;
    while i < n
        invariant
            n == lines@.len(),
            lines.deep_view() == slines,
            slines == spec_lines(data@),
            pat == content_regex_of(*re).0,
            ci == content_regex_of(*re).1,
            i <= n,
            ({
                let hits = spec_search_hits(slines.take(i as int), pat, ci);
                &&& out@.len() == hits.len()
                &&& forall|k: int|
                    0 <= k < hits.len() ==> spec_record_for(
                        #[trigger] out@[k],
                        path@,
                        hits[k],
                        slines[hits[k]],
                    )
            }),
        decreases n - i,
    {
        proof {
            assert(slines.take(i + 1).drop_last() =~= slines.take(i as int));
            assert(slines.take(i + 1).last() == lines.deep_view()[i as int]);
            assert(lines.deep_view()[i as int] == lines@[i as int]@);
        }
        if content_regex_is_match(re, lines[i].as_slice()) {
            let rec = make_record(path, i, lines[i].as_slice());
            out.push(rec);
        }
        i += 1;
    }
    proof {
        assert(slines.take(n as int) =~= slines);
    }
    out
}

} // verus!
