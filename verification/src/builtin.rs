//! The built-in tools: their declared names, descriptions and parameter
//! schemas, and the parts of their behavior that are pure computation —
//! the command guard, result formatting, truncation notes. The executors'
//! I/O (files, subprocesses, HTTP) lives with the driver.

use vstd::prelude::*;
use crate::codec::push_lit;
use crate::memory::digit_char;
use crate::registry::{FunctionDefinition, ToolDefinition};
use crate::strutil::{chars_to_string, lower_of, str_to_chars, to_lowercase};
use crate::utils::ws_split;
use crate::utils::ws_split_from;

verus! {

/// How many bytes of a file the read tool hands back at most.
pub const READ_LIMIT: u64 = 262144;

/// How many bytes of command output the exec tool hands back at most.
pub const EXEC_OUTPUT_LIMIT: u64 = 102400;

/// How many characters of a fetched page are handed back at most.
pub const FETCH_LIMIT: usize = 5000;

/// A number written in decimal, without leading zeros.
pub open spec fn dec_digits(n: int) -> Seq<char>
    decreases n,
{
    if n < 10 {
        seq![digit_char(if n >= 0 {
            n
        } else {
            0
        })]
    } else {
        dec_digits(n / 10) + seq![digit_char(n % 10)]
    }
}

/// Appends a number in decimal to `out`, as `dec_digits` describes.
pub fn push_dec(out: &mut Vec<char>, n: u64)
    ensures
        final(out)@ == old(out)@ + dec_digits(n as int),
    decreases n,
{
    if n >= 10 {
        push_dec(out, n / 10);
        let d: u64 = n % 10;
        out.push(
            if d == 0 {
                '0'
            } else if d == 1 {
                '1'
            } else if d == 2 {
                '2'
            } else if d == 3 {
                '3'
            } else if d == 4 {
                '4'
            } else if d == 5 {
                '5'
            } else if d == 6 {
                '6'
            } else if d == 7 {
                '7'
            } else if d == 8 {
                '8'
            } else {
                '9'
            },
        );
        proof {
            assert(out@ =~= old(out)@ + dec_digits(n as int));
        }
    } else {
        let d: u64 = n;
        out.push(
            if d == 0 {
                '0'
            } else if d == 1 {
                '1'
            } else if d == 2 {
                '2'
            } else if d == 3 {
                '3'
            } else if d == 4 {
                '4'
            } else if d == 5 {
                '5'
            } else if d == 6 {
                '6'
            } else if d == 7 {
                '7'
            } else if d == 8 {
                '8'
            } else {
                '9'
            },
        );
        proof {
            assert(out@ =~= old(out)@ + dec_digits(n as int));
        }
    }
}

// ---------------------------------------------------------------------------
// The command guard of the exec tool.
// ---------------------------------------------------------------------------

/// Whether `needle` occurs contiguously in `hay`.
pub open spec fn contains_seq(hay: Seq<char>, needle: Seq<char>) -> bool {
    exists|k: int|
        0 <= k && k + needle.len() <= hay.len() && #[trigger] hay.subrange(k, k + needle.len())
            == needle
}

/// Whether `needle` occurs in `hay`, as `contains_seq` describes.
pub fn seq_contains_str(hay: &Vec<char>, needle: &str) -> (r: bool)
    ensures
        r == contains_seq(hay@, needle@),
{
    let m = needle.unicode_len();
    let n = hay.len();
    if m == 0 {
        proof {
            assert(hay@.subrange(0, 0 + needle@.len() as int) =~= needle@);
        }
        return true;
    }
    if m > n {
        proof {
            assert(!contains_seq(hay@, needle@));
        }
        return false;
    }
    let mut k: usize = 0;
    while k <= n - m
        invariant
            m == needle@.len(),
            n == hay@.len(),
            1 <= m <= n,
            k <= n - m + 1,
            forall|q: int|
                0 <= q < k ==> #[trigger] hay@.subrange(q, q + needle@.len()) != needle@,
        decreases n - m + 1 - k,
    {
        let mut j: usize = 0;
        let mut hit = true;
        while j < m && hit
            invariant
                m == needle@.len(),
                n == hay@.len(),
                k + m <= n,
                j <= m,
                hit ==> forall|p: int| 0 <= p < j ==> hay@[k + p] == needle@[p],
                !hit ==> hay@.subrange(k as int, k + needle@.len()) != needle@,
            decreases m - j + (if hit {
                1int
            } else {
                0int
            }),
        {
            if hay[k + j] != needle.get_char(j) {
                proof {
                    assert(hay@.subrange(k as int, k + needle@.len())[j as int] == hay@[k + j]);
                }
                hit = false;
            } else {
                j = j + 1;
            }
        }
        if hit {
            proof {
                assert(hay@.subrange(k as int, k + needle@.len()) =~= needle@);
            }
            return true;
        }
        k = k + 1;
    }
    proof {
        assert(!contains_seq(hay@, needle@)) by {
            if contains_seq(hay@, needle@) {
                let q = choose|q: int|
                    0 <= q && q + needle@.len() <= hay@.len() && #[trigger] hay@.subrange(
                        q,
                        q + needle@.len(),
                    ) == needle@;
                assert(q < k);
            }
        }
    }
    false
}

/// The patterns the exec tool refuses, matched against the lowercased
/// command.
pub open spec fn dangerous_patterns() -> Seq<Seq<char>> {
    seq![
        "rm -rf"@,
        "rm -r"@,
        "mkfs"@,
        "format"@,
        "dd if="@,
        "> /dev/sd"@,
        "shutdown"@,
        "reboot"@,
        ":(){ :|:& };:"@,
        "chmod -R"@,
        "chown -R"@,
    ]
}

/// The refusal text for a blocked command.
pub open spec fn blocked_text(pattern: Seq<char>) -> Seq<char> {
    "Security Error: Command blocked. Dangerous pattern '"@ + pattern + "' detected."@
}

fn blocked_message(pattern: &str) -> (r: String)
    ensures
        r@ == blocked_text(pattern@),
{
    let mut s = String::from_str("Security Error: Command blocked. Dangerous pattern '");
    s.append(pattern);
    s.append("' detected.");
    proof {
        assert(s@ =~= blocked_text(pattern@));
    }
    s
}

/// The exec tool's guard: the refusal text when the lowercased command
/// holds a dangerous pattern — the first of the list that occurs — and
/// nothing when none occurs.
pub fn guard_command(command: &str) -> (r: Option<String>)
    ensures
        match r {
            Some(msg) => exists|i: int|
                0 <= i < dangerous_patterns().len() && #[trigger] contains_seq(
                    lower_of(command@),
                    dangerous_patterns()[i],
                ) && msg@ == blocked_text(dangerous_patterns()[i]) && (forall|j: int|
                    0 <= j < i ==> !contains_seq(lower_of(command@), dangerous_patterns()[j])),
            None => forall|i: int|
                0 <= i < dangerous_patterns().len() ==> !#[trigger] contains_seq(
                    lower_of(command@),
                    dangerous_patterns()[i],
                ),
        },
{
    let lower = to_lowercase(command);
    let hay = str_to_chars(lower.as_str());
    let pats = dangerous_patterns_list();
    let mut i: usize = 0;
    while i < pats.len()
        invariant
            hay@ == lower_of(command@),
            pats@.map_values(|p: &str| p@) == dangerous_patterns(),
            pats@.len() == dangerous_patterns().len(),
            i <= pats@.len(),
            forall|j: int|
                0 <= j < i ==> !#[trigger] contains_seq(
                    lower_of(command@),
                    dangerous_patterns()[j],
                ),
        decreases pats@.len() - i,
    {
        proof {
            assert(dangerous_patterns()[i as int] == pats@[i as int]@);
        }
        if seq_contains_str(&hay, pats[i]) {
            return Some(blocked_message(pats[i]));
        }
        i = i + 1;
    }
    None
}

/// The refused patterns, in match order.
fn dangerous_patterns_list() -> (r: Vec<&'static str>)
    ensures
        r@.map_values(|p: &str| p@) == dangerous_patterns(),
{
    let mut r: Vec<&'static str> = Vec::new();
    r.push("rm -rf");
    r.push("rm -r");
    r.push("mkfs");
    r.push("format");
    r.push("dd if=");
    r.push("> /dev/sd");
    r.push("shutdown");
    r.push("reboot");
    r.push(":(){ :|:& };:");
    r.push("chmod -R");
    r.push("chown -R");
    proof {
        assert(r@.map_values(|p: &str| p@) =~= dangerous_patterns());
    }
    r
}

// ---------------------------------------------------------------------------
// Result formatting.
// ---------------------------------------------------------------------------

/// What the read tool reports: the content, with a truncation note when
/// the file exceeded the size limit.
pub fn read_file_report(content: &str, truncated: bool) -> (r: String)
    ensures
        truncated ==> r@ == content@ + "\n... (truncated: file exceeds 256KB safety limit)"@,
        !truncated ==> r@ == content@,
{
    let mut s = String::from_str(content);
    if truncated {
        s.append("\n... (truncated: file exceeds 256KB safety limit)");
    }
    s
}

/// One directory entry as a listing line.
pub open spec fn dir_entry_line(is_dir: bool, name: Seq<char>) -> Seq<char> {
    (if is_dir {
        "DIR:  "@
    } else {
        "FILE: "@
    }) + name + "\n"@
}

/// A directory listing, one line per entry, in the given order.
pub open spec fn dir_listing_text(entries: Seq<(bool, Seq<char>)>) -> Seq<char>
    decreases entries.len(),
{
    if entries.len() == 0 {
        Seq::<char>::empty()
    } else {
        dir_entry_line(entries[0].0, entries[0].1) + dir_listing_text(entries.drop_first())
    }
}

proof fn lemma_dir_listing_snoc(entries: Seq<(bool, Seq<char>)>, x: (bool, Seq<char>))
    ensures
        dir_listing_text(entries.push(x)) == dir_listing_text(entries) + dir_entry_line(x.0, x.1),
    decreases entries.len(),
{
    if entries.len() == 0 {
        assert(entries.push(x)[0] == x);
        assert(entries.push(x).drop_first() =~= Seq::<(bool, Seq<char>)>::empty());
        assert(dir_listing_text(entries.push(x)) == dir_entry_line(x.0, x.1) + dir_listing_text(
            Seq::<(bool, Seq<char>)>::empty(),
        ));
        assert(dir_listing_text(Seq::<(bool, Seq<char>)>::empty()) == Seq::<char>::empty());
        assert(dir_listing_text(entries) == Seq::<char>::empty());
        assert(dir_listing_text(entries.push(x)) =~= dir_listing_text(entries) + dir_entry_line(
            x.0,
            x.1,
        ));
    } else {
        assert(entries.push(x)[0] == entries[0]);
        assert(entries.push(x).drop_first() =~= entries.drop_first().push(x));
        lemma_dir_listing_snoc(entries.drop_first(), x);
        assert(dir_listing_text(entries.push(x)) =~= dir_listing_text(entries) + dir_entry_line(
            x.0,
            x.1,
        ));
    }
}

/// The entries as flags and names.
pub open spec fn entries_view(v: Vec<(bool, String)>) -> Seq<(bool, Seq<char>)> {
    v@.map_values(|e: (bool, String)| (e.0, e.1@))
}

/// Renders a directory listing, as `dir_listing_text` describes. The
/// driver reads the directory and hands each entry's kind and name.
pub fn format_dir_listing(entries: &Vec<(bool, String)>) -> (r: String)
    ensures
        r@ == dir_listing_text(entries_view(*entries)),
{
    let ghost ev = entries_view(*entries);
    let mut s = String::new();
    let mut i: usize = 0;
    while i < entries.len()
        invariant
            i <= entries@.len(),
            ev == entries_view(*entries),
            ev.len() == entries@.len(),
            s@ == dir_listing_text(ev.subrange(0, i as int)),
        decreases entries@.len() - i,
    {
        let ghost done = ev.subrange(0, i as int);
        proof {
            assert(ev[i as int] == (entries@[i as int].0, entries@[i as int].1@));
        }
        if entries[i].0 {
            s.append("DIR:  ");
        } else {
            s.append("FILE: ");
        }
        s.append(entries[i].1.as_str());
        s.append("\n");
        proof {
            lemma_dir_listing_snoc(done, ev[i as int]);
            assert(done.push(ev[i as int]) =~= ev.subrange(0, i + 1));
            assert(s@ =~= dir_listing_text(ev.subrange(0, i + 1)));
        }
        i = i + 1;
    }
    proof {
        assert(ev.subrange(0, ev.len() as int) =~= ev);
    }
    s
}

/// One web search result, as plain values.
#[derive(Debug)]
pub struct SearchResult {
    pub title: String,
    pub url: String,
    pub description: String,
}

/// Mathematical model of a `SearchResult`.
#[verifier::ext_equal]
pub ghost struct SearchResultView {
    pub title: Seq<char>,
    pub url: Seq<char>,
    pub description: Seq<char>,
}

impl View for SearchResult {
    type V = SearchResultView;

    open spec fn view(&self) -> SearchResultView {
        SearchResultView {
            title: self.title@,
            url: self.url@,
            description: self.description@,
        }
    }
}

/// One search result as a numbered block.
pub open spec fn search_result_text(number: int, r: SearchResultView) -> Seq<char> {
    dec_digits(number) + ". "@ + r.title + "\n   "@ + r.url + "\n   "@ + r.description + "\n"@
}

/// The numbered result blocks, numbers counting up from `number`.
pub open spec fn search_results_from(rs: Seq<SearchResultView>, number: int) -> Seq<char>
    decreases rs.len(),
{
    if rs.len() == 0 {
        Seq::<char>::empty()
    } else {
        search_result_text(number, rs[0]) + search_results_from(rs.drop_first(), number + 1)
    }
}

/// A whole search report for a query.
pub open spec fn search_report_text(query: Seq<char>, rs: Seq<SearchResultView>) -> Seq<char> {
    "Results for: "@ + query + "\n"@ + search_results_from(rs, 1)
}

proof fn lemma_search_results_snoc(rs: Seq<SearchResultView>, x: SearchResultView, number: int)
    ensures
        search_results_from(rs.push(x), number) == search_results_from(rs, number)
            + search_result_text(number + rs.len(), x),
    decreases rs.len(),
{
    if rs.len() == 0 {
        assert(rs.push(x)[0] == x);
        assert(rs.push(x).drop_first() =~= Seq::<SearchResultView>::empty());
        assert(search_results_from(rs.push(x), number) == search_result_text(number, x)
            + search_results_from(Seq::<SearchResultView>::empty(), number + 1));
        assert(search_results_from(Seq::<SearchResultView>::empty(), number + 1)
            == Seq::<char>::empty());
        assert(search_results_from(rs, number) == Seq::<char>::empty());
        assert(search_results_from(rs.push(x), number) =~= search_results_from(rs, number)
            + search_result_text(number, x));
    } else {
        assert(rs.push(x)[0] == rs[0]);
        assert(rs.push(x).drop_first() =~= rs.drop_first().push(x));
        lemma_search_results_snoc(rs.drop_first(), x, number + 1);
        assert(search_results_from(rs.push(x), number) =~= search_results_from(rs, number)
            + search_result_text(number + rs.len(), x));
    }
}

/// The results as views.
pub open spec fn results_view(v: Vec<SearchResult>) -> Seq<SearchResultView> {
    v@.map_values(|r: SearchResult| r@)
}

/// Renders a search report, as `search_report_text` describes: the query
/// line, then each result numbered from 1 with its title, url and
/// description. The driver performs the search and hands the parsed
/// results.
pub fn format_search_results(query: &str, results: &Vec<SearchResult>) -> (r: String)
    requires
        results@.len() < usize::MAX,
    ensures
        r@ == search_report_text(query@, results_view(*results)),
{
    let ghost rv = results_view(*results);
    let mut s = String::from_str("Results for: ");
    s.append(query);
    s.append("\n");
    let ghost base = s@;
    let mut i: usize = 0;
    while i < results.len()
        invariant
            i <= results@.len(),
            rv == results_view(*results),
            rv.len() == results@.len(),
            rv.len() < usize::MAX,
            base == "Results for: "@ + query@ + "\n"@,
            s@ == base + search_results_from(rv.subrange(0, i as int), 1),
        decreases results@.len() - i,
    {
        let ghost done = rv.subrange(0, i as int);
        proof {
            assert(rv[i as int] == results@[i as int]@);
        }
        let mut num: Vec<char> = Vec::new();
        push_dec(&mut num, (i + 1) as u64);
        let number = crate::strutil::chars_to_string(&num);
        s.append(number.as_str());
        s.append(". ");
        s.append(results[i].title.as_str());
        s.append("\n   ");
        s.append(results[i].url.as_str());
        s.append("\n   ");
        s.append(results[i].description.as_str());
        s.append("\n");
        proof {
            lemma_search_results_snoc(done, rv[i as int], 1);
            assert(done.push(rv[i as int]) =~= rv.subrange(0, i + 1));
            assert(s@ =~= base + search_results_from(rv.subrange(0, i + 1), 1));
        }
        i = i + 1;
    }
    proof {
        assert(rv.subrange(0, rv.len() as int) =~= rv);
        assert(s@ =~= search_report_text(query@, rv));
    }
    s
}

// ---------------------------------------------------------------------------
// The fetched-page text extraction.
// ---------------------------------------------------------------------------

/// Index of the first occurrence of `c`, or the length if none.
pub open spec fn first_index_of(s: Seq<char>, c: char) -> int
    decreases s.len(),
{
    if s.len() == 0 {
        0
    } else if s[0] == c {
        0
    } else {
        1 + first_index_of(s.drop_first(), c)
    }
}

proof fn lemma_first_index_of(s: Seq<char>, c: char)
    ensures
        0 <= first_index_of(s, c) <= s.len(),
        forall|j: int| 0 <= j < first_index_of(s, c) ==> #[trigger] s[j] != c,
        first_index_of(s, c) < s.len() ==> s[first_index_of(s, c)] == c,
    decreases s.len(),
{
    if s.len() == 0 {
    } else if s[0] == c {
    } else {
        lemma_first_index_of(s.drop_first(), c);
        assert forall|j: int| 0 <= j < first_index_of(s, c) implies #[trigger] s[j] != c by {
            if j >= 1 {
                assert(s[j] == s.drop_first()[j - 1]);
                assert(s.drop_first()[j - 1] != c);
            }
        }
    }
}

/// Index of the last occurrence of `c`, or `-1` if none.
pub open spec fn last_index_of(s: Seq<char>, c: char) -> int
    decreases s.len(),
{
    if s.len() == 0 {
        -1
    } else if s.last() == c {
        s.len() - 1
    } else {
        last_index_of(s.drop_last(), c)
    }
}

proof fn lemma_last_index_of(s: Seq<char>, c: char)
    ensures
        -1 <= last_index_of(s, c) < s.len(),
        last_index_of(s, c) >= 0 ==> s[last_index_of(s, c)] == c,
        forall|j: int| last_index_of(s, c) < j < s.len() ==> #[trigger] s[j] != c,
    decreases s.len(),
{
    if s.len() == 0 {
    } else if s.last() == c {
    } else {
        lemma_last_index_of(s.drop_last(), c);
        assert forall|j: int| last_index_of(s, c) < j < s.len() implies #[trigger] s[j] != c by {
            if j < s.len() - 1 {
                assert(s[j] == s.drop_last()[j]);
                assert(s.drop_last()[j] != c);
            }
        }
    }
}

/// The text split at every occurrence of `c`; empty segments are kept.
pub open spec fn split_char(s: Seq<char>, c: char) -> Seq<Seq<char>>
    decreases s.len(),
{
    let k = first_index_of(s, c);
    if 0 <= k < s.len() {
        seq![s.subrange(0, k)] + split_char(s.subrange(k + 1, s.len() as int), c)
    } else {
        seq![s]
    }
}

/// What follows the last `>` of a segment: the part kept when markup is
/// stripped.
pub open spec fn after_tag(s: Seq<char>) -> Seq<char> {
    s.subrange(last_index_of(s, '>') + 1, s.len() as int)
}

/// Pieces joined by single spaces; empty pieces are joined too.
pub open spec fn join_spaces(xs: Seq<Seq<char>>) -> Seq<char>
    decreases xs.len(),
{
    if xs.len() == 0 {
        Seq::<char>::empty()
    } else if xs.len() == 1 {
        xs[0]
    } else {
        xs[0] + " "@ + join_spaces(xs.drop_first())
    }
}

/// What the fetch tool reports of a page: the text between the markup
/// brackets (each `<`-segment reduced to what follows its last `>`),
/// whitespace collapsed to single spaces, cut off with a note past
/// `FETCH_LIMIT` characters.
pub open spec fn fetched_page_text(s: Seq<char>) -> Seq<char> {
    let detagged = join_spaces(split_char(s, '<').map_values(|seg: Seq<char>| after_tag(seg)));
    let collapsed = join_spaces(ws_split(detagged));
    if collapsed.len() > FETCH_LIMIT {
        collapsed.subrange(0, FETCH_LIMIT as int) + "... (truncated)"@
    } else {
        collapsed
    }
}

proof fn lemma_join_spaces_snoc(xs: Seq<Seq<char>>, x: Seq<char>)
    requires
        xs.len() >= 1,
    ensures
        join_spaces(xs.push(x)) == join_spaces(xs) + " "@ + x,
    decreases xs.len(),
{
    if xs.len() == 1 {
        assert(xs.push(x)[0] == xs[0]);
        assert(xs.push(x).drop_first() =~= seq![x]);
        assert(join_spaces(seq![x]) == x);
    } else {
        assert(xs.push(x)[0] == xs[0]);
        assert(xs.push(x).drop_first() =~= xs.drop_first().push(x));
        lemma_join_spaces_snoc(xs.drop_first(), x);
        assert(xs[0] + " "@ + (join_spaces(xs.drop_first()) + " "@ + x) =~= (xs[0] + " "@
            + join_spaces(xs.drop_first())) + " "@ + x);
    }
}

/// Splits `v` from `pos` on at every `<`.
fn split_char_from(v: &Vec<char>, pos: usize) -> (r: Vec<Vec<char>>)
    requires
        pos <= v@.len(),
    ensures
        r@.map_values(|f: Vec<char>| f@) == split_char(
            v@.subrange(pos as int, v@.len() as int),
            '<',
        ),
        r@.len() >= 1,
    decreases v@.len() - pos,
{
    let ghost s = v@.subrange(pos as int, v@.len() as int);
    let mut k: usize = pos;
    while k < v.len() && v[k] != '<'
        invariant
            pos <= k <= v@.len(),
            forall|j: int| pos <= j < k ==> #[trigger] v@[j] != '<',
        decreases v@.len() - k,
    {
        k = k + 1;
    }
    proof {
        lemma_first_index_of(s, '<');
        assert(forall|j: int| 0 <= j < k - pos ==> s[j] == #[trigger] v@[pos + j]);
        assert(first_index_of(s, '<') == k - pos) by {
            if first_index_of(s, '<') < k - pos {
                assert(s[first_index_of(s, '<')] == '<');
                assert(v@[pos + first_index_of(s, '<')] != '<');
            }
            if first_index_of(s, '<') > k - pos {
                assert(k < v@.len());
                assert(v@[k as int] == '<');
                assert(s[k - pos] != '<');
            }
        }
    }
    let mut seg: Vec<char> = Vec::new();
    let mut j: usize = pos;
    while j < k
        invariant
            pos <= j <= k <= v@.len(),
            seg@ =~= v@.subrange(pos as int, j as int),
        decreases k - j,
    {
        seg.push(v[j]);
        proof {
            assert(seg@ =~= v@.subrange(pos as int, j + 1));
        }
        j = j + 1;
    }
    if k == v.len() {
        let ghost segv = seg@;
        let mut r: Vec<Vec<char>> = Vec::new();
        r.push(seg);
        proof {
            assert(segv =~= s);
            assert(r@.map_values(|f: Vec<char>| f@) =~= seq![s]);
        }
        r
    } else {
        let mut rest = split_char_from(v, k + 1);
        let ghost rest_old = rest@;
        let ghost restv = rest@.map_values(|f: Vec<char>| f@);
        let ghost segv = seg@;
        let mut r: Vec<Vec<char>> = Vec::new();
        r.push(seg);
        let ghost rpre = r@;
        r.append(&mut rest);
        proof {
            assert(v@.subrange(k + 1, v@.len() as int) =~= s.subrange(
                k - pos + 1,
                s.len() as int,
            ));
            assert(segv =~= s.subrange(0, k - pos));
            let target = seq![s.subrange(0, k - pos)] + split_char(
                s.subrange(k - pos + 1, s.len() as int),
                '<',
            );
            assert(split_char(s, '<') == target);
            assert(r@ == rpre + rest_old);
            assert forall|i: int|
                0 <= i < r@.len() implies r@.map_values(|f: Vec<char>| f@)[i] == #[trigger] target[i] by {
                assert(r@.map_values(|f: Vec<char>| f@)[i] == r@[i]@);
                if i == 0 {
                    assert(r@[0] == rpre[0]);
                } else {
                    assert(r@[i] == rest_old[i - 1]);
                    assert(restv[i - 1] == rest_old[i - 1]@);
                }
            }
            assert(r@.map_values(|f: Vec<char>| f@) =~= target);
        }
        r
    }
}

/// The part of a segment after its last `>`, as `after_tag` describes.
fn after_tag_of(seg: &Vec<char>) -> (r: Vec<char>)
    ensures
        r@ == after_tag(seg@),
{
    let mut k: usize = seg.len();
    while k > 0 && seg[k - 1] != '>'
        invariant
            k <= seg@.len(),
            forall|j: int| k <= j < seg@.len() ==> #[trigger] seg@[j] != '>',
        decreases k,
    {
        k = k - 1;
    }
    proof {
        lemma_last_index_of(seg@, '>');
        assert(last_index_of(seg@, '>') == k - 1) by {
            if last_index_of(seg@, '>') > k - 1 {
                assert(seg@[last_index_of(seg@, '>')] == '>');
            }
            if last_index_of(seg@, '>') < k - 1 {
                assert(k >= 1);
                assert(seg@[k - 1] == '>');
                assert(last_index_of(seg@, '>') < k - 1 < seg@.len());
            }
        }
    }
    let mut r: Vec<char> = Vec::new();
    let mut j: usize = k;
    while j < seg.len()
        invariant
            k <= j <= seg@.len(),
            r@ =~= seg@.subrange(k as int, j as int),
        decreases seg@.len() - j,
    {
        r.push(seg[j]);
        proof {
            assert(r@ =~= seg@.subrange(k as int, j + 1));
        }
        j = j + 1;
    }
    proof {
        assert(r@ =~= after_tag(seg@));
    }
    r
}

/// Joins pieces with single spaces, as `join_spaces` describes.
fn join_with_spaces(pieces: &Vec<Vec<char>>) -> (r: Vec<char>)
    ensures
        r@ == join_spaces(pieces@.map_values(|f: Vec<char>| f@)),
{
    let ghost pv = pieces@.map_values(|f: Vec<char>| f@);
    let mut out: Vec<char> = Vec::new();
    let mut i: usize = 0;
    while i < pieces.len()
        invariant
            i <= pieces@.len(),
            pv == pieces@.map_values(|f: Vec<char>| f@),
            pv.len() == pieces@.len(),
            out@ == join_spaces(pv.subrange(0, i as int)),
        decreases pieces@.len() - i,
    {
        let ghost done = pv.subrange(0, i as int);
        proof {
            assert(pv[i as int] == pieces@[i as int]@);
        }
        if i > 0 {
            push_lit(&mut out, " ");
        }
        let piece = &pieces[i];
        let mut j: usize = 0;
        let ghost mid = out@;
        while j < piece.len()
            invariant
                j <= piece@.len(),
                out@ =~= mid + piece@.subrange(0, j as int),
            decreases piece@.len() - j,
        {
            out.push(piece[j]);
            proof {
                assert(out@ =~= mid + piece@.subrange(0, j + 1));
            }
            j = j + 1;
        }
        proof {
            assert(piece@.subrange(0, piece@.len() as int) =~= piece@);
            assert(done.push(pv[i as int]) =~= pv.subrange(0, i + 1));
            if i == 0 {
                assert(join_spaces(pv.subrange(0, 1)) == pv.subrange(0, 1)[0]);
                assert(out@ =~= join_spaces(pv.subrange(0, 1)));
            } else {
                lemma_join_spaces_snoc(done, pv[i as int]);
                assert(out@ =~= join_spaces(pv.subrange(0, i + 1)));
            }
        }
        i = i + 1;
    }
    proof {
        assert(pv.subrange(0, pv.len() as int) =~= pv);
    }
    out
}

/// Extracts a page's readable text, as `fetched_page_text` describes.
pub fn web_fetch_text(page: &str) -> (r: String)
    ensures
        r@ == fetched_page_text(page@),
{
    let chars = str_to_chars(page);
    proof {
        assert(chars@.subrange(0, chars@.len() as int) =~= page@);
    }
    let segs = split_char_from(&chars, 0);
    let ghost segv = segs@.map_values(|f: Vec<char>| f@);
    let mut pieces: Vec<Vec<char>> = Vec::new();
    let mut i: usize = 0;
    while i < segs.len()
        invariant
            i <= segs@.len(),
            segv == segs@.map_values(|f: Vec<char>| f@),
            segv.len() == segs@.len(),
            pieces@.len() == i,
            forall|j: int| 0 <= j < i ==> #[trigger] pieces@[j]@ == after_tag(segv[j]),
        decreases segs@.len() - i,
    {
        proof {
            assert(segv[i as int] == segs@[i as int]@);
        }
        pieces.push(after_tag_of(&segs[i]));
        i = i + 1;
    }
    proof {
        assert(pieces@.map_values(|f: Vec<char>| f@) =~= segv.map_values(
            |seg: Seq<char>| after_tag(seg),
        ));
    }
    let detagged = join_with_spaces(&pieces);
    proof {
        assert(detagged@.subrange(0, detagged@.len() as int) =~= detagged@);
    }
    let fields = ws_split_from(&detagged, 0);
    let collapsed = join_with_spaces(&fields);
    if collapsed.len() > FETCH_LIMIT {
        let mut cut: Vec<char> = Vec::new();
        let mut j: usize = 0;
        while j < FETCH_LIMIT
            invariant
                j <= FETCH_LIMIT,
                FETCH_LIMIT <= collapsed@.len(),
                cut@ =~= collapsed@.subrange(0, j as int),
            decreases FETCH_LIMIT - j,
        {
            cut.push(collapsed[j]);
            proof {
                assert(cut@ =~= collapsed@.subrange(0, j + 1));
            }
            j = j + 1;
        }
        push_lit(&mut cut, "... (truncated)");
        proof {
            assert(cut@ =~= fetched_page_text(page@));
        }
        chars_to_string(&cut)
    } else {
        chars_to_string(&collapsed)
    }
}

// ---------------------------------------------------------------------------
// The declared tools.
// ---------------------------------------------------------------------------

/// Reads a file's contents, up to `READ_LIMIT` bytes.
#[derive(Debug)]
pub struct ReadFileTool;

/// Writes content to a file.
#[derive(Debug)]
pub struct WriteFileTool;

/// Lists the entries of a directory.
#[derive(Debug)]
pub struct ListDirTool;

/// Runs a shell command in the workspace, refusing dangerous patterns.
#[derive(Debug)]
pub struct ExecTool {
    pub working_dir: String,
}

/// Searches the web.
#[derive(Debug)]
pub struct WebSearchTool {
    pub api_key: String,
    pub max_results: usize,
}

/// Fetches a page's text.
#[derive(Debug)]
pub struct WebFetchTool;

/// Reports process and system memory figures.
#[derive(Debug)]
pub struct SysInfoTool;

impl ReadFileTool {
    pub fn name(&self) -> (r: &'static str)
        ensures
            r@ == "read_file"@,
    {
        "read_file"
    }

    pub fn description(&self) -> (r: &'static str)
        ensures
            r@ == "Read the contents of a file (limit 256KB for safety)"@,
    {
        "Read the contents of a file (limit 256KB for safety)"
    }

    pub fn parameters(&self) -> (r: &'static str)
        ensures
            r@
                == "{\"type\":\"object\",\"properties\":{\"path\":{\"type\":\"string\",\"description\":\"Path to the file to read\"}},\"required\":[\"path\"]}"@,
    {
        "{\"type\":\"object\",\"properties\":{\"path\":{\"type\":\"string\",\"description\":\"Path to the file to read\"}},\"required\":[\"path\"]}"
    }

    /// This tool as a registry entry.
    pub fn definition(&self) -> (r: ToolDefinition)
        ensures
            r@.function.name == "read_file"@,
            r@.function.description == "Read the contents of a file (limit 256KB for safety)"@,
            r@.function.parameters
                == "{\"type\":\"object\",\"properties\":{\"path\":{\"type\":\"string\",\"description\":\"Path to the file to read\"}},\"required\":[\"path\"]}"@,
    {
        ToolDefinition {
            function: FunctionDefinition {
                name: String::from_str(self.name()),
                description: String::from_str(self.description()),
                parameters: String::from_str(self.parameters()),
            },
        }
    }
}

impl WriteFileTool {
    pub fn name(&self) -> (r: &'static str)
        ensures
            r@ == "write_file"@,
    {
        "write_file"
    }

    pub fn description(&self) -> (r: &'static str)
        ensures
            r@ == "Write content to a file"@,
    {
        "Write content to a file"
    }

    pub fn parameters(&self) -> (r: &'static str)
        ensures
            r@
                == "{\"type\":\"object\",\"properties\":{\"path\":{\"type\":\"string\",\"description\":\"Path to the file to write\"},\"content\":{\"type\":\"string\",\"description\":\"Content to write to the file\"}},\"required\":[\"path\",\"content\"]}"@,
    {
        "{\"type\":\"object\",\"properties\":{\"path\":{\"type\":\"string\",\"description\":\"Path to the file to write\"},\"content\":{\"type\":\"string\",\"description\":\"Content to write to the file\"}},\"required\":[\"path\",\"content\"]}"
    }

    /// This tool as a registry entry.
    pub fn definition(&self) -> (r: ToolDefinition)
        ensures
            r@.function.name == "write_file"@,
            r@.function.description == "Write content to a file"@,
            r@.function.parameters
                == "{\"type\":\"object\",\"properties\":{\"path\":{\"type\":\"string\",\"description\":\"Path to the file to write\"},\"content\":{\"type\":\"string\",\"description\":\"Content to write to the file\"}},\"required\":[\"path\",\"content\"]}"@,
    {
        ToolDefinition {
            function: FunctionDefinition {
                name: String::from_str(self.name()),
                description: String::from_str(self.description()),
                parameters: String::from_str(self.parameters()),
            },
        }
    }
}

impl ListDirTool {
    pub fn name(&self) -> (r: &'static str)
        ensures
            r@ == "list_dir"@,
    {
        "list_dir"
    }

    pub fn description(&self) -> (r: &'static str)
        ensures
            r@ == "List files and directories in a path"@,
    {
        "List files and directories in a path"
    }

    pub fn parameters(&self) -> (r: &'static str)
        ensures
            r@
                == "{\"type\":\"object\",\"properties\":{\"path\":{\"type\":\"string\",\"description\":\"Path to list\"}},\"required\":[\"path\"]}"@,
    {
        "{\"type\":\"object\",\"properties\":{\"path\":{\"type\":\"string\",\"description\":\"Path to list\"}},\"required\":[\"path\"]}"
    }

    /// This tool as a registry entry.
    pub fn definition(&self) -> (r: ToolDefinition)
        ensures
            r@.function.name == "list_dir"@,
            r@.function.description == "List files and directories in a path"@,
            r@.function.parameters
                == "{\"type\":\"object\",\"properties\":{\"path\":{\"type\":\"string\",\"description\":\"Path to list\"}},\"required\":[\"path\"]}"@,
    {
        ToolDefinition {
            function: FunctionDefinition {
                name: String::from_str(self.name()),
                description: String::from_str(self.description()),
                parameters: String::from_str(self.parameters()),
            },
        }
    }
}

impl ExecTool {
    pub fn name(&self) -> (r: &'static str)
        ensures
            r@ == "exec"@,
    {
        "exec"
    }

    pub fn description(&self) -> (r: &'static str)
        ensures
            r@ == "Execute a shell command (blocked: rm -rf, format, etc)"@,
    {
        "Execute a shell command (blocked: rm -rf, format, etc)"
    }

    pub fn parameters(&self) -> (r: &'static str)
        ensures
            r@
                == "{\"type\":\"object\",\"properties\":{\"command\":{\"type\":\"string\",\"description\":\"The shell command to execute\"}},\"required\":[\"command\"]}"@,
    {
        "{\"type\":\"object\",\"properties\":{\"command\":{\"type\":\"string\",\"description\":\"The shell command to execute\"}},\"required\":[\"command\"]}"
    }

    /// This tool as a registry entry.
    pub fn definition(&self) -> (r: ToolDefinition)
        ensures
            r@.function.name == "exec"@,
            r@.function.description == "Execute a shell command (blocked: rm -rf, format, etc)"@,
            r@.function.parameters
                == "{\"type\":\"object\",\"properties\":{\"command\":{\"type\":\"string\",\"description\":\"The shell command to execute\"}},\"required\":[\"command\"]}"@,
    {
        ToolDefinition {
            function: FunctionDefinition {
                name: String::from_str(self.name()),
                description: String::from_str(self.description()),
                parameters: String::from_str(self.parameters()),
            },
        }
    }

    /// The guard run before the command, see `guard_command`.
    pub fn guard(&self, command: &str) -> (r: Option<String>)
        ensures
            r is Some <==> exists|i: int|
                0 <= i < dangerous_patterns().len() && #[trigger] contains_seq(
                    lower_of(command@),
                    dangerous_patterns()[i],
                ),
    {
        guard_command(command)
    }
}

impl WebSearchTool {
    pub fn name(&self) -> (r: &'static str)
        ensures
            r@ == "web_search"@,
    {
        "web_search"
    }

    pub fn description(&self) -> (r: &'static str)
        ensures
            r@ == "Search the web using Brave Search API"@,
    {
        "Search the web using Brave Search API"
    }

    pub fn parameters(&self) -> (r: &'static str)
        ensures
            r@
                == "{\"type\":\"object\",\"properties\":{\"query\":{\"type\":\"string\",\"description\":\"Search query\"},\"count\":{\"type\":\"integer\",\"description\":\"Number of results\",\"minimum\":1,\"maximum\":10}},\"required\":[\"query\"]}"@,
    {
        "{\"type\":\"object\",\"properties\":{\"query\":{\"type\":\"string\",\"description\":\"Search query\"},\"count\":{\"type\":\"integer\",\"description\":\"Number of results\",\"minimum\":1,\"maximum\":10}},\"required\":[\"query\"]}"
    }

    /// This tool as a registry entry.
    pub fn definition(&self) -> (r: ToolDefinition)
        ensures
            r@.function.name == "web_search"@,
            r@.function.description == "Search the web using Brave Search API"@,
            r@.function.parameters
                == "{\"type\":\"object\",\"properties\":{\"query\":{\"type\":\"string\",\"description\":\"Search query\"},\"count\":{\"type\":\"integer\",\"description\":\"Number of results\",\"minimum\":1,\"maximum\":10}},\"required\":[\"query\"]}"@,
    {
        ToolDefinition {
            function: FunctionDefinition {
                name: String::from_str(self.name()),
                description: String::from_str(self.description()),
                parameters: String::from_str(self.parameters()),
            },
        }
    }
}

impl WebFetchTool {
    pub fn name(&self) -> (r: &'static str)
        ensures
            r@ == "web_fetch"@,
    {
        "web_fetch"
    }

    pub fn description(&self) -> (r: &'static str)
        ensures
            r@ == "Fetch content from a URL"@,
    {
        "Fetch content from a URL"
    }

    pub fn parameters(&self) -> (r: &'static str)
        ensures
            r@
                == "{\"type\":\"object\",\"properties\":{\"url\":{\"type\":\"string\",\"description\":\"URL to fetch\"}},\"required\":[\"url\"]}"@,
    {
        "{\"type\":\"object\",\"properties\":{\"url\":{\"type\":\"string\",\"description\":\"URL to fetch\"}},\"required\":[\"url\"]}"
    }

    /// This tool as a registry entry.
    pub fn definition(&self) -> (r: ToolDefinition)
        ensures
            r@.function.name == "web_fetch"@,
            r@.function.description == "Fetch content from a URL"@,
            r@.function.parameters
                == "{\"type\":\"object\",\"properties\":{\"url\":{\"type\":\"string\",\"description\":\"URL to fetch\"}},\"required\":[\"url\"]}"@,
    {
        ToolDefinition {
            function: FunctionDefinition {
                name: String::from_str(self.name()),
                description: String::from_str(self.description()),
                parameters: String::from_str(self.parameters()),
            },
        }
    }
}

impl SysInfoTool {
    pub fn name(&self) -> (r: &'static str)
        ensures
            r@ == "get_sys_info"@,
    {
        "get_sys_info"
    }

    pub fn description(&self) -> (r: &'static str)
        ensures
            r@ == "Get real-time system and process memory info (RSS)"@,
    {
        "Get real-time system and process memory info (RSS)"
    }

    pub fn parameters(&self) -> (r: &'static str)
        ensures
            r@ == "{}"@,
    {
        "{}"
    }

    /// This tool as a registry entry.
    pub fn definition(&self) -> (r: ToolDefinition)
        ensures
            r@.function.name == "get_sys_info"@,
            r@.function.description == "Get real-time system and process memory info (RSS)"@,
            r@.function.parameters
                == "{}"@,
    {
        ToolDefinition {
            function: FunctionDefinition {
                name: String::from_str(self.name()),
                description: String::from_str(self.description()),
                parameters: String::from_str(self.parameters()),
            },
        }
    }
}

} // verus!
