//! Channel-adapter logic: sender authorization, the delivery chunker, and
//! the progressively-plainer formatting ladder. The transport itself (long
//! polling, HTTP) lives outside the crate; everything decided here is
//! verified.

use vstd::prelude::*;
use crate::strutil::{chars_to_string, is_ws, is_ws_exec, str_eq, str_to_chars};

verus! {

/// `chunks[i]` is `text[cuts[i].0 .. cuts[i].1]`: the chunks are disjoint
/// pieces of the text, in order, and every character of the text between
/// and around them is whitespace. Concatenating the chunks therefore
/// reproduces the text up to whitespace dropped at chunk boundaries.
pub open spec fn is_chunking(text: Seq<char>, chunks: Seq<Seq<char>>, cuts: Seq<(int, int)>) -> bool {
    &&& cuts.len() == chunks.len()
    &&& (forall|i: int|
        0 <= i < cuts.len() ==> 0 <= #[trigger] cuts[i].0 <= cuts[i].1 <= text.len())
    &&& (forall|i: int|
        0 <= i < cuts.len() ==> #[trigger] chunks[i] == text.subrange(cuts[i].0, cuts[i].1))
    &&& (forall|i: int| 0 <= i < cuts.len() - 1 ==> #[trigger] cuts[i].1 <= cuts[i + 1].0)
    &&& (cuts.len() == 0 ==> (forall|j: int| 0 <= j < text.len() ==> is_ws(#[trigger] text[j])))
    &&& (cuts.len() > 0 ==> (forall|j: int| 0 <= j < cuts[0].0 ==> is_ws(#[trigger] text[j])))
    &&& (cuts.len() > 0 ==> (forall|i: int, j: int|
        #![trigger cuts[i], text[j]]
        0 <= i < cuts.len() - 1 && cuts[i].1 <= j < cuts[i + 1].0 ==> is_ws(text[j])))
    &&& (cuts.len() > 0 ==> (forall|j: int|
        cuts[cuts.len() - 1].1 <= j < text.len() ==> is_ws(#[trigger] text[j])))
}

/// Like `is_chunking`, but only the part of the text before `upto` is
/// accounted for; the loop invariant of the chunker.
spec fn chunked_upto(text: Seq<char>, chunks: Seq<Seq<char>>, cuts: Seq<(int, int)>, upto: int) -> bool {
    &&& cuts.len() == chunks.len()
    &&& (forall|i: int|
        0 <= i < cuts.len() ==> 0 <= #[trigger] cuts[i].0 <= cuts[i].1 <= upto)
    &&& (forall|i: int|
        0 <= i < cuts.len() ==> #[trigger] chunks[i] == text.subrange(cuts[i].0, cuts[i].1))
    &&& (forall|i: int| 0 <= i < cuts.len() - 1 ==> #[trigger] cuts[i].1 <= cuts[i + 1].0)
    &&& (cuts.len() == 0 ==> (forall|j: int| 0 <= j < upto ==> is_ws(#[trigger] text[j])))
    &&& (cuts.len() > 0 ==> (forall|j: int| 0 <= j < cuts[0].0 ==> is_ws(#[trigger] text[j])))
    &&& (cuts.len() > 0 ==> (forall|i: int, j: int|
        #![trigger cuts[i], text[j]]
        0 <= i < cuts.len() - 1 && cuts[i].1 <= j < cuts[i + 1].0 ==> is_ws(text[j])))
    &&& (cuts.len() > 0 ==> (forall|j: int|
        cuts[cuts.len() - 1].1 <= j < upto ==> is_ws(#[trigger] text[j])))
}

/// The chunk list as a sequence of texts.
pub open spec fn chunk_views(v: Vec<String>) -> Seq<Seq<char>> {
    v@.map_values(|s: String| s@)
}

/// Index of the first non-whitespace character in `[from, to)`, or `to`.
pub open spec fn skip_ws(s: Seq<char>, from: int, to: int) -> int
    decreases to - from when from <= to
{
    if from < to && is_ws(s[from]) {
        skip_ws(s, from + 1, to)
    } else {
        from
    }
}

/// End of the trimmed content of `[from, to)`: the index after its last
/// non-whitespace character, or `from` when it is all whitespace.
pub open spec fn trim_end_idx(s: Seq<char>, from: int, to: int) -> int
    decreases to - from when from <= to
{
    if to > from && is_ws(s[to - 1]) {
        trim_end_idx(s, from, to - 1)
    } else {
        to
    }
}

/// Index of the last newline in `[from, to)`, or `-1` when there is none.
pub open spec fn last_nl(s: Seq<char>, from: int, to: int) -> int
    decreases to - from when from <= to
{
    if to <= from {
        -1
    } else if s[to - 1] == '\n' {
        to - 1
    } else {
        last_nl(s, from, to - 1)
    }
}

/// Where the piece beginning at `start` ends: at the end of a remainder
/// that fits; otherwise at the size limit — or at the last newline of the
/// limited piece, when that newline lies past three quarters of the limit.
pub open spec fn piece_end(s: Seq<char>, max: int, start: int) -> int {
    if s.len() - start <= max {
        s.len() as int
    } else {
        let nl = last_nl(s, start, start + max);
        if nl >= 0 && nl - start > max * 3 / 4 {
            nl
        } else {
            start + max
        }
    }
}

/// The chunks of `s` from `start` on: each piece ends where `piece_end`
/// says, is trimmed of boundary whitespace and kept only when something
/// remains; the next piece begins at the next non-whitespace character.
pub open spec fn spec_chunks(s: Seq<char>, max: int, start: int) -> Seq<Seq<char>>
    decreases s.len() - start when 0 <= start && max > 0
{
    if start >= s.len() {
        Seq::<Seq<char>>::empty()
    } else {
        let end = piece_end(s, max, start);
        let ts = skip_ws(s, start, end);
        let te = trim_end_idx(s, ts, end);
        let next = skip_ws(s, end, s.len() as int);
        (if ts < te {
            seq![s.subrange(ts, te)]
        } else {
            Seq::<Seq<char>>::empty()
        }) + (if start < next <= s.len() {
            spec_chunks(s, max, next)
        } else {
            Seq::<Seq<char>>::empty()
        })
    }
}

proof fn lemma_skip_ws(s: Seq<char>, from: int, to: int)
    requires
        0 <= from <= to <= s.len(),
    ensures
        from <= skip_ws(s, from, to) <= to,
        forall|j: int| from <= j < skip_ws(s, from, to) ==> is_ws(#[trigger] s[j]),
        skip_ws(s, from, to) < to ==> !is_ws(s[skip_ws(s, from, to)]),
    decreases to - from,
{
    if from < to && is_ws(s[from]) {
        lemma_skip_ws(s, from + 1, to);
    }
}

proof fn lemma_trim_end(s: Seq<char>, from: int, to: int)
    requires
        0 <= from <= to <= s.len(),
    ensures
        from <= trim_end_idx(s, from, to) <= to,
        forall|j: int| trim_end_idx(s, from, to) <= j < to ==> is_ws(#[trigger] s[j]),
        trim_end_idx(s, from, to) > from ==> !is_ws(s[trim_end_idx(s, from, to) - 1]),
    decreases to - from,
{
    if to > from && is_ws(s[to - 1]) {
        lemma_trim_end(s, from, to - 1);
    }
}

proof fn lemma_last_nl(s: Seq<char>, from: int, to: int)
    requires
        0 <= from <= to <= s.len(),
    ensures
        last_nl(s, from, to) == -1 || from <= last_nl(s, from, to) < to,
        last_nl(s, from, to) >= 0 ==> s[last_nl(s, from, to)] == '\n',
        forall|j: int|
            from <= j < to && last_nl(s, from, to) < j ==> #[trigger] s[j] != '\n',
    decreases to - from,
{
    if to <= from {
    } else if s[to - 1] == '\n' {
    } else {
        lemma_last_nl(s, from, to - 1);
    }
}

proof fn lemma_skip_ws_unique(s: Seq<char>, from: int, to: int, k: int)
    requires
        0 <= from <= k <= to <= s.len(),
        forall|j: int| from <= j < k ==> is_ws(#[trigger] s[j]),
        k < to ==> !is_ws(s[k]),
    ensures
        skip_ws(s, from, to) == k,
{
    lemma_skip_ws(s, from, to);
    let sw = skip_ws(s, from, to);
    if sw < k {
        assert(is_ws(s[sw]));
        assert(!is_ws(s[sw]));
    }
    if sw > k {
        assert(is_ws(s[k]));
        assert(!is_ws(s[k]));
    }
}

proof fn lemma_trim_end_unique(s: Seq<char>, from: int, to: int, k: int)
    requires
        0 <= from <= k <= to <= s.len(),
        forall|j: int| k <= j < to ==> is_ws(#[trigger] s[j]),
        k > from ==> !is_ws(s[k - 1]),
    ensures
        trim_end_idx(s, from, to) == k,
{
    lemma_trim_end(s, from, to);
    let tw = trim_end_idx(s, from, to);
    if tw < k {
        assert(is_ws(s[k - 1]));
        assert(!is_ws(s[k - 1]));
    }
    if tw > k {
        assert(is_ws(s[tw - 1]));
        assert(!is_ws(s[tw - 1]));
    }
}

proof fn lemma_last_nl_unique(s: Seq<char>, from: int, to: int, k: int)
    requires
        0 <= from <= to <= s.len(),
        from <= k < to,
        s[k] == '\n',
        forall|j: int| k < j < to ==> #[trigger] s[j] != '\n',
    ensures
        last_nl(s, from, to) == k,
{
    lemma_last_nl(s, from, to);
    let lnl = last_nl(s, from, to);
    if lnl < k {
        assert(s[k] != '\n');
    }
    if lnl > k {
        assert(s[lnl] == '\n');
        assert(s[lnl] != '\n');
    }
}

proof fn lemma_last_nl_none(s: Seq<char>, from: int, to: int)
    requires
        0 <= from <= to <= s.len(),
        forall|j: int| from <= j < to ==> #[trigger] s[j] != '\n',
    ensures
        last_nl(s, from, to) == -1,
{
    lemma_last_nl(s, from, to);
    let lnl = last_nl(s, from, to);
    if lnl >= 0 {
        assert(s[lnl] == '\n');
        assert(s[lnl] != '\n');
    }
}

/// One unfolding of `spec_chunks` at a piece whose boundaries are known.
proof fn lemma_spec_chunks_advance(
    s: Seq<char>,
    max: int,
    start: int,
    end: int,
    ts: int,
    te: int,
    next: int,
)
    requires
        max > 0,
        0 <= start < s.len(),
        end == piece_end(s, max, start),
        start < end <= s.len(),
        ts == skip_ws(s, start, end),
        te == trim_end_idx(s, ts, end),
        next == skip_ws(s, end, s.len() as int),
        start < next <= s.len(),
    ensures
        spec_chunks(s, max, start) == (if ts < te {
            seq![s.subrange(ts, te)]
        } else {
            Seq::<Seq<char>>::empty()
        }) + spec_chunks(s, max, next),
{
}

/// On a stretch of text without any whitespace the cuts fall exactly at
/// the size limit: a long remainder contributes its first `max` characters
/// as one chunk, and a fitting remainder is the final chunk whole.
pub proof fn lemma_chunks_unbroken_step(s: Seq<char>, max: int, start: int)
    requires
        max > 0,
        0 <= start < s.len(),
        forall|j: int| start <= j < s.len() ==> !is_ws(#[trigger] s[j]),
    ensures
        s.len() - start > max ==> spec_chunks(s, max, start) == seq![
            s.subrange(start, start + max),
        ] + spec_chunks(s, max, start + max),
        s.len() - start <= max ==> spec_chunks(s, max, start) == seq![
            s.subrange(start, s.len() as int),
        ],
{
    let len = s.len() as int;
    if len - start > max {
        lemma_last_nl(s, start, start + max);
        let nl = last_nl(s, start, start + max);
        assert(nl == -1) by {
            if nl >= 0 {
                assert(s[nl] == '\n');
                assert(!is_ws(s[nl]));
            }
        }
        assert(piece_end(s, max, start) == start + max);
        lemma_skip_ws(s, start, start + max);
        assert(skip_ws(s, start, start + max) == start) by {
            if skip_ws(s, start, start + max) > start {
                assert(is_ws(s[start]));
            }
        }
        lemma_trim_end(s, start, start + max);
        assert(trim_end_idx(s, start, start + max) == start + max) by {
            if trim_end_idx(s, start, start + max) < start + max {
                assert(is_ws(s[start + max - 1]));
            }
        }
        lemma_skip_ws(s, start + max, len);
        assert(skip_ws(s, start + max, len) == start + max) by {
            if skip_ws(s, start + max, len) > start + max {
                assert(is_ws(s[start + max]));
            }
        }
        assert(spec_chunks(s, max, start) =~= seq![s.subrange(start, start + max)] + spec_chunks(
            s,
            max,
            start + max,
        ));
    } else {
        assert(piece_end(s, max, start) == len);
        lemma_skip_ws(s, start, len);
        assert(skip_ws(s, start, len) == start) by {
            if skip_ws(s, start, len) > start {
                assert(is_ws(s[start]));
            }
        }
        lemma_trim_end(s, start, len);
        assert(trim_end_idx(s, start, len) == len) by {
            if trim_end_idx(s, start, len) < len {
                assert(is_ws(s[len - 1]));
            }
        }
        assert(skip_ws(s, len, len) == len);
        assert(spec_chunks(s, max, len) == Seq::<Seq<char>>::empty());
        assert(spec_chunks(s, max, start) =~= seq![s.subrange(start, len)]);
    }
}

/// Splits a reply for a transport with a maximum message size. A reply
/// that fits is delivered as it is. A longer one is cut into pieces of at
/// most `max_chars` characters, exactly as `spec_chunks` describes: a cut
/// falls at the size limit, or at the last newline of the piece when that
/// newline lies past three quarters of the limit, so as not to sever
/// mid-sentence content; whitespace at the boundaries is trimmed, and
/// empty pieces are dropped.
#[verifier::rlimit(100)]
pub fn chunk_message(text: &str, max_chars: usize) -> (r: Vec<String>)
    requires
        max_chars > 0,
    ensures
        text@.len() <= max_chars ==> r@.len() == 1 && r@[0]@ == text@,
        text@.len() > max_chars ==> ({
            &&& chunk_views(r) == spec_chunks(text@, max_chars as int, 0)
            &&& forall|i: int| 0 <= i < r@.len() ==> 1 <= #[trigger] r@[i]@.len() <= max_chars
            &&& exists|cuts: Seq<(int, int)>| #[trigger] is_chunking(text@, chunk_views(r), cuts)
        }),
{
    let ghost s = text@;
    let ghost maxi = max_chars as int;
    let chars = str_to_chars(text);
    let n = chars.len();
    if n <= max_chars {
        let mut r: Vec<String> = Vec::new();
        r.push(String::from_str(text));
        return r;
    }
    let mut chunks: Vec<String> = Vec::new();
    let ghost mut cuts: Seq<(int, int)> = Seq::empty();
    let mut start: usize = 0;
    proof {
        assert(chunk_views(chunks) + spec_chunks(s, maxi, 0) =~= spec_chunks(s, maxi, 0));
    }
    while start < n
        invariant
            n == chars@.len(),
            chars@ == text@,
            s == text@,
            max_chars > 0,
            maxi == max_chars as int,
            start <= n,
            chunked_upto(text@, chunks@.map_values(|s: String| s@), cuts, start as int),
            forall|i: int| 0 <= i < chunks@.len() ==> 1 <= #[trigger] chunks@[i]@.len() <= max_chars,
            spec_chunks(s, maxi, 0) == chunk_views(chunks) + spec_chunks(s, maxi, start as int),
        decreases n - start,
    {
        let ghost st = start as int;
        let mut end: usize = n;
        if n - start > max_chars {
            end = start + max_chars;
            // Prefer to break at the last newline of the piece, when it is
            // late enough in the piece.
            let mut nl: usize = end;
            let mut found = false;
            let mut k: usize = end;
            while k > start && !found
                invariant
                    start <= k <= end <= n,
                    n == chars@.len(),
                    found ==> k <= nl < end && chars@[nl as int] == '\n',
                    !found ==> nl == end,
                    forall|j: int| k <= j < end && j != nl ==> chars@[j] != '\n',
                decreases k,
            {
                k = k - 1;
                if chars[k] == '\n' {
                    nl = k;
                    found = true;
                }
            }
            proof {
                if found {
                    lemma_last_nl_unique(s, st, st + maxi, nl as int);
                } else {
                    lemma_last_nl_none(s, st, st + maxi);
                }
            }
            let prefer_nl = found && (nl - start) as u128 > (max_chars as u128) * 3 / 4;
            if prefer_nl {
                end = nl;
            }
            proof {
                assert(end as int == piece_end(s, maxi, st));
            }
        } else {
            proof {
                assert(end as int == piece_end(s, maxi, st));
            }
        }
        // Trim whitespace from both ends of the piece.
        let mut ts: usize = start;
        while ts < end && is_ws_exec(chars[ts])
            invariant
                start <= ts <= end <= n,
                n == chars@.len(),
                forall|j: int| start <= j < ts ==> is_ws(#[trigger] chars@[j]),
            decreases end - ts,
        {
            ts = ts + 1;
        }
        proof {
            lemma_skip_ws_unique(s, st, end as int, ts as int);
        }
        let mut te: usize = end;
        while te > ts && is_ws_exec(chars[te - 1])
            invariant
                ts <= te <= end <= n,
                n == chars@.len(),
                forall|j: int| te <= j < end ==> is_ws(#[trigger] chars@[j]),
            decreases te,
        {
            te = te - 1;
        }
        proof {
            lemma_trim_end_unique(s, ts as int, end as int, te as int);
        }
        let ghost chunks_old = chunks@.map_values(|s: String| s@);
        let ghost cuts_old = cuts;
        if ts < te {
            let mut piece: Vec<char> = Vec::new();
            let mut j: usize = ts;
            while j < te
                invariant
                    ts <= j <= te <= n,
                    n == chars@.len(),
                    piece@ =~= chars@.subrange(ts as int, j as int),
                decreases te - j,
            {
                piece.push(chars[j]);
                proof {
                    assert(piece@ =~= chars@.subrange(ts as int, j + 1));
                }
                j = j + 1;
            }
            chunks.push(chars_to_string(&piece));
            proof {
                cuts = cuts.push((ts as int, te as int));
                assert(chunks@.map_values(|s: String| s@) =~= chunks_old.push(
                    chars@.subrange(ts as int, te as int),
                ));
            }
        }
        // Skip whitespace before the next piece.
        let mut next: usize = end;
        while next < n && is_ws_exec(chars[next])
            invariant
                end <= next <= n,
                n == chars@.len(),
                forall|j: int| end <= j < next ==> is_ws(#[trigger] chars@[j]),
            decreases n - next,
        {
            next = next + 1;
        }
        proof {
            lemma_skip_ws_unique(s, end as int, n as int, next as int);
            let here = (if (ts as int) < te as int {
                seq![s.subrange(ts as int, te as int)]
            } else {
                Seq::<Seq<char>>::empty()
            });
            lemma_spec_chunks_advance(
                s,
                maxi,
                st,
                end as int,
                ts as int,
                te as int,
                next as int,
            );
            assert(chunk_views(chunks) =~= chunks_old + here);
            assert(chunk_views(chunks) + spec_chunks(s, maxi, next as int) =~= chunks_old + (here
                + spec_chunks(s, maxi, next as int)));
            assert(spec_chunks(s, maxi, 0) == chunk_views(chunks) + spec_chunks(
                s,
                maxi,
                next as int,
            ));
        }
        proof {
            let cs = chunks@.map_values(|s: String| s@);
            if ts < te {
                assert(cuts == cuts_old.push((ts as int, te as int)));
                assert(cuts[cuts.len() - 1] == (ts as int, te as int));
                assert forall|i: int| 0 <= i < cuts.len() - 1 implies #[trigger] cuts[i].1 <= cuts[
                    i + 1].0 by {
                    if i < cuts.len() - 2 {
                    } else {
                        assert(cuts[i] == cuts_old[i]);
                        assert(cuts_old[cuts_old.len() - 1].1 <= start as int);
                    }
                }
                assert(chunked_upto(text@, cs, cuts, next as int));
            } else {
                assert(forall|j: int| start <= j < end ==> is_ws(#[trigger] chars@[j]));
                assert(chunked_upto(text@, cs, cuts, next as int));
            }
        }
        start = next;
    }
    proof {
        assert(spec_chunks(s, maxi, start as int) == Seq::<Seq<char>>::empty());
        assert(chunk_views(chunks) =~= spec_chunks(s, maxi, 0));
        assert(is_chunking(text@, chunk_views(chunks), cuts));
    }
    chunks
}

/// A chat-platform listener: its token and the senders allowed to use the
/// agent. Transport lives with the driver; the policy here is verified.
#[derive(Debug)]
pub struct TelegramBot {
    pub token: String,
    pub allowed_users: Vec<String>,
}

/// The allow-list as a set of names.
pub open spec fn users_view(v: Vec<String>) -> Seq<Seq<char>> {
    v@.map_values(|s: String| s@)
}

impl TelegramBot {
    pub fn new(token: String, allowed_users: Vec<String>) -> (b: TelegramBot)
        ensures
            b.token == token,
            b.allowed_users == allowed_users,
    {
        TelegramBot { token, allowed_users }
    }

    /// Whether a sender may drive the agent: everyone when the allow-list
    /// is empty, else only senders whose id or username is listed.
    /// Unauthorized senders are dropped silently.
    pub fn is_authorized(&self, user_id: &str, username: &str) -> (r: bool)
        ensures
            r == (users_view(self.allowed_users).len() == 0 || users_view(
                self.allowed_users,
            ).contains(user_id@) || users_view(self.allowed_users).contains(username@)),
    {
        if self.allowed_users.len() == 0 {
            return true;
        }
        let mut i: usize = 0;
        while i < self.allowed_users.len()
            invariant
                i <= self.allowed_users@.len(),
                forall|j: int|
                    0 <= j < i ==> users_view(self.allowed_users)[j] != user_id@ && users_view(
                        self.allowed_users,
                    )[j] != username@,
            decreases self.allowed_users@.len() - i,
        {
            proof {
                assert(users_view(self.allowed_users)[i as int] == self.allowed_users@[i as int]@);
            }
            if str_eq(self.allowed_users[i].as_str(), user_id) || str_eq(
                self.allowed_users[i].as_str(),
                username,
            ) {
                return true;
            }
            i = i + 1;
        }
        proof {
            if users_view(self.allowed_users).contains(user_id@) {
                let j = choose|j: int|
                    0 <= j < users_view(self.allowed_users).len() && users_view(
                        self.allowed_users,
                    )[j] == user_id@;
            }
            if users_view(self.allowed_users).contains(username@) {
                let j = choose|j: int|
                    0 <= j < users_view(self.allowed_users).len() && users_view(
                        self.allowed_users,
                    )[j] == username@;
            }
        }
        false
    }
}

/// The formatting tried on delivery attempt `attempt`, retrying with
/// progressively plainer formatting when rich text is rejected: first
/// MarkdownV2, then Markdown, then no formatting at all; after that the
/// message is given up.
pub fn parse_mode_for_attempt(attempt: usize) -> (r: Option<Option<&'static str>>)
    ensures
        attempt == 0 ==> (r matches Some(m) && m matches Some(s) && s@ == "MarkdownV2"@),
        attempt == 1 ==> (r matches Some(m) && m matches Some(s) && s@ == "Markdown"@),
        attempt == 2 ==> r == Some(None::<&'static str>),
        attempt >= 3 ==> r is None,
{
    if attempt == 0 {
        Some(Some("MarkdownV2"))
    } else if attempt == 1 {
        Some(Some("Markdown"))
    } else if attempt == 2 {
        Some(None)
    } else {
        None
    }
}

/// The reply delivered when a turn produced no text at all.
pub fn empty_reply_text() -> (r: &'static str)
    ensures
        r@ == "I processed your request but have no text response."@,
{
    "I processed your request but have no text response."
}

/// What the adapter delivers for a turn's answer: the answer itself, or
/// the fixed notice when the turn produced no text at all.
pub fn outbound_reply(answer: &str) -> (r: String)
    ensures
        answer@.len() > 0 ==> r@ == answer@,
        answer@.len() == 0 ==> r@ == "I processed your request but have no text response."@,
{
    if answer.is_empty() {
        String::from_str(empty_reply_text())
    } else {
        String::from_str(answer)
    }
}

} // verus!
