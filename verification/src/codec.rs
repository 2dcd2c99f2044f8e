//! The session file codec: a session is persisted as one JSON document,
//! `{"messages":[...]}`, and read back. Both directions are written here,
//! over characters, and proved inverse to each other: decoding an encoded
//! session yields the same session. A file that does not decode yields an
//! empty session at load time, never a failure.
//!
//! The encoder emits a fixed field order and no insignificant whitespace;
//! the decoder accepts exactly that shape. Within strings the five common
//! escapes (`\"  \\  \n  \r  \t`) are used; other characters are written
//! as themselves.

use vstd::prelude::*;
use crate::msg::{Message, MessageView, Role, Session, ToolCallRequest, ToolCallView};
use crate::msg::{calls_view, opt_calls_view, opt_str_view};
use crate::strutil::{chars_eq_str, chars_to_string, str_to_chars};

verus! {

// ---------------------------------------------------------------------------
// String escaping.
// ---------------------------------------------------------------------------

/// How one character is written inside a JSON string.
pub open spec fn esc_char(c: char) -> Seq<char> {
    if c == '"' {
        seq!['\\', '"']
    } else if c == '\\' {
        seq!['\\', '\\']
    } else if c == '\n' {
        seq!['\\', 'n']
    } else if c == '\r' {
        seq!['\\', 'r']
    } else if c == '\t' {
        seq!['\\', 't']
    } else {
        seq![c]
    }
}

/// The character an escape code stands for.
pub open spec fn unesc_char(c: char) -> Option<char> {
    if c == '"' {
        Some('"')
    } else if c == '\\' {
        Some('\\')
    } else if c == 'n' {
        Some('\n')
    } else if c == 'r' {
        Some('\r')
    } else if c == 't' {
        Some('\t')
    } else {
        None
    }
}

/// A text with each character escaped.
pub open spec fn esc_seq(s: Seq<char>) -> Seq<char>
    decreases s.len(),
{
    if s.len() == 0 {
        Seq::<char>::empty()
    } else {
        esc_char(s[0]) + esc_seq(s.drop_first())
    }
}

/// A text as a JSON string token, quotes included.
pub open spec fn enc_string(s: Seq<char>) -> Seq<char> {
    seq!['"'] + esc_seq(s) + seq!['"']
}

proof fn lemma_esc_append(a: Seq<char>, b: Seq<char>)
    ensures
        esc_seq(a + b) == esc_seq(a) + esc_seq(b),
    decreases a.len(),
{
    if a.len() == 0 {
        assert(a + b =~= b);
        assert(esc_seq(a) + esc_seq(b) =~= esc_seq(b));
    } else {
        assert((a + b).drop_first() =~= a.drop_first() + b);
        lemma_esc_append(a.drop_first(), b);
        assert(esc_seq(a) + esc_seq(b) =~= esc_char(a[0]) + (esc_seq(a.drop_first()) + esc_seq(
            b,
        )));
    }
}

proof fn lemma_esc_push(s: Seq<char>, c: char)
    ensures
        esc_seq(s.push(c)) == esc_seq(s) + esc_char(c),
{
    assert(s.push(c) =~= s + seq![c]);
    lemma_esc_append(s, seq![c]);
    assert(seq![c].drop_first() =~= Seq::<char>::empty());
    assert(esc_seq(seq![c]) =~= esc_char(c) + esc_seq(Seq::<char>::empty()));
    assert(esc_char(c) + esc_seq(Seq::<char>::empty()) =~= esc_char(c));
    assert(esc_seq(s + seq![c]) == esc_seq(s) + esc_seq(seq![c]));
}

/// Appends the escaped form of `s` (quotes included) to `out`.
pub fn push_jstring(out: &mut Vec<char>, s: &str)
    ensures
        final(out)@ == old(out)@ + enc_string(s@),
{
    let ghost base = out@;
    out.push('"');
    let n = s.unicode_len();
    let mut i: usize = 0;
    while i < n
        invariant
            n == s@.len(),
            i <= n,
            out@ == base + seq!['"'] + esc_seq(s@.take(i as int)),
        decreases n - i,
    {
        let ghost done = s@.take(i as int);
        let c = s.get_char(i);
        if c == '"' {
            out.push('\\');
            out.push('"');
        } else if c == '\\' {
            out.push('\\');
            out.push('\\');
        } else if c == '\n' {
            out.push('\\');
            out.push('n');
        } else if c == '\r' {
            out.push('\\');
            out.push('r');
        } else if c == '\t' {
            out.push('\\');
            out.push('t');
        } else {
            out.push(c);
        }
        proof {
            lemma_esc_push(done, c);
            assert(done.push(c) =~= s@.take(i + 1));
            assert(out@ =~= base + seq!['"'] + esc_seq(s@.take(i + 1)));
        }
        i = i + 1;
    }
    proof {
        assert(s@.take(n as int) =~= s@);
    }
    out.push('"');
    proof {
        assert(out@ =~= base + enc_string(s@));
    }
}

// ---------------------------------------------------------------------------
// String parsing.
// ---------------------------------------------------------------------------

/// Scans the inside of a JSON string from `pos` up to its closing quote;
/// yields the decoded text and the position after the quote.
pub open spec fn scan_string(inp: Seq<char>, pos: int) -> Option<(Seq<char>, int)>
    decreases inp.len() - pos when 0 <= pos <= inp.len()
{
    if pos < 0 || pos >= inp.len() {
        None
    } else if inp[pos] == '"' {
        Some((Seq::<char>::empty(), pos + 1))
    } else if inp[pos] == '\\' {
        if pos + 1 >= inp.len() {
            None
        } else {
            match unesc_char(inp[pos + 1]) {
                None => None,
                Some(c) => match scan_string(inp, pos + 2) {
                    None => None,
                    Some((s, p)) => Some((seq![c] + s, p)),
                },
            }
        }
    } else {
        match scan_string(inp, pos + 1) {
            None => None,
            Some((s, p)) => Some((seq![inp[pos]] + s, p)),
        }
    }
}

/// Parses a JSON string token (opening quote at `pos`).
pub open spec fn parse_string_at(inp: Seq<char>, pos: int) -> Option<(Seq<char>, int)> {
    if 0 <= pos < inp.len() && inp[pos] == '"' {
        scan_string(inp, pos + 1)
    } else {
        None
    }
}

proof fn lemma_scan_string_bounds(inp: Seq<char>, pos: int)
    requires
        0 <= pos <= inp.len(),
    ensures
        scan_string(inp, pos) matches Some(sp) ==> pos < sp.1 <= inp.len(),
    decreases inp.len() - pos,
{
    if pos < 0 || pos >= inp.len() {
    } else if inp[pos] == '"' {
    } else if inp[pos] == '\\' {
        if pos + 2 <= inp.len() {
            lemma_scan_string_bounds(inp, pos + 2);
        }
    } else {
        lemma_scan_string_bounds(inp, pos + 1);
    }
}

proof fn lemma_scan_string_of_esc(s: Seq<char>, inp: Seq<char>, pos: int)
    requires
        0 <= pos,
        pos + esc_seq(s).len() + 1 <= inp.len(),
        inp.subrange(pos, pos + esc_seq(s).len()) == esc_seq(s),
        inp[pos + esc_seq(s).len()] == '"',
    ensures
        scan_string(inp, pos) == Some((s, pos + esc_seq(s).len() + 1)),
    decreases s.len(),
{
    let e = esc_seq(s);
    if s.len() == 0 {
        assert(e.len() == 0);
        assert(inp[pos] == '"');
    } else {
        let c = s[0];
        let e0 = esc_char(c);
        let rest = esc_seq(s.drop_first());
        assert(e == e0 + rest);
        assert(inp[pos] == e[0]) by {
            assert(e[0] == inp.subrange(pos, pos + e.len())[0]);
        }
        let k = e0.len() as int;
        assert(inp.subrange(pos + k, pos + e.len()) =~= rest) by {
            assert forall|j: int| 0 <= j < rest.len() implies inp[pos + k + j] == rest[j] by {
                assert(e[k + j] == (e0 + rest)[k + j]);
                assert(inp.subrange(pos, pos + e.len())[k + j] == e[k + j]);
            }
        }
        if c == '"' || c == '\\' || c == '\n' || c == '\r' || c == '\t' {
            assert(e0.len() == 2);
            assert(inp[pos + 1] == e[1]) by {
                assert(e[1] == inp.subrange(pos, pos + e.len())[1]);
            }
            assert(inp[pos] == '\\');
            assert(unesc_char(inp[pos + 1]) == Some(c));
            lemma_scan_string_of_esc(s.drop_first(), inp, pos + 2);
            assert(scan_string(inp, pos) == Some((seq![c] + s.drop_first(), pos + e.len() + 1)));
            assert(seq![c] + s.drop_first() =~= s);
        } else {
            assert(e0.len() == 1);
            assert(inp[pos] == c);
            assert(c != '"' && c != '\\');
            lemma_scan_string_of_esc(s.drop_first(), inp, pos + 1);
            assert(scan_string(inp, pos) == Some((seq![c] + s.drop_first(), pos + e.len() + 1)));
            assert(seq![c] + s.drop_first() =~= s);
        }
    }
}

/// Parsing an encoded string (with anything after it) recovers the text.
proof fn lemma_parse_string_of_enc(s: Seq<char>, inp: Seq<char>, pos: int)
    requires
        0 <= pos,
        pos + enc_string(s).len() <= inp.len(),
        inp.subrange(pos, pos + enc_string(s).len()) == enc_string(s),
    ensures
        parse_string_at(inp, pos) == Some((s, pos + enc_string(s).len())),
{
    let e = enc_string(s);
    assert(inp[pos] == e[0]) by {
        assert(e[0] == inp.subrange(pos, pos + e.len())[0]);
    }
    assert(inp[pos] == '"');
    let body = esc_seq(s);
    assert(inp.subrange(pos + 1, pos + 1 + body.len()) =~= body) by {
        assert forall|j: int| 0 <= j < body.len() implies inp[pos + 1 + j] == body[j] by {
            assert(e[1 + j] == (seq!['"'] + body + seq!['"'])[1 + j]);
            assert(inp.subrange(pos, pos + e.len())[1 + j] == e[1 + j]);
        }
    }
    let q = 1 + esc_seq(s).len() as int;
    assert(inp[pos + q] == e[q]) by {
        assert(e[q] == inp.subrange(pos, pos + e.len())[q]);
    }
    assert(inp[pos + 1 + esc_seq(s).len()] == '"');
    lemma_scan_string_of_esc(s, inp, pos + 1);
}

/// Parses a JSON string token at `pos`, as `parse_string_at` describes.
pub fn parse_jstring(buf: &Vec<char>, pos: usize) -> (r: Option<(Vec<char>, usize)>)
    requires
        pos <= buf@.len(),
    ensures
        match r {
            Some(sp) => {
                &&& parse_string_at(buf@, pos as int) == Some((sp.0@, sp.1 as int))
                &&& pos < sp.1 <= buf@.len()
            },
            None => parse_string_at(buf@, pos as int) is None,
        },
{
    let n = buf.len();
    if pos >= n || buf[pos] != '"' {
        return None;
    }
    let start = pos + 1;
    let mut cur: usize = start;
    let mut acc: Vec<char> = Vec::new();
    proof {
        lemma_scan_string_bounds(buf@, start as int);
        match scan_string(buf@, start as int) {
            Some((s, p)) => {
                assert(acc@ + s =~= s);
            },
            None => {},
        }
    }
    loop
        invariant
            n == buf@.len(),
            pos < n,
            buf@[pos as int] == '"',
            start == pos + 1,
            start <= cur <= n,
            (match scan_string(buf@, cur as int) {
                None => scan_string(buf@, start as int) is None,
                Some((s, p)) => scan_string(buf@, start as int) == Some((acc@ + s, p)) && cur < p
                    <= n,
            }),
        decreases n - cur,
    {
        if cur >= n {
            return None;
        }
        let c = buf[cur];
        if c == '"' {
            proof {
                assert(scan_string(buf@, cur as int) == Some(
                    (Seq::<char>::empty(), cur + 1 as int),
                ));
                assert(acc@ + Seq::<char>::empty() =~= acc@);
            }
            return Some((acc, cur + 1));
        } else if c == '\\' {
            if cur + 1 >= n {
                return None;
            }
            let code = buf[cur + 1];
            let decoded: char = if code == '"' {
                '"'
            } else if code == '\\' {
                '\\'
            } else if code == 'n' {
                '\n'
            } else if code == 'r' {
                '\r'
            } else if code == 't' {
                '\t'
            } else {
                ' '
            };
            if !(code == '"' || code == '\\' || code == 'n' || code == 'r' || code == 't') {
                proof {
                    assert(unesc_char(code) is None);
                }
                return None;
            }
            proof {
                assert(unesc_char(code) == Some(decoded));
                lemma_scan_string_bounds(buf@, cur + 2 as int);
                match scan_string(buf@, cur + 2 as int) {
                    Some((s, p)) => {
                        assert(scan_string(buf@, cur as int) == Some((seq![decoded] + s, p)));
                        assert(acc@ + (seq![decoded] + s) =~= acc@.push(decoded) + s);
                    },
                    None => {
                        assert(scan_string(buf@, cur as int) is None);
                    },
                }
            }
            acc.push(decoded);
            cur = cur + 2;
        } else {
            proof {
                lemma_scan_string_bounds(buf@, cur + 1 as int);
                match scan_string(buf@, cur + 1 as int) {
                    Some((s, p)) => {
                        assert(scan_string(buf@, cur as int) == Some((seq![c] + s, p)));
                        assert(acc@ + (seq![c] + s) =~= acc@.push(c) + s);
                    },
                    None => {
                        assert(scan_string(buf@, cur as int) is None);
                    },
                }
            }
            acc.push(c);
            cur = cur + 1;
        }
    }
}

// ---------------------------------------------------------------------------
// Fixed tokens of the format.
// ---------------------------------------------------------------------------

/// Matches the exact token `lit` at `pos`.
pub open spec fn parse_lit(inp: Seq<char>, pos: int, lit: Seq<char>) -> Option<int> {
    if 0 <= pos && pos + lit.len() <= inp.len() && inp.subrange(pos, pos + lit.len()) == lit {
        Some(pos + lit.len())
    } else {
        None
    }
}

/// Appends every character of `lit` to `out`.
pub fn push_lit(out: &mut Vec<char>, lit: &str)
    ensures
        final(out)@ == old(out)@ + lit@,
{
    let ghost base = out@;
    let n = lit.unicode_len();
    let mut i: usize = 0;
    while i < n
        invariant
            n == lit@.len(),
            i <= n,
            out@ == base + lit@.take(i as int),
        decreases n - i,
    {
        out.push(lit.get_char(i));
        proof {
            assert(base + lit@.take(i as int) + seq![lit@[i as int]] =~= base + lit@.take(i + 1));
        }
        i = i + 1;
    }
    proof {
        assert(base + lit@.take(n as int) =~= base + lit@);
    }
}

/// Consumes the exact token `lit` at `pos`, as `parse_lit` describes.
pub fn expect_lit(buf: &Vec<char>, pos: usize, lit: &str) -> (r: Option<usize>)
    requires
        pos <= buf@.len(),
    ensures
        match r {
            Some(p) => {
                &&& parse_lit(buf@, pos as int, lit@) == Some(p as int)
                &&& pos <= p <= buf@.len()
                &&& p - pos == lit@.len()
            },
            None => parse_lit(buf@, pos as int, lit@) is None,
        },
{
    let n = lit.unicode_len();
    let bn = buf.len();
    if n > bn - pos {
        return None;
    }
    let mut i: usize = 0;
    while i < n
        invariant
            n == lit@.len(),
            bn == buf@.len(),
            pos + n <= bn,
            i <= n,
            forall|j: int| 0 <= j < i ==> buf@[pos + j] == lit@[j],
        decreases n - i,
    {
        if buf[pos + i] != lit.get_char(i) {
            proof {
                assert(buf@.subrange(pos as int, pos + n) != lit@) by {
                    assert(buf@.subrange(pos as int, pos + n)[i as int] == buf@[pos + i]);
                }
            }
            return None;
        }
        i = i + 1;
    }
    proof {
        assert(buf@.subrange(pos as int, pos + n) =~= lit@);
    }
    Some(pos + n)
}

// ---------------------------------------------------------------------------
// Optional strings (`null` or a string token).
// ---------------------------------------------------------------------------

/// An optional text: `null` when absent, a string token when present.
pub open spec fn enc_opt_string(o: Option<Seq<char>>) -> Seq<char> {
    match o {
        None => "null"@,
        Some(s) => enc_string(s),
    }
}

/// Parses `null` or a string token at `pos`.
pub open spec fn parse_opt_string(inp: Seq<char>, pos: int) -> Option<(Option<Seq<char>>, int)> {
    match parse_lit(inp, pos, "null"@) {
        Some(p) => Some((None, p)),
        None => match parse_string_at(inp, pos) {
            Some((s, p)) => Some((Some(s), p)),
            None => None,
        },
    }
}

/// Parsing an encoded optional text recovers it.
proof fn lemma_parse_opt_string_of_enc(o: Option<Seq<char>>, inp: Seq<char>, pos: int)
    requires
        0 <= pos,
        pos + enc_opt_string(o).len() <= inp.len(),
        inp.subrange(pos, pos + enc_opt_string(o).len()) == enc_opt_string(o),
    ensures
        parse_opt_string(inp, pos) == Some((o, pos + enc_opt_string(o).len())),
{
    reveal_strlit("null");
    match o {
        None => {
            assert(parse_lit(inp, pos, "null"@) == Some(pos + 4));
        },
        Some(s) => {
            let e = enc_string(s);
            assert(inp[pos] == e[0]) by {
                assert(e[0] == inp.subrange(pos, pos + e.len())[0]);
            }
            assert(inp[pos] == '"');
            assert(parse_lit(inp, pos, "null"@) is None) by {
                if parse_lit(inp, pos, "null"@) is Some {
                    assert(inp.subrange(pos, pos + 4)[0] == 'n');
                }
            }
            lemma_parse_string_of_enc(s, inp, pos);
        },
    }
}

/// Parses an optional text, as `parse_opt_string` describes.
fn parse_opt_string_at(buf: &Vec<char>, pos: usize) -> (r: Option<(Option<String>, usize)>)
    requires
        pos <= buf@.len(),
    ensures
        match r {
            Some(sp) => {
                &&& parse_opt_string(buf@, pos as int) == Some(
                    (crate::msg::opt_str_view(sp.0), sp.1 as int),
                )
                &&& pos < sp.1 <= buf@.len()
            },
            None => parse_opt_string(buf@, pos as int) is None,
        },
{
    match expect_lit(buf, pos, "null") {
        Some(p) => {
            proof {
                reveal_strlit("null");
            }
            Some((None, p))
        },
        None => match parse_jstring(buf, pos) {
            Some((s, p)) => Some((Some(chars_to_string(&s)), p)),
            None => None,
        },
    }
}

// ---------------------------------------------------------------------------
// Tool calls and their arrays.
// ---------------------------------------------------------------------------

pub open spec fn lit_call_open() -> Seq<char> {
    "{\"id\":"@
}

pub open spec fn lit_call_name() -> Seq<char> {
    ",\"name\":"@
}

pub open spec fn lit_call_args() -> Seq<char> {
    ",\"arguments\":"@
}

/// One tool call as an object with its three fields.
pub open spec fn enc_call(t: ToolCallView) -> Seq<char> {
    lit_call_open() + enc_string(t.id) + lit_call_name() + enc_string(t.name) + lit_call_args()
        + enc_string(t.arguments) + seq!['}']
}

/// Parses one tool-call object at `pos`.
pub open spec fn parse_call(inp: Seq<char>, pos: int) -> Option<(ToolCallView, int)> {
    match parse_lit(inp, pos, lit_call_open()) {
        None => None,
        Some(p1) => match parse_string_at(inp, p1) {
            None => None,
            Some((id, p2)) => match parse_lit(inp, p2, lit_call_name()) {
                None => None,
                Some(p3) => match parse_string_at(inp, p3) {
                    None => None,
                    Some((name, p4)) => match parse_lit(inp, p4, lit_call_args()) {
                        None => None,
                        Some(p5) => match parse_string_at(inp, p5) {
                            None => None,
                            Some((arguments, p6)) => {
                                if p6 < inp.len() && inp[p6] == '}' {
                                    Some((ToolCallView { id, name, arguments }, p6 + 1))
                                } else {
                                    None
                                }
                            },
                        },
                    },
                },
            },
        },
    }
}

/// A prefix of `inp` starting at `pos` equal to `a + b` splits into `a`
/// then `b`.
proof fn lemma_subrange_split(inp: Seq<char>, pos: int, a: Seq<char>, b: Seq<char>)
    requires
        0 <= pos,
        pos + a.len() + b.len() <= inp.len(),
        inp.subrange(pos, pos + a.len() + b.len()) == a + b,
    ensures
        inp.subrange(pos, pos + a.len()) == a,
        inp.subrange(pos + a.len(), pos + a.len() + b.len()) == b,
{
    let w = a.len() + b.len() as int;
    assert(inp.subrange(pos, pos + a.len()) =~= a) by {
        assert forall|j: int| 0 <= j < a.len() implies inp[pos + j] == a[j] by {
            assert(inp.subrange(pos, pos + w)[j] == inp[pos + j]);
            assert((a + b)[j] == a[j]);
        }
    }
    assert(inp.subrange(pos + a.len(), pos + w) =~= b) by {
        assert forall|j: int| 0 <= j < b.len() implies inp[pos + a.len() + j] == b[j] by {
            assert(inp.subrange(pos, pos + w)[a.len() + j] == inp[pos + a.len() + j]);
            assert((a + b)[a.len() + j] == b[j]);
        }
    }
}

/// Parsing an encoded tool call recovers it.
proof fn lemma_parse_call_of_enc(t: ToolCallView, inp: Seq<char>, pos: int)
    requires
        0 <= pos,
        pos + enc_call(t).len() <= inp.len(),
        inp.subrange(pos, pos + enc_call(t).len()) == enc_call(t),
    ensures
        parse_call(inp, pos) == Some((t, pos + enc_call(t).len())),
{
    let a1 = lit_call_open();
    let a2 = a1 + enc_string(t.id);
    let a3 = a2 + lit_call_name();
    let a4 = a3 + enc_string(t.name);
    let a5 = a4 + lit_call_args();
    let a6 = a5 + enc_string(t.arguments);
    lemma_subrange_split(inp, pos, a6, seq!['}']);
    lemma_subrange_split(inp, pos, a5, enc_string(t.arguments));
    lemma_subrange_split(inp, pos, a4, lit_call_args());
    lemma_subrange_split(inp, pos, a3, enc_string(t.name));
    lemma_subrange_split(inp, pos, a2, lit_call_name());
    lemma_subrange_split(inp, pos, a1, enc_string(t.id));
    let p1 = pos + a1.len() as int;
    let p2 = pos + a2.len() as int;
    let p3 = pos + a3.len() as int;
    let p4 = pos + a4.len() as int;
    let p5 = pos + a5.len() as int;
    let p6 = pos + a6.len() as int;
    assert(parse_lit(inp, pos, lit_call_open()) == Some(p1));
    lemma_parse_string_of_enc(t.id, inp, p1);
    assert(parse_lit(inp, p2, lit_call_name()) == Some(p3));
    lemma_parse_string_of_enc(t.name, inp, p3);
    assert(parse_lit(inp, p4, lit_call_args()) == Some(p5));
    lemma_parse_string_of_enc(t.arguments, inp, p5);
    assert(inp[p6] == '}') by {
        assert(inp.subrange(p6, p6 + 1)[0] == inp[p6]);
    }
}

/// Appends one encoded tool call to `out`.
fn push_call(out: &mut Vec<char>, t: &ToolCallRequest)
    ensures
        final(out)@ == old(out)@ + enc_call(t@),
{
    push_lit(out, "{\"id\":");
    push_jstring(out, t.id.as_str());
    push_lit(out, ",\"name\":");
    push_jstring(out, t.name.as_str());
    push_lit(out, ",\"arguments\":");
    push_jstring(out, t.arguments.as_str());
    out.push('}');
    proof {
        assert(out@ =~= old(out)@ + enc_call(t@));
    }
}

/// Parses one tool-call object, as `parse_call` describes.
fn parse_call_at(buf: &Vec<char>, pos: usize) -> (r: Option<(ToolCallRequest, usize)>)
    requires
        pos <= buf@.len(),
    ensures
        match r {
            Some(tp) => {
                &&& parse_call(buf@, pos as int) == Some((tp.0@, tp.1 as int))
                &&& pos < tp.1 <= buf@.len()
            },
            None => parse_call(buf@, pos as int) is None,
        },
{
    let p1 = match expect_lit(buf, pos, "{\"id\":") {
        Some(p) => p,
        None => {
            return None;
        },
    };
    let (id, p2) = match parse_jstring(buf, p1) {
        Some(sp) => sp,
        None => {
            return None;
        },
    };
    let p3 = match expect_lit(buf, p2, ",\"name\":") {
        Some(p) => p,
        None => {
            return None;
        },
    };
    let (name, p4) = match parse_jstring(buf, p3) {
        Some(sp) => sp,
        None => {
            return None;
        },
    };
    let p5 = match expect_lit(buf, p4, ",\"arguments\":") {
        Some(p) => p,
        None => {
            return None;
        },
    };
    let (arguments, p6) = match parse_jstring(buf, p5) {
        Some(sp) => sp,
        None => {
            return None;
        },
    };
    if p6 < buf.len() && buf[p6] == '}' {
        let call = ToolCallRequest {
            id: chars_to_string(&id),
            name: chars_to_string(&name),
            arguments: chars_to_string(&arguments),
        };
        Some((call, p6 + 1))
    } else {
        None
    }
}

/// The tool calls after the first, each preceded by a comma.
pub open spec fn enc_calls_tail(cs: Seq<ToolCallView>) -> Seq<char>
    decreases cs.len(),
{
    if cs.len() == 0 {
        Seq::<char>::empty()
    } else {
        seq![','] + enc_call(cs[0]) + enc_calls_tail(cs.drop_first())
    }
}

/// A tool-call array.
pub open spec fn enc_calls(cs: Seq<ToolCallView>) -> Seq<char> {
    if cs.len() == 0 {
        seq!['[', ']']
    } else {
        seq!['['] + enc_call(cs[0]) + enc_calls_tail(cs.drop_first()) + seq![']']
    }
}

/// An optional tool-call array: `null` when absent.
pub open spec fn enc_opt_calls(o: Option<Seq<ToolCallView>>) -> Seq<char> {
    match o {
        None => "null"@,
        Some(cs) => enc_calls(cs),
    }
}

/// Parses the elements of a non-empty tool-call array from the first
/// element through the closing bracket.
pub open spec fn parse_calls_rest(inp: Seq<char>, pos: int) -> Option<(Seq<ToolCallView>, int)>
    decreases inp.len() - pos when 0 <= pos <= inp.len()
{
    if pos < 0 || pos > inp.len() {
        None
    } else {
        match parse_call(inp, pos) {
            None => None,
            Some((tc, p)) => {
                if !(pos < p <= inp.len()) {
                    None
                } else if p < inp.len() && inp[p] == ',' {
                    match parse_calls_rest(inp, p + 1) {
                        None => None,
                        Some((rest, p2)) => Some((seq![tc] + rest, p2)),
                    }
                } else if p < inp.len() && inp[p] == ']' {
                    Some((seq![tc], p + 1))
                } else {
                    None
                }
            },
        }
    }
}

/// Parses a tool-call array (opening bracket at `pos`).
pub open spec fn parse_calls(inp: Seq<char>, pos: int) -> Option<(Seq<ToolCallView>, int)> {
    if 0 <= pos < inp.len() && inp[pos] == '[' {
        if pos + 1 < inp.len() && inp[pos + 1] == ']' {
            Some((Seq::<ToolCallView>::empty(), pos + 2))
        } else {
            parse_calls_rest(inp, pos + 1)
        }
    } else {
        None
    }
}

/// Parses `null` or a tool-call array.
pub open spec fn parse_opt_calls(inp: Seq<char>, pos: int) -> Option<
    (Option<Seq<ToolCallView>>, int),
> {
    match parse_lit(inp, pos, "null"@) {
        Some(p) => Some((None, p)),
        None => match parse_calls(inp, pos) {
            Some((cs, p)) => Some((Some(cs), p)),
            None => None,
        },
    }
}

/// The body of a non-empty array: elements, commas, closing bracket.
pub open spec fn calls_body(cs: Seq<ToolCallView>) -> Seq<char>
    recommends
        cs.len() > 0,
{
    enc_call(cs[0]) + enc_calls_tail(cs.drop_first()) + seq![']']
}

proof fn lemma_parse_calls_rest_of_enc(cs: Seq<ToolCallView>, inp: Seq<char>, pos: int)
    requires
        cs.len() > 0,
        0 <= pos,
        pos + calls_body(cs).len() <= inp.len(),
        inp.subrange(pos, pos + calls_body(cs).len()) == calls_body(cs),
    ensures
        parse_calls_rest(inp, pos) == Some((cs, pos + calls_body(cs).len())),
    decreases cs.len(),
{
    let e0 = enc_call(cs[0]);
    let tail = enc_calls_tail(cs.drop_first());
    lemma_subrange_split(inp, pos, e0 + tail, seq![']']);
    lemma_subrange_split(inp, pos, e0, tail);
    lemma_parse_call_of_enc(cs[0], inp, pos);
    let p = pos + e0.len() as int;
    if cs.len() == 1 {
        assert(tail.len() == 0);
        assert(inp[p] == ']') by {
            assert(inp.subrange(p, p + 1)[0] == inp[p]);
        }
        assert(inp[p] != ',');
        assert(seq![cs[0]] =~= cs);
    } else {
        let rest = cs.drop_first();
        assert(tail == seq![','] + enc_call(rest[0]) + enc_calls_tail(rest.drop_first()));
        assert(calls_body(cs) == e0 + tail + seq![']']);
        let after = calls_body(rest);
        assert(e0 + tail + seq![']'] =~= e0 + seq![','] + after) by {
            assert(after == enc_call(rest[0]) + enc_calls_tail(rest.drop_first()) + seq![']']);
        }
        lemma_subrange_split(inp, pos, e0 + seq![','], after);
        lemma_subrange_split(inp, pos, e0, seq![',']);
        assert(inp[p] == ',') by {
            assert(inp.subrange(p, p + 1)[0] == inp[p]);
        }
        lemma_parse_calls_rest_of_enc(rest, inp, p + 1);
        assert(seq![cs[0]] + rest =~= cs);
    }
}

/// Parsing an encoded tool-call array recovers it.
proof fn lemma_parse_calls_of_enc(cs: Seq<ToolCallView>, inp: Seq<char>, pos: int)
    requires
        0 <= pos,
        pos + enc_calls(cs).len() <= inp.len(),
        inp.subrange(pos, pos + enc_calls(cs).len()) == enc_calls(cs),
    ensures
        parse_calls(inp, pos) == Some((cs, pos + enc_calls(cs).len())),
{
    let e = enc_calls(cs);
    assert(inp[pos] == e[0]) by {
        assert(inp.subrange(pos, pos + e.len())[0] == inp[pos]);
    }
    assert(inp[pos] == '[');
    if cs.len() == 0 {
        assert(inp[pos + 1] == e[1]) by {
            assert(inp.subrange(pos, pos + e.len())[1] == inp[pos + 1]);
        }
    } else {
        assert(e =~= seq!['['] + calls_body(cs));
        lemma_subrange_split(inp, pos, seq!['['], calls_body(cs));
        assert(inp[pos + 1] == calls_body(cs)[0]) by {
            assert(inp.subrange(pos + 1, pos + 1 + calls_body(cs).len())[0] == inp[pos + 1]);
        }
        assert(enc_call(cs[0])[0] == '{') by {
            reveal_strlit("{\"id\":");
            let c0 = cs[0];
            let l1 = lit_call_open();
            let x1 = l1 + enc_string(c0.id);
            let x2 = x1 + lit_call_name();
            let x3 = x2 + enc_string(c0.name);
            let x4 = x3 + lit_call_args();
            let x5 = x4 + enc_string(c0.arguments);
            assert(enc_call(c0) == x5 + seq!['}']);
            assert(l1[0] == '{');
            assert(x1[0] == l1[0]);
            assert(x2[0] == x1[0]);
            assert(x3[0] == x2[0]);
            assert(x4[0] == x3[0]);
            assert(x5[0] == x4[0]);
            assert((x5 + seq!['}'])[0] == x5[0]);
        }
        assert(calls_body(cs)[0] == enc_call(cs[0])[0]) by {
            assert((enc_call(cs[0]) + enc_calls_tail(cs.drop_first()))[0] == enc_call(cs[0])[0]);
            assert(((enc_call(cs[0]) + enc_calls_tail(cs.drop_first())) + seq![']'])[0] == (
            enc_call(cs[0]) + enc_calls_tail(cs.drop_first()))[0]);
        }
        assert(inp[pos + 1] != ']');
        lemma_parse_calls_rest_of_enc(cs, inp, pos + 1);
    }
}

/// Parsing an encoded optional tool-call array recovers it.
proof fn lemma_parse_opt_calls_of_enc(o: Option<Seq<ToolCallView>>, inp: Seq<char>, pos: int)
    requires
        0 <= pos,
        pos + enc_opt_calls(o).len() <= inp.len(),
        inp.subrange(pos, pos + enc_opt_calls(o).len()) == enc_opt_calls(o),
    ensures
        parse_opt_calls(inp, pos) == Some((o, pos + enc_opt_calls(o).len())),
{
    reveal_strlit("null");
    match o {
        None => {
            assert(parse_lit(inp, pos, "null"@) == Some(pos + 4));
        },
        Some(cs) => {
            let e = enc_calls(cs);
            assert(inp[pos] == e[0]) by {
                assert(inp.subrange(pos, pos + e.len())[0] == inp[pos]);
            }
            assert(inp[pos] == '[');
            assert(parse_lit(inp, pos, "null"@) is None) by {
                if parse_lit(inp, pos, "null"@) is Some {
                    assert(inp.subrange(pos, pos + 4)[0] == 'n');
                }
            }
            lemma_parse_calls_of_enc(cs, inp, pos);
        },
    }
}

proof fn lemma_enc_calls_tail_snoc(cs: Seq<ToolCallView>, t: ToolCallView)
    ensures
        enc_calls_tail(cs.push(t)) == enc_calls_tail(cs) + seq![','] + enc_call(t),
    decreases cs.len(),
{
    if cs.len() == 0 {
        assert(cs.push(t)[cs.len() as int] == t);
        assert(cs.push(t)[0] == t);
        assert(cs.push(t).drop_first() =~= Seq::<ToolCallView>::empty());
        assert(enc_calls_tail(cs.push(t)) == seq![','] + enc_call(t) + enc_calls_tail(
            Seq::<ToolCallView>::empty(),
        ));
        assert(enc_calls_tail(Seq::<ToolCallView>::empty()) == Seq::<char>::empty());
        assert(enc_calls_tail(cs) == Seq::<char>::empty());
        assert(enc_calls_tail(cs.push(t)) =~= enc_calls_tail(cs) + seq![','] + enc_call(t));
    } else {
        assert(cs.push(t).drop_first() =~= cs.drop_first().push(t));
        assert(cs.push(t)[0] == cs[0]);
        lemma_enc_calls_tail_snoc(cs.drop_first(), t);
        assert(enc_calls_tail(cs.push(t)) =~= enc_calls_tail(cs) + seq![','] + enc_call(t));
    }
}

/// Appends an encoded tool-call array to `out`.
fn push_calls(out: &mut Vec<char>, v: &Vec<ToolCallRequest>) -> (nothing: ())
    ensures
        final(out)@ == old(out)@ + enc_calls(calls_view(*v)),
{
    let ghost base = out@;
    let ghost cv = calls_view(*v);
    out.push('[');
    if v.len() == 0 {
        out.push(']');
        proof {
            assert(out@ =~= base + enc_calls(cv));
        }
        return ;
    }
    proof {
        assert(cv[0] == v@[0]@);
    }
    push_call(out, &v[0]);
    let mut i: usize = 1;
    while i < v.len()
        invariant
            1 <= i <= v@.len(),
            cv == calls_view(*v),
            cv.len() == v@.len(),
            out@ == base + seq!['['] + enc_call(cv[0]) + enc_calls_tail(cv.subrange(1, i as int)),
        decreases v@.len() - i,
    {
        let ghost done = cv.subrange(1, i as int);
        out.push(',');
        proof {
            assert(cv[i as int] == v@[i as int]@);
        }
        push_call(out, &v[i]);
        proof {
            lemma_enc_calls_tail_snoc(done, cv[i as int]);
            assert(done.push(cv[i as int]) =~= cv.subrange(1, i + 1));
            assert(out@ =~= base + seq!['['] + enc_call(cv[0]) + enc_calls_tail(
                cv.subrange(1, i + 1),
            ));
        }
        i = i + 1;
    }
    out.push(']');
    proof {
        assert(cv.subrange(1, cv.len() as int) =~= cv.drop_first());
        assert(out@ =~= base + enc_calls(cv));
    }
}

/// Parses the elements of a non-empty tool-call array, as
/// `parse_calls_rest` describes.
fn parse_calls_rest_at(buf: &Vec<char>, pos: usize) -> (r: Option<(Vec<ToolCallRequest>, usize)>)
    requires
        pos <= buf@.len(),
    ensures
        match r {
            Some(vp) => {
                &&& parse_calls_rest(buf@, pos as int) == Some((calls_view(vp.0), vp.1 as int))
                &&& pos < vp.1 <= buf@.len()
            },
            None => parse_calls_rest(buf@, pos as int) is None,
        },
    decreases buf@.len() - pos,
{
    let (tc, p) = match parse_call_at(buf, pos) {
        Some(tp) => tp,
        None => {
            return None;
        },
    };
    if p < buf.len() && buf[p] == ',' {
        match parse_calls_rest_at(buf, p + 1) {
            None => None,
            Some((rest, p2)) => {
                let mut v: Vec<ToolCallRequest> = Vec::new();
                v.push(tc);
                let ghost first = calls_view(v);
                let mut rest = rest;
                let ghost rv = calls_view(rest);
                let mut k: usize = 0;
                while k < rest.len()
                    invariant
                        k <= rest@.len(),
                        rv == calls_view(rest),
                        rv.len() == rest@.len(),
                        v@.len() == 1 + k,
                        calls_view(v) =~= first + rv.subrange(0, k as int),
                        first.len() == 1,
                    decreases rest@.len() - k,
                {
                    proof {
                        assert(rv[k as int] == rest@[k as int]@);
                    }
                    let ghost vold = v;
                    v.push(rest[k].clone());
                    proof {
                        assert forall|i: int|
                            0 <= i < calls_view(v).len() implies calls_view(v)[i] == (first
                            + rv.subrange(0, k + 1))[i] by {
                            assert(calls_view(v)[i] == v@[i]@);
                            if i < v@.len() - 1 {
                                assert(v@[i] == vold@[i]);
                                assert(calls_view(vold)[i] == vold@[i]@);
                            } else {
                                assert(v@[i]@ == rv[k as int]);
                            }
                        }
                        assert(calls_view(v) =~= first + rv.subrange(0, k + 1));
                    }
                    k = k + 1;
                }
                proof {
                    assert(rv.subrange(0, rv.len() as int) =~= rv);
                    assert(calls_view(v) =~= seq![tc@] + rv);
                }
                Some((v, p2))
            },
        }
    } else if p < buf.len() && buf[p] == ']' {
        let mut v: Vec<ToolCallRequest> = Vec::new();
        v.push(tc);
        proof {
            assert(calls_view(v) =~= seq![tc@]);
        }
        Some((v, p + 1))
    } else {
        None
    }
}

/// Parses an optional tool-call array, as `parse_opt_calls` describes.
fn parse_opt_calls_at(buf: &Vec<char>, pos: usize) -> (r: Option<
    (Option<Vec<ToolCallRequest>>, usize),
>)
    requires
        pos <= buf@.len(),
    ensures
        match r {
            Some(vp) => {
                &&& parse_opt_calls(buf@, pos as int) == Some(
                    (crate::msg::opt_calls_view(vp.0), vp.1 as int),
                )
                &&& pos < vp.1 <= buf@.len()
            },
            None => parse_opt_calls(buf@, pos as int) is None,
        },
{
    match expect_lit(buf, pos, "null") {
        Some(p) => {
            proof {
                reveal_strlit("null");
            }
            Some((None, p))
        },
        None => {
            if pos < buf.len() && buf[pos] == '[' {
                if pos + 1 < buf.len() && buf[pos + 1] == ']' {
                    let empty_calls: Vec<ToolCallRequest> = Vec::new();
                    proof {
                        assert(calls_view(empty_calls) =~= Seq::<ToolCallView>::empty());
                    }
                    Some((Some(empty_calls), pos + 2))
                } else {
                    match parse_calls_rest_at(buf, pos + 1) {
                        Some((v, p)) => Some((Some(v), p)),
                        None => None,
                    }
                }
            } else {
                None
            }
        },
    }
}

// ---------------------------------------------------------------------------
// Messages.
// ---------------------------------------------------------------------------

/// How a role is written in the file.
pub open spec fn role_str(r: Role) -> Seq<char> {
    match r {
        Role::System => "system"@,
        Role::User => "user"@,
        Role::Assistant => "assistant"@,
        Role::Tool => "tool"@,
    }
}

/// The role written as `s`, if any.
pub open spec fn role_of(s: Seq<char>) -> Option<Role> {
    if s == "system"@ {
        Some(Role::System)
    } else if s == "user"@ {
        Some(Role::User)
    } else if s == "assistant"@ {
        Some(Role::Assistant)
    } else if s == "tool"@ {
        Some(Role::Tool)
    } else {
        None
    }
}

proof fn lemma_role_round(r: Role)
    ensures
        role_of(role_str(r)) == Some(r),
{
    reveal_strlit("system");
    reveal_strlit("user");
    reveal_strlit("assistant");
    reveal_strlit("tool");
    match r {
        Role::System => {},
        Role::User => {
            assert("user"@ != "system"@) by {
                assert("user"@.len() == 4);
                assert("system"@.len() == 6);
            }
        },
        Role::Assistant => {
            assert("assistant"@ != "system"@) by {
                assert("assistant"@.len() == 9);
                assert("system"@.len() == 6);
            }
            assert("assistant"@ != "user"@) by {
                assert("assistant"@.len() == 9);
                assert("user"@.len() == 4);
            }
        },
        Role::Tool => {
            assert("tool"@ != "system"@) by {
                assert("tool"@.len() == 4);
                assert("system"@.len() == 6);
            }
            assert("tool"@ != "user"@) by {
                assert("tool"@[0] == 't');
                assert("user"@[0] == 'u');
            }
            assert("tool"@ != "assistant"@) by {
                assert("tool"@.len() == 4);
                assert("assistant"@.len() == 9);
            }
        },
    }
}

/// The file form of a role.
fn role_name(r: Role) -> (s: &'static str)
    ensures
        s@ == role_str(r),
{
    match r {
        Role::System => "system",
        Role::User => "user",
        Role::Assistant => "assistant",
        Role::Tool => "tool",
    }
}

/// The role written in `v`, as `role_of` describes.
fn role_of_chars(v: &Vec<char>) -> (r: Option<Role>)
    ensures
        r == role_of(v@),
{
    if chars_eq_str(v, "system") {
        Some(Role::System)
    } else if chars_eq_str(v, "user") {
        Some(Role::User)
    } else if chars_eq_str(v, "assistant") {
        Some(Role::Assistant)
    } else if chars_eq_str(v, "tool") {
        Some(Role::Tool)
    } else {
        None
    }
}

pub open spec fn lit_msg_open() -> Seq<char> {
    "{\"role\":"@
}

pub open spec fn lit_msg_content() -> Seq<char> {
    ",\"content\":"@
}

pub open spec fn lit_msg_name() -> Seq<char> {
    ",\"name\":"@
}

pub open spec fn lit_msg_tcid() -> Seq<char> {
    ",\"tool_call_id\":"@
}

pub open spec fn lit_msg_tcalls() -> Seq<char> {
    ",\"tool_calls\":"@
}

/// One message as an object with every field written, absent ones as
/// `null`.
pub open spec fn enc_msg(m: MessageView) -> Seq<char> {
    lit_msg_open() + enc_string(role_str(m.role)) + lit_msg_content() + enc_opt_string(m.content)
        + lit_msg_name() + enc_opt_string(m.name) + lit_msg_tcid() + enc_opt_string(
        m.tool_call_id,
    ) + lit_msg_tcalls() + enc_opt_calls(m.tool_calls) + seq!['}']
}

/// Parses one message object at `pos`.
pub open spec fn parse_msg(inp: Seq<char>, pos: int) -> Option<(MessageView, int)> {
    match parse_lit(inp, pos, lit_msg_open()) {
        None => None,
        Some(p1) => match parse_string_at(inp, p1) {
            None => None,
            Some((rs, p2)) => match role_of(rs) {
                None => None,
                Some(role) => match parse_lit(inp, p2, lit_msg_content()) {
                    None => None,
                    Some(p3) => match parse_opt_string(inp, p3) {
                        None => None,
                        Some((content, p4)) => match parse_lit(inp, p4, lit_msg_name()) {
                            None => None,
                            Some(p5) => match parse_opt_string(inp, p5) {
                                None => None,
                                Some((name, p6)) => match parse_lit(inp, p6, lit_msg_tcid()) {
                                    None => None,
                                    Some(p7) => match parse_opt_string(inp, p7) {
                                        None => None,
                                        Some((tool_call_id, p8)) => match parse_lit(
                                            inp,
                                            p8,
                                            lit_msg_tcalls(),
                                        ) {
                                            None => None,
                                            Some(p9) => match parse_opt_calls(inp, p9) {
                                                None => None,
                                                Some((tool_calls, p10)) => {
                                                    if p10 < inp.len() && inp[p10] == '}' {
                                                        Some(
                                                            (
                                                                MessageView {
                                                                    role,
                                                                    content,
                                                                    name,
                                                                    tool_call_id,
                                                                    tool_calls,
                                                                },
                                                                p10 + 1,
                                                            ),
                                                        )
                                                    } else {
                                                        None
                                                    }
                                                },
                                            },
                                        },
                                    },
                                },
                            },
                        },
                    },
                },
            },
        },
    }
}

/// Parsing an encoded message recovers it.
proof fn lemma_parse_msg_of_enc(m: MessageView, inp: Seq<char>, pos: int)
    requires
        0 <= pos,
        pos + enc_msg(m).len() <= inp.len(),
        inp.subrange(pos, pos + enc_msg(m).len()) == enc_msg(m),
    ensures
        parse_msg(inp, pos) == Some((m, pos + enc_msg(m).len())),
{
    let b1 = lit_msg_open();
    let b2 = b1 + enc_string(role_str(m.role));
    let b3 = b2 + lit_msg_content();
    let b4 = b3 + enc_opt_string(m.content);
    let b5 = b4 + lit_msg_name();
    let b6 = b5 + enc_opt_string(m.name);
    let b7 = b6 + lit_msg_tcid();
    let b8 = b7 + enc_opt_string(m.tool_call_id);
    let b9 = b8 + lit_msg_tcalls();
    let b10 = b9 + enc_opt_calls(m.tool_calls);
    lemma_subrange_split(inp, pos, b10, seq!['}']);
    lemma_subrange_split(inp, pos, b9, enc_opt_calls(m.tool_calls));
    lemma_subrange_split(inp, pos, b8, lit_msg_tcalls());
    lemma_subrange_split(inp, pos, b7, enc_opt_string(m.tool_call_id));
    lemma_subrange_split(inp, pos, b6, lit_msg_tcid());
    lemma_subrange_split(inp, pos, b5, enc_opt_string(m.name));
    lemma_subrange_split(inp, pos, b4, lit_msg_name());
    lemma_subrange_split(inp, pos, b3, enc_opt_string(m.content));
    lemma_subrange_split(inp, pos, b2, lit_msg_content());
    lemma_subrange_split(inp, pos, b1, enc_string(role_str(m.role)));
    let p1 = pos + b1.len() as int;
    let p2 = pos + b2.len() as int;
    let p3 = pos + b3.len() as int;
    let p4 = pos + b4.len() as int;
    let p5 = pos + b5.len() as int;
    let p6 = pos + b6.len() as int;
    let p7 = pos + b7.len() as int;
    let p8 = pos + b8.len() as int;
    let p9 = pos + b9.len() as int;
    let p10 = pos + b10.len() as int;
    assert(parse_lit(inp, pos, lit_msg_open()) == Some(p1));
    lemma_parse_string_of_enc(role_str(m.role), inp, p1);
    lemma_role_round(m.role);
    assert(parse_lit(inp, p2, lit_msg_content()) == Some(p3));
    lemma_parse_opt_string_of_enc(m.content, inp, p3);
    assert(parse_lit(inp, p4, lit_msg_name()) == Some(p5));
    lemma_parse_opt_string_of_enc(m.name, inp, p5);
    assert(parse_lit(inp, p6, lit_msg_tcid()) == Some(p7));
    lemma_parse_opt_string_of_enc(m.tool_call_id, inp, p7);
    assert(parse_lit(inp, p8, lit_msg_tcalls()) == Some(p9));
    lemma_parse_opt_calls_of_enc(m.tool_calls, inp, p9);
    assert(inp[p10] == '}') by {
        assert(inp.subrange(p10, p10 + 1)[0] == inp[p10]);
    }
    assert(MessageView {
        role: m.role,
        content: m.content,
        name: m.name,
        tool_call_id: m.tool_call_id,
        tool_calls: m.tool_calls,
    } =~= m);
}

/// Appends one encoded message to `out`.
#[verifier::rlimit(80)]
fn push_message(out: &mut Vec<char>, m: &Message)
    ensures
        final(out)@ == old(out)@ + enc_msg(m@),
{
    push_lit(out, "{\"role\":");
    push_jstring(out, role_name(m.role));
    push_lit(out, ",\"content\":");
    match &m.content {
        None => push_lit(out, "null"),
        Some(s) => push_jstring(out, s.as_str()),
    }
    push_lit(out, ",\"name\":");
    match &m.name {
        None => push_lit(out, "null"),
        Some(s) => push_jstring(out, s.as_str()),
    }
    push_lit(out, ",\"tool_call_id\":");
    match &m.tool_call_id {
        None => push_lit(out, "null"),
        Some(s) => push_jstring(out, s.as_str()),
    }
    push_lit(out, ",\"tool_calls\":");
    match &m.tool_calls {
        None => push_lit(out, "null"),
        Some(v) => push_calls(out, v),
    }
    out.push('}');
    proof {
        assert(out@ =~= old(out)@ + enc_msg(m@));
    }
}

/// Parses one message object, as `parse_msg` describes.
fn parse_msg_at(buf: &Vec<char>, pos: usize) -> (r: Option<(Message, usize)>)
    requires
        pos <= buf@.len(),
    ensures
        match r {
            Some(mp) => {
                &&& parse_msg(buf@, pos as int) == Some((mp.0@, mp.1 as int))
                &&& pos < mp.1 <= buf@.len()
            },
            None => parse_msg(buf@, pos as int) is None,
        },
{
    let p1 = match expect_lit(buf, pos, "{\"role\":") {
        Some(p) => p,
        None => {
            return None;
        },
    };
    let (rs, p2) = match parse_jstring(buf, p1) {
        Some(sp) => sp,
        None => {
            return None;
        },
    };
    let role = match role_of_chars(&rs) {
        Some(role) => role,
        None => {
            return None;
        },
    };
    let p3 = match expect_lit(buf, p2, ",\"content\":") {
        Some(p) => p,
        None => {
            return None;
        },
    };
    let (content, p4) = match parse_opt_string_at(buf, p3) {
        Some(sp) => sp,
        None => {
            return None;
        },
    };
    let p5 = match expect_lit(buf, p4, ",\"name\":") {
        Some(p) => p,
        None => {
            return None;
        },
    };
    let (name, p6) = match parse_opt_string_at(buf, p5) {
        Some(sp) => sp,
        None => {
            return None;
        },
    };
    let p7 = match expect_lit(buf, p6, ",\"tool_call_id\":") {
        Some(p) => p,
        None => {
            return None;
        },
    };
    let (tool_call_id, p8) = match parse_opt_string_at(buf, p7) {
        Some(sp) => sp,
        None => {
            return None;
        },
    };
    let p9 = match expect_lit(buf, p8, ",\"tool_calls\":") {
        Some(p) => p,
        None => {
            return None;
        },
    };
    let (tool_calls, p10) = match parse_opt_calls_at(buf, p9) {
        Some(vp) => vp,
        None => {
            return None;
        },
    };
    if p10 < buf.len() && buf[p10] == '}' {
        let m = Message { role, content, name, tool_call_id, tool_calls };
        Some((m, p10 + 1))
    } else {
        None
    }
}

// ---------------------------------------------------------------------------
// The session document.
// ---------------------------------------------------------------------------

pub open spec fn lit_session_open() -> Seq<char> {
    "{\"messages\":["@
}

/// The messages after the first, each preceded by a comma.
pub open spec fn enc_msgs_tail(ms: Seq<MessageView>) -> Seq<char>
    decreases ms.len(),
{
    if ms.len() == 0 {
        Seq::<char>::empty()
    } else {
        seq![','] + enc_msg(ms[0]) + enc_msgs_tail(ms.drop_first())
    }
}

/// The body of a non-empty message array: elements, commas, closing
/// bracket.
pub open spec fn msgs_body(ms: Seq<MessageView>) -> Seq<char>
    recommends
        ms.len() > 0,
{
    enc_msg(ms[0]) + enc_msgs_tail(ms.drop_first()) + seq![']']
}

/// A whole session as one JSON document.
pub open spec fn enc_session(ms: Seq<MessageView>) -> Seq<char> {
    lit_session_open() + (if ms.len() == 0 {
        seq![']']
    } else {
        msgs_body(ms)
    }) + seq!['}']
}

/// Parses the elements of a non-empty message array from the first element
/// through the closing bracket.
pub open spec fn parse_msgs_rest(inp: Seq<char>, pos: int) -> Option<(Seq<MessageView>, int)>
    decreases inp.len() - pos when 0 <= pos <= inp.len()
{
    if pos < 0 || pos > inp.len() {
        None
    } else {
        match parse_msg(inp, pos) {
            None => None,
            Some((m, p)) => {
                if !(pos < p <= inp.len()) {
                    None
                } else if p < inp.len() && inp[p] == ',' {
                    match parse_msgs_rest(inp, p + 1) {
                        None => None,
                        Some((rest, p2)) => Some((seq![m] + rest, p2)),
                    }
                } else if p < inp.len() && inp[p] == ']' {
                    Some((seq![m], p + 1))
                } else {
                    None
                }
            },
        }
    }
}

/// Parses a session document at `pos`.
pub open spec fn parse_session(inp: Seq<char>, pos: int) -> Option<(Seq<MessageView>, int)> {
    match parse_lit(inp, pos, lit_session_open()) {
        None => None,
        Some(p1) => {
            if p1 < inp.len() && inp[p1] == ']' {
                if p1 + 1 < inp.len() && inp[p1 + 1] == '}' {
                    Some((Seq::<MessageView>::empty(), p1 + 2))
                } else {
                    None
                }
            } else {
                match parse_msgs_rest(inp, p1) {
                    None => None,
                    Some((ms, p2)) => {
                        if p2 < inp.len() && inp[p2] == '}' {
                            Some((ms, p2 + 1))
                        } else {
                            None
                        }
                    },
                }
            }
        },
    }
}

/// A session document, required to span the whole text.
pub open spec fn parse_session_full(inp: Seq<char>) -> Option<Seq<MessageView>> {
    match parse_session(inp, 0) {
        Some((ms, p)) => {
            if p == inp.len() {
                Some(ms)
            } else {
                None
            }
        },
        None => None,
    }
}

proof fn lemma_assoc_bracket(e0: Seq<char>, x: Seq<char>, y: Seq<char>)
    ensures
        (e0 + (seq![','] + x + y)) + seq![']'] == (e0 + seq![',']) + (x + y + seq![']']),
{
    assert((e0 + (seq![','] + x + y)) + seq![']'] =~= (e0 + seq![',']) + (x + y + seq![']']));
}

#[verifier::rlimit(100)]
proof fn lemma_parse_msgs_rest_of_enc(ms: Seq<MessageView>, inp: Seq<char>, pos: int)
    requires
        ms.len() > 0,
        0 <= pos,
        pos + msgs_body(ms).len() <= inp.len(),
        inp.subrange(pos, pos + msgs_body(ms).len()) == msgs_body(ms),
    ensures
        parse_msgs_rest(inp, pos) == Some((ms, pos + msgs_body(ms).len())),
    decreases ms.len(),
{
    let e0 = enc_msg(ms[0]);
    let tail = enc_msgs_tail(ms.drop_first());
    let p = pos + e0.len() as int;
    if ms.len() == 1 {
        lemma_subrange_split(inp, pos, e0 + tail, seq![']']);
        lemma_subrange_split(inp, pos, e0, tail);
        lemma_parse_msg_of_enc(ms[0], inp, pos);
        assert(tail.len() == 0);
        assert(inp[p] == ']') by {
            assert(inp.subrange(p, p + 1)[0] == inp[p]);
        }
        assert(inp[p] != ',');
        assert(seq![ms[0]] =~= ms);
    } else {
        let rest = ms.drop_first();
        let x = enc_msg(rest[0]);
        let y = enc_msgs_tail(rest.drop_first());
        assert(tail == seq![','] + x + y);
        let after = msgs_body(rest);
        assert(after == x + y + seq![']']);
        lemma_assoc_bracket(e0, x, y);
        assert(msgs_body(ms) == (e0 + seq![',']) + after);
        lemma_subrange_split(inp, pos, e0 + seq![','], after);
        lemma_subrange_split(inp, pos, e0, seq![',']);
        lemma_parse_msg_of_enc(ms[0], inp, pos);
        assert(inp[p] == ',') by {
            assert(inp.subrange(p, p + 1)[0] == inp[p]);
        }
        lemma_parse_msgs_rest_of_enc(rest, inp, p + 1);
        assert(seq![ms[0]] + rest =~= ms);
    }
}

proof fn lemma_parse_session_of_enc(ms: Seq<MessageView>, inp: Seq<char>, pos: int)
    requires
        0 <= pos,
        pos + enc_session(ms).len() <= inp.len(),
        inp.subrange(pos, pos + enc_session(ms).len()) == enc_session(ms),
    ensures
        parse_session(inp, pos) == Some((ms, pos + enc_session(ms).len())),
{
    let l = lit_session_open();
    let mid = if ms.len() == 0 {
        seq![']']
    } else {
        msgs_body(ms)
    };
    lemma_subrange_split(inp, pos, l + mid, seq!['}']);
    lemma_subrange_split(inp, pos, l, mid);
    assert(parse_lit(inp, pos, l) == Some(pos + l.len()));
    let p1 = pos + l.len() as int;
    let pend = pos + l.len() + mid.len() as int;
    assert(inp[pend] == '}') by {
        assert(inp.subrange(pend, pend + 1)[0] == inp[pend]);
    }
    if ms.len() == 0 {
        assert(inp[p1] == ']') by {
            assert(inp.subrange(p1, p1 + 1)[0] == inp[p1]);
        }
    } else {
        assert(inp[p1] == msgs_body(ms)[0]) by {
            assert(inp.subrange(p1, p1 + mid.len())[0] == inp[p1]);
        }
        assert(enc_msg(ms[0])[0] == '{') by {
            reveal_strlit("{\"role\":");
            let m0 = ms[0];
            let l1 = lit_msg_open();
            let x1 = l1 + enc_string(role_str(m0.role));
            let x2 = x1 + lit_msg_content();
            let x3 = x2 + enc_opt_string(m0.content);
            let x4 = x3 + lit_msg_name();
            let x5 = x4 + enc_opt_string(m0.name);
            let x6 = x5 + lit_msg_tcid();
            let x7 = x6 + enc_opt_string(m0.tool_call_id);
            let x8 = x7 + lit_msg_tcalls();
            let x9 = x8 + enc_opt_calls(m0.tool_calls);
            assert(enc_msg(m0) == x9 + seq!['}']);
            assert(l1[0] == '{');
            assert(x1[0] == l1[0]);
            assert(x2[0] == x1[0]);
            assert(x3[0] == x2[0]);
            assert(x4[0] == x3[0]);
            assert(x5[0] == x4[0]);
            assert(x6[0] == x5[0]);
            assert(x7[0] == x6[0]);
            assert(x8[0] == x7[0]);
            assert(x9[0] == x8[0]);
            assert((x9 + seq!['}'])[0] == x9[0]);
        }
        assert(msgs_body(ms)[0] == enc_msg(ms[0])[0]) by {
            assert((enc_msg(ms[0]) + enc_msgs_tail(ms.drop_first()))[0] == enc_msg(ms[0])[0]);
            assert(((enc_msg(ms[0]) + enc_msgs_tail(ms.drop_first())) + seq![']'])[0] == (enc_msg(
                ms[0],
            ) + enc_msgs_tail(ms.drop_first()))[0]);
        }
        assert(inp[p1] != ']');
        lemma_parse_msgs_rest_of_enc(ms, inp, p1);
    }
}

/// Round trip of the session file codec: decoding an encoded session
/// yields exactly the session that was encoded, for every well-formed
/// session.
pub proof fn lemma_codec_round_trip(ms: Seq<MessageView>)
    ensures
        parse_session_full(enc_session(ms)) == Some(ms),
{
    let inp = enc_session(ms);
    assert(inp.subrange(0, inp.len() as int) =~= inp);
    lemma_parse_session_of_enc(ms, inp, 0);
}

proof fn lemma_enc_msgs_tail_snoc(ms: Seq<MessageView>, m: MessageView)
    ensures
        enc_msgs_tail(ms.push(m)) == enc_msgs_tail(ms) + seq![','] + enc_msg(m),
    decreases ms.len(),
{
    if ms.len() == 0 {
        assert(ms.push(m)[ms.len() as int] == m);
        assert(ms.push(m)[0] == m);
        assert(ms.push(m).drop_first() =~= Seq::<MessageView>::empty());
        assert(enc_msgs_tail(ms.push(m)) == seq![','] + enc_msg(m) + enc_msgs_tail(
            Seq::<MessageView>::empty(),
        ));
        assert(enc_msgs_tail(Seq::<MessageView>::empty()) == Seq::<char>::empty());
        assert(enc_msgs_tail(ms) == Seq::<char>::empty());
        assert(enc_msgs_tail(ms.push(m)) =~= enc_msgs_tail(ms) + seq![','] + enc_msg(m));
    } else {
        assert(ms.push(m).drop_first() =~= ms.drop_first().push(m));
        assert(ms.push(m)[0] == ms[0]);
        lemma_enc_msgs_tail_snoc(ms.drop_first(), m);
        assert(enc_msgs_tail(ms.push(m)) =~= enc_msgs_tail(ms) + seq![','] + enc_msg(m));
    }
}

/// Writes a session as one JSON document, as `enc_session` describes.
pub fn encode_session(s: &Session) -> (r: String)
    ensures
        r@ == enc_session(s@),
{
    let mut out: Vec<char> = Vec::new();
    push_lit(&mut out, "{\"messages\":[");
    let ghost sv = s@;
    if s.messages.len() > 0 {
        proof {
            assert(sv[0] == s.messages@[0]@);
        }
        push_message(&mut out, &s.messages[0]);
        let mut i: usize = 1;
        while i < s.messages.len()
            invariant
                1 <= i <= s.messages@.len(),
                sv == s@,
                sv.len() == s.messages@.len(),
                out@ == lit_session_open() + enc_msg(sv[0]) + enc_msgs_tail(
                    sv.subrange(1, i as int),
                ),
            decreases s.messages@.len() - i,
        {
            let ghost done = sv.subrange(1, i as int);
            out.push(',');
            proof {
                assert(sv[i as int] == s.messages@[i as int]@);
            }
            push_message(&mut out, &s.messages[i]);
            proof {
                lemma_enc_msgs_tail_snoc(done, sv[i as int]);
                assert(done.push(sv[i as int]) =~= sv.subrange(1, i + 1));
                assert(out@ =~= lit_session_open() + enc_msg(sv[0]) + enc_msgs_tail(
                    sv.subrange(1, i + 1),
                ));
            }
            i = i + 1;
        }
        out.push(']');
        out.push('}');
        proof {
            assert(sv.subrange(1, sv.len() as int) =~= sv.drop_first());
            assert(out@ =~= enc_session(sv));
        }
    } else {
        out.push(']');
        out.push('}');
        proof {
            assert(out@ =~= enc_session(sv));
        }
    }
    chars_to_string(&out)
}

/// Parses the elements of a non-empty message array, as `parse_msgs_rest`
/// describes.
fn parse_msgs_rest_at(buf: &Vec<char>, pos: usize) -> (r: Option<(Vec<Message>, usize)>)
    requires
        pos <= buf@.len(),
    ensures
        match r {
            Some(vp) => {
                &&& parse_msgs_rest(buf@, pos as int) == Some(
                    (vp.0@.map_values(|m: Message| m@), vp.1 as int),
                )
                &&& pos < vp.1 <= buf@.len()
            },
            None => parse_msgs_rest(buf@, pos as int) is None,
        },
    decreases buf@.len() - pos,
{
    let (m, p) = match parse_msg_at(buf, pos) {
        Some(mp) => mp,
        None => {
            return None;
        },
    };
    if p < buf.len() && buf[p] == ',' {
        match parse_msgs_rest_at(buf, p + 1) {
            None => None,
            Some((rest, p2)) => {
                let mut v: Vec<Message> = Vec::new();
                v.push(m);
                let ghost first = v@.map_values(|x: Message| x@);
                let ghost rv = rest@.map_values(|x: Message| x@);
                let mut k: usize = 0;
                while k < rest.len()
                    invariant
                        k <= rest@.len(),
                        rv == rest@.map_values(|x: Message| x@),
                        rv.len() == rest@.len(),
                        v@.len() == 1 + k,
                        v@.map_values(|x: Message| x@) =~= first + rv.subrange(0, k as int),
                        first.len() == 1,
                    decreases rest@.len() - k,
                {
                    proof {
                        assert(rv[k as int] == rest@[k as int]@);
                    }
                    let ghost vold = v;
                    v.push(rest[k].clone());
                    proof {
                        let newv = v@.map_values(|x: Message| x@);
                        assert forall|i: int| 0 <= i < newv.len() implies newv[i] == (first
                            + rv.subrange(0, k + 1))[i] by {
                            assert(newv[i] == v@[i]@);
                            if i < v@.len() - 1 {
                                assert(v@[i] == vold@[i]);
                                assert(vold@.map_values(|x: Message| x@)[i] == vold@[i]@);
                            } else {
                                assert(v@[i]@ == rv[k as int]);
                            }
                        }
                        assert(newv =~= first + rv.subrange(0, k + 1));
                    }
                    k = k + 1;
                }
                proof {
                    assert(rv.subrange(0, rv.len() as int) =~= rv);
                    assert(v@.map_values(|x: Message| x@) =~= seq![m@] + rv);
                }
                Some((v, p2))
            },
        }
    } else if p < buf.len() && buf[p] == ']' {
        let mut v: Vec<Message> = Vec::new();
        v.push(m);
        proof {
            assert(v@.map_values(|x: Message| x@) =~= seq![m@]);
        }
        Some((v, p + 1))
    } else {
        None
    }
}

/// Reads a session back from its file text, as `parse_session_full`
/// describes: the whole text must be one session document.
pub fn decode_session(text: &str) -> (r: Option<Session>)
    ensures
        match r {
            Some(s) => parse_session_full(text@) == Some(s@),
            None => parse_session_full(text@) is None,
        },
{
    let buf = str_to_chars(text);
    let p1 = match expect_lit(&buf, 0, "{\"messages\":[") {
        Some(p) => p,
        None => {
            return None;
        },
    };
    if p1 < buf.len() && buf[p1] == ']' {
        if p1 + 1 < buf.len() && buf[p1 + 1] == '}' && p1 + 2 == buf.len() {
            let s = Session { messages: Vec::new() };
            proof {
                assert(s@ =~= Seq::<MessageView>::empty());
            }
            Some(s)
        } else {
            None
        }
    } else {
        match parse_msgs_rest_at(&buf, p1) {
            None => None,
            Some((v, p2)) => {
                if p2 < buf.len() && buf[p2] == '}' && p2 + 1 == buf.len() {
                    Some(Session { messages: v })
                } else {
                    None
                }
            },
        }
    }
}

/// What loading a session file yields: the decoded history, or an empty
/// session when the file is missing or does not decode. Loading never
/// fails.
pub open spec fn loaded_session(text: Option<Seq<char>>) -> Seq<MessageView> {
    match text {
        Some(t) => match parse_session_full(t) {
            Some(ms) => ms,
            None => Seq::<MessageView>::empty(),
        },
        None => Seq::<MessageView>::empty(),
    }
}

/// Reads a session from the contents of its file, `None` standing for a
/// file that is missing or unreadable.
pub fn load_session(text: Option<&str>) -> (s: Session)
    ensures
        s@ == loaded_session(
            match text {
                Some(t) => Some(t@),
                None => None,
            },
        ),
{
    match text {
        Some(t) => match decode_session(t) {
            Some(s) => s,
            None => {
                let s = Session { messages: Vec::new() };
                proof {
                    assert(s@ =~= Seq::<MessageView>::empty());
                }
                s
            },
        },
        None => {
            let s = Session { messages: Vec::new() };
            proof {
                assert(s@ =~= Seq::<MessageView>::empty());
            }
            s
        },
    }
}

} // verus!
