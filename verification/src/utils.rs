//! Whitespace-field splitting and decimal parsing, shared by the system
//! info reader and the web fetcher. The `/proc` reads themselves live with
//! the driver.

use vstd::prelude::*;
use crate::strutil::{is_ws, is_ws_exec, str_to_chars};

verus! {

/// Index of the first whitespace character, or the length if none.
pub open spec fn first_ws_index(s: Seq<char>) -> int
    decreases s.len(),
{
    if s.len() == 0 {
        0
    } else if is_ws(s[0]) {
        0
    } else {
        1 + first_ws_index(s.drop_first())
    }
}

pub proof fn lemma_first_ws_index(s: Seq<char>)
    ensures
        0 <= first_ws_index(s) <= s.len(),
        forall|j: int| 0 <= j < first_ws_index(s) ==> !is_ws(#[trigger] s[j]),
        first_ws_index(s) < s.len() ==> is_ws(s[first_ws_index(s)]),
    decreases s.len(),
{
    if s.len() == 0 {
    } else if is_ws(s[0]) {
    } else {
        lemma_first_ws_index(s.drop_first());
        assert forall|j: int| 0 <= j < first_ws_index(s) implies !is_ws(#[trigger] s[j]) by {
            if j >= 1 {
                assert(s[j] == s.drop_first()[j - 1]);
                assert(!is_ws(s.drop_first()[j - 1]));
            }
        }
    }
}

/// The maximal whitespace-free fields of a text, in order; none is empty.
pub open spec fn ws_split(s: Seq<char>) -> Seq<Seq<char>>
    decreases s.len(),
{
    if s.len() == 0 {
        Seq::<Seq<char>>::empty()
    } else if is_ws(s[0]) {
        ws_split(s.drop_first())
    } else {
        let k = first_ws_index(s);
        if 1 <= k <= s.len() {
            seq![s.subrange(0, k)] + ws_split(s.subrange(k, s.len() as int))
        } else {
            Seq::<Seq<char>>::empty()
        }
    }
}

/// Splits `v` from `pos` on into whitespace-free fields.
pub fn ws_split_from(v: &Vec<char>, pos: usize) -> (r: Vec<Vec<char>>)
    requires
        pos <= v@.len(),
    ensures
        r@.map_values(|f: Vec<char>| f@) == ws_split(v@.subrange(pos as int, v@.len() as int)),
    decreases v@.len() - pos,
{
    let ghost s = v@.subrange(pos as int, v@.len() as int);
    if pos == v.len() {
        let r: Vec<Vec<char>> = Vec::new();
        proof {
            assert(r@.map_values(|f: Vec<char>| f@) =~= ws_split(s));
        }
        return r;
    }
    if is_ws_exec(v[pos]) {
        let r = ws_split_from(v, pos + 1);
        proof {
            assert(s.drop_first() =~= v@.subrange(pos + 1, v@.len() as int));
        }
        return r;
    }
    let mut k: usize = pos;
    while k < v.len() && !is_ws_exec(v[k])
        invariant
            pos <= k <= v@.len(),
            forall|j: int| pos <= j < k ==> !is_ws(#[trigger] v@[j]),
        decreases v@.len() - k,
    {
        k = k + 1;
    }
    proof {
        lemma_first_ws_index(s);
        // The scan found exactly the first whitespace position.
        assert(forall|j: int| 0 <= j < k - pos ==> s[j] == #[trigger] v@[pos + j]);
        assert(first_ws_index(s) == k - pos) by {
            if first_ws_index(s) < k - pos {
                assert(is_ws(s[first_ws_index(s)]));
                assert(!is_ws(v@[pos + first_ws_index(s)]));
            }
            if first_ws_index(s) > k - pos {
                assert(k < v@.len());
                assert(is_ws(v@[k as int]));
                assert(!is_ws(s[k - pos]));
            }
        }
    }
    let mut field: Vec<char> = Vec::new();
    let mut j: usize = pos;
    while j < k
        invariant
            pos <= j <= k <= v@.len(),
            field@ =~= v@.subrange(pos as int, j as int),
        decreases k - j,
    {
        field.push(v[j]);
        proof {
            assert(field@ =~= v@.subrange(pos as int, j + 1));
        }
        j = j + 1;
    }
    let mut rest = ws_split_from(v, k);
    let ghost rest_old = rest@;
    let ghost restv = rest@.map_values(|f: Vec<char>| f@);
    let ghost fieldv = field@;
    let mut r: Vec<Vec<char>> = Vec::new();
    r.push(field);
    let ghost rpre = r@;
    r.append(&mut rest);
    proof {
        assert(v@.subrange(k as int, v@.len() as int) =~= s.subrange(k - pos, s.len() as int));
        assert(fieldv =~= s.subrange(0, k - pos));
        let target = seq![s.subrange(0, k - pos)] + ws_split(s.subrange(k - pos, s.len() as int));
        assert(ws_split(s) == target);
        assert(r@ == rpre + rest_old);
        assert forall|i: int|
            0 <= i < r@.len() implies r@.map_values(|f: Vec<char>| f@)[i] == #[trigger] target[i] by {
            assert(r@.map_values(|f: Vec<char>| f@)[i] == r@[i]@);
            if i == 0 {
                assert(r@[0] == rpre[0]);
            } else {
                assert(r@[i] == rest_old[i - 1]);
                assert(restv[i - 1] == rest_old[i - 1]@);
            }
        }
        assert(r@.map_values(|f: Vec<char>| f@) =~= target);
    }
    r
}

/// Whether every character is a decimal digit.
pub open spec fn all_digits(s: Seq<char>) -> bool {
    forall|i: int| 0 <= i < s.len() ==> '0' <= #[trigger] s[i] <= '9'
}

/// The value of a decimal digit string.
pub open spec fn dec_value(s: Seq<char>) -> int
    decreases s.len(),
{
    if s.len() == 0 {
        0
    } else {
        dec_value(s.drop_last()) * 10 + (s.last() as int - '0' as int)
    }
}

proof fn lemma_dec_value_nonneg(s: Seq<char>)
    requires
        all_digits(s),
    ensures
        dec_value(s) >= 0,
    decreases s.len(),
{
    if s.len() > 0 {
        assert(all_digits(s.drop_last())) by {
            assert(forall|i: int|
                0 <= i < s.len() - 1 ==> #[trigger] s.drop_last()[i] == s[i]);
        }
        lemma_dec_value_nonneg(s.drop_last());
    }
}

/// Parses a non-empty digit field as a number; `None` when a character is
/// not a digit or the value does not fit.
pub fn parse_u64(field: &Vec<char>) -> (r: Option<u64>)
    ensures
        match r {
            Some(n) => all_digits(field@) && n == dec_value(field@),
            None => !all_digits(field@) || dec_value(field@) > u64::MAX,
        },
{
    let mut acc: u64 = 0;
    let mut i: usize = 0;
    while i < field.len()
        invariant
            i <= field@.len(),
            all_digits(field@.subrange(0, i as int)),
            acc == dec_value(field@.subrange(0, i as int)),
        decreases field@.len() - i,
    {
        let ghost done = field@.subrange(0, i as int);
        let c = field[i];
        if !('0' <= c && c <= '9') {
            proof {
                assert(!all_digits(field@)) by {
                    assert(field@[i as int] == c);
                }
            }
            return None;
        }
        let d: u64 = (c as u32 - '0' as u32) as u64;
        proof {
            assert(done.push(c) =~= field@.subrange(0, i + 1));
            assert(field@.subrange(0, i + 1).drop_last() =~= done);
        }
        let step = match acc.checked_mul(10) {
            Some(t) => t.checked_add(d),
            None => None,
        };
        match step {
            Some(next) => {
                acc = next;
            },
            None => {
                proof {
                    let upto = field@.subrange(0, i + 1);
                    assert(dec_value(upto) == acc * 10 + d);
                    assert(dec_value(upto) > u64::MAX);
                    if all_digits(field@) {
                        lemma_dec_prefix_le(field@, i + 1);
                    }
                }
                return None;
            },
        }
        proof {
            assert(all_digits(field@.subrange(0, i + 1))) by {
                assert(forall|j: int|
                    0 <= j < i ==> #[trigger] field@.subrange(0, i + 1)[j] == done[j]);
                assert(field@.subrange(0, i + 1)[i as int] == c);
            }
        }
        i = i + 1;
    }
    proof {
        assert(field@.subrange(0, field@.len() as int) =~= field@);
    }
    Some(acc)
}

/// A digit string is worth at least any of its prefixes.
proof fn lemma_dec_prefix_le(s: Seq<char>, n: int)
    requires
        0 <= n <= s.len(),
        all_digits(s),
    ensures
        dec_value(s.subrange(0, n)) <= dec_value(s),
    decreases s.len() - n,
{
    if n == s.len() {
        assert(s.subrange(0, n) =~= s);
    } else {
        lemma_dec_prefix_le(s, n + 1);
        let a = s.subrange(0, n);
        let b = s.subrange(0, n + 1);
        assert(b.drop_last() =~= a);
        assert(dec_value(b) == dec_value(a) * 10 + (b.last() as int - '0' as int));
        assert(all_digits(a)) by {
            assert(forall|j: int| 0 <= j < n ==> #[trigger] a[j] == s[j]);
        }
        lemma_dec_value_nonneg(a);
        assert('0' <= b.last() <= '9') by {
            assert(b.last() == s[n]);
        }
    }
}

/// The resident-set size in kilobytes that a `/proc/self/statm` text
/// reports: its second field is a page count, at 4 KB per page; a text
/// whose second field is missing, not a number, or too large yields 0.
pub fn rss_kb_from_statm(statm: &str) -> (r: u64)
    ensures
        ({
            let fields = ws_split(statm@);
            if fields.len() >= 2 && all_digits(fields[1]) && 4 * dec_value(fields[1])
                <= u64::MAX {
                r == 4 * dec_value(fields[1])
            } else {
                r == 0
            }
        }),
{
    let chars = str_to_chars(statm);
    let fields = ws_split_from(&chars, 0);
    proof {
        assert(chars@.subrange(0, chars@.len() as int) =~= statm@);
    }
    if fields.len() < 2 {
        return 0;
    }
    proof {
        assert(ws_split(statm@)[1] == fields@[1]@);
    }
    match parse_u64(&fields[1]) {
        Some(pages) => match pages.checked_mul(4) {
            Some(kb) => kb,
            None => 0,
        },
        None => 0,
    }
}

} // verus!
