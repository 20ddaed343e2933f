//! Character-level helpers: ASCII case-insensitive comparison and splitting
//! input on ASCII whitespace.

use vstd::prelude::*;

verus! {

/// The characters that `char::is_ascii_whitespace` accepts.
pub open spec fn is_ascii_ws(c: char) -> bool {
    c == ' ' || c == '\t' || c == '\n' || c == '\x0C' || c == '\r'
}

pub open spec fn is_ascii_upper(c: char) -> bool {
    'A' <= c && c <= 'Z'
}

/// Two characters are equal once ASCII letters are folded to lower case.
pub open spec fn char_eq_ci(a: char, b: char) -> bool {
    a == b || (is_ascii_upper(a) && (a as u32) + 32 == (b as u32)) || (is_ascii_upper(b) && (b
        as u32) + 32 == (a as u32))
}

/// Two strings are equal up to ASCII case.
pub open spec fn eq_ci(a: Seq<char>, b: Seq<char>) -> bool {
    a.len() == b.len() && forall|i: int| 0 <= i < a.len() ==> #[trigger] char_eq_ci(a[i], b[i])
}

/// The token that is being read so far, if it is not empty.
pub open spec fn pending(cur: Seq<char>) -> Seq<Seq<char>> {
    if cur.len() > 0 {
        seq![cur]
    } else {
        seq![]
    }
}

/// Splits `s` on ASCII whitespace, `cur` being the token read so far.
pub open spec fn tokens_from(s: Seq<char>, cur: Seq<char>) -> Seq<Seq<char>>
    decreases s.len(),
{
    if s.len() == 0 {
        pending(cur)
    } else if is_ascii_ws(s[0]) {
        pending(cur) + tokens_from(s.drop_first(), seq![])
    } else {
        tokens_from(s.drop_first(), cur.push(s[0]))
    }
}

/// The maximal runs of non-whitespace characters of `s`, in order.
pub open spec fn tokens(s: Seq<char>) -> Seq<Seq<char>> {
    tokens_from(s, seq![])
}

/// Compares two strings, ignoring the case of ASCII letters.
pub fn eq_ignore_ascii_case(a: &str, b: &str) -> (r: bool)
    ensures
        r == eq_ci(a@, b@),
{
    let n = a.unicode_len();
    let m = b.unicode_len();
    if n != m {
        return false;
    }
    let mut i: usize = 0;
    while i < n
        invariant
            n == a@.len(),
            m == b@.len(),
            n == m,
            i <= n,
            forall|k: int| 0 <= k < i ==> #[trigger] char_eq_ci(a@[k], b@[k]),
        decreases n - i,
    {
        let x = a.get_char(i);
        let y = b.get_char(i);
        let same = x == y || ('A' <= x && x <= 'Z' && (x as u32) + 32 == (y as u32)) || ('A' <= y
            && y <= 'Z' && (y as u32) + 32 == (x as u32));
        if !same {
            assert(!char_eq_ci(a@[i as int], b@[i as int]));
            return false;
        }
        i += 1;
    }
    true
}

proof fn lemma_tokens_step(s: Seq<char>, i: int, cur: Seq<char>)
    requires
        0 <= i < s.len(),
    ensures
        tokens_from(s.skip(i), cur) == if is_ascii_ws(s[i]) {
            pending(cur) + tokens_from(s.skip(i + 1), seq![])
        } else {
            tokens_from(s.skip(i + 1), cur.push(s[i]))
        },
{
    assert(s.skip(i).drop_first() =~= s.skip(i + 1));
}

/// Splits `s` into its tokens: the maximal runs of characters that are not
/// ASCII whitespace, in order. An empty or blank string has none.
pub fn split_ascii_whitespace(s: &str) -> (r: Vec<&str>)
    ensures
        r@.len() == tokens(s@).len(),
        forall|k: int| 0 <= k < r@.len() ==> #[trigger] r@[k]@ == tokens(s@)[k],
{
    let n = s.unicode_len();
    let mut out: Vec<&str> = Vec::new();
    let mut start: usize = 0;
    let mut i: usize = 0;
    let ghost views: Seq<Seq<char>> = seq![];
    proof {
        assert(s@.skip(0) =~= s@);
        assert(s@.subrange(0, 0) =~= seq![]);
        assert(views + tokens(s@) =~= tokens(s@));
    }
    while i < n
        invariant
            n == s@.len(),
            start <= i <= n,
            views.len() == out@.len(),
            forall|k: int| 0 <= k < out@.len() ==> #[trigger] out@[k]@ == views[k],
            tokens(s@) == views + tokens_from(s@.skip(i as int), s@.subrange(
                start as int,
                i as int,
            )),
        decreases n - i,
    {
        let c = s.get_char(i);
        proof {
            lemma_tokens_step(s@, i as int, s@.subrange(start as int, i as int));
        }
        if c == ' ' || c == '\t' || c == '\n' || c == '\x0C' || c == '\r' {
            let ghost before = views;
            let ghost cur = s@.subrange(start as int, i as int);
            if start < i {
                let t = s.substring_char(start, i);
                out.push(t);
                proof {
                    views = views.push(t@);
                }
            }
            proof {
                assert(s@.subrange(i as int + 1, i as int + 1) =~= seq![]);
                if start < i {
                    assert(before + (seq![cur] + tokens_from(s@.skip(i + 1), seq![])) =~= views
                        + tokens_from(s@.skip(i + 1), seq![]));
                } else {
                    assert(before + (seq![] + tokens_from(s@.skip(i + 1), seq![])) =~= views
                        + tokens_from(s@.skip(i + 1), seq![]));
                }
            }
            i += 1;
            start = i;
        } else {
            proof {
                assert(s@.subrange(start as int, i as int).push(s@[i as int]) =~= s@.subrange(
                    start as int,
                    i as int + 1,
                ));
            }
            i += 1;
        }
    }
    proof {
        assert(s@.skip(n as int).len() == 0);
    }
    if start < n {
        let t = s.substring_char(start, n);
        out.push(t);
        proof {
            views = views.push(t@);
            assert(views =~= tokens(s@));
        }
    } else {
        proof {
            assert(views + seq![] =~= views);
        }
    }
    out
}

/// No character of `s` is ASCII whitespace.
pub open spec fn has_no_ws(s: Seq<char>) -> bool {
    forall|i: int| 0 <= i < s.len() ==> !is_ascii_ws(#[trigger] s[i])
}

proof fn lemma_tokens_from_no_ws(s: Seq<char>, cur: Seq<char>)
    requires
        has_no_ws(cur),
    ensures
        forall|k: int|
            0 <= k < tokens_from(s, cur).len() ==> has_no_ws(#[trigger] tokens_from(s, cur)[k]),
    decreases s.len(),
{
    if s.len() == 0 {
        assert forall|k: int| 0 <= k < tokens_from(s, cur).len() implies has_no_ws(
            #[trigger] tokens_from(s, cur)[k],
        ) by {
            assert(tokens_from(s, cur)[k] == cur);
        }
    } else if is_ascii_ws(s[0]) {
        lemma_tokens_from_no_ws(s.drop_first(), seq![]);
        let rest = tokens_from(s.drop_first(), seq![]);
        assert forall|k: int| 0 <= k < tokens_from(s, cur).len() implies has_no_ws(
            #[trigger] tokens_from(s, cur)[k],
        ) by {
            if k >= pending(cur).len() {
                assert(tokens_from(s, cur)[k] == rest[k - pending(cur).len()]);
            } else {
                assert(tokens_from(s, cur)[k] == cur);
            }
        }
    } else {
        let c2 = cur.push(s[0]);
        assert forall|i: int| 0 <= i < c2.len() implies !is_ascii_ws(#[trigger] c2[i]) by {
            if i < cur.len() {
                assert(c2[i] == cur[i]);
            }
        }
        lemma_tokens_from_no_ws(s.drop_first(), c2);
        assert(tokens_from(s, cur) == tokens_from(s.drop_first(), c2));
    }
}

/// No token holds whitespace.
pub proof fn lemma_tokens_no_ws(s: Seq<char>)
    ensures
        forall|k: int| 0 <= k < tokens(s).len() ==> has_no_ws(#[trigger] tokens(s)[k]),
{
    lemma_tokens_from_no_ws(s, seq![]);
}

} // verus!
