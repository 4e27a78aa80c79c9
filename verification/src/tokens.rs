//! Splitting a line into whitespace-delimited tokens: the first token names
//! a command, the rest are its arguments.

use vstd::prelude::*;

verus! {

/// An ASCII whitespace character, as `char::is_ascii_whitespace` lists them.
pub open spec fn is_ascii_ws(c: char) -> bool {
    c == ' ' || c == '\t' || c == '\n' || c == '\r' || c == '\u{c}'
}

/// The length of the leading run of non-whitespace characters.
pub open spec fn word_len(s: Seq<char>) -> int
    decreases s.len(),
{
    if s.len() == 0 || is_ascii_ws(s[0]) {
        0
    } else {
        1 + word_len(s.drop_first())
    }
}

pub proof fn lemma_word_len_bounds(s: Seq<char>)
    ensures
        0 <= word_len(s) <= s.len(),
        s.len() > 0 && !is_ascii_ws(s[0]) ==> word_len(s) >= 1,
    decreases s.len(),
{
    if s.len() > 0 && !is_ascii_ws(s[0]) {
        lemma_word_len_bounds(s.drop_first());
    }
}

/// A run of non-whitespace characters ending at the end of the line or at
/// a whitespace character is exactly the leading word.
pub proof fn lemma_word_len_eq(s: Seq<char>, m: int)
    requires
        0 <= m <= s.len(),
        forall|k: int| 0 <= k < m ==> !is_ascii_ws(s[k]),
        m == s.len() || is_ascii_ws(s[m]),
    ensures
        word_len(s) == m,
    decreases s.len(),
{
    if m == 0 {
    } else {
        assert(!is_ascii_ws(s[0]));
        lemma_word_len_eq(s.drop_first(), m - 1);
    }
}

/// The whitespace-delimited tokens of a line, in order.
pub open spec fn ws_tokens(s: Seq<char>) -> Seq<Seq<char>>
    decreases s.len(),
    via ws_tokens_decreases
{
    if s.len() == 0 {
        Seq::empty()
    } else if is_ascii_ws(s[0]) {
        ws_tokens(s.drop_first())
    } else {
        seq![s.take(word_len(s))] + ws_tokens(s.skip(word_len(s)))
    }
}

#[via_fn]
proof fn ws_tokens_decreases(s: Seq<char>) {
    lemma_word_len_bounds(s);
}

/// A line tokenizes to nothing exactly when every character in it is
/// whitespace; in particular the empty line has no tokens.
pub proof fn lemma_ws_tokens_empty(s: Seq<char>)
    ensures
        ws_tokens(s).len() == 0 <==> (forall|i: int| 0 <= i < s.len() ==> is_ascii_ws(s[i])),
    decreases s.len(),
{
    if s.len() == 0 {
    } else if is_ascii_ws(s[0]) {
        lemma_ws_tokens_empty(s.drop_first());
        if ws_tokens(s).len() == 0 {
            assert forall|i: int| 0 <= i < s.len() implies is_ascii_ws(s[i]) by {
                if i > 0 {
                    assert(is_ascii_ws(s.drop_first()[i - 1]));
                }
            }
        }
    } else {
        lemma_word_len_bounds(s);
    }
}

fn tokenize_from(line: &str, i: usize, n: usize) -> (r: Vec<String>)
    requires
        i <= n,
        n == line@.len(),
    ensures
        r.deep_view() == ws_tokens(line@.skip(i as int)),
    decreases n - i,
{
    if i == n {
        let r: Vec<String> = Vec::new();
        proof {
            assert(line@.skip(i as int) =~= Seq::<char>::empty());
            assert(r.deep_view() =~= ws_tokens(line@.skip(i as int)));
        }
        r
    } else if is_ws_char(line.get_char(i)) {
        proof {
            assert(line@.skip(i as int)[0] == line@[i as int]);
            assert(line@.skip(i as int).drop_first() =~= line@.skip(i + 1));
        }
        tokenize_from(line, i + 1, n)
    } else {
        let mut j: usize = i + 1;
        while j < n && !is_ws_char(line.get_char(j))
            invariant
                i < j <= n,
                n == line@.len(),
                forall|k: int| i <= k < j ==> !is_ascii_ws(line@[k]),
            decreases n - j,
        {
            j = j + 1;
        }
        let word = line.substring_char(i, j);
        let token = String::from_str(word);
        let mut rest = tokenize_from(line, j, n);
        let ghost rest_dv = rest.deep_view();
        let mut r: Vec<String> = Vec::new();
        r.push(token);
        let ghost first = r.deep_view();
        r.append(&mut rest);
        proof {
            let t = line@.skip(i as int);
            assert forall|k: int| 0 <= k < j - i implies !is_ascii_ws(t[k]) by {
                assert(t[k] == line@[i + k]);
            }
            assert(t[0] == line@[i as int]);
            if j < n {
                assert(is_ascii_ws(t[j - i]));
            }
            lemma_word_len_eq(t, j - i);
            assert(t.take(j - i) =~= line@.subrange(i as int, j as int));
            assert(t.skip(j - i) =~= line@.skip(j as int));
            assert(first =~= seq![t.take(word_len(t))]);
            assert(r.deep_view() =~= first + rest_dv);
            assert(r.deep_view() =~= ws_tokens(line@.skip(i as int)));
        }
        r
    }
}

/// Tests a character for ASCII whitespace.
pub fn is_ws_char(c: char) -> (r: bool)
    ensures
        r == is_ascii_ws(c),
{
    c == ' ' || c == '\t' || c == '\n' || c == '\r' || c == '\u{c}'
}

/// Splits a line into its whitespace-delimited tokens, in order.
pub fn tokenize(line: &str) -> (r: Vec<String>)
    ensures
        r.deep_view() == ws_tokens(line@),
{
    let n = line.unicode_len();
    proof {
        assert(line@.skip(0) =~= line@);
    }
    tokenize_from(line, 0, n)
}

} // verus!
