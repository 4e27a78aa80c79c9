//! The keyword highlighter for the line being edited. A line is cut into a
//! lossless alternation of word tokens (runs of alphanumeric or `!`
//! characters) and separator tokens (runs of everything else); word tokens
//! that match a keyword, case-insensitively, are wrapped in a bold-blue
//! ANSI escape and its reset; everything is emitted in the original order,
//! so the output with the inserted escapes removed is the original line.

use vstd::prelude::*;
use crate::text::{unicode_alnum, is_alnum_char};

verus! {

/// A character that can form a word token: alphanumeric or `!`.
pub open spec fn word_char(c: char) -> bool {
    unicode_alnum(c) || c == '!'
}

fn is_word_char(c: char) -> (r: bool)
    ensures
        r == word_char(c),
{
    c == '!' || is_alnum_char(c)
}

/// The escape that opens a highlighted keyword: bold blue.
pub open spec fn hl_prefix() -> Seq<char> {
    seq!['\u{1b}', '[', '1', ';', '3', '4', 'm']
}

/// The escape that closes a highlighted keyword: reset.
pub open spec fn hl_suffix() -> Seq<char> {
    seq!['\u{1b}', '[', '0', 'm']
}

/// The code point a character counts as when compared without case: an
/// ASCII capital letter counts as its lower-case form.
pub open spec fn lower_code(c: char) -> int {
    if 65 <= c as int && c as int <= 90 {
        c as int + 32
    } else {
        c as int
    }
}

/// Equality of two token texts up to ASCII case.
pub open spec fn ci_equal(a: Seq<char>, b: Seq<char>) -> bool {
    a.len() == b.len() && forall|i: int| 0 <= i < a.len() ==> lower_code(a[i]) == lower_code(b[i])
}

/// Whether a token matches some keyword, case-insensitively.
pub open spec fn kw_match(kws: Seq<Seq<char>>, tok: Seq<char>) -> bool {
    exists|k: int| 0 <= k < kws.len() && ci_equal(#[trigger] kws[k], tok)
}

fn lower_code_of(c: char) -> (r: u32)
    ensures
        r as int == lower_code(c),
{
    let code = c as u32;
    if code >= 65 && code <= 90 {
        code + 32
    } else {
        code
    }
}

fn str_ci_eq(a: &str, b: &str) -> (r: bool)
    ensures
        r == ci_equal(a@, b@),
{
    let na = a.unicode_len();
    let nb = b.unicode_len();
    if na != nb {
        return false;
    }
    let mut i: usize = 0;
    while i < na
        invariant
            i <= na,
            na == a@.len(),
            na == b@.len(),
            forall|j: int| 0 <= j < i ==> lower_code(a@[j]) == lower_code(b@[j]),
        decreases na - i,
    {
        if lower_code_of(a.get_char(i)) != lower_code_of(b.get_char(i)) {
            return false;
        }
        i = i + 1;
    }
    true
}

/// The keywords the highlighter colors, matched without regard to ASCII
/// case. Supplied by the embedding application; `EditHelper::new` uses the
/// stock set.
pub struct KeywordSet {
    words: Vec<String>,
}

impl View for KeywordSet {
    type V = Seq<Seq<char>>;

    closed spec fn view(&self) -> Seq<Seq<char>> {
        self.words.deep_view()
    }
}

impl KeywordSet {
    /// A keyword set holding exactly these words.
    pub fn new(words: Vec<String>) -> (r: KeywordSet)
        ensures
            r@ == words.deep_view(),
    {
        KeywordSet { words }
    }

    /// Whether `tok` matches one of the keywords, case-insensitively.
    pub fn contains_ci(&self, tok: &str) -> (r: bool)
        ensures
            r == kw_match(self@, tok@),
    {
        let n = self.words.len();
        let mut k: usize = 0;
        while k < n
            invariant
                k <= n,
                n == self@.len(),
                self@ == self.words.deep_view(),
                forall|j: int| 0 <= j < k ==> !ci_equal(#[trigger] self@[j], tok@),
            decreases n - k,
        {
            if str_ci_eq(self.words[k].as_str(), tok) {
                proof {
                    assert(ci_equal(self@[k as int], tok@));
                }
                return true;
            }
            k = k + 1;
        }
        false
    }
}

/// The end of the token that starts at `i`: the first later position whose
/// character is on the other side of the word/separator divide.
pub open spec fn run_end(s: Seq<char>, i: int) -> int
    recommends
        0 <= i < s.len(),
    decreases s.len() - i,
{
    if i + 1 >= s.len() {
        s.len() as int
    } else if word_char(s[i + 1]) == word_char(s[i]) {
        run_end(s, i + 1)
    } else {
        i + 1
    }
}

pub proof fn lemma_run_end(s: Seq<char>, i: int)
    requires
        0 <= i < s.len(),
    ensures
        i < run_end(s, i) <= s.len(),
        forall|k: int| i <= k < run_end(s, i) ==> word_char(s[k]) == word_char(s[i]),
        run_end(s, i) < s.len() ==> word_char(s[run_end(s, i)]) != word_char(s[i]),
    decreases s.len() - i,
{
    if i + 1 < s.len() && word_char(s[i + 1]) == word_char(s[i]) {
        lemma_run_end(s, i + 1);
    }
}

proof fn lemma_run_end_eq(s: Seq<char>, i: int, j: int)
    requires
        0 <= i < j <= s.len(),
        forall|k: int| i <= k < j ==> word_char(s[k]) == word_char(s[i]),
        j == s.len() || word_char(s[j]) != word_char(s[i]),
    ensures
        run_end(s, i) == j,
    decreases j - i,
{
    if i + 1 < j {
        lemma_run_end_eq(s, i + 1, j);
    }
}

/// The highlighted form of the line from position `i` on: each token in
/// order, a word token that matches a keyword wrapped in the escape pair.
pub open spec fn hl_from(s: Seq<char>, kws: Seq<Seq<char>>, i: int) -> Seq<char>
    recommends
        0 <= i <= s.len(),
    decreases s.len() - i,
    via hl_from_decreases
{
    if i < 0 || i >= s.len() {
        Seq::empty()
    } else {
        let j = run_end(s, i);
        let tok = s.subrange(i, j);
        (if word_char(s[i]) && kw_match(kws, tok) {
            hl_prefix() + tok + hl_suffix()
        } else {
            tok
        }) + hl_from(s, kws, j)
    }
}

#[via_fn]
proof fn hl_from_decreases(s: Seq<char>, kws: Seq<Seq<char>>, i: int) {
    if 0 <= i < s.len() {
        lemma_run_end(s, i);
    }
}

/// The highlighted form of a whole line; a line of at most one character
/// is returned unchanged.
pub open spec fn spec_highlight(s: Seq<char>, kws: Seq<Seq<char>>) -> Seq<char> {
    if s.len() <= 1 {
        s
    } else {
        hl_from(s, kws, 0)
    }
}

/// Re-colors `line` for display: every word token that matches a keyword
/// of `keywords` is wrapped in the bold-blue/reset escape pair, every
/// other character is emitted unchanged, in order.
pub fn highlight(line: &str, keywords: &KeywordSet) -> (out: String)
    ensures
        out@ == spec_highlight(line@, keywords@),
{
    let n = line.unicode_len();
    if n <= 1 {
        return String::from_str(line);
    }
    let mut out = String::new();
    let mut i: usize = 0;
    proof {
        assert(Seq::<char>::empty() + hl_from(line@, keywords@, 0) =~= hl_from(
            line@,
            keywords@,
            0,
        ));
    }
    while i < n
        invariant
            i <= n,
            n == line@.len(),
            hl_from(line@, keywords@, 0) == out@ + hl_from(line@, keywords@, i as int),
        decreases n - i,
    {
        let wc_i = is_word_char(line.get_char(i));
        let mut j: usize = i + 1;
        while j < n && is_word_char(line.get_char(j)) == wc_i
            invariant
                i < j <= n,
                n == line@.len(),
                wc_i == word_char(line@[i as int]),
                forall|k: int| i <= k < j ==> word_char(line@[k]) == word_char(line@[i as int]),
            decreases n - j,
        {
            j = j + 1;
        }
        proof {
            lemma_run_end_eq(line@, i as int, j as int);
        }
        let tok = line.substring_char(i, j);
        let ghost prev = out@;
        if wc_i && keywords.contains_ci(tok) {
            out.append("\x1b[1;34m");
            out.append(tok);
            out.append("\x1b[0m");
            proof {
                reveal_strlit("\x1b[1;34m");
                reveal_strlit("\x1b[0m");
                assert("\x1b[1;34m"@ =~= hl_prefix());
                assert("\x1b[0m"@ =~= hl_suffix());
                assert(out@ =~= prev + (hl_prefix() + tok@ + hl_suffix()));
            }
        } else {
            out.append(tok);
        }
        proof {
            let s = line@;
            let kws = keywords@;
            let piece = if word_char(s[i as int]) && kw_match(kws, tok@) {
                hl_prefix() + tok@ + hl_suffix()
            } else {
                tok@
            };
            assert(out@ == prev + piece);
            assert(hl_from(s, kws, i as int) == piece + hl_from(s, kws, j as int));
            assert(prev + (piece + hl_from(s, kws, j as int)) =~= (prev + piece) + hl_from(
                s,
                kws,
                j as int,
            ));
        }
        i = j;
    }
    proof {
        assert(hl_from(line@, keywords@, n as int) =~= Seq::<char>::empty());
        assert(out@ + Seq::<char>::empty() =~= out@);
    }
    out
}

/// A highlighted line with every occurrence of the two inserted escape
/// sequences removed.
pub open spec fn strip_codes(s: Seq<char>) -> Seq<char>
    decreases s.len(),
{
    if s.len() == 0 {
        Seq::empty()
    } else if s.len() >= 7 && s.take(7) == hl_prefix() {
        strip_codes(s.skip(7))
    } else if s.len() >= 4 && s.take(4) == hl_suffix() {
        strip_codes(s.skip(4))
    } else {
        seq![s[0]] + strip_codes(s.drop_first())
    }
}

proof fn lemma_strip_plain(t: Seq<char>, rest: Seq<char>)
    requires
        forall|k: int| 0 <= k < t.len() ==> t[k] != '\u{1b}',
    ensures
        strip_codes(t + rest) == t + strip_codes(rest),
    decreases t.len(),
{
    if t.len() == 0 {
        assert(t + rest =~= rest);
        assert(t + strip_codes(rest) =~= strip_codes(rest));
    } else {
        let s = t + rest;
        assert(s[0] == t[0]);
        if s.len() >= 7 && s.take(7) == hl_prefix() {
            assert(s.take(7)[0] == s[0]);
            assert(false);
        }
        if s.len() >= 4 && s.take(4) == hl_suffix() {
            assert(s.take(4)[0] == s[0]);
            assert(false);
        }
        assert(s.drop_first() =~= t.drop_first() + rest);
        assert(forall|k: int|
            0 <= k < t.drop_first().len() ==> #[trigger] t.drop_first()[k] != '\u{1b}');
        lemma_strip_plain(t.drop_first(), rest);
        assert(seq![t[0]] + (t.drop_first() + strip_codes(rest)) =~= t + strip_codes(rest));
    }
}

proof fn lemma_strip_wrapped(t: Seq<char>, rest: Seq<char>)
    requires
        forall|k: int| 0 <= k < t.len() ==> t[k] != '\u{1b}',
    ensures
        strip_codes(hl_prefix() + t + hl_suffix() + rest) == t + strip_codes(rest),
{
    let s = hl_prefix() + t + hl_suffix() + rest;
    assert(s.len() >= 7);
    assert(s.take(7) =~= hl_prefix());
    assert(s.skip(7) =~= t + (hl_suffix() + rest));
    lemma_strip_plain(t, hl_suffix() + rest);
    let u = hl_suffix() + rest;
    if u.len() >= 7 && u.take(7) == hl_prefix() {
        assert(u.take(7)[2] == u[2]);
        assert(u[2] == '0');
        assert(false);
    }
    assert(u.len() >= 4);
    assert(u.take(4) =~= hl_suffix());
    assert(u.skip(4) =~= rest);
}

proof fn lemma_strip_hl_from(s: Seq<char>, kws: Seq<Seq<char>>, i: int)
    requires
        0 <= i <= s.len(),
        forall|k: int| 0 <= k < s.len() ==> s[k] != '\u{1b}',
    ensures
        strip_codes(hl_from(s, kws, i)) == s.skip(i),
    decreases s.len() - i,
{
    if i >= s.len() {
        assert(s.skip(i) =~= Seq::<char>::empty());
    } else {
        lemma_run_end(s, i);
        let j = run_end(s, i);
        let tok = s.subrange(i, j);
        assert forall|k: int| 0 <= k < tok.len() implies tok[k] != '\u{1b}' by {
            assert(tok[k] == s[i + k]);
        }
        lemma_strip_hl_from(s, kws, j);
        assert(tok + s.skip(j) =~= s.skip(i));
        if word_char(s[i]) && kw_match(kws, tok) {
            assert(hl_from(s, kws, i) =~= hl_prefix() + tok + hl_suffix() + hl_from(s, kws, j));
            lemma_strip_wrapped(tok, hl_from(s, kws, j));
        } else {
            lemma_strip_plain(tok, hl_from(s, kws, j));
        }
    }
}

/// The losslessness law of the highlighter: for a line that holds no
/// escape character of its own, removing every inserted escape sequence
/// from the highlighted line yields exactly the original line, whatever
/// the keyword set.
pub proof fn lemma_highlight_lossless(s: Seq<char>, kws: Seq<Seq<char>>)
    requires
        forall|k: int| 0 <= k < s.len() ==> s[k] != '\u{1b}',
    ensures
        strip_codes(spec_highlight(s, kws)) == s,
{
    if s.len() <= 1 {
        lemma_strip_plain(s, Seq::empty());
        assert(s + Seq::<char>::empty() =~= s);
        assert(strip_codes(Seq::<char>::empty()) =~= Seq::<char>::empty());
        assert(s + strip_codes(Seq::<char>::empty()) =~= s);
    } else {
        lemma_strip_hl_from(s, kws, 0);
        assert(s.skip(0) =~= s);
    }
}

/// The word and separator tokens of a line, in order: the lossless
/// partition that the highlighter colors token by token.
pub open spec fn partition_from(s: Seq<char>, i: int) -> Seq<Seq<char>>
    recommends
        0 <= i <= s.len(),
    decreases s.len() - i,
    via partition_from_decreases
{
    if i < 0 || i >= s.len() {
        Seq::empty()
    } else {
        seq![s.subrange(i, run_end(s, i))] + partition_from(s, run_end(s, i))
    }
}

#[via_fn]
proof fn partition_from_decreases(s: Seq<char>, i: int) {
    if 0 <= i < s.len() {
        lemma_run_end(s, i);
    }
}

pub open spec fn spec_partition(s: Seq<char>) -> Seq<Seq<char>> {
    partition_from(s, 0)
}

/// Cuts a line into its maximal word and separator runs, in order; `None`
/// for the empty line, whose partition has no tokens.
pub fn split_with_whitespace(line: &str) -> (r: Option<Vec<String>>)
    ensures
        match r {
            Some(v) => line@.len() > 0 && v.deep_view() == spec_partition(line@),
            None => line@.len() == 0,
        },
{
    let n = line.unicode_len();
    if n == 0 {
        return None;
    }
    let mut toks: Vec<String> = Vec::new();
    let mut i: usize = 0;
    proof {
        assert(toks.deep_view() + partition_from(line@, 0) =~= partition_from(line@, 0));
    }
    while i < n
        invariant
            i <= n,
            n == line@.len(),
            spec_partition(line@) == toks.deep_view() + partition_from(line@, i as int),
        decreases n - i,
    {
        let wc_i = is_word_char(line.get_char(i));
        let mut j: usize = i + 1;
        while j < n && is_word_char(line.get_char(j)) == wc_i
            invariant
                i < j <= n,
                n == line@.len(),
                wc_i == word_char(line@[i as int]),
                forall|k: int| i <= k < j ==> word_char(line@[k]) == word_char(line@[i as int]),
            decreases n - j,
        {
            j = j + 1;
        }
        proof {
            lemma_run_end_eq(line@, i as int, j as int);
        }
        let tok = String::from_str(line.substring_char(i, j));
        let ghost prev = toks.deep_view();
        toks.push(tok);
        proof {
            let s = line@;
            assert(toks.deep_view() =~= prev.push(s.subrange(i as int, j as int)));
            assert(partition_from(s, i as int) == seq![s.subrange(i as int, j as int)]
                + partition_from(s, j as int));
            assert(prev + (seq![s.subrange(i as int, j as int)] + partition_from(s, j as int))
                =~= toks.deep_view() + partition_from(s, j as int));
        }
        i = j;
    }
    proof {
        assert(partition_from(line@, n as int) =~= Seq::<Seq<char>>::empty());
        assert(toks.deep_view() + Seq::<Seq<char>>::empty() =~= toks.deep_view());
    }
    Some(toks)
}

/// The stock keyword vocabulary of the line editor.
pub open spec fn default_keywords() -> Seq<Seq<char>> {
    seq![
        "select"@,
        "as"@,
        "load"@,
        "set"@,
        "from"@,
        "where"@,
        "connect"@,
        "!show"@,
    ]
}

/// The line-editing helper: tells a complete statement from a continuing
/// one, and re-colors the line being edited. The surrounding program wires
/// it to its line-editing library.
pub struct EditHelper {
    keywords: KeywordSet,
}

impl EditHelper {
    pub closed spec fn spec_keywords(&self) -> Seq<Seq<char>> {
        self.keywords@
    }

    /// A helper with the stock keyword vocabulary.
    pub fn new() -> (r: EditHelper)
        ensures
            r.spec_keywords() == default_keywords(),
    {
        let mut words: Vec<String> = Vec::new();
        words.push(String::from_str("select"));
        words.push(String::from_str("as"));
        words.push(String::from_str("load"));
        words.push(String::from_str("set"));
        words.push(String::from_str("from"));
        words.push(String::from_str("where"));
        words.push(String::from_str("connect"));
        words.push(String::from_str("!show"));
        proof {
            assert(words.deep_view() =~= default_keywords());
        }
        EditHelper { keywords: KeywordSet::new(words) }
    }

    /// A helper with a caller-supplied keyword vocabulary.
    pub fn with_keywords(keywords: KeywordSet) -> (r: EditHelper)
        ensures
            r.spec_keywords() == keywords@,
    {
        EditHelper { keywords }
    }

    /// Whether the buffered input is a complete statement.
    pub fn validate(&self, buffer: &str) -> (r: bool)
        ensures
            r == crate::complete::spec_is_complete(buffer@),
    {
        crate::complete::is_complete(buffer)
    }

    /// The re-colored form of the line being edited.
    pub fn highlight(&self, line: &str) -> (r: String)
        ensures
            r@ == spec_highlight(line@, self.spec_keywords()),
    {
        highlight(line, &self.keywords)
    }
}

} // verus!
