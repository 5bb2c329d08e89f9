//! Merging successive recognitions of the same speech.
//!
//! A preview recognises the same utterance again and again, and each result
//! may differ a little. Words on which two successive results agree are taken as
//! settled; the rest stays tentative. Ideographs count as words of one character,
//! letters and digits form words, and punctuation is not compared.

use vstd::prelude::*;
use vstd::string::*;
use crate::text::letter_or_digit;
use crate::text::blank;
use crate::text::from_chars;
use crate::text::is_letter_or_digit;
use crate::text::lemma_strip_left;
use crate::text::lemma_strip_right;
use crate::text::lowered;
use crate::text::space;
use crate::text::strip_left;
use crate::text::strip_right;
use crate::text::to_chars;
use crate::text::to_lowered;
use crate::text::trim_end;
use crate::text::trim_start;

verus! {

/// A merged result.
#[derive(Debug)]
pub struct Agreement {
    /// What two successive results agree on.
    pub committed: String,
    /// What may still change.
    pub tentative: String,
}

impl Agreement {
    pub fn full(&self) -> (r: String)
        ensures
            r@ == self.committed@ + self.tentative@,
    {
        let mut s = self.committed.clone();
        s.append(self.tentative.as_str());
        s
    }

    pub fn is_empty(&self) -> (r: bool)
        ensures
            r == (self.committed@.len() == 0 && self.tentative@.len() == 0),
    {
        self.committed.as_str().unicode_len() == 0 && self.tentative.as_str().unicode_len() == 0
    }
}

/// Ideographs and kana: scripts that put no blanks between words.
pub open spec fn ideograph(c: char) -> bool {
    let n = c as u32;
    ||| 0x3040 <= n <= 0x30ff
    ||| 0x3400 <= n <= 0x4dbf
    ||| 0x4e00 <= n <= 0x9fff
    ||| 0xf900 <= n <= 0xfaff
}

fn is_cjk_ideograph(c: char) -> (r: bool)
    ensures
        r == ideograph(c),
{
    let n: u32 = c as u32;
    (0x3040 <= n && n <= 0x30ff) || (0x3400 <= n && n <= 0x4dbf) || (0x4e00 <= n && n <= 0x9fff)
        || (0xf900 <= n && n <= 0xfaff)
}

/// Letters and digits of other scripts, and what joins parts of a word. White
/// space never is.
pub open spec fn letter(c: char) -> bool {
    (letter_or_digit(c) && !ideograph(c)) || c == '\'' || c == '-' || c == '_'
}

fn is_latin_word_char(c: char) -> (r: bool)
    ensures
        r == letter(c),
        r ==> !space(c),
{
    (is_letter_or_digit(c) && !is_cjk_ideograph(c)) || c == '\'' || c == '-' || c == '_'
}

/// Characters that are compared.
pub open spec fn word_char(c: char) -> bool {
    ideograph(c) || letter(c)
}

fn is_word_char(c: char) -> (r: bool)
    ensures
        r == word_char(c),
        r ==> !space(c),
{
    is_cjk_ideograph(c) || is_latin_word_char(c)
}

/// A word: where it stands in the text, and its text without regard to case.
#[verifier::ext_equal]
pub ghost struct TokenView {
    pub start: int,
    pub end: int,
    pub norm: Seq<char>,
}

/// Where the letters from `i` on end.
pub open spec fn letters_end(s: Seq<char>, i: int) -> int
    decreases s.len() - i,
{
    if 0 <= i < s.len() && letter(s[i]) {
        letters_end(s, i + 1)
    } else {
        i
    }
}

pub proof fn lemma_letters_end(s: Seq<char>, i: int)
    requires
        0 <= i <= s.len(),
    ensures
        i <= letters_end(s, i) <= s.len(),
        i < s.len() && letter(s[i]) ==> letters_end(s, i) > i,
        letters_end(s, i) > i ==> letter(s[letters_end(s, i) - 1]),
    decreases s.len() - i,
{
    if i < s.len() && letter(s[i]) {
        lemma_letters_end(s, i + 1);
    }
}

/// The words of `s` from position `i` on.
pub open spec fn tokens_from(s: Seq<char>, i: int) -> Seq<TokenView>
    decreases s.len() - i,
{
    if i < 0 || i >= s.len() {
        Seq::empty()
    } else if ideograph(s[i]) {
        seq![TokenView { start: i, end: i + 1, norm: lowered(s.subrange(i, i + 1)) }]
            + tokens_from(s, i + 1)
    } else if letter(s[i]) {
        let e = letters_end(s, i);
        proof {
            lemma_letters_end(s, i);
        }
        seq![TokenView { start: i, end: e, norm: lowered(s.subrange(i, e)) }] + tokens_from(s, e)
    } else {
        tokens_from(s, i + 1)
    }
}

/// The words of a text.
pub open spec fn tokens(s: Seq<char>) -> Seq<TokenView> {
    tokens_from(s, 0)
}

/// A word of a text.
#[derive(Debug)]
pub struct Token {
    pub char_start: usize,
    pub char_end: usize,
    pub norm: String,
}

impl View for Token {
    type V = TokenView;

    open spec fn view(&self) -> TokenView {
        TokenView {
            start: self.char_start as int,
            end: self.char_end as int,
            norm: self.norm@,
        }
    }
}

pub open spec fn token_views(v: Seq<Token>) -> Seq<TokenView> {
    v.map_values(|t: Token| t@)
}

/// Cuts a text into words.
pub fn tokenize(text: &str) -> (r: Vec<Token>)
    ensures
        token_views(r@) == tokens(text@),
{
    let v = to_chars(text);
    let n: usize = v.len();
    let mut out: Vec<Token> = Vec::new();
    let mut i: usize = 0;
    proof {
        assert(token_views(out@) + tokens_from(v@, 0) =~= tokens(v@));
    }
    while i < n
        invariant
            i <= n == v@.len(),
            token_views(out@) + tokens_from(v@, i as int) == tokens(v@),
        decreases n - i,
    {
        let c = v[i];
        let ghost before = token_views(out@);
        let ghost rest = tokens_from(v@, i as int);
        let ideo: bool = is_cjk_ideograph(c);
        if ideo || is_latin_word_char(c) {
            let mut e: usize = i + 1;
            if !ideo {
                e = i;
                while e < n && is_latin_word_char(v[e])
                    invariant
                        i <= e <= n == v@.len(),
                        letters_end(v@, i as int) == letters_end(v@, e as int),
                    decreases n - e,
                {
                    e += 1;
                }
                proof {
                    lemma_letters_end(v@, i as int);
                }
            }
            let word = from_chars(&v, i, e);
            let norm = to_lowered(word.as_str());
            let ghost token = TokenView { start: i as int, end: e as int, norm: norm@ };
            out.push(Token { char_start: i, char_end: e, norm });
            proof {
                assert(token_views(out@) =~= before.push(token));
                assert(rest =~= seq![token] + tokens_from(v@, e as int));
                assert(token_views(out@) + tokens_from(v@, e as int) =~= before + rest);
            }
            i = e;
        } else {
            i += 1;
        }
    }
    proof {
        assert(token_views(out@) + tokens_from(v@, n as int) =~= token_views(out@));
    }
    out
}

/// How many words two results have in common from word `k` on, up to the first
/// that differs.
pub open spec fn common_from(a: Seq<TokenView>, b: Seq<TokenView>, k: int) -> int
    decreases a.len() - k,
{
    if 0 <= k < a.len() && k < b.len() && same_word(a[k], b[k]) {
        1 + common_from(a, b, k + 1)
    } else {
        0
    }
}

/// How many words at the beginning two results have in common.
pub open spec fn common(a: Seq<TokenView>, b: Seq<TokenView>) -> int {
    common_from(a, b, 0)
}

/// Where the characters that are not compared end, from `i` on.
pub open spec fn past_non_word(s: Seq<char>, i: int) -> int
    decreases s.len() - i,
{
    if 0 <= i < s.len() && !word_char(s[i]) {
        past_non_word(s, i + 1)
    } else {
        i
    }
}

/// Up to where `text` is settled, when `prev` are the words of the result
/// before. Of the words in common the last one is held back, so that a text is
/// never settled to its end while it is spoken; punctuation after the last
/// settled word is settled with it.
pub open spec fn settled_until(prev: Seq<TokenView>, text: Seq<char>) -> int {
    let now = tokens(text);
    let agreed = common(now, prev);
    past_non_word(
        text,
        if agreed <= 1 {
            0
        } else {
            now[agreed - 2].end
        },
    )
}

/// The settled part of `text`.
pub open spec fn committed_part(prev: Seq<TokenView>, text: Seq<char>) -> Seq<char> {
    if tokens(text).len() == 0 {
        Seq::empty()
    } else {
        strip_right(text.take(settled_until(prev, text)), |c: char| space(c))
    }
}

/// The part of `text` that may still change.
pub open spec fn tentative_part(prev: Seq<TokenView>, text: Seq<char>) -> Seq<char> {
    if tokens(text).len() == 0 {
        Seq::empty()
    } else {
        strip_left(text.skip(settled_until(prev, text)), |c: char| space(c))
    }
}

/// Counts the words that two results have in common at the beginning.
pub fn common_words(a: &Vec<Token>, b: &Vec<Token>) -> (r: usize)
    ensures
        r == common(token_views(a@), token_views(b@)),
        r <= a@.len(),
{
    let ghost av = token_views(a@);
    let ghost bv = token_views(b@);
    let n: usize = a.len();
    let mut agreed: usize = 0;
    while agreed < n && agreed < b.len() && a[agreed].norm == b[agreed].norm
        invariant
            agreed <= n == a@.len(),
            av == token_views(a@),
            bv == token_views(b@),
            agreed <= bv.len(),
            common(av, bv) == agreed + common_from(av, bv, agreed as int),
        ensures
            agreed <= n,
            common(av, bv) == agreed,
        decreases n - agreed,
    {
        agreed += 1;
    }
    agreed
}

/// Remembers the last result of an utterance.
pub struct HypothesisBuffer {
    prev_tokens: Vec<Token>,
}

impl View for HypothesisBuffer {
    type V = Seq<TokenView>;

    closed spec fn view(&self) -> Seq<TokenView> {
        token_views(self.prev_tokens@)
    }
}

impl HypothesisBuffer {
    pub fn new() -> (r: HypothesisBuffer)
        ensures
            r@.len() == 0,
    {
        HypothesisBuffer { prev_tokens: Vec::new() }
    }

    /// Forgets the last result, for a new utterance.
    pub fn reset(&mut self)
        ensures
            final(self)@.len() == 0,
    {
        self.prev_tokens.clear();
    }

    pub fn has_history(&self) -> (r: bool)
        ensures
            r == (self@.len() > 0),
    {
        self.prev_tokens.len() > 0
    }

    /// Takes in a new result and says what of it is settled. A result with a
    /// word in it always leaves something tentative.
    pub fn update(&mut self, new_text: &str) -> (r: Agreement)
        ensures
            final(self)@ == tokens(new_text@),
            r.committed@ == committed_part(old(self)@, new_text@),
            r.tentative@ == tentative_part(old(self)@, new_text@),
            tokens(new_text@).len() > 0 ==> r.tentative@.len() > 0,
    {
        let ghost prev = self@;
        let now = tokenize(new_text);
        let n: usize = now.len();
        if n == 0 {
            self.prev_tokens = now;
            return Agreement { committed: String::new(), tentative: String::new() };
        }
        let ghost nv = token_views(now@);
        let agreed: usize = common_words(&now, &self.prev_tokens);
        let mut boundary: usize = if agreed <= 1 {
            0
        } else {
            now[agreed - 2].char_end
        };
        let ghost first = boundary as int;
        let ghost next = if agreed <= 1 {
            0
        } else {
            agreed - 1
        };
        let v = to_chars(new_text);
        proof {
            lemma_tokens(v@, 0);
            assert(nv[next as int].start >= first) by {
                if agreed > 1 {
                    assert(nv[agreed - 2].end <= nv[agreed - 1].start);
                    assert(nv[agreed - 2].end == now@[agreed - 2].char_end);
                }
            }
        }
        let len: usize = v.len();
        while boundary < len && !is_word_char(v[boundary])
            invariant
                v@ == new_text@,
                len == v@.len(),
                next < nv.len(),
                nv == tokens(v@),
                first <= boundary <= nv[next as int].start < len,
                word_char(v@[nv[next as int].start]),
                past_non_word(v@, first) == past_non_word(v@, boundary as int),
            ensures
                boundary < len,
                past_non_word(v@, first) == boundary,
                !space(v@[boundary as int]),
            decreases len - boundary,
        {
            boundary += 1;
        }
        self.prev_tokens = now;
        let head = from_chars(&v, 0, boundary);
        let tail = from_chars(&v, boundary, len);
        proof {
            assert(head@ =~= new_text@.take(boundary as int));
            assert(tail@ =~= new_text@.skip(boundary as int));
            assert(tail@[0] == v@[boundary as int]);
        }
        Agreement {
            committed: trim_end(head.as_str()).to_owned(),
            tentative: trim_start(tail.as_str()).to_owned(),
        }
    }
}

/// Words stand in the text, in order, and begin with a compared character.
pub proof fn lemma_tokens(s: Seq<char>, i: int)
    requires
        0 <= i,
    ensures
        forall|k: int|
            0 <= k < tokens_from(s, i).len() ==> {
                let t = #[trigger] tokens_from(s, i)[k];
                i <= t.start < t.end <= s.len() && word_char(s[t.start]) && word_char(
                    s[t.end - 1],
                )
            },
        forall|j: int, k: int|
            0 <= j < k < tokens_from(s, i).len() ==> (#[trigger] tokens_from(s, i)[j]).end
                <= (#[trigger] tokens_from(s, i)[k]).start,
    decreases s.len() - i,
{
    if i < s.len() {
        let e = if ideograph(s[i]) {
            i + 1
        } else if letter(s[i]) {
            letters_end(s, i)
        } else {
            i + 1
        };
        lemma_letters_end(s, i);
        lemma_tokens(s, e);
        let all = tokens_from(s, i);
        let rest = tokens_from(s, e);
        if word_char(s[i]) {
            assert(all.len() == rest.len() + 1);
            assert forall|k: int| 0 <= k < all.len() implies {
                let t = #[trigger] all[k];
                i <= t.start < t.end <= s.len() && word_char(s[t.start]) && word_char(
                    s[t.end - 1],
                )
            } by {
                if k > 0 {
                    assert(all[k] == rest[k - 1]);
                }
            }
            assert forall|j: int, k: int| 0 <= j < k < all.len() implies (#[trigger] all[j]).end
                <= (#[trigger] all[k]).start by {
                assert(all[k] == rest[k - 1]);
                if j > 0 {
                    assert(all[j] == rest[j - 1]);
                }
            }
        } else {
            assert(all == rest);
        }
    }
}

proof fn lemma_past_non_word(s: Seq<char>, i: int)
    requires
        0 <= i <= s.len(),
    ensures
        i <= past_non_word(s, i) <= s.len(),
        forall|k: int| i <= k < past_non_word(s, i) ==> !word_char(#[trigger] s[k]),
    decreases s.len() - i,
{
    if i < s.len() && !word_char(s[i]) {
        lemma_past_non_word(s, i + 1);
    }
}

/// Two words are the same but for case.
pub open spec fn same_word(a: TokenView, b: TokenView) -> bool {
    a.norm == b.norm
}

/// Two results have the same word at place `k`.
pub open spec fn agree_at(a: Seq<TokenView>, b: Seq<TokenView>, k: int) -> bool {
    k < b.len() && same_word(a[k], b[k])
}

proof fn lemma_common_from(a: Seq<TokenView>, b: Seq<TokenView>, k: int)
    requires
        0 <= k <= a.len(),
    ensures
        0 <= common_from(a, b, k) <= a.len() - k,
        b.len() <= k ==> common_from(a, b, k) == 0,
        forall|j: int| k <= j < k + common_from(a, b, k) ==> #[trigger] agree_at(a, b, j),
    decreases a.len() - k,
{
    if k < a.len() && k < b.len() && same_word(a[k], b[k]) {
        lemma_common_from(a, b, k + 1);
    }
}

proof fn lemma_settled_until(prev: Seq<TokenView>, text: Seq<char>)
    ensures
        0 <= settled_until(prev, text) <= text.len(),
{
    let now = tokens(text);
    lemma_tokens(text, 0);
    lemma_common_from(now, prev, 0);
    let agreed = common(now, prev);
    if agreed > 1 {
        assert(now[agreed - 2].end <= text.len());
        lemma_past_non_word(text, now[agreed - 2].end);
    } else {
        lemma_past_non_word(text, 0);
    }
}

/// Nothing of a result is lost: it is the settled part, white space, and the
/// tentative part.
pub proof fn law_parts_make_up_the_text(prev: Seq<TokenView>, text: Seq<char>)
    requires
        tokens(text).len() > 0,
    ensures
        ({
            let c = committed_part(prev, text);
            let t = tentative_part(prev, text);
            &&& c.len() + t.len() <= text.len()
            &&& c == text.take(c.len() as int)
            &&& t == text.skip(text.len() - t.len())
            &&& blank(text.subrange(c.len() as int, text.len() - t.len()))
        }),
{
    lemma_settled_until(prev, text);
    let b = settled_until(prev, text);
    let p = |c: char| space(c);
    let head = text.take(b);
    let tail = text.skip(b);
    lemma_strip_right(head, p);
    lemma_strip_left(tail, p);
    let c = committed_part(prev, text);
    let t = tentative_part(prev, text);
    assert(c =~= text.take(c.len() as int));
    assert(t =~= text.skip(text.len() - t.len()));
    let gap = text.subrange(c.len() as int, text.len() - t.len());
    assert forall|i: int| 0 <= i < gap.len() implies space(#[trigger] gap[i]) by {
        let k = c.len() + i;
        assert(gap[i] == text[k]);
        if k < b {
            assert(head[k] == text[k]);
            assert(p(head[k]));
        } else {
            assert(tail[k - b] == text[k]);
            assert(p(tail[k - b]));
        }
    }
}

/// The first result of an utterance settles no word.
pub proof fn law_first_result_settles_no_word(text: Seq<char>)
    ensures
        forall|i: int|
            0 <= i < committed_part(Seq::empty(), text).len() ==> !word_char(
                #[trigger] committed_part(Seq::empty(), text)[i],
            ),
{
    let prev = Seq::<TokenView>::empty();
    lemma_common_from(tokens(text), prev, 0);
    lemma_past_non_word(text, 0);
    let head = text.take(settled_until(prev, text));
    lemma_strip_right(head, |c: char| space(c));
}

/// Every word that is settled stands, in the same place in the order of words,
/// in the result before as well.
pub proof fn law_settled_words_were_confirmed(prev: Seq<TokenView>, text: Seq<char>, k: int)
    requires
        0 <= k < tokens(text).len(),
        tokens(text)[k].start < settled_until(prev, text),
    ensures
        k + 1 < tokens(text).len(),
        k + 1 < prev.len(),
        tokens(text)[k].norm == prev[k].norm,
        tokens(text)[k].end <= settled_until(prev, text),
{
    let now = tokens(text);
    lemma_tokens(text, 0);
    lemma_common_from(now, prev, 0);
    let agreed = common(now, prev);
    let from = if agreed <= 1 {
        0
    } else {
        now[agreed - 2].end
    };
    lemma_past_non_word(text, from);
    let b = settled_until(prev, text);
    assert(word_char(text[now[k].start]));
    assert(now[k].start < from);
    if k >= agreed - 1 {
        if agreed > 1 {
            assert(now[agreed - 2].end <= now[k].start);
        }
    }
    assert(k < agreed - 1);
    if k < agreed - 2 {
        assert(now[k].end <= now[agreed - 2].start);
    }
    assert(agree_at(now, prev, k));
    assert(agree_at(now, prev, agreed - 1));
}

proof fn lemma_longest(a: Seq<TokenView>, b: Seq<TokenView>, k: int)
    requires
        0 <= k <= a.len(),
        k <= b.len(),
    ensures
        ({
            let c = k + common_from(a, b, k);
            &&& c <= b.len()
            &&& c == a.len() || c == b.len() || !same_word(a[c], b[c])
        }),
    decreases a.len() - k,
{
    if k < a.len() && k < b.len() && same_word(a[k], b[k]) {
        lemma_longest(a, b, k + 1);
    }
}

proof fn lemma_letters_of_prefix(s: Seq<char>, i: int, m: int)
    requires
        0 <= i <= m <= s.len(),
        letters_end(s, i) <= m,
    ensures
        letters_end(s.take(m), i) == letters_end(s, i),
    decreases s.len() - i,
{
    if i < s.len() && letter(s[i]) {
        lemma_letters_end(s, i + 1);
        assert(s.take(m)[i] == s[i]);
        lemma_letters_of_prefix(s, i + 1, m);
    }
}

/// The words of `s` from `i` on that end before `m` are `j`, and no other begins
/// before it.
spec fn words_before(s: Seq<char>, i: int, j: int, m: int) -> bool {
    let all = tokens_from(s, i);
    &&& 0 <= j <= all.len()
    &&& j > 0 ==> all[j - 1].end <= m
    &&& forall|k: int|
        (if j == 0 {
            i
        } else {
            all[j - 1].end
        }) <= k < m ==> !word_char(#[trigger] s[k])
}

proof fn lemma_words_of_prefix(s: Seq<char>, i: int, j: int, m: int)
    requires
        0 <= i <= m <= s.len(),
        words_before(s, i, j, m),
    ensures
        tokens_from(s.take(m), i) == tokens_from(s, i).take(j),
    decreases m - i,
{
    let all = tokens_from(s, i);
    let part = s.take(m);
    lemma_tokens(s, i);
    if i == m {
        assert(j == 0);
        assert(tokens_from(part, i) =~= all.take(j));
    } else {
        assert(part[i] == s[i]);
        if ideograph(s[i]) {
            assert(word_char(s[i]));
            let rest = tokens_from(s, i + 1);
            assert(all.drop_first() =~= rest);
            assert(j > 1 ==> all[j - 1] == rest[j - 2]);
            lemma_words_of_prefix(s, i + 1, j - 1, m);
            assert(part.subrange(i, i + 1) =~= s.subrange(i, i + 1));
            assert(tokens_from(part, i) =~= all.take(j));
        } else if letter(s[i]) {
            assert(word_char(s[i]));
            let e = letters_end(s, i);
            lemma_letters_end(s, i);
            let rest = tokens_from(s, e);
            assert(all.drop_first() =~= rest);
            assert(all[0].end == e);
            assert(e <= m) by {
                if j > 1 {
                    assert(all[0].end <= all[j - 1].start);
                }
            }
            assert(j > 1 ==> all[j - 1] == rest[j - 2]);
            lemma_letters_of_prefix(s, i, m);
            lemma_words_of_prefix(s, e, j - 1, m);
            assert(part.subrange(i, e) =~= s.subrange(i, e));
            assert(tokens_from(part, i) =~= all.take(j));
        } else {
            lemma_words_of_prefix(s, i + 1, j, m);
        }
    }
}

proof fn lemma_word_follows(s: Seq<char>, from: int, i: int)
    requires
        0 <= from <= i < s.len(),
        word_char(s[i]),
    ensures
        tokens_from(s, from).len() > 0,
    decreases i - from,
{
    if !word_char(s[from]) {
        lemma_word_follows(s, from + 1, i);
    }
}

/// A text has words exactly if one of its characters is compared.
pub proof fn law_compared_characters_make_words(text: Seq<char>)
    ensures
        tokens(text).len() > 0 <==> exists|i: int|
            0 <= i < text.len() && word_char(#[trigger] text[i]),
{
    lemma_tokens(text, 0);
    if tokens(text).len() > 0 {
        assert(word_char(text[tokens(text)[0].start]));
    }
    if exists|i: int| 0 <= i < text.len() && word_char(#[trigger] text[i]) {
        let i = choose|i: int| 0 <= i < text.len() && word_char(#[trigger] text[i]);
        lemma_word_follows(text, 0, i);
    }
}

/// How many words of a result are settled: one fewer than it has in common with
/// the result before.
pub open spec fn settled_words(prev: Seq<TokenView>, text: Seq<char>) -> int {
    let agreed = common(tokens(text), prev);
    if agreed >= 1 {
        agreed - 1
    } else {
        0
    }
}

/// The words in common are as many as there are: all of them agree, and then
/// one of the results ends or the next words differ.
pub proof fn law_common_words_are_the_longest(prev: Seq<TokenView>, text: Seq<char>)
    ensures
        ({
            let now = tokens(text);
            let agreed = common(now, prev);
            &&& 0 <= agreed <= now.len()
            &&& agreed <= prev.len()
            &&& forall|k: int| 0 <= k < agreed ==> #[trigger] now[k].norm == prev[k].norm
            &&& agreed == now.len() || agreed == prev.len() || now[agreed].norm
                != prev[agreed].norm
        }),
{
    let now = tokens(text);
    lemma_common_from(now, prev, 0);
    lemma_longest(now, prev, 0);
    assert forall|k: int| 0 <= k < common(now, prev) implies #[trigger] now[k].norm
        == prev[k].norm by {
        assert(agree_at(now, prev, k));
    }
}

/// The words of the settled part are the first words of the result, one fewer
/// than it has in common with the result before; the tentative part is never
/// empty and begins with a word.
pub proof fn law_settled_part_holds_the_first_words(prev: Seq<TokenView>, text: Seq<char>)
    requires
        tokens(text).len() > 0,
    ensures
        tokens(committed_part(prev, text)) == tokens(text).take(settled_words(prev, text)),
        tentative_part(prev, text).len() > 0,
        word_char(tentative_part(prev, text)[0]),
{
    let now = tokens(text);
    let p = |c: char| space(c);
    lemma_tokens(text, 0);
    lemma_common_from(now, prev, 0);
    let j = settled_words(prev, text);
    let from = if j == 0 {
        0
    } else {
        now[j - 1].end
    };
    // the word after the settled ones is where the tentative part begins
    assert(from <= now[j].start) by {
        if j > 0 {
            assert(now[j - 1].end <= now[j].start);
        }
    }
    lemma_past_non_word(text, from);
    let b = settled_until(prev, text);
    assert(b == past_non_word(text, from));
    assert(word_char(text[now[j].start]));
    assert(b <= now[j].start);
    lemma_stops_at_word(text, from);
    let tail = text.skip(b);
    assert(tail[0] == text[b]);
    assert(!p(tail[0]));
    lemma_strip_left(tail, p);
    assert(tentative_part(prev, text) == tail);
    let head = text.take(b);
    let c = committed_part(prev, text);
    lemma_strip_right(head, p);
    let m = c.len() as int;
    assert(c =~= text.take(m));
    assert(from <= m) by {
        if m < from {
            assert(word_char(text[from - 1]));
            assert(head[from - 1] == text[from - 1]);
            assert(p(head[from - 1]));
        }
    }
    assert(words_before(text, 0, j, m));
    lemma_words_of_prefix(text, 0, j, m);
}

proof fn lemma_stops_at_word(s: Seq<char>, i: int)
    requires
        0 <= i <= s.len(),
        past_non_word(s, i) < s.len(),
    ensures
        word_char(s[past_non_word(s, i)]),
    decreases s.len() - i,
{
    if i < s.len() && !word_char(s[i]) {
        lemma_stops_at_word(s, i + 1);
    }
}

/// What [`HypothesisBuffer::update`] shows: the settled and the tentative part make up
/// the text but for white space between them, the first result settles no word, and
/// the next result is compared with this one.
pub proof fn law_shown_parts_make_up_the_text(
    buffer: &mut HypothesisBuffer,
    text: &str,
    r: Agreement,
)
    requires
        call_ensures(HypothesisBuffer::update, (buffer, text), r),
    ensures
        final(buffer)@ == tokens(text@),
        tokens(text@).len() == 0 ==> r.committed@.len() == 0 && r.tentative@.len() == 0,
        tokens(text@).len() > 0 ==> {
            &&& r.tentative@.len() > 0
            &&& r.committed@.len() + r.tentative@.len() <= text@.len()
            &&& r.committed@ == text@.take(r.committed@.len() as int)
            &&& r.tentative@ == text@.skip(text@.len() - r.tentative@.len())
            &&& blank(
                text@.subrange(r.committed@.len() as int, text@.len() - r.tentative@.len()),
            )
        },
        old(buffer)@.len() == 0 ==> forall|i: int|
            0 <= i < r.committed@.len() ==> !word_char(#[trigger] r.committed@[i]),
{
    if tokens(text@).len() > 0 {
        law_parts_make_up_the_text(old(buffer)@, text@);
    }
    if old(buffer)@.len() == 0 {
        assert(old(buffer)@ =~= Seq::<TokenView>::empty());
        law_first_result_settles_no_word(text@);
    }
}

} // verus!
