//! Cleaning recognised text and spotting output that no speech stands behind.

use vstd::prelude::*;
use vstd::string::*;
use crate::text::letter_or_digit;
use crate::text::ascii_alphanumeric;
use crate::text::ascii_digit;
use crate::text::ascii_upper;
use crate::text::blank;
use crate::text::contains;
use crate::text::first_index;
use crate::text::from_chars;
use crate::text::has_text;
use crate::text::index_from;
use crate::text::is_letter_or_digit;
use crate::text::is_ascii_alphanumeric;
use crate::text::is_ascii_digit;
use crate::text::is_ascii_upper;
use crate::text::join;
use crate::text::joined;
use crate::text::law_words_hold_all_but_space;
use crate::text::lemma_strip_left;
use crate::text::lemma_strip_right;
use crate::text::lowered;
use crate::text::opt_view;
use crate::text::same;
use crate::text::select_by;
use crate::text::selected;
use crate::text::space;
use crate::text::strip_left;
use crate::text::strip_right;
use crate::text::to_chars;
use crate::text::to_lowered;
use crate::text::trim;
use crate::text::trimmed;
use crate::text::words;
use crate::text::words_of;

verus! {

/// Phrases that recognition models are known to produce on silence and music.
pub const HALLUCINATION_PHRASES: [&'static str; 22] = [
    "谢谢观看",
    "谢谢大家观看",
    "感谢观看",
    "谢谢收看",
    "请不吝点赞",
    "字幕由",
    "字幕组",
    "字幕志愿者",
    "明镜与点点栏目",
    "訂閱",
    "订阅频道",
    "点赞订阅",
    "下次再见",
    "我们下期再见",
    "thank you for watching",
    "thanks for watching",
    "please subscribe",
    "subtitles by",
    "subtitle by",
    "amara.org",
    "ming pao",
    "transcription by",
];

// ---------------------------------------------------------------------------
// Cleaning
// ---------------------------------------------------------------------------

/// Chinese, Japanese and full-width characters, punctuation among them.
pub open spec fn cjk(c: char) -> bool {
    let n = c as u32;
    ||| 0x3000 <= n <= 0x30ff
    ||| 0x3400 <= n <= 0x4dbf
    ||| 0x4e00 <= n <= 0x9fff
    ||| 0xf900 <= n <= 0xfaff
    ||| 0xff00 <= n <= 0xffef
}

pub fn is_cjk(c: char) -> (r: bool)
    ensures
        r == cjk(c),
{
    let n: u32 = c as u32;
    (0x3000 <= n && n <= 0x30ff) || (0x3400 <= n && n <= 0x4dbf) || (0x4e00 <= n && n <= 0x9fff)
        || (0xf900 <= n && n <= 0xfaff) || (0xff00 <= n && n <= 0xffef)
}

/// The bracket that closes `c`, if `c` opens one.
pub open spec fn closing(c: char) -> Option<char> {
    if c == '[' {
        Some(']')
    } else if c == '(' {
        Some(')')
    } else if c == '（' {
        Some('）')
    } else {
        None
    }
}

fn closing_of(c: char) -> (r: Option<char>)
    ensures
        r == closing(c),
{
    if c == '[' {
        Some(']')
    } else if c == '(' {
        Some(')')
    } else if c == '（' {
        Some('）')
    } else {
        None
    }
}

/// A character of a marker in capitals, such as `BLANK_AUDIO`.
pub open spec fn marker_char(c: char) -> bool {
    ascii_upper(c) || ascii_digit(c) || c == '_' || c == ' '
}

/// Whether a trimmed text, given in lower case too, says that there was no speech.
pub open spec fn names_no_speech(t: Seq<char>, lower: Seq<char>) -> bool {
    &&& t.len() > 0
    &&& {
        ||| forall|i: int| 0 <= i < t.len() ==> marker_char(#[trigger] t[i])
        ||| lower == "silence"@
        ||| lower == "music"@
        ||| lower == "blank_audio"@
        ||| lower == "inaudible"@
        ||| lower == "背景音乐"@
        ||| lower == "音乐"@
    }
}

/// Whether a text in brackets says that there was no speech.
pub open spec fn is_marker(inner: Seq<char>) -> bool {
    names_no_speech(trimmed(inner), lowered(trimmed(inner)))
}

/// Says whether a trimmed text is a marker; `lower` is the text in lower case.
pub fn is_no_speech(t: &str, lower: &str) -> (r: bool)
    ensures
        r == names_no_speech(t@, lower@),
{
    let v = to_chars(t);
    let n: usize = v.len();
    if n == 0 {
        return false;
    }
    let mut all: bool = true;
    let mut i: usize = 0;
    while i < n
        invariant
            i <= n == v@.len(),
            v@ == t@,
            all == (forall|k: int| 0 <= k < i ==> marker_char(#[trigger] t@[k])),
        decreases n - i,
    {
        let c = v[i];
        if !(is_ascii_upper(c) || is_ascii_digit(c) || c == '_' || c == ' ') {
            assert(!marker_char(t@[i as int]));
            all = false;
        }
        i += 1;
    }
    all || same(lower, "silence") || same(lower, "music") || same(lower, "blank_audio") || same(
        lower,
        "inaudible",
    ) || same(lower, "背景音乐") || same(lower, "音乐")
}

/// Says whether a text in brackets is a marker.
pub fn marks_no_speech(inner: &str) -> (r: bool)
    ensures
        r == is_marker(inner@),
{
    let t = trim(inner);
    is_no_speech(t, to_lowered(t).as_str())
}

/// `s` without bracketed markers.
pub open spec fn markers_stripped(s: Seq<char>) -> Seq<char>
    decreases s.len(),
{
    if s.len() == 0 {
        s
    } else {
        let k = match closing(s[0]) {
            Some(close) => first_index(s.drop_first(), close),
            None => s.len() as int,
        };
        if 0 <= k && k + 1 < s.len() && is_marker(s.subrange(1, 1 + k)) {
            markers_stripped(s.skip(k + 2))
        } else {
            seq![s[0]] + markers_stripped(s.drop_first())
        }
    }
}

fn strip_non_speech_markers(s: &str) -> (r: String)
    ensures
        r@ == markers_stripped(s@),
{
    let v = to_chars(s);
    let n: usize = v.len();
    let mut out = String::new();
    let mut i: usize = 0;
    proof {
        assert(v@.skip(0) =~= v@);
        assert(out@ + markers_stripped(v@.skip(0)) =~= markers_stripped(s@));
    }
    while i < n
        invariant
            i <= n == v@.len(),
            v@ == s@,
            out@ + markers_stripped(v@.skip(i as int)) == markers_stripped(s@),
        decreases n - i,
    {
        let c = v[i];
        let ghost rest = v@.skip(i as int);
        let ghost before = out@;
        proof {
            assert(rest.drop_first() =~= v@.skip(i + 1));
        }
        let mut next: usize = i + 1;
        let mut dropped: bool = false;
        if let Some(close) = closing_of(c) {
            let k: usize = index_from(&v, i + 1, close);
            if k < n - i - 1 {
                let inner = from_chars(&v, i + 1, i + 1 + k);
                proof {
                    assert(inner@ =~= rest.subrange(1, 1 + k));
                    assert(rest.skip(k + 2) =~= v@.skip(i + k + 2));
                }
                if marks_no_speech(inner.as_str()) {
                    dropped = true;
                    next = i + k + 2;
                }
            }
        }
        if !dropped {
            out.push(c);
            proof {
                assert(out@ + markers_stripped(v@.skip(i + 1)) =~= before + (seq![c]
                    + markers_stripped(v@.skip(i + 1))));
            }
        }
        i = next;
    }
    proof {
        assert(out@ + markers_stripped(v@.skip(n as int)) =~= out@);
    }
    out
}

/// Where the blanks from `i` on end.
pub open spec fn blanks_end(s: Seq<char>, i: int) -> int
    decreases s.len() - i,
{
    if i < s.len() && s[i] == ' ' {
        blanks_end(s, i + 1)
    } else {
        i
    }
}

pub proof fn lemma_blanks_end(s: Seq<char>, i: int)
    requires
        0 <= i <= s.len(),
    ensures
        i <= blanks_end(s, i) <= s.len(),
        i < s.len() && s[i] == ' ' ==> blanks_end(s, i) > i,
    decreases s.len() - i,
{
    if i < s.len() && s[i] == ' ' {
        lemma_blanks_end(s, i + 1);
    }
}

/// `s` from `i` on with each run of blanks made one blank, and dropped where it
/// stands between Chinese or Japanese characters.
pub open spec fn cjk_spaces_removed(s: Seq<char>, i: int) -> Seq<char>
    decreases s.len() - i,
{
    if i < 0 || i >= s.len() {
        Seq::empty()
    } else if s[i] == ' ' {
        let e = blanks_end(s, i);
        proof {
            lemma_blanks_end(s, i);
        }
        if i > 0 && e < s.len() && cjk(s[i - 1]) && cjk(s[e]) {
            cjk_spaces_removed(s, e)
        } else {
            seq![' '] + cjk_spaces_removed(s, e)
        }
    } else {
        seq![s[i]] + cjk_spaces_removed(s, i + 1)
    }
}

fn remove_cjk_spaces(s: &str) -> (r: String)
    ensures
        r@ == cjk_spaces_removed(s@, 0),
{
    let v = to_chars(s);
    let n: usize = v.len();
    let mut out = String::new();
    let mut i: usize = 0;
    proof {
        assert(out@ + cjk_spaces_removed(v@, 0) =~= cjk_spaces_removed(v@, 0));
    }
    while i < n
        invariant
            i <= n == v@.len(),
            out@ + cjk_spaces_removed(v@, i as int) == cjk_spaces_removed(v@, 0),
        decreases n - i,
    {
        let ghost before = out@;
        if v[i] == ' ' {
            let start: usize = i;
            let mut e: usize = i;
            while e < n && v[e] == ' '
                invariant
                    start <= e <= n == v@.len(),
                    blanks_end(v@, start as int) == blanks_end(v@, e as int),
                decreases n - e,
            {
                e += 1;
            }
            proof {
                lemma_blanks_end(v@, start as int);
            }
            if start > 0 && e < n && is_cjk(v[start - 1]) && is_cjk(v[e]) {
            } else {
                out.push(' ');
                proof {
                    assert(out@ + cjk_spaces_removed(v@, e as int) =~= before + (seq![' ']
                        + cjk_spaces_removed(v@, e as int)));
                }
            }
            i = e;
        } else {
            out.push(v[i]);
            proof {
                assert(out@ + cjk_spaces_removed(v@, i + 1) =~= before + (seq![v@[i as int]]
                    + cjk_spaces_removed(v@, i + 1)));
            }
            i += 1;
        }
    }
    proof {
        assert(out@ + cjk_spaces_removed(v@, n as int) =~= out@);
    }
    out
}

/// A recognised text without markers, superfluous blanks and surrounding white
/// space.
pub open spec fn cleaned(raw: Seq<char>) -> Seq<char> {
    if trimmed(raw).len() == 0 {
        trimmed(raw)
    } else {
        trimmed(
            joined(words_of(cjk_spaces_removed(markers_stripped(trimmed(raw)), 0)), " "@),
        )
    }
}

/// Cleans a recognised text.
pub fn clean_text(raw: &str) -> (r: String)
    ensures
        r@ == cleaned(raw@),
{
    let t = trim(raw);
    if t.unicode_len() == 0 {
        return t.to_owned();
    }
    let s = strip_non_speech_markers(t);
    let s = remove_cjk_spaces(s.as_str());
    let s = join(&words(s.as_str()), " ");
    trim(s.as_str()).to_owned()
}

/// A cleaned text neither begins nor ends with white space.
pub proof fn law_cleaned_text_has_no_outer_space(raw: Seq<char>)
    ensures
        cleaned(raw).len() > 0 ==> !space(cleaned(raw)[0]) && !space(cleaned(raw).last()),
{
    let p = |c: char| space(c);
    let inner = joined(words_of(cjk_spaces_removed(markers_stripped(trimmed(raw)), 0)), " "@);
    let left = strip_left(inner, p);
    lemma_strip_left(inner, p);
    lemma_strip_right(left, p);
}

// ---------------------------------------------------------------------------
// Judging
// ---------------------------------------------------------------------------

/// Punctuation, blanks and symbols: of ASCII, of the block of general
/// punctuation, musical notes and the like, and Chinese, Japanese and full-width
/// ones.
pub open spec fn punctuation(c: char) -> bool {
    let n = c as u32;
    ||| n < 0x80 && !ascii_alphanumeric(c)
    ||| 0x2000 <= n <= 0x206f
    ||| 0x2600 <= n <= 0x26ff
    ||| 0x3000 <= n <= 0x3004
    ||| 0x3008 <= n <= 0x3020
    ||| n == 0x3030
    ||| 0x3036 <= n <= 0x3037
    ||| 0x303d <= n <= 0x303f
    ||| 0x309b <= n <= 0x309c
    ||| n == 0x30a0
    ||| n == 0x30fb
    ||| 0xff00 <= n <= 0xff0f
    ||| 0xff1a <= n <= 0xff20
    ||| 0xff3b <= n <= 0xff40
    ||| 0xff5b <= n <= 0xff65
    ||| 0xffe0 <= n <= 0xffef
}

fn is_punctuation(c: char) -> (r: bool)
    ensures
        r == punctuation(c),
{
    let n: u32 = c as u32;
    (n < 0x80 && !is_ascii_alphanumeric(c)) || (0x2000 <= n && n <= 0x206f) || (0x2600 <= n && n
        <= 0x26ff) || (0x3000 <= n && n <= 0x3004) || (0x3008 <= n && n <= 0x3020) || n == 0x3030
        || (0x3036 <= n && n <= 0x3037) || (0x303d <= n && n <= 0x303f) || (0x309b <= n && n <= 0x309c) || n
        == 0x30a0 || n == 0x30fb || (0xff00 <= n && n <= 0xff0f) || (0xff1a <= n && n <= 0xff20) || (0xff3b <= n
        && n <= 0xff40) || (0xff5b <= n && n <= 0xff65) || (0xffe0 <= n && n <= 0xffef)
}

/// A character that carries content.
pub open spec fn content_char(c: char) -> bool {
    !punctuation(c) && (letter_or_digit(c) || cjk(c))
}

fn is_content_char(c: char) -> (r: bool)
    ensures
        r == content_char(c),
{
    !is_punctuation(c) && (is_letter_or_digit(c) || is_cjk(c))
}

/// The characters of a text that carry content.
pub open spec fn content(text: Seq<char>) -> Seq<char> {
    selected(text, |c: char| content_char(c))
}

/// Total length of those of the first `n` phrases that occur in a text.
pub open spec fn phrase_chars(lower: Seq<char>, n: int) -> int
    decreases n,
{
    if n <= 0 {
        0
    } else {
        let p = HALLUCINATION_PHRASES@[n - 1]@;
        phrase_chars(lower, n - 1) + if has_text(lower, p) {
            p.len() as int
        } else {
            0
        }
    }
}

/// Whether known phrases make up at least half of the content of a short recording,
/// whose text is given in lower case.
pub open spec fn mostly_phrases(content: Seq<char>, lower: Seq<char>, audio_ms: int) -> bool {
    let found = phrase_chars(lower, 22);
    audio_ms < 6_000 && found > 0 && found * 2 >= content.len()
}

/// Each character equals the one `period` before it.
pub open spec fn periodic(s: Seq<char>, period: int) -> bool {
    forall|i: int| period <= i < s.len() ==> s[i] == #[trigger] s[i - period]
}

/// `s` is one unit of `period` characters, four times or more.
pub open spec fn repeats_unit(s: Seq<char>, period: int) -> bool {
    &&& 1 <= period
    &&& s.len() % period as nat == 0
    &&& s.len() / period as nat >= 4
    &&& periodic(s, period)
}

/// The last `chunk` characters repeat the `chunk` characters before them.
pub open spec fn repeats_tail(s: Seq<char>, chunk: int) -> bool {
    &&& 8 <= chunk
    &&& s.len() / 4 <= chunk
    &&& chunk * 2 <= s.len()
    &&& s.subrange(s.len() - chunk * 2, s.len() - chunk) == s.subrange(
        s.len() - chunk,
        s.len() as int,
    )
}

/// Whether the five characters at `i` stand at `j` too.
pub open spec fn same_five(s: Seq<char>, i: int, j: int) -> bool {
    s[i] == s[j] && s[i + 1] == s[j + 1] && s[i + 2] == s[j + 2] && s[i + 3] == s[j + 3] && s[i + 4]
        == s[j + 4]
}

/// At how many of the first `n` positions the five characters at `i` stand.
pub open spec fn occurrences(s: Seq<char>, i: int, n: int) -> int
    decreases n,
{
    if n <= 0 {
        0
    } else {
        occurrences(s, i, n - 1) + if same_five(s, i, n - 1) {
            1int
        } else {
            0
        }
    }
}

/// The five characters at `i` stand at three places or more and fill over half
/// of `s`.
pub open spec fn dominates(s: Seq<char>, i: int) -> bool {
    let found = occurrences(s, i, s.len() - 4);
    found >= 3 && found * 10 > s.len()
}

/// Output that repeats the same small piece.
pub open spec fn degenerate(s: Seq<char>) -> bool {
    &&& s.len() >= 8
    &&& {
        ||| exists|period: int| 1 <= period <= s.len() / 3 && #[trigger] repeats_unit(s, period)
        ||| exists|chunk: int| #[trigger] repeats_tail(s, chunk)
        ||| s.len() >= 15 && exists|i: int| 0 <= i <= s.len() - 5 && #[trigger] dominates(s, i)
    }
}

fn is_periodic(s: &Vec<char>, period: usize) -> (r: bool)
    requires
        1 <= period <= s@.len(),
    ensures
        r == periodic(s@, period as int),
{
    let n: usize = s.len();
    let mut i: usize = period;
    while i < n
        invariant
            1 <= period <= i <= n == s@.len(),
            forall|k: int| period <= k < i ==> s@[k] == #[trigger] s@[k - period],
        decreases n - i,
    {
        if s[i] != s[i - period] {
            return false;
        }
        i += 1;
    }
    true
}

fn repeats_at(s: &Vec<char>, a: usize, b: usize, len: usize) -> (r: bool)
    requires
        a + len <= s@.len(),
        b + len <= s@.len(),
    ensures
        r == (s@.subrange(a as int, a + len) == s@.subrange(b as int, b + len)),
{
    let total: usize = s.len();
    let mut k: usize = 0;
    while k < len
        invariant
            k <= len,
            a + len <= s@.len() == total,
            b + len <= s@.len(),
            s@.subrange(a as int, a + k) =~= s@.subrange(b as int, b + k),
        decreases len - k,
    {
        if s[a + k] != s[b + k] {
            proof {
                assert(s@.subrange(a as int, a + len)[k as int] != s@.subrange(
                    b as int,
                    b + len,
                )[k as int]);
            }
            return false;
        }
        proof {
            assert(s@.subrange(a as int, a + k + 1) =~= s@.subrange(a as int, a + k).push(
                s@[a + k],
            ));
            assert(s@.subrange(b as int, b + k + 1) =~= s@.subrange(b as int, b + k).push(
                s@[b + k],
            ));
        }
        k += 1;
    }
    true
}

fn count_five(s: &Vec<char>, i: usize) -> (r: usize)
    requires
        5 <= s@.len(),
        i <= s@.len() - 5,
    ensures
        r == occurrences(s@, i as int, s@.len() - 4),
{
    let n: usize = s.len();
    let mut found: usize = 0;
    let mut j: usize = 0;
    while j < n - 4
        invariant
            5 <= n == s@.len(),
            i <= n - 5,
            j <= n - 4,
            found <= j,
            found == occurrences(s@, i as int, j as int),
        decreases n - j,
    {
        if s[i] == s[j] && s[i + 1] == s[j + 1] && s[i + 2] == s[j + 2] && s[i + 3] == s[j + 3]
            && s[i + 4] == s[j + 4] {
            found += 1;
        }
        j += 1;
    }
    found
}

fn is_degenerate_repetition(s: &Vec<char>) -> (r: bool)
    ensures
        r == degenerate(s@),
{
    let n: usize = s.len();
    if n < 8 {
        return false;
    }
    let mut period: usize = 1;
    while period <= n / 3
        invariant
            8 <= n == s@.len(),
            1 <= period <= n / 3 + 1,
            forall|p: int| 1 <= p < period ==> !#[trigger] repeats_unit(s@, p),
        decreases n - period,
    {
        if n % period == 0 && n / period >= 4 && is_periodic(s, period) {
            proof {
                assert(repeats_unit(s@, period as int));
            }
            return true;
        }
        period += 1;
    }
    let mut chunk: usize = if n / 4 > 8 {
        n / 4
    } else {
        8
    };
    while chunk <= n / 2
        invariant
            8 <= n == s@.len(),
            8 <= chunk,
            n / 4 <= chunk,
            forall|c: int| 0 <= c < chunk ==> !#[trigger] repeats_tail(s@, c),
        decreases n - chunk,
    {
        if repeats_at(s, n - chunk * 2, n - chunk, chunk) {
            proof {
                assert(repeats_tail(s@, chunk as int));
            }
            return true;
        }
        chunk += 1;
    }
    proof {
        assert forall|c: int| !#[trigger] repeats_tail(s@, c) by {}
    }
    if n >= 15 {
        let mut i: usize = 0;
        while i <= n - 5
            invariant
                15 <= n == s@.len(),
                i <= n - 4,
                forall|k: int| 0 <= k < i ==> !#[trigger] dominates(s@, k),
            decreases n - i,
        {
            let found: usize = count_five(s, i);
            if found >= 3 && found as u128 * 10 > n as u128 {
                proof {
                    assert(dominates(s@, i as int));
                }
                return true;
            }
            i += 1;
        }
    }
    false
}

/// Adds up the lengths of the known phrases that occur in a text in lower case.
pub fn count_phrase_chars(lower: &str) -> (r: usize)
    ensures
        r == phrase_chars(lower@, 22),
{
    let mut total: usize = 0;
    let mut i: usize = 0;
    while i < 22
        invariant
            i <= 22,
            total == phrase_chars(lower@, i as int),
            total <= i * 100,
        decreases 22 - i,
    {
        let p = HALLUCINATION_PHRASES[i];
        proof {
            lemma_phrases_are_short(i as int);
        }
        if contains(lower, p) {
            total += p.unicode_len();
        }
        i += 1;
    }
    total
}

proof fn lemma_phrases_are_short(i: int)
    requires
        0 <= i < 22,
    ensures
        HALLUCINATION_PHRASES@[i]@.len() <= 100,
{
    reveal_strlit("谢谢观看");
    reveal_strlit("谢谢大家观看");
    reveal_strlit("感谢观看");
    reveal_strlit("谢谢收看");
    reveal_strlit("请不吝点赞");
    reveal_strlit("字幕由");
    reveal_strlit("字幕组");
    reveal_strlit("字幕志愿者");
    reveal_strlit("明镜与点点栏目");
    reveal_strlit("訂閱");
    reveal_strlit("订阅频道");
    reveal_strlit("点赞订阅");
    reveal_strlit("下次再见");
    reveal_strlit("我们下期再见");
    reveal_strlit("thank you for watching");
    reveal_strlit("thanks for watching");
    reveal_strlit("please subscribe");
    reveal_strlit("subtitles by");
    reveal_strlit("subtitle by");
    reveal_strlit("amara.org");
    reveal_strlit("ming pao");
    reveal_strlit("transcription by");
}

/// Why a text with this content, and this in lower case, is doubtful, if it is: it
/// has hardly any content, it is made of phrases known from silence, or it repeats
/// itself.
pub open spec fn doubt_about(content: Seq<char>, lower: Seq<char>, audio_ms: int) -> Option<
    Seq<char>,
> {
    if content.len() < 2 {
        Some("识别服务没有返回有效内容"@)
    } else if mostly_phrases(content, lower, audio_ms) {
        Some("疑似模型幻听短语"@)
    } else if degenerate(content) {
        Some("疑似退化重复"@)
    } else {
        None
    }
}

/// Why a recognised text is doubtful, if it is.
pub open spec fn doubt(text: Seq<char>, audio_ms: int) -> Option<Seq<char>> {
    doubt_about(content(text), lowered(text), audio_ms)
}

/// Judges a text by the characters that carry content and by the text in lower
/// case.
pub fn judge(content: &Vec<char>, lower: &str, audio_ms: i64) -> (r: Option<String>)
    ensures
        opt_view(r) == doubt_about(content@, lower@, audio_ms as int),
{
    let n: usize = content.len();
    if n < 2 {
        return Some("识别服务没有返回有效内容".to_owned());
    }
    if audio_ms < 6_000 {
        let found: usize = count_phrase_chars(lower);
        if found > 0 && found as u128 * 2 >= n as u128 {
            return Some("疑似模型幻听短语".to_owned());
        }
    }
    if is_degenerate_repetition(content) {
        return Some("疑似退化重复".to_owned());
    }
    None
}

/// The reason for which a text recognised in `audio_ms` milliseconds of audio
/// is doubtful.
pub fn suspect_reason(text: &str, audio_ms: i64) -> (r: Option<String>)
    ensures
        opt_view(r) == doubt(text@, audio_ms as int),
{
    let stripped = select_by(text, is_content_char, Ghost(|c: char| content_char(c)));
    judge(&stripped, to_lowered(text).as_str(), audio_ms)
}

proof fn lemma_no_content(text: Seq<char>)
    requires
        forall|i: int| 0 <= i < text.len() ==> punctuation(#[trigger] text[i]),
    ensures
        content(text).len() == 0,
    decreases text.len(),
{
    if text.len() > 0 {
        let rest = text.drop_last();
        assert forall|i: int| 0 <= i < rest.len() implies punctuation(#[trigger] rest[i]) by {
            assert(rest[i] == text[i]);
        }
        lemma_no_content(rest);
        assert(punctuation(text[text.len() - 1]));
    }
}

/// A text that is empty or made of punctuation alone is doubtful, however long
/// the recording is.
pub proof fn law_punctuation_alone_is_doubtful(text: Seq<char>, audio_ms: int)
    requires
        forall|i: int| 0 <= i < text.len() ==> punctuation(#[trigger] text[i]),
    ensures
        doubt(text, audio_ms) == Some("识别服务没有返回有效内容"@),
{
    lemma_no_content(text);
}

/// Real speech is not doubtful because it happens to hold a known phrase: where the
/// phrases make up less than half of the content, and the text has content and does
/// not repeat itself, there is no doubt, however short the recording is.
pub proof fn law_real_speech_is_not_doubtful(text: Seq<char>, audio_ms: int)
    requires
        content(text).len() >= 2,
        !degenerate(content(text)),
        2 * phrase_chars(lowered(text), 22) < content(text).len() || audio_ms >= 6_000,
    ensures
        doubt(text, audio_ms) is None,
{
}

/// A short recording of which known phrases make up half of the content or more is
/// doubtful, and so is any text that repeats itself or has hardly any content.
pub proof fn law_known_phrases_are_doubtful(text: Seq<char>, audio_ms: int, i: int)
    requires
        0 <= i < 22,
    ensures
        audio_ms < 6_000 && has_text(lowered(text), HALLUCINATION_PHRASES@[i]@) && content(
            text,
        ).len() <= 2 * HALLUCINATION_PHRASES@[i]@.len() ==> doubt(text, audio_ms) is Some,
        degenerate(content(text)) ==> doubt(text, audio_ms) is Some,
        content(text).len() < 2 ==> doubt(text, audio_ms) == Some("识别服务没有返回有效内容"@),
{
    lemma_phrases_not_empty(i);
    lemma_phrase_chars_hold(lowered(text), 22, i);
}

proof fn lemma_phrases_not_empty(i: int)
    requires
        0 <= i < 22,
    ensures
        HALLUCINATION_PHRASES@[i]@.len() >= 2,
{
    reveal_strlit("谢谢观看");
    reveal_strlit("谢谢大家观看");
    reveal_strlit("感谢观看");
    reveal_strlit("谢谢收看");
    reveal_strlit("请不吝点赞");
    reveal_strlit("字幕由");
    reveal_strlit("字幕组");
    reveal_strlit("字幕志愿者");
    reveal_strlit("明镜与点点栏目");
    reveal_strlit("訂閱");
    reveal_strlit("订阅频道");
    reveal_strlit("点赞订阅");
    reveal_strlit("下次再见");
    reveal_strlit("我们下期再见");
    reveal_strlit("thank you for watching");
    reveal_strlit("thanks for watching");
    reveal_strlit("please subscribe");
    reveal_strlit("subtitles by");
    reveal_strlit("subtitle by");
    reveal_strlit("amara.org");
    reveal_strlit("ming pao");
    reveal_strlit("transcription by");
}

proof fn lemma_phrase_chars_hold(lower: Seq<char>, n: int, i: int)
    requires
        0 <= i < n <= 22,
    ensures
        phrase_chars(lower, n) >= 0,
        has_text(lower, HALLUCINATION_PHRASES@[i]@) ==> phrase_chars(lower, n)
            >= HALLUCINATION_PHRASES@[i]@.len(),
    decreases n,
{
    assert(phrase_chars(lower, 0) == 0);
    if n > 1 {
        if i < n - 1 {
            lemma_phrase_chars_hold(lower, n - 1, i);
        } else {
            lemma_phrase_chars_hold(lower, n - 1, 0);
        }
    }
}

/// Each phrase counts with its length if it occurs, and not otherwise: a text that
/// holds none of them has none of their characters.
pub proof fn law_only_phrases_that_occur_count(lower: Seq<char>)
    requires
        forall|i: int| 0 <= i < 22 ==> !has_text(lower, #[trigger] HALLUCINATION_PHRASES@[i]@),
    ensures
        phrase_chars(lower, 22) == 0,
{
    lemma_no_phrase_counts(lower, 22);
}

proof fn lemma_no_phrase_counts(lower: Seq<char>, n: int)
    requires
        0 <= n <= 22,
        forall|i: int| 0 <= i < 22 ==> !has_text(lower, #[trigger] HALLUCINATION_PHRASES@[i]@),
    ensures
        phrase_chars(lower, n) == 0,
    decreases n,
{
    if n > 0 {
        lemma_no_phrase_counts(lower, n - 1);
        assert(!has_text(lower, HALLUCINATION_PHRASES@[n - 1]@));
    }
}

/// Letters and digits of the basic alphabet, and Chinese characters, carry content;
/// blanks and the punctuation of the basic alphabet carry none; and the content is
/// all that carries some, in order.
pub proof fn law_letters_carry_content(text: Seq<char>, c: char)
    ensures
        ascii_alphanumeric(c) ==> content_char(c),
        0x4e00 <= c as u32 <= 0x9fff ==> content_char(c),
        (c as u32) < 0x80 && !ascii_alphanumeric(c) ==> !content_char(c),
        c == '，' || c == '。' || c == '？' || c == '！' || c == '、' ==> !content_char(c),
        content(text) == text.filter(|x: char| content_char(x)),
{
    lemma_selected(text, |x: char| content_char(x));
}

proof fn lemma_selected(text: Seq<char>, p: spec_fn(char) -> bool)
    ensures
        selected(text, p) == text.filter(p),
    decreases text.len(),
{
    reveal(Seq::filter);
    if text.len() > 0 {
        lemma_selected(text.drop_last(), p);
    }
}

/// A unit that is said four times or more, over at least eight characters, is a
/// repetition, whatever the unit is.
pub proof fn law_repeated_units_are_degenerate(unit: Seq<char>, n: int)
    requires
        unit.len() >= 1,
        n >= 4,
        unit.len() * n >= 8,
    ensures
        degenerate(Seq::new((unit.len() * n) as nat, |i: int| unit[i % (unit.len() as int)])),
{
    let u = unit.len() as int;
    let s = Seq::new((unit.len() * n) as nat, |i: int| unit[i % (unit.len() as int)]);
    vstd::arithmetic::div_mod::lemma_div_multiples_vanish(n, u);
    vstd::arithmetic::div_mod::lemma_mod_multiples_basic(n, u);
    assert(n * u == u * n) by (nonlinear_arith);
    assert(s.len() == u * n);
    assert(s.len() as int / u == n);
    assert(s.len() as int % u == 0);
    assert forall|i: int| u <= i < s.len() implies s[i] == #[trigger] s[i - u] by {
        vstd::arithmetic::div_mod::lemma_mod_sub_multiples_vanish(i, u);
    }
    assert(periodic(s, u));
    assert(repeats_unit(s, u));
    assert(3 * u <= u * n) by (nonlinear_arith)
        requires
            n >= 4,
            u >= 1,
    ;
    assert(u <= s.len() / 3);
}

/// A short text is no repetition, and neither is one in which no character stands
/// twice.
pub proof fn law_texts_without_repetition_are_not_degenerate(s: Seq<char>)
    requires
        s.len() < 8 || s.no_duplicates(),
    ensures
        !degenerate(s),
{
    if degenerate(s) {
        assert(s.no_duplicates());
        if exists|period: int| 1 <= period <= s.len() / 3 && #[trigger] repeats_unit(s, period) {
            let period = choose|period: int|
                1 <= period <= s.len() / 3 && #[trigger] repeats_unit(s, period);
            assert(s[period] == s[period - period]);
        } else if exists|chunk: int| #[trigger] repeats_tail(s, chunk) {
            let chunk = choose|chunk: int| #[trigger] repeats_tail(s, chunk);
            let a = s.subrange(s.len() - chunk * 2, s.len() - chunk);
            let b = s.subrange(s.len() - chunk, s.len() as int);
            assert(a[0] == s[s.len() - chunk * 2]);
            assert(b[0] == s[s.len() - chunk]);
        } else {
            let i = choose|i: int| 0 <= i <= s.len() - 5 && #[trigger] dominates(s, i);
            lemma_single_occurrence(s, i, s.len() - 4);
        }
    }
}

proof fn lemma_single_occurrence(s: Seq<char>, i: int, n: int)
    requires
        s.no_duplicates(),
        0 <= i <= s.len() - 5,
        n <= s.len() - 4,
    ensures
        occurrences(s, i, n) <= 1,
        n <= i ==> occurrences(s, i, n) == 0,
    decreases n,
{
    if n > 0 {
        lemma_single_occurrence(s, i, n - 1);
        if n - 1 != i {
            assert(s[i] != s[n - 1]);
        }
    }
}

/// Whether a text is doubtful.
pub fn is_suspect(text: &str, audio_ms: i64) -> (r: bool)
    ensures
        r == (doubt(text@, audio_ms as int) is Some),
{
    suspect_reason(text, audio_ms).is_some()
}

/// Whether there is probably no speech behind a text.
pub fn is_likely_hallucination(text: &str, audio_ms: i64) -> (r: bool)
    ensures
        r == (doubt(text@, audio_ms as int) is Some),
{
    is_suspect(text, audio_ms)
}

/// Whether two texts put together need a blank between them: between letters or
/// digits, but not beside Chinese or Japanese ones.
pub fn needs_space_between(prev: &str, next: &str) -> (r: bool)
    ensures
        r == (prev@.len() > 0 && next@.len() > 0 && !cjk(prev@.last()) && !cjk(next@[0])
            && letter_or_digit(prev@.last()) && letter_or_digit(next@[0])),
{
    let n: usize = prev.unicode_len();
    if n == 0 || next.unicode_len() == 0 {
        return false;
    }
    let a = prev.get_char(n - 1);
    let b = next.get_char(0);
    !is_cjk(a) && !is_cjk(b) && is_letter_or_digit(a) && is_letter_or_digit(b)
}

/// Cleaning a text without brackets takes and adds nothing but white space: every
/// character that is none stays, in order.
pub proof fn law_cleaning_keeps_what_was_said(raw: Seq<char>)
    requires
        forall|i: int|
            0 <= i < raw.len() ==> (#[trigger] raw[i]) != '[' && raw[i] != '(' && raw[i] != '（',
    ensures
        cleaned(raw).filter(|c: char| !space(c)) == raw.filter(|c: char| !space(c)),
{
    let q = |c: char| !space(c);
    let t = trimmed(raw);
    lemma_trim_keeps(raw);
    if t.len() > 0 {
        let p = |c: char| space(c);
        let left = strip_left(raw, p);
        lemma_strip_left(raw, p);
        lemma_strip_right(left, p);
        assert forall|i: int| 0 <= i < t.len() implies closing(#[trigger] t[i]) is None by {
            assert(t[i] == raw[i + (raw.len() - left.len())]);
        }
        lemma_no_markers(t);
        let u = cjk_spaces_removed(t, 0);
        lemma_blanks_only(t, 0);
        assert(t.skip(0) =~= t);
        law_words_hold_all_but_space(u);
        lemma_trim_keeps(joined(words_of(u), " "@));
    }
}

proof fn lemma_trim_keeps(s: Seq<char>)
    ensures
        trimmed(s).filter(|c: char| !space(c)) == s.filter(|c: char| !space(c)),
{
    let p = |c: char| space(c);
    let q = |c: char| !space(c);
    let left = strip_left(s, p);
    lemma_strip_left(s, p);
    let k = s.len() - left.len();
    let a = s.take(k);
    assert(s =~= a + left);
    assert forall|i: int| 0 <= i < a.len() implies !q(#[trigger] a[i]) by {
        assert(p(s[i]));
    }
    lemma_all_filtered(a, q);
    Seq::filter_distributes_over_add(a, left, q);
    let right = strip_right(left, p);
    lemma_strip_right(left, p);
    let b = left.skip(right.len() as int);
    assert(left =~= right + b);
    assert forall|i: int| 0 <= i < b.len() implies !q(#[trigger] b[i]) by {
        assert(p(left[right.len() + i]));
    }
    lemma_all_filtered(b, q);
    Seq::filter_distributes_over_add(right, b, q);
    let none = Seq::<char>::empty();
    assert(none + left.filter(q) =~= left.filter(q));
    assert(right.filter(q) + none =~= right.filter(q));
}

proof fn lemma_all_filtered(s: Seq<char>, q: spec_fn(char) -> bool)
    requires
        forall|i: int| 0 <= i < s.len() ==> !q(#[trigger] s[i]),
    ensures
        s.filter(q) == Seq::<char>::empty(),
    decreases s.len(),
{
    reveal(Seq::filter);
    if s.len() > 0 {
        let head = s.drop_last();
        assert forall|i: int| 0 <= i < head.len() implies !q(#[trigger] head[i]) by {
            assert(head[i] == s[i]);
        }
        lemma_all_filtered(head, q);
        assert(!q(s[s.len() - 1]));
    }
}

proof fn lemma_no_markers(s: Seq<char>)
    requires
        forall|i: int| 0 <= i < s.len() ==> closing(#[trigger] s[i]) is None,
    ensures
        markers_stripped(s) == s,
    decreases s.len(),
{
    if s.len() > 0 {
        let rest = s.drop_first();
        assert forall|i: int| 0 <= i < rest.len() implies closing(#[trigger] rest[i]) is None by {
            assert(rest[i] == s[i + 1]);
        }
        lemma_no_markers(rest);
        assert(closing(s[0]) is None);
        assert(seq![s[0]] + rest =~= s);
    }
}

proof fn lemma_blanks_only(s: Seq<char>, i: int)
    requires
        0 <= i <= s.len(),
    ensures
        cjk_spaces_removed(s, i).filter(|c: char| !space(c)) == s.skip(i).filter(
            |c: char| !space(c),
        ),
    decreases s.len() - i,
{
    let q = |c: char| !space(c);
    let none = Seq::<char>::empty();
    if i < s.len() {
        if s[i] == ' ' {
            let e = blanks_end(s, i);
            lemma_blanks_end(s, i);
            lemma_blanks_are_blank(s, i);
            lemma_blanks_only(s, e);
            let run = s.subrange(i, e);
            assert(s.skip(i) =~= run + s.skip(e));
            assert forall|k: int| 0 <= k < run.len() implies !q(#[trigger] run[k]) by {
                assert(s[i + k] == ' ');
            }
            lemma_all_filtered(run, q);
            Seq::filter_distributes_over_add(run, s.skip(e), q);
            assert(none + s.skip(e).filter(q) =~= s.skip(e).filter(q));
            let one = seq![' '];
            lemma_all_filtered(one, q);
            Seq::filter_distributes_over_add(one, cjk_spaces_removed(s, e), q);
            assert(none + cjk_spaces_removed(s, e).filter(q) =~= cjk_spaces_removed(s, e).filter(q));
        } else {
            lemma_blanks_only(s, i + 1);
            let one = seq![s[i]];
            assert(s.skip(i) =~= one + s.skip(i + 1));
            Seq::filter_distributes_over_add(one, s.skip(i + 1), q);
            Seq::filter_distributes_over_add(one, cjk_spaces_removed(s, i + 1), q);
        }
    } else {
        assert(s.skip(i) =~= none);
    }
}

proof fn lemma_blanks_are_blank(s: Seq<char>, i: int)
    requires
        0 <= i <= s.len(),
    ensures
        forall|k: int| i <= k < blanks_end(s, i) ==> s[k] == ' ',
    decreases s.len() - i,
{
    if i < s.len() && s[i] == ' ' {
        lemma_blanks_are_blank(s, i + 1);
    }
}

/// What stands in brackets to say that nothing was said is taken out, with its
/// brackets; other brackets stay.
pub proof fn law_markers_are_taken_out(inner: Seq<char>, rest: Seq<char>)
    requires
        !inner.contains(']'),
    ensures
        is_marker(inner) ==> markers_stripped(seq!['['] + inner + seq![']'] + rest)
            == markers_stripped(rest),
        !is_marker(inner) ==> markers_stripped(seq!['['] + inner + seq![']'] + rest) == seq!['[']
            + markers_stripped(inner + seq![']'] + rest),
{
    let s = seq!['['] + inner + seq![']'] + rest;
    let tail = inner + seq![']'] + rest;
    assert(s.drop_first() =~= tail);
    lemma_first_index(inner, ']', seq![']'] + rest);
    assert(inner + (seq![']'] + rest) =~= tail);
    assert(s.subrange(1, 1 + inner.len() as int) =~= inner);
    assert(s.skip(inner.len() as int + 2) =~= rest);
}

proof fn lemma_first_index(a: Seq<char>, c: char, b: Seq<char>)
    requires
        !a.contains(c),
        b.len() > 0,
        b[0] == c,
    ensures
        first_index(a + b, c) == a.len(),
    decreases a.len(),
{
    if a.len() == 0 {
        assert(a + b =~= b);
    } else {
        assert(a[0] != c);
        assert((a + b).drop_first() =~= a.drop_first() + b);
        assert forall|i: int| 0 <= i < a.drop_first().len() implies a.drop_first()[i] != c by {
            assert(a.drop_first()[i] == a[i + 1]);
            assert(a.contains(a[i + 1]));
        }
        lemma_first_index(a.drop_first(), c, b);
    }
}

/// What [`suspect_reason`] says: nothing of real speech, and a reason of a text without
/// content, of one made of known phrases, and of one that repeats itself.
pub proof fn law_reasons_for_doubt(text: &str, audio_ms: i64, r: Option<String>, i: int)
    requires
        call_ensures(suspect_reason, (text, audio_ms), r),
        0 <= i < 22,
    ensures
        content(text@).len() >= 2 && !degenerate(content(text@)) && (2 * phrase_chars(
            lowered(text@),
            22,
        ) < content(text@).len() || audio_ms >= 6_000) ==> r is None,
        content(text@).len() < 2 ==> (r matches Some(m) && m@ == "识别服务没有返回有效内容"@),
        degenerate(content(text@)) ==> r is Some,
        audio_ms < 6_000 && has_text(lowered(text@), HALLUCINATION_PHRASES@[i]@) && content(
            text@,
        ).len() <= 2 * HALLUCINATION_PHRASES@[i]@.len() ==> r is Some,
{
    law_known_phrases_are_doubtful(text@, audio_ms as int, i);
}

/// What [`judge`] says of content and lower case, as [`suspect_reason`] does of a text.
pub proof fn law_judgements_go_by_half_the_content(
    content: &Vec<char>,
    lower: &str,
    audio_ms: i64,
    r: Option<String>,
)
    requires
        call_ensures(judge, (content, lower, audio_ms), r),
    ensures
        content@.len() >= 2 && !degenerate(content@) && (2 * phrase_chars(lower@, 22)
            < content@.len() || audio_ms >= 6_000) ==> r is None,
        content@.len() < 2 || degenerate(content@) ==> r is Some,
        audio_ms < 6_000 && phrase_chars(lower@, 22) > 0 && 2 * phrase_chars(lower@, 22)
            >= content@.len() ==> r is Some,
{
}

/// Words of the basic alphabet are kept apart; Chinese characters are not.
pub proof fn law_blanks_stand_between_words(prev: &str, next: &str, r: bool)
    requires
        call_ensures(needs_space_between, (prev, next), r),
        prev@.len() > 0,
        next@.len() > 0,
    ensures
        ascii_alphanumeric(prev@.last()) && ascii_alphanumeric(next@[0]) ==> r,
        0x4e00 <= prev@.last() as u32 <= 0x9fff || 0x4e00 <= next@[0] as u32 <= 0x9fff ==> !r,
        (prev@.last() as u32) < 0x80 && !ascii_alphanumeric(prev@.last()) ==> !r,
{
}

/// A text that says the same at its end twice, over at least eight characters and a
/// quarter of the text, is a repetition.
pub proof fn law_repeated_ends_are_degenerate(head: Seq<char>, t: Seq<char>)
    requires
        t.len() >= 8,
        (head.len() + 2 * t.len()) / 4 <= t.len(),
    ensures
        degenerate(head + t + t),
{
    let s = head + t + t;
    let c = t.len() as int;
    assert(s.subrange(s.len() - c * 2, s.len() - c) =~= t);
    assert(s.subrange(s.len() - c, s.len() as int) =~= t);
    assert(repeats_tail(s, c));
}

/// A text of less than fifteen characters is a repetition only if it is one unit over
/// and over.
pub proof fn law_short_repetitions_are_periodic(s: Seq<char>)
    requires
        s.len() < 15,
        degenerate(s),
    ensures
        exists|period: int|
            1 <= period <= s.len() / 4 && #[trigger] s.skip(period) == s.take(s.len() - period),
{
    let period = choose|period: int|
        1 <= period <= s.len() / 3 && #[trigger] repeats_unit(s, period);
    assert(periodic(s, period));
    assert(s.len() as int / period >= 4);
    vstd::arithmetic::div_mod::lemma_fundamental_div_mod(s.len() as int, period);
    assert(period * (s.len() as int / period) >= 4 * period) by (nonlinear_arith)
        requires
            s.len() as int / period >= 4,
            period >= 1,
    ;
    assert(period <= s.len() / 4);
    assert forall|j: int| 0 <= j < s.len() - period implies s.skip(period)[j] == s.take(
        s.len() - period,
    )[j] by {
        let i = j + period;
        assert(s[i] == s[i - period]);
    }
    assert(s.skip(period) =~= s.take(s.len() - period));
}

/// Five characters that come back three times or more, with no more than one character
/// between them, are a repetition.
pub proof fn law_pieces_that_come_back_are_degenerate(p: Seq<char>, between: Seq<char>)
    requires
        p.len() == 5,
        between.len() >= 3,
    ensures
        degenerate(
            Seq::new(
                6 * between.len(),
                |i: int|
                    if i % 6 < 5 {
                        p[i % 6]
                    } else {
                        between[i / 6]
                    },
            ),
        ),
{
    let n = between.len() as int;
    let s = Seq::new(
        6 * between.len(),
        |i: int|
            if i % 6 < 5 {
                p[i % 6]
            } else {
                between[i / 6]
            },
    );
    lemma_piece_comes_back(s, p, n, n - 1);
    lemma_occurrences_grow(s, 0, 6 * (n - 1) + 1, s.len() - 4);
    assert(dominates(s, 0));
}

proof fn lemma_piece_comes_back(s: Seq<char>, p: Seq<char>, n: int, k: int)
    requires
        p.len() == 5,
        s.len() == 6 * n,
        0 <= k < n,
        forall|i: int| 0 <= i < s.len() && i % 6 < 5 ==> #[trigger] s[i] == p[i % 6],
    ensures
        occurrences(s, 0, 6 * k + 1) >= k + 1,
    decreases k,
{
    let at = 6 * k;
    assert(s[at] == p[0] && s[at + 1] == p[1] && s[at + 2] == p[2] && s[at + 3] == p[3] && s[at + 4]
        == p[4]);
    assert(s[0] == p[0] && s[1] == p[1] && s[2] == p[2] && s[3] == p[3] && s[4] == p[4]);
    assert(same_five(s, 0, at));
    if k > 0 {
        lemma_piece_comes_back(s, p, n, k - 1);
        lemma_occurrences_grow(s, 0, 6 * (k - 1) + 1, at);
    } else {
        assert(occurrences(s, 0, 0) == 0);
    }
}

proof fn lemma_occurrences_grow(s: Seq<char>, i: int, a: int, b: int)
    requires
        a <= b,
    ensures
        occurrences(s, i, a) <= occurrences(s, i, b),
    decreases b - a,
{
    if a < b {
        lemma_occurrences_grow(s, i, a, b - 1);
    }
}

/// Blanks between words of other scripts stay; blanks between Chinese characters go.
pub proof fn law_blanks_go_between_chinese_only(s: Seq<char>)
    requires
        forall|i: int| 0 <= i < s.len() - 1 ==> !(#[trigger] s[i] == ' ' && s[i + 1] == ' '),
    ensures
        (forall|i: int| 0 <= i < s.len() ==> !cjk(#[trigger] s[i])) ==> cjk_spaces_removed(s, 0)
            == s,
        s.len() > 0 && s[0] != ' ' && s.last() != ' ' && (forall|i: int|
            0 <= i < s.len() ==> cjk(#[trigger] s[i]) || s[i] == ' ') ==> cjk_spaces_removed(s, 0)
            == s.filter(|c: char| c != ' '),
{
    assert(s.skip(0) =~= s);
    if forall|i: int| 0 <= i < s.len() ==> !cjk(#[trigger] s[i]) {
        lemma_blanks_stay(s, 0);
    }
    if s.len() > 0 && s[0] != ' ' && s.last() != ' ' && (forall|i: int|
        0 <= i < s.len() ==> cjk(#[trigger] s[i]) || s[i] == ' ') {
        lemma_blanks_go(s, 0);
    }
}

proof fn lemma_blanks_stay(s: Seq<char>, i: int)
    requires
        0 <= i <= s.len(),
        forall|k: int| 0 <= k < s.len() - 1 ==> !(#[trigger] s[k] == ' ' && s[k + 1] == ' '),
        forall|k: int| 0 <= k < s.len() ==> !cjk(#[trigger] s[k]),
    ensures
        cjk_spaces_removed(s, i) == s.skip(i),
    decreases s.len() - i,
{
    if i < s.len() {
        lemma_blanks_stay(s, i + 1);
        if s[i] == ' ' {
            assert(blanks_end(s, i + 1) == i + 1);
            assert(blanks_end(s, i) == i + 1);
            if i > 0 {
                assert(!cjk(s[i - 1]));
            }
        }
        assert(seq![s[i]] + s.skip(i + 1) =~= s.skip(i));
    } else {
        assert(s.skip(i) =~= Seq::empty());
    }
}

proof fn lemma_blanks_go(s: Seq<char>, i: int)
    requires
        0 <= i <= s.len(),
        s.len() > 0,
        s[0] != ' ',
        s.last() != ' ',
        forall|k: int| 0 <= k < s.len() - 1 ==> !(#[trigger] s[k] == ' ' && s[k + 1] == ' '),
        forall|k: int| 0 <= k < s.len() ==> cjk(#[trigger] s[k]) || s[k] == ' ',
    ensures
        cjk_spaces_removed(s, i) == s.skip(i).filter(|c: char| c != ' '),
    decreases s.len() - i,
{
    let q = |c: char| c != ' ';
    let none = Seq::<char>::empty();
    reveal(Seq::filter);
    if i < s.len() {
        lemma_blanks_go(s, i + 1);
        let one = seq![s[i]];
        assert(one + s.skip(i + 1) =~= s.skip(i));
        Seq::filter_distributes_over_add(one, s.skip(i + 1), q);
        assert(one.drop_last() =~= none);
        assert(none.filter(q) == none);
        if s[i] == ' ' {
            assert(0 < i < s.len() - 1);
            assert(s[i - 1] != ' ');
            assert(blanks_end(s, i + 1) == i + 1);
            assert(blanks_end(s, i) == i + 1);
            assert(cjk(s[i - 1]) && cjk(s[i + 1]));
            assert(one.filter(q) =~= none);
            assert(none + s.skip(i + 1).filter(q) =~= s.skip(i + 1).filter(q));
        } else {
            assert(one.filter(q) =~= one);
        }
    } else {
        assert(s.skip(i) =~= none);
    }
}

/// The usual markers are known: words in capitals, and these in whatever case; a text
/// of more than eleven characters that is not in capitals is none.
pub proof fn law_usual_markers_are_known(t: Seq<char>, lower: Seq<char>, i: int)
    requires
        t.len() > 0,
    ensures
        lower == "silence"@ || lower == "music"@ || lower == "blank_audio"@ || lower
            == "inaudible"@ || lower == "背景音乐"@ || lower == "音乐"@ ==> names_no_speech(t, lower),
        (forall|k: int| 0 <= k < t.len() ==> ascii_upper(#[trigger] t[k]) || t[k] == '_' || t[k]
            == ' ') ==> names_no_speech(t, lower),
        0 <= i < t.len() && 0x61 <= t[i] as u32 <= 0x7a && lower.len() > 11 ==> !names_no_speech(
            t,
            lower,
        ),
{
    reveal_strlit("silence");
    reveal_strlit("music");
    reveal_strlit("blank_audio");
    reveal_strlit("inaudible");
    reveal_strlit("背景音乐");
    reveal_strlit("音乐");
    if 0 <= i < t.len() && 0x61 <= t[i] as u32 <= 0x7a {
        assert(!marker_char(t[i]));
    }
}

} // verus!
