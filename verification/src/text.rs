//! Text primitives over sequences of characters.
//!
//! Every function here is stated over `Seq<char>`: positions count characters,
//! never bytes, so multi-byte text is never cut apart.

use vstd::prelude::*;
use vstd::string::*;

verus! {

/// `String::push` appends one character.
pub assume_specification[ String::push ](s: &mut String, c: char)
    ensures
        final(s)@ == old(s)@.push(c),
;

/// `str` equality compares the characters.
pub assume_specification[ <str as PartialEq<str>>::eq ](a: &str, b: &str) -> (r: bool)
    ensures
        r == (a@ == b@),
;

/// The result of [`str::to_lowercase`]: the Unicode lowercase mapping of a text.
pub uninterp spec fn lowercase(s: Seq<char>) -> Seq<char>;

/// Characters whose lower case is plain: ASCII, and Chinese characters and kana,
/// which have none.
pub open spec fn plain_case(c: char) -> bool {
    let n = c as u32;
    ||| n < 0x80
    ||| 0x3040 <= n <= 0x30ff
    ||| 0x3400 <= n <= 0x4dbf
    ||| 0x4e00 <= n <= 0x9fff
}

pub open spec fn all_plain_case(s: Seq<char>) -> bool {
    forall|i: int| 0 <= i < s.len() ==> plain_case(#[trigger] s[i])
}

/// [`str::to_lowercase`]. The mapping follows the Unicode tables and is only named
/// here, but for texts of ASCII, Chinese characters and kana: there ASCII capitals
/// become small, and nothing else changes.
#[verifier::external_body]
fn to_lowercase(s: &str) -> (r: String)
    ensures
        r@ == lowercase(s@),
        all_plain_case(s@) ==> r@ == ascii_lowered(s@),
{
    s.to_lowercase()
}

/// A text in lower case.
pub open spec fn lowered(s: Seq<char>) -> Seq<char> {
    if all_plain_case(s) {
        ascii_lowered(s)
    } else {
        lowercase(s)
    }
}

pub fn to_lowered(s: &str) -> (r: String)
    ensures
        r@ == lowered(s@),
{
    to_lowercase(s)
}

/// The result of [`char::is_alphanumeric`].
pub uninterp spec fn alphanumeric(c: char) -> bool;

/// [`char::is_alphanumeric`]: whether a character is a letter or a number by
/// the Unicode tables, which are only named here. No white space character is
/// either; of ASCII, the letters and digits are.
#[verifier::external_body]
fn is_alphanumeric(c: char) -> (r: bool)
    ensures
        r == alphanumeric(c),
        r ==> !space(c),
        (c as u32) < 0x80 ==> r == ascii_alphanumeric(c),
{
    c.is_alphanumeric()
}

/// A letter or a number of any script.
pub open spec fn letter_or_digit(c: char) -> bool {
    if (c as u32) < 0x80 {
        ascii_alphanumeric(c)
    } else {
        alphanumeric(c) && !space(c)
    }
}

pub fn is_letter_or_digit(c: char) -> (r: bool)
    ensures
        r == letter_or_digit(c),
        r ==> !space(c),
{
    is_alphanumeric(c)
}

// ---------------------------------------------------------------------------
// Character classes
// ---------------------------------------------------------------------------

/// The Unicode `White_Space` property.
pub open spec fn space(c: char) -> bool {
    let n = c as u32;
    ||| 0x9 <= n <= 0xd
    ||| n == 0x20
    ||| n == 0x85
    ||| n == 0xa0
    ||| n == 0x1680
    ||| 0x2000 <= n <= 0x200a
    ||| n == 0x2028
    ||| n == 0x2029
    ||| n == 0x202f
    ||| n == 0x205f
    ||| n == 0x3000
}

pub fn is_space(c: char) -> (r: bool)
    ensures
        r == space(c),
{
    let n: u32 = c as u32;
    (0x9 <= n && n <= 0xd) || n == 0x20 || n == 0x85 || n == 0xa0 || n == 0x1680 || (0x2000 <= n
        && n <= 0x200a) || n == 0x2028 || n == 0x2029 || n == 0x202f || n == 0x205f || n == 0x3000
}

/// The control characters (Unicode category `Cc`).
pub open spec fn control(c: char) -> bool {
    c as u32 <= 0x1f || 0x7f <= c as u32 <= 0x9f
}

pub fn is_control(c: char) -> (r: bool)
    ensures
        r == control(c),
{
    let n: u32 = c as u32;
    n <= 0x1f || (0x7f <= n && n <= 0x9f)
}

/// The digits `0` to `9`.
pub open spec fn ascii_digit(c: char) -> bool {
    0x30 <= c as u32 <= 0x39
}

pub fn is_ascii_digit(c: char) -> (r: bool)
    ensures
        r == ascii_digit(c),
{
    let n: u32 = c as u32;
    0x30 <= n && n <= 0x39
}

/// The letters `A` to `Z`.
pub open spec fn ascii_upper(c: char) -> bool {
    0x41 <= c as u32 <= 0x5a
}

pub fn is_ascii_upper(c: char) -> (r: bool)
    ensures
        r == ascii_upper(c),
{
    let n: u32 = c as u32;
    0x41 <= n && n <= 0x5a
}

/// Letters of the basic Latin alphabet and digits.
pub open spec fn ascii_alphanumeric(c: char) -> bool {
    ascii_digit(c) || ascii_upper(c) || 0x61 <= c as u32 <= 0x7a
}

pub fn is_ascii_alphanumeric(c: char) -> (r: bool)
    ensures
        r == ascii_alphanumeric(c),
{
    let n: u32 = c as u32;
    is_ascii_digit(c) || is_ascii_upper(c) || (0x61 <= n && n <= 0x7a)
}

/// `A` to `Z` become `a` to `z`; every other character stays.
pub open spec fn ascii_lower(c: char) -> char {
    if ascii_upper(c) {
        ((c as u32 + 32) as u32) as char
    } else {
        c
    }
}

pub fn to_ascii_lower(c: char) -> (r: char)
    ensures
        r == ascii_lower(c),
{
    if is_ascii_upper(c) {
        let n: u8 = c as u8;
        (n + 32) as char
    } else {
        c
    }
}

/// [`ascii_lower`] on every character.
pub open spec fn ascii_lowered(s: Seq<char>) -> Seq<char> {
    s.map_values(|c: char| ascii_lower(c))
}

pub fn to_ascii_lowered(s: &str) -> (r: String)
    ensures
        r@ == ascii_lowered(s@),
{
    let mut out = String::new();
    for c in it: s.chars()
        invariant
            it.seq() == s@,
            out@ =~= ascii_lowered(s@.take(it.index() as int)),
    {
        out.push(to_ascii_lower(c));
    }
    proof {
        assert(s@.take(s@.len() as int) =~= s@);
    }
    out
}

// ---------------------------------------------------------------------------
// Conversions and comparison
// ---------------------------------------------------------------------------

/// The characters of a text.
pub fn to_chars(s: &str) -> (v: Vec<char>)
    ensures
        v@ == s@,
{
    let mut v: Vec<char> = Vec::new();
    for c in it: s.chars()
        invariant
            it.seq() == s@,
            v@ =~= s@.take(it.index() as int),
    {
        v.push(c);
    }
    v
}

/// The text made of `v[from..to]`.
pub fn from_chars(v: &Vec<char>, from: usize, to: usize) -> (s: String)
    requires
        from <= to <= v@.len(),
    ensures
        s@ == v@.subrange(from as int, to as int),
{
    let mut s = String::new();
    let mut i: usize = from;
    while i < to
        invariant
            from <= i <= to <= v@.len(),
            s@ =~= v@.subrange(from as int, i as int),
        decreases to - i,
    {
        s.push(v[i]);
        i += 1;
    }
    s
}

/// Whether two texts hold the same characters.
pub fn same(a: &str, b: &str) -> (r: bool)
    ensures
        r == (a@ == b@),
{
    *a == *b
}

/// The views of a list of strings.
pub open spec fn views(v: Seq<String>) -> Seq<Seq<char>> {
    v.map_values(|s: String| s@)
}

// ---------------------------------------------------------------------------
// Stripping
// ---------------------------------------------------------------------------

/// `s` without its longest prefix of characters in `p`.
pub open spec fn strip_left(s: Seq<char>, p: spec_fn(char) -> bool) -> Seq<char>
    decreases s.len(),
{
    if s.len() > 0 && p(s[0]) {
        strip_left(s.drop_first(), p)
    } else {
        s
    }
}

/// `s` without its longest suffix of characters in `p`.
pub open spec fn strip_right(s: Seq<char>, p: spec_fn(char) -> bool) -> Seq<char>
    decreases s.len(),
{
    if s.len() > 0 && p(s.last()) {
        strip_right(s.drop_last(), p)
    } else {
        s
    }
}

/// A text without surrounding white space.
pub open spec fn trimmed(s: Seq<char>) -> Seq<char> {
    strip_right(strip_left(s, |c: char| space(c)), |c: char| space(c))
}

/// Whether nothing but white space is left.
pub open spec fn blank(s: Seq<char>) -> bool {
    forall|i: int| 0 <= i < s.len() ==> space(#[trigger] s[i])
}

/// [`strip_left`] for the class that `f` decides.
pub(crate) fn strip_left_by<'a, F: Fn(char) -> bool>(
    s: &'a str,
    f: F,
    Ghost(p): Ghost<spec_fn(char) -> bool>,
) -> (r: &'a str)
    requires
        forall|c: char| call_requires(f, (c,)),
        forall|c: char, b: bool| call_ensures(f, (c,), b) ==> b == p(c),
    ensures
        r@ == strip_left(s@, p),
{
    let v = to_chars(s);
    let n: usize = v.len();
    let mut i: usize = 0;
    assert(v@.skip(0) =~= v@);
    while i < n && f(v[i])
        invariant
            forall|c: char| call_requires(f, (c,)),
            forall|c: char, b: bool| call_ensures(f, (c,), b) ==> b == p(c),
            i <= n == v@.len(),
            v@ == s@,
            strip_left(s@, p) == strip_left(v@.skip(i as int), p),
        ensures
            i <= n,
            strip_left(s@, p) == v@.skip(i as int),
        decreases n - i,
    {
        assert(v@.skip(i as int).drop_first() =~= v@.skip(i + 1));
        i += 1;
    }
    assert(v@.skip(i as int) =~= s@.subrange(i as int, n as int));
    s.substring_char(i, n)
}

/// [`strip_right`] for the class that `f` decides.
pub(crate) fn strip_right_by<'a, F: Fn(char) -> bool>(
    s: &'a str,
    f: F,
    Ghost(p): Ghost<spec_fn(char) -> bool>,
) -> (r: &'a str)
    requires
        forall|c: char| call_requires(f, (c,)),
        forall|c: char, b: bool| call_ensures(f, (c,), b) ==> b == p(c),
    ensures
        r@ == strip_right(s@, p),
{
    let v = to_chars(s);
    let mut n: usize = v.len();
    assert(v@.take(n as int) =~= v@);
    while n > 0 && f(v[n - 1])
        invariant
            forall|c: char| call_requires(f, (c,)),
            forall|c: char, b: bool| call_ensures(f, (c,), b) ==> b == p(c),
            n <= v@.len(),
            v@ == s@,
            strip_right(s@, p) == strip_right(v@.take(n as int), p),
        ensures
            n <= v@.len(),
            strip_right(s@, p) == v@.take(n as int),
        decreases n,
    {
        assert(v@.take(n as int).drop_last() =~= v@.take(n - 1));
        n -= 1;
    }
    assert(v@.take(n as int) =~= s@.subrange(0, n as int));
    s.substring_char(0, n)
}

/// Leading white space removed.
pub fn trim_start<'a>(s: &'a str) -> (r: &'a str)
    ensures
        r@ == strip_left(s@, |c: char| space(c)),
{
    strip_left_by(s, is_space, Ghost(|c: char| space(c)))
}

/// Trailing white space removed.
pub fn trim_end<'a>(s: &'a str) -> (r: &'a str)
    ensures
        r@ == strip_right(s@, |c: char| space(c)),
{
    strip_right_by(s, is_space, Ghost(|c: char| space(c)))
}

/// White space removed at both ends.
pub fn trim<'a>(s: &'a str) -> (r: &'a str)
    ensures
        r@ == trimmed(s@),
{
    trim_end(trim_start(s))
}

/// Whether a text is empty or all white space.
pub fn is_blank(s: &str) -> (r: bool)
    ensures
        r == blank(s@),
        r == (trimmed(s@).len() == 0),
{
    let t = trim(s);
    proof {
        lemma_trimmed_blank(s@);
    }
    t.unicode_len() == 0
}

/// Trimming leaves nothing exactly when there is nothing but white space.
pub proof fn lemma_trimmed_blank(s: Seq<char>)
    ensures
        blank(s) == (trimmed(s).len() == 0),
{
    let p = |c: char| space(c);
    lemma_strip_left(s, p);
    let k = s.len() - strip_left(s, p).len();
    let t = strip_left(s, p);
    lemma_strip_right(t, p);
    if blank(s) {
        if t.len() > 0 {
            assert(t[0] == s[k]);
            assert(space(s[k]));
        }
    } else if trimmed(s).len() == 0 {
        assert(t.len() > 0) by {
            if t.len() == 0 {
                assert forall|i: int| 0 <= i < s.len() implies space(#[trigger] s[i]) by {
                    assert(p(s[i]));
                }
            }
        }
        assert(p(t[0]));
    }
}

/// What [`strip_left`] takes away: a prefix within the class, and no less.
pub proof fn lemma_strip_left(s: Seq<char>, p: spec_fn(char) -> bool)
    ensures
        strip_left(s, p).len() <= s.len(),
        strip_left(s, p) == s.skip(s.len() - strip_left(s, p).len()),
        forall|i: int| 0 <= i < s.len() - strip_left(s, p).len() ==> p(#[trigger] s[i]),
        strip_left(s, p).len() > 0 ==> !p(strip_left(s, p)[0]),
    decreases s.len(),
{
    if s.len() > 0 && p(s[0]) {
        lemma_strip_left(s.drop_first(), p);
        let r = strip_left(s, p);
        assert(s.skip(s.len() - r.len()) =~= s.drop_first().skip(s.drop_first().len() - r.len()));
        assert forall|i: int| 0 <= i < s.len() - r.len() implies p(#[trigger] s[i]) by {
            if i > 0 {
                assert(s.drop_first()[i - 1] == s[i]);
            }
        }
    } else {
        assert(s.skip(0) =~= s);
    }
}

/// What [`strip_right`] takes away: a suffix within the class, and no less.
pub proof fn lemma_strip_right(s: Seq<char>, p: spec_fn(char) -> bool)
    ensures
        strip_right(s, p).len() <= s.len(),
        strip_right(s, p) == s.take(strip_right(s, p).len() as int),
        forall|i: int| strip_right(s, p).len() <= i < s.len() ==> p(#[trigger] s[i]),
        strip_right(s, p).len() > 0 ==> !p(strip_right(s, p).last()),
    decreases s.len(),
{
    if s.len() > 0 && p(s.last()) {
        lemma_strip_right(s.drop_last(), p);
        let r = strip_right(s, p);
        assert(s.take(r.len() as int) =~= s.drop_last().take(r.len() as int));
        assert forall|i: int| r.len() <= i < s.len() implies p(#[trigger] s[i]) by {
            if i < s.len() - 1 {
                assert(s.drop_last()[i] == s[i]);
            }
        }
    } else {
        assert(s.take(s.len() as int) =~= s);
    }
}

// ---------------------------------------------------------------------------
// Searching
// ---------------------------------------------------------------------------

/// Whether `t` stands in `s` from position `i` on.
pub open spec fn occurs_at(s: Seq<char>, t: Seq<char>, i: int) -> bool {
    0 <= i && i + t.len() <= s.len() && s.subrange(i, i + t.len()) == t
}

/// Whether `t` stands somewhere in `s`.
pub open spec fn has_text(s: Seq<char>, t: Seq<char>) -> bool {
    exists|i: int| occurs_at(s, t, i)
}

fn matches_at(s: &Vec<char>, t: &Vec<char>, i: usize) -> (r: bool)
    requires
        i + t@.len() <= s@.len(),
    ensures
        r == occurs_at(s@, t@, i as int),
{
    let n: usize = t.len();
    let len: usize = s.len();
    let mut k: usize = 0;
    while k < n
        invariant
            k <= n == t@.len(),
            i + n <= s@.len() == len,
            forall|j: int| 0 <= j < k ==> s@[i + j] == t@[j],
        decreases n - k,
    {
        if s[i + k] != t[k] {
            proof {
                assert(s@.subrange(i as int, i + n)[k as int] == s@[i + k]);
            }
            return false;
        }
        k += 1;
    }
    assert(s@.subrange(i as int, i + n) =~= t@);
    true
}

/// Whether `t` occurs in `s`.
pub fn contains(s: &str, t: &str) -> (r: bool)
    ensures
        r == has_text(s@, t@),
{
    let sv = to_chars(s);
    let tv = to_chars(t);
    let n: usize = sv.len();
    let m: usize = tv.len();
    if m > n {
        return false;
    }
    let mut i: usize = 0;
    while i <= n - m
        invariant
            sv@ == s@,
            tv@ == t@,
            n == sv@.len(),
            m == tv@.len(),
            m <= n,
            i <= n - m,
            forall|j: int| 0 <= j < i ==> !occurs_at(s@, t@, j),
        ensures
            !has_text(s@, t@),
        decreases n - m - i,
    {
        if matches_at(&sv, &tv, i) {
            return true;
        }
        if i == n - m {
            break;
        }
        i += 1;
    }
    false
}

/// Whether `s` begins with `t`.
pub fn starts_with(s: &str, t: &str) -> (r: bool)
    ensures
        r == t@.is_prefix_of(s@),
{
    let sv = to_chars(s);
    let tv = to_chars(t);
    if tv.len() > sv.len() {
        return false;
    }
    assert(s@.subrange(0, t@.len() as int) =~= s@.take(t@.len() as int));
    matches_at(&sv, &tv, 0)
}

/// Whether `s` ends with `t`.
pub fn ends_with(s: &str, t: &str) -> (r: bool)
    ensures
        r == t@.is_suffix_of(s@),
{
    let sv = to_chars(s);
    let tv = to_chars(t);
    if tv.len() > sv.len() {
        return false;
    }
    matches_at(&sv, &tv, sv.len() - tv.len())
}

/// What follows the prefix `t`, if `s` begins with it.
pub fn strip_prefix<'a>(s: &'a str, t: &str) -> (r: Option<&'a str>)
    ensures
        match r {
            Some(rest) => t@.is_prefix_of(s@) && rest@ == s@.skip(t@.len() as int),
            None => !t@.is_prefix_of(s@),
        },
{
    if starts_with(s, t) {
        let n: usize = s.unicode_len();
        let k: usize = t.unicode_len();
        assert(s@.skip(k as int) =~= s@.subrange(k as int, n as int));
        Some(s.substring_char(k, n))
    } else {
        None
    }
}

/// What precedes the suffix `t`, if `s` ends with it.
pub fn strip_suffix<'a>(s: &'a str, t: &str) -> (r: Option<&'a str>)
    ensures
        match r {
            Some(rest) => t@.is_suffix_of(s@) && rest@ == s@.take(s@.len() - t@.len()),
            None => !t@.is_suffix_of(s@),
        },
{
    if ends_with(s, t) {
        let n: usize = s.unicode_len();
        let k: usize = t.unicode_len();
        assert(s@.take(n - k) =~= s@.subrange(0, n - k));
        Some(s.substring_char(0, n - k))
    } else {
        None
    }
}

/// `s` with every trailing `t` removed.
pub open spec fn strip_suffixes(s: Seq<char>, t: Seq<char>) -> Seq<char>
    decreases s.len(),
{
    if t.len() > 0 && t.is_suffix_of(s) {
        strip_suffixes(s.take(s.len() - t.len()), t)
    } else {
        s
    }
}

pub fn trim_end_text<'a>(s: &'a str, t: &str) -> (r: &'a str)
    requires
        t@.len() > 0,
    ensures
        r@ == strip_suffixes(s@, t@),
    decreases s@.len(),
{
    match strip_suffix(s, t) {
        Some(rest) => trim_end_text(rest, t),
        None => s,
    }
}

/// Equality up to the case of `A` to `Z`.
pub fn eq_ignore_ascii_case(a: &str, b: &str) -> (r: bool)
    ensures
        r == (ascii_lowered(a@) == ascii_lowered(b@)),
{
    same(to_ascii_lowered(a).as_str(), to_ascii_lowered(b).as_str())
}

/// Position of the first character of `s` that `f` accepts, from `from` on.
pub(crate) fn position<F: Fn(char) -> bool>(
    s: &Vec<char>,
    from: usize,
    f: F,
    Ghost(p): Ghost<spec_fn(char) -> bool>,
) -> (r: usize)
    requires
        from <= s@.len(),
        forall|c: char| call_requires(f, (c,)),
        forall|c: char, b: bool| call_ensures(f, (c,), b) ==> b == p(c),
    ensures
        from <= r <= s@.len(),
        forall|i: int| from <= i < r ==> !p(#[trigger] s@[i]),
        r < s@.len() ==> p(s@[r as int]),
{
    let mut i: usize = from;
    while i < s.len() && !f(s[i])
        invariant
            forall|c: char| call_requires(f, (c,)),
            forall|c: char, b: bool| call_ensures(f, (c,), b) ==> b == p(c),
            from <= i <= s@.len(),
            forall|j: int| from <= j < i ==> !p(#[trigger] s@[j]),
        ensures
            from <= i <= s@.len(),
            forall|j: int| from <= j < i ==> !p(#[trigger] s@[j]),
            i < s@.len() ==> p(s@[i as int]),
        decreases s@.len() - i,
    {
        i += 1;
    }
    i
}

// ---------------------------------------------------------------------------
// Splitting and joining
// ---------------------------------------------------------------------------

/// The pieces of `s` between the characters in `p`: one more than there are
/// such characters.
pub open spec fn pieces(s: Seq<char>, p: spec_fn(char) -> bool) -> Seq<Seq<char>>
    decreases s.len(),
{
    if s.len() == 0 {
        seq![Seq::empty()]
    } else {
        let before = pieces(s.drop_last(), p);
        if p(s.last()) {
            before.push(Seq::empty())
        } else {
            before.drop_last().push(before.last().push(s.last()))
        }
    }
}

/// There is always at least one piece.
pub proof fn lemma_pieces_nonempty(s: Seq<char>, p: spec_fn(char) -> bool)
    ensures
        pieces(s, p).len() > 0,
    decreases s.len(),
{
    if s.len() > 0 {
        lemma_pieces_nonempty(s.drop_last(), p);
    }
}

/// [`pieces`] for the class that `f` decides.
pub(crate) fn split_by<F: Fn(char) -> bool>(
    s: &str,
    f: F,
    Ghost(p): Ghost<spec_fn(char) -> bool>,
) -> (r: Vec<String>)
    requires
        forall|c: char| call_requires(f, (c,)),
        forall|c: char, b: bool| call_ensures(f, (c,), b) ==> b == p(c),
    ensures
        views(r@) == pieces(s@, p),
{
    let mut out: Vec<String> = Vec::new();
    let mut cur = String::new();
    proof {
        assert(views(out@).push(cur@) =~= pieces(s@.take(0), p));
    }
    for c in it: s.chars()
        invariant
            forall|c: char| call_requires(f, (c,)),
            forall|c: char, b: bool| call_ensures(f, (c,), b) ==> b == p(c),
            it.seq() == s@,
            views(out@).push(cur@) == pieces(s@.take(it.index() as int), p),
    {
        let ghost k = it.index() as int;
        let ghost before = views(out@).push(cur@);
        proof {
            assert(s@.take(k + 1).drop_last() =~= s@.take(k));
            assert(before.drop_last() =~= views(out@));
        }
        if f(c) {
            out.push(cur);
            cur = String::new();
            proof {
                assert(views(out@) =~= before);
                assert(views(out@).push(cur@) =~= pieces(s@.take(k + 1), p));
            }
        } else {
            cur.push(c);
            proof {
                assert(views(out@).push(cur@) =~= pieces(s@.take(k + 1), p));
            }
        }
    }
    proof {
        assert(s@.take(s@.len() as int) =~= s@);
    }
    let ghost before = views(out@).push(cur@);
    out.push(cur);
    proof {
        assert(views(out@) =~= before);
    }
    out
}

/// Only the non-empty texts of a list.
pub open spec fn without_empty(v: Seq<Seq<char>>) -> Seq<Seq<char>>
    decreases v.len(),
{
    if v.len() == 0 {
        v
    } else {
        let before = without_empty(v.drop_last());
        if v.last().len() == 0 {
            before
        } else {
            before.push(v.last())
        }
    }
}

/// The maximal runs of characters that are not white space.
pub open spec fn words_of(s: Seq<char>) -> Seq<Seq<char>> {
    without_empty(pieces(s, |c: char| space(c)))
}

pub fn words(s: &str) -> (r: Vec<String>)
    ensures
        views(r@) == words_of(s@),
{
    let parts = split_by(s, is_space, Ghost(|c: char| space(c)));
    let mut out: Vec<String> = Vec::new();
    let n: usize = parts.len();
    let mut i: usize = 0;
    proof {
        assert(views(out@) =~= without_empty(views(parts@).take(0)));
    }
    while i < n
        invariant
            i <= n == parts@.len(),
            views(out@) == without_empty(views(parts@).take(i as int)),
        decreases n - i,
    {
        proof {
            assert(views(parts@).take(i + 1).drop_last() =~= views(parts@).take(i as int));
        }
        let ghost before = out@;
        if parts[i].as_str().unicode_len() > 0 {
            out.push(parts[i].clone());
            proof {
                assert(views(out@) =~= views(before).push(parts@[i as int]@));
            }
        }
        i += 1;
    }
    proof {
        assert(views(parts@).take(n as int) =~= views(parts@));
    }
    out
}

/// The lines of a text. A line ends at a line feed, which together with a
/// carriage return before it belongs to no line; after a final line feed no
/// empty line follows.
pub open spec fn lines_of(s: Seq<char>) -> Seq<Seq<char>> {
    let parts = pieces(s, |c: char| c == '\n');
    let ended = Seq::new((parts.len() - 1) as nat, |i: int| chomp(parts[i]));
    if parts.last().len() == 0 {
        ended
    } else {
        ended.push(parts.last())
    }
}

/// A line without the carriage return before its line feed.
pub open spec fn chomp(line: Seq<char>) -> Seq<char> {
    if line.len() > 0 && line.last() == '\r' {
        line.drop_last()
    } else {
        line
    }
}

fn is_newline(c: char) -> (r: bool)
    ensures
        r == (c == '\n'),
{
    c == '\n'
}

pub fn lines(s: &str) -> (r: Vec<String>)
    ensures
        views(r@) == lines_of(s@),
{
    let ghost nl = |c: char| c == '\n';
    let parts = split_by(s, is_newline, Ghost(nl));
    proof {
        lemma_pieces_nonempty(s@, nl);
        assert(parts@.len() == pieces(s@, nl).len());
        assert forall|i: int| 0 <= i < parts@.len() implies #[trigger] parts@[i]@ == pieces(
            s@,
            nl,
        )[i] by {
            assert(views(parts@)[i] == pieces(s@, nl)[i]);
        }
    }
    let n: usize = parts.len();
    let mut out: Vec<String> = Vec::new();
    let mut i: usize = 0;
    while i < n - 1
        invariant
            1 <= n == parts@.len(),
            i <= n - 1,
            out@.len() == i,
            forall|k: int| 0 <= k < i ==> #[trigger] out@[k]@ == chomp(parts@[k]@),
        decreases n - i,
    {
        let line = parts[i].as_str();
        let m: usize = line.unicode_len();
        let kept = match strip_suffix(line, "\r") {
            Some(rest) => {
                proof {
                    reveal_strlit("\r");
                    assert("\r"@ =~= seq!['\r']);
                    assert(line@.last() == line@.subrange(m - 1, m as int)[0]);
                    assert(rest@ =~= line@.drop_last());
                }
                rest
            },
            None => {
                proof {
                    reveal_strlit("\r");
                    assert("\r"@ =~= seq!['\r']);
                    if m > 0 && line@.last() == '\r' {
                        assert(line@.subrange(m - 1, m as int) =~= "\r"@);
                    }
                }
                line
            },
        };
        assert(kept@ == chomp(parts@[i as int]@));
        out.push(kept.to_owned());
        i += 1;
    }
    if parts[n - 1].as_str().unicode_len() > 0 {
        out.push(parts[n - 1].clone());
    }
    proof {
        assert(views(out@) =~= lines_of(s@));
    }
    out
}

/// The texts one after the other with `sep` between neighbours.
pub open spec fn joined(parts: Seq<Seq<char>>, sep: Seq<char>) -> Seq<char>
    decreases parts.len(),
{
    if parts.len() == 0 {
        Seq::empty()
    } else if parts.len() == 1 {
        parts[0]
    } else {
        joined(parts.drop_last(), sep) + sep + parts.last()
    }
}

pub fn join(parts: &Vec<String>, sep: &str) -> (r: String)
    ensures
        r@ == joined(views(parts@), sep@),
{
    let mut out = String::new();
    let n: usize = parts.len();
    let mut i: usize = 0;
    while i < n
        invariant
            i <= n == parts@.len(),
            out@ == joined(views(parts@).take(i as int), sep@),
        decreases n - i,
    {
        proof {
            assert(views(parts@).take(i + 1).drop_last() =~= views(parts@).take(i as int));
        }
        if i > 0 {
            out.append(sep);
        }
        out.append(parts[i].as_str());
        proof {
            if i == 0 {
                assert(out@ =~= parts@[0]@);
            }
        }
        i += 1;
    }
    proof {
        assert(views(parts@).take(n as int) =~= views(parts@));
    }
    out
}

/// A text stands in anything that it was put together into.
pub proof fn lemma_text_within(a: Seq<char>, t: Seq<char>, b: Seq<char>)
    ensures
        has_text(a + t + b, t),
        occurs_at(a + t + b, t, a.len() as int),
{
    assert((a + t + b).subrange(a.len() as int, (a.len() + t.len()) as int) =~= t);
    assert(occurs_at(a + t + b, t, a.len() as int));
}

/// What stands in a part stands in the whole.
pub proof fn lemma_text_within_part(a: Seq<char>, t: Seq<char>, b: Seq<char>, x: Seq<char>)
    requires
        has_text(t, x),
    ensures
        has_text(a + t + b, x),
{
    let i = choose|i: int| occurs_at(t, x, i);
    assert((a + t + b).subrange(a.len() + i, a.len() + i + x.len()) =~= t.subrange(
        i,
        i + x.len(),
    ));
    assert(occurs_at(a + t + b, x, a.len() + i));
}

/// Each of some texts stands in what they were joined to.
pub proof fn lemma_joined_holds(parts: Seq<Seq<char>>, sep: Seq<char>, i: int)
    requires
        0 <= i < parts.len(),
    ensures
        has_text(joined(parts, sep), parts[i]),
    decreases parts.len(),
{
    let e = Seq::<char>::empty();
    if parts.len() == 1 {
        assert(e + parts[0] + e =~= parts[0]);
        lemma_text_within(e, parts[0], e);
    } else if i < parts.len() - 1 {
        lemma_joined_holds(parts.drop_last(), sep, i);
        let head = joined(parts.drop_last(), sep);
        assert(parts.drop_last()[i] == parts[i]);
        lemma_text_within_part(e, head, sep + parts.last(), parts[i]);
        assert(e + head + (sep + parts.last()) =~= joined(parts, sep));
    } else {
        let head = joined(parts.drop_last(), sep) + sep;
        lemma_text_within(head, parts.last(), e);
        assert(head + parts.last() + e =~= joined(parts, sep));
    }
}

// ---------------------------------------------------------------------------
// Numbers
// ---------------------------------------------------------------------------

/// The digit character of `d`, for `d` below ten.
pub open spec fn digit(d: int) -> char {
    ((0x30 + d) as u32) as char
}

/// Decimal notation without leading zeros.
pub open spec fn decimal(n: nat) -> Seq<char>
    decreases n,
{
    if n < 10 {
        seq![digit(n as int)]
    } else {
        decimal(n / 10).push(digit((n % 10) as int))
    }
}

/// Decimal notation of a signed number.
pub open spec fn signed_decimal(n: int) -> Seq<char> {
    if n < 0 {
        seq!['-'] + decimal((-n) as nat)
    } else {
        decimal(n as nat)
    }
}

/// `s` filled up with zeros on the left to at least `width` characters.
pub open spec fn zero_padded(s: Seq<char>, width: int) -> Seq<char>
    decreases width - s.len(),
{
    if s.len() >= width {
        s
    } else {
        zero_padded(seq!['0'] + s, width)
    }
}

fn digit_char(d: u8) -> (c: char)
    requires
        d < 10,
    ensures
        c == digit(d as int),
{
    (0x30 + d) as char
}

pub fn decimal_of(n: u128) -> (r: String)
    ensures
        r@ == decimal(n as nat),
    decreases n,
{
    if n < 10 {
        let mut s = String::new();
        s.push(digit_char(n as u8));
        assert(s@ =~= seq![digit(n as int)]);
        s
    } else {
        let mut s = decimal_of(n / 10);
        s.push(digit_char((n % 10) as u8));
        s
    }
}

pub fn signed_decimal_of(n: i64) -> (r: String)
    ensures
        r@ == signed_decimal(n as int),
{
    if n < 0 {
        let mut s = String::new();
        s.push('-');
        s.append(decimal_of((-(n as i128)) as u128).as_str());
        assert(s@ =~= signed_decimal(n as int));
        s
    } else {
        decimal_of(n as u128)
    }
}

/// `n` in decimal notation with at least `width` digits.
pub fn padded_decimal_of(n: u128, width: usize) -> (r: String)
    ensures
        r@ == zero_padded(decimal(n as nat), width as int),
{
    let mut s = decimal_of(n);
    let mut len: usize = s.as_str().unicode_len();
    while len < width
        invariant
            len == s@.len(),
            zero_padded(s@, width as int) == zero_padded(decimal(n as nat), width as int),
        decreases width - len,
    {
        let mut t = String::new();
        t.push('0');
        t.append(s.as_str());
        assert(t@ =~= seq!['0'] + s@);
        s = t;
        len += 1;
    }
    s
}

/// The first `n` characters, or all of them.
pub open spec fn first_chars(s: Seq<char>, n: int) -> Seq<char> {
    if s.len() <= n {
        s
    } else {
        s.take(n)
    }
}

pub fn take_chars<'a>(s: &'a str, n: usize) -> (r: &'a str)
    ensures
        r@ == first_chars(s@, n as int),
{
    let len: usize = s.unicode_len();
    if len <= n {
        s
    } else {
        assert(s@.subrange(0, n as int) =~= s@.take(n as int));
        s.substring_char(0, n)
    }
}

// ---------------------------------------------------------------------------
// Selecting
// ---------------------------------------------------------------------------

/// The characters of `s` in `p`, in order.
pub open spec fn selected(s: Seq<char>, p: spec_fn(char) -> bool) -> Seq<char>
    decreases s.len(),
{
    if s.len() == 0 {
        s
    } else if p(s.last()) {
        selected(s.drop_last(), p).push(s.last())
    } else {
        selected(s.drop_last(), p)
    }
}

/// [`selected`] for the class that `f` decides.
pub(crate) fn select_by<F: Fn(char) -> bool>(
    s: &str,
    f: F,
    Ghost(p): Ghost<spec_fn(char) -> bool>,
) -> (r: Vec<char>)
    requires
        forall|c: char| call_requires(f, (c,)),
        forall|c: char, b: bool| call_ensures(f, (c,), b) ==> b == p(c),
    ensures
        r@ == selected(s@, p),
{
    let v = to_chars(s);
    let n: usize = v.len();
    let mut out: Vec<char> = Vec::new();
    let mut i: usize = 0;
    while i < n
        invariant
            forall|c: char| call_requires(f, (c,)),
            forall|c: char, b: bool| call_ensures(f, (c,), b) ==> b == p(c),
            i <= n == v@.len(),
            out@ == selected(v@.take(i as int), p),
        decreases n - i,
    {
        proof {
            assert(v@.take(i + 1).drop_last() =~= v@.take(i as int));
        }
        if f(v[i]) {
            out.push(v[i]);
        }
        i += 1;
    }
    proof {
        assert(v@.take(n as int) =~= v@);
    }
    out
}

/// Position of the first `c` in `s`, or the length if there is none.
pub open spec fn first_index(s: Seq<char>, c: char) -> int
    decreases s.len(),
{
    if s.len() == 0 || s[0] == c {
        0
    } else {
        1 + first_index(s.drop_first(), c)
    }
}

/// [`first_index`] of `c` in what follows position `from`, counted from there.
pub(crate) fn index_from(s: &Vec<char>, from: usize, c: char) -> (r: usize)
    requires
        from <= s@.len(),
    ensures
        r == first_index(s@.skip(from as int), c),
        from + r <= s@.len(),
        from + r < s@.len() ==> s@[from + r] == c,
{
    let n: usize = s.len();
    let mut i: usize = from;
    while i < n && s[i] != c
        invariant
            from <= i <= n == s@.len(),
            first_index(s@.skip(from as int), c) == i - from + first_index(s@.skip(i as int), c),
        ensures
            from <= i <= n,
            i < n ==> s@[i as int] == c,
            first_index(s@.skip(from as int), c) == i - from,
        decreases n - i,
    {
        proof {
            assert(s@.skip(i as int).drop_first() =~= s@.skip(i + 1));
        }
        i += 1;
    }
    i - from
}

/// Where `t` first stands in `s` from `i` on.
pub open spec fn text_index(s: Seq<char>, t: Seq<char>, i: int) -> Option<int>
    decreases s.len() + 1 - i,
{
    if i < 0 || i + t.len() > s.len() {
        None
    } else if occurs_at(s, t, i) {
        Some(i)
    } else {
        text_index(s, t, i + 1)
    }
}

/// What follows the first `t` in `s`, if there is one.
pub open spec fn after_text(s: Seq<char>, t: Seq<char>) -> Option<Seq<char>> {
    match text_index(s, t, 0) {
        Some(i) => Some(s.skip(i + t.len())),
        None => None,
    }
}

pub fn rest_after<'a>(s: &'a str, t: &str) -> (r: Option<&'a str>)
    requires
        t@.len() > 0,
    ensures
        match r {
            Some(rest) => after_text(s@, t@) == Some(rest@),
            None => after_text(s@, t@) is None,
        },
{
    let sv = to_chars(s);
    let tv = to_chars(t);
    let n: usize = sv.len();
    let m: usize = tv.len();
    let mut i: usize = 0;
    while i < n && m <= n - i
        invariant
            sv@ == s@,
            tv@ == t@,
            n == sv@.len(),
            m == tv@.len(),
            0 < m,
            i <= n,
            text_index(s@, t@, 0) == text_index(s@, t@, i as int),
        decreases n - i,
    {
        if matches_at(&sv, &tv, i) {
            assert(s@.skip(i + m) =~= s@.subrange(i + m, n as int));
            return Some(s.substring_char(i + m, n));
        }
        i += 1;
    }
    None
}

/// `s` up to its first character in `p`.
pub open spec fn until(s: Seq<char>, p: spec_fn(char) -> bool) -> Seq<char>
    decreases s.len(),
{
    if s.len() == 0 || p(s[0]) {
        Seq::empty()
    } else {
        seq![s[0]] + until(s.drop_first(), p)
    }
}

proof fn lemma_until(s: Seq<char>, p: spec_fn(char) -> bool, k: int)
    requires
        0 <= k <= s.len(),
        forall|i: int| 0 <= i < k ==> !p(#[trigger] s[i]),
        k < s.len() ==> p(s[k]),
    ensures
        until(s, p) == s.take(k),
    decreases k,
{
    if k > 0 {
        assert(!p(s[0]));
        let rest = s.drop_first();
        assert forall|i: int| 0 <= i < k - 1 implies !p(#[trigger] rest[i]) by {
            assert(rest[i] == s[i + 1]);
        }
        lemma_until(rest, p, k - 1);
        assert(seq![s[0]] + rest.take(k - 1) =~= s.take(k));
    } else {
        assert(s.take(0) =~= Seq::empty());
    }
}

/// [`until`] for the class that `f` decides.
pub(crate) fn until_by<'a, F: Fn(char) -> bool>(
    s: &'a str,
    f: F,
    Ghost(p): Ghost<spec_fn(char) -> bool>,
) -> (r: &'a str)
    requires
        forall|c: char| call_requires(f, (c,)),
        forall|c: char, b: bool| call_ensures(f, (c,), b) ==> b == p(c),
    ensures
        r@ == until(s@, p),
{
    let v = to_chars(s);
    let k: usize = position(&v, 0, f, Ghost(p));
    proof {
        lemma_until(s@, p, k as int);
        assert(s@.take(k as int) =~= s@.subrange(0, k as int));
    }
    s.substring_char(0, k)
}

// ---------------------------------------------------------------------------
// Optional texts and copies
// ---------------------------------------------------------------------------

/// The view of an optional text.
pub open spec fn opt_view(o: Option<String>) -> Option<Seq<char>> {
    match o {
        Some(s) => Some(s@),
        None => None,
    }
}

/// A copy of a list of texts.
pub(crate) fn copy_texts(v: &Vec<String>) -> (r: Vec<String>)
    ensures
        views(r@) == views(v@),
{
    let n: usize = v.len();
    let mut out: Vec<String> = Vec::new();
    let mut i: usize = 0;
    while i < n
        invariant
            i <= n == v@.len(),
            out@.len() == i,
            forall|k: int| 0 <= k < i ==> (#[trigger] out@[k])@ == v@[k]@,
        decreases n - i,
    {
        out.push(v[i].clone());
        i += 1;
    }
    proof {
        assert(views(out@) =~= views(v@));
    }
    out
}

/// A copy of an optional text.
pub(crate) fn copy_opt(o: &Option<String>) -> (r: Option<String>)
    ensures
        opt_view(r) == opt_view(*o),
{
    match o {
        Some(s) => Some(s.clone()),
        None => None,
    }
}

// ---------------------------------------------------------------------------
// Order
// ---------------------------------------------------------------------------

/// Whether `a` comes before `b` in the order of their characters.
pub open spec fn precedes(a: Seq<char>, b: Seq<char>) -> bool
    decreases a.len(),
{
    if b.len() == 0 {
        false
    } else if a.len() == 0 {
        true
    } else if a[0] != b[0] {
        (a[0] as u32) < (b[0] as u32)
    } else {
        precedes(a.drop_first(), b.drop_first())
    }
}

/// Each text comes before all that follow.
pub open spec fn ascending(v: Seq<Seq<char>>) -> bool {
    forall|i: int, j: int| 0 <= i < j < v.len() ==> precedes(#[trigger] v[i], #[trigger] v[j])
}

proof fn lemma_precedes_transitive(a: Seq<char>, b: Seq<char>, c: Seq<char>)
    requires
        precedes(a, b),
        precedes(b, c),
    ensures
        precedes(a, c),
    decreases a.len(),
{
    if a.len() > 0 && a[0] == b[0] && b[0] == c[0] {
        lemma_precedes_transitive(a.drop_first(), b.drop_first(), c.drop_first());
    }
}

proof fn lemma_precedes_total(a: Seq<char>, b: Seq<char>)
    ensures
        a == b || precedes(a, b) || precedes(b, a),
    decreases a.len(),
{
    if a.len() > 0 && b.len() > 0 && a[0] == b[0] {
        lemma_precedes_total(a.drop_first(), b.drop_first());
        if a.drop_first() == b.drop_first() {
            assert(a =~= seq![a[0]] + a.drop_first());
            assert(b =~= seq![b[0]] + b.drop_first());
        }
    } else if a.len() == 0 && b.len() == 0 {
        assert(a =~= b);
    } else if a.len() > 0 && b.len() > 0 {
        vstd::utf8::char_u32_cast(a[0], a[0] as u32);
        vstd::utf8::char_u32_cast(b[0], b[0] as u32);
    }
}

fn comes_before(a: &str, b: &str) -> (r: bool)
    ensures
        r == precedes(a@, b@),
{
    let x = to_chars(a);
    let y = to_chars(b);
    let mut i: usize = 0;
    proof {
        assert(x@.skip(0) =~= x@);
        assert(y@.skip(0) =~= y@);
    }
    while i < x.len() && i < y.len() && x[i] == y[i]
        invariant
            x@ == a@,
            y@ == b@,
            i <= x@.len(),
            i <= y@.len(),
            precedes(a@, b@) == precedes(x@.skip(i as int), y@.skip(i as int)),
        ensures
            i <= x@.len(),
            i <= y@.len(),
            i < x@.len() && i < y@.len() ==> x@[i as int] != y@[i as int],
            precedes(a@, b@) == precedes(x@.skip(i as int), y@.skip(i as int)),
        decreases x@.len() - i,
    {
        proof {
            assert(x@.skip(i as int).drop_first() =~= x@.skip(i + 1));
            assert(y@.skip(i as int).drop_first() =~= y@.skip(i + 1));
        }
        i += 1;
    }
    if i >= y.len() {
        false
    } else if i >= x.len() {
        true
    } else {
        (x[i] as u32) < (y[i] as u32)
    }
}

/// `s` put in its place among ascending texts, unless it is there already.
fn insert_in_order(v: &mut Vec<String>, s: String)
    requires
        ascending(views(old(v)@)),
    ensures
        ascending(views(final(v)@)),
        views(final(v)@).to_set() == views(old(v)@).to_set().insert(s@),
{
    let ghost before = views(v@);
    let ghost sv = s@;
    let n: usize = v.len();
    let mut i: usize = 0;
    while i < n && comes_before(v[i].as_str(), s.as_str())
        invariant
            i <= n == v@.len(),
            before == views(v@),
            sv == s@,
            forall|k: int| 0 <= k < i ==> precedes(#[trigger] before[k], sv),
        ensures
            i <= n,
            forall|k: int| 0 <= k < i ==> precedes(#[trigger] before[k], sv),
            i < n ==> !precedes(before[i as int], sv),
        decreases n - i,
    {
        proof {
            assert(before[i as int] == v@[i as int]@);
        }
        i += 1;
    }
    proof {
        assert(before.len() == v@.len());
        if i < n {
            assert(before[i as int] == v@[i as int]@);
            lemma_precedes_total(before[i as int], sv);
        }
    }
    if i < n && same(v[i].as_str(), s.as_str()) {
        proof {
            assert(before.contains(sv)) by {
                assert(before[i as int] == sv);
            }
            assert(before.to_set().insert(sv) =~= before.to_set());
        }
        return ;
    }
    v.insert(i, s);
    proof {
        let after = views(v@);
        assert(after =~= before.insert(i as int, sv));
        assert forall|a: int, b: int| 0 <= a < b < after.len() implies precedes(
            #[trigger] after[a],
            #[trigger] after[b],
        ) by {
            if a < i && b < i {
                assert(precedes(before[a], before[b]));
            } else if a < i && b == i {
                assert(precedes(before[a], sv));
            } else if a < i {
                assert(precedes(before[a], before[b - 1]));
            } else if a == i {
                if b - 1 > i {
                    assert(precedes(before[i as int], before[b - 1]));
                    lemma_precedes_transitive(sv, before[i as int], before[b - 1]);
                }
            } else {
                assert(precedes(before[a - 1], before[b - 1]));
            }
        }
        assert(after.to_set() =~= before.to_set().insert(sv)) by {
            assert forall|x: Seq<char>| after.to_set().contains(x) == before.to_set().insert(
                sv,
            ).contains(x) by {
                if after.contains(x) {
                    let k = choose|k: int| 0 <= k < after.len() && after[k] == x;
                    if k < i {
                        assert(before[k] == x);
                    } else if k > i {
                        assert(before[k - 1] == x);
                    }
                }
                if before.contains(x) {
                    let k = choose|k: int| 0 <= k < before.len() && before[k] == x;
                    if k < i {
                        assert(after[k] == x);
                    } else {
                        assert(after[k + 1] == x);
                    }
                }
                assert(after[i as int] == sv);
            }
        }
    }
}

/// The texts of a list in ascending order, each once.
pub fn sorted_distinct(v: &Vec<String>) -> (r: Vec<String>)
    ensures
        ascending(views(r@)),
        views(r@).to_set() == views(v@).to_set(),
{
    let n: usize = v.len();
    let ghost all = views(v@);
    let mut out: Vec<String> = Vec::new();
    let mut i: usize = 0;
    proof {
        assert(views(out@).to_set() =~= all.take(0).to_set());
    }
    while i < n
        invariant
            i <= n == v@.len(),
            all == views(v@),
            ascending(views(out@)),
            views(out@).to_set() == all.take(i as int).to_set(),
        decreases n - i,
    {
        insert_in_order(&mut out, v[i].clone());
        proof {
            assert(all[i as int] == v@[i as int]@);
            let a = all.take(i as int);
            let b = all.take(i + 1);
            assert(b =~= a.push(all[i as int]));
            assert(b.to_set() =~= a.to_set().insert(all[i as int])) by {
                assert forall|x: Seq<char>| b.to_set().contains(x) == a.to_set().insert(
                    all[i as int],
                ).contains(x) by {
                    if a.contains(x) {
                        let k = choose|k: int| 0 <= k < a.len() && a[k] == x;
                        assert(b[k] == x);
                    }
                    assert(b[i as int] == all[i as int]);
                }
            }
        }
        i += 1;
    }
    proof {
        assert(all.take(n as int) =~= all);
    }
    out
}

// ---------------------------------------------------------------------------
// Laws
// ---------------------------------------------------------------------------

/// White space around a text is taken off, and nothing else: what stands between two
/// characters that are not white space stays as it is.
pub proof fn law_only_outer_space_is_trimmed(a: Seq<char>, s: Seq<char>, b: Seq<char>)
    requires
        blank(a),
        blank(b),
        s.len() > 0 ==> !space(s[0]) && !space(s.last()),
    ensures
        trimmed(a + s + b) == s,
{
    let p = |c: char| space(c);
    let whole = a + s + b;
    let left = strip_left(whole, p);
    lemma_strip_left(whole, p);
    let k = whole.len() - left.len();
    assert(left =~= whole.skip(k));
    if s.len() == 0 {
        assert forall|i: int| 0 <= i < whole.len() implies space(#[trigger] whole[i]) by {
            if i < a.len() {
                assert(whole[i] == a[i]);
            } else {
                assert(whole[i] == b[i - a.len()]);
            }
        }
        lemma_trimmed_blank(whole);
        assert(trimmed(whole) =~= s);
    } else {
        if k < a.len() {
            assert(left[0] == whole[k]);
            assert(whole[k] == a[k]);
            assert(false);
        }
        if k > a.len() {
            assert(p(whole[a.len() as int]));
            assert(whole[a.len() as int] == s[0]);
            assert(false);
        }
        assert(left =~= s + b);
        let right = strip_right(left, p);
        lemma_strip_right(left, p);
        let n = right.len() as int;
        if n > s.len() {
            assert(right.last() == left[n - 1]);
            assert(left[n - 1] == b[n - 1 - s.len()]);
            assert(false);
        }
        if n < s.len() {
            assert(p(left[s.len() - 1]));
            assert(left[s.len() - 1] == s.last());
            assert(false);
        }
        assert(right =~= s);
    }
}

/// The value of decimal digits.
pub open spec fn digits_value(s: Seq<char>) -> int
    decreases s.len(),
{
    if s.len() == 0 {
        0
    } else {
        10 * digits_value(s.drop_last()) + (s.last() as u32 - 0x30)
    }
}

/// Numbers are read back from how they are written, also with zeros before them.
pub proof fn law_decimals_are_read_back(n: nat, width: int)
    ensures
        digits_value(decimal(n)) == n,
        digits_value(zero_padded(decimal(n), width)) == n,
        zero_padded(decimal(n), width).len() >= width,
{
    lemma_decimal_value(n);
    lemma_padded_value(decimal(n), width);
}

proof fn lemma_decimal_value(n: nat)
    ensures
        digits_value(decimal(n)) == n,
    decreases n,
{
    if n < 10 {
        let d = decimal(n);
        assert(d.drop_last() =~= Seq::empty());
        assert(digits_value(d.drop_last()) == 0);
        lemma_digit(n as int);
    } else {
        lemma_decimal_value(n / 10);
        lemma_digit((n % 10) as int);
        let d = decimal(n);
        assert(d.drop_last() =~= decimal(n / 10));
    }
}

proof fn lemma_digit(d: int)
    requires
        0 <= d < 10,
    ensures
        digit(d) as u32 == 0x30 + d,
{
    let u = (0x30 + d) as u32;
    assert(vstd::utf8::is_scalar(u));
    vstd::utf8::char_u32_cast(u as char, u);
}

proof fn lemma_padded_value(s: Seq<char>, width: int)
    ensures
        digits_value(zero_padded(s, width)) == digits_value(s),
        zero_padded(s, width).len() >= width,
    decreases width - s.len(),
{
    if s.len() < width {
        lemma_zero_before(s);
        lemma_padded_value(seq!['0'] + s, width);
    }
}

proof fn lemma_zero_before(s: Seq<char>)
    ensures
        digits_value(seq!['0'] + s) == digits_value(s),
    decreases s.len(),
{
    let t = seq!['0'] + s;
    if s.len() == 0 {
        assert(t.drop_last() =~= Seq::empty());
        assert(digits_value(t.drop_last()) == 0);
    } else {
        lemma_zero_before(s.drop_last());
        assert(t.drop_last() =~= seq!['0'] + s.drop_last());
    }
}

/// The words of a text hold all of it but the white space, in order.
pub proof fn law_words_hold_all_but_space(s: Seq<char>)
    ensures
        words_of(s).flatten_alt() == s.filter(|c: char| !space(c)),
        joined(words_of(s), " "@).filter(|c: char| !space(c)) == s.filter(|c: char| !space(c)),
        forall|i: int| 0 <= i < words_of(s).len() ==> (#[trigger] words_of(s)[i]).len() > 0,
{
    let p = |c: char| space(c);
    let q = |c: char| !space(c);
    lemma_pieces_hold(s, p);
    lemma_without_empty(pieces(s, p));
    assert(s.filter(q) == s.filter(|c: char| !p(c))) by {
        assert(q =~= (|c: char| !p(c)));
    }
    lemma_words_have_no_space(s);
    lemma_joined_words(words_of(s));
}

proof fn lemma_pieces_hold(s: Seq<char>, p: spec_fn(char) -> bool)
    ensures
        pieces(s, p).flatten_alt() == s.filter(|c: char| !p(c)),
        pieces(s, p).len() > 0,
        forall|i: int, k: int|
            0 <= i < pieces(s, p).len() && 0 <= k < pieces(s, p)[i].len() ==> !p(
                #[trigger] pieces(s, p)[i][k],
            ),
    decreases s.len(),
{
    reveal(Seq::filter);
    let q = |c: char| !p(c);
    let all = pieces(s, p);
    let e = Seq::<char>::empty();
    if s.len() == 0 {
        assert(all.drop_last() =~= Seq::empty());
        assert(all.drop_last().flatten_alt() =~= e);
        assert(all.flatten_alt() =~= e);
    } else {
        let head = s.drop_last();
        let before = pieces(head, p);
        lemma_pieces_hold(head, p);
        if p(s.last()) {
            assert(all.drop_last() =~= before);
            assert(all.flatten_alt() =~= before.flatten_alt());
        } else {
            assert(all.drop_last() =~= before.drop_last());
            assert(before.flatten_alt() == before.drop_last().flatten_alt() + before.last());
            assert(all.flatten_alt() =~= before.flatten_alt().push(s.last()));
        }
        assert forall|i: int, k: int| 0 <= i < all.len() && 0 <= k < all[i].len() implies !p(
            #[trigger] all[i][k],
        ) by {
            if p(s.last()) {
                if i < before.len() {
                    assert(all[i] == before[i]);
                    assert(!p(before[i][k]));
                }
            } else if i < before.len() - 1 {
                assert(all[i] == before[i]);
                assert(!p(before[i][k]));
            } else if k < before.last().len() {
                assert(all[i][k] == before[i][k]);
                assert(!p(before[i][k]));
            }
        }
    }
}

proof fn lemma_without_empty(v: Seq<Seq<char>>)
    ensures
        without_empty(v).flatten_alt() == v.flatten_alt(),
        forall|i: int| 0 <= i < without_empty(v).len() ==> (#[trigger] without_empty(v)[i]).len() > 0,
        forall|i: int|
            0 <= i < without_empty(v).len() ==> v.contains(#[trigger] without_empty(v)[i]),
    decreases v.len(),
{
    let r = without_empty(v);
    if v.len() > 0 {
        let head = v.drop_last();
        lemma_without_empty(head);
        let before = without_empty(head);
        if v.last().len() == 0 {
            assert(v.flatten_alt() =~= head.flatten_alt());
        } else {
            assert(r.drop_last() =~= before);
        }
        assert forall|i: int| 0 <= i < r.len() implies v.contains(#[trigger] r[i]) by {
            if i < before.len() {
                assert(r[i] == before[i]);
                let k = choose|k: int| 0 <= k < head.len() && head[k] == before[i];
                assert(v[k] == r[i]);
            } else {
                assert(v[v.len() - 1] == r[i]);
            }
        }
    }
}

proof fn lemma_words_have_no_space(s: Seq<char>)
    ensures
        forall|i: int, k: int|
            0 <= i < words_of(s).len() && 0 <= k < words_of(s)[i].len() ==> !space(
                #[trigger] words_of(s)[i][k],
            ),
{
    let p = |c: char| space(c);
    let all = pieces(s, p);
    lemma_pieces_hold(s, p);
    lemma_without_empty(all);
    let w = words_of(s);
    assert forall|i: int, k: int| 0 <= i < w.len() && 0 <= k < w[i].len() implies !space(
        #[trigger] w[i][k],
    ) by {
        assert(all.contains(w[i]));
        let j = choose|j: int| 0 <= j < all.len() && all[j] == w[i];
        assert(!p(all[j][k]));
    }
}

proof fn lemma_joined_words(w: Seq<Seq<char>>)
    requires
        forall|i: int, k: int| 0 <= i < w.len() && 0 <= k < w[i].len() ==> !space(#[trigger] w[i][k]),
    ensures
        joined(w, " "@).filter(|c: char| !space(c)) == w.flatten_alt(),
    decreases w.len(),
{
    reveal(Seq::filter);
    reveal_strlit(" ");
    let q = |c: char| !space(c);
    if w.len() == 0 {
        assert(joined(w, " "@).filter(q) =~= w.flatten_alt());
    } else {
        let last = w.last();
        assert forall|k: int| 0 <= k < last.len() implies !space(#[trigger] last[k]) by {
            assert(!space(w[w.len() - 1][k]));
        }
        lemma_nothing_filtered(last, q);
        if w.len() == 1 {
            assert(w.drop_last() =~= Seq::empty());
            assert(w.drop_last().flatten_alt() =~= Seq::<char>::empty());
            assert(w.flatten_alt() =~= last);
        } else {
            let head = w.drop_last();
            assert forall|i: int, k: int|
                0 <= i < head.len() && 0 <= k < head[i].len() implies !space(
                #[trigger] head[i][k],
            ) by {
                assert(!space(w[i][k]));
            }
            lemma_joined_words(head);
            let a = joined(head, " "@);
            Seq::filter_distributes_over_add(a + " "@, last, q);
            Seq::filter_distributes_over_add(a, " "@, q);
            assert(" "@.drop_last() =~= Seq::empty());
            assert(space(' ') && " "@.last() == ' ');
            assert(" "@.drop_last().filter(q) =~= Seq::empty());
            assert(" "@.filter(q) =~= Seq::empty());
            assert(joined(w, " "@).filter(q) =~= w.flatten_alt());
        }
    }
}

proof fn lemma_nothing_filtered(s: Seq<char>, q: spec_fn(char) -> bool)
    requires
        forall|k: int| 0 <= k < s.len() ==> q(#[trigger] s[k]),
    ensures
        s.filter(q) == s,
    decreases s.len(),
{
    reveal(Seq::filter);
    if s.len() > 0 {
        let head = s.drop_last();
        assert forall|k: int| 0 <= k < head.len() implies q(#[trigger] head[k]) by {
            assert(head[k] == s[k]);
        }
        lemma_nothing_filtered(head, q);
        assert(q(s[s.len() - 1]));
        assert(head.push(s.last()) =~= s);
    }
}

/// Words that are joined by blanks are the same words again.
pub proof fn law_joined_words_are_read_back(s: Seq<char>)
    ensures
        words_of(joined(words_of(s), " "@)) == words_of(s),
{
    let w = words_of(s);
    let p = |c: char| space(c);
    law_words_hold_all_but_space(s);
    lemma_words_have_no_space(s);
    lemma_pieces_of_joined(w);
    if w.len() == 0 {
        let e = Seq::<char>::empty();
        assert(pieces(e, p) =~= seq![e]);
        assert(without_empty(pieces(e, p).drop_last()) =~= Seq::empty());
        assert(words_of(e) =~= w);
    } else {
        lemma_none_empty(w);
    }
}

proof fn lemma_none_empty(w: Seq<Seq<char>>)
    requires
        forall|i: int| 0 <= i < w.len() ==> (#[trigger] w[i]).len() > 0,
    ensures
        without_empty(w) == w,
    decreases w.len(),
{
    if w.len() > 0 {
        let head = w.drop_last();
        assert forall|i: int| 0 <= i < head.len() implies (#[trigger] head[i]).len() > 0 by {
            assert(head[i] == w[i]);
        }
        lemma_none_empty(head);
        assert(w[w.len() - 1].len() > 0);
        assert(head.push(w.last()) =~= w);
    }
}

proof fn lemma_pieces_of_joined(w: Seq<Seq<char>>)
    requires
        forall|i: int, k: int| 0 <= i < w.len() && 0 <= k < w[i].len() ==> !space(#[trigger] w[i][k]),
    ensures
        w.len() > 0 ==> pieces(joined(w, " "@), |c: char| space(c)) == w,
    decreases w.len(),
{
    reveal_strlit(" ");
    let p = |c: char| space(c);
    let e = Seq::<char>::empty();
    if w.len() == 1 {
        assert forall|k: int| 0 <= k < w[0].len() implies !p(#[trigger] w[0][k]) by {
            assert(!space(w[0][k]));
        }
        assert(pieces(e, p) =~= seq![e]);
        lemma_pieces_grow(e, w[0], p);
        assert(e + w[0] =~= w[0]);
        assert(pieces(w[0], p) =~= w);
    } else if w.len() > 1 {
        let head = w.drop_last();
        assert forall|i: int, k: int| 0 <= i < head.len() && 0 <= k < head[i].len() implies !space(
            #[trigger] head[i][k],
        ) by {
            assert(!space(w[i][k]));
        }
        lemma_pieces_of_joined(head);
        let a = joined(head, " "@) + " "@;
        assert(a.drop_last() =~= joined(head, " "@));
        assert(a.last() == ' ' && space(' '));
        assert(pieces(a, p) == head.push(e));
        assert forall|k: int| 0 <= k < w.last().len() implies !p(#[trigger] w.last()[k]) by {
            assert(!space(w[w.len() - 1][k]));
        }
        lemma_pieces_grow(a, w.last(), p);
        assert(e + w.last() =~= w.last());
        assert(pieces(a + w.last(), p) =~= w);
    }
}

/// Characters outside the class lengthen the last piece.
proof fn lemma_pieces_grow(a: Seq<char>, b: Seq<char>, p: spec_fn(char) -> bool)
    requires
        forall|k: int| 0 <= k < b.len() ==> !p(#[trigger] b[k]),
    ensures
        pieces(a + b, p) == pieces(a, p).drop_last().push(pieces(a, p).last() + b),
    decreases b.len(),
{
    lemma_pieces_nonempty(a, p);
    let all = pieces(a, p);
    if b.len() == 0 {
        assert(a + b =~= a);
        assert(all.last() + b =~= all.last());
        assert(all.drop_last().push(all.last()) =~= all);
    } else {
        let head = b.drop_last();
        assert forall|k: int| 0 <= k < head.len() implies !p(#[trigger] head[k]) by {
            assert(head[k] == b[k]);
        }
        lemma_pieces_grow(a, head, p);
        assert((a + b).drop_last() =~= a + head);
        assert((a + b).last() == b.last());
        assert(!p(b[b.len() - 1]));
        let before = pieces(a + head, p);
        assert(before.drop_last() =~= all.drop_last());
        assert(before.last() =~= all.last() + head);
        assert((all.last() + head).push(b.last()) =~= all.last() + b);
    }
}

} // verus!
