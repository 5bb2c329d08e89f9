//! Small helpers: times, file names, shortened texts, addresses.

use vstd::arithmetic::power::pow;
use vstd::prelude::*;
use vstd::string::*;
use crate::text::control;
use crate::text::decimal;
use crate::text::decimal_of;
use crate::text::digit;
use crate::text::ends_with;
use crate::text::first_chars;
use crate::text::from_chars;
use crate::text::is_ascii_digit;
use crate::text::ascii_digit;
use crate::text::is_control;
use crate::text::lemma_strip_left;
use crate::text::lemma_strip_right;
use crate::text::padded_decimal_of;
use crate::text::pieces;
use crate::text::same;
use crate::text::space;
use crate::text::split_by;
use crate::text::strip_left;
use crate::text::strip_left_by;
use crate::text::strip_right;
use crate::text::strip_right_by;
use crate::text::take_chars;
use crate::text::to_chars;
use crate::text::trim;
use crate::text::trimmed;
use crate::text::views;
use crate::text::zero_padded;

verus! {

/// Milliseconds since the beginning of 1970 by the system clock
/// ([`std::time::SystemTime::now`]); zero if the clock is set before that.
/// Nothing is claimed of the result, which is different at every call.
#[verifier::external_body]
pub fn now_ms() -> (r: i64)
{
    std::time::SystemTime::now()
        .duration_since(std::time::UNIX_EPOCH)
        .map(|d| d.as_millis() as i64)
        .unwrap_or(0)
}

// ---------------------------------------------------------------------------
// Identifiers
// ---------------------------------------------------------------------------

/// A lower case hexadecimal digit.
pub open spec fn hex_digit(c: char) -> bool {
    0x30 <= c as u32 <= 0x39 || 0x61 <= c as u32 <= 0x66
}

/// Where the hyphens of an identifier stand.
pub open spec fn hyphen_at(i: int) -> bool {
    i == 8 || i == 13 || i == 18 || i == 23
}

/// An identifier with hyphens.
pub open spec fn uuid_text(s: Seq<char>) -> bool {
    &&& s.len() == 36
    &&& forall|i: int|
        0 <= i < 36 ==> if hyphen_at(i) {
            #[trigger] s[i] == '-'
        } else {
            hex_digit(s[i])
        }
}

/// An identifier without hyphens.
pub open spec fn simple_id(s: Seq<char>) -> bool {
    s.len() == 32 && forall|i: int| 0 <= i < 32 ==> hex_digit(#[trigger] s[i])
}

/// [`uuid::Uuid::new_v4`] as text: thirty-two lower case hexadecimal digits with
/// four hyphens among them. The digits are random, so two calls differ.
#[verifier::external_body]
pub(crate) fn fresh_uuid() -> (r: String)
    ensures
        uuid_text(r@),
{
    uuid::Uuid::new_v4().to_string()
}

/// A fresh identifier without hyphens.
pub(crate) fn fresh_id() -> (r: String)
    ensures
        simple_id(r@),
{
    let id = fresh_uuid();
    let v = to_chars(id.as_str());
    let mut out = String::new();
    let mut i: usize = 0;
    while i < 36
        invariant
            i <= 36 == v@.len(),
            uuid_text(v@),
            out@.len() == i - (if i > 8 {
                1int
            } else {
                0
            }) - (if i > 13 {
                1int
            } else {
                0
            }) - (if i > 18 {
                1int
            } else {
                0
            }) - (if i > 23 {
                1int
            } else {
                0
            }),
            forall|k: int| 0 <= k < out@.len() ==> hex_digit(#[trigger] out@[k]),
        decreases 36 - i,
    {
        if i != 8 && i != 13 && i != 18 && i != 23 {
            out.push(v[i]);
        }
        i += 1;
    }
    out
}

// ---------------------------------------------------------------------------
// Times
// ---------------------------------------------------------------------------

/// Whole seconds in `ms` milliseconds; none in a negative time.
pub open spec fn seconds(ms: int) -> nat {
    if ms < 0 {
        0
    } else {
        (ms / 1000) as nat
    }
}

/// Two digits, or more where two do not do.
pub open spec fn two_digits(n: nat) -> Seq<char> {
    zero_padded(decimal(n), 2)
}

/// `HH:MM:SS`.
pub open spec fn clock(ms: int) -> Seq<char> {
    let total = seconds(ms);
    two_digits(total / 3600) + ":"@ + two_digits(total % 3600 / 60) + ":"@ + two_digits(total % 60)
}

fn total_seconds(ms: i64) -> (r: u64)
    ensures
        r == seconds(ms as int),
{
    if ms < 0 {
        0
    } else {
        (ms / 1000) as u64
    }
}

pub fn format_clock(ms: i64) -> (r: String)
    ensures
        r@ == clock(ms as int),
{
    let total: u64 = total_seconds(ms);
    let mut s = padded_decimal_of((total / 3600) as u128, 2);
    s.append(":");
    s.append(padded_decimal_of((total % 3600 / 60) as u128, 2).as_str());
    s.append(":");
    s.append(padded_decimal_of((total % 60) as u128, 2).as_str());
    s
}

/// `MM:SS` below an hour, `HH:MM:SS` from there on.
pub open spec fn short_clock(ms: int) -> Seq<char> {
    let total = seconds(ms);
    if total >= 3600 {
        clock(ms)
    } else {
        two_digits(total / 60) + ":"@ + two_digits(total % 60)
    }
}

pub fn format_short(ms: i64) -> (r: String)
    ensures
        r@ == short_clock(ms as int),
{
    let total: u64 = total_seconds(ms);
    if total >= 3600 {
        format_clock(ms)
    } else {
        let mut s = padded_decimal_of((total / 60) as u128, 2);
        s.append(":");
        s.append(padded_decimal_of((total % 60) as u128, 2).as_str());
        s
    }
}

// ---------------------------------------------------------------------------
// File names
// ---------------------------------------------------------------------------

/// Characters that no file name may hold.
pub open spec fn unfit_for_file_name(c: char) -> bool {
    ||| c == '/'
    ||| c == '\\'
    ||| c == ':'
    ||| c == '*'
    ||| c == '?'
    ||| c == '"'
    ||| c == '<'
    ||| c == '>'
    ||| c == '|'
    ||| control(c)
}

fn is_unfit(c: char) -> (r: bool)
    ensures
        r == unfit_for_file_name(c),
{
    c == '/' || c == '\\' || c == ':' || c == '*' || c == '?' || c == '"' || c == '<' || c == '>'
        || c == '|' || is_control(c)
}

/// A name with an underscore for each unfit character.
pub open spec fn replaced_unfit(name: Seq<char>) -> Seq<char> {
    name.map_values(
        |c: char|
            if unfit_for_file_name(c) {
                '_'
            } else {
                c
            },
    )
}

/// A name made fit for a file, before it is shortened: without surrounding
/// white space and then without surrounding dots.
pub open spec fn fit_name(name: Seq<char>) -> Seq<char> {
    let dot = |c: char| c == '.';
    strip_right(strip_left(trimmed(replaced_unfit(name)), dot), dot)
}

/// A file name for `name`, or `fallback` where nothing is left of it.
pub open spec fn file_name(name: Seq<char>, fallback: Seq<char>) -> Seq<char> {
    if fit_name(name).len() == 0 {
        fallback
    } else {
        first_chars(fit_name(name), 80)
    }
}

fn is_dot(c: char) -> (r: bool)
    ensures
        r == (c == '.'),
{
    c == '.'
}

pub fn sanitize_filename(name: &str, fallback: &str) -> (r: String)
    ensures
        r@ == file_name(name@, fallback@),
{
    let v = to_chars(name);
    let n: usize = v.len();
    let mut out: Vec<char> = Vec::new();
    let mut i: usize = 0;
    while i < n
        invariant
            i <= n == v@.len(),
            out@ == replaced_unfit(v@).take(i as int),
        decreases n - i,
    {
        out.push(
            if is_unfit(v[i]) {
                '_'
            } else {
                v[i]
            },
        );
        proof {
            assert(out@ =~= replaced_unfit(v@).take(i + 1));
        }
        i += 1;
    }
    let cleaned = from_chars(&out, 0, n);
    proof {
        assert(cleaned@ =~= replaced_unfit(name@));
    }
    let dot = Ghost(|c: char| c == '.');
    let t = strip_right_by(strip_left_by(trim(cleaned.as_str()), is_dot, dot), is_dot, dot);
    if t.unicode_len() == 0 {
        fallback.to_owned()
    } else {
        take_chars(t, 80).to_owned()
    }
}

/// A file name made from `name` holds no separator and no other unfit character,
/// does not begin with a dot, and has at most eighty characters.
pub proof fn law_file_names_are_fit(name: Seq<char>, fallback: Seq<char>)
    requires
        fit_name(name).len() > 0,
    ensures
        forall|i: int|
            0 <= i < file_name(name, fallback).len() ==> !unfit_for_file_name(
                #[trigger] file_name(name, fallback)[i],
            ),
        0 < file_name(name, fallback).len() <= 80,
        file_name(name, fallback)[0] != '.',
{
    let sp = |c: char| space(c);
    let dot = |c: char| c == '.';
    let a = replaced_unfit(name);
    let b = strip_left(a, sp);
    let c = strip_right(b, sp);
    let d = strip_left(c, dot);
    let e = strip_right(d, dot);
    lemma_strip_left(a, sp);
    lemma_strip_right(b, sp);
    lemma_strip_left(c, dot);
    lemma_strip_right(d, dot);
    assert(e[0] == d[0]);
    assert forall|i: int| 0 <= i < e.len() implies !unfit_for_file_name(#[trigger] e[i]) by {
        let k = i + (c.len() - d.len()) + (a.len() - b.len());
        assert(e[i] == a[k]);
    }
}

// ---------------------------------------------------------------------------
// Shortened texts
// ---------------------------------------------------------------------------

/// At most `max` characters; where some are cut off, an ellipsis follows.
pub open spec fn truncated(s: Seq<char>, max: int) -> Seq<char> {
    if s.len() <= max {
        s
    } else {
        s.take(max).push('…')
    }
}

pub fn truncate_chars(s: &str, max_chars: usize) -> (r: String)
    ensures
        r@ == truncated(s@, max_chars as int),
{
    if s.unicode_len() <= max_chars {
        return s.to_owned();
    }
    let mut out = take_chars(s, max_chars).to_owned();
    out.push('…');
    out
}

/// A text of more than `max` characters with its middle left out: two thirds
/// of `max` characters from the beginning, the rest from the end, and a note on
/// how much is missing.
pub open spec fn middle_truncated(s: Seq<char>, max: int) -> Seq<char> {
    if s.len() <= max {
        s
    } else {
        let head = max * 2 / 3;
        s.take(head) + "\n……（中间省略 "@ + decimal(s.len()) + " 字中的 "@ + decimal(
            (s.len() - max) as nat,
        ) + " 字）……\n"@ + s.skip(s.len() - (max - head))
    }
}

pub fn truncate_middle(s: &str, max_chars: usize) -> (r: String)
    ensures
        r@ == middle_truncated(s@, max_chars as int),
{
    let total: usize = s.unicode_len();
    if total <= max_chars {
        return s.to_owned();
    }
    let head: usize = max_chars / 3 * 2 + max_chars % 3 * 2 / 3;
    let tail: usize = max_chars - head;
    proof {
        assert(head == max_chars * 2 / 3);
        assert(s@.take(head as int) =~= s@.subrange(0, head as int));
        assert(s@.skip(total - tail) =~= s@.subrange(total - tail, total as int));
    }
    let mut out = s.substring_char(0, head).to_owned();
    out.append("\n……（中间省略 ");
    out.append(decimal_of(total as u128).as_str());
    out.append(" 字中的 ");
    out.append(decimal_of((total - max_chars) as u128).as_str());
    out.append(" 字）……\n");
    out.append(s.substring_char(total - tail, total));
    out
}

/// A shortened text never holds more than `max` characters and the ellipsis,
/// and begins as the whole text does.
pub proof fn law_truncation_is_bounded(s: Seq<char>, max: int)
    requires
        0 <= max,
    ensures
        truncated(s, max).len() <= max + 1,
        s.len() <= max ==> truncated(s, max) == s,
        forall|i: int| 0 <= i < max && i < s.len() ==> truncated(s, max)[i] == #[trigger] s[i],
{
}

/// A number below `10^d` has at most `d` digits.
proof fn lemma_decimal_length(n: nat, d: nat)
    requires
        d >= 1,
        n < pow(10, d),
    ensures
        1 <= decimal(n).len() <= d,
    decreases d,
{
    if n >= 10 {
        reveal(pow);
        if d == 1 {
            assert(pow(10, 1) == 10 * pow(10, 0));
        } else {
            assert(pow(10, d) == 10 * pow(10, (d - 1) as nat));
            assert(n / 10 < pow(10, (d - 1) as nat));
            lemma_decimal_length(n / 10, (d - 1) as nat);
        }
    }
}

/// A text with its middle left out is hardly longer than what is left of it.
pub proof fn law_middle_truncation_is_bounded(s: Seq<char>, max: int)
    requires
        0 <= max,
        s.len() <= u64::MAX,
    ensures
        middle_truncated(s, max).len() <= max + 60,
{
    if s.len() > max {
        assert(pow(10, 20) == 100_000_000_000_000_000_000) by {
            reveal(pow);
            reveal_with_fuel(pow, 21);
        }
        lemma_decimal_length(s.len(), 20);
        lemma_decimal_length((s.len() - max) as nat, 20);
        reveal_strlit("\n……（中间省略 ");
        reveal_strlit(" 字中的 ");
        reveal_strlit(" 字）……\n");
    }
}

/// A text with its middle left out keeps both ends.
pub proof fn law_middle_truncation_keeps_both_ends(s: Seq<char>, max: int)
    requires
        0 <= max < s.len(),
    ensures
        s.take(max * 2 / 3).is_prefix_of(middle_truncated(s, max)),
        s.skip(s.len() - (max - max * 2 / 3)).is_suffix_of(middle_truncated(s, max)),
{
    let head = max * 2 / 3;
    let m = middle_truncated(s, max);
    assert(m.take(head) =~= s.take(head));
    let tail = s.skip(s.len() - (max - head));
    assert(m.subrange(m.len() - tail.len(), m.len() as int) =~= tail);
}

// ---------------------------------------------------------------------------
// Addresses
// ---------------------------------------------------------------------------

/// The host that [`reqwest::Url`] finds in an address, if it can be parsed and
/// has one.
pub uninterp spec fn url_host(url: Seq<char>) -> Option<Seq<char>>;

/// [`reqwest::Url::parse`] and [`reqwest::Url::host_str`]. How an address is
/// parsed is not stated, only that the host is determined by it.
#[verifier::external_body]
fn host_of(url: &str) -> (r: Option<String>)
    ensures
        match r {
            Some(h) => url_host(url@) == Some(h@),
            None => url_host(url@) is None,
        },
{
    reqwest::Url::parse(url).ok().and_then(|u| u.host_str().map(|h| h.to_string()))
}

/// The number written in decimal, if it is one of up to three digits.
pub open spec fn small_number(s: Seq<char>) -> Option<int> {
    if s.len() == 1 && ascii_digit(s[0]) {
        Some(s[0] as u32 - 0x30)
    } else if s.len() == 2 && ascii_digit(s[0]) && ascii_digit(s[1]) {
        Some((s[0] as u32 - 0x30) * 10 + (s[1] as u32 - 0x30))
    } else if s.len() == 3 && ascii_digit(s[0]) && ascii_digit(s[1]) && ascii_digit(s[2]) {
        Some((s[0] as u32 - 0x30) * 100 + (s[1] as u32 - 0x30) * 10 + (s[2] as u32 - 0x30))
    } else {
        None
    }
}

fn parse_small(s: &str) -> (r: Option<u32>)
    ensures
        match r {
            Some(n) => small_number(s@) == Some(n as int),
            None => small_number(s@) is None,
        },
{
    let v = to_chars(s);
    let n: usize = v.len();
    if n == 0 || n > 3 {
        return None;
    }
    let mut value: u32 = 0;
    let mut i: usize = 0;
    while i < n
        invariant
            i <= n == v@.len(),
            v@ == s@,
            1 <= n <= 3,
            i == 0 ==> value == 0,
            i >= 1 ==> ascii_digit(v@[0]),
            i >= 2 ==> ascii_digit(v@[1]),
            i >= 3 ==> ascii_digit(v@[2]),
            i == 1 ==> value == v@[0] as u32 - 0x30,
            i == 2 ==> value == (v@[0] as u32 - 0x30) * 10 + (v@[1] as u32 - 0x30),
            i == 3 ==> value == (v@[0] as u32 - 0x30) * 100 + (v@[1] as u32 - 0x30) * 10 + (
            v@[2] as u32 - 0x30),
        decreases n - i,
    {
        if !is_ascii_digit(v[i]) {
            return None;
        }
        let d: u32 = v[i] as u32 - 0x30;
        value = value * 10 + d;
        i += 1;
    }
    Some(value)
}

/// The four parts of an IPv4 address.
pub open spec fn ipv4(host: Seq<char>) -> Option<(int, int, int, int)> {
    let parts = pieces(host, |c: char| c == '.');
    if parts.len() != 4 {
        None
    } else {
        match (
            small_number(parts[0]),
            small_number(parts[1]),
            small_number(parts[2]),
            small_number(parts[3]),
        ) {
            (Some(a), Some(b), Some(c), Some(d)) => if a <= 255 && b <= 255 && c <= 255 && d
                <= 255 {
                Some((a, b, c, d))
            } else {
                None
            },
            _ => None,
        }
    }
}

/// Addresses of this machine and of private networks: `127/8`, `10/8`,
/// `172.16/12`, `192.168/16`, `169.254/16` and `100.64/10`.
pub open spec fn private_ipv4(a: int, b: int) -> bool {
    ||| a == 127
    ||| a == 10
    ||| a == 172 && 16 <= b <= 31
    ||| a == 192 && b == 168
    ||| a == 169 && b == 254
    ||| a == 100 && 64 <= b <= 127
}

/// Whether a host is this machine or on a private network, where a proxy could
/// not reach it.
pub open spec fn nearby_host(host: Seq<char>) -> bool {
    ||| host == "localhost"@
    ||| host == "0.0.0.0"@
    ||| host == "[::1]"@
    ||| host == "::1"@
    ||| ".local"@.is_suffix_of(host)
    ||| ".ts.net"@.is_suffix_of(host)
    ||| ipv4(host) matches Some(p) && private_ipv4(p.0, p.1)
}

fn parse_ipv4(host: &str) -> (r: Option<(u32, u32)>)
    ensures
        match r {
            Some(p) => ipv4(host@) matches Some(q) && q.0 == p.0 && q.1 == p.1,
            None => ipv4(host@) is None,
        },
{
    let parts = split_by(host, is_dot, Ghost(|c: char| c == '.'));
    let ghost spec_parts = pieces(host@, |c: char| c == '.');
    proof {
        assert(views(parts@).len() == parts@.len());
    }
    if parts.len() != 4 {
        return None;
    }
    proof {
        assert(views(parts@)[0] == spec_parts[0]);
        assert(views(parts@)[1] == spec_parts[1]);
        assert(views(parts@)[2] == spec_parts[2]);
        assert(views(parts@)[3] == spec_parts[3]);
    }
    let a = parse_small(parts[0].as_str());
    let b = parse_small(parts[1].as_str());
    let c = parse_small(parts[2].as_str());
    let d = parse_small(parts[3].as_str());
    match (a, b, c, d) {
        (Some(a), Some(b), Some(c), Some(d)) => if a <= 255 && b <= 255 && c <= 255 && d <= 255 {
            Some((a, b))
        } else {
            None
        },
        _ => None,
    }
}

/// Whether requests to a host must not go through a proxy.
pub fn host_bypasses_proxy(host: &str) -> (r: bool)
    ensures
        r == nearby_host(host@),
{
    if same(host, "localhost") || same(host, "0.0.0.0") || same(host, "[::1]") || same(host, "::1")
        || ends_with(host, ".local") || ends_with(host, ".ts.net") {
        return true;
    }
    match parse_ipv4(host) {
        Some((a, b)) => a == 127 || a == 10 || (a == 172 && 16 <= b && b <= 31) || (a == 192 && b
            == 168) || (a == 169 && b == 254) || (a == 100 && 64 <= b && b <= 127),
        None => false,
    }
}

/// Whether requests to an address must not go through a proxy; an address that
/// cannot be parsed goes the ordinary way.
pub open spec fn bypasses_proxy(url: Seq<char>) -> bool {
    url_host(url) matches Some(h) && nearby_host(h)
}

pub fn should_bypass_proxy(url: &str) -> (r: bool)
    ensures
        r == bypasses_proxy(url@),
{
    match host_of(url) {
        Some(h) => host_bypasses_proxy(h.as_str()),
        None => false,
    }
}

/// A time is shown in hours, minutes and seconds; parts of a second are not shown, and
/// negative times are shown as none.
pub proof fn law_clock_shows_hours_minutes_seconds(h: nat, m: nat, s: nat, ms: nat)
    requires
        m < 60,
        s < 60,
        ms < 1000,
    ensures
        clock((3_600_000 * h + 60_000 * m + 1000 * s + ms) as int) == two_digits(h) + ":"@
            + two_digits(m) + ":"@ + two_digits(s),
        h == 0 ==> short_clock((60_000 * m + 1000 * s + ms) as int) == two_digits(m) + ":"@
            + two_digits(s),
        h > 0 ==> short_clock((3_600_000 * h + 60_000 * m + 1000 * s + ms) as int) == clock(
            (3_600_000 * h + 60_000 * m + 1000 * s + ms) as int,
        ),
        clock(-1 - ms) == clock(0),
{
    let t = 3_600_000 * h + 60_000 * m + 1000 * s + ms;
    let total = 3600 * h + 60 * m + s;
    assert(t / 1000 == total);
    assert(total / 3600 == h);
    assert(total % 3600 / 60 == m);
    assert(total % 60 == s);
    let u = 60_000 * m + 1000 * s + ms;
    assert(u / 1000 == 60 * m + s);
    assert((60 * m + s) / 60 == m);
    assert((60 * m + s) % 60 == s);
}

/// Numbers below a hundred have two digits.
pub proof fn law_two_digits(n: nat)
    requires
        n < 100,
    ensures
        two_digits(n).len() == 2,
        two_digits(n)[0] == digit((n / 10) as int),
        two_digits(n)[1] == digit((n % 10) as int),
{
    reveal_with_fuel(decimal, 3);
    reveal_with_fuel(zero_padded, 3);
}

/// Hosts of this machine and of private networks are reached without a proxy, hosts of
/// the internet are not.
pub proof fn law_private_hosts_need_no_proxy(host: Seq<char>, a: int, b: int, c: int, d: int)
    ensures
        host == "localhost"@ ==> nearby_host(host),
        ipv4(host) == Some((a, b, c, d)) ==> {
            &&& a == 127 || a == 10 ==> nearby_host(host)
            &&& a == 192 && b == 168 ==> nearby_host(host)
            &&& a == 172 && 16 <= b <= 31 ==> nearby_host(host)
            &&& a == 100 && 64 <= b <= 127 ==> nearby_host(host)
        },
        !private_ipv4(8, 8) && !private_ipv4(172, 32) && !private_ipv4(192, 167),
        url_host(host) is None ==> !bypasses_proxy(host),
{
}

/// What [`format_clock`] and [`truncate_chars`] write.
pub proof fn law_times_and_texts_are_written_right(
    ms: i64,
    time: String,
    text: &str,
    max: usize,
    short: String,
    h: nat,
    m: nat,
    s: nat,
    rest: nat,
)
    requires
        call_ensures(format_clock, (ms,), time),
        call_ensures(truncate_chars, (text, max), short),
        ms == 3_600_000 * h + 60_000 * m + 1000 * s + rest,
        m < 60,
        s < 60,
        rest < 1000,
    ensures
        time@ == two_digits(h) + ":"@ + two_digits(m) + ":"@ + two_digits(s),
        text@.len() <= max ==> short@ == text@,
        text@.len() > max ==> short@ == text@.take(max as int).push('…'),
{
    law_clock_shows_hours_minutes_seconds(h, m, s, rest);
}

/// A name that is fit for a file is kept, as far as eighty characters of it.
pub proof fn law_fit_names_are_kept(name: Seq<char>, fallback: Seq<char>)
    requires
        name.len() > 0,
        forall|i: int| 0 <= i < name.len() ==> !unfit_for_file_name(#[trigger] name[i]),
        !space(name[0]) && !space(name.last()),
        name[0] != '.' && name.last() != '.',
    ensures
        name.len() <= 80 ==> file_name(name, fallback) == name,
        name.len() > 80 ==> file_name(name, fallback) == name.take(80),
{
    let e = Seq::<char>::empty();
    assert(replaced_unfit(name) =~= name);
    crate::text::law_only_outer_space_is_trimmed(e, name, e);
    assert(e + name + e =~= name);
    let dot = |c: char| c == '.';
    assert(strip_left(name, dot) == name);
    assert(strip_right(name, dot) == name);
}

} // verus!
