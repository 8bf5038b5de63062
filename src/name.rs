//! Snapshot names: `YYYYMMDD-HHMMSS`, a UTC time stamp with second resolution.

use vstd::prelude::*;
use vstd::utf8::is_ascii_chars;

verus! {

pub open spec fn is_digit(c: char) -> bool {
    '0' <= c && c <= '9'
}

/// `01` to `12`.
pub open spec fn is_month(a: char, b: char) -> bool {
    (a == '0' && '1' <= b && b <= '9') || (a == '1' && '0' <= b && b <= '2')
}

/// `01` to `31`, whatever the month.
pub open spec fn is_day(a: char, b: char) -> bool {
    (a == '0' && '1' <= b && b <= '9') || ((a == '1' || a == '2') && is_digit(b)) || (a == '3'
        && (b == '0' || b == '1'))
}

/// An hour: one digit, or two from `00` to `23`.
pub open spec fn is_hour_field(t: Seq<char>) -> bool {
    (t.len() == 1 && is_digit(t[0])) || (t.len() == 2 && (((t[0] == '0' || t[0] == '1')
        && is_digit(t[1])) || (t[0] == '2' && '0' <= t[1] && t[1] <= '3')))
}

/// A minute or a second: one digit, or two from `00` to `59`.
pub open spec fn is_sixty_field(t: Seq<char>) -> bool {
    (t.len() == 1 && is_digit(t[0])) || (t.len() == 2 && '0' <= t[0] && t[0] <= '5' && is_digit(
        t[1],
    ))
}

/// The lengths `h` (hour) and `m` (minute) may split the time of day `t`:
/// an absent hour needs no minute, and the seconds take the rest.
pub open spec fn split_lengths_ok(h: int, m: int) -> bool {
    0 <= h <= 2 && 0 <= m <= 2 && (h > 0 ==> m > 0)
}

/// `t` reads as an hour of `h` characters, a minute of `m` and the seconds.
pub open spec fn is_clock_split(t: Seq<char>, h: int, m: int) -> bool {
    &&& h + m < t.len()
    &&& (h == 0 || is_hour_field(t.subrange(0, h)))
    &&& (m == 0 || is_sixty_field(t.subrange(h, h + m)))
    &&& is_sixty_field(t.subrange(h + m, t.len() as int))
}

/// The part after the dash: seconds, optionally preceded by minutes, which are
/// optionally preceded by an hour.
pub open spec fn is_clock(t: Seq<char>) -> bool {
    exists|h: int, m: int| split_lengths_ok(h, m) && #[trigger] is_clock_split(t, h, m)
}

/// `s` is a snapshot name: four digits of year, month, day, a dash, and the time of day.
pub open spec fn valid_snapshot_name(s: Seq<char>) -> bool {
    &&& s.len() > 9
    &&& is_digit(s[0]) && is_digit(s[1]) && is_digit(s[2]) && is_digit(s[3])
    &&& is_month(s[4], s[5])
    &&& is_day(s[6], s[7])
    &&& s[8] == '-'
    &&& is_clock(s.subrange(9, s.len() as int))
}

/// The bytes `b` are the characters `s`, one for one.
spec fn same_text(b: Seq<u8>, s: Seq<char>) -> bool {
    b.len() == s.len() && forall|i: int| 0 <= i < s.len() ==> b[i] as int == #[trigger] s[i] as int
}

fn digit_at(b: &[u8], i: usize, Ghost(s): Ghost<Seq<char>>) -> (r: bool)
    requires
        same_text(b@, s),
        i < b@.len(),
    ensures
        r == is_digit(s[i as int]),
{
    48 <= b[i] && b[i] <= 57
}

fn hour_ok(b: &[u8], lo: usize, hi: usize, Ghost(s): Ghost<Seq<char>>) -> (r: bool)
    requires
        same_text(b@, s),
        lo <= hi <= b@.len(),
    ensures
        r == is_hour_field(s.subrange(lo as int, hi as int)),
{
    if hi - lo == 1 {
        digit_at(b, lo, Ghost(s))
    } else if hi - lo == 2 {
        let (x, y) = (b[lo], b[lo + 1]);
        ((x == 48 || x == 49) && digit_at(b, lo + 1, Ghost(s))) || (x == 50 && 48 <= y && y <= 51)
    } else {
        false
    }
}

fn sixty_ok(b: &[u8], lo: usize, hi: usize, Ghost(s): Ghost<Seq<char>>) -> (r: bool)
    requires
        same_text(b@, s),
        lo <= hi <= b@.len(),
    ensures
        r == is_sixty_field(s.subrange(lo as int, hi as int)),
{
    if hi - lo == 1 {
        digit_at(b, lo, Ghost(s))
    } else if hi - lo == 2 {
        let x = b[lo];
        48 <= x && x <= 53 && digit_at(b, lo + 1, Ghost(s))
    } else {
        false
    }
}

/// Whether the time of day starting at `start` splits as hour `h`, minute `m`, seconds.
fn clock_split_ok(b: &[u8], start: usize, h: usize, m: usize, Ghost(s): Ghost<Seq<char>>) -> (r: bool)
    requires
        same_text(b@, s),
        start <= b@.len(),
        h <= 2,
        m <= 2,
    ensures
        r == is_clock_split(s.subrange(start as int, s.len() as int), h as int, m as int),
{
    let ghost t = s.subrange(start as int, s.len() as int);
    let n = b.len();
    if h + m >= n - start {
        return false;
    }
    let hour = h == 0 || hour_ok(b, start, start + h, Ghost(s));
    let minute = m == 0 || sixty_ok(b, start + h, start + h + m, Ghost(s));
    let second = sixty_ok(b, start + h + m, n, Ghost(s));
    proof {
        assert(t.subrange(0, h as int) =~= s.subrange(start as int, start + h));
        assert(t.subrange(h as int, h + m) =~= s.subrange(start + h, start + h + m));
        assert(t.subrange(h + m, t.len() as int) =~= s.subrange(start + h + m, n as int));
    }
    hour && minute && second
}

fn clock_ok(b: &[u8], start: usize, Ghost(s): Ghost<Seq<char>>) -> (r: bool)
    requires
        same_text(b@, s),
        start <= b@.len(),
    ensures
        r == is_clock(s.subrange(start as int, s.len() as int)),
{
    let ghost t = s.subrange(start as int, s.len() as int);
    let r = clock_split_ok(b, start, 0, 0, Ghost(s)) || clock_split_ok(b, start, 0, 1, Ghost(s))
        || clock_split_ok(b, start, 0, 2, Ghost(s)) || clock_split_ok(b, start, 1, 1, Ghost(s))
        || clock_split_ok(b, start, 1, 2, Ghost(s)) || clock_split_ok(b, start, 2, 1, Ghost(s))
        || clock_split_ok(b, start, 2, 2, Ghost(s));
    proof {
        if r {
            if is_clock_split(t, 0, 0) {
                assert(split_lengths_ok(0, 0));
            } else if is_clock_split(t, 0, 1) {
                assert(split_lengths_ok(0, 1));
            } else if is_clock_split(t, 0, 2) {
                assert(split_lengths_ok(0, 2));
            } else if is_clock_split(t, 1, 1) {
                assert(split_lengths_ok(1, 1));
            } else if is_clock_split(t, 1, 2) {
                assert(split_lengths_ok(1, 2));
            } else if is_clock_split(t, 2, 1) {
                assert(split_lengths_ok(2, 1));
            } else {
                assert(split_lengths_ok(2, 2));
            }
        } else {
            assert forall|h: int, m: int| split_lengths_ok(h, m) implies !#[trigger] is_clock_split(
                t,
                h,
                m,
            ) by {
                if h == 0 && m == 0 {
                } else if h == 0 && m == 1 {
                } else if h == 0 {
                } else if h == 1 && m == 1 {
                } else if h == 1 {
                } else if m == 1 {
                } else {
                }
            }
        }
    }
    r
}

/// Whether `name` is a snapshot name (`YYYYMMDD-HHMMSS`).
pub fn is_snapshot_name(name: &str) -> (r: bool)
    ensures
        r == valid_snapshot_name(name@),
{
    broadcast use vstd::string::is_ascii_spec_bytes;

    if !name.is_ascii() {
        proof {
            if valid_snapshot_name(name@) {
                assert(is_ascii_chars(name@)) by {
                    lemma_valid_name_is_ascii(name@);
                }
            }
        }
        return false;
    }
    let b = name.as_bytes();
    let ghost s = name@;
    proof {
        assert forall|i: int| 0 <= i < s.len() implies b@[i] as int == #[trigger] s[i] as int by {
            lemma_ascii_byte(s[i]);
        }
    }
    if b.len() <= 9 {
        return false;
    }
    let date = digit_at(b, 0, Ghost(s)) && digit_at(b, 1, Ghost(s)) && digit_at(b, 2, Ghost(s))
        && digit_at(b, 3, Ghost(s));
    let month = (b[4] == 48 && 49 <= b[5] && b[5] <= 57) || (b[4] == 49 && 48 <= b[5] && b[5]
        <= 50);
    let day = (b[6] == 48 && 49 <= b[7] && b[7] <= 57) || ((b[6] == 49 || b[6] == 50) && digit_at(
        b,
        7,
        Ghost(s),
    )) || (b[6] == 51 && (b[7] == 48 || b[7] == 49));
    date && month && day && b[8] == 45 && clock_ok(b, 9, Ghost(s))
}

/// A snapshot name holds ASCII characters only.
proof fn lemma_valid_name_is_ascii(s: Seq<char>)
    requires
        valid_snapshot_name(s),
    ensures
        is_ascii_chars(s),
{
    let t = s.subrange(9, s.len() as int);
    let (h, m) = choose|h: int, m: int| split_lengths_ok(h, m) && #[trigger] is_clock_split(t, h, m);
    assert forall|i: int| 0 <= i < s.len() implies '\0' <= #[trigger] s[i] <= '\u{7f}' by {
        if i >= 9 {
            let j = i - 9;
            assert(t[j] == s[i]);
            if j < h {
                assert(t.subrange(0, h)[j] == t[j]);
            } else if j < h + m {
                assert(t.subrange(h, h + m)[j - h] == t[j]);
            } else {
                assert(t.subrange(h + m, t.len() as int)[j - h - m] == t[j]);
            }
        }
    }
}

proof fn lemma_ascii_byte(c: char)
    requires
        '\0' <= c <= '\u{7f}',
    ensures
        (c as u8) as int == c as int,
{
}

} // verus!
