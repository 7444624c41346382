//! Character-level string utilities: comparison, containment, ASCII case
//! folding and trimming, and decimal formatting, each against an exact
//! sequence-level specification.

use vstd::prelude::*;

verus! {

/// `n` occurs in `h` starting at `i`.
pub open spec fn contains_at(h: Seq<char>, n: Seq<char>, i: int) -> bool {
    0 <= i && i + n.len() <= h.len() && h.subrange(i, i + n.len() as int) == n
}

/// `n` occurs somewhere in `h`.
pub open spec fn str_has(h: Seq<char>, n: Seq<char>) -> bool {
    exists|i: int| contains_at(h, n, i)
}

/// Exact equality of two string slices.
pub fn str_eq(a: &str, b: &str) -> (r: bool)
    ensures
        r == (a@ == b@),
{
    let la: usize = a.unicode_len();
    let lb: usize = b.unicode_len();
    if la != lb {
        return false;
    }
    let mut i: usize = 0;
    while i < la
        invariant
            la == a@.len(),
            lb == b@.len(),
            la == lb,
            i <= la,
            forall|j: int| 0 <= j < i as int ==> a@[j] == b@[j],
        decreases la - i,
    {
        if a.get_char(i) != b.get_char(i) {
            return false;
        }
        i = i + 1;
    }
    proof {
        assert(a@ =~= b@);
    }
    true
}

/// Does `n` occur in `h` at exactly position `i`?
fn match_at(h: &str, n: &str, i: usize) -> (r: bool)
    requires
        i + n@.len() <= h@.len(),
    ensures
        r == contains_at(h@, n@, i as int),
{
    let lh: usize = h.unicode_len();
    let ln: usize = n.unicode_len();
    let mut j: usize = 0;
    while j < ln
        invariant
            lh == h@.len(),
            ln == n@.len(),
            i + ln <= lh,
            j <= ln,
            forall|t: int| 0 <= t < j as int ==> h@[i as int + t] == n@[t],
        decreases ln - j,
    {
        if h.get_char(i + j) != n.get_char(j) {
            proof {
                assert(h@.subrange(i as int, i as int + ln as int)[j as int] != n@[j as int]);
            }
            return false;
        }
        j = j + 1;
    }
    proof {
        assert(h@.subrange(i as int, i as int + ln as int) =~= n@);
    }
    true
}

/// Substring search; quadratic, which suits the short strings it serves.
pub fn str_contains(h: &str, n: &str) -> (r: bool)
    ensures
        r == str_has(h@, n@),
{
    let lh: usize = h.unicode_len();
    let ln: usize = n.unicode_len();
    if ln > lh {
        proof {
            assert(forall|i: int| !contains_at(h@, n@, i));
        }
        return false;
    }
    if ln == 0 {
        proof {
            assert(h@.subrange(0, 0) =~= n@);
            assert(contains_at(h@, n@, 0));
        }
        return true;
    }
    let mut i: usize = 0;
    while i <= lh - ln
        invariant
            lh == h@.len(),
            ln == n@.len(),
            1 <= ln <= lh,
            i <= lh - ln + 1,
            forall|k: int| 0 <= k < i as int ==> !contains_at(h@, n@, k),
        decreases lh + 1 - ln - i,
    {
        if match_at(h, n, i) {
            return true;
        }
        i = i + 1;
    }
    proof {
        assert forall|k: int| !contains_at(h@, n@, k) by {
            if 0 <= k && k + n@.len() <= h@.len() {
                assert(k < i as int);
            }
        }
    }
    false
}

/// `h` begins with `n`.
pub fn str_starts_with(h: &str, n: &str) -> (r: bool)
    ensures
        r == contains_at(h@, n@, 0),
{
    let lh: usize = h.unicode_len();
    let ln: usize = n.unicode_len();
    if ln > lh {
        return false;
    }
    let mut j: usize = 0;
    while j < ln
        invariant
            lh == h@.len(),
            ln == n@.len(),
            ln <= lh,
            j <= ln,
            forall|t: int| 0 <= t < j as int ==> h@[t] == n@[t],
        decreases ln - j,
    {
        if h.get_char(j) != n.get_char(j) {
            proof {
                assert(h@.subrange(0, ln as int)[j as int] != n@[j as int]);
            }
            return false;
        }
        j = j + 1;
    }
    proof {
        assert(h@.subrange(0, ln as int) =~= n@);
    }
    true
}

/// `h` ends with `n`.
pub fn str_ends_with(h: &str, n: &str) -> (r: bool)
    ensures
        r == (n@.len() <= h@.len() && contains_at(h@, n@, h@.len() - n@.len())),
{
    let lh: usize = h.unicode_len();
    let ln: usize = n.unicode_len();
    if ln > lh {
        return false;
    }
    let base: usize = lh - ln;
    let mut j: usize = 0;
    while j < ln
        invariant
            lh == h@.len(),
            ln == n@.len(),
            ln <= lh,
            base == lh - ln,
            j <= ln,
            forall|t: int| 0 <= t < j as int ==> h@[base as int + t] == n@[t],
        decreases ln - j,
    {
        if h.get_char(base + j) != n.get_char(j) {
            proof {
                assert(h@.subrange(base as int, lh as int)[j as int] != n@[j as int]);
            }
            return false;
        }
        j = j + 1;
    }
    proof {
        assert(h@.subrange(base as int, lh as int) =~= n@);
    }
    true
}

/// ASCII lower-casing of one character; other characters pass unchanged.
pub open spec fn lower_char(c: char) -> char {
    if 'A' <= c && c <= 'Z' {
        (((c as u8) + 32) as char)
    } else {
        c
    }
}

/// ASCII lower-casing of a whole string.
pub open spec fn lower_chars(s: Seq<char>) -> Seq<char> {
    Seq::new(s.len(), |i: int| lower_char(s[i]))
}

/// Lower-cases the ASCII letters of `s`; device-name keywords are ASCII, so
/// this serves the same matching purpose as full Unicode folding there.
pub fn to_ascii_lower(s: &str) -> (r: String)
    ensures
        r@ == lower_chars(s@),
{
    let len: usize = s.unicode_len();
    let mut out: String = String::new();
    let mut i: usize = 0;
    while i < len
        invariant
            len == s@.len(),
            i <= len,
            out@ == lower_chars(s@).subrange(0, i as int),
        decreases len - i,
    {
        let c: char = s.get_char(i);
        let lc: char = if c >= 'A' && c <= 'Z' {
            proof {
                assert(c as u8 <= 90);
            }
            ((c as u8) + 32) as char
        } else {
            c
        };
        out = push_char(out, lc);
        proof {
            assert(out@ =~= lower_chars(s@).subrange(0, i as int + 1));
        }
        i = i + 1;
    }
    proof {
        assert(lower_chars(s@).subrange(0, len as int) =~= lower_chars(s@));
    }
    out
}

/// Appends one character to a string.
pub fn push_char(s: String, c: char) -> (r: String)
    ensures
        r@ == s@ + seq![c],
{
    let mut out = s;
    let encoded: String = char_to_string(c);
    out.append(encoded.as_str());
    out
}

#[verifier::external_body]
fn char_to_string(c: char) -> (r: String)
    ensures
        r@ == seq![c],
{
    let mut s = String::new();
    s.push(c);
    s
}

/// ASCII whitespace.
pub open spec fn is_space(c: char) -> bool {
    c == ' ' || c == '\t' || c == '\n' || c == '\r'
}

/// `s` with leading whitespace removed.
pub open spec fn strip_leading(s: Seq<char>) -> Seq<char>
    decreases s.len(),
{
    if s.len() > 0 && is_space(s[0]) {
        strip_leading(s.drop_first())
    } else {
        s
    }
}

/// `s` with trailing whitespace removed.
pub open spec fn strip_trailing(s: Seq<char>) -> Seq<char>
    decreases s.len(),
{
    if s.len() > 0 && is_space(s[s.len() - 1]) {
        strip_trailing(s.drop_last())
    } else {
        s
    }
}

/// `s` with whitespace removed from both ends.
pub open spec fn trim_chars(s: Seq<char>) -> Seq<char> {
    strip_leading(strip_trailing(s))
}

fn is_space_exec(c: char) -> (r: bool)
    ensures
        r == is_space(c),
{
    c == ' ' || c == '\t' || c == '\n' || c == '\r'
}

/// Removes ASCII whitespace from both ends of `s`.
pub fn trim_spaces(s: &str) -> (r: String)
    ensures
        r@ == trim_chars(s@),
{
    let len: usize = s.unicode_len();
    let mut end: usize = len;
    proof {
        assert(s@.subrange(0, len as int) =~= s@);
    }
    while end > 0 && is_space_exec(s.get_char(end - 1))
        invariant
            len == s@.len(),
            end <= len,
            strip_trailing(s@) == strip_trailing(s@.subrange(0, end as int)),
        decreases end,
    {
        proof {
            assert(s@.subrange(0, end as int).drop_last() =~= s@.subrange(0, end as int - 1));
        }
        end = end - 1;
    }
    proof {
        if end > 0 {
            assert(strip_trailing(s@.subrange(0, end as int)) == s@.subrange(0, end as int));
        } else {
            assert(s@.subrange(0, 0) =~= Seq::<char>::empty());
            assert(strip_trailing(s@.subrange(0, 0)) =~= Seq::<char>::empty());
        }
    }
    let mut start: usize = 0;
    while start < end && is_space_exec(s.get_char(start))
        invariant
            len == s@.len(),
            start <= end <= len,
            strip_trailing(s@) == s@.subrange(0, end as int),
            strip_leading(s@.subrange(0, end as int)) == strip_leading(
                s@.subrange(start as int, end as int),
            ),
        decreases end - start,
    {
        proof {
            assert(s@.subrange(start as int, end as int).drop_first() =~= s@.subrange(
                start as int + 1,
                end as int,
            ));
        }
        start = start + 1;
    }
    proof {
        let tail = s@.subrange(start as int, end as int);
        if start < end {
            assert(strip_leading(tail) == tail);
        } else {
            assert(tail =~= Seq::<char>::empty());
            assert(strip_leading(tail) =~= Seq::<char>::empty());
        }
        assert(trim_chars(s@) == s@.subrange(start as int, end as int));
    }
    let out: &str = s.substring_char(start, end);
    out.to_owned()
}

/// The character of one decimal digit.
pub open spec fn digit_char(d: int) -> char {
    if d == 0 {
        '0'
    } else if d == 1 {
        '1'
    } else if d == 2 {
        '2'
    } else if d == 3 {
        '3'
    } else if d == 4 {
        '4'
    } else if d == 5 {
        '5'
    } else if d == 6 {
        '6'
    } else if d == 7 {
        '7'
    } else if d == 8 {
        '8'
    } else {
        '9'
    }
}

/// Decimal digits of a non-negative number, most significant first.
pub open spec fn dec_digits(n: int) -> Seq<char>
    decreases n,
{
    if n < 10 {
        seq![digit_char(n)]
    } else {
        dec_digits(n / 10) + seq![digit_char(n % 10)]
    }
}

fn digit_str(d: u64) -> (r: &'static str)
    requires
        d < 10,
    ensures
        r@ =~= seq![digit_char(d as int)],
{
    let r: &'static str = if d == 0 {
        "0"
    } else if d == 1 {
        "1"
    } else if d == 2 {
        "2"
    } else if d == 3 {
        "3"
    } else if d == 4 {
        "4"
    } else if d == 5 {
        "5"
    } else if d == 6 {
        "6"
    } else if d == 7 {
        "7"
    } else if d == 8 {
        "8"
    } else {
        "9"
    };
    proof {
        reveal_strlit("0");
        reveal_strlit("1");
        reveal_strlit("2");
        reveal_strlit("3");
        reveal_strlit("4");
        reveal_strlit("5");
        reveal_strlit("6");
        reveal_strlit("7");
        reveal_strlit("8");
        reveal_strlit("9");
    }
    r
}

/// Formats a number in decimal.
pub fn fmt_u64(n: u64) -> (r: String)
    ensures
        r@ == dec_digits(n as int),
    decreases n,
{
    if n < 10 {
        digit_str(n).to_owned()
    } else {
        let mut s: String = fmt_u64(n / 10);
        s.append(digit_str(n % 10));
        s
    }
}

/// Decimal text of a signed number: a minus sign before the digits.
pub open spec fn dec_signed(n: int) -> Seq<char> {
    if n < 0 {
        seq!['-'] + dec_digits(-n)
    } else {
        dec_digits(n)
    }
}

/// Formats a signed number in decimal.
pub fn fmt_i64(n: i64) -> (r: String)
    requires
        n > i64::MIN,
    ensures
        r@ == dec_signed(n as int),
{
    if n < 0 {
        let mut s: String = String::new();
        let dash: &'static str = "-";
        proof {
            reveal_strlit("-");
        }
        s.append(dash);
        let digits: String = fmt_u64((-n) as u64);
        s.append(digits.as_str());
        proof {
            assert(s@ =~= dec_signed(n as int));
        }
        s
    } else {
        fmt_u64(n as u64)
    }
}

/// Two zero-padded decimal digits.
pub open spec fn two_digits(n: int) -> Seq<char> {
    seq![digit_char(n / 10), digit_char(n % 10)]
}

/// Four zero-padded decimal digits.
pub open spec fn four_digits(n: int) -> Seq<char> {
    seq![
        digit_char(n / 1000),
        digit_char(n / 100 % 10),
        digit_char(n / 10 % 10),
        digit_char(n % 10),
    ]
}

/// Formats `n` as exactly two digits.
pub fn fmt_2(n: u32) -> (r: String)
    requires
        n < 100,
    ensures
        r@ == two_digits(n as int),
{
    let mut s: String = digit_str((n / 10) as u64).to_owned();
    s.append(digit_str((n % 10) as u64));
    proof {
        assert(s@ =~= two_digits(n as int));
    }
    s
}

/// Formats `n` as exactly four digits.
pub fn fmt_4(n: u32) -> (r: String)
    requires
        n < 10000,
    ensures
        r@ == four_digits(n as int),
{
    let mut s: String = digit_str((n / 1000) as u64).to_owned();
    s.append(digit_str((n / 100 % 10) as u64));
    s.append(digit_str((n / 10 % 10) as u64));
    s.append(digit_str((n % 10) as u64));
    proof {
        assert(s@ =~= four_digits(n as int));
    }
    s
}

/// A decimal digit's value, or -1 for any other character.
pub open spec fn digit_val(c: char) -> int {
    if '0' <= c && c <= '9' {
        (c as int) - ('0' as int)
    } else {
        -1
    }
}

/// Reads one character as a decimal digit.
pub fn digit_of(c: char) -> (r: Option<u32>)
    ensures
        match r {
            Option::Some(d) => digit_val(c) == d as int && d < 10,
            Option::None => digit_val(c) == -1,
        },
{
    if c >= '0' && c <= '9' {
        let v: u32 = (c as u32) - 48;
        Some(v)
    } else {
        None
    }
}

} // verus!
