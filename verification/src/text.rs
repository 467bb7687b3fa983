//! Small text utilities the rest of the library builds on: the
//! white-space set used by trimming, decimal digits, parsing of signed
//! and unsigned integer literals, and decimal rendering of numbers.
//!
//! Integer literals follow the usual grammar: an optional sign (only
//! `+` for unsigned values) followed by one or more decimal digits,
//! nothing else.  Parsing rejects anything outside that grammar and
//! any value outside the requested machine type.

use vstd::prelude::*;

verus! {

/// The white-space characters trimming removes (the Unicode
/// white-space set).
pub open spec fn is_space(c: char) -> bool {
    ||| c as u32 == 0x20
    ||| (0x09 <= c as u32 && c as u32 <= 0x0d)
    ||| c as u32 == 0x85
    ||| c as u32 == 0xa0
    ||| c as u32 == 0x1680
    ||| (0x2000 <= c as u32 && c as u32 <= 0x200a)
    ||| c as u32 == 0x2028
    ||| c as u32 == 0x2029
    ||| c as u32 == 0x202f
    ||| c as u32 == 0x205f
    ||| c as u32 == 0x3000
}

/// Decide [`is_space`].
pub fn is_space_char(c: char) -> (r: bool)
    ensures
        r == is_space(c),
{
    let u = c as u32;
    u == 0x20 || (0x09 <= u && u <= 0x0d) || u == 0x85 || u == 0xa0 || u == 0x1680 || (0x2000 <= u
        && u <= 0x200a) || u == 0x2028 || u == 0x2029 || u == 0x202f || u == 0x205f || u == 0x3000
}

/// A decimal digit.
pub open spec fn is_digit(c: char) -> bool {
    0x30 <= c as u32 && c as u32 <= 0x39
}

/// Value of a decimal digit.
pub open spec fn digit_val(c: char) -> int {
    c as u32 - 0x30
}

/// A non-empty, all-digit sequence.
pub open spec fn all_digits(s: Seq<char>) -> bool {
    s.len() > 0 && forall|i: int| 0 <= i < s.len() ==> is_digit(#[trigger] s[i])
}

/// Value of a digit sequence read in base ten.
pub open spec fn digits_val(s: Seq<char>) -> int
    decreases s.len(),
{
    if s.len() == 0 {
        0
    } else {
        digits_val(s.drop_last()) * 10 + digit_val(s.last())
    }
}

/// What a signed integer literal denotes, if anything: an optional
/// `+` or `-` sign followed by one or more digits.
pub open spec fn parsed_int(s: Seq<char>) -> Option<int> {
    if s.len() == 0 {
        None
    } else if s[0] == '-' {
        if all_digits(s.drop_first()) {
            Some(-digits_val(s.drop_first()))
        } else {
            None
        }
    } else if s[0] == '+' {
        if all_digits(s.drop_first()) {
            Some(digits_val(s.drop_first()))
        } else {
            None
        }
    } else if all_digits(s) {
        Some(digits_val(s))
    } else {
        None
    }
}

/// What an unsigned integer literal denotes, if anything: an optional
/// `+` sign followed by one or more digits; a `-` sign is rejected.
pub open spec fn parsed_uint(s: Seq<char>) -> Option<int> {
    if s.len() == 0 {
        None
    } else if s[0] == '+' {
        if all_digits(s.drop_first()) {
            Some(digits_val(s.drop_first()))
        } else {
            None
        }
    } else if all_digits(s) {
        Some(digits_val(s))
    } else {
        None
    }
}

/// Leading white space removed.
pub open spec fn trim_start_spec(s: Seq<char>) -> Seq<char>
    decreases s.len(),
{
    if s.len() > 0 && is_space(s[0]) {
        trim_start_spec(s.drop_first())
    } else {
        s
    }
}

/// Trailing white space removed.
pub open spec fn trim_end_spec(s: Seq<char>) -> Seq<char>
    decreases s.len(),
{
    if s.len() > 0 && is_space(s.last()) {
        trim_end_spec(s.drop_last())
    } else {
        s
    }
}

/// Both ends trimmed.
pub open spec fn trim_spec(s: Seq<char>) -> Seq<char> {
    trim_end_spec(trim_start_spec(s))
}

/// A digit sequence's value is never negative.
proof fn lemma_digits_val_nonneg(s: Seq<char>)
    requires
        forall|i: int| 0 <= i < s.len() ==> is_digit(#[trigger] s[i]),
    ensures
        digits_val(s) >= 0,
    decreases s.len(),
{
    if s.len() > 0 {
        assert forall|i: int| 0 <= i < s.drop_last().len() implies is_digit(
            #[trigger] s.drop_last()[i],
        ) by {
            assert(s.drop_last()[i] == s[i]);
        }
        lemma_digits_val_nonneg(s.drop_last());
    }
}

/// Trim `s` within the index window `[lo, hi)`: the returned window
/// holds exactly the trimmed text.
pub fn trim_range(s: &Vec<char>, lo: usize, hi: usize) -> (r: (usize, usize))
    requires
        lo <= hi <= s@.len(),
    ensures
        lo <= r.0 <= r.1 <= hi,
        s@.subrange(r.0 as int, r.1 as int) == trim_spec(s@.subrange(lo as int, hi as int)),
{
    let mut a = lo;
    while a < hi && is_space_char(s[a])
        invariant
            lo <= a <= hi <= s@.len(),
            trim_start_spec(s@.subrange(lo as int, hi as int)) == trim_start_spec(
                s@.subrange(a as int, hi as int),
            ),
        decreases hi - a,
    {
        proof {
            assert(s@.subrange(a as int, hi as int).drop_first() =~= s@.subrange(
                a + 1,
                hi as int,
            ));
        }
        a += 1;
    }
    proof {
        assert(trim_start_spec(s@.subrange(lo as int, hi as int)) == s@.subrange(
            a as int,
            hi as int,
        ));
    }
    let mut b = hi;
    while b > a && is_space_char(s[b - 1])
        invariant
            a <= b <= hi <= s@.len(),
            trim_end_spec(s@.subrange(a as int, hi as int)) == trim_end_spec(
                s@.subrange(a as int, b as int),
            ),
        decreases b,
    {
        proof {
            assert(s@.subrange(a as int, b as int).drop_last() =~= s@.subrange(
                a as int,
                b - 1,
            ));
        }
        b -= 1;
    }
    proof {
        assert(trim_end_spec(s@.subrange(a as int, b as int)) == s@.subrange(a as int, b as int));
    }
    (a, b)
}

/// Magnitudes at or above this sentinel are treated as "too large for
/// any type parsed here".
const DIGIT_CAP: u64 = 0x1_0000_0000;

/// Scan the window `[lo, hi)` as digits: report whether it is a
/// non-empty all-digit window, and its value, saturated at
/// [`DIGIT_CAP`].
fn scan_digits(s: &Vec<char>, lo: usize, hi: usize) -> (r: (bool, u64))
    requires
        lo <= hi <= s@.len(),
    ensures
        r.0 == all_digits(s@.subrange(lo as int, hi as int)),
        r.0 ==> digits_val(s@.subrange(lo as int, hi as int)) < DIGIT_CAP ==> r.1 == digits_val(
            s@.subrange(lo as int, hi as int),
        ),
        r.0 ==> digits_val(s@.subrange(lo as int, hi as int)) >= DIGIT_CAP ==> r.1 == DIGIT_CAP,
{
    if lo == hi {
        proof {
            assert(s@.subrange(lo as int, hi as int).len() == 0);
        }
        return (false, 0);
    }
    let mut i = lo;
    let mut mag: u64 = 0;
    while i < hi
        invariant
            lo <= i <= hi <= s@.len(),
            forall|j: int| lo <= j < i ==> is_digit(#[trigger] s@[j]),
            digits_val(s@.subrange(lo as int, i as int)) < DIGIT_CAP ==> mag == digits_val(
                s@.subrange(lo as int, i as int),
            ),
            digits_val(s@.subrange(lo as int, i as int)) >= DIGIT_CAP ==> mag == DIGIT_CAP,
            mag <= DIGIT_CAP,
        decreases hi - i,
    {
        let c = s[i];
        let u = c as u32;
        if u < 0x30 || u > 0x39 {
            proof {
                assert(!is_digit(s@.subrange(lo as int, hi as int)[i - lo]));
            }
            return (false, 0);
        }
        let d = (u - 0x30) as u64;
        let ghost pre = s@.subrange(lo as int, i as int);
        let ghost post = s@.subrange(lo as int, i + 1);
        proof {
            assert(post.drop_last() =~= pre);
            assert(post.last() == s@[i as int]);
            assert(digits_val(post) == digits_val(pre) * 10 + digit_val(s@[i as int]));
            assert forall|j: int| 0 <= j < pre.len() implies is_digit(#[trigger] pre[j]) by {
                assert(pre[j] == s@[lo + j]);
            }
            lemma_digits_val_nonneg(pre);
            if digits_val(pre) >= DIGIT_CAP {
                assert(digits_val(pre) * 10 + digit_val(s@[i as int]) >= digits_val(pre)) by (nonlinear_arith)
                    requires
                        digits_val(pre) >= 0,
                        digit_val(s@[i as int]) >= 0,
                ;
            }
        }
        let next = mag * 10 + d;
        mag = if next > DIGIT_CAP {
            DIGIT_CAP
        } else {
            next
        };
        i += 1;
    }
    proof {
        assert(s@.subrange(lo as int, hi as int) =~= s@.subrange(lo as int, i as int));
        assert forall|j: int| 0 <= j < s@.subrange(lo as int, hi as int).len() implies is_digit(
            #[trigger] s@.subrange(lo as int, hi as int)[j],
        ) by {
            assert(s@.subrange(lo as int, hi as int)[j] == s@[lo + j]);
        }
    }
    (true, mag)
}

/// Parse the window `[lo, hi)` as a signed 32-bit integer literal.
pub fn parse_i32_range(s: &Vec<char>, lo: usize, hi: usize) -> (r: Option<i32>)
    requires
        lo <= hi <= s@.len(),
    ensures
        ({
            let p = parsed_int(s@.subrange(lo as int, hi as int));
            match r {
                Some(v) => p == Some(v as int),
                None => p is None || p->0 > 0x7fff_ffff || p->0 < -0x8000_0000,
            }
        }),
{
    let ghost seg = s@.subrange(lo as int, hi as int);
    if lo == hi {
        return None;
    }
    let c0 = s[lo];
    let neg = c0 == '-';
    let signed = neg || c0 == '+';
    let body = if signed {
        lo + 1
    } else {
        lo
    };
    proof {
        if signed {
            assert(seg.drop_first() =~= s@.subrange(body as int, hi as int));
        } else {
            assert(seg =~= s@.subrange(body as int, hi as int));
        }
    }
    let (ok, mag) = scan_digits(s, body, hi);
    if !ok {
        return None;
    }
    proof {
        lemma_digits_val_nonneg(s@.subrange(body as int, hi as int));
    }
    if neg {
        if mag > 0x8000_0000 {
            return None;
        }
        Some((-(mag as i64)) as i32)
    } else {
        if mag > 0x7fff_ffff {
            return None;
        }
        Some(mag as i32)
    }
}

/// Parse the window `[lo, hi)` as an 8-bit unsigned integer literal.
pub fn parse_u8_range(s: &Vec<char>, lo: usize, hi: usize) -> (r: Option<u8>)
    requires
        lo <= hi <= s@.len(),
    ensures
        ({
            let p = parsed_uint(s@.subrange(lo as int, hi as int));
            match r {
                Some(v) => p == Some(v as int),
                None => p is None || p->0 > 255,
            }
        }),
{
    let ghost seg = s@.subrange(lo as int, hi as int);
    if lo == hi {
        return None;
    }
    let c0 = s[lo];
    if c0 == '-' {
        return None;
    }
    let body = if c0 == '+' {
        lo + 1
    } else {
        lo
    };
    proof {
        if c0 == '+' {
            assert(seg.drop_first() =~= s@.subrange(body as int, hi as int));
        } else {
            assert(seg =~= s@.subrange(body as int, hi as int));
        }
    }
    let (ok, mag) = scan_digits(s, body, hi);
    if !ok {
        return None;
    }
    proof {
        lemma_digits_val_nonneg(s@.subrange(body as int, hi as int));
    }
    if mag > 255 {
        return None;
    }
    Some(mag as u8)
}

/// Index of the last occurrence of `c` in `s`, or `-1`.
pub open spec fn find_last(s: Seq<char>, c: char) -> int
    decreases s.len(),
{
    if s.len() == 0 {
        -1
    } else if s.last() == c {
        s.len() - 1
    } else {
        find_last(s.drop_last(), c)
    }
}

/// Where [`find_last`] points: at the last occurrence, or nowhere
/// exactly when there is none.
pub proof fn lemma_find_last(s: Seq<char>, c: char)
    ensures
        find_last(s, c) < 0 ==> forall|j: int| 0 <= j < s.len() ==> s[j] != c,
        find_last(s, c) >= 0 ==> find_last(s, c) < s.len() && s[find_last(s, c)] == c,
        find_last(s, c) >= 0 ==> forall|j: int| find_last(s, c) < j < s.len() ==> s[j] != c,
    decreases s.len(),
{
    if s.len() > 0 && s.last() != c {
        lemma_find_last(s.drop_last(), c);
        assert forall|j: int| 0 <= j < s.drop_last().len() implies s.drop_last()[j] == s[j] by {}
    }
}

/// Index of the first occurrence of `c` in `s`, or `-1`.
pub open spec fn find_first(s: Seq<char>, c: char) -> int
    decreases s.len(),
{
    if s.len() == 0 {
        -1
    } else if s[0] == c {
        0
    } else {
        let r = find_first(s.drop_first(), c);
        if r < 0 {
            -1
        } else {
            r + 1
        }
    }
}

/// Where [`find_first`] points: at the first occurrence, or nowhere
/// exactly when there is none.
pub proof fn lemma_find_first(s: Seq<char>, c: char)
    ensures
        find_first(s, c) < 0 ==> forall|j: int| 0 <= j < s.len() ==> s[j] != c,
        find_first(s, c) >= 0 ==> find_first(s, c) < s.len() && s[find_first(s, c)] == c,
        find_first(s, c) >= 0 ==> forall|j: int| 0 <= j < find_first(s, c) ==> s[j] != c,
    decreases s.len(),
{
    if s.len() > 0 && s[0] != c {
        lemma_find_first(s.drop_first(), c);
        let d = s.drop_first();
        let r = find_first(d, c);
        if r < 0 {
            assert forall|j: int| 0 <= j < s.len() implies s[j] != c by {
                if j > 0 {
                    assert(d[j - 1] == s[j]);
                    assert(d[j - 1] != c);
                }
            }
        } else {
            assert(s[r + 1] == d[r]);
            assert forall|j: int| 0 <= j < r + 1 implies s[j] != c by {
                if j > 0 {
                    assert(d[j - 1] == s[j]);
                    assert(d[j - 1] != c);
                }
            }
        }
    }
}

/// Number of occurrences of `c` in `s`.
pub open spec fn count_char(s: Seq<char>, c: char) -> nat
    decreases s.len(),
{
    if s.len() == 0 {
        0
    } else {
        count_char(s.drop_last(), c) + if s.last() == c {
            1nat
        } else {
            0nat
        }
    }
}

/// Parse the window `[lo, hi)` as a 32-bit unsigned integer literal.
pub fn parse_u32_range(s: &Vec<char>, lo: usize, hi: usize) -> (r: Option<u32>)
    requires
        lo <= hi <= s@.len(),
    ensures
        ({
            let p = parsed_uint(s@.subrange(lo as int, hi as int));
            match r {
                Some(v) => p == Some(v as int),
                None => p is None || p->0 > 0xffff_ffff,
            }
        }),
{
    let ghost seg = s@.subrange(lo as int, hi as int);
    if lo == hi {
        return None;
    }
    let c0 = s[lo];
    if c0 == '-' {
        return None;
    }
    let body = if c0 == '+' {
        lo + 1
    } else {
        lo
    };
    proof {
        if c0 == '+' {
            assert(seg.drop_first() =~= s@.subrange(body as int, hi as int));
        } else {
            assert(seg =~= s@.subrange(body as int, hi as int));
        }
    }
    let (ok, mag) = scan_digits(s, body, hi);
    if !ok {
        return None;
    }
    proof {
        lemma_digits_val_nonneg(s@.subrange(body as int, hi as int));
    }
    if mag > 0xffff_ffff {
        return None;
    }
    Some(mag as u32)
}

/// The character of a decimal digit value.
pub open spec fn digit_char(d: int) -> char {
    if d == 0 {
        '0'
    } else if d == 1 {
        '1'
    } else if d == 2 {
        '2'
    } else if d == 3 {
        '3'
    } else if d == 4 {
        '4'
    } else if d == 5 {
        '5'
    } else if d == 6 {
        '6'
    } else if d == 7 {
        '7'
    } else if d == 8 {
        '8'
    } else {
        '9'
    }
}

/// Decimal rendering of a number, most significant digit first.
pub open spec fn dec_str(n: nat) -> Seq<char>
    decreases n,
{
    if n < 10 {
        seq![digit_char(n as int)]
    } else {
        dec_str(n / 10).push(digit_char((n % 10) as int))
    }
}

fn digit_str(d: u64) -> (r: &'static str)
    requires
        d <= 9,
    ensures
        r@ =~= seq![digit_char(d as int)],
{
    proof {
        reveal_strlit("0");
        reveal_strlit("1");
        reveal_strlit("2");
        reveal_strlit("3");
        reveal_strlit("4");
        reveal_strlit("5");
        reveal_strlit("6");
        reveal_strlit("7");
        reveal_strlit("8");
        reveal_strlit("9");
    }
    if d == 0 {
        "0"
    } else if d == 1 {
        "1"
    } else if d == 2 {
        "2"
    } else if d == 3 {
        "3"
    } else if d == 4 {
        "4"
    } else if d == 5 {
        "5"
    } else if d == 6 {
        "6"
    } else if d == 7 {
        "7"
    } else if d == 8 {
        "8"
    } else {
        "9"
    }
}

/// Rendering a number and reading the digits back yields the number;
/// so two different numbers never render alike.
pub proof fn lemma_dec_str_value(n: nat)
    ensures
        dec_str(n).len() >= 1,
        forall|i: int| 0 <= i < dec_str(n).len() ==> is_digit(#[trigger] dec_str(n)[i]),
        digits_val(dec_str(n)) == n,
    decreases n,
{
    if n < 10 {
        let s = seq![digit_char(n as int)];
        assert(s.drop_last() =~= Seq::<char>::empty());
        assert(s.last() == digit_char(n as int));
        lemma_digit_char_val(n as int);
        assert(digits_val(s) == digits_val(Seq::<char>::empty()) * 10 + digit_val(s.last()));
    } else {
        lemma_dec_str_value(n / 10);
        let s = dec_str(n / 10);
        let c = digit_char((n % 10) as int);
        assert(dec_str(n) == s.push(c));
        assert(s.push(c).drop_last() =~= s);
        assert(s.push(c).last() == c);
        assert(digits_val(s.push(c)) == digits_val(s) * 10 + digit_val(c));
        lemma_digit_char_val((n % 10) as int);
        vstd::arithmetic::div_mod::lemma_fundamental_div_mod(n as int, 10);
        assert forall|i: int| 0 <= i < s.push(c).len() implies is_digit(
            #[trigger] s.push(c)[i],
        ) by {
            if i < s.len() {
                assert(s.push(c)[i] == s[i]);
            }
        }
    }
}

proof fn lemma_digit_char_val(d: int)
    requires
        0 <= d <= 9,
    ensures
        is_digit(digit_char(d)),
        digit_val(digit_char(d)) == d,
{
}

/// Append the decimal rendering of `n` to `out`.
pub fn append_dec_u64(out: &mut String, n: u64)
    ensures
        final(out)@ == old(out)@ + dec_str(n as nat),
    decreases n,
{
    if n < 10 {
        out.append(digit_str(n));
    } else {
        append_dec_u64(out, n / 10);
        out.append(digit_str(n % 10));
        proof {
            assert(old(out)@ + dec_str((n / 10) as nat) + seq![
                digit_char((n % 10) as int),
            ] =~= old(out)@ + dec_str(n as nat));
        }
    }
}

/// Compare two string slices by content.
pub fn str_eq(a: &str, b: &str) -> (r: bool)
    ensures
        r == (a@ == b@),
{
    let sa = String::from_str(a);
    let sb = String::from_str(b);
    sa == sb
}

/// The characters of a string slice, as a vector.
pub fn chars_vec(s: &str) -> (v: Vec<char>)
    ensures
        v@ == s@,
{
    let n = s.unicode_len();
    let mut v: Vec<char> = Vec::new();
    let mut i: usize = 0;
    while i < n
        invariant
            i <= n,
            n == s@.len(),
            v@ == s@.take(i as int),
        decreases n - i,
    {
        v.push(s.get_char(i));
        proof {
            assert(s@.take(i as int).push(s@[i as int]) =~= s@.take(i + 1));
        }
        i += 1;
    }
    proof {
        assert(s@.take(n as int) =~= s@);
    }
    v
}

} // verus!
