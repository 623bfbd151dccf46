//! Character-level text handling shared by the parsers: trimming, splitting,
//! ASCII case folding and integer parsing, each specified over `Seq<char>`.

use vstd::prelude::*;
use vstd::string::*;

verus! {

/// Unicode `White_Space`, the set `char::is_whitespace` and `str::trim` use.
pub open spec fn is_ws(c: char) -> bool {
    let u = c as u32;
    (0x09 <= u && u <= 0x0D) || u == 0x20 || u == 0x85 || u == 0xA0 || u == 0x1680 || (0x2000
        <= u && u <= 0x200A) || u == 0x2028 || u == 0x2029 || u == 0x202F || u == 0x205F || u
        == 0x3000
}

pub fn is_ws_exec(c: char) -> (b: bool)
    ensures
        b == is_ws(c),
{
    let u = c as u32;
    (0x09 <= u && u <= 0x0D) || u == 0x20 || u == 0x85 || u == 0xA0 || u == 0x1680 || (0x2000
        <= u && u <= 0x200A) || u == 0x2028 || u == 0x2029 || u == 0x202F || u == 0x205F || u
        == 0x3000
}

pub open spec fn trim_front(s: Seq<char>) -> Seq<char>
    decreases s.len(),
{
    if s.len() > 0 && is_ws(s[0]) {
        trim_front(s.drop_first())
    } else {
        s
    }
}

pub open spec fn trim_back(s: Seq<char>) -> Seq<char>
    decreases s.len(),
{
    if s.len() > 0 && is_ws(s.last()) {
        trim_back(s.drop_last())
    } else {
        s
    }
}

/// What `str::trim` leaves: leading and trailing white space removed.
pub open spec fn trim(s: Seq<char>) -> Seq<char> {
    trim_back(trim_front(s))
}

proof fn lemma_trim_front(s: Seq<char>, lo: int)
    requires
        0 <= lo <= s.len(),
        forall|k: int| 0 <= k < lo ==> is_ws(#[trigger] s[k]),
        lo == s.len() || !is_ws(s[lo]),
    ensures
        trim_front(s) == s.subrange(lo, s.len() as int),
    decreases lo,
{
    if lo == 0 {
        assert(s.subrange(0, s.len() as int) =~= s);
    } else {
        let t = s.drop_first();
        assert forall|k: int| 0 <= k < lo - 1 implies is_ws(#[trigger] t[k]) by {
            assert(t[k] == s[k + 1]);
        }
        if lo - 1 < t.len() {
            assert(t[lo - 1] == s[lo]);
        }
        lemma_trim_front(t, lo - 1);
        assert(t.subrange(lo - 1, t.len() as int) =~= s.subrange(lo, s.len() as int));
    }
}

proof fn lemma_trim_back(s: Seq<char>, hi: int)
    requires
        0 <= hi <= s.len(),
        forall|k: int| hi <= k < s.len() ==> is_ws(#[trigger] s[k]),
        hi == 0 || !is_ws(s[hi - 1]),
    ensures
        trim_back(s) == s.subrange(0, hi),
    decreases s.len() - hi,
{
    if hi == s.len() {
        assert(s.subrange(0, hi) =~= s);
    } else {
        let t = s.drop_last();
        assert forall|k: int| hi <= k < t.len() implies is_ws(#[trigger] t[k]) by {
            assert(t[k] == s[k]);
        }
        if hi > 0 {
            assert(t[hi - 1] == s[hi - 1]);
        }
        lemma_trim_back(t, hi);
        assert(t.subrange(0, hi) =~= s.subrange(0, hi));
    }
}

/// A copy of `s[lo..hi]`.
pub fn slice(s: &Vec<char>, lo: usize, hi: usize) -> (r: Vec<char>)
    requires
        lo <= hi <= s.len(),
    ensures
        r@ == s@.subrange(lo as int, hi as int),
{
    let mut r: Vec<char> = Vec::new();
    let mut i = lo;
    while i < hi
        invariant
            lo <= i <= hi <= s.len(),
            r@ == s@.subrange(lo as int, i as int),
        decreases hi - i,
    {
        r.push(s[i]);
        assert(r@ =~= s@.subrange(lo as int, i + 1));
        i += 1;
    }
    r
}

/// `str::trim` on a character sequence.
pub fn trim_exec(s: &Vec<char>) -> (r: Vec<char>)
    ensures
        r@ == trim(s@),
{
    let mut lo: usize = 0;
    while lo < s.len() && is_ws_exec(s[lo])
        invariant
            lo <= s.len(),
            forall|k: int| 0 <= k < lo ==> is_ws(#[trigger] s@[k]),
        decreases s.len() - lo,
    {
        lo += 1;
    }
    let mut hi: usize = s.len();
    while hi > lo && is_ws_exec(s[hi - 1])
        invariant
            lo <= hi <= s.len(),
            forall|k: int| hi <= k < s.len() ==> is_ws(#[trigger] s@[k]),
        decreases hi,
    {
        hi -= 1;
    }
    proof {
        lemma_trim_front(s@, lo as int);
        let t = s@.subrange(lo as int, s.len() as int);
        assert forall|k: int| hi - lo <= k < t.len() implies is_ws(#[trigger] t[k]) by {
            assert(t[k] == s@[k + lo]);
        }
        if hi > lo {
            assert(t[hi - lo - 1] == s@[hi - 1]);
        }
        lemma_trim_back(t, hi - lo);
        assert(t.subrange(0, hi - lo) =~= s@.subrange(lo as int, hi as int));
    }
    slice(s, lo, hi)
}

/// `i` is the first position of `c` in `s`.
pub open spec fn is_first(s: Seq<char>, c: char, i: int) -> bool {
    0 <= i < s.len() && s[i] == c && forall|k: int| 0 <= k < i ==> s[k] != c
}

/// `i` is the last position of `c` in `s`.
pub open spec fn is_last(s: Seq<char>, c: char, i: int) -> bool {
    0 <= i < s.len() && s[i] == c && forall|k: int| i < k < s.len() ==> s[k] != c
}

/// `str::split_once(c)`: the text before the first `c` and after it.
pub open spec fn split_once(s: Seq<char>, c: char) -> Option<(Seq<char>, Seq<char>)> {
    if exists|i: int| is_first(s, c, i) {
        let i = choose|i: int| is_first(s, c, i);
        Some((s.take(i), s.skip(i + 1)))
    } else {
        None
    }
}

/// `str::rsplit_once(c)`: the text before the last `c` and after it.
pub open spec fn rsplit_once(s: Seq<char>, c: char) -> Option<(Seq<char>, Seq<char>)> {
    if exists|i: int| is_last(s, c, i) {
        let i = choose|i: int| is_last(s, c, i);
        Some((s.take(i), s.skip(i + 1)))
    } else {
        None
    }
}

pub fn split_once_exec(s: &Vec<char>, c: char) -> (r: Option<(Vec<char>, Vec<char>)>)
    ensures
        match split_once(s@, c) {
            Some((a, b)) => r matches Some((x, y)) && x@ == a && y@ == b,
            None => r is None,
        },
{
    let mut i: usize = 0;
    while i < s.len()
        invariant
            i <= s.len(),
            forall|k: int| 0 <= k < i ==> s@[k] != c,
        decreases s.len() - i,
    {
        if s[i] == c {
            proof {
                assert(is_first(s@, c, i as int));
                let j = choose|j: int| is_first(s@, c, j);
                assert(j == i as int);
            }
            let a = slice(s, 0, i);
            let b = slice(s, i + 1, s.len());
            return Some((a, b));
        }
        i += 1;
    }
    assert(!exists|j: int| is_first(s@, c, j));
    None
}

pub fn rsplit_once_exec(s: &Vec<char>, c: char) -> (r: Option<(Vec<char>, Vec<char>)>)
    ensures
        match rsplit_once(s@, c) {
            Some((a, b)) => r matches Some((x, y)) && x@ == a && y@ == b,
            None => r is None,
        },
{
    let mut i: usize = s.len();
    while i > 0
        invariant
            i <= s.len(),
            forall|k: int| i <= k < s.len() ==> s@[k] != c,
        decreases i,
    {
        if s[i - 1] == c {
            proof {
                assert(is_last(s@, c, i - 1));
                let j = choose|j: int| is_last(s@, c, j);
                assert(j == i - 1);
            }
            let a = slice(s, 0, i - 1);
            let b = slice(s, i, s.len());
            return Some((a, b));
        }
        i -= 1;
    }
    assert(!exists|j: int| is_last(s@, c, j));
    None
}

pub open spec fn lower_char(c: char) -> char {
    if 65 <= c as u32 && c as u32 <= 90 {
        ((c as u32) + 32) as char
    } else {
        c
    }
}

pub open spec fn upper_char(c: char) -> char {
    if 97 <= c as u32 && c as u32 <= 122 {
        ((c as u32) - 32) as char
    } else {
        c
    }
}

/// `to_ascii_lowercase`: only `A`..`Z` change.
pub open spec fn lower(s: Seq<char>) -> Seq<char> {
    s.map_values(|c: char| lower_char(c))
}

/// `to_ascii_uppercase`: only `a`..`z` change.
pub open spec fn upper(s: Seq<char>) -> Seq<char> {
    s.map_values(|c: char| upper_char(c))
}

pub fn lower_char_exec(c: char) -> (r: char)
    ensures
        r == lower_char(c),
{
    let u = c as u32;
    if 65 <= u && u <= 90 {
        let b: u8 = (u + 32) as u8;
        assert(b as u32 == u + 32);
        b as char
    } else {
        c
    }
}

pub fn upper_char_exec(c: char) -> (r: char)
    ensures
        r == upper_char(c),
{
    let u = c as u32;
    if 97 <= u && u <= 122 {
        let b: u8 = (u - 32) as u8;
        assert(b as u32 == u - 32);
        b as char
    } else {
        c
    }
}

pub fn lower_exec(s: &Vec<char>) -> (r: Vec<char>)
    ensures
        r@ == lower(s@),
{
    let mut r: Vec<char> = Vec::new();
    let mut i: usize = 0;
    while i < s.len()
        invariant
            i <= s.len(),
            r@ == lower(s@.take(i as int)),
        decreases s.len() - i,
    {
        r.push(lower_char_exec(s[i]));
        assert(r@ =~= lower(s@.take(i + 1)));
        i += 1;
    }
    assert(s@.take(s.len() as int) =~= s@);
    r
}

pub fn upper_exec(s: &Vec<char>) -> (r: Vec<char>)
    ensures
        r@ == upper(s@),
{
    let mut r: Vec<char> = Vec::new();
    let mut i: usize = 0;
    while i < s.len()
        invariant
            i <= s.len(),
            r@ == upper(s@.take(i as int)),
        decreases s.len() - i,
    {
        r.push(upper_char_exec(s[i]));
        assert(r@ =~= upper(s@.take(i + 1)));
        i += 1;
    }
    assert(s@.take(s.len() as int) =~= s@);
    r
}

/// Whether `s` reads exactly as `lit`.
pub fn eq_lit(s: &Vec<char>, lit: &str) -> (b: bool)
    ensures
        b == (s@ == lit@),
{
    let n = lit.unicode_len();
    if n != s.len() {
        return false;
    }
    let mut i: usize = 0;
    while i < n
        invariant
            n == s.len(),
            n == lit@.len(),
            i <= n,
            forall|k: int| 0 <= k < i ==> s@[k] == lit@[k],
        decreases n - i,
    {
        if s[i] != lit.get_char(i) {
            return false;
        }
        i += 1;
    }
    assert(s@ =~= lit@);
    true
}

/// The characters of `s`, in order.
pub fn chars_of(s: &str) -> (r: Vec<char>)
    ensures
        r@ == s@,
{
    let n = s.unicode_len();
    let mut r: Vec<char> = Vec::new();
    let mut i: usize = 0;
    while i < n
        invariant
            n == s@.len(),
            i <= n,
            r@ == s@.take(i as int),
        decreases n - i,
    {
        r.push(s.get_char(i));
        assert(r@ =~= s@.take(i + 1));
        i += 1;
    }
    assert(s@.take(n as int) =~= s@);
    r
}

/// What `{:?}` prints for a string: the string in double quotes, with its
/// special characters escaped.
pub uninterp spec fn debug_quoted(s: Seq<char>) -> Seq<char>;

/// A character `{:?}` prints as it is: printable ASCII other than `"` and
/// `\`.
pub open spec fn plain_char(c: char) -> bool {
    32 <= c as u32 && c as u32 <= 126 && c != '"' && c != '\\'
}

/// Every character of `s` is printed as it is.
pub open spec fn plain(s: Seq<char>) -> bool {
    forall|i: int| 0 <= i < s.len() ==> plain_char(#[trigger] s[i])
}

/// `s` between double quotes.
pub open spec fn in_quotes(s: Seq<char>) -> Seq<char> {
    seq!['"'] + s + seq!['"']
}

/// `format!("{:?}", s)`: the `Debug` form of a string, which quotes it and
/// escapes what is not printable ASCII (and the quote and backslash). Only
/// that a string of printable ASCII without quote or backslash is printed
/// between quotes as it is, is stated here; the escapes of other characters
/// are left to the name `debug_quoted`.
#[verifier::external_body]
pub(crate) fn quoted(s: &str) -> (r: String)
    ensures
        r@ == debug_quoted(s@),
        plain(s@) ==> r@ == in_quotes(s@),
{
    format!("{s:?}")
}

/// `String::from_iter` over a character slice.
#[verifier::external_body]
pub(crate) fn string_of(v: &Vec<char>) -> (r: String)
    ensures
        r@ == v@,
{
    v.iter().collect()
}


pub open spec fn is_digit(c: char) -> bool {
    48 <= c as u32 && c as u32 <= 57
}

pub open spec fn all_digits(s: Seq<char>) -> bool {
    forall|i: int| 0 <= i < s.len() ==> is_digit(#[trigger] s[i])
}

/// The decimal value of a run of ASCII digits.
pub open spec fn digits_val(s: Seq<char>) -> int
    decreases s.len(),
{
    if s.len() == 0 {
        0
    } else {
        digits_val(s.drop_last()) * 10 + (s.last() as u32 - 48)
    }
}

/// The integer `i64::from_str` (and every signed `FromStr`) reads, before its
/// range check: an optional `+` or `-`, then at least one ASCII digit.
pub open spec fn parse_int(s: Seq<char>) -> Option<int> {
    if s.len() >= 2 && s[0] == '-' && all_digits(s.drop_first()) {
        Some(-digits_val(s.drop_first()))
    } else if s.len() >= 2 && s[0] == '+' && all_digits(s.drop_first()) {
        Some(digits_val(s.drop_first()))
    } else if s.len() >= 1 && all_digits(s) {
        Some(digits_val(s))
    } else {
        None
    }
}

/// What an unsigned `FromStr` reads before its range check: an optional `+`,
/// then at least one ASCII digit.
pub open spec fn parse_uint(s: Seq<char>) -> Option<int> {
    if s.len() >= 2 && s[0] == '+' && all_digits(s.drop_first()) {
        Some(digits_val(s.drop_first()))
    } else if s.len() >= 1 && all_digits(s) {
        Some(digits_val(s))
    } else {
        None
    }
}

/// `s.parse::<i32>().ok()`.
pub open spec fn parse_i32(s: Seq<char>) -> Option<i32> {
    match parse_int(s) {
        Some(v) => if i32::MIN <= v <= i32::MAX {
            Some(v as i32)
        } else {
            None
        },
        None => None,
    }
}

/// `s.parse::<i64>().ok()`.
pub open spec fn parse_i64(s: Seq<char>) -> Option<i64> {
    match parse_int(s) {
        Some(v) => if i64::MIN <= v <= i64::MAX {
            Some(v as i64)
        } else {
            None
        },
        None => None,
    }
}

proof fn lemma_digits_nonneg(s: Seq<char>)
    requires
        all_digits(s),
    ensures
        digits_val(s) >= 0,
    decreases s.len(),
{
    if s.len() > 0 {
        assert(all_digits(s.drop_last())) by {
            assert forall|i: int| 0 <= i < s.drop_last().len() implies is_digit(
                #[trigger] s.drop_last()[i],
            ) by {
                assert(s.drop_last()[i] == s[i]);
            }
        }
        lemma_digits_nonneg(s.drop_last());
        assert(is_digit(s[s.len() - 1]));
    }
}

proof fn lemma_digits_mono(s: Seq<char>, k: int, j: int)
    requires
        all_digits(s),
        0 <= k <= j <= s.len(),
    ensures
        digits_val(s.take(k)) <= digits_val(s.take(j)),
    decreases j - k,
{
    if k < j {
        lemma_digits_mono(s, k, j - 1);
        let t = s.take(j);
        assert(t.drop_last() =~= s.take(j - 1));
        assert(is_digit(s[j - 1]));
        assert(all_digits(s.take(j - 1))) by {
            assert forall|i: int| 0 <= i < s.take(j - 1).len() implies is_digit(
                #[trigger] s.take(j - 1)[i],
            ) by {
                assert(s.take(j - 1)[i] == s[i]);
            }
        }
        lemma_digits_nonneg(s.take(j - 1));
    }
}

/// Reads the digits of `s[from..]`, giving up once the value passes `bound`.
fn digits_upto(s: &Vec<char>, from: usize, bound: u64) -> (r: Option<u64>)
    requires
        from <= s.len(),
        bound <= u64::MAX / 20,
    ensures
        match r {
            Some(v) => all_digits(s@.skip(from as int)) && v == digits_val(s@.skip(from as int))
                && v <= bound,
            None => !all_digits(s@.skip(from as int)) || digits_val(s@.skip(from as int))
                > bound,
        },
{
    let ghost d = s@.skip(from as int);
    let mut v: u64 = 0;
    let mut i: usize = from;
    while i < s.len()
        invariant
            from <= i <= s.len(),
            d == s@.skip(from as int),
            bound <= u64::MAX / 20,
            all_digits(d.take(i - from)),
            v == digits_val(d.take(i - from)),
            v <= bound,
        decreases s.len() - i,
    {
        let c = s[i];
        let u = c as u32;
        if u < 48 || u > 57 {
            proof {
                assert(d[i - from] == c);
            }
            return None;
        }
        proof {
            let t = d.take(i - from + 1);
            assert(t.drop_last() =~= d.take(i - from));
            assert(t.last() == c);
            assert(all_digits(t)) by {
                assert forall|k: int| 0 <= k < t.len() implies is_digit(#[trigger] t[k]) by {
                    if k < i - from {
                        assert(t[k] == d.take(i - from)[k]);
                    }
                }
            }
        }
        v = v * 10 + (u - 48) as u64;
        i += 1;
        if v > bound {
            proof {
                assert(d.take(i - from) =~= d.take((s.len() - from) as int).take(i - from));
                if all_digits(d) {
                    assert(d.take(d.len() as int) =~= d);
                    lemma_digits_mono(d, i - from, d.len() as int);
                }
            }
            return None;
        }
    }
    assert(d.take(i - from) =~= d);
    Some(v)
}

/// `s.parse::<i32>().ok()`.
pub fn parse_i32_exec(s: &Vec<char>) -> (r: Option<i32>)
    ensures
        r == parse_i32(s@),
{
    if s.len() >= 2 && (s[0] == '-' || s[0] == '+') {
        let neg = s[0] == '-';
        let m = digits_upto(s, 1, 2147483648);
        proof {
            assert(s@.skip(1) =~= s@.drop_first());
        }
        match m {
            Some(v) => {
                if neg {
                    let r = (0 - (v as i64)) as i32;
                    Some(r)
                } else if v <= 2147483647 {
                    Some(v as i32)
                } else {
                    None
                }
            },
            None => {
                proof {
                    if all_digits(s@.drop_first()) {
                        lemma_digits_nonneg(s@.drop_first());
                    }
                }
                None
            },
        }
    } else {
        let m = digits_upto(s, 0, 2147483648);
        proof {
            assert(s@.skip(0) =~= s@);
        }
        if s.len() == 0 {
            return None;
        }
        match m {
            Some(v) => if v <= 2147483647 {
                Some(v as i32)
            } else {
                None
            },
            None => None,
        }
    }
}

/// `s.parse::<i64>().ok()`, for values that fit a compact range; anything
/// outside `-bound..=bound` comes back as `None` like a non-number would.
pub fn parse_int_within(s: &Vec<char>, bound: u64) -> (r: Option<i64>)
    requires
        bound <= u64::MAX / 20,
        bound <= i64::MAX as u64,
    ensures
        match parse_int(s@) {
            Some(v) => if -bound <= v <= bound {
                r == Some(v as i64)
            } else {
                r is None
            },
            None => r is None,
        },
{
    if s.len() >= 2 && (s[0] == '-' || s[0] == '+') {
        let neg = s[0] == '-';
        let m = digits_upto(s, 1, bound);
        proof {
            assert(s@.skip(1) =~= s@.drop_first());
        }
        match m {
            Some(v) => {
                if neg {
                    Some(0 - (v as i64))
                } else {
                    Some(v as i64)
                }
            },
            None => {
                proof {
                    if all_digits(s@.drop_first()) {
                        lemma_digits_nonneg(s@.drop_first());
                    }
                }
                None
            },
        }
    } else {
        let m = digits_upto(s, 0, bound);
        proof {
            assert(s@.skip(0) =~= s@);
        }
        if s.len() == 0 {
            return None;
        }
        match m {
            Some(v) => Some(v as i64),
            None => {
                proof {
                    if all_digits(s@) {
                        lemma_digits_nonneg(s@);
                    }
                }
                None
            },
        }
    }
}

/// An unsigned `s.parse()`, kept to values up to `bound`.
pub fn parse_uint_within(s: &Vec<char>, bound: u64) -> (r: Option<u64>)
    requires
        bound <= u64::MAX / 20,
    ensures
        r matches Some(x) ==> parse_uint(s@) == Some(x as int),
        match parse_uint(s@) {
            Some(v) => if v <= bound {
                r == Some(v as u64)
            } else {
                r is None
            },
            None => r is None,
        },
{
    if s.len() >= 2 && s[0] == '+' {
        let m = digits_upto(s, 1, bound);
        proof {
            assert(s@.skip(1) =~= s@.drop_first());
        }
        m
    } else {
        if s.len() == 0 {
            return None;
        }
        let m = digits_upto(s, 0, bound);
        proof {
            assert(s@.skip(0) =~= s@);
            if s@[0] == '+' {
                assert(!is_digit(s@[0]));
            }
        }
        m
    }
}

} // verus!
