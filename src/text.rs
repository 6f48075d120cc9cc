use vstd::prelude::*;

verus! {

/// Unicode `White_Space`, the set that `str::trim` strips.
pub open spec fn is_ws(c: char) -> bool {
    ('\u{9}' <= c && c <= '\u{d}') || c == ' ' || c == '\u{85}' || c == '\u{a0}'
        || c == '\u{1680}' || ('\u{2000}' <= c && c <= '\u{200a}') || c == '\u{2028}'
        || c == '\u{2029}' || c == '\u{202f}' || c == '\u{205f}' || c == '\u{3000}'
}

pub open spec fn trim_start(s: Seq<char>) -> Seq<char>
    decreases s.len(),
{
    if s.len() > 0 && is_ws(s[0]) {
        trim_start(s.drop_first())
    } else {
        s
    }
}

pub open spec fn trim_end(s: Seq<char>) -> Seq<char>
    decreases s.len(),
{
    if s.len() > 0 && is_ws(s.last()) {
        trim_end(s.drop_last())
    } else {
        s
    }
}

/// `s` without leading and trailing whitespace.
pub open spec fn trim(s: Seq<char>) -> Seq<char> {
    trim_end(trim_start(s))
}

/// The pieces of `s` between occurrences of `sep`; there is always at least one.
pub open spec fn split(s: Seq<char>, sep: char) -> Seq<Seq<char>>
    decreases s.len(),
{
    if s.len() == 0 {
        seq![Seq::empty()]
    } else {
        let p = split(s.drop_last(), sep);
        if s.last() == sep {
            p.push(Seq::empty())
        } else {
            p.update(p.len() - 1, p.last().push(s.last()))
        }
    }
}

pub open spec fn is_digit(c: char) -> bool {
    '0' <= c && c <= '9'
}

pub open spec fn digit_value(c: char) -> int {
    c as int - '0' as int
}

pub open spec fn all_digits(s: Seq<char>) -> bool {
    forall|i: int| 0 <= i < s.len() ==> is_digit(#[trigger] s[i])
}

/// The number that a string of decimal digits denotes.
pub open spec fn digits_value(s: Seq<char>) -> int
    decreases s.len(),
{
    if s.len() == 0 {
        0
    } else {
        digits_value(s.drop_last()) * 10 + digit_value(s.last())
    }
}

/// One or more digits, as a natural number.
pub open spec fn natural_value(ds: Seq<char>) -> Option<int> {
    if ds.len() > 0 && all_digits(ds) {
        Some(digits_value(ds))
    } else {
        None
    }
}

/// An optional `+` followed by digits.
pub open spec fn unsigned_value(f: Seq<char>) -> Option<int> {
    if f.len() > 0 && f[0] == '+' {
        natural_value(f.drop_first())
    } else {
        natural_value(f)
    }
}

/// An optional `+` or `-` followed by digits.
pub open spec fn signed_value(f: Seq<char>) -> Option<int> {
    if f.len() > 0 && f[0] == '-' {
        match natural_value(f.drop_first()) {
            Some(v) => Some(-v),
            None => None,
        }
    } else {
        unsigned_value(f)
    }
}

/// The decimal text `f` as an unsigned 8-bit integer.
pub open spec fn parse_u8(f: Seq<char>) -> Option<u8> {
    match unsigned_value(f) {
        Some(v) => if v <= u8::MAX {
            Some(v as u8)
        } else {
            None
        },
        None => None,
    }
}

/// The decimal text `f` as a signed 64-bit integer.
pub open spec fn parse_i64(f: Seq<char>) -> Option<i64> {
    match signed_value(f) {
        Some(v) => if i64::MIN <= v <= i64::MAX {
            Some(v as i64)
        } else {
            None
        },
        None => None,
    }
}

pub open spec fn digit_char(d: nat) -> char {
    ('0' as nat + d) as char
}

/// The shortest decimal digits of `n`.
pub open spec fn digits_of(n: nat) -> Seq<char>
    decreases n,
{
    if n < 10 {
        seq![digit_char(n)]
    } else {
        digits_of(n / 10).push(digit_char(n % 10))
    }
}

/// The decimal text of `v`, with `-` before a negative value.
pub open spec fn show_int(v: int) -> Seq<char> {
    if v < 0 {
        seq!['-'] + digits_of((-v) as nat)
    } else {
        digits_of(v as nat)
    }
}

/// The characters of a string, in order.
pub fn chars_of(s: &str) -> (r: Vec<char>)
    ensures
        r@ == s@,
{
    let mut r: Vec<char> = Vec::new();
    for c in it: s.chars()
        invariant
            r@ == it.seq().take(it.index() as int),
    {
        r.push(c);
    }
    r
}

/// `char::is_whitespace`, which holds exactly of Unicode `White_Space`.
pub fn is_whitespace(c: char) -> (r: bool)
    ensures
        r == is_ws(c),
{
    ('\u{9}' <= c && c <= '\u{d}') || c == ' ' || c == '\u{85}' || c == '\u{a0}'
        || c == '\u{1680}' || ('\u{2000}' <= c && c <= '\u{200a}') || c == '\u{2028}'
        || c == '\u{2029}' || c == '\u{202f}' || c == '\u{205f}' || c == '\u{3000}'
}

/// The bounds of `s[lo..hi]` with surrounding whitespace left out.
pub fn trim_range(s: &Vec<char>, lo: usize, hi: usize) -> (r: (usize, usize))
    requires
        lo <= hi <= s.len(),
    ensures
        lo <= r.0 <= r.1 <= hi,
        s@.subrange(r.0 as int, r.1 as int) == trim(s@.subrange(lo as int, hi as int)),
{
    let mut start = lo;
    while start < hi && is_whitespace(s[start])
        invariant
            lo <= start <= hi <= s.len(),
            trim_start(s@.subrange(lo as int, hi as int)) == trim_start(
                s@.subrange(start as int, hi as int),
            ),
        decreases hi - start,
    {
        assert(s@.subrange(start as int, hi as int).drop_first() =~= s@.subrange(
            start + 1,
            hi as int,
        ));
        start = start + 1;
    }
    let mut end = hi;
    while end > start && is_whitespace(s[end - 1])
        invariant
            lo <= start <= end <= hi <= s.len(),
            trim_end(s@.subrange(start as int, hi as int)) == trim_end(
                s@.subrange(start as int, end as int),
            ),
        decreases end - start,
    {
        assert(s@.subrange(start as int, end as int).drop_last() =~= s@.subrange(
            start as int,
            end - 1,
        ));
        end = end - 1;
    }
    (start, end)
}

proof fn lemma_split_nonempty(s: Seq<char>, sep: char)
    ensures
        split(s, sep).len() >= 1,
    decreases s.len(),
{
    if s.len() > 0 {
        lemma_split_nonempty(s.drop_last(), sep);
    }
}

/// The bounds of the pieces of `s[lo..hi]` between occurrences of `sep`.
pub fn split_ranges(s: &Vec<char>, lo: usize, hi: usize, sep: char) -> (r: Vec<(usize, usize)>)
    requires
        lo <= hi <= s.len(),
    ensures
        r.len() == split(s@.subrange(lo as int, hi as int), sep).len(),
        forall|k: int|
            0 <= k < r.len() ==> lo <= (#[trigger] r[k]).0 <= r[k].1 <= hi && s@.subrange(
                r[k].0 as int,
                r[k].1 as int,
            ) == split(s@.subrange(lo as int, hi as int), sep)[k],
{
    let mut pieces: Vec<(usize, usize)> = Vec::new();
    let mut cur = lo;
    let mut j = lo;
    proof {
        assert(s@.subrange(lo as int, lo as int) =~= Seq::<char>::empty());
    }
    while j < hi
        invariant
            lo <= cur <= j <= hi <= s.len(),
            split(s@.subrange(lo as int, j as int), sep).len() == pieces.len() + 1,
            split(s@.subrange(lo as int, j as int), sep).last() == s@.subrange(
                cur as int,
                j as int,
            ),
            forall|k: int|
                0 <= k < pieces.len() ==> lo <= (#[trigger] pieces[k]).0 <= pieces[k].1 <= j
                    && s@.subrange(pieces[k].0 as int, pieces[k].1 as int) == split(
                    s@.subrange(lo as int, j as int),
                    sep,
                )[k],
        decreases hi - j,
    {
        let ghost x = s@.subrange(lo as int, j as int);
        let ghost x2 = s@.subrange(lo as int, j + 1);
        proof {
            assert(x2.drop_last() =~= x);
            assert(x2.last() == s@[j as int]);
            lemma_split_nonempty(x, sep);
        }
        if s[j] == sep {
            pieces.push((cur, j));
            cur = j + 1;
            proof {
                assert(s@.subrange(cur as int, j + 1) =~= Seq::<char>::empty());
            }
        } else {
            proof {
                assert(s@.subrange(cur as int, j + 1) =~= s@.subrange(cur as int, j as int).push(
                    s@[j as int],
                ));
            }
        }
        j = j + 1;
    }
    pieces.push((cur, hi));
    pieces
}

proof fn lemma_digits_value_nonneg(s: Seq<char>)
    requires
        all_digits(s),
    ensures
        digits_value(s) >= 0,
    decreases s.len(),
{
    if s.len() > 0 {
        lemma_digits_value_nonneg(s.drop_last());
        assert(is_digit(s[s.len() - 1]));
    }
}

/// The value of the digits `s[lo..hi]` when it is at most `limit`.
fn natural_in(s: &Vec<char>, lo: usize, hi: usize, limit: u64) -> (r: Option<u64>)
    requires
        lo <= hi <= s.len(),
        limit < u64::MAX,
    ensures
        ({
            let ds = s@.subrange(lo as int, hi as int);
            match r {
                Some(v) => natural_value(ds) == Some(v as int) && v <= limit,
                None => natural_value(ds) is None || digits_value(ds) > limit,
            }
        }),
{
    if lo == hi {
        return None;
    }
    let mut acc: u64 = 0;
    let mut i = lo;
    proof {
        assert(s@.subrange(lo as int, lo as int) =~= Seq::<char>::empty());
    }
    while i < hi
        invariant
            lo <= i <= hi <= s.len(),
            limit < u64::MAX,
            all_digits(s@.subrange(lo as int, i as int)),
            acc <= limit + 1,
            acc == (if digits_value(s@.subrange(lo as int, i as int)) <= limit {
                digits_value(s@.subrange(lo as int, i as int))
            } else {
                limit + 1
            }),
        decreases hi - i,
    {
        let c = s[i];
        if !('0' <= c && c <= '9') {
            proof {
                let ds = s@.subrange(lo as int, hi as int);
                assert(ds[i - lo] == c);
            }
            return None;
        }
        let ghost p = s@.subrange(lo as int, i as int);
        let ghost p2 = s@.subrange(lo as int, i + 1);
        proof {
            assert(p2.drop_last() =~= p);
            assert(p2.last() == c);
            lemma_digits_value_nonneg(p);
            assert forall|k: int| 0 <= k < p2.len() implies is_digit(#[trigger] p2[k]) by {
                if k < p.len() {
                    assert(p2[k] == p[k]);
                }
            }
        }
        let d = (c as u32 - '0' as u32) as u64;
        let next: u128 = acc as u128 * 10 + d as u128;
        if next > limit as u128 {
            acc = limit + 1;
        } else {
            acc = next as u64;
        }
        i = i + 1;
    }
    if acc > limit {
        None
    } else {
        Some(acc)
    }
}

/// `s[lo..hi]` read as an unsigned 8-bit integer.
pub fn parse_u8_in(s: &Vec<char>, lo: usize, hi: usize) -> (r: Option<u8>)
    requires
        lo <= hi <= s.len(),
    ensures
        r == parse_u8(s@.subrange(lo as int, hi as int)),
{
    let ghost f = s@.subrange(lo as int, hi as int);
    let mut start = lo;
    if lo < hi && s[lo] == '+' {
        start = lo + 1;
        proof {
            assert(f.drop_first() =~= s@.subrange(start as int, hi as int));
        }
    }
    match natural_in(s, start, hi, 255) {
        Some(v) => Some(v as u8),
        None => None,
    }
}

/// `s[lo..hi]` read as a signed 64-bit integer.
pub fn parse_i64_in(s: &Vec<char>, lo: usize, hi: usize) -> (r: Option<i64>)
    requires
        lo <= hi <= s.len(),
    ensures
        r == parse_i64(s@.subrange(lo as int, hi as int)),
{
    let ghost f = s@.subrange(lo as int, hi as int);
    if lo < hi && s[lo] == '-' {
        proof {
            assert(f.drop_first() =~= s@.subrange(lo + 1, hi as int));
        }
        match natural_in(s, lo + 1, hi, 9223372036854775808) {
            Some(v) => if v == 9223372036854775808 {
                Some(i64::MIN)
            } else {
                Some(-(v as i64))
            },
            None => None,
        }
    } else {
        let mut start = lo;
        if lo < hi && s[lo] == '+' {
            start = lo + 1;
            proof {
                assert(f.drop_first() =~= s@.subrange(start as int, hi as int));
            }
        }
        match natural_in(s, start, hi, 9223372036854775807) {
            Some(v) => Some(v as i64),
            None => None,
        }
    }
}

} // verus!
