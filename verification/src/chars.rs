//! Character-sequence helpers shared by the epoch parser and the
//! constellation classifier: ASCII digit runs, base-10 values, whitespace
//! trimming, and single-character search.

use vstd::prelude::*;

verus! {

/// True if `c` is an ASCII decimal digit.
pub open spec fn is_digit(c: char) -> bool {
    '0' <= c && c <= '9'
}

/// Numeric value of an ASCII decimal digit.
pub open spec fn digit_val(c: char) -> int {
    c as int - '0' as int
}

/// True if every character of `s` is an ASCII decimal digit.
pub open spec fn all_digits(s: Seq<char>) -> bool {
    forall|i: int| 0 <= i < s.len() ==> is_digit(#[trigger] s[i])
}

/// Base-10 value of a digit string; the empty string reads as 0.
pub open spec fn digits_val(s: Seq<char>) -> int
    decreases s.len(),
{
    if s.len() == 0 {
        0
    } else {
        digits_val(s.drop_last()) * 10 + digit_val(s.last())
    }
}

/// A non-empty digit string whose value fits in a `u64`: exactly the strings
/// `u64::from_str` accepts, less an optional leading `+`.
pub open spec fn is_u64_digits(s: Seq<char>) -> bool {
    s.len() > 0 && all_digits(s) && digits_val(s) <= u64::MAX
}

/// 10 to the power `n`; 1 at or below zero.
pub open spec fn pow10(n: int) -> int
    decreases (if n <= 0 { 0 } else { n }),
{
    if n <= 0 {
        1
    } else {
        10 * pow10(n - 1)
    }
}

/// A non-empty digit string whose value fits in a `u32`.
pub open spec fn is_u32_digits(s: Seq<char>) -> bool {
    s.len() > 0 && all_digits(s) && digits_val(s) <= u32::MAX
}

/// Value of a fraction's digit string in 10^-9 units of the whole: the
/// first nine digits are read, shorter runs are padded with zeros.
pub open spec fn frac_val_e9(f: Seq<char>) -> int {
    if f.len() >= 9 {
        digits_val(f.take(9))
    } else {
        digits_val(f) * pow10(9 - f.len() as int)
    }
}

/// True if `c` is ASCII whitespace as it appears around ephemeris fields.
pub open spec fn is_space(c: char) -> bool {
    c == ' ' || c == '\t' || c == '\n' || c == '\r'
}

/// `s` with leading whitespace removed.
pub open spec fn trim_front(s: Seq<char>) -> Seq<char>
    decreases s.len(),
{
    if s.len() > 0 && is_space(s.first()) {
        trim_front(s.drop_first())
    } else {
        s
    }
}

/// `s` with trailing whitespace removed.
pub open spec fn trim_back(s: Seq<char>) -> Seq<char>
    decreases s.len(),
{
    if s.len() > 0 && is_space(s.last()) {
        trim_back(s.drop_last())
    } else {
        s
    }
}

/// `s` with whitespace removed from both ends.
pub open spec fn spec_trim(s: Seq<char>) -> Seq<char> {
    trim_back(trim_front(s))
}

/// Index of the first occurrence of `c` in `s`, or -1 if absent.
pub open spec fn find_char(s: Seq<char>, c: char) -> int
    decreases s.len(),
{
    if s.len() == 0 {
        -1
    } else if s.first() == c {
        0
    } else {
        let r = find_char(s.drop_first(), c);
        if r == -1 {
            -1
        } else {
            r + 1
        }
    }
}

/// What `find_char` returns: either -1 and `c` is absent, or the index of
/// the first occurrence.
pub proof fn lemma_find_char(s: Seq<char>, c: char)
    ensures
        find_char(s, c) == -1 ==> forall|i: int| 0 <= i < s.len() ==> s[i] != c,
        find_char(s, c) != -1 ==> {
            let r = find_char(s, c);
            &&& 0 <= r < s.len()
            &&& s[r] == c
            &&& forall|i: int| 0 <= i < r ==> s[i] != c
        },
    decreases s.len(),
{
    if s.len() > 0 && s.first() != c {
        let t = s.drop_first();
        lemma_find_char(t, c);
        assert(forall|i: int| 0 <= i < t.len() ==> #[trigger] t[i] == s[i + 1]);
        if find_char(t, c) == -1 {
            assert(forall|i: int| 0 <= i < s.len() ==> s[i] != c) by {
                assert(forall|i: int| 1 <= i < s.len() ==> s[i] == t[i - 1]);
            }
        } else {
            let r = find_char(t, c);
            assert(s[r + 1] == t[r]);
            assert(forall|i: int| 1 <= i < r + 1 ==> s[i] == t[i - 1]);
        }
    }
}

/// A digit string's value is non-negative and below 10^length.
pub proof fn lemma_digits_val_bound(s: Seq<char>)
    requires
        all_digits(s),
    ensures
        0 <= digits_val(s) < pow10(s.len() as int),
    decreases s.len(),
{
    if s.len() > 0 {
        assert(all_digits(s.drop_last())) by {
            assert(forall|i: int|
                0 <= i < s.len() - 1 ==> s.drop_last()[i] == #[trigger] s[i]);
        }
        lemma_digits_val_bound(s.drop_last());
    }
}

/// Reading one more digit multiplies the prefix value by 10 and adds it.
pub proof fn lemma_digits_val_step(s: Seq<char>, i: int)
    requires
        0 <= i < s.len(),
    ensures
        digits_val(s.take(i + 1)) == digits_val(s.take(i)) * 10 + digit_val(s[i]),
{
    assert(s.take(i + 1).drop_last() =~= s.take(i));
    assert(s.take(i + 1).last() == s[i]);
}

/// A digit string's value only grows as more digits are read.
pub proof fn lemma_digits_val_prefix_le(s: Seq<char>, i: int, j: int)
    requires
        all_digits(s),
        0 <= i <= j <= s.len(),
    ensures
        digits_val(s.take(i)) <= digits_val(s.take(j)),
    decreases j - i,
{
    if i < j {
        lemma_digits_val_prefix_le(s, i, j - 1);
        assert(all_digits(s.take(j - 1))) by {
            assert(forall|k: int|
                0 <= k < j - 1 ==> s.take(j - 1)[k] == #[trigger] s[k]);
        }
        lemma_digits_val_bound(s.take(j - 1));
        lemma_digits_val_step(s, j - 1);
    }
}

/// Powers of ten are at least one.
pub proof fn lemma_pow10_pos(n: int)
    ensures
        pow10(n) >= 1,
    decreases (if n <= 0 { 0 } else { n }),
{
    if n > 0 {
        lemma_pow10_pos(n - 1);
    }
}

/// Powers of ten grow with the exponent.
pub proof fn lemma_pow10_le(a: int, b: int)
    requires
        a <= b,
    ensures
        pow10(a) <= pow10(b),
    decreases (if b <= 0 { 0 } else { b }),
{
    if a < b && b > 0 {
        lemma_pow10_le(a, b - 1);
        lemma_pow10_pos(b - 1);
    }
}

/// Powers of ten multiply by adding exponents.
pub proof fn lemma_pow10_split(a: int, b: int)
    requires
        0 <= a,
        0 <= b,
    ensures
        pow10(a) * pow10(b) == pow10(a + b),
    decreases a,
{
    if a > 0 {
        lemma_pow10_split(a - 1, b);
        assert((10 * pow10(a - 1)) * pow10(b) == 10 * (pow10(a - 1) * pow10(b)))
            by (nonlinear_arith);
    }
}

/// The ninth power of ten, spelled out.
pub proof fn lemma_pow10_9()
    ensures
        pow10(9) == 1_000_000_000,
{
    reveal_with_fuel(pow10, 10);
}

/// The characters of a string, in order, as a vector.
pub fn str_to_chars(s: &str) -> (v: Vec<char>)
    ensures
        v@ == s@,
{
    let n = s.unicode_len();
    let mut v: Vec<char> = Vec::new();
    let mut i: usize = 0;
    while i < n
        invariant
            i <= n,
            n == s@.len(),
            v@ =~= s@.take(i as int),
        decreases n - i,
    {
        v.push(s.get_char(i));
        assert(v@ =~= s@.take(i + 1));
        i = i + 1;
    }
    assert(v@ =~= s@);
    v
}

/// The characters of `cs` from `lo` (inclusive) to `hi` (exclusive).
pub fn slice_range(cs: &Vec<char>, lo: usize, hi: usize) -> (v: Vec<char>)
    requires
        lo <= hi <= cs@.len(),
    ensures
        v@ == cs@.subrange(lo as int, hi as int),
{
    let mut v: Vec<char> = Vec::new();
    let mut i: usize = lo;
    while i < hi
        invariant
            lo <= i <= hi <= cs@.len(),
            v@ =~= cs@.subrange(lo as int, i as int),
        decreases hi - i,
    {
        v.push(cs[i]);
        assert(v@ =~= cs@.subrange(lo as int, i + 1));
        i = i + 1;
    }
    assert(v@ =~= cs@.subrange(lo as int, hi as int));
    v
}

/// The characters of `cs` after position `i`: the right half of a split at
/// a separator.
pub fn slice_after(cs: &Vec<char>, i: usize) -> (v: Vec<char>)
    requires
        i < cs@.len(),
    ensures
        v@ == cs@.subrange(i + 1, cs@.len() as int),
{
    let n = cs.len();
    slice_range(cs, i + 1, n)
}

/// True if `c` is ASCII whitespace; the executable mirror of `is_space`.
fn is_space_char(c: char) -> (r: bool)
    ensures
        r == is_space(c),
{
    c == ' ' || c == '\t' || c == '\n' || c == '\r'
}

/// Dropping a run of leading spaces realizes `trim_front` as a subrange.
proof fn lemma_trim_front_subrange(s: Seq<char>, i: int)
    requires
        0 <= i <= s.len(),
        forall|j: int| 0 <= j < i ==> is_space(#[trigger] s[j]),
        i == s.len() || !is_space(s[i]),
    ensures
        trim_front(s) =~= s.subrange(i, s.len() as int),
    decreases i,
{
    if i == 0 {
        assert(s.subrange(0, s.len() as int) =~= s);
    } else {
        let t = s.drop_first();
        assert(forall|j: int| 0 <= j < i - 1 ==> is_space(#[trigger] t[j]));
        lemma_trim_front_subrange(t, i - 1);
        assert(t.subrange(i - 1, t.len() as int) =~= s.subrange(i, s.len() as int));
    }
}

/// Dropping a run of trailing spaces realizes `trim_back` as a subrange.
proof fn lemma_trim_back_subrange(s: Seq<char>, i: int)
    requires
        0 <= i <= s.len(),
        forall|j: int| i <= j < s.len() ==> is_space(#[trigger] s[j]),
        i == 0 || !is_space(s[i - 1]),
    ensures
        trim_back(s) =~= s.subrange(0, i),
    decreases s.len() - i,
{
    if i == s.len() {
        assert(s.subrange(0, s.len() as int) =~= s);
    } else {
        let t = s.drop_last();
        lemma_trim_back_subrange(t, i);
        assert(t.subrange(0, i) =~= s.subrange(0, i));
    }
}

/// A copy of `cs` with whitespace removed from both ends.
pub fn trim_chars(cs: &Vec<char>) -> (v: Vec<char>)
    ensures
        v@ == spec_trim(cs@),
{
    let n = cs.len();
    let mut lo: usize = 0;
    while lo < n && is_space_char(cs[lo])
        invariant
            lo <= n,
            n == cs@.len(),
            forall|j: int| 0 <= j < lo ==> is_space(#[trigger] cs@[j]),
        decreases n - lo,
    {
        lo = lo + 1;
    }
    proof {
        lemma_trim_front_subrange(cs@, lo as int);
    }
    let mut hi: usize = n;
    while hi > lo && is_space_char(cs[hi - 1])
        invariant
            lo <= hi <= n,
            n == cs@.len(),
            forall|j: int| hi <= j < n ==> is_space(#[trigger] cs@[j]),
        decreases hi,
    {
        hi = hi - 1;
    }
    proof {
        let front = cs@.subrange(lo as int, n as int);
        assert(forall|j: int|
            hi - lo <= j < front.len() ==> is_space(#[trigger] front[j]));
        lemma_trim_back_subrange(front, hi - lo);
        assert(front.subrange(0, hi - lo) =~= cs@.subrange(lo as int, hi as int));
    }
    slice_range(cs, lo, hi)
}

/// Index of the first occurrence of `c` in `cs`, if any.
pub fn find_char_at(cs: &Vec<char>, c: char) -> (r: Option<usize>)
    ensures
        match r {
            Some(i) => find_char(cs@, c) == i && i < cs@.len(),
            None => find_char(cs@, c) == -1,
        },
{
    let n = cs.len();
    let mut i: usize = 0;
    while i < n
        invariant
            i <= n,
            n == cs@.len(),
            forall|j: int| 0 <= j < i ==> cs@[j] != c,
        decreases n - i,
    {
        if cs[i] == c {
            proof {
                lemma_find_char(cs@, c);
                let r = find_char(cs@, c);
                assert(r != -1);
                assert(!(r < i) && !(r > i));
            }
            return Some(i);
        }
        i = i + 1;
    }
    proof {
        lemma_find_char(cs@, c);
    }
    None
}

/// Base-10 value of `cs`, when `cs` is a non-empty digit run whose value
/// fits in a `u64`; `None` exactly otherwise.
pub fn parse_u64_chars(cs: &Vec<char>) -> (r: Option<u64>)
    ensures
        r is Some <==> is_u64_digits(cs@),
        r is Some ==> r->0 == digits_val(cs@),
{
    let n = cs.len();
    if n == 0 {
        return None;
    }
    let mut val: u64 = 0;
    let mut i: usize = 0;
    while i < n
        invariant
            i <= n,
            n == cs@.len(),
            all_digits(cs@.take(i as int)),
            val == digits_val(cs@.take(i as int)),
        decreases n - i,
    {
        let c = cs[i];
        if !('0' <= c && c <= '9') {
            assert(!all_digits(cs@));
            return None;
        }
        let d: u64 = (c as u32 - '0' as u32) as u64;
        assert(d == digit_val(c));
        proof {
            lemma_digits_val_step(cs@, i as int);
        }
        let wide: u128 = (val as u128) * 10 + (d as u128);
        if wide > u64::MAX as u128 {
            proof {
                if all_digits(cs@) {
                    lemma_digits_val_prefix_le(cs@, i + 1, n as int);
                    assert(cs@.take(n as int) =~= cs@);
                }
            }
            return None;
        }
        val = (val * 10) + d;
        i = i + 1;
    }
    assert(cs@.take(n as int) =~= cs@);
    Some(val)
}

/// Base-10 value of `cs`, when `cs` is a non-empty digit run whose value
/// fits in a `u32`; `None` exactly otherwise.
pub fn parse_u32_chars(cs: &Vec<char>) -> (r: Option<u32>)
    ensures
        r is Some <==> is_u32_digits(cs@),
        r is Some ==> r->0 == digits_val(cs@),
{
    match parse_u64_chars(cs) {
        Some(v) => if v <= u32::MAX as u64 {
            Some(v as u32)
        } else {
            None
        },
        None => None,
    }
}

/// 10 to the power `n` for small `n`.
fn pow10_u64(n: usize) -> (r: u64)
    requires
        n <= 9,
    ensures
        r == pow10(n as int),
{
    proof {
        reveal_with_fuel(pow10, 10);
    }
    if n == 0 {
        1
    } else if n == 1 {
        10
    } else if n == 2 {
        100
    } else if n == 3 {
        1_000
    } else if n == 4 {
        10_000
    } else if n == 5 {
        100_000
    } else if n == 6 {
        1_000_000
    } else if n == 7 {
        10_000_000
    } else if n == 8 {
        100_000_000
    } else {
        1_000_000_000
    }
}

/// Value of a fractional digit run in 10^-9 units of the whole; `None`
/// exactly when some character is not a digit. The empty run reads as 0.
pub fn parse_frac_e9(cs: &Vec<char>) -> (r: Option<u64>)
    ensures
        r is Some <==> all_digits(cs@),
        r is Some ==> r->0 == frac_val_e9(cs@) && r->0 < 1_000_000_000,
{
    let n = cs.len();
    let mut i: usize = 0;
    while i < n
        invariant
            i <= n,
            n == cs@.len(),
            forall|j: int| 0 <= j < i ==> is_digit(#[trigger] cs@[j]),
        decreases n - i,
    {
        let c = cs[i];
        if !('0' <= c && c <= '9') {
            assert(!all_digits(cs@));
            return None;
        }
        i = i + 1;
    }
    assert(all_digits(cs@));
    let k: usize = if n >= 9 {
        9
    } else {
        n
    };
    let mut val: u64 = 0;
    let mut j: usize = 0;
    while j < k
        invariant
            j <= k <= 9,
            k <= n,
            n == cs@.len(),
            all_digits(cs@),
            val == digits_val(cs@.take(j as int)),
        decreases k - j,
    {
        let c = cs[j];
        let d: u64 = (c as u32 - '0' as u32) as u64;
        proof {
            lemma_digits_val_step(cs@, j as int);
            let t = cs@.take(j + 1);
            assert(all_digits(t)) by {
                assert(forall|m: int| 0 <= m < t.len() ==> t[m] == #[trigger] cs@[m]);
            }
            lemma_digits_val_bound(t);
            lemma_pow10_le(j + 1, 9);
            lemma_pow10_9();
        }
        val = (val * 10) + d;
        j = j + 1;
    }
    proof {
        let t = cs@.take(k as int);
        assert(all_digits(t)) by {
            assert(forall|m: int| 0 <= m < t.len() ==> t[m] == #[trigger] cs@[m]);
        }
        lemma_digits_val_bound(t);
        lemma_pow10_le(k as int, 9);
        lemma_pow10_9();
    }
    if n >= 9 {
        Some(val)
    } else {
        assert(cs@.take(n as int) =~= cs@);
        let mult = pow10_u64(9 - n);
        proof {
            lemma_digits_val_bound(cs@);
            lemma_pow10_pos(9 - n as int);
            lemma_pow10_split(n as int, 9 - n as int);
            lemma_pow10_9();
            assert(val * mult <= (pow10(n as int) - 1) * pow10(9 - n as int))
                by (nonlinear_arith)
                requires
                    val <= pow10(n as int) - 1,
                    mult == pow10(9 - n as int),
                    mult >= 1,
                    val >= 0,
            ;
            assert((pow10(n as int) - 1) * pow10(9 - n as int) == pow10(n as int) * pow10(
                9 - n as int,
            ) - pow10(9 - n as int)) by (nonlinear_arith);
        }
        Some(val * mult)
    }
}

} // verus!
