//! Character-level string helpers with specifications over `Seq<char>`.
use vstd::prelude::*;

verus! {

/// `p` is a prefix of `s`.
pub open spec fn seq_starts_with(s: Seq<char>, p: Seq<char>) -> bool {
    p.len() <= s.len() && s.subrange(0, p.len() as int) == p
}

/// `s` holds two consecutive dots somewhere.
pub open spec fn has_double_dot(s: Seq<char>) -> bool {
    exists|i: int| 0 <= i && i + 1 < s.len() && #[trigger] s[i] == '.' && s[i + 1] == '.'
}

/// Index of the last occurrence of `c` in `s`, or -1 when there is none.
pub open spec fn last_index_of(s: Seq<char>, c: char) -> int
    decreases s.len(),
{
    if s.len() == 0 {
        -1
    } else if s.last() == c {
        s.len() - 1
    } else {
        last_index_of(s.drop_last(), c)
    }
}

/// `s` with every trailing `c` removed.
pub open spec fn trim_end_char(s: Seq<char>, c: char) -> Seq<char>
    decreases s.len(),
{
    if s.len() > 0 && s.last() == c {
        trim_end_char(s.drop_last(), c)
    } else {
        s
    }
}

/// The lowercase hexadecimal digit for `d` (meaningful for `d < 16`).
pub open spec fn hex_digit(d: int) -> char {
    seq!['0', '1', '2', '3', '4', '5', '6', '7', '8', '9', 'a', 'b', 'c', 'd', 'e', 'f'][d]
}

/// Decimal digits of `n`, most significant first, without leading zeros.
pub open spec fn decimal(n: nat) -> Seq<char>
    decreases n,
{
    if n < 10 {
        seq![hex_digit(n as int)]
    } else {
        decimal(n / 10).push(hex_digit((n % 10) as int))
    }
}

/// The lowest `width` hexadecimal digits of `n`, most significant first.
pub open spec fn hex_fixed(n: nat, width: nat) -> Seq<char>
    decreases width,
{
    if width == 0 {
        Seq::empty()
    } else {
        hex_fixed(n / 16, (width - 1) as nat).push(hex_digit((n % 16) as int))
    }
}

/// `last_index_of` finds the last occurrence, or reports -1 for none.
pub proof fn lemma_last_index_of_bounds(s: Seq<char>, c: char)
    ensures
        -1 <= last_index_of(s, c) < s.len(),
        last_index_of(s, c) >= 0 ==> s[last_index_of(s, c)] == c,
        forall|j: int| last_index_of(s, c) < j < s.len() ==> s[j] != c,
    decreases s.len(),
{
    if s.len() > 0 && s.last() != c {
        lemma_last_index_of_bounds(s.drop_last(), c);
        assert forall|j: int| last_index_of(s, c) < j < s.len() implies s[j] != c by {
            if j < s.len() - 1 {
                assert(s.drop_last()[j] == s[j]);
            }
        }
    }
}

/// The single character `hex_digit(d)` as a string.
pub fn digit_str(d: u64) -> (r: &'static str)
    requires
        d < 16,
    ensures
        r@ == seq![hex_digit(d as int)],
{
    let all = "0123456789abcdef";
    proof {
        reveal_strlit("0123456789abcdef");
    }
    let r = all.substring_char(d as usize, (d + 1) as usize);
    assert(r@ =~= seq![hex_digit(d as int)]);
    r
}

/// Character `i` of `s`.
pub fn char_at(s: &str, i: usize) -> (c: char)
    requires
        i < s@.len(),
    ensures
        c == s@[i as int],
{
    s.get_char(i)
}

/// Number of characters in `s`.
pub fn char_len(s: &str) -> (n: usize)
    ensures
        n == s@.len(),
{
    s.unicode_len()
}

/// Whether `s` begins with `p`.
pub fn starts_with(s: &str, p: &str) -> (r: bool)
    ensures
        r == seq_starts_with(s@, p@),
{
    let n = char_len(s);
    let m = char_len(p);
    if m > n {
        return false;
    }
    let mut i: usize = 0;
    while i < m
        invariant
            m <= n,
            n == s@.len(),
            m == p@.len(),
            i <= m,
            forall|j: int| 0 <= j < i ==> s@[j] == p@[j],
        decreases m - i,
    {
        if char_at(s, i) != char_at(p, i) {
            assert(s@.subrange(0, m as int)[i as int] != p@[i as int]);
            return false;
        }
        i = i + 1;
    }
    assert(s@.subrange(0, m as int) =~= p@);
    true
}

/// Whether `s` holds the substring `..`.
pub fn contains_double_dot(s: &str) -> (r: bool)
    ensures
        r == has_double_dot(s@),
{
    let n = char_len(s);
    let mut i: usize = 0;
    while n > 0 && i < n - 1
        invariant
            n == s@.len(),
            i <= n,
            forall|j: int| 0 <= j < i && j + 1 < n ==> !(#[trigger] s@[j] == '.' && s@[j + 1] == '.'),
        decreases n - i,
    {
        if char_at(s, i) == '.' && char_at(s, i + 1) == '.' {
            return true;
        }
        i = i + 1;
    }
    assert forall|j: int| 0 <= j && j + 1 < s@.len() implies !(#[trigger] s@[j] == '.' && s@[j
        + 1] == '.') by {}
    false
}

/// Index of the last `c` in `s`.
pub fn rfind_char(s: &str, c: char) -> (r: Option<usize>)
    ensures
        match r {
            Some(i) => i == last_index_of(s@, c),
            None => last_index_of(s@, c) == -1,
        },
{
    proof {
        lemma_last_index_of_bounds(s@, c);
    }
    let n = char_len(s);
    let mut i: usize = n;
    while i > 0
        invariant
            n == s@.len(),
            i <= n,
            forall|j: int| i <= j < n ==> s@[j] != c,
        decreases i,
    {
        if char_at(s, i - 1) == c {
            proof {
                lemma_last_index_from_end(s@, c, (i - 1) as int);
            }
            return Some(i - 1);
        }
        i = i - 1;
    }
    proof {
        lemma_last_index_from_end(s@, c, -1);
    }
    None
}

/// When no `c` follows position `k` and `k` is `c` (or is -1), `k` is the last index of `c`.
proof fn lemma_last_index_from_end(s: Seq<char>, c: char, k: int)
    requires
        -1 <= k < s.len(),
        k >= 0 ==> s[k] == c,
        forall|j: int| k < j < s.len() ==> s[j] != c,
    ensures
        last_index_of(s, c) == k,
    decreases s.len(),
{
    if s.len() > 0 && k != s.len() - 1 {
        assert forall|j: int| k < j < s.drop_last().len() implies s.drop_last()[j] != c by {
            assert(s.drop_last()[j] == s[j]);
        }
        lemma_last_index_from_end(s.drop_last(), c, k);
    }
}

/// Characters `from..to` of `s` as a new string.
pub fn substring(s: &str, from: usize, to: usize) -> (r: String)
    requires
        from <= to <= s@.len(),
    ensures
        r@ == s@.subrange(from as int, to as int),
{
    String::from_str(s.substring_char(from, to))
}

/// `s` without its trailing `c` characters.
pub fn trim_end_matches_char(s: &str, c: char) -> (r: String)
    ensures
        r@ == trim_end_char(s@, c),
{
    let n = char_len(s);
    let mut k: usize = n;
    assert(s@.subrange(0, n as int) =~= s@);
    while k > 0 && char_at(s, k - 1) == c
        invariant
            n == s@.len(),
            k <= n,
            trim_end_char(s@.subrange(0, k as int), c) == trim_end_char(s@, c),
        decreases k,
    {
        proof {
            let t = s@.subrange(0, k as int);
            assert(t.drop_last() =~= s@.subrange(0, k - 1));
        }
        k = k - 1;
    }
    proof {
        let t = s@.subrange(0, k as int);
        if k > 0 {
            assert(t.last() == s@[k - 1]);
        }
    }
    substring(s, 0, k)
}

/// Decimal rendering of `n`.
pub fn decimal_string(n: u64) -> (r: String)
    ensures
        r@ == decimal(n as nat),
{
    let mut digits: Vec<u64> = Vec::new();
    let mut m: u64 = n;
    // digits are collected least significant first
    while m >= 10
        invariant
            forall|j: int| 0 <= j < digits.len() ==> digits[j] < 10,
            decimal(n as nat) == decimal(m as nat) + rev_digits(digits@),
        decreases m,
    {
        proof {
            assert(decimal(m as nat) == decimal((m / 10) as nat).push(hex_digit((m % 10) as int)));
            lemma_rev_digits_push(digits@, m % 10);
            assert(decimal((m / 10) as nat) + rev_digits(digits@.push(m % 10)) =~= decimal(
                (m / 10) as nat,
            ).push(hex_digit((m % 10) as int)) + rev_digits(digits@));
        }
        digits.push(m % 10);
        m = m / 10;
    }
    let mut r = String::from_str(digit_str(m));
    let mut k: usize = digits.len();
    assert(digits@.subrange(0, k as int) =~= digits@);
    while k > 0
        invariant
            k <= digits.len(),
            forall|j: int| 0 <= j < digits.len() ==> digits[j] < 10,
            decimal(n as nat) == r@ + rev_digits(digits@.subrange(0, k as int)),
        decreases k,
    {
        let d = digits[k - 1];
        proof {
            let pre = digits@.subrange(0, k as int);
            assert(pre =~= digits@.subrange(0, k - 1).push(d));
            lemma_rev_digits_push(digits@.subrange(0, k - 1), d);
            assert(r@ + rev_digits(pre) =~= (r@ + seq![hex_digit(d as int)]) + rev_digits(
                digits@.subrange(0, k - 1),
            ));
        }
        r.append(digit_str(d));
        k = k - 1;
    }
    assert(rev_digits(digits@.subrange(0, 0)) =~= Seq::<char>::empty());
    assert(r@ + Seq::<char>::empty() =~= r@);
    r
}

/// Digit characters of `ds`, last element first.
pub open spec fn rev_digits(ds: Seq<u64>) -> Seq<char>
    decreases ds.len(),
{
    if ds.len() == 0 {
        Seq::empty()
    } else {
        seq![hex_digit(ds.last() as int)] + rev_digits(ds.drop_last())
    }
}

proof fn lemma_rev_digits_push(ds: Seq<u64>, d: u64)
    ensures
        rev_digits(ds.push(d)) == seq![hex_digit(d as int)] + rev_digits(ds),
{
    assert(ds.push(d).drop_last() =~= ds);
}

/// The lowest sixteen hexadecimal digits of `n`, zero-padded, most significant first.
pub fn hex16_string(n: u64) -> (r: String)
    ensures
        r@ == hex_fixed(n as nat, 16),
        r@.len() == 16,
{
    let mut digits: Vec<u64> = Vec::new();
    let mut m: u64 = n;
    let mut w: u64 = 0;
    while w < 16
        invariant
            w <= 16,
            digits.len() == w,
            forall|j: int| 0 <= j < digits.len() ==> digits[j] < 16,
            hex_fixed(n as nat, 16) == hex_fixed(m as nat, (16 - w) as nat) + rev_digits(
                digits@,
            ),
        decreases 16 - w,
    {
        proof {
            assert(hex_fixed(m as nat, (16 - w) as nat) == hex_fixed(
                (m / 16) as nat,
                (16 - w - 1) as nat,
            ).push(hex_digit((m % 16) as int)));
            lemma_rev_digits_push(digits@, m % 16);
            assert(hex_fixed((m / 16) as nat, (16 - w - 1) as nat) + rev_digits(
                digits@.push(m % 16),
            ) =~= hex_fixed((m / 16) as nat, (16 - w - 1) as nat).push(hex_digit((m % 16) as int))
                + rev_digits(digits@));
        }
        digits.push(m % 16);
        m = m / 16;
        w = w + 1;
    }
    assert(hex_fixed(m as nat, 0) =~= Seq::<char>::empty());
    let mut r = String::new();
    let mut k: usize = 16;
    assert(digits@.subrange(0, 16) =~= digits@);
    assert(hex_fixed(m as nat, 0) + rev_digits(digits@) =~= r@ + rev_digits(digits@));
    while k > 0
        invariant
            k <= 16,
            digits.len() == 16,
            forall|j: int| 0 <= j < digits.len() ==> digits[j] < 16,
            hex_fixed(n as nat, 16) == r@ + rev_digits(digits@.subrange(0, k as int)),
            r@.len() + k == 16,
        decreases k,
    {
        let d = digits[k - 1];
        proof {
            let pre = digits@.subrange(0, k as int);
            assert(pre =~= digits@.subrange(0, k - 1).push(d));
            lemma_rev_digits_push(digits@.subrange(0, k - 1), d);
            assert(r@ + rev_digits(pre) =~= (r@ + seq![hex_digit(d as int)]) + rev_digits(
                digits@.subrange(0, k - 1),
            ));
        }
        r.append(digit_str(d));
        k = k - 1;
    }
    assert(rev_digits(digits@.subrange(0, 0)) =~= Seq::<char>::empty());
    assert(r@ + Seq::<char>::empty() =~= r@);
    r
}

} // verus!
