//! Small verified string helpers shared by the other modules.

use vstd::prelude::*;

verus! {

/// Appends one character to a string.
///
/// Trusted: `String::push` appends the character at the end of the string,
/// as its documentation says.
#[verifier::external_body]
pub(crate) fn push_char(s: &mut String, c: char)
    ensures
        final(s)@ == old(s)@.push(c),
{
    s.push(c);
}

/// Builds a string from a literal.
pub(crate) fn string_of(s: &str) -> (r: String)
    ensures
        r@ == s@,
{
    s.to_owned()
}

/// Number of characters of a string.
pub(crate) fn char_count(s: &str) -> (n: usize)
    ensures
        n == s@.len(),
{
    s.unicode_len()
}

/// The character at position `i`.
pub(crate) fn char_at(s: &str, i: usize) -> (c: char)
    requires
        i < s@.len(),
    ensures
        c == s@[i as int],
{
    s.get_char(i)
}

/// Appends all characters of `t` to `s`.
pub(crate) fn push_str(s: &mut String, t: &str)
    ensures
        final(s)@ == old(s)@ + t@,
{
    let n = char_count(t);
    let ghost start = s@;
    let mut i: usize = 0;
    while i < n
        invariant
            n == t@.len(),
            i <= n,
            s@ == start + t@.subrange(0, i as int),
        decreases n - i,
    {
        let c = char_at(t, i);
        push_char(s, c);
        assert(t@.subrange(0, i + 1) =~= t@.subrange(0, i as int).push(c));
        i = i + 1;
    }
    assert(t@.subrange(0, n as int) =~= t@);
}

/// `pat` occurs in `s` starting at position `i`.
pub open spec fn occurs_at(s: Seq<char>, pat: Seq<char>, i: int) -> bool {
    0 <= i && i + pat.len() <= s.len() && s.subrange(i, i + pat.len()) == pat
}

/// `pat` occurs somewhere in `s` (the empty pattern occurs in every string).
pub open spec fn contains_seq(s: Seq<char>, pat: Seq<char>) -> bool {
    exists|i: int| occurs_at(s, pat, i)
}

fn occurs_at_exec(s: &str, n: usize, pat: &str, m: usize, i: usize) -> (b: bool)
    requires
        n == s@.len(),
        m == pat@.len(),
        i + m <= n,
    ensures
        b == occurs_at(s@, pat@, i as int),
{
    let mut j: usize = 0;
    while j < m
        invariant
            n == s@.len(),
            m == pat@.len(),
            i + m <= n,
            j <= m,
            forall|k: int| 0 <= k < j ==> s@[i + k] == pat@[k],
        decreases m - j,
    {
        if char_at(s, i + j) != char_at(pat, j) {
            assert(s@.subrange(i as int, i + m)[j as int] != pat@[j as int]);
            return false;
        }
        j = j + 1;
    }
    assert(s@.subrange(i as int, i + m) =~= pat@);
    true
}

/// Whether `pat` occurs in `s`, as `str::contains` with a string pattern.
pub fn contains(s: &str, pat: &str) -> (b: bool)
    ensures
        b == contains_seq(s@, pat@),
{
    let n = char_count(s);
    let m = char_count(pat);
    if m > n {
        assert forall|i: int| !occurs_at(s@, pat@, i) by {}
        return false;
    }
    let mut i: usize = 0;
    let last = n - m;
    loop
        invariant
            n == s@.len(),
            m == pat@.len(),
            m <= n,
            last == n - m,
            i <= last,
            forall|k: int| 0 <= k < i ==> !occurs_at(s@, pat@, k),
        ensures
            forall|k: int| 0 <= k <= last ==> !occurs_at(s@, pat@, k),
        decreases last - i,
    {
        if occurs_at_exec(s, n, pat, m, i) {
            return true;
        }
        if i == last {
            break;
        }
        i = i + 1;
    }
    assert forall|k: int| !occurs_at(s@, pat@, k) by {
        if 0 <= k && k <= last {
        }
    }
    false
}

/// The ASCII upper-case form of a character: `a`..`z` become `A`..`Z`,
/// every other character stays.
pub open spec fn upper_char(c: char) -> char {
    if 'a' <= c && c <= 'z' {
        ((c as int) - 32) as char
    } else {
        c
    }
}

/// The ASCII upper-case form of a string.
pub open spec fn upper_seq(s: Seq<char>) -> Seq<char> {
    s.map_values(|c: char| upper_char(c))
}

fn upper_char_exec(c: char) -> (r: char)
    ensures
        r == upper_char(c),
{
    if 'a' <= c && c <= 'z' {
        let v: u8 = c as u8 - 32;
        v as char
    } else {
        c
    }
}

/// Upper-cases the ASCII letters of `s`.
pub fn to_ascii_upper(s: &str) -> (r: String)
    ensures
        r@ == upper_seq(s@),
{
    let n = char_count(s);
    let mut r = String::new();
    let mut i: usize = 0;
    while i < n
        invariant
            n == s@.len(),
            i <= n,
            r@ == upper_seq(s@.subrange(0, i as int)),
        decreases n - i,
    {
        let c = char_at(s, i);
        let u = upper_char_exec(c);
        push_char(&mut r, u);
        assert(upper_seq(s@.subrange(0, i + 1)) =~= upper_seq(s@.subrange(0, i as int)).push(u));
        i = i + 1;
    }
    assert(s@.subrange(0, n as int) =~= s@);
    r
}

/// The decimal digit of value `d`.
pub open spec fn digit_char(d: nat) -> char {
    (d + 48) as char
}

/// The decimal form of `n`, without leading zeros.
pub open spec fn decimal(n: nat) -> Seq<char>
    decreases n,
{
    if n < 10 {
        seq![digit_char(n)]
    } else {
        decimal(n / 10).push(digit_char(n % 10))
    }
}

fn push_decimal(s: &mut String, n: u64)
    ensures
        final(s)@ == old(s)@ + decimal(n as nat),
    decreases n,
{
    if n >= 10 {
        push_decimal(s, n / 10);
    }
    let d: u8 = (n % 10) as u8;
    let c = (48u8 + d) as char;
    push_char(s, c);
    proof {
        if n >= 10 {
            assert(decimal(n as nat) == decimal((n / 10) as nat).push(digit_char((n % 10) as nat)));
        }
    }
}

/// The decimal form of `n`, as `to_string` writes it.
pub fn u64_to_decimal(n: u64) -> (r: String)
    ensures
        r@ == decimal(n as nat),
{
    let mut s = String::new();
    push_decimal(&mut s, n);
    assert(s@ =~= decimal(n as nat));
    s
}

/// An ASCII decimal digit.
pub open spec fn is_digit(c: char) -> bool {
    '0' <= c && c <= '9'
}

/// The value of a string of decimal digits.
pub open spec fn digits_value(s: Seq<char>) -> nat
    decreases s.len(),
{
    if s.len() == 0 {
        0
    } else {
        digits_value(s.drop_last()) * 10 + ((s.last() as int) - 48) as nat
    }
}

/// Every character is a decimal digit.
pub open spec fn all_digits(s: Seq<char>) -> bool {
    forall|i: int| 0 <= i < s.len() ==> is_digit(#[trigger] s[i])
}

/// What parsing `s` as a 64-bit unsigned integer gives: an optional `+`,
/// then one or more decimal digits, of a value that fits.
pub open spec fn parse_u64_spec(s: Seq<char>) -> Option<u64> {
    let d = if s.len() > 0 && s[0] == '+' {
        s.drop_first()
    } else {
        s
    };
    if d.len() > 0 && all_digits(d) && digits_value(d) <= u64::MAX {
        Some(digits_value(d) as u64)
    } else {
        None
    }
}

/// Parses `s` as a 64-bit unsigned integer, as `str::parse::<u64>` does.
pub fn parse_u64(s: &str) -> (r: Option<u64>)
    ensures
        r == parse_u64_spec(s@),
{
    let n = char_count(s);
    let mut i: usize = 0;
    if n > 0 && char_at(s, 0) == '+' {
        i = 1;
    }
    let start = i;
    let ghost d = s@.subrange(start as int, n as int);
    assert(d =~= if s@.len() > 0 && s@[0] == '+' { s@.drop_first() } else { s@ });
    if start == n {
        return None;
    }
    let mut acc: u64 = 0;
    while i < n
        invariant
            n == s@.len(),
            start <= i <= n,
            start < n,
            d == s@.subrange(start as int, n as int),
            d == if s@.len() > 0 && s@[0] == '+' {
                s@.drop_first()
            } else {
                s@
            },
            all_digits(s@.subrange(start as int, i as int)),
            acc == digits_value(s@.subrange(start as int, i as int)),
        decreases n - i,
    {
        let c = char_at(s, i);
        let ghost pre = s@.subrange(start as int, i as int);
        let ghost next = s@.subrange(start as int, i + 1);
        assert(next.drop_last() =~= pre);
        if !('0' <= c && c <= '9') {
            assert(!is_digit(d[i - start]));
            return None;
        }
        let v: u64 = (c as u32 - 48) as u64;
        assert(digits_value(next) == acc * 10 + v);
        match acc.checked_mul(10) {
            None => {
                proof {
                    if all_digits(d) {
                        assert(next =~= d.subrange(0, i + 1 - start));
                        lemma_digits_value_grows(d, i + 1 - start);
                    }
                }
                return None;
            },
            Some(m) => match m.checked_add(v) {
                None => {
                    proof {
                        if all_digits(d) {
                            assert(next =~= d.subrange(0, i + 1 - start));
                            lemma_digits_value_grows(d, i + 1 - start);
                        }
                    }
                    return None;
                },
                Some(a) => {
                    acc = a;
                },
            },
        }
        i = i + 1;
    }
    assert(s@.subrange(start as int, n as int) =~= d);
    Some(acc)
}

/// A longer prefix of digits is worth at least as much.
proof fn lemma_digits_value_grows(d: Seq<char>, k: int)
    requires
        0 <= k <= d.len(),
        all_digits(d.subrange(0, k)),
        all_digits(d),
    ensures
        digits_value(d.subrange(0, k)) <= digits_value(d),
    decreases d.len() - k,
{
    if k < d.len() {
        lemma_digits_value_grows(d, k + 1);
        assert(d.subrange(0, k + 1).drop_last() =~= d.subrange(0, k));
        assert(is_digit(d[k]));
    } else {
        assert(d.subrange(0, k) =~= d);
    }
}

/// The decimal form of a number parses back to it.
pub proof fn lemma_decimal_parses(n: u64)
    ensures
        parse_u64_spec(decimal(n as nat)) == Some(n),
{
    lemma_decimal_value(n as nat);
}

proof fn lemma_decimal_value(n: nat)
    ensures
        decimal(n).len() > 0,
        all_digits(decimal(n)),
        digits_value(decimal(n)) == n,
        decimal(n)[0] != '+',
    decreases n,
{
    if n >= 10 {
        lemma_decimal_value(n / 10);
        let prev = decimal(n / 10);
        assert(decimal(n).drop_last() =~= prev);
        assert(decimal(n)[0] == prev[0]);
        assert(decimal(n).last() == digit_char(n % 10));
        assert((digit_char(n % 10) as int) - 48 == n % 10);
        assert(digits_value(decimal(n)) == digits_value(prev) * 10 + n % 10);
        assert((n / 10) * 10 + n % 10 == n);
    } else {
        assert(decimal(n).drop_last() =~= Seq::<char>::empty());
        assert(digits_value(Seq::<char>::empty()) == 0);
        assert(decimal(n).last() == digit_char(n));
        assert((digit_char(n) as int) - 48 == n);
    }
}

/// Strings, seen.
pub open spec fn strs_view(v: Seq<String>) -> Seq<Seq<char>> {
    Seq::new(v.len(), |i: int| v[i]@)
}

/// An optional string, seen.
pub open spec fn opt_view(s: Option<String>) -> Option<Seq<char>> {
    match s {
        Some(t) => Some(t@),
        None => None,
    }
}

/// Key `k` is at position `i` of `keys` and nowhere before it.
pub open spec fn first_at(keys: Seq<Seq<char>>, k: Seq<char>, i: int) -> bool {
    &&& 0 <= i < keys.len()
    &&& keys[i] == k
    &&& forall|j: int| 0 <= j < i ==> keys[j] != k
}

/// The first position of `k` in `keys`.
pub open spec fn position(keys: Seq<Seq<char>>, k: Seq<char>) -> Option<int> {
    if exists|i: int| first_at(keys, k, i) {
        Some(choose|i: int| first_at(keys, k, i))
    } else {
        None
    }
}

/// The first position of a key is unique.
pub proof fn lemma_first_at(keys: Seq<Seq<char>>, k: Seq<char>, i: int)
    requires
        first_at(keys, k, i),
    ensures
        position(keys, k) == Some(i),
{
    let c = choose|x: int| first_at(keys, k, x);
    assert(c == i) by {
        if c < i {
            assert(keys[c] == k);
        } else if c > i {
            assert(keys[i] == k);
        }
    }
}

/// The first position of `k` in `keys`.
pub fn position_of(keys: &Vec<String>, k: &str) -> (r: Option<usize>)
    ensures
        match r {
            Some(i) => position(strs_view(keys@), k@) == Some(i as int),
            None => position(strs_view(keys@), k@) is None,
        },
{
    let ghost v = strs_view(keys@);
    let mut i: usize = 0;
    while i < keys.len()
        invariant
            v == strs_view(keys@),
            i <= keys@.len(),
            forall|j: int| 0 <= j < i ==> v[j] != k@,
        decreases keys@.len() - i,
    {
        if crate::plist::str_eq(keys[i].as_str(), k) {
            proof {
                lemma_first_at(v, k@, i as int);
            }
            return Some(i);
        }
        i = i + 1;
    }
    assert(!exists|x: int| first_at(v, k@, x));
    None
}

/// Whether two strings are equal.
pub fn str_eq_string(a: &String, b: &String) -> (r: bool)
    ensures
        r == (a@ == b@),
{
    crate::plist::str_eq(a.as_str(), b.as_str())
}

} // verus!
