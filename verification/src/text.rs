use vstd::prelude::*;
use vstd::string::*;

verus! {

/// `c` is one of the ASCII digits `0` to `9`.
pub open spec fn is_digit(c: char) -> bool {
    48 <= (c as int) && (c as int) <= 57
}

/// The value of an ASCII digit.
pub open spec fn digit_value(c: char) -> nat {
    ((c as int) - 48) as nat
}

/// The ASCII digit of a value below ten.
pub open spec fn digit_char(d: nat) -> char {
    (48 + d) as char
}

pub open spec fn all_digits(s: Seq<char>) -> bool {
    forall|i: int| 0 <= i < s.len() ==> is_digit(#[trigger] s[i])
}

/// The number that a string of decimal digits writes, most significant digit first.
pub open spec fn digits_value(s: Seq<char>) -> nat
    decreases s.len(),
{
    if s.len() == 0 {
        0
    } else {
        digits_value(s.drop_last()) * 10 + digit_value(s.last())
    }
}

/// The digits of an unsigned number as written in text: a leading `+` may stand before them.
pub open spec fn unsigned_body(s: Seq<char>) -> Seq<char> {
    if s.len() > 0 && s[0] == '+' {
        s.drop_first()
    } else {
        s
    }
}

/// The unsigned number written by `s` (an optional `+`, then one or more decimal digits),
/// provided it is at most `max`; `None` for any other text.
pub open spec fn parse_unsigned(s: Seq<char>, max: nat) -> Option<nat> {
    let d = unsigned_body(s);
    if d.len() > 0 && all_digits(d) && digits_value(d) <= max {
        Some(digits_value(d))
    } else {
        None
    }
}

/// The decimal writing of `n`, without leading zeros.
pub open spec fn decimal(n: nat) -> Seq<char>
    decreases n,
{
    if n < 10 {
        seq![digit_char(n)]
    } else {
        decimal(n / 10).push(digit_char(n % 10))
    }
}

/// Joins a relative or absolute path component onto a base path with `/` as the
/// separator: an absolute component replaces the base, and no separator is doubled.
pub open spec fn join_path(base: Seq<char>, part: Seq<char>) -> Seq<char> {
    if part.len() > 0 && part[0] == '/' {
        part
    } else if base.len() == 0 || base.last() == '/' {
        base + part
    } else {
        base + seq!['/'] + part
    }
}

pub open spec fn min_nat(a: nat, b: nat) -> nat {
    if a <= b { a } else { b }
}

/// The decimal writing of a number is a non-empty string of digits that reads back as it.
pub proof fn lemma_decimal_digits(n: nat)
    ensures
        decimal(n).len() > 0,
        all_digits(decimal(n)),
        decimal(n)[0] != '+',
        digits_value(decimal(n)) == n,
    decreases n,
{
    if n < 10 {
        assert(decimal(n) == seq![digit_char(n)]);
        assert(decimal(n).drop_last() =~= Seq::<char>::empty());
        assert(digit_value(digit_char(n)) == n);
        assert(digits_value(decimal(n)) == digits_value(decimal(n).drop_last()) * 10 + digit_value(
            decimal(n).last(),
        ));
    } else {
        lemma_decimal_digits(n / 10);
        let s = decimal(n);
        assert(s.drop_last() =~= decimal(n / 10));
        assert(s.last() == digit_char(n % 10));
        assert(digit_value(digit_char(n % 10)) == n % 10);
        assert(digits_value(s) == digits_value(s.drop_last()) * 10 + digit_value(s.last()));
        assert(n == (n / 10) * 10 + n % 10);
        assert forall|i: int| 0 <= i < s.len() implies is_digit(#[trigger] s[i]) by {
            if i < s.len() - 1 {
                assert(s[i] == decimal(n / 10)[i]);
            }
        }
    }
}

/// The decimal writing of a number holds no character `c` other than a digit.
pub proof fn lemma_decimal_has_no(n: nat, c: char)
    requires
        !is_digit(c),
    ensures
        first_index_of(decimal(n), c) == decimal(n).len(),
{
    lemma_decimal_digits(n);
    lemma_first_index_of(decimal(n), c, decimal(n).len());
}

/// Writing a number in decimal and reading it back gives the number again.
pub proof fn lemma_parse_decimal(n: nat, max: nat)
    requires
        n <= max,
    ensures
        parse_unsigned(decimal(n), max) == Some(n),
{
    lemma_decimal_digits(n);
}


/// The position of the first `c` in `s`, or the length of `s` where there is none.
pub open spec fn first_index_of(s: Seq<char>, c: char) -> nat
    decreases s.len(),
{
    if s.len() == 0 {
        0
    } else if s[0] == c {
        0
    } else {
        1 + first_index_of(s.drop_first(), c)
    }
}

/// The second of the pieces that `s` falls into when cut at each `sep`
/// (`s.split(sep).nth(1)`); `None` where `s` holds no `sep`.
pub open spec fn second_field(s: Seq<char>, sep: char) -> Option<Seq<char>> {
    let k = first_index_of(s, sep);
    if k == s.len() {
        None
    } else {
        let rest = s.skip(k + 1 as int);
        Some(rest.take(first_index_of(rest, sep) as int))
    }
}

proof fn lemma_first_index_of(s: Seq<char>, c: char, k: nat)
    requires
        k <= s.len(),
        forall|j: int| 0 <= j < k ==> s[j] != c,
        k == s.len() || s[k as int] == c,
    ensures
        first_index_of(s, c) == k,
    decreases k,
{
    if k > 0 {
        lemma_first_index_of(s.drop_first(), c, (k - 1) as nat);
    }
}

/// Where the first `c` of `s` stands: within `s`, at a `c`, with no `c` before it.
pub proof fn lemma_first_index_of_bound(s: Seq<char>, c: char)
    ensures
        first_index_of(s, c) <= s.len(),
        first_index_of(s, c) < s.len() ==> s[first_index_of(s, c) as int] == c,
        forall|j: int| 0 <= j < first_index_of(s, c) ==> s[j] != c,
    decreases s.len(),
{
    if s.len() > 0 && s[0] != c {
        lemma_first_index_of_bound(s.drop_first(), c);
        assert forall|j: int| 0 <= j < first_index_of(s, c) implies s[j] != c by {
            if j > 0 {
                assert(s[j] == s.drop_first()[j - 1]);
            }
        }
    }
}

/// The position of the first `c` in `s` (see `first_index_of`).
pub fn index_of_char(s: &str, c: char) -> (k: usize)
    ensures
        k as nat == first_index_of(s@, c),
        k <= s@.len(),
{
    let n = s.unicode_len();
    let mut i: usize = 0;
    while i < n
        invariant
            i <= n,
            n == s@.len(),
            forall|j: int| 0 <= j < i ==> s@[j] != c,
        decreases n - i,
    {
        if s.get_char(i) == c {
            proof {
                lemma_first_index_of(s@, c, i as nat);
            }
            return i;
        }
        i = i + 1;
    }
    proof {
        lemma_first_index_of(s@, c, i as nat);
    }
    i
}

/// The second piece of `s` cut at each `sep` (see `second_field`).
pub fn second_field_of<'a>(s: &'a str, sep: char) -> (r: Option<&'a str>)
    ensures
        match r {
            Some(f) => second_field(s@, sep) == Some(f@),
            None => second_field(s@, sep) is None,
        },
{
    let n = s.unicode_len();
    let k = index_of_char(s, sep);
    if k == n {
        return None;
    }
    let rest = s.substring_char(k + 1, n);
    let m = index_of_char(rest, sep);
    let f = rest.substring_char(0, m);
    assert(f@ =~= rest@.take(m as int));
    Some(f)
}

/// Whether the two strings hold the same characters.
pub fn str_eq(a: &str, b: &str) -> (r: bool)
    ensures
        r == (a@ == b@),
{
    let n = a.unicode_len();
    if n != b.unicode_len() {
        return false;
    }
    let mut i: usize = 0;
    while i < n
        invariant
            i <= n,
            n == a@.len(),
            n == b@.len(),
            forall|j: int| 0 <= j < i ==> a@[j] == b@[j],
        decreases n - i,
    {
        if a.get_char(i) != b.get_char(i) {
            return false;
        }
        i = i + 1;
    }
    assert(a@ =~= b@);
    true
}

/// Whether `s` begins with `prefix`.
pub fn starts_with(s: &str, prefix: &str) -> (r: bool)
    ensures
        r == (prefix@.len() <= s@.len() && s@.subrange(0, prefix@.len() as int) == prefix@),
{
    let n = prefix.unicode_len();
    if n > s.unicode_len() {
        return false;
    }
    let mut i: usize = 0;
    while i < n
        invariant
            i <= n,
            n == prefix@.len(),
            n <= s@.len(),
            forall|j: int| 0 <= j < i ==> s@[j] == prefix@[j],
        decreases n - i,
    {
        if s.get_char(i) != prefix.get_char(i) {
            return false;
        }
        i = i + 1;
    }
    assert(s@.subrange(0, n as int) =~= prefix@);
    true
}

/// Reads an unsigned number (an optional `+`, then decimal digits) that is at most `max`.
pub fn parse_unsigned_at_most(s: &str, max: u64) -> (r: Option<u64>)
    ensures
        match r {
            Some(v) => parse_unsigned(s@, max as nat) == Some(v as nat),
            None => parse_unsigned(s@, max as nat) is None,
        },
{
    let n = s.unicode_len();
    let mut start: usize = 0;
    if n > 0 && s.get_char(0) == '+' {
        start = 1;
    }
    proof {
        assert(unsigned_body(s@) =~= s@.subrange(start as int, n as int));
    }
    if start >= n {
        return None;
    }
    let bound: u128 = max as u128 + 1;
    let mut acc: u128 = 0;
    let mut i: usize = start;
    while i < n
        invariant
            start <= i <= n,
            n == s@.len(),
            bound == max + 1,
            unsigned_body(s@) == s@.subrange(start as int, n as int),
            all_digits(s@.subrange(start as int, i as int)),
            acc == min_nat(digits_value(s@.subrange(start as int, i as int)), bound as nat),
        decreases n - i,
    {
        let c = s.get_char(i);
        let cv = c as u32;
        if cv < 48 || cv > 57 {
            proof {
                let d = s@.subrange(start as int, n as int);
                assert(d[i - start] == c);
                assert(!is_digit(d[i - start]));
            }
            return None;
        }
        let next: u128 = acc * 10 + (cv - 48) as u128;
        proof {
            let p = s@.subrange(start as int, i as int);
            let q = s@.subrange(start as int, i + 1);
            assert(q.drop_last() =~= p);
            assert(q.last() == c);
            assert(digits_value(q) == digits_value(p) * 10 + digit_value(c));
        }
        acc = if next > bound { bound } else { next };
        i = i + 1;
    }
    if acc > max as u128 {
        None
    } else {
        Some(acc as u64)
    }
}

/// Reads a `u32` as `u32::from_str` does: an optional `+`, then decimal digits, in range.
pub fn parse_u32(s: &str) -> (r: Option<u32>)
    ensures
        match r {
            Some(v) => parse_unsigned(s@, u32::MAX as nat) == Some(v as nat),
            None => parse_unsigned(s@, u32::MAX as nat) is None,
        },
{
    match parse_unsigned_at_most(s, u32::MAX as u64) {
        Some(v) => Some(v as u32),
        None => None,
    }
}

/// Reads a `usize` as `usize::from_str` does: an optional `+`, then decimal digits, in range.
pub fn parse_usize(s: &str) -> (r: Option<usize>)
    ensures
        match r {
            Some(v) => parse_unsigned(s@, usize::MAX as nat) == Some(v as nat),
            None => parse_unsigned(s@, usize::MAX as nat) is None,
        },
{
    match parse_unsigned_at_most(s, usize::MAX as u64) {
        Some(v) => Some(v as usize),
        None => None,
    }
}

fn digit_str(d: u32) -> (r: &'static str)
    requires
        d < 10,
    ensures
        r@ == seq![digit_char(d as nat)],
{
    proof {
        reveal_strlit("0");
        reveal_strlit("1");
        reveal_strlit("2");
        reveal_strlit("3");
        reveal_strlit("4");
        reveal_strlit("5");
        reveal_strlit("6");
        reveal_strlit("7");
        reveal_strlit("8");
        reveal_strlit("9");
    }
    let r = if d == 0 {
        "0"
    } else if d == 1 {
        "1"
    } else if d == 2 {
        "2"
    } else if d == 3 {
        "3"
    } else if d == 4 {
        "4"
    } else if d == 5 {
        "5"
    } else if d == 6 {
        "6"
    } else if d == 7 {
        "7"
    } else if d == 8 {
        "8"
    } else {
        "9"
    };
    assert(r@ =~= seq![digit_char(d as nat)]);
    r
}

/// The decimal writing of `n`, as `n.to_string()` gives it.
pub fn decimal_string(n: u32) -> (r: String)
    ensures
        r@ == decimal(n as nat),
    decreases n,
{
    if n < 10 {
        String::from_str(digit_str(n))
    } else {
        let mut s = decimal_string(n / 10);
        s.append(digit_str(n % 10));
        s
    }
}

/// Joins `part` onto the path `base` (see `join_path`).
pub fn path_join(base: &str, part: &str) -> (r: String)
    ensures
        r@ == join_path(base@, part@),
{
    let n = base.unicode_len();
    if part.unicode_len() > 0 && part.get_char(0) == '/' {
        return String::from_str(part);
    }
    let mut s = String::from_str(base);
    if n > 0 && base.get_char(n - 1) != '/' {
        proof {
            reveal_strlit("/");
        }
        s.append("/");
    }
    s.append(part);
    s
}

} // verus!
