//! Decimal digit sequences: rendering an unsigned number as text, parsing
//! it back, and the round trip between the two.

use vstd::prelude::*;

verus! {

/// Whether `c` is one of the ten decimal digit characters.
pub open spec fn is_digit_char(c: char) -> bool {
    ||| c == '0'
    ||| c == '1'
    ||| c == '2'
    ||| c == '3'
    ||| c == '4'
    ||| c == '5'
    ||| c == '6'
    ||| c == '7'
    ||| c == '8'
    ||| c == '9'
}

/// The digit character for a value below ten.
pub open spec fn digit_char(d: int) -> char {
    if d == 0 {
        '0'
    } else if d == 1 {
        '1'
    } else if d == 2 {
        '2'
    } else if d == 3 {
        '3'
    } else if d == 4 {
        '4'
    } else if d == 5 {
        '5'
    } else if d == 6 {
        '6'
    } else if d == 7 {
        '7'
    } else if d == 8 {
        '8'
    } else {
        '9'
    }
}

/// The numeric value of a digit character; ten for any other character.
pub open spec fn digit_value(c: char) -> int {
    if c == '0' {
        0
    } else if c == '1' {
        1
    } else if c == '2' {
        2
    } else if c == '3' {
        3
    } else if c == '4' {
        4
    } else if c == '5' {
        5
    } else if c == '6' {
        6
    } else if c == '7' {
        7
    } else if c == '8' {
        8
    } else if c == '9' {
        9
    } else {
        10
    }
}

/// The decimal rendering of `n`, most significant digit first, with no
/// leading zeros except for `n == 0` itself.
pub open spec fn dec_digits(n: int) -> Seq<char>
    decreases n,
{
    if n < 10 {
        seq![digit_char(n)]
    } else {
        dec_digits(n / 10).push(digit_char(n % 10))
    }
}

/// The value of a digit sequence read most significant digit first.
pub open spec fn digits_value(ds: Seq<char>) -> int
    decreases ds.len(),
{
    if ds.len() == 0 {
        0
    } else {
        digits_value(ds.drop_last()) * 10 + digit_value(ds.last())
    }
}

/// How many leading characters of `s` are decimal digits.
pub open spec fn digit_run_len(s: Seq<char>) -> int
    decreases s.len(),
{
    if s.len() > 0 && is_digit_char(s[0]) {
        1 + digit_run_len(s.skip(1))
    } else {
        0
    }
}

/// Parses the longest leading digit run of `s` as a number: fails when the
/// run is empty or when its value does not fit in a `u64`; otherwise yields
/// the value and the text after the run.
pub open spec fn parse_number(s: Seq<char>) -> Option<(u64, Seq<char>)> {
    let k = digit_run_len(s);
    if k == 0 {
        None
    } else if digits_value(s.take(k)) > u64::MAX {
        None
    } else {
        Some((digits_value(s.take(k)) as u64, s.skip(k)))
    }
}

pub proof fn lemma_digit_run_len_le(s: Seq<char>)
    ensures
        0 <= digit_run_len(s) <= s.len(),
    decreases s.len(),
{
    if s.len() > 0 && is_digit_char(s[0]) {
        lemma_digit_run_len_le(s.skip(1));
    }
}

/// Every character inside the leading digit run is a digit.
pub proof fn lemma_digit_run_digits(s: Seq<char>)
    ensures
        forall|i: int| 0 <= i < digit_run_len(s) ==> is_digit_char(s[i]),
    decreases s.len(),
{
    if s.len() > 0 && is_digit_char(s[0]) {
        lemma_digit_run_digits(s.skip(1));
        lemma_digit_run_len_le(s.skip(1));
        assert forall|i: int| 0 <= i < digit_run_len(s) implies is_digit_char(s[i]) by {
            if i > 0 {
                assert(0 <= i - 1 < s.skip(1).len());
                assert(s.skip(1)[i - 1] == s[i]);
                assert(is_digit_char(s.skip(1)[i - 1]));
            }
        }
    }
}

/// The leading digit run is at least `p` long when the first `p` characters
/// are all digits.
pub proof fn lemma_digit_run_at_least(s: Seq<char>, p: int)
    requires
        0 <= p <= s.len(),
        forall|i: int| 0 <= i < p ==> is_digit_char(s[i]),
    ensures
        digit_run_len(s) >= p,
    decreases p,
{
    lemma_digit_run_len_le(s);
    if p > 0 {
        assert(is_digit_char(s[0]));
        assert forall|i: int| 0 <= i < p - 1 implies is_digit_char(s.skip(1)[i]) by {
            assert(s.skip(1)[i] == s[i + 1]);
        }
        lemma_digit_run_at_least(s.skip(1), p - 1);
        assert(digit_run_len(s) == 1 + digit_run_len(s.skip(1)));
    }
}

/// A run of digits followed by text that does not begin with a digit has
/// exactly the run as its leading digit run.
pub proof fn lemma_digit_run_of_concat(a: Seq<char>, b: Seq<char>)
    requires
        forall|i: int| 0 <= i < a.len() ==> is_digit_char(a[i]),
        b.len() == 0 || !is_digit_char(b[0]),
    ensures
        digit_run_len(a + b) == a.len(),
    decreases a.len(),
{
    if a.len() == 0 {
        assert(a + b =~= b);
    } else {
        assert((a + b)[0] == a[0]);
        assert((a + b).skip(1) =~= a.skip(1) + b);
        assert forall|i: int| 0 <= i < a.skip(1).len() implies is_digit_char(a.skip(1)[i]) by {
            assert(a.skip(1)[i] == a[i + 1]);
        }
        lemma_digit_run_of_concat(a.skip(1), b);
    }
}

pub proof fn lemma_digits_value_nonneg(ds: Seq<char>)
    requires
        forall|i: int| 0 <= i < ds.len() ==> is_digit_char(ds[i]),
    ensures
        digits_value(ds) >= 0,
    decreases ds.len(),
{
    if ds.len() > 0 {
        assert forall|i: int| 0 <= i < ds.drop_last().len() implies is_digit_char(
            ds.drop_last()[i],
        ) by {
            assert(ds.drop_last()[i] == ds[i]);
        }
        lemma_digits_value_nonneg(ds.drop_last());
    }
}

/// Extending a digit sequence to the right never shrinks its value.
pub proof fn lemma_digits_value_prefix_le(ds: Seq<char>, m: int)
    requires
        0 <= m <= ds.len(),
        forall|i: int| 0 <= i < ds.len() ==> is_digit_char(ds[i]),
    ensures
        digits_value(ds.take(m)) <= digits_value(ds),
    decreases ds.len() - m,
{
    if m == ds.len() {
        assert(ds.take(m) =~= ds);
    } else {
        let shorter = ds.drop_last();
        assert forall|i: int| 0 <= i < shorter.len() implies is_digit_char(shorter[i]) by {
            assert(shorter[i] == ds[i]);
        }
        assert(ds.take(m) =~= shorter.take(m));
        lemma_digits_value_prefix_le(shorter, m);
        lemma_digits_value_nonneg(shorter);
        assert(digits_value(ds) == digits_value(shorter) * 10 + digit_value(ds.last()));
        assert(digit_value(ds.last()) >= 0);
        assert(digits_value(shorter) * 10 >= digits_value(shorter));
    }
}

/// The decimal rendering consists of digits and is never empty.
pub proof fn lemma_dec_digits_are_digits(n: int)
    requires
        n >= 0,
    ensures
        dec_digits(n).len() >= 1,
        forall|i: int| 0 <= i < dec_digits(n).len() ==> is_digit_char(dec_digits(n)[i]),
    decreases n,
{
    if n < 10 {
        assert(is_digit_char(digit_char(n)));
    } else {
        lemma_dec_digits_are_digits(n / 10);
        assert forall|i: int| 0 <= i < dec_digits(n).len() implies is_digit_char(
            dec_digits(n)[i],
        ) by {
            if i < dec_digits(n / 10).len() {
                assert(dec_digits(n)[i] == dec_digits(n / 10)[i]);
            } else {
                assert(dec_digits(n)[i] == digit_char(n % 10));
            }
        }
    }
}

/// Reading the decimal rendering of `n` back gives `n`.
pub proof fn lemma_dec_digits_value(n: int)
    requires
        n >= 0,
    ensures
        digits_value(dec_digits(n)) == n,
    decreases n,
{
    if n < 10 {
        assert(dec_digits(n).drop_last() =~= Seq::<char>::empty());
        assert(dec_digits(n).last() == digit_char(n));
        assert(digits_value(Seq::<char>::empty()) == 0);
        assert(digits_value(dec_digits(n)) == digit_value(digit_char(n)));
        assert(digit_value(digit_char(n)) == n);
    } else {
        lemma_dec_digits_value(n / 10);
        let ds = dec_digits(n);
        assert(ds.drop_last() =~= dec_digits(n / 10));
        assert(ds.last() == digit_char(n % 10));
        assert(digit_value(digit_char(n % 10)) == n % 10);
        assert(digits_value(ds) == (n / 10) * 10 + n % 10);
    }
}

/// Parsing the decimal rendering of `n` followed by text that does not
/// begin with a digit recovers `n` exactly and stops at that text.
pub proof fn lemma_parse_number_of_decimal(n: u64, rest: Seq<char>)
    requires
        rest.len() == 0 || !is_digit_char(rest[0]),
    ensures
        parse_number(dec_digits(n as int) + rest) == Some((n, rest)),
{
    let ds = dec_digits(n as int);
    let s = ds + rest;
    lemma_dec_digits_are_digits(n as int);
    lemma_dec_digits_value(n as int);
    lemma_digit_run_of_concat(ds, rest);
    assert(s.take(ds.len() as int) =~= ds);
    assert(s.skip(ds.len() as int) =~= rest);
}

/// The digit character for a value below ten.
pub fn digit_char_exec(d: u64) -> (c: char)
    requires
        d < 10,
    ensures
        c == digit_char(d as int),
{
    if d == 0 {
        '0'
    } else if d == 1 {
        '1'
    } else if d == 2 {
        '2'
    } else if d == 3 {
        '3'
    } else if d == 4 {
        '4'
    } else if d == 5 {
        '5'
    } else if d == 6 {
        '6'
    } else if d == 7 {
        '7'
    } else if d == 8 {
        '8'
    } else {
        '9'
    }
}

fn is_digit_char_exec(c: char) -> (r: bool)
    ensures
        r == is_digit_char(c),
{
    c == '0' || c == '1' || c == '2' || c == '3' || c == '4' || c == '5' || c == '6' || c == '7'
        || c == '8' || c == '9'
}

fn digit_value_exec(c: char) -> (d: u64)
    requires
        is_digit_char(c),
    ensures
        d == digit_value(c),
{
    if c == '0' {
        0
    } else if c == '1' {
        1
    } else if c == '2' {
        2
    } else if c == '3' {
        3
    } else if c == '4' {
        4
    } else if c == '5' {
        5
    } else if c == '6' {
        6
    } else if c == '7' {
        7
    } else if c == '8' {
        8
    } else {
        9
    }
}

/// Appends the decimal rendering of `n` to `out`.
pub fn push_decimal(out: &mut Vec<char>, n: u64)
    ensures
        final(out)@ == old(out)@ + dec_digits(n as int),
    decreases n,
{
    if n < 10 {
        out.push(digit_char_exec(n));
        proof {
            assert(final(out)@ =~= old(out)@ + dec_digits(n as int));
        }
    } else {
        push_decimal(out, n / 10);
        out.push(digit_char_exec(n % 10));
        proof {
            assert((n / 10) as int == n as int / 10);
            assert((n % 10) as int == n as int % 10);
            assert(final(out)@ =~= old(out)@ + dec_digits(n as int));
        }
    }
}

/// Parses the digit run of `s` starting at position `i`, as `parse_number`
/// does on the text from that position.
pub fn parse_u64_at(s: &Vec<char>, i: usize) -> (r: Option<(u64, usize)>)
    requires
        i <= s@.len(),
    ensures
        match r {
            Some(p) => {
                &&& i < p.1 <= s@.len()
                &&& parse_number(s@.skip(i as int)) == Some((p.0, s@.skip(p.1 as int)))
            },
            None => parse_number(s@.skip(i as int)) is None,
        },
{
    let ghost tail = s@.skip(i as int);
    let mut j: usize = i;
    let mut acc: u64 = 0;
    while j < s.len() && is_digit_char_exec(s[j])
        invariant
            i <= j <= s@.len(),
            tail == s@.skip(i as int),
            forall|m: int| i <= m < j ==> is_digit_char(s@[m]),
            acc == digits_value(s@.subrange(i as int, j as int)),
        decreases s@.len() - j,
    {
        let d = digit_value_exec(s[j]);
        let ghost here = s@.subrange(i as int, j as int);
        let ghost ext = s@.subrange(i as int, j + 1 as int);
        proof {
            assert(ext.drop_last() =~= here);
            assert(ext.last() == s@[j as int]);
            assert(digits_value(ext) == acc * 10 + d);
        }
        let shifted = acc.checked_mul(10);
        let next = match shifted {
            Some(x) => x.checked_add(d),
            None => None,
        };
        match next {
            Some(y) => {
                acc = y;
            },
            None => {
                proof {
                    assert(digits_value(ext) > u64::MAX);
                    assert forall|m: int| 0 <= m < j + 1 - i implies is_digit_char(tail[m]) by {
                        assert(tail[m] == s@[i + m]);
                    }
                    lemma_digit_run_at_least(tail, j + 1 - i);
                    lemma_digit_run_len_le(tail);
                    lemma_digit_run_digits(tail);
                    let k = digit_run_len(tail);
                    assert(tail.take(k).take(j + 1 - i) =~= ext);
                    assert forall|m: int| 0 <= m < tail.take(k).len() implies is_digit_char(
                        tail.take(k)[m],
                    ) by {
                        assert(tail.take(k)[m] == tail[m]);
                    }
                    lemma_digits_value_prefix_le(tail.take(k), j + 1 - i);
                    assert(digits_value(tail.take(k)) > u64::MAX);
                }
                return None;
            },
        }
        j = j + 1;
    }
    proof {
        assert(tail =~= s@.subrange(i as int, j as int) + s@.skip(j as int));
        assert forall|m: int| 0 <= m < s@.subrange(i as int, j as int).len() implies is_digit_char(
            s@.subrange(i as int, j as int)[m],
        ) by {
            assert(s@.subrange(i as int, j as int)[m] == s@[i + m]);
        }
        if j < s@.len() {
            assert(s@.skip(j as int)[0] == s@[j as int]);
        }
        lemma_digit_run_of_concat(s@.subrange(i as int, j as int), s@.skip(j as int));
        assert(digit_run_len(tail) == j - i);
        assert(tail.take((j - i) as int) =~= s@.subrange(i as int, j as int));
        assert(tail.skip((j - i) as int) =~= s@.skip(j as int));
    }
    if j == i {
        return None;
    }
    Some((acc, j))
}

} // verus!
