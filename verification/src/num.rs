//! Decimal strings: parsing and formatting of unsigned integers, with
//! round-trip lemmas used by the device-number and mountinfo grammars.

use vstd::prelude::*;

verus! {

/// Is `c` an ASCII decimal digit?
pub open spec fn is_digit_char(c: char) -> bool {
    '0' <= c && c <= '9'
}

/// Numeric value of a digit character.
pub open spec fn digit_value(c: char) -> int {
    c as int - '0' as int
}

/// Every character of `s` is a decimal digit.
pub open spec fn all_digits(s: Seq<char>) -> bool {
    forall|i: int| 0 <= i < s.len() ==> is_digit_char(s[i])
}

/// The integer a digit string denotes (most significant digit first).
pub open spec fn decimal_value(s: Seq<char>) -> int
    decreases s.len(),
{
    if s.len() == 0 {
        0
    } else {
        decimal_value(s.drop_last()) * 10 + digit_value(s.last())
    }
}

/// A non-empty string of digits.
pub open spec fn is_decimal_string(s: Seq<char>) -> bool {
    s.len() > 0 && all_digits(s)
}

/// A digit string with no redundant leading zero: the unique decimal
/// representation of its value.
pub open spec fn is_canonical_decimal(s: Seq<char>) -> bool {
    is_decimal_string(s) && (s.len() > 1 ==> s[0] != '0')
}

/// The digit character for `d`, for `0 <= d <= 9`.
pub open spec fn digit_char_of(d: int) -> char {
    if d == 0 {
        '0'
    } else if d == 1 {
        '1'
    } else if d == 2 {
        '2'
    } else if d == 3 {
        '3'
    } else if d == 4 {
        '4'
    } else if d == 5 {
        '5'
    } else if d == 6 {
        '6'
    } else if d == 7 {
        '7'
    } else if d == 8 {
        '8'
    } else {
        '9'
    }
}

/// The canonical decimal representation of `n >= 0`.
pub open spec fn decimal_repr(n: int) -> Seq<char>
    decreases n,
{
    if n < 10 {
        seq![digit_char_of(n)]
    } else {
        decimal_repr(n / 10).push(digit_char_of(n % 10))
    }
}

/// 10 to the power `e`.
pub open spec fn pow10(e: nat) -> int
    decreases e,
{
    if e == 0 {
        1
    } else {
        10 * pow10((e - 1) as nat)
    }
}

/// A one-character digit string denotes that digit.
pub proof fn lemma_decimal_value_single(c: char)
    ensures
        decimal_value(seq![c]) == digit_value(c),
{
    let s = seq![c];
    assert(s.drop_last() =~= Seq::<char>::empty());
    assert(decimal_value(Seq::<char>::empty()) == 0);
    assert(s.last() == c);
}

pub proof fn lemma_decimal_value_nonneg(s: Seq<char>)
    requires
        all_digits(s),
    ensures
        decimal_value(s) >= 0,
    decreases s.len(),
{
    if s.len() > 0 {
        assert(all_digits(s.drop_last()));
        lemma_decimal_value_nonneg(s.drop_last());
    }
}

/// Reading one more digit multiplies the prefix value by ten and adds it.
pub proof fn lemma_decimal_value_step(s: Seq<char>, i: int)
    requires
        0 <= i < s.len(),
    ensures
        decimal_value(s.subrange(0, i + 1)) == decimal_value(s.subrange(0, i)) * 10 + digit_value(
            s[i],
        ),
{
    let p = s.subrange(0, i + 1);
    assert(p.drop_last() =~= s.subrange(0, i));
    assert(p.last() == s[i]);
}

/// A digit string's value only grows as more digits are read.
pub proof fn lemma_decimal_prefix_monotone(s: Seq<char>, i: int)
    requires
        all_digits(s),
        0 <= i <= s.len(),
    ensures
        decimal_value(s.subrange(0, i)) <= decimal_value(s),
    decreases s.len() - i,
{
    if i < s.len() {
        lemma_decimal_value_step(s, i);
        assert(all_digits(s.subrange(0, i)));
        lemma_decimal_value_nonneg(s.subrange(0, i));
        lemma_decimal_prefix_monotone(s, i + 1);
    } else {
        assert(s.subrange(0, i) =~= s);
    }
}

/// A digit string with a non-zero leading digit denotes at least
/// ten to its length less one.
pub proof fn lemma_leading_digit_lower_bound(s: Seq<char>)
    requires
        all_digits(s),
        s.len() >= 1,
        s[0] != '0',
    ensures
        decimal_value(s) >= pow10((s.len() - 1) as nat),
    decreases s.len(),
{
    if s.len() == 1 {
        assert(digit_value(s[0]) >= 1);
        assert(s =~= seq![s[0]]);
        lemma_decimal_value_single(s[0]);
        assert(pow10(0) == 1);
    } else {
        let d = s.drop_last();
        assert(all_digits(d));
        lemma_leading_digit_lower_bound(d);
        assert(digit_value(s.last()) >= 0);
        assert(pow10((s.len() - 1) as nat) == 10 * pow10((s.len() - 2) as nat));
    }
}

/// The canonical representation really denotes its argument.
pub proof fn lemma_decimal_repr_value(n: int)
    requires
        n >= 0,
    ensures
        is_canonical_decimal(decimal_repr(n)),
        decimal_value(decimal_repr(n)) == n,
    decreases n,
{
    if n < 10 {
        let s = decimal_repr(n);
        assert(s =~= seq![digit_char_of(n)]);
        lemma_decimal_value_single(digit_char_of(n));
        assert(digit_value(digit_char_of(n)) == n);
    } else {
        lemma_decimal_repr_value(n / 10);
        let r = decimal_repr(n / 10);
        let s = decimal_repr(n);
        assert(s == r.push(digit_char_of(n % 10)));
        assert(s.drop_last() =~= r);
        assert(s.last() == digit_char_of(n % 10));
        assert(digit_value(digit_char_of(n % 10)) == n % 10);
        assert(decimal_value(s) == (n / 10) * 10 + n % 10);
        assert((n / 10) * 10 + n % 10 == n) by {
            vstd::arithmetic::div_mod::lemma_fundamental_div_mod(n, 10);
        }
        assert(s[0] == r[0]);
        if r.len() > 1 {
            assert(r[0] != '0');
        } else {
            assert(n / 10 >= 1);
            assert(r =~= seq![r[0]]);
            lemma_decimal_value_single(r[0]);
            assert(digit_value(r[0]) == n / 10);
        }
    }
}

/// A canonical digit string is the representation of its value:
/// the representation is unique.
pub proof fn lemma_canonical_decimal_unique(s: Seq<char>)
    requires
        is_canonical_decimal(s),
    ensures
        decimal_repr(decimal_value(s)) == s,
    decreases s.len(),
{
    let v = decimal_value(s);
    lemma_decimal_value_nonneg(s);
    if s.len() == 1 {
        assert(s =~= seq![s[0]]);
        lemma_decimal_value_single(s[0]);
        assert(v == digit_value(s[0]));
        assert(v < 10);
        assert(digit_char_of(v) == s[0]);
        assert(decimal_repr(v) =~= s);
    } else {
        let d = s.drop_last();
        let last = s.last();
        assert(all_digits(d));
        assert(d[0] == s[0]);
        assert(is_canonical_decimal(d));
        lemma_decimal_value_nonneg(d);
        lemma_leading_digit_lower_bound(s);
        assert(pow10((s.len() - 1) as nat) >= 10) by {
            lemma_pow10_at_least_ten((s.len() - 1) as nat);
        }
        assert(v >= 10);
        assert(v == decimal_value(d) * 10 + digit_value(last));
        assert(0 <= digit_value(last) < 10);
        assert(v / 10 == decimal_value(d) && v % 10 == digit_value(last)) by {
            vstd::arithmetic::div_mod::lemma_fundamental_div_mod_converse(
                v,
                10,
                decimal_value(d),
                digit_value(last),
            );
        }
        lemma_canonical_decimal_unique(d);
        assert(digit_char_of(v % 10) == last);
        assert(decimal_repr(v) == decimal_repr(v / 10).push(digit_char_of(v % 10)));
        assert(decimal_repr(v) =~= s);
    }
}

proof fn lemma_pow10_at_least_ten(e: nat)
    requires
        e >= 1,
    ensures
        pow10(e) >= 10,
    decreases e,
{
    if e == 1 {
        assert(pow10(0) == 1);
    } else {
        lemma_pow10_at_least_ten((e - 1) as nat);
    }
}

/// Parse a digit string, accepting only values up to `max`.
/// Returns the denoted value exactly when `s` is a non-empty digit
/// string whose value does not exceed `max`.
pub fn parse_decimal(s: &str, max: u64) -> (r: Option<u64>)
    ensures
        match r {
            Some(v) => is_decimal_string(s@) && decimal_value(s@) == v && v <= max,
            None => !(is_decimal_string(s@) && decimal_value(s@) <= max),
        },
{
    let n = s.unicode_len();
    if n == 0 {
        return None;
    }
    let mut i: usize = 0;
    let mut acc: u64 = 0;
    while i < n
        invariant
            0 <= i <= n,
            n == s@.len(),
            all_digits(s@.subrange(0, i as int)),
            acc == decimal_value(s@.subrange(0, i as int)),
            acc <= max,
        decreases n - i,
    {
        let c = s.get_char(i);
        if c < '0' || c > '9' {
            assert(!all_digits(s@));
            return None;
        }
        let d: u64 = (c as u32 - '0' as u32) as u64;
        assert(d == digit_value(s@[i as int]));
        proof {
            lemma_decimal_value_step(s@, i as int);
        }
        if d > max || acc > (max - d) / 10 {
            proof {
                if d <= max {
                    assert(acc >= (max - d) / 10 + 1);
                    assert(acc * 10 >= ((max - d) / 10 + 1) * 10) by (nonlinear_arith)
                        requires
                            acc >= (max - d) / 10 + 1,
                    ;
                    assert(((max - d) / 10) * 10 + (max - d) % 10 == max - d) by {
                        vstd::arithmetic::div_mod::lemma_fundamental_div_mod(
                            (max - d) as int,
                            10,
                        );
                    }
                    assert(((max - d) / 10 + 1) * 10 == ((max - d) / 10) * 10 + 10);
                    assert(acc * 10 + d > max);
                }
                assert(decimal_value(s@.subrange(0, i as int + 1)) > max);
                assert(all_digits(s@.subrange(0, i as int)));
                if all_digits(s@) {
                    lemma_decimal_prefix_monotone(s@, i as int + 1);
                }
            }
            return None;
        }
        assert(acc <= (max - d) / 10);
        assert(acc * 10 <= ((max - d) / 10) * 10) by (nonlinear_arith)
            requires
                acc <= (max - d) / 10,
                acc >= 0,
        ;
        assert(((max - d) / 10) * 10 <= max - d) by {
            vstd::arithmetic::div_mod::lemma_fundamental_div_mod((max - d) as int, 10);
        }
        acc = acc * 10 + d;
        i = i + 1;
        assert(s@.subrange(0, i as int) == s@.subrange(0, i as int - 1).push(s@[i as int - 1]));
    }
    assert(s@.subrange(0, n as int) =~= s@);
    Some(acc)
}

/// The digit character for `d`, as a one-character string.
fn digit_string(d: u64) -> (r: String)
    requires
        d <= 9,
    ensures
        r@.len() == 1,
        r@[0] == digit_char_of(d as int),
{
    if d == 0 {
        proof {
            reveal_strlit("0");
        }
        String::from_str("0")
    } else if d == 1 {
        proof {
            reveal_strlit("1");
        }
        String::from_str("1")
    } else if d == 2 {
        proof {
            reveal_strlit("2");
        }
        String::from_str("2")
    } else if d == 3 {
        proof {
            reveal_strlit("3");
        }
        String::from_str("3")
    } else if d == 4 {
        proof {
            reveal_strlit("4");
        }
        String::from_str("4")
    } else if d == 5 {
        proof {
            reveal_strlit("5");
        }
        String::from_str("5")
    } else if d == 6 {
        proof {
            reveal_strlit("6");
        }
        String::from_str("6")
    } else if d == 7 {
        proof {
            reveal_strlit("7");
        }
        String::from_str("7")
    } else if d == 8 {
        proof {
            reveal_strlit("8");
        }
        String::from_str("8")
    } else {
        proof {
            reveal_strlit("9");
        }
        String::from_str("9")
    }
}

/// Format `n` as its canonical decimal string.
pub fn format_decimal(n: u64) -> (r: String)
    ensures
        r@ == decimal_repr(n as int),
    decreases n,
{
    if n < 10 {
        let r = digit_string(n);
        assert(r@ =~= decimal_repr(n as int));
        r
    } else {
        let mut r = format_decimal(n / 10);
        let last = digit_string(n % 10);
        r.append(last.as_str());
        assert(r@ =~= decimal_repr(n as int / 10).push(digit_char_of(n as int % 10)));
        r
    }
}

} // verus!
