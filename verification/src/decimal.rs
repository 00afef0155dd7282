//! Decimal numerals: writing a number as digits and reading digits as a number.

use vstd::prelude::*;
use vstd::string::*;

verus! {

/// The character that stands for the digit `d`; `'0'` where `d` is no digit.
pub open spec fn digit_char(d: int) -> char {
    if d == 1 {
        '1'
    } else if d == 2 {
        '2'
    } else if d == 3 {
        '3'
    } else if d == 4 {
        '4'
    } else if d == 5 {
        '5'
    } else if d == 6 {
        '6'
    } else if d == 7 {
        '7'
    } else if d == 8 {
        '8'
    } else if d == 9 {
        '9'
    } else {
        '0'
    }
}

/// Whether `c` is one of the ten ASCII digits.
pub open spec fn is_digit(c: char) -> bool {
    '0' <= c <= '9'
}

/// The number a digit stands for.
pub open spec fn digit_value(c: char) -> int {
    c as u32 - '0' as u32
}

/// The shortest decimal numeral of `n`: no sign, no leading zero but for `0` itself.
pub open spec fn decimal(n: nat) -> Seq<char>
    decreases n,
{
    if n < 10 {
        seq![digit_char(n as int)]
    } else {
        decimal(n / 10).push(digit_char((n % 10) as int))
    }
}

/// Whether every character of `s` is a digit.
pub open spec fn all_digits(s: Seq<char>) -> bool {
    forall|i: int| 0 <= i < s.len() ==> is_digit(#[trigger] s[i])
}

/// The number that a run of digits denotes, the leftmost digit weighing most.
pub open spec fn digits_value(s: Seq<char>) -> nat
    decreases s.len(),
{
    if s.len() == 0 {
        0
    } else {
        (digits_value(s.drop_last()) * 10 + digit_value(s.last())) as nat
    }
}

/// The digits of a numeral: the numeral itself, less one leading `+` if it has one.
pub open spec fn unsigned_part(s: Seq<char>) -> Seq<char> {
    if s.len() > 0 && s[0] == '+' {
        s.skip(1)
    } else {
        s
    }
}

/// The number that `s` denotes: an optional `+`, then one or more digits and
/// nothing else. `None` for any other text.
pub open spec fn parse_decimal(s: Seq<char>) -> Option<nat> {
    let d = unsigned_part(s);
    if d.len() > 0 && all_digits(d) {
        Some(digits_value(d))
    } else {
        None
    }
}

/// A longer run of digits denotes no smaller a number than its prefix.
pub proof fn lemma_digits_value_prefix(s: Seq<char>, k: int)
    requires
        0 <= k <= s.len(),
        all_digits(s),
    ensures
        digits_value(s.take(k)) <= digits_value(s),
    decreases s.len(),
{
    if k == s.len() {
        assert(s.take(k) =~= s);
    } else {
        let t = s.drop_last();
        assert(all_digits(t)) by {
            assert forall|i: int| 0 <= i < t.len() implies is_digit(#[trigger] t[i]) by {
                assert(t[i] == s[i]);
            }
        }
        lemma_digits_value_prefix(t, k);
        assert(t.take(k) =~= s.take(k));
        assert(is_digit(s[s.len() - 1]));
    }
}

/// The one-character text of a digit.
fn digit_str(d: u64) -> (s: &'static str)
    requires
        d < 10,
    ensures
        s@ == seq![digit_char(d as int)],
{
    proof {
        reveal_strlit("0");
        reveal_strlit("1");
        reveal_strlit("2");
        reveal_strlit("3");
        reveal_strlit("4");
        reveal_strlit("5");
        reveal_strlit("6");
        reveal_strlit("7");
        reveal_strlit("8");
        reveal_strlit("9");
    }
    let s = if d == 0 {
        "0"
    } else if d == 1 {
        "1"
    } else if d == 2 {
        "2"
    } else if d == 3 {
        "3"
    } else if d == 4 {
        "4"
    } else if d == 5 {
        "5"
    } else if d == 6 {
        "6"
    } else if d == 7 {
        "7"
    } else if d == 8 {
        "8"
    } else {
        "9"
    };
    assert(s@ =~= seq![digit_char(d as int)]);
    s
}

/// Writes `n` as a decimal numeral.
pub fn decimal_string(n: u64) -> (s: String)
    ensures
        s@ == decimal(n as nat),
    decreases n,
{
    if n < 10 {
        String::from_str(digit_str(n))
    } else {
        let mut s = decimal_string(n / 10);
        s.append(digit_str(n % 10));
        s
    }
}

/// Reads the numeral in `s[from..to]`. `None` where the text is no numeral or
/// the number does not fit in a `usize`.
pub fn parse_usize(s: &[char], from: usize, to: usize) -> (r: Option<usize>)
    requires
        from <= to <= s.len(),
    ensures
        r == match parse_decimal(s@.subrange(from as int, to as int)) {
            Some(v) => if v <= usize::MAX {
                Some(v as usize)
            } else {
                None
            },
            None => None,
        },
{
    let ghost text = s@.subrange(from as int, to as int);
    let start: usize = if from < to && s[from] == '+' {
        from + 1
    } else {
        from
    };
    let ghost d = unsigned_part(text);
    assert(d =~= s@.subrange(start as int, to as int));
    if start == to {
        return None;
    }
    let mut acc: usize = 0;
    let mut i: usize = start;
    while i < to
        invariant
            from <= start <= i <= to <= s.len(),
            start < to,
            text == s@.subrange(from as int, to as int),
            d == unsigned_part(text),
            d == s@.subrange(start as int, to as int),
            all_digits(d.take(i - start)),
            acc == digits_value(d.take(i - start)),
        decreases to - i,
    {
        let c = s[i];
        assert(d[i - start] == c);
        if !('0' <= c && c <= '9') {
            return None;
        }
        let v: usize = (c as u32 - '0' as u32) as usize;
        proof {
            let p = d.take(i - start + 1);
            assert(p.drop_last() =~= d.take(i - start));
            assert(p.last() == c);
            assert(all_digits(p)) by {
                assert forall|j: int| 0 <= j < p.len() implies is_digit(#[trigger] p[j]) by {
                    if j < p.len() - 1 {
                        assert(d.take(i - start)[j] == p[j]);
                    }
                }
            }
            assert(digits_value(p) == acc * 10 + v);
            if acc * 10 + v > usize::MAX {
                if all_digits(d) {
                    lemma_digits_value_prefix(d, i - start + 1);
                }
            }
        }
        if acc > (usize::MAX - v) / 10 {
            return None;
        }
        acc = acc * 10 + v;
        i += 1;
    }
    assert(d.take(to - start) =~= d);
    Some(acc)
}

} // verus!

verus! {

/// A numeral holds digits only, and at least one.
pub proof fn lemma_decimal_digits(n: nat)
    ensures
        decimal(n).len() >= 1,
        all_digits(decimal(n)),
    decreases n,
{
    if n >= 10 {
        lemma_decimal_digits(n / 10);
        let shorter = decimal(n / 10);
        assert forall|i: int| 0 <= i < decimal(n).len() implies is_digit(
            #[trigger] decimal(n)[i],
        ) by {
            if i < shorter.len() {
                assert(decimal(n)[i] == shorter[i]);
            }
        }
    }
}

/// The numeral of a number reads back as that number.
pub proof fn lemma_decimal_round_trip(n: nat)
    ensures
        parse_decimal(decimal(n)) == Some(n),
    decreases n,
{
    lemma_decimal_digits(n);
    lemma_digits_value_of_decimal(n);
    assert(decimal(n)[0] != '+');
}

/// The digits of a numeral denote the number it was written from.
pub proof fn lemma_digits_value_of_decimal(n: nat)
    ensures
        digits_value(decimal(n)) == n,
    decreases n,
{
    if n < 10 {
        assert(decimal(n).drop_last() =~= Seq::<char>::empty());
        assert(digits_value(decimal(n).drop_last()) == 0);
    } else {
        lemma_digits_value_of_decimal(n / 10);
        assert(decimal(n).drop_last() =~= decimal(n / 10));
    }
}

} // verus!
