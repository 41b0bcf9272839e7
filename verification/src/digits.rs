//! Decimal digit runs: their value, their bounds, and formatting a number
//! back into digits.  Shared by the calendar-date and weight-value parsers.

use vstd::prelude::*;

verus! {

/// Whether `c` is one of the ten ASCII digits.
pub open spec fn is_digit_char(c: char) -> bool {
    48 <= (c as u32) && (c as u32) <= 57
}

/// The numeric value of a digit character.
pub open spec fn digit_val(c: char) -> int {
    (c as u32) as int - 48
}

/// Whether every character of `s` is an ASCII digit.
pub open spec fn all_digits(s: Seq<char>) -> bool {
    forall|i: int| 0 <= i < s.len() ==> is_digit_char(#[trigger] s[i])
}

/// The value of a digit run read in base ten, most significant first.
pub open spec fn digits_val(s: Seq<char>) -> int
    decreases s.len(),
{
    if s.len() == 0 {
        0
    } else {
        digits_val(s.drop_last()) * 10 + digit_val(s.last())
    }
}

/// Ten to the power `n`.
pub open spec fn pow10(n: nat) -> int
    decreases n,
{
    if n == 0 {
        1
    } else {
        10 * pow10((n - 1) as nat)
    }
}

pub proof fn lemma_pow10_values()
    ensures
        pow10(0) == 1,
        pow10(1) == 10,
        pow10(2) == 100,
        pow10(3) == 1000,
        pow10(4) == 10000,
        pow10(7) == 10000000,
{
    reveal_with_fuel(pow10, 8);
}

pub proof fn lemma_pow10_increases(a: nat, b: nat)
    requires
        a <= b,
    ensures
        1 <= pow10(a) <= pow10(b),
    decreases b,
{
    if a < b {
        lemma_pow10_increases(a, (b - 1) as nat);
    } else {
        lemma_pow10_positive(a);
    }
}

pub proof fn lemma_pow10_positive(a: nat)
    ensures
        pow10(a) >= 1,
    decreases a,
{
    if a > 0 {
        lemma_pow10_positive((a - 1) as nat);
    }
}

/// A run of `n` digits has a value below ten to the `n`.
pub proof fn lemma_digits_val_bound(s: Seq<char>)
    requires
        all_digits(s),
    ensures
        0 <= digits_val(s) < pow10(s.len()),
    decreases s.len(),
{
    if s.len() > 0 {
        assert(all_digits(s.drop_last()));
        lemma_digits_val_bound(s.drop_last());
    }
}

/// Reads the digit run `s[from..to]` as a base-ten number.  Returns nothing
/// exactly when some character in that range is not a digit.
pub fn parse_digits(s: &str, from: usize, to: usize) -> (r: Option<u64>)
    requires
        from <= to <= s@.len(),
        to - from <= 7,
    ensures
        r is Some <==> all_digits(s@.subrange(from as int, to as int)),
        r is Some ==> r.unwrap() as int == digits_val(s@.subrange(from as int, to as int)),
{
    let mut i: usize = from;
    let mut acc: u64 = 0;
    while i < to
        invariant
            from <= i <= to,
            to <= s@.len(),
            to - from <= 7,
            all_digits(s@.subrange(from as int, i as int)),
            acc as int == digits_val(s@.subrange(from as int, i as int)),
        decreases to - i,
    {
        let c = s.get_char(i);
        let cv = c as u32;
        if cv < 48 || cv > 57 {
            proof {
                assert(s@.subrange(from as int, to as int)[i - from] == s@[i as int]);
            }
            return None;
        }
        proof {
            lemma_digits_val_bound(s@.subrange(from as int, i as int));
            lemma_pow10_increases((i - from) as nat, 6);
            lemma_pow10_values();
            assert(pow10(6) == 10 * pow10(5));
            assert(pow10(6) < pow10(7));
        }
        acc = acc * 10 + (cv - 48) as u64;
        i = i + 1;
        proof {
            let pre = s@.subrange(from as int, i - 1);
            let cur = s@.subrange(from as int, i as int);
            assert(cur.drop_last() =~= pre);
            assert(cur.last() == s@[i - 1]);
            assert(forall|k: int| 0 <= k < cur.len() ==> cur[k] == s@[from + k]);
        }
    }
    proof {
        assert(s@.subrange(from as int, i as int) =~= s@.subrange(from as int, to as int));
    }
    Some(acc)
}

pub proof fn lemma_digits_val_singleton(c: char)
    ensures
        digits_val(seq![c]) == digit_val(c),
{
    let s = seq![c];
    assert(s.len() == 1);
    assert(s.drop_last() =~= Seq::<char>::empty());
    assert(digits_val(Seq::<char>::empty()) == 0);
    assert(s.last() == c);
    assert(digits_val(s) == digits_val(s.drop_last()) * 10 + digit_val(s.last()));
}

pub proof fn lemma_digits_val_push(s: Seq<char>, c: char)
    ensures
        digits_val(s.push(c)) == digits_val(s) * 10 + digit_val(c),
{
    assert(s.push(c).drop_last() =~= s);
    assert(s.push(c).last() == c);
}

/// The digit character of value `d` is a digit and reads back as `d`.
pub proof fn lemma_digit_char_val(d: int)
    requires
        0 <= d <= 9,
    ensures
        is_digit_char(digit_char(d)),
        digit_val(digit_char(d)) == d,
{
    if d == 0 {
        assert(digit_char(d) == '0');
    } else if d == 1 {
        assert(digit_char(d) == '1');
    } else if d == 2 {
        assert(digit_char(d) == '2');
    } else if d == 3 {
        assert(digit_char(d) == '3');
    } else if d == 4 {
        assert(digit_char(d) == '4');
    } else if d == 5 {
        assert(digit_char(d) == '5');
    } else if d == 6 {
        assert(digit_char(d) == '6');
    } else if d == 7 {
        assert(digit_char(d) == '7');
    } else if d == 8 {
        assert(digit_char(d) == '8');
    } else {
        assert(digit_char(d) == '9');
    }
}

/// The character for digit value `d`.
pub open spec fn digit_char(d: int) -> char {
    if d == 0 {
        '0'
    } else if d == 1 {
        '1'
    } else if d == 2 {
        '2'
    } else if d == 3 {
        '3'
    } else if d == 4 {
        '4'
    } else if d == 5 {
        '5'
    } else if d == 6 {
        '6'
    } else if d == 7 {
        '7'
    } else if d == 8 {
        '8'
    } else {
        '9'
    }
}

/// The base-ten digits of `n`, most significant first, with no leading zero
/// (`0` itself is the single digit `0`).
pub open spec fn dec_of(n: nat) -> Seq<char>
    decreases n,
{
    if n < 10 {
        seq![digit_char(n as int)]
    } else {
        dec_of(n / 10).push(digit_char((n % 10) as int))
    }
}

pub proof fn lemma_dec_of_digits(n: nat)
    ensures
        all_digits(dec_of(n)),
        dec_of(n).len() >= 1,
        digits_val(dec_of(n)) == n,
    decreases n,
{
    if n < 10 {
        assert(digits_val(dec_of(n)) == digits_val(dec_of(n).drop_last()) * 10 + digit_val(
            dec_of(n).last(),
        ));
        assert(dec_of(n).drop_last() =~= Seq::<char>::empty());
    } else {
        lemma_dec_of_digits(n / 10);
        let s = dec_of(n);
        assert(s.drop_last() =~= dec_of(n / 10));
        assert(forall|i: int|
            0 <= i < s.len() ==> is_digit_char(#[trigger] s[i]) == if i < s.len() - 1 {
                is_digit_char(dec_of(n / 10)[i])
            } else {
                is_digit_char(digit_char((n % 10) as int))
            });
    }
}

/// A number below ten to the `k` prints in at most `k` digits.
pub proof fn lemma_dec_of_len(n: nat, k: nat)
    requires
        k >= 1,
        n < pow10(k),
    ensures
        dec_of(n).len() <= k,
    decreases n,
{
    if n >= 10 {
        lemma_pow10_values();
        if k == 1 {
            assert(false);
        }
        assert(pow10(k) == 10 * pow10((k - 1) as nat));
        lemma_dec_of_len(n / 10, (k - 1) as nat);
    }
}

fn digit_str(d: u64) -> (r: &'static str)
    requires
        d < 10,
    ensures
        r@ =~= seq![digit_char(d as int)],
{
    proof {
        reveal_strlit("0");
        reveal_strlit("1");
        reveal_strlit("2");
        reveal_strlit("3");
        reveal_strlit("4");
        reveal_strlit("5");
        reveal_strlit("6");
        reveal_strlit("7");
        reveal_strlit("8");
        reveal_strlit("9");
    }
    match d {
        0 => "0",
        1 => "1",
        2 => "2",
        3 => "3",
        4 => "4",
        5 => "5",
        6 => "6",
        7 => "7",
        8 => "8",
        _ => "9",
    }
}

/// Prints `n` in base ten, most significant digit first.
pub fn format_u64(n: u64) -> (r: String)
    ensures
        r@ == dec_of(n as nat),
    decreases n,
{
    if n < 10 {
        String::from_str(digit_str(n))
    } else {
        let mut s = format_u64(n / 10);
        s.append(digit_str(n % 10));
        proof {
            assert(dec_of((n / 10) as nat).push(digit_char((n % 10) as int)) =~= dec_of(
                (n / 10) as nat,
            ) + seq![digit_char((n % 10) as int)]);
        }
        s
    }
}

} // verus!
