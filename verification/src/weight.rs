//! Weight values in pounds, held as a whole number of thousandths.
//!
//! Free text is accepted in the plain decimal form `180`, `180.5` or `+180.5`
//! with at most seven integer digits and at most three fraction digits, and
//! must be positive.  A value is written back to the store in a canonical
//! text form (always with a decimal point, no leading or trailing zero
//! digits) that the store's REAL column reproduces exactly.

use vstd::prelude::*;
use crate::digits::{
    all_digits, dec_of, digit_char, digits_val, format_u64, is_digit_char, lemma_dec_of_digits,
    lemma_dec_of_len, lemma_digit_char_val, lemma_digits_val_bound, lemma_digits_val_push,
    lemma_digits_val_singleton, lemma_pow10_values, parse_digits, pow10,
};

verus! {

/// The largest representable weight, in thousandths of a pound
/// (seven integer digits and three fraction digits).
pub const MAX_WEIGHT_MILLI: u64 = 9999999999;

/// A positive weight in pounds, as thousandths of a pound.
#[derive(Clone, Copy, PartialEq, Eq, Structural, Debug)]
pub struct Weight {
    milli: u64,
}

impl View for Weight {
    type V = int;

    closed spec fn view(&self) -> int {
        self.milli as int
    }
}

/// The `Weight` whose value is `m` thousandths of a pound.
pub closed spec fn weight_from_milli(m: int) -> Weight {
    Weight { milli: m as u64 }
}

pub proof fn lemma_weight_from_milli(m: int)
    requires
        0 <= m <= u64::MAX,
    ensures
        weight_from_milli(m)@ == m,
{
}

/// Two weights of one value are one weight.
pub proof fn lemma_weight_eq(a: Weight, b: Weight)
    requires
        a@ == b@,
    ensures
        a == b,
{
}

impl Weight {
    /// A representable positive weight.
    pub open spec fn wf(self) -> bool {
        0 < self@ <= MAX_WEIGHT_MILLI
    }

    /// The value in thousandths of a pound.
    pub fn milli(&self) -> (r: u64)
        ensures
            r as int == self@,
    {
        self.milli
    }
}

/// `s` with one leading `+` removed, if present.
pub open spec fn strip_plus(s: Seq<char>) -> Seq<char> {
    if s.len() > 0 && s[0] == '+' {
        s.subrange(1, s.len() as int)
    } else {
        s
    }
}

/// Splits `t` at its first `.`: the characters before it and after it.
/// Nothing when `t` holds no `.` at all.
pub open spec fn split_dot(t: Seq<char>) -> Option<(Seq<char>, Seq<char>)>
    decreases t.len(),
{
    if t.len() == 0 {
        None
    } else if t[0] == '.' {
        Some((Seq::<char>::empty(), t.subrange(1, t.len() as int)))
    } else {
        match split_dot(t.subrange(1, t.len() as int)) {
            None => None,
            Some(p) => Some((seq![t[0]] + p.0, p.1)),
        }
    }
}

/// What a fraction run of the given length is worth in thousandths per unit.
pub open spec fn frac_scale(len: int) -> int {
    if len == 1 {
        100
    } else if len == 2 {
        10
    } else {
        1
    }
}

/// The value in thousandths of a pound that the text `s` spells, or nothing
/// when `s` is not in the accepted decimal form.
pub open spec fn weight_text_milli(s: Seq<char>) -> Option<int> {
    let t = strip_plus(s);
    match split_dot(t) {
        None => if all_digits(t) && 1 <= t.len() <= 7 {
            Some(digits_val(t) * 1000)
        } else {
            None
        },
        Some(p) => if all_digits(p.0) && all_digits(p.1) && 1 <= p.0.len() <= 7 && 1 <= p.1.len()
            <= 3 {
            Some(digits_val(p.0) * 1000 + digits_val(p.1) * frac_scale(p.1.len() as int))
        } else {
            None
        },
    }
}

/// Whether `s` spells an accepted, strictly positive weight.
pub open spec fn weight_ok(s: Seq<char>) -> bool {
    match weight_text_milli(s) {
        Some(m) => m > 0,
        None => false,
    }
}

/// The canonical fraction digits for `r` thousandths, `0 <= r < 1000`:
/// trailing zero digits dropped, but never empty.
pub open spec fn frac_text(r: int) -> Seq<char> {
    if r == 0 {
        seq![digit_char(0)]
    } else if r % 100 == 0 {
        seq![digit_char(r / 100)]
    } else if r % 10 == 0 {
        seq![digit_char(r / 100), digit_char((r / 10) % 10)]
    } else {
        seq![digit_char(r / 100), digit_char((r / 10) % 10), digit_char(r % 10)]
    }
}

/// The canonical text for `m` thousandths of a pound: integer digits, a
/// decimal point, and the trimmed fraction digits.
pub open spec fn canonical_weight_text(m: int) -> Seq<char> {
    dec_of((m / 1000) as nat) + seq!['.'] + frac_text(m % 1000)
}

/// Whether `s` is the canonical text of some representable positive weight.
pub open spec fn is_canonical_weight_text(s: Seq<char>) -> bool {
    exists|m: int| 0 < m <= MAX_WEIGHT_MILLI && s == #[trigger] canonical_weight_text(m)
}

proof fn lemma_split_dot_at(t: Seq<char>, j: int)
    requires
        0 <= j < t.len(),
        t[j] == '.',
        forall|k: int| 0 <= k < j ==> t[k] != '.',
    ensures
        split_dot(t) == Some((t.subrange(0, j), t.subrange(j + 1, t.len() as int))),
    decreases j,
{
    if j == 0 {
        assert(t.subrange(0, 0) =~= Seq::<char>::empty());
    } else {
        let rest = t.subrange(1, t.len() as int);
        lemma_split_dot_at(rest, j - 1);
        assert(seq![t[0]] + rest.subrange(0, j - 1) =~= t.subrange(0, j));
        assert(rest.subrange(j, rest.len() as int) =~= t.subrange(j + 1, t.len() as int));
    }
}

proof fn lemma_split_dot_none(t: Seq<char>)
    requires
        forall|k: int| 0 <= k < t.len() ==> t[k] != '.',
    ensures
        split_dot(t) is None,
    decreases t.len(),
{
    if t.len() > 0 {
        lemma_split_dot_none(t.subrange(1, t.len() as int));
    }
}

/// Parses a weight text.  Returns nothing exactly when the text is not in
/// the accepted decimal form or is not strictly positive.
pub fn parse_weight(s: &str) -> (r: Option<Weight>)
    ensures
        r is Some <==> weight_ok(s@),
        r is Some ==> weight_text_milli(s@) == Some(r.unwrap()@) && r.unwrap().wf(),
{
    let n = s.unicode_len();
    let start: usize = if n > 0 && s.get_char(0) == '+' {
        1
    } else {
        0
    };
    let ghost t = strip_plus(s@);
    proof {
        assert(t =~= s@.subrange(start as int, n as int));
    }
    // find the first dot, if any
    let mut i: usize = start;
    let mut dot: usize = n;
    let mut found = false;
    while i < n && !found
        invariant
            start <= i <= n,
            n == s@.len(),
            found ==> start <= dot < n && s@[dot as int] == '.' && forall|k: int|
                start <= k < dot ==> s@[k] != '.',
            !found ==> dot == n && forall|k: int| start <= k < i ==> s@[k] != '.',
        decreases n - i + (if found { 0int } else { 1int }),
    {
        if s.get_char(i) == '.' {
            dot = i;
            found = true;
        } else {
            i = i + 1;
        }
    }
    proof {
        if found {
            lemma_split_dot_at(t, dot - start);
            assert(t.subrange(0, dot - start) =~= s@.subrange(start as int, dot as int));
            assert(t.subrange(dot - start + 1, t.len() as int) =~= s@.subrange(
                dot + 1,
                n as int,
            ));
        } else {
            lemma_split_dot_none(t);
        }
    }
    // integer part
    if dot - start < 1 || dot - start > 7 {
        return None;
    }
    let ip = match parse_digits(s, start, dot) {
        Some(v) => v,
        None => {
            return None;
        },
    };
    proof {
        lemma_digits_val_bound(s@.subrange(start as int, dot as int));
        lemma_pow10_values();
    }
    let milli: u64;
    if !found {
        milli = ip * 1000;
    } else {
        // fraction part
        if n - dot - 1 < 1 || n - dot - 1 > 3 {
            return None;
        }
        let fp = match parse_digits(s, dot + 1, n) {
            Some(v) => v,
            None => {
                return None;
            },
        };
        proof {
            lemma_digits_val_bound(s@.subrange(dot + 1, n as int));
            lemma_pow10_values();
            assert(pow10(3) == 1000);
        }
        let scale: u64 = if n - dot - 1 == 1 {
            100
        } else if n - dot - 1 == 2 {
            10
        } else {
            1
        };
        milli = ip * 1000 + fp * scale;
    }
    if milli == 0 {
        return None;
    }
    Some(Weight { milli })
}

impl Weight {
    /// The canonical text of this weight.
    pub fn canonical_text(&self) -> (r: String)
        requires
            self.wf(),
        ensures
            r@ == canonical_weight_text(self@),
            is_canonical_weight_text(r@),
    {
        let ip = self.milli / 1000;
        let fr = self.milli % 1000;
        let mut s = format_u64(ip);
        s.append(".");
        proof {
            reveal_strlit(".");
            assert("."@ =~= seq!['.']);
        }
        if fr == 0 {
            let z = format_u64(0);
            proof {
                assert(dec_of(0) =~= seq![digit_char(0)]);
            }
            s.append(z.as_str());
        } else if fr % 100 == 0 {
            let d1 = format_u64(fr / 100);
            s.append(d1.as_str());
            proof {
                assert(dec_of((fr / 100) as nat) =~= seq![digit_char(fr as int / 100)]);
            }
        } else if fr % 10 == 0 {
            let d1 = format_u64(fr / 100);
            let d2 = format_u64((fr / 10) % 10);
            s.append(d1.as_str());
            s.append(d2.as_str());
            proof {
                assert(dec_of((fr / 100) as nat) =~= seq![digit_char(fr as int / 100)]);
                assert(dec_of(((fr / 10) % 10) as nat) =~= seq![
                    digit_char((fr as int / 10) % 10),
                ]);
            }
        } else {
            let d1 = format_u64(fr / 100);
            let d2 = format_u64((fr / 10) % 10);
            let d3 = format_u64(fr % 10);
            s.append(d1.as_str());
            s.append(d2.as_str());
            s.append(d3.as_str());
            proof {
                assert(dec_of((fr / 100) as nat) =~= seq![digit_char(fr as int / 100)]);
                assert(dec_of(((fr / 10) % 10) as nat) =~= seq![
                    digit_char((fr as int / 10) % 10),
                ]);
                assert(dec_of((fr % 10) as nat) =~= seq![digit_char(fr as int % 10)]);
            }
        }
        proof {
            assert(s@ =~= canonical_weight_text(self@));
            assert(is_canonical_weight_text(s@));
        }
        s
    }
}

/// Writing a representable positive weight canonically and reading the text
/// back yields the same value: the store round-trip loses nothing.
pub proof fn lemma_weight_text_roundtrip(m: int)
    requires
        0 < m <= MAX_WEIGHT_MILLI,
    ensures
        weight_ok(canonical_weight_text(m)),
        weight_text_milli(canonical_weight_text(m)) == Some(m),
{
    let ip = m / 1000;
    let fr = m % 1000;
    let ct = canonical_weight_text(m);
    let id = dec_of(ip as nat);
    let ft = frac_text(fr);
    lemma_dec_of_digits(ip as nat);
    lemma_pow10_values();
    assert(ip < pow10(7));
    lemma_dec_of_len(ip as nat, 7);
    assert(all_digits(ft)) by {
        lemma_digit_char_val(0);
        lemma_digit_char_val(fr / 100);
        lemma_digit_char_val((fr / 10) % 10);
        lemma_digit_char_val(fr % 10);
    }
    // the first dot of ct is right after the integer digits
    let j = id.len() as int;
    assert(ct[j] == '.');
    assert(forall|k: int| 0 <= k < j ==> is_digit_char(#[trigger] ct[k]) && ct[k] != '.');
    assert(strip_plus(ct) =~= ct);
    lemma_split_dot_at(ct, j);
    assert(ct.subrange(0, j) =~= id);
    assert(ct.subrange(j + 1, ct.len() as int) =~= ft);
    assert(all_digits(id));
    assert(all_digits(ft));
    assert(1 <= id.len() <= 7);
    assert(1 <= ft.len() <= 3);
    // the fraction digits scale back to fr
    assert(digits_val(ft) * frac_scale(ft.len() as int) == fr) by {
        if fr == 0 {
            lemma_digit_char_val(0);
            lemma_digits_val_singleton(digit_char(0));
        } else {
            let a = fr / 100;
            let b = (fr / 10) % 10;
            let c = fr % 10;
            lemma_digit_char_val(a);
            lemma_digit_char_val(b);
            lemma_digit_char_val(c);
            assert(0 <= fr < 1000);
            assert(fr == a * 100 + b * 10 + c) by (nonlinear_arith)
                requires
                    0 <= fr < 1000,
                    a == fr / 100,
                    b == (fr / 10) % 10,
                    c == fr % 10,
            ;
            if fr % 100 == 0 {
                assert(ft =~= seq![digit_char(a)]);
                lemma_digits_val_singleton(digit_char(a));
            } else if fr % 10 == 0 {
                assert(ft =~= seq![digit_char(a)].push(digit_char(b)));
                lemma_digits_val_singleton(digit_char(a));
                lemma_digits_val_push(seq![digit_char(a)], digit_char(b));
            } else {
                assert(ft =~= seq![digit_char(a)].push(digit_char(b)).push(digit_char(c)));
                lemma_digits_val_singleton(digit_char(a));
                lemma_digits_val_push(seq![digit_char(a)], digit_char(b));
                lemma_digits_val_push(seq![digit_char(a)].push(digit_char(b)), digit_char(c));
            }
        }
    }
    assert(digits_val(id) * 1000 + fr == m);
}

} // verus!
