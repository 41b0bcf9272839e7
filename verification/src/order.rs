//! Byte-wise (code-point) ordering of texts, the order the store's TEXT
//! columns sort by.  For canonical `YYYY-MM-DD` dates this is also the
//! chronological order.

use vstd::prelude::*;

verus! {

/// Strict code-point-wise lexicographic order.
pub open spec fn lex_lt(a: Seq<char>, b: Seq<char>) -> bool
    decreases a.len(),
{
    if b.len() == 0 {
        false
    } else if a.len() == 0 {
        true
    } else if a[0] != b[0] {
        (a[0] as u32) < (b[0] as u32)
    } else {
        lex_lt(a.subrange(1, a.len() as int), b.subrange(1, b.len() as int))
    }
}

/// The order is total: two mutually unrelated texts are equal.
pub proof fn lemma_lex_total(a: Seq<char>, b: Seq<char>)
    requires
        !lex_lt(a, b),
        !lex_lt(b, a),
    ensures
        a == b,
    decreases a.len(),
{
    if a.len() == 0 || b.len() == 0 {
        assert(a =~= b);
    } else if a[0] != b[0] {
        vstd::utf8::char_u32_cast(a[0], a[0] as u32);
        vstd::utf8::char_u32_cast(b[0], b[0] as u32);
        assert(false);
    } else {
        let at = a.subrange(1, a.len() as int);
        let bt = b.subrange(1, b.len() as int);
        lemma_lex_total(at, bt);
        assert(at == bt);
        assert(at.len() == a.len() - 1);
        assert(bt.len() == b.len() - 1);
        assert(a.len() == b.len());
        assert(forall|k: int| 1 <= k < a.len() ==> #[trigger] a[k] == at[k - 1]);
        assert(forall|k: int| 1 <= k < b.len() ==> #[trigger] b[k] == bt[k - 1]);
        assert(a =~= b);
    }
}

/// Strict byte-wise comparison of two texts.
pub fn str_lt(a: &str, b: &str) -> (r: bool)
    ensures
        r == lex_lt(a@, b@),
{
    let na = a.unicode_len();
    let nb = b.unicode_len();
    let mut i: usize = 0;
    proof {
        assert(a@.skip(0) =~= a@);
        assert(b@.skip(0) =~= b@);
    }
    while i < na && i < nb
        invariant
            i <= na,
            i <= nb,
            na == a@.len(),
            nb == b@.len(),
            lex_lt(a@, b@) == lex_lt(a@.skip(i as int), b@.skip(i as int)),
        decreases na - i,
    {
        let ca = a.get_char(i);
        let cb = b.get_char(i);
        proof {
            assert(a@.skip(i as int)[0] == a@[i as int]);
            assert(b@.skip(i as int)[0] == b@[i as int]);
        }
        if ca != cb {
            return (ca as u32) < (cb as u32);
        }
        i = i + 1;
        proof {
            let pa = a@.skip(i - 1);
            let pb = b@.skip(i - 1);
            assert(pa.subrange(1, pa.len() as int) =~= a@.skip(i as int));
            assert(pb.subrange(1, pb.len() as int) =~= b@.skip(i as int));
        }
    }
    proof {
        assert(a@.skip(i as int).len() == na - i);
        assert(b@.skip(i as int).len() == nb - i);
    }
    na < nb
}

/// Equality of two texts.
pub fn str_eq(a: &str, b: &str) -> (r: bool)
    ensures
        r == (a@ == b@),
{
    let na = a.unicode_len();
    let nb = b.unicode_len();
    if na != nb {
        return false;
    }
    let mut i: usize = 0;
    while i < na
        invariant
            i <= na,
            na == a@.len(),
            na == b@.len(),
            forall|k: int| 0 <= k < i ==> a@[k] == b@[k],
        decreases na - i,
    {
        if a.get_char(i) != b.get_char(i) {
            return false;
        }
        i = i + 1;
    }
    proof {
        assert(a@ =~= b@);
    }
    true
}

} // verus!
