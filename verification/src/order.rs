//! Lexicographic byte ordering and byte-wise equality.
//!
//! The values of this crate compare as their byte views do, so the exec
//! comparisons here are specified against `lex_cmp`, the mathematical
//! lexicographic order on byte sequences.

use core::cmp::Ordering;
use vstd::prelude::*;

verus! {

/// Lexicographic comparison of two byte sequences.
pub open spec fn lex_cmp(a: Seq<u8>, b: Seq<u8>) -> Ordering
    decreases a.len(),
{
    if a.len() == 0 && b.len() == 0 {
        Ordering::Equal
    } else if a.len() == 0 {
        Ordering::Less
    } else if b.len() == 0 {
        Ordering::Greater
    } else if a[0] < b[0] {
        Ordering::Less
    } else if a[0] > b[0] {
        Ordering::Greater
    } else {
        lex_cmp(a.subrange(1, a.len() as int), b.subrange(1, b.len() as int))
    }
}

/// Two sequences compare as equal exactly when they are equal.
pub proof fn lemma_lex_cmp_equal_iff(a: Seq<u8>, b: Seq<u8>)
    ensures
        lex_cmp(a, b) == Ordering::Equal <==> a == b,
    decreases a.len(),
{
    if a.len() == 0 && b.len() == 0 {
        assert(a =~= b);
    } else if a.len() == 0 || b.len() == 0 {
        assert(a != b);
    } else {
        let at = a.subrange(1, a.len() as int);
        let bt = b.subrange(1, b.len() as int);
        lemma_lex_cmp_equal_iff(at, bt);
        if a[0] == b[0] && at == bt {
            assert forall|j: int| 0 <= j < a.len() implies a[j] == b[j] by {
                if j > 0 {
                    assert(at[j - 1] == bt[j - 1]);
                }
            }
            assert(a =~= b);
        }
        if a == b {
            assert(at =~= bt);
        }
    }
}

/// Swapping the operands reverses the verdict.
pub proof fn lemma_lex_cmp_antisymmetric(a: Seq<u8>, b: Seq<u8>)
    ensures
        lex_cmp(a, b) == Ordering::Less <==> lex_cmp(b, a) == Ordering::Greater,
    decreases a.len(),
{
    if a.len() == 0 || b.len() == 0 {
    } else {
        lemma_lex_cmp_antisymmetric(a.subrange(1, a.len() as int), b.subrange(1, b.len() as int));
    }
}

/// The order is transitive.
pub proof fn lemma_lex_cmp_transitive(a: Seq<u8>, b: Seq<u8>, c: Seq<u8>)
    requires
        lex_cmp(a, b) == Ordering::Less,
        lex_cmp(b, c) == Ordering::Less,
    ensures
        lex_cmp(a, c) == Ordering::Less,
    decreases a.len(),
{
    if a.len() == 0 {
        assert(c.len() > 0);
    } else {
        assert(b.len() > 0);
        assert(c.len() > 0);
        if a[0] == b[0] && b[0] == c[0] {
            lemma_lex_cmp_transitive(
                a.subrange(1, a.len() as int),
                b.subrange(1, b.len() as int),
                c.subrange(1, c.len() as int),
            );
        }
    }
}

/// Dropping an equal prefix does not change the verdict.
pub proof fn lemma_lex_cmp_common_prefix(a: Seq<u8>, b: Seq<u8>, i: int)
    requires
        0 <= i <= a.len(),
        i <= b.len(),
        a.subrange(0, i) =~= b.subrange(0, i),
    ensures
        lex_cmp(a, b) == lex_cmp(a.subrange(i, a.len() as int), b.subrange(i, b.len() as int)),
    decreases i,
{
    if i == 0 {
        assert(a.subrange(0, a.len() as int) =~= a);
        assert(b.subrange(0, b.len() as int) =~= b);
    } else {
        assert(a[0] == b[0]) by {
            assert(a.subrange(0, i)[0] == a[0]);
        }
        let at = a.subrange(1, a.len() as int);
        let bt = b.subrange(1, b.len() as int);
        assert(at.subrange(0, i - 1) =~= a.subrange(0, i).subrange(1, i));
        assert(bt.subrange(0, i - 1) =~= b.subrange(0, i).subrange(1, i));
        lemma_lex_cmp_common_prefix(at, bt, i - 1);
        assert(at.subrange(i - 1, at.len() as int) =~= a.subrange(i, a.len() as int));
        assert(bt.subrange(i - 1, bt.len() as int) =~= b.subrange(i, b.len() as int));
    }
}

/// Compare two byte slices lexicographically.
pub fn cmp_slices(a: &[u8], b: &[u8]) -> (r: Ordering)
    ensures
        r == lex_cmp(a@, b@),
{
    let a_len: usize = a.len();
    let b_len: usize = b.len();
    let mut i: usize = 0;
    loop
        invariant
            i <= a_len,
            i <= b_len,
            a_len == a@.len(),
            b_len == b@.len(),
            a@.subrange(0, i as int) =~= b@.subrange(0, i as int),
        decreases a_len - i,
    {
        proof {
            lemma_lex_cmp_common_prefix(a@, b@, i as int);
        }
        if i == a_len || i == b_len {
            if a_len == b_len {
                return Ordering::Equal;
            } else if i == a_len {
                return Ordering::Less;
            } else {
                return Ordering::Greater;
            }
        }
        let x = a[i];
        let y = b[i];
        if x < y {
            proof {
                assert(a@.subrange(i as int, a_len as int)[0] == a@[i as int]);
                assert(b@.subrange(i as int, b_len as int)[0] == b@[i as int]);
            }
            return Ordering::Less;
        } else if x > y {
            proof {
                assert(a@.subrange(i as int, a_len as int)[0] == a@[i as int]);
                assert(b@.subrange(i as int, b_len as int)[0] == b@[i as int]);
            }
            return Ordering::Greater;
        }
        proof {
            assert(a@.subrange(0, i + 1) =~= a@.subrange(0, i as int).push(a@[i as int]));
            assert(b@.subrange(0, i + 1) =~= b@.subrange(0, i as int).push(b@[i as int]));
        }
        i += 1;
    }
}

/// Test two byte slices for byte-wise equality.
pub fn eq_slices(a: &[u8], b: &[u8]) -> (r: bool)
    ensures
        r == (a@ == b@),
{
    if a.len() != b.len() {
        return false;
    }
    let n: usize = a.len();
    let mut i: usize = 0;
    while i < n
        invariant
            i <= n,
            n == a@.len(),
            n == b@.len(),
            forall|j: int| 0 <= j < i ==> a@[j] == b@[j],
        decreases n - i,
    {
        if a[i] != b[i] {
            return false;
        }
        i += 1;
    }
    proof {
        assert(a@ =~= b@);
    }
    true
}

} // verus!

