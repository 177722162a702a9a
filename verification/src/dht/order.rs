use vstd::prelude::*;

verus! {

/// `a` and `b` agree before position `i`, and `a` is smaller at `i`.
pub open spec fn first_smaller_at(a: Seq<u8>, b: Seq<u8>, i: int) -> bool {
    &&& 0 <= i < a.len()
    &&& i < b.len()
    &&& a[i] < b[i]
    &&& forall|j: int| 0 <= j < i ==> a[j] == b[j]
}

/// Lexicographic byte order, strict: the order of `[u8; 32]` distances.
pub open spec fn lex_lt(a: Seq<u8>, b: Seq<u8>) -> bool {
    exists|i: int| #[trigger] first_smaller_at(a, b, i)
}

/// Compares two 32-byte strings in lexicographic order.
pub fn bytes32_lt(a: &[u8; 32], b: &[u8; 32]) -> (r: bool)
    ensures
        r == lex_lt(a@, b@),
{
    let mut i: usize = 0;
    while i < 32
        invariant
            i <= 32,
            a@.len() == 32,
            b@.len() == 32,
            forall|j: int| 0 <= j < i ==> a@[j] == b@[j],
        decreases 32 - i,
    {
        if a[i] < b[i] {
            assert(first_smaller_at(a@, b@, i as int));
            return true;
        }
        if a[i] > b[i] {
            assert forall|k: int| !first_smaller_at(a@, b@, k) by {
                if first_smaller_at(a@, b@, k) {
                    if k > i {
                        assert(a@[i as int] == b@[i as int]);
                    }
                }
            }
            return false;
        }
        i = i + 1;
    }
    assert forall|k: int| !first_smaller_at(a@, b@, k) by {}
    false
}

/// Nothing is before itself.
pub proof fn lemma_lex_irreflexive(a: Seq<u8>)
    ensures
        !lex_lt(a, a),
{
}

/// The order is transitive.
pub proof fn lemma_lex_transitive(a: Seq<u8>, b: Seq<u8>, c: Seq<u8>)
    requires
        lex_lt(a, b),
        lex_lt(b, c),
    ensures
        lex_lt(a, c),
{
    let i = choose|i: int| first_smaller_at(a, b, i);
    let k = choose|k: int| first_smaller_at(b, c, k);
    if i < k {
        assert(first_smaller_at(a, c, i));
    } else if k < i {
        assert(first_smaller_at(a, c, k));
    } else {
        assert(first_smaller_at(a, c, i));
    }
}

/// Two different strings of the same length are ordered one way or the other.
pub proof fn lemma_lex_total(a: Seq<u8>, b: Seq<u8>)
    requires
        a.len() == b.len(),
    ensures
        a =~= b || lex_lt(a, b) || lex_lt(b, a),
{
    lemma_lex_total_from(a, b, 0);
}

proof fn lemma_lex_total_from(a: Seq<u8>, b: Seq<u8>, i: int)
    requires
        a.len() == b.len(),
        0 <= i <= a.len(),
        forall|j: int| 0 <= j < i ==> a[j] == b[j],
    ensures
        a =~= b || lex_lt(a, b) || lex_lt(b, a),
    decreases a.len() - i,
{
    if i < a.len() {
        if a[i] < b[i] {
            assert(first_smaller_at(a, b, i));
        } else if b[i] < a[i] {
            assert(first_smaller_at(b, a, i));
        } else {
            lemma_lex_total_from(a, b, i + 1);
        }
    }
}

} // verus!
