//! The lexicographic order of sequences.
//!
//! The elements of the sequences are ordered by a rank, an integer that
//! stands for each of them. Two sequences are compared at the first place
//! where they differ; a sequence that ends there comes before one that goes
//! on.

use crate::relation::Relation;
use vstd::prelude::*;
use vstd::relations::injective;

verus! {

/// `a` and `b` both have at least `k` elements and agree on their first `k`.
pub open spec fn agree_upto<T>(a: Seq<T>, b: Seq<T>, k: int) -> bool {
    &&& 0 <= k <= a.len()
    &&& k <= b.len()
    &&& forall|i: int| 0 <= i < k ==> a[i] == b[i]
}

/// `a` and `b` part ways at `k` in favour of `a`: they agree before `k`, and
/// there either `a` has ended while `b` goes on, or `a` holds the element of
/// lower rank.
pub open spec fn parts_below_at<T>(a: Seq<T>, b: Seq<T>, rank: spec_fn(T) -> int, k: int) -> bool {
    &&& agree_upto(a, b, k)
    &&& k < b.len()
    &&& k < a.len() ==> rank(a[k]) < rank(b[k])
}

/// `a` comes strictly before `b` in lexicographic order.
pub open spec fn lex_before<T>(a: Seq<T>, b: Seq<T>, rank: spec_fn(T) -> int) -> bool {
    exists|k: int| parts_below_at(a, b, rank, k)
}

/// How `a` stands to `b` in lexicographic order.
pub open spec fn lex_relation<T>(a: Seq<T>, b: Seq<T>, rank: spec_fn(T) -> int) -> Relation {
    if a == b {
        Relation::Same
    } else if lex_before(a, b, rank) {
        Relation::Before
    } else {
        Relation::After
    }
}

/// Two sequences that part ways somewhere do so at one place only, and in
/// favour of one of them only.
pub proof fn lemma_parting_unique<T>(
    a: Seq<T>,
    b: Seq<T>,
    rank: spec_fn(T) -> int,
    j: int,
    k: int,
)
    requires
        parts_below_at(a, b, rank, j),
        parts_below_at(a, b, rank, k) || parts_below_at(b, a, rank, k),
    ensures
        j == k,
        !parts_below_at(b, a, rank, k),
{
    if j < k {
        assert(a[j] == b[j]);
    } else if k < j {
        assert(a[k] == b[k]);
    }
}

/// A sequence that comes before another is not the same as the other, and
/// the other does not come before it.
pub proof fn lemma_lex_before_asymmetric<T>(a: Seq<T>, b: Seq<T>, rank: spec_fn(T) -> int)
    requires
        lex_before(a, b, rank),
    ensures
        !lex_before(b, a, rank),
        a != b,
{
    let j = choose|j: int| parts_below_at(a, b, rank, j);
    if lex_before(b, a, rank) {
        let k = choose|k: int| parts_below_at(b, a, rank, k);
        lemma_parting_unique(a, b, rank, j, k);
    }
    if a == b {
        assert(parts_below_at(b, a, rank, j));
        lemma_parting_unique(a, b, rank, j, j);
    }
}

/// Two sequences that agree on their first `k` elements and are not the
/// same part ways at some place from `k` on, where no two elements share a
/// rank.
pub proof fn lemma_parting_exists<T>(a: Seq<T>, b: Seq<T>, rank: spec_fn(T) -> int, k: int)
    requires
        injective(rank),
        agree_upto(a, b, k),
        a != b,
    ensures
        lex_before(a, b, rank) || lex_before(b, a, rank),
    decreases a.len() - k,
{
    if k == a.len() {
        if k == b.len() {
            assert(a =~= b);
        } else {
            assert(parts_below_at(a, b, rank, k));
        }
    } else if k == b.len() {
        assert(parts_below_at(b, a, rank, k));
    } else if rank(a[k]) < rank(b[k]) {
        assert(parts_below_at(a, b, rank, k));
    } else if rank(b[k]) < rank(a[k]) {
        assert(parts_below_at(b, a, rank, k));
    } else {
        lemma_parting_exists(a, b, rank, k + 1);
    }
}

/// Of two sequences that are not the same, one comes before the other.
pub proof fn lemma_lex_before_total<T>(a: Seq<T>, b: Seq<T>, rank: spec_fn(T) -> int)
    requires
        injective(rank),
        a != b,
    ensures
        lex_before(a, b, rank) || lex_before(b, a, rank),
{
    lemma_parting_exists(a, b, rank, 0);
}

/// The lexicographic relation read from the other side is the reversed one.
pub proof fn lemma_lex_relation_reversed<T>(a: Seq<T>, b: Seq<T>, rank: spec_fn(T) -> int)
    requires
        injective(rank),
    ensures
        lex_relation(b, a, rank) == lex_relation(a, b, rank).reversed(),
{
    if a != b {
        lemma_lex_before_total(a, b, rank);
        if lex_before(a, b, rank) {
            lemma_lex_before_asymmetric(a, b, rank);
        } else {
            lemma_lex_before_asymmetric(b, a, rank);
        }
    }
}

/// Coming before is transitive.
pub proof fn lemma_lex_before_transitive<T>(
    a: Seq<T>,
    b: Seq<T>,
    c: Seq<T>,
    rank: spec_fn(T) -> int,
)
    requires
        lex_before(a, b, rank),
        lex_before(b, c, rank),
    ensures
        lex_before(a, c, rank),
{
    let j = choose|j: int| parts_below_at(a, b, rank, j);
    let k = choose|k: int| parts_below_at(b, c, rank, k);
    if j <= k {
        assert(parts_below_at(a, c, rank, j));
    } else {
        assert(parts_below_at(a, c, rank, k));
    }
}

/// Not coming after is transitive, and two steps end in the same place only
/// where neither of them moves.
pub proof fn lemma_lex_relation_transitive<T>(
    a: Seq<T>,
    b: Seq<T>,
    c: Seq<T>,
    rank: spec_fn(T) -> int,
)
    requires
        injective(rank),
        lex_relation(a, b, rank) != Relation::After,
        lex_relation(b, c, rank) != Relation::After,
    ensures
        lex_relation(a, c, rank) != Relation::After,
        lex_relation(a, c, rank) == Relation::Same ==> a == b && b == c,
{
    if a != b && b != c {
        lemma_lex_before_transitive(a, b, c, rank);
        lemma_lex_before_asymmetric(a, c, rank);
    } else if a != b {
        lemma_lex_before_asymmetric(a, b, rank);
    } else if b != c {
        lemma_lex_before_asymmetric(b, c, rank);
    }
}

/// The rank of a byte: its value.
pub open spec fn byte_rank() -> spec_fn(u8) -> int {
    |byte: u8| byte as int
}

/// The rank of a character: its code point.
pub open spec fn char_rank() -> spec_fn(char) -> int {
    |c: char| c as int
}

/// No two bytes share a rank, and no two characters do.
pub proof fn lemma_ranks_injective()
    ensures
        injective(byte_rank()),
        injective(char_rank()),
{
}

/// How the byte string `a` stands to `b`: the first byte in which they
/// differ decides, and a proper prefix comes first.
pub open spec fn bytes_relation(a: Seq<u8>, b: Seq<u8>) -> Relation {
    lex_relation(a, b, byte_rank())
}

/// How the text `a` stands to `b`: the first character in which they differ
/// decides, by its code point, and a proper prefix comes first.
pub open spec fn text_relation(a: Seq<char>, b: Seq<char>) -> Relation {
    lex_relation(a, b, char_rank())
}

/// How the byte string `a` stands to `b` in lexicographic order.
pub fn compare_bytes(a: &[u8], b: &[u8]) -> (relation: Relation)
    ensures
        relation == bytes_relation(a@, b@),
{
    let shorter: usize = if a.len() < b.len() {
        a.len()
    } else {
        b.len()
    };
    let mut i: usize = 0;
    while i < shorter
        invariant
            shorter <= a.len(),
            shorter <= b.len(),
            shorter == a.len() || shorter == b.len(),
            i <= shorter,
            agree_upto(a@, b@, i as int),
        decreases shorter - i,
    {
        if a[i] < b[i] {
            assert(parts_below_at(a@, b@, byte_rank(), i as int));
            proof {
                lemma_lex_before_asymmetric(a@, b@, byte_rank());
            }
            return Relation::Before;
        }
        if a[i] > b[i] {
            assert(parts_below_at(b@, a@, byte_rank(), i as int));
            proof {
                lemma_lex_before_asymmetric(b@, a@, byte_rank());
            }
            return Relation::After;
        }
        i += 1;
    }
    if a.len() < b.len() {
        assert(parts_below_at(a@, b@, byte_rank(), i as int));
        proof {
            lemma_lex_before_asymmetric(a@, b@, byte_rank());
        }
        Relation::Before
    } else if a.len() > b.len() {
        assert(parts_below_at(b@, a@, byte_rank(), i as int));
        proof {
            lemma_lex_before_asymmetric(b@, a@, byte_rank());
        }
        Relation::After
    } else {
        assert(a@ =~= b@);
        Relation::Same
    }
}

} // verus!
