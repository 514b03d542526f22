//! The order of player ids: the order of a dictionary, character by
//! character. Where the players of a game must be told apart by a rule that
//! does not depend on when they joined, this order does it.

use vstd::prelude::*;
use vstd::string::*;

verus! {

/// `a` comes before `b` in the order of a dictionary, as far as the
/// characters from index `i` on decide: at the first place where the two
/// differ `a` has the smaller character, or `a` ends there and `b` goes on.
pub open spec fn precedes_from(a: Seq<char>, b: Seq<char>, i: int) -> bool
    decreases a.len() - i,
{
    if i >= b.len() {
        false
    } else if i >= a.len() {
        true
    } else if a[i] != b[i] {
        (a[i] as int) < (b[i] as int)
    } else {
        precedes_from(a, b, i + 1)
    }
}

/// `a` comes before `b` in the order of a dictionary.
pub open spec fn precedes(a: Seq<char>, b: Seq<char>) -> bool {
    precedes_from(a, b, 0)
}

/// `a` and `b` hold the same characters before index `i`.
pub open spec fn agree_before(a: Seq<char>, b: Seq<char>, i: int) -> bool {
    &&& i <= a.len()
    &&& i <= b.len()
    &&& forall|k: int| 0 <= k < i ==> a[k] == b[k]
}

/// Of two texts neither comes before the other from both sides.
pub proof fn lemma_precedes_one_way(a: Seq<char>, b: Seq<char>, i: int)
    requires
        0 <= i,
    ensures
        !(precedes_from(a, b, i) && precedes_from(b, a, i)),
    decreases a.len() - i,
{
    if i < a.len() && i < b.len() && a[i] == b[i] {
        lemma_precedes_one_way(a, b, i + 1);
    }
}

/// Of two different texts one comes before the other.
pub proof fn lemma_precedes_decides(a: Seq<char>, b: Seq<char>, i: int)
    requires
        0 <= i,
        a != b,
        agree_before(a, b, i),
    ensures
        precedes_from(a, b, i) || precedes_from(b, a, i),
    decreases a.len() - i,
{
    if i >= a.len() && i >= b.len() {
        assert(a =~= b);
    } else if i < a.len() && i < b.len() && a[i] == b[i] {
        lemma_precedes_decides(a, b, i + 1);
    } else if i < a.len() && i < b.len() {
        assert((a[i] as int) != (b[i] as int));
    }
}

/// What comes before a text that comes before a third comes before the third.
pub proof fn lemma_precedes_chains(a: Seq<char>, b: Seq<char>, c: Seq<char>, i: int)
    requires
        0 <= i,
        precedes_from(a, b, i),
        precedes_from(b, c, i),
    ensures
        precedes_from(a, c, i),
    decreases a.len() - i,
{
    if i < a.len() && i < b.len() && i < c.len() && a[i] == b[i] && b[i] == c[i] {
        lemma_precedes_chains(a, b, c, i + 1);
    }
}

/// The order of ids is a strict total order: of two different ids exactly
/// one comes first, and the order chains.
pub proof fn law_ids_are_ordered(a: Seq<char>, b: Seq<char>, c: Seq<char>)
    ensures
        !precedes(a, a),
        !(precedes(a, b) && precedes(b, a)),
        a != b ==> precedes(a, b) || precedes(b, a),
        precedes(a, b) && precedes(b, c) ==> precedes(a, c),
{
    lemma_precedes_one_way(a, a, 0);
    lemma_precedes_one_way(a, b, 0);
    if a != b {
        lemma_precedes_decides(a, b, 0);
    }
    if precedes(a, b) && precedes(b, c) {
        lemma_precedes_chains(a, b, c, 0);
    }
}

/// Whether the id `a` comes before the id `b`.
pub fn id_precedes(a: &str, b: &str) -> (less: bool)
    ensures
        less == precedes(a@, b@),
{
    let la = a.unicode_len();
    let lb = b.unicode_len();
    let mut i: usize = 0;
    while i < la && i < lb
        invariant
            la == a@.len(),
            lb == b@.len(),
            i <= la,
            i <= lb,
            precedes(a@, b@) == precedes_from(a@, b@, i as int),
        decreases la - i,
    {
        let ca = a.get_char(i);
        let cb = b.get_char(i);
        if ca != cb {
            return (ca as u32) < (cb as u32);
        }
        i += 1;
    }
    la < lb
}

} // verus!
