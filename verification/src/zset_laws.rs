use vstd::prelude::*;

use crate::replies::len_i64;
use crate::store_zsets::{lemma_zfind_unique, zfind};
use crate::zset::{entry_lt, lemma_filter_all, lemma_filter_none, member_ne, zinsert, zremove,
    zsorted};

verus! {

broadcast use vstd::seq::group_seq_axioms;

// ---------------------------------------------------------------------------
// Laws of the sorted-set index that relate several of its operations.
// ---------------------------------------------------------------------------

/// A member's rank is its index in the ascending iteration: whenever `m`
/// stands at position `i` of a duplicate-free index and the position fits a
/// signed 64-bit reply, the rank lookup lands on `i` and the integer reply
/// carries `i` unclamped.
pub proof fn lemma_rank_is_index(z: Seq<(int, Seq<u8>)>, m: Seq<u8>, i: int)
    requires
        zsorted(z),
        0 <= i < z.len(),
        z[i].1 == m,
        i <= i64::MAX,
    ensures
        zfind(z, m) == Some(i),
        len_i64(i) == i,
{
    lemma_zfind_unique(z, m, i);
}

/// Dropping a member of a duplicate-free index removes exactly its entry.
pub proof fn lemma_zremove_at(z: Seq<(int, Seq<u8>)>, i: int)
    requires
        zsorted(z),
        0 <= i < z.len(),
    ensures
        zremove(z, z[i].1) == z.take(i) + z.skip(i + 1),
    decreases z.len(),
{
    let m = z[i].1;
    let pred = member_ne(m);
    reveal(Seq::filter);
    assert forall|j: int| 0 <= j < z.take(i).len() implies pred(#[trigger] z.take(i)[j]) by {
        assert(z.take(i)[j] == z[j]);
        assert(z[j].1 != z[i].1);
    }
    assert forall|j: int| 0 <= j < z.skip(i + 1).len() implies pred(
        #[trigger] z.skip(i + 1)[j],
    ) by {
        assert(z.skip(i + 1)[j] == z[j + i + 1]);
        assert(z[i].1 != z[j + i + 1].1);
    }
    lemma_filter_all(z.take(i), pred);
    lemma_filter_all(z.skip(i + 1), pred);
    lemma_filter_none(seq![z[i]], pred);
    Seq::filter_distributes_over_add(z.take(i) + seq![z[i]], z.skip(i + 1), pred);
    Seq::filter_distributes_over_add(z.take(i), seq![z[i]], pred);
    assert(z.take(i) + seq![z[i]] + z.skip(i + 1) =~= z);
    assert(z.filter(pred) =~= z.take(i) + z.skip(i + 1));
}

/// Sorted insertion grows the index by exactly one entry.
pub proof fn lemma_zinsert_len(s: Seq<(int, Seq<u8>)>, sc: int, m: Seq<u8>)
    ensures
        zinsert(s, sc, m).len() == s.len() + 1,
    decreases s.len(),
{
    if s.len() == 0 {
    } else if entry_lt(sc, m, s[0].0, s[0].1) {
    } else {
        lemma_zinsert_len(s.subrange(1, s.len() as int), sc, m);
    }
}

/// Sorted insertion puts the new entry somewhere in the index.
pub proof fn lemma_zinsert_member(s: Seq<(int, Seq<u8>)>, sc: int, m: Seq<u8>)
    ensures
        exists|i: int|
            0 <= i < zinsert(s, sc, m).len() && #[trigger] zinsert(s, sc, m)[i] == (sc, m),
    decreases s.len(),
{
    if s.len() == 0 {
        assert(zinsert(s, sc, m)[0] == (sc, m));
    } else if entry_lt(sc, m, s[0].0, s[0].1) {
        assert(zinsert(s, sc, m)[0] == (sc, m));
    } else {
        let rest = s.subrange(1, s.len() as int);
        lemma_zinsert_member(rest, sc, m);
        let j = choose|j: int|
            0 <= j < zinsert(rest, sc, m).len() && #[trigger] zinsert(rest, sc, m)[j] == (
            sc,
            m,
        );
        assert(zinsert(s, sc, m)[j + 1] == (sc, m));
    }
}

/// Re-inserting a member that the index already holds keeps the number of
/// entries the same and leaves the member present at the new score.
pub proof fn lemma_reinsert_keeps_len(z: Seq<(int, Seq<u8>)>, sc: int, m: Seq<u8>, at: int)
    requires
        zsorted(z),
        0 <= at < z.len(),
        z[at].1 == m,
    ensures
        zinsert(zremove(z, m), sc, m).len() == z.len(),
        exists|i: int|
            0 <= i < zinsert(zremove(z, m), sc, m).len() && #[trigger] zinsert(
                zremove(z, m),
                sc,
                m,
            )[i] == (sc, m),
{
    lemma_zremove_at(z, at);
    assert(zremove(z, m).len() == z.len() - 1);
    lemma_zinsert_len(zremove(z, m), sc, m);
    lemma_zinsert_member(zremove(z, m), sc, m);
}

} // verus!
