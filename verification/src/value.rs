use vstd::prelude::*;

use crate::zset::ZSet;

verus! {

broadcast use vstd::seq::group_seq_axioms;

// ---------------------------------------------------------------------------
// The tagged value a key can hold, and its mathematical model.
// ---------------------------------------------------------------------------

pub struct HashField {
    pub field: Vec<u8>,
    pub value: Vec<u8>,
}

pub enum Value {
    Str(Vec<u8>),
    List(Vec<Vec<u8>>),
    Hash(Vec<HashField>),
    SetVal(Vec<Vec<u8>>),
    ZSet(ZSet),
}

pub enum ValueModel {
    Str(Seq<u8>),
    List(Seq<Seq<u8>>),
    Hash(Seq<(Seq<u8>, Seq<u8>)>),
    SetVal(Seq<Seq<u8>>),
    ZSet(Seq<(int, Seq<u8>)>),
}

impl View for Value {
    type V = ValueModel;

    open spec fn view(&self) -> ValueModel {
        match self {
            Value::Str(b) => ValueModel::Str(b@),
            Value::List(items) => ValueModel::List(
                Seq::new(items@.len(), |i: int| items@[i]@),
            ),
            Value::Hash(fields) => ValueModel::Hash(
                Seq::new(fields@.len(), |i: int| (fields@[i].field@, fields@[i].value@)),
            ),
            Value::SetVal(members) => ValueModel::SetVal(
                Seq::new(members@.len(), |i: int| members@[i]@),
            ),
            Value::ZSet(z) => ValueModel::ZSet(z@),
        }
    }
}

/// A key paired with a byte-string value, as MSET hands them around.
pub struct Pair {
    pub k: Vec<u8>,
    pub v: Vec<u8>,
}

impl View for Pair {
    type V = (Seq<u8>, Seq<u8>);

    open spec fn view(&self) -> (Seq<u8>, Seq<u8>) {
        (self.k@, self.v@)
    }
}

/// Key uniqueness over an association sequence.
pub open spec fn assoc_unique<V>(s: Seq<(Seq<u8>, V)>) -> bool {
    forall|i: int, j: int| 0 <= i < j < s.len() ==> (#[trigger] s[i]).0 != (#[trigger] s[j]).0
}

/// First position of `k`, if any.
pub open spec fn assoc_has<V>(s: Seq<(Seq<u8>, V)>, k: Seq<u8>) -> bool {
    exists|i: int| 0 <= i < s.len() && (#[trigger] s[i]).0 == k
}

/// The association sequence read as a map; later pairs win.
pub open spec fn assoc_map<V>(s: Seq<(Seq<u8>, V)>) -> Map<Seq<u8>, V>
    decreases s.len(),
{
    if s.len() == 0 {
        Map::empty()
    } else {
        assoc_map(s.drop_last()).insert(s.last().0, s.last().1)
    }
}

pub proof fn lemma_assoc_dom<V>(s: Seq<(Seq<u8>, V)>, k: Seq<u8>)
    ensures
        assoc_map(s).contains_key(k) <==> assoc_has(s, k),
    decreases s.len(),
{
    if s.len() > 0 {
        lemma_assoc_dom(s.drop_last(), k);
        if assoc_has(s.drop_last(), k) {
            let i = choose|i: int| 0 <= i < s.len() - 1 && (#[trigger] s.drop_last()[i]).0 == k;
            assert(s[i].0 == k);
        }
        if assoc_map(s).contains_key(k) {
            if s.last().0 == k {
                assert(s[s.len() - 1].0 == k);
            }
        }
        if assoc_has(s, k) && s.last().0 != k {
            let i = choose|i: int| 0 <= i < s.len() && (#[trigger] s[i]).0 == k;
            assert(i < s.len() - 1);
            assert(s.drop_last()[i].0 == k);
        }
    }
}

/// With unique keys, the map reads each pair back.
pub proof fn lemma_assoc_at<V>(s: Seq<(Seq<u8>, V)>, i: int)
    requires
        assoc_unique(s),
        0 <= i < s.len(),
    ensures
        assoc_map(s).contains_key(s[i].0),
        assoc_map(s)[s[i].0] == s[i].1,
    decreases s.len(),
{
    if i == s.len() - 1 {
        assert(s.last() == s[i]);
    } else {
        assert(forall|x: int, y: int|
            0 <= x < y < s.len() - 1 ==> (#[trigger] s.drop_last()[x]).0 != (
            #[trigger] s.drop_last()[y]).0);
        lemma_assoc_at(s.drop_last(), i);
        assert(s.drop_last()[i] == s[i]);
        assert(s.last().0 != s[i].0);
    }
}

/// Dropping the pair at `i` takes its key out of the map.
pub proof fn lemma_assoc_remove<V>(s: Seq<(Seq<u8>, V)>, i: int)
    requires
        assoc_unique(s),
        0 <= i < s.len(),
    ensures
        assoc_map(s.take(i) + s.skip(i + 1)) == assoc_map(s).remove(s[i].0),
    decreases s.len(),
{
    let k = s[i].0;
    let s2 = s.take(i) + s.skip(i + 1);
    if i == s.len() - 1 {
        assert(s2 =~= s.drop_last());
        assert(forall|x: int| 0 <= x < s.len() - 1 ==> (#[trigger] s[x]).0 != k);
        assert forall|x: int| 0 <= x < s.drop_last().len() implies (
        #[trigger] s.drop_last()[x]).0 != k by {
            assert(s.drop_last()[x] == s[x]);
        }
        lemma_assoc_dom(s.drop_last(), k);
        assert(!assoc_map(s.drop_last()).contains_key(k));
        assert(assoc_map(s) == assoc_map(s.drop_last()).insert(k, s.last().1));
        assert(assoc_map(s).remove(k) =~= assoc_map(s.drop_last()));
    } else {
        let sd = s.drop_last();
        assert(forall|x: int, y: int|
            0 <= x < y < sd.len() ==> (#[trigger] sd[x]).0 != (#[trigger] sd[y]).0);
        lemma_assoc_remove(sd, i);
        assert(sd[i] == s[i]);
        let sd2 = sd.take(i) + sd.skip(i + 1);
        assert(assoc_map(sd2) == assoc_map(sd).remove(k));
        assert(s2.drop_last() =~= sd2);
        assert(s2.last() == s.last());
        assert(assoc_map(s2) == assoc_map(sd2).insert(s.last().0, s.last().1));
        assert(s.last().0 != k);
        assert(assoc_map(sd).remove(k).insert(s.last().0, s.last().1) =~= assoc_map(
            sd,
        ).insert(s.last().0, s.last().1).remove(k));
    }
}

/// First index of `k`, if any.
pub open spec fn assoc_idx<V>(s: Seq<(Seq<u8>, V)>, k: Seq<u8>) -> Option<int>
    decreases s.len(),
{
    if s.len() == 0 {
        None
    } else if s[0].0 == k {
        Some(0)
    } else {
        match assoc_idx(s.subrange(1, s.len() as int), k) {
            Some(i) => Some(i + 1),
            None => None,
        }
    }
}

pub proof fn lemma_assoc_idx<V>(s: Seq<(Seq<u8>, V)>, k: Seq<u8>)
    ensures
        match assoc_idx(s, k) {
            Some(i) => 0 <= i < s.len() && s[i].0 == k && forall|j: int|
                0 <= j < i ==> (#[trigger] s[j]).0 != k,
            None => forall|j: int| 0 <= j < s.len() ==> (#[trigger] s[j]).0 != k,
        },
    decreases s.len(),
{
    if s.len() == 0 {
    } else if s[0].0 == k {
    } else {
        let rest = s.subrange(1, s.len() as int);
        lemma_assoc_idx(rest, k);
        assert(forall|j: int| 0 <= j < rest.len() ==> #[trigger] rest[j] == s[j + 1]);
        match assoc_idx(rest, k) {
            Some(i) => {
                assert(s[i + 1].0 == k);
                assert forall|j: int| 0 <= j < i + 1 implies (#[trigger] s[j]).0 != k by {
                    if j > 0 {
                        assert(rest[j - 1] == s[j]);
                    }
                }
            }
            None => {
                assert forall|j: int| 0 <= j < s.len() implies (#[trigger] s[j]).0 != k by {
                    if j > 0 {
                        assert(rest[j - 1] == s[j]);
                    }
                }
            }
        }
    }
}

/// If `k` first occurs at `i`, the search finds exactly `i`.
pub proof fn lemma_assoc_idx_is<V>(s: Seq<(Seq<u8>, V)>, k: Seq<u8>, i: int)
    requires
        0 <= i < s.len(),
        s[i].0 == k,
        forall|j: int| 0 <= j < i ==> (#[trigger] s[j]).0 != k,
    ensures
        assoc_idx(s, k) == Some(i),
{
    lemma_assoc_idx(s, k);
    match assoc_idx(s, k) {
        Some(i2) => {
            if i2 < i {
                assert(s[i2].0 != k);
            } else if i2 > i {
                assert(s[i].0 != k);
            }
        }
        None => {
            assert(s[i].0 != k);
        }
    }
}

/// The value stored under `k`, if any.
pub open spec fn assoc_get<V>(s: Seq<(Seq<u8>, V)>, k: Seq<u8>) -> Option<V> {
    match assoc_idx(s, k) {
        Some(i) => Some(s[i].1),
        None => None,
    }
}

/// Appending a pair writes its key into the map.
pub proof fn lemma_assoc_push<V>(s: Seq<(Seq<u8>, V)>, k: Seq<u8>, v: V)
    ensures
        assoc_map(s.push((k, v))) == assoc_map(s).insert(k, v),
{
    assert(s.push((k, v)).drop_last() =~= s);
    assert(s.push((k, v)).last() == (k, v));
}

} // verus!
