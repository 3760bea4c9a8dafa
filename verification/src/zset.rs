use vstd::prelude::*;

verus! {

broadcast use vstd::seq::group_seq_axioms;

// ---------------------------------------------------------------------------
// The sorted-set index: entries held in ascending (score, member) order, one
// entry per member. Scores are in millionths (see the score module).
// ---------------------------------------------------------------------------

pub struct ZEntry {
    pub score: i64,
    pub member: Vec<u8>,
}

pub struct ZSet {
    pub entries: Vec<ZEntry>,
}

/// Lexicographic order on byte strings.
pub open spec fn bytes_lt(a: Seq<u8>, b: Seq<u8>) -> bool
    decreases a.len(),
{
    if b.len() == 0 {
        false
    } else if a.len() == 0 {
        true
    } else if a[0] < b[0] {
        true
    } else if a[0] > b[0] {
        false
    } else {
        bytes_lt(a.skip(1), b.skip(1))
    }
}

/// The index order: score ascending, member bytes as the tie-break.
pub open spec fn entry_lt(s1: int, m1: Seq<u8>, s2: int, m2: Seq<u8>) -> bool {
    s1 < s2 || (s1 == s2 && bytes_lt(m1, m2))
}

impl View for ZEntry {
    type V = (int, Seq<u8>);

    open spec fn view(&self) -> (int, Seq<u8>) {
        (self.score as int, self.member@)
    }
}

impl View for ZSet {
    type V = Seq<(int, Seq<u8>)>;

    open spec fn view(&self) -> Seq<(int, Seq<u8>)> {
        Seq::new(self.entries@.len(), |i: int| self.entries@[i]@)
    }
}

/// Ascending and duplicate-free: every earlier entry is strictly below every
/// later one, and members never repeat.
pub open spec fn zsorted(s: Seq<(int, Seq<u8>)>) -> bool {
    &&& forall|i: int, j: int|
        0 <= i < j < s.len() ==> entry_lt((#[trigger] s[i]).0, s[i].1, (#[trigger] s[j]).0, s[j].1)
    &&& forall|i: int, j: int| 0 <= i < j < s.len() ==> (#[trigger] s[i]).1 != (#[trigger] s[j]).1
}

/// Holds of entries whose member differs from `m`.
pub open spec fn member_ne(m: Seq<u8>) -> spec_fn((int, Seq<u8>)) -> bool {
    |e: (int, Seq<u8>)| e.1 != m
}

/// Holds of entries whose score lies in `[min, max]`.
pub open spec fn score_in(min: int, max: int) -> spec_fn((int, Seq<u8>)) -> bool {
    |e: (int, Seq<u8>)| min <= e.0 && e.0 <= max
}

/// Holds of entries whose score lies outside `[min, max]`.
pub open spec fn score_out(min: int, max: int) -> spec_fn((int, Seq<u8>)) -> bool {
    |e: (int, Seq<u8>)| !(min <= e.0 && e.0 <= max)
}

/// Entries whose member differs from `m`.
pub open spec fn zremove(s: Seq<(int, Seq<u8>)>, m: Seq<u8>) -> Seq<(int, Seq<u8>)> {
    s.filter(member_ne(m))
}

/// Sorted insertion of a fresh entry.
pub open spec fn zinsert(s: Seq<(int, Seq<u8>)>, sc: int, m: Seq<u8>) -> Seq<(int, Seq<u8>)>
    decreases s.len(),
{
    if s.len() == 0 {
        seq![(sc, m)]
    } else if entry_lt(sc, m, s[0].0, s[0].1) {
        seq![(sc, m)] + s
    } else {
        seq![s[0]] + zinsert(s.subrange(1, s.len() as int), sc, m)
    }
}

/// The members, in index order.
pub open spec fn zmembers(s: Seq<(int, Seq<u8>)>) -> Seq<Seq<u8>> {
    s.map_values(|e: (int, Seq<u8>)| e.1)
}

/// The members whose score lies in `[min, max]`, in index order.
pub open spec fn zmembers_in(s: Seq<(int, Seq<u8>)>, min: int, max: int) -> Seq<Seq<u8>> {
    zmembers(s.filter(score_in(min, max)))
}

// ---------------------------------------------------------------------------
// Order lemmas.
// ---------------------------------------------------------------------------

/// Exactly one of `a < b`, `a == b`, `b < a` holds.
pub proof fn lemma_bytes_trichotomy(a: Seq<u8>, b: Seq<u8>)
    ensures
        bytes_lt(a, b) || bytes_lt(b, a) || a == b,
        bytes_lt(a, b) ==> !bytes_lt(b, a) && a != b,
        bytes_lt(b, a) ==> !bytes_lt(a, b) && a != b,
    decreases a.len(),
{
    if b.len() == 0 {
        if a.len() == 0 {
            assert(a =~= b);
        }
    } else if a.len() == 0 {
    } else if a[0] == b[0] {
        lemma_bytes_trichotomy(a.skip(1), b.skip(1));
        if a.skip(1) == b.skip(1) {
            assert forall|i: int| 0 <= i < a.len() implies a[i] == b[i] by {
                if i > 0 {
                    assert(a.skip(1)[i - 1] == a[i]);
                    assert(b.skip(1)[i - 1] == b[i]);
                }
            }
            assert(a =~= b);
        }
        if a == b {
            assert(a.skip(1) =~= b.skip(1));
        }
    }
}

pub proof fn lemma_bytes_lt_trans(a: Seq<u8>, b: Seq<u8>, c: Seq<u8>)
    requires
        bytes_lt(a, b),
        bytes_lt(b, c),
    ensures
        bytes_lt(a, c),
    decreases a.len(),
{
    if a.len() == 0 {
        assert(b.len() > 0);
        assert(c.len() > 0);
    } else {
        assert(b.len() > 0);
        assert(c.len() > 0);
        if a[0] == b[0] && b[0] == c[0] {
            lemma_bytes_lt_trans(a.skip(1), b.skip(1), c.skip(1));
        }
    }
}

pub proof fn lemma_entry_lt_trans(s1: int, m1: Seq<u8>, s2: int, m2: Seq<u8>, s3: int, m3: Seq<u8>)
    requires
        entry_lt(s1, m1, s2, m2),
        entry_lt(s2, m2, s3, m3),
    ensures
        entry_lt(s1, m1, s3, m3),
{
    if s1 == s2 && s2 == s3 {
        lemma_bytes_lt_trans(m1, m2, m3);
    }
}

/// If all of `s` satisfies `pred`, filtering by `pred` keeps `s` whole.
pub proof fn lemma_filter_all<A>(s: Seq<A>, pred: spec_fn(A) -> bool)
    requires
        forall|i: int| 0 <= i < s.len() ==> pred(#[trigger] s[i]),
    ensures
        s.filter(pred) == s,
    decreases s.len(),
{
    reveal(Seq::filter);
    if s.len() > 0 {
        assert(forall|i: int| 0 <= i < s.len() - 1 ==> s.drop_last()[i] == s[i]);
        lemma_filter_all(s.drop_last(), pred);
        assert(s.last() == s[s.len() - 1]);
        assert(pred(s.last()));
        assert(s.drop_last().filter(pred).push(s.last()) =~= s);
    }
}

/// If nothing in `s` satisfies `pred`, filtering by `pred` empties it.
pub proof fn lemma_filter_none<A>(s: Seq<A>, pred: spec_fn(A) -> bool)
    requires
        forall|i: int| 0 <= i < s.len() ==> !pred(#[trigger] s[i]),
    ensures
        s.filter(pred) == Seq::<A>::empty(),
    decreases s.len(),
{
    reveal(Seq::filter);
    if s.len() == 0 {
        assert(s =~= Seq::<A>::empty());
    } else {
        assert(forall|i: int| 0 <= i < s.len() - 1 ==> s.drop_last()[i] == s[i]);
        lemma_filter_none(s.drop_last(), pred);
        assert(s.last() == s[s.len() - 1]);
        assert(!pred(s.last()));
    }
}

/// Where a scan has placed the insertion point, the recursive sorted insert
/// lands there too.
pub proof fn lemma_zinsert_at(s: Seq<(int, Seq<u8>)>, sc: int, m: Seq<u8>, p: int)
    requires
        zsorted(s),
        0 <= p <= s.len(),
        forall|j: int| 0 <= j < p ==> entry_lt((#[trigger] s[j]).0, s[j].1, sc, m),
        p < s.len() ==> !entry_lt(s[p].0, s[p].1, sc, m),
        forall|j: int| 0 <= j < s.len() ==> (#[trigger] s[j]).1 != m,
    ensures
        zinsert(s, sc, m) == s.take(p) + seq![(sc, m)] + s.skip(p),
    decreases p,
{
    if s.len() == 0 {
        assert(zinsert(s, sc, m) =~= s.take(p) + seq![(sc, m)] + s.skip(p));
    } else if p == 0 {
        lemma_bytes_trichotomy(m, s[0].1);
        assert(entry_lt(sc, m, s[0].0, s[0].1));
        assert(zinsert(s, sc, m) =~= s.take(0) + seq![(sc, m)] + s.skip(0));
    } else {
        lemma_bytes_trichotomy(m, s[0].1);
        assert(entry_lt(s[0].0, s[0].1, sc, m));
        assert(!entry_lt(sc, m, s[0].0, s[0].1)) by {
            if entry_lt(sc, m, s[0].0, s[0].1) {
                lemma_bytes_trichotomy(s[0].1, m);
            }
        }
        let rest = s.subrange(1, s.len() as int);
        assert(forall|j: int| 0 <= j < rest.len() ==> #[trigger] rest[j] == s[j + 1]);
        lemma_zinsert_at(rest, sc, m, p - 1);
        assert(zinsert(s, sc, m) == seq![s[0]] + (rest.take(p - 1) + seq![(sc, m)] + rest.skip(
            p - 1,
        )));
        assert(seq![s[0]] + (rest.take(p - 1) + seq![(sc, m)] + rest.skip(p - 1)) =~= s.take(p)
            + seq![(sc, m)] + s.skip(p));
    }
}

// ---------------------------------------------------------------------------
// Executable comparisons.
// ---------------------------------------------------------------------------

/// Bytewise equality of two byte strings.
pub fn bytes_eq(a: &Vec<u8>, b: &Vec<u8>) -> (r: bool)
    ensures
        r == (a@ == b@),
{
    if a.len() != b.len() {
        proof {
            assert(a@ != b@);
        }
        return false;
    }
    let n = a.len();
    let mut i: usize = 0;
    while i < n
        invariant
            i <= n,
            n == a@.len(),
            n == b@.len(),
            forall|j: int| 0 <= j < i ==> a@[j] == b@[j],
        decreases n - i,
    {
        if a[i] != b[i] {
            return false;
        }
        i = i + 1;
    }
    proof {
        assert(a@ =~= b@);
    }
    true
}

/// Bytewise lexicographic comparison.
pub fn bytes_less(a: &Vec<u8>, b: &Vec<u8>) -> (r: bool)
    ensures
        r == bytes_lt(a@, b@),
{
    let an = a.len();
    let bn = b.len();
    proof {
        assert(a@.skip(0) =~= a@);
        assert(b@.skip(0) =~= b@);
    }
    let mut i: usize = 0;
    while i < an && i < bn
        invariant
            i <= an,
            i <= bn,
            an == a@.len(),
            bn == b@.len(),
            bytes_lt(a@, b@) == bytes_lt(a@.skip(i as int), b@.skip(i as int)),
        decreases an - i,
    {
        let x = a[i];
        let y = b[i];
        if x < y {
            proof {
                assert(a@.skip(i as int)[0] == x);
                assert(b@.skip(i as int)[0] == y);
            }
            return true;
        }
        if x > y {
            proof {
                assert(a@.skip(i as int)[0] == x);
                assert(b@.skip(i as int)[0] == y);
            }
            return false;
        }
        proof {
            assert(a@.skip(i as int)[0] == x);
            assert(b@.skip(i as int)[0] == y);
            assert(a@.skip(i as int).skip(1) =~= a@.skip(i + 1));
            assert(b@.skip(i as int).skip(1) =~= b@.skip(i + 1));
        }
        i = i + 1;
    }
    proof {
        assert(a@.skip(i as int).len() == an - i);
        assert(b@.skip(i as int).len() == bn - i);
    }
    an < bn
}

/// Whether `(e.score, e.member)` stands strictly before `(sc, m)`.
fn entry_before(e: &ZEntry, sc: i64, m: &Vec<u8>) -> (r: bool)
    ensures
        r == entry_lt(e.score as int, e.member@, sc as int, m@),
{
    if e.score < sc {
        true
    } else if e.score > sc {
        false
    } else {
        bytes_less(&e.member, m)
    }
}

// ---------------------------------------------------------------------------
// The index itself.
// ---------------------------------------------------------------------------

impl ZSet {
    pub open spec fn wf(&self) -> bool {
        zsorted(self@)
    }

    pub open spec fn contains_member(&self, m: Seq<u8>) -> bool {
        exists|i: int| 0 <= i < self@.len() && (#[trigger] self@[i]).1 == m
    }

    pub fn new() -> (z: ZSet)
        ensures
            z.wf(),
            z@ == Seq::<(int, Seq<u8>)>::empty(),
    {
        let z = ZSet { entries: Vec::new() };
        proof {
            assert(z@ =~= Seq::<(int, Seq<u8>)>::empty());
        }
        z
    }

    pub fn len(&self) -> (n: usize)
        ensures
            n == self@.len(),
    {
        self.entries.len()
    }

    /// Index of `member`, if present.
    fn find_member(&self, member: &Vec<u8>) -> (r: Option<usize>)
        ensures
            match r {
                Some(i) => i < self@.len() && self@[i as int].1 == member@,
                None => !self.contains_member(member@),
            },
    {
        let n = self.entries.len();
        let mut i: usize = 0;
        while i < n
            invariant
                i <= n,
                n == self.entries@.len(),
                forall|j: int| 0 <= j < i ==> (#[trigger] self@[j]).1 != member@,
            decreases n - i,
        {
            if bytes_eq(&self.entries[i].member, member) {
                proof {
                    assert(self@[i as int].1 == member@);
                }
                return Some(i);
            }
            proof {
                assert(self@[i as int].1 == self.entries@[i as int].member@);
            }
            i = i + 1;
        }
        None
    }

    /// Removes `member` if present; reports whether it was there.
    pub fn remove_member(&mut self, member: &Vec<u8>) -> (r: bool)
        requires
            old(self).wf(),
        ensures
            final(self).wf(),
            final(self)@ == zremove(old(self)@, member@),
            r == old(self).contains_member(member@),
    {
        let ghost s0 = self@;
        let ghost pred = member_ne(member@);
        match self.find_member(member) {
            Some(i) => {
                self.entries.remove(i);
                proof {
                    let s1 = self@;
                    assert(s1 =~= s0.take(i as int) + s0.skip(i + 1));
                    assert forall|j: int| 0 <= j < s0.take(i as int).len() implies pred(
                        #[trigger] s0.take(i as int)[j],
                    ) by {
                        assert(s0.take(i as int)[j] == s0[j]);
                        assert(s0[j].1 != s0[i as int].1);
                    }
                    assert forall|j: int| 0 <= j < s0.skip(i + 1).len() implies pred(
                        #[trigger] s0.skip(i + 1)[j],
                    ) by {
                        assert(s0.skip(i + 1)[j] == s0[j + i + 1]);
                        assert(s0[i as int].1 != s0[j + i + 1].1);
                    }
                    reveal(Seq::filter);
                    lemma_filter_all(s0.take(i as int), pred);
                    lemma_filter_all(s0.skip(i + 1), pred);
                    lemma_filter_none(seq![s0[i as int]], pred);
                    Seq::filter_distributes_over_add(
                        s0.take(i as int) + seq![s0[i as int]],
                        s0.skip(i + 1),
                        pred,
                    );
                    Seq::filter_distributes_over_add(
                        s0.take(i as int),
                        seq![s0[i as int]],
                        pred,
                    );
                    assert(s0.take(i as int) + seq![s0[i as int]] + s0.skip(i + 1) =~= s0);
                    assert(s0.filter(pred) =~= s1);
                    assert(zsorted(s1)) by {
                        assert(forall|j: int|
                            0 <= j < s1.len() ==> #[trigger] s1[j] == (if j < i {
                                s0[j]
                            } else {
                                s0[j + 1]
                            }));
                    }
                }
                true
            }
            None => {
                proof {
                    reveal(Seq::filter);
                    assert forall|j: int| 0 <= j < s0.len() implies pred(#[trigger] s0[j]) by {
                        assert(!(0 <= j < s0.len() && s0[j].1 == member@));
                    }
                    lemma_filter_all(s0, pred);
                }
                false
            }
        }
    }

    /// Inserts `member` at `score`, replacing any previous entry for it.
    pub fn insert(&mut self, score: i64, member: Vec<u8>)
        requires
            old(self).wf(),
        ensures
            final(self).wf(),
            final(self)@ == zinsert(zremove(old(self)@, member@), score as int, member@),
    {
        self.remove_member(&member);
        let ghost s1 = self@;
        let n = self.entries.len();
        let mut p: usize = 0;
        while p < n && entry_before(&self.entries[p], score, &member)
            invariant
                p <= n,
                n == self.entries@.len(),
                s1 == self@,
                forall|j: int|
                    0 <= j < p ==> entry_lt(
                        (#[trigger] self@[j]).0,
                        self@[j].1,
                        score as int,
                        member@,
                    ),
                p < n ==> (p > 0 ==> entry_lt(self@[p - 1].0, self@[p - 1].1, score as int,
                    member@)),
            decreases n - p,
        {
            proof {
                assert(self@[p as int].0 == self.entries@[p as int].score as int);
            }
            p = p + 1;
        }
        let ghost mm = member@;
        self.entries.insert(p, ZEntry { score, member });
        proof {
            let s2 = self@;
            assert(s2 =~= s1.take(p as int) + seq![(score as int, mm)] + s1.skip(p as int));
            assert forall|j: int| 0 <= j < s1.len() implies (#[trigger] s1[j]).1 != mm by {
                old(self)@.lemma_filter_pred(member_ne(mm), j);
            }
            lemma_zinsert_at(s1, score as int, mm, p as int);
            // the new sequence is sorted and duplicate-free
            assert forall|j: int| p < j < s2.len() implies entry_lt(
                score as int,
                mm,
                (#[trigger] s2[j]).0,
                s2[j].1,
            ) by {
                assert(s2[j] == s1[j - 1]);
                lemma_bytes_trichotomy(mm, s1[p as int].1);
                assert(entry_lt(score as int, mm, s1[p as int].0, s1[p as int].1));
                if j - 1 > p {
                    lemma_entry_lt_trans(
                        score as int,
                        mm,
                        s1[p as int].0,
                        s1[p as int].1,
                        s1[j - 1].0,
                        s1[j - 1].1,
                    );
                }
            }
            assert forall|i: int, j: int| 0 <= i < j < s2.len() implies entry_lt(
                (#[trigger] s2[i]).0,
                s2[i].1,
                (#[trigger] s2[j]).0,
                s2[j].1,
            ) by {
                if i < p && j < p {
                    assert(s2[i] == s1[i] && s2[j] == s1[j]);
                } else if i < p && j == p {
                    assert(s2[i] == s1[i]);
                } else if i < p && j > p {
                    assert(s2[i] == s1[i] && s2[j] == s1[j - 1]);
                } else if i == p {
                } else {
                    assert(s2[i] == s1[i - 1] && s2[j] == s1[j - 1]);
                }
            }
            assert forall|i: int, j: int| 0 <= i < j < s2.len() implies (#[trigger] s2[i]).1 != (
            #[trigger] s2[j]).1 by {
                assert(entry_lt(s2[i].0, s2[i].1, s2[j].0, s2[j].1));
                if s2[i].1 == s2[j].1 {
                    lemma_bytes_trichotomy(s2[i].1, s2[j].1);
                }
            }
        }
    }

    /// Score of `member`, if present.
    pub fn get_score(&self, member: &Vec<u8>) -> (r: Option<i64>)
        requires
            self.wf(),
        ensures
            match r {
                Some(sc) => exists|i: int|
                    0 <= i < self@.len() && #[trigger] self@[i] == (sc as int, member@),
                None => !self.contains_member(member@),
            },
    {
        match self.find_member(member) {
            Some(i) => {
                let sc = self.entries[i].score;
                proof {
                    assert(self@[i as int] == (sc as int, member@));
                }
                Some(sc)
            }
            None => None,
        }
    }

    /// 0-based position of `member` in ascending order, if present.
    pub fn rank(&self, member: &Vec<u8>) -> (r: Option<usize>)
        requires
            self.wf(),
        ensures
            match r {
                Some(i) => i < self@.len() && self@[i as int].1 == member@,
                None => !self.contains_member(member@),
            },
    {
        self.find_member(member)
    }

    /// Members with rank in `[start, end]`, ascending.
    pub fn range_by_rank(&self, start: usize, end: usize) -> (r: Vec<Vec<u8>>)
        requires
            start <= end < self@.len(),
        ensures
            r@.map_values(|m: Vec<u8>| m@) == zmembers(self@).subrange(
                start as int,
                end + 1,
            ),
    {
        let n = self.entries.len();
        let mut out: Vec<Vec<u8>> = Vec::new();
        let mut i = start;
        while i <= end
            invariant
                start <= i <= end + 1,
                end < n,
                n == self.entries@.len(),
                out@.len() == i - start,
                out@.map_values(|m: Vec<u8>| m@) =~= zmembers(self@).subrange(
                    start as int,
                    i as int,
                ),
            decreases end + 1 - i,
        {
            let e = &self.entries[i];
            let mut copy: Vec<u8> = Vec::new();
            copy_bytes(&mut copy, &e.member);
            let ghost prev = out@;
            out.push(copy);
            proof {
                assert(copy@ == self.entries@[i as int].member@);
                let lhs = out@.map_values(|m: Vec<u8>| m@);
                let rhs = zmembers(self@).subrange(start as int, i + 1);
                assert(lhs.len() == rhs.len());
                assert forall|j: int| 0 <= j < lhs.len() implies lhs[j] == rhs[j] by {
                    assert(rhs[j] == zmembers(self@)[start + j]);
                    assert(zmembers(self@)[start + j] == self@[start + j].1);
                    if j < i - start {
                        assert(out@[j] == prev[j]);
                        assert(lhs[j] == prev.map_values(|m: Vec<u8>| m@)[j]);
                        assert(prev.map_values(|m: Vec<u8>| m@)[j] == zmembers(
                            self@,
                        ).subrange(start as int, i as int)[j]);
                    } else {
                        assert(out@[j] == copy);
                        assert(self@[i as int].1 == self.entries@[i as int].member@);
                    }
                }
                assert(lhs =~= rhs);
            }
            i = i + 1;
        }
        out
    }

    /// Members with score in `[min, max]`, ascending.
    pub fn range_by_score(&self, min: i64, max: i64) -> (r: Vec<Vec<u8>>)
        ensures
            r@.map_values(|m: Vec<u8>| m@) == zmembers_in(self@, min as int, max as int),
    {
        let ghost pred = score_in(min as int, max as int);
        let mut out: Vec<Vec<u8>> = Vec::new();
        let n = self.entries.len();
        proof {
            reveal(Seq::filter);
            assert(self@.take(0) =~= Seq::<(int, Seq<u8>)>::empty());
            assert(Seq::<(int, Seq<u8>)>::empty().filter(pred) =~= Seq::<(
                int,
                Seq<u8>,
            )>::empty());
            assert(out@.map_values(|m: Vec<u8>| m@) =~= zmembers(
                Seq::<(int, Seq<u8>)>::empty(),
            ));
        }
        let mut i: usize = 0;
        while i < n
            invariant
                i <= n,
                n == self.entries@.len(),
                pred == score_in(min as int, max as int),
                out@.map_values(|m: Vec<u8>| m@) =~= zmembers(self@.take(i as int).filter(pred)),
            decreases n - i,
        {
            let e = &self.entries[i];
            proof {
                reveal(Seq::filter);
                assert(self@.take(i + 1).drop_last() =~= self@.take(i as int));
                assert(self@.take(i + 1).last() == self@[i as int]);
            }
            if min <= e.score && e.score <= max {
                let mut copy: Vec<u8> = Vec::new();
                copy_bytes(&mut copy, &e.member);
                out.push(copy);
                proof {
                    reveal(Seq::filter);
                    assert(self@[i as int] == (e.score as int, e.member@));
                    assert(pred(self@[i as int]));
                    assert(self@.take(i + 1).filter(pred) == self@.take(i as int).filter(
                        pred,
                    ).push(self@[i as int]));
                    assert(zmembers(self@.take(i + 1).filter(pred)) =~= zmembers(
                        self@.take(i as int).filter(pred),
                    ).push(self@[i as int].1));
                    assert(copy@ == self@[i as int].1);
                    assert(out@.map_values(|m: Vec<u8>| m@) =~= zmembers(self@.take(i + 1).filter(
                        pred,
                    )));
                }
            } else {
                proof {
                    reveal(Seq::filter);
                    assert(self@[i as int] == (e.score as int, e.member@));
                    assert(!pred(self@[i as int]));
                    assert(self@.take(i + 1).filter(pred) == self@.take(i as int).filter(pred));
                }
            }
            i = i + 1;
        }
        proof {
            assert(self@.take(n as int) =~= self@);
        }
        out
    }

    /// Removes every entry with score in `[min, max]`; returns how many left.
    pub fn remove_range_by_score(&mut self, min: i64, max: i64) -> (r: usize)
        requires
            old(self).wf(),
        ensures
            final(self).wf(),
            final(self)@ == old(self)@.filter(score_out(min as int, max as int)),
            r == old(self)@.len() - final(self)@.len(),
    {
        let ghost s0 = self@;
        let ghost keep = score_out(min as int, max as int);
        let n = self.entries.len();
        // the in-range entries form one block, since scores ascend
        let mut lo: usize = 0;
        while lo < n && self.entries[lo].score < min
            invariant
                lo <= n,
                n == self.entries@.len(),
                s0 == self@,
                zsorted(s0),
                forall|j: int| 0 <= j < lo ==> (#[trigger] s0[j]).0 < min,
            decreases n - lo,
        {
            proof {
                assert(s0[lo as int].0 == self.entries@[lo as int].score as int);
            }
            lo = lo + 1;
        }
        let mut hi: usize = lo;
        while hi < n && self.entries[hi].score <= max
            invariant
                lo <= hi <= n,
                n == self.entries@.len(),
                s0 == self@,
                zsorted(s0),
                forall|j: int| 0 <= j < lo ==> (#[trigger] s0[j]).0 < min,
                lo < n ==> min <= s0[lo as int].0,
                forall|j: int| lo <= j < hi ==> (#[trigger] s0[j]).0 <= max,
                forall|j: int| lo <= j < hi ==> min <= (#[trigger] s0[j]).0,
            decreases n - hi,
        {
            proof {
                assert(s0[hi as int].0 == self.entries@[hi as int].score as int);
                if hi > lo {
                    assert(entry_lt(s0[lo as int].0, s0[lo as int].1, s0[hi as int].0,
                        s0[hi as int].1));
                }
            }
            hi = hi + 1;
        }
        // remove the block [lo, hi)
        let count = hi - lo;
        let mut removed: usize = 0;
        while removed < count
            invariant
                removed <= count,
                count == hi - lo,
                lo <= hi <= n,
                n == s0.len(),
                self.entries@.len() == n - removed,
                self@ =~= s0.take(lo as int) + s0.subrange(lo + removed, hi as int)
                    + s0.subrange(hi as int, n as int),
            decreases count - removed,
        {
            let ghost cur = self@;
            self.entries.remove(lo);
            proof {
                assert(self@ =~= cur.take(lo as int) + cur.skip(lo + 1));
                assert(cur.take(lo as int) =~= s0.take(lo as int));
                assert(cur.skip(lo + 1) =~= s0.subrange(lo + removed + 1, hi as int)
                    + s0.subrange(hi as int, n as int));
                assert(self@ =~= s0.take(lo as int) + s0.subrange(lo + removed + 1, hi as int)
                    + s0.subrange(hi as int, n as int));
            }
            removed = removed + 1;
        }
        proof {
            let s2 = self@;
            assert(s0.subrange(lo + count, hi as int) =~= Seq::<(int, Seq<u8>)>::empty());
            assert(s2 =~= s0.take(lo as int) + s0.subrange(hi as int, n as int));
            // before the block: scores under min
            assert forall|j: int| 0 <= j < s0.take(lo as int).len() implies keep(
                #[trigger] s0.take(lo as int)[j],
            ) by {
                assert(s0.take(lo as int)[j] == s0[j]);
            }
            // at and past hi: scores over max
            assert forall|j: int| 0 <= j < s0.subrange(hi as int, n as int).len() implies keep(
                #[trigger] s0.subrange(hi as int, n as int)[j],
            ) by {
                let e = s0.subrange(hi as int, n as int)[j];
                assert(e == s0[j + hi]);
                assert(hi < n);
                assert(s0[hi as int].0 > max);
                if j > 0 {
                    assert(entry_lt(s0[hi as int].0, s0[hi as int].1, s0[j + hi].0, s0[j + hi].1));
                }
                assert(e.0 > max);
            }
            // inside the block: scores in range
            assert forall|j: int| 0 <= j < s0.subrange(lo as int, hi as int).len() implies !keep(
                #[trigger] s0.subrange(lo as int, hi as int)[j],
            ) by {
                assert(s0.subrange(lo as int, hi as int)[j] == s0[j + lo]);
            }
            lemma_filter_all(s0.take(lo as int), keep);
            lemma_filter_all(s0.subrange(hi as int, n as int), keep);
            lemma_filter_none(s0.subrange(lo as int, hi as int), keep);
            Seq::filter_distributes_over_add(
                s0.take(lo as int) + s0.subrange(lo as int, hi as int),
                s0.subrange(hi as int, n as int),
                keep,
            );
            Seq::filter_distributes_over_add(
                s0.take(lo as int),
                s0.subrange(lo as int, hi as int),
                keep,
            );
            assert(s0.take(lo as int) + s0.subrange(lo as int, hi as int) + s0.subrange(
                hi as int,
                n as int,
            ) =~= s0);
            assert(s0.filter(keep) =~= s2);
            assert(forall|j: int|
                0 <= j < s2.len() ==> #[trigger] s2[j] == (if j < lo {
                    s0[j]
                } else {
                    s0[j + (hi - lo)]
                }));
            assert forall|i: int, j: int| 0 <= i < j < s2.len() implies entry_lt(
                (#[trigger] s2[i]).0,
                s2[i].1,
                (#[trigger] s2[j]).0,
                s2[j].1,
            ) && s2[i].1 != s2[j].1 by {
                let i0 = if i < lo { i } else { i + (hi - lo) };
                let j0 = if j < lo { j } else { j + (hi - lo) };
                assert(s2[i] == s0[i0]);
                assert(s2[j] == s0[j0]);
                assert(entry_lt(s0[i0].0, s0[i0].1, s0[j0].0, s0[j0].1));
            }
            assert(zsorted(s2));
        }
        count
    }
}

/// A fresh copy of a byte string.
pub fn bytes_clone(src: &Vec<u8>) -> (r: Vec<u8>)
    ensures
        r@ == src@,
{
    let mut out: Vec<u8> = Vec::new();
    copy_bytes(&mut out, src);
    proof {
        assert(Seq::<u8>::empty() + src@ =~= src@);
    }
    out
}

/// Appends all bytes of `src` to `out`.
pub fn copy_bytes(out: &mut Vec<u8>, src: &Vec<u8>)
    ensures
        final(out)@ == old(out)@ + src@,
{
    let n = src.len();
    let mut i: usize = 0;
    while i < n
        invariant
            i <= n,
            n == src@.len(),
            out@ == old(out)@ + src@.take(i as int),
        decreases n - i,
    {
        out.push(src[i]);
        proof {
            assert(old(out)@ + src@.take(i as int) + seq![src@[i as int]] =~= old(out)@
                + src@.take(i + 1));
        }
        i = i + 1;
    }
    proof {
        assert(src@.take(n as int) =~= src@);
    }
}

} // verus!
