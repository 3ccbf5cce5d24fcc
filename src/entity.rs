//! The entities that a reconciliation pass compares: what the remote side
//! holds (observed) and what the roster asks for (desired), both keyed by name.

use vstd::prelude::*;

verus! {

/// An entity identified by its name.
pub trait Named: Sized {
    /// The name that keys the entity within one tenant's set.
    spec fn key(&self) -> Seq<char>;

    fn name(&self) -> (r: &String)
        ensures
            r@ == self.key(),
    ;

    fn duplicate(&self) -> (r: Self)
        ensures
            r == *self,
    ;
}

/// A resource that exists on the remote side.
pub struct ObservedEntity {
    /// The remote handle of the resource.
    pub id: u64,
    pub name: String,
    /// The role color; `None` for channels.
    pub color: Option<u32>,
    /// The index of the resource within its container.
    pub position: u16,
}

/// A resource that the roster asks for.
pub struct DesiredEntity {
    pub name: String,
    /// The role color; `None` for channels.
    pub color: Option<u32>,
    /// The target index within the container; `None` where order is not managed.
    pub position: Option<u16>,
}

impl Named for ObservedEntity {
    open spec fn key(&self) -> Seq<char> {
        self.name@
    }

    fn name(&self) -> (r: &String) {
        &self.name
    }

    fn duplicate(&self) -> (r: Self) {
        ObservedEntity { id: self.id, name: self.name.clone(), color: self.color, position: self.position }
    }
}

impl Named for DesiredEntity {
    open spec fn key(&self) -> Seq<char> {
        self.name@
    }

    fn name(&self) -> (r: &String) {
        &self.name
    }

    fn duplicate(&self) -> (r: Self) {
        DesiredEntity { name: self.name.clone(), color: self.color, position: self.position }
    }
}

/// No two entities of `s` share a name.
pub open spec fn unique_keys<T: Named>(s: Seq<T>) -> bool {
    forall|i: int, j: int| 0 <= i < j < s.len() ==> #[trigger] s[i].key() != #[trigger] s[j].key()
}

/// Some entity of `s` is named `k`.
pub open spec fn has_key<T: Named>(s: Seq<T>, k: Seq<char>) -> bool {
    exists|i: int| 0 <= i < s.len() && #[trigger] s[i].key() == k
}

/// The index of an entity of `s` named `k` (the only one where keys are unique).
pub open spec fn key_index<T: Named>(s: Seq<T>, k: Seq<char>) -> int {
    choose|i: int| 0 <= i < s.len() && #[trigger] s[i].key() == k
}

/// A later entity of `s` carries the name of the entity at `i`.
pub open spec fn later_has_key<T: Named>(s: Seq<T>, i: int) -> bool {
    exists|j: int| i < j < s.len() && #[trigger] s[j].key() == s[i].key()
}

/// The entities among the first `n` of `s` that are the last of their name,
/// in their order in `s`.
pub open spec fn kept<T: Named>(s: Seq<T>, n: int) -> Seq<T>
    decreases n,
{
    if n <= 0 {
        seq![]
    } else if later_has_key(s, n - 1) {
        kept(s, n - 1)
    } else {
        kept(s, n - 1).push(s[n - 1])
    }
}

/// `s` with each name kept once: where names repeat, the last one wins.
pub open spec fn collapsed<T: Named>(s: Seq<T>) -> Seq<T> {
    kept(s, s.len() as int)
}

/// Where keys are unique, the index that `key_index` picks is the one that holds `k`.
pub proof fn lemma_key_index<T: Named>(s: Seq<T>, i: int)
    requires
        unique_keys(s),
        0 <= i < s.len(),
    ensures
        key_index(s, s[i].key()) == i,
{
    let k = s[i].key();
    assert(s[i].key() == k);
    let j = key_index(s, k);
    if j < i {
        assert(s[j].key() != s[i].key());
    } else if j > i {
        assert(s[i].key() != s[j].key());
    }
}

/// Two name-unique sequences with the same entities agree on each name.
pub proof fn lemma_same_entries<T: Named>(s1: Seq<T>, s2: Seq<T>, k: Seq<char>)
    requires
        unique_keys(s1),
        unique_keys(s2),
        s1.to_set() == s2.to_set(),
    ensures
        has_key(s1, k) == has_key(s2, k),
        has_key(s1, k) ==> s1[key_index(s1, k)] == s2[key_index(s2, k)],
{
    if has_key(s1, k) {
        let i = key_index(s1, k);
        assert(s1.to_set().contains(s1[i]));
        assert(s2.contains(s1[i]));
        let j = choose|j: int| 0 <= j < s2.len() && s2[j] == s1[i];
        assert(s2[j].key() == k);
        lemma_key_index(s2, j);
    }
    if has_key(s2, k) {
        let j = key_index(s2, k);
        assert(s2.to_set().contains(s2[j]));
        assert(s1.contains(s2[j]));
        let i = choose|i: int| 0 <= i < s1.len() && s1[i] == s2[j];
        assert(s1[i].key() == k);
    }
}

proof fn lemma_kept_from<T: Named>(s: Seq<T>, n: int)
    requires
        0 <= n <= s.len(),
    ensures
        forall|x: int|
            #![trigger kept(s, n)[x]]
            0 <= x < kept(s, n).len() ==> exists|i: int|
                #![trigger s[i]]
                0 <= i < n && kept(s, n)[x] == s[i] && !later_has_key(s, i),
        forall|i: int| 0 <= i < n && !later_has_key(s, i) ==> kept(s, n).contains(s[i]),
    decreases n,
{
    if n > 0 {
        lemma_kept_from(s, n - 1);
        let p = kept(s, n - 1);
        if !later_has_key(s, n - 1) {
            assert forall|x: int| #![trigger kept(s, n)[x]] 0 <= x < kept(s, n).len() implies exists|i: int|
                #![trigger s[i]]
                0 <= i < n && kept(s, n)[x] == s[i] && !later_has_key(s, i) by {
                if x == p.len() {
                    assert(kept(s, n)[x] == s[n - 1]);
                } else {
                    assert(kept(s, n)[x] == p[x]);
                }
            }
            assert forall|i: int| 0 <= i < n && !later_has_key(s, i) implies kept(s, n).contains(
                s[i],
            ) by {
                if i == n - 1 {
                    assert(kept(s, n)[p.len() as int] == s[i]);
                } else {
                    let x = choose|x: int| 0 <= x < p.len() && p[x] == s[i];
                    assert(kept(s, n)[x] == s[i]);
                }
            }
        }
    }
}

proof fn lemma_kept_unique<T: Named>(s: Seq<T>, n: int)
    requires
        0 <= n <= s.len(),
    ensures
        unique_keys(kept(s, n)),
    decreases n,
{
    if n > 0 {
        lemma_kept_unique(s, n - 1);
        lemma_kept_from(s, n - 1);
        let p = kept(s, n - 1);
        if !later_has_key(s, n - 1) {
            let q = kept(s, n);
            assert forall|a: int, b: int| 0 <= a < b < q.len() implies #[trigger] q[a].key()
                != #[trigger] q[b].key() by {
                if b == p.len() {
                    assert(q[a] == p[a]);
                    let i = choose|i: int| 0 <= i < n - 1 && p[a] == s[i] && !later_has_key(s, i);
                    assert(q[b] == s[n - 1]);
                    if q[a].key() == q[b].key() {
                        assert(s[n - 1].key() == s[i].key());
                        assert(later_has_key(s, i));
                    }
                } else {
                    assert(q[a] == p[a] && q[b] == p[b]);
                }
            }
        }
    }
}

/// Some index at or after `i` holds the last entity named like `s[i]`.
proof fn lemma_last_of_key<T: Named>(s: Seq<T>, i: int)
    requires
        0 <= i < s.len(),
    ensures
        exists|j: int| i <= j < s.len() && s[j].key() == s[i].key() && !later_has_key(s, j),
    decreases s.len() - i,
{
    if later_has_key(s, i) {
        let j = choose|j: int| i < j < s.len() && #[trigger] s[j].key() == s[i].key();
        lemma_last_of_key(s, j);
    } else {
        assert(i <= i < s.len() && s[i].key() == s[i].key() && !later_has_key(s, i));
    }
}

/// What collapsing keeps: names are unique, every name of `s` survives, and
/// each survivor is the last entity of `s` with its name.
pub proof fn lemma_collapsed<T: Named>(s: Seq<T>)
    ensures
        unique_keys(collapsed(s)),
        forall|k: Seq<char>| has_key(collapsed(s), k) <==> has_key(s, k),
        forall|x: int|
            #![trigger collapsed(s)[x]]
            0 <= x < collapsed(s).len() ==> exists|i: int|
                #![trigger s[i]]
                0 <= i < s.len() && collapsed(s)[x] == s[i] && !later_has_key(s, i),
{
    let n = s.len() as int;
    lemma_kept_unique(s, n);
    lemma_kept_from(s, n);
    let c = collapsed(s);
    assert forall|k: Seq<char>| has_key(c, k) <==> has_key(s, k) by {
        if has_key(c, k) {
            let x = choose|x: int| 0 <= x < c.len() && #[trigger] c[x].key() == k;
            let i = choose|i: int| 0 <= i < n && c[x] == s[i] && !later_has_key(s, i);
            assert(s[i].key() == k);
        }
        if has_key(s, k) {
            let i = choose|i: int| 0 <= i < n && #[trigger] s[i].key() == k;
            lemma_last_of_key(s, i);
            let j = choose|j: int| i <= j < n && s[j].key() == s[i].key() && !later_has_key(s, j);
            assert(c.contains(s[j]));
            let x = choose|x: int| 0 <= x < c.len() && c[x] == s[j];
            assert(c[x].key() == k);
        }
    }
}

/// The first index of `s` whose entity is named `k`.
#[verifier::opaque]
pub open spec fn first_index<T: Named>(s: Seq<T>, k: Seq<char>) -> int {
    choose|i: int|
        0 <= i < s.len() && s[i].key() == k && forall|j: int| 0 <= j < i ==> #[trigger] s[j].key() != k
}

/// Where names are unique, the first index of a name is its only index.
pub proof fn lemma_first_index_unique<T: Named>(s: Seq<T>, i: int)
    requires
        unique_keys(s),
        0 <= i < s.len(),
    ensures
        first_index(s, s[i].key()) == i,
{
    reveal(first_index);
    let k = s[i].key();
    assert(0 <= i < s.len() && s[i].key() == k && forall|j: int| 0 <= j < i ==> #[trigger] s[j].key() != k);
    let f = first_index(s, k);
    if f > i {
        assert(s[i].key() != k);
    } else if f < i {
        assert(s[f].key() != s[i].key());
    }
}

/// The first index of the entity of `s` named `name`, if there is one.
pub fn find<T: Named>(s: &Vec<T>, name: &String) -> (r: Option<usize>)
    ensures
        match r {
            Some(i) => i < s@.len() && s@[i as int].key() == name@ && i == first_index(s@, name@),
            None => !has_key(s@, name@),
        },
{
    let n = s.len();
    for i in 0..n
        invariant
            n == s@.len(),
            forall|j: int| 0 <= j < i ==> #[trigger] s@[j].key() != name@,
    {
        if s[i].name().eq(name) {
            proof {
                reveal(first_index);
                let f = first_index(s@, name@);
                assert(0 <= i < s@.len() && s@[i as int].key() == name@ && forall|j: int|
                    0 <= j < i ==> #[trigger] s@[j].key() != name@);
                if f < i {
                    assert(s@[f].key() != name@);
                } else if f > i {
                    assert(s@[i as int].key() != name@);
                }
            }
            return Some(i);
        }
    }
    None
}

/// Collapses entities that share a name: the last of each name wins, and the
/// survivors keep their order.
pub fn collapse<T: Named>(s: &Vec<T>) -> (r: Vec<T>)
    ensures
        r@ == collapsed(s@),
        unique_keys(r@),
        forall|k: Seq<char>| has_key(r@, k) <==> has_key(s@, k),
{
    let n = s.len();
    let mut out: Vec<T> = Vec::new();
    for i in 0..n
        invariant
            n == s@.len(),
            out@ == kept(s@, i as int),
    {
        let mut later = false;
        let mut j: usize = i + 1;
        while j < n
            invariant
                n == s@.len(),
                i < j <= n,
                later == exists|k: int| i < k < j && #[trigger] s@[k].key() == s@[i as int].key(),
            decreases n - j,
        {
            if s[j].name().eq(s[i].name()) {
                later = true;
            }
            j += 1;
        }
        if !later {
            out.push(s[i].duplicate());
        }
    }
    proof {
        lemma_collapsed(s@);
    }
    out
}

} // verus!
