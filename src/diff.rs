//! The diff engine: the operations that turn an observed set into a desired one.

use vstd::prelude::*;

use crate::entity::{
    find, has_key, lemma_same_entries, key_index, lemma_key_index, unique_keys, DesiredEntity, Named, ObservedEntity,
};

verus! {

/// One change to the remote side.
pub enum ChangeOperation {
    Create { name: String, color: Option<u32>, position: Option<u16> },
    Delete { id: u64, name: String },
    Update { id: u64, name: String, color: u32 },
    /// Moves a channel to a new index within its container.
    Move { id: u64, name: String, index: u16 },
}

impl ChangeOperation {
    pub fn duplicate(&self) -> (r: Self)
        ensures
            r == *self,
    {
        match self {
            ChangeOperation::Create { name, color, position } => ChangeOperation::Create {
                name: name.clone(),
                color: *color,
                position: *position,
            },
            ChangeOperation::Delete { id, name } => ChangeOperation::Delete { id: *id, name: name.clone() },
            ChangeOperation::Update { id, name, color } => ChangeOperation::Update {
                id: *id,
                name: name.clone(),
                color: *color,
            },
            ChangeOperation::Move { id, name, index } => ChangeOperation::Move {
                id: *id,
                name: name.clone(),
                index: *index,
            },
        }
    }
}

/// The name that an operation concerns.
pub open spec fn op_name(op: ChangeOperation) -> Seq<char> {
    match op {
        ChangeOperation::Create { name, .. } => name@,
        ChangeOperation::Delete { name, .. } => name@,
        ChangeOperation::Update { name, .. } => name@,
        ChangeOperation::Move { name, .. } => name@,
    }
}

/// An observed entity needs an update: the desired entity asks for a color
/// that the observed one does not have. Names never change, they are the key.
pub open spec fn color_changed(o: ObservedEntity, d: DesiredEntity) -> bool {
    match d.color {
        Some(c) => o.color != Some(c),
        None => false,
    }
}

/// The operation, if any, that an observed entity calls for.
pub open spec fn observed_op(e: ObservedEntity, d: Seq<DesiredEntity>) -> Seq<ChangeOperation> {
    if !has_key(d, e.key()) {
        seq![ChangeOperation::Delete { id: e.id, name: e.name }]
    } else if color_changed(e, d[key_index(d, e.key())]) {
        seq![ChangeOperation::Update { id: e.id, name: e.name, color: d[key_index(d, e.key())].color->Some_0 }]
    } else {
        seq![]
    }
}

/// The operation, if any, that a desired entity calls for.
pub open spec fn desired_op(e: DesiredEntity, o: Seq<ObservedEntity>) -> Seq<ChangeOperation> {
    if !has_key(o, e.key()) {
        seq![ChangeOperation::Create { name: e.name, color: e.color, position: e.position }]
    } else {
        seq![]
    }
}

/// The operations for the first `n` observed entities, in their order.
pub open spec fn observed_ops(o: Seq<ObservedEntity>, d: Seq<DesiredEntity>, n: int) -> Seq<ChangeOperation>
    decreases n,
{
    if n <= 0 {
        seq![]
    } else {
        observed_ops(o, d, n - 1) + observed_op(o[n - 1], d)
    }
}

/// The creations for the first `n` desired entities, in their order.
pub open spec fn create_ops(o: Seq<ObservedEntity>, d: Seq<DesiredEntity>, n: int) -> Seq<ChangeOperation>
    decreases n,
{
    if n <= 0 {
        seq![]
    } else {
        create_ops(o, d, n - 1) + desired_op(d[n - 1], o)
    }
}

/// The diff of `o` against `d`: a delete or an update for each observed entity
/// that needs one, in observed order, then a create for each desired entity
/// that is missing, in desired order.
pub open spec fn diff_ops(o: Seq<ObservedEntity>, d: Seq<DesiredEntity>) -> Seq<ChangeOperation> {
    observed_ops(o, d, o.len() as int) + create_ops(o, d, d.len() as int)
}

/// Some operation of `ops` creates an entity named `k`.
pub open spec fn creates(ops: Seq<ChangeOperation>, k: Seq<char>) -> bool {
    exists|x: int| 0 <= x < ops.len() && ops[x] is Create && #[trigger] op_name(ops[x]) == k
}

/// Some operation of `ops` deletes an entity named `k`.
pub open spec fn deletes(ops: Seq<ChangeOperation>, k: Seq<char>) -> bool {
    exists|x: int| 0 <= x < ops.len() && ops[x] is Delete && #[trigger] op_name(ops[x]) == k
}

/// Some operation of `ops` updates an entity named `k`.
pub open spec fn updates(ops: Seq<ChangeOperation>, k: Seq<char>) -> bool {
    exists|x: int| 0 <= x < ops.len() && ops[x] is Update && #[trigger] op_name(ops[x]) == k
}

/// Tells whether the observed entity needs an update towards the desired one.
pub fn changed(o: &ObservedEntity, d: &DesiredEntity) -> (r: bool)
    ensures
        r == color_changed(*o, *d),
{
    match d.color {
        Some(c) => match o.color {
            Some(oc) => oc != c,
            None => true,
        },
        None => false,
    }
}

/// Computes the operations that turn `observed` into `desired`.
pub fn diff(observed: &Vec<ObservedEntity>, desired: &Vec<DesiredEntity>) -> (r: Vec<ChangeOperation>)
    requires
        unique_keys(observed@),
        unique_keys(desired@),
    ensures
        r@ == diff_ops(observed@, desired@),
{
    let mut out: Vec<ChangeOperation> = Vec::new();
    let no = observed.len();
    for i in 0..no
        invariant
            no == observed@.len(),
            unique_keys(desired@),
            out@ == observed_ops(observed@, desired@, i as int),
    {
        let e = &observed[i];
        match find(desired, &e.name) {
            None => {
                out.push(ChangeOperation::Delete { id: e.id, name: e.name.clone() });
                assert(out@ =~= observed_ops(observed@, desired@, i + 1));
            },
            Some(j) => {
                proof {
                    lemma_key_index(desired@, j as int);
                }
                let d = &desired[j];
                if changed(e, d) {
                    let c = match d.color {
                        Some(c) => c,
                        None => 0,
                    };
                    out.push(ChangeOperation::Update { id: e.id, name: e.name.clone(), color: c });
                }
                assert(out@ =~= observed_ops(observed@, desired@, i + 1));
            },
        }
    }
    let ghost head = out@;
    let nd = desired.len();
    for i in 0..nd
        invariant
            nd == desired@.len(),
            head == observed_ops(observed@, desired@, observed@.len() as int),
            out@ == head + create_ops(observed@, desired@, i as int),
    {
        let e = &desired[i];
        if find(observed, &e.name).is_none() {
            out.push(ChangeOperation::Create { name: e.name.clone(), color: e.color, position: e.position });
        }
        assert(out@ =~= head + create_ops(observed@, desired@, i + 1));
    }
    out
}

proof fn lemma_observed_ops(o: Seq<ObservedEntity>, d: Seq<DesiredEntity>, n: int)
    requires
        0 <= n <= o.len(),
        unique_keys(o),
    ensures
        forall|x: int|
            #![trigger observed_ops(o, d, n)[x]]
            0 <= x < observed_ops(o, d, n).len() ==> exists|i: int|
                #![trigger o[i]]
                0 <= i < n && observed_op(o[i], d) == seq![observed_ops(o, d, n)[x]],
        forall|i: int|
            0 <= i < n && #[trigger] observed_op(o[i], d).len() > 0 ==> observed_ops(o, d, n).contains(
                observed_op(o[i], d)[0],
            ),
        forall|x: int, y: int|
            0 <= x < y < observed_ops(o, d, n).len() ==> op_name(#[trigger] observed_ops(o, d, n)[x])
                != op_name(#[trigger] observed_ops(o, d, n)[y]),
    decreases n,
{
    if n > 0 {
        lemma_observed_ops(o, d, n - 1);
        let p = observed_ops(o, d, n - 1);
        let q = observed_ops(o, d, n);
        let t = observed_op(o[n - 1], d);
        assert(q == p + t);
        assert forall|x: int| #![trigger q[x]] 0 <= x < q.len() implies exists|i: int|
            #![trigger o[i]]
            0 <= i < n && observed_op(o[i], d) == seq![q[x]] by {
            if x < p.len() {
                assert(q[x] == p[x]);
            } else {
                assert(q[x] == t[0]);
                assert(t =~= seq![q[x]]);
            }
        }
        assert forall|i: int| 0 <= i < n && #[trigger] observed_op(o[i], d).len() > 0 implies q.contains(
            observed_op(o[i], d)[0],
        ) by {
            if i == n - 1 {
                assert(q[p.len() as int] == t[0]);
            } else {
                let x = choose|x: int| 0 <= x < p.len() && p[x] == observed_op(o[i], d)[0];
                assert(q[x] == p[x]);
            }
        }
        assert forall|x: int, y: int| 0 <= x < y < q.len() implies op_name(#[trigger] q[x]) != op_name(
            #[trigger] q[y],
        ) by {
            if y < p.len() {
                assert(q[x] == p[x] && q[y] == p[y]);
            } else {
                assert(q[x] == p[x]);
                let i = choose|i: int| #![trigger o[i]] 0 <= i < n - 1 && observed_op(o[i], d) == seq![p[x]];
                assert(observed_op(o[i], d)[0] == p[x]);
                assert(op_name(p[x]) == o[i].key());
                assert(op_name(q[y]) == o[n - 1].key());
                assert(o[i].key() != o[n - 1].key());
            }
        }
    }
}

proof fn lemma_create_ops(o: Seq<ObservedEntity>, d: Seq<DesiredEntity>, n: int)
    requires
        0 <= n <= d.len(),
        unique_keys(d),
    ensures
        forall|x: int|
            #![trigger create_ops(o, d, n)[x]]
            0 <= x < create_ops(o, d, n).len() ==> exists|i: int|
                #![trigger d[i]]
                0 <= i < n && desired_op(d[i], o) == seq![create_ops(o, d, n)[x]],
        forall|i: int|
            0 <= i < n && #[trigger] desired_op(d[i], o).len() > 0 ==> create_ops(o, d, n).contains(
                desired_op(d[i], o)[0],
            ),
        forall|x: int, y: int|
            0 <= x < y < create_ops(o, d, n).len() ==> op_name(#[trigger] create_ops(o, d, n)[x])
                != op_name(#[trigger] create_ops(o, d, n)[y]),
    decreases n,
{
    if n > 0 {
        lemma_create_ops(o, d, n - 1);
        let p = create_ops(o, d, n - 1);
        let q = create_ops(o, d, n);
        let t = desired_op(d[n - 1], o);
        assert(q == p + t);
        assert forall|x: int| #![trigger q[x]] 0 <= x < q.len() implies exists|i: int|
            #![trigger d[i]]
            0 <= i < n && desired_op(d[i], o) == seq![q[x]] by {
            if x < p.len() {
                assert(q[x] == p[x]);
            } else {
                assert(q[x] == t[0]);
                assert(t =~= seq![q[x]]);
            }
        }
        assert forall|i: int| 0 <= i < n && #[trigger] desired_op(d[i], o).len() > 0 implies q.contains(
            desired_op(d[i], o)[0],
        ) by {
            if i == n - 1 {
                assert(q[p.len() as int] == t[0]);
            } else {
                let x = choose|x: int| 0 <= x < p.len() && p[x] == desired_op(d[i], o)[0];
                assert(q[x] == p[x]);
            }
        }
        assert forall|x: int, y: int| 0 <= x < y < q.len() implies op_name(#[trigger] q[x]) != op_name(
            #[trigger] q[y],
        ) by {
            if y < p.len() {
                assert(q[x] == p[x] && q[y] == p[y]);
            } else {
                assert(q[x] == p[x]);
                let i = choose|i: int| #![trigger d[i]] 0 <= i < n - 1 && desired_op(d[i], o) == seq![p[x]];
                assert(desired_op(d[i], o)[0] == p[x]);
                assert(op_name(p[x]) == d[i].key());
                assert(op_name(q[y]) == d[n - 1].key());
                assert(d[i].key() != d[n - 1].key());
            }
        }
    }
}

/// Which operations the diff holds: exactly those that one observed entity or
/// one desired entity calls for.
pub proof fn lemma_diff_members(o: Seq<ObservedEntity>, d: Seq<DesiredEntity>, op: ChangeOperation)
    requires
        unique_keys(o),
        unique_keys(d),
    ensures
        diff_ops(o, d).contains(op) <==> (exists|i: int|
            0 <= i < o.len() && #[trigger] observed_op(o[i], d) == seq![op]) || (exists|j: int|
            0 <= j < d.len() && #[trigger] desired_op(d[j], o) == seq![op]),
{
    let a = observed_ops(o, d, o.len() as int);
    let b = create_ops(o, d, d.len() as int);
    let all = diff_ops(o, d);
    lemma_observed_ops(o, d, o.len() as int);
    lemma_create_ops(o, d, d.len() as int);
    if all.contains(op) {
        let x = choose|x: int| 0 <= x < all.len() && all[x] == op;
        if x < a.len() {
            assert(all[x] == a[x]);
        } else {
            assert(all[x] == b[x - a.len()]);
        }
    }
    if exists|i: int| 0 <= i < o.len() && #[trigger] observed_op(o[i], d) == seq![op] {
        let i = choose|i: int| 0 <= i < o.len() && #[trigger] observed_op(o[i], d) == seq![op];
        assert(observed_op(o[i], d)[0] == op);
        let x = choose|x: int| 0 <= x < a.len() && a[x] == op;
        assert(all[x] == a[x]);
    }
    if exists|j: int| 0 <= j < d.len() && #[trigger] desired_op(d[j], o) == seq![op] {
        let j = choose|j: int| 0 <= j < d.len() && #[trigger] desired_op(d[j], o) == seq![op];
        assert(desired_op(d[j], o)[0] == op);
        let x = choose|x: int| 0 <= x < b.len() && b[x] == op;
        assert(all[a.len() + x] == b[x]);
    }
}

/// What each operation of the diff says of its name.
proof fn lemma_diff_op_facts(o: Seq<ObservedEntity>, d: Seq<DesiredEntity>, x: int)
    requires
        unique_keys(o),
        unique_keys(d),
        0 <= x < diff_ops(o, d).len(),
    ensures
        ({
            let op = diff_ops(o, d)[x];
            let k = op_name(op);
            &&& op is Create ==> has_key(d, k) && !has_key(o, k)
            &&& op is Delete ==> has_key(o, k) && !has_key(d, k)
            &&& op is Update ==> has_key(o, k) && has_key(d, k) && color_changed(
                o[key_index(o, k)],
                d[key_index(d, k)],
            )
            &&& !(op is Move)
        }),
{
    let a = observed_ops(o, d, o.len() as int);
    let b = create_ops(o, d, d.len() as int);
    let all = diff_ops(o, d);
    lemma_observed_ops(o, d, o.len() as int);
    lemma_create_ops(o, d, d.len() as int);
    if x < a.len() {
        assert(all[x] == a[x]);
        let i = choose|i: int| #![trigger o[i]] 0 <= i < o.len() && observed_op(o[i], d) == seq![a[x]];
        assert(observed_op(o[i], d)[0] == all[x]);
        assert(o[i].key() == op_name(all[x]));
        lemma_key_index(o, i);
        assert(has_key(o, o[i].key()));
    } else {
        assert(all[x] == b[x - a.len()]);
        let j = choose|j: int| #![trigger d[j]] 0 <= j < d.len() && desired_op(d[j], o) == seq![b[x - a.len()]];
        assert(desired_op(d[j], o)[0] == all[x]);
        assert(d[j].key() == op_name(all[x]));
        assert(has_key(d, d[j].key()));
    }
}

/// Each name that calls for an operation has one in the diff.
proof fn lemma_diff_has_op(o: Seq<ObservedEntity>, d: Seq<DesiredEntity>, k: Seq<char>)
    requires
        unique_keys(o),
        unique_keys(d),
    ensures
        has_key(d, k) && !has_key(o, k) ==> creates(diff_ops(o, d), k),
        has_key(o, k) && !has_key(d, k) ==> deletes(diff_ops(o, d), k),
        has_key(o, k) && has_key(d, k) && color_changed(o[key_index(o, k)], d[key_index(d, k)])
            ==> updates(diff_ops(o, d), k),
{
    let a = observed_ops(o, d, o.len() as int);
    let b = create_ops(o, d, d.len() as int);
    let all = diff_ops(o, d);
    lemma_observed_ops(o, d, o.len() as int);
    lemma_create_ops(o, d, d.len() as int);
    if has_key(d, k) && !has_key(o, k) {
        let j = key_index(d, k);
        assert(desired_op(d[j], o).len() > 0);
        let y = choose|y: int| 0 <= y < b.len() && b[y] == desired_op(d[j], o)[0];
        assert(all[a.len() + y] == b[y]);
        assert(op_name(all[a.len() + y]) == k);
    }
    if has_key(o, k) {
        let i = key_index(o, k);
        assert(o[i].key() == k);
        if !has_key(d, k) || color_changed(o[i], d[key_index(d, k)]) {
            assert(observed_op(o[i], d).len() > 0);
            let y = choose|y: int| 0 <= y < a.len() && a[y] == observed_op(o[i], d)[0];
            assert(all[y] == a[y]);
            assert(op_name(all[y]) == k);
        }
    }
}

/// Diff completeness: for name-unique observed and desired sets, the diff
/// creates exactly the names that are desired and not observed, deletes
/// exactly those observed and not desired, updates a name in both exactly when
/// its color changed, and names no entity twice.
pub proof fn law_diff_complete(o: Seq<ObservedEntity>, d: Seq<DesiredEntity>)
    requires
        unique_keys(o),
        unique_keys(d),
    ensures
        forall|k: Seq<char>| creates(diff_ops(o, d), k) <==> has_key(d, k) && !has_key(o, k),
        forall|k: Seq<char>| deletes(diff_ops(o, d), k) <==> has_key(o, k) && !has_key(d, k),
        forall|k: Seq<char>|
            updates(diff_ops(o, d), k) <==> has_key(o, k) && has_key(d, k) && color_changed(
                o[key_index(o, k)],
                d[key_index(d, k)],
            ),
        forall|x: int, y: int|
            0 <= x < y < diff_ops(o, d).len() ==> op_name(#[trigger] diff_ops(o, d)[x]) != op_name(
                #[trigger] diff_ops(o, d)[y],
            ),
        forall|x: int| 0 <= x < diff_ops(o, d).len() ==> !(#[trigger] diff_ops(o, d)[x] is Move),
{
    let a = observed_ops(o, d, o.len() as int);
    let b = create_ops(o, d, d.len() as int);
    let all = diff_ops(o, d);
    assert forall|x: int| 0 <= x < all.len() implies !(#[trigger] all[x] is Move) by {
        lemma_diff_op_facts(o, d, x);
    }
    assert forall|k: Seq<char>| creates(all, k) <==> has_key(d, k) && !has_key(o, k) by {
        lemma_diff_has_op(o, d, k);
        if creates(all, k) {
            let x = choose|x: int| 0 <= x < all.len() && all[x] is Create && #[trigger] op_name(all[x]) == k;
            lemma_diff_op_facts(o, d, x);
        }
    }
    assert forall|k: Seq<char>| deletes(all, k) <==> has_key(o, k) && !has_key(d, k) by {
        lemma_diff_has_op(o, d, k);
        if deletes(all, k) {
            let x = choose|x: int| 0 <= x < all.len() && all[x] is Delete && #[trigger] op_name(all[x]) == k;
            lemma_diff_op_facts(o, d, x);
        }
    }
    assert forall|k: Seq<char>|
        updates(all, k) <==> has_key(o, k) && has_key(d, k) && color_changed(
            o[key_index(o, k)],
            d[key_index(d, k)],
        ) by {
        lemma_diff_has_op(o, d, k);
        if updates(all, k) {
            let x = choose|x: int| 0 <= x < all.len() && all[x] is Update && #[trigger] op_name(all[x]) == k;
            lemma_diff_op_facts(o, d, x);
        }
    }
    assert forall|x: int, y: int| 0 <= x < y < all.len() implies op_name(#[trigger] all[x]) != op_name(
        #[trigger] all[y],
    ) by {
        lemma_observed_ops(o, d, o.len() as int);
        lemma_create_ops(o, d, d.len() as int);
        if y < a.len() {
            assert(all[x] == a[x] && all[y] == a[y]);
        } else if x >= a.len() {
            assert(all[x] == b[x - a.len()] && all[y] == b[y - a.len()]);
        } else {
            assert(all[x] == a[x] && all[y] == b[y - a.len()]);
            let i = choose|i: int| #![trigger o[i]] 0 <= i < o.len() && observed_op(o[i], d) == seq![a[x]];
            let j = choose|j: int| #![trigger d[j]] 0 <= j < d.len() && desired_op(d[j], o) == seq![b[y - a.len()]];
            assert(observed_op(o[i], d)[0] == all[x]);
            assert(desired_op(d[j], o)[0] == all[y]);
            assert(op_name(all[x]) == o[i].key());
            assert(op_name(all[y]) == d[j].key());
            assert(!has_key(o, d[j].key()));
        }
    }
}

/// Order independence: listing the observed or the desired entities in
/// another order leaves the set of operations of the diff unchanged.
pub proof fn law_diff_order_independent(
    o1: Seq<ObservedEntity>,
    o2: Seq<ObservedEntity>,
    d1: Seq<DesiredEntity>,
    d2: Seq<DesiredEntity>,
)
    requires
        unique_keys(o1),
        unique_keys(o2),
        unique_keys(d1),
        unique_keys(d2),
        o1.to_set() == o2.to_set(),
        d1.to_set() == d2.to_set(),
    ensures
        diff_ops(o1, d1).to_set() == diff_ops(o2, d2).to_set(),
{
    assert forall|k: Seq<char>| #![trigger has_key(o1, k)] has_key(o1, k) == has_key(o2, k) by {
        lemma_same_entries(o1, o2, k);
    }
    assert forall|k: Seq<char>| #![trigger has_key(d1, k)]
        has_key(d1, k) == has_key(d2, k) && (has_key(d1, k) ==> d1[key_index(d1, k)] == d2[key_index(d2, k)]) by {
        lemma_same_entries(d1, d2, k);
    }
    assert forall|e: ObservedEntity| #[trigger] observed_op(e, d1) == observed_op(e, d2) by {
        assert(has_key(d1, e.key()) == has_key(d2, e.key()));
    }
    assert forall|e: DesiredEntity| #[trigger] desired_op(e, o1) == desired_op(e, o2) by {
        assert(has_key(o1, e.key()) == has_key(o2, e.key()));
    }
    assert forall|op: ChangeOperation|
        diff_ops(o1, d1).to_set().contains(op) == diff_ops(o2, d2).to_set().contains(op) by {
        lemma_diff_members(o1, d1, op);
        lemma_diff_members(o2, d2, op);
        if exists|i: int| 0 <= i < o1.len() && #[trigger] observed_op(o1[i], d1) == seq![op] {
            let i = choose|i: int| 0 <= i < o1.len() && #[trigger] observed_op(o1[i], d1) == seq![op];
            assert(o1.to_set().contains(o1[i]));
            assert(o2.contains(o1[i]));
            let i2 = choose|i2: int| 0 <= i2 < o2.len() && o2[i2] == o1[i];
            assert(observed_op(o2[i2], d2) == seq![op]);
        }
        if exists|i: int| 0 <= i < o2.len() && #[trigger] observed_op(o2[i], d2) == seq![op] {
            let i = choose|i: int| 0 <= i < o2.len() && #[trigger] observed_op(o2[i], d2) == seq![op];
            assert(o2.to_set().contains(o2[i]));
            assert(o1.contains(o2[i]));
            let i1 = choose|i1: int| 0 <= i1 < o1.len() && o1[i1] == o2[i];
            assert(observed_op(o1[i1], d1) == seq![op]);
        }
        if exists|j: int| 0 <= j < d1.len() && #[trigger] desired_op(d1[j], o1) == seq![op] {
            let j = choose|j: int| 0 <= j < d1.len() && #[trigger] desired_op(d1[j], o1) == seq![op];
            assert(d1.to_set().contains(d1[j]));
            assert(d2.contains(d1[j]));
            let j2 = choose|j2: int| 0 <= j2 < d2.len() && d2[j2] == d1[j];
            assert(desired_op(d2[j2], o2) == seq![op]);
        }
        if exists|j: int| 0 <= j < d2.len() && #[trigger] desired_op(d2[j], o2) == seq![op] {
            let j = choose|j: int| 0 <= j < d2.len() && #[trigger] desired_op(d2[j], o2) == seq![op];
            assert(d2.to_set().contains(d2[j]));
            assert(d1.contains(d2[j]));
            let j1 = choose|j1: int| 0 <= j1 < d1.len() && d1[j1] == d2[j];
            assert(desired_op(d1[j1], o1) == seq![op]);
        }
    }
    assert(diff_ops(o1, d1).to_set() =~= diff_ops(o2, d2).to_set());
}

} // verus!
