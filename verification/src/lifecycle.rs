//! The order in which the lifecycle scripts of workspace members run.

use crate::manifest::PackageJson;
use crate::text;
use crate::text_map::TextMap;
use vstd::prelude::*;

verus! {

/// Workspace members: the importer key and the manifest of each.
pub type Members = Seq<(String, PackageJson)>;

/// The last of the first `n` members that is called `name`.
pub open spec fn last_named(m: Members, name: Seq<char>, n: int) -> Option<int>
    decreases n,
{
    if n <= 0 {
        None
    } else if m[n - 1].1.name is Some && m[n - 1].1.name->0@ == name {
        Some(n - 1)
    } else {
        last_named(m, name, n - 1)
    }
}

/// The last of the first `n` members with the importer key `importer`.
pub open spec fn last_at(m: Members, importer: Seq<char>, n: int) -> Option<int>
    decreases n,
{
    if n <= 0 {
        None
    } else if m[n - 1].0@ == importer {
        Some(n - 1)
    } else {
        last_at(m, importer, n - 1)
    }
}

/// The member that a dependency on `name` stands for: of the members that share a name or
/// an importer key the last one counts.
pub open spec fn target(m: Members, name: Seq<char>) -> Option<int> {
    match last_named(m, name, m.len() as int) {
        Some(k) => last_at(m, m[k].0@, m.len() as int),
        None => None,
    }
}

/// Whether a manifest lists `name` among the dependencies that order lifecycle scripts.
pub open spec fn lists(p: PackageJson, name: Seq<char>) -> bool {
    ||| p.dependencies@.contains_key(name)
    ||| p.dev_dependencies@.contains_key(name)
    ||| p.optional_dependencies@.contains_key(name)
}

/// Whether member `j` waits for member `d`: it lists a name that stands for `d`, and the two
/// have different importer keys.
pub open spec fn waits_for(m: Members, j: int, d: int) -> bool {
    &&& 0 <= j < m.len()
    &&& 0 <= d < m.len()
    &&& m[d].0@ != m[j].0@
    &&& exists|name: Seq<char>| #[trigger] lists(m[j].1, name) && target(m, name) == Some(d)
}

/// The indices below `n` that `pred` accepts, ascending.
pub open spec fn picked(n: int, pred: spec_fn(int) -> bool) -> Seq<int>
    decreases n,
{
    if n <= 0 {
        Seq::empty()
    } else if pred(n - 1) {
        picked(n - 1, pred).push(n - 1)
    } else {
        picked(n - 1, pred)
    }
}

/// Whether everything `j` waits for is in `done`.
pub open spec fn unblocked(m: Members, j: int, done: Seq<int>) -> bool {
    forall|d: int| #[trigger] waits_for(m, j, d) ==> done.contains(d)
}

/// The members that the last one of `done` unblocks.
pub open spec fn released(m: Members, done: Seq<int>) -> Seq<int> {
    picked(
        m.len() as int,
        |j: int| waits_for(m, j, done.last()) && unblocked(m, j, done),
    )
}

/// First in, first out: `queue` lists the members in the order in which they became ready,
/// and its first `h` have been emitted. Emitting the next one appends what it unblocks.
pub open spec fn emit_all(m: Members, queue: Seq<int>, h: int) -> Seq<int>
    decreases m.len() - h,
{
    if h < 0 || h >= queue.len() || h >= m.len() {
        queue
    } else {
        emit_all(m, queue + released(m, queue.take(h + 1)), h + 1)
    }
}

/// The members that wait for nothing.
pub open spec fn initially_ready(m: Members) -> Seq<int> {
    picked(m.len() as int, |j: int| unblocked(m, j, Seq::empty()))
}

/// The members that become ready, in that order.
pub open spec fn emitted(m: Members) -> Seq<int> {
    emit_all(m, initially_ready(m), 0)
}

/// The order of the members: those that become ready, then the rest (members of a cycle and
/// what waits for them) as they stand.
pub open spec fn lifecycle_order(m: Members) -> Seq<int> {
    emitted(m) + picked(m.len() as int, |j: int| !emitted(m).contains(j))
}

proof fn lemma_picked(n: int, pred: spec_fn(int) -> bool)
    ensures
        forall|j: int| #[trigger] picked(n, pred).contains(j) <==> 0 <= j < n && pred(j),
        picked(n, pred).no_duplicates(),
    decreases n,
{
    if n > 0 {
        lemma_picked(n - 1, pred);
        let s = picked(n - 1, pred);
        if pred(n - 1) {
            let t = s.push(n - 1);
            assert forall|j: int| #[trigger] t.contains(j) <==> 0 <= j < n && pred(j) by {
                if t.contains(j) {
                    let i = t.index_of(j);
                    if i < s.len() {
                        assert(s.contains(s[i]));
                    }
                }
                if 0 <= j < n && pred(j) {
                    if j == n - 1 {
                        assert(t[s.len() as int] == j);
                    } else {
                        assert(s.contains(j));
                        assert(t[s.index_of(j)] == j);
                    }
                }
            }
            assert forall|a: int, b: int| 0 <= a < t.len() && 0 <= b < t.len() && a != b implies t[a] != t[b] by {
                if a < s.len() {
                    assert(s.contains(s[a]));
                }
                if b < s.len() {
                    assert(s.contains(s[b]));
                }
            }
        }
    }
}

/// What holds of the queue while its first `h` members have been emitted.
pub open spec fn queue_ok(m: Members, queue: Seq<int>, h: int) -> bool {
    &&& 0 <= h <= queue.len()
    &&& forall|i: int| 0 <= i < queue.len() ==> 0 <= #[trigger] queue[i] < m.len()
    &&& queue.no_duplicates()
    &&& forall|i: int, d: int|
        0 <= i < queue.len() && #[trigger] waits_for(m, queue[i], d) ==> queue.take(h).contains(d)
            && queue.take(i).contains(d)
    &&& forall|j: int|
        0 <= j < m.len() && #[trigger] unblocked(m, j, queue.take(h)) ==> queue.contains(j)
}

proof fn lemma_distinct_below(s: Seq<int>, n: int)
    requires
        0 <= n,
        s.no_duplicates(),
        forall|i: int| 0 <= i < s.len() ==> 0 <= #[trigger] s[i] < n,
    ensures
        s.len() <= n,
{
    s.unique_seq_to_set();
    vstd::set_lib::lemma_int_range(0, n);
    assert(s.to_set().subset_of(vstd::set_lib::set_int_range(0, n)));
    vstd::set_lib::lemma_len_subset(s.to_set(), vstd::set_lib::set_int_range(0, n));
}

proof fn lemma_start(m: Members)
    ensures
        queue_ok(m, initially_ready(m), 0),
{
    let pred = |j: int| unblocked(m, j, Seq::empty());
    let q = initially_ready(m);
    lemma_picked(m.len() as int, pred);
    assert(q.take(0) == Seq::<int>::empty());
    assert forall|i: int| 0 <= i < q.len() implies 0 <= #[trigger] q[i] < m.len() by {
        assert(q.contains(q[i]));
    }
    assert forall|i: int, d: int| 0 <= i < q.len() && #[trigger] waits_for(m, q[i], d) implies q.take(
        0,
    ).contains(d) && q.take(i).contains(d) by {
        assert(q.contains(q[i]));
        assert(pred(q[i]));
    }
    assert forall|j: int| 0 <= j < m.len() && #[trigger] unblocked(m, j, q.take(0)) implies q.contains(
        j,
    ) by {
        assert(pred(j));
    }
}

proof fn lemma_step(m: Members, q: Seq<int>, h: int)
    requires
        queue_ok(m, q, h),
        h < q.len(),
    ensures
        queue_ok(m, q + released(m, q.take(h + 1)), h + 1),
{
    let done = q.take(h + 1);
    let r = released(m, done);
    let pred = |j: int| waits_for(m, j, done.last()) && unblocked(m, j, done);
    lemma_picked(m.len() as int, pred);
    let q2 = q + r;
    assert(done.last() == q[h]);
    assert(q2.take(h + 1) == done);
    assert forall|i: int| 0 <= i < q2.len() implies 0 <= #[trigger] q2[i] < m.len() by {
        if i >= q.len() {
            assert(r.contains(r[i - q.len()]));
        }
    }
    assert forall|x: int| r.contains(x) implies !q.contains(x) by {
        assert(pred(x));
        if q.contains(x) {
            let i = q.index_of(x);
            assert(waits_for(m, q[i], q[h]));
            assert(q.take(h).contains(q[h]));
            let k = q.take(h).index_of(q[h]);
            assert(q[k] == q[h] && k != h);
        }
    }
    assert forall|a: int, b: int| 0 <= a < q2.len() && 0 <= b < q2.len() && a != b implies q2[a]
        != q2[b] by {
        if a < q.len() {
            assert(q.contains(q[a]));
        } else {
            assert(r.contains(r[a - q.len()]));
        }
        if b < q.len() {
            assert(q.contains(q[b]));
        } else {
            assert(r.contains(r[b - q.len()]));
        }
    }
    assert forall|i: int, d: int| 0 <= i < q2.len() && #[trigger] waits_for(m, q2[i], d) implies q2.take(
        h + 1,
    ).contains(d) && q2.take(i).contains(d) by {
        if i < q.len() {
            assert(waits_for(m, q[i], d));
            assert(q.take(h).contains(d));
            let k = q.take(h).index_of(d);
            assert(done[k] == d);
            let l = q.take(i).index_of(d);
            assert(q2.take(i)[l] == d);
        } else {
            assert(r.contains(r[i - q.len()]));
            assert(pred(q2[i]));
            assert(done.contains(d));
            let k = done.index_of(d);
            assert(q2.take(i)[k] == d);
        }
    }
    assert forall|j: int| 0 <= j < m.len() && #[trigger] unblocked(m, j, q2.take(h + 1)) implies q2.contains(
        j,
    ) by {
        if unblocked(m, j, q.take(h)) {
            assert(q.contains(j));
            assert(q2[q.index_of(j)] == j);
        } else {
            let d = choose|d: int| #[trigger] waits_for(m, j, d) && !q.take(h).contains(d);
            assert(done.contains(d));
            let k = done.index_of(d);
            if k < h {
                assert(q.take(h)[k] == d);
            }
            assert(d == q[h]);
            assert(pred(j));
            assert(r.contains(j));
            assert(q2[q.len() + r.index_of(j)] == j);
        }
    }
}

proof fn lemma_emit_all(m: Members, q: Seq<int>, h: int)
    requires
        queue_ok(m, q, h),
    ensures
        queue_ok(m, emit_all(m, q, h), emit_all(m, q, h).len() as int),
    decreases m.len() - h,
{
    lemma_distinct_below(q, m.len() as int);
    if h < q.len() {
        lemma_step(m, q, h);
        lemma_emit_all(m, q + released(m, q.take(h + 1)), h + 1);
    }
}

proof fn lemma_emitted(m: Members)
    ensures
        queue_ok(m, emitted(m), emitted(m).len() as int),
{
    lemma_start(m);
    lemma_emit_all(m, initially_ready(m), 0);
}

/// The order lists every member exactly once.
pub proof fn lifecycle_order_is_a_permutation(m: Members)
    ensures
        lifecycle_order(m).len() == m.len(),
        lifecycle_order(m).no_duplicates(),
        forall|i: int| 0 <= i < m.len() ==> 0 <= #[trigger] lifecycle_order(m)[i] < m.len(),
        forall|j: int| 0 <= j < m.len() ==> #[trigger] lifecycle_order(m).contains(j),
{
    lemma_emitted(m);
    let n = m.len() as int;
    let e = emitted(m);
    let rest_pred = |j: int| !emitted(m).contains(j);
    let rest = picked(n, rest_pred);
    lemma_picked(n, rest_pred);
    let o = lifecycle_order(m);
    assert forall|i: int| 0 <= i < o.len() implies 0 <= #[trigger] o[i] < n by {
        if i >= e.len() {
            assert(rest.contains(rest[i - e.len()]));
        }
    }
    assert forall|a: int, b: int| 0 <= a < o.len() && 0 <= b < o.len() && a != b implies o[a]
        != o[b] by {
        if a < e.len() {
            assert(e.contains(e[a]));
        } else {
            assert(rest.contains(rest[a - e.len()]));
            assert(rest_pred(rest[a - e.len()]));
        }
        if b < e.len() {
            assert(e.contains(e[b]));
        } else {
            assert(rest.contains(rest[b - e.len()]));
            assert(rest_pred(rest[b - e.len()]));
        }
    }
    assert forall|j: int| 0 <= j < n implies #[trigger] o.contains(j) by {
        if e.contains(j) {
            assert(o[e.index_of(j)] == j);
        } else {
            assert(rest_pred(j));
            assert(rest.contains(j));
            assert(o[e.len() + rest.index_of(j)] == j);
        }
    }
    lemma_distinct_below(o, n);
    o.unique_seq_to_set();
    vstd::set_lib::lemma_int_range(0, n);
    assert(vstd::set_lib::set_int_range(0, n).subset_of(o.to_set()));
    vstd::set_lib::lemma_len_subset(vstd::set_lib::set_int_range(0, n), o.to_set());
}

/// Whatever the members depend on, each one that becomes ready comes after everything it
/// waits for.
pub proof fn emitted_members_follow_their_dependencies(m: Members, i: int, d: int)
    requires
        0 <= i < emitted(m).len(),
        waits_for(m, emitted(m)[i], d),
    ensures
        lifecycle_order(m)[i] == emitted(m)[i],
        lifecycle_order(m).take(i).contains(d),
{
    lemma_emitted(m);
    let e = emitted(m);
    assert(e.take(i).contains(d));
    assert(lifecycle_order(m).take(i) == e.take(i));
}

proof fn lemma_acyclic_emits(m: Members, rank: spec_fn(int) -> nat, j: int)
    requires
        0 <= j < m.len(),
        forall|a: int, b: int| #[trigger] waits_for(m, a, b) ==> rank(b) < rank(a),
    ensures
        emitted(m).contains(j),
    decreases rank(j),
{
    lemma_emitted(m);
    let e = emitted(m);
    assert(e.take(e.len() as int) == e);
    assert forall|d: int| #[trigger] waits_for(m, j, d) implies e.contains(d) by {
        lemma_acyclic_emits(m, rank, d);
    }
    assert(unblocked(m, j, e.take(e.len() as int)));
}

/// Without cycles, every member comes after everything it waits for: `rank` witnesses that
/// there is no cycle.
pub proof fn acyclic_members_follow_their_dependencies(
    m: Members,
    rank: spec_fn(int) -> nat,
    i: int,
    d: int,
)
    requires
        forall|a: int, b: int| #[trigger] waits_for(m, a, b) ==> rank(b) < rank(a),
        0 <= i < m.len(),
        waits_for(m, lifecycle_order(m)[i], d),
    ensures
        lifecycle_order(m).take(i).contains(d),
{
    lifecycle_order_is_a_permutation(m);
    let o = lifecycle_order(m);
    let j = o[i];
    lemma_acyclic_emits(m, rank, j);
    let k = emitted(m).index_of(j);
    assert(o[k] == j);
    assert(k == i);
    emitted_members_follow_their_dependencies(m, i, d);
}

/// The members in their order.
pub open spec fn reordered(m: Members) -> Members {
    Seq::new(m.len(), |i: int| m[lifecycle_order(m)[i]])
}

/// Whether no two members share an importer key or a name.
pub open spec fn are_distinct(m: Members) -> bool {
    forall|i: int, j: int|
        0 <= i < m.len() && 0 <= j < m.len() && i != j ==> (#[trigger] m[i]).0@ != (#[trigger] m[j]).0@
            && !(m[i].1.name is Some && m[j].1.name is Some && m[i].1.name->0@ == m[j].1.name->0@)
}

/// Whether member `k` is called `name`.
spec fn is_named(m: Members, k: int, name: Seq<char>) -> bool {
    m[k].1.name is Some && m[k].1.name->0@ == name
}

proof fn lemma_last_named(m: Members, name: Seq<char>, n: int)
    requires
        0 <= n <= m.len(),
    ensures
        match last_named(m, name, n) {
            Some(k) => 0 <= k < n && is_named(m, k, name),
            None => forall|j: int| 0 <= j < n ==> !(#[trigger] is_named(m, j, name)),
        },
    decreases n,
{
    if n > 0 {
        lemma_last_named(m, name, n - 1);
    }
}

proof fn lemma_last_at(m: Members, importer: Seq<char>, n: int)
    requires
        0 <= n <= m.len(),
    ensures
        match last_at(m, importer, n) {
            Some(k) => 0 <= k < n && m[k].0@ == importer,
            None => forall|j: int| 0 <= j < n ==> (#[trigger] m[j]).0@ != importer,
        },
    decreases n,
{
    if n > 0 {
        lemma_last_at(m, importer, n - 1);
    }
}

/// Among distinct members a dependency stands for the member of that name.
proof fn lemma_target(m: Members, name: Seq<char>, d: int)
    requires
        are_distinct(m),
        0 <= d < m.len(),
    ensures
        target(m, name) == Some(d) <==> is_named(m, d, name),
{
    let n = m.len() as int;
    lemma_last_named(m, name, n);
    match last_named(m, name, n) {
        Some(k) => {
            lemma_last_at(m, m[k].0@, n);
            assert(last_at(m, m[k].0@, n) == Some(k)) by {
                match last_at(m, m[k].0@, n) {
                    Some(x) => {
                        if x != k {
                            assert(m[x].0@ != m[k].0@);
                        }
                    },
                    None => {
                        assert(m[k].0@ != m[k].0@);
                    },
                }
            }
            if is_named(m, d, name) && d != k {
                assert(m[d].0@ != m[k].0@);
            }
        },
        None => {},
    }
}

/// Whether member `j` lists the name of another member `d`.
spec fn lists_member(m: Members, j: int, d: int) -> bool {
    &&& 0 <= j < m.len()
    &&& 0 <= d < m.len()
    &&& j != d
    &&& m[d].1.name is Some
    &&& lists(m[j].1, m[d].1.name->0@)
}

/// Among distinct members one waits for those whose names it lists.
proof fn lemma_waits_for(m: Members, j: int, d: int)
    requires
        are_distinct(m),
    ensures
        waits_for(m, j, d) <==> lists_member(m, j, d),
{
    if 0 <= j < m.len() && 0 <= d < m.len() {
        if j != d {
            assert(m[d].0@ != m[j].0@);
        }
        if waits_for(m, j, d) {
            let name = choose|name: Seq<char>| #[trigger]
                lists(m[j].1, name) && target(m, name) == Some(d);
            lemma_target(m, name, d);
        }
        if lists_member(m, j, d) {
            let name = m[d].1.name->0@;
            lemma_target(m, name, d);
            assert(lists(m[j].1, name));
        }
    }
}

/// The indices from `a` up to `b`.
spec fn range(a: int, b: int) -> Seq<int> {
    Seq::new((b - a) as nat, |i: int| a + i)
}

proof fn lemma_picked_range(n: int, pred: spec_fn(int) -> bool, a: int, b: int)
    requires
        0 <= n,
        0 <= a <= b,
        forall|j: int| 0 <= j < n ==> (#[trigger] pred(j) <==> a <= j < b),
    ensures
        b <= n ==> picked(n, pred) == range(a, b),
        n <= a ==> picked(n, pred) == range(a, a),
        a <= n <= b ==> picked(n, pred) == range(a, n),
    decreases n,
{
    if n > 0 {
        lemma_picked_range(n - 1, pred, a, b);
        assert(pred(n - 1) <==> a <= n - 1 < b);
        if a < n <= b {
            assert(range(a, n - 1).push(n - 1) =~= range(a, n));
        }
    } else {
        assert(range(a, a) =~= Seq::<int>::empty());
    }
}

proof fn lemma_reordered_is_distinct(m: Members)
    requires
        are_distinct(m),
    ensures
        are_distinct(reordered(m)),
{
    lifecycle_order_is_a_permutation(m);
    let o = lifecycle_order(m);
    let w = reordered(m);
    assert forall|i: int, j: int| 0 <= i < w.len() && 0 <= j < w.len() && i != j implies (#[trigger] w[i]).0@
        != (#[trigger] w[j]).0@ && !(w[i].1.name is Some && w[j].1.name is Some
        && w[i].1.name->0@ == w[j].1.name->0@) by {
        assert(0 <= o[i] < m.len() && 0 <= o[j] < m.len() && o[i] != o[j]);
        assert(m[o[i]].0@ != m[o[j]].0@);
    }
}

/// In the new places members wait for the same members as before.
proof fn lemma_waits_alike(m: Members, i: int, e: int)
    requires
        are_distinct(m),
        0 <= i < m.len(),
        0 <= e < m.len(),
    ensures
        waits_for(reordered(m), i, e) <==> waits_for(m, lifecycle_order(m)[i], lifecycle_order(
            m,
        )[e]),
{
    lifecycle_order_is_a_permutation(m);
    lemma_reordered_is_distinct(m);
    let o = lifecycle_order(m);
    lemma_waits_for(reordered(m), i, e);
    lemma_waits_for(m, o[i], o[e]);
    assert(0 <= o[i] < m.len() && 0 <= o[e] < m.len());
    if i != e {
        assert(o[i] != o[e]);
    }
}

/// A member is unblocked by the first `k` in their new places as it was by those before.
proof fn lemma_unblocked_alike(m: Members, i: int, k: int)
    requires
        are_distinct(m),
        0 <= i < m.len(),
        0 <= k <= m.len(),
    ensures
        unblocked(reordered(m), i, range(0, k)) <==> unblocked(
            m,
            lifecycle_order(m)[i],
            lifecycle_order(m).take(k),
        ),
{
    lifecycle_order_is_a_permutation(m);
    let o = lifecycle_order(m);
    let w = reordered(m);
    if unblocked(w, i, range(0, k)) {
        assert forall|d: int| #[trigger] waits_for(m, o[i], d) implies o.take(k).contains(d) by {
            assert(o.contains(d));
            let e = o.index_of(d);
            lemma_waits_alike(m, i, e);
            assert(range(0, k).contains(e));
            let x = range(0, k).index_of(e);
            assert(range(0, k)[x] == e);
            assert(o.take(k)[e] == d);
        }
    }
    if unblocked(m, o[i], o.take(k)) {
        assert forall|e: int| #[trigger] waits_for(w, i, e) implies range(0, k).contains(e) by {
            lemma_waits_alike(m, i, e);
            assert(waits_for(m, o[i], o[e]));
            assert(o.take(k).contains(o[e]));
            let x = o.take(k).index_of(o[e]);
            assert(o[x] == o[e]);
            assert(x == e);
            assert(range(0, k)[e] == e);
        }
    }
}

/// The queue only grows.
proof fn lemma_emit_all_extends(m: Members, q: Seq<int>, h: int)
    ensures
        emit_all(m, q, h).len() >= q.len(),
        emit_all(m, q, h).take(q.len() as int) == q,
    decreases m.len() - h,
{
    if h < 0 || h >= q.len() || h >= m.len() {
        assert(q.take(q.len() as int) == q);
    } else {
        let q2 = q + released(m, q.take(h + 1));
        lemma_emit_all_extends(m, q2, h + 1);
        let e = emit_all(m, q2, h + 1);
        assert(e.take(q.len() as int) == e.take(q2.len() as int).take(q.len() as int));
        assert(q2.take(q.len() as int) == q);
    }
}

/// With the members in their order, they become ready one after the other.
proof fn lemma_same_run(m: Members, q: Seq<int>, h: int)
    requires
        are_distinct(m),
        queue_ok(m, q, h),
        emit_all(m, q, h) == emitted(m),
    ensures
        emit_all(reordered(m), range(0, q.len() as int), h) == range(0, emitted(m).len() as int),
    decreases m.len() - h,
{
    let n = m.len() as int;
    let w = reordered(m);
    let o = lifecycle_order(m);
    lifecycle_order_is_a_permutation(m);
    lemma_distinct_below(q, n);
    lemma_emit_all_extends(m, q, h);
    if h < q.len() {
        let done = q.take(h + 1);
        let r = released(m, done);
        let q2 = q + r;
        lemma_step(m, q, h);
        lemma_distinct_below(q2, n);
        lemma_emit_all_extends(m, q2, h + 1);
        assert(o.take(q2.len() as int) == q2) by {
            assert(emitted(m).take(q2.len() as int) == q2);
            assert(o.take(q2.len() as int) == emitted(m).take(q2.len() as int));
        }
        let a = q.len() as int;
        let b = q2.len() as int;
        let old_pred = |j: int| waits_for(m, j, done.last()) && unblocked(m, j, done);
        lemma_picked(n, old_pred);
        let front = range(0, a).take(h + 1);
        assert(front =~= range(0, h + 1));
        let pred = |j: int| waits_for(w, j, front.last()) && unblocked(w, j, front);
        assert(front.last() == h);
        assert(done.last() == o[h]) by {
            assert(q2[h] == o.take(b)[h]);
        }
        assert(done == o.take(h + 1)) by {
            assert(q2.take(h + 1) == done);
            assert(o.take(b).take(h + 1) == o.take(h + 1));
        }
        assert forall|j: int| 0 <= j < n implies (#[trigger] pred(j) <==> a <= j < b) by {
            lemma_waits_alike(m, j, h);
            lemma_unblocked_alike(m, j, h + 1);
            assert(pred(j) <==> old_pred(o[j]));
            assert(old_pred(o[j]) <==> r.contains(o[j]));
            if r.contains(o[j]) {
                let x = r.index_of(o[j]);
                assert(q2[a + x] == o[j]);
                assert(o.take(b)[a + x] == o[a + x]);
                assert(j == a + x);
            }
            if a <= j < b {
                assert(o.take(b)[j] == o[j]);
                assert(q2[j] == r[j - a]);
            }
        }
        lemma_picked_range(n, pred, a, b);
        assert(range(0, a) + range(a, b) =~= range(0, b));
        lemma_same_run(m, q2, h + 1);
    }
}

/// Ordering members that are in their order changes nothing, also where some depend on each
/// other in a cycle. No two members share an importer key or a name.
pub proof fn ordering_again_changes_nothing(m: Members)
    requires
        are_distinct(m),
    ensures
        lifecycle_order(reordered(m)) == Seq::new(m.len(), |i: int| i),
        reordered(reordered(m)) == reordered(m),
{
    let n = m.len() as int;
    let w = reordered(m);
    let o = lifecycle_order(m);
    let e = emitted(m);
    lifecycle_order_is_a_permutation(m);
    let q = initially_ready(m);
    lemma_start(m);
    lemma_emit_all_extends(m, q, 0);
    lemma_distinct_below(q, n);
    lemma_emitted(m);
    lemma_distinct_below(e, n);
    assert(o.take(q.len() as int) == q) by {
        assert(o.take(q.len() as int) == e.take(q.len() as int));
    }
    let old_pred = |j: int| unblocked(m, j, Seq::empty());
    lemma_picked(n, old_pred);
    let pred = |j: int| unblocked(w, j, Seq::empty());
    assert(range(0, 0) =~= Seq::<int>::empty());
    assert(o.take(0) =~= Seq::<int>::empty());
    assert forall|j: int| 0 <= j < n implies (#[trigger] pred(j) <==> 0 <= j < q.len()) by {
        lemma_unblocked_alike(m, j, 0);
        assert(pred(j) <==> old_pred(o[j]));
        assert(old_pred(o[j]) <==> q.contains(o[j]));
        if q.contains(o[j]) {
            let x = q.index_of(o[j]);
            assert(o.take(q.len() as int)[x] == o[x]);
            assert(j == x);
        }
        if j < q.len() {
            assert(o.take(q.len() as int)[j] == o[j]);
        }
    }
    lemma_picked_range(n, pred, 0, q.len() as int);
    lemma_same_run(m, q, 0);
    let k = e.len() as int;
    assert(emitted(w) == range(0, k));
    let rest = |j: int| !emitted(w).contains(j);
    assert forall|j: int| 0 <= j < n implies (#[trigger] rest(j) <==> k <= j < n) by {
        if j < k {
            assert(range(0, k)[j] == j);
        }
    }
    lemma_picked_range(n, rest, k, n);
    assert(range(0, k) + range(k, n) =~= Seq::new(m.len(), |i: int| i));
    assert(reordered(w) =~= w);
}

/// How many indices below `n` `pred` accepts.
spec fn count(n: int, pred: spec_fn(int) -> bool) -> nat
    decreases n,
{
    if n <= 0 {
        0
    } else if pred(n - 1) {
        count(n - 1, pred) + 1
    } else {
        count(n - 1, pred)
    }
}

proof fn lemma_count_same(n: int, p: spec_fn(int) -> bool, q: spec_fn(int) -> bool)
    requires
        forall|i: int| 0 <= i < n ==> #[trigger] p(i) == q(i),
    ensures
        count(n, p) == count(n, q),
    decreases n,
{
    if n > 0 {
        lemma_count_same(n - 1, p, q);
        assert(p(n - 1) == q(n - 1));
    }
}

proof fn lemma_count_one_less(
    n: int,
    p: spec_fn(int) -> bool,
    q: spec_fn(int) -> bool,
    k: int,
)
    requires
        0 <= k < n,
        p(k),
        !q(k),
        forall|i: int| 0 <= i < n && i != k ==> #[trigger] p(i) == q(i),
    ensures
        count(n, p) == count(n, q) + 1,
    decreases n,
{
    if k == n - 1 {
        assert forall|i: int| 0 <= i < n - 1 implies #[trigger] p(i) == q(i) by {}
        lemma_count_same(n - 1, p, q);
    } else {
        lemma_count_one_less(n - 1, p, q, k);
        assert(p(n - 1) == q(n - 1));
    }
}

proof fn lemma_count_zero(n: int, p: spec_fn(int) -> bool)
    ensures
        count(n, p) <= n || n < 0,
        count(n, p) == 0 <==> forall|i: int| 0 <= i < n ==> !#[trigger] p(i),
    decreases n,
{
    if n > 0 {
        lemma_count_zero(n - 1, p);
        if forall|i: int| 0 <= i < n ==> !#[trigger] p(i) {
            assert forall|i: int| 0 <= i < n - 1 implies !#[trigger] p(i) by {}
            assert(!p(n - 1));
        }
        if count(n, p) == 0 {
            assert forall|i: int| 0 <= i < n implies !#[trigger] p(i) by {}
        }
    }
}

/// What member `j` still waits for when `done` has been emitted.
spec fn pending(m: Members, j: int, done: Seq<int>) -> spec_fn(int) -> bool {
    |d: int| waits_for(m, j, d) && !done.contains(d)
}

/// Indices as integers.
pub open spec fn ints(s: Seq<usize>) -> Seq<int> {
    Seq::new(s.len(), |i: int| s[i] as int)
}

/// Whether a dependency of member `j` on `name` makes it wait for `d`.
spec fn marks_name(m: Members, j: int, name: Seq<char>, d: int) -> bool {
    target(m, name) == Some(d) && m[d].0@ != m[j].0@
}

/// Whether a dependency of member `j` on one of `names` makes it wait for `d`.
spec fn marks(m: Members, j: int, names: Set<Seq<char>>, d: int) -> bool {
    exists|name: Seq<char>| #[trigger] names.contains(name) && marks_name(m, j, name, d)
}

/// `index` maps each member name to the last member that has it.
spec fn index_by_name(m: Members, index: &TextMap<usize>) -> bool {
    forall|name: Seq<char>|
        match last_named(m, name, m.len() as int) {
            Some(k) => #[trigger] index@.contains_key(name) && index@[name] == k && 0 <= k < m.len(),
            None => !index@.contains_key(name),
        }
}

/// `index` maps each importer key to the last member that has it.
spec fn index_by_importer(m: Members, index: &TextMap<usize>) -> bool {
    forall|importer: Seq<char>|
        match last_at(m, importer, m.len() as int) {
            Some(k) => #[trigger] index@.contains_key(importer) && index@[importer] == k && 0 <= k
                < m.len(),
            None => !index@.contains_key(importer),
        }
}

/// The members that a list of references stands for.
pub open spec fn listed(members: Seq<&(String, PackageJson)>) -> Members {
    Seq::new(members.len(), |i: int| *members[i])
}

/// Notes in `row` the members that the names in `section` stand for, as far as their
/// importer key is not that of member `j`.
fn mark_section(
    members: &Vec<&(String, PackageJson)>,
    j: usize,
    section: &TextMap<String>,
    named: &TextMap<usize>,
    importers: &TextMap<usize>,
    row: &mut Vec<bool>,
)
    requires
        j < listed(members@).len(),
        old(row)@.len() == listed(members@).len(),
        index_by_name(listed(members@), named),
        index_by_importer(listed(members@), importers),
    ensures
        final(row)@.len() == listed(members@).len(),
        forall|d: int|
            0 <= d < listed(members@).len() ==> (#[trigger] final(row)@[d] <==> old(row)@[d]
                || marks(listed(members@), j as int, section@.dom(), d)),
{
    let n = section.len();
    let mut i: usize = 0;
    while i < n
        invariant
            n == section.pairs().len(),
            i <= n,
            j < listed(members@).len(),
            row@.len() == listed(members@).len(),
            index_by_name(listed(members@), named),
            index_by_importer(listed(members@), importers),
            forall|d: int|
                0 <= d < listed(members@).len() ==> (#[trigger] row@[d] <==> old(row)@[d] || exists|x: int|
                    0 <= x < i && marks_name(listed(members@), j as int, #[trigger] section.pairs()[x].0, d)),
        decreases n - i,
    {
        let key = section.key_at(i);
        let ghost before = row@;
        let ghost marked: Option<int> = None;
        if let Some(k) = named.get(key.as_str()) {
            let importer = &members[*k].0;
            if let Some(d) = importers.get(importer.as_str()) {
                if !text::same_text(members[*d].0.as_str(), members[j].0.as_str()) {
                    row.set(*d, true);
                    proof {
                        marked = Some(*d as int);
                    }
                }
            }
        }
        proof {
            let name = section.pairs()[i as int].0;
            assert(marked is Some ==> target(listed(members@), name) == marked);
            assert forall|d: int| 0 <= d < listed(members@).len() implies (#[trigger] row@[d]
                <==> before[d] || marks_name(listed(members@), j as int, name, d)) by {}
            assert forall|d: int| 0 <= d < listed(members@).len() implies (#[trigger] row@[d] <==> old(
                row,
            )@[d] || exists|x: int|
                0 <= x < i + 1 && marks_name(
                    listed(members@),
                    j as int,
                    #[trigger] section.pairs()[x].0,
                    d,
                )) by {
                assert(row@[d] <==> before[d] || marks_name(listed(members@), j as int, name, d));
                if row@[d] && !before[d] {
                    assert(marks_name(listed(members@), j as int, section.pairs()[i as int].0, d));
                }
            }
        }
        i = i + 1;
    }
    proof {
        assert forall|d: int| 0 <= d < listed(members@).len() implies (#[trigger] row@[d] <==> old(row)@[d]
            || marks(listed(members@), j as int, section@.dom(), d)) by {
            if exists|x: int|
                0 <= x < n && marks_name(listed(members@), j as int, #[trigger] section.pairs()[x].0, d) {
                let x = choose|x: int|
                    0 <= x < n && marks_name(
                        listed(members@),
                        j as int,
                        #[trigger] section.pairs()[x].0,
                        d,
                    );
                let name = section.pairs()[x].0;
                crate::text_map::lemma_map_of_value(section.pairs(), x);
                assert(section@.dom().contains(name));
            }
            if marks(listed(members@), j as int, section@.dom(), d) {
                let name = choose|name: Seq<char>| #[trigger]
                    section@.dom().contains(name) && marks_name(listed(members@), j as int, name, d);
                crate::text_map::lemma_map_of_dom(section.pairs(), name);
                let x = choose|x: int|
                    0 <= x < section.pairs().len() && #[trigger] section.pairs()[x].0 == name;
                assert(marks_name(listed(members@), j as int, section.pairs()[x].0, d));
            }
        }
    }
}

/// The last member with each name.
fn index_names(members: &Vec<&(String, PackageJson)>) -> (index: TextMap<usize>)
    ensures
        index_by_name(listed(members@), &index),
{
    let mut index: TextMap<usize> = TextMap::new();
    let mut i: usize = 0;
    while i < members.len()
        invariant
            i <= listed(members@).len(),
            forall|name: Seq<char>|
                match last_named(listed(members@), name, i as int) {
                    Some(k) => #[trigger] index@.contains_key(name) && index@[name] == k && 0 <= k
                        < i,
                    None => !index@.contains_key(name),
                },
        decreases members.len() - i,
    {
        let ghost before = index@;
        if let Some(name) = &members[i].1.name {
            index.insert(name.clone(), i);
            assert(index@ == before.insert(name@, i));
        }
        proof {
            assert forall|name: Seq<char>|
                match last_named(listed(members@), name, i + 1) {
                    Some(k) => #[trigger] index@.contains_key(name) && index@[name] == k && 0 <= k
                        < i + 1,
                    None => !index@.contains_key(name),
                } by {
                assert(before.contains_key(name) == last_named(listed(members@), name, i as int) is Some);
            }
        }
        i = i + 1;
    }
    proof {
        let m = listed(members@);
        assert(i as int == m.len() as int);
        assert forall|name: Seq<char>|
            match last_named(m, name, m.len() as int) {
                Some(k) => #[trigger] index@.contains_key(name) && index@[name] == k && 0 <= k
                    < m.len(),
                None => !index@.contains_key(name),
            } by {
            assert(index@.contains_key(name) == last_named(m, name, i as int) is Some);
        }
    }
    index
}

/// The last member with each importer key.
fn index_importers(members: &Vec<&(String, PackageJson)>) -> (index: TextMap<usize>)
    ensures
        index_by_importer(listed(members@), &index),
{
    let mut index: TextMap<usize> = TextMap::new();
    let mut i: usize = 0;
    while i < members.len()
        invariant
            i <= listed(members@).len(),
            forall|importer: Seq<char>|
                match last_at(listed(members@), importer, i as int) {
                    Some(k) => #[trigger] index@.contains_key(importer) && index@[importer] == k
                        && 0 <= k < i,
                    None => !index@.contains_key(importer),
                },
        decreases members.len() - i,
    {
        let ghost before = index@;
        index.insert(members[i].0.clone(), i);
        proof {
            let m = listed(members@);
            assert(index@ == before.insert(m[i as int].0@, i));
            assert forall|importer: Seq<char>|
                match last_at(m, importer, i + 1) {
                    Some(k) => #[trigger] index@.contains_key(importer) && index@[importer] == k
                        && 0 <= k < i + 1,
                    None => !index@.contains_key(importer),
                } by {
                assert(before.contains_key(importer) == last_at(m, importer, i as int) is Some);
            }
        }
        i = i + 1;
    }
    proof {
        let m = listed(members@);
        assert(i as int == m.len() as int);
        assert forall|importer: Seq<char>|
            match last_at(m, importer, m.len() as int) {
                Some(k) => #[trigger] index@.contains_key(importer) && index@[importer] == k && 0
                    <= k < m.len(),
                None => !index@.contains_key(importer),
            } by {
            assert(index@.contains_key(importer) == last_at(m, importer, i as int) is Some);
        }
    }
    index
}

/// For each member a row that says which members it waits for.
fn waiting_rows(members: &Vec<&(String, PackageJson)>) -> (rows: Vec<Vec<bool>>)
    ensures
        rows@.len() == listed(members@).len(),
        forall|j: int| 0 <= j < listed(members@).len() ==> #[trigger] rows@[j]@.len() == listed(members@).len(),
        forall|j: int, d: int|
            0 <= j < listed(members@).len() && 0 <= d < listed(members@).len() ==> (#[trigger] rows@[j]@[d]
                == waits_for(listed(members@), j, d)),
{
    let named = index_names(members);
    let importers = index_importers(members);
    let mut rows: Vec<Vec<bool>> = Vec::new();
    let mut j: usize = 0;
    while j < members.len()
        invariant
            j <= listed(members@).len(),
            rows@.len() == j,
            index_by_name(listed(members@), &named),
            index_by_importer(listed(members@), &importers),
            forall|x: int| 0 <= x < j ==> #[trigger] rows@[x]@.len() == listed(members@).len(),
            forall|x: int, d: int|
                0 <= x < j && 0 <= d < listed(members@).len() ==> (#[trigger] rows@[x]@[d] == waits_for(
                    listed(members@),
                    x,
                    d,
                )),
        decreases members.len() - j,
    {
        let mut row: Vec<bool> = Vec::new();
        let mut d: usize = 0;
        while d < members.len()
            invariant
                d <= listed(members@).len(),
                row@.len() == d,
                forall|x: int| 0 <= x < d ==> !#[trigger] row@[x],
            decreases members.len() - d,
        {
            row.push(false);
            d = d + 1;
        }
        let manifest = &members[j].1;
        mark_section(members, j, &manifest.dependencies, &named, &importers, &mut row);
        mark_section(members, j, &manifest.dev_dependencies, &named, &importers, &mut row);
        mark_section(members, j, &manifest.optional_dependencies, &named, &importers, &mut row);
        proof {
            let m = listed(members@);
            assert forall|d: int| 0 <= d < m.len() implies (#[trigger] row@[d] == waits_for(
                m,
                j as int,
                d,
            )) by {
                if row@[d] {
                    let names = if marks(m, j as int, manifest.dependencies@.dom(), d) {
                        manifest.dependencies@.dom()
                    } else if marks(m, j as int, manifest.dev_dependencies@.dom(), d) {
                        manifest.dev_dependencies@.dom()
                    } else {
                        manifest.optional_dependencies@.dom()
                    };
                    let name = choose|name: Seq<char>| #[trigger]
                        names.contains(name) && marks_name(m, j as int, name, d);
                    assert(lists(m[j as int].1, name));
                }
                if waits_for(m, j as int, d) {
                    let name = choose|name: Seq<char>| #[trigger]
                        lists(m[j as int].1, name) && target(m, name) == Some(d);
                    if manifest.dependencies@.contains_key(name) {
                        assert(manifest.dependencies@.dom().contains(name));
                    } else if manifest.dev_dependencies@.contains_key(name) {
                        assert(manifest.dev_dependencies@.dom().contains(name));
                    } else {
                        assert(manifest.optional_dependencies@.dom().contains(name));
                    }
                }
            }
        }
        rows.push(row);
        j = j + 1;
    }
    rows
}

proof fn lemma_unblocked(m: Members, j: int, done: Seq<int>)
    ensures
        count(m.len() as int, pending(m, j, done)) <= m.len(),
        count(m.len() as int, pending(m, j, done)) == 0 <==> unblocked(m, j, done),
{
    let p = pending(m, j, done);
    lemma_count_zero(m.len() as int, p);
    if unblocked(m, j, done) {
        assert forall|i: int| 0 <= i < m.len() implies !#[trigger] p(i) by {}
    }
    if forall|i: int| 0 <= i < m.len() ==> !#[trigger] p(i) {
        assert forall|d: int| #[trigger] waits_for(m, j, d) implies done.contains(d) by {
            assert(!p(d));
        }
    }
}

/// Emitting the member at `h` takes it off what `j` waits for, and nothing else.
proof fn lemma_emit_one(m: Members, j: int, q: Seq<int>, h: int)
    requires
        0 <= h < q.len(),
        q.no_duplicates(),
        0 <= q[h] < m.len(),
    ensures
        count(m.len() as int, pending(m, j, q.take(h))) == count(
            m.len() as int,
            pending(m, j, q.take(h + 1)),
        ) + (if waits_for(m, j, q[h]) {
            1nat
        } else {
            0nat
        }),
{
    let a = q.take(h);
    let b = q.take(h + 1);
    let p = pending(m, j, a);
    let r = pending(m, j, b);
    assert forall|d: int| b.contains(d) <==> a.contains(d) || d == q[h] by {
        if b.contains(d) {
            let k = b.index_of(d);
            if k < h {
                assert(a[k] == d);
            }
        }
        if a.contains(d) {
            assert(b[a.index_of(d)] == d);
        }
        if d == q[h] {
            assert(b[h] == d);
        }
    }
    if a.contains(q[h]) {
        assert(q[a.index_of(q[h])] == q[h]);
    }
    if waits_for(m, j, q[h]) {
        assert forall|i: int| 0 <= i < m.len() && i != q[h] implies #[trigger] p(i) == r(i) by {}
        lemma_count_one_less(m.len() as int, p, r, q[h]);
    } else {
        assert forall|i: int| 0 <= i < m.len() implies #[trigger] p(i) == r(i) by {}
        lemma_count_same(m.len() as int, p, r);
    }
}

/// How many members each member waits for.
fn waiting_counts(members: &Vec<&(String, PackageJson)>, rows: &Vec<Vec<bool>>) -> (counts: Vec<
    usize,
>)
    requires
        rows@.len() == listed(members@).len(),
        forall|j: int| 0 <= j < listed(members@).len() ==> #[trigger] rows@[j]@.len() == listed(members@).len(),
        forall|j: int, d: int|
            0 <= j < listed(members@).len() && 0 <= d < listed(members@).len() ==> (#[trigger] rows@[j]@[d]
                == waits_for(listed(members@), j, d)),
    ensures
        counts@.len() == listed(members@).len(),
        forall|j: int|
            0 <= j < listed(members@).len() ==> #[trigger] counts@[j] == count(
                listed(members@).len() as int,
                pending(listed(members@), j, Seq::empty()),
            ),
{
    let mut counts: Vec<usize> = Vec::new();
    let mut j: usize = 0;
    while j < members.len()
        invariant
            j <= listed(members@).len(),
            counts@.len() == j,
            rows@.len() == listed(members@).len(),
            forall|j: int| 0 <= j < listed(members@).len() ==> #[trigger] rows@[j]@.len() == listed(members@).len(),
            forall|j: int, d: int|
                0 <= j < listed(members@).len() && 0 <= d < listed(members@).len() ==> (#[trigger] rows@[j]@[d]
                    == waits_for(listed(members@), j, d)),
            forall|x: int|
                0 <= x < j ==> #[trigger] counts@[x] == count(
                    listed(members@).len() as int,
                    pending(listed(members@), x, Seq::empty()),
                ),
        decreases members.len() - j,
    {
        let row = &rows[j];
        let mut waits: usize = 0;
        let mut d: usize = 0;
        let ghost p = pending(listed(members@), j as int, Seq::empty());
        while d < members.len()
            invariant
                j < listed(members@).len(),
                d <= listed(members@).len(),
                row@.len() == listed(members@).len(),
                p == pending(listed(members@), j as int, Seq::empty()),
                forall|d: int|
                    0 <= d < listed(members@).len() ==> #[trigger] row@[d] == waits_for(
                        listed(members@),
                        j as int,
                        d,
                    ),
                waits == count(d as int, p),
                waits <= d,
            decreases members.len() - d,
        {
            assert(p(d as int) == row@[d as int]);
            if row[d] {
                waits = waits + 1;
            }
            d = d + 1;
        }
        counts.push(waits);
        j = j + 1;
    }
    counts
}

/// The order of `members`, as indices.
pub fn lifecycle_indices(members: &Vec<&(String, PackageJson)>) -> (order: Vec<usize>)
    ensures
        ints(order@) == lifecycle_order(listed(members@)),
{
    let ghost m = listed(members@);
    let n = members.len();
    let rows = waiting_rows(members);
    let mut waits = waiting_counts(members, &rows);
    let mut queue: Vec<usize> = Vec::new();
    let mut j: usize = 0;
    let ghost start = |j: int| unblocked(m, j, Seq::empty());
    while j < n
        invariant
            m == listed(members@),
            n == m.len(),
            j <= n,
            start == |j: int| unblocked(m, j, Seq::empty()),
            waits@.len() == n,
            forall|x: int|
                0 <= x < n ==> #[trigger] waits@[x] == count(
                    n as int,
                    pending(m, x, Seq::empty()),
                ),
            ints(queue@) == picked(j as int, start),
        decreases n - j,
    {
        proof {
            lemma_unblocked(m, j as int, Seq::empty());
            assert(start(j as int) == unblocked(m, j as int, Seq::empty()));
        }
        if waits[j] == 0 {
            let ghost before = queue@;
            queue.push(j);
            assert(ints(queue@) == ints(before).push(j as int));
        }
        j = j + 1;
    }
    let mut h: usize = 0;
    proof {
        lemma_start(m);
        assert(ints(queue@).take(0) == Seq::<int>::empty());
    }
    while h < queue.len()
        invariant
            m == listed(members@),
            n == m.len(),
            rows@.len() == n,
            forall|j: int| 0 <= j < n ==> #[trigger] rows@[j]@.len() == n,
            forall|j: int, d: int|
                0 <= j < n && 0 <= d < n ==> (#[trigger] rows@[j]@[d] == waits_for(m, j, d)),
            queue_ok(m, ints(queue@), h as int),
            emit_all(m, ints(queue@), h as int) == emitted(m),
            waits@.len() == n,
            forall|x: int|
                0 <= x < n ==> #[trigger] waits@[x] == count(
                    n as int,
                    pending(m, x, ints(queue@).take(h as int)),
                ),
        decreases n - h,
    {
        let current = queue[h];
        let ghost q = ints(queue@);
        let ghost done = q.take(h + 1);
        let ghost earlier = q.take(h as int);
        let ghost pred = |j: int| waits_for(m, j, done.last()) && unblocked(m, j, done);
        proof {
            assert(q[h as int] == current);
            assert(done.last() == current);
            lemma_distinct_below(q, n as int);
        }
        let mut j: usize = 0;
        assert(q + picked(0, pred) == q);
        while j < n
            invariant
                m == listed(members@),
                n == m.len(),
                j <= n,
                h < q.len() <= n,
                current < n,
                current == q[h as int],
                q.no_duplicates(),
                done == q.take(h + 1),
                earlier == q.take(h as int),
                done.last() == current,
                pred == |j: int| waits_for(m, j, done.last()) && unblocked(m, j, done),
                rows@.len() == n,
                forall|j: int| 0 <= j < n ==> #[trigger] rows@[j]@.len() == n,
                forall|j: int, d: int|
                    0 <= j < n && 0 <= d < n ==> (#[trigger] rows@[j]@[d] == waits_for(m, j, d)),
                waits@.len() == n,
                forall|x: int|
                    0 <= x < j ==> #[trigger] waits@[x] == count(n as int, pending(m, x, done)),
                forall|x: int|
                    j <= x < n ==> #[trigger] waits@[x] == count(n as int, pending(m, x, earlier)),
                ints(queue@) == q + picked(j as int, pred),
            decreases n - j,
        {
            proof {
                lemma_emit_one(m, j as int, q, h as int);
                lemma_unblocked(m, j as int, done);
                assert(pred(j as int) == (waits_for(m, j as int, done.last()) && unblocked(
                    m,
                    j as int,
                    done,
                )));
            }
            if rows[j][current] {
                let left = waits[j] - 1;
                waits.set(j, left);
                if left == 0 {
                    let ghost before = queue@;
                    queue.push(j);
                    assert(ints(queue@) == ints(before).push(j as int));
                    assert(ints(queue@) == q + picked(j + 1, pred));
                }
            }
            j = j + 1;
        }
        proof {
            lemma_step(m, q, h as int);
            assert(ints(queue@).take(h + 1) == done);
        }
        h = h + 1;
    }
    let ghost e = emitted(m);
    assert(ints(queue@) == e);
    let mut seen: Vec<bool> = Vec::new();
    let mut i: usize = 0;
    while i < n
        invariant
            i <= n,
            seen@.len() == i,
            forall|x: int| 0 <= x < i ==> !#[trigger] seen@[x],
        decreases n - i,
    {
        seen.push(false);
        i = i + 1;
    }
    let emitted_count = queue.len();
    i = 0;
    while i < emitted_count
        invariant
            i <= emitted_count,
            emitted_count == queue@.len(),
            seen@.len() == n,
            ints(queue@) == e,
            forall|x: int| 0 <= x < e.len() ==> 0 <= #[trigger] e[x] < n,
            forall|x: int| 0 <= x < n ==> (#[trigger] seen@[x] <==> e.take(i as int).contains(x)),
        decreases emitted_count - i,
    {
        assert(e[i as int] == queue@[i as int]);
        let ghost seen_before = seen@;
        seen.set(queue[i], true);
        i = i + 1;
        proof {
            assert(e.take(i as int) == e.take(i - 1).push(e[i - 1]));
            assert forall|x: int| 0 <= x < n implies (#[trigger] seen@[x] <==> e.take(
                i as int,
            ).contains(x)) by {
                if e.take(i as int).contains(x) {
                    let k = e.take(i as int).index_of(x);
                    if k < i - 1 {
                        assert(e.take(i - 1)[k] == x);
                    }
                }
                if seen_before[x] {
                    let k = e.take(i - 1).index_of(x);
                    assert(e.take(i as int)[k] == x);
                }
                if x == e[i - 1] {
                    assert(e.take(i as int)[i - 1] == x);
                }
            }
        }
    }
    assert(e.take(i as int) == e);
    let ghost rest = |j: int| !emitted(m).contains(j);
    i = 0;
    assert(e + picked(0, rest) == e);
    while i < n
        invariant
            i <= n,
            n == m.len(),
            seen@.len() == n,
            e == emitted(m),
            rest == |j: int| !emitted(m).contains(j),
            forall|x: int| 0 <= x < n ==> (#[trigger] seen@[x] <==> e.contains(x)),
            ints(queue@) == e + picked(i as int, rest),
        decreases n - i,
    {
        assert(rest(i as int) == !e.contains(i as int));
        if !seen[i] {
            let ghost before = queue@;
            queue.push(i);
            assert(ints(queue@) == ints(before).push(i as int));
            assert(ints(queue@) == e + picked(i + 1, rest));
        }
        i = i + 1;
    }
    queue
}

/// Orders workspace members so that each one comes after the members it depends on (through
/// `dependencies`, `devDependencies` or `optionalDependencies`); members that depend on each
/// other in a cycle, and what depends on those, come last and keep their places.
pub fn order_lifecycle_manifests(manifests: Vec<(String, PackageJson)>) -> (ordered: Vec<
    (String, PackageJson),
>)
    ensures
        ordered@ == reordered(manifests@),
{
    let ghost m = manifests@;
    let mut members: Vec<&(String, PackageJson)> = Vec::new();
    let mut k: usize = 0;
    while k < manifests.len()
        invariant
            k <= manifests@.len(),
            members@.len() == k,
            forall|x: int| 0 <= x < k ==> *(#[trigger] members@[x]) == manifests@[x],
        decreases manifests.len() - k,
    {
        members.push(&manifests[k]);
        k = k + 1;
    }
    assert(listed(members@) == m);
    let order = lifecycle_indices(&members);
    let ghost o = lifecycle_order(m);
    proof {
        lifecycle_order_is_a_permutation(m);
    }
    let mut slots: Vec<Option<(String, PackageJson)>> = Vec::new();
    for member in it: manifests
        invariant
            it.seq() == m,
            slots@.len() == it.index(),
            forall|x: int| 0 <= x < slots@.len() ==> #[trigger] slots@[x] == Some(m[x]),
    {
        slots.push(Some(member));
    }
    let mut ordered: Vec<(String, PackageJson)> = Vec::new();
    let mut i: usize = 0;
    while i < order.len()
        invariant
            o == lifecycle_order(m),
            o.no_duplicates(),
            ints(order@) == o,
            o.len() == m.len(),
            i <= order@.len(),
            slots@.len() == m.len(),
            ordered@.len() == i,
            forall|x: int| 0 <= x < m.len() ==> 0 <= #[trigger] o[x] < m.len(),
            forall|x: int| i <= x < m.len() ==> slots@[#[trigger] o[x]] == Some(m[o[x]]),
            forall|x: int| 0 <= x < i ==> #[trigger] ordered@[x] == m[o[x]],
        decreases order.len() - i,
    {
        let at = order[i];
        assert(o[i as int] == at);
        if let Some(member) = slots[at].take() {
            ordered.push(member);
        }
        i = i + 1;
    }
    ordered
}

/// Whether a manifest has `name` among its dependencies, development dependencies or optional
/// dependencies.
pub open spec fn depends_on(p: PackageJson, name: Seq<char>) -> bool {
    p.dependencies@.dom().union(p.dev_dependencies@.dom()).union(
        p.optional_dependencies@.dom(),
    ).contains(name)
}

/// Whether member `j` depends on member `d`: another member, and the last one that has a name
/// which `j` depends on.
pub open spec fn depends(m: Members, j: int, d: int) -> bool {
    &&& 0 <= j < m.len()
    &&& 0 <= d < m.len()
    &&& j != d
    &&& m[d].1.name is Some
    &&& depends_on(m[j].1, m[d].1.name->0@)
    &&& forall|k: int|
        d < k < m.len() ==> !((#[trigger] m[k]).1.name is Some && m[k].1.name->0@
            == m[d].1.name->0@)
}

/// Whether no two members share an importer key.
pub open spec fn has_distinct_importers(m: Members) -> bool {
    forall|i: int, j: int|
        0 <= i < m.len() && 0 <= j < m.len() && i != j ==> (#[trigger] m[i]).0@ != (
        #[trigger] m[j]).0@
}

proof fn lemma_last_named_is_last(m: Members, name: Seq<char>, n: int)
    requires
        0 <= n <= m.len(),
    ensures
        last_named(m, name, n) matches Some(k) ==> forall|i: int|
            k < i < n ==> !(#[trigger] is_named(m, i, name)),
    decreases n,
{
    if n > 0 {
        lemma_last_named_is_last(m, name, n - 1);
    }
}

proof fn lemma_waits_is_depends(m: Members, j: int, d: int)
    requires
        has_distinct_importers(m),
    ensures
        waits_for(m, j, d) <==> depends(m, j, d),
{
    let n = m.len() as int;
    if waits_for(m, j, d) {
        let name = choose|name: Seq<char>| #[trigger]
            lists(m[j].1, name) && target(m, name) == Some(d);
        lemma_last_named(m, name, n);
        lemma_last_named_is_last(m, name, n);
        let k = last_named(m, name, n)->0;
        lemma_last_at(m, m[k].0@, n);
        if k != d {
            assert(m[k].0@ != m[d].0@);
        }
        assert(is_named(m, d, name));
        assert forall|i: int| d < i < n implies !((#[trigger] m[i]).1.name is Some
            && m[i].1.name->0@ == m[d].1.name->0@) by {
            assert(!is_named(m, i, name));
        }
    }
    if depends(m, j, d) {
        let name = m[d].1.name->0@;
        lemma_last_named(m, name, n);
        lemma_last_named_is_last(m, name, n);
        assert(is_named(m, d, name));
        let k = last_named(m, name, n)->0;
        if k != d {
            if k < d {
                assert(!is_named(m, d, name));
            } else {
                assert(is_named(m, k, name));
            }
        }
        lemma_last_at(m, m[d].0@, n);
        match last_at(m, m[d].0@, n) {
            Some(x) => {
                if x != d {
                    assert(m[x].0@ != m[d].0@);
                }
            },
            None => {
                assert(m[d].0@ != m[d].0@);
            },
        }
        assert(m[j].0@ != m[d].0@);
        assert(lists(m[j].1, name));
    }
}

proof fn lemma_good_is_emitted(
    m: Members,
    good: spec_fn(int) -> bool,
    rank: spec_fn(int) -> nat,
    j: int,
)
    requires
        0 <= j < m.len(),
        good(j),
        forall|a: int, b: int| #[trigger]
            waits_for(m, a, b) && good(a) ==> good(b) && rank(b) < rank(a),
    ensures
        emitted(m).contains(j),
    decreases rank(j),
{
    lemma_emitted(m);
    let e = emitted(m);
    assert(e.take(e.len() as int) == e);
    assert forall|d: int| #[trigger] waits_for(m, j, d) implies e.contains(d) by {
        lemma_good_is_emitted(m, good, rank, d);
    }
    assert(unblocked(m, j, e.take(e.len() as int)));
}

/// The result has every member once: it is the members in some order.
pub proof fn every_member_runs_once(m: Members)
    ensures
        reordered(m).len() == m.len(),
        exists|o: Seq<int>|
            o.len() == m.len() && o.no_duplicates() && forall|i: int|
                0 <= i < m.len() ==> 0 <= #[trigger] o[i] < m.len() && reordered(m)[i] == m[o[i]],
{
    lifecycle_order_is_a_permutation(m);
    let o = lifecycle_order(m);
    assert(forall|i: int|
        0 <= i < m.len() ==> 0 <= #[trigger] o[i] < m.len() && reordered(m)[i] == m[o[i]]);
}

/// The scripts of a member run after those of every member whose name is a key of its
/// dependencies, of its development dependencies or of its optional dependencies, whatever the
/// other two hold; of members that share a name, after those of the last one. It holds of each
/// member from which no chain of dependencies leads into a cycle: `good` are such members, and
/// `rank` witnesses it.
pub proof fn scripts_run_after_those_of_dependencies(
    m: Members,
    good: spec_fn(int) -> bool,
    rank: spec_fn(int) -> nat,
    j: int,
    d: int,
)
    requires
        has_distinct_importers(m),
        forall|a: int, b: int| #[trigger]
            depends(m, a, b) && good(a) ==> good(b) && rank(b) < rank(a),
        good(j),
        0 <= j < m.len(),
        0 <= d < m.len(),
        j != d,
        m[d].1.name is Some,
        m[j].1.dependencies@.contains_key(m[d].1.name->0@) || m[j].1.dev_dependencies@.contains_key(
            m[d].1.name->0@,
        ) || m[j].1.optional_dependencies@.contains_key(m[d].1.name->0@),
        forall|k: int|
            d < k < m.len() ==> !((#[trigger] m[k]).1.name is Some && m[k].1.name->0@
                == m[d].1.name->0@),
    ensures
        exists|x: int, y: int|
            0 <= x < y < reordered(m).len() && #[trigger] reordered(m)[x] == m[d]
                && #[trigger] reordered(m)[y] == m[j],
        forall|x: int, y: int|
            0 <= x < reordered(m).len() && 0 <= y < reordered(m).len() && #[trigger] reordered(
                m,
            )[x].0 == m[d].0 && #[trigger] reordered(m)[y].0 == m[j].0 ==> x < y,
{
    assert forall|a: int, b: int| #[trigger] waits_for(m, a, b) && good(a) implies good(b)
        && rank(b) < rank(a) by {
        lemma_waits_is_depends(m, a, b);
    }
    lemma_waits_is_depends(m, j, d);
    assert(depends(m, j, d));
    lemma_good_is_emitted(m, good, rank, j);
    lifecycle_order_is_a_permutation(m);
    let o = lifecycle_order(m);
    let e = emitted(m);
    let y = e.index_of(j);
    assert(o[y] == j);
    emitted_members_follow_their_dependencies(m, y, d);
    let x = o.take(y).index_of(d);
    assert(o[x] == d);
    assert(reordered(m)[x] == m[d] && reordered(m)[y] == m[j]);
    assert forall|x2: int, y2: int|
        0 <= x2 < reordered(m).len() && 0 <= y2 < reordered(m).len() && #[trigger] reordered(
            m,
        )[x2].0 == m[d].0 && #[trigger] reordered(m)[y2].0 == m[j].0 implies x2 < y2 by {
        if o[x2] != d {
            assert(m[o[x2]].0@ != m[d].0@);
        }
        if o[y2] != j {
            assert(m[o[y2]].0@ != m[j].0@);
        }
        assert(o[x2] == o[x] && o[y2] == o[y]);
    }
}

/// Members that wait for each other in a cycle, or for such members, come last, in the order in
/// which they stand: each of `bad` depends on another of them, `next`.
pub proof fn members_on_cycles_come_last(
    m: Members,
    bad: spec_fn(int) -> bool,
    next: spec_fn(int) -> int,
    good: spec_fn(int) -> bool,
    rank: spec_fn(int) -> nat,
    j: int,
    k: int,
)
    requires
        has_distinct_importers(m),
        forall|a: int|
            0 <= a < m.len() && bad(a) ==> bad(#[trigger] next(a)) && depends(m, a, next(a)),
        forall|a: int, b: int| #[trigger]
            depends(m, a, b) && good(a) ==> good(b) && rank(b) < rank(a),
        0 <= j < m.len(),
        0 <= k < m.len(),
        bad(k),
        good(j) || bad(j) && j < k,
    ensures
        exists|x: int, y: int|
            0 <= x < y < reordered(m).len() && #[trigger] reordered(m)[x] == m[j]
                && #[trigger] reordered(m)[y] == m[k],
{
    let n = m.len() as int;
    assert forall|a: int, b: int| waits_for(m, a, b) == #[trigger] depends(m, a, b) by {
        lemma_waits_is_depends(m, a, b);
    }
    assert forall|a: int, b: int| #[trigger] waits_for(m, a, b) && good(a) implies good(b)
        && rank(b) < rank(a) by {
        lemma_waits_is_depends(m, a, b);
    }
    lifecycle_order_is_a_permutation(m);
    let o = lifecycle_order(m);
    let e = emitted(m);
    lemma_emitted(m);
    lemma_bad_is_not_emitted(m, bad, next, k);
    let pred = |i: int| !emitted(m).contains(i);
    let rest = picked(n, pred);
    lemma_picked(n, pred);
    assert(rest.contains(k));
    let y = rest.index_of(k);
    assert(o[e.len() + y] == k);
    if good(j) {
        lemma_good_is_emitted(m, good, rank, j);
        let x = e.index_of(j);
        assert(o[x] == j);
        assert(reordered(m)[x] == m[j] && reordered(m)[e.len() + y] == m[k]);
    } else {
        lemma_bad_is_not_emitted(m, bad, next, j);
        assert(rest.contains(j));
        let x = rest.index_of(j);
        lemma_picked_ascends(n, pred);
        assert(x < y) by {
            if y <= x {
                assert(rest[y] <= rest[x]);
            }
        }
        assert(o[e.len() + x] == j);
        assert(reordered(m)[e.len() + x] == m[j] && reordered(m)[e.len() + y] == m[k]);
    }
}

proof fn lemma_picked_ascends(n: int, pred: spec_fn(int) -> bool)
    ensures
        forall|a: int, b: int|
            0 <= a < b < picked(n, pred).len() ==> #[trigger] picked(n, pred)[a] < #[trigger] picked(
                n,
                pred,
            )[b],
        forall|a: int| 0 <= a < picked(n, pred).len() ==> #[trigger] picked(n, pred)[a] < n,
    decreases n,
{
    if n > 0 {
        lemma_picked_ascends(n - 1, pred);
        let s = picked(n - 1, pred);
        let t = picked(n, pred);
        assert forall|a: int| 0 <= a < t.len() implies #[trigger] t[a] < n by {
            if a < s.len() {
                assert(t[a] == s[a]);
            }
        }
        assert forall|a: int, b: int| 0 <= a < b < t.len() implies #[trigger] t[a]
            < #[trigger] t[b] by {
            assert(t[a] == s[a]);
            if b < s.len() {
                assert(t[b] == s[b]);
            }
        }
    }
}

proof fn lemma_bad_is_not_emitted(
    m: Members,
    bad: spec_fn(int) -> bool,
    next: spec_fn(int) -> int,
    k: int,
)
    requires
        forall|a: int|
            0 <= a < m.len() && bad(a) ==> bad(#[trigger] next(a)) && depends(m, a, next(a)),
        forall|a: int, b: int| waits_for(m, a, b) == #[trigger] depends(m, a, b),
        bad(k),
        0 <= k < m.len(),
    ensures
        !emitted(m).contains(k),
{
    lemma_emitted(m);
    let e = emitted(m);
    if e.contains(k) {
        lemma_no_bad_at(m, bad, next, e.index_of(k));
    }
}

proof fn lemma_no_bad_at(
    m: Members,
    bad: spec_fn(int) -> bool,
    next: spec_fn(int) -> int,
    i: int,
)
    requires
        forall|a: int|
            0 <= a < m.len() && bad(a) ==> bad(#[trigger] next(a)) && depends(m, a, next(a)),
        forall|a: int, b: int| waits_for(m, a, b) == #[trigger] depends(m, a, b),
        0 <= i < emitted(m).len(),
    ensures
        !bad(emitted(m)[i]),
    decreases i,
{
    lemma_emitted(m);
    let e = emitted(m);
    if bad(e[i]) {
        let b = next(e[i]);
        assert(depends(m, e[i], b));
        assert(waits_for(m, e[i], b));
        assert(e.take(i).contains(b));
        let k = e.take(i).index_of(b);
        assert(e[k] == b);
        lemma_no_bad_at(m, bad, next, k);
    }
}

/// Members that depend on no other member come first, in the order in which they stand.
pub proof fn independent_members_come_first(m: Members, j: int, k: int)
    requires
        has_distinct_importers(m),
        0 <= j < m.len(),
        0 <= k < m.len(),
        forall|d: int| !(#[trigger] depends(m, j, d)),
        j < k || exists|d: int| #[trigger] depends(m, k, d),
    ensures
        j != k ==> exists|x: int, y: int|
            0 <= x < y < reordered(m).len() && #[trigger] reordered(m)[x] == m[j]
                && #[trigger] reordered(m)[y] == m[k],
{
    let n = m.len() as int;
    assert forall|a: int, b: int| waits_for(m, a, b) == #[trigger] depends(m, a, b) by {
        lemma_waits_is_depends(m, a, b);
    }
    lifecycle_order_is_a_permutation(m);
    let o = lifecycle_order(m);
    let e = emitted(m);
    let pred = |i: int| unblocked(m, i, Seq::empty());
    let q = initially_ready(m);
    lemma_picked(n, pred);
    lemma_picked_ascends(n, pred);
    lemma_emit_all_extends(m, q, 0);
    assert forall|d: int| #[trigger] waits_for(m, j, d) implies Seq::<int>::empty().contains(d) by {
        assert(!depends(m, j, d));
    }
    assert(pred(j));
    assert(q.contains(j));
    let x = q.index_of(j);
    assert(e.take(q.len() as int)[x] == j);
    assert(o[x] == j);
    assert(o.contains(k));
    let y = o.index_of(k);
    if j != k {
        if y < q.len() {
            assert(e.take(q.len() as int)[y] == q[y]);
            assert(q[y] == k);
            assert(q.contains(k));
            assert(pred(k));
            if exists|d: int| #[trigger] depends(m, k, d) {
                let d = choose|d: int| #[trigger] depends(m, k, d);
                assert(waits_for(m, k, d));
                assert(Seq::<int>::empty().contains(d));
            }
            assert(j < k);
            assert(x < y) by {
                if y < x {
                    assert(q[y] < q[x]);
                }
            }
        }
        assert(reordered(m)[x] == m[j] && reordered(m)[y] == m[k]);
    }
}

/// Whether the member at `i` of a queue waits for the one at `t` and for nothing after it.
spec fn waits_last_for(m: Members, q: Seq<int>, i: int, t: int) -> bool {
    &&& 0 <= t < q.len()
    &&& waits_for(m, q[i], q[t])
    &&& forall|d: int| #[trigger] waits_for(m, q[i], d) ==> q.take(t + 1).contains(d)
}

/// Whether the member at `i` of a queue became ready with one of the first `h`.
spec fn is_released(m: Members, q: Seq<int>, i: int, h: int) -> bool {
    exists|t: int| t < h && #[trigger] waits_last_for(m, q, i, t)
}

/// Whether the members of a queue from `n` on stand in the order in which they became ready,
/// while its first `h` have been emitted.
spec fn stands_as_released(m: Members, q: Seq<int>, h: int, n: int) -> bool {
    &&& forall|i: int| n <= i < q.len() ==> #[trigger] is_released(m, q, i, h)
    &&& forall|i: int, j: int, s: int, t: int|
        n <= i < j < q.len() && #[trigger] waits_last_for(m, q, i, s) && #[trigger] waits_last_for(
            m,
            q,
            j,
            t,
        ) ==> s < t || s == t && q[i] < q[j]
}

proof fn lemma_waits_last_once(m: Members, q: Seq<int>, i: int, s: int, t: int)
    requires
        q.no_duplicates(),
        waits_last_for(m, q, i, s),
        waits_last_for(m, q, i, t),
    ensures
        s == t,
{
    assert(q.take(s + 1).contains(q[t]));
    assert(q.take(t + 1).contains(q[s]));
    let x = q.take(s + 1).index_of(q[t]);
    let y = q.take(t + 1).index_of(q[s]);
    assert(q[x] == q[t] && q[y] == q[s]);
}

proof fn lemma_waits_last_same(m: Members, q: Seq<int>, r: Seq<int>, i: int, t: int)
    requires
        0 <= i < q.len(),
        t < q.len(),
    ensures
        waits_last_for(m, q + r, i, t) == waits_last_for(m, q, i, t),
{
    if 0 <= t {
        assert((q + r).take(t + 1) == q.take(t + 1));
    }
}

proof fn lemma_released_step(m: Members, q: Seq<int>, h: int, n: int)
    requires
        queue_ok(m, q, h),
        h < q.len(),
        0 <= n <= q.len(),
        stands_as_released(m, q, h, n),
    ensures
        stands_as_released(m, q + released(m, q.take(h + 1)), h + 1, n),
{
    let done = q.take(h + 1);
    let r = released(m, done);
    let pred = |j: int| waits_for(m, j, done.last()) && unblocked(m, j, done);
    lemma_picked(m.len() as int, pred);
    lemma_picked_ascends(m.len() as int, pred);
    lemma_step(m, q, h);
    let q2 = q + r;
    assert(done.last() == q[h]);
    assert(q2.take(h + 1) == done);
    assert forall|i: int| q.len() <= i < q2.len() implies waits_last_for(m, q2, i, h) by {
        assert(r.contains(r[i - q.len()]));
        assert(pred(q2[i]));
    }
    assert forall|i: int| n <= i < q2.len() implies #[trigger] is_released(m, q2, i, h + 1) by {
        if i < q.len() {
            assert(is_released(m, q, i, h));
            let t = choose|t: int| t < h && #[trigger] waits_last_for(m, q, i, t);
            lemma_waits_last_same(m, q, r, i, t);
            assert(waits_last_for(m, q2, i, t));
        } else {
            assert(waits_last_for(m, q2, i, h));
        }
    }
    assert forall|i: int, j: int, s: int, t: int|
        n <= i < j < q2.len() && #[trigger] waits_last_for(m, q2, i, s)
            && #[trigger] waits_last_for(m, q2, j, t) implies s < t || s == t && q2[i]
        < q2[j] by {
        if i < q.len() {
            assert(is_released(m, q, i, h));
            let s0 = choose|s0: int| s0 < h && #[trigger] waits_last_for(m, q, i, s0);
            lemma_waits_last_same(m, q, r, i, s0);
            lemma_waits_last_once(m, q2, i, s, s0);
        } else {
            lemma_waits_last_once(m, q2, i, s, h);
        }
        if j < q.len() {
            assert(is_released(m, q, j, h));
            let t0 = choose|t0: int| t0 < h && #[trigger] waits_last_for(m, q, j, t0);
            lemma_waits_last_same(m, q, r, j, t0);
            lemma_waits_last_once(m, q2, j, t, t0);
        } else {
            lemma_waits_last_once(m, q2, j, t, h);
            if i >= q.len() {
                assert(r[i - q.len()] < r[j - q.len()]);
            }
        }
    }
}

proof fn lemma_released_in_order(m: Members, q: Seq<int>, h: int, n: int)
    requires
        queue_ok(m, q, h),
        0 <= n <= q.len(),
        stands_as_released(m, q, h, n),
    ensures
        stands_as_released(m, emit_all(m, q, h), m.len() as int, n),
        n <= emit_all(m, q, h).len(),
    decreases m.len() - h,
{
    lemma_distinct_below(q, m.len() as int);
    if h < q.len() {
        lemma_released_step(m, q, h, n);
        lemma_step(m, q, h);
        lemma_released_in_order(m, q + released(m, q.take(h + 1)), h + 1, n);
    } else {
        assert forall|i: int| n <= i < q.len() implies #[trigger] is_released(
            m,
            q,
            i,
            m.len() as int,
        ) by {
            assert(is_released(m, q, i, h));
            let t = choose|t: int| t < h && #[trigger] waits_last_for(m, q, i, t);
            assert(t < m.len());
        }
    }
}

/// Members that depend on others run in the order in which they become ready: what becomes
/// ready with an earlier member runs earlier, and what becomes ready with the same member runs
/// in the order in which it stands. A member becomes ready with the last of the members that
/// it depends on: `x` for `j` and `y` for `k`. It holds of members from which no chain of
/// dependencies leads into a cycle: `good` are such members, and `rank` witnesses it.
pub proof fn members_run_as_they_become_ready(
    m: Members,
    good: spec_fn(int) -> bool,
    rank: spec_fn(int) -> nat,
    j: int,
    k: int,
    x: int,
    y: int,
)
    requires
        has_distinct_importers(m),
        forall|a: int, b: int| #[trigger]
            depends(m, a, b) && good(a) ==> good(b) && rank(b) < rank(a),
        0 <= j < m.len() && good(j),
        0 <= k < m.len() && good(k),
        depends(m, j, x),
        depends(m, k, y),
        forall|d: int| #[trigger]
            depends(m, j, d) ==> lifecycle_order(m).index_of(d) <= lifecycle_order(m).index_of(x),
        forall|d: int| #[trigger]
            depends(m, k, d) ==> lifecycle_order(m).index_of(d) <= lifecycle_order(m).index_of(y),
        lifecycle_order(m).index_of(x) < lifecycle_order(m).index_of(y) || x == y && j < k,
    ensures
        lifecycle_order(m).index_of(j) < lifecycle_order(m).index_of(k),
{
    assert forall|a: int, b: int| #[trigger] waits_for(m, a, b) && good(a) implies good(b)
        && rank(b) < rank(a) by {
        lemma_waits_is_depends(m, a, b);
    }
    lemma_good_is_emitted(m, good, rank, j);
    lemma_good_is_emitted(m, good, rank, k);
    lemma_good_is_emitted(m, good, rank, x);
    lemma_good_is_emitted(m, good, rank, y);
    let q = initially_ready(m);
    let n = q.len() as int;
    let e = emitted(m);
    let o = lifecycle_order(m);
    lemma_start(m);
    lemma_emitted(m);
    lemma_emit_all_extends(m, q, 0);
    lemma_released_in_order(m, q, 0, n);
    lifecycle_order_is_a_permutation(m);
    lemma_ready_last(m, j, x);
    lemma_ready_last(m, k, y);
    let a = e.index_of(j);
    let b = e.index_of(k);
    lemma_place(m, j);
    lemma_place(m, k);
    lemma_place(m, x);
    lemma_place(m, y);
    if b < a {
        assert(n <= b);
        assert(waits_last_for(m, e, b, e.index_of(y)));
        assert(waits_last_for(m, e, a, e.index_of(x)));
    }
    if a == b {
        assert(e[a] == j && e[b] == k);
        lemma_waits_last_once(m, e, a, e.index_of(x), e.index_of(y));
    }
}

proof fn lemma_place(m: Members, j: int)
    requires
        emitted(m).contains(j),
    ensures
        lifecycle_order(m).index_of(j) == emitted(m).index_of(j),
        emitted(m)[emitted(m).index_of(j)] == j,
{
    lifecycle_order_is_a_permutation(m);
    let e = emitted(m);
    let o = lifecycle_order(m);
    let i = e.index_of(j);
    assert(o[i] == j);
    let p = o.index_of(j);
    assert(o[p] == j);
}

proof fn lemma_ready_last(m: Members, j: int, x: int)
    requires
        has_distinct_importers(m),
        emitted(m).contains(j),
        emitted(m).contains(x),
        depends(m, j, x),
        forall|d: int| #[trigger]
            depends(m, j, d) ==> lifecycle_order(m).index_of(d) <= lifecycle_order(m).index_of(x),
    ensures
        waits_last_for(m, emitted(m), emitted(m).index_of(j), emitted(m).index_of(x)),
        initially_ready(m).len() <= emitted(m).index_of(j),
{
    let e = emitted(m);
    let a = e.index_of(j);
    let t = e.index_of(x);
    lemma_emitted(m);
    lemma_waits_is_depends(m, j, x);
    lemma_place(m, j);
    lemma_place(m, x);
    assert forall|d: int| #[trigger] waits_for(m, e[a], d) implies e.take(t + 1).contains(d) by {
        lemma_waits_is_depends(m, j, d);
        assert(e.take(a).contains(d));
        let s = e.take(a).index_of(d);
        assert(e[s] == d);
        assert(e.contains(d));
        lemma_place(m, d);
        let p = e.index_of(d);
        assert(e.take(t + 1)[p] == d);
    }
    let q = initially_ready(m);
    lemma_emit_all_extends(m, q, 0);
    let pred = |i: int| unblocked(m, i, Seq::empty());
    lemma_picked(m.len() as int, pred);
    if a < q.len() {
        assert(e.take(q.len() as int)[a] == q[a]);
        assert(q.contains(q[a]));
        assert(pred(j));
        assert(waits_for(m, j, x));
        assert(Seq::<int>::empty().contains(x));
    }
}

/// What is ordered is what stands at the positions of the order.
pub proof fn members_stand_where_the_order_says(m: Members, i: int)
    requires
        0 <= i < m.len(),
    ensures
        reordered(m).len() == m.len(),
        reordered(m)[i] == m[lifecycle_order(m)[i]],
{
    lifecycle_order_is_a_permutation(m);
}

} // verus!
