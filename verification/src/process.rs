//! The process tree of a running command: the processes that a stop signal
//! is sent to.

use vstd::prelude::*;

verus! {

/// A process of the system's process table, with its parent if it has one.
#[derive(Debug, Clone, PartialEq, Eq)]
pub struct ProcessInfo {
    pub pid: u32,
    pub parent: Option<u32>,
}

/// `pid` followed by the processes below it, generation by generation down
/// to `fuel` generations: for each process of the table whose parent is
/// `pid`, in table order, that process and the processes below it.
pub open spec fn descendants(procs: Seq<ProcessInfo>, pid: u32, fuel: nat) -> Seq<u32>
    decreases fuel, 0int,
{
    if fuel == 0 {
        seq![pid]
    } else {
        seq![pid] + children_from(procs, pid, (fuel - 1) as nat, 0)
    }
}

/// The processes below `parent`, starting with the table's `i`-th entry.
pub open spec fn children_from(procs: Seq<ProcessInfo>, parent: u32, fuel: nat, i: int) -> Seq<u32>
    decreases fuel, procs.len() - i,
{
    if i < 0 || i >= procs.len() {
        Seq::empty()
    } else {
        (if procs[i].parent == Some(parent) {
            descendants(procs, procs[i].pid, fuel)
        } else {
            Seq::empty()
        }) + children_from(procs, parent, fuel, i + 1)
    }
}

/// `q` is `d` generations below `ancestor` in the table.
pub open spec fn descends(procs: Seq<ProcessInfo>, ancestor: u32, q: u32, d: nat) -> bool
    decreases d,
{
    if d == 0 {
        q == ancestor
    } else {
        exists|i: int|
            0 <= i < procs.len() && #[trigger] procs[i].parent == Some(ancestor) && descends(
                procs,
                procs[i].pid,
                q,
                (d - 1) as nat,
            )
    }
}

fn collect(procs: &Vec<ProcessInfo>, pid: u32, fuel: usize) -> (r: Vec<u32>)
    ensures
        r@ == descendants(procs@, pid, fuel as nat),
    decreases fuel,
{
    let mut r: Vec<u32> = Vec::new();
    r.push(pid);
    if fuel == 0 {
        return r;
    }
    let ghost f = (fuel - 1) as nat;
    let mut i: usize = 0;
    assert(r@ + children_from(procs@, pid, f, 0) == descendants(procs@, pid, fuel as nat));
    while i < procs.len()
        invariant
            fuel > 0,
            f == fuel - 1,
            i <= procs.len(),
            r@ + children_from(procs@, pid, f, i as int) == descendants(procs@, pid, fuel as nat),
        decreases procs.len() - i,
    {
        let ghost before = r@;
        let is_child = match procs[i].parent {
            Some(p) => p == pid,
            None => false,
        };
        if is_child {
            let mut sub = collect(procs, procs[i].pid, fuel - 1);
            r.append(&mut sub);
        }
        proof {
            let own = if procs@[i as int].parent == Some(pid) {
                descendants(procs@, procs@[i as int].pid, f)
            } else {
                Seq::empty()
            };
            assert(r@ =~= before + own);
            assert(before + (own + children_from(procs@, pid, f, i + 1)) =~= r@ + children_from(
                procs@,
                pid,
                f,
                i + 1,
            ));
        }
        i = i + 1;
    }
    proof {
        assert(children_from(procs@, pid, f, procs@.len() as int) =~= Seq::<u32>::empty());
        assert(r@ + Seq::<u32>::empty() =~= r@);
    }
    r
}

/// `pid` and the processes below it in the table `procs`, followed down as
/// many generations as the table has entries.
pub fn get_children(pid: u32, procs: &Vec<ProcessInfo>) -> (r: Vec<u32>)
    ensures
        r@ == descendants(procs@, pid, procs@.len()),
{
    collect(procs, pid, procs.len())
}

proof fn lemma_children_from_contains(procs: Seq<ProcessInfo>, parent: u32, fuel: nat, j: int, i: int, q: u32)
    requires
        0 <= j <= i < procs.len(),
        procs[i].parent == Some(parent),
        descendants(procs, procs[i].pid, fuel).contains(q),
    ensures
        children_from(procs, parent, fuel, j).contains(q),
    decreases i - j,
{
    let own = if procs[j].parent == Some(parent) {
        descendants(procs, procs[j].pid, fuel)
    } else {
        Seq::empty()
    };
    let rest = children_from(procs, parent, fuel, j + 1);
    assert(children_from(procs, parent, fuel, j) == own + rest);
    if j == i {
        let k = choose|k: int| 0 <= k < own.len() && own[k] == q;
        assert((own + rest)[k] == q);
    } else {
        lemma_children_from_contains(procs, parent, fuel, j + 1, i, q);
        let k = choose|k: int| 0 <= k < rest.len() && rest[k] == q;
        assert((own + rest)[own.len() + k] == q);
    }
}

/// Every process at most `fuel` generations below `pid` is among
/// `descendants(procs, pid, fuel)`.
pub proof fn lemma_descendants_complete(procs: Seq<ProcessInfo>, pid: u32, q: u32, d: nat, fuel: nat)
    requires
        descends(procs, pid, q, d),
        d <= fuel,
    ensures
        descendants(procs, pid, fuel).contains(q),
    decreases d,
{
    let r = descendants(procs, pid, fuel);
    if d == 0 {
        assert(r[0] == pid);
    } else {
        let i = choose|i: int|
            0 <= i < procs.len() && #[trigger] procs[i].parent == Some(pid) && descends(
                procs,
                procs[i].pid,
                q,
                (d - 1) as nat,
            );
        lemma_descendants_complete(procs, procs[i].pid, q, (d - 1) as nat, (fuel - 1) as nat);
        lemma_children_from_contains(procs, pid, (fuel - 1) as nat, 0, i, q);
        let c = children_from(procs, pid, (fuel - 1) as nat, 0);
        let k = choose|k: int| 0 <= k < c.len() && c[k] == q;
        assert(r == seq![pid] + c);
        assert(r[1 + k] == q);
    }
}

/// Every process in `descendants(procs, pid, fuel)` is `pid` or lies at most
/// `fuel` generations below it.
pub proof fn lemma_descendants_sound(procs: Seq<ProcessInfo>, pid: u32, fuel: nat, q: u32)
    requires
        descendants(procs, pid, fuel).contains(q),
    ensures
        exists|d: nat| d <= fuel && #[trigger] descends(procs, pid, q, d),
    decreases fuel, 0int,
{
    if q == pid {
        assert(descends(procs, pid, q, 0));
    } else {
        let r = descendants(procs, pid, fuel);
        let k = choose|k: int| 0 <= k < r.len() && r[k] == q;
        assert(fuel > 0);
        let c = children_from(procs, pid, (fuel - 1) as nat, 0);
        assert(r == seq![pid] + c);
        assert(c[k - 1] == q);
        lemma_children_from_sound(procs, pid, (fuel - 1) as nat, 0, q);
    }
}

proof fn lemma_children_from_sound(procs: Seq<ProcessInfo>, parent: u32, fuel: nat, j: int, q: u32)
    requires
        0 <= j,
        children_from(procs, parent, fuel, j).contains(q),
    ensures
        exists|d: nat| 1 <= d <= fuel + 1 && #[trigger] descends(procs, parent, q, d),
    decreases fuel, procs.len() - j,
{
    if j >= procs.len() {
        assert(children_from(procs, parent, fuel, j) =~= Seq::<u32>::empty());
    } else {
        let own = if procs[j].parent == Some(parent) {
            descendants(procs, procs[j].pid, fuel)
        } else {
            Seq::empty()
        };
        let rest = children_from(procs, parent, fuel, j + 1);
        let all = own + rest;
        assert(children_from(procs, parent, fuel, j) == all);
        let k = choose|k: int| 0 <= k < all.len() && all[k] == q;
        if k < own.len() {
            assert(own[k] == q);
            assert(procs[j].parent == Some(parent));
            lemma_descendants_sound(procs, procs[j].pid, fuel, q);
            let d = choose|d: nat| d <= fuel && #[trigger] descends(procs, procs[j].pid, q, d);
            assert(descends(procs, parent, q, d + 1));
        } else {
            assert(rest[k - own.len()] == q);
            lemma_children_from_sound(procs, parent, fuel, j + 1, q);
        }
    }
}

/// No two entries of the table have the same process id.
pub open spec fn unique_pids(procs: Seq<ProcessInfo>) -> bool {
    forall|a: int, b: int| 0 <= a < b < procs.len() ==> procs[a].pid != procs[b].pid
}

/// No process lies below itself.
pub open spec fn acyclic(procs: Seq<ProcessInfo>) -> bool {
    forall|q: u32, d: nat| d >= 1 ==> !#[trigger] descends(procs, q, q, d)
}

/// `idx` lists table entries, each the child of the one before and the first
/// a child of `top`.
pub open spec fn is_chain(procs: Seq<ProcessInfo>, top: u32, idx: Seq<int>) -> bool {
    &&& forall|k: int| 0 <= k < idx.len() ==> 0 <= #[trigger] idx[k] < procs.len()
    &&& idx.len() > 0 ==> procs[idx[0]].parent == Some(top)
    &&& forall|k: int| 0 <= k < idx.len() - 1 ==> procs[#[trigger] idx[k + 1]].parent == Some(procs[idx[k]].pid)
}

proof fn lemma_descends_compose(procs: Seq<ProcessInfo>, a: u32, b: u32, c: u32, x: nat, y: nat)
    requires
        descends(procs, a, b, x),
        descends(procs, b, c, y),
    ensures
        descends(procs, a, c, x + y),
    decreases x,
{
    if x > 0 {
        let i = choose|i: int|
            0 <= i < procs.len() && #[trigger] procs[i].parent == Some(a) && descends(
                procs,
                procs[i].pid,
                b,
                (x - 1) as nat,
            );
        lemma_descends_compose(procs, procs[i].pid, b, c, (x - 1) as nat, y);
        assert(((x + y) - 1) as nat == ((x - 1) as nat + y) as nat);
        assert(procs[i].parent == Some(a));
    }
}

proof fn lemma_descends_last_step(procs: Seq<ProcessInfo>, a: u32, x: u32, d: nat)
    requires
        descends(procs, a, x, d),
        d >= 1,
    ensures
        exists|k: int|
            0 <= k < procs.len() && #[trigger] procs[k].pid == x && procs[k].parent is Some && descends(
                procs,
                a,
                procs[k].parent->0,
                (d - 1) as nat,
            ),
    decreases d,
{
    let i = choose|i: int|
        0 <= i < procs.len() && #[trigger] procs[i].parent == Some(a) && descends(
            procs,
            procs[i].pid,
            x,
            (d - 1) as nat,
        );
    if d == 1 {
        assert(procs[i].pid == x);
        assert(descends(procs, a, a, 0));
    } else {
        lemma_descends_last_step(procs, procs[i].pid, x, (d - 1) as nat);
        let k = choose|k: int|
            0 <= k < procs.len() && #[trigger] procs[k].pid == x && procs[k].parent is Some && descends(
                procs,
                procs[i].pid,
                procs[k].parent->0,
                (d - 2) as nat,
            );
        let y = procs[k].parent->0;
        assert(procs[i].parent == Some(a));
        assert(descends(procs, a, y, (d - 1) as nat));
    }
}

proof fn lemma_descends_comparable(procs: Seq<ProcessInfo>, a: u32, b: u32, x: u32, d1: nat, d2: nat)
    requires
        unique_pids(procs),
        descends(procs, a, x, d1),
        descends(procs, b, x, d2),
    ensures
        (exists|e: nat| #[trigger] descends(procs, a, b, e)) || (exists|e: nat| #[trigger] descends(procs, b, a, e)),
    decreases d1 + d2,
{
    if d1 == 0 {
        assert(descends(procs, b, a, d2));
    } else if d2 == 0 {
        assert(descends(procs, a, b, d1));
    } else {
        lemma_descends_last_step(procs, a, x, d1);
        lemma_descends_last_step(procs, b, x, d2);
        let k1 = choose|k: int|
            0 <= k < procs.len() && #[trigger] procs[k].pid == x && procs[k].parent is Some && descends(
                procs,
                a,
                procs[k].parent->0,
                (d1 - 1) as nat,
            );
        let y1 = procs[k1].parent->0;
        let k2 = choose|k: int|
            0 <= k < procs.len() && #[trigger] procs[k].pid == x && procs[k].parent is Some && descends(
                procs,
                b,
                procs[k].parent->0,
                (d2 - 1) as nat,
            );
        let y2 = procs[k2].parent->0;
        if k1 != k2 {
            if k1 < k2 {
                assert(procs[k1].pid != procs[k2].pid);
            } else {
                assert(procs[k2].pid != procs[k1].pid);
            }
        }
        lemma_descends_comparable(procs, a, b, y1, (d1 - 1) as nat, (d2 - 1) as nat);
    }
}

proof fn lemma_chain_exists(procs: Seq<ProcessInfo>, top: u32, x: u32, d: nat)
    requires
        descends(procs, top, x, d),
    ensures
        exists|idx: Seq<int>|
            idx.len() == d && #[trigger] is_chain(procs, top, idx) && (d > 0 ==> procs[idx[d - 1]].pid == x),
    decreases d,
{
    if d == 0 {
        let idx = Seq::<int>::empty();
        assert(is_chain(procs, top, idx));
    } else {
        let i = choose|i: int|
            0 <= i < procs.len() && #[trigger] procs[i].parent == Some(top) && descends(
                procs,
                procs[i].pid,
                x,
                (d - 1) as nat,
            );
        lemma_chain_exists(procs, procs[i].pid, x, (d - 1) as nat);
        let rest = choose|idx: Seq<int>|
            idx.len() == d - 1 && #[trigger] is_chain(procs, procs[i].pid, idx) && (d - 1 > 0 ==> procs[idx[d
                - 2]].pid == x);
        let idx = seq![i] + rest;
        assert forall|k: int| 0 <= k < idx.len() implies 0 <= #[trigger] idx[k] < procs.len() by {
            if k > 0 {
                assert(idx[k] == rest[k - 1]);
            }
        }
        assert forall|k: int| 0 <= k < idx.len() - 1 implies procs[#[trigger] idx[k + 1]].parent == Some(
            procs[idx[k]].pid,
        ) by {
            assert(idx[k + 1] == rest[k]);
            if k > 0 {
                assert(idx[k] == rest[k - 1]);
                assert(rest[(k - 1) + 1] == rest[k]);
                assert(procs[rest[(k - 1) + 1]].parent == Some(procs[rest[k - 1]].pid));
            } else {
                assert(idx[0] == i);
                assert(procs[rest[0]].parent == Some(procs[i].pid));
            }
        }
        assert(is_chain(procs, top, idx));
        if d > 1 {
            assert(idx[d - 1] == rest[d - 2]);
        }
    }
}

proof fn lemma_chain_descends(procs: Seq<ProcessInfo>, top: u32, idx: Seq<int>, a: int, b: int)
    requires
        is_chain(procs, top, idx),
        0 <= a < b < idx.len(),
    ensures
        descends(procs, procs[idx[a]].pid, procs[idx[b]].pid, (b - a) as nat),
    decreases b - a,
{
    let p = procs[idx[a]].pid;
    let j = idx[a + 1];
    assert(procs[j].parent == Some(p));
    assert(0 <= idx[a + 1] < procs.len());
    assert(descends(procs, procs[j].pid, procs[j].pid, 0));
    assert(descends(procs, p, procs[j].pid, 1));
    if b > a + 1 {
        lemma_chain_descends(procs, top, idx, a + 1, b);
        lemma_descends_compose(procs, p, procs[j].pid, procs[idx[b]].pid, 1, (b - a - 1) as nat);
        assert((1 + (b - a - 1) as nat) as nat == (b - a) as nat);
    }
}

proof fn lemma_depth_bound(procs: Seq<ProcessInfo>, top: u32, x: u32, d: nat)
    requires
        acyclic(procs),
        descends(procs, top, x, d),
    ensures
        d <= procs.len(),
{
    lemma_chain_exists(procs, top, x, d);
    let idx = choose|idx: Seq<int>|
        idx.len() == d && #[trigger] is_chain(procs, top, idx) && (d > 0 ==> procs[idx[d - 1]].pid == x);
    assert forall|a: int, b: int| 0 <= a < idx.len() && 0 <= b < idx.len() && a != b implies idx[a]
        != idx[b] by {
        if idx[a] == idx[b] {
            let (lo, hi) = if a < b { (a, b) } else { (b, a) };
            lemma_chain_descends(procs, top, idx, lo, hi);
            let q = procs[idx[lo]].pid;
            assert(descends(procs, q, q, (hi - lo) as nat));
        }
    }
    assert(idx.no_duplicates());
    idx.unique_seq_to_set();
    vstd::set_lib::lemma_int_range(0, procs.len() as int);
    assert forall|v: int| idx.to_set().contains(v) implies vstd::set_lib::set_int_range(0, procs.len() as int).contains(v) by {
        let k = choose|k: int| 0 <= k < idx.len() && idx[k] == v;
        assert(0 <= idx[k] < procs.len());
    }
    vstd::set_lib::lemma_len_subset(idx.to_set(), vstd::set_lib::set_int_range(0, procs.len() as int));
}

proof fn lemma_no_dup_concat(a: Seq<u32>, b: Seq<u32>)
    requires
        a.no_duplicates(),
        b.no_duplicates(),
        forall|x: u32| a.contains(x) ==> !b.contains(x),
    ensures
        (a + b).no_duplicates(),
{
    let c = a + b;
    assert forall|i: int, j: int| 0 <= i < c.len() && 0 <= j < c.len() && i != j implies c[i] != c[j] by {
        if i < a.len() && j >= a.len() {
            assert(a.contains(c[i]));
            assert(b[j - a.len()] == c[j]);
        } else if j < a.len() && i >= a.len() {
            assert(a.contains(c[j]));
            assert(b[i - a.len()] == c[i]);
        } else if i >= a.len() && j >= a.len() {
            assert(c[i] == b[i - a.len()] && c[j] == b[j - a.len()]);
        }
    }
}

proof fn lemma_children_from_member(procs: Seq<ProcessInfo>, p: u32, f: nat, i: int, x: u32)
    requires
        0 <= i,
        children_from(procs, p, f, i).contains(x),
    ensures
        exists|j: int|
            i <= j < procs.len() && #[trigger] procs[j].parent == Some(p) && descendants(procs, procs[j].pid, f).contains(x),
    decreases procs.len() - i,
{
    if i >= procs.len() {
        assert(children_from(procs, p, f, i) =~= Seq::<u32>::empty());
    } else {
        let own = if procs[i].parent == Some(p) {
            descendants(procs, procs[i].pid, f)
        } else {
            Seq::empty()
        };
        let rest = children_from(procs, p, f, i + 1);
        let all = own + rest;
        let k = choose|k: int| 0 <= k < all.len() && all[k] == x;
        if k < own.len() {
            assert(own[k] == x);
            assert(procs[i].parent == Some(p));
        } else {
            assert(rest[k - own.len()] == x);
            lemma_children_from_member(procs, p, f, i + 1, x);
        }
    }
}

proof fn lemma_siblings_disjoint(procs: Seq<ProcessInfo>, p: u32, f: nat, i: int, j: int, x: u32)
    requires
        unique_pids(procs),
        acyclic(procs),
        0 <= i < j < procs.len(),
        procs[i].parent == Some(p),
        procs[j].parent == Some(p),
        descendants(procs, procs[i].pid, f).contains(x),
    ensures
        !descendants(procs, procs[j].pid, f).contains(x),
{
    if descendants(procs, procs[j].pid, f).contains(x) {
        lemma_siblings_overlap(procs, p, f, i, j, x);
    }
}

proof fn lemma_siblings_overlap(procs: Seq<ProcessInfo>, p: u32, f: nat, i: int, j: int, x: u32)
    requires
        unique_pids(procs),
        0 <= i < j < procs.len(),
        procs[i].parent == Some(p),
        procs[j].parent == Some(p),
        descendants(procs, procs[i].pid, f).contains(x),
        descendants(procs, procs[j].pid, f).contains(x),
    ensures
        !acyclic(procs),
{
    let pi = procs[i].pid;
    let pj = procs[j].pid;
    lemma_descendants_sound(procs, pi, f, x);
    lemma_descendants_sound(procs, pj, f, x);
    let d1 = choose|d: nat| d <= f && #[trigger] descends(procs, pi, x, d);
    let d2 = choose|d: nat| d <= f && #[trigger] descends(procs, pj, x, d);
    lemma_descends_comparable(procs, pi, pj, x, d1, d2);
    assert(pi != pj);
    assert(descends(procs, pi, pi, 0));
    assert(descends(procs, p, pi, 1));
    assert(descends(procs, pj, pj, 0));
    assert(descends(procs, p, pj, 1));
    if exists|e: nat| #[trigger] descends(procs, pi, pj, e) {
        let e = choose|e: nat| #[trigger] descends(procs, pi, pj, e);
        assert(e >= 1);
        lemma_descends_last_step(procs, pi, pj, e);
        let k = choose|k: int|
            0 <= k < procs.len() && #[trigger] procs[k].pid == pj && procs[k].parent is Some && descends(
                procs,
                pi,
                procs[k].parent->0,
                (e - 1) as nat,
            );
        let y = procs[k].parent->0;
        if k != j {
            if k < j {
                assert(procs[k].pid != procs[j].pid);
            } else {
                assert(procs[j].pid != procs[k].pid);
            }
        }
        assert(k == j);
        assert(y == p);
        lemma_descends_compose(procs, p, pi, p, 1, (e - 1) as nat);
        assert(descends(procs, p, p, e) && e >= 1);
    } else {
        let e = choose|e: nat| #[trigger] descends(procs, pj, pi, e);
        assert(e >= 1);
        lemma_descends_last_step(procs, pj, pi, e);
        let k = choose|k: int|
            0 <= k < procs.len() && #[trigger] procs[k].pid == pi && procs[k].parent is Some && descends(
                procs,
                pj,
                procs[k].parent->0,
                (e - 1) as nat,
            );
        let y = procs[k].parent->0;
        if k != i {
            if k < i {
                assert(procs[k].pid != procs[i].pid);
            } else {
                assert(procs[i].pid != procs[k].pid);
            }
        }
        assert(k == i);
        assert(y == p);
        lemma_descends_compose(procs, p, pj, p, 1, (e - 1) as nat);
        assert(descends(procs, p, p, e) && e >= 1);
    }
}

proof fn lemma_descendants_distinct(procs: Seq<ProcessInfo>, p: u32, f: nat)
    requires
        unique_pids(procs),
        acyclic(procs),
    ensures
        descendants(procs, p, f).no_duplicates(),
    decreases f, 0int,
{
    if f > 0 {
        let c = children_from(procs, p, (f - 1) as nat, 0);
        lemma_children_distinct(procs, p, (f - 1) as nat, 0);
        assert forall|x: u32| seq![p].contains(x) implies !c.contains(x) by {
            assert(seq![p][0] == p);
            if c.contains(x) {
                lemma_children_from_sound(procs, p, (f - 1) as nat, 0, x);
                let d = choose|d: nat| 1 <= d <= (f - 1) as nat + 1 && #[trigger] descends(procs, p, x, d);
                assert(x == p);
                assert(!descends(procs, p, p, d));
            }
        }
        lemma_no_dup_concat(seq![p], c);
    }
}

proof fn lemma_children_distinct(procs: Seq<ProcessInfo>, p: u32, f: nat, i: int)
    requires
        unique_pids(procs),
        acyclic(procs),
        0 <= i,
    ensures
        children_from(procs, p, f, i).no_duplicates(),
    decreases f, procs.len() - i,
{
    if i < procs.len() {
        let own = if procs[i].parent == Some(p) {
            descendants(procs, procs[i].pid, f)
        } else {
            Seq::empty()
        };
        let rest = children_from(procs, p, f, i + 1);
        if procs[i].parent == Some(p) {
            lemma_descendants_distinct(procs, procs[i].pid, f);
        }
        lemma_children_distinct(procs, p, f, i + 1);
        assert forall|x: u32| own.contains(x) implies !rest.contains(x) by {
            if rest.contains(x) {
                lemma_children_from_member(procs, p, f, i + 1, x);
                let j = choose|j: int|
                    i + 1 <= j < procs.len() && #[trigger] procs[j].parent == Some(p) && descendants(
                        procs,
                        procs[j].pid,
                        f,
                    ).contains(x);
                lemma_siblings_disjoint(procs, p, f, i, j, x);
            }
        }
        lemma_no_dup_concat(own, rest);
    }
}

/// In a table with unique process ids and no cycles, `get_children` lists
/// every process below `pid` (and `pid` itself), each exactly once, and
/// nothing else.
pub proof fn lemma_get_children_exact(procs: Seq<ProcessInfo>, pid: u32)
    requires
        unique_pids(procs),
        acyclic(procs),
    ensures
        descendants(procs, pid, procs.len()).no_duplicates(),
        forall|q: u32|
            #[trigger] descendants(procs, pid, procs.len()).contains(q) <==> exists|d: nat| descends(procs, pid, q, d),
{
    lemma_descendants_distinct(procs, pid, procs.len());
    assert forall|q: u32|
        #[trigger] descendants(procs, pid, procs.len()).contains(q) <==> exists|d: nat| descends(procs, pid, q, d) by {
        if descendants(procs, pid, procs.len()).contains(q) {
            lemma_descendants_sound(procs, pid, procs.len(), q);
        }
        if exists|d: nat| descends(procs, pid, q, d) {
            let d = choose|d: nat| descends(procs, pid, q, d);
            lemma_depth_bound(procs, pid, q, d);
            lemma_descendants_complete(procs, pid, q, d, procs.len());
        }
    }
}

} // verus!
