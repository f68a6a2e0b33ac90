use vstd::prelude::*;

use std::time::{Duration, Instant};
use vstd::utf8::encode_utf8;

verus! {

#[verifier::external_type_specification]
#[verifier::external_body]
pub struct ExInstant(Instant);

/// `Instant::now`: the current instant. Nothing is stated of its value, which is the time.
#[verifier::external_body]
fn instant_now() -> Instant {
    Instant::now()
}

/// `Instant::duration_since`: the time from `earlier` to `later`. Nothing is stated of its
/// value, which rests on the clock.
#[verifier::external_body]
fn duration_since(later: &Instant, earlier: &Instant) -> Duration {
    later.duration_since(*earlier)
}

/// One timer of a benchmark tree: its name, its children (`finished`), the child that is
/// running now (`active`), when it last started, whether it has ended, the durations it
/// measured in nanoseconds (one set per restart of its parent), the draw calls logged in it (one count per
/// restart) and whether it is enabled.
pub struct BenchNode {
    pub name: String,
    pub finished: Vec<usize>,
    pub active: Option<usize>,
    pub start: Instant,
    pub ended: bool,
    pub durations: Vec<Vec<u128>>,
    pub draw_calls: Vec<usize>,
    pub enabled: bool,
}

/// A tree of nested timers, kept in an arena: node 0 is the root, and every other node is a
/// child of a node before it.
pub struct Benchmark {
    pub nodes: Vec<BenchNode>,
}

/// A handle on a running timer of a benchmark tree, or on none.
pub struct ActiveBenchmark {
    pub bench: Option<usize>,
}

/// The arena holds a tree: every child comes after its parent, no node lists a child twice,
/// the active child is one of the children, every node has a set of durations, and every
/// node but the root is the child of an earlier node.
pub open spec fn tree_wf(nodes: Seq<BenchNode>) -> bool {
    &&& nodes.len() >= 1
    &&& forall|i: int, k: int|
        0 <= i < nodes.len() && 0 <= k < nodes[i].finished@.len() ==> i < #[trigger] nodes[i].finished@[k] < nodes.len()
    &&& forall|i: int| 0 <= i < nodes.len() ==> (#[trigger] nodes[i]).finished@.no_duplicates()
    &&& forall|i: int| 0 <= i < nodes.len() && (#[trigger] nodes[i]).active is Some ==> nodes[i].finished@.contains(nodes[i].active.unwrap() as usize)
    &&& forall|i: int| 0 <= i < nodes.len() ==> (#[trigger] nodes[i]).durations@.len() >= 1
    &&& forall|i: int| 0 < i < nodes.len() ==> #[trigger] has_parent(nodes, i)
}

/// Node `i` is a child of some node before it.
pub open spec fn has_parent(nodes: Seq<BenchNode>, i: int) -> bool {
    exists|p: int| 0 <= p < i && #[trigger] nodes[p].finished@.contains(i as usize)
}

impl Benchmark {
    pub open spec fn wf(&self) -> bool {
        tree_wf(self.nodes@)
    }
}

/// A node that has just been made: enabled or not, not running any child, with no
/// children, one empty set of durations and no draw calls.
pub open spec fn fresh_node(n: BenchNode, name: Seq<char>, enabled: bool) -> bool {
    &&& n.name@ == name
    &&& n.finished@.len() == 0
    &&& n.active is None
    &&& n.ended == !enabled
    &&& n.enabled == enabled
    &&& n.durations@.len() == 1
    &&& n.durations@[0]@.len() == 0
    &&& n.draw_calls@.len() == 0
}

fn new_node(name: &str, enabled: bool) -> (n: BenchNode)
    ensures
        fresh_node(n, name@, enabled),
{
    let mut durations: Vec<Vec<u128>> = Vec::new();
    durations.push(Vec::new());
    BenchNode {
        name: name.to_owned(),
        finished: Vec::new(),
        active: None,
        start: instant_now(),
        ended: !enabled,
        durations,
        draw_calls: Vec::new(),
        enabled,
    }
}

/// Node `b` is node `a` with a new start time and the given enabled and ended flags.
pub open spec fn node_flags(a: BenchNode, b: BenchNode, enabled: bool, ended: bool) -> bool {
    &&& b.name == a.name
    &&& b.finished == a.finished
    &&& b.active == a.active
    &&& b.durations == a.durations
    &&& b.draw_calls == a.draw_calls
    &&& b.enabled == enabled
    &&& b.ended == ended
}

impl ActiveBenchmark {
    /// A handle on node `bench`.
    pub fn new(bench: usize) -> (a: Self)
        ensures
            a.bench == Some(bench),
    {
        Self { bench: Some(bench) }
    }

    /// A handle on no timer, for a disabled tree.
    pub fn dummy() -> (a: Self)
        ensures
            a.bench is None,
    {
        ActiveBenchmark { bench: None }
    }
}

impl Benchmark {
    /// A tree of one timer, the root, disabled and ended.
    pub fn new(name: &'static str) -> (b: Self)
        ensures
            b.wf(),
            b.nodes@.len() == 1,
            fresh_node(b.nodes@[0], name@, false),
    {
        let mut nodes: Vec<BenchNode> = Vec::new();
        nodes.push(new_node(name, false));
        Benchmark { nodes }
    }

    /// Enables every timer and starts it again from now; no child restarts.
    pub fn enable(&mut self)
        requires
            old(self).wf(),
        ensures
            final(self).wf(),
            final(self).nodes@.len() == old(self).nodes@.len(),
            forall|i: int| 0 <= i < old(self).nodes@.len() ==> node_flags(old(self).nodes@[i], #[trigger] final(self).nodes@[i], true, false),
    {
        let n = self.nodes.len();
        let mut i: usize = 0;
        while i < n
            invariant
                n == old(self).nodes@.len(),
                self.nodes@.len() == n,
                i <= n,
                forall|j: int| 0 <= j < i ==> node_flags(old(self).nodes@[j], #[trigger] self.nodes@[j], true, false),
                forall|j: int| i <= j < n ==> #[trigger] self.nodes@[j] == old(self).nodes@[j],
            decreases n - i,
        {
            self.nodes[i].enabled = true;
            self.nodes[i].ended = false;
            self.nodes[i].start = instant_now();
            i = i + 1;
        }
        assert(tree_wf(self.nodes@)) by {
            assert forall|i: int| 0 < i < n implies #[trigger] has_parent(self.nodes@, i) by {
                assert(has_parent(old(self).nodes@, i));
                let p = choose|p: int| 0 <= p < i && #[trigger] old(self).nodes@[p].finished@.contains(i as usize);
                assert(self.nodes@[p].finished == old(self).nodes@[p].finished);
            }
        }
    }
}

/// A tree keeps its shape when every node keeps its children, has no other active child than
/// one of them, and keeps at least one set of durations.
proof fn lemma_wf_same_shape(a: Seq<BenchNode>, b: Seq<BenchNode>)
    requires
        tree_wf(a),
        b.len() == a.len(),
        forall|i: int| 0 <= i < a.len() ==> (#[trigger] b[i]).finished == a[i].finished,
        forall|i: int| 0 <= i < a.len() ==> (#[trigger] b[i]).active is None || b[i].finished@.contains(b[i].active.unwrap() as usize),
        forall|i: int| 0 <= i < a.len() ==> (#[trigger] b[i]).durations@.len() >= 1,
    ensures
        tree_wf(b),
{
    assert forall|i: int| 0 < i < b.len() implies #[trigger] has_parent(b, i) by {
        assert(has_parent(a, i));
        let p = choose|p: int| 0 <= p < i && #[trigger] a[p].finished@.contains(i as usize);
        assert(b[p].finished == a[p].finished);
    }
    assert forall|i: int, k: int| 0 <= i < b.len() && 0 <= k < b[i].finished@.len() implies i < #[trigger] b[i].finished@[k] < b.len() by {
        assert(b[i].finished == a[i].finished);
        assert(a[i].finished@[k] == b[i].finished@[k]);
    }
}

/// Node `b` is node `a` disabled and ended, running no child.
pub open spec fn node_disabled(a: BenchNode, b: BenchNode) -> bool {
    &&& b.name == a.name
    &&& b.finished == a.finished
    &&& b.active is None
    &&& b.durations == a.durations
    &&& b.draw_calls == a.draw_calls
    &&& !b.enabled
    &&& b.ended
}

/// Node `b` is node `a` restarted: when `a` is enabled it runs again from a new start, with
/// a new draw-call count of zero; a disabled node does not change.
pub open spec fn node_restarted(a: BenchNode, b: BenchNode) -> bool {
    if a.enabled {
        &&& b.name == a.name
        &&& b.finished == a.finished
        &&& b.active == a.active
        &&& b.durations == a.durations
        &&& b.draw_calls@ == a.draw_calls@.push(0)
        &&& b.enabled
        &&& !b.ended
    } else {
        b == a
    }
}

/// Node `b` is node `a` with a new, empty set of durations.
pub open spec fn node_new_set(a: BenchNode, b: BenchNode) -> bool {
    &&& b.name == a.name
    &&& b.finished == a.finished
    &&& b.active == a.active
    &&& b.start == a.start
    &&& b.ended == a.ended
    &&& b.enabled == a.enabled
    &&& b.draw_calls == a.draw_calls
    &&& b.durations@.len() == a.durations@.len() + 1
    &&& forall|k: int| 0 <= k < a.durations@.len() ==> #[trigger] b.durations@[k] == a.durations@[k]
    &&& b.durations@[a.durations@.len() as int]@.len() == 0
}

/// The whole effect of restarting node `id`: the node restarts and, when it is enabled,
/// each child gets a new set of durations; nothing else changes.
pub open spec fn tree_restarted(a: Seq<BenchNode>, b: Seq<BenchNode>, id: int) -> bool {
    &&& b.len() == a.len()
    &&& node_restarted(a[id], b[id])
    &&& forall|j: int| 0 <= j < a.len() && j != id ==> #[trigger] b[j] == if a[id].enabled && a[id].finished@.contains(j as usize) {
        b[j]
    } else {
        a[j]
    }
    &&& forall|j: int| 0 <= j < a.len() && j != id && a[id].enabled && a[id].finished@.contains(j as usize) ==> node_new_set(a[j], #[trigger] b[j])
}

impl Benchmark {
    /// Disables and ends every timer; none runs a child any more, and no duration is
    /// recorded.
    pub fn disable(&mut self)
        requires
            old(self).wf(),
        ensures
            final(self).wf(),
            final(self).nodes@.len() == old(self).nodes@.len(),
            forall|i: int| 0 <= i < old(self).nodes@.len() ==> node_disabled(old(self).nodes@[i], #[trigger] final(self).nodes@[i]),
    {
        let n = self.nodes.len();
        let mut i: usize = 0;
        while i < n
            invariant
                n == old(self).nodes@.len(),
                self.nodes@.len() == n,
                i <= n,
                forall|j: int| 0 <= j < i ==> node_disabled(old(self).nodes@[j], #[trigger] self.nodes@[j]),
                forall|j: int| i <= j < n ==> #[trigger] self.nodes@[j] == old(self).nodes@[j],
            decreases n - i,
        {
            self.nodes[i].enabled = false;
            self.nodes[i].ended = true;
            self.nodes[i].active = None;
            i = i + 1;
        }
        proof {
            lemma_wf_same_shape(old(self).nodes@, self.nodes@);
        }
    }

    /// Restarts node `id` (see `tree_restarted`); a disabled node is left as it is.
    fn restart_at(&mut self, id: usize)
        requires
            old(self).wf(),
            id < old(self).nodes@.len(),
        ensures
            final(self).wf(),
            tree_restarted(old(self).nodes@, final(self).nodes@, id as int),
    {
        if !self.nodes[id].enabled {
            return;
        }
        self.nodes[id].start = instant_now();
        self.nodes[id].ended = false;
        self.nodes[id].draw_calls.push(0);
        let ghost a = old(self).nodes@;
        let len = self.nodes.len();
        let count = self.nodes[id].finished.len();
        let mut k: usize = 0;
        while k < count
            invariant
                tree_wf(a),
                id < a.len(),
                len == a.len(),
                a[id as int].enabled,
                self.nodes@.len() == a.len(),
                count == a[id as int].finished@.len(),
                k <= count,
                node_restarted(a[id as int], self.nodes@[id as int]),
                forall|j: int| 0 <= j < a.len() && j != id ==> #[trigger] self.nodes@[j] == if a[id as int].finished@.subrange(0, k as int).contains(j as usize) {
                    self.nodes@[j]
                } else {
                    a[j]
                },
                forall|j: int| 0 <= j < a.len() && j != id && a[id as int].finished@.subrange(0, k as int).contains(j as usize) ==> node_new_set(a[j], #[trigger] self.nodes@[j]),
            decreases count - k,
        {
            let c = self.nodes[id].finished[k];
            assert(a[id as int].finished@[k as int] == c);
            assert(id < c < a.len());
            let ghost before = self.nodes@;
            self.nodes[c].durations.push(Vec::new());
            proof {
                let fin = a[id as int].finished@;
                assert forall|j: int| 0 <= j < a.len() && j != id implies #[trigger] self.nodes@[j] == if fin.subrange(0, k + 1).contains(j as usize) {
                    self.nodes@[j]
                } else {
                    a[j]
                } by {
                    if j == c {
                        assert(fin.subrange(0, k + 1)[k as int] == c);
                        assert(fin.subrange(0, k + 1).contains(j as usize));
                    } else {
                        assert(self.nodes@[j] == before[j]);
                        if fin.subrange(0, k + 1).contains(j as usize) {
                        } else {
                            assert(!fin.subrange(0, k as int).contains(j as usize)) by {
                                if fin.subrange(0, k as int).contains(j as usize) {
                                    let m = choose|m: int| 0 <= m < k && #[trigger] fin.subrange(0, k as int)[m] == j as usize;
                                    assert(fin.subrange(0, k + 1)[m] == j as usize);
                                }
                            }
                        }
                    }
                }
                assert(!fin.subrange(0, k as int).contains(c)) by {
                    if fin.subrange(0, k as int).contains(c) {
                        let m = choose|m: int| 0 <= m < k && #[trigger] fin.subrange(0, k as int)[m] == c;
                        assert(fin[m] == fin[k as int]);
                    }
                }
                assert(before[c as int] == a[c as int]);
                assert(fin.subrange(0, k + 1)[k as int] == c);
                assert forall|j: int| 0 <= j < a.len() && j != id && fin.subrange(0, k + 1).contains(j as usize) implies node_new_set(a[j], #[trigger] self.nodes@[j]) by {
                    if j != c {
                        let m = choose|m: int| 0 <= m < k + 1 && #[trigger] fin.subrange(0, k + 1)[m] == j as usize;
                        assert(m != k);
                        assert(fin.subrange(0, k as int)[m] == j as usize);
                        assert(self.nodes@[j] == before[j]);
                    } else {
                        assert forall|q: int| 0 <= q < a[j].durations@.len() implies #[trigger] self.nodes@[j].durations@[q] == a[j].durations@[q] by {}
                    }
                }
            }
            k = k + 1;
        }
        proof {
            let fin = a[id as int].finished@;
            assert(fin.subrange(0, count as int) =~= fin);
            lemma_wf_same_shape(a, self.nodes@);
        }
    }

    /// Restarts the root (see `tree_restarted`); no child restarts.
    pub fn restart(&mut self)
        requires
            old(self).wf(),
        ensures
            final(self).wf(),
            tree_restarted(old(self).nodes@, final(self).nodes@, 0),
    {
        self.restart_at(0);
    }
}

/// The timer that `start` adds a child to, walking down from `id`: none if a timer on the
/// way is disabled; else the first timer whose running child has ended, or that runs none.
pub open spec fn start_node(nodes: Seq<BenchNode>, id: int) -> Option<int>
    decreases nodes.len() - id,
{
    if !(0 <= id < nodes.len()) || !nodes[id].enabled {
        None
    } else {
        match nodes[id].active {
            Some(c) => if id < c < nodes.len() && !nodes[c as int].ended {
                start_node(nodes, c as int)
            } else {
                Some(id)
            },
            None => Some(id),
        }
    }
}

/// The first of the children `fin`, from position `k` on, named `name`.
pub open spec fn find_named(nodes: Seq<BenchNode>, fin: Seq<usize>, name: Seq<char>, k: int) -> Option<int>
    decreases fin.len() - k,
{
    if k >= fin.len() || k < 0 {
        None
    } else if nodes[fin[k] as int].name@ == name {
        Some(fin[k] as int)
    } else {
        find_named(nodes, fin, name, k + 1)
    }
}

/// The node `n` running child `c`.
pub open spec fn with_active(n: BenchNode, c: int) -> BenchNode {
    BenchNode { active: Some(c as usize), ..n }
}

/// What `start` does to a tree `a`, giving `b` and the handle `r`: nothing when no timer
/// takes a child; else the first child of that timer with the name restarts and runs, or a
/// new enabled child with the name is made and runs.
pub open spec fn tree_started(a: Seq<BenchNode>, b: Seq<BenchNode>, name: Seq<char>, r: Option<usize>) -> bool {
    tree_started_at(a, b, name, r, 0)
}

/// What starting a child under timer `id` does (see `tree_started`).
pub open spec fn tree_started_at(a: Seq<BenchNode>, b: Seq<BenchNode>, name: Seq<char>, r: Option<usize>, id: int) -> bool {
    match start_node(a, id) {
        None => r is None && b == a,
        Some(t) => match find_named(a, a[t].finished@, name, 0) {
            Some(k) => r == Some(k as usize) && tree_restarted(a.update(t, with_active(a[t], k)), b, k),
            None => {
                let l = a.len() as int;
                &&& r == Some(l as usize)
                &&& b.len() == l + 1
                &&& fresh_node(b[l], name, true)
                &&& b[t].finished@ == a[t].finished@.push(l as usize)
                &&& b[t].active == Some(l as usize)
                &&& b[t].name == a[t].name
                &&& b[t].durations == a[t].durations
                &&& b[t].draw_calls == a[t].draw_calls
                &&& b[t].ended == a[t].ended
                &&& b[t].enabled == a[t].enabled
                &&& b[t].start == a[t].start
                &&& forall|j: int| 0 <= j < l && j != t ==> #[trigger] b[j] == a[j]
            },
        },
    }
}

impl Benchmark {
    /// Stops running an ended child of node `id`; true when node `id` runs no child after.
    fn move_active(&mut self, id: usize) -> (free: bool)
        requires
            old(self).wf(),
            id < old(self).nodes@.len(),
        ensures
            final(self).wf(),
            free == (old(self).nodes@[id as int].active is None || old(self).nodes@[old(self).nodes@[id as int].active.unwrap() as int].ended),
            free ==> final(self).nodes@ == old(self).nodes@.update(id as int, BenchNode { active: None, ..old(self).nodes@[id as int] }),
            !free ==> final(self).nodes@ == old(self).nodes@,
    {
        match self.nodes[id].active {
            Some(c) => {
                assert(self.nodes@[id as int].finished@.contains(c));
                let ghost k = choose|k: int| 0 <= k < self.nodes@[id as int].finished@.len() && self.nodes@[id as int].finished@[k] == c;
                assert(self.nodes@[id as int].finished@[k] == c);
                if self.nodes[c].ended {
                    self.nodes[id].active = None;
                    proof {
                        lemma_wf_same_shape(old(self).nodes@, self.nodes@);
                    }
                    true
                } else {
                    false
                }
            },
            None => {
                assert(self.nodes@ == old(self).nodes@.update(id as int, BenchNode { active: None, ..old(self).nodes@[id as int] }));
                true
            },
        }
    }
}

impl Benchmark {
    fn start_at(&mut self, id: usize, name: &str) -> (r: ActiveBenchmark)
        requires
            old(self).wf(),
            id < old(self).nodes@.len(),
        ensures
            final(self).wf(),
            tree_started_at(old(self).nodes@, final(self).nodes@, name@, r.bench, id as int),
        decreases old(self).nodes@.len() - id,
    {
        if !self.nodes[id].enabled {
            return ActiveBenchmark::dummy();
        }
        let ghost a = self.nodes@;
        let free = self.move_active(id);
        if free {
            let ghost fin = a[id as int].finished@;
            let ghost m1 = self.nodes@;
            assert(start_node(a, id as int) == Some(id as int));
            let target = name.to_owned();
            let count = self.nodes[id].finished.len();
            let mut k: usize = 0;
            let mut found: Option<usize> = None;
            while k < count
                invariant_except_break
                    found is None,
                    find_named(a, fin, name@, 0) == find_named(a, fin, name@, k as int),
                invariant
                    self.nodes@ == m1,
                    m1.len() == a.len(),
                    id < a.len(),
                    m1[id as int].finished@ == fin,
                    a[id as int].finished@ == fin,
                    forall|j: int| 0 <= j < a.len() ==> #[trigger] m1[j].name == a[j].name,
                    tree_wf(a),
                    count == fin.len(),
                    k <= count,
                    target@ == name@,
                ensures
                    found is None ==> find_named(a, fin, name@, 0) == None::<int>,
                    found matches Some(c) ==> find_named(a, fin, name@, 0) == Some(c as int) && fin.contains(c),
                decreases count - k,
            {
                let c = self.nodes[id].finished[k];
                assert(fin[k as int] == c);
                assert(a[id as int].finished@[k as int] == c);
                assert(id < c < a.len());
                assert(m1[c as int].name == a[c as int].name);
                if self.nodes[c].name == target {
                    found = Some(c);
                    assert(fin.contains(c));
                    assert(find_named(a, fin, name@, k as int) == Some(c as int));
                    break;
                }
                assert(find_named(a, fin, name@, k as int) == find_named(a, fin, name@, k + 1));
                k = k + 1;
            }
            match found {
                Some(c) => {
                    let ghost k2 = choose|k2: int| 0 <= k2 < fin.len() && fin[k2] == c;
                    assert(id < c < a.len());
                    self.restart_at(c);
                    let ghost m2 = self.nodes@;
                    self.nodes[id].active = Some(c);
                    proof {
                        let a2 = a.update(id as int, with_active(a[id as int], c as int));
                        assert(m1 == a.update(id as int, BenchNode { active: None, ..a[id as int] }));
                        assert(m2[id as int] == m1[id as int]);
                        assert forall|j: int| 0 <= j < a2.len() && j != c implies #[trigger] self.nodes@[j] == if a2[c as int].enabled && a2[c as int].finished@.contains(j as usize) {
                            self.nodes@[j]
                        } else {
                            a2[j]
                        } by {
                            if j == id {
                            } else {
                                assert(m2[j] == if m1[c as int].enabled && m1[c as int].finished@.contains(j as usize) { m2[j] } else { m1[j] });
                            }
                        }
                        assert forall|j: int| 0 <= j < a2.len() && j != c && a2[c as int].enabled && a2[c as int].finished@.contains(j as usize) implies node_new_set(a2[j], #[trigger] self.nodes@[j]) by {
                            if j == id {
                                let kk = choose|kk: int| 0 <= kk < a2[c as int].finished@.len() && a2[c as int].finished@[kk] == j as usize;
                                assert(c < a2[c as int].finished@[kk]);
                            }
                        }
                        assert(tree_restarted(a2, self.nodes@, c as int));
                        lemma_wf_same_shape(m2, self.nodes@);
                    }
                    ActiveBenchmark::new(c)
                },
                None => {
                    let l = self.nodes.len();
                    let nn = new_node(name, true);
                    self.nodes.push(nn);
                    self.nodes[id].finished.push(l);
                    self.nodes[id].active = Some(l);
                    proof {
                        let b = self.nodes@;
                        assert(b[l as int] == nn);
                        assert forall|j: int| 0 <= j < l && j != id implies #[trigger] b[j] == a[j] by {
                            assert(b[j] == m1[j]);
                        }
                        assert(!fin.contains(l)) by {
                            if fin.contains(l) {
                                let kk = choose|kk: int| 0 <= kk < fin.len() && fin[kk] == l;
                                assert(fin[kk] < a.len());
                            }
                        }
                        assert forall|i: int, kk: int| 0 <= i < b.len() && 0 <= kk < b[i].finished@.len() implies i < #[trigger] b[i].finished@[kk] < b.len() by {
                            if i == id {
                                if kk < fin.len() {
                                    assert(b[i].finished@[kk] == fin[kk]);
                                }
                            } else if i < l {
                                assert(b[i].finished == a[i].finished);
                            }
                        }
                        assert forall|i: int| 0 <= i < b.len() implies (#[trigger] b[i]).finished@.no_duplicates() by {
                            if i == id {
                                assert forall|p: int, q: int| 0 <= p < b[i].finished@.len() && 0 <= q < b[i].finished@.len() && p != q implies b[i].finished@[p] != b[i].finished@[q] by {
                                    if p < fin.len() && q < fin.len() {
                                    } else if p < fin.len() {
                                        assert(fin.contains(fin[p]));
                                    } else {
                                        assert(fin.contains(fin[q]));
                                    }
                                }
                            }
                        }
                        assert forall|i: int| 0 <= i < b.len() && (#[trigger] b[i]).active is Some implies b[i].finished@.contains(b[i].active.unwrap() as usize) by {
                            if i == id {
                                assert(b[i].finished@[fin.len() as int] == l);
                            } else if i < l {
                                assert(b[i] == a[i]);
                            }
                        }
                        assert forall|i: int| 0 < i < b.len() implies #[trigger] has_parent(b, i) by {
                            if i == l {
                                assert(b[id as int].finished@[fin.len() as int] == l);
                                assert(b[id as int].finished@.contains(i as usize));
                            } else {
                                assert(has_parent(a, i));
                                let p = choose|p: int| 0 <= p < i && #[trigger] a[p].finished@.contains(i as usize);
                                if p == id {
                                    let kk = choose|kk: int| 0 <= kk < fin.len() && #[trigger] fin[kk] == i as usize;
                                    assert(b[p].finished@[kk] == i as usize);
                                    assert(b[p].finished@.contains(i as usize));
                                } else {
                                    assert(b[p] == a[p]);
                                    assert(b[p].finished@.contains(i as usize));
                                }
                            }
                        }
                        assert forall|i: int| 0 <= i < b.len() implies (#[trigger] b[i]).durations@.len() >= 1 by {
                            if i < l && i != id {
                                assert(b[i] == a[i]);
                            }
                        }
                    }
                    ActiveBenchmark::new(l)
                },
            }
        } else {
            let c = self.nodes[id].active.unwrap();
            assert(self.nodes@[id as int].finished@.contains(c));
            let ghost kk = choose|kk: int| 0 <= kk < self.nodes@[id as int].finished@.len() && self.nodes@[id as int].finished@[kk] == c;
            assert(id < c);
            self.start_at(c, name)
        }
    }

    /// Starts a child timer named `name` under the timer that takes children (see
    /// `tree_started`): a disabled tree gives the empty handle, an earlier child of that name
    /// is restarted, else a new child is made.
    #[must_use]
    pub fn start(&mut self, name: &'static str) -> (r: ActiveBenchmark)
        requires
            old(self).wf(),
        ensures
            final(self).wf(),
            tree_started(old(self).nodes@, final(self).nodes@, name@, r.bench),
            names_distinct(old(self).nodes@) ==> names_distinct(final(self).nodes@),
    {
        let r = self.start_at(0, name);
        let nodes_len = self.nodes.len();
        proof {
            assert(self.nodes@.len() == nodes_len);
            if names_distinct(old(self).nodes@) {
                lemma_start_keeps_names_distinct(old(self).nodes@, self.nodes@, name@, r.bench);
            }
        }
        r
    }
}

/// Whether timer `j` is on the chain of running timers that starts at `id`.
pub open spec fn on_chain(nodes: Seq<BenchNode>, id: int, j: int) -> bool
    decreases nodes.len() - id,
{
    if !(0 <= id < nodes.len()) {
        false
    } else if j == id {
        true
    } else {
        match nodes[id].active {
            Some(c) => id < c < nodes.len() && on_chain(nodes, c as int, j),
            None => false,
        }
    }
}

/// How many timers on the chain from `id` have not ended.
pub open spec fn chain_unended(nodes: Seq<BenchNode>, id: int) -> nat
    decreases nodes.len() - id,
{
    if !(0 <= id < nodes.len()) {
        0
    } else {
        (if nodes[id].ended {
            0nat
        } else {
            1nat
        }) + match nodes[id].active {
            Some(c) => if id < c < nodes.len() {
                chain_unended(nodes, c as int)
            } else {
                0
            },
            None => 0,
        }
    }
}

/// Node `b` is node `a` ended: it runs no child, and if it was running, its last set of
/// durations has one more (the time it ran).
pub open spec fn node_ended(a: BenchNode, b: BenchNode) -> bool {
    &&& b.name == a.name
    &&& b.finished == a.finished
    &&& b.start == a.start
    &&& b.draw_calls == a.draw_calls
    &&& b.enabled == a.enabled
    &&& b.ended
    &&& b.active is None
    &&& if a.ended {
        b.durations == a.durations
    } else {
        let last = a.durations@.len() - 1;
        &&& b.durations@.len() == a.durations@.len()
        &&& forall|k: int| 0 <= k < last ==> #[trigger] b.durations@[k] == a.durations@[k]
        &&& b.durations@[last]@.len() == a.durations@[last]@.len() + 1
        &&& forall|k: int| 0 <= k < a.durations@[last]@.len() ==> #[trigger] b.durations@[last]@[k] == a.durations@[last]@[k]
        &&& b.durations@[last]@[a.durations@[last]@.len() as int] <= crate::bench_stats::MAX_DURATION_NANOS
    }
}

/// The whole effect of ending the timer `id`: every timer on its chain ends; nothing else
/// changes.
pub open spec fn tree_ended(a: Seq<BenchNode>, b: Seq<BenchNode>, id: int) -> bool {
    &&& b.len() == a.len()
    &&& forall|j: int| 0 <= j < a.len() ==> if on_chain(a, id, j) {
        node_ended(a[j], #[trigger] b[j])
    } else {
        b[j] == a[j]
    }
}

proof fn lemma_chain_above(nodes: Seq<BenchNode>, id: int, j: int)
    requires
        on_chain(nodes, id, j),
    ensures
        id <= j < nodes.len(),
    decreases nodes.len() - id,
{
    if j != id {
        let c = nodes[id].active.unwrap() as int;
        lemma_chain_above(nodes, c, j);
    }
}

proof fn lemma_chain_frame(a: Seq<BenchNode>, b: Seq<BenchNode>, id: int)
    requires
        0 <= id,
        a.len() == b.len(),
        forall|j: int| id <= j < a.len() ==> #[trigger] b[j] == a[j],
    ensures
        forall|j: int| on_chain(a, id, j) == #[trigger] on_chain(b, id, j),
        chain_unended(a, id) == chain_unended(b, id),
    decreases a.len() - id,
{
    if id < a.len() {
        assert(b[id] == a[id]);
        match a[id].active {
            Some(c) => {
                if id < c < a.len() {
                    lemma_chain_frame(a, b, c as int);
                    assert forall|j: int| on_chain(a, id, j) == #[trigger] on_chain(b, id, j) by {
                        if j != id {
                            assert(on_chain(a, id, j) == on_chain(a, c as int, j));
                            assert(on_chain(b, id, j) == on_chain(b, c as int, j));
                        }
                    }
                } else {
                    assert forall|j: int| on_chain(a, id, j) == #[trigger] on_chain(b, id, j) by {}
                }
            },
            None => {
                assert forall|j: int| on_chain(a, id, j) == #[trigger] on_chain(b, id, j) by {}
            },
        }
    } else {
        assert forall|j: int| on_chain(a, id, j) == #[trigger] on_chain(b, id, j) by {}
    }
}

proof fn lemma_chain_unended_bound(nodes: Seq<BenchNode>, id: int)
    requires
        0 <= id,
    ensures
        chain_unended(nodes, id) <= if id < nodes.len() { nodes.len() - id } else { 0 },
    decreases nodes.len() - id,
{
    if 0 <= id < nodes.len() {
        match nodes[id].active {
            Some(c) => {
                if id < c < nodes.len() {
                    lemma_chain_unended_bound(nodes, c as int);
                }
            },
            None => {},
        }
    }
}

/// Node `b` is node `a` with `nanos` added at the end of its last set of durations.
pub open spec fn node_recorded(a: BenchNode, b: BenchNode, nanos: u128) -> bool {
    let last = a.durations@.len() - 1;
    &&& b.name == a.name
    &&& b.finished == a.finished
    &&& b.active == a.active
    &&& b.start == a.start
    &&& b.ended == a.ended
    &&& b.draw_calls == a.draw_calls
    &&& b.enabled == a.enabled
    &&& b.durations@.len() == a.durations@.len()
    &&& forall|k: int| 0 <= k < last ==> #[trigger] b.durations@[k] == a.durations@[k]
    &&& b.durations@[last]@ == a.durations@[last]@.push(nanos)
}

impl BenchNode {
    /// Records one measured duration, in nanoseconds, at the end of the timer's last set of
    /// durations.
    pub fn record(&mut self, nanos: u128)
        requires
            old(self).durations@.len() >= 1,
        ensures
            node_recorded(*old(self), *final(self), nanos),
    {
        let last = self.durations.len() - 1;
        self.durations[last].push(nanos);
    }
}

impl Benchmark {
    fn end_at(&mut self, id: usize) -> (count: usize)
        requires
            old(self).wf(),
            id < old(self).nodes@.len(),
        ensures
            final(self).wf(),
            tree_ended(old(self).nodes@, final(self).nodes@, id as int),
            count == chain_unended(old(self).nodes@, id as int),
        decreases old(self).nodes@.len() - id,
    {
        let ghost a = self.nodes@;
        let len = self.nodes.len();
        let mut count: usize = 0;
        if !self.nodes[id].ended {
            let end = instant_now();
            let d = crate::bench_stats::duration_as_nanos(&duration_since(&end, &self.nodes[id].start));
            self.nodes[id].record(d);
            self.nodes[id].ended = true;
            count = 1;
        }
        let active = self.nodes[id].active;
        self.nodes[id].active = None;
        let ghost m = self.nodes@;
        assert(node_ended(a[id as int], m[id as int]));
        proof {
            lemma_wf_same_shape(a, m);
            lemma_chain_unended_bound(a, id as int);
        }
        match active {
            Some(c) => {
                let ghost kk = choose|kk: int| 0 <= kk < a[id as int].finished@.len() && a[id as int].finished@[kk] == c;
                assert(a[id as int].finished@[kk] == c);
                assert(id < c < a.len());
                proof {
                    lemma_chain_frame(a, m, c as int);
                }
                let more = self.end_at(c);
                proof {
                    lemma_chain_unended_bound(a, id as int);
                    assert(chain_unended(a, id as int) == count + chain_unended(a, c as int));
                    let b = self.nodes@;
                    assert forall|j: int| 0 <= j < a.len() implies if on_chain(a, id as int, j) {
                        node_ended(a[j], #[trigger] b[j])
                    } else {
                        b[j] == a[j]
                    } by {
                        if j == id {
                            if on_chain(m, c as int, j) {
                                lemma_chain_above(m, c as int, j);
                            }
                        } else {
                            assert(on_chain(a, id as int, j) == on_chain(a, c as int, j));
                            assert(on_chain(a, c as int, j) == on_chain(m, c as int, j));
                        }
                    }
                }
                count = count + more;
            },
            None => {
                proof {
                    let b = self.nodes@;
                    assert forall|j: int| 0 <= j < a.len() implies if on_chain(a, id as int, j) {
                        node_ended(a[j], #[trigger] b[j])
                    } else {
                        b[j] == a[j]
                    } by {}
                }
            },
        }
        count
    }

    /// Ends the root and every timer on its chain of running timers; gives how many of them
    /// had not ended.
    pub fn end(&mut self) -> (count: usize)
        requires
            old(self).wf(),
        ensures
            final(self).wf(),
            tree_ended(old(self).nodes@, final(self).nodes@, 0),
            count == chain_unended(old(self).nodes@, 0),
    {
        self.end_at(0)
    }
}

impl ActiveBenchmark {
    /// Ends the timer this handle holds, with the timers it runs; an empty handle does
    /// nothing.
    pub fn end(self, bench: &mut Benchmark)
        requires
            old(bench).wf(),
            self.bench matches Some(id) ==> id < old(bench).nodes@.len(),
        ensures
            final(bench).wf(),
            self.bench matches Some(id) ==> tree_ended(old(bench).nodes@, final(bench).nodes@, id as int),
            self.bench is None ==> final(bench).nodes@ == old(bench).nodes@,
    {
        if let Some(id) = self.bench {
            let _ = bench.end_at(id);
        }
    }
}

/// The draw-call counts after one more draw: the last count grows by one, or the first
/// count, one, is made.
pub open spec fn drawn_calls(s: Seq<usize>) -> Seq<usize> {
    if s.len() == 0 {
        seq![1usize]
    } else {
        s.update(s.len() - 1, (s.last() + 1) as usize)
    }
}

/// Node `b` is node `a` with one more draw call logged.
pub open spec fn node_drawn(a: BenchNode, b: BenchNode) -> bool {
    &&& b.name == a.name
    &&& b.finished == a.finished
    &&& b.active == a.active
    &&& b.start == a.start
    &&& b.ended == a.ended
    &&& b.durations == a.durations
    &&& b.enabled == a.enabled
    &&& b.draw_calls@ == drawn_calls(a.draw_calls@)
}

/// The whole effect of a draw logged at timer `id`: every timer on its chain logs it;
/// nothing else changes.
pub open spec fn tree_drawn(a: Seq<BenchNode>, b: Seq<BenchNode>, id: int) -> bool {
    &&& b.len() == a.len()
    &&& forall|j: int| 0 <= j < a.len() ==> if on_chain(a, id, j) {
        node_drawn(a[j], #[trigger] b[j])
    } else {
        b[j] == a[j]
    }
}

/// No count that a draw at `id` raises is at its limit.
pub open spec fn draw_fits(a: Seq<BenchNode>, id: int) -> bool {
    forall|j: int| #[trigger] on_chain(a, id, j) && a[j].draw_calls@.len() > 0 ==> a[j].draw_calls@.last() < usize::MAX
}

impl Benchmark {
    fn draw_at(&mut self, id: usize)
        requires
            old(self).wf(),
            id < old(self).nodes@.len(),
            draw_fits(old(self).nodes@, id as int),
        ensures
            final(self).wf(),
            tree_drawn(old(self).nodes@, final(self).nodes@, id as int),
        decreases old(self).nodes@.len() - id,
    {
        let ghost a = self.nodes@;
        match self.nodes[id].active {
            Some(c) => {
                assert(a[id as int].finished@.contains(c));
                let ghost kk = choose|kk: int| 0 <= kk < a[id as int].finished@.len() && a[id as int].finished@[kk] == c;
                assert(a[id as int].finished@[kk] == c);
                assert(id < c < a.len());
                assert(draw_fits(a, c as int)) by {
                    assert forall|j: int| #[trigger] on_chain(a, c as int, j) && a[j].draw_calls@.len() > 0 implies a[j].draw_calls@.last() < usize::MAX by {
                        assert(on_chain(a, id as int, j));
                    }
                }
                self.draw_at(c);
                proof {
                    let b = self.nodes@;
                    assert forall|j: int| 0 <= j < a.len() implies if on_chain(a, c as int, j) {
                        node_drawn(a[j], #[trigger] b[j])
                    } else {
                        b[j] == a[j]
                    } by {}
                }
            },
            None => {},
        }
        let ghost m = self.nodes@;
        assert(m[id as int] == a[id as int]) by {
            if let Some(c) = a[id as int].active {
                if on_chain(a, c as int, id as int) {
                    lemma_chain_above(a, c as int, id as int);
                    let kk = choose|kk: int| 0 <= kk < a[id as int].finished@.len() && a[id as int].finished@[kk] == c;
                    assert(a[id as int].finished@[kk] == c);
                }
            }
        }
        let n = self.nodes[id].draw_calls.len();
        if n > 0 {
            assert(on_chain(a, id as int, id as int));
            let v = self.nodes[id].draw_calls[n - 1];
            self.nodes[id].draw_calls.set(n - 1, v + 1);
        } else {
            self.nodes[id].draw_calls.push(1);
        }
        proof {
            let b = self.nodes@;
            lemma_wf_same_shape(a, b);
            assert forall|j: int| 0 <= j < a.len() implies if on_chain(a, id as int, j) {
                node_drawn(a[j], #[trigger] b[j])
            } else {
                b[j] == a[j]
            } by {
                if j != id {
                    assert(b[j] == m[j]);
                    match a[id as int].active {
                        Some(c) => {
                            assert(on_chain(a, id as int, j) == on_chain(a, c as int, j));
                            assert(tree_drawn(a, m, c as int));
                        },
                        None => {
                            assert(!on_chain(a, id as int, j));
                        },
                    }
                } else {
                    assert(on_chain(a, id as int, j));
                    assert(b[j].draw_calls@ == drawn_calls(a[j].draw_calls@));
                }
            }
        }
    }

    /// Logs a draw call at the root and every timer on its chain of running timers: the last
    /// count of each grows by one, or a first count of one is made.
    pub fn draw(&mut self)
        requires
            old(self).wf(),
            draw_fits(old(self).nodes@, 0),
        ensures
            final(self).wf(),
            tree_drawn(old(self).nodes@, final(self).nodes@, 0),
    {
        self.draw_at(0)
    }
}

/// The depth below timer `id` through its first `k` children: the most levels any of
/// them reaches.
pub open spec fn kids_depth(nodes: Seq<BenchNode>, id: int, k: int) -> nat
    decreases nodes.len() - id, k,
{
    if k <= 0 || !(0 <= id < nodes.len()) {
        0
    } else {
        let rest = kids_depth(nodes, id, k - 1);
        let c = nodes[id].finished@[k - 1] as int;
        let here = if id < c < nodes.len() {
            1 + kids_depth(nodes, c, nodes[c].finished@.len() as int)
        } else {
            0
        };
        if rest >= here {
            rest
        } else {
            here
        }
    }
}

/// How many levels the tree below timer `id` has.
pub open spec fn subtree_depth(nodes: Seq<BenchNode>, id: int) -> nat {
    kids_depth(nodes, id, nodes[id].finished@.len() as int)
}

/// The byte length of the longest name in the tree at timer `id` through its first `k`
/// children (not counting the name of `id` itself).
pub open spec fn kids_name_len(nodes: Seq<BenchNode>, id: int, k: int) -> nat
    decreases nodes.len() - id, k,
{
    if k <= 0 || !(0 <= id < nodes.len()) {
        0
    } else {
        let rest = kids_name_len(nodes, id, k - 1);
        let c = nodes[id].finished@[k - 1] as int;
        let here = if id < c < nodes.len() {
            let own = encode_utf8(nodes[c].name@).len();
            let below = kids_name_len(nodes, c, nodes[c].finished@.len() as int);
            if own >= below {
                own
            } else {
                below
            }
        } else {
            0
        };
        if rest >= here {
            rest
        } else {
            here
        }
    }
}

/// The byte length of the longest name in the tree at timer `id`.
pub open spec fn subtree_name_len(nodes: Seq<BenchNode>, id: int) -> nat {
    let own = encode_utf8(nodes[id].name@).len();
    let below = kids_name_len(nodes, id, nodes[id].finished@.len() as int);
    if own >= below {
        own
    } else {
        below
    }
}

/// A child among the first `k` counts toward the depth and the name length through them.
proof fn lemma_kid_counted(nodes: Seq<BenchNode>, id: int, k: int, i: int)
    requires
        0 <= id < nodes.len(),
        0 <= i < k <= nodes[id].finished@.len(),
        id < nodes[id].finished@[i] < nodes.len(),
    ensures
        kids_depth(nodes, id, k) >= 1 + subtree_depth(nodes, nodes[id].finished@[i] as int),
        kids_name_len(nodes, id, k) >= subtree_name_len(nodes, nodes[id].finished@[i] as int),
    decreases k,
{
    if i < k - 1 {
        lemma_kid_counted(nodes, id, k - 1, i);
    }
}

impl Benchmark {
    /// The deepest level in the tree at timer `id`, when `id` is at level `depth`.
    pub fn get_depth(&self, id: usize, depth: usize) -> (max: usize)
        requires
            self.wf(),
            id < self.nodes@.len(),
            depth + (self.nodes@.len() - id) <= usize::MAX,
        ensures
            max == depth + subtree_depth(self.nodes@, id as int),
        decreases self.nodes@.len() - id,
    {
        let ghost a = self.nodes@;
        let mut max = depth;
        if let Some(c) = self.nodes[id].active {
            assert(a[id as int].finished@.contains(c));
            let ghost kk = choose|kk: int| 0 <= kk < a[id as int].finished@.len() && a[id as int].finished@[kk] == c;
            assert(a[id as int].finished@[kk] == c);
            let active_depth = self.get_depth(c, depth + 1);
            proof {
                lemma_kid_counted(a, id as int, a[id as int].finished@.len() as int, kk);
            }
            if active_depth > max {
                max = active_depth;
            }
        }
        let count = self.nodes[id].finished.len();
        let ghost start = max;
        let mut k: usize = 0;
        while k < count
            invariant
                self.wf(),
                a == self.nodes@,
                id < a.len(),
                depth + (a.len() - id) <= usize::MAX,
                count == a[id as int].finished@.len(),
                k <= count,
                depth <= start <= depth + subtree_depth(a, id as int),
                max == if start >= depth + kids_depth(a, id as int, k as int) {
                    start as int
                } else {
                    (depth + kids_depth(a, id as int, k as int)) as int
                },
            decreases count - k,
        {
            let c = self.nodes[id].finished[k];
            assert(a[id as int].finished@[k as int] == c);
            let finished_depth = self.get_depth(c, depth + 1);
            if finished_depth > max {
                max = finished_depth;
            }
            k = k + 1;
        }
        max
    }

    /// The byte length of the longest name in the tree at timer `id`, or `max_name_len` if
    /// that is more.
    pub fn get_max_name_len(&self, id: usize, max_name_len: usize) -> (max: usize)
        requires
            self.wf(),
            id < self.nodes@.len(),
        ensures
            max == if max_name_len >= subtree_name_len(self.nodes@, id as int) {
                max_name_len as int
            } else {
                subtree_name_len(self.nodes@, id as int) as int
            },
        decreases self.nodes@.len() - id,
    {
        let ghost a = self.nodes@;
        let ghost given = max_name_len;
        let mut max_name_len = max_name_len;
        let own = self.nodes[id].name.as_str().as_bytes().len();
        assert(own == encode_utf8(a[id as int].name@).len());
        if own > max_name_len {
            max_name_len = own;
        }
        let ghost start = max_name_len;
        let count = self.nodes[id].finished.len();
        let mut k: usize = 0;
        while k < count
            invariant
                self.wf(),
                a == self.nodes@,
                id < a.len(),
                count == a[id as int].finished@.len(),
                k <= count,
                max_name_len == if start >= kids_name_len(a, id as int, k as int) {
                    start as int
                } else {
                    kids_name_len(a, id as int, k as int) as int
                },
            decreases count - k,
        {
            let c = self.nodes[id].finished[k];
            assert(a[id as int].finished@[k as int] == c);
            max_name_len = self.get_max_name_len(c, max_name_len);
            k = k + 1;
        }
        if let Some(c) = self.nodes[id].active {
            assert(a[id as int].finished@.contains(c));
            let ghost kk = choose|kk: int| 0 <= kk < a[id as int].finished@.len() && a[id as int].finished@[kk] == c;
            assert(a[id as int].finished@[kk] == c);
            proof {
                lemma_kid_counted(a, id as int, a[id as int].finished@.len() as int, kk);
            }
            max_name_len = self.get_max_name_len(c, max_name_len);
        }
        assert(max_name_len == if given >= subtree_name_len(a, id as int) {
            given as int
        } else {
            subtree_name_len(a, id as int) as int
        });
        max_name_len
    }
}

/// Ending a timer ends every timer on its chain, so ending it again right after ends none:
/// the second `end` gives zero.
pub proof fn lemma_end_twice(a: Seq<BenchNode>, b: Seq<BenchNode>, id: int)
    requires
        tree_wf(a),
        0 <= id < a.len(),
        tree_ended(a, b, id),
    ensures
        chain_unended(b, id) == 0,
{
    assert(on_chain(a, id, id));
    assert(node_ended(a[id], b[id]));
}

/// Whether node `i` lists every one of its children after itself, inside the arena and once
/// each, runs one of them if any, and has a set of durations.
pub open spec fn node_ok(nodes: Seq<BenchNode>, i: int) -> bool {
    &&& forall|k: int| 0 <= k < nodes[i].finished@.len() ==> i < #[trigger] nodes[i].finished@[k] < nodes.len()
    &&& nodes[i].finished@.no_duplicates()
    &&& nodes[i].active is Some ==> nodes[i].finished@.contains(nodes[i].active.unwrap() as usize)
    &&& nodes[i].durations@.len() >= 1
}

impl Benchmark {
    fn node_is_ok(&self, i: usize) -> (r: bool)
        requires
            i < self.nodes@.len(),
        ensures
            r == node_ok(self.nodes@, i as int),
    {
        let len = self.nodes.len();
        let fin = &self.nodes[i].finished;
        let n = fin.len();
        let mut k: usize = 0;
        while k < n
            invariant
                len == self.nodes@.len(),
                i < len,
                fin@ == self.nodes@[i as int].finished@,
                n == fin@.len(),
                k <= n,
                forall|j: int| 0 <= j < k ==> i < #[trigger] fin@[j] < len,
                forall|a: int, b: int| 0 <= a < b < k ==> fin@[a] != fin@[b],
            decreases n - k,
        {
            let c = fin[k];
            if !(i < c && c < len) {
                return false;
            }
            let mut j: usize = 0;
            while j < k
                invariant
                    fin@ == self.nodes@[i as int].finished@,
                    n == fin@.len(),
                    k < n,
                    j <= k,
                    c == fin@[k as int],
                    forall|a: int| 0 <= a < j ==> fin@[a] != c,
                decreases k - j,
            {
                if fin[j] == c {
                    return false;
                }
                j = j + 1;
            }
            k = k + 1;
        }
        assert(fin@.no_duplicates()) by {
            assert forall|a: int, b: int| 0 <= a < n && 0 <= b < n && a != b implies fin@[a] != fin@[b] by {
                if a > b {
                    assert(fin@[b] != fin@[a]);
                }
            }
        }
        match self.nodes[i].active {
            Some(c) => {
                let mut found = false;
                let mut j: usize = 0;
                while j < n
                    invariant
                        fin@ == self.nodes@[i as int].finished@,
                        n == fin@.len(),
                        j <= n,
                        found == exists|a: int| 0 <= a < j && fin@[a] == c,
                    decreases n - j,
                {
                    if fin[j] == c {
                        found = true;
                    }
                    j = j + 1;
                }
                if !found {
                    return false;
                }
            },
            None => {},
        }
        self.nodes[i].durations.len() >= 1
    }

    /// Whether the arena holds a tree (see `tree_wf`), as every operation of this library
    /// keeps it.
    pub fn is_well_formed(&self) -> (r: bool)
        ensures
            r == self.wf(),
    {
        let len = self.nodes.len();
        if len == 0 {
            return false;
        }
        let mut listed: Vec<bool> = Vec::new();
        let mut i: usize = 0;
        while i < len
            invariant
                len == self.nodes@.len(),
                i <= len,
                listed@.len() == i,
                forall|j: int| 0 <= j < i ==> !#[trigger] listed@[j],
            decreases len - i,
        {
            listed.push(false);
            i = i + 1;
        }
        let mut i: usize = 0;
        while i < len
            invariant
                len == self.nodes@.len(),
                len >= 1,
                i <= len,
                listed@.len() == len,
                forall|j: int| 0 <= j < i ==> node_ok(self.nodes@, j),
                forall|c: int| 0 <= c < len ==> (#[trigger] listed@[c] <==> exists|p: int| 0 <= p < i && self.nodes@[p].finished@.contains(c as usize)),
            decreases len - i,
        {
            if !self.node_is_ok(i) {
                assert(!tree_wf(self.nodes@)) by {
                    assert(!node_ok(self.nodes@, i as int));
                }
                return false;
            }
            let fin = &self.nodes[i].finished;
            let n = fin.len();
            let ghost before = listed@;
            let mut k: usize = 0;
            while k < n
                invariant
                    len == self.nodes@.len(),
                    i < len,
                    fin@ == self.nodes@[i as int].finished@,
                    n == fin@.len(),
                    k <= n,
                    node_ok(self.nodes@, i as int),
                    listed@.len() == len,
                    forall|c: int| 0 <= c < len ==> (#[trigger] listed@[c] <==> (before[c] || exists|a: int| 0 <= a < k && fin@[a] == c as usize)),
                decreases n - k,
            {
                let c = fin[k];
                assert(i < c < len);
                listed.set(c, true);
                k = k + 1;
            }
            proof {
                assert forall|c: int| 0 <= c < len implies (#[trigger] listed@[c] <==> exists|p: int| 0 <= p < i + 1 && self.nodes@[p].finished@.contains(c as usize)) by {
                    if listed@[c] {
                        if !before[c] {
                            let a = choose|a: int| 0 <= a < n && fin@[a] == c as usize;
                            assert(self.nodes@[i as int].finished@.contains(c as usize));
                        } else {
                            let p = choose|p: int| 0 <= p < i && self.nodes@[p].finished@.contains(c as usize);
                            assert(0 <= p < i + 1);
                        }
                    } else {
                        assert forall|p: int| 0 <= p < i + 1 implies !self.nodes@[p].finished@.contains(c as usize) by {
                            if p == i {
                                if fin@.contains(c as usize) {
                                    let a = choose|a: int| 0 <= a < n && fin@[a] == c as usize;
                                }
                            }
                        }
                    }
                }
            }
            i = i + 1;
        }
        let mut c: usize = 1;
        while c < len
            invariant
                len == self.nodes@.len(),
                1 <= c <= len,
                listed@.len() == len,
                forall|j: int| 0 <= j < len ==> node_ok(self.nodes@, j),
                forall|d: int| 0 <= d < len ==> (#[trigger] listed@[d] <==> exists|p: int| 0 <= p < len && self.nodes@[p].finished@.contains(d as usize)),
                forall|d: int| 0 < d < c ==> #[trigger] has_parent(self.nodes@, d),
            decreases len - c,
        {
            if !listed[c] {
                assert(!has_parent(self.nodes@, c as int));
                return false;
            }
            proof {
                let p = choose|p: int| 0 <= p < len && self.nodes@[p].finished@.contains(c as usize);
                let a = choose|a: int| 0 <= a < self.nodes@[p].finished@.len() && self.nodes@[p].finished@[a] == c as usize;
                assert(node_ok(self.nodes@, p));
                assert(p < self.nodes@[p].finished@[a]);
                assert(has_parent(self.nodes@, c as int));
            }
            c = c + 1;
        }
        proof {
            let nodes = self.nodes@;
            assert forall|i: int, k: int| 0 <= i < nodes.len() && 0 <= k < nodes[i].finished@.len() implies i < #[trigger] nodes[i].finished@[k] < nodes.len() by {
                assert(node_ok(nodes, i));
            }
            assert forall|i: int| 0 <= i < nodes.len() implies (#[trigger] nodes[i]).finished@.no_duplicates() by {
                assert(node_ok(nodes, i));
            }
            assert forall|i: int| 0 <= i < nodes.len() && (#[trigger] nodes[i]).active is Some implies nodes[i].finished@.contains(nodes[i].active.unwrap() as usize) by {
                assert(node_ok(nodes, i));
            }
            assert forall|i: int| 0 <= i < nodes.len() implies (#[trigger] nodes[i]).durations@.len() >= 1 by {
                assert(node_ok(nodes, i));
            }
        }
        true
    }
}

/// No timer has two children of the same name.
pub open spec fn names_distinct(nodes: Seq<BenchNode>) -> bool {
    forall|i: int, p: int, q: int|
        0 <= i < nodes.len() && 0 <= p < q < nodes[i].finished@.len() ==> #[trigger] nodes[nodes[i].finished@[p] as int].name@
            != #[trigger] nodes[nodes[i].finished@[q] as int].name@
}

proof fn lemma_find_named_none(nodes: Seq<BenchNode>, fin: Seq<usize>, name: Seq<char>, k: int)
    requires
        0 <= k,
        find_named(nodes, fin, name, k) is None,
    ensures
        forall|p: int| k <= p < fin.len() ==> nodes[#[trigger] fin[p] as int].name@ != name,
    decreases fin.len() - k,
{
    if k < fin.len() {
        lemma_find_named_none(nodes, fin, name, k + 1);
    }
}

/// Two trees with the same children and names everywhere.
pub open spec fn same_names_and_children(a: Seq<BenchNode>, b: Seq<BenchNode>) -> bool {
    &&& b.len() == a.len()
    &&& forall|j: int| 0 <= j < a.len() ==> (#[trigger] b[j]).name == a[j].name && b[j].finished == a[j].finished
}

/// Starting a timer keeps the children of every timer distinct by name: an earlier child of
/// that name is restarted rather than a second one made.
pub proof fn lemma_start_keeps_names_distinct(a: Seq<BenchNode>, b: Seq<BenchNode>, name: Seq<char>, r: Option<usize>)
    requires
        tree_wf(a),
        names_distinct(a),
        tree_started(a, b, name, r),
        b.len() <= usize::MAX,
    ensures
        names_distinct(b),
{
    match start_node(a, 0) {
        None => {},
        Some(t) => {
            lemma_start_node_in(a, 0);
            match find_named(a, a[t].finished@, name, 0) {
                Some(k) => {
                    let a2 = a.update(t, with_active(a[t], k));
                    assert(tree_restarted(a2, b, k));
                    lemma_find_named_some(a, a[t].finished@, name, 0);
                    assert(same_names_and_children(a, b)) by {
                        assert forall|j: int| 0 <= j < a.len() implies (#[trigger] b[j]).name == a[j].name && b[j].finished == a[j].finished by {
                            if j == k {
                                assert(node_restarted(a2[k], b[k]));
                            } else if a2[k].enabled && a2[k].finished@.contains(j as usize) {
                                assert(node_new_set(a2[j], b[j]));
                            } else {
                                assert(b[j] == a2[j]);
                            }
                        }
                    }
                    assert forall|i: int, p: int, q: int|
                        0 <= i < b.len() && 0 <= p < q < b[i].finished@.len() implies #[trigger] b[b[i].finished@[p] as int].name@
                            != #[trigger] b[b[i].finished@[q] as int].name@ by {
                        assert(b[i].finished == a[i].finished);
                        assert(a[a[i].finished@[p] as int].name@ != a[a[i].finished@[q] as int].name@);
                        assert(i < a[i].finished@[p] < a.len());
                        assert(i < a[i].finished@[q] < a.len());
                    }
                },
                None => {
                    let l = a.len() as int;
                    let fin = a[t].finished@;
                    lemma_find_named_none(a, fin, name, 0);
                    assert forall|i: int, p: int, q: int|
                        0 <= i < b.len() && 0 <= p < q < b[i].finished@.len() implies #[trigger] b[b[i].finished@[p] as int].name@
                            != #[trigger] b[b[i].finished@[q] as int].name@ by {
                        if i == l {
                        } else if i == t {
                            assert(t < fin[p] < l);
                            assert(b[fin[p] as int] == a[fin[p] as int]);
                            assert(b[i].finished@[p] == fin[p]);
                            if q < fin.len() {
                                assert(t < fin[q] < l);
                                assert(b[i].finished@[q] == fin[q]);
                                assert(b[fin[q] as int] == a[fin[q] as int]);
                                assert(a[a[i].finished@[p] as int].name@ != a[a[i].finished@[q] as int].name@);
                            } else {
                                assert(b[t].finished@ == fin.push(l as usize));
                                assert(q == fin.len());
                                assert(b[i].finished@[q] == l as usize);
                                assert(b[l].name@ == name);
                                assert(a[fin[p] as int].name@ != name);
                            }
                        } else {
                            assert(b[i] == a[i]);
                            let x = a[i].finished@[p] as int;
                            let y = a[i].finished@[q] as int;
                            assert(i < x < l && i < y < l);
                            assert(a[x].name@ != a[y].name@);
                            if x == t {
                                assert(b[x].name == a[x].name);
                            } else {
                                assert(b[x] == a[x]);
                            }
                            if y == t {
                                assert(b[y].name == a[y].name);
                            } else {
                                assert(b[y] == a[y]);
                            }
                        }
                    }
                },
            }
        },
    }
}

proof fn lemma_find_named_some(nodes: Seq<BenchNode>, fin: Seq<usize>, name: Seq<char>, k: int)
    requires
        0 <= k,
        find_named(nodes, fin, name, k) is Some,
    ensures
        fin.contains(find_named(nodes, fin, name, k).unwrap() as usize),
    decreases fin.len() - k,
{
    if k < fin.len() && nodes[fin[k] as int].name@ != name {
        lemma_find_named_some(nodes, fin, name, k + 1);
    }
}

proof fn lemma_start_node_in(nodes: Seq<BenchNode>, id: int)
    requires
        tree_wf(nodes),
    ensures
        start_node(nodes, id) matches Some(t) ==> 0 <= t < nodes.len(),
    decreases nodes.len() - id,
{
    if 0 <= id < nodes.len() && nodes[id].enabled {
        match nodes[id].active {
            Some(c) => {
                if id < c < nodes.len() && !nodes[c as int].ended {
                    lemma_start_node_in(nodes, c as int);
                }
            },
            None => {},
        }
    }
}

} // verus!
