use vstd::prelude::*;

use crate::benchmark::{BenchNode, Benchmark};

verus! {

/// One line of a benchmark report: a timer's figures at its depth (with whether it is the
/// last child of its parent, and whether its parent is), the closing line below a timer's
/// children, or a timer that has not ended.
#[derive(Clone, Copy, Debug, PartialEq, Eq, Structural)]
pub enum ReportRow {
    Figures { id: usize, depth: usize, is_last: bool, parent_last: bool },
    Close { id: usize, depth: usize },
    NotEnded { id: usize },
}

/// Whether a timer has recorded any duration.
pub open spec fn has_any_duration(n: BenchNode) -> bool {
    exists|i: int| 0 <= i < n.durations@.len() && #[trigger] n.durations@[i]@.len() > 0
}

/// The report lines of the tree at timer `id`: a timer that has not ended is reported as
/// such; an ended one with no duration is left out with its children; otherwise its figures,
/// then its children's lines in order, then, for the last child of a parent that is not last
/// itself (or for the root), the closing line.
pub open spec fn rows_of(nodes: Seq<BenchNode>, id: int, depth: int, is_last: bool, parent_last: bool) -> Seq<ReportRow>
    decreases nodes.len() - id, 1int,
{
    if !(0 <= id < nodes.len()) {
        Seq::empty()
    } else if !nodes[id].ended {
        seq![ReportRow::NotEnded { id: id as usize }]
    } else if !has_any_duration(nodes[id]) {
        Seq::empty()
    } else {
        seq![ReportRow::Figures { id: id as usize, depth: depth as usize, is_last, parent_last }]
            + kids_rows(nodes, id, depth, is_last, nodes[id].finished@.len() as int)
            + if is_last && (!parent_last || depth == 0) {
            seq![ReportRow::Close { id: id as usize, depth: depth as usize }]
        } else {
            Seq::empty()
        }
    }
}

/// The report lines of the first `k` children of timer `id` (see `rows_of`).
pub open spec fn kids_rows(nodes: Seq<BenchNode>, id: int, depth: int, is_last: bool, k: int) -> Seq<ReportRow>
    decreases nodes.len() - id, 0int, k,
{
    if k <= 0 || !(0 <= id < nodes.len()) {
        Seq::empty()
    } else {
        let c = nodes[id].finished@[k - 1] as int;
        kids_rows(nodes, id, depth, is_last, k - 1) + if id < c < nodes.len() {
            rows_of(nodes, c, depth + 1, k - 1 == nodes[id].finished@.len() - 1, is_last)
        } else {
            Seq::empty()
        }
    }
}

impl Benchmark {
    fn any_duration(&self, id: usize) -> (r: bool)
        requires
            id < self.nodes@.len(),
        ensures
            r == has_any_duration(self.nodes@[id as int]),
    {
        let n = &self.nodes[id];
        let mut i: usize = 0;
        while i < n.durations.len()
            invariant
                n == self.nodes@[id as int],
                i <= n.durations@.len(),
                forall|p: int| 0 <= p < i ==> n.durations@[p]@.len() == 0,
            decreases n.durations@.len() - i,
        {
            if n.durations[i].len() > 0 {
                assert(n.durations@[i as int]@.len() > 0);
                return true;
            }
            i = i + 1;
        }
        assert(!has_any_duration(*n)) by {
            if has_any_duration(*n) {
                let p = choose|p: int| 0 <= p < n.durations@.len() && #[trigger] n.durations@[p]@.len() > 0;
                assert(n.durations@[p]@.len() == 0);
            }
        }
        false
    }

    fn rows_at(&self, id: usize, depth: usize, is_last: bool, parent_last: bool, out: &mut Vec<ReportRow>)
        requires
            self.wf(),
            id < self.nodes@.len(),
            depth + (self.nodes@.len() - id) <= usize::MAX,
        ensures
            final(out)@ == old(out)@ + rows_of(self.nodes@, id as int, depth as int, is_last, parent_last),
        decreases self.nodes@.len() - id,
    {
        let ghost a = self.nodes@;
        let ghost start = out@;
        if !self.nodes[id].ended {
            out.push(ReportRow::NotEnded { id });
            assert(out@ =~= start + rows_of(a, id as int, depth as int, is_last, parent_last));
            return;
        }
        if !self.any_duration(id) {
            assert(out@ =~= start + rows_of(a, id as int, depth as int, is_last, parent_last));
            return;
        }
        out.push(ReportRow::Figures { id, depth, is_last, parent_last });
        let ghost head = out@;
        let count = self.nodes[id].finished.len();
        let mut k: usize = 0;
        while k < count
            invariant
                self.wf(),
                a == self.nodes@,
                id < a.len(),
                depth + (a.len() - id) <= usize::MAX,
                count == a[id as int].finished@.len(),
                k <= count,
                out@ == head + kids_rows(a, id as int, depth as int, is_last, k as int),
            decreases count - k,
        {
            let c = self.nodes[id].finished[k];
            assert(a[id as int].finished@[k as int] == c);
            self.rows_at(c, depth + 1, k + 1 == count, is_last, out);
            k = k + 1;
            assert(out@ =~= head + kids_rows(a, id as int, depth as int, is_last, k as int));
        }
        if is_last && (!parent_last || depth == 0) {
            out.push(ReportRow::Close { id, depth });
        }
        assert(out@ =~= start + rows_of(a, id as int, depth as int, is_last, parent_last));
    }

    /// The lines of the report of the whole tree, in print order (see `rows_of`); none when
    /// the root has recorded no duration.
    pub fn report_rows(&self) -> (rows: Vec<ReportRow>)
        requires
            self.wf(),
        ensures
            rows@ == if has_any_duration(self.nodes@[0]) {
                rows_of(self.nodes@, 0, 0, true, true)
            } else {
                Seq::empty()
            },
    {
        let mut rows: Vec<ReportRow> = Vec::new();
        let len = self.nodes.len();
        assert(len == self.nodes@.len());
        if !self.any_duration(0) {
            return rows;
        }
        self.rows_at(0, 0, true, true, &mut rows);
        assert(rows@ =~= rows_of(self.nodes@, 0, 0, true, true));
        rows
    }
}

} // verus!
