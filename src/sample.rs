use vstd::prelude::*;

verus! {

/// Bit of a sample's flags: merge with a same-named sibling.
pub const AGGREGATE_BIT: u32 = 1;

/// Bit of a sample's flags: collapse into a same-named parent.
pub const RECURSIVE_BIT: u32 = 2;

/// Flags which determine how the timing data for the profiled scopes is
/// aggregated. As bits (see `bits`) they combine independently.
#[allow(non_camel_case_types)]
#[derive(Clone, Copy, Debug, PartialEq, Eq, Structural)]
pub enum rmtSampleFlags {
    /// Always add a new sample node.
    RMTSF_None,
    /// Search the parent for a same-named sample and merge timing into it.
    RMTSF_Aggregate,
    /// Merge the sample into its parent when the parent has the same name.
    RMTSF_Recursive,
}

impl rmtSampleFlags {
    pub open spec fn spec_bits(self) -> u32 {
        match self {
            rmtSampleFlags::RMTSF_None => 0,
            rmtSampleFlags::RMTSF_Aggregate => AGGREGATE_BIT,
            rmtSampleFlags::RMTSF_Recursive => RECURSIVE_BIT,
        }
    }

    /// The flag as a bit set.
    pub fn bits(&self) -> (r: u32)
        ensures
            r == self.spec_bits(),
    {
        match self {
            rmtSampleFlags::RMTSF_None => 0,
            rmtSampleFlags::RMTSF_Aggregate => AGGREGATE_BIT,
            rmtSampleFlags::RMTSF_Recursive => RECURSIVE_BIT,
        }
    }
}

/// One node of a thread's sample tree, kept in preorder with its depth.
///
/// `end` is the last end, `duration` the sum of the timed calls merged
/// into the node and `call_count` their number; `start` is `end` minus
/// `duration`, so a single call's node spans exactly its begin and end.
/// `last_start` is when the node was last (re)opened.
#[derive(Clone, Copy, Debug, PartialEq, Eq, Structural)]
pub struct Sample {
    pub name: u64,
    pub depth: u64,
    pub start: u64,
    pub end: u64,
    pub duration: u64,
    pub call_count: u64,
    pub flags: u32,
    pub last_start: u64,
}

pub open spec fn sat_add(a: u64, b: u64) -> u64 {
    if a + b <= u64::MAX {
        (a + b) as u64
    } else {
        u64::MAX
    }
}

pub open spec fn max_u64(a: u64, b: u64) -> u64 {
    if a >= b {
        a
    } else {
        b
    }
}

pub open spec fn index_or_none(r: Option<usize>) -> int {
    match r {
        Some(i) => i as int,
        None => -1,
    }
}

/// Where a span of length `d` ending at `e` starts.
pub open spec fn span_start(e: u64, d: u64) -> u64 {
    if d <= e {
        (e - d) as u64
    } else {
        0
    }
}

/// First index from `j` on whose depth is at most `d`: the end of a subtree.
pub open spec fn scan_end(recs: Seq<Sample>, d: u64, j: int) -> int
    decreases recs.len() - j,
{
    if j >= recs.len() {
        recs.len() as int
    } else if recs[j].depth <= d {
        j
    } else {
        scan_end(recs, d, j + 1)
    }
}

/// First index in `[j, hi)` of a node at depth `d` named `name`, or -1.
pub open spec fn find_named(recs: Seq<Sample>, d: u64, name: u64, j: int, hi: int) -> int
    decreases hi - j,
{
    if j >= hi {
        -1
    } else if recs[j].depth == d && recs[j].name == name {
        j
    } else {
        find_named(recs, d, name, j + 1, hi)
    }
}

pub proof fn lemma_scan_end_range(recs: Seq<Sample>, d: u64, j: int)
    requires
        0 <= j <= recs.len(),
    ensures
        j <= scan_end(recs, d, j) <= recs.len(),
    decreases recs.len() - j,
{
    if j < recs.len() && recs[j].depth > d {
        lemma_scan_end_range(recs, d, j + 1);
    }
}

pub proof fn lemma_find_named_range(recs: Seq<Sample>, d: u64, name: u64, j: int, hi: int)
    ensures
        find_named(recs, d, name, j, hi) == -1 || (j <= find_named(recs, d, name, j, hi) < hi
            && recs[find_named(recs, d, name, j, hi)].depth == d
            && recs[find_named(recs, d, name, j, hi)].name == name),
    decreases hi - j,
{
    if j < hi && !(recs[j].depth == d && recs[j].name == name) {
        lemma_find_named_range(recs, d, name, j + 1, hi);
    }
}

/// What a sample buffer holds, as mathematical values.
pub struct BufferState {
    pub records: Seq<Sample>,
    pub stack: Seq<usize>,
    pub imbalance: u64,
}

impl BufferState {
    pub open spec fn empty() -> BufferState {
        BufferState { records: Seq::empty(), stack: Seq::empty(), imbalance: 0 }
    }

    /// The buffer after its closed tree was handed over.
    pub open spec fn cleared(self) -> BufferState {
        BufferState { records: Seq::empty(), ..self }
    }

    pub open spec fn top(self) -> int {
        self.stack.last() as int
    }

    /// Depth of a node opened now.
    pub open spec fn child_depth(self) -> u64 {
        if self.stack.len() == 0 {
            0
        } else {
            (self.records[self.top()].depth + 1) as u64
        }
    }

    /// First index where the children of the open node may stand.
    pub open spec fn children_lo(self) -> int {
        if self.stack.len() == 0 {
            0
        } else {
            self.top() + 1
        }
    }

    /// Where a new child of the open node goes: after its subtree.
    pub open spec fn insert_pos(self) -> int {
        if self.stack.len() == 0 {
            self.records.len() as int
        } else {
            scan_end(self.records, self.records[self.top()].depth, self.top() + 1)
        }
    }

    /// The existing child of the open node named `name`, or -1.
    pub open spec fn sibling_named(self, name: u64) -> int {
        find_named(self.records, self.child_depth(), name, self.children_lo(), self.insert_pos())
    }

    pub open spec fn record_ok(r: Sample) -> bool {
        &&& r.start <= r.end
        &&& r.duration == r.end - r.start
        &&& r.call_count >= 1
    }

    pub open spec fn wf(self) -> bool {
        &&& self.records.len() <= usize::MAX
        &&& forall|k: int| 0 <= k < self.stack.len() ==> #[trigger] self.stack[k] < self.records.len()
        &&& forall|a: int, b: int|
            0 <= a < b < self.stack.len() ==> #[trigger] self.stack[a] <= #[trigger] self.stack[b]
        &&& forall|j: int| 0 <= j < self.records.len() ==> #[trigger] self.records[j].depth <= j
        &&& forall|j: int| 0 <= j < self.records.len() ==> Self::record_ok(#[trigger] self.records[j])
        &&& forall|k: int|
            0 <= k < self.stack.len() ==> (#[trigger] self.records[self.stack[k] as int]).end
                <= self.records[self.stack[k] as int].last_start
    }

    /// The effect of beginning a sample named `name` at time `now`.
    ///
    /// Recursive is tried first (the open node has the same name: no new
    /// node), then Aggregate (an existing child of the open node has the
    /// same name: it is reopened), else a new node is added after the open
    /// node's subtree.
    pub open spec fn begin(self, name: u64, flags: u32, now: u64) -> BufferState {
        if flags & RECURSIVE_BIT != 0 && self.stack.len() > 0 && self.records[self.top()].name
            == name {
            BufferState { stack: self.stack.push(self.top() as usize), ..self }
        } else if flags & AGGREGATE_BIT != 0 && self.sibling_named(name) >= 0 {
            let i = self.sibling_named(name);
            let r = self.records[i];
            let r2 = Sample {
                call_count: sat_add(r.call_count, 1),
                last_start: max_u64(now, r.end),
                ..r
            };
            BufferState { records: self.records.update(i, r2), stack: self.stack.push(i as usize), ..self }
        } else {
            let p = self.insert_pos();
            let r = Sample {
                name,
                depth: self.child_depth(),
                start: now,
                end: now,
                duration: 0,
                call_count: 1,
                flags,
                last_start: now,
            };
            BufferState { records: self.records.insert(p, r), stack: self.stack.push(p as usize), ..self }
        }
    }

    /// The effect of ending the innermost open sample at time `now`.
    ///
    /// With nothing open the call is a misuse: it is counted, nothing else.
    /// Leaving a collapsed recursive call only pops it.
    pub open spec fn end(self, now: u64) -> BufferState {
        if self.stack.len() == 0 {
            BufferState { imbalance: sat_add(self.imbalance, 1), ..self }
        } else {
            let i = self.top();
            let rest = self.stack.drop_last();
            if rest.len() > 0 && rest.last() == self.stack.last() {
                BufferState { stack: rest, ..self }
            } else {
                let r = self.records[i];
                let e = max_u64(now, r.last_start);
                let d = sat_add(r.duration, (e - r.last_start) as u64);
                let r2 = Sample { start: span_start(e, d), end: e, duration: d, ..r };
                BufferState { records: self.records.update(i, r2), stack: rest, ..self }
            }
        }
    }
}

/// The per-thread buffer of samples: the stack of open samples and the
/// preorder list of the current capture interval.
pub struct SampleBuffer {
    records: Vec<Sample>,
    stack: Vec<usize>,
    imbalance: u64,
}

impl SampleBuffer {
    pub closed spec fn state(&self) -> BufferState {
        BufferState { records: self.records@, stack: self.stack@, imbalance: self.imbalance }
    }

    pub open spec fn wf(&self) -> bool {
        self.state().wf()
    }

    pub fn new() -> (r: SampleBuffer)
        ensures
            r.state() == BufferState::empty(),
            r.wf(),
    {
        SampleBuffer { records: Vec::new(), stack: Vec::new(), imbalance: 0 }
    }

    /// The nodes in preorder.
    pub fn records(&self) -> (r: &Vec<Sample>)
        ensures
            r@ == self.state().records,
    {
        &self.records
    }

    /// How many samples are open.
    pub fn open_count(&self) -> (r: usize)
        ensures
            r == self.state().stack.len(),
    {
        self.stack.len()
    }

    /// How many ends came with no open sample.
    pub fn imbalance(&self) -> (r: u64)
        ensures
            r == self.state().imbalance,
    {
        self.imbalance
    }

    fn insert_pos(&self) -> (r: usize)
        requires
            self.wf(),
        ensures
            r == self.state().insert_pos(),
            self.state().children_lo() <= r <= self.records.len(),
    {
        let n = self.stack.len();
        if n == 0 {
            return self.records.len();
        }
        let top = self.stack[n - 1];
        proof {
            assert(self.state().stack[n - 1] < self.state().records.len());
        }
        let d = self.records[top].depth;
        let mut j: usize = top + 1;
        proof {
            lemma_scan_end_range(self.records@, d, j as int);
        }
        while j < self.records.len() && self.records[j].depth > d
            invariant
                top < j <= self.records.len(),
                scan_end(self.records@, d, j as int) == scan_end(self.records@, d, top + 1),
            decreases self.records.len() - j,
        {
            j = j + 1;
        }
        j
    }

    fn find_named(&self, d: u64, name: u64, lo: usize, hi: usize) -> (r: Option<usize>)
        requires
            lo <= hi <= self.records.len(),
        ensures
            find_named(self.records@, d, name, lo as int, hi as int) == index_or_none(r),
    {
        let mut j: usize = lo;
        while j < hi
            invariant
                lo <= j <= hi,
                hi <= self.records.len(),
                find_named(self.records@, d, name, j as int, hi as int) == find_named(
                    self.records@,
                    d,
                    name,
                    lo as int,
                    hi as int,
                ),
            decreases hi - j,
        {
            if self.records[j].depth == d && self.records[j].name == name {
                return Some(j);
            }
            j = j + 1;
        }
        None
    }

    /// Begins a sample named `name` (an interned id) at time `now`.
    pub fn begin(&mut self, name: u64, flags: u32, now: u64)
        requires
            old(self).wf(),
            old(self).state().records.len() < usize::MAX,
        ensures
            final(self).wf(),
            final(self).state() == old(self).state().begin(name, flags, now),
    {
        proof {
            lemma_begin_wf(self.state(), name, flags, now);
        }
        let n = self.stack.len();
        if n > 0 && flags & RECURSIVE_BIT != 0 {
            let top = self.stack[n - 1];
            if self.records[top].name == name {
                self.stack.push(top);
                return;
            }
        }
        let pos = self.insert_pos();
        let (lo, d) = if n == 0 {
            (0, 0)
        } else {
            let top = self.stack[n - 1];
            proof {
                assert(self.records@[top as int].depth <= top);
            }
            (top + 1, self.records[top].depth + 1)
        };
        if flags & AGGREGATE_BIT != 0 {
            let found = self.find_named(d, name, lo, pos);
            if let Some(i) = found {
                proof {
                    lemma_find_named_range(self.records@, d, name, lo as int, pos as int);
                }
                let r = self.records[i];
                let count = if r.call_count < u64::MAX {
                    r.call_count + 1
                } else {
                    u64::MAX
                };
                let last = if now >= r.end {
                    now
                } else {
                    r.end
                };
                self.records.set(i, Sample { call_count: count, last_start: last, ..r });
                self.stack.push(i);
                proof {
                    assert(self.state().records =~= old(self).state().begin(name, flags, now).records);
                }
                return;
            }
        }
        let r = Sample {
            name,
            depth: d,
            start: now,
            end: now,
            duration: 0,
            call_count: 1,
            flags,
            last_start: now,
        };
        self.records.insert(pos, r);
        self.stack.push(pos);
    }

    /// Ends the innermost open sample at time `now`.
    pub fn end(&mut self, now: u64)
        requires
            old(self).wf(),
        ensures
            final(self).wf(),
            final(self).state() == old(self).state().end(now),
    {
        proof {
            lemma_end_wf(self.state(), now);
        }
        let i = match self.stack.pop() {
            Some(i) => i,
            None => {
                if self.imbalance < u64::MAX {
                    self.imbalance = self.imbalance + 1;
                }
                return;
            },
        };
        let n = self.stack.len();
        if n > 0 && self.stack[n - 1] == i {
            return;
        }
        let r = self.records[i];
        let e = if now >= r.last_start {
            now
        } else {
            r.last_start
        };
        let span = e - r.last_start;
        let total = if r.duration <= u64::MAX - span {
            r.duration + span
        } else {
            u64::MAX
        };
        let start = if total <= e {
            e - total
        } else {
            0
        };
        self.records.set(i, Sample { start, end: e, duration: total, ..r });
        proof {
            assert(self.state().records =~= old(self).state().end(now).records);
        }
    }

    /// Hands the finished capture interval over and starts a new one.
    /// While a sample is open the tree is incomplete: nothing is handed
    /// over and the buffer stays as it is.
    pub fn take_tree(&mut self) -> (r: Result<Vec<Sample>, crate::error::rmtError>)
        requires
            old(self).wf(),
        ensures
            final(self).wf(),
            (old(self).state().stack.len() == 0) == (r is Ok),
            (r is Ok) ==> (r->Ok_0@ == old(self).state().records && final(self).state()
                == old(self).state().cleared()),
            (r is Err) ==> (r->Err_0 == crate::error::rmtError::RMT_ERROR_SEND_ON_INCOMPLETE_PROFILE
                && final(self).state() == old(self).state()),
    {
        if self.stack.len() > 0 {
            return Err(crate::error::rmtError::RMT_ERROR_SEND_ON_INCOMPLETE_PROFILE);
        }
        let tree = self.records.split_off(0);
        proof {
            assert(self.records@ =~= Seq::<Sample>::empty());
        }
        Ok(tree)
    }
}

/// A begin keeps the buffer well formed.
pub proof fn lemma_begin_wf(s: BufferState, name: u64, flags: u32, now: u64)
    requires
        s.wf(),
        s.records.len() < usize::MAX,
    ensures
        s.begin(name, flags, now).wf(),
{
    let t = s.begin(name, flags, now);
    if flags & RECURSIVE_BIT != 0 && s.stack.len() > 0 && s.records[s.top()].name == name {
        assert(t.stack.last() == s.stack.last());
        assert forall|k: int| 0 <= k < t.stack.len() implies (#[trigger] t.records[t.stack[k] as int]).end
            <= t.records[t.stack[k] as int].last_start by {
            if k < s.stack.len() {
                assert(t.stack[k] == s.stack[k]);
            } else {
                assert(t.stack[k] == s.stack[s.stack.len() - 1]);
            }
        }
    } else {
        if s.stack.len() > 0 {
            lemma_scan_end_range(s.records, s.records[s.top()].depth, s.top() + 1);
        }
        let p = s.insert_pos();
        assert(s.children_lo() <= p <= s.records.len());
        assert forall|k: int| 0 <= k < s.stack.len() implies #[trigger] s.stack[k] < p by {
            if s.stack.len() > 0 {
                assert(s.stack[k] <= s.stack[s.stack.len() - 1]);
            }
        }
        if flags & AGGREGATE_BIT != 0 && s.sibling_named(name) >= 0 {
            lemma_find_named_range(s.records, s.child_depth(), name, s.children_lo(), p);
            let i = s.sibling_named(name);
            assert forall|k: int| 0 <= k < t.stack.len() implies (#[trigger] t.records[t.stack[k] as int]).end
                <= t.records[t.stack[k] as int].last_start by {
                if k < s.stack.len() {
                    assert(t.stack[k] == s.stack[k]);
                } else {
                    assert(t.stack[k] == i);
                }
            }
            assert forall|a: int, b: int| 0 <= a < b < t.stack.len() implies #[trigger] t.stack[a] <= #[trigger] t.stack[b] by {
                if b == s.stack.len() {
                    assert(t.stack[a] == s.stack[a]);
                    assert(s.stack[a] < p);
                    assert(s.stack[a] <= s.stack[s.stack.len() - 1]);
                } else {
                    assert(t.stack[a] == s.stack[a]);
                    assert(t.stack[b] == s.stack[b]);
                }
            }
        } else {
            let r = t.records[p];
            assert(t.records.len() == s.records.len() + 1);
            assert forall|j: int| 0 <= j < t.records.len() implies #[trigger] t.records[j].depth <= j by {
                if j < p {
                    assert(t.records[j] == s.records[j]);
                } else if j > p {
                    assert(t.records[j] == s.records[j - 1]);
                } else if s.stack.len() > 0 {
                    assert(s.records[s.top()].depth <= s.top());
                }
            }
            assert forall|j: int| 0 <= j < t.records.len() implies BufferState::record_ok(#[trigger] t.records[j]) by {
                if j < p {
                    assert(t.records[j] == s.records[j]);
                } else if j > p {
                    assert(t.records[j] == s.records[j - 1]);
                }
            }
            assert forall|k: int| 0 <= k < t.stack.len() implies #[trigger] t.stack[k] < t.records.len() by {
                if k < s.stack.len() {
                    assert(t.stack[k] == s.stack[k]);
                }
            }
            assert forall|a: int, b: int| 0 <= a < b < t.stack.len() implies #[trigger] t.stack[a] <= #[trigger] t.stack[b] by {
                assert(t.stack[a] == s.stack[a]);
                if b < s.stack.len() {
                    assert(t.stack[b] == s.stack[b]);
                }
            }
            assert forall|k: int| 0 <= k < t.stack.len() implies (#[trigger] t.records[t.stack[k] as int]).end
                <= t.records[t.stack[k] as int].last_start by {
                if k < s.stack.len() {
                    assert(t.stack[k] == s.stack[k]);
                    assert(t.records[s.stack[k] as int] == s.records[s.stack[k] as int]);
                }
            }
        }
    }
}

/// An end keeps the buffer well formed.
pub proof fn lemma_end_wf(s: BufferState, now: u64)
    requires
        s.wf(),
    ensures
        s.end(now).wf(),
{
    let t = s.end(now);
    if s.stack.len() > 0 {
        let rest = s.stack.drop_last();
        if !(rest.len() > 0 && rest.last() == s.stack.last()) {
            let i = s.top();
            assert forall|k: int| 0 <= k < rest.len() implies #[trigger] rest[k] < i by {
                assert(rest[k] == s.stack[k]);
                assert(s.stack[k] <= s.stack[rest.len() - 1]);
                assert(s.stack[rest.len() - 1] <= s.stack[s.stack.len() - 1]);
            }
            assert forall|j: int| 0 <= j < t.records.len() implies BufferState::record_ok(#[trigger] t.records[j]) by {
                if j != i {
                    assert(t.records[j] == s.records[j]);
                } else {
                    let k = s.stack.len() - 1;
                    assert(s.records[s.stack[k] as int].end <= s.records[s.stack[k] as int].last_start);
                }
            }
            assert forall|k: int| 0 <= k < t.stack.len() implies (#[trigger] t.records[t.stack[k] as int]).end
                <= t.records[t.stack[k] as int].last_start by {
                assert(t.stack[k] == s.stack[k]);
                assert(t.stack[k] < i);
            }
        }
    }
}

/// Whether node `j` has no children: the next node, if any, is no deeper.
pub open spec fn is_leaf(recs: Seq<Sample>, j: int) -> bool {
    j + 1 >= recs.len() || recs[j + 1].depth <= recs[j].depth
}

/// A node that took no measurable time and has nothing under it.
pub open spec fn is_noise(recs: Seq<Sample>, j: int) -> bool {
    recs[j].duration == 0 && is_leaf(recs, j)
}

/// The first `n` nodes without the noise among them.
pub open spec fn compacted(recs: Seq<Sample>, n: int) -> Seq<Sample>
    decreases n,
{
    if n <= 0 {
        Seq::empty()
    } else if is_noise(recs, n - 1) {
        compacted(recs, n - 1)
    } else {
        compacted(recs, n - 1).push(recs[n - 1])
    }
}

/// The tree without zero-duration leaves, in the same order. Removing a
/// leaf changes no other node's depth, so the result is again a preorder
/// with depths.
pub fn compact(records: &Vec<Sample>) -> (r: Vec<Sample>)
    ensures
        r@ == compacted(records@, records@.len() as int),
{
    let mut out: Vec<Sample> = Vec::new();
    let mut j: usize = 0;
    while j < records.len()
        invariant
            j <= records.len(),
            out@ == compacted(records@, j as int),
        decreases records.len() - j,
    {
        let r = records[j];
        let leaf = j + 1 >= records.len() || records[j + 1].depth <= r.depth;
        if !(r.duration == 0 && leaf) {
            out.push(r);
        }
        j = j + 1;
    }
    out
}

/// One instrumentation call on a thread.
#[derive(Clone, Copy, Debug, PartialEq, Eq, Structural)]
pub enum Call {
    Begin { name: u64, flags: u32, now: u64 },
    End { now: u64 },
}

impl BufferState {
    pub open spec fn step(self, c: Call) -> BufferState {
        match c {
            Call::Begin { name, flags, now } => self.begin(name, flags, now),
            Call::End { now } => self.end(now),
        }
    }

    /// The buffer after the calls, in order.
    pub open spec fn run(self, calls: Seq<Call>) -> BufferState
        decreases calls.len(),
    {
        if calls.len() == 0 {
            self
        } else {
            self.run(calls.drop_last()).step(calls.last())
        }
    }
}

/// The names of the begin calls, in call order.
pub open spec fn begin_names(calls: Seq<Call>) -> Seq<u64>
    decreases calls.len(),
{
    if calls.len() == 0 {
        Seq::empty()
    } else {
        match calls.last() {
            Call::Begin { name, .. } => begin_names(calls.drop_last()).push(name),
            Call::End { .. } => begin_names(calls.drop_last()),
        }
    }
}

pub open spec fn names_of(recs: Seq<Sample>) -> Seq<u64> {
    recs.map_values(|r: Sample| r.name)
}

pub open spec fn plain_calls(calls: Seq<Call>) -> bool {
    forall|i: int|
        0 <= i < calls.len() ==> match #[trigger] calls[i] {
            Call::Begin { flags, .. } => flags & (AGGREGATE_BIT | RECURSIVE_BIT) == 0,
            Call::End { .. } => true,
        }
}

/// Every node after an open node lies deeper than it.
pub open spec fn open_nodes_last(s: BufferState) -> bool {
    forall|k: int, j: int|
        0 <= k < s.stack.len() && s.stack[k] < j < s.records.len() ==> #[trigger] s.records[j].depth
            > s.records[#[trigger] s.stack[k] as int].depth
}

pub proof fn lemma_scan_end_all_deeper(recs: Seq<Sample>, d: u64, j: int)
    requires
        0 <= j,
        forall|i: int| j <= i < recs.len() ==> #[trigger] recs[i].depth > d,
    ensures
        scan_end(recs, d, j) == recs.len(),
    decreases recs.len() - j,
{
    if j < recs.len() {
        lemma_scan_end_all_deeper(recs, d, j + 1);
    }
}

proof fn lemma_plain_run(calls: Seq<Call>)
    requires
        plain_calls(calls),
        calls.len() < usize::MAX,
    ensures
        BufferState::empty().run(calls).wf(),
        open_nodes_last(BufferState::empty().run(calls)),
        names_of(BufferState::empty().run(calls).records) == begin_names(calls),
        forall|j: int|
            0 <= j < BufferState::empty().run(calls).records.len() ==> (
            #[trigger] BufferState::empty().run(calls).records[j]).call_count == 1,
        BufferState::empty().run(calls).records.len() <= calls.len(),
    decreases calls.len(),
{
    if calls.len() > 0 {
        let pre = calls.drop_last();
        assert forall|i: int| 0 <= i < pre.len() implies match #[trigger] pre[i] {
            Call::Begin { flags, .. } => flags & (AGGREGATE_BIT | RECURSIVE_BIT) == 0,
            Call::End { .. } => true,
        } by {
            assert(pre[i] == calls[i]);
        }
        lemma_plain_run(pre);
        let s = BufferState::empty().run(pre);
        let t = BufferState::empty().run(calls);
        let c = calls.last();
        assert(calls[calls.len() - 1] == c);
        match c {
            Call::Begin { name, flags, now } => {
                assert(flags & (AGGREGATE_BIT | RECURSIVE_BIT) == 0);
                assert(flags & (1u32 | 2u32) == 0 ==> flags & 1u32 == 0 && flags & 2u32 == 0)
                    by (bit_vector);
                lemma_begin_wf(s, name, flags, now);
                if s.stack.len() > 0 {
                    let k = s.stack.len() - 1;
                    assert forall|i: int| s.top() + 1 <= i < s.records.len() implies #[trigger] s.records[i].depth
                        > s.records[s.top()].depth by {
                        assert(s.stack[k] < i);
                    }
                    lemma_scan_end_all_deeper(s.records, s.records[s.top()].depth, s.top() + 1);
                }
                assert(s.insert_pos() == s.records.len());
                assert(t.records == s.records.push(t.records.last()));
                assert(names_of(t.records) =~= names_of(s.records).push(name));
                assert forall|k: int, j: int|
                    0 <= k < t.stack.len() && t.stack[k] < j < t.records.len() implies #[trigger] t.records[j].depth
                        > t.records[#[trigger] t.stack[k] as int].depth by {
                    if k < s.stack.len() {
                        assert(t.stack[k] == s.stack[k]);
                        if j == s.records.len() {
                            let top = s.stack.len() - 1;
                            if k < top {
                                assert(s.stack[k] <= s.stack[top]);
                                if s.stack[k] < s.stack[top] {
                                    assert(s.records[s.stack[top] as int].depth > s.records[s.stack[k] as int].depth);
                                }
                            }
                        }
                    }
                }
            },
            Call::End { now } => {
                lemma_end_wf(s, now);
                assert(names_of(t.records) =~= names_of(s.records));
                assert forall|k: int, j: int|
                    0 <= k < t.stack.len() && t.stack[k] < j < t.records.len() implies #[trigger] t.records[j].depth
                        > t.records[#[trigger] t.stack[k] as int].depth by {
                    assert(t.stack[k] == s.stack[k]);
                }
            },
        }
    }
}

/// On a thread whose samples carry neither Aggregate nor Recursive, the
/// preorder of the tree lists one node per begin call, in call order,
/// and every node's duration is its end time minus its start time, with
/// the end no earlier than the start.
pub proof fn lemma_preorder_is_call_order(calls: Seq<Call>)
    requires
        plain_calls(calls),
        calls.len() < usize::MAX,
    ensures
        names_of(BufferState::empty().run(calls).records) == begin_names(calls),
        forall|j: int|
            0 <= j < BufferState::empty().run(calls).records.len() ==> {
                let r = #[trigger] BufferState::empty().run(calls).records[j];
                r.start <= r.end && r.duration == r.end - r.start
            },
{
    lemma_plain_run(calls);
    let t = BufferState::empty().run(calls);
    assert forall|j: int| 0 <= j < t.records.len() implies {
        let r = #[trigger] t.records[j];
        r.start <= r.end && r.duration == r.end - r.start
    } by {
        assert(BufferState::record_ok(t.records[j]));
    }
}

proof fn lemma_run_wf(calls: Seq<Call>)
    requires
        calls.len() < usize::MAX,
    ensures
        BufferState::empty().run(calls).wf(),
        BufferState::empty().run(calls).records.len() <= calls.len(),
    decreases calls.len(),
{
    if calls.len() > 0 {
        let pre = calls.drop_last();
        lemma_run_wf(pre);
        let s = BufferState::empty().run(pre);
        match calls.last() {
            Call::Begin { name, flags, now } => {
                lemma_begin_wf(s, name, flags, now);
                if s.stack.len() > 0 {
                    assert(s.stack[s.stack.len() - 1] < s.records.len());
                    lemma_scan_end_range(s.records, s.records[s.top()].depth, s.top() + 1);
                }
                lemma_find_named_range(s.records, s.child_depth(), name, s.children_lo(), s.insert_pos());
                assert(s.begin(name, flags, now).records.len() <= s.records.len() + 1);
            },
            Call::End { now } => {
                lemma_end_wf(s, now);
            },
        }
    }
}

/// Whatever the flags, every node of a thread's tree has its end no
/// earlier than its start and its duration equal to end minus start. A
/// node that Aggregate merged several calls into has as duration the sum
/// of their times, and its span ends at the last end.
pub proof fn lemma_durations(calls: Seq<Call>)
    requires
        calls.len() < usize::MAX,
    ensures
        forall|j: int|
            0 <= j < BufferState::empty().run(calls).records.len() ==> {
                let r = #[trigger] BufferState::empty().run(calls).records[j];
                r.start <= r.end && r.duration == r.end - r.start
            },
{
    lemma_run_wf(calls);
    let t = BufferState::empty().run(calls);
    assert forall|j: int| 0 <= j < t.records.len() implies {
        let r = #[trigger] t.records[j];
        r.start <= r.end && r.duration == r.end - r.start
    } by {
        assert(BufferState::record_ok(t.records[j]));
    }
}

/// Beginning a sample with Aggregate whose name an existing child of the
/// open sample has (duration d1), and ending it d2 later, adds d2 to that
/// child's duration and one to its call count; no node is added.
pub proof fn lemma_aggregate_merges(s: BufferState, name: u64, t0: u64, t1: u64)
    requires
        s.wf(),
        s.records.len() < usize::MAX,
        s.sibling_named(name) >= 0,
        s.records[s.sibling_named(name)].end <= t0 <= t1,
        s.records[s.sibling_named(name)].duration + (t1 - t0) <= u64::MAX,
        s.records[s.sibling_named(name)].call_count < u64::MAX,
    ensures
        ({
            let i = s.sibling_named(name);
            let u = s.begin(name, AGGREGATE_BIT, t0).end(t1);
            &&& u.records.len() == s.records.len()
            &&& u.records[i].name == name
            &&& u.records[i].duration == s.records[i].duration + (t1 - t0)
            &&& u.records[i].call_count == s.records[i].call_count + 1
            &&& u.stack == s.stack
            &&& forall|j: int| 0 <= j < s.records.len() && j != i ==> u.records[j] == s.records[j]
        }),
{
    let i = s.sibling_named(name);
    if s.stack.len() > 0 {
        lemma_scan_end_range(s.records, s.records[s.top()].depth, s.top() + 1);
    }
    lemma_find_named_range(s.records, s.child_depth(), name, s.children_lo(), s.insert_pos());
    assert(AGGREGATE_BIT & RECURSIVE_BIT == 0) by (bit_vector);
    assert(AGGREGATE_BIT & AGGREGATE_BIT != 0) by (bit_vector);
    let m = s.begin(name, AGGREGATE_BIT, t0);
    assert(m.stack.drop_last() =~= s.stack);
    if s.stack.len() > 0 {
        assert(s.stack.last() < i);
    }
}

/// Beginning a sample with Recursive inside an open sample of the same
/// name adds no node: the call collapses into the open one, whose own
/// time goes on covering it, and ending it leaves the buffer as before.
pub proof fn lemma_recursive_collapses(s: BufferState, t0: u64, t1: u64)
    requires
        s.wf(),
        s.stack.len() > 0,
    ensures
        s.begin(s.records[s.top()].name, RECURSIVE_BIT, t0).records == s.records,
        s.begin(s.records[s.top()].name, RECURSIVE_BIT, t0).stack == s.stack.push(s.stack.last()),
        s.begin(s.records[s.top()].name, RECURSIVE_BIT, t0).end(t1) == s,
{
    assert(RECURSIVE_BIT & RECURSIVE_BIT != 0) by (bit_vector);
    let m = s.begin(s.records[s.top()].name, RECURSIVE_BIT, t0);
    assert(m.stack.drop_last() =~= s.stack);
}

} // verus!
