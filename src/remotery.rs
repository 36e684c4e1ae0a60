use vstd::prelude::*;

use std::collections::HashMap;

use crate::error::rmtError;
use crate::sample::{rmtSampleFlags, BufferState, Call, Sample};
use crate::thread::{distinct, flush_effect, label_of, names_after, ThreadContext};

verus! {

broadcast use vstd::std_specs::hash::group_hash_axioms;

/// Where the global instance is in its life.
#[derive(Clone, Copy, Debug, PartialEq, Eq, Structural)]
pub enum LifecycleState {
    Uninitialized,
    Running,
    Destroyed,
}

/// Why `initialize` refused.
#[derive(Clone, Copy, Debug, PartialEq, Eq, Structural)]
pub enum LifecycleError {
    /// The instance is running: shut it down first.
    AlreadyInitialized,
}

impl LifecycleError {
    /// The human-readable description of the error.
    pub fn message(&self) -> (r: &'static str)
        ensures
            r@ == "The profiler is already initialized; shut it down first"@,
    {
        match self {
            LifecycleError::AlreadyInitialized => "The profiler is already initialized; shut it down first",
        }
    }
}

impl LifecycleState {
    pub open spec fn after_initialize(self) -> LifecycleState {
        LifecycleState::Running
    }

    pub open spec fn initialize_result(self) -> Result<(), LifecycleError> {
        if self == LifecycleState::Running {
            Err(LifecycleError::AlreadyInitialized)
        } else {
            Ok(())
        }
    }

    pub open spec fn after_shutdown(self) -> LifecycleState {
        if self == LifecycleState::Uninitialized {
            LifecycleState::Uninitialized
        } else {
            LifecycleState::Destroyed
        }
    }
}

/// A thread's buffer in a registry, or an empty one for a thread not seen.
pub open spec fn buffer_in(m: Map<u64, BufferState>, t: u64) -> BufferState {
    if m.contains_key(t) {
        m[t]
    } else {
        BufferState::empty()
    }
}

/// The registry after thread `t` made call `c`.
pub open spec fn registry_step(m: Map<u64, BufferState>, t: u64, c: Call) -> Map<u64, BufferState> {
    m.insert(t, buffer_in(m, t).step(c))
}

/// What a call does to the registry in a given state of the instance:
/// outside `Running` it is ignored.
pub open spec fn sample_effect(s: LifecycleState, m: Map<u64, BufferState>, t: u64, c: Call) -> Map<
    u64,
    BufferState,
> {
    if s == LifecycleState::Running {
        registry_step(m, t, c)
    } else {
        m
    }
}

/// The registry after calls from several threads, interleaved in `evs`.
pub open spec fn registry_run(m: Map<u64, BufferState>, evs: Seq<(u64, Call)>) -> Map<u64, BufferState>
    decreases evs.len(),
{
    if evs.len() == 0 {
        m
    } else {
        registry_step(registry_run(m, evs.drop_last()), evs.last().0, evs.last().1)
    }
}

/// The calls of thread `t` in `evs`, in order.
pub open spec fn calls_of(evs: Seq<(u64, Call)>, t: u64) -> Seq<Call>
    decreases evs.len(),
{
    if evs.len() == 0 {
        Seq::empty()
    } else if evs.last().0 == t {
        calls_of(evs.drop_last(), t).push(evs.last().1)
    } else {
        calls_of(evs.drop_last(), t)
    }
}

/// However the calls of several threads interleave, each thread's buffer
/// ends as a replay of its own calls alone would leave it.
pub proof fn lemma_threads_independent(m: Map<u64, BufferState>, evs: Seq<(u64, Call)>, t: u64)
    ensures
        buffer_in(registry_run(m, evs), t) == buffer_in(m, t).run(calls_of(evs, t)),
    decreases evs.len(),
{
    if evs.len() > 0 {
        lemma_threads_independent(m, evs.drop_last(), t);
        if evs.last().0 == t {
            let cs = calls_of(evs.drop_last(), t);
            assert(cs.push(evs.last().1).drop_last() =~= cs);
        }
    }
}

/// Initializing twice with no shutdown between fails the second time with
/// `AlreadyInitialized`; after a shutdown, sample calls change nothing.
pub proof fn lemma_lifecycle(s: LifecycleState, m: Map<u64, BufferState>, t: u64, c: Call)
    ensures
        s.after_initialize().initialize_result() == Err::<(), LifecycleError>(
            LifecycleError::AlreadyInitialized,
        ),
        sample_effect(s.after_shutdown(), m, t, c) == m,
        s.after_shutdown().after_shutdown() == s.after_shutdown(),
{
}

/// The profiler instance: its lifecycle state and the registry of
/// instrumented threads, keyed by thread identity.
/// The label a call's optional name gives, as text.
pub open spec fn label_view(name: Option<&str>) -> Seq<char> {
    label_of(
        match name {
            Some(n) => Some(n@),
            None => None,
        },
    )
}

/// The profiler instance: its lifecycle state and the registry of
/// instrumented threads, keyed by thread identity.
pub struct Remotery {
    state: LifecycleState,
    threads: HashMap<u64, ThreadContext>,
}

/// A begun sample, to be ended by `close`.
pub struct RemoteryScope {
    thread_id: u64,
}

impl RemoteryScope {
    pub closed spec fn thread(&self) -> u64 {
        self.thread_id
    }

    /// Ends the sample this scope began (see `Remotery::end_cpu_sample`).
    pub fn close(self, r: &mut Remotery, now: u64)
        requires
            old(r).wf(),
        ensures
            final(r).wf(),
            final(r).state() == old(r).state(),
            final(r).buffers() == sample_effect(
                old(r).state(),
                old(r).buffers(),
                self.thread(),
                Call::End { now },
            ),
            old(r).state() != LifecycleState::Running ==> final(r).contexts() == old(r).contexts(),
            old(r).state() == LifecycleState::Running ==> final(r).keeps_all_but_buffer(
                *old(r),
                self.thread(),
            ),
    {
        r.end_cpu_sample(self.thread_id, now);
    }
}

impl Remotery {
    pub closed spec fn state(&self) -> LifecycleState {
        self.state
    }

    pub closed spec fn contexts(&self) -> Map<u64, ThreadContext> {
        self.threads@
    }

    /// Each registered thread's sample buffer.
    pub open spec fn buffers(&self) -> Map<u64, BufferState> {
        Map::new(|t: u64| self.contexts().contains_key(t), |t: u64| self.contexts()[t].buffer())
    }

    /// Thread `t`'s name table; empty for a thread not registered.
    pub open spec fn names_of(&self, t: u64) -> Seq<Seq<char>> {
        if self.contexts().contains_key(t) {
            self.contexts()[t].names()
        } else {
            Seq::empty()
        }
    }

    /// Thread `t`'s display name; empty for a thread not registered.
    pub open spec fn display_of(&self, t: u64) -> Seq<char> {
        if self.contexts().contains_key(t) {
            self.contexts()[t].name_view()
        } else {
            Seq::empty()
        }
    }

    pub open spec fn pending_of(&self, t: u64) -> Option<Seq<Sample>> {
        if self.contexts().contains_key(t) {
            self.contexts()[t].pending()
        } else {
            None
        }
    }

    pub open spec fn dropped_of(&self, t: u64) -> u64 {
        if self.contexts().contains_key(t) {
            self.contexts()[t].dropped()
        } else {
            0
        }
    }

    pub open spec fn sent_of(&self, t: u64) -> nat {
        if self.contexts().contains_key(t) {
            self.contexts()[t].sent()
        } else {
            0
        }
    }

    /// Thread `t` is registered, every other thread's context is as in
    /// `o`, and `t`'s context differs from `o`'s at most in its buffer.
    pub open spec fn keeps_all_but_buffer(&self, o: Remotery, t: u64) -> bool {
        &&& self.contexts().contains_key(t)
        &&& self.contexts().remove(t) == o.contexts().remove(t)
        &&& self.names_of(t) == o.names_of(t)
        &&& self.display_of(t) == o.display_of(t)
        &&& self.pending_of(t) == o.pending_of(t)
        &&& self.dropped_of(t) == o.dropped_of(t)
        &&& self.sent_of(t) == o.sent_of(t)
    }

    pub closed spec fn wf(&self) -> bool {
        forall|t: u64| #[trigger]
            self.threads@.contains_key(t) ==> self.threads@[t].wf() && self.threads@[t].id() == t
    }

    /// Every registered thread's buffer is well formed (in particular each
    /// node ends no earlier than it starts and lasts its end minus its
    /// start), and every thread's name table holds each name once.
    pub proof fn lemma_buffers_wf(&self)
        requires
            self.wf(),
        ensures
            forall|t: u64| #[trigger] self.buffers().contains_key(t) ==> self.buffers()[t].wf(),
            forall|t: u64| #[trigger] distinct(self.names_of(t)),
    {
        assert forall|t: u64| #[trigger] self.buffers().contains_key(t) implies self.buffers()[t].wf() by {
            self.threads@[t].lemma_buffer_wf();
        }
        assert forall|t: u64| #[trigger] distinct(self.names_of(t)) by {
            if self.contexts().contains_key(t) {
                self.threads@[t].lemma_names_distinct();
            }
        }
    }

    /// A profiler not yet initialized.
    pub fn new() -> (r: Remotery)
        ensures
            r.wf(),
            r.state() == LifecycleState::Uninitialized,
            r.contexts() == Map::<u64, ThreadContext>::empty(),
    {
        Remotery { state: LifecycleState::Uninitialized, threads: HashMap::new() }
    }

    pub fn lifecycle(&self) -> (r: LifecycleState)
        ensures
            r == self.state(),
    {
        self.state
    }

    /// Starts the instance. Fails with `AlreadyInitialized` while it runs.
    pub fn initialize(&mut self) -> (r: Result<(), LifecycleError>)
        requires
            old(self).wf(),
        ensures
            final(self).wf(),
            r == old(self).state().initialize_result(),
            final(self).state() == old(self).state().after_initialize(),
            r is Ok ==> final(self).contexts() == Map::<u64, ThreadContext>::empty(),
            r is Err ==> final(self).contexts() == old(self).contexts(),
    {
        if self.state == LifecycleState::Running {
            return Err(LifecycleError::AlreadyInitialized);
        }
        self.threads.clear();
        self.state = LifecycleState::Running;
        Ok(())
    }

    /// Stops the instance and forgets every thread. Repeating it does
    /// nothing more.
    pub fn shutdown(&mut self)
        ensures
            final(self).wf(),
            final(self).state() == old(self).state().after_shutdown(),
            final(self).contexts() == Map::<u64, ThreadContext>::empty(),
    {
        self.threads.clear();
        if self.state != LifecycleState::Uninitialized {
            self.state = LifecycleState::Destroyed;
        }
    }

    /// Removes the context of thread `t` from the registry, or makes a new
    /// one for a thread not seen before.
    fn take_context(&mut self, t: u64) -> (c: ThreadContext)
        requires
            old(self).wf(),
        ensures
            final(self).wf(),
            final(self).state() == old(self).state(),
            final(self).contexts() == old(self).contexts().remove(t),
            c.wf(),
            c.id() == t,
            old(self).contexts().contains_key(t) ==> c == old(self).contexts()[t],
            c.buffer() == buffer_in(old(self).buffers(), t),
            c.names() == old(self).names_of(t),
            c.name_view() == old(self).display_of(t),
            c.pending() == old(self).pending_of(t),
            c.dropped() == old(self).dropped_of(t),
            c.sent() == old(self).sent_of(t),
    {
        match self.threads.remove(&t) {
            Some(c) => c,
            None => ThreadContext::new(t),
        }
    }

    fn put_context(&mut self, c: ThreadContext)
        requires
            old(self).wf(),
            c.wf(),
        ensures
            final(self).wf(),
            final(self).state() == old(self).state(),
            final(self).contexts() == old(self).contexts().insert(c.id(), c),
    {
        let t = c.thread_id();
        self.threads.insert(t, c);
    }

    /// Gives thread `thread_id` a display name; nothing else changes.
    pub fn set_current_thread_name(&mut self, thread_id: u64, name: &str)
        requires
            old(self).wf(),
        ensures
            final(self).wf(),
            final(self).state() == old(self).state(),
            old(self).state() != LifecycleState::Running ==> final(self).contexts() == old(
                self,
            ).contexts(),
            old(self).state() == LifecycleState::Running ==> {
                &&& final(self).contexts().contains_key(thread_id)
                &&& final(self).contexts().remove(thread_id) == old(self).contexts().remove(thread_id)
                &&& final(self).display_of(thread_id) == name@
                &&& final(self).names_of(thread_id) == old(self).names_of(thread_id)
                &&& final(self).pending_of(thread_id) == old(self).pending_of(thread_id)
                &&& final(self).dropped_of(thread_id) == old(self).dropped_of(thread_id)
                &&& final(self).sent_of(thread_id) == old(self).sent_of(thread_id)
                &&& final(self).buffers() == old(self).buffers().insert(
                    thread_id,
                    buffer_in(old(self).buffers(), thread_id),
                )
            },
    {
        if self.state != LifecycleState::Running {
            return;
        }
        let mut c = self.take_context(thread_id);
        c.set_name(name);
        self.put_context(c);
        proof {
            assert(self.contexts().remove(thread_id) =~= old(self).contexts().remove(thread_id));
            assert(self.buffers() =~= old(self).buffers().insert(
                thread_id,
                buffer_in(old(self).buffers(), thread_id),
            ));
        }
    }

    /// Begins a sample on thread `thread_id` at time `now`; a thread not
    /// seen before is registered first. The label is added to the thread's
    /// name table when new, and the sample's id is its index there.
    /// Outside `Running`, nothing happens.
    pub fn begin_cpu_sample(
        &mut self,
        thread_id: u64,
        name: Option<&str>,
        flags: rmtSampleFlags,
        now: u64,
    )
        requires
            old(self).wf(),
        ensures
            final(self).wf(),
            final(self).state() == old(self).state(),
            old(self).state() != LifecycleState::Running ==> final(self).contexts() == old(
                self,
            ).contexts(),
            old(self).state() == LifecycleState::Running ==> final(self).began(
                *old(self),
                thread_id,
                name,
                flags,
                now,
            ),
    {
        if self.state != LifecycleState::Running {
            return;
        }
        let bits = flags.bits();
        let mut c = self.take_context(thread_id);
        let ghost b0 = c.buffer();
        proof {
            c.lemma_buffer_wf();
        }
        let id = c.begin_sample(name, bits, now);
        let ghost names = c.names();
        self.put_context(c);
        proof {
            let l = label_view(name);
            self.threads@[thread_id].lemma_names_distinct();
            assert(names[id as int] == l);
            crate::thread::lemma_distinct_index(names, id as int);
            assert(self.contexts().remove(thread_id) =~= old(self).contexts().remove(thread_id));
            if b0.records.len() < usize::MAX {
                assert(self.buffers() =~= sample_effect(
                    old(self).state(),
                    old(self).buffers(),
                    thread_id,
                    Call::Begin { name: id, flags: bits, now },
                ));
            } else {
                assert(self.buffers() =~= old(self).buffers().insert(thread_id, b0));
            }
        }
    }

    /// What a begin on a running instance did, seen from `self` after it:
    /// thread `t` is registered, other threads are untouched, `t`'s name
    /// table has the label (added at the end when new), its display name,
    /// pending tree and counters are kept, and its buffer took the begin
    /// with the label's index as the name (unless it was full).
    pub open spec fn began(
        &self,
        o: Remotery,
        t: u64,
        name: Option<&str>,
        flags: rmtSampleFlags,
        now: u64,
    ) -> bool {
        &&& self.contexts().contains_key(t)
        &&& self.contexts().remove(t) == o.contexts().remove(t)
        &&& self.names_of(t) == names_after(o.names_of(t), label_view(name))
        &&& self.display_of(t) == o.display_of(t)
        &&& self.pending_of(t) == o.pending_of(t)
        &&& self.dropped_of(t) == o.dropped_of(t)
        &&& self.sent_of(t) == o.sent_of(t)
        &&& buffer_in(o.buffers(), t).records.len() < usize::MAX ==> self.buffers() == registry_step(
            o.buffers(),
            t,
            Call::Begin {
                name: self.names_of(t).index_of(label_view(name)) as u64,
                flags: flags.spec_bits(),
                now,
            },
        )
        &&& buffer_in(o.buffers(), t).records.len() == usize::MAX ==> self.buffers() == o.buffers().insert(
            t,
            buffer_in(o.buffers(), t),
        )
    }

    /// Ends the innermost open sample of thread `thread_id` at time `now`;
    /// only that thread's buffer changes. Outside `Running`, nothing
    /// happens.
    pub fn end_cpu_sample(&mut self, thread_id: u64, now: u64)
        requires
            old(self).wf(),
        ensures
            final(self).wf(),
            final(self).state() == old(self).state(),
            final(self).buffers() == sample_effect(
                old(self).state(),
                old(self).buffers(),
                thread_id,
                Call::End { now },
            ),
            old(self).state() != LifecycleState::Running ==> final(self).contexts() == old(
                self,
            ).contexts(),
            old(self).state() == LifecycleState::Running ==> final(self).keeps_all_but_buffer(
                *old(self),
                thread_id,
            ),
    {
        if self.state != LifecycleState::Running {
            proof {
                assert(self.buffers() =~= old(self).buffers());
            }
            return;
        }
        let mut c = self.take_context(thread_id);
        let ghost b0 = c.buffer();
        c.end_sample(now);
        self.put_context(c);
        proof {
            assert(self.contexts().remove(thread_id) =~= old(self).contexts().remove(thread_id));
            assert(self.buffers() =~= sample_effect(
                old(self).state(),
                old(self).buffers(),
                thread_id,
                Call::End { now },
            ));
        }
    }

    /// Hands thread `thread_id`'s closed tree over for sending (see
    /// `flush_effect`). An unknown thread has nothing to hand over.
    pub fn flush_thread(&mut self, thread_id: u64) -> (r: Result<bool, rmtError>)
        requires
            old(self).wf(),
        ensures
            final(self).wf(),
            final(self).state() == old(self).state(),
            !old(self).contexts().contains_key(thread_id) ==> r == Ok::<bool, rmtError>(false)
                && final(self).contexts() == old(self).contexts(),
            old(self).contexts().contains_key(thread_id) ==> {
                &&& final(self).contexts().contains_key(thread_id)
                &&& final(self).contexts().remove(thread_id) == old(self).contexts().remove(thread_id)
                &&& flush_effect(old(self).contexts()[thread_id], final(self).contexts()[thread_id], r)
            },
    {
        if !self.threads.contains_key(&thread_id) {
            return Ok(false);
        }
        let mut c = self.take_context(thread_id);
        let r = c.flush();
        self.put_context(c);
        proof {
            assert(self.contexts().remove(thread_id) =~= old(self).contexts().remove(thread_id));
        }
        r
    }

    /// Takes the tree of thread `thread_id` that waits to be sent.
    pub fn take_pending(&mut self, thread_id: u64) -> (r: Option<Vec<Sample>>)
        requires
            old(self).wf(),
        ensures
            final(self).wf(),
            final(self).state() == old(self).state(),
            !old(self).contexts().contains_key(thread_id) ==> r is None && final(self).contexts()
                == old(self).contexts(),
            old(self).contexts().contains_key(thread_id) ==> final(self).contexts().contains_key(
                thread_id,
            ) && final(self).contexts()[thread_id].pending() is None && match r {
                Some(v) => old(self).contexts()[thread_id].pending() == Some(v@),
                None => old(self).contexts()[thread_id].pending() is None,
            },
            final(self).buffers() == old(self).buffers(),
    {
        if !self.threads.contains_key(&thread_id) {
            return None;
        }
        let mut c = self.take_context(thread_id);
        let r = c.take_pending();
        self.put_context(c);
        proof {
            assert(self.buffers() =~= old(self).buffers());
        }
        r
    }

    /// The names thread `thread_id` added since the last call, with the
    /// index of the first; afterwards all of its names count as sent (see
    /// `ThreadContext::take_unsent_names`).
    pub fn take_unsent_names(&mut self, thread_id: u64) -> (r: (u64, Vec<String>))
        requires
            old(self).wf(),
        ensures
            final(self).wf(),
            final(self).state() == old(self).state(),
            final(self).buffers() == old(self).buffers(),
            !old(self).contexts().contains_key(thread_id) ==> r.1@.len() == 0 && final(self).contexts()
                == old(self).contexts(),
            old(self).contexts().contains_key(thread_id) ==> {
                &&& r.0 == old(self).sent_of(thread_id)
                &&& r.1@.map_values(|s: String| s@) == old(self).names_of(thread_id).skip(
                    old(self).sent_of(thread_id) as int,
                )
                &&& final(self).contexts().contains_key(thread_id)
                &&& final(self).contexts().remove(thread_id) == old(self).contexts().remove(thread_id)
                &&& final(self).sent_of(thread_id) == old(self).names_of(thread_id).len()
                &&& final(self).names_of(thread_id) == old(self).names_of(thread_id)
                &&& final(self).display_of(thread_id) == old(self).display_of(thread_id)
                &&& final(self).pending_of(thread_id) == old(self).pending_of(thread_id)
                &&& final(self).dropped_of(thread_id) == old(self).dropped_of(thread_id)
            },
    {
        if !self.threads.contains_key(&thread_id) {
            return (0, Vec::new());
        }
        let mut c = self.take_context(thread_id);
        let r = c.take_unsent_names();
        self.put_context(c);
        proof {
            assert(self.contexts().remove(thread_id) =~= old(self).contexts().remove(thread_id));
            assert(self.buffers() =~= old(self).buffers());
        }
        r
    }

    /// Forgets thread `thread_id`, as when it exits.
    pub fn unregister_thread(&mut self, thread_id: u64)
        requires
            old(self).wf(),
        ensures
            final(self).wf(),
            final(self).state() == old(self).state(),
            final(self).contexts() == old(self).contexts().remove(thread_id),
    {
        self.threads.remove(&thread_id);
    }

    /// Whether thread `thread_id` has a context.
    pub fn is_registered(&self, thread_id: u64) -> (r: bool)
        ensures
            r == self.contexts().contains_key(thread_id),
    {
        self.threads.contains_key(&thread_id)
    }

    /// The context of thread `thread_id`, if it has one.
    pub fn context(&self, thread_id: u64) -> (r: Option<&ThreadContext>)
        ensures
            match r {
                Some(c) => self.contexts().contains_key(thread_id) && *c == self.contexts()[thread_id],
                None => !self.contexts().contains_key(thread_id),
            },
    {
        self.threads.get(&thread_id)
    }

    /// Begins a sample, as `begin_cpu_sample` does, and returns the scope
    /// that ends it.
    pub fn scope(&mut self, thread_id: u64, name: Option<&str>, flags: rmtSampleFlags, now: u64) -> (r:
        RemoteryScope)
        requires
            old(self).wf(),
        ensures
            final(self).wf(),
            r.thread() == thread_id,
            final(self).state() == old(self).state(),
            old(self).state() != LifecycleState::Running ==> final(self).contexts() == old(
                self,
            ).contexts(),
            old(self).state() == LifecycleState::Running ==> final(self).began(
                *old(self),
                thread_id,
                name,
                flags,
                now,
            ),
    {
        self.begin_cpu_sample(thread_id, name, flags, now);
        RemoteryScope { thread_id }
    }
}

} // verus!
