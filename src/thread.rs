use vstd::prelude::*;

use crate::sample::{BufferState, Sample, SampleBuffer};

verus! {

/// The label a sample gets: its name, or `<unnamed>` when it has none.
pub open spec fn label_of(name: Option<Seq<char>>) -> Seq<char> {
    match name {
        Some(n) => if n.len() > 0 {
            n
        } else {
            "<unnamed>"@
        },
        None => "<unnamed>"@,
    }
}

/// The name table after `n` was interned: new names go at the end.
pub open spec fn names_after(names: Seq<Seq<char>>, n: Seq<char>) -> Seq<Seq<char>> {
    if names.contains(n) {
        names
    } else {
        names.push(n)
    }
}

pub open spec fn distinct(names: Seq<Seq<char>>) -> bool {
    forall|i: int, j: int| 0 <= i < j < names.len() ==> names[i] != names[j]
}

/// Two contexts of one thread that differ at most in their buffers.
pub open spec fn same_but_buffer(a: ThreadContext, b: ThreadContext) -> bool {
    &&& b.id() == a.id()
    &&& b.name_view() == a.name_view()
    &&& b.names() == a.names()
    &&& b.pending() == a.pending()
    &&& b.dropped() == a.dropped()
    &&& b.sent() == a.sent()
}

/// What handing a thread's tree over does: with a sample open, nothing
/// and an error; with an empty tree, nothing and `Ok(false)`; otherwise
/// the tree becomes the pending one, the buffer is cleared, a tree that
/// was still pending is dropped and counted, and the result is `Ok(true)`.
pub open spec fn flush_effect(o: ThreadContext, n: ThreadContext, r: Result<bool, crate::error::rmtError>) -> bool {
    &&& n.id() == o.id()
    &&& n.name_view() == o.name_view()
    &&& n.names() == o.names()
    &&& n.sent() == o.sent()
    &&& o.buffer().stack.len() > 0 ==> r == Err::<bool, crate::error::rmtError>(
        crate::error::rmtError::RMT_ERROR_SEND_ON_INCOMPLETE_PROFILE) && n.buffer() == o.buffer()
        && n.pending() == o.pending() && n.dropped() == o.dropped()
    &&& o.buffer().stack.len() == 0 && o.buffer().records.len() == 0 ==> r == Ok::<
        bool,
        crate::error::rmtError,
    >(false) && n.buffer() == o.buffer() && n.pending() == o.pending() && n.dropped() == o.dropped()
    &&& o.buffer().stack.len() == 0 && o.buffer().records.len() > 0 ==> r == Ok::<
        bool,
        crate::error::rmtError,
    >(true) && n.buffer() == o.buffer().cleared() && n.pending() == Some(o.buffer().records)
        && n.dropped() == (if o.pending() is Some {
        crate::sample::sat_add(o.dropped(), 1)
    } else {
        o.dropped()
    })
}

/// The state of one instrumented thread: its display name, the names its
/// samples use (a sample holds an index into this table), the buffer being
/// filled, and the capture interval handed over and not yet sent.
pub struct ThreadContext {
    thread_id: u64,
    display_name: String,
    names: Vec<String>,
    buffer: SampleBuffer,
    pending: Option<Vec<Sample>>,
    dropped: u64,
    names_sent: usize,
}

impl ThreadContext {
    pub closed spec fn id(&self) -> u64 {
        self.thread_id
    }

    pub closed spec fn name_view(&self) -> Seq<char> {
        self.display_name@
    }

    pub closed spec fn names(&self) -> Seq<Seq<char>> {
        self.names@.map_values(|s: String| s@)
    }

    pub closed spec fn buffer(&self) -> BufferState {
        self.buffer.state()
    }

    /// The interval waiting to be sent, if any.
    pub closed spec fn pending(&self) -> Option<Seq<Sample>> {
        match self.pending {
            Some(v) => Some(v@),
            None => None,
        }
    }

    /// How many intervals were dropped because the previous one was not
    /// sent yet.
    pub closed spec fn dropped(&self) -> u64 {
        self.dropped
    }

    /// How many names of the table went out in dictionary entries.
    pub closed spec fn sent(&self) -> nat {
        self.names_sent as nat
    }

    pub closed spec fn wf(&self) -> bool {
        &&& self.names_sent <= self.names.len()
        &&& self.buffer.wf()
        &&& distinct(self.names())
    }

    /// A well-formed context has a well-formed buffer.
    pub proof fn lemma_buffer_wf(&self)
        requires
            self.wf(),
        ensures
            self.buffer().wf(),
    {
    }

    /// A well-formed context holds each name once.
    pub proof fn lemma_names_distinct(&self)
        requires
            self.wf(),
        ensures
            distinct(self.names()),
    {
    }

    pub fn new(thread_id: u64) -> (r: ThreadContext)
        ensures
            r.wf(),
            r.id() == thread_id,
            r.name_view() == Seq::<char>::empty(),
            r.names() == Seq::<Seq<char>>::empty(),
            r.buffer() == BufferState::empty(),
            r.pending() == None::<Seq<Sample>>,
            r.dropped() == 0,
            r.sent() == 0,
    {
        let r = ThreadContext {
            thread_id,
            display_name: String::new(),
            names: Vec::new(),
            buffer: SampleBuffer::new(),
            pending: None,
            dropped: 0,
            names_sent: 0,
        };
        proof {
            assert(r.names() =~= Seq::<Seq<char>>::empty());
        }
        r
    }

    pub fn thread_id(&self) -> (r: u64)
        ensures
            r == self.id(),
    {
        self.thread_id
    }

    pub fn display_name(&self) -> (r: &String)
        ensures
            r@ == self.name_view(),
    {
        &self.display_name
    }

    /// The nodes of the interval being filled, in preorder.
    pub fn records(&self) -> (r: &Vec<Sample>)
        ensures
            r@ == self.buffer().records,
    {
        self.buffer.records()
    }

    /// The text of the name with index `id`.
    pub fn name_at(&self, id: u64) -> (r: Option<&String>)
        ensures
            id < self.names().len() ==> r is Some && r->0@ == self.names()[id as int],
            id >= self.names().len() ==> r is None,
    {
        if id < self.names.len() as u64 {
            Some(&self.names[id as usize])
        } else {
            None
        }
    }

    pub fn set_name(&mut self, name: &str)
        ensures
            final(self).name_view() == name@,
            final(self).id() == old(self).id(),
            final(self).names() == old(self).names(),
            final(self).buffer() == old(self).buffer(),
            final(self).pending() == old(self).pending(),
            final(self).dropped() == old(self).dropped(),
            final(self).sent() == old(self).sent(),
            old(self).wf() ==> final(self).wf(),
    {
        self.display_name = name.to_owned();
    }

    /// The index of `label` in the name table, added at the end if new.
    fn intern(&mut self, label: &str) -> (id: u64)
        requires
            old(self).wf(),
        ensures
            final(self).wf(),
            final(self).names() == names_after(old(self).names(), label@),
            id < final(self).names().len(),
            final(self).names()[id as int] == label@,
            final(self).id() == old(self).id(),
            final(self).name_view() == old(self).name_view(),
            final(self).buffer() == old(self).buffer(),
            final(self).pending() == old(self).pending(),
            final(self).dropped() == old(self).dropped(),
            final(self).sent() == old(self).sent(),
    {
        let owned = label.to_owned();
        let mut i: usize = 0;
        while i < self.names.len()
            invariant
                i <= self.names.len(),
                owned@ == label@,
                *self == *old(self),
                self.wf(),
                forall|j: int| 0 <= j < i ==> self.names()[j] != label@,
            decreases self.names.len() - i,
        {
            if self.names[i] == owned {
                proof {
                    assert(self.names()[i as int] == label@);
                    assert(self.names().contains(label@));
                }
                return i as u64;
            }
            i = i + 1;
        }
        proof {
            assert(!self.names().contains(label@));
        }
        self.names.push(owned);
        proof {
            assert(self.names() =~= old(self).names().push(label@));
        }
        (self.names.len() - 1) as u64
    }

    /// Begins a sample on this thread. A call that would outgrow the
    /// address space is ignored.
    pub fn begin_sample(&mut self, name: Option<&str>, flags: u32, now: u64) -> (id: u64)
        requires
            old(self).wf(),
        ensures
            final(self).wf(),
            final(self).names() == names_after(
                old(self).names(),
                label_of(
                    match name {
                        Some(n) => Some(n@),
                        None => None,
                    },
                ),
            ),
            id < final(self).names().len(),
            final(self).names()[id as int] == label_of(
                match name {
                    Some(n) => Some(n@),
                    None => None,
                },
            ),
            old(self).buffer().records.len() < usize::MAX ==> final(self).buffer() == old(
                self,
            ).buffer().begin(id, flags, now),
            old(self).buffer().records.len() == usize::MAX ==> final(self).buffer() == old(
                self,
            ).buffer(),
            final(self).id() == old(self).id(),
            final(self).name_view() == old(self).name_view(),
            final(self).pending() == old(self).pending(),
            final(self).dropped() == old(self).dropped(),
            final(self).sent() == old(self).sent(),
    {
        let label: &str = match name {
            Some(n) => if n.is_empty() {
                "<unnamed>"
            } else {
                n
            },
            None => "<unnamed>",
        };
        let id = self.intern(label);
        if self.buffer.records().len() < usize::MAX {
            self.buffer.begin(id, flags, now);
        }
        id
    }

    /// Ends the innermost open sample on this thread.
    pub fn end_sample(&mut self, now: u64)
        requires
            old(self).wf(),
        ensures
            final(self).wf(),
            final(self).buffer() == old(self).buffer().end(now),
            same_but_buffer(*old(self), *final(self)),
    {
        self.buffer.end(now);
    }

    /// Hands the closed tree of this interval over for sending. At most one
    /// interval waits: a newer one replaces it and the drop is counted. An
    /// empty interval is not handed over; with a sample open, nothing is
    /// done and the error says so.
    pub fn flush(&mut self) -> (r: Result<bool, crate::error::rmtError>)
        requires
            old(self).wf(),
        ensures
            final(self).wf(),
            flush_effect(*old(self), *final(self), r),
    {
        if self.buffer.open_count() > 0 {
            return Err(crate::error::rmtError::RMT_ERROR_SEND_ON_INCOMPLETE_PROFILE);
        }
        if self.buffer.records().len() == 0 {
            return Ok(false);
        }
        let tree = match self.buffer.take_tree() {
            Ok(t) => t,
            Err(e) => {
                return Err(e);
            },
        };
        if self.pending.is_some() && self.dropped < u64::MAX {
            self.dropped = self.dropped + 1;
        }
        self.pending = Some(tree);
        Ok(true)
    }

    /// The names added to the table since the last call, with the index of
    /// the first; the dictionary entries for them go out before any
    /// snapshot that uses them.
    pub fn take_unsent_names(&mut self) -> (r: (u64, Vec<String>))
        requires
            old(self).wf(),
        ensures
            final(self).wf(),
            r.0 == old(self).sent(),
            r.1@.map_values(|s: String| s@) == old(self).names().skip(old(self).sent() as int),
            final(self).sent() == old(self).names().len(),
            final(self).id() == old(self).id(),
            final(self).name_view() == old(self).name_view(),
            final(self).names() == old(self).names(),
            final(self).buffer() == old(self).buffer(),
            final(self).pending() == old(self).pending(),
            final(self).dropped() == old(self).dropped(),
    {
        let first = self.names_sent;
        let mut out: Vec<String> = Vec::new();
        let mut i: usize = first;
        while i < self.names.len()
            invariant
                first <= i <= self.names.len(),
                *self == *old(self),
                first == old(self).sent(),
                out@.map_values(|s: String| s@) == self.names().subrange(first as int, i as int),
            decreases self.names.len() - i,
        {
            let ghost prev = out@;
            let name = self.names[i].clone();
            out.push(name);
            proof {
                assert(self.names()[i as int] == name@);
                assert(out@ == prev.push(name));
                assert(out@.map_values(|s: String| s@) =~= prev.map_values(|s: String| s@).push(name@));
            }
            i = i + 1;
            proof {
                assert(out@.map_values(|s: String| s@) =~= self.names().subrange(first as int, i as int));
            }
        }
        self.names_sent = self.names.len();
        proof {
            assert(old(self).names().skip(first as int) =~= old(self).names().subrange(
                first as int,
                old(self).names().len() as int,
            ));
        }
        (first as u64, out)
    }

    /// Takes the interval waiting to be sent.
    pub fn take_pending(&mut self) -> (r: Option<Vec<Sample>>)
        ensures
            match r {
                Some(v) => old(self).pending() == Some(v@),
                None => old(self).pending() is None,
            },
            final(self).pending() is None,
            final(self).id() == old(self).id(),
            final(self).name_view() == old(self).name_view(),
            final(self).names() == old(self).names(),
            final(self).buffer() == old(self).buffer(),
            final(self).dropped() == old(self).dropped(),
            final(self).sent() == old(self).sent(),
            old(self).wf() ==> final(self).wf(),
    {
        self.pending.take()
    }
}

} // verus!

verus! {

/// Interning only extends a table of distinct names: every old name keeps
/// its index, the table stays distinct, and the label is found at its
/// index.
pub proof fn lemma_names_after(names: Seq<Seq<char>>, l: Seq<char>)
    requires
        distinct(names),
    ensures
        distinct(names_after(names, l)),
        names_after(names, l).len() >= names.len(),
        forall|i: int| 0 <= i < names.len() ==> #[trigger] names_after(names, l)[i] == names[i],
        names_after(names, l).contains(l),
        0 <= names_after(names, l).index_of(l) < names_after(names, l).len(),
        names_after(names, l)[names_after(names, l).index_of(l)] == l,
        names.contains(l) ==> names_after(names, l).index_of(l) == names.index_of(l),
        !names.contains(l) ==> names_after(names, l).index_of(l) == names.len(),
{
    let n = names_after(names, l);
    if names.contains(l) {
        let i = names.index_of(l);
        assert(names[i] == l);
    } else {
        assert(n[names.len() as int] == l);
        assert(n.contains(l));
        assert forall|i: int, j: int| 0 <= i < j < n.len() implies n[i] != n[j] by {
            if j == names.len() {
                assert(n[i] == names[i]);
                assert(names.contains(names[i]));
            }
        }
        lemma_distinct_index(n, names.len() as int);
    }
    let k = n.index_of(l);
    assert(n[k] == l);
}

/// In a table of distinct names, the index of the name at `i` is `i`.
pub proof fn lemma_distinct_index(names: Seq<Seq<char>>, i: int)
    requires
        distinct(names),
        0 <= i < names.len(),
    ensures
        names.index_of(names[i]) == i,
{
    assert(names.contains(names[i]));
    let j = names.index_of(names[i]);
    assert(names[j] == names[i]);
}

} // verus!
