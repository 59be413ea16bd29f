//! The output agent: a single worker owns the writer, and any number of
//! producers hand it complete payloads through a FIFO queue. The worker
//! takes payloads one by one and writes each to the transport; the ghost
//! trace of taken payloads models the wire.

use vstd::prelude::*;

verus! {

/// Mathematical model of the output agent: whether it still accepts
/// payloads, the queued payloads, and the trace already on the wire.
pub struct AgentV {
    pub accepting: bool,
    pub queue: Seq<Seq<char>>,
    pub written: Seq<Seq<char>>,
}

/// Submitting a payload: appended to the queue while the agent accepts,
/// rejected afterwards.
pub open spec fn ag_submit(s: AgentV, p: Seq<char>) -> (AgentV, bool) {
    if s.accepting {
        (AgentV { accepting: true, queue: s.queue.push(p), written: s.written }, true)
    } else {
        (s, false)
    }
}

/// One step of the worker: the oldest queued payload moves to the wire.
pub open spec fn ag_work(s: AgentV) -> AgentV {
    if s.queue.len() == 0 {
        s
    } else {
        AgentV {
            accepting: s.accepting,
            queue: s.queue.drop_first(),
            written: s.written.push(s.queue[0]),
        }
    }
}

/// Shutdown: the agent stops accepting; the worker then drains what is
/// queued and exits.
pub open spec fn ag_shutdown(s: AgentV) -> AgentV {
    AgentV { accepting: false, queue: s.queue, written: s.written }
}

/// The wire keeps submission order: the concatenation of what is written
/// and what is queued is the submission order; the worker only moves its
/// head to the wire, and a submit only appends to its tail. So payloads
/// reach the wire exactly in the order they were submitted.
pub proof fn lemma_wire_order(s: AgentV, p: Seq<char>)
    ensures
        ag_work(s).written + ag_work(s).queue == s.written + s.queue,
        ag_submit(s, p).1 ==> ag_submit(s, p).0.written + ag_submit(s, p).0.queue == (s.written
            + s.queue).push(p),
        ag_work(s).written == s.written || ag_work(s).written == s.written.push(s.queue[0]),
        ag_shutdown(s).written + ag_shutdown(s).queue == s.written + s.queue,
{
    if s.queue.len() > 0 {
        assert(ag_work(s).written + ag_work(s).queue =~= s.written + s.queue);
    }
    if s.accepting {
        assert(ag_submit(s, p).0.written + ag_submit(s, p).0.queue =~= (s.written + s.queue).push(
            p,
        ));
    }
}

/// Ordering of two submissions from one producer: after submitting `a` and
/// then `b`, the single total order that the worker writes out holds `a`
/// strictly before `b`.
pub proof fn lemma_submission_order(s: AgentV, a: Seq<char>, b: Seq<char>)
    requires
        s.accepting,
    ensures
        ({
            let s1 = ag_submit(s, a).0;
            let s2 = ag_submit(s1, b).0;
            s2.written + s2.queue == ((s.written + s.queue).push(a)).push(b)
        }),
{
    let s1 = ag_submit(s, a).0;
    let s2 = ag_submit(s1, b).0;
    lemma_wire_order(s, a);
    lemma_wire_order(s1, b);
}

/// The view of a sequence of payload strings.
pub open spec fn view_strings(q: Seq<String>) -> Seq<Seq<char>>
    decreases q,
{
    if q.len() == 0 {
        Seq::empty()
    } else {
        view_strings(q.drop_last()).push(q.last()@)
    }
}

pub proof fn lemma_view_strings_len(q: Seq<String>)
    ensures
        view_strings(q).len() == q.len(),
    decreases q,
{
    if q.len() > 0 {
        lemma_view_strings_len(q.drop_last());
    }
}

pub proof fn lemma_view_strings_index(q: Seq<String>, i: int)
    requires
        0 <= i < q.len(),
    ensures
        view_strings(q).len() == q.len(),
        view_strings(q)[i] == q[i]@,
    decreases q,
{
    lemma_view_strings_len(q);
    assert(view_strings(q) == view_strings(q.drop_last()).push(q.last()@));
    if i < q.len() - 1 {
        lemma_view_strings_index(q.drop_last(), i);
    }
}

proof fn lemma_view_strings_push(q: Seq<String>, p: String)
    ensures
        view_strings(q.push(p)) == view_strings(q).push(p@),
{
    assert(q.push(p).drop_last() =~= q);
    assert(q.push(p).last() == p);
}

proof fn lemma_view_strings_pop(q: Seq<String>)
    requires
        q.len() > 0,
    ensures
        view_strings(q.drop_first()) == view_strings(q).drop_first(),
        view_strings(q)[0] == q[0]@,
    decreases q,
{
    lemma_view_strings_index(q, 0);
    lemma_view_strings_len(q.drop_first());
    assert forall|i: int| 0 <= i < q.len() - 1 implies view_strings(q.drop_first())[i]
        == view_strings(q).drop_first()[i] by {
        lemma_view_strings_index(q.drop_first(), i);
        lemma_view_strings_index(q, i + 1);
    }
    assert(view_strings(q.drop_first()) =~= view_strings(q).drop_first());
}

/// The state of the output agent. The queue holds encoded payloads; the
/// ghost trace records what the worker has taken to write, in order.
pub struct OutputAgent {
    pub accepting: bool,
    pub queue: Vec<String>,
    pub written: Ghost<Seq<Seq<char>>>,
}

impl View for OutputAgent {
    type V = AgentV;

    open spec fn view(&self) -> AgentV {
        AgentV {
            accepting: self.accepting,
            queue: view_strings(self.queue@),
            written: self.written@,
        }
    }
}

impl OutputAgent {
    /// A fresh agent: accepting, with an empty queue and an empty wire.
    pub fn new() -> (r: OutputAgent)
        ensures
            r@ == (AgentV {
                accepting: true,
                queue: Seq::<Seq<char>>::empty(),
                written: Seq::<Seq<char>>::empty(),
            }),
    {
        let r = OutputAgent { accepting: true, queue: Vec::new(), written: Ghost(Seq::empty()) };
        proof {
            assert(view_strings(r.queue@) =~= Seq::<Seq<char>>::empty());
        }
        r
    }

    /// Queues one payload for the worker; rejected once the agent has been
    /// shut down.
    pub fn submit(&mut self, payload: String) -> (r: Result<(), ()>)
        ensures
            match r {
                Ok(_) => ag_submit(old(self)@, payload@) == (final(self)@, true),
                Err(_) => ag_submit(old(self)@, payload@) == (final(self)@, false) && final(self)@
                    == old(self)@,
            },
    {
        if !self.accepting {
            return Err(());
        }
        let ghost pre = self.queue@;
        self.queue.push(payload);
        proof {
            lemma_view_strings_push(pre, self.queue@.last());
        }
        Ok(())
    }

    /// The worker takes the oldest queued payload, recording it as written;
    /// nothing is returned once the queue is empty.
    pub fn take_next(&mut self) -> (r: Option<String>)
        ensures
            match r {
                Some(p) => old(self)@.queue.len() > 0 && p@ == old(self)@.queue[0] && final(self)@
                    == ag_work(old(self)@),
                None => old(self)@.queue.len() == 0 && final(self)@ == old(self)@,
            },
    {
        proof {
            lemma_view_strings_len(self.queue@);
        }
        if self.queue.len() == 0 {
            return None;
        }
        proof {
            lemma_view_strings_pop(self.queue@);
        }
        let p = self.queue.remove(0);
        proof {
            assert(old(self).queue@.drop_first() =~= old(self).queue@.remove(0));
        }
        self.written = Ghost(self.written@.push(p@));
        Some(p)
    }

    /// Stops accepting payloads; the worker drains the queue and exits.
    pub fn begin_shutdown(&mut self)
        ensures
            final(self)@ == ag_shutdown(old(self)@),
    {
        self.accepting = false;
    }
}

} // verus!
