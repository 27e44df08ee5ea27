//! The pull interface: the second pass over the tokenizer's buffered events.

use vstd::prelude::*;
use std::collections::{HashSet, VecDeque};
use crate::event::{Event, Tag};
use crate::model::{
    emitted, flags_step, is_emitted, lemma_flags_step, lemma_stack_depth, loose_flags, next_survivor,
    offset_after, scope_depth,
};

verus! {

/// Replays a fully tokenized document, one event at a time, dropping the
/// paragraph markers of tight lists.
pub struct Parser {
    /// The events not yet consumed, with their offsets.
    pending: VecDeque<(Event, usize)>,
    /// The offset of the last consumed event.
    offset: usize,
    /// The start offsets of the lists that are loose.
    loose_lists: HashSet<usize>,
    /// The looseness of each open list or block-quote scope, innermost last.
    loose_stack: Vec<bool>,
    /// The whole buffer as it was handed over.
    buffer: Ghost<Seq<(Event, usize)>>,
}

impl Parser {
    /// The whole buffer of positioned events, consumed or not.
    pub closed spec fn events(self) -> Seq<(Event, usize)> {
        self.buffer@
    }

    /// The start offsets of the loose lists.
    pub closed spec fn loose_offsets(self) -> Set<usize> {
        self.loose_lists@
    }

    /// How many events of the buffer have been consumed.
    pub closed spec fn consumed(self) -> nat {
        (self.buffer@.len() - self.pending@.len()) as nat
    }

    /// The looseness of each open scope, outermost first.
    pub closed spec fn scope_stack(self) -> Seq<bool> {
        self.loose_stack@
    }

    /// The offset reported to consumers.
    pub closed spec fn current_offset(self) -> usize {
        self.offset
    }

    /// The pending events are the unconsumed tail of the buffer, and the
    /// scope stack and the offset are those that the consumed prefix gives.
    pub closed spec fn wf(self) -> bool {
        &&& self.pending@.len() <= self.buffer@.len()
        &&& self.pending@ == self.buffer@.skip(self.consumed() as int)
        &&& self.loose_stack@ == loose_flags(self.buffer@, self.loose_lists@, self.consumed())
        &&& self.offset == offset_after(self.buffer@, self.consumed())
    }

    /// The state that every well-formed parser is in, in terms of the model.
    pub proof fn lemma_wf_state(self)
        requires
            self.wf(),
        ensures
            self.consumed() <= self.events().len(),
            self.scope_stack() == loose_flags(self.events(), self.loose_offsets(), self.consumed()),
            self.current_offset() == offset_after(self.events(), self.consumed()),
            self.scope_stack().len() == scope_depth(self.events(), self.consumed()),
    {
        lemma_stack_depth(self.events(), self.loose_offsets(), self.consumed());
    }

    /// Two parsers over the same events and loose offsets that have consumed
    /// as many events agree: on the events emitted so far, on the offset they
    /// report, on their open scopes, and on what their next call returns.
    pub proof fn lemma_determinism(p: Parser, q: Parser)
        requires
            p.wf(),
            q.wf(),
            p.events() == q.events(),
            p.loose_offsets() == q.loose_offsets(),
            p.consumed() == q.consumed(),
        ensures
            emitted(p.events(), p.loose_offsets(), p.consumed()) == emitted(
                q.events(),
                q.loose_offsets(),
                q.consumed(),
            ),
            p.current_offset() == q.current_offset(),
            p.scope_stack() == q.scope_stack(),
            next_survivor(p.events(), p.loose_offsets(), p.consumed()) == next_survivor(
                q.events(),
                q.loose_offsets(),
                q.consumed(),
            ),
    {
    }

    /// A parser over a tokenized document: its events with their offsets, in
    /// order, and the start offsets of the lists found to be loose.
    pub fn new(events: Vec<(Event, usize)>, loose_lists: HashSet<usize>) -> (p: Parser)
        ensures
            p.wf(),
            p.events() == events@,
            p.loose_offsets() == loose_lists@,
            p.consumed() == 0,
            p.scope_stack() == Seq::<bool>::empty(),
            p.current_offset() == 0,
    {
        let ghost all = events@;
        let mut rest = events;
        let mut pending: VecDeque<(Event, usize)> = VecDeque::new();
        while rest.len() > 0
            invariant
                rest@ + pending@ == all,
            decreases rest.len(),
        {
            let ghost before = pending@;
            let ghost rest_before = rest@;
            match rest.pop() {
                Some(item) => {
                    pending.push_front(item);
                    assert(rest@ + pending@ =~= rest_before + before);
                },
                None => {},
            }
        }
        assert(rest@ =~= Seq::<(Event, usize)>::empty());
        assert(pending@ =~= all);
        let p = Parser {
            pending,
            offset: 0,
            loose_lists,
            loose_stack: Vec::new(),
            buffer: Ghost(all),
        };
        assert(p.pending@ =~= p.buffer@.skip(0));
        assert(p.loose_stack@ =~= loose_flags(all, p.loose_lists@, 0));
        p
    }

    /// The offset of the most recently consumed event, whether it was
    /// emitted or dropped; zero before the first.
    pub fn get_offset(&self) -> (r: usize)
        requires
            self.wf(),
        ensures
            r == offset_after(self.events(), self.consumed()),
    {
        self.offset
    }

    /// The next event that survives, or `None` once the buffer is exhausted.
    /// Consumes every dropped event before it.
    pub fn next(&mut self) -> (r: Option<Event>)
        requires
            old(self).wf(),
        ensures
            final(self).wf(),
            final(self).events() == old(self).events(),
            final(self).loose_offsets() == old(self).loose_offsets(),
            ({
                let events = old(self).events();
                let k = next_survivor(events, old(self).loose_offsets(), old(self).consumed());
                if k < events.len() {
                    &&& r == Some(events[k as int].0)
                    &&& final(self).consumed() == k + 1
                } else {
                    &&& r is None
                    &&& final(self).consumed() == events.len()
                }
            }),
            emitted(final(self).events(), final(self).loose_offsets(), final(self).consumed())
                == emitted(old(self).events(), old(self).loose_offsets(), old(self).consumed())
                + match r {
                Some(e) => seq![e],
                None => Seq::<Event>::empty(),
            },
    {
        let ghost events = self.buffer@;
        let ghost loose = self.loose_lists@;
        let ghost start = self.consumed();
        loop
            invariant
                self.wf(),
                self.buffer@ == events,
                self.loose_lists@ == loose,
                events == old(self).buffer@,
                loose == old(self).loose_lists@,
                start == old(self).consumed(),
                start <= self.consumed(),
                next_survivor(events, loose, self.consumed()) == next_survivor(events, loose, start),
                emitted(events, loose, self.consumed()) == emitted(events, loose, start),
            decreases self.pending@.len(),
        {
            let ghost c = self.consumed();
            let ghost stack_before = self.loose_stack@;
            match self.pending.pop_front() {
                Some((event, offset)) => {
                    assert(events[c as int] == (event, offset));
                    proof {
                        lemma_flags_step(events, loose, c);
                    }
                    self.offset = offset;
                    let mut keep = true;
                    match &event {
                        Event::Start(Tag::List(_)) => {
                            let is_loose = self.loose_lists.contains(&offset);
                            self.loose_stack.push(is_loose);
                        },
                        Event::Start(Tag::BlockQuote) => {
                            self.loose_stack.push(true);
                        },
                        Event::Start(Tag::Paragraph) | Event::End(Tag::Paragraph) => {
                            let n = self.loose_stack.len();
                            if n > 0 && !self.loose_stack[n - 1] {
                                keep = false;
                            }
                        },
                        Event::End(Tag::List(_)) | Event::End(Tag::BlockQuote) => {
                            let _ = self.loose_stack.pop();
                        },
                        _ => {},
                    }
                    assert(self.loose_stack@ =~= flags_step(stack_before, event, offset, loose));
                    assert(self.pending@ =~= events.skip((c + 1) as int));
                    assert(keep == is_emitted(events, loose, c));
                    if keep {
                        return Some(event);
                    }
                },
                None => {
                    return None;
                },
            }
        }
    }
}

} // verus!
