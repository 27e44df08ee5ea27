//! The mathematical model of the normalizing pass over a buffer of
//! positioned events, and the laws that it obeys.

use vstd::prelude::*;
use crate::event::{Event, Tag, opens_scope, closes_scope, is_paragraph_marker};

verus! {

/// Indices of the events that opened the scopes still open after the first
/// `n` events, outermost first. A closing event with no open scope is ignored.
pub open spec fn open_scopes(events: Seq<(Event, usize)>, n: nat) -> Seq<nat>
    decreases n,
{
    if n == 0 {
        Seq::empty()
    } else {
        let prev = open_scopes(events, (n - 1) as nat);
        let e = events[n - 1].0;
        if opens_scope(e) {
            prev.push((n - 1) as nat)
        } else if closes_scope(e) && prev.len() > 0 {
            prev.drop_last()
        } else {
            prev
        }
    }
}

/// Whether the scope opened by the event at index `i` keeps its paragraphs:
/// a list when its offset is in `loose`, a block quote always.
pub open spec fn scope_is_loose(events: Seq<(Event, usize)>, loose: Set<usize>, i: nat) -> bool {
    match events[i as int].0 {
        Event::Start(Tag::List(_)) => loose.contains(events[i as int].1),
        _ => true,
    }
}

/// The looseness of each scope open after the first `n` events, outermost first.
pub open spec fn loose_flags(events: Seq<(Event, usize)>, loose: Set<usize>, n: nat) -> Seq<bool> {
    open_scopes(events, n).map_values(|i: nat| scope_is_loose(events, loose, i))
}

/// Number of scopes open after the first `n` events: the opening events
/// less the closing ones, never below zero.
pub open spec fn scope_depth(events: Seq<(Event, usize)>, n: nat) -> nat
    decreases n,
{
    if n == 0 {
        0
    } else {
        let prev = scope_depth(events, (n - 1) as nat);
        let e = events[n - 1].0;
        if opens_scope(e) {
            prev + 1
        } else if closes_scope(e) && prev > 0 {
            (prev - 1) as nat
        } else {
            prev
        }
    }
}

/// Whether the event at index `i` survives: it is dropped only when it is a
/// paragraph marker and the innermost open scope is a tight list.
pub open spec fn is_emitted(events: Seq<(Event, usize)>, loose: Set<usize>, i: nat) -> bool {
    let flags = loose_flags(events, loose, i);
    !(is_paragraph_marker(events[i as int].0) && flags.len() > 0 && !flags.last())
}

/// The events emitted while the first `n` events of the buffer are consumed.
pub open spec fn emitted(events: Seq<(Event, usize)>, loose: Set<usize>, n: nat) -> Seq<Event>
    decreases n,
{
    if n == 0 {
        Seq::empty()
    } else {
        let prev = emitted(events, loose, (n - 1) as nat);
        if is_emitted(events, loose, (n - 1) as nat) {
            prev.push(events[n - 1].0)
        } else {
            prev
        }
    }
}

/// Index of the first surviving event at or after `from`, or the length of
/// the buffer when none is left.
pub open spec fn next_survivor(events: Seq<(Event, usize)>, loose: Set<usize>, from: nat) -> nat
    decreases events.len() - from,
{
    if from >= events.len() {
        events.len()
    } else if is_emitted(events, loose, from) {
        from
    } else {
        next_survivor(events, loose, from + 1)
    }
}

/// The offset of the last event among the first `n`, or zero before any.
pub open spec fn offset_after(events: Seq<(Event, usize)>, n: nat) -> usize {
    if n == 0 {
        0
    } else {
        events[n - 1].1
    }
}

/// The looseness flags after one more event, from those before it.
pub open spec fn flags_step(flags: Seq<bool>, e: Event, offset: usize, loose: Set<usize>) -> Seq<bool> {
    match e {
        Event::Start(Tag::List(_)) => flags.push(loose.contains(offset)),
        Event::Start(Tag::BlockQuote) => flags.push(true),
        Event::End(Tag::List(_)) | Event::End(Tag::BlockQuote) => if flags.len() > 0 {
            flags.drop_last()
        } else {
            flags
        },
        _ => flags,
    }
}

/// Consuming one more event changes the looseness flags as `flags_step` says.
pub proof fn lemma_flags_step(events: Seq<(Event, usize)>, loose: Set<usize>, n: nat)
    requires
        n < events.len(),
    ensures
        loose_flags(events, loose, n + 1) == flags_step(
            loose_flags(events, loose, n),
            events[n as int].0,
            events[n as int].1,
            loose,
        ),
{
    let f = |i: nat| scope_is_loose(events, loose, i);
    let prev = open_scopes(events, n);
    assert(open_scopes(events, n + 1) == (if opens_scope(events[n as int].0) {
        prev.push(n)
    } else if closes_scope(events[n as int].0) && prev.len() > 0 {
        prev.drop_last()
    } else {
        prev
    }));
    if opens_scope(events[n as int].0) {
        assert(prev.push(n).map_values(f) =~= prev.map_values(f).push(f(n)));
    } else if closes_scope(events[n as int].0) && prev.len() > 0 {
        assert(prev.drop_last().map_values(f) =~= prev.map_values(f).drop_last());
    }
}

/// The number of looseness flags always equals the number of list and
/// block-quote scopes opened and not yet closed, counted without going
/// below zero.
pub proof fn lemma_stack_depth(events: Seq<(Event, usize)>, loose: Set<usize>, n: nat)
    ensures
        loose_flags(events, loose, n).len() == scope_depth(events, n),
    decreases n,
{
    if n > 0 {
        lemma_stack_depth(events, loose, (n - 1) as nat);
    }
}

/// A paragraph marker whose innermost open scope is a tight list (its start
/// offset is not among the loose ones) is dropped, while every other event
/// in that scope is emitted unchanged.
pub proof fn lemma_tight_list_elision(events: Seq<(Event, usize)>, loose: Set<usize>, i: nat)
    requires
        i < events.len(),
        open_scopes(events, i).len() > 0,
        events[open_scopes(events, i).last() as int].0 matches Event::Start(Tag::List(_)),
        !loose.contains(events[open_scopes(events, i).last() as int].1),
    ensures
        is_paragraph_marker(events[i as int].0) ==> !is_emitted(events, loose, i),
        !is_paragraph_marker(events[i as int].0) ==> is_emitted(events, loose, i),
{
}

/// Every event that is not a paragraph marker is emitted, whatever scope it
/// stands in.
pub proof fn lemma_non_paragraph_kept(events: Seq<(Event, usize)>, loose: Set<usize>, i: nat)
    requires
        i < events.len(),
        !is_paragraph_marker(events[i as int].0),
    ensures
        is_emitted(events, loose, i),
{
}

/// A paragraph marker whose innermost open scope is a loose list is emitted.
pub proof fn lemma_loose_list_preservation(events: Seq<(Event, usize)>, loose: Set<usize>, i: nat)
    requires
        i < events.len(),
        open_scopes(events, i).len() > 0,
        events[open_scopes(events, i).last() as int].0 matches Event::Start(Tag::List(_)),
        loose.contains(events[open_scopes(events, i).last() as int].1),
    ensures
        is_emitted(events, loose, i),
{
}

/// A paragraph marker directly inside a block quote is emitted, whatever
/// lists enclose the quote.
pub proof fn lemma_quote_keeps_paragraphs(events: Seq<(Event, usize)>, loose: Set<usize>, i: nat)
    requires
        i < events.len(),
        open_scopes(events, i).len() > 0,
        events[open_scopes(events, i).last() as int].0 matches Event::Start(Tag::BlockQuote),
    ensures
        is_emitted(events, loose, i),
{
}

/// Only the innermost scope decides: a paragraph marker at `i` directly in a
/// tight list is dropped and one at `j` directly in a loose list is emitted,
/// whichever of the two lists encloses the other.
pub proof fn lemma_nesting_independence(
    events: Seq<(Event, usize)>,
    loose: Set<usize>,
    i: nat,
    j: nat,
)
    requires
        i < events.len(),
        j < events.len(),
        is_paragraph_marker(events[i as int].0),
        is_paragraph_marker(events[j as int].0),
        open_scopes(events, i).len() > 0,
        open_scopes(events, j).len() > 0,
        events[open_scopes(events, i).last() as int].0 matches Event::Start(Tag::List(_)),
        events[open_scopes(events, j).last() as int].0 matches Event::Start(Tag::List(_)),
        !loose.contains(events[open_scopes(events, i).last() as int].1),
        loose.contains(events[open_scopes(events, j).last() as int].1),
    ensures
        !is_emitted(events, loose, i),
        is_emitted(events, loose, j),
{
    lemma_tight_list_elision(events, loose, i);
    lemma_loose_list_preservation(events, loose, j);
}

} // verus!
