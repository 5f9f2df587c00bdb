//! Laws of the relay core, stated over the same spec functions the
//! executable contracts use: admission, relay fan-out, disconnect
//! propagation, and idempotent teardown.

use vstd::prelude::*;
use crate::reader::is_terminal;
use crate::reader::reader_events;
use crate::reader::PayloadSignal;
use crate::reader::ReadOutcome;
use crate::registry::lemma_filter_all;
use crate::registry::lemma_filter_member;
use crate::registry::lemma_filter_unique;
use crate::registry::not_name;
use crate::registry::unique_names;
use crate::server::accept_next;
use crate::server::admit_spec;
use crate::server::line_spec;
use crate::server::payload_action;
use crate::server::payload_next;

verus! {

/// The broadcast actions produced when `sender` sends the messages of
/// `msgs` in order while the registry holds `reg`: one action per message,
/// in the order sent. Message events never mutate the registry
/// (`payload_next` keeps it), so the same `reg` governs every send.
pub open spec fn relay_actions(reg: Seq<Seq<u8>>, sender: Seq<u8>, msgs: Seq<Seq<u8>>) -> Seq<
    (Seq<u8>, Seq<Seq<u8>>),
> {
    Seq::new(
        msgs.len(),
        |i: int| payload_action(reg, sender, PayloadSignal::MessageSignal, Some(msgs[i]))->0,
    )
}

/// Relay fan-out and order: while `a`, `b` (and any others) stay
/// connected, a sequence of N message events from `a` yields exactly N
/// broadcasts, the i-th carrying the line for `a`'s i-th message; each
/// broadcast is addressed to `b` exactly once (targets stay unique), and
/// none is addressed back to `a`. Message events leave the registry as it
/// was, so the sequence of sends changes no state.
pub proof fn lemma_relay_in_order(reg: Seq<Seq<u8>>, a: Seq<u8>, b: Seq<u8>, msgs: Seq<Seq<u8>>)
    requires
        unique_names(reg),
        reg.contains(b),
        b != a,
    ensures
        payload_next(reg, a, PayloadSignal::MessageSignal) == reg,
        relay_actions(reg, a, msgs).len() == msgs.len(),
        forall|i: int|
            0 <= i < msgs.len() ==> (#[trigger] relay_actions(reg, a, msgs)[i]).0 == line_spec(
                a,
                msgs[i],
            ),
        forall|i: int|
            0 <= i < msgs.len() ==> (#[trigger] relay_actions(reg, a, msgs)[i]).1.contains(b),
        forall|i: int|
            0 <= i < msgs.len() ==> unique_names((#[trigger] relay_actions(reg, a, msgs)[i]).1),
        forall|i: int|
            0 <= i < msgs.len() ==> !(#[trigger] relay_actions(reg, a, msgs)[i]).1.contains(a),
{
    let pred = not_name(a);
    let targets = reg.filter(pred);
    let k = choose|k: int| 0 <= k < reg.len() && reg[k] == b;
    assert(pred(reg[k]));
    reg.lemma_filter_contains(pred, k);
    lemma_filter_unique(reg, pred);
    assert(!targets.contains(a)) by {
        if targets.contains(a) {
            let j = choose|j: int| 0 <= j < targets.len() && targets[j] == a;
            reg.lemma_filter_pred(pred, j);
        }
    }
    assert forall|i: int| 0 <= i < msgs.len() implies (#[trigger] relay_actions(reg, a, msgs)[i]).1
        == targets by {}
}

/// Admission: with capacity `cap`, an attempt by an untracked identity
/// while `cap` connections are live is refused and changes nothing, while
/// an attempt with free capacity, or by an identity already tracked, is
/// admitted.
pub proof fn lemma_admission(reg: Seq<Seq<u8>>, cap: nat, name: Seq<u8>)
    ensures
        reg.len() == cap && !reg.contains(name) ==> !admit_spec(reg, cap, name) && accept_next(
            reg,
            cap,
            name,
        ) == reg,
        reg.len() != cap || reg.contains(name) ==> admit_spec(reg, cap, name),
{
}

/// Disconnect propagation: once `d`'s interrupt is dispatched, `d` is no
/// longer tracked, and no broadcast caused by a later message event is
/// addressed to `d` (no write after close), as long as `d` has not been
/// admitted again.
pub proof fn lemma_disconnect_propagation(
    reg: Seq<Seq<u8>>,
    d: Seq<u8>,
    sender: Seq<u8>,
    msg: Seq<u8>,
)
    requires
        unique_names(reg),
    ensures
        !payload_next(reg, d, PayloadSignal::InterruptSignal).contains(d),
        payload_action(
            payload_next(reg, d, PayloadSignal::InterruptSignal),
            sender,
            PayloadSignal::MessageSignal,
            Some(msg),
        ) matches Some(act) ==> !act.1.contains(d),
{
    let gone = not_name(d);
    let reg2 = reg.filter(gone);
    assert(!reg2.contains(d)) by {
        if reg2.contains(d) {
            let j = choose|j: int| 0 <= j < reg2.len() && reg2[j] == d;
            reg.lemma_filter_pred(gone, j);
        }
    }
    let keep = not_name(sender);
    assert(!reg2.filter(keep).contains(d)) by {
        if reg2.filter(keep).contains(d) {
            lemma_filter_member(reg2, keep, d);
        }
    }
}

/// One interrupt per connection, and last: however many reads a
/// connection's stream yields, any interrupt the reader emits is its final
/// event, and it emits one exactly when the stream ends or fails.
pub proof fn lemma_one_interrupt_and_last(outcomes: Seq<ReadOutcome>, max_buffer: nat)
    ensures
        forall|i: int|
            0 <= i < reader_events(outcomes, max_buffer).len() && (#[trigger] reader_events(
                outcomes,
                max_buffer,
            )[i]).0 is InterruptSignal ==> i == reader_events(outcomes, max_buffer).len() - 1,
        (exists|i: int| 0 <= i < outcomes.len() && is_terminal(#[trigger] outcomes[i]))
            <==> (reader_events(outcomes, max_buffer).len() > 0 && reader_events(
            outcomes,
            max_buffer,
        ).last().0 is InterruptSignal),
    decreases outcomes.len(),
{
    let es = reader_events(outcomes, max_buffer);
    if outcomes.len() == 0 {
    } else if is_terminal(outcomes.first()) {
        assert(is_terminal(outcomes[0]));
    } else {
        let rest = outcomes.drop_first();
        let rest_es = reader_events(rest, max_buffer);
        lemma_one_interrupt_and_last(rest, max_buffer);
        let p = es.len() - rest_es.len();
        assert(0 <= p <= 1);
        assert forall|i: int| 0 <= i < es.len() && (#[trigger] es[i]).0
            is InterruptSignal implies i == es.len() - 1 by {
            if i >= p {
                assert(es[i] == rest_es[i - p]);
            }
        }
        if exists|i: int| 0 <= i < outcomes.len() && is_terminal(#[trigger] outcomes[i]) {
            let i = choose|i: int| 0 <= i < outcomes.len() && is_terminal(#[trigger] outcomes[i]);
            assert(is_terminal(rest[i - 1]));
            assert(es.last() == rest_es.last());
        }
        if es.len() > 0 && es.last().0 is InterruptSignal {
            assert(es.last() == rest_es[es.len() - 1 - p]);
            assert(rest_es.len() > 0 && rest_es.last().0 is InterruptSignal);
            let i = choose|i: int| 0 <= i < rest.len() && is_terminal(#[trigger] rest[i]);
            assert(is_terminal(outcomes[i + 1]));
        }
    }
}

/// Idempotent teardown: dispatching a second interrupt for the same
/// identity finds nothing left to remove and is a no-op.
pub proof fn lemma_teardown_idempotent(reg: Seq<Seq<u8>>, d: Seq<u8>)
    ensures
        payload_next(
            payload_next(reg, d, PayloadSignal::InterruptSignal),
            d,
            PayloadSignal::InterruptSignal,
        ) == payload_next(reg, d, PayloadSignal::InterruptSignal),
{
    let gone = not_name(d);
    let reg2 = reg.filter(gone);
    assert(forall|i: int| 0 <= i < reg2.len() ==> gone(#[trigger] reg2[i])) by {
        assert forall|i: int| 0 <= i < reg2.len() implies gone(#[trigger] reg2[i]) by {
            reg.lemma_filter_pred(gone, i);
        }
    }
    lemma_filter_all(reg2, gone);
}

} // verus!
