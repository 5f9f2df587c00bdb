//! The Line Reader's decision core: what event, if any, one read of the
//! socket produces. The blocking read itself happens outside the library;
//! this module decides, for each outcome, whether the reader emits a
//! message, stays silent, or announces its own termination.

use vstd::prelude::*;
use crate::sanitize::sanitize;
use crate::sanitize::sanitize_spec;

verus! {

/// The kind of event a Line Reader hands to the Coordinator.
#[derive(Clone, Copy, Debug, PartialEq, Eq, Structural)]
pub enum PayloadSignal {
    MessageSignal,
    InterruptSignal,
}

/// One event from a Line Reader: a sanitized message, or the reader's
/// final interrupt notice. An interrupt carries no message.
#[derive(Debug)]
pub struct Payload {
    pub signal: PayloadSignal,
    pub message: Option<Vec<u8>>,
}

/// What one blocking read of the connection's socket produced: a chunk of
/// bytes, an orderly end of stream, or a read error.
#[derive(Debug)]
pub enum ReadOutcome {
    Data(Vec<u8>),
    Eof,
    Failed,
}

/// The message text a reader relays for one received chunk, if any:
/// a chunk that reaches `max_buffer` bytes is dropped whole, and a chunk
/// that sanitizes to nothing is silently discarded.
pub open spec fn reader_message(data: Seq<u8>, max_buffer: nat) -> Option<Seq<u8>> {
    if data.len() >= max_buffer {
        None
    } else if sanitize_spec(data).len() == 0 {
        None
    } else {
        Some(sanitize_spec(data))
    }
}

/// Whether one read outcome ends the reader: end of stream or a read error.
pub open spec fn is_terminal(outcome: ReadOutcome) -> bool {
    outcome is Eof || outcome is Failed
}

/// The events one reader emits for a whole sequence of read outcomes, in
/// read order: each chunk contributes its message event, if any, and the
/// first terminal outcome emits the interrupt and ends the run.
pub open spec fn reader_events(outcomes: Seq<ReadOutcome>, max_buffer: nat) -> Seq<
    (PayloadSignal, Option<Seq<u8>>),
>
    decreases outcomes.len(),
{
    if outcomes.len() == 0 {
        Seq::empty()
    } else if is_terminal(outcomes.first()) {
        seq![(PayloadSignal::InterruptSignal, None::<Seq<u8>>)]
    } else {
        let head: Seq<(PayloadSignal, Option<Seq<u8>>)> = match outcomes.first() {
            ReadOutcome::Data(d) => match reader_message(d@, max_buffer) {
                Some(m) => seq![(PayloadSignal::MessageSignal, Some(m))],
                None => Seq::empty(),
            },
            _ => Seq::empty(),
        };
        head + reader_events(outcomes.drop_first(), max_buffer)
    }
}

/// Decide what one read outcome makes the reader do.
///
/// End of stream and read errors are treated alike: the reader emits exactly
/// one interrupt and then terminates. A data chunk yields at most one
/// message event, per `reader_message`; it never terminates the reader.
pub fn process_read(outcome: ReadOutcome, max_buffer: usize) -> (r: Option<Payload>)
    ensures
        (outcome is Eof || outcome is Failed) ==> (r matches Some(p) && p.signal
            is InterruptSignal && p.message is None),
        outcome matches ReadOutcome::Data(d) ==> (match reader_message(
            d@,
            max_buffer as nat,
        ) {
            None => r is None,
            Some(m) => r matches Some(p) && p.signal is MessageSignal && (p.message matches Some(t)
                && t@ == m),
        }),
{
    match outcome {
        ReadOutcome::Eof | ReadOutcome::Failed => Some(
            Payload { signal: PayloadSignal::InterruptSignal, message: None },
        ),
        ReadOutcome::Data(d) => {
            if d.len() >= max_buffer {
                None
            } else {
                let text = sanitize(&d);
                if text.len() == 0 {
                    None
                } else {
                    Some(Payload { signal: PayloadSignal::MessageSignal, message: Some(text) })
                }
            }
        },
    }
}

} // verus!
