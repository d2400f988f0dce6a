//! The decisions of the process bridge. The bridge itself owns a child
//! process and a reader that runs beside the caller; what it decides at each
//! step is computed here, from plain values.

use vstd::prelude::*;
use vstd::string::*;
use crate::whitespace::{is_blank, trim_text, trim_text_end, trimmed_end};

verus! {

/// Where the bridge stands: not started, exchanging lines with the child,
/// or cut off from it for good.
#[derive(Debug, Clone, Copy, PartialEq, Eq, Structural)]
pub enum BridgeState {
    Uninitialized,
    Running,
    Closed,
}

/// What one read from the child's output gave.
#[derive(Debug)]
pub enum ReadOutcome {
    /// Nothing more will come.
    EndOfStream,
    /// One line as read, its line ending included.
    Line(String),
    /// The transport failed.
    Failed,
}

/// What the reader does after one read.
#[derive(Debug)]
pub enum ReaderStep {
    /// Put the line on the output queue and read on.
    Publish(String),
    /// Read on.
    Skip,
    /// Leave the loop.
    Stop,
}

/// What to do with a line that is to be sent.
#[derive(Debug)]
pub enum SendDecision {
    /// The bridge has no child to write to.
    NotConnected,
    /// Write these characters to the child's input, then flush.
    Write(String),
}

/// What the reader does after a read: at the end of the stream or on a
/// failure it stops; a line is published without the white space at its end,
/// unless nothing is left of it.
pub open spec fn reader_step_of(outcome: ReadOutcome) -> Option<Option<Seq<char>>> {
    match outcome {
        ReadOutcome::EndOfStream => None,
        ReadOutcome::Failed => None,
        ReadOutcome::Line(line) => if trimmed_end(line@).len() == 0 {
            Some(None)
        } else {
            Some(Some(trimmed_end(line@)))
        },
    }
}

/// A reader's step as plain values: `None` to stop, `Some(None)` to read on,
/// `Some(Some(line))` to publish `line` and read on.
pub open spec fn step_view(step: ReaderStep) -> Option<Option<Seq<char>>> {
    match step {
        ReaderStep::Stop => None,
        ReaderStep::Skip => Some(None),
        ReaderStep::Publish(line) => Some(Some(line@)),
    }
}

/// The state after the reader has taken a step: once it stops, the bridge is
/// closed; until then nothing changes.
pub open spec fn state_after_read(state: BridgeState, step: ReaderStep) -> BridgeState {
    match step {
        ReaderStep::Stop => BridgeState::Closed,
        _ => state,
    }
}

/// The state after an attempt to write: a running bridge stays up if the
/// write and the flush went through and is closed if not.
pub open spec fn state_after_write(state: BridgeState, delivered: bool) -> BridgeState {
    if state == BridgeState::Running && !delivered {
        BridgeState::Closed
    } else {
        state
    }
}

/// The state after a poll of the output queue: a running bridge whose
/// reader is found gone is closed; else nothing changes.
pub open spec fn state_after_poll(state: BridgeState, reader_gone: bool) -> BridgeState {
    if state == BridgeState::Running && reader_gone {
        BridgeState::Closed
    } else {
        state
    }
}

/// What is appended to the display log for queued lines: each line that is
/// not blank, in order, followed by a line feed.
pub open spec fn rendered(lines: Seq<String>) -> Seq<char>
    decreases lines.len(),
{
    if lines.len() == 0 {
        Seq::empty()
    } else if is_blank(lines.last()@) {
        rendered(lines.drop_last())
    } else {
        rendered(lines.drop_last()) + lines.last()@.push('\n')
    }
}

/// Draining the queue in two polls appends what one poll of everything
/// appends: the log does not depend on when the polls fall.
pub proof fn lemma_rendered_concat(first: Seq<String>, second: Seq<String>)
    ensures
        rendered(first + second) == rendered(first) + rendered(second),
    decreases second.len(),
{
    if second.len() == 0 {
        assert(first + second =~= first);
        assert(rendered(first) + rendered(second) =~= rendered(first));
    } else {
        let all = first + second;
        assert(all.drop_last() =~= first + second.drop_last());
        assert(all.last() == second.last());
        lemma_rendered_concat(first, second.drop_last());
        if is_blank(second.last()@) {
        } else {
            assert(rendered(all) =~= rendered(first) + rendered(second));
        }
    }
}

/// Decides what the reader does after one read.
pub fn reader_step(outcome: ReadOutcome) -> (step: ReaderStep)
    ensures
        step_view(step) == reader_step_of(outcome),
{
    match outcome {
        ReadOutcome::EndOfStream => ReaderStep::Stop,
        ReadOutcome::Failed => ReaderStep::Stop,
        ReadOutcome::Line(line) => {
            let kept = trim_text_end(line.as_str());
            if kept.is_empty() {
                ReaderStep::Skip
            } else {
                ReaderStep::Publish(kept.to_owned())
            }
        },
    }
}

/// The state of the bridge after the reader has taken a step.
pub fn after_read(state: BridgeState, step: &ReaderStep) -> (next: BridgeState)
    ensures
        next == state_after_read(state, *step),
{
    match step {
        ReaderStep::Stop => BridgeState::Closed,
        _ => state,
    }
}

/// Decides what to do with a line that is to be sent: a running bridge
/// writes the line and a line feed; any other reports that it is not
/// connected.
pub fn send_line(state: BridgeState, text: &str) -> (decision: SendDecision)
    ensures
        match decision {
            SendDecision::Write(payload) => state == BridgeState::Running && payload@ == text@.push(
                '\n',
            ),
            SendDecision::NotConnected => state != BridgeState::Running,
        },
{
    match state {
        BridgeState::Running => {
            let mut payload = text.to_owned();
            payload.append("\n");
            proof {
                reveal_strlit("\n");
                assert(payload@ =~= text@.push('\n'));
            }
            SendDecision::Write(payload)
        },
        _ => SendDecision::NotConnected,
    }
}

/// The state of the bridge after an attempt to write.
pub fn after_write(state: BridgeState, delivered: bool) -> (next: BridgeState)
    ensures
        next == state_after_write(state, delivered),
{
    match state {
        BridgeState::Running => if delivered {
            BridgeState::Running
        } else {
            BridgeState::Closed
        },
        _ => state,
    }
}

/// The state of the bridge after a poll of the output queue.
pub fn after_poll(state: BridgeState, reader_gone: bool) -> (next: BridgeState)
    ensures
        next == state_after_poll(state, reader_gone),
{
    match state {
        BridgeState::Running => if reader_gone {
            BridgeState::Closed
        } else {
            BridgeState::Running
        },
        _ => state,
    }
}

/// Appends to the display log each queued line that is not blank, in order,
/// followed by a line feed.
pub fn append_output(log: &mut String, lines: &Vec<String>)
    ensures
        final(log)@ == old(log)@ + rendered(lines@),
{
    let ghost before = log@;
    let mut i: usize = 0;
    assert(log@ =~= before + rendered(lines@.take(0)));
    while i < lines.len()
        invariant
            i <= lines@.len(),
            log@ == before + rendered(lines@.take(i as int)),
        decreases lines@.len() - i,
    {
        assert(lines@.take(i + 1).drop_last() =~= lines@.take(i as int));
        assert(lines@.take(i + 1).last() == lines@[i as int]);
        let ghost shown = log@;
        if !trim_text(lines[i].as_str()).is_empty() {
            log.append(lines[i].as_str());
            log.append("\n");
            proof {
                reveal_strlit("\n");
                assert(log@ =~= shown + lines@[i as int]@.push('\n'));
            }
        }
        i += 1;
        assert(log@ =~= before + rendered(lines@.take(i as int)));
    }
    assert(lines@.take(i as int) =~= lines@);
}

/// Once the bridge is closed it stays closed, whatever is read, written or
/// polled.
pub proof fn lemma_closed_is_final(step: ReaderStep, delivered: bool, reader_gone: bool)
    ensures
        state_after_read(BridgeState::Closed, step) == BridgeState::Closed,
        state_after_write(BridgeState::Closed, delivered) == BridgeState::Closed,
        state_after_poll(BridgeState::Closed, reader_gone) == BridgeState::Closed,
{
}

} // verus!
