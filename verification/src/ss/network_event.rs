use vstd::prelude::*;

verus! {

/// The readiness flags of one socket event.
#[derive(Debug, Clone, Copy, PartialEq, Eq, Structural)]
pub struct EventFlags {
    pub error: bool,
    pub readable: bool,
    pub read_closed: bool,
    pub writable: bool,
    pub write_closed: bool,
}

/// One handler to run for an event, in the order given.
#[derive(Debug, Clone, Copy, PartialEq, Eq, Structural)]
pub enum EventStep {
    /// Fetch and report the socket error; nothing else runs.
    Error,
    WriteClosed,
    Writable,
    ReadClosed,
    /// Read until the socket is drained, then consume what arrived.
    Read,
}

/// An error event is handled alone; otherwise the write side is handled
/// before the read side, each as closed or ready.
pub open spec fn event_steps_spec(f: EventFlags) -> Seq<EventStep> {
    if f.error {
        seq![EventStep::Error]
    } else {
        (if f.writable {
            seq![if f.write_closed { EventStep::WriteClosed } else { EventStep::Writable }]
        } else {
            Seq::empty()
        }) + (if f.readable {
            seq![if f.read_closed { EventStep::ReadClosed } else { EventStep::Read }]
        } else {
            Seq::empty()
        })
    }
}

/// The handlers that a socket event calls for, in order.
pub fn on_event(flags: &EventFlags) -> (steps: Vec<EventStep>)
    ensures
        steps@ == event_steps_spec(*flags),
{
    let mut steps: Vec<EventStep> = Vec::new();
    if flags.error {
        steps.push(EventStep::Error);
        proof {
            assert(steps@ =~= event_steps_spec(*flags));
        }
        return steps;
    }
    if flags.writable {
        if flags.write_closed {
            steps.push(EventStep::WriteClosed);
        } else {
            steps.push(EventStep::Writable);
        }
    }
    if flags.readable {
        if flags.read_closed {
            steps.push(EventStep::ReadClosed);
        } else {
            steps.push(EventStep::Read);
        }
    }
    proof {
        assert(steps@ =~= event_steps_spec(*flags));
    }
    steps
}

/// An error event runs the error handler alone. Otherwise a writable
/// socket runs exactly one write-side handler (closed or ready) before
/// exactly one read-side handler for a readable socket, and an event that is
/// neither runs nothing.
pub proof fn lemma_event_steps(f: EventFlags)
    ensures
        f.error ==> event_steps_spec(f) == seq![EventStep::Error],
        !f.error ==> event_steps_spec(f).len() == (if f.writable { 1int } else { 0 }) + (if f.readable { 1int } else { 0 }),
        !f.error && f.writable ==> event_steps_spec(f)[0] == (if f.write_closed { EventStep::WriteClosed } else { EventStep::Writable }),
        !f.error && f.readable ==> event_steps_spec(f).last() == (if f.read_closed { EventStep::ReadClosed } else { EventStep::Read }),
        forall|i: int| 0 <= i < event_steps_spec(f).len() ==> !f.error ==> !(#[trigger] event_steps_spec(f)[i] is Error),
{
}

} // verus!
