use ss_proxy::log::im;
use ss_proxy::ss::network_event::{on_event, EventFlags, EventStep};

fn flags(error: bool, readable: bool, read_closed: bool, writable: bool, write_closed: bool) -> EventFlags {
    EventFlags { error, readable, read_closed, writable, write_closed }
}

#[test]
fn im_appends_a_newline() {
    assert_eq!(im("hello".to_string()), "hello\n");
    assert_eq!(im(String::new()), "\n");
}

#[test]
fn error_events_are_handled_alone() {
    assert_eq!(on_event(&flags(true, true, false, true, false)), vec![EventStep::Error]);
}

#[test]
fn write_side_before_read_side() {
    assert_eq!(on_event(&flags(false, true, false, true, false)), vec![EventStep::Writable, EventStep::Read]);
    assert_eq!(on_event(&flags(false, true, true, true, true)), vec![EventStep::WriteClosed, EventStep::ReadClosed]);
    assert_eq!(on_event(&flags(false, false, false, true, false)), vec![EventStep::Writable]);
    assert_eq!(on_event(&flags(false, true, false, false, false)), vec![EventStep::Read]);
    assert_eq!(on_event(&flags(false, false, false, false, false)), Vec::<EventStep>::new());
}
