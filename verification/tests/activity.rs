use tracelogging::activity::{ActivityStack, Write};
use tracelogging::event::Opcode;
use tracelogging::guid::Guid;

fn id(n: u32) -> Guid {
    Guid { data1: n, data2: 0, data3: 0, data4: [0; 8] }
}

#[test]
fn stop_closes_the_activity_just_started() {
    let mut s = ActivityStack::new();
    assert!(!s.has_open_activity());
    let start = s.step(Write::Start(id(1)));
    assert_eq!(start.opcode, Opcode::Start);
    assert_eq!(start.activity.unwrap().data1, 1);
    assert!(s.has_open_activity());
    let stop = s.step(Write::Stop);
    assert_eq!(stop.opcode, Opcode::Stop);
    assert_eq!(stop.activity.unwrap().data1, 1);
    assert!(!s.has_open_activity());
}

#[test]
fn nested_activities_close_in_reverse_order() {
    let mut s = ActivityStack::new();
    s.step(Write::Start(id(1)));
    s.step(Write::Start(id(2)));
    let tagged = s.step(Write::Tagged);
    assert_eq!(tagged.opcode, Opcode::Info);
    assert_eq!(tagged.activity.unwrap().data1, 2);
    assert_eq!(s.step(Write::Stop).activity.unwrap().data1, 2);
    assert_eq!(s.step(Write::Tagged).activity.unwrap().data1, 1);
    assert_eq!(s.step(Write::Stop).activity.unwrap().data1, 1);
    assert!(!s.has_open_activity());
}

#[test]
fn plain_events_carry_no_activity() {
    let mut s = ActivityStack::new();
    let plain = s.step(Write::Plain);
    assert_eq!(plain.opcode, Opcode::Info);
    assert!(plain.activity.is_none());
    assert!(!s.has_open_activity());
}
