use trex::expressions::Value;
use trex::listeners::{CountListener, DebugListener};
use trex::tuples::{Event, Tuple};

#[test]
fn count_listener_counts_and_gives_throughput() {
    let mut l = CountListener { duration: 2, count: 0 };
    let e = Event { tuple: Tuple { ty_id: 0, data: vec![Value::Int(1)] }, time: 0 };
    for _ in 0..5 {
        l.receive(&e);
    }
    assert_eq!(l.count, 5);
    assert_eq!(l.throughput(), 2);
    let _ = DebugListener.clone();
}
