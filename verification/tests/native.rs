use trex::expressions::Value;
use trex::native::{insert_queue, m_get_publish, m_publish, m_subscribe, pop_queue, ConnQueues, QueueListener};
use trex::tuples::{Event, Tuple};

fn ev(ty_id: usize, time: i64) -> Event {
    Event { tuple: Tuple { ty_id, data: vec![Value::Int(time)] }, time }
}

#[test]
fn queues_are_first_in_first_out() {
    let mut queues = ConnQueues::new();
    insert_queue(&mut queues, "a".to_owned(), ev(1, 10));
    insert_queue(&mut queues, "a".to_owned(), ev(2, 20));
    insert_queue(&mut queues, "b".to_owned(), ev(3, 30));
    assert_eq!(pop_queue(&mut queues, "a".to_owned()).map(|e| e.time), Some(10));
    assert_eq!(pop_queue(&mut queues, "a".to_owned()).map(|e| e.time), Some(20));
    assert!(pop_queue(&mut queues, "a".to_owned()).is_none());
    assert_eq!(pop_queue(&mut queues, "b".to_owned()).map(|e| e.time), Some(30));
}

#[test]
fn popping_an_unknown_connection_makes_its_queue() {
    let mut queues = ConnQueues::new();
    assert!(queues.conn_ids().is_empty());
    assert!(pop_queue(&mut queues, "c".to_owned()).is_none());
    assert_eq!(queues.conn_ids(), vec!["c".to_owned()]);
    assert_eq!(queues.get_queue(&"c".to_owned()).map(|q| q.len()), Some(0));
    assert!(queues.get_queue(&"d".to_owned()).is_none());
}

#[test]
fn queue_listener_queues_for_its_connection() {
    let mut queues = ConnQueues::new();
    let listener = QueueListener::new("conn-1".to_owned());
    assert_eq!(listener.conn_id(), "conn-1");
    listener.receive(&mut queues, &ev(4, 40));
    listener.receive(&mut queues, &ev(5, 50));
    let q = queues.get_queue(&"conn-1".to_owned()).unwrap();
    // newest first
    assert_eq!(q.iter().map(|e| e.time).collect::<Vec<_>>(), vec![50, 40]);
}

#[test]
fn shared_vectors_give_each_subscriber_every_event() {
    let mut vectors: Vec<Vec<Event>> = Vec::new();
    m_subscribe(&mut vectors);
    m_publish(&mut vectors, ev(1, 1));
    m_subscribe(&mut vectors);
    m_publish(&mut vectors, ev(2, 2));
    assert_eq!(m_get_publish(&mut vectors, 0).map(|e| e.time), Some(2));
    assert_eq!(m_get_publish(&mut vectors, 0).map(|e| e.time), Some(1));
    assert!(m_get_publish(&mut vectors, 0).is_none());
    assert_eq!(m_get_publish(&mut vectors, 1).map(|e| e.time), Some(2));
    assert!(m_get_publish(&mut vectors, 1).is_none());
}
