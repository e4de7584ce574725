use futures::channel::mpsc::channel;
use vectorcxx::memory_queue_client::{
    collect_records, json_field_count, random_batches_with_stream, random_json_event,
    random_simple_event, Event, MemoryQueueClient, ReceiverSlot,
};
use vectorcxx::model::{CxxLogEvent, Field, Value};
use vectorcxx::new_memory_queue_client;

fn record(tag: &str) -> CxxLogEvent {
    CxxLogEvent {
        log_event: Value::Object(vec![Field {
            key: "tag".to_string(),
            value: Value::Bytes(tag.as_bytes().to_vec()),
        }]),
    }
}

#[test]
fn collect_keeps_logs_and_metrics_in_order() {
    let batch = vec![
        Event::Log(record("a")),
        Event::Trace,
        Event::Metric(record("m")),
        Event::Log(record("b")),
        Event::Trace,
    ];
    assert_eq!(collect_records(Some(batch)), vec![record("a"), record("m"), record("b")]);
    assert!(collect_records(Some(vec![])).is_empty());
    assert!(collect_records(Some(vec![Event::Trace])).is_empty());
    assert!(collect_records(None).is_empty());
}

#[test]
fn poll_takes_one_batch_at_a_time() {
    let (mut tx, rx) = channel::<Vec<Event>>(4);
    let mut slot = ReceiverSlot::new(rx);
    let mut client = MemoryQueueClient::new(&mut slot);

    assert!(client.poll().is_empty());
    tx.try_send(vec![Event::Log(record("a")), Event::Metric(record("m"))]).unwrap();
    tx.try_send(vec![Event::Trace, Event::Log(record("b"))]).unwrap();
    assert_eq!(client.poll(), vec![record("a"), record("m")]);
    assert_eq!(client.poll(), vec![record("b")]);
    assert!(client.poll().is_empty());
}

#[test]
fn poll_on_a_closed_channel_gives_nothing() {
    let (mut tx, rx) = channel::<Vec<Event>>(4);
    let mut slot = ReceiverSlot::new(rx);
    let mut client = MemoryQueueClient::new(&mut slot);
    tx.try_send(vec![Event::Log(record("last"))]).unwrap();
    drop(tx);
    assert_eq!(client.poll(), vec![record("last")]);
    assert!(client.poll().is_empty());
    assert!(client.poll().is_empty());
}

#[test]
fn second_client_while_the_first_lives_is_refused() {
    let (_tx, rx) = channel::<Vec<Event>>(1);
    let mut slot = ReceiverSlot::new(rx);
    assert!(slot.is_available());
    let first = MemoryQueueClient::try_new(&mut slot);
    assert!(first.is_some());
    assert!(!slot.is_available());
    assert!(MemoryQueueClient::try_new(&mut slot).is_none());
    assert!(MemoryQueueClient::try_new(&mut slot).is_none());

    first.unwrap().release(&mut slot);
    assert!(slot.is_available());
    let again = MemoryQueueClient::try_new(&mut slot);
    assert!(again.is_some());
    assert!(!slot.is_available());
}

#[test]
fn released_client_hands_the_same_channel_on() {
    let (mut tx, rx) = channel::<Vec<Event>>(4);
    let mut slot = ReceiverSlot::new(rx);
    let first = new_memory_queue_client(&mut slot);
    tx.try_send(vec![Event::Log(record("kept"))]).unwrap();
    first.release(&mut slot);
    let mut second = MemoryQueueClient::new(&mut slot);
    assert_eq!(second.poll(), vec![record("kept")]);
}

#[test]
fn slot_take_and_set() {
    let (_tx, rx) = channel::<Vec<Event>>(1);
    let mut slot = ReceiverSlot::new(rx);
    let taken = slot.take_message_receiver();
    assert!(taken.is_some());
    assert!(slot.take_message_receiver().is_none());
    slot.set_message_receiver(taken.unwrap());
    assert!(slot.is_available());
}

#[test]
fn field_count_of_generated_records() {
    assert_eq!(json_field_count(0), 0);
    assert_eq!(json_field_count(49), 0);
    assert_eq!(json_field_count(50), 1);
    assert_eq!(json_field_count(1024), 20);
}

#[test]
fn generated_json_record() {
    let pairs: Vec<String> = ["k1", "v1", "k2", "v2"].iter().map(|s| s.to_string()).collect();
    let event = random_json_event(&pairs, "{\"k1\":\"v1\",\"k2\":\"v2\"}");
    assert_eq!(
        event.top_level_fields(),
        vec!["_datatype", "_message", "_target_table", "k1", "k2"]
    );
    assert_eq!(event.get_string("k1"), "v1");
    assert_eq!(event.get_string("_message"), "{\"k1\":\"v1\",\"k2\":\"v2\"}");
    assert_eq!(event.get_string("_datatype"), "json");
    assert_eq!(event.get_string("_target_table"), "table_a");
}

#[test]
fn generated_simple_record() {
    let marked = random_simple_event(record("line"));
    assert_eq!(marked.top_level_fields(), vec!["_target_table", "tag"]);
    assert_eq!(marked.get_string("_target_table"), "table_a");
    let again = random_simple_event(marked);
    assert_eq!(again.top_level_fields(), vec!["_target_table", "tag"]);
}

#[test]
fn batches_of_the_chunk_size() {
    let records = |n: usize| (0..n).map(|i| record(&i.to_string())).collect::<Vec<_>>();
    let sizes = |batches: &Vec<Vec<Event>>| batches.iter().map(|b| b.len()).collect::<Vec<_>>();

    let batches = random_batches_with_stream(records(7), 3);
    assert_eq!(sizes(&batches), vec![3, 3, 1]);
    let flat: Vec<Event> = batches.into_iter().flatten().collect();
    let expected: Vec<Event> = records(7).into_iter().map(Event::Log).collect();
    assert_eq!(flat, expected);

    assert_eq!(sizes(&random_batches_with_stream(records(6), 3)), vec![3, 3]);
    assert_eq!(sizes(&random_batches_with_stream(records(2), 3)), vec![2]);
    assert_eq!(sizes(&random_batches_with_stream(records(3), 1)), vec![1, 1, 1]);
    assert!(random_batches_with_stream(records(0), 3).is_empty());
    for n in 0..12usize {
        for size in 1..5usize {
            let got = random_batches_with_stream(records(n), size);
            let want: Vec<Vec<Event>> = records(n)
                .into_iter()
                .map(Event::Log)
                .collect::<Vec<_>>()
                .chunks(size)
                .map(|c| c.iter().map(|e| match e {
                    Event::Log(r) => Event::Log(CxxLogEvent { log_event: copy(&r.log_event) }),
                    _ => Event::Trace,
                }).collect())
                .collect();
            assert_eq!(got, want);
        }
    }
}

fn copy(v: &Value) -> Value {
    match v {
        Value::Bytes(b) => Value::Bytes(b.clone()),
        Value::Regex(p) => Value::Regex(p.clone()),
        Value::Integer(i) => Value::Integer(*i),
        Value::Float(f) => Value::Float(*f),
        Value::Boolean(b) => Value::Boolean(*b),
        Value::Timestamp(t) => Value::Timestamp(*t),
        Value::Object(fields) => Value::Object(
            fields.iter().map(|f| Field { key: f.key.clone(), value: copy(&f.value) }).collect(),
        ),
        Value::Array(items) => Value::Array(items.iter().map(copy).collect()),
        Value::Null => Value::Null,
    }
}

#[test]
fn client_of_generated_events_takes_what_is_there() {
    let (mut tx, rx) = channel::<Vec<Event>>(4);
    tx.try_send(vec![Event::Log(record("generated"))]).unwrap();
    let mut filled = ReceiverSlot::new(rx);
    let mut client = MemoryQueueClient::new_with_random_events(&mut filled);
    assert!(!filled.is_available());
    assert_eq!(client.poll(), vec![record("generated")]);

    let mut nothing = ReceiverSlot::empty();
    assert!(!nothing.is_available());
    let mut idle = vectorcxx::new_memory_queue_client_with_random_events(&mut nothing);
    assert!(idle.poll().is_empty());
    idle.release(&mut nothing);
    assert!(!nothing.is_available());
}

#[test]
fn new_client_always_holds_the_receiving_end() {
    let (mut tx, rx) = channel::<Vec<Event>>(2);
    let mut slot = ReceiverSlot::new(rx);
    let mut first = MemoryQueueClient::new(&mut slot);
    // However often it is asked, the emptied slot makes no second client.
    for _ in 0..3 {
        assert!(MemoryQueueClient::try_new(&mut slot).is_none());
        assert!(!slot.is_available());
    }
    tx.try_send(vec![Event::Log(record("one"))]).unwrap();
    assert_eq!(first.poll(), vec![record("one")]);
    first.release(&mut slot);
    tx.try_send(vec![Event::Log(record("two"))]).unwrap();
    let mut next = MemoryQueueClient::try_new(&mut slot).unwrap();
    assert_eq!(next.poll(), vec![record("two")]);
}

#[test]
fn generated_records_are_well_formed() {
    let pairs: Vec<String> = ["_message", "v1", "k2", "v2"].iter().map(|s| s.to_string()).collect();
    let event = random_json_event(&pairs, "text");
    assert!(event.is_wf());
    assert_eq!(event.top_level_fields(), vec!["_datatype", "_message", "_target_table", "k2"]);
    assert_eq!(event.get_string("_message"), "text");
    assert!(random_simple_event(event).is_wf());
}
