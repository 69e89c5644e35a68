use sinq::rc::{Payload, Queue};
use sinq::Write;
use std::rc::Rc;

#[derive(Debug, PartialEq)]
struct Ping(u32);
struct Pong;

type Seen = Vec<String>;

fn note(seen: &mut Seen, text: &str) {
    seen.push(text.to_string());
}

#[test]
fn listener_does_not_see_what_was_emitted_before_it() {
    let mut queue: Queue = Queue::new();
    queue.emit(0, Ping(1));
    queue.emit(0, Ping(2));
    queue.emit(0, Ping(3));

    let mut late = queue.listen::<Write<Vec<u32>>>().and_on(
        0,
        |o: &mut Vec<u32>, _: &mut (), e: &Ping| {
            o.push(e.0);
        },
    );
    let mut seen = Vec::new();
    let handled = late.dispatch(&queue, &mut seen, &mut ());
    assert!(seen.is_empty());
    assert!(handled.is_empty());

    queue.emit(0, Ping(4));
    let handled = late.dispatch(&queue, &mut seen, &mut ());
    assert_eq!(seen, vec![4]);
    assert_eq!(handled, vec![3]);
}

#[test]
fn listeners_made_at_different_times_see_different_tails() {
    let mut queue: Queue = Queue::new();
    let push = |o: &mut Vec<u32>, _: &mut (), e: &Ping| {
        o.push(e.0);
    };
    let mut first = queue.listen::<Write<Vec<u32>>>().and_on(0, push);
    queue.emit(0, Ping(1));
    let mut second = queue.listen::<Write<Vec<u32>>>().and_on(0, push);
    queue.emit(0, Ping(2));

    let mut a = Vec::new();
    let mut b = Vec::new();
    first.dispatch(&queue, &mut a, &mut ());
    second.dispatch(&queue, &mut b, &mut ());
    assert_eq!(a, vec![1, 2]);
    assert_eq!(b, vec![2]);
}

#[test]
fn envelope_goes_to_the_handler_of_its_exact_key_only() {
    let mut queue: Queue = Queue::new();
    let mut listener = queue
        .listen::<Write<Seen>>()
        .and_on(1, |o: &mut Seen, _: &mut (), _: &Ping| note(o, "ping@1"))
        .and_on(1, |o: &mut Seen, _: &mut (), _: &Pong| note(o, "pong@1"))
        .and_on(2, |o: &mut Seen, _: &mut (), _: &Ping| note(o, "ping@2"));

    queue.emit(1, Ping(0));
    let mut seen = Seen::new();
    listener.dispatch(&queue, &mut seen, &mut ());
    assert_eq!(seen, vec!["ping@1"]);

    queue.emit(2, Pong);
    let mut seen = Seen::new();
    let handled = listener.dispatch(&queue, &mut seen, &mut ());
    assert!(seen.is_empty());
    assert!(handled.is_empty());

    queue.emit(2, Ping(0));
    queue.emit(1, Pong);
    let mut seen = Seen::new();
    listener.dispatch(&queue, &mut seen, &mut ());
    assert_eq!(seen, vec!["ping@2", "pong@1"]);
}

#[test]
fn registering_again_replaces_the_handler() {
    let mut queue: Queue = Queue::new();
    let mut listener = queue.listen::<Write<Seen>>();
    let first = listener.on(3, |o: &mut Seen, _: &mut (), _: &Ping| note(o, "old"));
    let second = listener.on(3, |o: &mut Seen, _: &mut (), _: &Ping| note(o, "new"));
    assert_eq!(first, second);
    assert_eq!(first.0, 3);
    assert_eq!(first.1, std::any::TypeId::of::<Ping>());

    queue.emit(3, Ping(0));
    let mut seen = Seen::new();
    let handled = listener.dispatch(&queue, &mut seen, &mut ());
    assert_eq!(seen, vec!["new"]);
    assert_eq!(handled, vec![0]);
}

#[test]
fn envelopes_are_handled_in_append_order() {
    let mut queue: Queue = Queue::new();
    let mut listener = queue
        .listen::<Write<Seen>>()
        .and_on(0, |o: &mut Seen, _: &mut (), e: &Ping| o.push(format!("ping {}", e.0)))
        .and_on(0, |o: &mut Seen, _: &mut (), _: &Pong| note(o, "pong"));

    queue.emit(0, Ping(1));
    queue.emit(0, Ping(2));
    queue.emit(0, Pong);
    queue.emit(0, Ping(3));

    let mut seen = Seen::new();
    let handled = listener.dispatch(&queue, &mut seen, &mut ());
    assert_eq!(seen, vec!["ping 1", "ping 2", "pong", "ping 3"]);
    assert_eq!(handled, vec![0, 1, 2, 3]);
}

#[test]
fn second_dispatch_without_emit_calls_no_handler() {
    let mut queue: Queue = Queue::new();
    let mut listener = queue.listen::<Write<Vec<u32>>>().and_on(
        0,
        |o: &mut Vec<u32>, _: &mut (), e: &Ping| {
            o.push(e.0);
        },
    );
    queue.emit(0, Ping(9));

    let mut seen = Vec::new();
    assert_eq!(listener.dispatch(&queue, &mut seen, &mut ()), vec![0]);
    assert_eq!(listener.dispatch(&queue, &mut seen, &mut ()), Vec::<usize>::new());
    assert_eq!(seen, vec![9]);
}

#[test]
fn removed_handler_is_not_called() {
    let mut queue: Queue = Queue::new();
    let mut listener = queue
        .listen::<Write<Seen>>()
        .and_on(0, |o: &mut Seen, _: &mut (), _: &Ping| note(o, "ping"))
        .and_on(0, |o: &mut Seen, _: &mut (), _: &Pong| note(o, "pong"));

    assert!(listener.contains::<Ping>(0));
    assert!(listener.remove::<Ping>(0));
    assert!(!listener.contains::<Ping>(0));
    assert!(listener.contains::<Pong>(0));
    assert!(!listener.remove::<Ping>(0));
    assert!(!listener.remove::<Pong>(1));

    queue.emit(0, Ping(0));
    queue.emit(0, Pong);
    let mut seen = Seen::new();
    let handled = listener.dispatch(&queue, &mut seen, &mut ());
    assert_eq!(seen, vec!["pong"]);
    assert_eq!(handled, vec![1]);
}

#[test]
fn keys_can_be_used_directly() {
    let queue: Queue = Queue::new();
    let mut listener = queue.listen::<Write<Seen>>();
    let key = listener.on(5, |o: &mut Seen, _: &mut (), _: &Ping| note(o, "ping"));
    assert!(listener.contains_key(&key));
    assert!(!listener.contains_key(&(6, key.1)));
    assert!(!listener.contains_key(&(5, std::any::TypeId::of::<Pong>())));
    assert!(listener.remove_key(&key));
    assert!(!listener.contains_key(&key));
    assert!(!listener.remove_key(&key));
}

#[test]
fn removal_does_not_touch_envelopes_already_handled() {
    let mut queue: Queue = Queue::new();
    let mut listener = queue.listen::<Write<Seen>>().and_on(
        0,
        |o: &mut Seen, _: &mut (), _: &Ping| note(o, "ping"),
    );
    queue.emit(0, Ping(0));
    let mut seen = Seen::new();
    listener.dispatch(&queue, &mut seen, &mut ());
    listener.remove::<Ping>(0);
    queue.emit(0, Ping(1));
    listener.dispatch(&queue, &mut seen, &mut ());
    assert_eq!(seen, vec!["ping"]);
}

#[test]
fn handler_added_late_sees_pending_envelopes() {
    let mut queue: Queue = Queue::new();
    let mut listener = queue.listen::<Write<Seen>>();
    queue.emit(0, Ping(0));
    listener.on(0, |o: &mut Seen, _: &mut (), _: &Ping| note(o, "ping"));
    let mut seen = Seen::new();
    listener.dispatch(&queue, &mut seen, &mut ());
    assert_eq!(seen, vec!["ping"]);
}

#[test]
fn dispatch_on_an_empty_queue_does_nothing() {
    let queue: Queue = Queue::new();
    let mut listener = queue.listen::<Write<Seen>>().and_on(
        0,
        |o: &mut Seen, _: &mut (), _: &Ping| note(o, "ping"),
    );
    let mut seen = Seen::new();
    assert!(listener.dispatch(&queue, &mut seen, &mut ()).is_empty());
    assert!(seen.is_empty());
}

#[test]
fn listener_without_handlers_passes_everything_over() {
    let mut queue: Queue = Queue::new();
    let mut listener = queue.listen::<()>();
    queue.emit(0, Ping(0));
    queue.emit(1, Pong);
    assert!(listener.dispatch(&queue, &mut (), &mut ()).is_empty());
}

#[test]
fn handler_may_keep_state_of_its_own() {
    let mut queue: Queue = Queue::new();
    let mut calls = 0u32;
    let mut listener = queue.listen::<Write<Vec<u32>>>().and_on(
        0,
        move |o: &mut Vec<u32>, _: &mut (), _: &Pong| {
            calls += 1;
            o.push(calls);
        },
    );
    queue.emit(0, Pong);
    queue.emit(0, Pong);
    let mut seen = Vec::new();
    listener.dispatch(&queue, &mut seen, &mut ());
    queue.emit(0, Pong);
    listener.dispatch(&queue, &mut seen, &mut ());
    assert_eq!(seen, vec![1, 2, 3]);
}

#[test]
fn handler_receives_the_payload_that_was_emitted() {
    let mut queue: Queue = Queue::new();
    let mut listener = queue.listen::<Write<Vec<u32>>>().and_on(
        0,
        |o: &mut Vec<u32>, _: &mut (), e: &Ping| {
            o.push(e.0);
        },
    );
    let shared = Rc::new(Ping(7));
    queue.emit(0, Ping(5));
    queue.emit_rc(0, shared.clone());
    queue.emit_dyn(0, Payload::new(Ping(9)));
    queue.emit_rc(0, shared.clone());
    assert_eq!(Rc::strong_count(&shared), 3);

    let mut seen = Vec::new();
    listener.dispatch(&queue, &mut seen, &mut ());
    assert_eq!(seen, vec![5, 7, 9, 7]);
    assert_eq!(*shared, Ping(7));
}

#[test]
fn erased_event_is_routed_by_its_own_type() {
    let mut queue: Queue = Queue::new();
    let mut listener = queue
        .listen::<Write<Seen>>()
        .and_on(0, |o: &mut Seen, _: &mut (), _: &Ping| note(o, "ping"))
        .and_on(0, |o: &mut Seen, _: &mut (), _: &Pong| note(o, "pong"));
    let erased = Payload::new(Pong);
    queue.emit_dyn(0, erased.clone());
    queue.emit_dyn(0, Payload::new(Ping(1)));
    queue.emit_dyn(0, erased);
    let mut seen = Seen::new();
    listener.dispatch(&queue, &mut seen, &mut ());
    assert_eq!(seen, vec!["pong", "ping", "pong"]);
}

#[test]
fn deliver_walks_a_batch_from_its_start() {
    let mut queue: Queue = Queue::new();
    queue.emit(0, Ping(1));
    let mut listener = queue.listen::<Write<Vec<u32>>>().and_on(
        0,
        |o: &mut Vec<u32>, _: &mut (), e: &Ping| {
            o.push(e.0);
        },
    );
    let batch = vec![
        sinq::rc::stamp(0u64, Rc::new(Ping(10))),
        sinq::rc::stamp(1u64, Rc::new(Ping(11))),
        sinq::rc::stamp_dyn(0u64, Payload::new(Ping(12))),
        sinq::rc::stamp(0u64, Rc::new(Pong)),
    ];
    assert_eq!(*batch[1].id(), 1);
    assert_eq!(batch[3].type_id(), std::any::TypeId::of::<Pong>());
    assert_eq!(batch[2].type_id(), std::any::TypeId::of::<Ping>());

    let mut seen = Vec::new();
    let handled = listener.deliver(&batch, &mut seen, &mut ());
    assert_eq!(seen, vec![10, 12]);
    assert_eq!(handled, vec![0, 2]);
    assert_eq!(listener.deliver(&batch, &mut seen, &mut ()), vec![0, 2]);

    // the place in the queue is untouched by `deliver`
    queue.emit(0, Ping(2));
    let mut seen = Vec::new();
    assert_eq!(listener.dispatch(&queue, &mut seen, &mut ()), vec![1]);
    assert_eq!(seen, vec![2]);
}

#[test]
fn listener_handed_a_shorter_queue_starts_over_at_its_end() {
    let mut long: Queue = Queue::new();
    long.emit(0, Ping(1));
    long.emit(0, Ping(2));
    let mut listener = long.listen::<Write<Vec<u32>>>().and_on(
        0,
        |o: &mut Vec<u32>, _: &mut (), e: &Ping| {
            o.push(e.0);
        },
    );
    let mut short: Queue = Queue::new();
    short.emit(0, Ping(3));
    let mut seen = Vec::new();
    assert!(listener.dispatch(&short, &mut seen, &mut ()).is_empty());
    short.emit(0, Ping(4));
    assert_eq!(listener.dispatch(&short, &mut seen, &mut ()), vec![1]);
    assert_eq!(seen, vec![4]);
}

#[test]
fn default_queue_is_empty() {
    let queue: Queue<u8> = Queue::default();
    let mut listener = queue.listen::<Write<Seen>>().and_on(
        0,
        |o: &mut Seen, _: &mut (), _: &Ping| note(o, "ping"),
    );
    let mut seen = Seen::new();
    assert!(listener.dispatch(&queue, &mut seen, &mut ()).is_empty());
}

#[test]
fn emitting_needs_no_listener() {
    let mut queue: Queue = Queue::new();
    queue.emit(0, Ping(1));
    queue.emit_rc(1, Rc::new(Pong));
    queue.emit_dyn(2, Payload::new(Ping(2)));

    // a listener made now has nothing to catch up on
    let mut listener = queue.listen::<Write<Seen>>().and_on(
        0,
        |o: &mut Seen, _: &mut (), _: &Ping| note(o, "ping"),
    );
    let mut seen = Seen::new();
    assert!(listener.dispatch(&queue, &mut seen, &mut ()).is_empty());
    assert!(seen.is_empty());
}

#[test]
fn cloned_envelope_keeps_source_tag_and_payload() {
    let envelope = sinq::rc::stamp(4u64, Rc::new(Ping(8)));
    let copy = envelope.clone();
    assert_eq!(*copy.id(), 4);
    assert_eq!(copy.type_id(), envelope.type_id());
    assert_eq!(copy.type_id(), std::any::TypeId::of::<Ping>());

    let queue: Queue = Queue::new();
    let mut listener = queue.listen::<Write<Vec<u32>>>().and_on(
        4,
        |o: &mut Vec<u32>, _: &mut (), e: &Ping| {
            o.push(e.0);
        },
    );
    let mut seen = Vec::new();
    assert_eq!(listener.deliver(&vec![envelope, copy], &mut seen, &mut ()), vec![0, 1]);
    assert_eq!(seen, vec![8, 8]);
}

#[test]
fn output_is_untouched_when_nothing_is_handed_over() {
    let mut queue: Queue = Queue::new();
    let mut listener = queue.listen::<(Write<Seen>, Write<u32>)>().and_on(
        0,
        |o: &mut Seen, calls: &mut u32, _: &Ping| {
            *calls += 1;
            note(o, "ping");
        },
    );
    queue.emit(1, Ping(0));
    queue.emit(0, Pong);
    let mut seen = vec!["before".to_string()];
    let mut calls = 7u32;
    assert!(listener.dispatch(&queue, &mut seen, &mut calls).is_empty());
    assert_eq!(seen, vec!["before"]);
    assert_eq!(calls, 7);
}
