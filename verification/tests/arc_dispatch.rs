use sinq::arc::{EventListener, Listener, Payload, Queue};
use sinq::Write;
use std::sync::Arc;

struct EventA;
struct EventB;

type Names = Vec<&'static str>;

#[test]
fn arc_test_event_dispatch() {
    let mut queue: Queue = Queue::new();

    let mut l0 = queue
        .listen::<Write<Names>>()
        .and_on(0, |o: &mut Names, _: &mut (), _: &EventA| {
            o.push("a0");
        })
        .and_on(1, |o: &mut Names, _: &mut (), _: &EventA| {
            o.push("a1");
        })
        .and_on(0, |o: &mut Names, _: &mut (), _: &EventB| {
            o.push("b0");
        });

    let mut l1 = queue.listen::<Write<Names>>();
    l1.on(0, |o: &mut Names, _: &mut (), _: &EventB| {
        o.push("b0");
    });

    queue.emit(1, EventA);
    queue.emit_arc(0, Arc::new(EventB));
    queue.emit_dyn(0, Payload::new(EventA));
    queue.emit(0, EventB);

    let mut v0 = Vec::new();
    let mut v1 = Vec::new();

    l0.dispatch(&queue, &mut v0, &mut ());
    l1.dispatch(&queue, &mut v1, &mut ());

    assert_eq!(&v0, &["a1", "b0", "a0", "b0"]);
    assert_eq!(&v1, &["b0", "b0"]);
}

#[test]
fn arc_two_listeners_share_one_queue() {
    let mut queue: Queue = Queue::new();

    let mut l0: EventListener<Write<Names>> = queue
        .listen::<Write<Names>>()
        .and_on(0, |o: &mut Names, _: &mut (), _: &EventA| {
            o.push("a0");
        })
        .and_on(1, |o: &mut Names, _: &mut (), _: &EventA| {
            o.push("a1");
        });
    let mut l1: EventListener<Write<Names>> = queue.listen::<Write<Names>>().and_on(
        0,
        |o: &mut Names, _: &mut (), _: &EventB| {
            o.push("b0");
        },
    );

    queue.emit(1, EventA);
    queue.emit(0, EventB);
    queue.emit(0, EventA);
    queue.emit(0, EventB);

    let mut v0 = Vec::new();
    let mut v1 = Vec::new();
    let h0 = l0.dispatch(&queue, &mut v0, &mut ());
    let h1 = l1.dispatch(&queue, &mut v1, &mut ());

    // l0 has no handler for EventB: both EventB envelopes pass it by
    assert_eq!(&v0, &["a1", "a0"]);
    assert_eq!(h0, vec![0, 2]);
    assert_eq!(&v1, &["b0", "b0"]);
    assert_eq!(h1, vec![1, 3]);
}

#[test]
fn arc_listener_registers_only_its_own_keys() {
    let mut queue: Queue = Queue::new();

    let mut l0 = queue
        .listen::<Write<Names>>()
        .and_on(0, |o: &mut Names, _: &mut (), _: &EventA| {
            o.push("a0");
        })
        .and_on(1, |o: &mut Names, _: &mut (), _: &EventA| {
            o.push("a1");
        });
    let mut l1 = queue.listen::<Write<Names>>().and_on(
        0,
        |o: &mut Names, _: &mut (), _: &EventB| {
            o.push("b0");
        },
    );

    queue.emit(1, EventA);
    queue.emit(0, EventB);
    queue.emit(2, EventA);
    queue.emit(0, EventB);

    let mut v0 = Vec::new();
    let mut v1 = Vec::new();
    let h0 = l0.dispatch(&queue, &mut v0, &mut ());
    let h1 = l1.dispatch(&queue, &mut v1, &mut ());

    assert_eq!(&v0, &["a1"]);
    assert_eq!(h0, vec![0]);
    assert_eq!(&v1, &["b0", "b0"]);
    assert_eq!(h1, vec![1, 3]);
}

fn is_send_and_sync<T: Send + Sync>(_: &T) -> bool {
    true
}

#[test]
fn arc_queue_and_listener_may_cross_threads() {
    let queue: Queue = Queue::new();
    let listener: Listener<u64, Names, ()> = queue.listen::<Write<Names>>().and_on(
        0,
        |o: &mut Names, _: &mut (), _: &EventA| {
            o.push("a0");
        },
    );
    assert!(is_send_and_sync(&queue));
    assert!(is_send_and_sync(&listener));
    assert!(is_send_and_sync(&Payload::new(EventA)));
}

#[test]
fn arc_shared_event_is_emitted_twice() {
    let mut queue: Queue = Queue::new();
    let mut listener = queue.listen::<Write<Vec<u32>>>().and_on(
        7,
        |o: &mut Vec<u32>, _: &mut (), e: &u32| {
            o.push(*e);
        },
    );
    let shared = Arc::new(41u32);
    queue.emit_arc(7, shared.clone());
    queue.emit_arc(7, shared.clone());
    let erased = Payload::new(42u32);
    queue.emit_dyn(7, erased.clone());
    queue.emit_dyn(7, erased);
    assert_eq!(Arc::strong_count(&shared), 3);

    let mut seen = Vec::new();
    let handled = listener.dispatch(&queue, &mut seen, &mut ());
    assert_eq!(seen, vec![41, 41, 42, 42]);
    assert_eq!(handled, vec![0, 1, 2, 3]);
}

#[test]
fn arc_context_is_lent_to_handlers() {
    let mut queue: Queue<&'static str> = Queue::new();
    let mut listener = queue.listen::<(Write<Vec<u64>>, Write<u64>)>().and_on(
        "meter",
        |o: &mut Vec<u64>, total: &mut u64, e: &u64| {
            *total += *e;
            o.push(*total);
        },
    );
    queue.emit("meter", 5u64);
    queue.emit("other", 100u64);
    queue.emit("meter", 7u64);

    let mut running = Vec::new();
    let mut total = 1u64;
    let handled = listener.dispatch(&queue, &mut running, &mut total);
    assert_eq!(running, vec![6, 13]);
    assert_eq!(total, 13);
    assert_eq!(handled, vec![0, 2]);
}
