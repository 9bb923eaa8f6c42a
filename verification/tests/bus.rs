use atomic_mesh::event::{Event, EventPayload, OrderAckEvent};
use atomic_mesh::ring::SpscRing;
use atomic_mesh::sequencer::EventSequencer;
use atomic_mesh::types::{OrderId, Venue};

fn ack(seq: u64) -> Event {
    Event::new(
        seq,
        0,
        [0u8; 32],
        EventPayload::OrderAck(OrderAckEvent {
            order_id: OrderId::new(Venue::Binance, seq),
            exchange_order_id: "EX".to_string(),
            venue: Venue::Binance,
        }),
    )
}

#[test]
fn push_pop_basic() {
    let mut ring = SpscRing::new(4);
    assert!(ring.is_empty());

    ring.try_push(1u64).unwrap();
    ring.try_push(2).unwrap();
    ring.try_push(3).unwrap();
    assert_eq!(ring.len(), 3);

    assert_eq!(ring.try_pop(), Some(1));
    assert_eq!(ring.try_pop(), Some(2));
    assert_eq!(ring.try_pop(), Some(3));
    assert_eq!(ring.try_pop(), None);
}

#[test]
fn full_ring_returns_err() {
    let mut ring = SpscRing::new(2);
    ring.try_push(42u32).unwrap();
    assert!(ring.try_push(43).is_err());
}

#[test]
fn wrap_around() {
    let mut ring = SpscRing::new(4);
    for i in 0..100u64 {
        ring.try_push(i).unwrap();
        assert_eq!(ring.try_pop(), Some(i));
    }
}

#[test]
fn ring_rounds_capacity_up() {
    let mut ring = SpscRing::new(5);
    for i in 0..7u64 {
        ring.try_push(i).unwrap();
    }
    assert_eq!(ring.try_push(7), Err(7));
    assert_eq!(ring.len(), 7);
}

#[test]
fn sequencer_numbers_events_in_order() {
    let mut sequencer = EventSequencer::new(10);
    let first = sequencer.current_seq();
    let a = sequencer.sequence(ack(77));
    let b = sequencer.sequence(ack(78));
    assert_eq!(b, a + 1);
    assert_eq!(sequencer.len(), 2);
    assert_eq!(sequencer.peek().unwrap().seq, a);
    let events = sequencer.drain();
    assert_eq!(events.len(), 2);
    assert_eq!(events[0].seq, a);
    assert_eq!(events[1].seq, b);
    assert!(sequencer.is_empty());
    assert_eq!(sequencer.current_seq(), first + 2);
}

#[test]
fn sequencer_drops_the_oldest_when_full() {
    let mut sequencer = EventSequencer::new(2);
    sequencer.sequence(ack(1));
    let second = sequencer.sequence(ack(2));
    let third = sequencer.sequence(ack(3));
    let events = sequencer.drain();
    assert_eq!(events.len(), 2);
    assert_eq!(events[0].seq, second);
    assert_eq!(events[1].seq, third);
}
