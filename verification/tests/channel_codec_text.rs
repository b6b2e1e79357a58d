use boomerang_federated::channel::{Class, Queue, QueueError, PAYLOAD_CAPACITY, QUEUE_CAPACITY};
use boomerang_federated::codec::{CodecError, SerdeJsonCodec};
use boomerang_federated::rti::RtiError;
use boomerang_federated::text::{render_signed, render_tag, render_unsigned};
use boomerang_federated::{EndpointId, FederateId, WireTag};

#[test]
fn coordination_reservation_preserves_fifo_and_reclaims_payload_slots() {
    let mut queue = Queue::default();
    for value in 0..PAYLOAD_CAPACITY {
        queue.push(value, Class::Payload).unwrap();
    }
    assert_eq!(queue.push(99, Class::Payload), Err(QueueError::Full));
    for value in PAYLOAD_CAPACITY..QUEUE_CAPACITY {
        queue.push(value, Class::Coordination).unwrap();
    }
    assert_eq!(queue.push(99, Class::Coordination), Err(QueueError::Full));
    for value in 0..QUEUE_CAPACITY {
        assert_eq!(queue.pop(), Some(value));
    }
    queue.push(42, Class::Payload).unwrap();
    assert_eq!(queue.pop(), Some(42));
}

#[test]
fn queue_reports_front_class_and_length() {
    let mut queue: Queue<u8> = Queue::default();
    assert!(queue.is_empty());
    assert_eq!(queue.front_class(), None);
    assert!(queue.accepts(Class::Payload));
    queue.push(1, Class::Coordination).unwrap();
    queue.push(2, Class::Payload).unwrap();
    assert_eq!(queue.len(), 2);
    assert_eq!(queue.front_class(), Some(Class::Coordination));
    assert_eq!(queue.pop(), Some(1));
    assert_eq!(queue.front_class(), Some(Class::Payload));
    assert_eq!(queue.pop(), Some(2));
    assert_eq!(queue.pop(), None);
}

#[test]
fn payload_quota_leaves_the_coordination_reserve() {
    let mut queue: Queue<usize> = Queue::default();
    for value in 0..PAYLOAD_CAPACITY {
        queue.push(value, Class::Payload).unwrap();
    }
    assert!(!queue.accepts(Class::Payload));
    assert!(queue.accepts(Class::Coordination));
    assert_eq!(QUEUE_CAPACITY - PAYLOAD_CAPACITY, 4);
}

#[test]
fn serde_json_codec_round_trips_values() {
    let codec = SerdeJsonCodec;
    let bytes = codec.encode(&42u32).unwrap();
    assert_eq!(bytes, b"42".to_vec());
    let value: u32 = codec.decode(&bytes).unwrap();
    assert_eq!(value, 42);
    let text = codec.encode(&"hi".to_string()).unwrap();
    assert_eq!(text, b"\"hi\"".to_vec());
}

#[test]
fn serde_json_codec_reports_parse_failures() {
    let codec = SerdeJsonCodec;
    let result: Result<u32, CodecError> = codec.decode(b"not json");
    assert!(matches!(result, Err(CodecError::SerdeJson(_))));
    assert!(matches!(
        CodecError::message("bad"),
        CodecError::Message(m) if m == "bad"
    ));
}

#[test]
fn decimal_rendering_matches_integer_formatting() {
    assert_eq!(render_unsigned(0), "0");
    assert_eq!(render_unsigned(1234567890), "1234567890");
    assert_eq!(render_unsigned(u128::MAX), u128::MAX.to_string());
    assert_eq!(render_signed(-15), "-15");
    assert_eq!(render_signed(i128::MIN), i128::MIN.to_string());
    assert_eq!(render_signed(7), "7");
}

#[test]
fn tags_render_with_sentinels_and_microsteps() {
    assert_eq!(render_tag(WireTag::NEVER), "[NEVER]");
    assert_eq!(render_tag(WireTag::FOREVER), "[FOREVER]");
    assert_eq!(render_tag(WireTag::finite(-10, 3)), "[-10ns+3]");
    assert_eq!(render_tag(WireTag::finite(0, 0)), "[0ns+0]");
}

#[test]
fn rti_errors_describe_themselves() {
    assert_eq!(
        RtiError::UnknownFederate(FederateId::new("ghost")).message(),
        "unknown federate `ghost`"
    );
    assert_eq!(
        RtiError::TagDelayOverflow {
            tag: WireTag::finite(5, 1),
            delay_ns: 9,
        }
        .message(),
        "delaying tag [5ns+1] by 9ns overflowed"
    );
    assert_eq!(
        RtiError::RegressingNet {
            federate_id: FederateId::new("a"),
            previous: WireTag::finite(10, 0),
            requested: WireTag::finite(5, 0),
        }
        .message(),
        "NET for federate `a` regressed from [10ns+0] to [5ns+0]"
    );
    assert_eq!(
        RtiError::InvalidRoute {
            source_federate: FederateId::new("a"),
            target_federate: FederateId::new("b"),
            endpoint: EndpointId::new("a-b"),
        }
        .message(),
        "MSG route a -> b endpoint `a-b` is not in the RTI topology"
    );
    assert_eq!(
        RtiError::InvalidLifecycleTransition {
            federate_id: FederateId::new("a"),
            event: "NET",
            lifecycle: "stopped",
        }
        .message(),
        "federate `a` cannot process NET while stopped"
    );
}

#[test]
fn front_mut_edits_the_oldest_value_in_place() {
    let mut queue: Queue<u32> = Queue::default();
    assert_eq!(queue.front_mut(), None);
    queue.push(1, Class::Payload).unwrap();
    queue.push(2, Class::Coordination).unwrap();
    if let Some(value) = queue.front_mut() {
        *value = 10;
    }
    assert_eq!(queue.len(), 2);
    assert_eq!(queue.front_class(), Some(Class::Payload));
    assert_eq!(queue.pop(), Some(10));
    assert_eq!(queue.pop(), Some(2));
}
