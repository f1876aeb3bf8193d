use ruuvimqtt::mqtt::{
    client_id_for, generate_client_id, payload_of, Sender, SenderAction, SenderEvent,
    CLIENT_ID_PREFIX, TOPIC,
};
use ruuvimqtt::reading::{Fields, Reading};

fn reading(observed_at: u64) -> Reading {
    let mut fields = Fields::empty();
    fields.temperature = Some(2150);
    Reading { device_id: [0xAA, 0xBB, 0xCC, 0xDD, 0xEE, 0xFF], observed_at, fields }
}

#[test]
fn client_id_has_prefix_and_token() {
    assert_eq!(CLIENT_ID_PREFIX, "ruuvimqtt-");
    assert_eq!(client_id_for("abc"), "ruuvimqtt-abc");
    assert_eq!(client_id_for(""), "ruuvimqtt-");
}

#[test]
fn generated_client_ids_are_fresh() {
    let first = generate_client_id();
    let second = generate_client_id();
    assert!(first.starts_with("ruuvimqtt-"));
    assert!(second.starts_with("ruuvimqtt-"));
    assert_eq!(first.len(), 46);
    assert_ne!(first, second);
}

#[test]
fn topic_is_fixed() {
    assert_eq!(TOPIC, "hello/rumqtt");
}

#[test]
fn payload_is_the_json_of_the_reading() {
    assert_eq!(
        payload_of(&reading(100)),
        "{\"time\":\"100\",\"mac\":\"aa:bb:cc:dd:ee:ff:\",\"temperature\":\"2150\",\"humidity\":null,\"pressure\":null,\"battery\":null,\"movement\":null,\"sq\":null,\"tx\":null}"
    );
}

#[test]
fn sender_publishes_what_it_receives() {
    let mut sender = Sender::new(3);
    assert_eq!(sender.pending(), SenderAction::Receive);
    assert_eq!(sender.step(SenderEvent::Received(reading(1))), SenderAction::Publish(reading(1)));
    assert_eq!(sender.pending(), SenderAction::Publish(reading(1)));
    assert_eq!(sender.step(SenderEvent::Published), SenderAction::Receive);
    assert_eq!(sender.step(SenderEvent::Received(reading(2))), SenderAction::Publish(reading(2)));
    assert_eq!(sender.step(SenderEvent::Published), SenderAction::Receive);
    assert_eq!(sender.step(SenderEvent::Closed), SenderAction::Stop);
    assert_eq!(sender.pending(), SenderAction::Stop);
}

#[test]
fn sender_retries_up_to_the_limit_then_goes_on() {
    let mut sender = Sender::new(3);
    assert_eq!(sender.step(SenderEvent::Received(reading(1))), SenderAction::Publish(reading(1)));
    assert_eq!(sender.step(SenderEvent::Failed), SenderAction::Publish(reading(1)));
    assert_eq!(sender.step(SenderEvent::Failed), SenderAction::Publish(reading(1)));
    assert_eq!(sender.step(SenderEvent::Failed), SenderAction::GiveUp(reading(1)));
    assert_eq!(sender.pending(), SenderAction::Receive);
    assert_eq!(sender.step(SenderEvent::Received(reading(2))), SenderAction::Publish(reading(2)));
    assert_eq!(sender.step(SenderEvent::Failed), SenderAction::Publish(reading(2)));
    assert_eq!(sender.step(SenderEvent::Published), SenderAction::Receive);
}

#[test]
fn sender_with_limit_one_or_zero_fails_fast() {
    for limit in [0u32, 1] {
        let mut sender = Sender::new(limit);
        assert_eq!(
            sender.step(SenderEvent::Received(reading(1))),
            SenderAction::Publish(reading(1))
        );
        assert_eq!(sender.step(SenderEvent::Failed), SenderAction::GiveUp(reading(1)));
        assert_eq!(sender.pending(), SenderAction::Receive);
    }
}

#[test]
fn sender_ignores_what_it_does_not_wait_for() {
    let mut sender = Sender::new(2);
    assert_eq!(sender.step(SenderEvent::Published), SenderAction::Receive);
    assert_eq!(sender.step(SenderEvent::Failed), SenderAction::Receive);
    assert_eq!(sender.step(SenderEvent::Received(reading(1))), SenderAction::Publish(reading(1)));
    assert_eq!(sender.step(SenderEvent::Received(reading(2))), SenderAction::Publish(reading(1)));
    assert_eq!(sender.step(SenderEvent::Closed), SenderAction::Publish(reading(1)));
    assert_eq!(sender.step(SenderEvent::Published), SenderAction::Receive);
    assert_eq!(sender.step(SenderEvent::Closed), SenderAction::Stop);
    assert_eq!(sender.step(SenderEvent::Received(reading(3))), SenderAction::Stop);
    assert_eq!(sender.step(SenderEvent::Failed), SenderAction::Stop);
}
