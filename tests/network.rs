use relayer_core::network::{BufferedPubsubMessage, PubsubWarmup};

fn msg(topic: &str, byte: u8) -> BufferedPubsubMessage {
    BufferedPubsubMessage { topic: topic.to_string(), message: vec![byte] }
}

#[test]
fn warmup_holds_messages_then_replays_in_order() {
    let mut w = PubsubWarmup::new();
    assert!(w.forward_outbound_pubsub(msg("orderbook", 1)).is_empty());
    assert!(w.forward_outbound_pubsub(msg("cluster", 2)).is_empty());
    let replay = w.finish_warmup();
    assert_eq!(replay.len(), 2);
    assert_eq!(replay[0].topic, "orderbook");
    assert_eq!(replay[1].message, vec![2]);
    let now = w.forward_outbound_pubsub(msg("orderbook", 3));
    assert_eq!(now.len(), 1);
    assert_eq!(now[0].message, vec![3]);
    assert!(w.finish_warmup().is_empty());
}
