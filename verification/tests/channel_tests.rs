use std::cell::Cell;

use sui_ipc::cache_update_handler::CacheUpdateHandler;
use sui_ipc::channel::{Channel, Delivery};
use sui_ipc::error::IpcError;
use sui_ipc::frame::{decode_binary_frame, ByteOrder};
use sui_ipc::tx_handler::{decode_effects_frames, encode_effects_frames, Dispatch, TxHandler};

/// A subscriber's end of a connection, kept in memory.
struct Subscriber {
    handle: u64,
    open: bool,
    inbox: Vec<u8>,
}

fn subscriber(handle: u64) -> Subscriber {
    Subscriber { handle, open: true, inbox: Vec::new() }
}

/// Carries the delivery out as the embedding program would: writes to each
/// target in turn and records what came of it.
fn carry_out(delivery: &mut Delivery, peers: &mut Vec<Subscriber>) {
    while let Some(target) = delivery.next_target() {
        let written = match peers.iter_mut().find(|p| p.handle == target) {
            Some(peer) if peer.open => {
                peer.inbox.extend_from_slice(delivery.bytes());
                true
            }
            _ => false,
        };
        delivery.record(written);
    }
}

fn cache_handler_with(handles: &[u64]) -> CacheUpdateHandler {
    let mut handler = CacheUpdateHandler::new(true).unwrap();
    for handle in handles {
        assert!(handler.channel.accept(Some(*handle)));
    }
    handler
}

#[test]
fn bind_failure_is_fatal() {
    assert!(matches!(Channel::open(false), Err(IpcError::Bind)));
    assert!(matches!(CacheUpdateHandler::new(false), Err(IpcError::Bind)));
    assert!(matches!(TxHandler::new(false), Err(IpcError::Bind)));
}

#[test]
fn new_channel_listens_without_subscribers() {
    let channel = Channel::open(true).unwrap();
    assert!(channel.is_listening());
    assert_eq!(channel.subscriber_count(), 0);
    assert_eq!(channel.targets(), Vec::<u64>::new());
}

#[test]
fn accept_adds_subscribers_in_order() {
    let mut channel = Channel::open(true).unwrap();
    assert!(channel.accept(Some(7)));
    assert!(channel.accept(Some(3)));
    assert!(channel.accept(Some(9)));
    assert_eq!(channel.targets(), vec![7, 3, 9]);
    assert!(channel.is_subscribed(3));
    assert!(!channel.is_subscribed(4));
}

#[test]
fn failed_accept_does_not_end_the_loop() {
    let mut channel = Channel::open(true).unwrap();
    assert!(channel.accept(Some(1)));
    assert!(channel.accept(None));
    assert!(channel.accept(None));
    assert!(channel.accept(Some(2)));
    assert_eq!(channel.targets(), vec![1, 2]);
    assert!(channel.is_listening());
}

#[test]
fn a_handle_is_taken_in_once() {
    let mut channel = Channel::open(true).unwrap();
    channel.accept(Some(5));
    channel.accept(Some(5));
    assert_eq!(channel.targets(), vec![5]);
}

#[test]
fn stopped_channel_accepts_nothing() {
    let mut channel = Channel::open(true).unwrap();
    channel.accept(Some(1));
    channel.stop();
    assert!(!channel.is_listening());
    assert_eq!(channel.subscriber_count(), 0);
    assert!(!channel.accept(Some(2)));
    assert!(!channel.accept(None));
    assert_eq!(channel.subscriber_count(), 0);
}

#[test]
fn publish_without_subscribers_serializes_nothing() {
    let handler = cache_handler_with(&[]);
    let calls = Cell::new(0u32);
    for _ in 0..5 {
        let delivery = handler.notify_written(|| {
            calls.set(calls.get() + 1);
            vec![1, 2, 3]
        });
        assert!(delivery.is_none());
    }
    assert_eq!(calls.get(), 0);

    let tx = TxHandler::new(true).unwrap();
    for _ in 0..5 {
        let delivery = tx.send_tx_effects_and_events(|| -> Result<(Vec<u8>, Vec<u8>), String> {
            calls.set(calls.get() + 1);
            Ok((vec![1], vec![2]))
        });
        assert!(matches!(delivery, Ok(None)));
    }
    assert_eq!(calls.get(), 0);
}

#[test]
fn publish_serializes_once_for_all_subscribers() {
    let handler = cache_handler_with(&[1, 2, 3]);
    let calls = Cell::new(0u32);
    let delivery = handler
        .notify_written(|| {
            calls.set(calls.get() + 1);
            vec![0xde, 0xad]
        })
        .unwrap();
    assert_eq!(calls.get(), 1);
    assert_eq!(delivery.targets(), &vec![1, 2, 3]);
    assert_eq!(delivery.bytes(), &vec![2, 0, 0, 0, 0xde, 0xad]);
    assert_eq!(delivery.next_target(), Some(1));
    assert_eq!(delivery.failed(), Vec::<u64>::new());
}

#[test]
fn failed_writes_are_pruned() {
    let mut handler = cache_handler_with(&[10, 20, 30, 40, 50]);
    let mut peers: Vec<Subscriber> = [10, 20, 30, 40, 50].iter().map(|h| subscriber(*h)).collect();
    peers[1].open = false;
    peers[3].open = false;
    let mut delivery = handler.notify_written(|| b"update".to_vec()).unwrap();
    carry_out(&mut delivery, &mut peers);
    assert_eq!(delivery.next_target(), None);
    assert_eq!(delivery.failed(), vec![20, 40]);
    handler.channel.finish(&delivery);
    assert_eq!(handler.channel.subscriber_count(), 5 - 2);
    assert_eq!(handler.channel.targets(), vec![10, 30, 50]);
    for peer in peers.iter().filter(|p| p.open) {
        assert_eq!(&peer.inbox, delivery.bytes());
    }
    for peer in peers.iter().filter(|p| !p.open) {
        assert!(peer.inbox.is_empty());
    }
}

#[test]
fn prune_ignores_strangers_and_repeats() {
    let mut channel = Channel::open(true).unwrap();
    for handle in [1, 2, 3] {
        channel.accept(Some(handle));
    }
    channel.prune(&vec![]);
    assert_eq!(channel.targets(), vec![1, 2, 3]);
    channel.prune(&vec![99, 2, 2, 98]);
    assert_eq!(channel.targets(), vec![1, 3]);
    channel.prune(&vec![1, 3]);
    assert_eq!(channel.subscriber_count(), 0);
    assert!(channel.is_listening());
}

#[test]
fn two_subscribers_then_one_disconnects() {
    let mut handler = cache_handler_with(&[1, 2]);
    let mut peers = vec![subscriber(1), subscriber(2)];

    let event: Vec<u8> = b"event E".to_vec();
    let mut delivery = handler.notify_written(|| event.clone()).unwrap();
    carry_out(&mut delivery, &mut peers);
    handler.channel.finish(&delivery);
    assert_eq!(handler.channel.subscriber_count(), 2);
    for peer in &peers {
        assert_eq!(decode_binary_frame(&peer.inbox, ByteOrder::LittleEndian), Ok(event.clone()));
    }

    peers[0].open = false;
    let first_len = peers[1].inbox.len();
    let event2: Vec<u8> = b"event E2".to_vec();
    let mut delivery = handler.notify_written(|| event2.clone()).unwrap();
    carry_out(&mut delivery, &mut peers);
    handler.channel.finish(&delivery);

    assert_eq!(handler.channel.subscriber_count(), 1);
    assert_eq!(handler.channel.targets(), vec![2]);
    assert_eq!(peers[0].inbox.len(), first_len);
    assert_eq!(
        decode_binary_frame(&peers[1].inbox[first_len..], ByteOrder::LittleEndian),
        Ok(event2)
    );
}

#[test]
fn late_subscriber_gets_only_later_events() {
    let mut handler = cache_handler_with(&[1]);
    let mut peers = vec![subscriber(1), subscriber(2)];
    let mut delivery = handler.notify_written(|| vec![1]).unwrap();
    carry_out(&mut delivery, &mut peers);
    handler.channel.accept(Some(2));
    handler.channel.finish(&delivery);
    assert_eq!(handler.channel.targets(), vec![1, 2]);
    let mut delivery = handler.notify_written(|| vec![2]).unwrap();
    carry_out(&mut delivery, &mut peers);
    handler.channel.finish(&delivery);
    assert_eq!(peers[0].inbox, vec![1, 0, 0, 0, 1, 1, 0, 0, 0, 2]);
    assert_eq!(peers[1].inbox, vec![1, 0, 0, 0, 2]);
}

#[test]
fn effects_and_events_are_two_big_endian_frames() {
    assert_eq!(
        encode_effects_frames(&[0xe1, 0xe2], b"[]"),
        vec![0, 0, 0, 2, 0xe1, 0xe2, 0, 0, 0, 2, b'[', b']']
    );
    assert_eq!(encode_effects_frames(&[], &[]), vec![0; 8]);
}

#[test]
fn effects_frames_round_trip() {
    let effects: Vec<u8> = (0..300u32).map(|i| (i % 256) as u8).collect();
    let events = b"[{\"type\":\"swap\"}]".to_vec();
    let bytes = encode_effects_frames(&effects, &events);
    assert_eq!(decode_effects_frames(&bytes), Ok((effects, events)));
}

#[test]
fn incomplete_effects_frames_are_short_reads() {
    let bytes = encode_effects_frames(&[1, 2, 3], &[4, 5]);
    for cut in 0..bytes.len() {
        assert_eq!(decode_effects_frames(&bytes[..cut]), Err(IpcError::ShortRead));
    }
    assert_eq!(decode_effects_frames(&bytes), Ok((vec![1, 2, 3], vec![4, 5])));
}

#[test]
fn tx_publish_frames_both_payloads() {
    let mut tx = TxHandler::new(true).unwrap();
    tx.channel.accept(Some(4));
    tx.channel.accept(Some(8));
    let delivery = tx
        .send_tx_effects_and_events(|| -> Result<(Vec<u8>, Vec<u8>), String> {
            Ok((vec![9, 9, 9], b"[]".to_vec()))
        })
        .unwrap()
        .unwrap();
    assert_eq!(delivery.targets(), &vec![4, 8]);
    assert_eq!(delivery.bytes(), &vec![0, 0, 0, 3, 9, 9, 9, 0, 0, 0, 2, b'[', b']']);
    assert_eq!(decode_effects_frames(delivery.bytes()), Ok((vec![9, 9, 9], b"[]".to_vec())));
}

#[test]
fn tx_serialization_error_ends_the_publish() {
    let mut tx = TxHandler::new(true).unwrap();
    tx.channel.accept(Some(4));
    let result = tx.send_tx_effects_and_events(|| -> Result<(Vec<u8>, Vec<u8>), String> {
        Err("cannot serialize".to_string())
    });
    assert!(matches!(result, Err(ref e) if e == "cannot serialize"));
    assert_eq!(tx.channel.targets(), vec![4]);
}

#[test]
fn connection_checks() {
    let mut tx = TxHandler::new(true).unwrap();
    assert!(!tx.has_active_connections());
    assert!(!TxHandler::has_connections_sync(Some(&tx)));
    assert!(TxHandler::has_connections_sync(None));
    assert_eq!(TxHandler::send_sync(Some(&tx)), Dispatch::Skip);
    assert_eq!(TxHandler::send_sync(None), Dispatch::Spawn);
    tx.channel.accept(Some(1));
    assert!(tx.has_active_connections());
    assert!(TxHandler::has_connections_sync(Some(&tx)));
    assert_eq!(TxHandler::send_sync(Some(&tx)), Dispatch::Spawn);
    tx.channel.prune(&vec![1]);
    assert!(!tx.has_active_connections());
    assert_eq!(TxHandler::send_sync(Some(&tx)), Dispatch::Skip);
}

#[test]
fn delivery_goes_through_its_targets_in_order() {
    let mut delivery = Delivery::new(vec![1, 2, 3], vec![7, 8, 9]);
    assert_eq!(delivery.next_target(), Some(7));
    delivery.record(false);
    assert_eq!(delivery.next_target(), Some(8));
    assert_eq!(delivery.failed(), vec![7]);
    delivery.record(true);
    assert_eq!(delivery.next_target(), Some(9));
    delivery.record(false);
    assert_eq!(delivery.next_target(), None);
    assert_eq!(delivery.failed(), vec![7, 9]);
    delivery.record(false);
    delivery.record(true);
    assert_eq!(delivery.next_target(), None);
    assert_eq!(delivery.failed(), vec![7, 9]);
    assert_eq!(delivery.bytes(), &vec![1, 2, 3]);
    assert_eq!(delivery.targets(), &vec![7, 8, 9]);
}

#[test]
fn unwritten_targets_stay_subscribed() {
    let mut handler = cache_handler_with(&[1, 2, 3]);
    let mut delivery = handler.notify_written(|| vec![0]).unwrap();
    delivery.record(false);
    handler.channel.finish(&delivery);
    assert_eq!(handler.channel.targets(), vec![2, 3]);
}

#[test]
fn every_write_failing_empties_the_channel() {
    let mut handler = cache_handler_with(&[1, 2, 3]);
    let mut delivery = handler.notify_written(|| vec![0]).unwrap();
    while delivery.next_target().is_some() {
        delivery.record(false);
    }
    handler.channel.finish(&delivery);
    assert_eq!(handler.channel.subscriber_count(), 0);
    assert!(handler.channel.is_listening());
    assert!(handler.notify_written(|| vec![0]).is_none());
}
