use hotstuff_rs::block_sync::messages::BlockSyncAdvertiseMessage;
use hotstuff_rs::hotstuff::messages::{HotStuffMessage, NewView};
use hotstuff_rs::hotstuff::types::QuorumCertificate;
use hotstuff_rs::networking::receiving::{ProgressMessage, ProgressMessageBuffer, ProgressMessageStub};

fn new_view(chain_id: u64, view: u64) -> HotStuffMessage {
    HotStuffMessage::NewView(NewView { chain_id, view, highest_pc: QuorumCertificate::genesis_qc() })
}

fn view_of(m: &HotStuffMessage) -> u64 {
    m.view()
}

#[test]
fn buffer_returns_messages_of_a_view_in_arrival_order() {
    let mut buffer = ProgressMessageBuffer::new(1_000_000);
    assert!(buffer.insert(new_view(1, 5), [1u8; 32]));
    assert!(buffer.insert(new_view(1, 4), [2u8; 32]));
    assert!(buffer.insert(new_view(1, 5), [3u8; 32]));
    let (sender, msg) = buffer.get_msg(5).expect("two messages of view 5");
    assert_eq!(sender, [1u8; 32]);
    assert_eq!(view_of(&msg), 5);
    let (sender, _) = buffer.get_msg(5).expect("one message of view 5 left");
    assert_eq!(sender, [3u8; 32]);
    assert!(buffer.get_msg(5).is_none());
    let (sender, _) = buffer.get_msg(4).expect("one message of view 4");
    assert_eq!(sender, [2u8; 32]);
}

#[test]
fn expired_messages_are_dropped() {
    let mut buffer = ProgressMessageBuffer::new(1_000_000);
    assert!(buffer.insert(new_view(1, 3), [1u8; 32]));
    assert!(buffer.insert(new_view(1, 7), [2u8; 32]));
    buffer.remove_expired_msgs(4);
    assert!(buffer.get_msg(3).is_none());
    assert!(buffer.get_msg(7).is_some());
}

#[test]
fn full_buffer_prefers_lower_views() {
    let cost = {
        let mut probe = ProgressMessageBuffer::new(u64::MAX);
        assert!(probe.insert(new_view(1, 1), [0u8; 32]));
        probe.buffer_size()
    };
    // Room for exactly two messages.
    let mut buffer = ProgressMessageBuffer::new(2 * cost);
    assert!(buffer.insert(new_view(1, 8), [1u8; 32]));
    assert!(buffer.insert(new_view(1, 9), [2u8; 32]));
    // A message of a higher view than any buffered one is refused when full.
    assert!(!buffer.insert(new_view(1, 10), [3u8; 32]));
    // A message of a lower view pushes out the latest message of the highest view.
    assert!(buffer.insert(new_view(1, 6), [4u8; 32]));
    assert!(buffer.get_msg(9).is_none());
    assert!(buffer.get_msg(8).is_some());
    assert!(buffer.get_msg(6).is_some());
}

#[test]
fn remove_highest_viewed_msgs_drops_from_the_back() {
    let mut buffer = ProgressMessageBuffer::new(u64::MAX);
    assert!(buffer.insert(new_view(1, 2), [1u8; 32]));
    assert!(buffer.insert(new_view(1, 3), [2u8; 32]));
    let before = buffer.buffer_size();
    buffer.remove_highest_viewed_msgs(1);
    assert!(buffer.get_msg(3).is_none());
    assert!(buffer.buffer_size() < before);
    assert!(buffer.get_msg(2).is_some());
}

#[test]
fn stub_takes_current_buffers_future_and_drops_other_chains() {
    let mut stub = ProgressMessageStub::new(1_000_000);
    let now = stub.on_received(1, 5, [1u8; 32], ProgressMessage::HotStuffMessage(new_view(1, 5)));
    assert!(now.is_some());
    let later = stub.on_received(1, 5, [2u8; 32], ProgressMessage::HotStuffMessage(new_view(1, 6)));
    assert!(later.is_none());
    let other = stub.on_received(1, 5, [3u8; 32], ProgressMessage::HotStuffMessage(new_view(2, 5)));
    assert!(other.is_none());
    let past = stub.on_received(1, 5, [4u8; 32], ProgressMessage::HotStuffMessage(new_view(1, 4)));
    assert!(past.is_none());
    let ad = BlockSyncAdvertiseMessage::advertise_pc(QuorumCertificate::genesis_qc());
    let ad_msg = stub.on_received(0, 5, [5u8; 32], ProgressMessage::BlockSyncAdvertiseMessage(ad));
    assert!(ad_msg.is_some());
    assert!(stub.recv_buffered(5).is_none());
    let (sender, msg) = stub.recv_buffered(6).expect("the view 6 message was buffered");
    assert_eq!(sender, [2u8; 32]);
    assert!(!msg.is_block_sync_trigger_msg());
    assert_eq!(msg.view(), Some(6));
}

/// The cost of buffering one `NewView` message with its sender's key.
fn new_view_cost() -> u64 {
    let mut probe = ProgressMessageBuffer::new(u64::MAX);
    assert!(probe.insert(new_view(1, 1), [0u8; 32]));
    probe.buffer_size()
}

#[test]
fn removing_from_the_highest_view_takes_its_latest_message() {
    let m = new_view_cost();
    let mut buffer = ProgressMessageBuffer::new(10 * m);
    assert!(buffer.insert(new_view(0, 5), [1u8; 32]));
    assert!(buffer.insert(new_view(0, 7), [2u8; 32]));
    assert!(buffer.insert(new_view(0, 7), [3u8; 32]));
    buffer.remove_highest_viewed_msgs(m);
    assert_eq!(buffer.buffer_size(), 2 * m);
    let (sender, _) = buffer.get_msg(7).expect("one message of view 7 is left");
    assert_eq!(sender, [2u8; 32]);
    assert!(buffer.get_msg(7).is_none());
    let (sender, _) = buffer.get_msg(5).expect("the message of view 5 is left");
    assert_eq!(sender, [1u8; 32]);
}

#[test]
fn recorded_size_follows_the_buffered_messages() {
    let m = new_view_cost();
    let mut buffer = ProgressMessageBuffer::new(10 * m);
    assert!(buffer.insert(new_view(0, 3), [1u8; 32]));
    assert!(buffer.insert(new_view(0, 4), [2u8; 32]));
    assert!(buffer.insert(new_view(0, 9), [3u8; 32]));
    assert_eq!(buffer.buffer_size(), 3 * m);
    assert!(buffer.get_msg(4).is_some());
    assert_eq!(buffer.buffer_size(), 2 * m);
    buffer.remove_expired_msgs(5);
    assert_eq!(buffer.buffer_size(), m);
    assert!(buffer.get_msg(9).is_some());
    assert_eq!(buffer.buffer_size(), 0);
}

#[test]
fn taking_messages_makes_room_for_more() {
    let m = new_view_cost();
    let mut buffer = ProgressMessageBuffer::new(2 * m);
    assert!(buffer.insert(new_view(0, 8), [1u8; 32]));
    assert!(buffer.insert(new_view(0, 9), [2u8; 32]));
    assert!(buffer.get_msg(9).is_some());
    // The taken message's bytes are free again: a higher view fits.
    assert!(buffer.insert(new_view(0, 10), [3u8; 32]));
    assert_eq!(buffer.buffer_size(), 2 * m);
}

#[test]
fn recv_buffered_takes_the_earliest_message_of_the_view() {
    let mut stub = ProgressMessageStub::new(1_000_000);
    assert!(stub.on_received(0, 1, [1u8; 32], ProgressMessage::HotStuffMessage(new_view(0, 2))).is_none());
    assert!(stub.on_received(0, 1, [2u8; 32], ProgressMessage::HotStuffMessage(new_view(0, 3))).is_none());
    assert!(stub.on_received(0, 1, [3u8; 32], ProgressMessage::HotStuffMessage(new_view(0, 3))).is_none());
    // View 2's message expires once the replica is in view 3.
    let (sender, _) = stub.recv_buffered(3).expect("two messages of view 3");
    assert_eq!(sender, [2u8; 32]);
    let (sender, _) = stub.recv_buffered(3).expect("one message of view 3 left");
    assert_eq!(sender, [3u8; 32]);
    assert!(stub.recv_buffered(3).is_none());
    assert!(stub.recv_buffered(2).is_none());
}

#[test]
fn a_message_larger_than_the_capacity_is_refused() {
    let m = new_view_cost();
    let mut buffer = ProgressMessageBuffer::new(m - 1);
    assert!(!buffer.insert(new_view(0, 3), [1u8; 32]));
    assert_eq!(buffer.buffer_size(), 0);
    assert!(buffer.get_msg(3).is_none());
    let mut empty = ProgressMessageBuffer::new(0);
    assert!(!empty.insert(new_view(0, 3), [1u8; 32]));
    assert_eq!(empty.buffer_size(), 0);
}
