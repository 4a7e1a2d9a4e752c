use netcore::buf::{IoBuf, IoBufs};
use netcore::encoder::PacketWriteInfo;
use netcore::packets::{Broadcast, Packets};
use netcore::server::{Fd, RefreshItems, Server, ServerEvent, WriteOp};
use netcore::S2C_BUFFER_SIZE;
use std::collections::HashSet;

fn region(start_ptr: usize, len: u32) -> PacketWriteInfo {
    PacketWriteInfo { start_ptr, len }
}

fn op(fd: usize, shard: usize, start_ptr: usize, len: u32) -> WriteOp {
    WriteOp { fd: Fd(fd), shard, start_ptr, len }
}

fn registered() -> Server {
    let mut server = Server::new();
    server.allocate_buffers(&[S2C_BUFFER_SIZE, S2C_BUFFER_SIZE]);
    server
}

#[test]
fn connections_are_told_apart_by_equality() {
    assert_eq!(Fd(3), Fd(3));
    assert_ne!(Fd(3), Fd(4));
    let copy = Fd(3);
    let set: HashSet<Fd> = [Fd(3), copy, Fd(4)].into_iter().collect();
    assert_eq!(set.len(), 2);
}

#[test]
fn every_event_names_its_connection() {
    let data = [1u8, 2, 3];
    assert_eq!(ServerEvent::AddPlayer { fd: Fd(1) }.fd(), Fd(1));
    assert_eq!(ServerEvent::RemovePlayer { fd: Fd(2) }.fd(), Fd(2));
    assert_eq!(ServerEvent::RecvData { fd: Fd(3), data: &data }.fd(), Fd(3));
    assert_eq!(ServerEvent::SentData { fd: Fd(4) }.fd(), Fd(4));
    match (ServerEvent::RecvData { fd: Fd(3), data: &data }) {
        ServerEvent::RecvData { data, .. } => assert_eq!(data, &[1, 2, 3]),
        _ => panic!("another event"),
    }
}

#[test]
fn a_new_loop_has_nothing_registered_and_nothing_to_submit() {
    let mut server = Server::new();
    assert!(!server.is_registered());
    assert_eq!(server.submit_events(), vec![]);
    server.allocate_buffers(&[16, 32]);
    assert!(server.is_registered());
    assert_eq!(server.submit_events(), vec![]);
}

#[test]
fn own_writes_go_out_before_broadcast_writes() {
    let a = IoBuf::new(None, 0);
    let b = IoBuf::new(None, 1);
    let mut own = Packets::new(2);
    own.push(region(100, 10), &a);
    own.push(region(300, 5), &a);
    own.push(region(40, 4), &b);
    let mut broadcast = Broadcast::from(Packets::new(2));
    broadcast.push(region(0, 8), &a);
    broadcast.push(region(20, 2), &b);

    let mut server = registered();
    server.write_all(&broadcast, vec![RefreshItems { write: own.get_write(), fd: Fd(7) }]);
    assert_eq!(
        server.submit_events(),
        vec![
            op(7, 0, 100, 10),
            op(7, 0, 300, 5),
            op(7, 1, 40, 4),
            op(7, 0, 0, 8),
            op(7, 1, 20, 2),
        ]
    );
}

#[test]
fn connections_are_flushed_in_the_order_given() {
    let a = IoBuf::new(None, 0);
    let mut first = Packets::new(1);
    first.push(region(0, 1), &a);
    let mut second = Packets::new(1);
    second.push(region(10, 2), &a);
    second.push(region(20, 3), &a);
    let third = Packets::new(1);
    let mut broadcast = Broadcast::from(Packets::new(1));
    broadcast.push(region(50, 5), &a);

    let mut server = registered();
    server.write_all(
        &broadcast,
        vec![
            RefreshItems { write: second.get_write(), fd: Fd(2) },
            RefreshItems { write: first.get_write(), fd: Fd(1) },
            RefreshItems { write: third.get_write(), fd: Fd(3) },
        ],
    );
    assert_eq!(
        server.submit_events(),
        vec![
            op(2, 0, 10, 2),
            op(2, 0, 20, 3),
            op(2, 0, 50, 5),
            op(1, 0, 0, 1),
            op(1, 0, 50, 5),
            op(3, 0, 50, 5),
        ]
    );
}

#[test]
fn a_flush_leaves_the_queues_and_the_counts_alone() {
    let a = IoBuf::new(None, 0);
    let mut own = Packets::new(1);
    own.push(region(0, 1), &a);
    assert_eq!(own.prepare_for_send(), 1);
    let broadcast = Broadcast::from(Packets::new(1));
    let mut server = registered();
    server.write_all(&broadcast, vec![RefreshItems { write: own.get_write(), fd: Fd(1) }]);
    assert_eq!(own.get_write()[0].len(), 1);
    assert_eq!(own.number_sending(), 1);
    assert_eq!(server.submit_events().len(), 1);
    own.set_successfully_sent(1);
    assert!(own.can_send());
}

#[test]
fn writes_pile_up_until_they_are_submitted() {
    let a = IoBuf::new(None, 0);
    let mut own = Packets::new(1);
    own.push(region(0, 1), &a);
    let broadcast = Broadcast::from(Packets::new(1));
    let mut server = registered();
    server.write_all(&broadcast, vec![RefreshItems { write: own.get_write(), fd: Fd(1) }]);
    server.write_all(&broadcast, vec![]);
    server.write_all(&broadcast, vec![RefreshItems { write: own.get_write(), fd: Fd(2) }]);
    assert_eq!(server.submit_events(), vec![op(1, 0, 0, 1), op(2, 0, 0, 1)]);
    assert_eq!(server.submit_events(), vec![]);
    assert!(server.is_registered());
}

#[test]
fn a_flush_with_nothing_queued_issues_nothing() {
    let own = Packets::new(3);
    let broadcast = Broadcast::from(Packets::new(3));
    let mut server = registered();
    server.write_all(&broadcast, vec![RefreshItems { write: own.get_write(), fd: Fd(1) }]);
    assert_eq!(server.submit_events(), vec![]);
}

#[test]
fn a_whole_tick_from_append_to_completion() {
    let mut server = Server::new();
    let mut bufs = IoBufs::init(None, 2, &mut server);
    let mut player = Packets::new(2);
    let mut broadcast = Broadcast::from(Packets::new(2));

    player.append_raw(&[1; 4], bufs.get_mut(0));
    broadcast.append_raw(&[2; 6], bufs.get_mut(0));
    player.append_raw(&[3; 4], bufs.get_mut(1));
    player.append_raw(&[4; 2], bufs.get_mut(1));

    assert!(player.can_send());
    assert_eq!(player.prepare_for_send(), 2);
    assert!(broadcast.can_send());
    assert_eq!(broadcast.prepare_for_send(), 1);

    server.write_all(&broadcast, vec![RefreshItems { write: player.get_write(), fd: Fd(9) }]);
    let writes = server.submit_events();
    assert_eq!(writes, vec![op(9, 0, 0, 4), op(9, 1, 0, 6), op(9, 0, 4, 6)]);

    let mut sent = Vec::new();
    for write in &writes {
        let ring = bufs.get_mut(write.shard).buf_mut();
        sent.extend_from_slice(
            &ring.as_slice()[write.start_ptr..write.start_ptr + write.len as usize],
        );
    }
    assert_eq!(sent, vec![1, 1, 1, 1, 3, 3, 3, 3, 4, 4, 2, 2, 2, 2, 2, 2]);

    assert!(!player.can_send());
    player.set_successfully_sent(2);
    broadcast.set_successfully_sent(1);
    player.clear();
    broadcast.clear();
    assert!(!player.can_send());
    assert!(!broadcast.can_send());
    player.append_raw(&[5; 1], bufs.get_mut(0));
    assert!(player.can_send());
}
