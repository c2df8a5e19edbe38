use snap_issue_reproducer::client::Emitter;
use snap_issue_reproducer::message::encode_probe;
use snap_issue_reproducer::message::Inbound;
use snap_issue_reproducer::server::echo_response;

#[test]
fn server_drops_empty_but_echoes_one_byte() {
    let buf: Vec<u8> = vec![0x5A; 16];
    assert_eq!(echo_response(&buf, 0), None);
    assert_eq!(echo_response(&buf, 1), Some(vec![0x5A]));
}

#[test]
fn server_echoes_exactly_the_received_length() {
    let mut buf: Vec<u8> = vec![0xAB; 65536];
    let payload = b"hello over the wire";
    buf[..payload.len()].copy_from_slice(payload);
    let echoed = echo_response(&buf, payload.len());
    assert_eq!(echoed, Some(payload.to_vec()));
}

#[test]
fn send_counter_moves_only_on_successful_sends() {
    let mut e = Emitter::new();
    assert_eq!(e.send_count, 0);
    e.record_send(true);
    assert_eq!(e.send_count, 1);
    e.record_send(false);
    assert_eq!(e.send_count, 1);
    let inbound = encode_probe(900);
    let len = inbound.len();
    let seen = e.on_datagram(&inbound, len);
    assert_eq!(seen, Inbound::Probe { count: 900 });
    assert_eq!(e.send_count, 1);
    e.record_send(true);
    assert_eq!(e.send_count, 2);
}

#[test]
fn ping_is_echoed_and_recognized() {
    let mut client = Emitter::new();
    let message = client.tick_message();
    assert_eq!(message, b"Ping send_count=0".to_vec());
    assert_eq!(message.len(), 17);
    client.record_send(true);

    let mut server_buf: Vec<u8> = vec![0u8; 65536];
    server_buf[..message.len()].copy_from_slice(&message);
    let echoed = echo_response(&server_buf, message.len()).unwrap();
    assert_eq!(echoed, message);

    let mut client_buf: Vec<u8> = vec![0u8; 65536];
    client_buf[..echoed.len()].copy_from_slice(&echoed);
    let seen = client.on_datagram(&client_buf, echoed.len());
    assert_eq!(seen, Inbound::Probe { count: 0 });
    assert_eq!(client.send_count, 1);
}

#[test]
fn three_ticks_carry_counters_zero_one_two() {
    let mut e = Emitter::new();
    let mut sent: Vec<Vec<u8>> = Vec::new();
    for _ in 0..3 {
        sent.push(e.tick_message());
        e.record_send(true);
    }
    assert_eq!(sent[0], b"Ping send_count=0".to_vec());
    assert_eq!(sent[1], b"Ping send_count=1".to_vec());
    assert_eq!(sent[2], b"Ping send_count=2".to_vec());
    assert_eq!(e.send_count, 3);
}
