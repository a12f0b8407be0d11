use tcp_endpoint::tcp::{Connection, Segment, TcpState};

fn seg(seq: u32, ack: u32, syn: bool, ackf: bool, fin: bool, len: usize) -> Segment {
    Segment { seq_number: seq, ack_number: ack, syn, ack: ackf, fin, rst: false, window: 1000, len }
}

fn tcb(s: &TcpState) -> tcp_endpoint::tcp::Tcb {
    match *s {
        TcpState::SynRecvd(t)
        | TcpState::Established(t)
        | TcpState::CloseWait(t)
        | TcpState::LastAck(t)
        | TcpState::FinWait1(t)
        | TcpState::FinWait2(t)
        | TcpState::Closing(t)
        | TcpState::TimeWait(t) => t,
        _ => panic!("no sequence state in {:?}", s),
    }
}

const ISN: u32 = 7000;

fn established() -> TcpState {
    let mut s = TcpState::listen(ISN);
    s.on_packet(&seg(100, 0, true, false, false, 0));
    s.on_packet(&seg(101, ISN + 1, false, true, false, 0));
    assert!(matches!(s, TcpState::Established(_)));
    s
}

#[test]
fn new_connection_listens() {
    assert_eq!(Connection::new(42).state, TcpState::Listen { iss: 42 });
    assert_eq!(Connection::default().state, TcpState::Listen { iss: 0 });
}

#[test]
fn handshake_syn_gets_syn_ack() {
    let mut s = TcpState::listen(ISN);
    let r = s.on_packet(&seg(100, 0, true, false, false, 0)).expect("a reply");
    assert!(r.syn && r.ack && !r.fin && !r.rst);
    assert_eq!(r.ack_number, 101);
    assert_eq!(r.seq_number, ISN);
    assert!(matches!(s, TcpState::SynRecvd(_)));
    let t = tcb(&s);
    assert_eq!(t.rcvd.irs, 100);
    assert_eq!(t.rcvd.nxt, 101);
    assert_eq!(t.send.una, ISN);
    assert_eq!(t.send.nxt, ISN + 1);
}

#[test]
fn listen_ignores_non_syn() {
    let mut s = TcpState::listen(ISN);
    assert_eq!(s.on_packet(&seg(100, 5, false, true, false, 0)), None);
    assert_eq!(s, TcpState::Listen { iss: ISN });
    assert_eq!(s.on_packet(&seg(100, 5, true, true, false, 0)), None);
    assert_eq!(s, TcpState::Listen { iss: ISN });
}

#[test]
fn handshake_completes_on_ack() {
    let mut s = TcpState::listen(ISN);
    s.on_packet(&seg(100, 0, true, false, false, 0));
    let r = s.on_packet(&seg(101, ISN + 1, false, true, false, 0));
    assert_eq!(r, None);
    assert!(matches!(s, TcpState::Established(_)));
    assert_eq!(tcb(&s).send.una, ISN + 1);
}

#[test]
fn duplicate_syn_resends_syn_ack() {
    let mut s = TcpState::listen(ISN);
    let first = s.on_packet(&seg(100, 0, true, false, false, 0));
    let before = s;
    let again = s.on_packet(&seg(100, 0, true, false, false, 0));
    assert_eq!(first, again);
    assert_eq!(s, before);
}

#[test]
fn syn_recvd_wrong_ack_does_not_establish() {
    let mut s = TcpState::listen(ISN);
    s.on_packet(&seg(100, 0, true, false, false, 0));
    let before = s;
    assert_eq!(s.on_packet(&seg(101, ISN + 5, false, true, false, 0)), None);
    assert_eq!(s, before);
}

#[test]
fn data_advances_rcv_nxt_and_is_acked() {
    let mut s = established();
    let r = s.on_packet(&seg(101, ISN + 1, false, true, false, 10)).expect("an ack");
    assert!(r.ack && !r.syn && !r.fin);
    assert_eq!(r.ack_number, 111);
    assert_eq!(r.seq_number, ISN + 1);
    assert_eq!(tcb(&s).rcvd.nxt, 111);
}

#[test]
fn stale_and_duplicate_segments_do_not_move_state_back() {
    let mut s = established();
    s.on_packet(&seg(101, ISN + 1, false, true, false, 10));
    let before = tcb(&s);
    // a duplicate of the data segment and a segment from far behind
    for g in [seg(101, ISN + 1, false, true, false, 10), seg(5, ISN, false, true, false, 3)] {
        let r = s.on_packet(&g).expect("a corrective ack");
        assert_eq!(r.ack_number, before.rcvd.nxt);
        assert_eq!(r.seq_number, before.send.nxt);
        let now = tcb(&s);
        assert_eq!(now.rcvd.nxt, before.rcvd.nxt);
        assert_eq!(now.send.una, before.send.una);
        assert!(matches!(s, TcpState::Established(_)));
    }
}

#[test]
fn out_of_order_data_is_dropped() {
    let mut s = established();
    let before = s;
    let r = s.on_packet(&seg(105, ISN + 1, false, true, false, 4)).expect("an ack");
    assert_eq!(r.ack_number, 101);
    assert_eq!(s, before);
}

#[test]
fn fin_moves_to_close_wait_then_last_ack_then_closed() {
    let mut s = established();
    let r = s.on_packet(&seg(101, ISN + 1, false, true, true, 0)).expect("an ack of the fin");
    assert_eq!(r.ack_number, 102);
    assert!(matches!(s, TcpState::CloseWait(_)));
    // no segment from the peer closes it now
    s.on_packet(&seg(102, ISN + 1, false, true, false, 0));
    assert!(matches!(s, TcpState::CloseWait(_)));
    let fin = s.close().expect("our fin");
    assert!(fin.fin && fin.ack);
    assert_eq!(fin.seq_number, ISN + 1);
    assert_eq!(fin.ack_number, 102);
    assert!(matches!(s, TcpState::LastAck(_)));
    // an ack that does not cover our FIN keeps us waiting
    s.on_packet(&seg(102, ISN + 1, false, true, false, 0));
    assert!(matches!(s, TcpState::LastAck(_)));
    s.on_packet(&seg(102, ISN + 2, false, true, false, 0));
    assert_eq!(s, TcpState::Closed);
}

#[test]
fn active_close_through_fin_wait() {
    let mut s = established();
    let fin = s.close().expect("our fin");
    assert_eq!(fin.seq_number, ISN + 1);
    assert!(matches!(s, TcpState::FinWait1(_)));
    s.on_packet(&seg(101, ISN + 2, false, true, false, 0));
    assert!(matches!(s, TcpState::FinWait2(_)));
    let r = s.on_packet(&seg(101, ISN + 2, false, true, true, 0)).expect("an ack");
    assert_eq!(r.ack_number, 102);
    assert!(matches!(s, TcpState::TimeWait(_)));
}

#[test]
fn simultaneous_close_goes_through_closing() {
    let mut s = established();
    s.close();
    s.on_packet(&seg(101, ISN + 1, false, true, true, 0));
    assert!(matches!(s, TcpState::Closing(_)));
    s.on_packet(&seg(102, ISN + 2, false, true, false, 0));
    assert!(matches!(s, TcpState::TimeWait(_)));
}

#[test]
fn closed_ignores_everything_and_rst_is_dropped() {
    let mut s = TcpState::Closed;
    assert_eq!(s.on_packet(&seg(1, 1, true, false, false, 0)), None);
    assert_eq!(s, TcpState::Closed);
    let mut e = established();
    let before = e;
    let mut r = seg(101, ISN + 1, false, true, false, 0);
    r.rst = true;
    assert_eq!(e.on_packet(&r), None);
    assert_eq!(e, before);
}

#[test]
fn close_while_listening_closes() {
    let mut s = TcpState::listen(1);
    assert_eq!(s.close(), None);
    assert_eq!(s, TcpState::Closed);
}

#[test]
fn sequence_numbers_wrap_in_handshake() {
    let mut s = TcpState::listen(0xFFFF_FFFF);
    let r = s.on_packet(&seg(0xFFFF_FFFF, 0, true, false, false, 0)).unwrap();
    assert_eq!(r.ack_number, 0);
    assert_eq!(r.seq_number, 0xFFFF_FFFF);
    s.on_packet(&seg(0, 0, false, true, false, 0));
    assert!(matches!(s, TcpState::Established(_)));
    assert_eq!(tcb(&s).send.una, 0);
}

#[test]
fn handshake_ack_with_data_is_taken_in_once() {
    let mut s = TcpState::listen(0);
    s.on_packet(&seg(100, 0, true, false, false, 0));
    let g = seg(101, 1, false, true, false, 10);
    let r = s.on_packet(&g).expect("an ack of the data");
    assert_eq!(r.ack_number, 111);
    assert!(matches!(s, TcpState::Established(_)));
    assert_eq!(tcb(&s).rcvd.nxt, 111);
    assert_eq!(tcb(&s).send.una, 1);
    let after_first = s;
    let r = s.on_packet(&g).expect("a corrective ack");
    assert_eq!(r.ack_number, 111);
    assert_eq!(s, after_first);
}

#[test]
fn handshake_ack_with_fin_goes_to_close_wait() {
    let mut s = TcpState::listen(0);
    s.on_packet(&seg(100, 0, true, false, false, 0));
    let g = seg(101, 1, false, true, true, 0);
    let r = s.on_packet(&g).expect("an ack of the fin");
    assert_eq!(r.ack_number, 102);
    assert!(matches!(s, TcpState::CloseWait(_)));
    let after_first = s;
    s.on_packet(&g);
    assert_eq!(s, after_first);
}

#[test]
fn ack_across_the_wrap_point_advances_una() {
    // our FIN occupies 0xFFFF_FFFF; its acknowledgment is 0
    let mut s = TcpState::listen(0xFFFF_FFFD);
    s.on_packet(&seg(100, 0, true, false, false, 0));
    s.on_packet(&seg(101, 0xFFFF_FFFE, false, true, false, 0));
    s.on_packet(&seg(101, 0xFFFF_FFFE, false, true, false, 0));
    assert_eq!(tcb(&s).send.una, 0xFFFF_FFFE);
    s.close();
    assert!(matches!(s, TcpState::FinWait1(_)));
    assert_eq!(tcb(&s).send.nxt, 0xFFFF_FFFF);
    // an old acknowledgment changes nothing
    s.on_packet(&seg(101, 0xFFFF_FFFD, false, true, false, 0));
    assert_eq!(tcb(&s).send.una, 0xFFFF_FFFE);
    assert!(matches!(s, TcpState::FinWait1(_)));
    s.on_packet(&seg(101, 0xFFFF_FFFF, false, true, false, 0));
    assert_eq!(tcb(&s).send.una, 0xFFFF_FFFF);
    assert!(matches!(s, TcpState::FinWait2(_)));
}

#[test]
fn ack_to_zero_from_top_of_range() {
    let mut s = TcpState::listen(0xFFFF_FFFE);
    s.on_packet(&seg(100, 0, true, false, false, 0));
    s.on_packet(&seg(101, 0xFFFF_FFFF, false, true, false, 0));
    s.close();
    assert_eq!(tcb(&s).send.una, 0xFFFF_FFFF);
    assert_eq!(tcb(&s).send.nxt, 0);
    s.on_packet(&seg(101, 0, false, true, false, 0));
    assert_eq!(tcb(&s).send.una, 0);
    assert!(matches!(s, TcpState::FinWait2(_)));
}
