//! The per-connection TCP state machine and its sequence spaces.
use vstd::prelude::*;
use crate::seq::{
    is_acceptable, lemma_advance_not_before, seq_add, seq_advance, seq_lt, spec_acceptable,
    spec_seq_le, spec_seq_lt,
};

verus! {

/// The header fields of one TCP segment that the state machine reads or writes,
/// together with the length of its payload.
#[derive(Clone, Copy, Debug, PartialEq, Eq)]
pub struct Segment {
    pub seq_number: u32,
    pub ack_number: u32,
    pub syn: bool,
    pub ack: bool,
    pub fin: bool,
    pub rst: bool,
    pub window: u16,
    /// Number of payload octets.
    pub len: usize,
}

/// The local send sequence space.
#[derive(Clone, Copy, Debug, PartialEq, Eq)]
pub struct SendSequenceSpace {
    /// Initial send sequence number.
    pub iss: u32,
    /// Oldest unacknowledged sequence number.
    pub una: u32,
    /// Next sequence number to send.
    pub nxt: u32,
    /// Window advertised by the peer.
    pub wnd: u16,
    /// Urgent data pending.
    pub up: bool,
}

/// The local receive sequence space.
#[derive(Clone, Copy, Debug, PartialEq, Eq)]
pub struct ReceiveSequenceSpace {
    /// Initial receive sequence number, set when the SYN is accepted.
    pub irs: u32,
    /// Next sequence number expected from the peer.
    pub nxt: u32,
    /// Receive window.
    pub wnd: u16,
}

/// Sequence state of a connection once a SYN has been accepted.
#[derive(Clone, Copy, Debug, PartialEq, Eq)]
pub struct Tcb {
    pub send: SendSequenceSpace,
    pub rcvd: ReceiveSequenceSpace,
}

/// The state of one connection. States past `Listen` carry their sequence spaces,
/// so none can be read before the handshake has set them.
#[derive(Clone, Copy, Debug, PartialEq, Eq)]
pub enum TcpState {
    Closed,
    /// Waiting for a SYN; `iss` is the initial sequence number this side will use.
    Listen { iss: u32 },
    SynRecvd(Tcb),
    Established(Tcb),
    CloseWait(Tcb),
    LastAck(Tcb),
    FinWait1(Tcb),
    FinWait2(Tcb),
    Closing(Tcb),
    TimeWait(Tcb),
}

/// One connection: the state of a single flow.
#[derive(Clone, Copy, Debug, PartialEq, Eq)]
pub struct Connection {
    pub state: TcpState,
}

impl Connection {
    /// A connection waiting for its peer's SYN, which will answer with the
    /// initial sequence number `iss`.
    pub fn new(iss: u32) -> (r: Connection)
        ensures
            r.state == (TcpState::Listen { iss }),
    {
        Connection { state: TcpState::listen(iss) }
    }
}

impl Default for Connection {
    /// A listening connection with initial sequence number 0.
    fn default() -> (r: Connection)
        ensures
            r.state == (TcpState::Listen { iss: 0 }),
    {
        Connection::new(0)
    }
}

/// A plain acknowledgment carrying the current `send.nxt` and `rcvd.nxt`.
pub open spec fn ack_reply(t: Tcb) -> Segment {
    Segment {
        seq_number: t.send.nxt,
        ack_number: t.rcvd.nxt,
        syn: false,
        ack: true,
        fin: false,
        rst: false,
        window: t.rcvd.wnd,
        len: 0,
    }
}

/// The SYN+ACK answering the peer's SYN: sequence number ISN, acknowledging `irs + 1`.
pub open spec fn syn_ack_reply(t: Tcb) -> Segment {
    Segment {
        seq_number: t.send.iss,
        ack_number: t.rcvd.nxt,
        syn: true,
        ack: true,
        fin: false,
        rst: false,
        window: t.rcvd.wnd,
        len: 0,
    }
}

/// The FIN that the local side sends when it closes.
pub open spec fn fin_reply(t: Tcb) -> Segment {
    Segment {
        seq_number: t.send.nxt,
        ack_number: t.rcvd.nxt,
        syn: false,
        ack: true,
        fin: true,
        rst: false,
        window: t.rcvd.wnd,
        len: 0,
    }
}

/// Sequence state right after accepting the SYN `g` in `Listen` with initial
/// sequence number `iss`; the SYN+ACK about to be sent occupies `iss`.
pub open spec fn tcb_after_syn(iss: u32, g: Segment) -> Tcb {
    Tcb {
        send: SendSequenceSpace { iss, una: iss, nxt: seq_add(iss, 1), wnd: g.window, up: false },
        rcvd: ReceiveSequenceSpace { irs: g.seq_number, nxt: seq_add(g.seq_number, 1), wnd: g.window },
    }
}

/// `ack` acknowledges something new: `una < ack <= nxt` in wrap-aware order.
pub open spec fn acks_new(s: SendSequenceSpace, ack: u32) -> bool {
    spec_seq_lt(s.una, ack) && !spec_seq_lt(s.nxt, ack)
}

/// The sequence state of a connection, in the states that have one.
pub open spec fn tcb_of(s: TcpState) -> Option<Tcb> {
    match s {
        TcpState::Closed => None,
        TcpState::Listen { .. } => None,
        TcpState::SynRecvd(t) => Some(t),
        TcpState::Established(t) => Some(t),
        TcpState::CloseWait(t) => Some(t),
        TcpState::LastAck(t) => Some(t),
        TcpState::FinWait1(t) => Some(t),
        TcpState::FinWait2(t) => Some(t),
        TcpState::Closing(t) => Some(t),
        TcpState::TimeWait(t) => Some(t),
    }
}

/// States in which the peer may still send data and its FIN.
pub open spec fn receiving(s: TcpState) -> bool {
    s is Established || s is FinWait1 || s is FinWait2
}

impl TcpState {
    /// Well-formedness of a connection state: in states where nothing of ours is
    /// outstanding `send.una == send.nxt`; in those where our SYN or FIN awaits
    /// its acknowledgment, `send.nxt` is exactly one past `send.una`.
    pub open spec fn wf(self) -> bool {
        match self {
            TcpState::Closed => true,
            TcpState::Listen { .. } => true,
            TcpState::Established(t) => t.send.una == t.send.nxt,
            TcpState::CloseWait(t) => t.send.una == t.send.nxt,
            TcpState::FinWait2(t) => t.send.una == t.send.nxt,
            TcpState::TimeWait(t) => t.send.una == t.send.nxt,
            TcpState::SynRecvd(t) => t.send.nxt == seq_add(t.send.una, 1),
            TcpState::LastAck(t) => t.send.nxt == seq_add(t.send.una, 1),
            TcpState::FinWait1(t) => t.send.nxt == seq_add(t.send.una, 1),
            TcpState::Closing(t) => t.send.nxt == seq_add(t.send.una, 1),
        }
    }
}

/// The local side closes its half of the connection: from `Established` or
/// `CloseWait` it sends a FIN and moves to `FinWait1` or `LastAck`; a connection
/// still listening closes at once; in every other state nothing happens.
pub open spec fn close_step(s: TcpState) -> (TcpState, Option<Segment>) {
    match s {
        TcpState::Listen { .. } => (TcpState::Closed, None),
        TcpState::Established(t) => (
            TcpState::FinWait1(Tcb { send: SendSequenceSpace { nxt: seq_add(t.send.nxt, 1), ..t.send }, ..t }),
            Some(fin_reply(t)),
        ),
        TcpState::CloseWait(t) => (
            TcpState::LastAck(Tcb { send: SendSequenceSpace { nxt: seq_add(t.send.nxt, 1), ..t.send }, ..t }),
            Some(fin_reply(t)),
        ),
        _ => (s, None),
    }
}

/// The state after a synchronized connection in `s` has accepted an in-order
/// segment `g`, with its sequence state updated to `t`.
pub open spec fn after_in_order(s: TcpState, g: Segment, t: Tcb) -> TcpState {
    let fin_acked = t.send.una == t.send.nxt;
    match s {
        TcpState::Established(_) => if g.fin { TcpState::CloseWait(t) } else { TcpState::Established(t) },
        TcpState::CloseWait(_) => TcpState::CloseWait(t),
        TcpState::LastAck(_) => if fin_acked { TcpState::Closed } else { TcpState::LastAck(t) },
        TcpState::FinWait1(_) => if g.fin {
            if fin_acked { TcpState::TimeWait(t) } else { TcpState::Closing(t) }
        } else {
            if fin_acked { TcpState::FinWait2(t) } else { TcpState::FinWait1(t) }
        },
        TcpState::FinWait2(_) => if g.fin { TcpState::TimeWait(t) } else { TcpState::FinWait2(t) },
        TcpState::Closing(_) => if fin_acked { TcpState::TimeWait(t) } else { TcpState::Closing(t) },
        _ => TcpState::TimeWait(t),
    }
}

/// An in-order segment that a synchronized connection takes in: it passes the
/// acceptability test, starts at `rcvd.nxt`, fits the window and carries no SYN.
pub open spec fn in_order(t: Tcb, g: Segment) -> bool {
    &&& spec_acceptable(g.seq_number, g.len as nat, t.rcvd.nxt, t.rcvd.wnd)
    &&& g.seq_number == t.rcvd.nxt
    &&& g.len <= t.rcvd.wnd
    &&& !g.syn
}

/// Sequence state after the in-order segment `g`: `send.una` advances to a new
/// acknowledgment, and in a receiving state `rcvd.nxt` moves past the payload and FIN.
pub open spec fn tcb_after(s: TcpState, t: Tcb, g: Segment) -> Tcb {
    let send = if g.ack && acks_new(t.send, g.ack_number) {
        SendSequenceSpace { una: g.ack_number, wnd: g.window, ..t.send }
    } else {
        t.send
    };
    let consumed = if receiving(s) { g.len as int + if g.fin { 1int } else { 0int } } else { 0int };
    Tcb { send, rcvd: ReceiveSequenceSpace { nxt: seq_add(t.rcvd.nxt, consumed), ..t.rcvd } }
}

/// Transition of a synchronized connection (past `SynRecvd`) in `s`, with sequence
/// state `t`, on segment `g`: a segment that is not in order is answered with an
/// acknowledgment of the current state and changes nothing.
pub open spec fn synchronized_step(s: TcpState, t: Tcb, g: Segment) -> (TcpState, Option<Segment>) {
    if !in_order(t, g) {
        (s, Some(ack_reply(t)))
    } else {
        let t2 = tcb_after(s, t, g);
        (after_in_order(s, g, t2), if g.len > 0 || g.fin { Some(ack_reply(t2)) } else { None })
    }
}

/// The connection state machine: the state after segment `g` arrives in `s`,
/// and the reply to send, if any. Segments with RST set are dropped.
pub open spec fn step(s: TcpState, g: Segment) -> (TcpState, Option<Segment>) {
    if g.rst {
        (s, None)
    } else {
        match s {
            TcpState::Closed => (s, None),
            TcpState::Listen { iss } => if g.syn && !g.ack {
                let t = tcb_after_syn(iss, g);
                (TcpState::SynRecvd(t), Some(syn_ack_reply(t)))
            } else {
                (s, None)
            },
            TcpState::SynRecvd(t) => if g.syn && !g.ack && g.seq_number == t.rcvd.irs {
                (s, Some(syn_ack_reply(t)))
            } else if !spec_acceptable(g.seq_number, g.len as nat, t.rcvd.nxt, t.rcvd.wnd) {
                (s, Some(ack_reply(t)))
            } else if g.ack && g.ack_number == t.send.nxt {
                let t2 = Tcb { send: SendSequenceSpace { una: g.ack_number, wnd: g.window, ..t.send }, ..t };
                synchronized_step(TcpState::Established(t2), t2, g)
            } else {
                (s, None)
            },
            TcpState::Established(t) => synchronized_step(s, t, g),
            TcpState::CloseWait(t) => synchronized_step(s, t, g),
            TcpState::LastAck(t) => synchronized_step(s, t, g),
            TcpState::FinWait1(t) => synchronized_step(s, t, g),
            TcpState::FinWait2(t) => synchronized_step(s, t, g),
            TcpState::Closing(t) => synchronized_step(s, t, g),
            TcpState::TimeWait(t) => synchronized_step(s, t, g),
        }
    }
}

fn make_ack(t: &Tcb) -> (r: Segment)
    ensures
        r == ack_reply(*t),
{
    Segment {
        seq_number: t.send.nxt,
        ack_number: t.rcvd.nxt,
        syn: false,
        ack: true,
        fin: false,
        rst: false,
        window: t.rcvd.wnd,
        len: 0,
    }
}

fn make_syn_ack(t: &Tcb) -> (r: Segment)
    ensures
        r == syn_ack_reply(*t),
{
    Segment { syn: true, seq_number: t.send.iss, ..make_ack(t) }
}

fn check_acks_new(s: &SendSequenceSpace, ack: u32) -> (r: bool)
    ensures
        r == acks_new(*s, ack),
{
    seq_lt(s.una, ack) && !seq_lt(s.nxt, ack)
}

fn is_receiving(s: &TcpState) -> (r: bool)
    ensures
        r == receiving(*s),
{
    match s {
        TcpState::Established(_) | TcpState::FinWait1(_) | TcpState::FinWait2(_) => true,
        _ => false,
    }
}

/// Applies an in-order segment to the sequence state.
fn update_tcb(s: &TcpState, t: &Tcb, g: &Segment) -> (r: Tcb)
    requires
        in_order(*t, *g),
    ensures
        r == tcb_after(*s, *t, *g),
{
    let mut r = *t;
    if g.ack && check_acks_new(&t.send, g.ack_number) {
        r.send.una = g.ack_number;
        r.send.wnd = g.window;
    }
    if is_receiving(s) {
        let consumed: u32 = g.len as u32 + if g.fin { 1u32 } else { 0u32 };
        r.rcvd.nxt = seq_advance(t.rcvd.nxt, consumed);
    }
    r
}

fn next_state(s: &TcpState, g: &Segment, t: Tcb) -> (r: TcpState)
    ensures
        r == after_in_order(*s, *g, t),
{
    let fin_acked = t.send.una == t.send.nxt;
    match s {
        TcpState::Established(_) => if g.fin { TcpState::CloseWait(t) } else { TcpState::Established(t) },
        TcpState::CloseWait(_) => TcpState::CloseWait(t),
        TcpState::LastAck(_) => if fin_acked { TcpState::Closed } else { TcpState::LastAck(t) },
        TcpState::FinWait1(_) => if g.fin {
            if fin_acked { TcpState::TimeWait(t) } else { TcpState::Closing(t) }
        } else {
            if fin_acked { TcpState::FinWait2(t) } else { TcpState::FinWait1(t) }
        },
        TcpState::FinWait2(_) => if g.fin { TcpState::TimeWait(t) } else { TcpState::FinWait2(t) },
        TcpState::Closing(_) => if fin_acked { TcpState::TimeWait(t) } else { TcpState::Closing(t) },
        _ => TcpState::TimeWait(t),
    }
}

fn synchronized_transition(s: &TcpState, t: &Tcb, g: &Segment) -> (r: (TcpState, Option<Segment>))
    ensures
        r == synchronized_step(*s, *t, *g),
{
    let ok = is_acceptable(g.seq_number, g.len, t.rcvd.nxt, t.rcvd.wnd)
        && g.seq_number == t.rcvd.nxt && g.len <= t.rcvd.wnd as usize && !g.syn;
    if !ok {
        (*s, Some(make_ack(t)))
    } else {
        let t2 = update_tcb(s, t, g);
        let reply = if g.len > 0 || g.fin { Some(make_ack(&t2)) } else { None };
        (next_state(s, g, t2), reply)
    }
}

/// With one sequence number outstanding, the only new acknowledgment is `nxt`;
/// with none outstanding there is none.
proof fn lemma_acks_new_exact(s: SendSequenceSpace, ack: u32)
    ensures
        s.una == s.nxt ==> !acks_new(s, ack),
        s.nxt == seq_add(s.una, 1) && acks_new(s, ack) ==> ack == s.nxt,
{
}

/// Facts about one in-order segment taken in by a synchronized state.
proof fn lemma_tcb_after(s: TcpState, t: Tcb, g: Segment)
    requires
        in_order(t, g),
    ensures
        tcb_after(s, t, g).rcvd.irs == t.rcvd.irs,
        spec_seq_le(t.rcvd.nxt, tcb_after(s, t, g).rcvd.nxt),
        t.send.nxt == seq_add(t.send.una, 1) ==> spec_seq_le(t.send.una, tcb_after(s, t, g).send.una),
        t.send.una == t.send.nxt ==> tcb_after(s, t, g).send == t.send,
        tcb_after(s, t, g).send.nxt == t.send.nxt,
        t.send.nxt == seq_add(t.send.una, 1) ==> (
            tcb_after(s, t, g).send.una == t.send.una || tcb_after(s, t, g).send.una == t.send.nxt),
{
    lemma_acks_new_exact(t.send, g.ack_number);
    lemma_advance_not_before(t.send.una, 1);
    lemma_advance_not_before(t.rcvd.nxt, 0);
    lemma_advance_not_before(t.rcvd.nxt, g.len as int);
    lemma_advance_not_before(t.rcvd.nxt, g.len as int + 1);
}

/// Every transition keeps a connection well formed.
pub proof fn lemma_step_wf(s: TcpState, g: Segment)
    requires
        s.wf(),
    ensures
        step(s, g).0.wf(),
{
    if let Some(t) = tcb_of(s) {
        if in_order(t, g) {
            lemma_tcb_after(s, t, g);
        }
        if s is SynRecvd {
            let t2 = Tcb { send: SendSequenceSpace { una: g.ack_number, wnd: g.window, ..t.send }, ..t };
            if in_order(t2, g) {
                lemma_tcb_after(TcpState::Established(t2), t2, g);
            }
        }
    }
}

/// Along any transition the sequence state only moves forward: `send.una` and
/// `rcvd.nxt` never decrease in wrap-aware order and `rcvd.irs` never changes.
/// A segment that fails the acceptability test changes nothing at all.
pub proof fn lemma_step_monotonic(s: TcpState, g: Segment)
    requires
        s.wf(),
    ensures
        tcb_of(s) is Some && tcb_of(step(s, g).0) is Some ==> {
            let t0 = tcb_of(s)->Some_0;
            let t1 = tcb_of(step(s, g).0)->Some_0;
            &&& spec_seq_le(t0.send.una, t1.send.una)
            &&& spec_seq_le(t0.rcvd.nxt, t1.rcvd.nxt)
            &&& t1.rcvd.irs == t0.rcvd.irs
        },
        tcb_of(s) is Some && !spec_acceptable(
            g.seq_number,
            g.len as nat,
            tcb_of(s)->Some_0.rcvd.nxt,
            tcb_of(s)->Some_0.rcvd.wnd,
        ) ==> step(s, g).0 == s,
{
    if let Some(t) = tcb_of(s) {
        lemma_advance_not_before(t.send.una, 1);
        if in_order(t, g) {
            lemma_tcb_after(s, t, g);
        }
        if s is SynRecvd {
            let t2 = Tcb { send: SendSequenceSpace { una: g.ack_number, wnd: g.window, ..t.send }, ..t };
            if in_order(t2, g) {
                lemma_tcb_after(TcpState::Established(t2), t2, g);
            }
        }
    }
}

/// Delivering the same segment a second time changes nothing more: a duplicate
/// may only bring a repeated acknowledgment or SYN+ACK.
pub proof fn lemma_duplicate_changes_nothing(s: TcpState, g: Segment)
    requires
        s.wf(),
    ensures
        step(step(s, g).0, g).0 == step(s, g).0,
{
    lemma_step_wf(s, g);
    if let Some(t) = tcb_of(s) {
        if in_order(t, g) {
            lemma_tcb_after(s, t, g);
            lemma_acks_new_exact(tcb_after(s, t, g).send, g.ack_number);
        }
        if s is SynRecvd {
            let t2 = Tcb { send: SendSequenceSpace { una: g.ack_number, wnd: g.window, ..t.send }, ..t };
            lemma_acks_new_exact(t2.send, g.ack_number);
            if in_order(t2, g) {
                lemma_tcb_after(TcpState::Established(t2), t2, g);
                lemma_acks_new_exact(tcb_after(TcpState::Established(t2), t2, g).send, g.ack_number);
            }
        }
    }
}

/// A connection in `SynRecvd` that receives an in-order ACK of its SYN+ACK, with
/// no payload, FIN, SYN or RST, moves to `Established` with `send.una` set to the
/// acknowledgment number and `rcvd.irs` unchanged.
pub proof fn lemma_handshake_completes(s: TcpState, g: Segment)
    requires
        s.wf(),
        s is SynRecvd,
        g.ack && !g.syn && !g.fin && !g.rst,
        g.len == 0,
        g.seq_number == tcb_of(s)->Some_0.rcvd.nxt,
        g.ack_number == tcb_of(s)->Some_0.send.nxt,
    ensures
        step(s, g).0 is Established,
        tcb_of(step(s, g).0)->Some_0.send.una == g.ack_number,
        tcb_of(step(s, g).0)->Some_0.rcvd.irs == tcb_of(s)->Some_0.rcvd.irs,
        step(s, g).1 is None,
{
    let t = tcb_of(s)->Some_0;
    let t2 = Tcb { send: SendSequenceSpace { una: g.ack_number, wnd: g.window, ..t.send }, ..t };
    lemma_acks_new_exact(t2.send, g.ack_number);
}

/// An `Established` connection that receives its peer's FIN in order, with no
/// payload, SYN or RST, moves to `CloseWait` (not `Closed`), moves `rcvd.nxt` one
/// past the FIN and acknowledges it at once.
pub proof fn lemma_fin_moves_to_close_wait(s: TcpState, g: Segment)
    requires
        s.wf(),
        s is Established,
        g.fin && !g.syn && !g.rst,
        g.len == 0,
        g.seq_number == tcb_of(s)->Some_0.rcvd.nxt,
    ensures
        step(s, g).0 is CloseWait,
        tcb_of(step(s, g).0)->Some_0.rcvd.nxt == seq_add(tcb_of(s)->Some_0.rcvd.nxt, 1),
        tcb_of(step(s, g).0)->Some_0.rcvd.irs == tcb_of(s)->Some_0.rcvd.irs,
        step(s, g).1 matches Some(r) && r.ack && !r.syn && !r.fin
            && r.ack_number == seq_add(tcb_of(s)->Some_0.rcvd.nxt, 1)
            && r.seq_number == tcb_of(s)->Some_0.send.nxt,
{
    lemma_acks_new_exact(tcb_of(s)->Some_0.send, g.ack_number);
}

/// An in-order acknowledgment moves `send.una` exactly when it is new in
/// wrap-aware order: `una < ack` and not `nxt < ack`.
pub proof fn lemma_ack_is_wrap_aware(s: TcpState, g: Segment)
    requires
        s.wf(),
        tcb_of(s) is Some,
        !(s is SynRecvd),
        !g.rst,
        g.ack,
        in_order(tcb_of(s)->Some_0, g),
    ensures
        ({
            let t = tcb_of(s)->Some_0;
            tcb_after(s, t, g).send.una == if spec_seq_lt(t.send.una, g.ack_number)
                && !spec_seq_lt(t.send.nxt, g.ack_number) { g.ack_number } else { t.send.una }
        }),
        step(s, g) == synchronized_step(s, tcb_of(s)->Some_0, g),
{
}

/// A connection reaches `Closed` through a segment only from `LastAck`, and only
/// when that segment acknowledges the local FIN.
pub proof fn lemma_closed_only_after_fin_acked(s: TcpState, g: Segment)
    requires
        s.wf(),
        !(s is Closed),
        step(s, g).0 is Closed,
    ensures
        s is LastAck,
        g.ack,
        g.ack_number == tcb_of(s)->Some_0.send.nxt,
{
}

impl TcpState {
    /// The state in which a new connection waits for its peer's SYN.
    pub fn listen(iss: u32) -> (r: TcpState)
        ensures
            r == (TcpState::Listen { iss }),
    {
        TcpState::Listen { iss }
    }

    /// Closes the local side of the connection; returns the FIN to send, if any.
    pub fn close(&mut self) -> (r: Option<Segment>)
        ensures
            (*final(self), r) == close_step(*old(self)),
            old(self).wf() ==> final(self).wf(),
    {
        let s = *self;
        let (next, reply) = match s {
            TcpState::Listen { .. } => (TcpState::Closed, None),
            TcpState::Established(t) => {
                let mut t2 = t;
                t2.send.nxt = seq_advance(t.send.nxt, 1);
                (TcpState::FinWait1(t2), Some(Segment { fin: true, ..make_ack(&t) }))
            },
            TcpState::CloseWait(t) => {
                let mut t2 = t;
                t2.send.nxt = seq_advance(t.send.nxt, 1);
                (TcpState::LastAck(t2), Some(Segment { fin: true, ..make_ack(&t) }))
            },
            _ => (s, None),
        };
        *self = next;
        reply
    }

    /// Handles one inbound segment: moves the connection to its next state and
    /// returns the segment to send in reply, if any.
    pub fn on_packet(&mut self, seg: &Segment) -> (r: Option<Segment>)
        ensures
            (*final(self), r) == step(*old(self), *seg),
            old(self).wf() ==> final(self).wf(),
    {
        proof {
            if self.wf() {
                lemma_step_wf(*self, *seg);
            }
        }
        let s = *self;
        let (next, reply) = if seg.rst {
            (s, None)
        } else {
            match s {
                TcpState::Closed => (s, None),
                TcpState::Listen { iss } => if seg.syn && !seg.ack {
                    let t = Tcb {
                        send: SendSequenceSpace {
                            iss,
                            una: iss,
                            nxt: seq_advance(iss, 1),
                            wnd: seg.window,
                            up: false,
                        },
                        rcvd: ReceiveSequenceSpace {
                            irs: seg.seq_number,
                            nxt: seq_advance(seg.seq_number, 1),
                            wnd: seg.window,
                        },
                    };
                    (TcpState::SynRecvd(t), Some(make_syn_ack(&t)))
                } else {
                    (s, None)
                },
                TcpState::SynRecvd(t) => if seg.syn && !seg.ack && seg.seq_number == t.rcvd.irs {
                    (s, Some(make_syn_ack(&t)))
                } else if !is_acceptable(seg.seq_number, seg.len, t.rcvd.nxt, t.rcvd.wnd) {
                    (s, Some(make_ack(&t)))
                } else if seg.ack && seg.ack_number == t.send.nxt {
                    let mut t2 = t;
                    t2.send.una = seg.ack_number;
                    t2.send.wnd = seg.window;
                    synchronized_transition(&TcpState::Established(t2), &t2, seg)
                } else {
                    (s, None)
                },
                TcpState::Established(t) => synchronized_transition(&s, &t, seg),
                TcpState::CloseWait(t) => synchronized_transition(&s, &t, seg),
                TcpState::LastAck(t) => synchronized_transition(&s, &t, seg),
                TcpState::FinWait1(t) => synchronized_transition(&s, &t, seg),
                TcpState::FinWait2(t) => synchronized_transition(&s, &t, seg),
                TcpState::Closing(t) => synchronized_transition(&s, &t, seg),
                TcpState::TimeWait(t) => synchronized_transition(&s, &t, seg),
            }
        };
        *self = next;
        reply
    }
}

} // verus!
