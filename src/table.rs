//! The connection table and the frame demultiplexer in front of it.
use vstd::prelude::*;
use crate::tcp::{Connection, Segment, TcpState, close_step, step};
use crate::wire::{
    be16, encodes, ipv4_fields, ipv4_ok, parse_ipv4, parse_tcp, tcp_fields, tcp_ok, write_headers,
};

verus! {

/// Flow identity: source and destination, each an IPv4 address and a port.
#[derive(Clone, Copy, Debug, PartialEq, Eq, Hash, Structural)]
pub struct Quad {
    pub src_addr: u32,
    pub src_port: u16,
    pub dst_addr: u32,
    pub dst_port: u16,
}

/// Why a frame was dropped.
#[derive(Clone, Copy, Debug, PartialEq, Eq)]
pub enum FrameError {
    /// Shorter than the link-layer header.
    Truncated,
    /// The link-layer protocol is not IPv4.
    NotIpv4 { ethertype: u16 },
    /// The IPv4 header does not parse.
    BadIpv4,
    /// The IPv4 payload is not TCP.
    NotTcp { protocol: u8 },
    /// The TCP header does not parse.
    BadTcp,
    /// A segment other than an opening SYN for a flow the table does not hold.
    UnknownFlow,
}

/// Link-layer protocol number of IPv4.
pub const ETHERTYPE_IPV4: u16 = 0x0800;

/// IP protocol number of TCP.
pub const PROTO_TCP: u8 = 6;

/// Length of the link-layer header that precedes the IPv4 header.
pub const LINK_HEADER_LEN: usize = 4;

/// Time to live of the frames this endpoint sends.
pub const DEFAULT_TTL: u8 = 64;

/// What the demultiplexer reads from a frame: its flow identity and segment,
/// or the reason it is dropped.
pub open spec fn parse_frame(f: Seq<u8>) -> Result<(Quad, Segment), FrameError> {
    if f.len() < LINK_HEADER_LEN {
        Err(FrameError::Truncated)
    } else if be16(f, 2) != ETHERTYPE_IPV4 as int {
        Err(FrameError::NotIpv4 { ethertype: be16(f, 2) as u16 })
    } else {
        let ip = f.skip(LINK_HEADER_LEN as int);
        if !ipv4_ok(ip) {
            Err(FrameError::BadIpv4)
        } else {
            let h = ipv4_fields(ip);
            if h.protocol != PROTO_TCP {
                Err(FrameError::NotTcp { protocol: h.protocol })
            } else {
                let t = ip.skip(h.header_len as int);
                if !tcp_ok(t) {
                    Err(FrameError::BadTcp)
                } else {
                    let th = tcp_fields(t);
                    Ok((
                        Quad {
                            src_addr: h.source,
                            src_port: th.source_port,
                            dst_addr: h.destination,
                            dst_port: th.destination_port,
                        },
                        Segment {
                            seq_number: th.seq_number,
                            ack_number: th.ack_number,
                            syn: th.syn,
                            ack: th.ack,
                            fin: th.fin,
                            rst: th.rst,
                            window: th.window,
                            len: (t.len() - th.header_len) as usize,
                        },
                    ))
                }
            }
        }
    }
}

/// A segment that may open a connection for a flow the table does not hold.
pub open spec fn opens(g: Segment) -> bool {
    g.syn && !g.ack && !g.rst
}

/// The table after segment `g` for flow `q` arrives, and the reply or error.
/// An unknown flow gets a new `Listen` connection with initial sequence number
/// `iss` only for an opening SYN; a connection that reaches `Closed` leaves the table.
pub open spec fn table_step(m: Map<Quad, TcpState>, iss: u32, q: Quad, g: Segment) -> (
    Map<Quad, TcpState>,
    Result<Option<Segment>, FrameError>,
) {
    if !m.contains_key(q) && !opens(g) {
        (m, Err(FrameError::UnknownFlow))
    } else {
        let s0 = if m.contains_key(q) { m[q] } else { TcpState::Listen { iss } };
        let (s1, r) = step(s0, g);
        (if s1 is Closed { m.remove(q) } else { m.insert(q, s1) }, Ok(r))
    }
}

/// A segment that the table turns away leaves every connection as it was.
pub proof fn lemma_rejected_segment_keeps_table(m: Map<Quad, TcpState>, iss: u32, q: Quad, g: Segment)
    requires
        table_step(m, iss, q, g).1 is Err,
    ensures
        table_step(m, iss, q, g).0 == m,
{
}

/// A segment other than a SYN for a flow the table does not hold is dropped as
/// an unknown flow and creates no entry.
pub proof fn lemma_unknown_flow_not_created(m: Map<Quad, TcpState>, iss: u32, q: Quad, g: Segment)
    requires
        !m.contains_key(q),
        !g.syn,
    ensures
        table_step(m, iss, q, g) == (m, Err::<Option<Segment>, FrameError>(FrameError::UnknownFlow)),
        !table_step(m, iss, q, g).0.contains_key(q),
{
}

/// A frame whose link-layer protocol is not IPv4, or whose IPv4 payload is not
/// TCP, is dropped before any connection is looked up.
pub proof fn lemma_protocol_filter(f: Seq<u8>)
    requires
        f.len() >= LINK_HEADER_LEN,
        be16(f, 2) != ETHERTYPE_IPV4 as int || (
            ipv4_ok(f.skip(LINK_HEADER_LEN as int))
            && ipv4_fields(f.skip(LINK_HEADER_LEN as int)).protocol != PROTO_TCP),
    ensures
        parse_frame(f) matches Err(FrameError::NotIpv4 { .. }) || parse_frame(f) matches Err(FrameError::NotTcp { .. }),
        forall|m: Map<Quad, TcpState>, iss: u32| #[trigger] frame_step(m, iss, f).0 == m,
        forall|m: Map<Quad, TcpState>, iss: u32| (#[trigger] frame_step(m, iss, f)).1 is Err,
{
}

/// The flow identity of traffic in the opposite direction.
pub open spec fn reversed(q: Quad) -> Quad {
    Quad { src_addr: q.dst_addr, src_port: q.dst_port, dst_addr: q.src_addr, dst_port: q.src_port }
}

/// A reply encoded for flow `q` and framed with an IPv4 link-layer header is read
/// back by the demultiplexer as the same segment on the reversed flow.
pub proof fn lemma_reply_round_trip(q: Quad, g: Segment, b: Seq<u8>)
    requires
        encodes(b, q.dst_addr, q.src_addr, q.dst_port, q.src_port, g),
    ensures
        parse_frame(seq![0u8, 0u8, 8u8, 0u8] + b) == Ok::<(Quad, Segment), FrameError>((reversed(q), Segment { len: 0, ..g })),
{
    let f = seq![0u8, 0u8, 8u8, 0u8] + b;
    assert(f.skip(4) =~= b);
    assert(b.skip(20).len() == 20);
}

pub open spec fn has_key(e: Seq<(Quad, Connection)>, q: Quad) -> bool {
    exists|i: int| 0 <= i < e.len() && e[i].0 == q
}

pub open spec fn index_of(e: Seq<(Quad, Connection)>, q: Quad) -> int {
    choose|i: int| 0 <= i < e.len() && e[i].0 == q
}

pub open spec fn keys_unique(e: Seq<(Quad, Connection)>) -> bool {
    forall|i: int, j: int| 0 <= i < e.len() && 0 <= j < e.len() && e[i].0 == e[j].0 ==> i == j
}

/// The map from flow identity to state that a list of entries stands for.
pub open spec fn view_of(e: Seq<(Quad, Connection)>) -> Map<Quad, TcpState> {
    Map::new(|q: Quad| has_key(e, q), |q: Quad| e[index_of(e, q)].1.state)
}

/// The flow identity of a frame, or a fixed placeholder where it has none.
pub open spec fn frame_quad(f: Seq<u8>) -> Quad {
    match parse_frame(f) {
        Ok((q, _)) => q,
        Err(_) => Quad { src_addr: 0, src_port: 0, dst_addr: 0, dst_port: 0 },
    }
}

/// The table after the frame `f` arrives, and the segment to send or the reason
/// the frame was dropped. A dropped frame leaves the table as it was.
pub open spec fn frame_step(m: Map<Quad, TcpState>, iss: u32, f: Seq<u8>) -> (
    Map<Quad, TcpState>,
    Result<Option<Segment>, FrameError>,
) {
    match parse_frame(f) {
        Err(e) => (m, Err(e)),
        Ok((q, g)) => table_step(m, iss, q, g),
    }
}

/// The table after the local side of flow `q` closes, and the FIN to send.
pub open spec fn table_close(m: Map<Quad, TcpState>, q: Quad) -> (Map<Quad, TcpState>, Option<Segment>) {
    if !m.contains_key(q) {
        (m, None)
    } else {
        let (s1, r) = close_step(m[q]);
        (if s1 is Closed { m.remove(q) } else { m.insert(q, s1) }, r)
    }
}

/// `r` is what the demultiplexer returns when the table answers `out` for flow
/// `q`: the error itself, no frame, or the reply encoded for the way back.
pub open spec fn frame_reply(q: Quad, out: Result<Option<Segment>, FrameError>, r: Result<Option<Vec<u8>>, FrameError>) -> bool {
    match out {
        Err(e) => r == Err::<Option<Vec<u8>>, FrameError>(e),
        Ok(None) => r == Ok::<Option<Vec<u8>>, FrameError>(None),
        Ok(Some(g)) => r matches Ok(Some(b)) && encodes(b@, q.dst_addr, q.src_addr, q.dst_port, q.src_port, g),
    }
}

proof fn lemma_index_of(e: Seq<(Quad, Connection)>, q: Quad, i: int)
    requires
        keys_unique(e),
        0 <= i < e.len(),
        e[i].0 == q,
    ensures
        index_of(e, q) == i,
{
    assert(has_key(e, q));
}

proof fn lemma_update(e: Seq<(Quad, Connection)>, i: int, c: Connection)
    requires
        keys_unique(e),
        0 <= i < e.len(),
    ensures
        keys_unique(e.update(i, (e[i].0, c))),
        view_of(e.update(i, (e[i].0, c))) == view_of(e).insert(e[i].0, c.state),
{
    let q = e[i].0;
    let e2 = e.update(i, (q, c));
    assert forall|k: Quad| has_key(e2, k) == has_key(e, k) by {
        if has_key(e, k) {
            let j = index_of(e, k);
            assert(e2[j].0 == k);
        }
        if has_key(e2, k) {
            let j = index_of(e2, k);
            assert(e[j].0 == k);
        }
    }
    assert forall|k: Quad| has_key(e2, k) && k != q implies view_of(e2)[k] == view_of(e)[k] by {
        let j = index_of(e2, k);
        lemma_index_of(e, k, j);
    }
    lemma_index_of(e2, q, i);
    assert(view_of(e2) =~= view_of(e).insert(q, c.state));
}

proof fn lemma_remove(e: Seq<(Quad, Connection)>, i: int)
    requires
        keys_unique(e),
        0 <= i < e.len(),
    ensures
        keys_unique(e.remove(i)),
        view_of(e.remove(i)) == view_of(e).remove(e[i].0),
{
    let q = e[i].0;
    let e2 = e.remove(i);
    assert forall|k: Quad| has_key(e2, k) == (has_key(e, k) && k != q) by {
        if has_key(e, k) && k != q {
            let j = index_of(e, k);
            if j < i {
                assert(e2[j].0 == k);
            } else {
                assert(e2[j - 1].0 == k);
            }
        }
        if has_key(e2, k) {
            let j = index_of(e2, k);
            if j < i {
                assert(e[j].0 == k);
            } else {
                assert(e[j + 1].0 == k);
            }
        }
    }
    assert forall|k: Quad| has_key(e2, k) implies view_of(e2)[k] == view_of(e)[k] by {
        let j = index_of(e2, k);
        if j < i {
            lemma_index_of(e, k, j);
        } else {
            lemma_index_of(e, k, j + 1);
        }
    }
    assert(view_of(e2) =~= view_of(e).remove(q));
}

proof fn lemma_push(e: Seq<(Quad, Connection)>, q: Quad, c: Connection)
    requires
        keys_unique(e),
        !has_key(e, q),
    ensures
        keys_unique(e.push((q, c))),
        view_of(e.push((q, c))) == view_of(e).insert(q, c.state),
{
    let e2 = e.push((q, c));
    assert forall|k: Quad| has_key(e2, k) == (has_key(e, k) || k == q) by {
        if has_key(e, k) {
            let j = index_of(e, k);
            assert(e2[j].0 == k);
        }
        if k == q {
            assert(e2[e.len() as int].0 == k);
        }
        if has_key(e2, k) && k != q {
            let j = index_of(e2, k);
            assert(e[j].0 == k);
        }
    }
    assert forall|k: Quad| has_key(e2, k) && k != q implies view_of(e2)[k] == view_of(e)[k] by {
        let j = index_of(e2, k);
        lemma_index_of(e, k, j);
    }
    lemma_index_of(e2, q, e.len() as int);
    assert(view_of(e2) =~= view_of(e).insert(q, c.state));
}

/// The connections of this endpoint, keyed by flow identity.
pub struct ConnectionTable {
    entries: Vec<(Quad, Connection)>,
    iss: u32,
}

impl View for ConnectionTable {
    type V = Map<Quad, TcpState>;

    closed spec fn view(&self) -> Map<Quad, TcpState> {
        view_of(self.entries@)
    }
}

impl ConnectionTable {
    /// Initial sequence number given to the connections this table creates.
    pub closed spec fn spec_iss(&self) -> u32 {
        self.iss
    }

    /// Each flow has one entry, and every connection held is well formed and
    /// not `Closed`.
    pub closed spec fn wf(&self) -> bool {
        &&& keys_unique(self.entries@)
        &&& forall|q: Quad| #[trigger] self@.contains_key(q) ==> self@[q].wf() && !(self@[q] is Closed)
    }

    /// An empty table whose new connections use the initial sequence number `iss`.
    pub fn new(iss: u32) -> (r: ConnectionTable)
        ensures
            r.wf(),
            r@ == Map::<Quad, TcpState>::empty(),
            r.spec_iss() == iss,
    {
        let r = ConnectionTable { entries: Vec::new(), iss };
        assert(r@ =~= Map::<Quad, TcpState>::empty());
        r
    }

    /// Number of connections held.
    pub fn len(&self) -> (r: usize)
        requires
            self.wf(),
        ensures
            r == self@.len(),
    {
        proof {
            self.lemma_len();
        }
        self.entries.len()
    }

    proof fn lemma_len(&self)
        requires
            keys_unique(self.entries@),
        ensures
            self@.len() == self.entries@.len(),
    {
        let e = self.entries@;
        let keys = Set::new(|i: int| 0 <= i < e.len()).map(|i: int| e[i].0);
        assert forall|k: Quad| self@.dom().contains(k) == keys.contains(k) by {
            if self@.dom().contains(k) {
                let j = index_of(e, k);
                assert(Set::new(|i: int| 0 <= i < e.len()).contains(j));
            }
        }
        assert(self@.dom() =~= keys);
        assert(Set::new(|i: int| 0 <= i < e.len()) =~= vstd::set_lib::set_int_range(0, e.len() as int));
        vstd::set_lib::lemma_int_range(0, e.len() as int);
        assert forall|i: int, j: int| Set::new(|i: int| 0 <= i < e.len()).contains(i)
            && Set::new(|i: int| 0 <= i < e.len()).contains(j) && e[i].0 == e[j].0 implies i == j by {}
        vstd::set_lib::lemma_map_size(Set::new(|i: int| 0 <= i < e.len()), keys, |i: int| e[i].0);
    }

    fn find(&self, q: &Quad) -> (r: Option<usize>)
        ensures
            match r {
                Some(i) => i < self.entries@.len() && self.entries@[i as int].0 == *q,
                None => !has_key(self.entries@, *q),
            },
    {
        let mut i: usize = 0;
        while i < self.entries.len()
            invariant
                0 <= i <= self.entries@.len(),
                forall|k: int| 0 <= k < i ==> self.entries@[k].0 != *q,
            decreases self.entries@.len() - i,
        {
            if self.entries[i].0 == *q {
                return Some(i);
            }
            i += 1;
        }
        None
    }

    /// The state of the connection for flow `q`, if the table holds one.
    pub fn get(&self, q: &Quad) -> (r: Option<TcpState>)
        requires
            self.wf(),
        ensures
            r == (if self@.contains_key(*q) { Some(self@[*q]) } else { None::<TcpState> }),
    {
        match self.find(q) {
            Some(i) => {
                proof {
                    lemma_index_of(self.entries@, *q, i as int);
                }
                Some(self.entries[i].1.state)
            },
            None => None,
        }
    }

    /// Handles one raw frame: filters out what is not a well-formed IPv4/TCP
    /// frame, delivers the segment to its flow's connection and returns the
    /// encoded reply, if any. A dropped frame leaves the table unchanged.
    pub fn on_frame(&mut self, frame: &[u8]) -> (r: Result<Option<Vec<u8>>, FrameError>)
        requires
            old(self).wf(),
        ensures
            final(self).wf(),
            final(self).spec_iss() == old(self).spec_iss(),
            final(self)@ == frame_step(old(self)@, old(self).spec_iss(), frame@).0,
            frame_reply(frame_quad(frame@), frame_step(old(self)@, old(self).spec_iss(), frame@).1, r),
    {
        if frame.len() < LINK_HEADER_LEN {
            return Err(FrameError::Truncated);
        }
        let ethertype: u16 = frame[2] as u16 * 256 + frame[3] as u16;
        if ethertype != ETHERTYPE_IPV4 {
            return Err(FrameError::NotIpv4 { ethertype });
        }
        let ip = vstd::slice::slice_subrange(frame, LINK_HEADER_LEN, frame.len());
        let h = match parse_ipv4(ip) {
            Ok(h) => h,
            Err(_) => return Err(FrameError::BadIpv4),
        };
        if h.protocol != PROTO_TCP {
            return Err(FrameError::NotTcp { protocol: h.protocol });
        }
        let t = vstd::slice::slice_subrange(ip, h.header_len, ip.len());
        let th = match parse_tcp(t) {
            Ok(th) => th,
            Err(_) => return Err(FrameError::BadTcp),
        };
        let q = Quad {
            src_addr: h.source,
            src_port: th.source_port,
            dst_addr: h.destination,
            dst_port: th.destination_port,
        };
        let g = Segment {
            seq_number: th.seq_number,
            ack_number: th.ack_number,
            syn: th.syn,
            ack: th.ack,
            fin: th.fin,
            rst: th.rst,
            window: th.window,
            len: t.len() - th.header_len,
        };
        match self.on_segment(q, &g) {
            Err(e) => Err(e),
            Ok(None) => Ok(None),
            Ok(Some(reply)) => Ok(Some(write_headers(q.dst_addr, q.src_addr, DEFAULT_TTL, q.dst_port, q.src_port, &reply))),
        }
    }

    /// Closes the local side of flow `q`, if the table holds it, and returns the
    /// FIN to send, encoded for the way back to the peer. A connection that
    /// reaches `Closed` leaves the table.
    pub fn close(&mut self, q: &Quad) -> (r: Option<Vec<u8>>)
        requires
            old(self).wf(),
        ensures
            final(self).wf(),
            final(self).spec_iss() == old(self).spec_iss(),
            final(self)@ == table_close(old(self)@, *q).0,
            match table_close(old(self)@, *q).1 {
                None => r is None,
                Some(g) => r matches Some(b) && encodes(b@, q.dst_addr, q.src_addr, q.dst_port, q.src_port, g),
            },
    {
        match self.find(q) {
            Some(i) => {
                let mut st = self.entries[i].1.state;
                proof {
                    lemma_index_of(self.entries@, *q, i as int);
                    assert(self@.contains_key(*q));
                }
                let fin = st.close();
                if matches!(st, TcpState::Closed) {
                    proof {
                        lemma_remove(self.entries@, i as int);
                    }
                    self.entries.remove(i);
                } else {
                    proof {
                        lemma_update(self.entries@, i as int, Connection { state: st });
                    }
                    self.entries[i] = (*q, Connection { state: st });
                }
                match fin {
                    Some(g) => Some(write_headers(q.dst_addr, q.src_addr, DEFAULT_TTL, q.dst_port, q.src_port, &g)),
                    None => None,
                }
            },
            None => None,
        }
    }

    /// Delivers segment `g` of flow `q` to its connection, creating the connection
    /// for an opening SYN of an unknown flow; returns the reply to send, if any.
    pub fn on_segment(&mut self, q: Quad, g: &Segment) -> (r: Result<Option<Segment>, FrameError>)
        requires
            old(self).wf(),
        ensures
            final(self).wf(),
            final(self).spec_iss() == old(self).spec_iss(),
            (final(self)@, r) == table_step(old(self)@, old(self).spec_iss(), q, *g),
    {
        match self.find(&q) {
            Some(i) => {
                let mut st = self.entries[i].1.state;
                proof {
                    lemma_index_of(self.entries@, q, i as int);
                    assert(self@.contains_key(q));
                }
                let reply = st.on_packet(g);
                if matches!(st, TcpState::Closed) {
                    proof {
                        lemma_remove(self.entries@, i as int);
                    }
                    self.entries.remove(i);
                } else {
                    proof {
                        lemma_update(self.entries@, i as int, Connection { state: st });
                    }
                    self.entries[i] = (q, Connection { state: st });
                }
                Ok(reply)
            },
            None => {
                if g.syn && !g.ack && !g.rst {
                    let mut st = TcpState::listen(self.iss);
                    let reply = st.on_packet(g);
                    proof {
                        lemma_push(self.entries@, q, Connection { state: st });
                    }
                    self.entries.push((q, Connection { state: st }));
                    Ok(reply)
                } else {
                    Err(FrameError::UnknownFlow)
                }
            },
        }
    }
}

} // verus!
