//! IPv4 and TCP header fields as the header codec reads and writes them.
use vstd::prelude::*;
use crate::tcp::Segment;

verus! {

#[verifier::external_type_specification]
#[verifier::external_body]
pub struct ExReadError(etherparse::ReadError);

/// Big-endian 16-bit integer at offset `i`.
pub open spec fn be16(s: Seq<u8>, i: int) -> int {
    s[i] as int * 256 + s[i + 1] as int
}

/// Big-endian 32-bit integer at offset `i`.
pub open spec fn be32(s: Seq<u8>, i: int) -> int {
    be16(s, i) * 65536 + be16(s, i + 2)
}

/// Bit `k` of the byte `b`.
pub open spec fn bit(b: u8, k: nat) -> bool {
    (b as int / vstd::arithmetic::power2::pow2(k) as int) % 2 == 1
}

/// The IPv4 header fields that the demultiplexer reads.
#[derive(Clone, Copy, Debug, PartialEq, Eq)]
pub struct Ipv4Fields {
    pub source: u32,
    pub destination: u32,
    pub protocol: u8,
    /// Header length in bytes, options included.
    pub header_len: usize,
}

/// The TCP header fields that the demultiplexer reads.
#[derive(Clone, Copy, Debug, PartialEq, Eq)]
pub struct TcpFields {
    pub source_port: u16,
    pub destination_port: u16,
    pub seq_number: u32,
    pub ack_number: u32,
    pub syn: bool,
    pub ack: bool,
    pub fin: bool,
    pub rst: bool,
    pub window: u16,
    /// Header length in bytes, options included.
    pub header_len: usize,
}

/// IHL field: header length in 32-bit words.
pub open spec fn ihl(s: Seq<u8>) -> int {
    s[0] as int % 16
}

/// `s` starts with an IPv4 header that the codec accepts: at least 20 bytes,
/// version 4, an IHL of at least 5 that the bytes cover, and a total length
/// that holds the header.
pub open spec fn ipv4_ok(s: Seq<u8>) -> bool {
    &&& s.len() >= 20
    &&& s[0] as int / 16 == 4
    &&& ihl(s) >= 5
    &&& s.len() >= ihl(s) * 4
    &&& be16(s, 2) >= ihl(s) * 4
}

/// The fields of the IPv4 header at the start of `s`.
pub open spec fn ipv4_fields(s: Seq<u8>) -> Ipv4Fields {
    Ipv4Fields {
        source: be32(s, 12) as u32,
        destination: be32(s, 16) as u32,
        protocol: s[9],
        header_len: (ihl(s) * 4) as usize,
    }
}

/// Data offset field: TCP header length in 32-bit words.
pub open spec fn data_offset(s: Seq<u8>) -> int {
    s[12] as int / 16
}

/// `s` starts with a TCP header that the codec accepts: at least 20 bytes and a
/// data offset of at least 5 that the bytes cover.
pub open spec fn tcp_ok(s: Seq<u8>) -> bool {
    &&& s.len() >= 20
    &&& data_offset(s) >= 5
    &&& s.len() >= data_offset(s) * 4
}

/// The fields of the TCP header at the start of `s`.
pub open spec fn tcp_fields(s: Seq<u8>) -> TcpFields {
    TcpFields {
        source_port: be16(s, 0) as u16,
        destination_port: be16(s, 2) as u16,
        seq_number: be32(s, 4) as u32,
        ack_number: be32(s, 8) as u32,
        fin: bit(s[13], 0),
        syn: bit(s[13], 1),
        rst: bit(s[13], 2),
        ack: bit(s[13], 4),
        window: be16(s, 14) as u16,
        header_len: (data_offset(s) * 4) as usize,
    }
}

/// `b` is a 40-byte IPv4 header followed by a TCP header without options,
/// from `source`:`source_port` to `destination`:`destination_port`, carrying the
/// sequence and acknowledgment numbers, flags and window of `g`.
pub open spec fn encodes(
    b: Seq<u8>,
    source: u32,
    destination: u32,
    source_port: u16,
    destination_port: u16,
    g: Segment,
) -> bool {
    &&& b.len() == 40
    &&& ipv4_ok(b)
    &&& ipv4_fields(b) == (Ipv4Fields { source, destination, protocol: 6, header_len: 20 })
    &&& tcp_ok(b.skip(20))
    &&& tcp_fields(b.skip(20)) == (TcpFields {
        source_port,
        destination_port,
        seq_number: g.seq_number,
        ack_number: g.ack_number,
        syn: g.syn,
        ack: g.ack,
        fin: g.fin,
        rst: g.rst,
        window: g.window,
        header_len: 20,
    })
}

/// Relies on etherparse's `Ipv4HeaderSlice::from_slice`, which accepts exactly
/// the slices described by `ipv4_ok`, and on its `source_addr`,
/// `destination_addr`, `protocol` and `slice` accessors, which read the fields
/// at bytes 12, 16 and 9 and return the header's `ihl * 4` bytes.
#[verifier::external_body]
pub(crate) fn parse_ipv4(b: &[u8]) -> (r: Result<Ipv4Fields, etherparse::ReadError>)
    ensures
        r is Ok <==> ipv4_ok(b@),
        r matches Ok(h) ==> h == ipv4_fields(b@),
{
    match etherparse::Ipv4HeaderSlice::from_slice(b) {
        Ok(h) => Ok(Ipv4Fields {
            source: u32::from(h.source_addr()),
            destination: u32::from(h.destination_addr()),
            protocol: h.protocol(),
            header_len: h.slice().len(),
        }),
        Err(e) => Err(e),
    }
}

/// Relies on etherparse's `TcpHeaderSlice::from_slice`, which accepts exactly
/// the slices described by `tcp_ok`, and on its accessors, which read ports,
/// numbers, flag bits of byte 13 and window at fixed offsets and return the
/// header's `data_offset * 4` bytes.
#[verifier::external_body]
pub(crate) fn parse_tcp(b: &[u8]) -> (r: Result<TcpFields, etherparse::ReadError>)
    ensures
        r is Ok <==> tcp_ok(b@),
        r matches Ok(h) ==> h == tcp_fields(b@),
{
    match etherparse::TcpHeaderSlice::from_slice(b) {
        Ok(h) => Ok(TcpFields {
            source_port: h.source_port(),
            destination_port: h.destination_port(),
            seq_number: h.sequence_number(),
            ack_number: h.acknowledgment_number(),
            syn: h.syn(),
            ack: h.ack(),
            fin: h.fin(),
            rst: h.rst(),
            window: h.window_size(),
            header_len: h.slice().len(),
        }),
        Err(e) => Err(e),
    }
}

/// Relies on etherparse's `Ipv4Header::new` and `Ipv4Header::write` (version 4,
/// IHL 5, total length, the given TTL, protocol 6, header checksum) and on
/// `TcpHeader::new`, `calc_checksum_ipv4` and `TcpHeader::write` (data offset 5,
/// the given fields and flags, checksum over the pseudo header).
#[verifier::external_body]
pub(crate) fn write_headers(
    source: u32,
    destination: u32,
    ttl: u8,
    source_port: u16,
    destination_port: u16,
    g: &Segment,
) -> (r: Vec<u8>)
    ensures
        encodes(r@, source, destination, source_port, destination_port, *g),
{
    let mut t = etherparse::TcpHeader::new(source_port, destination_port, g.seq_number, g.window);
    t.acknowledgment_number = g.ack_number;
    (t.syn, t.ack, t.fin, t.rst) = (g.syn, g.ack, g.fin, g.rst);
    let ip = etherparse::Ipv4Header::new(t.header_len(), ttl, etherparse::IpTrafficClass::Tcp,
        source.to_be_bytes(), destination.to_be_bytes());
    t.checksum = match t.calc_checksum_ipv4(&ip, &[]) { Ok(c) => c, Err(_) => 0 };
    let mut out: Vec<u8> = Vec::new();
    let _ = ip.write(&mut out);
    let _ = t.write(&mut out);
    out
}

} // verus!
