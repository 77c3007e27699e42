//! The SOCKS5 side of the proxy: the destination in a CONNECT request, and
//! the handshake as a state machine from bytes received to bytes to send and
//! where the connection goes next.
use vstd::prelude::*;
use vstd::utf8::{decode_utf8, valid_utf8};
use crate::ipv4::{format_ipv4, ipv4_text, law_ipv4_round_trip, lemma_ipv4_text_chars, parsed_ipv4};
use crate::ipv6::{format_ipv6, ipv6_text, lemma_ipv6_text_has_colon};
use crate::telegram::{
    dc_from_text, dc_of_init, dc_of_octets, dc_of_text, extract_dc_from_init,
    law_dc_of_octets_range,
};
use crate::text::{byte_range, decimal, push_char, push_decimal};

verus! {

/// Why the destination of a CONNECT request could not be read.
#[derive(Debug, Clone, Copy, PartialEq, Eq, Structural)]
pub enum DestError {
    /// The request ends before the address or the port does.
    Short,
    /// A domain name that is not UTF-8.
    InvalidUtf8,
    /// An address type other than IPv4 (1), domain name (3) or IPv6 (4).
    UnknownAddrType,
}

/// A port written big-endian in two bytes.
pub open spec fn be16(hi: u8, lo: u8) -> u16 {
    (hi * 256 + lo) as u16
}

/// The eight segments of an IPv6 address written big-endian from byte 1 on.
pub open spec fn ipv6_segments(data: Seq<u8>) -> Seq<u16> {
    Seq::new(8, |i: int| be16(data[1 + 2 * i], data[2 + 2 * i]))
}

/// The destination that the address part of a CONNECT request (from the
/// address type byte on) names: the host as text, and the port.
pub open spec fn dest_of(data: Seq<u8>) -> Result<(Seq<char>, u16), DestError> {
    if data[0] == 1 {
        if data.len() < 7 {
            Err(DestError::Short)
        } else {
            Ok((ipv4_text(data.subrange(1, 5)), be16(data[5], data[6])))
        }
    } else if data[0] == 3 {
        let n = data[1] as int;
        if data.len() < 2 + n + 2 {
            Err(DestError::Short)
        } else if !valid_utf8(data.subrange(2, 2 + n)) {
            Err(DestError::InvalidUtf8)
        } else {
            Ok((decode_utf8(data.subrange(2, 2 + n)), be16(data[2 + n], data[3 + n])))
        }
    } else if data[0] == 4 {
        if data.len() < 19 {
            Err(DestError::Short)
        } else {
            Ok((ipv6_text(ipv6_segments(data)), be16(data[17], data[18])))
        }
    } else {
        Err(DestError::UnknownAddrType)
    }
}

/// Reads UTF-8 text with `std::str::from_utf8`. Claimed: the bytes are
/// accepted exactly when they are valid UTF-8, and then the text is what
/// they encode.
#[verifier::external_body]
fn str_from_utf8(bytes: &[u8]) -> (r: Option<&str>)
    ensures
        r is Some <==> valid_utf8(bytes@),
        r matches Some(s) ==> s@ == decode_utf8(bytes@),
{
    std::str::from_utf8(bytes).ok()
}

/// The port written big-endian at `i`.
fn be16_at(data: &[u8], i: usize) -> (p: u16)
    requires
        i + 1 < data@.len(),
    ensures
        p == be16(data@[i as int], data@[i + 1]),
{
    (data[i] as u16) * 256 + (data[i + 1] as u16)
}

/// Reads the destination of a CONNECT request from its address part.
pub fn parse_dest(data: &[u8]) -> (res: Result<(String, u16), DestError>)
    requires
        data@.len() >= 1,
        data@[0] == 3 ==> data@.len() >= 2,
    ensures
        match res {
            Ok((host, port)) => dest_of(data@) == Ok::<(Seq<char>, u16), DestError>((host@, port)),
            Err(e) => dest_of(data@) == Err::<(Seq<char>, u16), DestError>(e),
        },
{
    let kind = data[0];
    if kind == 1 {
        if data.len() < 7 {
            return Err(DestError::Short);
        }
        let o: [u8; 4] = [data[1], data[2], data[3], data[4]];
        assert(o@ =~= data@.subrange(1, 5));
        let ip = format_ipv4(o);
        Ok((ip, be16_at(data, 5)))
    } else if kind == 3 {
        let n = data[1] as usize;
        if data.len() < 2 + n + 2 {
            return Err(DestError::Short);
        }
        match str_from_utf8(byte_range(data, 2, 2 + n)) {
            None => Err(DestError::InvalidUtf8),
            Some(d) => Ok((String::from_str(d), be16_at(data, 2 + n))),
        }
    } else if kind == 4 {
        if data.len() < 19 {
            return Err(DestError::Short);
        }
        let seg: [u16; 8] = [
            be16_at(data, 1),
            be16_at(data, 3),
            be16_at(data, 5),
            be16_at(data, 7),
            be16_at(data, 9),
            be16_at(data, 11),
            be16_at(data, 13),
            be16_at(data, 15),
        ];
        assert(seg@ =~= ipv6_segments(data@));
        Ok((format_ipv6(seg), be16_at(data, 17)))
    } else {
        Err(DestError::UnknownAddrType)
    }
}


/// Where a SOCKS5 session stands: waiting for the greeting, for the CONNECT
/// request, or (for a Telegram destination) for the client's 64-byte
/// obfuscated2 init packet.
pub enum Phase {
    Greeting,
    Request,
    Init { dest: String },
}

/// Why a session ended before its connection was handed on.
#[derive(Debug, Clone, Copy, PartialEq, Eq, Structural)]
pub enum SessionError {
    /// The greeting is shorter than two bytes or not version 5.
    NotSocks5,
    /// The request is shorter than seven bytes, not version 5, or not CONNECT.
    BadConnect,
    /// The destination in the request could not be read.
    Dest(DestError),
}

/// What comes after a message of the client.
pub enum Outcome {
    /// Read the next message in this phase.
    Continue(Phase),
    /// Tunnel the connection over WebSocket to this data centre, sending the
    /// init packet first.
    Tunnel { dc: u8 },
    /// Connect straight to this `host:port` and pass the bytes through.
    Direct { target: String },
    /// Give up on the connection.
    Fail(SessionError),
}

/// One step of a session: what to send back first (if anything), then what comes next.
pub struct Step {
    pub reply: Option<Vec<u8>>,
    pub outcome: Outcome,
}

/// The answer to an acceptable greeting: version 5, no authentication.
pub open spec fn greeting_reply_bytes() -> Seq<u8> {
    seq![5u8, 0u8]
}

/// The answer to a request that is not a version 5 CONNECT: "command not supported".
pub open spec fn refusal_bytes() -> Seq<u8> {
    seq![5u8, 7u8, 0u8, 1u8, 0u8, 0u8, 0u8, 0u8, 0u8, 0u8]
}

/// The answer to an accepted CONNECT: success, bound to 127.0.0.1:1080.
pub open spec fn success_bytes() -> Seq<u8> {
    seq![5u8, 0u8, 0u8, 1u8, 127u8, 0u8, 0u8, 1u8, 4u8, 0x38u8]
}

/// A greeting is acceptable when it has at least two bytes and version 5.
pub open spec fn greeting_ok(m: Seq<u8>) -> bool {
    m.len() >= 2 && m[0] == 5
}

/// A request is a version 5 CONNECT of at least seven bytes.
pub open spec fn connect_ok(m: Seq<u8>) -> bool {
    m.len() >= 7 && m[0] == 5 && m[1] == 1
}

/// The `host:port` text that a direct connection is opened to.
pub open spec fn target_text(host: Seq<char>, port: u16) -> Seq<char> {
    host + seq![':'] + decimal(port as nat)
}

/// The data centre a tunnel goes to: the one the destination address belongs
/// to, else the one the init packet names, else data centre 2.
pub open spec fn tunnel_dc_of(from_init: Option<u8>, dest: Seq<char>) -> u8 {
    match dc_of_text(dest) {
        Some(d) => d,
        None => match from_init {
            Some(d) => d,
            None => 2,
        },
    }
}

fn greeting_reply() -> (v: Vec<u8>)
    ensures
        v@ == greeting_reply_bytes(),
{
    let v = vec![5u8, 0u8];
    assert(v@ =~= greeting_reply_bytes());
    v
}

fn refusal() -> (v: Vec<u8>)
    ensures
        v@ == refusal_bytes(),
{
    let v = vec![5u8, 7u8, 0u8, 1u8, 0u8, 0u8, 0u8, 0u8, 0u8, 0u8];
    assert(v@ =~= refusal_bytes());
    v
}

fn success() -> (v: Vec<u8>)
    ensures
        v@ == success_bytes(),
{
    let v = vec![5u8, 0u8, 0u8, 1u8, 127u8, 0u8, 0u8, 1u8, 4u8, 0x38u8];
    assert(v@ =~= success_bytes());
    v
}

/// The `host:port` text that a direct connection is opened to.
pub fn direct_target(host: &str, port: u16) -> (t: String)
    ensures
        t@ == target_text(host@, port),
{
    let mut t = String::from_str(host);
    push_char(&mut t, ':');
    push_decimal(&mut t, port as u64);
    t
}

/// The data centre a tunnel goes to, given what the init packet named: the
/// destination's own data centre comes first.
pub fn choose_tunnel_dc(from_init: Option<u8>, dest: &str) -> (dc: u8)
    ensures
        dc == tunnel_dc_of(from_init, dest@),
{
    match dc_from_text(dest) {
        Some(d) => d,
        None => match from_init {
            Some(d) => d,
            None => 2,
        },
    }
}

/// Answers the client's greeting.
pub fn on_greeting(msg: &[u8]) -> (step: Step)
    ensures
        greeting_ok(msg@) ==> (step.reply matches Some(r) && r@ == greeting_reply_bytes()),
        greeting_ok(msg@) ==> (step.outcome matches Outcome::Continue(Phase::Request)),
        !greeting_ok(msg@) ==> step.reply is None,
        !greeting_ok(msg@) ==> (step.outcome matches Outcome::Fail(SessionError::NotSocks5)),
{
    if msg.len() < 2 || msg[0] != 5 {
        Step { reply: None, outcome: Outcome::Fail(SessionError::NotSocks5) }
    } else {
        Step { reply: Some(greeting_reply()), outcome: Outcome::Continue(Phase::Request) }
    }
}

/// Answers the client's CONNECT request: refused, failed on the destination,
/// or accepted, with Telegram addresses waiting for the init packet and all
/// others going straight to their `host:port`.
pub fn on_request(msg: &[u8]) -> (step: Step)
    ensures
        !connect_ok(msg@) ==> (step.reply matches Some(r) && r@ == refusal_bytes()),
        !connect_ok(msg@) ==> (step.outcome matches Outcome::Fail(SessionError::BadConnect)),
        connect_ok(msg@) ==> match dest_of(msg@.subrange(3, msg@.len() as int)) {
            Err(e) => step.reply is None && step.outcome == Outcome::Fail(SessionError::Dest(e)),
            Ok((host, port)) => {
                &&& step.reply matches Some(r) && r@ == success_bytes()
                &&& if dc_of_text(host) is Some {
                    step.outcome matches Outcome::Continue(Phase::Init { dest }) && dest@ == host
                } else {
                    step.outcome matches Outcome::Direct { target } && target@ == target_text(
                        host,
                        port,
                    )
                }
            },
        },
{
    if msg.len() < 7 || msg[0] != 5 || msg[1] != 1 {
        return Step { reply: Some(refusal()), outcome: Outcome::Fail(SessionError::BadConnect) };
    }
    let addr = byte_range(msg, 3, msg.len());
    match parse_dest(addr) {
        Err(e) => Step { reply: None, outcome: Outcome::Fail(SessionError::Dest(e)) },
        Ok((host, port)) => {
            if dc_from_text(host.as_str()).is_some() {
                Step { reply: Some(success()), outcome: Outcome::Continue(Phase::Init { dest: host }) }
            } else {
                let target = direct_target(host.as_str(), port);
                Step { reply: Some(success()), outcome: Outcome::Direct { target } }
            }
        },
    }
}

/// Handles the client's init packet: the tunnel goes to the data centre of
/// the destination address, falling back on the one the packet names, then
/// on data centre 2.
pub fn on_init(init: &[u8; 64], dest: &str) -> (step: Step)
    ensures
        step.reply is None,
        step.outcome == (Outcome::Tunnel { dc: tunnel_dc_of(dc_of_init(init@), dest@) }),
{
    let from_init = extract_dc_from_init(init);
    Step { reply: None, outcome: Outcome::Tunnel { dc: choose_tunnel_dc(from_init, dest) } }
}


/// A greeting is accepted exactly when it has at least two bytes and its
/// first byte is version 5, whatever authentication methods it offers; the
/// answer is version 5 with "no authentication".
pub proof fn law_greeting_acceptance(m: Seq<u8>)
    ensures
        greeting_ok(m) <==> (m.len() >= 2 && m[0] == 5),
        greeting_reply_bytes() == seq![5u8, 0u8],
{
}

/// A request is taken up exactly when it has at least seven bytes, version 5
/// and command 1 (CONNECT), however long its address is; the answers are
/// "success, bound to 127.0.0.1:1080" and "command not supported".
pub proof fn law_connect_acceptance(m: Seq<u8>)
    ensures
        connect_ok(m) <==> (m.len() >= 7 && m[0] == 5 && m[1] == 1),
        success_bytes() == seq![5u8, 0u8, 0u8, 1u8, 127u8, 0u8, 0u8, 1u8, 4u8, 0x38u8],
        refusal_bytes() == seq![5u8, 7u8, 0u8, 1u8, 0u8, 0u8, 0u8, 0u8, 0u8, 0u8],
{
}

/// A domain-name destination (type 3) is its length byte `n`, the name in
/// the next `n` bytes and the port in the two after them, high byte first:
/// shorter than `4 + n` bytes it is too short; else it is the name, when the
/// name is UTF-8, with that port.
pub proof fn law_domain_destination(data: Seq<u8>)
    requires
        data.len() >= 2,
        data[0] == 3,
    ensures
        data.len() < 4 + data[1] ==> dest_of(data) == Err::<(Seq<char>, u16), DestError>(
            DestError::Short,
        ),
        data.len() >= 4 + data[1] && !valid_utf8(data.subrange(2, 2 + data[1])) ==> dest_of(data)
            == Err::<(Seq<char>, u16), DestError>(DestError::InvalidUtf8),
        data.len() >= 4 + data[1] && valid_utf8(data.subrange(2, 2 + data[1])) ==> (dest_of(data) matches Ok(
            (host, port),
        ) && host == decode_utf8(data.subrange(2, 2 + data[1])) && port as int == data[2 + data[1]]
            * 256 + data[3 + data[1]]),
{
}

/// An IPv4 destination (type 1) is four address bytes and a port, high byte
/// first: shorter than seven bytes it is too short; else the host is the
/// address's dotted-quad text, which names those four bytes.
pub proof fn law_ipv4_destination(data: Seq<u8>)
    requires
        data.len() >= 1,
        data[0] == 1,
    ensures
        data.len() < 7 ==> dest_of(data) == Err::<(Seq<char>, u16), DestError>(DestError::Short),
        data.len() >= 7 ==> (dest_of(data) matches Ok((host, port)) && parsed_ipv4(host) == Some(
            data.subrange(1, 5),
        ) && port as int == data[5] * 256 + data[6]),
{
    if data.len() >= 7 {
        law_ipv4_round_trip(data.subrange(1, 5));
    }
}

/// An IPv6 destination (type 4) is sixteen address bytes and a port, high
/// byte first: shorter than nineteen bytes it is too short; any other address
/// type is unknown.
pub proof fn law_other_destinations(data: Seq<u8>)
    requires
        data.len() >= 1,
    ensures
        data[0] == 4 && data.len() < 19 ==> dest_of(data) == Err::<(Seq<char>, u16), DestError>(
            DestError::Short,
        ),
        data[0] == 4 && data.len() >= 19 ==> (dest_of(data) matches Ok((host, port)) && port as int
            == data[17] * 256 + data[18]),
        data[0] != 1 && data[0] != 3 && data[0] != 4 ==> dest_of(data) == Err::<
            (Seq<char>, u16),
            DestError,
        >(DestError::UnknownAddrType),
{
}

/// A tunnel always goes to one of DC1 to DC5, whatever the init packet and
/// the destination.
pub proof fn law_tunnel_dc_range(init: Seq<u8>, dest: Seq<char>)
    requires
        init.len() == 64,
    ensures
        1 <= tunnel_dc_of(dc_of_init(init), dest) <= 5,
{
    if dc_of_text(dest) is Some {
        law_dc_of_octets_range(parsed_ipv4(dest)->0);
    }
}

/// The data centre is chosen by the destination address: a tunnel to a
/// Telegram address goes to the data centre of its subnet, whatever the init
/// packet names.
pub proof fn law_tunnel_follows_destination(from_init: Option<u8>, dest: Seq<char>)
    requires
        dc_of_text(dest) is Some,
    ensures
        tunnel_dc_of(from_init, dest) == dc_of_text(dest)->0,
{
}

/// A destination outside Telegram's subnets leaves the choice to the init
/// packet, and to data centre 2 when the packet names none.
pub proof fn law_tunnel_fallbacks(from_init: Option<u8>, dest: Seq<char>)
    requires
        dc_of_text(dest) is None,
    ensures
        from_init matches Some(d) ==> tunnel_dc_of(from_init, dest) == d,
        from_init is None ==> tunnel_dc_of(from_init, dest) == 2,
{
}

/// A CONNECT request for an IPv6 address never goes through a tunnel: its
/// host is not dotted-quad text.
pub proof fn law_ipv6_requests_go_direct(addr: Seq<u8>)
    requires
        addr.len() >= 19,
        addr[0] == 4,
    ensures
        dest_of(addr) matches Ok((host, port)) && dc_of_text(host) is None,
{
    let host = ipv6_text(ipv6_segments(addr));
    lemma_ipv6_text_has_colon(ipv6_segments(addr));
    let k = choose|k: int| 0 <= k < host.len() && host[k] == ':';
    if parsed_ipv4(host) is Some {
        let o = parsed_ipv4(host)->0;
        lemma_ipv4_text_chars(o, k);
    }
}

/// A CONNECT request for an IPv4 address names that address as its host, so
/// it goes through a tunnel exactly when the address is in Telegram's
/// subnets, and to the data centre the subnet belongs to.
pub proof fn law_ipv4_request_routing(addr: Seq<u8>)
    requires
        addr.len() >= 7,
        addr[0] == 1,
    ensures
        dest_of(addr) matches Ok((host, port)) && dc_of_text(host) == dc_of_octets(addr.subrange(1, 5))
            && port == be16(addr[5], addr[6]),
{
    law_ipv4_round_trip(addr.subrange(1, 5));
}

} // verus!
