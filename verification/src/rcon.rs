//! RCON: when a server can be reached through it, and the request packet
//! that carries a command.

use vstd::prelude::*;
use crate::config::{conf_value, rcon_password, rcon_port};
use crate::dir::{opt_view, ServerDir};
use crate::text::{chars_of, extend_chars, string_of};
use vstd::string::StringSliceAdditionalSpecFns;
use vstd::utf8::encode_utf8;

verus! {

/// Whether the server can be sent commands over RCON: `.mcserver.conf`
/// records both a password and a port.
pub open spec fn rcon_ready(dir: ServerDir) -> bool {
    conf_value(opt_view(dir.conf), "rcon_password"@).len() > 0 && conf_value(
        opt_view(dir.conf),
        "rcon_port"@,
    ).len() > 0
}

/// Whether the server can be sent commands over RCON.
pub fn rcon_available(dir: &ServerDir) -> (r: bool)
    ensures
        r == rcon_ready(*dir),
{
    let p = rcon_password(dir);
    let q = rcon_port(dir);
    chars_of(p.as_str()).len() > 0 && chars_of(q.as_str()).len() > 0
}

/// The four bytes of `n`, least significant first (`u32::to_le_bytes`).
pub open spec fn le_bytes(n: nat) -> Seq<u8> {
    seq![
        (n % 256) as u8,
        ((n / 256) % 256) as u8,
        ((n / 65536) % 256) as u8,
        ((n / 16777216) % 256) as u8,
    ]
}

/// The packet type of an RCON login.
pub const LOGIN_TYPE: u32 = 3;

/// The packet type of an RCON command.
pub const COMMAND_TYPE: u32 = 2;

/// An RCON packet: its length (the request id, the type, the body and its
/// two closing NULs, modulo 2³²), the request id and the type, each as four
/// little-endian bytes, then the body and two NULs.
pub open spec fn rcon_packet_bytes(id: u32, ptype: u32, body: Seq<u8>) -> Seq<u8> {
    le_bytes(((4 + 4 + body.len() + 2) % 0x1_0000_0000) as nat) + le_bytes(id as nat) + le_bytes(
        ptype as nat,
    ) + body + seq![0u8, 0u8]
}

fn push_le(v: &mut Vec<u8>, n: u32)
    ensures
        final(v)@ == old(v)@ + le_bytes(n as nat),
{
    v.push((n % 256) as u8);
    v.push(((n / 256) % 256) as u8);
    v.push(((n / 65536) % 256) as u8);
    v.push(((n / 16777216) % 256) as u8);
    assert(final(v)@ =~= old(v)@ + le_bytes(n as nat));
}

fn push_bytes(v: &mut Vec<u8>, b: &[u8])
    ensures
        final(v)@ == old(v)@ + b@,
{
    let ghost v0 = v@;
    let mut i: usize = 0;
    while i < b.len()
        invariant
            i <= b.len(),
            v@ == v0 + b@.take(i as int),
        decreases b.len() - i,
    {
        v.push(b[i]);
        assert(b@.take(i + 1) =~= b@.take(i as int).push(b@[i as int]));
        i = i + 1;
    }
    assert(b@.take(b.len() as int) =~= b@);
}

/// The RCON packet with request id `id`, type `ptype` and body `body`
/// (encoded as UTF-8).
pub fn rcon_packet(id: u32, ptype: u32, body: &str) -> (r: Vec<u8>)
    ensures
        r@ == rcon_packet_bytes(id, ptype, encode_utf8(body@)),
{
    let bytes = body.as_bytes();
    let n = bytes.len();
    let m: u64 = (n as u64) % 0x1_0000_0000u64;
    let len32: u32 = ((m + 10) % 0x1_0000_0000u64) as u32;
    assert(len32 as int == (4 + 4 + n + 2) % 0x1_0000_0000) by (nonlinear_arith)
        requires
            m as int == (n as int) % 0x1_0000_0000,
            len32 as int == (m as int + 10) % 0x1_0000_0000,
    ;
    let mut packet: Vec<u8> = Vec::new();
    push_le(&mut packet, len32);
    push_le(&mut packet, id);
    push_le(&mut packet, ptype);
    push_bytes(&mut packet, bytes);
    packet.push(0u8);
    packet.push(0u8);
    assert(packet@ =~= rcon_packet_bytes(id, ptype, encode_utf8(body@)));
    packet
}

/// Where the RCON request for a server goes: its port on the local host.
pub open spec fn rcon_address_text(port: Seq<char>) -> Seq<char> {
    "127.0.0.1:"@ + port
}

/// A request to send over RCON: the address, the login packet and the
/// command packet, sent in that order.
pub struct RconRequest {
    pub address: String,
    pub login: Vec<u8>,
    pub command: Vec<u8>,
}

/// What `rcon_send` sends for `command` to the server: nothing where its
/// password or port is not recorded; otherwise, to the recorded port on
/// the local host, a login (request id 1, type 3, the recorded password),
/// then the command (request id 2, type 2).
pub fn rcon_request(dir: &ServerDir, command: &str) -> (r: Option<RconRequest>)
    ensures
        r is None <==> !rcon_ready(*dir),
        r matches Some(q) ==> {
            &&& q.address@ == rcon_address_text(conf_value(opt_view(dir.conf), "rcon_port"@))
            &&& q.login@ == rcon_packet_bytes(
                1,
                LOGIN_TYPE,
                encode_utf8(conf_value(opt_view(dir.conf), "rcon_password"@)),
            )
            &&& q.command@ == rcon_packet_bytes(2, COMMAND_TYPE, encode_utf8(command@))
        },
{
    let pass = rcon_password(dir);
    let port = rcon_port(dir);
    if chars_of(pass.as_str()).len() == 0 || chars_of(port.as_str()).len() == 0 {
        return None;
    }
    let mut a = chars_of("127.0.0.1:");
    extend_chars(&mut a, port.as_str());
    let login = rcon_packet(1, LOGIN_TYPE, pass.as_str());
    let cmd = rcon_packet(2, COMMAND_TYPE, command);
    Some(RconRequest { address: string_of(&a), login, command: cmd })
}

} // verus!

verus! {

/// How a broadcast command reaches a running server.
#[derive(PartialEq, Eq, Structural, Debug, Clone, Copy)]
pub enum BroadcastRoute {
    /// Over RCON, which is configured.
    Rcon,
    /// Typed into its tmux session.
    Tmux,
}

/// How a broadcast command reaches the server in `dir`: over RCON where
/// it is configured, through tmux otherwise.
pub fn broadcast_route(dir: &ServerDir) -> (r: BroadcastRoute)
    ensures
        r == (if rcon_ready(*dir) {
            BroadcastRoute::Rcon
        } else {
            BroadcastRoute::Tmux
        }),
{
    if rcon_available(dir) {
        BroadcastRoute::Rcon
    } else {
        BroadcastRoute::Tmux
    }
}

} // verus!

verus! {

/// An RCON packet frames its body: it is 14 bytes longer than the body,
/// its first four bytes count everything after them (for bodies that fit),
/// the request id and type follow, then the body itself, and it ends in two
/// NUL bytes. A login carries type 3 and a command type 2.
pub proof fn law_rcon_packet_frame(id: u32, ptype: u32, body: Seq<u8>)
    requires
        body.len() + 10 < 256,
    ensures
        ({
            let p = rcon_packet_bytes(id, ptype, body);
            &&& p.len() == body.len() + 14
            &&& p[0] as int == p.len() - 4 && p[1] == 0 && p[2] == 0 && p[3] == 0
            &&& p[4] as int == id % 256
            &&& p[8] as int == ptype % 256
            &&& p.subrange(12, 12 + body.len() as int) == body
            &&& p[p.len() - 2] == 0 && p[p.len() - 1] == 0
            &&& ptype == LOGIN_TYPE ==> p[8] == 3
            &&& ptype == COMMAND_TYPE ==> p[8] == 2
        }),
{
    let p = rcon_packet_bytes(id, ptype, body);
    let n = (4 + 4 + body.len() + 2) % 0x1_0000_0000;
    assert(n == body.len() + 10);
    assert(n / 256 == 0 && n / 65536 == 0 && n / 16777216 == 0);
    assert(p.subrange(12, 12 + body.len() as int) =~= body);
}

} // verus!
