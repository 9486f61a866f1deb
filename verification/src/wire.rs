//! Payloads and tags on the wire, and the keys by which senders are counted.

use crate::addr::{Endpoint, IpAddr};
use vstd::bytes::*;
use vstd::prelude::*;

verus! {

/// The kinds of control packets.
#[derive(Clone, Copy, Debug, PartialEq, Eq, Hash, Structural)]
pub enum ControlTag {
    Join,
    Jack,
    Merr,
    Pmtu,
    Pmar,
    Brek,
    Rdys,
    Mstr,
    ParaHello,
    ParaReply,
    ParaOk,
    ParaPunchAck,
    Kpal,
    Hpch,
    Hack,
    Mctl,
    Sync,
    Msmd,
    Prxy,
    Kick,
    Ctsig,
    Other,
}

/// The control packets that are taken without a signature even where the
/// network has a key.
pub open spec fn open_tag(tag: ControlTag) -> bool {
    signaling_tag(tag) || tag is Pmtu || tag is Pmar || tag is Brek || tag is Rdys || tag is Mstr
        || tag is Mctl
}

/// The control packets that are always sent in the clear.
pub open spec fn signaling_tag(tag: ControlTag) -> bool {
    tag is Join || tag is Jack || tag is Merr || tag is ParaHello || tag is ParaReply
        || tag is ParaOk || tag is ParaPunchAck || tag is Kpal || tag is Hpch || tag is Hack
}

pub fn allow_unauth_control_tag_with_crypto(tag: ControlTag) -> (ok: bool)
    ensures
        ok == open_tag(tag),
{
    match tag {
        ControlTag::Join
        | ControlTag::Jack
        | ControlTag::Merr
        | ControlTag::Pmtu
        | ControlTag::Pmar
        | ControlTag::Brek
        | ControlTag::Rdys
        | ControlTag::Mstr
        | ControlTag::ParaHello
        | ControlTag::ParaReply
        | ControlTag::ParaOk
        | ControlTag::ParaPunchAck
        | ControlTag::Kpal
        | ControlTag::Hpch
        | ControlTag::Hack
        | ControlTag::Mctl => true,
        _ => false,
    }
}

pub fn is_signaling_tag(tag: ControlTag) -> (ok: bool)
    ensures
        ok == signaling_tag(tag),
{
    match tag {
        ControlTag::Join
        | ControlTag::Jack
        | ControlTag::Merr
        | ControlTag::ParaHello
        | ControlTag::ParaReply
        | ControlTag::ParaOk
        | ControlTag::ParaPunchAck
        | ControlTag::Kpal
        | ControlTag::Hpch
        | ControlTag::Hack => true,
        _ => false,
    }
}

/// What is sent in the clear may also come in without a signature.
pub proof fn signaling_is_open(tag: ControlTag)
    ensures
        signaling_tag(tag) ==> open_tag(tag),
{
}

/// The ping id and the time stamp of a ping.
pub open spec fn ping_of(body: Seq<u8>) -> Option<(u64, u64)> {
    if body.len() < 16 {
        None
    } else {
        Some(
            (
                spec_u64_from_le_bytes(body.subrange(0, 8)),
                spec_u64_from_le_bytes(body.subrange(8, 16)),
            ),
        )
    }
}

/// Reads eight bytes as a number, low byte first.
fn le_u64_at(body: &[u8], at: usize) -> (x: u64)
    requires
        at + 8 <= body.len(),
    ensures
        x == spec_u64_from_le_bytes(body@.subrange(at as int, at + 8)),
{
    u64_from_le_bytes(vstd::slice::slice_subrange(body, at, at + 8))
}

pub fn decode_ping_payload(body: &[u8]) -> (out: Option<(u64, u64)>)
    ensures
        out == ping_of(body@),
{
    if body.len() < 16 {
        return None;
    }
    Some((le_u64_at(body, 0), le_u64_at(body, 8)))
}

/// A ping: its id and the sender's clock, both low byte first.
pub open spec fn ping_bytes(ping_id: u64, ts: u64) -> Seq<u8> {
    spec_u64_to_le_bytes(ping_id) + spec_u64_to_le_bytes(ts)
}

pub fn encode_ping_payload(ping_id: u64, ts: u64) -> (out: Vec<u8>)
    ensures
        out@ == ping_bytes(ping_id, ts),
        out@.len() == 16,
{
    proof {
        lemma_auto_spec_u64_to_from_le_bytes();
    }
    let mut out: Vec<u8> = u64_to_le_bytes(ping_id);
    let mut tail: Vec<u8> = u64_to_le_bytes(ts);
    out.append(&mut tail);
    out
}

/// A receiver reads from a ping what its sender put in.
pub proof fn ping_round_trip(ping_id: u64, ts: u64)
    ensures
        ping_of(ping_bytes(ping_id, ts)) == Some((ping_id, ts)),
{
    lemma_auto_spec_u64_to_from_le_bytes();
    let b = ping_bytes(ping_id, ts);
    assert(b.subrange(0, 8) =~= spec_u64_to_le_bytes(ping_id));
    assert(b.subrange(8, 16) =~= spec_u64_to_le_bytes(ts));
}

/// The number that has the same thirty-two bits as `x`.
pub open spec fn bits_of_i32(x: i32) -> u32 {
    if x >= 0 {
        x as u32
    } else {
        (x + 0x100000000) as u32
    }
}

/// The signed number that has the bits `u`.
pub open spec fn i32_of_bits(u: u32) -> i32 {
    if u < 0x80000000 {
        u as i32
    } else {
        (u - 0x100000000) as i32
    }
}

fn to_bits(x: i32) -> (u: u32)
    ensures
        u == bits_of_i32(x),
{
    if x >= 0 {
        x as u32
    } else {
        (x as i64 + 0x100000000) as u32
    }
}

fn from_bits(u: u32) -> (x: i32)
    ensures
        x == i32_of_bits(u),
{
    if u < 0x80000000 {
        u as i32
    } else {
        (u as i64 - 0x100000000) as i32
    }
}

/// A pong: the ping's id and time stamp, and the delay that the receiver saw.
pub open spec fn pong_bytes(ping_id: u64, sender_ts: u64, owd: i32) -> Seq<u8> {
    spec_u64_to_le_bytes(ping_id) + spec_u64_to_le_bytes(sender_ts) + spec_u32_to_le_bytes(
        bits_of_i32(owd),
    )
}

/// The id, the time stamp and the delay of a pong.
pub open spec fn pong_of(body: Seq<u8>) -> Option<(u64, u64, i32)> {
    if body.len() < 20 {
        None
    } else {
        Some(
            (
                spec_u64_from_le_bytes(body.subrange(0, 8)),
                spec_u64_from_le_bytes(body.subrange(8, 16)),
                i32_of_bits(spec_u32_from_le_bytes(body.subrange(16, 20))),
            ),
        )
    }
}

pub fn encode_pong_payload(ping_id: u64, sender_ts: u64, fwd_owd_sample_ms: i32) -> (out: [u8; 20])
    ensures
        out@ == pong_bytes(ping_id, sender_ts, fwd_owd_sample_ms),
{
    proof {
        lemma_auto_spec_u64_to_from_le_bytes();
        lemma_auto_spec_u32_to_from_le_bytes();
    }
    let a: Vec<u8> = u64_to_le_bytes(ping_id);
    let b: Vec<u8> = u64_to_le_bytes(sender_ts);
    let c: Vec<u8> = u32_to_le_bytes(to_bits(fwd_owd_sample_ms));
    let out: [u8; 20] = [
        a[0], a[1], a[2], a[3], a[4], a[5], a[6], a[7],
        b[0], b[1], b[2], b[3], b[4], b[5], b[6], b[7],
        c[0], c[1], c[2], c[3],
    ];
    proof {
        assert(out@ =~= a@ + b@ + c@);
    }
    out
}

pub fn decode_pong_payload(body: &[u8]) -> (out: Option<(u64, u64, i32)>)
    ensures
        out == pong_of(body@),
{
    if body.len() < 20 {
        return None;
    }
    let u: u32 = u32_from_le_bytes(vstd::slice::slice_subrange(body, 16, 20));
    Some((le_u64_at(body, 0), le_u64_at(body, 8), from_bits(u)))
}

/// A receiver reads from a pong what its sender put in.
pub proof fn pong_round_trip(ping_id: u64, sender_ts: u64, owd: i32)
    ensures
        pong_of(pong_bytes(ping_id, sender_ts, owd)) == Some((ping_id, sender_ts, owd)),
{
    lemma_auto_spec_u64_to_from_le_bytes();
    lemma_auto_spec_u32_to_from_le_bytes();
    let b = pong_bytes(ping_id, sender_ts, owd);
    assert(b.subrange(0, 8) =~= spec_u64_to_le_bytes(ping_id));
    assert(b.subrange(8, 16) =~= spec_u64_to_le_bytes(sender_ts));
    assert(b.subrange(16, 20) =~= spec_u32_to_le_bytes(bits_of_i32(owd)));
}

/// `x` brought into the range of a signed thirty-two-bit number.
pub open spec fn clamp_i32(x: int) -> int {
    if x < i32::MIN {
        i32::MIN as int
    } else if x > i32::MAX {
        i32::MAX as int
    } else {
        x
    }
}

/// The sixty-four bits of `x` as a signed number.
pub open spec fn signed(x: u64) -> int {
    if x <= i64::MAX {
        x as int
    } else {
        x - 0x10000000000000000
    }
}

/// The one-way delay of a ping: receive clock less send clock, in milliseconds.
pub fn one_way_delay_ms(now_ms: u64, sender_ts: u64) -> (owd: i32)
    ensures
        owd == clamp_i32(signed(now_ms) - signed(sender_ts)),
{
    let a: i128 = if now_ms <= 0x7fff_ffff_ffff_ffff {
        now_ms as i128
    } else {
        now_ms as i128 - 0x1_0000_0000_0000_0000
    };
    let b: i128 = if sender_ts <= 0x7fff_ffff_ffff_ffff {
        sender_ts as i128
    } else {
        sender_ts as i128 - 0x1_0000_0000_0000_0000
    };
    let d: i128 = a - b;
    if d < -0x8000_0000 {
        i32::MIN
    } else if d > 0x7fff_ffff {
        i32::MAX
    } else {
        d as i32
    }
}

/// The number that four bytes stand for, high byte first.
pub open spec fn be32(a: u8, b: u8, c: u8, d: u8) -> u32 {
    (a * 0x1000000 + b * 0x10000 + c * 0x100 + d) as u32
}

/// Reads four bytes as a number, high byte first.
pub fn be_u32_at(buf: &[u8], at: usize) -> (x: u32)
    requires
        at + 4 <= buf.len(),
    ensures
        x == be32(buf[at as int], buf[at + 1], buf[at + 2], buf[at + 3]),
{
    buf[at] as u32 * 0x1000000 + buf[at + 1] as u32 * 0x10000 + buf[at + 2] as u32 * 0x100 + buf[at
        + 3] as u32
}

/// A datagram with a STUN header: the two top bits clear and the magic cookie
/// in its place.
pub open spec fn stun_like(buf: Seq<u8>) -> bool {
    buf.len() >= 20 && buf[0] < 64 && be32(buf[4], buf[5], buf[6], buf[7]) == 0x2112A442
}

pub fn looks_like_stun(buf: &[u8]) -> (r: bool)
    ensures
        r == stun_like(buf@),
{
    if buf.len() < 20 {
        return false;
    }
    buf[0] < 64 && be_u32_at(buf, 4) == 0x2112A442
}

/// An IPv4 packet to all hosts, or to a group.
pub open spec fn group_packet(pkt: Seq<u8>) -> bool {
    pkt.len() >= 20 && pkt[0] / 16 == 4 && (be32(pkt[16], pkt[17], pkt[18], pkt[19]) == 0xffffffff
        || 224 <= pkt[16] <= 239)
}

pub fn is_broadcast_or_multicast(pkt: &[u8]) -> (r: bool)
    ensures
        r == group_packet(pkt@),
{
    if pkt.len() < 20 || pkt[0] / 16 != 4 {
        return false;
    }
    be_u32_at(pkt, 16) == 0xffffffff || (224 <= pkt[16] && pkt[16] <= 239)
}

/// Whether a time stamp is within ninety seconds of the local clock.
pub fn is_recent_para_ts(ts_ms: u64, now_ms: u64) -> (r: bool)
    ensures
        r == (-90_000 <= now_ms - ts_ms <= 90_000),
{
    let delta: u64 = if now_ms >= ts_ms {
        now_ms - ts_ms
    } else {
        ts_ms - now_ms
    };
    delta <= 90_000
}

/// Whether a send failed because the datagram is too long for the path, by the
/// operating system's error number.
pub fn is_udp_message_too_long(os_error: Option<i32>) -> (r: bool)
    ensures
        r == (os_error == Some(10040i32) || os_error == Some(90i32)),
{
    match os_error {
        Some(e) => e == 10040 || e == 90,
        None => false,
    }
}

/// The number under which an address is counted.
pub open spec fn ip_key(ip: IpAddr) -> u64 {
    match ip {
        IpAddr::V4(a) => a as u64,
        IpAddr::V6(hi, lo) => hi ^ lo,
    }
}

/// `x` turned left by seventeen bits.
pub open spec fn turned(x: u64) -> u64 {
    (x << 17) | (x >> 47)
}

/// The number under which a sender is counted.
pub open spec fn sender_key(ep: Endpoint) -> u64 {
    turned(ip_key(ep.ip)) ^ (ep.port as u64)
}

pub fn src_key(ip: IpAddr) -> (k: u64)
    ensures
        k == ip_key(ip),
{
    match ip {
        IpAddr::V4(a) => a as u64,
        IpAddr::V6(hi, lo) => hi ^ lo,
    }
}

pub fn src_addr_key(from: Endpoint) -> (k: u64)
    ensures
        k == sender_key(from),
{
    let x: u64 = src_key(from.ip);
    ((x << 17) | (x >> 47)) ^ (from.port as u64)
}

pub fn join_rate_key(from: Endpoint) -> (k: u64)
    ensures
        k == sender_key(from),
{
    src_addr_key(from)
}

pub fn join_ip_key(from: Endpoint) -> (k: u64)
    ensures
        k == ip_key(from.ip),
{
    src_key(from.ip)
}

/// Senders behind one address but with different ports are counted apart.
pub proof fn sender_keys_tell_ports_apart(a: Endpoint, b: Endpoint)
    requires
        a.ip == b.ip,
        a.port != b.port,
    ensures
        sender_key(a) != sender_key(b),
{
    let t = turned(ip_key(a.ip));
    let p = a.port as u64;
    let q = b.port as u64;
    assert(p != q ==> t ^ p != t ^ q) by (bit_vector);
}

/// A name that can be handed to the system's network tools: letters, digits
/// and a few marks, one to 128 bytes.
pub open spec fn alias_char(c: char) -> bool {
    ||| ('a' <= c && c <= 'z')
    ||| ('A' <= c && c <= 'Z')
    ||| ('0' <= c && c <= '9')
    ||| c == ' '
    ||| c == '_'
    ||| c == '-'
    ||| c == '.'
    ||| c == '('
    ||| c == ')'
}

pub fn is_safe_interface_alias(s: &str) -> (ok: bool)
    ensures
        ok == (0 < s@.len() && vstd::utf8::encode_utf8(s@).len() <= 128 && forall|i: int|
            0 <= i < s@.len() ==> alias_char(#[trigger] s@[i])),
{
    if s.is_empty() {
        return false;
    }
    let bytes: &[u8] = s.as_bytes();
    if bytes.len() > 128 {
        return false;
    }
    let cs: Vec<char> = crate::text::chars_of(s);
    let mut i: usize = 0;
    while i < cs.len()
        invariant
            cs@ == s@,
            i <= cs.len(),
            forall|j: int| 0 <= j < i ==> alias_char(#[trigger] s@[j]),
        decreases cs.len() - i,
    {
        let c: char = cs[i];
        let ok: bool = ('a' <= c && c <= 'z') || ('A' <= c && c <= 'Z') || ('0' <= c && c <= '9')
            || c == ' ' || c == '_' || c == '-' || c == '.' || c == '(' || c == ')';
        if !ok {
            proof {
                assert(!alias_char(s@[i as int]));
            }
            return false;
        }
        i += 1;
    }
    true
}

/// The netmask of a subnet whose prefix is brought into 8 to 30 bits.
pub open spec fn net_mask(prefix: u8) -> u32 {
    let p: u32 = if prefix < 8 {
        8
    } else if prefix > 30 {
        30
    } else {
        prefix as u32
    };
    u32::MAX << ((32 - p) as u32)
}

/// The largest host number that is not the broadcast address.
pub open spec fn max_host(prefix: u8) -> int {
    !net_mask(prefix) - 1
}

/// The first host number that is handed out: the first one belongs to the
/// owner, unless the subnet has two hosts only.
pub open spec fn min_host(prefix: u8) -> int {
    if max_host(prefix) <= 2 {
        1
    } else {
        2
    }
}

/// The address of host `h` in the subnet of `my`.
pub open spec fn host_addr(my: u32, prefix: u8, h: int) -> u32 {
    (my & net_mask(prefix)) | (h as u32)
}

/// Host `h` cannot be handed out: it is the caller's own, or `f` says that it
/// is taken.
pub open spec fn host_taken<F: Fn(u32) -> bool>(f: F, my: u32, prefix: u8, h: int) -> bool {
    let a = host_addr(my, prefix, h);
    a == my || call_ensures(f, (a,), true)
}

/// The first free address of the subnet of `my_vip_u32`.
pub fn first_free_vip_u32_in_subnet<F: Fn(u32) -> bool>(
    my_vip_u32: u32,
    subnet_prefix: u8,
    is_occupied: F,
) -> (out: Option<u32>)
    requires
        forall|u: u32| call_requires(is_occupied, (u,)),
    ensures
        match out {
            Some(a) => my_vip_u32 != 0 && exists|h: int|
                min_host(subnet_prefix) <= h <= max_host(subnet_prefix) && a == #[trigger] host_addr(
                    my_vip_u32,
                    subnet_prefix,
                    h,
                ) && a != my_vip_u32 && call_ensures(is_occupied, (a,), false) && forall|g: int|
                    min_host(subnet_prefix) <= g < h ==> #[trigger] host_taken(
                        is_occupied,
                        my_vip_u32,
                        subnet_prefix,
                        g,
                    ),
            None => my_vip_u32 == 0 || forall|g: int|
                min_host(subnet_prefix) <= g <= max_host(subnet_prefix) ==> #[trigger] host_taken(
                    is_occupied,
                    my_vip_u32,
                    subnet_prefix,
                    g,
                ),
        },
{
    if my_vip_u32 == 0 {
        return None;
    }
    let p: u32 = if subnet_prefix < 8 {
        8
    } else if subnet_prefix > 30 {
        30
    } else {
        subnet_prefix as u32
    };
    let s: u32 = 32 - p;
    let mask: u32 = u32::MAX << s;
    proof {
        assert(2 <= s <= 24 ==> !(u32::MAX << s) >= 3 && !(u32::MAX << s) <= 0xffffff) by (
        bit_vector);
    }
    let host_mask: u32 = !mask;
    let base: u32 = my_vip_u32 & mask;
    let top: u32 = host_mask - 1;
    let lo: u32 = if top <= 2 {
        1
    } else {
        2
    };
    let mut h: u32 = lo;
    while h <= top
        invariant
            base == my_vip_u32 & net_mask(subnet_prefix),
            top == max_host(subnet_prefix),
            lo == min_host(subnet_prefix),
            top <= 0xffffff,
            lo <= h <= top + 1,
            my_vip_u32 != 0,
            forall|u: u32| call_requires(is_occupied, (u,)),
            forall|g: int|
                lo <= g < h ==> #[trigger] host_taken(is_occupied, my_vip_u32, subnet_prefix, g),
        decreases top + 1 - h,
    {
        let candidate: u32 = base | h;
        proof {
            assert(candidate == host_addr(my_vip_u32, subnet_prefix, h as int));
        }
        if candidate != my_vip_u32 {
            let taken: bool = is_occupied(candidate);
            if !taken {
                return Some(candidate);
            }
        }
        proof {
            assert(host_taken(is_occupied, my_vip_u32, subnet_prefix, h as int));
        }
        h += 1;
    }
    None
}

/// What binds a sealed data packet to its two ends: the sender's and the
/// receiver's address, high byte first.
pub open spec fn data_aad_of(sender: u32, receiver: u32) -> Seq<u8> {
    seq![
        crate::text::octet(sender, 0),
        crate::text::octet(sender, 1),
        crate::text::octet(sender, 2),
        crate::text::octet(sender, 3),
        crate::text::octet(receiver, 0),
        crate::text::octet(receiver, 1),
        crate::text::octet(receiver, 2),
        crate::text::octet(receiver, 3),
    ]
}

pub fn data_aad(sender: u32, receiver: u32) -> (out: [u8; 8])
    ensures
        out@ == data_aad_of(sender, receiver),
{
    let (a, b, c, d) = crate::text::split_octets(sender);
    let (e, f, g, h) = crate::text::split_octets(receiver);
    let out: [u8; 8] = [a, b, c, d, e, f, g, h];
    proof {
        assert(out@ =~= data_aad_of(sender, receiver));
    }
    out
}

/// Packets between different pairs of ends are never bound alike.
pub proof fn data_aad_injective(s: u32, r: u32, s2: u32, r2: u32)
    requires
        data_aad_of(s, r) == data_aad_of(s2, r2),
    ensures
        s == s2,
        r == r2,
{
    let x = data_aad_of(s, r);
    let y = data_aad_of(s2, r2);
    assert(x[0] == y[0] && x[1] == y[1] && x[2] == y[2] && x[3] == y[3]);
    assert(x[4] == y[4] && x[5] == y[5] && x[6] == y[6] && x[7] == y[7]);
    crate::text::quad_of_octets(s);
    crate::text::quad_of_octets(s2);
    crate::text::quad_of_octets(r);
    crate::text::quad_of_octets(r2);
}

} // verus!
