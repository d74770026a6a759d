//! Connection tracking: the VNI-scoped 5-tuple key, stored translations, and the TCP state that
//! decides how long an entry lives.

use vstd::prelude::*;

use crate::bytes;
use crate::bytes::{read4, spans};
use crate::parse;
use crate::parse::{l4_ports, tcp_flags};
use crate::tables::{Tables, TablesView};
use crate::translate;
use crate::translate::{translate, End};
use crate::types::{
    CtEntry, CtKey, CT_F_DEFAULT, TCP_ESTABLISHED, TCP_FINWAIT, TCP_NEW_SYN, TCP_NEW_SYNACK,
    TCP_NONE, TCP_RST_FIN,
};

verus! {

/// The conntrack key of the IPv4 packet at `ip`, if it has one.
pub open spec fn key_of(f: Seq<u8>, ip: int, vni: u32) -> Option<CtKey> {
    match parse::ports_of(f, ip) {
        Some((proto, sport, dport)) => Some(
            CtKey {
                vni,
                src_ip: bytes::at4(f, ip + 12),
                dst_ip: bytes::at4(f, ip + 16),
                src_port: sport,
                dst_port: dport,
                proto,
            },
        ),
        None => None,
    }
}

/// Build the key of the packet at `ip_off` (host-order ports; the ICMP identifier in both ports).
pub fn ct_key(f: &Vec<u8>, ip_off: usize, vni: u32) -> (r: Option<CtKey>)
    ensures
        r == key_of(f@, ip_off as int, vni),
{
    if !spans(f, ip_off, 20) {
        return None;
    }
    let src_ip = read4(f, ip_off + 12);
    let dst_ip = read4(f, ip_off + 16);
    match l4_ports(f, ip_off) {
        Some((proto, src_port, dst_port)) => Some(
            CtKey { vni, src_ip, dst_ip, src_port, dst_port, proto },
        ),
        None => None,
    }
}

/// Whether an entry's flags say that it rewrites the source.
pub open spec fn rewrites_src(flags: u8) -> bool {
    flags % 2 == 1
}

/// Whether an entry's flags say that it rewrites the destination.
pub open spec fn rewrites_dst(flags: u8) -> bool {
    flags / 2 % 2 == 1
}

pub fn is_rewrite_src(flags: u8) -> (r: bool)
    ensures
        r == rewrites_src(flags),
{
    flags % 2 == 1
}

pub fn is_rewrite_dst(flags: u8) -> (r: bool)
    ensures
        r == rewrites_dst(flags),
{
    flags / 2 % 2 == 1
}

/// The port an entry translates to: zero stands for none.
pub open spec fn entry_port(e: CtEntry) -> Option<u16> {
    if e.xlate_port != 0 {
        Some(e.xlate_port)
    } else {
        None
    }
}

/// The end an entry translates; the source wins where both flags are set.
pub open spec fn entry_end(e: CtEntry) -> End {
    if rewrites_src(e.flags) {
        End::Source
    } else {
        End::Destination
    }
}

/// The packet at `ip` after an entry's translation. An entry without a rewrite flag leaves it
/// alone, and so does a packet with IPv4 options.
pub open spec fn applied(f: Seq<u8>, ip: int, e: CtEntry) -> Seq<u8> {
    if (rewrites_src(e.flags) || rewrites_dst(e.flags)) && ip + 20 <= f.len() && f[ip] % 16 == 5 {
        translate::translated(f, ip, ip + 20, entry_end(e), e.xlate_ip, entry_port(e))
    } else {
        f
    }
}

/// Apply a conntrack entry's translation to the packet at `ip_off`.
pub fn ct_apply(f: &mut Vec<u8>, ip_off: usize, e: &CtEntry)
    ensures
        final(f)@ == applied(old(f)@, ip_off as int, *e),
{
    // An entry without a translation must never rewrite: it would null the address.
    if !is_rewrite_src(e.flags) && !is_rewrite_dst(e.flags) {
        return;
    }
    if !spans(f, ip_off, 20) || f[ip_off] % 16 != 5 {
        return;
    }
    let end = if is_rewrite_src(e.flags) {
        End::Source
    } else {
        End::Destination
    };
    let port: Option<u16> = if e.xlate_port != 0 {
        Some(e.xlate_port)
    } else {
        None
    };
    translate(f, ip_off, 20, end, &e.xlate_ip, port);
}

/// The state of a TCP flow after a segment with the given flags byte (bit 0 FIN, bit 1 SYN, bit 2
/// RST, bit 4 ACK). RST beats FIN beats SYN; a plain ACK establishes a flow that has begun.
pub open spec fn advanced(state: u8, flags: u8) -> u8 {
    let fin = flags % 2 == 1;
    let syn = flags / 2 % 2 == 1;
    let rst = flags / 4 % 2 == 1;
    let ack = flags / 16 % 2 == 1;
    let begun = state == TCP_NEW_SYN || state == TCP_NEW_SYNACK || state == TCP_ESTABLISHED;
    if rst {
        TCP_RST_FIN
    } else if fin {
        TCP_FINWAIT
    } else if syn && ack {
        TCP_NEW_SYNACK
    } else if syn {
        TCP_NEW_SYN
    } else if ack && begun {
        TCP_ESTABLISHED
    } else {
        state
    }
}

/// Advance the TCP state of a flow given a segment's flags.
pub fn tcp_advance(state: u8, flags: u8) -> (r: u8)
    ensures
        r == advanced(state, flags),
{
    let ack: bool = flags / 16 % 2 == 1;
    if flags / 4 % 2 == 1 {
        return TCP_RST_FIN;
    }
    if flags % 2 == 1 {
        return TCP_FINWAIT;
    }
    if flags / 2 % 2 == 1 {
        if ack {
            return TCP_NEW_SYNACK;
        }
        return TCP_NEW_SYN;
    }
    if ack && (state == TCP_NEW_SYNACK || state == TCP_NEW_SYN || state == TCP_ESTABLISHED) {
        return TCP_ESTABLISHED;
    }
    state
}

/// The state after the packet at `ip`: a TCP segment advances it, any other packet keeps it.
pub open spec fn state_after(f: Seq<u8>, ip: int, state: u8) -> u8 {
    match parse::tcp_flags_of(f, ip) {
        Some(flags) => advanced(state, flags),
        None => state,
    }
}

/// An entry after a packet of its flow was seen at `now`.
pub open spec fn touched(f: Seq<u8>, ip: int, e: CtEntry, now: u64) -> CtEntry {
    CtEntry { last_seen: now, tcp_state: state_after(f, ip, e.tcp_state), ..e }
}

fn next_state(f: &Vec<u8>, ip_off: usize, state: u8) -> (r: u8)
    ensures
        r == state_after(f@, ip_off as int, state),
{
    match tcp_flags(f, ip_off) {
        Some(flags) => tcp_advance(state, flags),
        None => state,
    }
}

/// Refresh a matched entry's time and TCP state, and write it back.
pub fn ct_touch(
    f: &Vec<u8>,
    ip_off: usize,
    tables: &mut Tables,
    key: &CtKey,
    e: &mut CtEntry,
    now: u64,
)
    ensures
        *final(e) == touched(f@, ip_off as int, *old(e), now),
        final(tables)@ == (TablesView {
            conntrack: old(tables)@.conntrack.insert(*key, *final(e)),
            ..old(tables)@
        }),
{
    e.last_seen = now;
    e.tcp_state = next_state(f, ip_off, e.tcp_state);
    tables.conntrack.insert(*key, *e);
}

/// The key of the opposite direction.
pub open spec fn inverted(k: CtKey) -> CtKey {
    CtKey {
        vni: k.vni,
        src_ip: k.dst_ip,
        dst_ip: k.src_ip,
        src_port: k.dst_port,
        dst_port: k.src_port,
        proto: k.proto,
    }
}

/// Swap source and destination of a key.
pub fn invert_key(k: &CtKey) -> (r: CtKey)
    ensures
        r == inverted(*k),
{
    CtKey {
        vni: k.vni,
        src_ip: k.dst_ip,
        dst_ip: k.src_ip,
        src_port: k.dst_port,
        dst_port: k.src_port,
        proto: k.proto,
    }
}

/// The entry of a flow that starts with the packet at `ip`, without a translation.
pub open spec fn fresh_entry(f: Seq<u8>, ip: int, now: u64) -> CtEntry {
    CtEntry {
        last_seen: now,
        xlate_ip: [0u8, 0, 0, 0],
        xlate_port: 0,
        flags: CT_F_DEFAULT,
        tcp_state: state_after(f, ip, TCP_NONE),
        fwall_action: 0,
    }
}

/// The conntrack table after a flow that starts with the packet at `ip` was entered: in both
/// directions, except that an entry the opposite direction already has stays.
pub open spec fn with_flow(
    ct: Map<CtKey, CtEntry>,
    f: Seq<u8>,
    ip: int,
    key: CtKey,
    now: u64,
) -> Map<CtKey, CtEntry> {
    let e = fresh_entry(f, ip, now);
    let one = ct.insert(key, e);
    if one.contains_key(inverted(key)) {
        one
    } else {
        one.insert(inverted(key), e)
    }
}

/// Track a new flow, so that the firewall and aging see it, and its return traffic is recognised
/// at once.
pub fn ct_ensure_default(
    f: &Vec<u8>,
    ip_off: usize,
    tables: &mut Tables,
    key: &CtKey,
    now: u64,
)
    ensures
        final(tables)@ == (TablesView {
            conntrack: with_flow(old(tables)@.conntrack, f@, ip_off as int, *key, now),
            ..old(tables)@
        }),
{
    let e = CtEntry {
        last_seen: now,
        xlate_ip: [0u8, 0, 0, 0],
        xlate_port: 0,
        flags: CT_F_DEFAULT,
        tcp_state: next_state(f, ip_off, TCP_NONE),
        fwall_action: 0,
    };
    tables.conntrack.insert(*key, e);
    let rev = invert_key(key);
    if !tables.conntrack.contains(&rev) {
        tables.conntrack.insert(rev, e);
    }
}

/// Inverting a key twice gives the key.
pub proof fn law_invert_is_an_involution(k: CtKey)
    ensures
        inverted(inverted(k)) == k,
{
}

/// A tracked flow is known in both directions: after a flow was entered, the key of every packet
/// of it and of every reply to it has an entry; an entry that the reply direction had before, and
/// every entry of another flow, is what it was.
pub proof fn law_flow_is_known_both_ways(
    ct: Map<CtKey, CtEntry>,
    f: Seq<u8>,
    ip: int,
    key: CtKey,
    now: u64,
)
    ensures
        ({
            let after = with_flow(ct, f, ip, key, now);
            &&& after.contains_key(key)
            &&& after[key] == fresh_entry(f, ip, now)
            &&& after.contains_key(inverted(key))
            &&& key != inverted(key) && ct.contains_key(inverted(key)) ==> after[inverted(key)]
                == ct[inverted(key)]
            &&& forall|k: CtKey|
                k != key && k != inverted(key) ==> after.contains_key(k) == ct.contains_key(k)
                    && after[k] == ct[k]
        }),
{
}

/// An entry without a rewrite flag never changes a packet.
pub proof fn law_default_entries_never_rewrite(f: Seq<u8>, ip: int, e: CtEntry)
    requires
        e.flags == CT_F_DEFAULT,
    ensures
        applied(f, ip, e) == f,
{
}

/// A segment with the RST flag ends a flow from whatever state it was in, one with FIN (and no
/// RST) closes it, and no segment but these and those with SYN takes an established flow out of
/// its state.
pub proof fn law_established_until_closed(state: u8, flags: u8)
    ensures
        flags / 4 % 2 == 1 ==> advanced(state, flags) == TCP_RST_FIN,
        flags / 4 % 2 == 0 && flags % 2 == 1 ==> advanced(state, flags) == TCP_FINWAIT,
        flags % 2 == 0 && flags / 2 % 2 == 0 && flags / 4 % 2 == 0 ==> advanced(
            TCP_ESTABLISHED,
            flags,
        ) == TCP_ESTABLISHED,
{
}

/// The three-way handshake establishes a flow: SYN, then SYN with ACK, then ACK.
pub proof fn law_handshake_establishes(state: u8, syn: u8, synack: u8, ack: u8)
    requires
        syn % 2 == 0 && syn / 2 % 2 == 1 && syn / 4 % 2 == 0,
        synack % 2 == 0 && synack / 2 % 2 == 1 && synack / 4 % 2 == 0 && synack / 16 % 2 == 1,
        ack % 2 == 0 && ack / 2 % 2 == 0 && ack / 4 % 2 == 0 && ack / 16 % 2 == 1,
    ensures
        advanced(advanced(advanced(state, syn), synack), ack) == TCP_ESTABLISHED,
{
}

/// The key of a flow, by offset: of a TCP or UDP packet the addresses in bytes 12 to 15 and 16 to 19
/// of its header, the two words behind the header, and the protocol in byte 9; of an ICMP packet the
/// identifier, the third word, stands for both ports.
pub proof fn law_key_is_the_five_tuple(f: Seq<u8>, ip: int, vni: u32)
    requires
        0 <= ip,
        ip + 20 <= f.len(),
        f[ip] % 16 >= 5,
    ensures
        ({
            let l4 = ip + 4 * (f[ip] % 16);
            &&& (f[ip + 9] == 6 || f[ip + 9] == 17) && l4 + 4 <= f.len() ==> key_of(f, ip, vni)
                == Some(
                CtKey {
                    vni,
                    src_ip: [f[ip + 12], f[ip + 13], f[ip + 14], f[ip + 15]],
                    dst_ip: [f[ip + 16], f[ip + 17], f[ip + 18], f[ip + 19]],
                    src_port: (f[l4] * 256 + f[l4 + 1]) as u16,
                    dst_port: (f[l4 + 2] * 256 + f[l4 + 3]) as u16,
                    proto: f[ip + 9],
                },
            )
            &&& f[ip + 9] == 1 && l4 + 8 <= f.len() ==> key_of(f, ip, vni) == Some(
                CtKey {
                    vni,
                    src_ip: [f[ip + 12], f[ip + 13], f[ip + 14], f[ip + 15]],
                    dst_ip: [f[ip + 16], f[ip + 17], f[ip + 18], f[ip + 19]],
                    src_port: (f[l4 + 4] * 256 + f[l4 + 5]) as u16,
                    dst_port: (f[l4 + 4] * 256 + f[l4 + 5]) as u16,
                    proto: 1,
                },
            )
        }),
{
    parse::law_ports_are_the_first_words(f, ip);
}

/// The replies to a flow have the inverted key: a packet whose addresses and ports are another's,
/// source and destination swapped, of the same protocol and VNI.
pub proof fn law_inverted_key_is_the_replies(k: CtKey)
    ensures
        inverted(k).src_ip == k.dst_ip,
        inverted(k).dst_ip == k.src_ip,
        inverted(k).src_port == k.dst_port,
        inverted(k).dst_port == k.src_port,
        inverted(k).proto == k.proto,
        inverted(k).vni == k.vni,
{
}

/// How the flags of a segment (FIN 1, SYN 2, RST 4, ACK 16) move the state of its flow: RST resets
/// it, else FIN closes it, else SYN with ACK answers its opening, else SYN opens it; a mere ACK
/// establishes a flow that was opened, answered or established; nothing else moves it.
pub proof fn law_flags_move_the_state(state: u8, flags: u8)
    ensures
        ({
            let fin = flags % 2 == 1;
            let syn = flags / 2 % 2 == 1;
            let rst = flags / 4 % 2 == 1;
            let ack = flags / 16 % 2 == 1;
            let next = advanced(state, flags);
            &&& rst ==> next == TCP_RST_FIN
            &&& !rst && fin ==> next == TCP_FINWAIT
            &&& !rst && !fin && syn && ack ==> next == TCP_NEW_SYNACK
            &&& !rst && !fin && syn && !ack ==> next == TCP_NEW_SYN
            &&& !rst && !fin && !syn && ack && state == TCP_NEW_SYN ==> next == TCP_ESTABLISHED
            &&& !rst && !fin && !syn && ack && state == TCP_NEW_SYNACK ==> next == TCP_ESTABLISHED
            &&& !rst && !fin && !syn && ack && state == TCP_ESTABLISHED ==> next == TCP_ESTABLISHED
            &&& !rst && !fin && !syn && ack && (state == TCP_NONE || state == TCP_FINWAIT || state
                == TCP_RST_FIN) ==> next == state
            &&& !rst && !fin && !syn && !ack ==> next == state
        }),
{
}

/// A packet seen refreshes its entry and keeps what it translates: the time is now, a TCP segment
/// moves the state by the flags in the fourteenth byte behind its header, and no other packet does.
pub proof fn law_seen_packet_refreshes_its_entry(f: Seq<u8>, ip: int, e: CtEntry, now: u64)
    requires
        0 <= ip,
        ip + 20 <= f.len(),
        f[ip] % 16 >= 5,
    ensures
        ({
            let l4 = ip + 4 * (f[ip] % 16);
            let g = touched(f, ip, e, now);
            &&& g.last_seen == now
            &&& f[ip + 9] == 6 && l4 + 14 <= f.len() ==> g.tcp_state == advanced(
                e.tcp_state,
                f[l4 + 13],
            )
            &&& f[ip + 9] != 6 ==> g.tcp_state == e.tcp_state
            &&& g.flags == e.flags && g.xlate_ip == e.xlate_ip && g.xlate_port == e.xlate_port
            &&& g.fwall_action == e.fwall_action
        }),
{
}

/// A stored translation is what packets get: an entry with the source flag (1) gives the packet its
/// address for a source, one with the destination flag (2) and not the other its address for a
/// destination, and where the entry has a port, a whole TCP or UDP packet gets that too; the other
/// end stays.
pub proof fn law_stored_translation_is_applied(f: Seq<u8>, ip: int, e: CtEntry)
    requires
        0 <= ip,
        ip + 20 <= f.len(),
        f[ip] % 16 == 5,
    ensures
        ({
            let g = applied(f, ip, e);
            let whole = (f[ip + 9] == 6 && ip + 38 <= f.len()) || (f[ip + 9] == 17 && ip + 28
                <= f.len());
            &&& g.len() == f.len()
            &&& e.flags % 2 == 1 ==> bytes::at4(g, ip + 12) == e.xlate_ip && bytes::at4(g, ip + 16)
                == bytes::at4(f, ip + 16)
            &&& e.flags % 2 == 1 && whole && e.xlate_port != 0 ==> g[ip + 20] * 256 + g[ip + 21]
                == e.xlate_port && g[ip + 22] == f[ip + 22] && g[ip + 23] == f[ip + 23]
            &&& e.flags % 4 == 2 ==> bytes::at4(g, ip + 16) == e.xlate_ip && bytes::at4(g, ip + 12)
                == bytes::at4(f, ip + 12)
            &&& e.flags % 4 == 2 && whole && e.xlate_port != 0 ==> g[ip + 22] * 256 + g[ip + 23]
                == e.xlate_port && g[ip + 20] == f[ip + 20] && g[ip + 21] == f[ip + 21]
            &&& e.flags % 4 == 0 ==> g == f
            &&& e.flags % 4 != 0 && e.xlate_port == 0 ==> forall|i: int|
                ip + 20 <= i < ip + 24 && i < f.len() ==> #[trigger] g[i] == f[i] || (f[ip + 9]
                    != 6 && f[ip + 9] != 17)
        }),
{
    let g = applied(f, ip, e);
    if rewrites_src(e.flags) || rewrites_dst(e.flags) {
        translate::law_translated_bytes(f, ip, ip + 20, entry_end(e), e.xlate_ip, entry_port(e));
        if rewrites_src(e.flags) {
            assert(bytes::at4(g, ip + 16) =~= bytes::at4(f, ip + 16));
        } else {
            assert(bytes::at4(g, ip + 12) =~= bytes::at4(f, ip + 12));
        }
    }
}

/// A new flow starts untranslated: its entry has no rewrite flag and the time now; the state of a TCP
/// flow is what its first segment's flags make of none, and that of any other flow is none. Both
/// directions get the entry, where the opposite one has none of its own.
pub proof fn law_new_flow_starts_untranslated(
    ct: Map<CtKey, CtEntry>,
    f: Seq<u8>,
    ip: int,
    key: CtKey,
    now: u64,
)
    requires
        0 <= ip,
        ip + 20 <= f.len(),
        f[ip] % 16 >= 5,
        !ct.contains_key(key),
        !ct.contains_key(inverted(key)),
    ensures
        ({
            let l4 = ip + 4 * (f[ip] % 16);
            let u = with_flow(ct, f, ip, key, now);
            let e = u[key];
            &&& u.contains_key(key)
            &&& e.last_seen == now
            &&& e.flags == 0
            &&& f[ip + 9] == 6 && l4 + 14 <= f.len() ==> e.tcp_state == advanced(
                TCP_NONE,
                f[l4 + 13],
            )
            &&& f[ip + 9] != 6 ==> e.tcp_state == TCP_NONE
            &&& u.contains_pair(inverted(key), e)
        }),
{
}

/// What cannot be read changes nothing: a TCP segment that is cut off before its flags leaves the state of
/// its flow, and a packet with IPv4 options is never given a stored translation.
pub proof fn law_unreadable_packets_change_nothing(f: Seq<u8>, ip: int, e: CtEntry, now: u64)
    requires
        0 <= ip,
        ip + 20 <= f.len(),
    ensures
        ip + 4 * (f[ip] % 16) + 14 > f.len() ==> touched(f, ip, e, now).tcp_state == e.tcp_state,
        f[ip] % 16 != 5 ==> applied(f, ip, e) == f,
{
}

} // verus!
