//! The programs that are attached to interfaces, one per kind of interface.

use vstd::prelude::*;

use crate::bytes;
use crate::bytes::read2;
use crate::egress;
use crate::egress::try_guest_tx;
use crate::frame::{Frame, FrameView};
use crate::ingress;
use crate::ingress::try_uplink_rx;
use crate::inspect;
use crate::inspect::try_inspect;
use crate::parse;
use crate::parse::{ETH_LEN, ETH_P_IPV6, IPPROTO_IPV6, IPV6_LEN};
use crate::tables::{Tables, TablesView};
use crate::v6;
use crate::v6::v6_uplink_rx;
use crate::verdict::{Outcome, Verdict};

verus! {

/// The verdict of a program: a frame that it has no data for is passed on.
pub open spec fn settled(r: Result<Verdict, ()>) -> Verdict {
    match r {
        Ok(v) => v,
        Err(_) => Verdict::Pass,
    }
}

fn settle(r: Result<Verdict, ()>) -> (v: Verdict)
    ensures
        v == settled(r),
{
    match r {
        Ok(v) => v,
        Err(()) => Verdict::Pass,
    }
}

/// The trivial program of a redirect's receiving end: redirecting into a virtual device only works
/// where its peer has a program attached.
pub fn xdp_pass(_frame: &Frame) -> (r: Verdict)
    ensures
        r == Verdict::Pass,
{
    Verdict::Pass
}

/// The program of a guest's tap.
pub fn guest_tx(frame: &mut Frame, tables: &mut Tables, ifindex: u32, now: u64) -> (r: Verdict)
    requires
        old(frame)@.fits(),
    ensures
        final(frame)@.fits(),
        ({
            let o = egress::tap_rx(old(frame)@, old(tables)@, ifindex, now);
            r == settled(o.verdict) && final(frame)@ == o.frame && final(tables)@ == o.tables
        }),
{
    settle(try_guest_tx(frame, tables, ifindex, now))
}

/// Whether a frame is IPv6 in IPv6.
pub open spec fn is_overlay6(f: Seq<u8>) -> bool {
    &&& f.len() >= ETH_LEN + IPV6_LEN
    &&& parse::ethertype(f) == ETH_P_IPV6
    &&& f[ETH_LEN + 6] == IPPROTO_IPV6
}

/// What becomes of a frame from the uplink: the outer next header tells the inner protocol.
pub open spec fn uplink_in(f: FrameView, t: TablesView, now: u64) -> Outcome {
    if is_overlay6(f.bytes) {
        let (verdict, frame) = v6::uplink_rx6(f, t);
        Outcome { verdict, frame, tables: t }
    } else {
        ingress::uplink_rx4(f, t, now)
    }
}

/// The program of the uplink.
pub fn uplink_rx(frame: &mut Frame, tables: &mut Tables, now: u64) -> (r: Verdict)
    requires
        old(frame)@.fits(),
    ensures
        final(frame)@.fits(),
        ({
            let o = uplink_in(old(frame)@, old(tables)@, now);
            r == settled(o.verdict) && final(frame)@ == o.frame && final(tables)@ == o.tables
        }),
{
    if frame.bytes.len() >= ETH_LEN + IPV6_LEN && read2(&frame.bytes, 12) == ETH_P_IPV6
        && frame.bytes[ETH_LEN + 6] == IPPROTO_IPV6 {
        return settle(v6_uplink_rx(frame, tables));
    }
    settle(try_uplink_rx(frame, tables, now))
}

/// The program of an inspected interface.
pub fn xdp_inspect(frame: &Frame, tables: &mut Tables) -> (r: Verdict)
    requires
        frame.bytes.len() <= u32::MAX,
    ensures
        r == Verdict::Pass,
        final(tables)@ == (TablesView { inspect: final(tables)@.inspect, ..old(tables)@ }),
        final(tables)@.inspect.len == frame.bytes.len(),
        final(tables)@.inspect.seen == old(tables)@.inspect.seen.wrapping_add(1),
        final(tables)@.inspect.bytes@ == inspect::head(frame.bytes@),
{
    try_inspect(&frame.bytes, tables)
}

/// The outer next header tells what a frame from the uplink holds: 41 an IPv6 packet, which goes to the
/// owner of the outer destination and changes no table; 4 an IPv4 packet; a frame with anything else, or
/// that is no IPv6, is passed on as it is.
pub proof fn law_next_header_tells_the_inner_protocol(f: FrameView, t: TablesView, now: u64)
    requires
        f.bytes.len() >= 54,
    ensures
        ({
            let b = f.bytes;
            let o = uplink_in(f, t, now);
            let outer6 = b[12] == 0x86 && b[13] == 0xdd;
            &&& outer6 && b[20] == 41 ==> (o.verdict, o.frame) == v6::uplink_rx6(f, t) && o.tables
                == t
            &&& outer6 && b[20] == 4 ==> o == ingress::uplink_rx4(f, t, now)
            &&& !outer6 || (b[20] != 4 && b[20] != 41) ==> o == (Outcome {
                verdict: Ok(Verdict::Pass),
                frame: f,
                tables: t,
            })
        }),
{
    assert(bytes::be16(f.bytes, 12) == f.bytes[12] * 256 + f.bytes[13]);
}

/// What a program has no data for is passed on; every other verdict stands.
pub proof fn law_missing_data_passes(r: Result<Verdict, ()>)
    ensures
        r is Err ==> settled(r) == Verdict::Pass,
        r is Ok ==> settled(r) == r->Ok_0,
{
}

} // verus!
