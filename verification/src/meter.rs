//! Rate metering: per-port token buckets, one for all traffic and one for traffic that leaves the
//! overlay.

use vstd::prelude::*;

use crate::tables::{Tables, TablesView};
use crate::types::MeterState;

verus! {

/// Nanoseconds per second.
pub const NS_PER_S: u64 = 1_000_000_000;

/// The tokens in a bucket at `now`: what was in it at `last` and what its rate (bytes per second)
/// added since, at most its burst.
pub open spec fn refilled(tokens: u64, burst: u64, rate: u64, last: u64, now: u64) -> u64 {
    let elapsed = if now > last {
        now - last
    } else {
        0
    };
    let n = tokens + elapsed * rate / (NS_PER_S as int);
    if n < burst {
        n as u64
    } else {
        burst
    }
}

/// Refill a bucket.
fn refill(tokens: u64, burst: u64, rate: u64, last: u64, now: u64) -> (r: u64)
    ensures
        r == refilled(tokens, burst, rate, last, now),
{
    let elapsed: u64 = if now > last {
        now - last
    } else {
        0
    };
    assert(elapsed * rate <= 0xffff_ffff_ffff_ffff * 0xffff_ffff_ffff_ffff) by (nonlinear_arith)
        requires
            elapsed <= 0xffff_ffff_ffff_ffff,
            rate <= 0xffff_ffff_ffff_ffff,
    ;
    assert(0 <= elapsed * rate) by (nonlinear_arith);
    let n: u128 = (tokens as u128) + (elapsed as u128) * (rate as u128) / 1_000_000_000;
    if n < (burst as u128) {
        n as u64
    } else {
        burst
    }
}

/// A bucket with a rate of zero does not limit anything.
pub open spec fn total_applies(m: MeterState) -> bool {
    m.total_bps != 0
}

/// The second bucket counts only traffic that leaves the overlay.
pub open spec fn public_applies(m: MeterState, external: bool) -> bool {
    external && m.public_bps != 0
}

pub open spec fn total_now(m: MeterState, now: u64) -> u64 {
    refilled(m.total_tokens, m.total_burst, m.total_bps, m.total_last_ns, now)
}

pub open spec fn public_now(m: MeterState, now: u64) -> u64 {
    refilled(m.public_tokens, m.public_burst, m.public_bps, m.public_last_ns, now)
}

/// Whether a frame of `len` bytes passes at `now`: each bucket that applies holds enough tokens.
pub open spec fn passes(m: MeterState, len: u64, external: bool, now: u64) -> bool {
    (total_applies(m) ==> len <= total_now(m, now)) && (public_applies(m, external) ==> len
        <= public_now(m, now))
}

/// The buckets after the frame: those that apply are refilled, and pay for a frame that passes.
pub open spec fn metered(m: MeterState, len: u64, external: bool, now: u64) -> MeterState {
    let cost = if passes(m, len, external, now) {
        len
    } else {
        0
    };
    MeterState {
        total_tokens: if total_applies(m) {
            (total_now(m, now) - cost) as u64
        } else {
            m.total_tokens
        },
        total_last_ns: if total_applies(m) {
            now
        } else {
            m.total_last_ns
        },
        public_tokens: if public_applies(m, external) {
            (public_now(m, now) - cost) as u64
        } else {
            m.public_tokens
        },
        public_last_ns: if public_applies(m, external) {
            now
        } else {
            m.public_last_ns
        },
        ..m
    }
}

/// Meter one frame.
fn meter_frame(m: &MeterState, len: u64, external: bool, now: u64) -> (r: (bool, MeterState))
    ensures
        r.0 == passes(*m, len, external, now),
        r.1 == metered(*m, len, external, now),
{
    let mut next: MeterState = *m;
    let total: bool = m.total_bps != 0;
    let public: bool = external && m.public_bps != 0;
    if total {
        next.total_tokens =
        refill(m.total_tokens, m.total_burst, m.total_bps, m.total_last_ns, now);
        next.total_last_ns = now;
    }
    if public {
        next.public_tokens =
        refill(m.public_tokens, m.public_burst, m.public_bps, m.public_last_ns, now);
        next.public_last_ns = now;
    }
    let pass: bool = (!total || len <= next.total_tokens) && (!public || len
        <= next.public_tokens);
    if pass {
        if total {
            next.total_tokens = next.total_tokens - len;
        }
        if public {
            next.public_tokens = next.public_tokens - len;
        }
    }
    (pass, next)
}

/// Whether the port's meter lets a frame pass. A port without a meter lets every frame pass.
pub open spec fn allowed(t: TablesView, ifindex: u32, len: u64, external: bool, now: u64) -> bool {
    t.meter.contains_key(ifindex) ==> passes(t.meter[ifindex], len, external, now)
}

/// The tables after the port's meter saw a frame.
pub open spec fn tables_metered(
    t: TablesView,
    ifindex: u32,
    len: u64,
    external: bool,
    now: u64,
) -> TablesView {
    if t.meter.contains_key(ifindex) {
        TablesView {
            meter: t.meter.insert(ifindex, metered(t.meter[ifindex], len, external, now)),
            ..t
        }
    } else {
        t
    }
}

/// Whether a frame of `len` bytes may pass the port's meter; takes the tokens if so.
pub fn meter_pass(tables: &mut Tables, ifindex: u32, len: u64, external: bool, now: u64) -> (r:
    bool)
    ensures
        r == allowed(old(tables)@, ifindex, len, external, now),
        final(tables)@ == tables_metered(old(tables)@, ifindex, len, external, now),
{
    match tables.meter.get(&ifindex) {
        Some(m) => {
            let (pass, next) = meter_frame(&m, len, external, now);
            tables.meter.insert(ifindex, next);
            pass
        },
        None => true,
    }
}

/// One frame that a meter sees.
pub struct Offered {
    pub len: u64,
    pub external: bool,
    pub now: u64,
}

/// The buckets after a series of frames.
pub open spec fn run(m: MeterState, s: Seq<Offered>) -> MeterState
    decreases s.len(),
{
    if s.len() == 0 {
        m
    } else {
        let b = run(m, s.drop_last());
        metered(b, s.last().len, s.last().external, s.last().now)
    }
}

/// How many bytes of a series of frames pass.
pub open spec fn passed(m: MeterState, s: Seq<Offered>) -> int
    decreases s.len(),
{
    if s.len() == 0 {
        0
    } else {
        let b = run(m, s.drop_last());
        let o = s.last();
        passed(m, s.drop_last()) + if passes(b, o.len, o.external, o.now) {
            o.len as int
        } else {
            0
        }
    }
}

/// The times of a series of frames do not run backwards, and start no earlier than `start`.
pub open spec fn in_order(s: Seq<Offered>, start: u64) -> bool {
    &&& forall|i: int, j: int|
        0 <= i <= j < s.len() ==> (#[trigger] s[i]).now <= (#[trigger] s[j]).now
    &&& s.len() > 0 ==> start <= s[0].now
}

/// The rate is capped: whatever frames a metered port offers, what passes in a period is at most
/// the bucket's tokens at its start and what the rate yields in the period.
pub proof fn law_rate_is_capped(m: MeterState, s: Seq<Offered>)
    requires
        m.total_bps != 0,
        in_order(s, m.total_last_ns),
        s.len() > 0,
    ensures
        NS_PER_S * passed(m, s) <= NS_PER_S * m.total_tokens + (s.last().now - m.total_last_ns)
            * m.total_bps,
{
    lemma_conservation(m, s);
}

/// What passed and what is left never exceed what was there and what the rate yielded.
proof fn lemma_conservation(m: MeterState, s: Seq<Offered>)
    requires
        m.total_bps != 0,
        in_order(s, m.total_last_ns),
    ensures
        run(m, s).total_bps == m.total_bps,
        run(m, s).total_last_ns == (if s.len() == 0 {
            m.total_last_ns
        } else {
            s.last().now
        }),
        NS_PER_S * (passed(m, s) + run(m, s).total_tokens) <= NS_PER_S * m.total_tokens + (run(
            m,
            s,
        ).total_last_ns - m.total_last_ns) * m.total_bps,
    decreases s.len(),
{
    if s.len() == 0 {
        assert((m.total_last_ns - m.total_last_ns) * m.total_bps == 0) by (nonlinear_arith);
    } else {
        let p = s.drop_last();
        assert(in_order(p, m.total_last_ns)) by {
            assert forall|i: int, j: int| 0 <= i <= j < p.len() implies (#[trigger] p[i]).now <= (
            #[trigger] p[j]).now by {
                assert(s[i].now <= s[j].now);
            }
        }
        lemma_conservation(m, p);
        let b = run(m, p);
        let o = s.last();
        let rate = m.total_bps as int;
        let e = o.now - b.total_last_ns;
        if p.len() > 0 {
            assert(s[p.len() - 1].now <= s[p.len() as int].now);
        }
        assert(e >= 0);
        let added = e * rate / (NS_PER_S as int);
        assert(e * rate >= 0) by (nonlinear_arith)
            requires
                e >= 0,
                rate >= 0,
        ;
        assert(NS_PER_S * added <= e * rate);
        assert(total_now(b, o.now) <= b.total_tokens + added) by {
            if e == 0 {
                assert(0 * rate == 0);
                assert(added == 0);
            }
        }
        assert((b.total_last_ns - m.total_last_ns) * rate + e * rate == (o.now - m.total_last_ns)
            * rate) by (nonlinear_arith)
            requires
                e == o.now - b.total_last_ns,
        ;
    }
}

/// A bucket never holds more than its burst once it was used.
pub proof fn law_tokens_stay_within_burst(m: MeterState, len: u64, external: bool, now: u64)
    ensures
        total_applies(m) ==> metered(m, len, external, now).total_tokens <= m.total_burst,
        public_applies(m, external) ==> metered(m, len, external, now).public_tokens
            <= m.public_burst,
{
}

/// A bucket fills at its rate and holds its burst: after `seconds` idle seconds it has its tokens and
/// `seconds` times its rate, or its burst where that is less.
pub proof fn law_bucket_fills_at_its_rate(
    tokens: u64,
    burst: u64,
    rate: u64,
    last: u64,
    now: u64,
    seconds: u64,
)
    requires
        last + seconds * 1_000_000_000 == now,
    ensures
        tokens + seconds * rate < burst ==> refilled(tokens, burst, rate, last, now) == tokens
            + seconds * rate,
        tokens + seconds * rate >= burst ==> refilled(tokens, burst, rate, last, now) == burst,
{
    let e = now - last;
    assert(e * rate == (seconds * rate) * 1_000_000_000) by (nonlinear_arith)
        requires
            e == seconds * 1_000_000_000,
    ;
    assert(((seconds * rate) * 1_000_000_000) / 1_000_000_000 == seconds * rate);
    if now <= last {
        assert(seconds == 0);
        assert(0 * rate == 0);
    }
}

/// A clock that does not move on adds nothing, and more time never means fewer tokens.
pub proof fn law_time_only_adds(
    tokens: u64,
    burst: u64,
    rate: u64,
    last: u64,
    now: u64,
    later: u64,
)
    requires
        now <= later,
    ensures
        now <= last && tokens <= burst ==> refilled(tokens, burst, rate, last, now) == tokens,
        refilled(tokens, burst, rate, last, now) <= refilled(tokens, burst, rate, last, later),
        refilled(tokens, burst, rate, last, now) <= burst,
{
    let a = if now > last {
        now - last
    } else {
        0
    };
    let b = if later > last {
        later - last
    } else {
        0
    };
    assert(a * rate <= b * rate) by (nonlinear_arith)
        requires
            a <= b,
            rate >= 0,
    ;
    assert(a * rate / 1_000_000_000 <= b * rate / 1_000_000_000);
    assert(0 <= a * rate) by (nonlinear_arith)
        requires
            a >= 0,
            rate >= 0,
    ;
    if now <= last {
        assert(0 * rate == 0);
    }
}

/// A frame that passes is paid for by every bucket that counts it, in full; one that does not pass is
/// paid for by none. The first bucket counts every frame where it has a rate, the second only frames
/// that leave the overlay, where it has one; a bucket that does not count a frame is not touched. A
/// frame passes exactly where every bucket that counts it can pay.
pub proof fn law_frames_are_paid_for(m: MeterState, len: u64, external: bool, now: u64)
    ensures
        ({
            let total = refilled(
                m.total_tokens,
                m.total_burst,
                m.total_bps,
                m.total_last_ns,
                now,
            );
            let public = refilled(
                m.public_tokens,
                m.public_burst,
                m.public_bps,
                m.public_last_ns,
                now,
            );
            let counted = m.total_bps != 0;
            let counted_public = external && m.public_bps != 0;
            let pass = passes(m, len, external, now);
            let n = metered(m, len, external, now);
            &&& pass == ((!counted || len <= total) && (!counted_public || len <= public))
            &&& counted && pass ==> n.total_tokens == total - len && n.total_last_ns == now
            &&& counted && !pass ==> n.total_tokens == total && n.total_last_ns == now
            &&& !counted ==> n.total_tokens == m.total_tokens && n.total_last_ns == m.total_last_ns
            &&& counted_public && pass ==> n.public_tokens == public - len && n.public_last_ns
                == now
            &&& counted_public && !pass ==> n.public_tokens == public && n.public_last_ns == now
            &&& !counted_public ==> n.public_tokens == m.public_tokens && n.public_last_ns
                == m.public_last_ns
            &&& n.total_bps == m.total_bps && n.total_burst == m.total_burst
            &&& n.public_bps == m.public_bps && n.public_burst == m.public_burst
        }),
{
}

/// A port without a meter lets every frame pass, and a meter without rates does too.
pub proof fn law_unmetered_ports_pass_everything(
    t: TablesView,
    ifindex: u32,
    len: u64,
    external: bool,
    now: u64,
)
    ensures
        !t.meter.contains_key(ifindex) ==> allowed(t, ifindex, len, external, now)
            && tables_metered(t, ifindex, len, external, now) == t,
        t.meter.contains_key(ifindex) && t.meter[ifindex].total_bps == 0 && (!external
            || t.meter[ifindex].public_bps == 0) ==> allowed(t, ifindex, len, external, now),
        t.meter.contains_key(ifindex) ==> allowed(t, ifindex, len, external, now) == passes(
            t.meter[ifindex],
            len,
            external,
            now,
        ) && tables_metered(t, ifindex, len, external, now).meter.get(ifindex) == Some(
            metered(t.meter[ifindex], len, external, now),
        ),
{
}

/// A bucket is filled to the byte: below its burst, what was added since it was last used is the rate times
/// the elapsed time, a fraction of a byte at most left out.
pub proof fn law_bucket_is_filled_to_the_byte(
    tokens: u64,
    burst: u64,
    rate: u64,
    last: u64,
    now: u64,
)
    requires
        last <= now,
        refilled(tokens, burst, rate, last, now) < burst,
    ensures
        ({
            let added = refilled(tokens, burst, rate, last, now) - tokens;
            1_000_000_000 * added <= (now - last) * rate < 1_000_000_000 * (added + 1)
        }),
{
    let e = now - last;
    if now == last {
        assert(0 * rate == 0);
        assert(e * rate == 0);
    }
    assert(0 <= e * rate) by (nonlinear_arith)
        requires
            e >= 0,
            rate >= 0,
    ;
}

} // verus!
