//! The debug packet inspector: keeps the head of the last frame seen.

use vstd::prelude::*;

use crate::tables::{Tables, TablesView};
use crate::types::InspectEntry;
use crate::verdict::Verdict;

verus! {

/// Bytes of a frame that are kept.
pub const INSPECT_BYTES: usize = 32;

/// The first bytes of a frame, filled up with zeros.
pub open spec fn head(f: Seq<u8>) -> Seq<u8> {
    Seq::new(
        INSPECT_BYTES as nat,
        |i: int|
            if i < f.len() {
                f[i]
            } else {
                0
            },
    )
}

/// Record a frame: its length, its head, and one more frame seen (the counter wraps around).
pub fn try_inspect(f: &Vec<u8>, tables: &mut Tables) -> (r: Verdict)
    requires
        f.len() <= u32::MAX,
    ensures
        r == Verdict::Pass,
        final(tables)@ == (TablesView { inspect: final(tables)@.inspect, ..old(tables)@ }),
        final(tables)@.inspect.len == f.len(),
        final(tables)@.inspect.seen == old(tables)@.inspect.seen.wrapping_add(1),
        final(tables)@.inspect.bytes@ == head(f@),
{
    let mut bytes: [u8; 32] = [0u8;32];
    let mut i: usize = 0;
    while i < INSPECT_BYTES
        invariant
            i <= INSPECT_BYTES,
            bytes@.len() == INSPECT_BYTES,
            forall|j: int| 0 <= j < i ==> bytes@[j] == head(f@)[j],
            forall|j: int| i <= j < INSPECT_BYTES ==> bytes@[j] == 0,
        decreases INSPECT_BYTES - i,
    {
        if i < f.len() {
            bytes[i] = f[i];
        }
        i = i + 1;
    }
    tables.inspect =
    InspectEntry { len: f.len() as u32, seen: tables.inspect.seen.wrapping_add(1), bytes };
    assert(tables.inspect.bytes@ =~= head(f@));
    Verdict::Pass
}

/// What is kept of a frame are its first 32 bytes, in order, and zeros where it has fewer.
pub proof fn law_head_is_the_first_bytes(f: Seq<u8>, i: int)
    requires
        0 <= i < 32,
    ensures
        head(f).len() == 32,
        i < f.len() ==> head(f)[i] == f[i],
        i >= f.len() ==> head(f)[i] == 0,
{
}

} // verus!
