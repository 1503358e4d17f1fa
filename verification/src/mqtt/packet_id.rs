//! Packet ids: each sender numbers its packets 1, 2, ..., 65535, 1, ...;
//! the number 0 is never used.

use vstd::prelude::*;

verus! {

/// How many different packet ids there are.
pub const PACKET_ID_COUNT: u32 = 65_535;

/// The id a sender uses after `last`. A sender that has sent nothing starts
/// with `last == 0`.
pub open spec fn next_packet_id(last: u16) -> u16 {
    if last == 65_535 {
        1
    } else {
        (last + 1) as u16
    }
}

/// The `n`-th id that a sender mints after `last`.
pub open spec fn nth_packet_id(last: u16, n: nat) -> u16
    decreases n,
{
    if n == 0 {
        last
    } else {
        next_packet_id(nth_packet_id(last, (n - 1) as nat))
    }
}

/// Mints the id that follows `last`.
pub fn mint_packet_id(last: u16) -> (id: u16)
    ensures
        id == next_packet_id(last),
        id != 0,
{
    if last == 65_535 {
        1
    } else {
        last + 1
    }
}

/// Where `last` stands in the cycle of ids, counted from the id 1; a sender
/// that has sent nothing stands just before it.
pub open spec fn cycle_position(last: u16) -> int {
    if last == 0 {
        PACKET_ID_COUNT as int - 1
    } else {
        last - 1
    }
}

/// The `n`-th minted id is `n` steps further along the cycle, and is never
/// 0.
pub proof fn lemma_nth_packet_id(last: u16, n: nat)
    requires
        n >= 1,
    ensures
        nth_packet_id(last, n) == (cycle_position(last) + n) % (PACKET_ID_COUNT as int) + 1,
        nth_packet_id(last, n) != 0,
    decreases n,
{
    if n == 1 {
        assert(nth_packet_id(last, 0) == last);
    } else {
        lemma_nth_packet_id(last, (n - 1) as nat);
        let p = (cycle_position(last) + n - 1) % 65_535;
        assert((cycle_position(last) + n) % 65_535 == (p + 1) % 65_535);
    }
}

/// Ids minted by one sender are unique within a window: two ids minted
/// fewer than 65535 mints apart are different. So an id cannot be minted
/// again while an earlier packet with it still awaits its acknowledgement,
/// unless 65535 packets were sent in between.
pub proof fn lemma_packet_ids_unique_in_window(last: u16, i: nat, j: nat)
    requires
        1 <= i < j,
        j - i < PACKET_ID_COUNT,
    ensures
        nth_packet_id(last, i) != nth_packet_id(last, j),
{
    lemma_nth_packet_id(last, i);
    lemma_nth_packet_id(last, j);
    let b = cycle_position(last);
    if (b + i) % 65_535 == (b + j) % 65_535 {
        let qi = (b + i) / 65_535;
        let qj = (b + j) / 65_535;
        assert(j - i == 65_535 * (qj - qi));
        assert(qj - qi >= 1 || qj - qi <= 0);
    }
}

} // verus!
