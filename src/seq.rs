//! Arithmetic on 32-bit cyclic sequence numbers.
use vstd::prelude::*;

verus! {

/// The size of the sequence-number space.
pub open spec fn modulus() -> int {
    0x1_0000_0000
}

/// Distance from `a` forward to `b` around the sequence circle, in `[0, 2^32)`.
pub open spec fn dist(a: u32, b: u32) -> int {
    (b as int - a as int) % modulus()
}

/// `a + n`, wrapped around the sequence circle.
pub open spec fn seq_add(a: u32, n: int) -> u32 {
    ((a as int + n) % modulus()) as u32
}

/// `a` precedes `b`: the signed difference `a - b`, taken mod 2^32, is negative.
pub open spec fn spec_seq_lt(a: u32, b: u32) -> bool {
    (a as int - b as int) % modulus() >= 0x8000_0000
}

/// `a` precedes or equals `b`.
pub open spec fn spec_seq_le(a: u32, b: u32) -> bool {
    a == b || spec_seq_lt(a, b)
}

/// `s` lies in the window of `wnd` numbers that starts at `nxt`.
pub open spec fn spec_in_window(s: u32, nxt: u32, wnd: u16) -> bool {
    dist(nxt, s) < wnd as int
}

/// A segment starting at `s` with `len` octets is acceptable against the receive
/// window `[nxt, nxt + wnd)`: its start lies in the window, or it is empty and
/// starts exactly at `nxt`.
pub open spec fn spec_acceptable(s: u32, len: nat, nxt: u32, wnd: u16) -> bool {
    spec_in_window(s, nxt, wnd) || (len == 0 && s == nxt)
}

/// Wrap-aware "less than" on sequence numbers.
pub fn seq_lt(a: u32, b: u32) -> (r: bool)
    ensures
        r == spec_seq_lt(a, b),
{
    a.wrapping_sub(b) >= 0x8000_0000
}

/// Wrap-aware "less than or equal" on sequence numbers.
pub fn seq_le(a: u32, b: u32) -> (r: bool)
    ensures
        r == spec_seq_le(a, b),
{
    a == b || seq_lt(a, b)
}

/// Forward distance from `a` to `b`.
pub fn seq_dist(a: u32, b: u32) -> (r: u32)
    ensures
        r as int == dist(a, b),
{
    b.wrapping_sub(a)
}

/// `a + n` on the sequence circle.
pub fn seq_advance(a: u32, n: u32) -> (r: u32)
    ensures
        r == seq_add(a, n as int),
{
    a.wrapping_add(n)
}

/// The windowed acceptability test for a segment of `len` octets starting at `s`.
pub fn is_acceptable(s: u32, len: usize, nxt: u32, wnd: u16) -> (r: bool)
    ensures
        r == spec_acceptable(s, len as nat, nxt, wnd),
{
    seq_dist(nxt, s) < wnd as u32 || (len == 0 && s == nxt)
}

/// No sequence number precedes itself.
pub proof fn lemma_seq_lt_irreflexive(x: u32)
    ensures
        !spec_seq_lt(x, x),
{
}

/// Moving forward by less than half the circle never goes backwards.
pub proof fn lemma_advance_not_before(a: u32, n: int)
    requires
        0 <= n < 0x8000_0000,
    ensures
        spec_seq_le(a, seq_add(a, n)),
{
}

} // verus!
