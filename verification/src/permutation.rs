//! The Keccak-f[1600] permutation: 24 rounds of the five step mappings
//! (theta, rho, pi, chi, iota) over a state of 25 unsigned 64-bit lanes.
//!
//! A lane at coordinates (x, y), with x, y in 0..5, sits at index x + 5 * y.
//! The spec functions below define each step mapping over a `Seq<u64>` of
//! length 25; the executable functions compute the same expressions lane by
//! lane and are proved equal to the spec.

use vstd::prelude::*;

verus! {

/// Left rotation of a 64-bit lane by `n` bits, 0 <= n < 64.
pub open spec fn spec_rotl(x: u64, n: u64) -> u64
    recommends
        n < 64,
{
    if n == 0 {
        x
    } else {
        (x << n) | (x >> ((64 - n) as u64))
    }
}

/// The rotation offset (the rho step) of the lane at index `l`.
pub open spec fn rho_offset(l: int) -> u64 {
    if l == 0 { 0 }
    else if l == 1 { 1 }
    else if l == 2 { 62 }
    else if l == 3 { 28 }
    else if l == 4 { 27 }
    else if l == 5 { 36 }
    else if l == 6 { 44 }
    else if l == 7 { 6 }
    else if l == 8 { 55 }
    else if l == 9 { 20 }
    else if l == 10 { 3 }
    else if l == 11 { 10 }
    else if l == 12 { 43 }
    else if l == 13 { 25 }
    else if l == 14 { 39 }
    else if l == 15 { 41 }
    else if l == 16 { 45 }
    else if l == 17 { 15 }
    else if l == 18 { 21 }
    else if l == 19 { 8 }
    else if l == 20 { 18 }
    else if l == 21 { 2 }
    else if l == 22 { 61 }
    else if l == 23 { 56 }
    else { 14 }
}

/// The round constant XORed into lane (0, 0) by the iota step of round `r`.
pub open spec fn round_constant(r: int) -> u64 {
    if r == 0 { 0x0000000000000001 }
    else if r == 1 { 0x0000000000008082 }
    else if r == 2 { 0x800000000000808a }
    else if r == 3 { 0x8000000080008000 }
    else if r == 4 { 0x000000000000808b }
    else if r == 5 { 0x0000000080000001 }
    else if r == 6 { 0x8000000080008081 }
    else if r == 7 { 0x8000000000008009 }
    else if r == 8 { 0x000000000000008a }
    else if r == 9 { 0x0000000000000088 }
    else if r == 10 { 0x0000000080008009 }
    else if r == 11 { 0x000000008000000a }
    else if r == 12 { 0x000000008000808b }
    else if r == 13 { 0x800000000000008b }
    else if r == 14 { 0x8000000000008089 }
    else if r == 15 { 0x8000000000008003 }
    else if r == 16 { 0x8000000000008002 }
    else if r == 17 { 0x8000000000000080 }
    else if r == 18 { 0x000000000000800a }
    else if r == 19 { 0x800000008000000a }
    else if r == 20 { 0x8000000080008081 }
    else if r == 21 { 0x8000000000008080 }
    else if r == 22 { 0x0000000080000001 }
    else { 0x8000000080008008 }
}

/// XOR of the five lanes of column `x` (the theta step's column parity).
pub open spec fn column_parity(s: Seq<u64>, x: int) -> u64
    recommends
        s.len() == 25,
        0 <= x < 5,
{
    s[x] ^ s[x + 5] ^ s[x + 10] ^ s[x + 15] ^ s[x + 20]
}

/// The value XORed into every lane of column `x` by the theta step.
pub open spec fn theta_d(s: Seq<u64>, x: int) -> u64
    recommends
        s.len() == 25,
        0 <= x < 5,
{
    column_parity(s, (x + 4) % 5) ^ spec_rotl(column_parity(s, (x + 1) % 5), 1)
}

/// Theta: XOR each lane with a parity value of its two neighbouring columns.
pub open spec fn spec_theta(s: Seq<u64>) -> Seq<u64>
    recommends
        s.len() == 25,
{
    Seq::new(25, |l: int| s[l] ^ theta_d(s, l % 5))
}

/// The lane index that the combined rho-and-pi step moves to index `l`:
/// pi sends the lane at (x, y) to (y, (2x + 3y) mod 5), so the lane arriving
/// at (x', y') comes from ((x' + 3y') mod 5, x').
pub open spec fn pi_source(l: int) -> int
    recommends
        0 <= l < 25,
{
    (l % 5 + 3 * (l / 5)) % 5 + 5 * (l % 5)
}

/// Rho then pi: each lane is rotated by its fixed offset and moved to its
/// new position.
pub open spec fn spec_rho_pi(s: Seq<u64>) -> Seq<u64>
    recommends
        s.len() == 25,
{
    Seq::new(25, |l: int| spec_rotl(s[pi_source(l)], rho_offset(pi_source(l))))
}

/// Chi: the only nonlinear step; combines each lane with the two lanes to
/// its right within the same row.
pub open spec fn spec_chi(s: Seq<u64>) -> Seq<u64>
    recommends
        s.len() == 25,
{
    Seq::new(
        25,
        |l: int| s[l] ^ (!s[5 * (l / 5) + (l % 5 + 1) % 5] & s[5 * (l / 5) + (l % 5 + 2) % 5]),
    )
}

/// Iota: XOR the round constant of round `r` into lane (0, 0).
pub open spec fn spec_iota(s: Seq<u64>, r: int) -> Seq<u64>
    recommends
        s.len() == 25,
        0 <= r < 24,
{
    s.update(0, s[0] ^ round_constant(r))
}

/// One full round: theta, rho, pi, chi, iota, in that order.
pub open spec fn spec_round(s: Seq<u64>, r: int) -> Seq<u64>
    recommends
        s.len() == 25,
        0 <= r < 24,
{
    spec_iota(spec_chi(spec_rho_pi(spec_theta(s))), r)
}

/// The state after the first `n` rounds, starting from `s`.
pub open spec fn spec_rounds(s: Seq<u64>, n: nat) -> Seq<u64>
    recommends
        s.len() == 25,
        n <= 24,
    decreases n,
{
    if n == 0 {
        s
    } else {
        spec_round(spec_rounds(s, (n - 1) as nat), n - 1)
    }
}

/// Keccak-f[1600]: all 24 rounds.
pub open spec fn keccak_f(s: Seq<u64>) -> Seq<u64>
    recommends
        s.len() == 25,
{
    spec_rounds(s, 24)
}

/// Left rotation of a 64-bit lane by `n` bits.
fn rotl(x: u64, n: u64) -> (r: u64)
    requires
        n < 64,
    ensures
        r == spec_rotl(x, n),
{
    if n == 0 {
        x
    } else {
        (x << n) | (x >> (64 - n))
    }
}

/// The rho rotation offset of lane `l`, as executable code.
fn rho_offset_of(l: usize) -> (r: u64)
    requires
        l < 25,
    ensures
        r == rho_offset(l as int),
        r < 64,
{
    match l {
        0 => 0,
        1 => 1,
        2 => 62,
        3 => 28,
        4 => 27,
        5 => 36,
        6 => 44,
        7 => 6,
        8 => 55,
        9 => 20,
        10 => 3,
        11 => 10,
        12 => 43,
        13 => 25,
        14 => 39,
        15 => 41,
        16 => 45,
        17 => 15,
        18 => 21,
        19 => 8,
        20 => 18,
        21 => 2,
        22 => 61,
        23 => 56,
        _ => 14,
    }
}

/// The round constant of round `r`, as executable code.
fn round_constant_of(r: usize) -> (c: u64)
    requires
        r < 24,
    ensures
        c == round_constant(r as int),
{
    match r {
        0 => 0x0000000000000001,
        1 => 0x0000000000008082,
        2 => 0x800000000000808a,
        3 => 0x8000000080008000,
        4 => 0x000000000000808b,
        5 => 0x0000000080000001,
        6 => 0x8000000080008081,
        7 => 0x8000000000008009,
        8 => 0x000000000000008a,
        9 => 0x0000000000000088,
        10 => 0x0000000080008009,
        11 => 0x000000008000000a,
        12 => 0x000000008000808b,
        13 => 0x800000000000008b,
        14 => 0x8000000000008089,
        15 => 0x8000000000008003,
        16 => 0x8000000000008002,
        17 => 0x8000000000000080,
        18 => 0x000000000000800a,
        19 => 0x800000008000000a,
        20 => 0x8000000080008081,
        21 => 0x8000000000008080,
        22 => 0x0000000080000001,
        _ => 0x8000000080008008,
    }
}

/// Theta step over the whole state.
fn theta(s: &Vec<u64>) -> (out: Vec<u64>)
    requires
        s@.len() == 25,
    ensures
        out@ == spec_theta(s@),
{
    let mut c: Vec<u64> = Vec::new();
    let mut x: usize = 0;
    while x < 5
        invariant
            x <= 5,
            s@.len() == 25,
            c@.len() == x,
            forall|k: int| 0 <= k < x ==> c@[k] == column_parity(s@, k),
        decreases 5 - x,
    {
        let p = s[x] ^ s[x + 5] ^ s[x + 10] ^ s[x + 15] ^ s[x + 20];
        c.push(p);
        x += 1;
    }
    let mut out: Vec<u64> = Vec::new();
    let mut l: usize = 0;
    while l < 25
        invariant
            l <= 25,
            s@.len() == 25,
            c@.len() == 5,
            forall|k: int| 0 <= k < 5 ==> c@[k] == column_parity(s@, k),
            out@.len() == l,
            forall|k: int| 0 <= k < l ==> out@[k] == spec_theta(s@)[k],
        decreases 25 - l,
    {
        let x = l % 5;
        let d = c[(x + 4) % 5] ^ rotl(c[(x + 1) % 5], 1);
        assert(d == theta_d(s@, l as int % 5));
        out.push(s[l] ^ d);
        l += 1;
    }
    assert(out@ =~= spec_theta(s@));
    out
}

/// Rho and pi steps over the whole state.
fn rho_pi(s: &Vec<u64>) -> (out: Vec<u64>)
    requires
        s@.len() == 25,
    ensures
        out@ == spec_rho_pi(s@),
{
    let mut out: Vec<u64> = Vec::new();
    let mut l: usize = 0;
    while l < 25
        invariant
            l <= 25,
            s@.len() == 25,
            out@.len() == l,
            forall|k: int| 0 <= k < l ==> out@[k] == spec_rho_pi(s@)[k],
        decreases 25 - l,
    {
        let src = (l % 5 + 3 * (l / 5)) % 5 + 5 * (l % 5);
        assert(src == pi_source(l as int));
        out.push(rotl(s[src], rho_offset_of(src)));
        l += 1;
    }
    assert(out@ =~= spec_rho_pi(s@));
    out
}

/// Chi step over the whole state.
fn chi(s: &Vec<u64>) -> (out: Vec<u64>)
    requires
        s@.len() == 25,
    ensures
        out@ == spec_chi(s@),
{
    let mut out: Vec<u64> = Vec::new();
    let mut l: usize = 0;
    while l < 25
        invariant
            l <= 25,
            s@.len() == 25,
            out@.len() == l,
            forall|k: int| 0 <= k < l ==> out@[k] == spec_chi(s@)[k],
        decreases 25 - l,
    {
        let row = 5 * (l / 5);
        let v = s[l] ^ (!s[row + (l % 5 + 1) % 5] & s[row + (l % 5 + 2) % 5]);
        out.push(v);
        l += 1;
    }
    assert(out@ =~= spec_chi(s@));
    out
}

/// Applies the 24 rounds of Keccak-f[1600] to `state` in place.
pub fn keccak_permute(state: &mut Vec<u64>)
    requires
        old(state)@.len() == 25,
    ensures
        final(state)@.len() == 25,
        final(state)@ == keccak_f(old(state)@),
{
    let mut r: usize = 0;
    while r < 24
        invariant
            r <= 24,
            state@.len() == 25,
            state@ == spec_rounds(old(state)@, r as nat),
        decreases 24 - r,
    {
        let t = theta(state);
        let t = rho_pi(&t);
        let mut t = chi(&t);
        let lane0 = t[0] ^ round_constant_of(r);
        t[0] = lane0;
        assert(t@ =~= spec_round(state@, r as int));
        *state = t;
        r += 1;
    }
}

} // verus!
