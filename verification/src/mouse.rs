//! Mouse input encoding for xterm SGR mode (CSI 1006): button code,
//! coordinates and modifiers become `CSI < Cb ; Cx ; Cy M/m`.

use vstd::prelude::*;

verus! {

/// xterm modifier bits, OR-ed into the button code.
pub const MOD_SHIFT: u8 = 4;
pub const MOD_ALT: u8 = 8;
pub const MOD_CTRL: u8 = 16;
/// Motion bit (motion tracking in 1002/1003 raises the code by 32).
pub const MOTION: u8 = 32;

/// Base button codes: 0 = left, 1 = middle, 2 = right.
pub const BTN_LEFT: u8 = 0;
pub const BTN_MIDDLE: u8 = 1;
pub const BTN_RIGHT: u8 = 2;
/// Wheel: 64 = up, 65 = down. The wheel has no release event.
pub const WHEEL_UP: u8 = 64;
pub const WHEEL_DOWN: u8 = 65;

/// Decimal ASCII digits of `n`, without leading zeros ("0" for zero).
pub open spec fn dec(n: nat) -> Seq<u8>
    decreases n,
{
    if n < 10 {
        seq![(48 + n) as u8]
    } else {
        dec(n / 10).push((48 + n % 10) as u8)
    }
}

/// Button code sent for an event: release adds 3 to buttons below 64,
/// then the modifier bits are OR-ed in.
pub open spec fn sgr_code(code: u8, mods: u8, release: bool) -> u8 {
    (if release && code < 64 {
        (code + 3) as u8
    } else {
        code
    }) | mods
}

pub open spec fn at_least_one(v: usize) -> nat {
    if v == 0 {
        1
    } else {
        v as nat
    }
}

/// The SGR sequence for one mouse event.
pub open spec fn sgr_seq(code: u8, mods: u8, release: bool, x: usize, y: usize) -> Seq<u8> {
    seq![0x1bu8, 0x5bu8, 0x3cu8] + dec(sgr_code(code, mods, release) as nat) + seq![0x3bu8] + dec(
        at_least_one(x),
    ) + seq![0x3bu8] + dec(at_least_one(y)) + seq![
        if release {
            0x6du8
        } else {
            0x4du8
        },
    ]
}

/// Encode one mouse event as SGR bytes appended to `out` (the mode is not
/// checked here).
///
/// `code` is a `BTN_*` or `WHEEL_*` code; `release` adds 3 for buttons
/// below 64 and ends the sequence with `m` instead of `M`. `mods` holds the
/// `MOD_*` bits (it may include `MOTION`), OR-ed into the code. `x`/`y` are 1-based; 0 becomes 1.
///
/// Example: a left click at column 3, row 2 gives `\x1b[<0;3;2M`.
pub fn encode(code: u8, mods: u8, release: bool, x: usize, y: usize, out: &mut Vec<u8>)
    ensures
        final(out)@ == old(out)@ + sgr_seq(code, mods, release, x, y),
{
    let mut b = code;
    if release && b < 64 {
        b = b + 3;
    }
    b = b | mods;
    let x = if x < 1 { 1 } else { x };
    let y = if y < 1 { 1 } else { y };
    let term = if release { 0x6du8 } else { 0x4du8 };
    out.push(0x1b);
    out.push(0x5b);
    out.push(0x3c);
    append_num(out, b as usize);
    out.push(0x3b);
    append_num(out, x);
    out.push(0x3b);
    append_num(out, y);
    out.push(term);
    assert(final(out)@ =~= old(out)@ + sgr_seq(code, mods, release, x, y));
}

/// Append the decimal digits of `n`.
pub fn append_num(out: &mut Vec<u8>, n: usize)
    ensures
        final(out)@ == old(out)@ + dec(n as nat),
    decreases n,
{
    if n >= 10 {
        append_num(out, n / 10);
    }
    out.push(48u8 + (n % 10) as u8);
    assert(final(out)@ =~= old(out)@ + dec(n as nat));
}

} // verus!
