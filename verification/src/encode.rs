//! Fixed-width binary rendering of instruction words.
//!
//! Every output line of the assembler is exactly 16 characters of `'0'`
//! and `'1'`: either `'0'` followed by the 15-bit binary form of an
//! address, or the opcode `"111"` followed by the 7-bit computation
//! code, the 3-bit destination code and the 3-bit jump code.

use vstd::prelude::*;

verus! {

/// The character for a single bit.
pub open spec fn bin_char(b: u16) -> char {
    if b == 0 {
        '0'
    } else {
        '1'
    }
}

/// The `k`-character binary rendering of the low `k` bits of `val`,
/// most significant bit first.
pub open spec fn bin_of(val: u16, k: nat) -> Seq<char>
    decreases k,
{
    if k == 0 {
        Seq::empty()
    } else {
        bin_of(val / 2, (k - 1) as nat).push(bin_char(val % 2))
    }
}

/// The output line for an address instruction: `'0'` then 15 bits.
pub open spec fn addr_line(a: u16) -> Seq<char>
    recommends
        a < 32768,
{
    seq!['0'] + bin_of(a, 15)
}

/// The output line for a computation instruction: `"111"`, then the
/// computation, destination and jump codes.
pub open spec fn comp_line(c: u8, d: u8, j: u8) -> Seq<char>
    recommends
        c < 128,
        d < 8,
        j < 8,
{
    seq!['1', '1', '1'] + bin_of(c as u16, 7) + bin_of(d as u16, 3) + bin_of(j as u16, 3)
}

/// Appends the `k`-bit binary rendering of `val` to `out`.
pub fn push_bin(out: &mut Vec<char>, val: u16, k: u16)
    ensures
        final(out)@ == old(out)@ + bin_of(val, k as nat),
    decreases k,
{
    if k == 0 {
        proof {
            assert(old(out)@ + bin_of(val, 0) =~= old(out)@);
        }
    } else {
        push_bin(out, val / 2, k - 1);
        let c: char = if val % 2 == 1 {
            '1'
        } else {
            '0'
        };
        out.push(c);
        proof {
            assert(old(out)@ + bin_of(val, k as nat) =~= (old(out)@ + bin_of(
                val / 2,
                (k - 1) as nat,
            )).push(bin_char(val % 2)));
        }
    }
}

/// Builds the 16-character line for an address.
pub fn make_addr_line(a: u16) -> (v: Vec<char>)
    requires
        a < 32768,
    ensures
        v@ == addr_line(a),
{
    let mut v: Vec<char> = Vec::new();
    v.push('0');
    push_bin(&mut v, a, 15);
    proof {
        assert(v@ =~= addr_line(a));
    }
    v
}

/// Builds the 16-character line for a computation instruction.
pub fn make_comp_line(c: u8, d: u8, j: u8) -> (v: Vec<char>)
    requires
        c < 128,
        d < 8,
        j < 8,
    ensures
        v@ == comp_line(c, d, j),
{
    let mut v: Vec<char> = Vec::new();
    v.push('1');
    v.push('1');
    v.push('1');
    push_bin(&mut v, c as u16, 7);
    push_bin(&mut v, d as u16, 3);
    push_bin(&mut v, j as u16, 3);
    proof {
        assert(v@ =~= comp_line(c, d, j));
    }
    v
}

} // verus!
