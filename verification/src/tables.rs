//! The fixed mnemonic tables of the Hack instruction set, and the
//! pre-seeded built-in symbols.
//!
//! Each `*_code` spec function is the mathematical content of a table:
//! it maps a mnemonic (as a character sequence) to its numeric code, or
//! `None` when the mnemonic is not defined.  The `lookup_*` functions
//! are the executable tables, proved equal to the spec functions.

use vstd::prelude::*;

verus! {

/// The 3-bit destination code: the empty mnemonic means "store nowhere"
/// and encodes as zero.
pub open spec fn dest_code(s: Seq<char>) -> Option<u8> {
    if s.len() == 0 {
        Some(0u8)
    } else if s.len() == 1 {
        if s[0] == 'M' {
            Some(1u8)
        } else if s[0] == 'D' {
            Some(2u8)
        } else if s[0] == 'A' {
            Some(4u8)
        } else {
            None
        }
    } else if s.len() == 2 {
        if s[0] == 'D' && s[1] == 'M' {
            Some(3u8)
        } else if s[0] == 'A' && s[1] == 'M' {
            Some(5u8)
        } else if s[0] == 'A' && s[1] == 'D' {
            Some(6u8)
        } else {
            None
        }
    } else if s.len() == 3 {
        if s[0] == 'A' && s[1] == 'D' && s[2] == 'M' {
            Some(7u8)
        } else {
            None
        }
    } else {
        None
    }
}

/// The 3-bit jump code: the empty mnemonic means "never jump" and
/// encodes as zero.
pub open spec fn jump_code(s: Seq<char>) -> Option<u8> {
    if s.len() == 0 {
        Some(0u8)
    } else if s.len() == 3 && s[0] == 'J' {
        if s[1] == 'G' && s[2] == 'T' {
            Some(1u8)
        } else if s[1] == 'E' && s[2] == 'Q' {
            Some(2u8)
        } else if s[1] == 'G' && s[2] == 'E' {
            Some(3u8)
        } else if s[1] == 'L' && s[2] == 'T' {
            Some(4u8)
        } else if s[1] == 'N' && s[2] == 'E' {
            Some(5u8)
        } else if s[1] == 'L' && s[2] == 'E' {
            Some(6u8)
        } else if s[1] == 'M' && s[2] == 'P' {
            Some(7u8)
        } else {
            None
        }
    } else {
        None
    }
}

/// The 7-bit computation code (the `a` bit followed by `c1..c6`).
pub open spec fn comp_code(s: Seq<char>) -> Option<u8> {
    if s.len() == 1 {
        comp_code_1(s[0])
    } else if s.len() == 2 {
        comp_code_2(s[0], s[1])
    } else if s.len() == 3 {
        comp_code_3(s[0], s[1], s[2])
    } else {
        None
    }
}

pub open spec fn comp_code_1(a: char) -> Option<u8> {
    if a == '0' {
        Some(0x2au8)
    } else if a == '1' {
        Some(0x3fu8)
    } else if a == 'D' {
        Some(0x0cu8)
    } else if a == 'A' {
        Some(0x30u8)
    } else if a == 'M' {
        Some(0x70u8)
    } else {
        None
    }
}

pub open spec fn comp_code_2(a: char, b: char) -> Option<u8> {
    if a == '-' && b == '1' {
        Some(0x3au8)
    } else if a == '!' && b == 'D' {
        Some(0x0du8)
    } else if a == '!' && b == 'A' {
        Some(0x31u8)
    } else if a == '!' && b == 'M' {
        Some(0x71u8)
    } else if a == '-' && b == 'D' {
        Some(0x0fu8)
    } else if a == '-' && b == 'A' {
        Some(0x33u8)
    } else if a == '-' && b == 'M' {
        Some(0x73u8)
    } else {
        None
    }
}

pub open spec fn comp_code_3(a: char, b: char, c: char) -> Option<u8> {
    if a == 'D' && b == '+' && c == '1' {
        Some(0x1fu8)
    } else if a == 'A' && b == '+' && c == '1' {
        Some(0x37u8)
    } else if a == 'M' && b == '+' && c == '1' {
        Some(0x77u8)
    } else if a == 'D' && b == '-' && c == '1' {
        Some(0x0eu8)
    } else if a == 'A' && b == '-' && c == '1' {
        Some(0x32u8)
    } else if a == 'M' && b == '-' && c == '1' {
        Some(0x72u8)
    } else if a == 'D' && b == '+' && c == 'A' {
        Some(0x02u8)
    } else if a == 'D' && b == '+' && c == 'M' {
        Some(0x42u8)
    } else if a == 'D' && b == '-' && c == 'A' {
        Some(0x13u8)
    } else if a == 'D' && b == '-' && c == 'M' {
        Some(0x53u8)
    } else if a == 'A' && b == '-' && c == 'D' {
        Some(0x07u8)
    } else if a == 'M' && b == '-' && c == 'D' {
        Some(0x47u8)
    } else if a == 'D' && b == '&' && c == 'A' {
        Some(0x00u8)
    } else if a == 'D' && b == '&' && c == 'M' {
        Some(0x40u8)
    } else if a == 'D' && b == '|' && c == 'A' {
        Some(0x15u8)
    } else if a == 'D' && b == '|' && c == 'M' {
        Some(0x55u8)
    } else {
        None
    }
}

/// Executable destination table.
pub fn lookup_dest(tok: &Vec<char>) -> (r: Option<u8>)
    ensures
        r == dest_code(tok@),
{
    if tok.len() == 0 {
        Some(0)
    } else if tok.len() == 1 {
        let a = tok[0];
        if a == 'M' {
            Some(1)
        } else if a == 'D' {
            Some(2)
        } else if a == 'A' {
            Some(4)
        } else {
            None
        }
    } else if tok.len() == 2 {
        let a = tok[0];
        let b = tok[1];
        if a == 'D' && b == 'M' {
            Some(3)
        } else if a == 'A' && b == 'M' {
            Some(5)
        } else if a == 'A' && b == 'D' {
            Some(6)
        } else {
            None
        }
    } else if tok.len() == 3 {
        let a = tok[0];
        let b = tok[1];
        let c = tok[2];
        if a == 'A' && b == 'D' && c == 'M' {
            Some(7)
        } else {
            None
        }
    } else {
        None
    }
}

/// Executable jump table.
pub fn lookup_jump(tok: &Vec<char>) -> (r: Option<u8>)
    ensures
        r == jump_code(tok@),
{
    if tok.len() == 0 {
        Some(0)
    } else if tok.len() == 3 {
        let a = tok[0];
        let b = tok[1];
        let c = tok[2];
        if a != 'J' {
            None
        } else if b == 'G' && c == 'T' {
            Some(1)
        } else if b == 'E' && c == 'Q' {
            Some(2)
        } else if b == 'G' && c == 'E' {
            Some(3)
        } else if b == 'L' && c == 'T' {
            Some(4)
        } else if b == 'N' && c == 'E' {
            Some(5)
        } else if b == 'L' && c == 'E' {
            Some(6)
        } else if b == 'M' && c == 'P' {
            Some(7)
        } else {
            None
        }
    } else {
        None
    }
}

/// Executable computation table.
pub fn lookup_comp(tok: &Vec<char>) -> (r: Option<u8>)
    ensures
        r == comp_code(tok@),
{
    if tok.len() == 1 {
        let a = tok[0];
        if a == '0' {
            Some(0x2a)
        } else if a == '1' {
            Some(0x3f)
        } else if a == 'D' {
            Some(0x0c)
        } else if a == 'A' {
            Some(0x30)
        } else if a == 'M' {
            Some(0x70)
        } else {
            None
        }
    } else if tok.len() == 2 {
        let a = tok[0];
        let b = tok[1];
        if a == '-' && b == '1' {
            Some(0x3a)
        } else if a == '!' && b == 'D' {
            Some(0x0d)
        } else if a == '!' && b == 'A' {
            Some(0x31)
        } else if a == '!' && b == 'M' {
            Some(0x71)
        } else if a == '-' && b == 'D' {
            Some(0x0f)
        } else if a == '-' && b == 'A' {
            Some(0x33)
        } else if a == '-' && b == 'M' {
            Some(0x73)
        } else {
            None
        }
    } else if tok.len() == 3 {
        let a = tok[0];
        let b = tok[1];
        let c = tok[2];
        if a == 'D' && b == '+' && c == '1' {
            Some(0x1f)
        } else if a == 'A' && b == '+' && c == '1' {
            Some(0x37)
        } else if a == 'M' && b == '+' && c == '1' {
            Some(0x77)
        } else if a == 'D' && b == '-' && c == '1' {
            Some(0x0e)
        } else if a == 'A' && b == '-' && c == '1' {
            Some(0x32)
        } else if a == 'M' && b == '-' && c == '1' {
            Some(0x72)
        } else if a == 'D' && b == '+' && c == 'A' {
            Some(0x02)
        } else if a == 'D' && b == '+' && c == 'M' {
            Some(0x42)
        } else if a == 'D' && b == '-' && c == 'A' {
            Some(0x13)
        } else if a == 'D' && b == '-' && c == 'M' {
            Some(0x53)
        } else if a == 'A' && b == '-' && c == 'D' {
            Some(0x07)
        } else if a == 'M' && b == '-' && c == 'D' {
            Some(0x47)
        } else if a == 'D' && b == '&' && c == 'A' {
            Some(0x00)
        } else if a == 'D' && b == '&' && c == 'M' {
            Some(0x40)
        } else if a == 'D' && b == '|' && c == 'A' {
            Some(0x15)
        } else if a == 'D' && b == '|' && c == 'M' {
            Some(0x55)
        } else {
            None
        }
    } else {
        None
    }
}

/// Every code a table yields fits in its bit width.
pub proof fn lemma_code_ranges(s: Seq<char>)
    ensures
        dest_code(s) matches Some(d) ==> d < 8,
        jump_code(s) matches Some(j) ==> j < 8,
        comp_code(s) matches Some(c) ==> c < 128,
{
}

/// The built-in symbols, pre-seeded before assembly begins: the sixteen
/// registers, the five pointer segments (aliasing the first five
/// registers), and the two memory-mapped device base addresses.
pub open spec fn builtins() -> Map<Seq<char>, Option<usize>> {
    Map::empty().insert(seq!['R', '0'], Some(0usize)).insert(seq!['R', '1'], Some(1usize)).insert(
        seq!['R', '2'],
        Some(2usize),
    ).insert(seq!['R', '3'], Some(3usize)).insert(seq!['R', '4'], Some(4usize)).insert(
        seq!['R', '5'],
        Some(5usize),
    ).insert(seq!['R', '6'], Some(6usize)).insert(seq!['R', '7'], Some(7usize)).insert(
        seq!['R', '8'],
        Some(8usize),
    ).insert(seq!['R', '9'], Some(9usize)).insert(seq!['R', '1', '0'], Some(10usize)).insert(
        seq!['R', '1', '1'],
        Some(11usize),
    ).insert(seq!['R', '1', '2'], Some(12usize)).insert(seq!['R', '1', '3'], Some(13usize)).insert(
        seq!['R', '1', '4'],
        Some(14usize),
    ).insert(seq!['R', '1', '5'], Some(15usize)).insert(seq!['S', 'P'], Some(0usize)).insert(
        seq!['L', 'C', 'L'],
        Some(1usize),
    ).insert(seq!['A', 'R', 'G'], Some(2usize)).insert(seq!['T', 'H', 'I', 'S'], Some(3usize)).insert(
        seq!['T', 'H', 'A', 'T'],
        Some(4usize),
    ).insert(seq!['S', 'C', 'R', 'E', 'E', 'N'], Some(16384usize)).insert(
        seq!['K', 'B', 'D'],
        Some(24576usize),
    )
}

} // verus!
