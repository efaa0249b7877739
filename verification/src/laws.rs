//! The stated laws of the assembler, proved once and for all.
//!
//! Each public proof function here writes down a property of the
//! encoding tables or of the two-pass resolution that holds for every
//! input, over the same spec functions the executable contracts use.

use vstd::prelude::*;
use crate::encode::{bin_of, addr_line, comp_line};
use crate::tables::{dest_code, comp_code, jump_code, builtins};
use crate::instr::SpecInstr;
use crate::scan::{skip_end, lemma_skip_end_bounds, lemma_skip_end_idempotent};
use crate::parse::spec_parse;
use crate::assembler::pass1;
use crate::assembler::pass2;

verus! {

/// Every destination mnemonic encodes to its fixed 3-bit value: the
/// empty mnemonic to `000`, `M` to `001`, up to `ADM` to `111`.
pub proof fn lemma_dest_table()
    ensures
        dest_code(Seq::<char>::empty()) == Some(0u8),
        bin_of(0u16, 3) == seq!['0', '0', '0'],
        dest_code(seq!['M']) == Some(1u8),
        bin_of(1u16, 3) == seq!['0', '0', '1'],
        dest_code(seq!['D']) == Some(2u8),
        bin_of(2u16, 3) == seq!['0', '1', '0'],
        dest_code(seq!['D', 'M']) == Some(3u8),
        bin_of(3u16, 3) == seq!['0', '1', '1'],
        dest_code(seq!['A']) == Some(4u8),
        bin_of(4u16, 3) == seq!['1', '0', '0'],
        dest_code(seq!['A', 'M']) == Some(5u8),
        bin_of(5u16, 3) == seq!['1', '0', '1'],
        dest_code(seq!['A', 'D']) == Some(6u8),
        bin_of(6u16, 3) == seq!['1', '1', '0'],
        dest_code(seq!['A', 'D', 'M']) == Some(7u8),
        bin_of(7u16, 3) == seq!['1', '1', '1'],
{
    reveal_with_fuel(bin_of, 17);
    assert(bin_of(0u16, 3) =~= seq!['0', '0', '0']);
    assert(bin_of(1u16, 3) =~= seq!['0', '0', '1']);
    assert(bin_of(2u16, 3) =~= seq!['0', '1', '0']);
    assert(bin_of(3u16, 3) =~= seq!['0', '1', '1']);
    assert(bin_of(4u16, 3) =~= seq!['1', '0', '0']);
    assert(bin_of(5u16, 3) =~= seq!['1', '0', '1']);
    assert(bin_of(6u16, 3) =~= seq!['1', '1', '0']);
    assert(bin_of(7u16, 3) =~= seq!['1', '1', '1']);
}

/// Every jump mnemonic encodes to its fixed 3-bit value: the empty
/// mnemonic to `000`, `JGT` to `001`, up to `JMP` to `111`.
pub proof fn lemma_jump_table()
    ensures
        jump_code(Seq::<char>::empty()) == Some(0u8),
        bin_of(0u16, 3) == seq!['0', '0', '0'],
        jump_code(seq!['J', 'G', 'T']) == Some(1u8),
        bin_of(1u16, 3) == seq!['0', '0', '1'],
        jump_code(seq!['J', 'E', 'Q']) == Some(2u8),
        bin_of(2u16, 3) == seq!['0', '1', '0'],
        jump_code(seq!['J', 'G', 'E']) == Some(3u8),
        bin_of(3u16, 3) == seq!['0', '1', '1'],
        jump_code(seq!['J', 'L', 'T']) == Some(4u8),
        bin_of(4u16, 3) == seq!['1', '0', '0'],
        jump_code(seq!['J', 'N', 'E']) == Some(5u8),
        bin_of(5u16, 3) == seq!['1', '0', '1'],
        jump_code(seq!['J', 'L', 'E']) == Some(6u8),
        bin_of(6u16, 3) == seq!['1', '1', '0'],
        jump_code(seq!['J', 'M', 'P']) == Some(7u8),
        bin_of(7u16, 3) == seq!['1', '1', '1'],
{
    reveal_with_fuel(bin_of, 17);
    assert(bin_of(0u16, 3) =~= seq!['0', '0', '0']);
    assert(bin_of(1u16, 3) =~= seq!['0', '0', '1']);
    assert(bin_of(2u16, 3) =~= seq!['0', '1', '0']);
    assert(bin_of(3u16, 3) =~= seq!['0', '1', '1']);
    assert(bin_of(4u16, 3) =~= seq!['1', '0', '0']);
    assert(bin_of(5u16, 3) =~= seq!['1', '0', '1']);
    assert(bin_of(6u16, 3) =~= seq!['1', '1', '0']);
    assert(bin_of(7u16, 3) =~= seq!['1', '1', '1']);
}

/// Each of the 28 defined computation mnemonics encodes to its fixed
/// 7-bit value.
pub proof fn lemma_comp_table()
    ensures
        comp_code(seq!['0']) == Some(42u8),
        bin_of(42u16, 7) == seq!['0', '1', '0', '1', '0', '1', '0'],
        comp_code(seq!['1']) == Some(63u8),
        bin_of(63u16, 7) == seq!['0', '1', '1', '1', '1', '1', '1'],
        comp_code(seq!['-', '1']) == Some(58u8),
        bin_of(58u16, 7) == seq!['0', '1', '1', '1', '0', '1', '0'],
        comp_code(seq!['D']) == Some(12u8),
        bin_of(12u16, 7) == seq!['0', '0', '0', '1', '1', '0', '0'],
        comp_code(seq!['A']) == Some(48u8),
        bin_of(48u16, 7) == seq!['0', '1', '1', '0', '0', '0', '0'],
        comp_code(seq!['M']) == Some(112u8),
        bin_of(112u16, 7) == seq!['1', '1', '1', '0', '0', '0', '0'],
        comp_code(seq!['!', 'D']) == Some(13u8),
        bin_of(13u16, 7) == seq!['0', '0', '0', '1', '1', '0', '1'],
        comp_code(seq!['!', 'A']) == Some(49u8),
        bin_of(49u16, 7) == seq!['0', '1', '1', '0', '0', '0', '1'],
        comp_code(seq!['!', 'M']) == Some(113u8),
        bin_of(113u16, 7) == seq!['1', '1', '1', '0', '0', '0', '1'],
        comp_code(seq!['-', 'D']) == Some(15u8),
        bin_of(15u16, 7) == seq!['0', '0', '0', '1', '1', '1', '1'],
        comp_code(seq!['-', 'A']) == Some(51u8),
        bin_of(51u16, 7) == seq!['0', '1', '1', '0', '0', '1', '1'],
        comp_code(seq!['-', 'M']) == Some(115u8),
        bin_of(115u16, 7) == seq!['1', '1', '1', '0', '0', '1', '1'],
        comp_code(seq!['D', '+', '1']) == Some(31u8),
        bin_of(31u16, 7) == seq!['0', '0', '1', '1', '1', '1', '1'],
        comp_code(seq!['A', '+', '1']) == Some(55u8),
        bin_of(55u16, 7) == seq!['0', '1', '1', '0', '1', '1', '1'],
        comp_code(seq!['M', '+', '1']) == Some(119u8),
        bin_of(119u16, 7) == seq!['1', '1', '1', '0', '1', '1', '1'],
        comp_code(seq!['D', '-', '1']) == Some(14u8),
        bin_of(14u16, 7) == seq!['0', '0', '0', '1', '1', '1', '0'],
        comp_code(seq!['A', '-', '1']) == Some(50u8),
        bin_of(50u16, 7) == seq!['0', '1', '1', '0', '0', '1', '0'],
        comp_code(seq!['M', '-', '1']) == Some(114u8),
        bin_of(114u16, 7) == seq!['1', '1', '1', '0', '0', '1', '0'],
        comp_code(seq!['D', '+', 'A']) == Some(2u8),
        bin_of(2u16, 7) == seq!['0', '0', '0', '0', '0', '1', '0'],
        comp_code(seq!['D', '+', 'M']) == Some(66u8),
        bin_of(66u16, 7) == seq!['1', '0', '0', '0', '0', '1', '0'],
        comp_code(seq!['D', '-', 'A']) == Some(19u8),
        bin_of(19u16, 7) == seq!['0', '0', '1', '0', '0', '1', '1'],
        comp_code(seq!['D', '-', 'M']) == Some(83u8),
        bin_of(83u16, 7) == seq!['1', '0', '1', '0', '0', '1', '1'],
        comp_code(seq!['A', '-', 'D']) == Some(7u8),
        bin_of(7u16, 7) == seq!['0', '0', '0', '0', '1', '1', '1'],
        comp_code(seq!['M', '-', 'D']) == Some(71u8),
        bin_of(71u16, 7) == seq!['1', '0', '0', '0', '1', '1', '1'],
        comp_code(seq!['D', '&', 'A']) == Some(0u8),
        bin_of(0u16, 7) == seq!['0', '0', '0', '0', '0', '0', '0'],
        comp_code(seq!['D', '&', 'M']) == Some(64u8),
        bin_of(64u16, 7) == seq!['1', '0', '0', '0', '0', '0', '0'],
        comp_code(seq!['D', '|', 'A']) == Some(21u8),
        bin_of(21u16, 7) == seq!['0', '0', '1', '0', '1', '0', '1'],
        comp_code(seq!['D', '|', 'M']) == Some(85u8),
        bin_of(85u16, 7) == seq!['1', '0', '1', '0', '1', '0', '1'],
{
    reveal_with_fuel(bin_of, 17);
    assert(bin_of(42u16, 7) =~= seq!['0', '1', '0', '1', '0', '1', '0']);
    assert(bin_of(63u16, 7) =~= seq!['0', '1', '1', '1', '1', '1', '1']);
    assert(bin_of(58u16, 7) =~= seq!['0', '1', '1', '1', '0', '1', '0']);
    assert(bin_of(12u16, 7) =~= seq!['0', '0', '0', '1', '1', '0', '0']);
    assert(bin_of(48u16, 7) =~= seq!['0', '1', '1', '0', '0', '0', '0']);
    assert(bin_of(112u16, 7) =~= seq!['1', '1', '1', '0', '0', '0', '0']);
    assert(bin_of(13u16, 7) =~= seq!['0', '0', '0', '1', '1', '0', '1']);
    assert(bin_of(49u16, 7) =~= seq!['0', '1', '1', '0', '0', '0', '1']);
    assert(bin_of(113u16, 7) =~= seq!['1', '1', '1', '0', '0', '0', '1']);
    assert(bin_of(15u16, 7) =~= seq!['0', '0', '0', '1', '1', '1', '1']);
    assert(bin_of(51u16, 7) =~= seq!['0', '1', '1', '0', '0', '1', '1']);
    assert(bin_of(115u16, 7) =~= seq!['1', '1', '1', '0', '0', '1', '1']);
    assert(bin_of(31u16, 7) =~= seq!['0', '0', '1', '1', '1', '1', '1']);
    assert(bin_of(55u16, 7) =~= seq!['0', '1', '1', '0', '1', '1', '1']);
    assert(bin_of(119u16, 7) =~= seq!['1', '1', '1', '0', '1', '1', '1']);
    assert(bin_of(14u16, 7) =~= seq!['0', '0', '0', '1', '1', '1', '0']);
    assert(bin_of(50u16, 7) =~= seq!['0', '1', '1', '0', '0', '1', '0']);
    assert(bin_of(114u16, 7) =~= seq!['1', '1', '1', '0', '0', '1', '0']);
    assert(bin_of(2u16, 7) =~= seq!['0', '0', '0', '0', '0', '1', '0']);
    assert(bin_of(66u16, 7) =~= seq!['1', '0', '0', '0', '0', '1', '0']);
    assert(bin_of(19u16, 7) =~= seq!['0', '0', '1', '0', '0', '1', '1']);
    assert(bin_of(83u16, 7) =~= seq!['1', '0', '1', '0', '0', '1', '1']);
    assert(bin_of(7u16, 7) =~= seq!['0', '0', '0', '0', '1', '1', '1']);
    assert(bin_of(71u16, 7) =~= seq!['1', '0', '0', '0', '1', '1', '1']);
    assert(bin_of(0u16, 7) =~= seq!['0', '0', '0', '0', '0', '0', '0']);
    assert(bin_of(64u16, 7) =~= seq!['1', '0', '0', '0', '0', '0', '0']);
    assert(bin_of(21u16, 7) =~= seq!['0', '0', '1', '0', '1', '0', '1']);
    assert(bin_of(85u16, 7) =~= seq!['1', '0', '1', '0', '1', '0', '1']);
}

/// The memory-mapped device bases are pre-seeded: `SCREEN` at 16384
/// and `KBD` at 24576, whose address lines are fixed.
pub proof fn lemma_device_addresses()
    ensures
        builtins()[seq!['S', 'C', 'R', 'E', 'E', 'N']] == Some(16384usize),
        builtins()[seq!['K', 'B', 'D']] == Some(24576usize),
        addr_line(16384u16) == seq!['0', '1', '0', '0', '0', '0', '0', '0', '0', '0', '0', '0', '0', '0', '0', '0'],
        addr_line(24576u16) == seq!['0', '1', '1', '0', '0', '0', '0', '0', '0', '0', '0', '0', '0', '0', '0', '0'],
{
    reveal_with_fuel(bin_of, 17);
    assert(addr_line(16384u16) =~= seq!['0', '1', '0', '0', '0', '0', '0', '0', '0', '0', '0', '0', '0', '0', '0', '0']);
    assert(addr_line(24576u16) =~= seq!['0', '1', '1', '0', '0', '0', '0', '0', '0', '0', '0', '0', '0', '0', '0', '0']);
}

/// Text that only skipping consumes (whitespace and comments)
/// contributes no instruction: parsing from a position and from the
/// end of the skipped stretch yield the same instruction stream, and
/// with it the same instruction-address counter.
pub proof fn lemma_blank_text_no_instructions(t: Seq<char>, p: int)
    requires
        0 <= p <= t.len(),
    ensures
        spec_parse(t, p) == spec_parse(t, skip_end(t, p)),
{
    lemma_skip_end_bounds(t, p);
    lemma_skip_end_idempotent(t, p);
}

/// Whether `x` declares the label `n`.
pub open spec fn is_label_of(x: SpecInstr, n: Seq<char>) -> bool {
    x matches SpecInstr::Label(m) && m == n
}

/// How many instructions of `s` in `[k, i)` are not labels.
pub open spec fn nonlabels_upto(s: Seq<SpecInstr>, k: int, i: int) -> int
    decreases i - k,
{
    if k >= i || k < 0 {
        0
    } else {
        (if s[k] is Label {
            0int
        } else {
            1int
        }) + nonlabels_upto(s, k + 1, i)
    }
}

/// Pass 1 never disturbs the binding of a name that no remaining
/// instruction declares as a label.
pub proof fn lemma_pass1_preserves(
    s: Seq<SpecInstr>,
    k: int,
    m: Map<Seq<char>, Option<usize>>,
    ctr: int,
    n: Seq<char>,
)
    requires
        0 <= k <= s.len(),
        m.dom().contains(n),
        forall|j: int| k <= j < s.len() ==> !is_label_of(#[trigger] s[j], n),
    ensures
        pass1(s, k, m, ctr).dom().contains(n),
        pass1(s, k, m, ctr)[n] == m[n],
    decreases s.len() - k,
{
    if k < s.len() {
        lemma_pass1_preserves(
            s,
            k + 1,
            crate::assembler::reg_step(m, s[k], ctr),
            ctr + (if s[k] is Label {
                0int
            } else {
                1int
            }),
            n,
        );
    }
}

proof fn lemma_label_address_from(
    s: Seq<SpecInstr>,
    k: int,
    i: int,
    m: Map<Seq<char>, Option<usize>>,
    ctr: int,
    n: Seq<char>,
)
    requires
        0 <= k <= i < s.len(),
        s[i] == SpecInstr::Label(n),
        forall|j: int| i < j < s.len() ==> !is_label_of(#[trigger] s[j], n),
        0 <= ctr + nonlabels_upto(s, k, i) <= usize::MAX,
    ensures
        pass1(s, k, m, ctr).dom().contains(n),
        pass1(s, k, m, ctr)[n] == Some((ctr + nonlabels_upto(s, k, i)) as usize),
    decreases i - k,
{
    if k == i {
        lemma_pass1_preserves(s, k + 1, m.insert(n, Some(ctr as usize)), ctr, n);
    } else {
        lemma_nonlabels_upto_nonneg(s, k + 1, i);
        lemma_label_address_from(
            s,
            k + 1,
            i,
            crate::assembler::reg_step(m, s[k], ctr),
            ctr + (if s[k] is Label {
                0int
            } else {
                1int
            }),
            n,
        );
    }
}

pub proof fn lemma_nonlabels_upto_nonneg(s: Seq<SpecInstr>, k: int, i: int)
    ensures
        0 <= nonlabels_upto(s, k, i) <= (if i - k >= 0 {
            i - k
        } else {
            0int
        }),
    decreases i - k,
{
    if k < i && k >= 0 {
        lemma_nonlabels_upto_nonneg(s, k + 1, i);
    }
}

/// A label declared before any instruction resolves to address 0; in
/// general, a label declared after exactly `K` prior non-label
/// instructions is bound to address `K` — provided no later
/// declaration reuses the name (the last declaration wins).
pub proof fn lemma_label_address(s: Seq<SpecInstr>, i: int, n: Seq<char>)
    requires
        0 <= i < s.len(),
        s[i] == SpecInstr::Label(n),
        forall|j: int| i < j < s.len() ==> !is_label_of(#[trigger] s[j], n),
        nonlabels_upto(s, 0, i) <= usize::MAX,
    ensures
        pass1(s, 0, builtins(), 0).dom().contains(n),
        pass1(s, 0, builtins(), 0)[n] == Some(nonlabels_upto(s, 0, i) as usize),
{
    lemma_nonlabels_upto_nonneg(s, 0, i);
    lemma_label_address_from(s, 0, i, builtins(), 0, n);
}

/// The non-label count is never negative.
pub proof fn lemma_nonlabels_nonneg(s: Seq<SpecInstr>, i: int)
    ensures
        crate::assembler::nonlabels(s, i) >= 0,
    decreases s.len() - i,
{
    if 0 <= i < s.len() {
        lemma_nonlabels_nonneg(s, i + 1);
    }
}

/// The non-label count from `a` splits at any midpoint `b`.
pub proof fn lemma_nonlabels_split(s: Seq<SpecInstr>, a: int, b: int)
    requires
        0 <= a <= b <= s.len(),
    ensures
        crate::assembler::nonlabels(s, a) == nonlabels_upto(s, a, b) + crate::assembler::nonlabels(
            s,
            b,
        ),
    decreases b - a,
{
    if a < b {
        lemma_nonlabels_split(s, a + 1, b);
    }
}

/// A successful pass 2 emits exactly one line per non-label
/// instruction.
pub proof fn lemma_pass2_len(
    s: Seq<SpecInstr>,
    i: int,
    m: Map<Seq<char>, Option<usize>>,
    next: int,
)
    requires
        pass2(s, i, m, next) is Ok,
    ensures
        pass2(s, i, m, next)->Ok_0.len() == (if 0 <= i <= s.len() {
            crate::assembler::nonlabels(s, i)
        } else {
            0int
        }),
    decreases s.len() - i,
{
    if 0 <= i < s.len() {
        match s[i] {
            SpecInstr::Label(_) => {
                lemma_pass2_len(s, i + 1, m, next);
            },
            SpecInstr::Constant(_) => {
                lemma_pass2_len(s, i + 1, m, next);
            },
            SpecInstr::Compute(_, _, _) => {
                lemma_pass2_len(s, i + 1, m, next);
            },
            SpecInstr::Var(n2) => {
                if m.dom().contains(n2) && m[n2] is Some {
                    lemma_pass2_len(s, i + 1, m, next);
                } else {
                    lemma_pass2_len(s, i + 1, m.insert(n2, Some(next as usize)), next + 1);
                }
            },
        }
    }
}

/// A well-formed output line: exactly 16 characters, each `'0'` or
/// `'1'`.
pub open spec fn is_bin_line(l: Seq<char>) -> bool {
    l.len() == 16 && forall|k: int| 0 <= k < l.len() ==> (#[trigger] l[k] == '0' || l[k] == '1')
}

proof fn lemma_bin_of_chars(val: u16, k: nat)
    ensures
        bin_of(val, k).len() == k,
        forall|i: int|
            0 <= i < k ==> (#[trigger] bin_of(val, k)[i] == '0' || bin_of(val, k)[i] == '1'),
    decreases k,
{
    if k > 0 {
        lemma_bin_of_chars(val / 2, (k - 1) as nat);
    }
}

/// Every line of a successful resolution is exactly 16 characters of
/// `'0'` and `'1'`.
pub proof fn lemma_output_lines_wellformed(
    s: Seq<SpecInstr>,
    i: int,
    m: Map<Seq<char>, Option<usize>>,
    next: int,
)
    requires
        pass2(s, i, m, next) is Ok,
    ensures
        forall|k: int|
            0 <= k < pass2(s, i, m, next)->Ok_0.len() ==> is_bin_line(
                #[trigger] pass2(s, i, m, next)->Ok_0[k],
            ),
    decreases s.len() - i,
{
    if 0 <= i < s.len() {
        match s[i] {
            SpecInstr::Label(_) => {
                lemma_output_lines_wellformed(s, i + 1, m, next);
            },
            SpecInstr::Constant(w) => {
                lemma_output_lines_wellformed(s, i + 1, m, next);
                lemma_bin_of_chars(w, 15);
                assert(is_bin_line(addr_line(w)));
            },
            SpecInstr::Compute(c, d, jj) => {
                lemma_output_lines_wellformed(s, i + 1, m, next);
                lemma_bin_of_chars(c as u16, 7);
                lemma_bin_of_chars(d as u16, 3);
                lemma_bin_of_chars(jj as u16, 3);
                assert(is_bin_line(comp_line(c, d, jj)));
            },
            SpecInstr::Var(n2) => {
                if m.dom().contains(n2) && m[n2] is Some {
                    lemma_output_lines_wellformed(s, i + 1, m, next);
                    lemma_bin_of_chars(m[n2]->0 as u16, 15);
                    assert(is_bin_line(addr_line(m[n2]->0 as u16)));
                } else {
                    lemma_output_lines_wellformed(s, i + 1, m.insert(n2, Some(next as usize)), next + 1);
                    lemma_bin_of_chars(next as u16, 15);
                    assert(is_bin_line(addr_line(next as u16)));
                }
            },
        }
    }
}

/// The line pass 2 emits for a determined instruction: a constant
/// emits its own bits whatever the symbol table holds; a computation
/// emits its encoded codes; a variable already resolved to `a` emits
/// `a`'s address line at every one of its references — re-referencing
/// never re-allocates.
pub proof fn lemma_pass2_line_at(
    s: Seq<SpecInstr>,
    i: int,
    m: Map<Seq<char>, Option<usize>>,
    next: int,
    j: int,
)
    requires
        0 <= i <= j < s.len(),
        pass2(s, i, m, next) is Ok,
        match s[j] {
            SpecInstr::Constant(_) => true,
            SpecInstr::Compute(_, _, _) => true,
            SpecInstr::Var(n) => m.dom().contains(n) && (m[n] matches Some(a) && a < 32768),
            SpecInstr::Label(_) => false,
        },
    ensures
        pass2(s, i, m, next)->Ok_0[nonlabels_upto(s, i, j)] == (match s[j] {
            SpecInstr::Constant(w) => addr_line(w),
            SpecInstr::Compute(c, d, jj) => comp_line(c, d, jj),
            SpecInstr::Var(n) => addr_line(m[n]->0 as u16),
            SpecInstr::Label(_) => Seq::<char>::empty(),
        }),
    decreases j - i,
{
    lemma_nonlabels_upto_nonneg(s, i + 1, j);
    if i == j {
    } else {
        let k = nonlabels_upto(s, i + 1, j);
        lemma_nonlabels_split(s, i + 1, j);
        lemma_nonlabels_nonneg(s, j + 1);
        match s[i] {
            SpecInstr::Label(_) => {
                lemma_pass2_line_at(s, i + 1, m, next, j);
            },
            SpecInstr::Constant(_) => {
                lemma_pass2_line_at(s, i + 1, m, next, j);
                let line = addr_line(s[i]->Constant_0);
                let rest = pass2(s, i + 1, m, next)->Ok_0;
                lemma_pass2_len(s, i + 1, m, next);
                assert(pass2(s, i, m, next)->Ok_0 == seq![line] + rest);
                assert((seq![line] + rest)[1 + k] == rest[k]);
            },
            SpecInstr::Compute(cc, dd, jj2) => {
                lemma_pass2_line_at(s, i + 1, m, next, j);
                let line = comp_line(cc, dd, jj2);
                let rest = pass2(s, i + 1, m, next)->Ok_0;
                lemma_pass2_len(s, i + 1, m, next);
                assert(pass2(s, i, m, next)->Ok_0 == seq![line] + rest);
                assert((seq![line] + rest)[1 + k] == rest[k]);
            },
            SpecInstr::Var(n2) => {
                if m.dom().contains(n2) && m[n2] is Some {
                    lemma_pass2_line_at(s, i + 1, m, next, j);
                    let line = addr_line(m[n2]->0 as u16);
                    let rest = pass2(s, i + 1, m, next)->Ok_0;
                    lemma_pass2_len(s, i + 1, m, next);
                    assert(pass2(s, i, m, next)->Ok_0 == seq![line] + rest);
                    assert((seq![line] + rest)[1 + k] == rest[k]);
                } else {
                    let m2 = m.insert(n2, Some(next as usize));
                    lemma_pass2_line_at(s, i + 1, m2, next + 1, j);
                    let line = addr_line(next as u16);
                    let rest = pass2(s, i + 1, m2, next + 1)->Ok_0;
                    lemma_pass2_len(s, i + 1, m2, next + 1);
                    assert(pass2(s, i, m, next)->Ok_0 == seq![line] + rest);
                    assert((seq![line] + rest)[1 + k] == rest[k]);
                }
            },
        }
    }
}

/// Whether `x` references a variable that `m` has not resolved — the
/// references that make pass 2 allocate a fresh address.
pub open spec fn is_fresh_var(x: SpecInstr, m: Map<Seq<char>, Option<usize>>) -> bool {
    x matches SpecInstr::Var(n) && !(m.dom().contains(n) && m[n] is Some)
}

/// The first reference to a not-yet-resolved variable is allocated the
/// current next-free address — at the top level, 16.
pub proof fn lemma_first_fresh_var_gets_next(
    s: Seq<SpecInstr>,
    i: int,
    m: Map<Seq<char>, Option<usize>>,
    next: int,
    j: int,
)
    requires
        0 <= i <= j < s.len(),
        pass2(s, i, m, next) is Ok,
        is_fresh_var(s[j], m),
        forall|j2: int| i <= j2 < j ==> !is_fresh_var(#[trigger] s[j2], m),
        0 <= next < 32768,
    ensures
        pass2(s, i, m, next)->Ok_0[nonlabels_upto(s, i, j)] == addr_line(next as u16),
    decreases j - i,
{
    lemma_nonlabels_upto_nonneg(s, i + 1, j);
    if i == j {
    } else {
        let k = nonlabels_upto(s, i + 1, j);
        lemma_nonlabels_split(s, i + 1, j);
        lemma_nonlabels_nonneg(s, j + 1);
        match s[i] {
            SpecInstr::Label(_) => {
                lemma_first_fresh_var_gets_next(s, i + 1, m, next, j);
            },
            SpecInstr::Constant(_) => {
                lemma_first_fresh_var_gets_next(s, i + 1, m, next, j);
                let line = addr_line(s[i]->Constant_0);
                let rest = pass2(s, i + 1, m, next)->Ok_0;
                lemma_pass2_len(s, i + 1, m, next);
                assert(pass2(s, i, m, next)->Ok_0 == seq![line] + rest);
                assert((seq![line] + rest)[1 + k] == rest[k]);
            },
            SpecInstr::Compute(cc, dd, jj2) => {
                lemma_first_fresh_var_gets_next(s, i + 1, m, next, j);
                let line = comp_line(cc, dd, jj2);
                let rest = pass2(s, i + 1, m, next)->Ok_0;
                lemma_pass2_len(s, i + 1, m, next);
                assert(pass2(s, i, m, next)->Ok_0 == seq![line] + rest);
                assert((seq![line] + rest)[1 + k] == rest[k]);
            },
            SpecInstr::Var(n2) => {
                assert(!is_fresh_var(s[i], m));
                lemma_first_fresh_var_gets_next(s, i + 1, m, next, j);
                let line = addr_line(m[n2]->0 as u16);
                let rest = pass2(s, i + 1, m, next)->Ok_0;
                lemma_pass2_len(s, i + 1, m, next);
                assert(pass2(s, i, m, next)->Ok_0 == seq![line] + rest);
                assert((seq![line] + rest)[1 + k] == rest[k]);
            },
        }
    }
}

} // verus!
