//! The mathematical model of the instruction classifier and of the
//! compute-instruction parser.
//!
//! [`spec_instr`] says, for a position already past whitespace and
//! comments, which instruction begins there, where it ends, or which
//! fault it raises.  [`spec_parse`] iterates it over the whole text.

use vstd::prelude::*;
use crate::scan::{
    SENTINEL, is_digit, skip_end, sym_end, dest_end, comp_end, lemma_skip_end_bounds,
    lemma_sym_end_bounds, lemma_dest_end_bounds, lemma_comp_end_bounds,
};
use crate::tables::{dest_code, comp_code, jump_code};
use crate::instr::{AsmErrorKind, SpecErr, SpecInstr, SpecStep};

verus! {

/// Whether every character of `s` is a decimal digit.
pub open spec fn all_digits(s: Seq<char>) -> bool {
    forall|i: int| 0 <= i < s.len() ==> is_digit(#[trigger] s[i])
}

/// The numeric value of a digit string.
pub open spec fn digits_val(s: Seq<char>) -> int
    decreases s.len(),
{
    if s.len() == 0 {
        0
    } else {
        digits_val(s.drop_last()) * 10 + (s.last() as u32 - '0' as u32)
    }
}

/// The value of a digit string is never negative.
pub proof fn lemma_digits_val_nonneg(s: Seq<char>)
    requires
        all_digits(s),
    ensures
        digits_val(s) >= 0,
    decreases s.len(),
{
    if s.len() > 0 {
        assert(all_digits(s.drop_last())) by {
            assert(forall|i: int|
                0 <= i < s.len() - 1 ==> s.drop_last()[i] == #[trigger] s[i]);
        }
        lemma_digits_val_nonneg(s.drop_last());
        assert(is_digit(s.last()));
    }
}

/// The model of the compute-instruction parser at position `q`.
///
/// The destination is read by speculative lookahead: the greedy scan of
/// destination characters counts only if an `'='` follows it; otherwise
/// the computation starts at `q` itself.  The computation is a greedy
/// scan of computation characters; a `';'` after it is consumed and
/// announces a jump mnemonic of exactly three characters starting with
/// `'J'`.
pub open spec fn spec_compute(t: Seq<char>, q: int) -> SpecStep
    recommends
        0 <= q < t.len(),
{
    let de = dest_end(t, q);
    let committed = de < t.len() && t[de] == '=';
    let dtok: Seq<char> = if committed {
        t.subrange(q, de)
    } else {
        Seq::empty()
    };
    let cs = if committed {
        de + 1
    } else {
        q
    };
    match dest_code(dtok) {
        None => SpecStep::Fail(SpecErr { kind: AsmErrorKind::UnknownDestination, token: dtok }),
        Some(d) => {
            let ce = comp_end(t, cs);
            let ctok = t.subrange(cs, ce);
            if ctok.len() == 0 {
                SpecStep::Fail(SpecErr { kind: AsmErrorKind::EmptyComputation, token: ctok })
            } else {
                match comp_code(ctok) {
                    None => SpecStep::Fail(
                        SpecErr { kind: AsmErrorKind::UnknownComputation, token: ctok },
                    ),
                    Some(c) => {
                        let js = if ce < t.len() && t[ce] == ';' {
                            ce + 1
                        } else {
                            ce
                        };
                        if js < t.len() && t[js] == 'J' {
                            let je = if js + 3 <= t.len() {
                                js + 3
                            } else {
                                t.len() as int
                            };
                            let jtok = t.subrange(js, je);
                            match jump_code(jtok) {
                                None => SpecStep::Fail(
                                    SpecErr { kind: AsmErrorKind::UnknownJump, token: jtok },
                                ),
                                Some(j) => SpecStep::Next(SpecInstr::Compute(c, d, j), je),
                            }
                        } else {
                            SpecStep::Next(SpecInstr::Compute(c, d, 0), js)
                        }
                    },
                }
            }
        },
    }
}

/// The model of the instruction classifier at position `q`, which must
/// already stand past whitespace and comments.
pub open spec fn spec_instr(t: Seq<char>, q: int) -> SpecStep
    recommends
        0 <= q <= t.len(),
{
    if q >= t.len() || t[q] == SENTINEL {
        SpecStep::Done
    } else if t[q] == '@' {
        let se = sym_end(t, q + 1);
        let tok = t.subrange(q + 1, se);
        if tok.len() > 0 && all_digits(tok) {
            if digits_val(tok) <= 32767 {
                SpecStep::Next(SpecInstr::Constant(digits_val(tok) as u16), se)
            } else {
                SpecStep::Fail(SpecErr { kind: AsmErrorKind::AddressOutOfRange, token: tok })
            }
        } else {
            SpecStep::Next(SpecInstr::Var(tok), se)
        }
    } else if t[q] == '(' {
        let se = sym_end(t, q + 1);
        let tok = t.subrange(q + 1, se);
        if se < t.len() && t[se] == ')' {
            SpecStep::Next(SpecInstr::Label(tok), se + 1)
        } else {
            SpecStep::Fail(
                SpecErr {
                    kind: AsmErrorKind::MalformedLabel,
                    token: if se < t.len() {
                        seq![t[se]]
                    } else {
                        Seq::empty()
                    },
                },
            )
        }
    } else {
        spec_compute(t, q)
    }
}

/// An instruction step at `q` always lands strictly past `q`, and
/// never past the end of the text.
pub proof fn lemma_spec_instr_advances(t: Seq<char>, q: int)
    requires
        0 <= q <= t.len(),
    ensures
        spec_instr(t, q) matches SpecStep::Next(ins, e) ==> q < e <= t.len(),
{
    if q < t.len() && t[q] != SENTINEL {
        if t[q] == '@' || t[q] == '(' {
            lemma_sym_end_bounds(t, q + 1);
        } else {
            lemma_dest_end_bounds(t, q);
            let de = dest_end(t, q);
            let committed = de < t.len() && t[de] == '=';
            let cs = if committed {
                de + 1
            } else {
                q
            };
            lemma_comp_end_bounds(t, cs);
        }
    }
}

/// The structured instruction stream of the text from position `p` on:
/// skip whitespace and comments, classify one instruction, repeat until
/// end of input; stop at the first fault.
pub open spec fn spec_parse(t: Seq<char>, p: int) -> Result<Seq<SpecInstr>, SpecErr>
    decreases t.len() - p,
    when 0 <= p <= t.len()
    via lemma_spec_parse_decreases
{
    let q = skip_end(t, p);
    match spec_instr(t, q) {
        SpecStep::Done => Ok(Seq::empty()),
        SpecStep::Fail(e) => Err(e),
        SpecStep::Next(ins, e) => match spec_parse(t, e) {
            Ok(rest) => Ok(seq![ins] + rest),
            Err(err) => Err(err),
        },
    }
}

#[via_fn]
proof fn lemma_spec_parse_decreases(t: Seq<char>, p: int) {
    lemma_skip_end_bounds(t, p);
    lemma_spec_instr_advances(t, skip_end(t, p));
}

/// Every instruction a successful parse yields is well formed.
pub proof fn lemma_spec_parse_wf(t: Seq<char>, p: int)
    requires
        0 <= p <= t.len(),
    ensures
        spec_parse(t, p) matches Ok(instrs) ==> forall|i: int|
            0 <= i < instrs.len() ==> crate::instr::wf_instr(#[trigger] instrs[i]),
    decreases t.len() - p,
{
    let q = skip_end(t, p);
    lemma_skip_end_bounds(t, p);
    lemma_spec_instr_advances(t, q);
    match spec_instr(t, q) {
        SpecStep::Next(ins, e) => {
            lemma_spec_parse_wf(t, e);
            assert(crate::instr::wf_instr(ins)) by {
                if q < t.len() && t[q] == '@' {
                    let tok = t.subrange(q + 1, sym_end(t, q + 1));
                    if tok.len() > 0 && all_digits(tok) {
                        lemma_digits_val_nonneg(tok);
                    }
                }
                if q < t.len() && t[q] != SENTINEL && t[q] != '@' && t[q] != '(' {
                    crate::tables::lemma_code_ranges(Seq::empty());
                    let de = dest_end(t, q);
                    let committed = de < t.len() && t[de] == '=';
                    let dtok: Seq<char> = if committed {
                        t.subrange(q, de)
                    } else {
                        Seq::empty()
                    };
                    let cs = if committed {
                        de + 1
                    } else {
                        q
                    };
                    let ce = comp_end(t, cs);
                    let js = if ce < t.len() && t[ce] == ';' {
                        ce + 1
                    } else {
                        ce
                    };
                    let je = if js + 3 <= t.len() {
                        js + 3
                    } else {
                        t.len() as int
                    };
                    crate::tables::lemma_code_ranges(dtok);
                    crate::tables::lemma_code_ranges(t.subrange(cs, ce));
                    if js < t.len() && t[js] == 'J' {
                        crate::tables::lemma_code_ranges(t.subrange(js, je));
                    }
                }
            };
        },
        _ => {},
    }
}

} // verus!
