//! The two-pass assembler.
//!
//! Pass 1 ([`HackAssembler::assemble_program`]'s loop) classifies the
//! text into structured instructions, binds every label to the address
//! of the instruction that follows it, and registers referenced symbols.
//! Pass 2 ([`HackAssembler::resolve_symbols`]) walks the captured
//! instruction list again, allocates addresses (from 16 on) to still
//! unresolved variables in first-reference order, and emits one
//! 16-character binary line per non-label instruction.

use vstd::prelude::*;
use vstd::string::StrSliceExecFns;
use crate::scan::{SENTINEL, skip_end, sym_end, lemma_skip_end_bounds};
use crate::encode::{addr_line, comp_line, make_addr_line, make_comp_line};
use crate::tables::{builtins, lookup_dest, lookup_comp, lookup_jump};
use crate::instr::{AsmError, AsmErrorKind, SpecErr, SpecInstr, SpecStep, Instruction, wf_instr};
use crate::parse::{
    all_digits, digits_val, lemma_digits_val_nonneg, spec_compute, spec_instr, spec_parse,
    lemma_spec_instr_advances, lemma_spec_parse_wf,
};
use crate::symtab::SymbolTable;

verus! {

/// The sequence of models of a sequence of instructions.
pub open spec fn instr_views(s: Seq<Instruction>) -> Seq<SpecInstr> {
    Seq::new(s.len(), |i: int| s[i]@)
}

/// The sequence of views of a sequence of output lines.
pub open spec fn line_views(s: Seq<String>) -> Seq<Seq<char>> {
    Seq::new(s.len(), |i: int| s[i]@)
}

/// The character the cursor shows at position `p`: the text's
/// character, or the sentinel at end of input.
pub open spec fn peek_at(t: Seq<char>, p: int) -> char {
    if 0 <= p < t.len() {
        t[p]
    } else {
        SENTINEL
    }
}

/// The effect of one instruction on the symbol table during pass 1:
/// a label is bound to the current instruction address (overwriting any
/// earlier binding); a referenced symbol not yet present is registered
/// unresolved; everything else leaves the table unchanged.
pub open spec fn reg_step(
    m: Map<Seq<char>, Option<usize>>,
    ins: SpecInstr,
    ctr: int,
) -> Map<Seq<char>, Option<usize>> {
    match ins {
        SpecInstr::Label(n) => m.insert(n, Some(ctr as usize)),
        SpecInstr::Var(n) => if m.dom().contains(n) {
            m
        } else {
            m.insert(n, None)
        },
        _ => m,
    }
}

/// How many instructions of `s`, from index `i` on, are not labels.
pub open spec fn nonlabels(s: Seq<SpecInstr>, i: int) -> int
    decreases s.len() - i,
{
    if i < 0 || i >= s.len() {
        0
    } else {
        (if s[i] is Label {
            0int
        } else {
            1int
        }) + nonlabels(s, i + 1)
    }
}

/// The symbol table after pass 1 has processed `s` from index `i` on,
/// starting from table `m` with instruction address counter `ctr`.
pub open spec fn pass1(
    s: Seq<SpecInstr>,
    i: int,
    m: Map<Seq<char>, Option<usize>>,
    ctr: int,
) -> Map<Seq<char>, Option<usize>>
    decreases s.len() - i,
{
    if i < 0 || i >= s.len() {
        m
    } else {
        pass1(
            s,
            i + 1,
            reg_step(m, s[i], ctr),
            ctr + (if s[i] is Label {
                0int
            } else {
                1int
            }),
        )
    }
}

/// Prepends one output line to the result of the rest of pass 2.
pub open spec fn prepend(line: Seq<char>, rest: Result<Seq<Seq<char>>, SpecErr>) -> Result<
    Seq<Seq<char>>,
    SpecErr,
> {
    match rest {
        Ok(ls) => Ok(seq![line] + ls),
        Err(e) => Err(e),
    }
}

/// Pass 2 over `s` from index `i` on: table `m`, next free variable
/// address `next`.  Constants and computations emit their precomputed
/// encoding; labels emit nothing; a variable emits its resolved
/// address, or is allocated the next free address.  An address outside
/// the 15-bit range aborts the run.
pub open spec fn pass2(
    s: Seq<SpecInstr>,
    i: int,
    m: Map<Seq<char>, Option<usize>>,
    next: int,
) -> Result<Seq<Seq<char>>, SpecErr>
    decreases s.len() - i,
{
    if i < 0 || i >= s.len() {
        Ok(Seq::empty())
    } else {
        match s[i] {
            SpecInstr::Constant(w) => prepend(addr_line(w), pass2(s, i + 1, m, next)),
            SpecInstr::Compute(c, d, j) => prepend(comp_line(c, d, j), pass2(s, i + 1, m, next)),
            SpecInstr::Label(_) => pass2(s, i + 1, m, next),
            SpecInstr::Var(n) => {
                if m.dom().contains(n) && m[n] is Some {
                    let a = m[n]->0;
                    if a < 32768 {
                        prepend(addr_line(a as u16), pass2(s, i + 1, m, next))
                    } else {
                        Err(SpecErr { kind: AsmErrorKind::AddressOutOfRange, token: n })
                    }
                } else {
                    if next < 32768 {
                        prepend(
                            addr_line(next as u16),
                            pass2(s, i + 1, m.insert(n, Some(next as usize)), next + 1),
                        )
                    } else {
                        Err(SpecErr { kind: AsmErrorKind::AddressOutOfRange, token: n })
                    }
                }
            },
        }
    }
}

/// The whole assembly of a text: classify every instruction, then
/// resolve and emit.  Pass 1 starts from the built-in symbols with the
/// instruction address counter at zero; pass 2 allocates variable
/// addresses from 16 on.
pub open spec fn spec_assemble(t: Seq<char>) -> Result<Seq<Seq<char>>, SpecErr> {
    match spec_parse(t, 0) {
        Err(e) => Err(e),
        Ok(instrs) => pass2(instrs, 0, pass1(instrs, 0, builtins(), 0), 16),
    }
}

/// Appending one instruction to a prefix extends pass 1's table by one
/// registration step, taken at the prefix's non-label count.
pub proof fn lemma_pass1_push(s: Seq<SpecInstr>, x: SpecInstr, i: int, m: Map<
    Seq<char>,
    Option<usize>,
>, ctr: int)
    requires
        0 <= i <= s.len(),
    ensures
        pass1(s.push(x), i, m, ctr) == reg_step(pass1(s, i, m, ctr), x, ctr + nonlabels(s, i)),
    decreases s.len() - i,
{
    if i == s.len() {
        assert(s.push(x)[i] == x);
        assert(pass1(s.push(x), i + 1, reg_step(m, x, ctr), ctr + (if x is Label {
            0int
        } else {
            1int
        })) == reg_step(m, x, ctr));
    } else {
        assert(s.push(x)[i] == s[i]);
        lemma_pass1_push(
            s,
            x,
            i + 1,
            reg_step(m, s[i], ctr),
            ctr + (if s[i] is Label {
                0int
            } else {
                1int
            }),
        );
    }
}

/// Appending one instruction adds its own contribution to the
/// non-label count.
pub proof fn lemma_nonlabels_push(s: Seq<SpecInstr>, x: SpecInstr, i: int)
    requires
        0 <= i <= s.len(),
    ensures
        nonlabels(s.push(x), i) == nonlabels(s, i) + (if x is Label {
            0int
        } else {
            1int
        }),
    decreases s.len() - i,
{
    if i == s.len() {
        assert(s.push(x)[i] == x);
        assert(nonlabels(s.push(x), i) == (if x is Label {
            0int
        } else {
            1int
        }) + nonlabels(s.push(x), i + 1));
        assert(nonlabels(s.push(x), i + 1) == 0);
    } else {
        assert(s.push(x)[i] == s[i]);
        lemma_nonlabels_push(s, x, i + 1);
        assert(nonlabels(s.push(x), i) == (if s[i] is Label {
            0int
        } else {
            1int
        }) + nonlabels(s.push(x), i + 1));
        assert(nonlabels(s, i) == (if s[i] is Label {
            0int
        } else {
            1int
        }) + nonlabels(s, i + 1));
    }
}

/// Relies on `String`'s `FromIterator` over `char`: collecting an
/// iterator of characters yields the string of exactly those
/// characters, in order.
#[verifier::external_body]
fn chars_to_string(v: &Vec<char>) -> (s: String)
    ensures
        s@ == v@,
{
    v.iter().collect()
}

/// Builds the character vector of a string slice.
fn str_chars(s: &str) -> (v: Vec<char>)
    ensures
        v@ == s@,
{
    let n = s.unicode_len();
    let mut v: Vec<char> = Vec::new();
    let mut i: usize = 0;
    while i < n
        invariant
            i <= n,
            n == s@.len(),
            v@ == s@.take(i as int),
        decreases n - i,
    {
        let c = s.get_char(i);
        v.push(c);
        proof {
            assert(s@.take(i as int + 1) =~= s@.take(i as int).push(s@[i as int]));
        }
        i = i + 1;
    }
    proof {
        assert(s@.take(n as int) =~= s@);
    }
    v
}

/// The two-pass assembler over one text buffer.
pub struct HackAssembler<'a> {
    text: &'a str,
    text_len: usize,
    pos: usize,
    symbol_table: SymbolTable,
    current_instruction_address: usize,
}

impl<'a> HackAssembler<'a> {
    /// The text being assembled.
    pub closed spec fn text_view(&self) -> Seq<char> {
        self.text@
    }

    pub closed spec fn wf(&self) -> bool {
        &&& self.text_len == self.text@.len()
        &&& self.pos <= self.text_len
        &&& self.symbol_table.wf()
    }

    /// A freshly created assembler: cursor at the start, counter at
    /// zero, table holding exactly the built-in symbols.
    pub closed spec fn is_fresh(&self) -> bool {
        &&& self.wf()
        &&& self.pos == 0
        &&& self.current_instruction_address == 0
        &&& self.symbol_table@ == builtins()
    }

    /// Creates an assembler for `text`, its symbol table pre-seeded
    /// with the built-in symbols.
    pub fn new(text: &str) -> (a: HackAssembler)
        ensures
            a.is_fresh(),
            a.text_view() == text@,
    {
        let mut symbol_table = SymbolTable::new();
        proof {
            lemma_builtin_name_views();
        }
        symbol_table.insert(str_chars("R0"), Some(0));
        symbol_table.insert(str_chars("R1"), Some(1));
        symbol_table.insert(str_chars("R2"), Some(2));
        symbol_table.insert(str_chars("R3"), Some(3));
        symbol_table.insert(str_chars("R4"), Some(4));
        symbol_table.insert(str_chars("R5"), Some(5));
        symbol_table.insert(str_chars("R6"), Some(6));
        symbol_table.insert(str_chars("R7"), Some(7));
        symbol_table.insert(str_chars("R8"), Some(8));
        symbol_table.insert(str_chars("R9"), Some(9));
        symbol_table.insert(str_chars("R10"), Some(10));
        symbol_table.insert(str_chars("R11"), Some(11));
        symbol_table.insert(str_chars("R12"), Some(12));
        symbol_table.insert(str_chars("R13"), Some(13));
        symbol_table.insert(str_chars("R14"), Some(14));
        symbol_table.insert(str_chars("R15"), Some(15));
        symbol_table.insert(str_chars("SP"), Some(0));
        symbol_table.insert(str_chars("LCL"), Some(1));
        symbol_table.insert(str_chars("ARG"), Some(2));
        symbol_table.insert(str_chars("THIS"), Some(3));
        symbol_table.insert(str_chars("THAT"), Some(4));
        symbol_table.insert(str_chars("SCREEN"), Some(16384));
        symbol_table.insert(str_chars("KBD"), Some(24576));
        proof {
            assert(symbol_table@ =~= builtins());
        }
        HackAssembler {
            text,
            text_len: text.unicode_len(),
            pos: 0,
            symbol_table,
            current_instruction_address: 0,
        }
    }
}

/// Everything but the cursor position is the same in both states.
spec fn keeps_frame(a: &HackAssembler, b: &HackAssembler) -> bool {
    &&& a.text@ == b.text@
    &&& a.text_len == b.text_len
    &&& a.symbol_table == b.symbol_table
    &&& a.current_instruction_address == b.current_instruction_address
}

impl<'a> HackAssembler<'a> {
    /// Returns the next character without consuming it; the sentinel at
    /// end of input.
    fn peek(&self) -> (c: char)
        requires
            self.wf(),
        ensures
            c == peek_at(self.text@, self.pos as int),
    {
        if self.pos < self.text_len {
            self.text.get_char(self.pos)
        } else {
            '\0'
        }
    }

    /// Looks one character past the next one.
    fn peek_next(&self) -> (c: char)
        requires
            self.wf(),
        ensures
            c == peek_at(self.text@, self.pos as int + 1),
    {
        if self.text_len - self.pos >= 2 {
            self.text.get_char(self.pos + 1)
        } else {
            '\0'
        }
    }

    /// Consumes and returns the next character; at end of input it
    /// returns the sentinel and stands still.
    fn advance(&mut self) -> (c: char)
        requires
            old(self).wf(),
        ensures
            final(self).wf(),
            keeps_frame(old(self), final(self)),
            c == peek_at(old(self).text@, old(self).pos as int),
            final(self).pos as int == if old(self).pos < old(self).text@.len() {
                old(self).pos + 1
            } else {
                old(self).pos as int
            },
    {
        if self.pos < self.text_len {
            let c = self.text.get_char(self.pos);
            self.pos = self.pos + 1;
            c
        } else {
            '\0'
        }
    }

    /// Consumes whitespace and `//` line comments; stops at the first
    /// character that is neither.
    fn skip_whitespace(&mut self)
        requires
            old(self).wf(),
        ensures
            final(self).wf(),
            keeps_frame(old(self), final(self)),
            final(self).pos as int == skip_end(old(self).text@, old(self).pos as int),
    {
        let ghost t = old(self).text@;
        let ghost p0 = old(self).pos as int;
        let mut in_comment: bool = false;
        loop
            invariant
                self.wf(),
                keeps_frame(old(self), self),
                t == self.text@,
                0 <= p0,
                p0 <= self.pos as int <= t.len(),
                crate::scan::skip_ws_from(t, p0, false) == crate::scan::skip_ws_from(
                    t,
                    self.pos as int,
                    in_comment,
                ),
            ensures
                self.wf(),
                keeps_frame(old(self), self),
                self.pos as int == skip_end(t, p0),
            decreases t.len() - self.pos + (if in_comment {
                1int
            } else {
                0int
            }),
        {
            if in_comment {
                if self.pos >= self.text_len {
                    break;
                }
                let c = self.advance();
                if c == '\n' || c == '\0' {
                    in_comment = false;
                }
            } else {
                let c = self.peek();
                if c == ' ' || c == '\t' || c == '\r' || c == '\n' {
                    self.advance();
                } else if c == '/' && self.peek_next() == '/' {
                    self.advance();
                    self.advance();
                    in_comment = true;
                } else {
                    break;
                }
            }
        }
    }

    /// Reads a symbol token: the greedy run of letters, digits and
    /// underscores at the cursor.
    fn symbol(&mut self) -> (tok: Vec<char>)
        requires
            old(self).wf(),
        ensures
            final(self).wf(),
            keeps_frame(old(self), final(self)),
            final(self).pos as int == sym_end(old(self).text@, old(self).pos as int),
            tok@ == old(self).text@.subrange(old(self).pos as int, final(self).pos as int),
    {
        let ghost t = old(self).text@;
        let ghost p0 = old(self).pos as int;
        let mut tok: Vec<char> = Vec::new();
        loop
            invariant
                self.wf(),
                keeps_frame(old(self), self),
                t == self.text@,
                0 <= p0,
                p0 <= self.pos as int <= t.len(),
                sym_end(t, p0) == sym_end(t, self.pos as int),
                tok@ == t.subrange(p0, self.pos as int),
            ensures
                self.wf(),
                keeps_frame(old(self), self),
                self.pos as int == sym_end(t, p0),
                tok@ == t.subrange(p0, self.pos as int),
            decreases t.len() - self.pos,
        {
            let c = self.peek();
            let sym = (c >= 'a' && c <= 'z') || (c >= 'A' && c <= 'Z') || (c >= '0' && c <= '9')
                || c == '_';
            if sym {
                let c2 = self.advance();
                tok.push(c2);
                proof {
                    assert(tok@ =~= t.subrange(p0, self.pos as int));
                }
            } else {
                break;
            }
        }
        tok
    }

    /// Consumes one character that must be `expect`; any other
    /// character (or end of input) is a malformed label declaration.
    fn eat(&mut self, expect: char) -> (r: Result<(), AsmError>)
        requires
            old(self).wf(),
        ensures
            final(self).wf(),
            keeps_frame(old(self), final(self)),
            final(self).pos as int == if old(self).pos < old(self).text@.len() {
                old(self).pos + 1
            } else {
                old(self).pos as int
            },
            r is Ok <==> peek_at(old(self).text@, old(self).pos as int) == expect,
            r matches Err(e) ==> e.kind == AsmErrorKind::MalformedLabel && e.token@ == (
            if old(self).pos < old(self).text@.len() {
                seq![old(self).text@[old(self).pos as int]]
            } else {
                Seq::<char>::empty()
            }),
    {
        let at_end = self.pos >= self.text_len;
        let c = self.advance();
        if c == expect {
            Ok(())
        } else {
            let mut tokv: Vec<char> = Vec::new();
            if !at_end {
                tokv.push(c);
            }
            Err(AsmError { kind: AsmErrorKind::MalformedLabel, token: chars_to_string(&tokv) })
        }
    }

    /// Speculatively reads a destination mnemonic: the greedy run of
    /// destination characters counts only if `'='` follows; otherwise
    /// the cursor rolls back and the destination is empty.
    fn parse_dest(&mut self) -> (tok: Vec<char>)
        requires
            old(self).wf(),
        ensures
            final(self).wf(),
            keeps_frame(old(self), final(self)),
            ({
                let t = old(self).text@;
                let p0 = old(self).pos as int;
                let de = crate::scan::dest_end(t, p0);
                if de < t.len() && t[de] == '=' {
                    tok@ == t.subrange(p0, de) && final(self).pos as int == de + 1
                } else {
                    tok@ == Seq::<char>::empty() && final(self).pos == old(self).pos
                }
            }),
    {
        let ghost t = old(self).text@;
        let ghost p0 = old(self).pos as int;
        let start = self.pos;
        let mut tok: Vec<char> = Vec::new();
        loop
            invariant
                self.wf(),
                keeps_frame(old(self), self),
                t == self.text@,
                start == old(self).pos,
                p0 == old(self).pos as int,
                p0 <= self.pos as int <= t.len(),
                crate::scan::dest_end(t, p0) == crate::scan::dest_end(t, self.pos as int),
                tok@ == t.subrange(p0, self.pos as int),
            decreases t.len() - self.pos,
        {
            let c = self.peek();
            if c == 'A' || c == 'D' || c == 'M' {
                let c2 = self.advance();
                tok.push(c2);
                proof {
                    assert(tok@ =~= t.subrange(p0, self.pos as int));
                }
            } else if c == '=' {
                self.advance();
                return tok;
            } else {
                self.pos = start;
                return Vec::new();
            }
        }
    }

    /// Reads a computation mnemonic: the greedy run of computation
    /// characters; a `';'` after it is consumed and discarded.
    fn parse_comp(&mut self) -> (tok: Vec<char>)
        requires
            old(self).wf(),
        ensures
            final(self).wf(),
            keeps_frame(old(self), final(self)),
            ({
                let t = old(self).text@;
                let p0 = old(self).pos as int;
                let ce = crate::scan::comp_end(t, p0);
                tok@ == t.subrange(p0, ce) && final(self).pos as int == (if ce < t.len() && t[ce]
                    == ';' {
                    ce + 1
                } else {
                    ce
                })
            }),
    {
        let ghost t = old(self).text@;
        let ghost p0 = old(self).pos as int;
        let mut tok: Vec<char> = Vec::new();
        loop
            invariant
                self.wf(),
                keeps_frame(old(self), self),
                t == self.text@,
                0 <= p0,
                p0 == old(self).pos as int,
                p0 <= self.pos as int <= t.len(),
                crate::scan::comp_end(t, p0) == crate::scan::comp_end(t, self.pos as int),
                tok@ == t.subrange(p0, self.pos as int),
            decreases t.len() - self.pos,
        {
            let c = self.peek();
            let comp = c == '0' || c == '1' || c == '-' || c == '+' || c == '!' || c == '&' || c
                == '|' || c == 'A' || c == 'D' || c == 'M';
            if comp {
                let c2 = self.advance();
                tok.push(c2);
                proof {
                    assert(tok@ =~= t.subrange(p0, self.pos as int));
                }
            } else if c == ';' {
                self.advance();
                return tok;
            } else {
                return tok;
            }
        }
    }

    /// Reads a jump mnemonic: three characters when the cursor stands
    /// on `'J'` (fewer only at end of input), nothing otherwise.
    fn parse_jump(&mut self) -> (tok: Vec<char>)
        requires
            old(self).wf(),
        ensures
            final(self).wf(),
            keeps_frame(old(self), final(self)),
            ({
                let t = old(self).text@;
                let p0 = old(self).pos as int;
                if p0 < t.len() && t[p0] == 'J' {
                    let je = if p0 + 3 <= t.len() {
                        p0 + 3
                    } else {
                        t.len() as int
                    };
                    tok@ == t.subrange(p0, je) && final(self).pos as int == je
                } else {
                    tok@ == Seq::<char>::empty() && final(self).pos == old(self).pos
                }
            }),
    {
        let ghost t = old(self).text@;
        let ghost p0 = old(self).pos as int;
        let mut tok: Vec<char> = Vec::new();
        let c = self.peek();
        if c == 'J' {
            let c1 = self.advance();
            tok.push(c1);
            if self.pos < self.text_len {
                let c2 = self.advance();
                tok.push(c2);
            }
            if self.pos < self.text_len {
                let c3 = self.advance();
                tok.push(c3);
            }
            proof {
                let je = if p0 + 3 <= t.len() {
                    p0 + 3
                } else {
                    t.len() as int
                };
                assert(tok@ =~= t.subrange(p0, je));
            }
            tok
        } else {
            tok
        }
    }
}

/// Copies a character vector.
fn copy_chars(v: &Vec<char>) -> (r: Vec<char>)
    ensures
        r@ == v@,
{
    let mut r: Vec<char> = Vec::new();
    let mut i: usize = 0;
    while i < v.len()
        invariant
            i <= v@.len(),
            r@ == v@.take(i as int),
        decreases v@.len() - i,
    {
        r.push(v[i]);
        proof {
            assert(v@.take(i as int + 1) =~= v@.take(i as int).push(v@[i as int]));
        }
        i = i + 1;
    }
    proof {
        assert(v@.take(v@.len() as int) =~= v@);
    }
    r
}

/// Reads a token as a decimal number, clamped at 32768: `None` when
/// the token is empty or holds a non-digit.
fn parse_number(tok: &Vec<char>) -> (r: Option<u32>)
    ensures
        r is Some <==> (tok@.len() > 0 && all_digits(tok@)),
        r matches Some(v) ==> v as int == (if digits_val(tok@) <= 32767 {
            digits_val(tok@)
        } else {
            32768int
        }),
{
    if tok.len() == 0 {
        return None;
    }
    let mut val: u32 = 0;
    let mut i: usize = 0;
    while i < tok.len()
        invariant
            i <= tok@.len(),
            all_digits(tok@.take(i as int)),
            val <= 32768,
            val as int == (if digits_val(tok@.take(i as int)) <= 32767 {
                digits_val(tok@.take(i as int))
            } else {
                32768int
            }),
        decreases tok@.len() - i,
    {
        let c = tok[i];
        if c < '0' || c > '9' {
            proof {
                assert(!crate::scan::is_digit(tok@[i as int]));
            }
            return None;
        }
        let d: u32 = (c as u32) - 48;
        proof {
            assert(tok@.take(i as int + 1).drop_last() =~= tok@.take(i as int));
            assert(tok@.take(i as int + 1).last() == tok@[i as int]);
            lemma_digits_val_nonneg(tok@.take(i as int));
        }
        val = val * 10 + d;
        if val > 32768 {
            val = 32768;
        }
        proof {
            assert(all_digits(tok@.take(i as int + 1))) by {
                assert(forall|k: int|
                    0 <= k < i as int + 1 ==> tok@.take(i as int + 1)[k] == #[trigger] tok@[k]);
            }
        }
        i = i + 1;
    }
    proof {
        assert(tok@.take(tok@.len() as int) =~= tok@);
    }
    Some(val)
}

impl<'a> HackAssembler<'a> {
    /// Parses and encodes one computation instruction
    /// (`[dest=]comp[;jump]`) at the cursor.
    fn compute_instruction(&mut self) -> (r: Result<Instruction, AsmError>)
        requires
            old(self).wf(),
        ensures
            final(self).wf(),
            keeps_frame(old(self), final(self)),
            ({
                let t = old(self).text@;
                let q = old(self).pos as int;
                match spec_compute(t, q) {
                    SpecStep::Next(ins, e) => r matches Ok(i) && i@ == ins
                        && final(self).pos as int == e,
                    SpecStep::Fail(err) => r matches Err(e) && e.kind == err.kind && e.token@
                        == err.token,
                    SpecStep::Done => false,
                }
            }),
    {
        let ghost t = self.text@;
        let ghost q = self.pos as int;
        let dest = self.parse_dest();
        let d = match lookup_dest(&dest) {
            Some(d) => d,
            None => {
                return Err(
                    AsmError {
                        kind: AsmErrorKind::UnknownDestination,
                        token: chars_to_string(&dest),
                    },
                );
            },
        };
        let comp = self.parse_comp();
        if comp.len() == 0 {
            return Err(
                AsmError { kind: AsmErrorKind::EmptyComputation, token: chars_to_string(&comp) },
            );
        }
        let c = match lookup_comp(&comp) {
            Some(c) => c,
            None => {
                return Err(
                    AsmError {
                        kind: AsmErrorKind::UnknownComputation,
                        token: chars_to_string(&comp),
                    },
                );
            },
        };
        let jump = self.parse_jump();
        let j = match lookup_jump(&jump) {
            Some(j) => j,
            None => {
                return Err(
                    AsmError { kind: AsmErrorKind::UnknownJump, token: chars_to_string(&jump) },
                );
            },
        };
        Ok(Instruction::Compute(c, d, j))
    }

    /// Classifies the next syntactic unit: an address instruction, a
    /// label declaration, a computation instruction, or end of input.
    /// Labels are bound to the current instruction address; referenced
    /// symbols not yet present are registered unresolved.
    fn emit_instruction(&mut self) -> (r: Result<Option<Instruction>, AsmError>)
        requires
            old(self).wf(),
        ensures
            final(self).wf(),
            final(self).text@ == old(self).text@,
            final(self).text_len == old(self).text_len,
            final(self).current_instruction_address == old(self).current_instruction_address,
            ({
                let t = old(self).text@;
                let q = skip_end(t, old(self).pos as int);
                match spec_instr(t, q) {
                    SpecStep::Done => r matches Ok(i) && i is None && final(self).pos as int == q
                        && final(self).symbol_table@ == old(self).symbol_table@,
                    SpecStep::Next(ins, e) => r matches Ok(i) && i matches Some(x) && x@ == ins
                        && final(self).pos as int == e && final(self).symbol_table@ == reg_step(
                        old(self).symbol_table@,
                        ins,
                        old(self).current_instruction_address as int,
                    ),
                    SpecStep::Fail(err) => r matches Err(e) && e.kind == err.kind && e.token@
                        == err.token && final(self).symbol_table@ == old(self).symbol_table@,
                }
            }),
    {
        let ghost t = self.text@;
        self.skip_whitespace();
        let ghost q = self.pos as int;
        let c = self.peek();
        if c == '\0' {
            Ok(None)
        } else if c == '@' {
            self.advance();
            let tok = self.symbol();
            match parse_number(&tok) {
                Some(v) => {
                    if v <= 32767 {
                        Ok(Some(Instruction::Constant(v as u16)))
                    } else {
                        Err(
                            AsmError {
                                kind: AsmErrorKind::AddressOutOfRange,
                                token: chars_to_string(&tok),
                            },
                        )
                    }
                },
                None => {
                    if self.symbol_table.get(&tok).is_none() {
                        let copy = copy_chars(&tok);
                        self.symbol_table.insert(copy, None);
                    }
                    Ok(Some(Instruction::AddressVariable(tok)))
                },
            }
        } else if c == '(' {
            self.advance();
            let label = self.symbol();
            match self.eat(')') {
                Ok(()) => {
                    let addr = self.current_instruction_address;
                    let copy = copy_chars(&label);
                    self.symbol_table.insert(copy, Some(addr));
                    Ok(Some(Instruction::Label(label)))
                },
                Err(e) => Err(e),
            }
        } else {
            match self.compute_instruction() {
                Ok(ins) => Ok(Some(ins)),
                Err(e) => Err(e),
            }
        }
    }
}

proof fn lemma_push_assoc<T>(a: Seq<T>, x: T, b: Seq<T>)
    ensures
        a + (seq![x] + b) == a.push(x) + b,
{
    assert(a + (seq![x] + b) =~= a.push(x) + b);
}

impl<'a> HackAssembler<'a> {
    /// Pass 2: walks the captured instruction list, resolves every
    /// symbolic address (allocating fresh addresses from 16 on, in
    /// first-reference order), and emits the binary lines.
    fn resolve_symbols(&mut self, program: Vec<Instruction>) -> (r: Result<Vec<String>, AsmError>)
        requires
            old(self).wf(),
            forall|i: int|
                0 <= i < program@.len() ==> wf_instr(#[trigger] instr_views(program@)[i]),
        ensures
            final(self).wf(),
            ({
                let res = pass2(instr_views(program@), 0, old(self).symbol_table@, 16);
                match r {
                    Ok(lines) => res matches Ok(out) && line_views(lines@) == out,
                    Err(e) => res matches Err(se) && e.kind == se.kind && e.token@ == se.token,
                }
            }),
    {
        let ghost views = instr_views(program@);
        let ghost m0 = old(self).symbol_table@;
        let mut resolved_program: Vec<String> = Vec::new();
        let mut next_free_address: usize = 16;
        let mut idx: usize = 0;
        while idx < program.len()
            invariant
                self.wf(),
                idx <= program@.len(),
                views == instr_views(program@),
                m0 == old(self).symbol_table@,
                forall|i: int| 0 <= i < views.len() ==> wf_instr(#[trigger] views[i]),
                16 <= next_free_address <= 32768,
                ({
                    let res0 = pass2(views, 0, m0, 16);
                    match pass2(views, idx as int, self.symbol_table@, next_free_address as int) {
                        Ok(rest) => res0 matches Ok(out) && out == line_views(resolved_program@)
                            + rest,
                        Err(e) => res0 == Err::<Seq<Seq<char>>, SpecErr>(e),
                    }
                }),
            decreases program@.len() - idx,
        {
            proof {
                assert(views[idx as int] == program@[idx as int]@);
            }
            let ghost lv0 = resolved_program@;
            let ghost mcur = self.symbol_table@;
            let ghost ncur = next_free_address as int;
            match &program[idx] {
                Instruction::Constant(w) => {
                    let line = make_addr_line(*w);
                    resolved_program.push(chars_to_string(&line));
                    proof {
                        assert(line_views(resolved_program@) =~= line_views(lv0).push(line@));
                        let rest = pass2(views, idx + 1, mcur, ncur);
                        if rest is Ok {
                            lemma_push_assoc(line_views(lv0), line@, rest->Ok_0);
                        }
                    }
                },
                Instruction::Compute(cc, dd, jj) => {
                    let line = make_comp_line(*cc, *dd, *jj);
                    resolved_program.push(chars_to_string(&line));
                    proof {
                        assert(line_views(resolved_program@) =~= line_views(lv0).push(line@));
                        let rest = pass2(views, idx + 1, mcur, ncur);
                        if rest is Ok {
                            lemma_push_assoc(line_views(lv0), line@, rest->Ok_0);
                        }
                    }
                },
                Instruction::Label(_) => {},
                Instruction::AddressVariable(name) => {
                    let entry = self.symbol_table.get(name);
                    let known: Option<usize> = match entry {
                        Some(e) => e,
                        None => None,
                    };
                    match known {
                        Some(addr) => {
                            if addr < 32768 {
                                let line = make_addr_line(addr as u16);
                                resolved_program.push(chars_to_string(&line));
                                proof {
                                    assert(line_views(resolved_program@) =~= line_views(
                                        lv0,
                                    ).push(line@));
                                    let rest = pass2(views, idx + 1, mcur, ncur);
                                    if rest is Ok {
                                        lemma_push_assoc(line_views(lv0), line@, rest->Ok_0);
                                    }
                                }
                            } else {
                                return Err(
                                    AsmError {
                                        kind: AsmErrorKind::AddressOutOfRange,
                                        token: chars_to_string(name),
                                    },
                                );
                            }
                        },
                        None => {
                            if next_free_address < 32768 {
                                let copy = copy_chars(name);
                                self.symbol_table.insert(copy, Some(next_free_address));
                                let line = make_addr_line(next_free_address as u16);
                                resolved_program.push(chars_to_string(&line));
                                next_free_address = next_free_address + 1;
                                proof {
                                    assert(line_views(resolved_program@) =~= line_views(
                                        lv0,
                                    ).push(line@));
                                    let rest = pass2(
                                        views,
                                        idx + 1,
                                        self.symbol_table@,
                                        next_free_address as int,
                                    );
                                    if rest is Ok {
                                        lemma_push_assoc(line_views(lv0), line@, rest->Ok_0);
                                    }
                                }
                            } else {
                                return Err(
                                    AsmError {
                                        kind: AsmErrorKind::AddressOutOfRange,
                                        token: chars_to_string(name),
                                    },
                                );
                            }
                        },
                    }
                },
            }
            idx = idx + 1;
        }
        proof {
            assert(line_views(resolved_program@) + Seq::<Seq<char>>::empty() =~= line_views(
                resolved_program@,
            ));
        }
        Ok(resolved_program)
    }

    /// Assembles the whole text: classifies every instruction (pass 1),
    /// then resolves symbols and emits the binary lines (pass 2).  On
    /// success the result holds one 16-character line of `'0'`/`'1'`
    /// per non-label instruction, in source order.
    pub fn assemble_program(&mut self) -> (r: Result<Vec<String>, AsmError>)
        requires
            old(self).is_fresh(),
        ensures
            ({
                let res = spec_assemble(old(self).text_view());
                match r {
                    Ok(lines) => res matches Ok(out) && line_views(lines@) == out,
                    Err(e) => res matches Err(se) && e.kind == se.kind && e.token@ == se.token,
                }
            }),
    {
        let ghost t = self.text@;
        let mut program: Vec<Instruction> = Vec::new();
        proof {
            assert(instr_views(program@) =~= Seq::<SpecInstr>::empty());
        }
        loop
            invariant
                self.wf(),
                self.text@ == t,
                t == old(self).text@,
                self.current_instruction_address <= self.pos,
                self.current_instruction_address as int == nonlabels(instr_views(program@), 0),
                self.symbol_table@ == pass1(instr_views(program@), 0, builtins(), 0),
                ({
                    match spec_parse(t, self.pos as int) {
                        Ok(rest) => spec_parse(t, 0) matches Ok(all) && all == instr_views(
                            program@,
                        ) + rest,
                        Err(e) => spec_parse(t, 0) == Err::<Seq<SpecInstr>, SpecErr>(e),
                    }
                }),
            ensures
                self.wf(),
                t == old(self).text@,
                spec_parse(t, 0) matches Ok(all) && all == instr_views(program@),
                self.symbol_table@ == pass1(instr_views(program@), 0, builtins(), 0),
            decreases t.len() - self.pos,
        {
            let ghost pos0 = self.pos as int;
            proof {
                lemma_skip_end_bounds(t, pos0);
                lemma_spec_instr_advances(t, skip_end(t, pos0));
            }
            match self.emit_instruction() {
                Err(e) => {
                    return Err(e);
                },
                Ok(opt) => match opt {
                    None => {
                        proof {
                            crate::scan::lemma_skip_end_idempotent(t, pos0);
                        }
                        break;
                    },
                    Some(ins) => {
                        let ghost insv = ins@;
                        let ghost prev = program@;
                        let is_label = match &ins {
                            Instruction::Label(_) => true,
                            _ => false,
                        };
                        if !is_label {
                            self.current_instruction_address = self.current_instruction_address
                                + 1;
                        }
                        program.push(ins);
                        proof {
                            assert(instr_views(program@) =~= instr_views(prev).push(insv));
                            lemma_pass1_push(instr_views(prev), insv, 0, builtins(), 0);
                            lemma_nonlabels_push(instr_views(prev), insv, 0);
                            let e = self.pos as int;
                            match spec_parse(t, e) {
                                Ok(rest2) => {
                                    lemma_push_assoc(instr_views(prev), insv, rest2);
                                },
                                Err(_) => {},
                            }
                        }
                    },
                },
            }
        }
        proof {
            lemma_spec_parse_wf(t, 0);
        }
        self.resolve_symbols(program)
    }
}

proof fn lemma_builtin_name_views()
    ensures
        "R0"@ == seq!['R', '0'],
        "R1"@ == seq!['R', '1'],
        "R2"@ == seq!['R', '2'],
        "R3"@ == seq!['R', '3'],
        "R4"@ == seq!['R', '4'],
        "R5"@ == seq!['R', '5'],
        "R6"@ == seq!['R', '6'],
        "R7"@ == seq!['R', '7'],
        "R8"@ == seq!['R', '8'],
        "R9"@ == seq!['R', '9'],
        "R10"@ == seq!['R', '1', '0'],
        "R11"@ == seq!['R', '1', '1'],
        "R12"@ == seq!['R', '1', '2'],
        "R13"@ == seq!['R', '1', '3'],
        "R14"@ == seq!['R', '1', '4'],
        "R15"@ == seq!['R', '1', '5'],
        "SP"@ == seq!['S', 'P'],
        "LCL"@ == seq!['L', 'C', 'L'],
        "ARG"@ == seq!['A', 'R', 'G'],
        "THIS"@ == seq!['T', 'H', 'I', 'S'],
        "THAT"@ == seq!['T', 'H', 'A', 'T'],
        "SCREEN"@ == seq!['S', 'C', 'R', 'E', 'E', 'N'],
        "KBD"@ == seq!['K', 'B', 'D'],
{
    reveal_strlit("R0");
    reveal_strlit("R1");
    reveal_strlit("R2");
    reveal_strlit("R3");
    reveal_strlit("R4");
    reveal_strlit("R5");
    reveal_strlit("R6");
    reveal_strlit("R7");
    reveal_strlit("R8");
    reveal_strlit("R9");
    reveal_strlit("R10");
    reveal_strlit("R11");
    reveal_strlit("R12");
    reveal_strlit("R13");
    reveal_strlit("R14");
    reveal_strlit("R15");
    reveal_strlit("SP");
    reveal_strlit("LCL");
    reveal_strlit("ARG");
    reveal_strlit("THIS");
    reveal_strlit("THAT");
    reveal_strlit("SCREEN");
    reveal_strlit("KBD");
    assert("R0"@ =~= seq!['R', '0']);
    assert("R1"@ =~= seq!['R', '1']);
    assert("R2"@ =~= seq!['R', '2']);
    assert("R3"@ =~= seq!['R', '3']);
    assert("R4"@ =~= seq!['R', '4']);
    assert("R5"@ =~= seq!['R', '5']);
    assert("R6"@ =~= seq!['R', '6']);
    assert("R7"@ =~= seq!['R', '7']);
    assert("R8"@ =~= seq!['R', '8']);
    assert("R9"@ =~= seq!['R', '9']);
    assert("R10"@ =~= seq!['R', '1', '0']);
    assert("R11"@ =~= seq!['R', '1', '1']);
    assert("R12"@ =~= seq!['R', '1', '2']);
    assert("R13"@ =~= seq!['R', '1', '3']);
    assert("R14"@ =~= seq!['R', '1', '4']);
    assert("R15"@ =~= seq!['R', '1', '5']);
    assert("SP"@ =~= seq!['S', 'P']);
    assert("LCL"@ =~= seq!['L', 'C', 'L']);
    assert("ARG"@ =~= seq!['A', 'R', 'G']);
    assert("THIS"@ =~= seq!['T', 'H', 'I', 'S']);
    assert("THAT"@ =~= seq!['T', 'H', 'A', 'T']);
    assert("SCREEN"@ =~= seq!['S', 'C', 'R', 'E', 'E', 'N']);
    assert("KBD"@ =~= seq!['K', 'B', 'D']);
}

} // verus!
