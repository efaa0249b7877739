//! Character classes and scan-end functions.
//!
//! The scanner works over a sequence of characters with an integer
//! position.  Each `*_end` spec function gives the position at which a
//! particular greedy scan stops; the executable cursor methods in
//! [`crate::assembler`] are proved to land exactly on these positions.

use vstd::prelude::*;

verus! {

/// The sentinel character returned by the cursor at end of input.
pub const SENTINEL: char = '\0';

/// Whitespace skipped between tokens.
pub open spec fn is_ws(c: char) -> bool {
    c == ' ' || c == '\t' || c == '\r' || c == '\n'
}

/// Characters allowed inside a symbol token (identifier or number).
pub open spec fn is_sym_char(c: char) -> bool {
    ||| 'a' <= c && c <= 'z'
    ||| 'A' <= c && c <= 'Z'
    ||| '0' <= c && c <= '9'
    ||| c == '_'
}

/// Decimal digits.
pub open spec fn is_digit(c: char) -> bool {
    '0' <= c && c <= '9'
}

/// Characters that may begin or continue a destination mnemonic.
pub open spec fn is_dest_char(c: char) -> bool {
    c == 'A' || c == 'D' || c == 'M'
}

/// Characters that may appear inside a computation mnemonic.
pub open spec fn is_comp_char(c: char) -> bool {
    ||| c == '0' || c == '1'
    ||| c == '-' || c == '+' || c == '!' || c == '&' || c == '|'
    ||| c == 'A' || c == 'D' || c == 'M'
}

/// Where whitespace-and-comment skipping stops, starting at `p`.
/// `in_comment` records whether the scan currently stands inside a
/// `//` line comment.  A comment runs through the next newline; the
/// sentinel character also terminates it, as the cursor treats it as
/// end of input.
pub open spec fn skip_ws_from(t: Seq<char>, p: int, in_comment: bool) -> int
    decreases t.len() - p,
{
    if p < 0 || p >= t.len() {
        p
    } else if in_comment {
        if t[p] == '\n' || t[p] == SENTINEL {
            skip_ws_from(t, p + 1, false)
        } else {
            skip_ws_from(t, p + 1, true)
        }
    } else if is_ws(t[p]) {
        skip_ws_from(t, p + 1, false)
    } else if t[p] == '/' && p + 1 < t.len() && t[p + 1] == '/' {
        skip_ws_from(t, p + 2, true)
    } else {
        p
    }
}

/// Where skipping stops when starting outside a comment.
pub open spec fn skip_end(t: Seq<char>, p: int) -> int {
    skip_ws_from(t, p, false)
}

/// Where a greedy scan of symbol characters stops.
pub open spec fn sym_end(t: Seq<char>, p: int) -> int
    decreases t.len() - p,
{
    if p < 0 || p >= t.len() || !is_sym_char(t[p]) {
        p
    } else {
        sym_end(t, p + 1)
    }
}

/// Where a greedy scan of destination characters stops.
pub open spec fn dest_end(t: Seq<char>, p: int) -> int
    decreases t.len() - p,
{
    if p < 0 || p >= t.len() || !is_dest_char(t[p]) {
        p
    } else {
        dest_end(t, p + 1)
    }
}

/// Where a greedy scan of computation characters stops.
pub open spec fn comp_end(t: Seq<char>, p: int) -> int
    decreases t.len() - p,
{
    if p < 0 || p >= t.len() || !is_comp_char(t[p]) {
        p
    } else {
        comp_end(t, p + 1)
    }
}

pub proof fn lemma_skip_ws_from_bounds(t: Seq<char>, p: int, in_comment: bool)
    requires
        0 <= p <= t.len(),
    ensures
        p <= skip_ws_from(t, p, in_comment) <= t.len(),
    decreases t.len() - p,
{
    if p < t.len() {
        if in_comment {
            lemma_skip_ws_from_bounds(t, p + 1, !(t[p] == '\n' || t[p] == SENTINEL));
        } else if is_ws(t[p]) {
            lemma_skip_ws_from_bounds(t, p + 1, false);
        } else if t[p] == '/' && p + 1 < t.len() && t[p + 1] == '/' {
            lemma_skip_ws_from_bounds(t, p + 2, true);
        }
    }
}

pub proof fn lemma_skip_end_bounds(t: Seq<char>, p: int)
    requires
        0 <= p <= t.len(),
    ensures
        p <= skip_end(t, p) <= t.len(),
{
    lemma_skip_ws_from_bounds(t, p, false);
}

/// Skipping is idempotent: the character at a skip end neither is
/// whitespace nor starts a comment.
pub proof fn lemma_skip_end_idempotent(t: Seq<char>, p: int)
    requires
        0 <= p <= t.len(),
    ensures
        skip_end(t, skip_end(t, p)) == skip_end(t, p),
    decreases t.len() - p,
{
    lemma_skip_end_idem_from(t, p, false);
}

proof fn lemma_skip_end_idem_from(t: Seq<char>, p: int, in_comment: bool)
    requires
        0 <= p <= t.len(),
    ensures
        skip_end(t, skip_ws_from(t, p, in_comment)) == skip_ws_from(t, p, in_comment),
    decreases t.len() - p,
{
    if p < t.len() {
        if in_comment {
            lemma_skip_end_idem_from(t, p + 1, !(t[p] == '\n' || t[p] == SENTINEL));
        } else if is_ws(t[p]) {
            lemma_skip_end_idem_from(t, p + 1, false);
        } else if t[p] == '/' && p + 1 < t.len() && t[p + 1] == '/' {
            lemma_skip_end_idem_from(t, p + 2, true);
        }
    }
}

pub proof fn lemma_sym_end_bounds(t: Seq<char>, p: int)
    requires
        0 <= p <= t.len(),
    ensures
        p <= sym_end(t, p) <= t.len(),
    decreases t.len() - p,
{
    if p < t.len() && is_sym_char(t[p]) {
        lemma_sym_end_bounds(t, p + 1);
    }
}

pub proof fn lemma_dest_end_bounds(t: Seq<char>, p: int)
    requires
        0 <= p <= t.len(),
    ensures
        p <= dest_end(t, p) <= t.len(),
    decreases t.len() - p,
{
    if p < t.len() && is_dest_char(t[p]) {
        lemma_dest_end_bounds(t, p + 1);
    }
}

pub proof fn lemma_comp_end_bounds(t: Seq<char>, p: int)
    requires
        0 <= p <= t.len(),
    ensures
        p <= comp_end(t, p) <= t.len(),
    decreases t.len() - p,
{
    if p < t.len() && is_comp_char(t[p]) {
        lemma_comp_end_bounds(t, p + 1);
    }
}

} // verus!
