//! Parsing the conditional register-update lines of the day-8 puzzle.
//!
//! A line reads `<reg> inc|dec <amount> if <reg> <cmp> <amount>`, split on
//! single spaces with empty fields kept. The comparison is modelled as a
//! closed enumeration of the six operators mapped to pure predicates, not as
//! a function value.

use vstd::prelude::*;
use crate::parse::all_digits;
use crate::parse::chars_of;
use crate::parse::digits_val;
use crate::parse::parse_i64_token;
use crate::parse::spec_parse_i64;
use crate::parse::token_views;

verus! {

/// Relies on `String::push`: appending one character to the end.
pub assume_specification[ String::push ](s: &mut String, c: char)
    ensures
        final(s)@ == old(s)@.push(c),
;

/// The six comparison operators a line may name.
#[derive(Debug, Clone, Copy, PartialEq, Eq)]
pub enum CompareOp {
    Less,
    LessEq,
    Greater,
    GreaterEq,
    Equal,
    NotEqual,
}

/// What a comparison operator means.
pub open spec fn spec_compare(op: CompareOp, a: i32, b: i32) -> bool {
    match op {
        CompareOp::Less => a < b,
        CompareOp::LessEq => a <= b,
        CompareOp::Greater => a > b,
        CompareOp::GreaterEq => a >= b,
        CompareOp::Equal => a == b,
        CompareOp::NotEqual => a != b,
    }
}

/// Evaluate a comparison operator on two values.
pub fn eval_compare(op: CompareOp, a: i32, b: i32) -> (r: bool)
    ensures
        r == spec_compare(op, a, b),
{
    match op {
        CompareOp::Less => a < b,
        CompareOp::LessEq => a <= b,
        CompareOp::Greater => a > b,
        CompareOp::GreaterEq => a >= b,
        CompareOp::Equal => a == b,
        CompareOp::NotEqual => a != b,
    }
}

/// One parsed conditional-update line: add `amount * instruction` to
/// `register` when `compare_register <op> compare_amount` holds.
#[derive(Debug, Clone, PartialEq, Eq)]
pub struct Line {
    pub register: String,
    pub instruction: i32,
    pub amount: i32,
    pub compare_register: String,
    pub compare_op: CompareOp,
    pub compare_amount: i32,
}

/// Index of the first space character at or after `i`, or the length when
/// none follows. The day-8 grammar splits on the space alone, not on other
/// whitespace.
pub open spec fn field_end(s: Seq<char>, i: int) -> int
    decreases s.len() - i,
{
    if i < 0 || i >= s.len() {
        i
    } else if s[i] == ' ' {
        i
    } else {
        field_end(s, i + 1)
    }
}

pub proof fn lemma_field_end_bounds(s: Seq<char>, i: int)
    requires
        0 <= i <= s.len(),
    ensures
        i <= field_end(s, i) <= s.len(),
    decreases s.len() - i,
{
    if i < s.len() && s[i] != ' ' {
        lemma_field_end_bounds(s, i + 1);
    }
}

pub proof fn lemma_field_end_scan(s: Seq<char>, start: int, i: int)
    requires
        0 <= start <= i <= s.len(),
        forall|k: int| start <= k < i ==> #[trigger] s[k] != ' ',
        i == s.len() || s[i] == ' ',
    ensures
        field_end(s, start) == i,
    decreases i - start,
{
    if start < i {
        lemma_field_end_scan(s, start + 1, i);
    }
}

/// The fields of `s` from position `i` on, split on every single space, empty
/// fields kept: what `str::split(' ')` yields.
pub open spec fn split_all_from(s: Seq<char>, i: int) -> Seq<Seq<char>>
    decreases s.len() - i,
    via split_all_from_decreases
{
    if i < 0 || i > s.len() {
        Seq::empty()
    } else {
        let j = field_end(s, i);
        if j >= s.len() {
            seq![s.subrange(i, s.len() as int)]
        } else {
            seq![s.subrange(i, j)] + split_all_from(s, j + 1)
        }
    }
}

#[via_fn]
proof fn split_all_from_decreases(s: Seq<char>, i: int) {
    if 0 <= i <= s.len() {
        lemma_field_end_bounds(s, i);
    }
}

/// Split on every single space, keeping empty fields.
pub fn split_keep_empty(cs: &Vec<char>) -> (toks: Vec<Vec<char>>)
    ensures
        token_views(toks@) == split_all_from(cs@, 0),
{
    let s = Ghost(cs@);
    let n = cs.len();
    let mut toks: Vec<Vec<char>> = Vec::new();
    let mut cur: Vec<char> = Vec::new();
    let ghost mut start: int = 0;
    let mut k: usize = 0;
    while k < n
        invariant
            s@ == cs@,
            n == s@.len(),
            0 <= start <= k <= n,
            cur@ == s@.subrange(start, k as int),
            forall|t: int| start <= t < k ==> s@[t] != ' ',
            token_views(toks@) + split_all_from(s@, start) == split_all_from(s@, 0),
        decreases n - k,
    {
        if cs[k] == ' ' {
            proof {
                lemma_field_end_scan(s@, start, k as int);
                assert(split_all_from(s@, start) == seq![s@.subrange(start, k as int)]
                    + split_all_from(s@, k as int + 1));
            }
            let ghost old_toks = toks@;
            toks.push(cur);
            proof {
                assert(token_views(toks@) =~= token_views(old_toks).push(cur@));
                assert(token_views(toks@) + split_all_from(s@, k as int + 1) =~= token_views(
                    old_toks,
                ) + split_all_from(s@, start));
            }
            cur = Vec::new();
            proof {
                start = k as int + 1;
                assert(cur@ =~= s@.subrange(start, k as int + 1));
            }
        } else {
            cur.push(cs[k]);
            proof {
                assert(cur@ =~= s@.subrange(start, k as int + 1));
            }
        }
        k = k + 1;
    }
    proof {
        lemma_field_end_scan(s@, start, n as int);
        assert(split_all_from(s@, start) == seq![s@.subrange(start, n as int)]);
    }
    let ghost old_toks = toks@;
    toks.push(cur);
    proof {
        assert(token_views(toks@) =~= token_views(old_toks).push(cur@));
        assert(token_views(toks@) =~= token_views(old_toks) + split_all_from(s@, start));
    }
    toks
}

/// What `str::parse::<i32>` accepts.
pub open spec fn spec_parse_i32(t: Seq<char>) -> Option<i32> {
    if t.len() == 0 {
        None
    } else if t[0] == '-' || t[0] == '+' {
        let d = t.subrange(1, t.len() as int);
        if d.len() >= 1 && all_digits(d) {
            if t[0] == '-' {
                if digits_val(d) <= 0x8000_0000 {
                    Some((-digits_val(d)) as i32)
                } else {
                    None
                }
            } else {
                if digits_val(d) <= i32::MAX {
                    Some(digits_val(d) as i32)
                } else {
                    None
                }
            }
        } else {
            None
        }
    } else {
        if all_digits(t) {
            if digits_val(t) <= i32::MAX {
                Some(digits_val(t) as i32)
            } else {
                None
            }
        } else {
            None
        }
    }
}

/// A token reads as an `i32` exactly when it reads as an `i64` whose value
/// fits in 32 bits.
pub proof fn lemma_parse_i64_vs_i32(t: Seq<char>)
    ensures
        match spec_parse_i64(t) {
            Some(v) => spec_parse_i32(t) == (if -0x8000_0000 <= v as int && v as int <= 0x7fff_ffff {
                Some(v as i32)
            } else {
                None::<i32>
            }),
            None => spec_parse_i32(t) is None,
        },
{
    if t.len() == 0 {
    } else if t[0] == '-' || t[0] == '+' {
        let d = t.subrange(1, t.len() as int);
        if d.len() >= 1 && all_digits(d) {
            crate::parse::lemma_digits_val_nonneg(d);
        }
    } else {
        if all_digits(t) {
            crate::parse::lemma_digits_val_nonneg(t);
        }
    }
}

/// Read a whole token as an `i32`, exactly as `str::parse::<i32>` would.
pub fn parse_i32_token(t: &Vec<char>) -> (r: Option<i32>)
    ensures
        r == spec_parse_i32(t@),
{
    proof {
        lemma_parse_i64_vs_i32(t@);
    }
    match parse_i64_token(t) {
        Some(v) => {
            if -2147483648 <= v && v <= 2147483647 {
                Some(v as i32)
            } else {
                None
            }
        },
        None => None,
    }
}

/// The step direction a token names: `inc` adds, `dec` subtracts.
pub open spec fn spec_updown(t: Seq<char>) -> Option<i32> {
    if t.len() == 3 && t[0] == 'i' && t[1] == 'n' && t[2] == 'c' {
        Some(1)
    } else if t.len() == 3 && t[0] == 'd' && t[1] == 'e' && t[2] == 'c' {
        Some(-1i32)
    } else {
        None
    }
}

/// The comparison operator a token names.
pub open spec fn spec_compare_op(t: Seq<char>) -> Option<CompareOp> {
    if t.len() == 1 && t[0] == '<' {
        Some(CompareOp::Less)
    } else if t.len() == 1 && t[0] == '>' {
        Some(CompareOp::Greater)
    } else if t.len() == 2 && t[0] == '<' && t[1] == '=' {
        Some(CompareOp::LessEq)
    } else if t.len() == 2 && t[0] == '>' && t[1] == '=' {
        Some(CompareOp::GreaterEq)
    } else if t.len() == 2 && t[0] == '=' && t[1] == '=' {
        Some(CompareOp::Equal)
    } else if t.len() == 2 && t[0] == '!' && t[1] == '=' {
        Some(CompareOp::NotEqual)
    } else {
        None
    }
}

/// A line parses when it has at least seven space-separated fields whose
/// second names a direction, whose sixth names a comparison, and whose third
/// and seventh read as 32-bit integers; any failure is a fatal parse
/// error.
pub open spec fn day8_line_ok(s: Seq<char>) -> bool {
    let toks = split_all_from(s, 0);
    &&& toks.len() >= 7
    &&& spec_updown(toks[1]) is Some
    &&& spec_parse_i32(toks[2]) is Some
    &&& spec_compare_op(toks[5]) is Some
    &&& spec_parse_i32(toks[6]) is Some
}

/// Build an owned string out of the characters of a token.
fn string_from_chars(cs: &Vec<char>) -> (s: String)
    ensures
        s@ == cs@,
{
    let mut s = String::new();
    let mut i: usize = 0;
    while i < cs.len()
        invariant
            0 <= i <= cs@.len(),
            s@ == cs@.take(i as int),
        decreases cs@.len() - i,
    {
        s.push(cs[i]);
        proof {
            assert(s@ =~= cs@.take(i as int + 1));
        }
        i = i + 1;
    }
    proof {
        assert(cs@.take(cs@.len() as int) =~= cs@);
    }
    s
}

/// Parse one conditional-update line, totally: `None` exactly on the
/// fatally malformed inputs.
pub fn parse_line(line: &str) -> (r: Option<Line>)
    ensures
        match r {
            Some(l) => {
                let toks = split_all_from(line@, 0);
                &&& day8_line_ok(line@)
                &&& l.register@ == toks[0]
                &&& Some(l.instruction) == spec_updown(toks[1])
                &&& Some(l.amount) == spec_parse_i32(toks[2])
                &&& l.compare_register@ == toks[4]
                &&& Some(l.compare_op) == spec_compare_op(toks[5])
                &&& Some(l.compare_amount) == spec_parse_i32(toks[6])
            },
            None => !day8_line_ok(line@),
        },
{
    let cs = chars_of(line);
    let toks = split_keep_empty(&cs);
    if toks.len() < 7 {
        return None;
    }
    proof {
        assert(token_views(toks@)[1] == toks@[1]@);
        assert(token_views(toks@)[5] == toks@[5]@);
    }
    let t1 = &toks[1];
    let instruction: i32 = if t1.len() == 3 && t1[0] == 'i' && t1[1] == 'n' && t1[2] == 'c' {
        1
    } else if t1.len() == 3 && t1[0] == 'd' && t1[1] == 'e' && t1[2] == 'c' {
        -1
    } else {
        return None;
    };
    let t5 = &toks[5];
    let compare_op: CompareOp = if t5.len() == 1 && t5[0] == '<' {
        CompareOp::Less
    } else if t5.len() == 1 && t5[0] == '>' {
        CompareOp::Greater
    } else if t5.len() == 2 && t5[0] == '<' && t5[1] == '=' {
        CompareOp::LessEq
    } else if t5.len() == 2 && t5[0] == '>' && t5[1] == '=' {
        CompareOp::GreaterEq
    } else if t5.len() == 2 && t5[0] == '=' && t5[1] == '=' {
        CompareOp::Equal
    } else if t5.len() == 2 && t5[0] == '!' && t5[1] == '=' {
        CompareOp::NotEqual
    } else {
        return None;
    };
    proof {
        assert(token_views(toks@)[2] == toks@[2]@);
        assert(token_views(toks@)[6] == toks@[6]@);
        assert(token_views(toks@)[0] == toks@[0]@);
        assert(token_views(toks@)[4] == toks@[4]@);
    }
    let amount: i32 = match parse_i32_token(&toks[2]) {
        Some(v) => v,
        None => {
            return None;
        },
    };
    let compare_amount: i32 = match parse_i32_token(&toks[6]) {
        Some(v) => v,
        None => {
            return None;
        },
    };
    let register = string_from_chars(&toks[0]);
    let compare_register = string_from_chars(&toks[4]);
    Some(
        Line {
            register,
            instruction,
            amount,
            compare_register,
            compare_op,
            compare_amount,
        },
    )
}

} // verus!
