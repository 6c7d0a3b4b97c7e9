//! Turning raw text lines into typed instructions.
//!
//! A line is split on whitespace, empty tokens are discarded, the first
//! token must be one of the seven mnemonics, the second token's first
//! character is the target register, and a third token (when the line has
//! exactly three tokens) is the operand: an integer literal when the whole
//! token reads as an `i64`, otherwise a register named by its first character.

use vstd::prelude::*;

verus! {

/// The seven operation codes of the instruction set.
#[derive(Debug, Clone, Copy, PartialEq, Eq)]
pub enum Command {
    Snd,
    Assign,
    Add,
    Mul,
    Mod,
    Rcv,
    Jgz,
}

/// One parsed program line: an opcode, the target register character, and the
/// optional operand, kept as the pair of its numeric reading (when the token
/// is an integer literal) and its first character.
#[derive(Debug, Clone, Copy, PartialEq, Eq)]
pub struct InstructionLine {
    pub command: Command,
    pub register: char,
    pub value: (Option<i64>, char),
}

/// A whitespace character: the space and the ASCII control whitespace
/// (tab, line feed, vertical tab, form feed, carriage return).
pub open spec fn is_space(c: char) -> bool {
    c as u32 == 32 || (9 <= c as u32 && c as u32 <= 13)
}

/// Decide whether a character is whitespace.
fn is_space_char(c: char) -> (r: bool)
    ensures
        r == is_space(c),
{
    let u = c as u32;
    u == 32 || (9 <= u && u <= 13)
}

/// Index of the first whitespace at or after `i`, or the length when none
/// follows.
pub open spec fn tok_end(s: Seq<char>, i: int) -> int
    decreases s.len() - i,
{
    if i < 0 || i >= s.len() {
        i
    } else if is_space(s[i]) {
        i
    } else {
        tok_end(s, i + 1)
    }
}

pub proof fn lemma_tok_end_bounds(s: Seq<char>, i: int)
    requires
        0 <= i <= s.len(),
    ensures
        i <= tok_end(s, i) <= s.len(),
        i < s.len() && !is_space(s[i]) ==> i + 1 <= tok_end(s, i),
    decreases s.len() - i,
{
    if i < s.len() && !is_space(s[i]) {
        lemma_tok_end_bounds(s, i + 1);
    }
}

/// The tokens of `s` from position `i` on: maximal runs of non-whitespace
/// characters, in order, with all whitespace discarded.
pub open spec fn spec_split_from(s: Seq<char>, i: int) -> Seq<Seq<char>>
    decreases s.len() - i,
    via spec_split_from_decreases
{
    if i < 0 || i >= s.len() {
        Seq::empty()
    } else if is_space(s[i]) {
        spec_split_from(s, i + 1)
    } else {
        seq![s.subrange(i, tok_end(s, i))] + spec_split_from(s, tok_end(s, i))
    }
}

#[via_fn]
proof fn spec_split_from_decreases(s: Seq<char>, i: int) {
    if 0 <= i < s.len() && !is_space(s[i]) {
        lemma_tok_end_bounds(s, i);
    }
}

/// The whitespace-split, empty-dropping token list of a whole line.
pub open spec fn spec_tokens(s: Seq<char>) -> Seq<Seq<char>> {
    spec_split_from(s, 0)
}

/// Every token produced by the splitter holds at least one character.
pub proof fn lemma_tokens_nonempty(s: Seq<char>, i: int)
    requires
        0 <= i <= s.len(),
    ensures
        forall|j: int|
            0 <= j < spec_split_from(s, i).len() ==> #[trigger] spec_split_from(s, i)[j].len()
                >= 1,
    decreases s.len() - i,
{
    if i >= s.len() {
    } else if is_space(s[i]) {
        lemma_tokens_nonempty(s, i + 1);
        assert(spec_split_from(s, i) == spec_split_from(s, i + 1));
        assert forall|j: int|
            0 <= j < spec_split_from(s, i).len() implies #[trigger] spec_split_from(s, i)[j].len()
            >= 1 by {
            assert(spec_split_from(s, i)[j] == spec_split_from(s, i + 1)[j]);
        }
    } else {
        lemma_tok_end_bounds(s, i);
        lemma_tokens_nonempty(s, tok_end(s, i));
        assert(spec_split_from(s, i) == seq![s.subrange(i, tok_end(s, i))] + spec_split_from(
            s,
            tok_end(s, i),
        ));
        assert forall|j: int|
            0 <= j < spec_split_from(s, i).len() implies #[trigger] spec_split_from(s, i)[j].len()
            >= 1 by {
            if j == 0 {
                assert(spec_split_from(s, i)[j] == s.subrange(i, tok_end(s, i)));
            } else {
                assert(spec_split_from(s, i)[j] == spec_split_from(s, tok_end(s, i))[j - 1]);
            }
        }
    }
}

pub open spec fn is_digit_char(c: char) -> bool {
    48 <= c as u32 && c as u32 <= 57
}

pub open spec fn digit_int(c: char) -> int {
    c as u32 - 48
}

pub open spec fn all_digits(t: Seq<char>) -> bool {
    forall|k: int| 0 <= k < t.len() ==> is_digit_char(#[trigger] t[k])
}

/// The number denoted by a run of decimal digit characters, most significant
/// first.
pub open spec fn digits_val(t: Seq<char>) -> int
    decreases t.len(),
{
    if t.len() == 0 {
        0
    } else {
        digits_val(t.drop_last()) * 10 + digit_int(t.last())
    }
}

pub proof fn lemma_digits_val_nonneg(t: Seq<char>)
    requires
        all_digits(t),
    ensures
        digits_val(t) >= 0,
    decreases t.len(),
{
    if t.len() > 0 {
        assert(all_digits(t.drop_last()));
        lemma_digits_val_nonneg(t.drop_last());
    }
}

pub proof fn lemma_digits_val_prefix(t: Seq<char>, k: int)
    requires
        all_digits(t),
        0 <= k <= t.len(),
    ensures
        digits_val(t.take(k)) <= digits_val(t),
    decreases t.len() - k,
{
    if k == t.len() {
        assert(t.take(k) =~= t);
    } else {
        let p = t.take(k);
        let q = t.take(k + 1);
        assert(q.drop_last() =~= p);
        assert(all_digits(p));
        lemma_digits_val_nonneg(p);
        assert(digits_val(q) == digits_val(p) * 10 + digit_int(t[k]));
        lemma_digits_val_prefix(t, k + 1);
    }
}

/// What `str::parse::<i64>` accepts: an optional sign, then one or more
/// decimal digits, denoting a value inside the `i64` range.
pub open spec fn spec_parse_i64(t: Seq<char>) -> Option<i64> {
    if t.len() == 0 {
        None
    } else if t[0] == '-' || t[0] == '+' {
        let d = t.subrange(1, t.len() as int);
        if d.len() >= 1 && all_digits(d) {
            if t[0] == '-' {
                if digits_val(d) <= 0x8000_0000_0000_0000 {
                    Some((-digits_val(d)) as i64)
                } else {
                    None
                }
            } else {
                if digits_val(d) <= i64::MAX {
                    Some(digits_val(d) as i64)
                } else {
                    None
                }
            }
        } else {
            None
        }
    } else {
        if all_digits(t) {
            if digits_val(t) <= i64::MAX {
                Some(digits_val(t) as i64)
            } else {
                None
            }
        } else {
            None
        }
    }
}

/// The opcode named by a token, when it is one of the seven mnemonics.
pub open spec fn spec_mnemonic(t: Seq<char>) -> Option<Command> {
    if t.len() == 3 {
        if t[0] == 's' && t[1] == 'n' && t[2] == 'd' {
            Some(Command::Snd)
        } else if t[0] == 's' && t[1] == 'e' && t[2] == 't' {
            Some(Command::Assign)
        } else if t[0] == 'a' && t[1] == 'd' && t[2] == 'd' {
            Some(Command::Add)
        } else if t[0] == 'm' && t[1] == 'u' && t[2] == 'l' {
            Some(Command::Mul)
        } else if t[0] == 'm' && t[1] == 'o' && t[2] == 'd' {
            Some(Command::Mod)
        } else if t[0] == 'r' && t[1] == 'c' && t[2] == 'v' {
            Some(Command::Rcv)
        } else if t[0] == 'j' && t[1] == 'g' && t[2] == 'z' {
            Some(Command::Jgz)
        } else {
            None
        }
    } else {
        None
    }
}

/// What parsing one line yields: `None` is the fatal parse error (fewer than
/// two tokens, or an unrecognized mnemonic); otherwise the instruction, whose
/// operand is present only on a line of exactly three tokens.
pub open spec fn spec_parse_line(s: Seq<char>) -> Option<InstructionLine> {
    let toks = spec_tokens(s);
    if toks.len() < 2 {
        None
    } else {
        match spec_mnemonic(toks[0]) {
            None => None,
            Some(cmd) => {
                let value = if toks.len() == 3 {
                    match spec_parse_i64(toks[2]) {
                        Some(v) => (Some(v), toks[2][0]),
                        None => (None, toks[2][0]),
                    }
                } else {
                    (None, ' ')
                };
                Some(InstructionLine { command: cmd, register: toks[1][0], value })
            },
        }
    }
}

/// The characters of a string slice, as a vector.
pub fn chars_of(s: &str) -> (r: Vec<char>)
    ensures
        r@ == s@,
{
    let n = s.unicode_len();
    let mut r: Vec<char> = Vec::new();
    let mut i: usize = 0;
    while i < n
        invariant
            n == s@.len(),
            0 <= i <= n,
            r@ == s@.take(i as int),
        decreases n - i,
    {
        let c = s.get_char(i);
        r.push(c);
        proof {
            assert(r@ =~= s@.take(i as int + 1));
        }
        i = i + 1;
    }
    proof {
        assert(s@.take(n as int) =~= s@);
    }
    r
}

pub open spec fn token_views(ts: Seq<Vec<char>>) -> Seq<Seq<char>> {
    ts.map_values(|t: Vec<char>| t@)
}

pub proof fn lemma_tok_end_scan(s: Seq<char>, start: int, i: int)
    requires
        0 <= start <= i <= s.len(),
        forall|k: int| start <= k < i ==> !is_space(#[trigger] s[k]),
        i == s.len() || is_space(s[i]),
    ensures
        tok_end(s, start) == i,
    decreases i - start,
{
    if start < i {
        lemma_tok_end_scan(s, start + 1, i);
    }
}

/// Split a line into its whitespace-separated tokens, dropping empty ones.
pub fn tokenize(cs: &Vec<char>) -> (toks: Vec<Vec<char>>)
    ensures
        token_views(toks@) == spec_tokens(cs@),
{
    let s = Ghost(cs@);
    let n = cs.len();
    let mut toks: Vec<Vec<char>> = Vec::new();
    let mut i: usize = 0;
    while i < n
        invariant
            s@ == cs@,
            n == s@.len(),
            0 <= i <= n,
            token_views(toks@) + spec_split_from(s@, i as int) == spec_tokens(s@),
        decreases n - i,
    {
        if is_space_char(cs[i]) {
            i = i + 1;
        } else {
            let start = i;
            while i < n && !is_space_char(cs[i])
                invariant
                    s@ == cs@,
                    n == s@.len(),
                    start <= i <= n,
                    forall|k: int| start <= k < i ==> !is_space(#[trigger] s@[k]),
                decreases n - i,
            {
                i = i + 1;
            }
            proof {
                lemma_tok_end_scan(s@, start as int, i as int);
            }
            let mut tok: Vec<char> = Vec::new();
            let mut j = start;
            while j < i
                invariant
                    s@ == cs@,
                    n == s@.len(),
                    start <= j <= i <= n,
                    tok@ == s@.subrange(start as int, j as int),
                decreases i - j,
            {
                tok.push(cs[j]);
                proof {
                    assert(tok@ =~= s@.subrange(start as int, j as int + 1));
                }
                j = j + 1;
            }
            let ghost old_toks = toks@;
            toks.push(tok);
            proof {
                assert(token_views(toks@) =~= token_views(old_toks).push(tok@));
                assert(spec_split_from(s@, start as int) == seq![
                    s@.subrange(start as int, i as int),
                ] + spec_split_from(s@, i as int));
                assert(token_views(toks@) + spec_split_from(s@, i as int) =~= token_views(
                    old_toks,
                ) + spec_split_from(s@, start as int));
            }
        }
    }
    proof {
        assert(spec_split_from(s@, n as int) =~= Seq::<Seq<char>>::empty());
        assert(token_views(toks@) + spec_split_from(s@, n as int) =~= token_views(toks@));
    }
    toks
}

/// Read a whole token as an `i64`, exactly as `str::parse::<i64>` would.
pub fn parse_i64_token(t: &Vec<char>) -> (r: Option<i64>)
    ensures
        r == spec_parse_i64(t@),
{
    let n = t.len();
    if n == 0 {
        return None;
    }
    let first = t[0];
    let signed: bool = first == '-' || first == '+';
    let neg: bool = first == '-';
    let start: usize = if signed {
        1
    } else {
        0
    };
    if n == start {
        return None;
    }
    let ghost d: Seq<char> = t@.subrange(start as int, n as int);
    proof {
        if !signed {
            assert(d =~= t@);
        }
    }
    let mut acc: i64 = 0;
    let mut i: usize = start;
    while i < n
        invariant
            start <= i <= n,
            n == t@.len(),
            start == if signed { 1int } else { 0int },
            start < n,
            signed ==> (t@[0] == '-' || t@[0] == '+'),
            !signed ==> !(t@[0] == '-' || t@[0] == '+'),
            neg == (t@[0] == '-'),
            d == t@.subrange(start as int, n as int),
            all_digits(t@.subrange(start as int, i as int)),
            acc == -digits_val(t@.subrange(start as int, i as int)),
        decreases n - i,
    {
        let ghost pre = t@.subrange(start as int, i as int);
        let c = t[i];
        let u = c as u32;
        if u < 48 || u > 57 {
            proof {
                if !signed {
                    assert(d =~= t@);
                }
                assert(d[i as int - start as int] == c);
                assert(!all_digits(d));
            }
            return None;
        }
        let dig: i64 = (u - 48) as i64;
        let ghost pre1 = t@.subrange(start as int, i as int + 1);
        proof {
            assert(pre1.drop_last() =~= pre);
            assert(pre1.last() == c);
            assert forall|k: int| 0 <= k < pre1.len() implies is_digit_char(#[trigger] pre1[k]) by {
                if k < pre.len() {
                    assert(pre1[k] == pre[k]);
                } else {
                    assert(pre1[k] == c);
                }
            }
            assert(digits_val(pre1) == digits_val(pre) * 10 + digit_int(c));
            lemma_digits_val_nonneg(pre);
        }
        let a = match acc.checked_mul(10) {
            Some(a) => a,
            None => {
                proof {
                    if !signed {
                        assert(d =~= t@);
                    }
                    assert(digits_val(pre1) > 0x8000_0000_0000_0000);
                    if all_digits(d) {
                        assert(pre1 =~= d.take(i as int + 1 - start as int));
                        lemma_digits_val_prefix(d, i as int + 1 - start as int);
                    }
                }
                return None;
            },
        };
        let b = match a.checked_sub(dig) {
            Some(b) => b,
            None => {
                proof {
                    if !signed {
                        assert(d =~= t@);
                    }
                    assert(digits_val(pre1) > 0x8000_0000_0000_0000);
                    if all_digits(d) {
                        assert(pre1 =~= d.take(i as int + 1 - start as int));
                        lemma_digits_val_prefix(d, i as int + 1 - start as int);
                    }
                }
                return None;
            },
        };
        acc = b;
        i = i + 1;
        proof {
            assert(t@.subrange(start as int, i as int) =~= pre1);
        }
    }
    proof {
        assert(t@.subrange(start as int, n as int) =~= d);
        if !signed {
            assert(d =~= t@);
        }
        lemma_digits_val_nonneg(d);
    }
    if neg {
        Some(acc)
    } else {
        if acc == i64::MIN {
            None
        } else {
            Some(-acc)
        }
    }
}

/// The opcode of a mnemonic token, when it names one.
pub fn mnemonic_of(t: &Vec<char>) -> (r: Option<Command>)
    ensures
        r == spec_mnemonic(t@),
{
    if t.len() != 3 {
        return None;
    }
    let c0 = t[0];
    let c1 = t[1];
    let c2 = t[2];
    if c0 == 's' && c1 == 'n' && c2 == 'd' {
        Some(Command::Snd)
    } else if c0 == 's' && c1 == 'e' && c2 == 't' {
        Some(Command::Assign)
    } else if c0 == 'a' && c1 == 'd' && c2 == 'd' {
        Some(Command::Add)
    } else if c0 == 'm' && c1 == 'u' && c2 == 'l' {
        Some(Command::Mul)
    } else if c0 == 'm' && c1 == 'o' && c2 == 'd' {
        Some(Command::Mod)
    } else if c0 == 'r' && c1 == 'c' && c2 == 'v' {
        Some(Command::Rcv)
    } else if c0 == 'j' && c1 == 'g' && c2 == 'z' {
        Some(Command::Jgz)
    } else {
        None
    }
}

/// Map a mnemonic to its opcode; callers must hand in one of the seven
/// recognized mnemonics: any other token is a fatal parse error, left out
/// here by the precondition.
pub fn get_instruction(instruction: &str) -> (c: Command)
    requires
        spec_mnemonic(instruction@) is Some,
    ensures
        Some(c) == spec_mnemonic(instruction@),
{
    let cs = chars_of(instruction);
    match mnemonic_of(&cs) {
        Some(c) => c,
        None => vstd::pervasive::unreached(),
    }
}

/// Parse one line, totally: `None` exactly on the fatally malformed inputs
/// (fewer than two tokens, or an unrecognized mnemonic).
pub fn parse_instruction(line: &str) -> (r: Option<InstructionLine>)
    ensures
        r == spec_parse_line(line@),
{
    let cs = chars_of(line);
    let toks = tokenize(&cs);
    proof {
        lemma_tokens_nonempty(cs@, 0);
    }
    if toks.len() < 2 {
        return None;
    }
    let cmd = match mnemonic_of(&toks[0]) {
        Some(c) => c,
        None => {
            return None;
        },
    };
    proof {
        assert(token_views(toks@)[1] == toks@[1]@);
    }
    let register = toks[1][0];
    let value: (Option<i64>, char) = if toks.len() == 3 {
        proof {
            assert(token_views(toks@)[2] == toks@[2]@);
        }
        let c2 = toks[2][0];
        match parse_i64_token(&toks[2]) {
            Some(v) => (Some(v), c2),
            None => (None, c2),
        }
    } else {
        (None, ' ')
    };
    Some(InstructionLine { command: cmd, register, value })
}

impl InstructionLine {
    /// Parse one line that is known to be well formed; the fatally malformed
    /// inputs are left out by the precondition.
    pub fn new(line: String) -> (r: InstructionLine)
        requires
            spec_parse_line(line@) is Some,
        ensures
            Some(r) == spec_parse_line(line@),
    {
        match parse_instruction(line.as_str()) {
            Some(r) => r,
            None => vstd::pervasive::unreached(),
        }
    }
}

/// What parsing a whole program yields: every line must parse, in order.
pub open spec fn spec_parse_program(ls: Seq<Seq<char>>) -> Option<Seq<InstructionLine>> {
    if forall|k: int| 0 <= k < ls.len() ==> (#[trigger] spec_parse_line(ls[k])) is Some {
        Some(Seq::new(ls.len(), |k: int| spec_parse_line(ls[k]).unwrap()))
    } else {
        None
    }
}

/// Parse every line of a program; the parse is a pure function of the text,
/// so re-running it on the same lines yields the identical instruction
/// sequence.
pub fn parse_program(lines: &Vec<String>) -> (r: Option<Vec<InstructionLine>>)
    ensures
        match r {
            Some(is) => Some(is@) == spec_parse_program(lines@.map_values(|l: String| l@)),
            None => spec_parse_program(lines@.map_values(|l: String| l@)) is None,
        },
{
    let ghost ls = lines@.map_values(|l: String| l@);
    let mut out: Vec<InstructionLine> = Vec::new();
    let mut i: usize = 0;
    while i < lines.len()
        invariant
            ls == lines@.map_values(|l: String| l@),
            0 <= i <= lines.len(),
            ls.len() == lines@.len(),
            out@.len() == i,
            forall|k: int| 0 <= k < i ==> (#[trigger] spec_parse_line(ls[k])) is Some,
            forall|k: int| 0 <= k < i ==> out@[k] == spec_parse_line(ls[k]).unwrap(),
        decreases lines@.len() - i,
    {
        proof {
            assert(ls[i as int] == lines@[i as int]@);
        }
        match parse_instruction(lines[i].as_str()) {
            Some(ins) => {
                out.push(ins);
            },
            None => {
                assert(spec_parse_line(ls[i as int]) is None);
                return None;
            },
        }
        i = i + 1;
    }
    proof {
        assert(out@ =~= Seq::new(ls.len(), |k: int| spec_parse_line(ls[k]).unwrap()));
    }
    Some(out)
}

/// Parsing is total and deterministic: every line yields exactly one result,
/// a function of its text alone, and the result is the fatal `None` precisely
/// in the two documented cases — fewer than two tokens, or a first token that
/// is not one of the seven mnemonics.
pub proof fn lemma_parse_line_total_deterministic(s1: Seq<char>, s2: Seq<char>)
    requires
        s1 == s2,
    ensures
        spec_parse_line(s1) == spec_parse_line(s2),
        spec_parse_line(s1) is None <==> (spec_tokens(s1).len() < 2 || spec_mnemonic(
            spec_tokens(s1)[0],
        ) is None),
{
}

/// A token that is a single decimal digit always reads as an integer literal:
/// its own value, never a register lookup.
pub proof fn lemma_single_digit_token_is_literal(c: char)
    requires
        is_digit_char(c),
    ensures
        spec_parse_i64(seq![c]) == Some(digit_int(c) as i64),
{
    let t = seq![c];
    assert(t.len() == 1);
    assert(t.last() == c);
    assert(t.drop_last() =~= Seq::<char>::empty());
    assert(digits_val(Seq::<char>::empty()) == 0);
    assert(digits_val(t) == digit_int(c));
}

} // verus!
