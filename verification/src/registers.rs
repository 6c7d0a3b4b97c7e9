//! The register bank: a mapping from register characters to signed 64-bit
//! values, every register reading 0 until it is first written.
//!
//! The bank is modelled as a total map from `char` to `i64`, so the
//! default-to-zero rule is part of the model itself.

use vstd::prelude::*;
use crate::parse::is_digit_char;
use crate::parse::digit_int;

verus! {

/// The value of `c` in an association list, first binding wins, 0 when absent.
pub open spec fn assoc_val(s: Seq<(char, i64)>, c: char) -> i64
    decreases s.len(),
{
    if s.len() == 0 {
        0
    } else if s[0].0 == c {
        s[0].1
    } else {
        assoc_val(s.drop_first(), c)
    }
}

/// The bank every interpreter starts from: all registers 0.
pub open spec fn empty_bank() -> Map<char, i64> {
    Map::new(|c: char| true, |c: char| 0)
}

/// A register bank. Its view is the total map from register character to
/// stored value, with 0 for every register never written.
pub struct Registers {
    entries: Vec<(char, i64)>,
}

impl View for Registers {
    type V = Map<char, i64>;

    closed spec fn view(&self) -> Map<char, i64> {
        Map::new(|c: char| true, |c: char| assoc_val(self.entries@, c))
    }
}

proof fn lemma_assoc_skip(s: Seq<(char, i64)>, c: char, i: int)
    requires
        0 <= i <= s.len(),
        forall|k: int| 0 <= k < i ==> (#[trigger] s[k]).0 != c,
    ensures
        assoc_val(s, c) == assoc_val(s.skip(i), c),
    decreases i,
{
    if i == 0 {
        assert(s.skip(0) =~= s);
    } else {
        assert(s[0].0 != c);
        assert forall|k: int| 0 <= k < i - 1 implies (#[trigger] s.drop_first()[k]).0 != c by {
            assert(s.drop_first()[k] == s[k + 1]);
        }
        lemma_assoc_skip(s.drop_first(), c, i - 1);
        assert(s.drop_first().skip(i - 1) =~= s.skip(i));
    }
}

proof fn lemma_assoc_update(s: Seq<(char, i64)>, c: char, v: i64, i: int, d: char)
    requires
        0 <= i < s.len(),
        forall|k: int| 0 <= k < i ==> (#[trigger] s[k]).0 != c,
        s[i].0 == c,
    ensures
        assoc_val(s.update(i, (c, v)), d) == if d == c {
            v
        } else {
            assoc_val(s, d)
        },
    decreases i,
{
    let s2 = s.update(i, (c, v));
    if i == 0 {
        assert(s2[0] == (c, v));
        if d != c {
            assert(s2.drop_first() =~= s.drop_first());
        }
    } else {
        assert(s2[0] == s[0]);
        assert(s[0].0 != c);
        if s[0].0 == d {
        } else {
            assert(s2.drop_first() =~= s.drop_first().update(i - 1, (c, v)));
            assert forall|k: int| 0 <= k < i - 1 implies (#[trigger] s.drop_first()[k]).0 != c by {
                assert(s.drop_first()[k] == s[k + 1]);
            }
            lemma_assoc_update(s.drop_first(), c, v, i - 1, d);
        }
    }
}

proof fn lemma_assoc_push(s: Seq<(char, i64)>, c: char, v: i64, d: char)
    requires
        forall|k: int| 0 <= k < s.len() ==> (#[trigger] s[k]).0 != c,
    ensures
        assoc_val(s.push((c, v)), d) == if d == c {
            v
        } else {
            assoc_val(s, d)
        },
    decreases s.len(),
{
    let s2 = s.push((c, v));
    if s.len() == 0 {
        assert(s2[0] == (c, v));
        if d != c {
            assert(s2.drop_first() =~= Seq::<(char, i64)>::empty());
            assert(assoc_val(Seq::<(char, i64)>::empty(), d) == 0);
        }
    } else {
        assert(s2[0] == s[0]);
        if s[0].0 == d {
            assert(s[0].0 != c);
        } else {
            assert(s2.drop_first() =~= s.drop_first().push((c, v)));
            assert forall|k: int|
                0 <= k < s.drop_first().len() implies (#[trigger] s.drop_first()[k]).0 != c by {
                assert(s.drop_first()[k] == s[k + 1]);
            }
            lemma_assoc_push(s.drop_first(), c, v, d);
        }
    }
}

impl Registers {
    /// A fresh bank: every register reads 0.
    pub fn new() -> (r: Registers)
        ensures
            r@ == empty_bank(),
    {
        let r = Registers { entries: Vec::new() };
        proof {
            assert(r@ =~= empty_bank());
        }
        r
    }

    /// Read a register directly, 0 when never written.
    pub fn get(&self, c: char) -> (v: i64)
        ensures
            v == self@[c],
    {
        let n = self.entries.len();
        let mut i: usize = 0;
        while i < n
            invariant
                n == self.entries@.len(),
                0 <= i <= n,
                forall|k: int| 0 <= k < i ==> (#[trigger] self.entries@[k]).0 != c,
            decreases n - i,
        {
            let e = self.entries[i];
            if e.0 == c {
                proof {
                    lemma_assoc_skip(self.entries@, c, i as int);
                    assert(self.entries@.skip(i as int)[0] == e);
                }
                return e.1;
            }
            i = i + 1;
        }
        proof {
            lemma_assoc_skip(self.entries@, c, n as int);
            assert(self.entries@.skip(n as int) =~= Seq::<(char, i64)>::empty());
        }
        0
    }

    /// Write a register: the new bank maps `c` to `v` and every other
    /// register to what it held before.
    pub fn insert(&mut self, c: char, v: i64)
        ensures
            final(self)@ == old(self)@.insert(c, v),
    {
        let n = self.entries.len();
        let mut i: usize = 0;
        while i < n
            invariant
                n == self.entries@.len(),
                0 <= i <= n,
                self.entries@ == old(self).entries@,
                forall|k: int| 0 <= k < i ==> (#[trigger] self.entries@[k]).0 != c,
            decreases n - i,
        {
            let e = self.entries[i];
            if e.0 == c {
                self.entries.set(i, (c, v));
                proof {
                    assert forall|d: char| #[trigger]
                        assoc_val(self.entries@, d) == if d == c {
                            v
                        } else {
                            assoc_val(old(self).entries@, d)
                        } by {
                        lemma_assoc_update(old(self).entries@, c, v, i as int, d);
                    }
                    assert(self@ =~= old(self)@.insert(c, v));
                }
                return ;
            }
            i = i + 1;
        }
        self.entries.push((c, v));
        proof {
            assert forall|d: char| #[trigger]
                assoc_val(self.entries@, d) == if d == c {
                    v
                } else {
                    assoc_val(old(self).entries@, d)
                } by {
                lemma_assoc_push(old(self).entries@, c, v, d);
            }
            assert(self@ =~= old(self)@.insert(c, v));
        }
    }
}

/// The value a register argument denotes: a single decimal digit character is
/// its own value, anything else is looked up in the bank.
pub open spec fn reg_value(bank: Map<char, i64>, c: char) -> i64 {
    if is_digit_char(c) {
        digit_int(c) as i64
    } else {
        bank[c]
    }
}

/// The value an operand denotes: the literal itself when the token read as an
/// integer, otherwise the register named by the token's first character, with
/// the digit-literal rule: a digit character is its own value, never a
/// lookup.
pub open spec fn operand_value(bank: Map<char, i64>, value: (Option<i64>, char)) -> i64 {
    match value.0 {
        Some(n) => n,
        None => reg_value(bank, value.1),
    }
}

/// Resolve an instruction's register argument against the bank, with the
/// digit-literal rule.
pub fn get_register_value(registers: &Registers, register: char) -> (v: i64)
    ensures
        v == reg_value(registers@, register),
{
    let u = register as u32;
    if 48 <= u && u <= 57 {
        (u - 48) as i64
    } else {
        registers.get(register)
    }
}

/// Resolve an instruction's operand against the bank, with the digit-literal
/// rule.
pub fn get_value(registers: &Registers, value: (Option<i64>, char)) -> (v: i64)
    ensures
        v == operand_value(registers@, value),
{
    match value.0 {
        Some(num) => num,
        None => get_register_value(registers, value.1),
    }
}

/// A register argument that is a decimal digit resolves to its own numeric
/// value in every bank: what the bank stores under that character is never
/// consulted.
pub proof fn lemma_digit_register_is_literal(bank1: Map<char, i64>, bank2: Map<char, i64>, c: char)
    requires
        is_digit_char(c),
    ensures
        reg_value(bank1, c) == digit_int(c) as i64,
        reg_value(bank1, c) == reg_value(bank2, c),
{
}

/// An operand whose token names a decimal digit register resolves to that
/// digit's own value in every bank, exactly like a register argument.
pub proof fn lemma_digit_operand_is_literal(bank1: Map<char, i64>, bank2: Map<char, i64>, c: char)
    requires
        is_digit_char(c),
    ensures
        operand_value(bank1, (None, c)) == digit_int(c) as i64,
        operand_value(bank1, (None, c)) == operand_value(bank2, (None, c)),
{
}

} // verus!
