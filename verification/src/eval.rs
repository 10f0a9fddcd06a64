//! Evaluation semantics: a fuel-bounded interpreter over syntax trees,
//! value stacks, macro tables and variable stores.
//!
//! Word resolution follows a fixed precedence: a reserved built-in name,
//! then a macro-table entry, then a bound variable name, then a numeric
//! literal; any other word is an `UndefinedWord` error.
//!
//! Calling conventions:
//! - `+ - * / %` pop two numeric operands (right operand popped first) and
//!   push one numeric result, wrapping on overflow; `/` and `%` with a zero
//!   right operand report `DivisionByZero` / `ModuloByZero` with both
//!   operands consumed and no result pushed.
//! - `@` pops a numeric count and then that many items, pushing one list
//!   that preserves pop order.
//! - `$` reads the word immediately following it as a name; with a
//!   non-empty value stack it pops the top value and binds the name to it,
//!   and with an empty stack it pushes the value bound to the name.
//! - `fn` reads the word immediately following it as a name and the
//!   bracketed context after that as a body, and defines the macro.
//! - Evaluating a context evaluates its children in order against the
//!   shared value stack; a macro call evaluates the macro's body.
//!
//! Evaluation depth (nested contexts and macro calls) is bounded by a fuel
//! budget, so that self-referential macros terminate in a reported
//! `RecursionLimit` instead of running forever.

use vstd::prelude::*;
use crate::diag::ErrorKind;
use crate::syntax::SubSpec;
use crate::value::ValSpec;

verus! {

/// The depth budget for one evaluation run.
pub const EVAL_FUEL: u64 = 4096;

/// The evaluation-relevant part of a machine: the macro table, the
/// variable store, and the runtime value stack.
#[verifier::ext_equal]
pub struct EvalEnv {
    pub macros: Map<Seq<char>, Seq<SubSpec>>,
    pub vars: Map<Seq<char>, ValSpec>,
    pub stack: Seq<ValSpec>,
}

/// The outcome of an evaluation: the environment after it, and the error
/// that stopped it, if one did.
#[verifier::ext_equal]
pub struct EvalOut {
    pub env: EvalEnv,
    pub err: Option<ErrorKind>,
}

/// Whether a word is one of the five arithmetic built-ins.
pub open spec fn is_arith_word(w: Seq<char>) -> bool {
    w == seq!['+'] || w == seq!['-'] || w == seq!['*'] || w == seq!['/'] || w == seq!['%']
}

/// The result an arithmetic built-in computes from its two operands, or
/// the error it reports. Addition, subtraction and multiplication wrap;
/// division and remainder truncate toward zero and wrap on the one
/// overflowing case.
pub open spec fn arith_result(w: Seq<char>, a: i64, b: i64) -> Result<i64, ErrorKind> {
    if w == seq!['+'] {
        Ok(vstd::wrapping::i64_specs::wrapping_add(a, b))
    } else if w == seq!['-'] {
        Ok(vstd::wrapping::i64_specs::wrapping_sub(a, b))
    } else if w == seq!['*'] {
        Ok(vstd::wrapping::i64_specs::wrapping_mul(a, b))
    } else if w == seq!['/'] {
        if b == 0 {
            Err(ErrorKind::DivisionByZero)
        } else {
            match a.checked_div(b) {
                Some(q) => Ok(q),
                None => Ok(i64::MIN),
            }
        }
    } else {
        if b == 0 {
            Err(ErrorKind::ModuloByZero)
        } else {
            match a.checked_rem(b) {
                Some(r) => Ok(r),
                None => Ok(0),
            }
        }
    }
}

/// The numeric value of a decimal digit, or -1 for any other character.
pub open spec fn digit_val(c: char) -> int {
    if c == '0' { 0 }
    else if c == '1' { 1 }
    else if c == '2' { 2 }
    else if c == '3' { 3 }
    else if c == '4' { 4 }
    else if c == '5' { 5 }
    else if c == '6' { 6 }
    else if c == '7' { 7 }
    else if c == '8' { 8 }
    else if c == '9' { 9 }
    else { -1 }
}

pub open spec fn is_digit(c: char) -> bool {
    digit_val(c) >= 0
}

pub open spec fn all_digits(w: Seq<char>) -> bool {
    forall|i: int| 0 <= i < w.len() ==> is_digit(#[trigger] w[i])
}

/// The value of a non-empty digit string read in base ten.
pub open spec fn digits_val(w: Seq<char>) -> int
    decreases w.len(),
{
    if w.len() == 0 {
        0
    } else {
        digits_val(w.drop_last()) * 10 + digit_val(w.last())
    }
}

/// The numeric literal a word stands for: an optional leading minus sign
/// followed by decimal digits, provided the value fits in an `i64`.
pub open spec fn literal_val(w: Seq<char>) -> Option<i64> {
    if w.len() > 0 && all_digits(w) {
        if digits_val(w) <= i64::MAX {
            Some(digits_val(w) as i64)
        } else {
            None
        }
    } else if w.len() > 1 && w[0] == '-' && all_digits(w.skip(1)) {
        if -digits_val(w.skip(1)) >= i64::MIN {
            Some((-digits_val(w.skip(1))) as i64)
        } else {
            None
        }
    } else {
        None
    }
}

/// Evaluates an ordered sequence of syntax nodes.
pub open spec fn spec_eval_items(env: EvalEnv, items: Seq<SubSpec>, fuel: nat) -> EvalOut
    decreases fuel, items.len(), 0nat,
{
    if items.len() == 0 {
        EvalOut { env, err: None }
    } else {
        match items[0] {
            SubSpec::Tree(ch) => {
                if fuel == 0 {
                    EvalOut { env, err: Some(ErrorKind::RecursionLimit) }
                } else {
                    let r = spec_eval_items(env, ch, (fuel - 1) as nat);
                    if r.err is Some {
                        r
                    } else {
                        spec_eval_items(r.env, items.skip(1), fuel)
                    }
                }
            },
            SubSpec::Word(w) => spec_eval_word(env, items.skip(1), w, fuel),
        }
    }
}

/// Evaluates a word, given the sibling nodes that follow it, then those
/// of them that the word does not itself consume.
pub open spec fn spec_eval_word(env: EvalEnv, rest: Seq<SubSpec>, w: Seq<char>, fuel: nat) -> EvalOut
    decreases fuel, rest.len(), 1nat,
{
    if w == seq!['f', 'n'] {
        if rest.len() >= 2 && (rest[0] is Word) && (rest[1] is Tree) {
            let name = rest[0]->Word_0;
            let body = rest[1]->Tree_0;
            let env2 = EvalEnv { macros: env.macros.insert(name, body), ..env };
            spec_eval_items(env2, rest.skip(2), fuel)
        } else {
            EvalOut { env, err: Some(ErrorKind::ArityMismatch) }
        }
    } else if w == seq!['$'] {
        if rest.len() >= 1 && (rest[0] is Word) {
            let name = rest[0]->Word_0;
            if env.stack.len() > 0 {
                let env2 = EvalEnv {
                    vars: env.vars.insert(name, env.stack.last()),
                    stack: env.stack.drop_last(),
                    ..env
                };
                spec_eval_items(env2, rest.skip(1), fuel)
            } else if env.vars.contains_key(name) {
                let env2 = EvalEnv { stack: env.stack.push(env.vars[name]), ..env };
                spec_eval_items(env2, rest.skip(1), fuel)
            } else {
                EvalOut { env, err: Some(ErrorKind::UndefinedName) }
            }
        } else {
            EvalOut { env, err: Some(ErrorKind::ArityMismatch) }
        }
    } else if is_arith_word(w) {
        if env.stack.len() >= 2 && (env.stack.last() is Num)
            && (env.stack[env.stack.len() - 2] is Num) {
            let b = env.stack.last()->Num_0;
            let a = env.stack[env.stack.len() - 2]->Num_0;
            let s0 = env.stack.drop_last().drop_last();
            match arith_result(w, a, b) {
                Ok(n) => spec_eval_items(
                    EvalEnv { stack: s0.push(ValSpec::Num(n)), ..env },
                    rest,
                    fuel,
                ),
                Err(k) => EvalOut { env: EvalEnv { stack: s0, ..env }, err: Some(k) },
            }
        } else {
            EvalOut { env, err: Some(ErrorKind::ArityMismatch) }
        }
    } else if w == seq!['@'] {
        if env.stack.len() >= 1 && (env.stack.last() is Num) {
            let n = env.stack.last()->Num_0;
            let below = env.stack.drop_last();
            if 0 <= n <= below.len() {
                let taken = Seq::new(n as nat, |j: int| below[below.len() - 1 - j]);
                let env2 = EvalEnv {
                    stack: below.take(below.len() - n as int).push(ValSpec::List(taken)),
                    ..env
                };
                spec_eval_items(env2, rest, fuel)
            } else {
                EvalOut { env, err: Some(ErrorKind::ArityMismatch) }
            }
        } else {
            EvalOut { env, err: Some(ErrorKind::ArityMismatch) }
        }
    } else if env.macros.contains_key(w) {
        if fuel == 0 {
            EvalOut { env, err: Some(ErrorKind::RecursionLimit) }
        } else {
            let r = spec_eval_items(env, env.macros[w], (fuel - 1) as nat);
            if r.err is Some {
                r
            } else {
                spec_eval_items(r.env, rest, fuel)
            }
        }
    } else if env.vars.contains_key(w) {
        spec_eval_items(
            EvalEnv { stack: env.stack.push(env.vars[w]), ..env },
            rest,
            fuel,
        )
    } else {
        match literal_val(w) {
            Some(n) => spec_eval_items(
                EvalEnv { stack: env.stack.push(ValSpec::Num(n)), ..env },
                rest,
                fuel,
            ),
            None => EvalOut { env, err: Some(ErrorKind::UndefinedWord) },
        }
    }
}

} // verus!

verus! {

/// A non-negative digit string's value never shrinks as digits follow.
proof fn lemma_digits_val_nonneg(w: Seq<char>)
    requires
        all_digits(w),
    ensures
        digits_val(w) >= 0,
    decreases w.len(),
{
    if w.len() > 0 {
        assert forall|i: int| 0 <= i < w.drop_last().len() implies
            is_digit(#[trigger] w.drop_last()[i]) by {
            assert(w.drop_last()[i] == w[i]);
        }
        lemma_digits_val_nonneg(w.drop_last());
    }
}

/// The numeric value of a decimal digit.
fn digit_of(c: char) -> (r: Option<u64>)
    ensures
        r == (if is_digit(c) { Some(digit_val(c) as u64) } else { None::<u64> }),
{
    match c {
        '0' => Some(0),
        '1' => Some(1),
        '2' => Some(2),
        '3' => Some(3),
        '4' => Some(4),
        '5' => Some(5),
        '6' => Some(6),
        '7' => Some(7),
        '8' => Some(8),
        '9' => Some(9),
        _ => None,
    }
}

/// Reads a word as a numeric literal, if it is one.
#[verifier::loop_isolation(false)]
pub fn parse_literal(w: &Vec<char>) -> (r: Option<i64>)
    ensures
        r == literal_val(w@),
{
    if w.len() == 0 {
        return None;
    }
    let neg = w[0] == '-';
    let start: usize = if neg { 1 } else { 0 };
    if w.len() == start {
        return None;
    }
    let ghost digits = w@.skip(start as int);
    let mut acc: u64 = 0;
    let mut overflow = false;
    let mut i: usize = start;
    while i < w.len()
        invariant
            start <= i <= w@.len(),
            all_digits(digits.take(i - start)),
            !overflow ==> acc == digits_val(digits.take(i - start)),
            overflow ==> digits_val(digits.take(i - start)) > u64::MAX,
        decreases w@.len() - i,
    {
        proof {
            assert(digits.take(i - start + 1).drop_last() =~= digits.take(i - start));
            assert(digits.take(i - start + 1).last() == w@[i as int]);
        }
        let d = match digit_of(w[i]) {
            Some(d) => d,
            None => {
                proof {
                    assert(!is_digit(digits[i - start]));
                    assert(!all_digits(digits));
                    if !neg {
                        assert(w@[i as int] == w@.skip(0)[i as int]);
                        assert(digits =~= w@);
                    }
                }
                return None;
            },
        };
        if !overflow {
            let next = match acc.checked_mul(10) {
                Some(m) => m.checked_add(d),
                None => None,
            };
            match next {
                Some(a) => {
                    acc = a;
                },
                None => {
                    proof {
                        lemma_digits_val_nonneg(digits.take(i - start));
                        assert(digits_val(digits.take(i - start + 1))
                            == acc * 10 + digit_val(digits[i - start]));
                        assert(acc * 10 + digit_val(digits[i - start]) > u64::MAX);
                    }
                    overflow = true;
                },
            }
        } else {
            proof {
                lemma_digits_val_nonneg(digits.take(i - start));
                assert(digits_val(digits.take(i - start + 1))
                    == digits_val(digits.take(i - start)) * 10 + digit_val(digits[i - start]));
            }
        }
        i = i + 1;
    }
    proof {
        assert(digits.take(w@.len() - start) =~= digits);
        if !neg {
            assert(digits =~= w@);
        }
    }
    if overflow {
        return None;
    }
    if !neg {
        if acc <= 0x7fff_ffff_ffff_ffffu64 {
            Some(acc as i64)
        } else {
            None
        }
    } else {
        if acc < 0x8000_0000_0000_0000u64 {
            Some(-(acc as i64))
        } else if acc == 0x8000_0000_0000_0000u64 {
            Some(i64::MIN)
        } else {
            None
        }
    }
}

/// Whether a word is the single character `c`.
pub fn is_word1(w: &Vec<char>, c: char) -> (r: bool)
    ensures
        r == (w@ == seq![c]),
{
    let r = w.len() == 1 && w[0] == c;
    proof {
        if r {
            assert(w@ =~= seq![c]);
        } else {
            if w@ == seq![c] {
                assert(w@.len() == 1 && w@[0] == c);
            }
        }
    }
    r
}

/// Whether a word is the macro-defining built-in `fn`.
pub fn is_word_fn(w: &Vec<char>) -> (r: bool)
    ensures
        r == (w@ == seq!['f', 'n']),
{
    let r = w.len() == 2 && w[0] == 'f' && w[1] == 'n';
    proof {
        if r {
            assert(w@ =~= seq!['f', 'n']);
        } else {
            if w@ == seq!['f', 'n'] {
                assert(w@.len() == 2 && w@[0] == 'f' && w@[1] == 'n');
            }
        }
    }
    r
}

} // verus!

verus! {

/// Each arithmetic built-in consumes exactly its two numeric operands,
/// the right operand popped first, and pushes exactly one numeric result;
/// a zero right operand of `/` or `%` reports its error with the operands
/// already consumed and no result pushed. The macro table and the
/// variable store are untouched either way.
pub proof fn lemma_arith_binary(env: EvalEnv, w: Seq<char>, a: i64, b: i64, s: Seq<ValSpec>, fuel: nat)
    requires
        is_arith_word(w),
        env.stack == s.push(ValSpec::Num(a)).push(ValSpec::Num(b)),
        fuel >= 1,
    ensures
        ({
            let out = spec_eval_items(env, seq![SubSpec::Word(w)], fuel);
            match arith_result(w, a, b) {
                Ok(n) => {
                    &&& out.err is None
                    &&& out.env.stack == s.push(ValSpec::Num(n))
                    &&& out.env.macros == env.macros
                    &&& out.env.vars == env.vars
                },
                Err(k) => {
                    &&& out.err == Some(k)
                    &&& out.env.stack == s
                    &&& out.env.macros == env.macros
                    &&& out.env.vars == env.vars
                },
            }
        }),
{
    reveal_with_fuel(spec_eval_items, 3);
    let items = seq![SubSpec::Word(w)];
    assert(items[0] == SubSpec::Word(w));
    assert(items.skip(1) =~= Seq::<SubSpec>::empty());
    assert(w.len() == 1);
    assert(w != seq!['f', 'n']);
    assert(w != seq!['$'] && w != seq!['@']) by {
        if w == seq!['$'] || w == seq!['@'] {
            assert(w[0] == '$' || w[0] == '@');
            assert(!is_arith_word(w));
        }
    }
    assert(env.stack.len() == s.len() + 2);
    assert(env.stack.last() == ValSpec::Num(b));
    assert(env.stack[env.stack.len() - 2] == ValSpec::Num(a));
    assert(env.stack.drop_last() =~= s.push(ValSpec::Num(a)));
    assert(env.stack.drop_last().drop_last() =~= s);
    match arith_result(w, a, b) {
        Ok(n) => {
            assert(spec_eval_items(
                EvalEnv { stack: s.push(ValSpec::Num(n)), ..env },
                items.skip(1),
                fuel,
            ).err is None);
        },
        Err(k) => {
        },
    }
}

} // verus!
