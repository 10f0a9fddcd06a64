//! The interpreter machine: it owns the nesting tracker, the tree-builder
//! frame stack, the macro table, the variable store, the runtime value
//! stack, and the diagnostic records.
//!
//! The frame stack is the sole source of truth for the nesting depth: the
//! tracker state is derived from its length and the sticky invalid flag,
//! so the tracker and the builder cannot desynchronize. The invalid state
//! is sticky for the machine's life; `reset` is the explicit recovery
//! operation.

use vstd::prelude::*;
use crate::diag::Diagnostic;
use crate::diag::ErrorKind;
use crate::nesting::NestingState;
use crate::syntax::Sub;
use crate::syntax::SubSpec;
use crate::syntax::sub_view;
use crate::syntax::subs_view;
use crate::syntax::lemma_subs_view_push;
use crate::table::Table;
use crate::token::Tok;
use crate::token::Token;
use crate::value::Value;
use crate::value::ValSpec;
use crate::value::seq_val_view;
use crate::eval::EvalEnv;
use crate::nesting::balanced;
use crate::nesting::depth_sum;
use crate::nesting::tok_delta;
use crate::nesting::lemma_depth_sum_skip;
use crate::syntax::clone_chars;
use crate::syntax::clone_subs;
use crate::syntax::lemma_seq_sub_view;
use crate::syntax::lemma_vec_sub_deep_view;
use crate::token::tokenize;
use crate::token::toks_view;
use crate::token::spec_tokenize;
use crate::value::lemma_seq_val_view;
use crate::value::lemma_seq_val_view_push;
use crate::value::lemma_seq_val_view_drop_last;
use crate::value::val_view;
use crate::eval::EVAL_FUEL;
use crate::eval::spec_eval_items;
use crate::eval::spec_eval_word;
use crate::eval::arith_result;
use crate::eval::is_arith_word;
use crate::eval::parse_literal;
use crate::eval::is_word1;
use crate::eval::is_word_fn;
use crate::eval::EvalOut;

verus! {

broadcast use vstd::std_specs::vec::group_vec_axioms;

/// Mathematical model of a machine.
#[verifier::ext_equal]
pub struct MachModel {
    /// Whether an unbalanced close has poisoned structural interpretation.
    pub invalid: bool,
    /// The open tree frames, outermost first.
    pub frames: Seq<Seq<SubSpec>>,
    /// The completed top-level sequence, pending evaluation.
    pub top: Seq<SubSpec>,
    /// The macro table: name to macro body.
    pub macros: Map<Seq<char>, Seq<SubSpec>>,
    /// The variable store: name to bound value.
    pub vars: Map<Seq<char>, ValSpec>,
    /// The runtime value stack.
    pub stack: Seq<ValSpec>,
    /// The diagnostic records, oldest first.
    pub diags: Seq<Diagnostic>,
}

impl MachModel {
    /// The tracker state, derived from the frame stack and the invalid
    /// flag. The frame stack's length always equals the nesting depth.
    pub open spec fn state(self) -> NestingState {
        if self.invalid {
            NestingState::Invalid
        } else if self.frames.len() == 0 {
            NestingState::Outside
        } else {
            NestingState::Inside((self.frames.len() - 1) as usize)
        }
    }

    /// The evaluation-relevant part of the machine.
    pub open spec fn env(self) -> EvalEnv {
        EvalEnv { macros: self.macros, vars: self.vars, stack: self.stack }
    }

    /// The model of a machine with nothing fed yet.
    pub open spec fn init() -> MachModel {
        MachModel {
            invalid: false,
            frames: seq![],
            top: seq![],
            macros: Map::empty(),
            vars: Map::empty(),
            stack: seq![],
            diags: seq![],
        }
    }
}

/// A word token appends a leaf to the innermost open frame, or to the
/// top-level sequence when none is open. A poisoned machine ignores it.
pub open spec fn spec_word_step(m: MachModel, w: Seq<char>) -> MachModel {
    if m.invalid {
        m
    } else if m.frames.len() == 0 {
        MachModel { top: m.top.push(SubSpec::Word(w)), ..m }
    } else {
        let j = m.frames.len() - 1;
        MachModel { frames: m.frames.update(j, m.frames[j].push(SubSpec::Word(w))), ..m }
    }
}

/// An enter-context token opens a fresh frame; a poisoned machine only
/// reports the event.
pub open spec fn spec_enter_step(m: MachModel) -> MachModel {
    if m.invalid {
        MachModel { diags: m.diags.push(Diagnostic::AlreadyInvalid), ..m }
    } else {
        MachModel {
            frames: m.frames.push(seq![]),
            diags: m.diags.push(Diagnostic::EnteredContext((m.frames.len() + 1) as usize)),
            ..m
        }
    }
}

/// An exit-context token closes the innermost frame and appends the
/// completed tree to the enclosing frame or the top-level sequence; while
/// outside any context it poisons the machine.
pub open spec fn spec_exit_step(m: MachModel) -> MachModel {
    if m.invalid {
        MachModel { diags: m.diags.push(Diagnostic::AlreadyInvalid), ..m }
    } else if m.frames.len() == 0 {
        MachModel { invalid: true, diags: m.diags.push(Diagnostic::UnbalancedClose), ..m }
    } else {
        let t = SubSpec::Tree(m.frames.last());
        let rest = m.frames.drop_last();
        let diags = m.diags.push(Diagnostic::ExitedContext((m.frames.len() - 1) as usize));
        if rest.len() == 0 {
            MachModel { frames: rest, top: m.top.push(t), diags, ..m }
        } else {
            let j = rest.len() - 1;
            MachModel { frames: rest.update(j, rest[j].push(t)), diags, ..m }
        }
    }
}

/// One token's effect on the machine.
pub open spec fn spec_feed(m: MachModel, t: Tok) -> MachModel {
    match t {
        Tok::Word(w) => spec_word_step(m, w),
        Tok::EnterContext => spec_enter_step(m),
        Tok::ExitContext => spec_exit_step(m),
    }
}

/// A token sequence's effect on the machine, first token first.
pub open spec fn spec_feed_all(m: MachModel, toks: Seq<Tok>) -> MachModel
    decreases toks.len(),
{
    if toks.len() == 0 {
        m
    } else {
        spec_feed_all(spec_feed(m, toks[0]), toks.skip(1))
    }
}

/// A word token leaves the tracker state unchanged.
pub proof fn lemma_word_preserves_state(m: MachModel, w: Seq<char>)
    ensures
        spec_word_step(m, w).state() == m.state(),
{
}

/// The derived tracker state follows the enter transition of the
/// finite-state machine: `Outside` opens the first context, `Inside(d)`
/// opens a nested one, and `Invalid` is sticky.
pub proof fn lemma_enter_follows_table(m: MachModel)
    requires
        m.frames.len() < usize::MAX,
    ensures
        spec_enter_step(m).state() == crate::nesting::enter_state(m.state()),
{
}

/// The derived tracker state follows the exit transition of the
/// finite-state machine: `Inside(0)` closes the outermost context,
/// `Inside(d > 0)` closes a nested one, an exit while `Outside` poisons
/// the tracker, and `Invalid` is sticky.
pub proof fn lemma_exit_follows_table(m: MachModel)
    requires
        m.frames.len() <= usize::MAX,
    ensures
        spec_exit_step(m).state() == crate::nesting::exit_state(m.state()),
{
}

/// The frame stack's length always equals the nesting depth the tracker
/// state holds.
pub proof fn lemma_depth_matches_frames(m: MachModel)
    requires
        !m.invalid,
        m.frames.len() <= usize::MAX,
    ensures
        m.state().depth() == m.frames.len(),
{
}

/// Feeding a token sequence that never closes more contexts than are
/// open leaves the machine unpoisoned, and changes the number of open
/// frames by the sequence's total depth contribution.
proof fn lemma_feed_all_depth(m: MachModel, toks: Seq<Tok>)
    requires
        !m.invalid,
        forall|k: int| 0 <= k <= toks.len() ==> m.frames.len() + depth_sum(toks, k) >= 0,
    ensures
        !spec_feed_all(m, toks).invalid,
        spec_feed_all(m, toks).frames.len() == m.frames.len() + depth_sum(toks, toks.len() as int),
    decreases toks.len(),
{
    if toks.len() > 0 {
        let m1 = spec_feed(m, toks[0]);
        assert(depth_sum(toks, 0) == 0);
        assert(depth_sum(toks, 1) == depth_sum(toks, 0) + tok_delta(toks[0]));
        assert(m.frames.len() + depth_sum(toks, 1) >= 0);
        assert(!m1.invalid && m1.frames.len() == m.frames.len() + tok_delta(toks[0]));
        assert forall|k: int| 0 <= k <= toks.skip(1).len() implies
            m1.frames.len() + depth_sum(toks.skip(1), k) >= 0 by {
            lemma_depth_sum_skip(toks, k);
        }
        lemma_feed_all_depth(m1, toks.skip(1));
        lemma_depth_sum_skip(toks, toks.len() - 1);
    }
}

/// For every well-formed (balanced) bracket sequence, full consumption
/// from outside any context returns the tracker to `Outside` and leaves
/// the tree-builder frame stack empty.
pub proof fn lemma_balanced_consumption(m: MachModel, toks: Seq<Tok>)
    requires
        m.state() == NestingState::Outside,
        balanced(toks),
    ensures
        spec_feed_all(m, toks).state() == NestingState::Outside,
        spec_feed_all(m, toks).frames.len() == 0,
{
    assert(!m.invalid && m.frames.len() == 0);
    lemma_feed_all_depth(m, toks);
}

/// The machine.
pub struct Mach {
    invalid: bool,
    frames: Vec<Vec<Sub>>,
    top: Vec<Sub>,
    macros: Table<Vec<Sub>>,
    vars: Table<Value>,
    stack: Vec<Value>,
    diags: Vec<Diagnostic>,
}

impl View for Mach {
    type V = MachModel;

    closed spec fn view(&self) -> MachModel {
        MachModel {
            invalid: self.invalid,
            frames: self.frames@.map_values(|f: Vec<Sub>| subs_view(f@)),
            top: subs_view(self.top@),
            macros: self.macros@,
            vars: self.vars@,
            stack: seq_val_view(self.stack@),
            diags: self.diags@,
        }
    }
}

impl Mach {
    /// The tables' internal invariant.
    pub closed spec fn inv(&self) -> bool {
        &&& self.macros.inv()
        &&& self.vars.inv()
    }

    /// A fresh machine: outside any context, with everything empty.
    pub fn new() -> (m: Mach)
        ensures
            m.inv(),
            m@ == MachModel::init(),
    {
        let m = Mach {
            invalid: false,
            frames: Vec::new(),
            top: Vec::new(),
            macros: Table::new(),
            vars: Table::new(),
            stack: Vec::new(),
            diags: Vec::new(),
        };
        proof {
            assert(m@ =~= MachModel::init());
        }
        m
    }

    /// The current tracker state.
    pub fn state(&self) -> (s: NestingState)
        ensures
            s == self@.state(),
    {
        if self.invalid {
            NestingState::Invalid
        } else if self.frames.len() == 0 {
            NestingState::Outside
        } else {
            NestingState::Inside(self.frames.len() - 1)
        }
    }

    /// The diagnostic records so far, oldest first.
    pub fn diagnostics(&self) -> (d: &Vec<Diagnostic>)
        ensures
            d@ == self@.diags,
    {
        &self.diags
    }

    /// The completed top-level sequence not yet evaluated.
    pub fn top(&self) -> (t: &Vec<Sub>)
        ensures
            subs_view(t@) == self@.top,
    {
        &self.top
    }

    /// The runtime value stack, bottom first.
    pub fn stack(&self) -> (s: &Vec<Value>)
        ensures
            seq_val_view(s@) == self@.stack,
    {
        &self.stack
    }

    /// Consumes a word token.
    pub fn word(&mut self, w: Vec<char>)
        ensures
            final(self)@ == spec_word_step(old(self)@, w@),
            final(self).inv() == old(self).inv(),
    {
        let ghost m0 = self@;
        if self.invalid {
            return;
        }
        if self.frames.len() == 0 {
            self.top.push(Sub::Word(w));
            proof {
                lemma_subs_view_push(old(self).top@, self.top@.last());
                assert(self@ =~= spec_word_step(m0, w@));
            }
        } else {
            let mut f = self.frames.pop().unwrap();
            let ghost f0 = f@;
            f.push(Sub::Word(w));
            self.frames.push(f);
            proof {
                let j = m0.frames.len() - 1;
                lemma_subs_view_push(f0, Sub::Word(w));
                assert(self.frames@ =~= old(self).frames@.update(j, self.frames@.last()));
                assert(self@.frames =~= m0.frames.update(j, m0.frames[j].push(SubSpec::Word(w@))));
                assert(self@ =~= spec_word_step(m0, w@));
            }
        }
    }

    /// Consumes an enter-context token.
    pub fn enter(&mut self)
        ensures
            final(self)@ == spec_enter_step(old(self)@),
            final(self).inv() == old(self).inv(),
    {
        let ghost m0 = self@;
        if self.invalid {
            self.diags.push(Diagnostic::AlreadyInvalid);
            proof {
                assert(self@ =~= spec_enter_step(m0));
            }
            return;
        }
        self.frames.push(Vec::new());
        let d = self.frames.len();
        self.diags.push(Diagnostic::EnteredContext(d));
        proof {
            assert(subs_view(Seq::<Sub>::empty()) =~= Seq::<SubSpec>::empty());
            assert(self@.frames =~= m0.frames.push(seq![]));
            assert(self@ =~= spec_enter_step(m0));
        }
    }

    /// Consumes an exit-context token.
    pub fn exit(&mut self)
        ensures
            final(self)@ == spec_exit_step(old(self)@),
            final(self).inv() == old(self).inv(),
    {
        let ghost m0 = self@;
        if self.invalid {
            self.diags.push(Diagnostic::AlreadyInvalid);
            proof {
                assert(self@ =~= spec_exit_step(m0));
            }
            return;
        }
        if self.frames.len() == 0 {
            self.invalid = true;
            self.diags.push(Diagnostic::UnbalancedClose);
            proof {
                assert(self@ =~= spec_exit_step(m0));
            }
            return;
        }
        let f = self.frames.pop().unwrap();
        let t = Sub::Tree(f);
        let d = self.frames.len();
        self.diags.push(Diagnostic::ExitedContext(d));
        if self.frames.len() == 0 {
            self.top.push(t);
            proof {
                lemma_subs_view_push(old(self).top@, self.top@.last());
                assert(self@.frames =~= m0.frames.drop_last());
                assert(self@ =~= spec_exit_step(m0));
            }
        } else {
            let mut g = self.frames.pop().unwrap();
            let ghost g0 = g@;
            g.push(t);
            self.frames.push(g);
            proof {
                let rest = m0.frames.drop_last();
                let j = rest.len() - 1;
                lemma_subs_view_push(g0, g@.last());
                assert(self.frames@ =~= old(self).frames@.drop_last().update(j, self.frames@.last()));
                assert(self@.frames =~= rest.update(j, rest[j].push(SubSpec::Tree(m0.frames.last()))));
                assert(self@ =~= spec_exit_step(m0));
            }
        }
    }

    /// Consumes one token.
    pub fn feed(&mut self, t: Token)
        ensures
            final(self)@ == spec_feed(old(self)@, t@),
            final(self).inv() == old(self).inv(),
    {
        match t {
            Token::Word(w) => self.word(w),
            Token::EnterContext => self.enter(),
            Token::ExitContext => self.exit(),
        }
    }

    /// Hands out the diagnostic records so far, oldest first, and clears
    /// the record. Nothing else changes.
    pub fn take_diagnostics(&mut self) -> (d: Vec<Diagnostic>)
        ensures
            d@ == old(self)@.diags,
            final(self)@ == (MachModel { diags: seq![], ..old(self)@ }),
            final(self).inv() == old(self).inv(),
    {
        let mut out: Vec<Diagnostic> = Vec::new();
        core::mem::swap(&mut self.diags, &mut out);
        proof {
            assert(self@ =~= (MachModel { diags: seq![], ..old(self)@ }));
        }
        out
    }

    /// Explicit recovery: clears the sticky invalid state and discards any
    /// unfinished frames. The completed top-level sequence, the macro
    /// table, the variable store, the value stack and the diagnostics are
    /// kept.
    pub fn reset(&mut self)
        ensures
            final(self)@ == (MachModel { invalid: false, frames: seq![], ..old(self)@ }),
            final(self).inv() == old(self).inv(),
    {
        self.invalid = false;
        self.frames = Vec::new();
        proof {
            assert(self@.frames =~= Seq::<Seq<SubSpec>>::empty());
            assert(self@ =~= (MachModel { invalid: false, frames: seq![], ..old(self)@ }));
        }
    }
}


/// One line's effect on the machine: its characters are tokenized and
/// consumed, and the completed top-level sequence is then evaluated as
/// one fragment, an error abandoning the rest of it and leaving one
/// error-level diagnostic.
pub open spec fn spec_run_line(m: MachModel, s: Seq<char>) -> MachModel {
    let m1 = spec_feed_all(m, spec_tokenize(s));
    let out = spec_eval_items(m1.env(), m1.top, EVAL_FUEL as nat);
    MachModel {
        top: seq![],
        macros: out.env.macros,
        vars: out.env.vars,
        stack: out.env.stack,
        diags: match out.err {
            Some(k) => m1.diags.push(Diagnostic::EvalFailed(k)),
            None => m1.diags,
        },
        ..m1
    }
}

impl Mach {
    /// Pops `cnt` values and pushes one list holding them in pop order.
    #[verifier::loop_isolation(false)]
    fn collect_list(&mut self, cnt: usize)
        requires
            old(self).inv(),
            cnt <= old(self)@.stack.len(),
        ensures
            final(self).inv(),
            final(self)@ == (MachModel {
                stack: old(self)@.stack.take(old(self)@.stack.len() - cnt).push(
                    ValSpec::List(
                        Seq::new(
                            cnt as nat,
                            |t: int| old(self)@.stack[old(self)@.stack.len() - 1 - t],
                        ),
                    ),
                ),
                ..old(self)@
            }),
    {
        let ghost below = self@.stack;
        let ghost m0 = self@;
        proof {
            lemma_seq_val_view(self.stack@);
            assert(seq_val_view(self.stack@) =~= below.take(below.len() as int));
        }
        let mut lst: Vec<Value> = Vec::new();
        let mut j: usize = 0;
        while j < cnt
            invariant
                self.inv(),
                self@.invalid == m0.invalid,
                self@.frames == m0.frames,
                self@.top == m0.top,
                self@.diags == m0.diags,
                self@.macros == m0.macros,
                self@.vars == m0.vars,
                j <= cnt,
                self.stack@.len() == below.len() - j,
                seq_val_view(self.stack@) == below.take(below.len() - j),
                lst@.len() == j,
                forall|t: int| 0 <= t < j
                    ==> val_view(#[trigger] lst@[t]) == below[below.len() - 1 - t],
            decreases cnt - j,
        {
            let ghost stc = self.stack@;
            let v = self.stack.pop().unwrap();
            proof {
                lemma_seq_val_view_drop_last(stc);
                assert(below.take(below.len() - j).last() == below[below.len() - 1 - j]);
                assert(below.take(below.len() - j).drop_last()
                    =~= below.take(below.len() - (j + 1)));
            }
            lst.push(v);
            j = j + 1;
        }
        let ghost st1 = self.stack@;
        let ghost lstv = lst@;
        let lv = Value::List(lst);
        proof {
            lemma_seq_val_view(lstv);
            assert forall|t: int| 0 <= t < lstv.len() implies seq_val_view(lstv)[t]
                == below[below.len() - 1 - t] by {
                assert(val_view(lstv[t]) == below[below.len() - 1 - t]);
            }
            assert(seq_val_view(lstv) =~= Seq::new(
                cnt as nat,
                |t: int| below[below.len() - 1 - t],
            ));
            assert(val_view(lv) == ValSpec::List(seq_val_view(lstv)));
            lemma_seq_val_view_push(st1, lv);
        }
        self.stack.push(lv);
        proof {
            assert(self@ =~= (MachModel {
                stack: below.take(below.len() - cnt).push(
                    ValSpec::List(
                        Seq::new(cnt as nat, |t: int| below[below.len() - 1 - t]),
                    ),
                ),
                ..m0
            }));
        }
    }

    /// Evaluates an ordered sequence of syntax nodes against the value
    /// stack, the macro table and the variable store.
    #[verifier::loop_isolation(false)]
    #[verifier::rlimit(100)]
    fn eval_items(&mut self, items: &Vec<Sub>, fuel: u64) -> (r: Result<(), ErrorKind>)
        requires
            old(self).inv(),
        ensures
            final(self).inv(),
            ({
                let out = spec_eval_items(old(self)@.env(), subs_view(items@), fuel as nat);
                &&& final(self)@ == (MachModel {
                    macros: out.env.macros,
                    vars: out.env.vars,
                    stack: out.env.stack,
                    ..old(self)@
                })
                &&& r == (match out.err {
                    None => Ok::<(), ErrorKind>(()),
                    Some(k) => Err::<(), ErrorKind>(k),
                })
            }),
        decreases fuel,
    {
        let ghost full = subs_view(items@);
        let ghost env0 = self@.env();
        let ghost m0 = self@;
        proof {
            lemma_seq_sub_view(items@);
            assert(full.skip(0) =~= full);
        }
        let mut i: usize = 0;
        while i < items.len()
            invariant
                self.inv(),
                i <= items@.len(),
                self@.invalid == m0.invalid,
                self@.frames == m0.frames,
                self@.top == m0.top,
                self@.diags == m0.diags,
                spec_eval_items(env0, full, fuel as nat)
                    == spec_eval_items(self@.env(), full.skip(i as int), fuel as nat),
            decreases items@.len() - i,
        {
            let ghost envc = self@.env();
            let ghost rem = full.skip(i as int);
            proof {
                assert(rem[0] == sub_view(items@[i as int]));
                assert(rem.skip(1) =~= full.skip(i as int + 1));
            }
            match &items[i] {
                Sub::Tree(ch) => {
                    if fuel == 0 {
                        proof {
                            assert(spec_eval_items(env0, full, fuel as nat)
                                == (EvalOut { env: envc, err: Some(ErrorKind::RecursionLimit) }));
                        }
                        return Err(ErrorKind::RecursionLimit);
                    }
                    let r = self.eval_items(ch, fuel - 1);
                    proof {
                        let inner = spec_eval_items(envc, subs_view(ch@), (fuel - 1) as nat);
                        assert(self@.env() =~= inner.env);
                    }
                    match r {
                        Ok(()) => {
                            i = i + 1;
                        },
                        Err(k) => {
                            return Err(k);
                        },
                    }
                },
                Sub::Word(wrd) => {
                    let ghost rest = full.skip(i as int + 1);
                    proof {
                        assert(rem[0] == SubSpec::Word(wrd@));
                        assert(spec_eval_items(envc, rem, fuel as nat)
                            == spec_eval_word(envc, rest, wrd@, fuel as nat));
                        if i + 1 < items@.len() {
                            assert(rest[0] == sub_view(items@[i as int + 1]));
                            assert(rest.skip(1) =~= full.skip(i as int + 2));
                        }
                        if i + 2 < items@.len() {
                            assert(rest[1] == sub_view(items@[i as int + 2]));
                            assert(rest.skip(2) =~= full.skip(i as int + 3));
                        }
                    }
                    if is_word_fn(wrd) {
                        if items.len() - i >= 3 {
                            let shape: Option<(Vec<char>, Vec<Sub>)> =
                                match (&items[i + 1], &items[i + 2]) {
                                    (Sub::Word(nm), Sub::Tree(bd)) => {
                                        Some((clone_chars(nm), clone_subs(bd)))
                                    },
                                    _ => None,
                                };
                            match shape {
                                Some((name, body)) => {
                                    let ghost namev = name@;
                                    let ghost bodyv = subs_view(body@);
                                    proof {
                                        lemma_vec_sub_deep_view(body);
                                        assert(rest[0] is Word && rest[0]->Word_0 == namev);
                                        assert(rest[1] is Tree && rest[1]->Tree_0 == bodyv);
                                    }
                                    self.macros.define(name, body);
                                    proof {
                                        assert(self@.env() =~= (EvalEnv {
                                            macros: envc.macros.insert(namev, bodyv),
                                            ..envc
                                        }));
                                    }
                                    i = i + 3;
                                },
                                None => {
                                    proof {
                                        assert(!(rest[0] is Word && rest[1] is Tree));
                                    }
                                    return Err(ErrorKind::ArityMismatch);
                                },
                            }
                        } else {
                            return Err(ErrorKind::ArityMismatch);
                        }
                    } else if is_word1(wrd, '$') {
                        if items.len() - i >= 2 {
                            let namec: Option<Vec<char>> = match &items[i + 1] {
                                Sub::Word(nm) => Some(clone_chars(nm)),
                                _ => None,
                            };
                            match namec {
                                Some(name) => {
                                    let ghost namev = name@;
                                    proof {
                                        assert(rest[0] is Word && rest[0]->Word_0 == namev);
                                    }
                                    if self.stack.len() > 0 {
                                        let ghost st0 = self.stack@;
                                        let v = self.stack.pop().unwrap();
                                        proof {
                                            lemma_seq_val_view_drop_last(st0);
                                        }
                                        self.vars.define(name, v);
                                        proof {
                                            assert(self@.env() =~= (EvalEnv {
                                                vars: envc.vars.insert(namev, envc.stack.last()),
                                                stack: envc.stack.drop_last(),
                                                ..envc
                                            }));
                                        }
                                        i = i + 2;
                                    } else {
                                        let copied: Option<Value> =
                                            match self.vars.lookup(&name) {
                                                Ok(p) => Some(p.clone()),
                                                Err(_) => None,
                                            };
                                        match copied {
                                            Some(v) => {
                                                let ghost st0 = self.stack@;
                                                proof {
                                                    lemma_seq_val_view_push(st0, v);
                                                }
                                                self.stack.push(v);
                                                proof {
                                                    assert(self@.env() =~= (EvalEnv {
                                                        stack: envc.stack.push(envc.vars[namev]),
                                                        ..envc
                                                    }));
                                                }
                                                i = i + 2;
                                            },
                                            None => {
                                                return Err(ErrorKind::UndefinedName);
                                            },
                                        }
                                    }
                                },
                                None => {
                                    return Err(ErrorKind::ArityMismatch);
                                },
                            }
                        } else {
                            return Err(ErrorKind::ArityMismatch);
                        }
                    } else if is_word1(wrd, '+') || is_word1(wrd, '-') || is_word1(wrd, '*')
                        || is_word1(wrd, '/') || is_word1(wrd, '%') {
                        proof {
                            assert(is_arith_word(wrd@));
                            lemma_seq_val_view(self.stack@);
                        }
                        if self.stack.len() >= 2 {
                            let n = self.stack.len();
                            let ab: Option<(i64, i64)> = match (&self.stack[n - 2], &self.stack[n - 1]) {
                                (Value::Num(a), Value::Num(b)) => Some((*a, *b)),
                                _ => None,
                            };
                            match ab {
                                Some((a, b)) => {
                                    let ghost st0 = self.stack@;
                                    proof {
                                        assert(envc.stack.last() == val_view(st0.last()));
                                        assert(envc.stack[envc.stack.len() - 2]
                                            == val_view(st0[st0.len() - 2]));
                                    }
                                    let _ = self.stack.pop();
                                    let _ = self.stack.pop();
                                    proof {
                                        lemma_seq_val_view_drop_last(st0);
                                        lemma_seq_val_view_drop_last(st0.drop_last());
                                    }
                                    let res: Result<i64, ErrorKind> = if is_word1(wrd, '+') {
                                        Ok(a.wrapping_add(b))
                                    } else if is_word1(wrd, '-') {
                                        Ok(a.wrapping_sub(b))
                                    } else if is_word1(wrd, '*') {
                                        Ok(a.wrapping_mul(b))
                                    } else if is_word1(wrd, '/') {
                                        if b == 0 {
                                            Err(ErrorKind::DivisionByZero)
                                        } else {
                                            match a.checked_div(b) {
                                                Some(q) => Ok(q),
                                                None => Ok(i64::MIN),
                                            }
                                        }
                                    } else {
                                        if b == 0 {
                                            Err(ErrorKind::ModuloByZero)
                                        } else {
                                            match a.checked_rem(b) {
                                                Some(r0) => Ok(r0),
                                                None => Ok(0),
                                            }
                                        }
                                    };
                                    proof {
                                        assert(res == arith_result(wrd@, a, b));
                                    }
                                    match res {
                                        Ok(v) => {
                                            let ghost st1 = self.stack@;
                                            proof {
                                                lemma_seq_val_view_push(st1, Value::Num(v));
                                            }
                                            self.stack.push(Value::Num(v));
                                            i = i + 1;
                                        },
                                        Err(k) => {
                                            return Err(k);
                                        },
                                    }
                                },
                                None => {
                                    proof {
                                        assert(envc.stack.last() == val_view(self.stack@.last()));
                                        assert(envc.stack[envc.stack.len() - 2]
                                            == val_view(self.stack@[self.stack@.len() - 2]));
                                    }
                                    return Err(ErrorKind::ArityMismatch);
                                },
                            }
                        } else {
                            return Err(ErrorKind::ArityMismatch);
                        }
                    } else if is_word1(wrd, '@') {
                        proof {
                            lemma_seq_val_view(self.stack@);
                        }
                        if self.stack.len() >= 1 {
                            let n = self.stack.len();
                            let cnt_opt: Option<i64> = match &self.stack[n - 1] {
                                Value::Num(c) => Some(*c),
                                _ => None,
                            };
                            match cnt_opt {
                                Some(cv) => {
                                    proof {
                                        assert(envc.stack.last() == val_view(self.stack@.last()));
                                    }
                                    if cv >= 0 && (cv as u64) <= ((self.stack.len() - 1) as u64) {
                                        let ghost st0 = self.stack@;
                                        let _ = self.stack.pop();
                                        proof {
                                            lemma_seq_val_view_drop_last(st0);
                                        }
                                        let ghost below = seq_val_view(self.stack@);
                                        let cnt = cv as usize;
                                        self.collect_list(cnt);
                                        proof {
                                            assert(self@.env() =~= (EvalEnv {
                                                stack: below.take(below.len() - cv as int).push(
                                                    ValSpec::List(Seq::new(
                                                        cv as nat,
                                                        |t: int| below[below.len() - 1 - t],
                                                    )),
                                                ),
                                                ..envc
                                            }));
                                        }
                                        i = i + 1;
                                    } else {
                                        return Err(ErrorKind::ArityMismatch);
                                    }
                                },
                                None => {
                                    proof {
                                        assert(envc.stack.last() == val_view(self.stack@.last()));
                                    }
                                    return Err(ErrorKind::ArityMismatch);
                                },
                            }
                        } else {
                            return Err(ErrorKind::ArityMismatch);
                        }
                    } else {
                        let mac: Option<Vec<Sub>> = match self.macros.lookup(wrd) {
                            Ok(b) => {
                                let c = clone_subs(b);
                                proof {
                                    lemma_vec_sub_deep_view(*b);
                                    assert(subs_view(c@) == envc.macros[wrd@]);
                                }
                                Some(c)
                            },
                            Err(_) => None,
                        };
                        match mac {
                            Some(body) => {
                                proof {
                                    assert(subs_view(body@) == envc.macros[wrd@]);
                                }
                                if fuel == 0 {
                                    return Err(ErrorKind::RecursionLimit);
                                }
                                let r = self.eval_items(&body, fuel - 1);
                                proof {
                                    let inner = spec_eval_items(
                                        envc,
                                        envc.macros[wrd@],
                                        (fuel - 1) as nat,
                                    );
                                    assert(self@.env() =~= inner.env);
                                }
                                match r {
                                    Ok(()) => {
                                        i = i + 1;
                                    },
                                    Err(k) => {
                                        return Err(k);
                                    },
                                }
                            },
                            None => {
                                let copied: Option<Value> = match self.vars.lookup(wrd) {
                                    Ok(p) => Some(p.clone()),
                                    Err(_) => None,
                                };
                                match copied {
                                    Some(v) => {
                                        let ghost st0 = self.stack@;
                                        proof {
                                            lemma_seq_val_view_push(st0, v);
                                        }
                                        self.stack.push(v);
                                        proof {
                                            assert(self@.env() =~= (EvalEnv {
                                                stack: envc.stack.push(envc.vars[wrd@]),
                                                ..envc
                                            }));
                                        }
                                        i = i + 1;
                                    },
                                    None => {
                                        match parse_literal(wrd) {
                                            Some(nv) => {
                                                let ghost st0 = self.stack@;
                                                proof {
                                                    lemma_seq_val_view_push(st0, Value::Num(nv));
                                                }
                                                self.stack.push(Value::Num(nv));
                                                i = i + 1;
                                            },
                                            None => {
                                                return Err(ErrorKind::UndefinedWord);
                                            },
                                        }
                                    },
                                }
                            },
                        }
                    }
                },
            }
        }
        proof {
            assert(full.skip(items@.len() as int) =~= Seq::<SubSpec>::empty());
        }
        Ok(())
    }

    /// Feeds one line of characters through the tokenizer and the tree
    /// builder, then evaluates the completed top-level sequence as one
    /// fragment. An evaluation error abandons the rest of the fragment
    /// and leaves one error-level diagnostic; the next line starts clean.
    pub fn run_line(&mut self, chars: &[char])
        requires
            old(self).inv(),
        ensures
            final(self).inv(),
            final(self)@ == spec_run_line(old(self)@, chars@),
    {
        let ghost mstart = self@;
        let mut toks = tokenize(chars);
        let ghost tv = toks_view(toks@);
        proof {
            assert(spec_feed_all(mstart, toks_view(toks@)) == spec_feed_all(mstart, tv));
        }
        while toks.len() > 0
            invariant
                self.inv(),
                spec_feed_all(mstart, tv) == spec_feed_all(self@, toks_view(toks@)),
            decreases toks@.len(),
        {
            let ghost r0 = toks@;
            let t = toks.remove(0);
            proof {
                assert(toks_view(r0)[0] == t@);
                assert(toks_view(toks@) =~= toks_view(r0).skip(1));
            }
            self.feed(t);
        }
        proof {
            assert(toks_view(toks@) =~= Seq::<Tok>::empty());
            assert(spec_feed_all(self@, toks_view(toks@)) == self@);
        }
        let ghost m1 = self@;
        let mut items: Vec<Sub> = Vec::new();
        core::mem::swap(&mut self.top, &mut items);
        proof {
            assert(subs_view(Seq::<Sub>::empty()) =~= Seq::<SubSpec>::empty());
            assert(self@ =~= (MachModel { top: seq![], ..m1 }));
            assert(self@.env() =~= m1.env());
        }
        let r = self.eval_items(&items, EVAL_FUEL);
        match r {
            Ok(()) => {
                proof {
                    assert(self@ =~= spec_run_line(mstart, chars@));
                }
            },
            Err(k) => {
                self.diags.push(Diagnostic::EvalFailed(k));
                proof {
                    assert(self@ =~= spec_run_line(mstart, chars@));
                }
            },
        }
    }
}

} // verus!
