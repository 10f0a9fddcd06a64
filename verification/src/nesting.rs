//! Bracket-nesting tracker: a finite-state machine over
//! `{Outside, Inside(depth), Invalid}` validating bracket balance.

use vstd::prelude::*;
use crate::token::Tok;

verus! {

/// Nesting-tracker state.
///
/// `Inside(d)` holds exactly when `d + 1` contexts are currently open;
/// `Invalid` is the sticky error state reached by an unbalanced close. No
/// transition leaves `Invalid`; recovery is only by an explicit reset of
/// the machine that owns the tracker.
#[derive(Clone, Copy, Debug, PartialEq, Eq, Structural)]
pub enum NestingState {
    Outside,
    Inside(usize),
    Invalid,
}

impl NestingState {
    /// The number of currently open contexts in this state.
    pub open spec fn depth(self) -> nat {
        match self {
            NestingState::Outside => 0,
            NestingState::Inside(d) => (d + 1) as nat,
            NestingState::Invalid => 0,
        }
    }

    pub fn new() -> (s: NestingState)
        ensures
            s == NestingState::Outside,
    {
        NestingState::Outside
    }
}

/// The transition taken on an enter-context event.
pub open spec fn enter_state(s: NestingState) -> NestingState {
    match s {
        NestingState::Outside => NestingState::Inside(0),
        NestingState::Inside(d) => NestingState::Inside((d + 1) as usize),
        NestingState::Invalid => NestingState::Invalid,
    }
}

/// The transition taken on an exit-context event.
pub open spec fn exit_state(s: NestingState) -> NestingState {
    match s {
        NestingState::Outside => NestingState::Invalid,
        NestingState::Inside(d) => if d == 0 {
            NestingState::Outside
        } else {
            NestingState::Inside((d - 1) as usize)
        },
        NestingState::Invalid => NestingState::Invalid,
    }
}

/// The contribution of one token to the nesting depth.
pub open spec fn tok_delta(t: Tok) -> int {
    match t {
        Tok::EnterContext => 1,
        Tok::ExitContext => -1,
        Tok::Word(_) => 0,
    }
}

/// The nesting depth after the first `k` tokens of `toks`, starting at 0.
pub open spec fn depth_sum(toks: Seq<Tok>, k: int) -> int
    decreases k,
{
    if k <= 0 {
        0
    } else {
        depth_sum(toks, k - 1) + tok_delta(toks[k - 1])
    }
}

/// A token sequence is balanced when no prefix closes more contexts than
/// it has opened and the whole sequence closes every context it opens.
pub open spec fn balanced(toks: Seq<Tok>) -> bool {
    &&& depth_sum(toks, toks.len() as int) == 0
    &&& forall|k: int| 0 <= k <= toks.len() ==> depth_sum(toks, k) >= 0
}

/// `j` is the matching exit for the enter at `i`: the exit that returns
/// the depth to what it was immediately before the enter, with the depth
/// staying strictly above that level in between.
pub open spec fn is_matching_exit(toks: Seq<Tok>, i: int, j: int) -> bool {
    &&& i < j < toks.len()
    &&& toks[j] is ExitContext
    &&& depth_sum(toks, j + 1) == depth_sum(toks, i)
    &&& forall|k: int| i < k <= j ==> depth_sum(toks, k) > depth_sum(toks, i)
}

/// Skipping the first token shifts every prefix depth by that token's
/// contribution.
pub proof fn lemma_depth_sum_skip(toks: Seq<Tok>, k: int)
    requires
        0 <= k <= toks.len() - 1,
    ensures
        depth_sum(toks.skip(1), k) == depth_sum(toks, k + 1) - tok_delta(toks[0]),
    decreases k,
{
    if k > 0 {
        lemma_depth_sum_skip(toks, k - 1);
        assert(toks.skip(1)[k - 1] == toks[k]);
        assert(depth_sum(toks.skip(1), k)
            == depth_sum(toks.skip(1), k - 1) + tok_delta(toks.skip(1)[k - 1]));
        assert(depth_sum(toks, k + 1) == depth_sum(toks, k) + tok_delta(toks[k]));
    } else {
        assert(depth_sum(toks.skip(1), 0) == 0);
        assert(depth_sum(toks, 0) == 0);
        assert(depth_sum(toks, 1) == depth_sum(toks, 0) + tok_delta(toks[0]));
    }
}

/// From a position where the depth sits above `d` to one where it sits at
/// or below `d`, there is a first step down through `d`, and that step is
/// an exit.
proof fn lemma_first_descent(toks: Seq<Tok>, d: int, a: int)
    requires
        0 <= a <= toks.len(),
        depth_sum(toks, a) > d,
        depth_sum(toks, toks.len() as int) <= d,
    ensures
        exists|j: int| {
            &&& a <= j < toks.len()
            &&& toks[j] is ExitContext
            &&& depth_sum(toks, j + 1) == d
            &&& forall|k: int| a <= k <= j ==> #[trigger] depth_sum(toks, k) > d
        },
    decreases toks.len() - a,
{
    assert(a < toks.len());
    if depth_sum(toks, a + 1) <= d {
        let j = a;
        assert(depth_sum(toks, j + 1) == depth_sum(toks, j) + tok_delta(toks[j]));
        assert(tok_delta(toks[j]) < 0);
        assert(toks[j] is ExitContext);
        assert(depth_sum(toks, j + 1) == d);
        assert(forall|k: int| a <= k <= j ==> #[trigger] depth_sum(toks, k) > d);
    } else {
        lemma_first_descent(toks, d, a + 1);
        let j = choose|j: int| {
            &&& a + 1 <= j < toks.len()
            &&& toks[j] is ExitContext
            &&& depth_sum(toks, j + 1) == d
            &&& forall|k: int| a + 1 <= k <= j ==> #[trigger] depth_sum(toks, k) > d
        };
        assert(forall|k: int| a <= k <= j ==> #[trigger] depth_sum(toks, k) > d);
        assert(a <= j < toks.len() && toks[j] is ExitContext && depth_sum(toks, j + 1) == d);
    }
}

/// For every enter-context token of a balanced sequence there is exactly
/// one matching exit-context token: one exit returns the tracker to the
/// depth held immediately before that enter, and no other exit does so
/// while the opened context is still open.
pub proof fn lemma_matching_exit_exists_unique(toks: Seq<Tok>, i: int)
    requires
        balanced(toks),
        0 <= i < toks.len(),
        toks[i] is EnterContext,
    ensures
        exists|j: int| is_matching_exit(toks, i, j),
        forall|j1: int, j2: int|
            is_matching_exit(toks, i, j1) && is_matching_exit(toks, i, j2) ==> j1 == j2,
{
    let d = depth_sum(toks, i);
    assert(depth_sum(toks, i + 1) == d + 1);
    assert(depth_sum(toks, toks.len() as int) == 0);
    assert(d >= 0);
    lemma_first_descent(toks, d, i + 1);
    let j = choose|j: int| {
        &&& i + 1 <= j < toks.len()
        &&& toks[j] is ExitContext
        &&& depth_sum(toks, j + 1) == d
        &&& forall|k: int| i + 1 <= k <= j ==> #[trigger] depth_sum(toks, k) > d
    };
    assert(is_matching_exit(toks, i, j));
    assert forall|j1: int, j2: int|
        is_matching_exit(toks, i, j1) && is_matching_exit(toks, i, j2) implies j1 == j2 by {
        if j1 < j2 {
            assert(depth_sum(toks, j1 + 1) == d);
            assert(i < j1 + 1 <= j2);
            assert(depth_sum(toks, j1 + 1) > d);
        } else if j2 < j1 {
            assert(depth_sum(toks, j2 + 1) == d);
            assert(i < j2 + 1 <= j1);
            assert(depth_sum(toks, j2 + 1) > d);
        }
    }
}

} // verus!
