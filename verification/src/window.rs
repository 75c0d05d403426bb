//! Selecting the part of a transcript that is sent as context.
//!
//! The transcript is scanned from its newest turn to its oldest. A turn is
//! taken when it still fits under the budget together with what was taken
//! before it; a turn that does not fit is passed over and the scan goes on,
//! so one large turn never hides the smaller ones behind it. The turns taken
//! are returned oldest first.

use vstd::prelude::*;
use crate::turn::Turn;
use crate::turn::TurnView;

verus! {

/// The sum of the costs of `s`.
pub open spec fn total_tokens(s: Seq<TurnView>) -> nat
    decreases s.len(),
{
    if s.len() == 0 {
        0
    } else {
        s.first().tokens + total_tokens(s.drop_first())
    }
}

/// What the scan has spent once it has passed every turn of `s`, newest first.
pub open spec fn spent(s: Seq<TurnView>, budget: nat) -> nat
    decreases s.len(),
{
    if s.len() == 0 {
        0
    } else {
        let newer = spent(s.drop_first(), budget);
        if newer + s.first().tokens <= budget {
            newer + s.first().tokens
        } else {
            newer
        }
    }
}

/// Whether the scan takes the oldest turn of `s`: it is reached last, and is
/// taken when it fits beside what the newer turns have spent.
pub open spec fn takes_oldest(s: Seq<TurnView>, budget: nat) -> bool {
    s.len() > 0 && spent(s.drop_first(), budget) + s.first().tokens <= budget
}

/// The context window of `s` under `budget`, oldest first.
pub open spec fn window(s: Seq<TurnView>, budget: nat) -> Seq<TurnView>
    decreases s.len(),
{
    if s.len() == 0 {
        Seq::empty()
    } else if takes_oldest(s, budget) {
        seq![s.first()] + window(s.drop_first(), budget)
    } else {
        window(s.drop_first(), budget)
    }
}

/// `at` places `w` inside `s`: element by element, at rising positions.
pub open spec fn placed_at(w: Seq<TurnView>, s: Seq<TurnView>, at: Seq<int>) -> bool {
    &&& at.len() == w.len()
    &&& forall|j: int| 0 <= j < at.len() ==> 0 <= #[trigger] at[j] < s.len() && w[j] == s[at[j]]
    &&& forall|j: int, k: int| 0 <= j < k < at.len() ==> at[j] < at[k]
}

/// `w` is `s` with some turns left out and the others in their order.
pub open spec fn is_subsequence(w: Seq<TurnView>, s: Seq<TurnView>) -> bool {
    exists|at: Seq<int>| placed_at(w, s, at)
}

/// Whether every turn of `s` costs something.
pub open spec fn all_cost_something(s: Seq<TurnView>) -> bool {
    forall|i: int| 0 <= i < s.len() ==> (#[trigger] s[i]).tokens > 0
}

/// The scan never spends more than the budget.
pub proof fn lemma_spent_within_budget(s: Seq<TurnView>, budget: nat)
    ensures
        spent(s, budget) <= budget,
    decreases s.len(),
{
    if s.len() > 0 {
        lemma_spent_within_budget(s.drop_first(), budget);
    }
}

/// The scan never spends more than the whole transcript costs.
pub proof fn lemma_spent_within_total(s: Seq<TurnView>, budget: nat)
    ensures
        spent(s, budget) <= total_tokens(s),
    decreases s.len(),
{
    if s.len() > 0 {
        lemma_spent_within_total(s.drop_first(), budget);
    }
}

/// The window costs exactly what the scan spent.
pub proof fn lemma_window_costs_what_was_spent(s: Seq<TurnView>, budget: nat)
    ensures
        total_tokens(window(s, budget)) == spent(s, budget),
    decreases s.len(),
{
    if s.len() > 0 {
        let rest = s.drop_first();
        lemma_window_costs_what_was_spent(rest, budget);
        if takes_oldest(s, budget) {
            let w = seq![s.first()] + window(rest, budget);
            assert(w.first() == s.first());
            assert(w.drop_first() =~= window(rest, budget));
        }
    }
}

/// For every transcript and budget, the costs of the window sum to at most
/// the budget.
pub proof fn lemma_window_within_budget(s: Seq<TurnView>, budget: nat)
    ensures
        total_tokens(window(s, budget)) <= budget,
{
    lemma_window_costs_what_was_spent(s, budget);
    lemma_spent_within_budget(s, budget);
}

/// The window is a subsequence of the transcript: its turns are turns of the
/// transcript, in the transcript's order.
pub proof fn lemma_window_is_subsequence(s: Seq<TurnView>, budget: nat)
    ensures
        is_subsequence(window(s, budget), s),
    decreases s.len(),
{
    if s.len() == 0 {
        assert(placed_at(window(s, budget), s, Seq::<int>::empty()));
    } else {
        let rest = s.drop_first();
        lemma_window_is_subsequence(rest, budget);
        let inner = choose|at: Seq<int>| placed_at(window(rest, budget), rest, at);
        let shifted = Seq::new(inner.len(), |j: int| inner[j] + 1);
        assert forall|j: int| 0 <= j < shifted.len() implies 0 < #[trigger] shifted[j] < s.len()
            && window(rest, budget)[j] == s[shifted[j]] by {
            assert(0 <= inner[j] < rest.len());
            assert(rest[inner[j]] == s[inner[j] + 1]);
        }
        assert forall|j: int, k: int| 0 <= j < k < shifted.len() implies shifted[j] < shifted[k] by {
            assert(inner[j] < inner[k]);
        }
        if takes_oldest(s, budget) {
            let at = seq![0int] + shifted;
            let w = window(s, budget);
            assert forall|j: int| 0 <= j < at.len() implies 0 <= #[trigger] at[j] < s.len() && w[j]
                == s[at[j]] by {
                if j > 0 {
                    assert(at[j] == shifted[j - 1]);
                    assert(w[j] == window(rest, budget)[j - 1]);
                }
            }
            assert forall|j: int, k: int| 0 <= j < k < at.len() implies at[j] < at[k] by {
                assert(at[k] == shifted[k - 1]);
                if j > 0 {
                    assert(at[j] == shifted[j - 1]);
                }
            }
            assert(placed_at(w, s, at));
        } else {
            assert(placed_at(window(s, budget), s, shifted));
        }
    }
}

/// No turn of the window costs more than the budget: a turn that is too
/// large on its own is never taken.
pub proof fn lemma_window_turns_fit(s: Seq<TurnView>, budget: nat)
    ensures
        forall|j: int| 0 <= j < window(s, budget).len() ==> (#[trigger] window(s, budget)[j]).tokens
            <= budget,
    decreases s.len(),
{
    if s.len() > 0 {
        lemma_window_turns_fit(s.drop_first(), budget);
    }
}

/// Under a budget of zero the window holds no turn that costs something: of
/// a transcript whose turns all cost something, it is empty.
pub proof fn lemma_window_of_zero_budget(s: Seq<TurnView>)
    requires
        all_cost_something(s),
    ensures
        window(s, 0) == Seq::<TurnView>::empty(),
    decreases s.len(),
{
    if s.len() > 0 {
        let rest = s.drop_first();
        assert forall|i: int| 0 <= i < rest.len() implies (#[trigger] rest[i]).tokens > 0 by {
            assert(rest[i] == s[i + 1]);
        }
        lemma_window_of_zero_budget(rest);
        assert(s[0].tokens > 0);
    }
}

/// Under a budget that covers the whole transcript, the window is the whole
/// transcript.
pub proof fn lemma_window_of_ample_budget(s: Seq<TurnView>, budget: nat)
    requires
        total_tokens(s) <= budget,
    ensures
        window(s, budget) == s,
    decreases s.len(),
{
    if s.len() == 0 {
        assert(window(s, budget) =~= s);
    } else {
        let rest = s.drop_first();
        lemma_window_of_ample_budget(rest, budget);
        lemma_spent_within_total(rest, budget);
        assert(takes_oldest(s, budget));
        assert(seq![s.first()] + rest =~= s);
    }
}

/// The window of the turns from `from` on, once the turn before them is
/// decided.
proof fn lemma_scan_step(s: Seq<TurnView>, budget: nat, from: int)
    requires
        0 <= from < s.len(),
    ensures
        s.skip(from).first() == s[from],
        s.skip(from).drop_first() == s.skip(from + 1),
{
    assert(s.skip(from).drop_first() =~= s.skip(from + 1));
}

/// Selects the context window of `transcript` under `budget`.
///
/// The result is `window` of the transcript: the turns that a scan from the
/// newest turn to the oldest takes, each taken when it fits beside those
/// taken before it, returned oldest first.
pub fn select_window(transcript: &Vec<Turn>, budget: u64) -> (selected: Vec<Turn>)
    ensures
        selected.deep_view() == window(transcript.deep_view(), budget as nat),
        total_tokens(selected.deep_view()) <= budget,
        is_subsequence(selected.deep_view(), transcript.deep_view()),
        total_tokens(transcript.deep_view()) <= budget ==> selected.deep_view()
            == transcript.deep_view(),
        budget == 0 && all_cost_something(transcript.deep_view()) ==> selected@.len() == 0,
{
    let ghost s = transcript.deep_view();
    let ghost b = budget as nat;
    let mut taken: Vec<Turn> = Vec::new();
    let mut total: u64 = 0;
    let mut i: usize = transcript.len();
    proof {
        assert(s.skip(i as int) =~= Seq::<TurnView>::empty());
    }
    while i > 0
        invariant
            s == transcript.deep_view(),
            b == budget as nat,
            0 <= i <= transcript.len(),
            total as nat == spent(s.skip(i as int), b),
            total <= budget,
            taken.len() == window(s.skip(i as int), b).len(),
            forall|k: int|
                0 <= k < taken.len() ==> (#[trigger] taken[k])@ == window(s.skip(i as int), b)[
                    taken.len() - 1 - k],
        decreases i,
    {
        i = i - 1;
        let turn = &transcript[i];
        proof {
            lemma_scan_step(s, b, i as int);
            assert(s[i as int] == turn@);
        }
        let ghost before = window(s.skip(i as int + 1), b);
        if turn.tokens <= budget - total {
            total = total + turn.tokens;
            taken.push(turn.duplicate());
            proof {
                let now = window(s.skip(i as int), b);
                assert(now == seq![turn@] + before);
                assert forall|k: int| 0 <= k < taken.len() implies (#[trigger] taken[k])@ == now[
                    taken.len() - 1 - k] by {
                    if k < taken.len() - 1 {
                        assert(now[taken.len() - 1 - k] == before[taken.len() - 2 - k]);
                    }
                }
            }
        }
    }
    let ghost w = window(s, b);
    proof {
        assert(s.skip(0) =~= s);
    }
    let mut selected: Vec<Turn> = Vec::new();
    let mut j: usize = taken.len();
    while j > 0
        invariant
            0 <= j <= taken.len(),
            taken.len() == w.len(),
            forall|k: int| 0 <= k < taken.len() ==> (#[trigger] taken[k])@ == w[taken.len() - 1 - k],
            selected.len() == taken.len() - j,
            forall|k: int| 0 <= k < selected.len() ==> (#[trigger] selected[k])@ == w[k],
        decreases j,
    {
        j = j - 1;
        selected.push(taken[j].duplicate());
    }
    proof {
        assert(selected.deep_view() =~= w);
        lemma_window_within_budget(s, b);
        lemma_window_is_subsequence(s, b);
        if total_tokens(s) <= b {
            lemma_window_of_ample_budget(s, b);
        }
        if budget == 0 && all_cost_something(s) {
            lemma_window_of_zero_budget(s);
        }
    }
    selected
}

} // verus!
