//! Lists of things that are done in order, each only if those before it succeed.

use vstd::prelude::*;

verus! {

/// How a list goes on.
#[derive(Debug, PartialEq, Eq)]
pub enum PlanNext {
    /// With the item at this position.
    Do(usize),
    /// It has ended, with success or for this reason.
    Finish(Result<(), String>),
}

/// How a list goes on, as contracts speak of it.
pub enum PlanNextView {
    Do(int),
    Finish(Result<(), Seq<char>>),
}

/// An outcome as contracts speak of it.
pub open spec fn outcome_view(outcome: Result<(), String>) -> Result<(), Seq<char>> {
    match outcome {
        Ok(()) => Ok(()),
        Err(e) => Err(e@),
    }
}

impl View for PlanNext {
    type V = PlanNextView;

    open spec fn view(&self) -> PlanNextView {
        match self {
            PlanNext::Do(at) => PlanNextView::Do(*at as int),
            PlanNext::Finish(outcome) => PlanNextView::Finish(outcome_view(*outcome)),
        }
    }
}

/// How a list of this length goes on with the item at a position, if there is
/// one.
pub open spec fn plan_at(len: nat, at: int) -> PlanNextView {
    if at < len {
        PlanNextView::Do(at)
    } else {
        PlanNextView::Finish(Ok(()))
    }
}

/// How a list of this length goes on when the item at a position came to this.
pub open spec fn plan_step(len: nat, at: int, outcome: Result<(), Seq<char>>) -> PlanNextView {
    match outcome {
        Ok(()) => plan_at(len, at + 1),
        Err(e) => PlanNextView::Finish(Err(e)),
    }
}

/// Begins a list.
pub fn begin_plan<A>(items: &Vec<A>) -> (r: PlanNext)
    ensures
        r@ == plan_at(items@.len(), 0),
{
    if items.len() > 0 {
        PlanNext::Do(0)
    } else {
        PlanNext::Finish(Ok(()))
    }
}

/// Goes on with a list when the item at a position came to this.
pub fn after_step<A>(items: &Vec<A>, at: usize, outcome: Result<(), String>) -> (r: PlanNext)
    requires
        at < items@.len(),
    ensures
        r@ == plan_step(items@.len(), at as int, outcome_view(outcome)),
{
    match outcome {
        Err(e) => PlanNext::Finish(Err(e)),
        Ok(()) => {
            let len: usize = items.len();
            if at + 1 < len {
                PlanNext::Do(at + 1)
            } else {
                PlanNext::Finish(Ok(()))
            }
        },
    }
}

// Laws.

/// What has come of a list so far: how it goes on, and the items that were
/// begun.
pub struct PlanRun<A> {
    pub next: PlanNextView,
    pub begun: Seq<A>,
}

/// A run with the item that is begun next, if one is.
pub open spec fn begin_next<A>(items: Seq<A>, begun: Seq<A>, next: PlanNextView) -> PlanRun<A> {
    match next {
        PlanNextView::Do(at) => PlanRun { next, begun: begun.push(items[at]) },
        PlanNextView::Finish(_) => PlanRun { next, begun },
    }
}

/// What has come of a list when the items that were begun came to these
/// outcomes, one after the other.
pub open spec fn plan_run<A>(items: Seq<A>, outcomes: Seq<Result<(), Seq<char>>>) -> PlanRun<A>
    decreases outcomes.len(),
{
    if outcomes.len() == 0 {
        begin_next(items, Seq::empty(), plan_at(items.len(), 0))
    } else {
        let before = plan_run(items, outcomes.drop_last());
        match before.next {
            PlanNextView::Do(at) => begin_next(
                items,
                before.begun,
                plan_step(items.len(), at, outcomes.last()),
            ),
            PlanNextView::Finish(_) => before,
        }
    }
}

/// As long as every item succeeds, the list goes on with the next; and when all
/// items of it have been done, it ends with success.
pub proof fn law_plan_goes_on<A>(items: Seq<A>, outcomes: Seq<Result<(), Seq<char>>>)
    requires
        outcomes.len() <= items.len(),
        forall|i: int| 0 <= i < outcomes.len() ==> #[trigger] outcomes[i] is Ok,
    ensures
        plan_run(items, outcomes).next == plan_at(items.len(), outcomes.len() as int),
        plan_run(items, outcomes).begun == if outcomes.len() < items.len() {
            items.take(outcomes.len() as int + 1)
        } else {
            items
        },
    decreases outcomes.len(),
{
    if outcomes.len() == 0 {
        if items.len() > 0 {
            assert(Seq::empty().push(items[0]) =~= items.take(1));
        } else {
            assert(items =~= Seq::empty());
        }
    } else {
        let n = outcomes.len() as int;
        let before = outcomes.drop_last();
        assert forall|i: int| 0 <= i < before.len() implies #[trigger] before[i] is Ok by {
            assert(before[i] == outcomes[i]);
        }
        law_plan_goes_on(items, before);
        assert(outcomes[n - 1] is Ok);
        if n < items.len() {
            assert(items.take(n).push(items[n]) =~= items.take(n + 1));
        } else {
            assert(items.take(n) =~= items);
        }
    }
}

/// The first item that fails ends the list with its reason: the items begun are
/// that one and those before it.
pub proof fn law_plan_stops<A>(items: Seq<A>, outcomes: Seq<Result<(), Seq<char>>>, k: int)
    requires
        0 <= k < items.len(),
        k < outcomes.len(),
        forall|i: int| 0 <= i < k ==> #[trigger] outcomes[i] is Ok,
        outcomes[k] is Err,
    ensures
        plan_run(items, outcomes) == (PlanRun {
            next: PlanNextView::Finish(outcomes[k]),
            begun: items.take(k + 1),
        }),
    decreases outcomes.len(),
{
    let before = outcomes.drop_last();
    if k == outcomes.len() - 1 {
        law_plan_goes_on(items, before);
    } else {
        law_plan_stops(items, before, k);
    }
}

/// A list ends with success exactly if each of its items succeeded.
pub proof fn law_plan_succeeds<A>(items: Seq<A>, outcomes: Seq<Result<(), Seq<char>>>)
    ensures
        plan_run(items, outcomes).next == PlanNextView::Finish(Ok(())) <==> items.len()
            <= outcomes.len() && forall|i: int|
            0 <= i < items.len() ==> #[trigger] outcomes[i] is Ok,
    decreases outcomes.len(),
{
    if outcomes.len() > items.len() {
        let before = outcomes.drop_last();
        law_plan_succeeds(items, before);
        assert(forall|i: int| 0 <= i < items.len() ==> before[i] == outcomes[i]);
        lemma_plan_has_ended(items, before);
    } else if forall|i: int| 0 <= i < outcomes.len() ==> #[trigger] outcomes[i] is Ok {
        law_plan_goes_on(items, outcomes);
    } else {
        let k = lemma_first_failure(outcomes);
        law_plan_stops(items, outcomes, k);
    }
}

proof fn lemma_first_failure(outcomes: Seq<Result<(), Seq<char>>>) -> (k: int)
    requires
        exists|i: int| 0 <= i < outcomes.len() && !(#[trigger] outcomes[i] is Ok),
    ensures
        0 <= k < outcomes.len(),
        outcomes[k] is Err,
        forall|i: int| 0 <= i < k ==> #[trigger] outcomes[i] is Ok,
    decreases outcomes.len(),
{
    let before = outcomes.drop_last();
    if exists|i: int| 0 <= i < before.len() && !(#[trigger] before[i] is Ok) {
        let k = lemma_first_failure(before);
        assert forall|i: int| 0 <= i < k implies #[trigger] outcomes[i] is Ok by {
            assert(before[i] is Ok);
        }
        k
    } else {
        let k = outcomes.len() - 1;
        assert forall|i: int| 0 <= i < k implies #[trigger] outcomes[i] is Ok by {
            assert(before[i] is Ok);
        }
        k
    }
}

/// A list has ended when there are as many outcomes as items.
proof fn lemma_plan_has_ended<A>(items: Seq<A>, outcomes: Seq<Result<(), Seq<char>>>)
    requires
        items.len() <= outcomes.len(),
    ensures
        plan_run(items, outcomes).next is Finish,
    decreases outcomes.len(),
{
    if outcomes.len() > items.len() {
        lemma_plan_has_ended(items, outcomes.drop_last());
    } else if forall|i: int| 0 <= i < outcomes.len() ==> #[trigger] outcomes[i] is Ok {
        law_plan_goes_on(items, outcomes);
    } else {
        let k = lemma_first_failure(outcomes);
        law_plan_stops(items, outcomes, k);
    }
}

} // verus!
