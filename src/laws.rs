//! Properties of the escrow that relate several operations or hold of every
//! input, stated over the operation outcomes that the engine's contracts use.
use vstd::prelude::*;
use crate::types::{Address, Error, ProjectModel};
use crate::backers::{
    amount_of, approval_weight, is_backer, unique, lemma_amount_le_total, lemma_clear,
    lemma_credit, lemma_find,
};
use crate::engine::{
    fund_outcome, has_voted, votes_unique, lemma_milestone_total_update, initialize_outcome, milestone_total, new_milestones, refund_outcome,
    release_outcome, vote_outcome,
};

verus! {

/// One funding call: the time index, the backer and the amount.
pub struct FundCall {
    pub now: u64,
    pub backer: Address,
    pub amount: u128,
}

/// The project after a sequence of funding calls, or `None` if one of them
/// fails.
pub open spec fn fund_all(p: ProjectModel, calls: Seq<FundCall>) -> Option<ProjectModel>
    decreases calls.len(),
{
    if calls.len() == 0 {
        Some(p)
    } else {
        match fund_all(p, calls.drop_last()) {
            Some(q) => match fund_outcome(q, calls.last().now, calls.last().backer, calls.last().amount) {
                Ok(r) => Some(r),
                Err(_) => None,
            },
            None => None,
        }
    }
}

/// The sum of the amounts of a sequence of funding calls.
pub open spec fn sum_amounts(calls: Seq<FundCall>) -> int
    decreases calls.len(),
{
    if calls.len() == 0 {
        0
    } else {
        sum_amounts(calls.drop_last()) + calls.last().amount
    }
}

/// The sum of the amounts that `b` sent in a sequence of funding calls.
pub open spec fn sum_amounts_of(calls: Seq<FundCall>, b: Address) -> int
    decreases calls.len(),
{
    if calls.len() == 0 {
        0
    } else {
        sum_amounts_of(calls.drop_last(), b) + if calls.last().backer == b {
            calls.last().amount as int
        } else {
            0
        }
    }
}

/// A second `initialize` fails with `ProjectAlreadyInitialized`, whatever
/// its arguments.
pub proof fn initialize_only_once(
    now: u64,
    creator: Address,
    token: Address,
    goal: u128,
    deadline: u64,
    specs: Seq<(String, u128)>,
    now2: u64,
    creator2: Address,
    token2: Address,
    goal2: u128,
    deadline2: u64,
    specs2: Seq<(String, u128)>,
)
    requires
        initialize_outcome(None, now, creator, token, goal, deadline, specs) is Ok,
    ensures
        initialize_outcome(
            Some(initialize_outcome(None, now, creator, token, goal, deadline, specs)->Ok_0),
            now2,
            creator2,
            token2,
            goal2,
            deadline2,
            specs2,
        ) == Err::<ProjectModel, Error>(Error::ProjectAlreadyInitialized),
{
}

/// `initialize` creates a project exactly when nothing is stored, the
/// deadline lies ahead, the goal is positive and the non-empty milestone
/// amounts sum to the goal; a mismatched sum is rejected with
/// `MilestoneAmountsMismatchGoal`, and a new project satisfies the invariant.
pub proof fn initialize_goal_sum(
    existing: Option<ProjectModel>,
    now: u64,
    creator: Address,
    token: Address,
    goal: u128,
    deadline: u64,
    specs: Seq<(String, u128)>,
)
    ensures
        initialize_outcome(existing, now, creator, token, goal, deadline, specs) is Ok <==> (
        existing is None && deadline > now && goal > 0 && specs.len() > 0 && milestone_total(
            new_milestones(specs),
        ) == goal),
        (existing is None && deadline > now && goal > 0 && specs.len() > 0 && milestone_total(
            new_milestones(specs),
        ) != goal) ==> initialize_outcome(existing, now, creator, token, goal, deadline, specs)
            == Err::<ProjectModel, Error>(Error::MilestoneAmountsMismatchGoal),
        initialize_outcome(existing, now, creator, token, goal, deadline, specs) is Ok
            ==> initialize_outcome(existing, now, creator, token, goal, deadline, specs)->Ok_0.wf(),
{
}

/// One successful funding call adds its amount to `raised` and to the
/// caller's contribution alone, and keeps the invariant.
pub proof fn fund_credits(p: ProjectModel, now: u64, backer: Address, amount: u128)
    requires
        p.wf(),
        p.raised + amount <= u128::MAX,
        fund_outcome(p, now, backer, amount) is Ok,
    ensures
        ({
            let q = fund_outcome(p, now, backer, amount)->Ok_0;
            &&& q.wf()
            &&& q.raised == p.raised + amount
            &&& forall|b: Address| #[trigger] amount_of(q.backers, b)
                == amount_of(p.backers, b) + if b == backer { amount as int } else { 0 }
        }),
{
    lemma_credit(p.backers, backer, amount);
}

/// After any sequence of successful funding calls, `raised` has grown by
/// the sum of all amounts, and each backer's contribution by the sum of
/// that backer's amounts.
pub proof fn funding_accumulates(p: ProjectModel, calls: Seq<FundCall>)
    requires
        p.wf(),
        p.raised + sum_amounts(calls) <= u128::MAX,
        fund_all(p, calls) is Some,
    ensures
        fund_all(p, calls)->Some_0.wf(),
        fund_all(p, calls)->Some_0.raised == p.raised + sum_amounts(calls),
        forall|b: Address| #[trigger] amount_of(fund_all(p, calls)->Some_0.backers, b)
            == amount_of(p.backers, b) + sum_amounts_of(calls, b),
    decreases calls.len(),
{
    if calls.len() > 0 {
        let init = calls.drop_last();
        let c = calls.last();
        funding_accumulates(p, init);
        let q = fund_all(p, init)->Some_0;
        fund_credits(q, c.now, c.backer, c.amount);
    }
}

/// A successful funding call starts with the goal unmet and leaves it met
/// exactly when the new `raised` reaches the goal.
pub proof fn goal_crossing(p: ProjectModel, now: u64, backer: Address, amount: u128)
    requires
        p.wf(),
        p.raised + amount <= u128::MAX,
        fund_outcome(p, now, backer, amount) is Ok,
    ensures
        !p.goal_met,
        fund_outcome(p, now, backer, amount)->Ok_0.goal_met == (p.raised + amount >= p.goal),
        fund_outcome(p, now, backer, amount)->Ok_0.raised == p.raised + amount,
{
}

/// Funding is closed once the goal is met, and after the deadline.
pub proof fn no_funding_after_close(p: ProjectModel, now: u64, backer: Address, amount: u128)
    ensures
        p.goal_met ==> fund_outcome(p, now, backer, amount) == Err::<ProjectModel, Error>(
            Error::GoalAlreadyMet,
        ),
        !p.goal_met && now > p.deadline ==> fund_outcome(p, now, backer, amount) == Err::<
            ProjectModel,
            Error,
        >(Error::DeadlinePassed),
{
}

/// Once the goal is met it stays met, through every successful operation.
pub proof fn goal_met_stays(
    p: ProjectModel,
    now: u64,
    backer: Address,
    amount: u128,
    index: u32,
)
    requires
        p.goal_met,
    ensures
        fund_outcome(p, now, backer, amount) is Err,
        vote_outcome(p, backer, index) is Ok ==> vote_outcome(p, backer, index)->Ok_0.goal_met,
        release_outcome(p, index) is Ok ==> release_outcome(p, index)->Ok_0.goal_met,
        refund_outcome(p, now, backer) is Err,
{
}

/// Voting needs the goal met and a backer, and takes one vote per backer
/// and milestone.
pub proof fn voting_gated(p: ProjectModel, backer: Address, index: u32)
    ensures
        !p.goal_met ==> vote_outcome(p, backer, index) == Err::<ProjectModel, Error>(
            Error::GoalNotMet,
        ),
        p.goal_met && !is_backer(p.backers, backer) ==> vote_outcome(p, backer, index) == Err::<
            ProjectModel,
            Error,
        >(Error::NotABacker),
        vote_outcome(p, backer, index) is Ok ==> vote_outcome(
            vote_outcome(p, backer, index)->Ok_0,
            backer,
            index,
        ) == Err::<ProjectModel, Error>(Error::AlreadyVoted),
{
    if vote_outcome(p, backer, index) is Ok {
        let q = vote_outcome(p, backer, index)->Ok_0;
        let votes = q.milestones[index as int].votes;
        assert(votes[votes.len() - 1].voter == backer);
        assert(has_voted(votes, backer));
    }
}

/// An open milestone of a project whose goal is met is released exactly
/// when its yes votes carry strictly more than half of `raised`.
pub proof fn majority_threshold(p: ProjectModel, index: u32)
    requires
        p.goal_met,
        index < p.milestones.len(),
        !p.milestones[index as int].is_complete,
    ensures
        release_outcome(p, index) is Ok <==> approval_weight(
            p.milestones[index as int].votes,
            p.backers,
        ) * 2 > p.raised,
        release_outcome(p, index) is Err ==> release_outcome(p, index) == Err::<ProjectModel, Error>(
            Error::MilestoneNotYetApproved,
        ),
{
}

/// A refund is paid only after the deadline of a project that missed its
/// goal, and only once: a later claim by the same backer finds nothing.
pub proof fn refund_exclusive(p: ProjectModel, now: u64, backer: Address, later: u64)
    requires
        p.wf(),
        refund_outcome(p, now, backer) is Ok,
        later >= now,
    ensures
        now > p.deadline,
        !p.goal_met,
        refund_outcome(refund_outcome(p, now, backer)->Ok_0, later, backer) == Err::<
            ProjectModel,
            Error,
        >(Error::NoRefundsToClaim),
{
    lemma_find(p.backers, backer);
    lemma_clear(p.backers, backer);
}

/// Releasing a milestone a second time fails with `MilestoneAlreadyCompleted`.
pub proof fn release_once(p: ProjectModel, index: u32)
    requires
        release_outcome(p, index) is Ok,
    ensures
        release_outcome(release_outcome(p, index)->Ok_0, index) == Err::<ProjectModel, Error>(
            Error::MilestoneAlreadyCompleted,
        ),
{
}

/// A call of one of the operations that change a project.
pub enum Op {
    Fund { now: u64, backer: Address, amount: u128 },
    Vote { backer: Address, index: u32 },
    Release { index: u32 },
    Refund { now: u64, backer: Address },
}

/// What one call gives.
pub open spec fn step(p: ProjectModel, op: Op) -> Result<ProjectModel, Error> {
    match op {
        Op::Fund { now, backer, amount } => fund_outcome(p, now, backer, amount),
        Op::Vote { backer, index } => vote_outcome(p, backer, index),
        Op::Release { index } => release_outcome(p, index),
        Op::Refund { now, backer } => refund_outcome(p, now, backer),
    }
}

/// The project after one call: the new project, or the old one if it failed.
pub open spec fn after(p: ProjectModel, op: Op) -> ProjectModel {
    match step(p, op) {
        Ok(q) => q,
        Err(_) => p,
    }
}

/// The project after a sequence of calls.
pub open spec fn run(p: ProjectModel, ops: Seq<Op>) -> ProjectModel
    decreases ops.len(),
{
    if ops.len() == 0 {
        p
    } else {
        after(run(p, ops.drop_last()), ops.last())
    }
}

/// The call may be made on `p`: a funding call that passes the funding
/// checks keeps `raised` within `u128`.
pub open spec fn admissible(p: ProjectModel, op: Op) -> bool {
    match op {
        Op::Fund { now, backer, amount } => !p.goal_met && now <= p.deadline && amount > 0
            ==> p.raised + amount <= u128::MAX,
        _ => true,
    }
}

/// The sum of the amounts of the funding calls by `b` that succeed in a
/// sequence of calls.
pub open spec fn credited_to(p: ProjectModel, ops: Seq<Op>, b: Address) -> int
    decreases ops.len(),
{
    if ops.len() == 0 {
        0
    } else {
        credited_to(p, ops.drop_last(), b) + match ops.last() {
            Op::Fund { now, backer, amount } => if backer == b && step(
                run(p, ops.drop_last()),
                ops.last(),
            ) is Ok {
                amount as int
            } else {
                0
            },
            _ => 0,
        }
    }
}

/// The sum of the amounts of the funding calls that succeed in a sequence
/// of calls.
pub open spec fn credited(p: ProjectModel, ops: Seq<Op>) -> int
    decreases ops.len(),
{
    if ops.len() == 0 {
        0
    } else {
        credited(p, ops.drop_last()) + match ops.last() {
            Op::Fund { now, backer, amount } => if step(run(p, ops.drop_last()), ops.last()) is Ok {
                amount as int
            } else {
                0
            },
            _ => 0,
        }
    }
}

/// Every call that may be made keeps the invariant.
pub proof fn step_keeps_wf(p: ProjectModel, op: Op)
    requires
        p.wf(),
        admissible(p, op),
    ensures
        after(p, op).wf(),
{
    if step(p, op) is Ok {
        let q = after(p, op);
        match op {
            Op::Fund { now, backer, amount } => {
                fund_credits(p, now, backer, amount);
            },
            Op::Vote { backer, index } => {
                let i = index as int;
                lemma_milestone_total_update(p.milestones, i, q.milestones[i]);
                assert forall|k: int| 0 <= k < q.milestones.len() implies votes_unique(
                    #[trigger] q.milestones[k].votes,
                ) by {
                    if k == i {
                        let old_votes = p.milestones[i].votes;
                        assert(votes_unique(old_votes));
                        assert(!has_voted(old_votes, backer));
                        assert(q.milestones[i].votes == old_votes.push(
                            crate::types::Vote { voter: backer, approve: true },
                        ));
                    } else {
                        assert(q.milestones[k] == p.milestones[k]);
                    }
                }
            },
            Op::Release { index } => {
                let i = index as int;
                lemma_milestone_total_update(p.milestones, i, q.milestones[i]);
                assert forall|k: int| 0 <= k < q.milestones.len() implies votes_unique(
                    #[trigger] q.milestones[k].votes,
                ) by {
                    assert(q.milestones[k].votes == p.milestones[k].votes);
                }
            },
            Op::Refund { now, backer } => {
                lemma_find(p.backers, backer);
                lemma_clear(p.backers, backer);
                lemma_amount_le_total(p.backers, backer);
            },
        }
    }
}

/// Across any sequence of calls in which no refund succeeds, `raised` grows
/// by the amounts of the funding calls that succeed, and each backer's
/// contribution by the amounts of that backer's successful funding calls.
pub proof fn funding_accumulates_interleaved(p: ProjectModel, ops: Seq<Op>)
    requires
        p.wf(),
        forall|i: int| 0 <= i < ops.len() ==> admissible(run(p, ops.take(i)), #[trigger] ops[i]),
        forall|i: int| 0 <= i < ops.len() && (#[trigger] ops[i]) is Refund ==> step(
            run(p, ops.take(i)),
            ops[i],
        ) is Err,
    ensures
        run(p, ops).wf(),
        run(p, ops).raised == p.raised + credited(p, ops),
        forall|b: Address| #[trigger] amount_of(run(p, ops).backers, b)
            == amount_of(p.backers, b) + credited_to(p, ops, b),
    decreases ops.len(),
{
    if ops.len() > 0 {
        let init = ops.drop_last();
        let n = ops.len() - 1;
        assert forall|i: int| 0 <= i < init.len() implies init.take(i) == ops.take(i) by {
            assert(init.take(i) =~= ops.take(i));
        }
        assert forall|i: int| 0 <= i < init.len() implies admissible(
            run(p, init.take(i)),
            #[trigger] init[i],
        ) by {
            assert(init.take(i) == ops.take(i));
            assert(init[i] == ops[i]);
        }
        assert forall|i: int| 0 <= i < init.len() && (#[trigger] init[i]) is Refund implies step(
            run(p, init.take(i)),
            init[i],
        ) is Err by {
            assert(init.take(i) == ops.take(i));
            assert(init[i] == ops[i]);
        }
        funding_accumulates_interleaved(p, init);
        let q = run(p, init);
        assert(ops.take(n) =~= init);
        assert(admissible(q, ops[n]));
        step_keeps_wf(q, ops.last());
        match ops.last() {
            Op::Fund { now, backer, amount } => {
                if step(q, ops.last()) is Ok {
                    fund_credits(q, now, backer, amount);
                }
            },
            Op::Refund { now, backer } => {
                assert(ops[n] is Refund);
            },
            _ => {},
        }
    }
}

/// The call is made at time index `t` or later (calls that take no time
/// index always are).
pub open spec fn not_before(op: Op, t: u64) -> bool {
    match op {
        Op::Fund { now, backer, amount } => now >= t,
        Op::Refund { now, backer } => now >= t,
        _ => true,
    }
}

proof fn lemma_refunded_stays_empty(q: ProjectModel, t: u64, backer: Address, ops: Seq<Op>)
    requires
        !q.goal_met,
        q.deadline < t,
        unique(q.backers),
        amount_of(q.backers, backer) == 0,
        forall|i: int| 0 <= i < ops.len() ==> not_before(#[trigger] ops[i], t),
    ensures
        !run(q, ops).goal_met,
        run(q, ops).deadline == q.deadline,
        unique(run(q, ops).backers),
        amount_of(run(q, ops).backers, backer) == 0,
    decreases ops.len(),
{
    if ops.len() > 0 {
        let init = ops.drop_last();
        assert forall|i: int| 0 <= i < init.len() implies not_before(#[trigger] init[i], t) by {
            assert(init[i] == ops[i]);
        }
        lemma_refunded_stays_empty(q, t, backer, init);
        let r = run(q, init);
        assert(not_before(ops[ops.len() - 1], t));
        match ops.last() {
            Op::Refund { now, backer: c } => {
                if step(r, ops.last()) is Ok {
                    lemma_find(r.backers, c);
                    lemma_clear(r.backers, c);
                }
            },
            _ => {},
        }
    }
}

/// After a successful refund, a later claim by the same backer finds
/// nothing, whatever calls come in between, as long as time does not run
/// backwards.
pub proof fn refund_once_interleaved(
    p: ProjectModel,
    now: u64,
    backer: Address,
    ops: Seq<Op>,
    later: u64,
)
    requires
        p.wf(),
        refund_outcome(p, now, backer) is Ok,
        forall|i: int| 0 <= i < ops.len() ==> not_before(#[trigger] ops[i], now),
        later >= now,
    ensures
        refund_outcome(run(refund_outcome(p, now, backer)->Ok_0, ops), later, backer) == Err::<
            ProjectModel,
            Error,
        >(Error::NoRefundsToClaim),
{
    lemma_find(p.backers, backer);
    lemma_clear(p.backers, backer);
    lemma_refunded_stays_empty(refund_outcome(p, now, backer)->Ok_0, now, backer, ops);
}

} // verus!
