use milestone_fund::engine::MilestoneFund;
use milestone_fund::types::{Address, Backer, Error, Vote};

fn addr(n: u128) -> Address {
    Address { is_contract: false, hi: 0, lo: n }
}

fn specs(amounts: &[u128]) -> Vec<(String, u128)> {
    amounts
        .iter()
        .enumerate()
        .map(|(i, a)| (format!("milestone {}", i), *a))
        .collect()
}

const CREATOR: u128 = 1;
const TOKEN: u128 = 2;

/// A project with the given goal and milestones, deadline 100, created at time 10.
fn project(goal: u128, amounts: &[u128]) -> MilestoneFund {
    let mut fund = MilestoneFund::new();
    assert_eq!(
        fund.initialize(10, addr(CREATOR), addr(TOKEN), goal, 100, specs(amounts)),
        Ok(())
    );
    fund
}

fn raised(fund: &MilestoneFund) -> u128 {
    fund.get_project().unwrap().raised
}

fn goal_met(fund: &MilestoneFund) -> bool {
    fund.get_project().unwrap().goal_met
}

#[test]
fn initialize_stores_the_project() {
    let fund = project(300, &[100, 200]);
    let p = fund.get_project().unwrap();
    assert_eq!(p.creator, addr(CREATOR));
    assert_eq!(p.token, addr(TOKEN));
    assert_eq!(p.goal, 300);
    assert_eq!(p.raised, 0);
    assert_eq!(p.deadline, 100);
    assert!(!p.goal_met);
    assert!(p.backers.is_empty());
    assert_eq!(p.milestones.len(), 2);
    assert_eq!(p.milestones[0].title, "milestone 0");
    assert_eq!(p.milestones[1].amount_to_release, 200);
    assert!(!p.milestones[1].is_complete);
    assert!(p.milestones[1].votes.is_empty());
}

#[test]
fn initialize_twice_fails() {
    let mut fund = project(300, &[100, 200]);
    assert_eq!(
        fund.initialize(10, addr(CREATOR), addr(TOKEN), 300, 100, specs(&[100, 200])),
        Err(Error::ProjectAlreadyInitialized)
    );
    assert_eq!(
        fund.initialize(0, addr(7), addr(8), 0, 0, Vec::new()),
        Err(Error::ProjectAlreadyInitialized)
    );
    assert_eq!(fund.get_project().unwrap().goal, 300);
}

#[test]
fn initialize_rejects_past_deadline() {
    let mut fund = MilestoneFund::new();
    assert_eq!(
        fund.initialize(100, addr(CREATOR), addr(TOKEN), 300, 100, specs(&[300])),
        Err(Error::DeadlineMustBeInFuture)
    );
    assert_eq!(fund.get_project().err(), Some(Error::ProjectNotInitialized));
}

#[test]
fn initialize_rejects_zero_goal() {
    let mut fund = MilestoneFund::new();
    assert_eq!(
        fund.initialize(10, addr(CREATOR), addr(TOKEN), 0, 100, specs(&[0])),
        Err(Error::GoalMustBePositive)
    );
}

#[test]
fn initialize_rejects_empty_milestones() {
    let mut fund = MilestoneFund::new();
    assert_eq!(
        fund.initialize(10, addr(CREATOR), addr(TOKEN), 300, 100, Vec::new()),
        Err(Error::MilestoneListEmpty)
    );
}

#[test]
fn initialize_checks_milestone_sum() {
    let mut fund = MilestoneFund::new();
    assert_eq!(
        fund.initialize(10, addr(CREATOR), addr(TOKEN), 300, 100, specs(&[100, 150])),
        Err(Error::MilestoneAmountsMismatchGoal)
    );
    assert_eq!(
        fund.initialize(10, addr(CREATOR), addr(TOKEN), 300, 100, specs(&[100, 200])),
        Ok(())
    );
}

#[test]
fn initialize_rejects_overflowing_milestone_sum() {
    let mut fund = MilestoneFund::new();
    assert_eq!(
        fund.initialize(10, addr(CREATOR), addr(TOKEN), 1, 100, specs(&[u128::MAX, 2])),
        Err(Error::MilestoneAmountsMismatchGoal)
    );
}

#[test]
fn operations_need_a_project() {
    let mut fund = MilestoneFund::new();
    assert_eq!(fund.fund(10, addr(5), 100), Err(Error::ProjectNotInitialized));
    assert_eq!(fund.vote(addr(5), 0), Err(Error::ProjectNotInitialized));
    assert_eq!(fund.release_funds(0), Err(Error::ProjectNotInitialized));
    assert_eq!(fund.claim_refund(200, addr(5)), Err(Error::ProjectNotInitialized));
    assert_eq!(fund.get_backer_info(addr(5)), Err(Error::ProjectNotInitialized));
    assert_eq!(fund.get_project().err(), Some(Error::ProjectNotInitialized));
}

#[test]
fn funding_accumulates_per_backer() {
    let mut fund = project(1000, &[1000]);
    assert_eq!(fund.fund(10, addr(5), 100), Ok(()));
    assert_eq!(fund.fund(11, addr(6), 250), Ok(()));
    assert_eq!(fund.fund(12, addr(5), 30), Ok(()));
    assert_eq!(raised(&fund), 380);
    assert_eq!(fund.get_backer_info(addr(5)), Ok(130));
    assert_eq!(fund.get_backer_info(addr(6)), Ok(250));
    assert_eq!(fund.get_backer_info(addr(7)), Ok(0));
    assert_eq!(fund.get_project().unwrap().backers.len(), 2);
    assert!(!goal_met(&fund));
}

#[test]
fn funding_rejects_zero_amount() {
    let mut fund = project(300, &[300]);
    assert_eq!(fund.fund(10, addr(5), 0), Err(Error::FundingAmountTooLow));
    assert_eq!(raised(&fund), 0);
}

#[test]
fn funding_on_the_deadline_is_open() {
    let mut fund = project(300, &[300]);
    assert_eq!(fund.fund(100, addr(5), 10), Ok(()));
    assert_eq!(fund.fund(101, addr(5), 10), Err(Error::DeadlinePassed));
    assert_eq!(raised(&fund), 10);
}

#[test]
fn goal_is_met_exactly_on_crossing() {
    let mut fund = project(500, &[200, 300]);
    for _ in 0..4 {
        assert_eq!(fund.fund(20, addr(5), 100), Ok(()));
        assert!(!goal_met(&fund));
    }
    assert_eq!(raised(&fund), 400);
    assert_eq!(fund.fund(21, addr(6), 100), Ok(()));
    assert_eq!(raised(&fund), 500);
    assert!(goal_met(&fund));
}

#[test]
fn overfunding_in_one_call_is_accepted() {
    let mut fund = project(500, &[500]);
    assert_eq!(fund.fund(20, addr(5), 400), Ok(()));
    assert_eq!(fund.fund(20, addr(6), 700), Ok(()));
    assert_eq!(raised(&fund), 1100);
    assert!(goal_met(&fund));
}

#[test]
fn no_funding_after_goal_met() {
    let mut fund = project(300, &[300]);
    assert_eq!(fund.fund(20, addr(5), 300), Ok(()));
    assert_eq!(fund.fund(20, addr(6), 10), Err(Error::GoalAlreadyMet));
    assert_eq!(fund.fund(200, addr(6), 10), Err(Error::GoalAlreadyMet));
    assert_eq!(raised(&fund), 300);
}

#[test]
fn no_funding_after_deadline() {
    let mut fund = project(300, &[300]);
    assert_eq!(fund.fund(101, addr(5), 10), Err(Error::DeadlinePassed));
}

#[test]
fn vote_before_goal_fails() {
    let mut fund = project(300, &[300]);
    assert_eq!(fund.fund(20, addr(5), 100), Ok(()));
    assert_eq!(fund.vote(addr(5), 0), Err(Error::GoalNotMet));
}

#[test]
fn vote_from_stranger_fails() {
    let mut fund = project(300, &[300]);
    assert_eq!(fund.fund(20, addr(5), 300), Ok(()));
    assert_eq!(fund.vote(addr(9), 0), Err(Error::NotABacker));
}

#[test]
fn vote_twice_fails() {
    let mut fund = project(300, &[100, 200]);
    assert_eq!(fund.fund(20, addr(5), 300), Ok(()));
    assert_eq!(fund.vote(addr(5), 1), Ok(()));
    assert_eq!(fund.vote(addr(5), 1), Err(Error::AlreadyVoted));
    assert_eq!(fund.vote(addr(5), 0), Ok(()));
    let p = fund.get_project().unwrap();
    assert_eq!(p.milestones[1].votes.len(), 1);
    assert_eq!(p.milestones[1].votes[0].voter, addr(5));
    assert!(p.milestones[1].votes[0].approve);
}

#[test]
fn vote_on_missing_milestone_fails() {
    let mut fund = project(300, &[100, 200]);
    assert_eq!(fund.fund(20, addr(5), 300), Ok(()));
    assert_eq!(fund.vote(addr(5), 2), Err(Error::MilestoneInvalidIndex));
    assert_eq!(fund.release_funds(2), Err(Error::MilestoneInvalidIndex));
}

#[test]
fn vote_on_completed_milestone_fails() {
    let mut fund = project(300, &[100, 200]);
    assert_eq!(fund.fund(20, addr(5), 200), Ok(()));
    assert_eq!(fund.fund(20, addr(6), 100), Ok(()));
    assert_eq!(fund.vote(addr(5), 0), Ok(()));
    assert_eq!(fund.release_funds(0), Ok(100));
    assert_eq!(fund.vote(addr(6), 0), Err(Error::MilestoneAlreadyCompleted));
}

#[test]
fn release_before_goal_fails() {
    let mut fund = project(300, &[300]);
    assert_eq!(fund.release_funds(0), Err(Error::GoalNotMet));
}

#[test]
fn release_needs_strict_majority() {
    let mut fund = project(100, &[40, 60]);
    assert_eq!(fund.fund(20, addr(5), 50), Ok(()));
    assert_eq!(fund.fund(20, addr(6), 50), Ok(()));
    assert_eq!(fund.vote(addr(5), 0), Ok(()));
    assert_eq!(fund.release_funds(0), Err(Error::MilestoneNotYetApproved));
    assert!(!fund.get_project().unwrap().milestones[0].is_complete);
}

#[test]
fn release_with_majority_succeeds() {
    let mut fund = project(100, &[40, 60]);
    assert_eq!(fund.fund(20, addr(5), 51), Ok(()));
    assert_eq!(fund.fund(20, addr(6), 49), Ok(()));
    assert_eq!(fund.vote(addr(5), 1), Ok(()));
    assert_eq!(fund.release_funds(1), Ok(60));
    assert!(fund.get_project().unwrap().milestones[1].is_complete);
    assert!(!fund.get_project().unwrap().milestones[0].is_complete);
}

#[test]
fn release_without_votes_fails() {
    let mut fund = project(100, &[100]);
    assert_eq!(fund.fund(20, addr(5), 100), Ok(()));
    assert_eq!(fund.release_funds(0), Err(Error::MilestoneNotYetApproved));
}

#[test]
fn release_weighs_votes_by_amount() {
    let mut fund = project(100, &[100]);
    assert_eq!(fund.fund(20, addr(5), 10), Ok(()));
    assert_eq!(fund.fund(20, addr(6), 10), Ok(()));
    assert_eq!(fund.fund(20, addr(7), 80), Ok(()));
    assert_eq!(fund.vote(addr(5), 0), Ok(()));
    assert_eq!(fund.vote(addr(6), 0), Ok(()));
    assert_eq!(fund.release_funds(0), Err(Error::MilestoneNotYetApproved));
    assert_eq!(fund.vote(addr(7), 0), Ok(()));
    assert_eq!(fund.release_funds(0), Ok(100));
}

#[test]
fn release_twice_fails() {
    let mut fund = project(100, &[100]);
    assert_eq!(fund.fund(20, addr(5), 100), Ok(()));
    assert_eq!(fund.vote(addr(5), 0), Ok(()));
    assert_eq!(fund.release_funds(0), Ok(100));
    assert_eq!(fund.release_funds(0), Err(Error::MilestoneAlreadyCompleted));
}

#[test]
fn release_with_large_amounts() {
    let big = u128::MAX - 1;
    let mut fund = project(big, &[big]);
    assert_eq!(fund.fund(20, addr(5), big / 2 + 1), Ok(()));
    assert_eq!(fund.fund(20, addr(6), big / 2), Ok(()));
    assert!(goal_met(&fund));
    assert_eq!(fund.vote(addr(6), 0), Ok(()));
    assert_eq!(fund.release_funds(0), Err(Error::MilestoneNotYetApproved));
    assert_eq!(fund.vote(addr(5), 0), Ok(()));
    assert_eq!(fund.release_funds(0), Ok(big));
}

#[test]
fn refund_before_deadline_fails() {
    let mut fund = project(300, &[300]);
    assert_eq!(fund.fund(20, addr(5), 100), Ok(()));
    assert_eq!(fund.claim_refund(100, addr(5)), Err(Error::RefundsNotAvailable));
    assert_eq!(fund.get_backer_info(addr(5)), Ok(100));
}

#[test]
fn refund_after_goal_met_fails() {
    let mut fund = project(300, &[300]);
    assert_eq!(fund.fund(20, addr(5), 300), Ok(()));
    assert_eq!(fund.claim_refund(200, addr(5)), Err(Error::RefundsNotAvailable));
}

#[test]
fn refund_is_paid_once() {
    let mut fund = project(300, &[300]);
    assert_eq!(fund.fund(20, addr(5), 100), Ok(()));
    assert_eq!(fund.fund(20, addr(6), 50), Ok(()));
    assert_eq!(fund.claim_refund(101, addr(5)), Ok(100));
    assert_eq!(fund.get_backer_info(addr(5)), Ok(0));
    assert_eq!(fund.get_backer_info(addr(6)), Ok(50));
    assert_eq!(raised(&fund), 50);
    assert_eq!(fund.claim_refund(102, addr(5)), Err(Error::NoRefundsToClaim));
    assert_eq!(fund.claim_refund(102, addr(6)), Ok(50));
    assert_eq!(raised(&fund), 0);
}

#[test]
fn refund_for_stranger_fails() {
    let mut fund = project(300, &[300]);
    assert_eq!(fund.fund(20, addr(5), 100), Ok(()));
    assert_eq!(fund.claim_refund(101, addr(9)), Err(Error::NoRefundsToClaim));
}

#[test]
fn addresses_differ_by_kind() {
    let mut fund = project(300, &[300]);
    let account = Address { is_contract: false, hi: 3, lo: 4 };
    let contract = Address { is_contract: true, hi: 3, lo: 4 };
    assert_eq!(fund.fund(20, account, 100), Ok(()));
    assert_eq!(fund.get_backer_info(contract), Ok(0));
    assert_eq!(fund.get_backer_info(account), Ok(100));
}

#[test]
fn closed_funding_fails_for_any_amount() {
    let mut fund = project(300, &[300]);
    assert_eq!(fund.fund(20, addr(5), 300), Ok(()));
    assert_eq!(fund.fund(20, addr(6), u128::MAX), Err(Error::GoalAlreadyMet));
    let mut late = project(300, &[300]);
    assert_eq!(late.fund(20, addr(5), 100), Ok(()));
    assert_eq!(late.fund(101, addr(6), u128::MAX), Err(Error::DeadlinePassed));
    assert_eq!(raised(&late), 100);
}

#[test]
fn restore_accepts_a_sound_record() {
    let mut fund = project(300, &[100, 200]);
    assert_eq!(fund.fund(20, addr(5), 300), Ok(()));
    assert_eq!(fund.vote(addr(5), 0), Ok(()));
    let p = fund.get_project().unwrap().clone();
    let restored = MilestoneFund::restore(p).expect("sound record");
    assert_eq!(restored.get_backer_info(addr(5)), Ok(300));
    assert_eq!(restored.get_project().unwrap().milestones[0].votes.len(), 1);
}

#[test]
fn restore_rejects_repeated_voters() {
    let mut fund = project(300, &[100, 200]);
    assert_eq!(fund.fund(20, addr(5), 300), Ok(()));
    let mut p = fund.get_project().unwrap().clone();
    let v = Vote { voter: addr(5), approve: true };
    p.milestones[0].votes.push(v);
    p.milestones[0].votes.push(v);
    assert!(MilestoneFund::restore(p).is_none());
}

#[test]
fn restore_rejects_inconsistent_records() {
    let mut fund = project(300, &[100, 200]);
    assert_eq!(fund.fund(20, addr(5), 100), Ok(()));
    let base = fund.get_project().unwrap().clone();

    let mut wrong_raised = base.clone();
    wrong_raised.raised = 99;
    assert!(MilestoneFund::restore(wrong_raised).is_none());

    let mut repeated_backer = base.clone();
    repeated_backer.backers.push(Backer { who: addr(5), amount: 0 });
    assert!(MilestoneFund::restore(repeated_backer).is_none());

    let mut wrong_sum = base.clone();
    wrong_sum.milestones[1].amount_to_release = 150;
    assert!(MilestoneFund::restore(wrong_sum).is_none());

    let mut wrong_flag = base.clone();
    wrong_flag.goal_met = true;
    assert!(MilestoneFund::restore(wrong_flag).is_none());

    assert!(MilestoneFund::restore(base).is_some());
}
