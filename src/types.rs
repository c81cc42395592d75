use vstd::prelude::*;

verus! {

/// Every way in which an operation of the escrow can fail.
#[derive(Clone, Copy, Debug, PartialEq, Eq, Structural)]
pub enum Error {
    ProjectAlreadyInitialized,
    DeadlineMustBeInFuture,
    GoalMustBePositive,
    MilestoneListEmpty,
    MilestoneAmountsMismatchGoal,
    ProjectNotInitialized,
    DeadlinePassed,
    FundingIsClosed,
    FundingAmountTooLow,
    GoalNotMet,
    GoalAlreadyMet,
    MilestoneInvalidIndex,
    MilestoneAlreadyCompleted,
    MilestoneNotYetApproved,
    NotABacker,
    AlreadyVoted,
    RefundsNotAvailable,
    NoRefundsToClaim,
}

/// The identity of a party: an account key or a contract hash, 32 bytes
/// held as two 128-bit words.
#[derive(Clone, Copy, Debug, PartialEq, Eq, Structural)]
pub struct Address {
    pub is_contract: bool,
    pub hi: u128,
    pub lo: u128,
}

/// What one backer has contributed so far.
#[derive(Clone, Copy, Debug, PartialEq, Eq, Structural)]
pub struct Backer {
    pub who: Address,
    pub amount: u128,
}

/// One backer's recorded vote on a milestone.
#[derive(Clone, Copy, Debug, PartialEq, Eq, Structural)]
pub struct Vote {
    pub voter: Address,
    pub approve: bool,
}

/// A portion of the goal, released on its own once approved.
#[derive(Clone, Debug)]
pub struct Milestone {
    pub title: String,
    pub amount_to_release: u128,
    pub is_complete: bool,
    pub votes: Vec<Vote>,
}

/// The whole state of one crowdfunding project.
#[derive(Clone, Debug)]
pub struct Project {
    pub creator: Address,
    pub token: Address,
    pub goal: u128,
    pub raised: u128,
    pub deadline: u64,
    pub milestones: Vec<Milestone>,
    pub backers: Vec<Backer>,
    pub goal_met: bool,
}

/// The mathematical value of a [`Milestone`].
pub struct MilestoneModel {
    pub title: Seq<char>,
    pub amount_to_release: u128,
    pub is_complete: bool,
    pub votes: Seq<Vote>,
}

/// The mathematical value of a [`Project`].
pub struct ProjectModel {
    pub creator: Address,
    pub token: Address,
    pub goal: u128,
    pub raised: u128,
    pub deadline: u64,
    pub milestones: Seq<MilestoneModel>,
    pub backers: Seq<Backer>,
    pub goal_met: bool,
}

impl View for Milestone {
    type V = MilestoneModel;

    open spec fn view(&self) -> MilestoneModel {
        MilestoneModel {
            title: self.title@,
            amount_to_release: self.amount_to_release,
            is_complete: self.is_complete,
            votes: self.votes@,
        }
    }
}

impl View for Project {
    type V = ProjectModel;

    open spec fn view(&self) -> ProjectModel {
        ProjectModel {
            creator: self.creator,
            token: self.token,
            goal: self.goal,
            raised: self.raised,
            deadline: self.deadline,
            milestones: self.milestones@.map_values(|m: Milestone| m@),
            backers: self.backers@,
            goal_met: self.goal_met,
        }
    }
}

} // verus!
