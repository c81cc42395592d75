use vstd::prelude::*;
use crate::types::{Address, Backer, Error, Milestone, MilestoneModel, Project, ProjectModel, Vote};
use crate::backers::{
    all_distinct, amount_lookup, amount_of, approval_weight, credit, find, find_backer, is_backer, total, total_of,
    unique, lemma_amount_le_total, lemma_clear, lemma_credit, lemma_find,
};

verus! {

/// The sum of the amounts that the milestones release.
pub open spec fn milestone_total(ms: Seq<MilestoneModel>) -> int
    decreases ms.len(),
{
    if ms.len() == 0 {
        0
    } else {
        milestone_total(ms.drop_last()) + ms.last().amount_to_release
    }
}

/// Whether `a` has a vote recorded in `votes`.
pub open spec fn has_voted(votes: Seq<Vote>, a: Address) -> bool {
    exists|j: int| 0 <= j < votes.len() && votes[j].voter == a
}

/// No party appears twice among the votes.
pub open spec fn votes_unique(votes: Seq<Vote>) -> bool {
    forall|j: int, k: int| 0 <= j < k < votes.len() ==> votes[j].voter != votes[k].voter
}

/// Whether the yes votes on a milestone carry strictly more than half of
/// the raised funds.
pub open spec fn approved(p: ProjectModel, votes: Seq<Vote>) -> bool {
    approval_weight(votes, p.backers) * 2 > p.raised
}

impl ProjectModel {
    /// The invariant of a project: a positive goal split exactly over a
    /// non-empty list of milestones, one entry per backer, `raised` equal to
    /// the sum of the contributions, `goal_met` telling whether it reaches
    /// the goal, and at most one vote per backer on each milestone.
    pub open spec fn wf(self) -> bool {
        &&& self.goal > 0
        &&& self.milestones.len() > 0
        &&& milestone_total(self.milestones) == self.goal
        &&& unique(self.backers)
        &&& total(self.backers) == self.raised
        &&& self.goal_met == (self.raised >= self.goal)
        &&& forall|i: int| 0 <= i < self.milestones.len() ==> votes_unique(#[trigger] self.milestones[i].votes)
    }
}

/// The milestones of a new project, one per (title, amount) pair.
pub open spec fn new_milestones(specs: Seq<(String, u128)>) -> Seq<MilestoneModel> {
    specs.map_values(|x: (String, u128)| MilestoneModel {
        title: x.0@,
        amount_to_release: x.1,
        is_complete: false,
        votes: Seq::empty(),
    })
}

/// What `initialize` gives: an error, checked in this order, or the new project.
pub open spec fn initialize_outcome(
    existing: Option<ProjectModel>,
    now: u64,
    creator: Address,
    token: Address,
    goal: u128,
    deadline: u64,
    specs: Seq<(String, u128)>,
) -> Result<ProjectModel, Error> {
    if existing is Some {
        Err(Error::ProjectAlreadyInitialized)
    } else if deadline <= now {
        Err(Error::DeadlineMustBeInFuture)
    } else if goal == 0 {
        Err(Error::GoalMustBePositive)
    } else if specs.len() == 0 {
        Err(Error::MilestoneListEmpty)
    } else if milestone_total(new_milestones(specs)) != goal {
        Err(Error::MilestoneAmountsMismatchGoal)
    } else {
        Ok(ProjectModel {
            creator,
            token,
            goal,
            raised: 0,
            deadline,
            milestones: new_milestones(specs),
            backers: Seq::empty(),
            goal_met: false,
        })
    }
}

/// What `fund` gives: an error, checked in this order, or the project with
/// `amount` credited to `backer`.
pub open spec fn fund_outcome(p: ProjectModel, now: u64, backer: Address, amount: u128) -> Result<
    ProjectModel,
    Error,
> {
    if p.goal_met {
        Err(Error::GoalAlreadyMet)
    } else if now > p.deadline {
        Err(Error::DeadlinePassed)
    } else if amount == 0 {
        Err(Error::FundingAmountTooLow)
    } else {
        Ok(ProjectModel {
            raised: (p.raised + amount) as u128,
            backers: credit(p.backers, backer, amount),
            goal_met: p.raised + amount >= p.goal,
            ..p
        })
    }
}

/// What `vote` gives: an error, checked in this order, or the project with a
/// yes vote of `backer` on the milestone.
pub open spec fn vote_outcome(p: ProjectModel, backer: Address, index: u32) -> Result<
    ProjectModel,
    Error,
> {
    if !p.goal_met {
        Err(Error::GoalNotMet)
    } else if !is_backer(p.backers, backer) {
        Err(Error::NotABacker)
    } else if index >= p.milestones.len() {
        Err(Error::MilestoneInvalidIndex)
    } else if p.milestones[index as int].is_complete {
        Err(Error::MilestoneAlreadyCompleted)
    } else if has_voted(p.milestones[index as int].votes, backer) {
        Err(Error::AlreadyVoted)
    } else {
        let m = p.milestones[index as int];
        Ok(ProjectModel {
            milestones: p.milestones.update(
                index as int,
                MilestoneModel { votes: m.votes.push(Vote { voter: backer, approve: true }), ..m },
            ),
            ..p
        })
    }
}

/// What `release_funds` gives: an error, checked in this order, or the
/// project with the milestone complete.
pub open spec fn release_outcome(p: ProjectModel, index: u32) -> Result<ProjectModel, Error> {
    if !p.goal_met {
        Err(Error::GoalNotMet)
    } else if index >= p.milestones.len() {
        Err(Error::MilestoneInvalidIndex)
    } else if p.milestones[index as int].is_complete {
        Err(Error::MilestoneAlreadyCompleted)
    } else if !approved(p, p.milestones[index as int].votes) {
        Err(Error::MilestoneNotYetApproved)
    } else {
        let m = p.milestones[index as int];
        Ok(ProjectModel {
            milestones: p.milestones.update(index as int, MilestoneModel { is_complete: true, ..m }),
            ..p
        })
    }
}

/// What `claim_refund` gives: an error, checked in this order, or the
/// project with `backer`'s contribution cleared and taken off `raised`.
pub open spec fn refund_outcome(p: ProjectModel, now: u64, backer: Address) -> Result<
    ProjectModel,
    Error,
> {
    if now <= p.deadline || p.goal_met {
        Err(Error::RefundsNotAvailable)
    } else if amount_of(p.backers, backer) == 0 {
        Err(Error::NoRefundsToClaim)
    } else {
        Ok(ProjectModel {
            raised: (p.raised - amount_of(p.backers, backer)) as u128,
            backers: p.backers.update(find(p.backers, backer), Backer { who: backer, amount: 0 }),
            ..p
        })
    }
}

/// An operation's result and effect agree with its outcome: on success the
/// state becomes the new project, on failure it is left as it was.
pub open spec fn settles<T>(
    r: Result<T, Error>,
    outcome: Result<ProjectModel, Error>,
    before: ProjectModel,
    after: ProjectModel,
) -> bool {
    match outcome {
        Ok(q) => r is Ok && after == q,
        Err(e) => r == Err::<T, Error>(e) && after == before,
    }
}

impl Project {
    /// Credits `amount` from `backer`, once the funding checks pass.
    pub fn fund(&mut self, now: u64, backer: Address, amount: u128) -> (r: Result<(), Error>)
        requires
            old(self)@.wf(),
            !old(self).goal_met && now <= old(self).deadline && amount > 0 ==> old(self).raised
                + amount <= u128::MAX,
        ensures
            final(self)@.wf(),
            settles(r, fund_outcome(old(self)@, now, backer, amount), old(self)@, final(self)@),
    {
        if self.goal_met {
            return Err(Error::GoalAlreadyMet);
        }
        if now > self.deadline {
            return Err(Error::DeadlinePassed);
        }
        if amount == 0 {
            return Err(Error::FundingAmountTooLow);
        }
        proof {
            lemma_credit(self.backers@, backer, amount);
            lemma_find(self.backers@, backer);
        }
        match find_backer(&self.backers, backer) {
            Some(i) => {
                proof {
                    lemma_amount_le_total(self.backers@, backer);
                }
                let cur = self.backers[i].amount;
                self.backers[i] = Backer { who: backer, amount: cur + amount };
            },
            None => {
                self.backers.push(Backer { who: backer, amount });
            },
        }
        self.raised = self.raised + amount;
        if self.raised >= self.goal {
            self.goal_met = true;
        }
        proof {
            assert(self.milestones@.map_values(|m: Milestone| m@) =~= old(self)@.milestones);
        }
        Ok(())
    }
}

/// Whether `a` has a vote in `votes`.
fn voted(votes: &Vec<Vote>, a: Address) -> (r: bool)
    ensures
        r == has_voted(votes@, a),
{
    let mut i: usize = 0;
    while i < votes.len()
        invariant
            0 <= i <= votes@.len(),
            forall|j: int| 0 <= j < i ==> votes@[j].voter != a,
        decreases votes@.len() - i,
    {
        if votes[i].voter == a {
            return true;
        }
        i = i + 1;
    }
    false
}

proof fn lemma_weight_prefix(votes: Seq<Vote>, s: Seq<Backer>, i: int, j: int)
    requires
        0 <= i <= j <= votes.len(),
    ensures
        approval_weight(votes.take(i), s) <= approval_weight(votes.take(j), s),
    decreases j - i,
{
    if i < j {
        assert(votes.take(j).drop_last() =~= votes.take(j - 1));
        lemma_weight_prefix(votes, s, i, j - 1);
    }
}

/// Tallies the yes votes, weighted by contribution, against half of `raised`.
pub fn is_approved(votes: &Vec<Vote>, backers: &Vec<Backer>, raised: u128) -> (r: bool)
    ensures
        r == (approval_weight(votes@, backers@) * 2 > raised),
{
    let half = raised / 2;
    let mut weight: u128 = 0;
    let mut i: usize = 0;
    proof {
        assert(votes@.take(0) =~= Seq::<Vote>::empty());
        assert(votes@.take(votes@.len() as int) =~= votes@);
    }
    while i < votes.len()
        invariant
            0 <= i <= votes@.len(),
            half == raised / 2,
            weight == approval_weight(votes@.take(i as int), backers@),
            weight <= half,
            votes@.take(votes@.len() as int) == votes@,
        decreases votes@.len() - i,
    {
        let v = votes[i];
        proof {
            assert(votes@.take(i + 1).drop_last() =~= votes@.take(i as int));
            lemma_weight_prefix(votes@, backers@, i + 1, votes@.len() as int);
        }
        if v.approve {
            let amt = amount_lookup(backers, v.voter);
            match weight.checked_add(amt) {
                None => {
                    return true;
                },
                Some(w) => {
                    if w > half {
                        return true;
                    }
                    weight = w;
                },
            }
        }
        i = i + 1;
    }
    false
}

impl Project {
    /// Records a yes vote of `backer` on the milestone at `index`.
    pub fn vote(&mut self, backer: Address, index: u32) -> (r: Result<(), Error>)
        requires
            old(self)@.wf(),
        ensures
            final(self)@.wf(),
            settles(r, vote_outcome(old(self)@, backer, index), old(self)@, final(self)@),
    {
        if !self.goal_met {
            return Err(Error::GoalNotMet);
        }
        proof {
            lemma_find(self.backers@, backer);
        }
        if find_backer(&self.backers, backer).is_none() {
            return Err(Error::NotABacker);
        }
        let i = index as usize;
        if i >= self.milestones.len() {
            return Err(Error::MilestoneInvalidIndex);
        }
        if self.milestones[i].is_complete {
            return Err(Error::MilestoneAlreadyCompleted);
        }
        if voted(&self.milestones[i].votes, backer) {
            return Err(Error::AlreadyVoted);
        }
        let ghost before = self.milestones@;
        self.milestones[i].votes.push(Vote { voter: backer, approve: true });
        proof {
            let m = before[i as int]@;
            let ms = old(self)@.milestones.update(
                i as int,
                MilestoneModel { votes: m.votes.push(Vote { voter: backer, approve: true }), ..m },
            );
            assert(self.milestones@.map_values(|m: Milestone| m@) =~= ms);
            lemma_milestone_total_update(old(self)@.milestones, i as int, ms[i as int]);
        }
        Ok(())
    }

    /// Marks the milestone at `index` complete once its yes votes carry a
    /// strict majority of the raised funds; gives the amount owed to the
    /// creator.
    pub fn release_funds(&mut self, index: u32) -> (r: Result<u128, Error>)
        requires
            old(self)@.wf(),
        ensures
            final(self)@.wf(),
            settles(r, release_outcome(old(self)@, index), old(self)@, final(self)@),
            r is Ok ==> r->Ok_0 == old(self)@.milestones[index as int].amount_to_release,
    {
        if !self.goal_met {
            return Err(Error::GoalNotMet);
        }
        let i = index as usize;
        if i >= self.milestones.len() {
            return Err(Error::MilestoneInvalidIndex);
        }
        if self.milestones[i].is_complete {
            return Err(Error::MilestoneAlreadyCompleted);
        }
        if !is_approved(&self.milestones[i].votes, &self.backers, self.raised) {
            return Err(Error::MilestoneNotYetApproved);
        }
        let amount = self.milestones[i].amount_to_release;
        self.milestones[i].is_complete = true;
        proof {
            let m = old(self).milestones@[i as int]@;
            let ms = old(self)@.milestones.update(i as int, MilestoneModel { is_complete: true, ..m });
            assert(self.milestones@.map_values(|m: Milestone| m@) =~= ms);
            lemma_milestone_total_update(old(self)@.milestones, i as int, ms[i as int]);
        }
        Ok(amount)
    }

    /// Clears `backer`'s contribution after the deadline of a project that
    /// missed its goal; gives the amount owed back to `backer`.
    pub fn claim_refund(&mut self, now: u64, backer: Address) -> (r: Result<u128, Error>)
        requires
            old(self)@.wf(),
        ensures
            final(self)@.wf(),
            settles(r, refund_outcome(old(self)@, now, backer), old(self)@, final(self)@),
            r is Ok ==> r->Ok_0 == amount_of(old(self)@.backers, backer),
    {
        if now <= self.deadline || self.goal_met {
            return Err(Error::RefundsNotAvailable);
        }
        proof {
            lemma_find(self.backers@, backer);
        }
        let i = match find_backer(&self.backers, backer) {
            Some(i) => i,
            None => {
                return Err(Error::NoRefundsToClaim);
            },
        };
        let amount = self.backers[i].amount;
        if amount == 0 {
            return Err(Error::NoRefundsToClaim);
        }
        proof {
            lemma_clear(self.backers@, backer);
            lemma_amount_le_total(self.backers@, backer);
        }
        self.backers[i] = Backer { who: backer, amount: 0 };
        self.raised = self.raised - amount;
        proof {
            assert(self.milestones@.map_values(|m: Milestone| m@) =~= old(self)@.milestones);
        }
        Ok(amount)
    }
}

pub proof fn lemma_milestone_total_update(ms: Seq<MilestoneModel>, i: int, x: MilestoneModel)
    requires
        0 <= i < ms.len(),
    ensures
        milestone_total(ms.update(i, x)) == milestone_total(ms) - ms[i].amount_to_release
            + x.amount_to_release,
    decreases ms.len(),
{
    let t = ms.update(i, x);
    if i < ms.len() - 1 {
        assert(t.drop_last() =~= ms.drop_last().update(i, x));
        lemma_milestone_total_update(ms.drop_last(), i, x);
    } else {
        assert(t.drop_last() =~= ms.drop_last());
    }
}

/// The contract instance: the single project record, absent until
/// `initialize` succeeds.
pub struct MilestoneFund {
    pub project: Option<Project>,
}

impl MilestoneFund {
    /// The stored project's value, if there is one.
    pub open spec fn state(&self) -> Option<ProjectModel> {
        match self.project {
            Some(p) => Some(p@),
            None => None,
        }
    }

    /// The stored project, if there is one, satisfies its invariant.
    pub open spec fn wf(&self) -> bool {
        match self.project {
            Some(p) => p@.wf(),
            None => true,
        }
    }

    /// An instance with no project yet.
    pub fn new() -> (r: MilestoneFund)
        ensures
            r.state() is None,
            r.wf(),
    {
        MilestoneFund { project: None }
    }

    /// An instance holding `project`, when it satisfies the invariant.
    pub fn restore(project: Project) -> (r: Option<MilestoneFund>)
        ensures
            r is Some <==> project@.wf(),
            r is Some ==> r->Some_0.state() == Some(project@) && r->Some_0.wf(),
    {
        if project.is_wf() {
            Some(MilestoneFund { project: Some(project) })
        } else {
            None
        }
    }

    /// Creates the project, once: `now` is the current time index and each
    /// milestone is given as a title and the amount it releases.
    pub fn initialize(
        &mut self,
        now: u64,
        creator: Address,
        token: Address,
        goal: u128,
        deadline: u64,
        milestones: Vec<(String, u128)>,
    ) -> (r: Result<(), Error>)
        requires
            old(self).wf(),
        ensures
            final(self).wf(),
            match initialize_outcome(
                old(self).state(),
                now,
                creator,
                token,
                goal,
                deadline,
                milestones@,
            ) {
                Ok(q) => r is Ok && final(self).state() == Some(q),
                Err(e) => r == Err::<(), Error>(e) && final(self).state() == old(self).state(),
            },
    {
        if self.project.is_some() {
            return Err(Error::ProjectAlreadyInitialized);
        }
        if deadline <= now {
            return Err(Error::DeadlineMustBeInFuture);
        }
        if goal == 0 {
            return Err(Error::GoalMustBePositive);
        }
        if milestones.len() == 0 {
            return Err(Error::MilestoneListEmpty);
        }
        let mut built: Vec<Milestone> = Vec::new();
        let mut sum: u128 = 0;
        let mut overflow = false;
        let mut i: usize = 0;
        while i < milestones.len()
            invariant
                0 <= i <= milestones@.len(),
                built@.map_values(|m: Milestone| m@) =~= new_milestones(milestones@.take(i as int)),
                !overflow ==> sum == milestone_total(new_milestones(milestones@.take(i as int))),
                overflow ==> milestone_total(new_milestones(milestones@.take(i as int)))
                    > u128::MAX,
            decreases milestones@.len() - i,
        {
            let title = milestones[i].0.clone();
            let amount = milestones[i].1;
            let ghost prev = new_milestones(milestones@.take(i as int));
            built.push(Milestone { title, amount_to_release: amount, is_complete: false, votes: Vec::new() });
            proof {
                let next = new_milestones(milestones@.take(i + 1));
                assert(next.drop_last() =~= prev);
                assert(next =~= prev.push(next.last()));
            }
            if !overflow {
                match sum.checked_add(amount) {
                    Some(s) => {
                        sum = s;
                    },
                    None => {
                        overflow = true;
                    },
                }
            }
            i = i + 1;
        }
        proof {
            assert(milestones@.take(milestones@.len() as int) =~= milestones@);
        }
        if overflow || sum != goal {
            return Err(Error::MilestoneAmountsMismatchGoal);
        }
        let project = Project {
            creator,
            token,
            goal,
            raised: 0,
            deadline,
            milestones: built,
            backers: Vec::new(),
            goal_met: false,
        };
        proof {
            assert(project@.backers =~= Seq::<Backer>::empty());
        }
        self.project = Some(project);
        Ok(())
    }

    /// Whether a funding call at `now` that passes the funding checks keeps
    /// `raised` within `u128`.
    pub open spec fn fits(&self, now: u64, amount: u128) -> bool {
        match self.project {
            Some(p) => !p.goal_met && now <= p.deadline && amount > 0 ==> p.raised + amount
                <= u128::MAX,
            None => true,
        }
    }

    /// Credits `amount` from `backer` at time index `now`.
    pub fn fund(&mut self, now: u64, backer: Address, amount: u128) -> (r: Result<(), Error>)
        requires
            old(self).wf(),
            old(self).fits(now, amount),
        ensures
            final(self).wf(),
            match old(self).state() {
                None => r == Err::<(), Error>(Error::ProjectNotInitialized) && final(self).state()
                    is None,
                Some(p) => final(self).state() is Some && settles(
                    r,
                    fund_outcome(p, now, backer, amount),
                    p,
                    final(self).state()->Some_0,
                ),
            },
    {
        match &mut self.project {
            Some(p) => p.fund(now, backer, amount),
            None => Err(Error::ProjectNotInitialized),
        }
    }

    /// Records a yes vote of `backer` on the milestone at `index`.
    pub fn vote(&mut self, backer: Address, index: u32) -> (r: Result<(), Error>)
        requires
            old(self).wf(),
        ensures
            final(self).wf(),
            match old(self).state() {
                None => r == Err::<(), Error>(Error::ProjectNotInitialized) && final(self).state()
                    is None,
                Some(p) => final(self).state() is Some && settles(
                    r,
                    vote_outcome(p, backer, index),
                    p,
                    final(self).state()->Some_0,
                ),
            },
    {
        match &mut self.project {
            Some(p) => p.vote(backer, index),
            None => Err(Error::ProjectNotInitialized),
        }
    }

    /// Completes the milestone at `index` if approved; gives the amount to
    /// pay the creator.
    pub fn release_funds(&mut self, index: u32) -> (r: Result<u128, Error>)
        requires
            old(self).wf(),
        ensures
            final(self).wf(),
            match old(self).state() {
                None => r == Err::<u128, Error>(Error::ProjectNotInitialized) && final(self).state()
                    is None,
                Some(p) => final(self).state() is Some && settles(
                    r,
                    release_outcome(p, index),
                    p,
                    final(self).state()->Some_0,
                ) && (r is Ok ==> r->Ok_0 == p.milestones[index as int].amount_to_release),
            },
    {
        match &mut self.project {
            Some(p) => p.release_funds(index),
            None => Err(Error::ProjectNotInitialized),
        }
    }

    /// Clears `backer`'s contribution at time index `now` if a refund is
    /// due; gives the amount to return to `backer`.
    pub fn claim_refund(&mut self, now: u64, backer: Address) -> (r: Result<u128, Error>)
        requires
            old(self).wf(),
        ensures
            final(self).wf(),
            match old(self).state() {
                None => r == Err::<u128, Error>(Error::ProjectNotInitialized) && final(self).state()
                    is None,
                Some(p) => final(self).state() is Some && settles(
                    r,
                    refund_outcome(p, now, backer),
                    p,
                    final(self).state()->Some_0,
                ) && (r is Ok ==> r->Ok_0 == amount_of(p.backers, backer)),
            },
    {
        match &mut self.project {
            Some(p) => p.claim_refund(now, backer),
            None => Err(Error::ProjectNotInitialized),
        }
    }

    /// The stored project.
    pub fn get_project(&self) -> (r: Result<&Project, Error>)
        ensures
            match self.state() {
                None => r is Err && r->Err_0 == Error::ProjectNotInitialized,
                Some(p) => r is Ok && r->Ok_0@ == p,
            },
    {
        match &self.project {
            Some(p) => Ok(p),
            None => Err(Error::ProjectNotInitialized),
        }
    }

    /// What `backer` has contributed, 0 when nothing.
    pub fn get_backer_info(&self, backer: Address) -> (r: Result<u128, Error>)
        ensures
            match self.state() {
                None => r == Err::<u128, Error>(Error::ProjectNotInitialized),
                Some(p) => r == Ok::<u128, Error>(amount_of(p.backers, backer) as u128),
            },
    {
        match &self.project {
            Some(p) => Ok(amount_lookup(&p.backers, backer)),
            None => Err(Error::ProjectNotInitialized),
        }
    }
}


/// Whether no party votes twice.
fn votes_distinct(votes: &Vec<Vote>) -> (r: bool)
    ensures
        r == votes_unique(votes@),
{
    let n = votes.len();
    let mut j: usize = 0;
    while j < n
        invariant
            n == votes@.len(),
            0 <= j <= n,
            forall|a: int, b: int| 0 <= a < j && a < b < n ==> votes@[a].voter != votes@[b].voter,
        decreases n - j,
    {
        let mut k: usize = j + 1;
        while k < n
            invariant
                n == votes@.len(),
                0 <= j < n,
                j + 1 <= k <= n,
                forall|a: int, b: int| 0 <= a < j && a < b < n ==> votes@[a].voter != votes@[b].voter,
                forall|b: int| j < b < k ==> votes@[j as int].voter != votes@[b].voter,
            decreases n - k,
        {
            if votes[j].voter == votes[k].voter {
                return false;
            }
            k = k + 1;
        }
        j = j + 1;
    }
    true
}

proof fn lemma_milestone_total_prefix(ms: Seq<MilestoneModel>, i: int, j: int)
    requires
        0 <= i <= j <= ms.len(),
    ensures
        milestone_total(ms.take(i)) <= milestone_total(ms.take(j)),
    decreases j - i,
{
    if i < j {
        assert(ms.take(j).drop_last() =~= ms.take(j - 1));
        lemma_milestone_total_prefix(ms, i, j - 1);
    }
}

impl Project {
    /// Whether the project satisfies its invariant.
    pub fn is_wf(&self) -> (r: bool)
        ensures
            r == self@.wf(),
    {
        let ghost ms = self@.milestones;
        if self.goal == 0 || self.milestones.len() == 0 {
            return false;
        }
        let mut sum: u128 = 0;
        let mut i: usize = 0;
        proof {
            assert(ms.take(0) =~= Seq::<MilestoneModel>::empty());
            assert(ms.take(ms.len() as int) =~= ms);
        }
        while i < self.milestones.len()
            invariant
                ms == self@.milestones,
                ms.len() == self.milestones@.len(),
                0 <= i <= ms.len(),
                sum == milestone_total(ms.take(i as int)),
                ms.take(ms.len() as int) == ms,
                forall|k: int| 0 <= k < i ==> votes_unique(#[trigger] ms[k].votes),
            decreases ms.len() - i,
        {
            proof {
                assert(ms.take(i + 1).drop_last() =~= ms.take(i as int));
                lemma_milestone_total_prefix(ms, i + 1, ms.len() as int);
                assert(ms[i as int] == self.milestones@[i as int]@);
            }
            if !votes_distinct(&self.milestones[i].votes) {
                proof {
                    assert(!votes_unique(self@.milestones[i as int].votes));
                }
                return false;
            }
            match sum.checked_add(self.milestones[i].amount_to_release) {
                Some(s) => {
                    sum = s;
                },
                None => {
                    return false;
                },
            }
            i = i + 1;
        }
        if sum != self.goal || !all_distinct(&self.backers) {
            return false;
        }
        match total_of(&self.backers) {
            Some(t) => t == self.raised && self.goal_met == (self.raised >= self.goal),
            None => false,
        }
    }
}

} // verus!
