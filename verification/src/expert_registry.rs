//! The expert registry: staked experts, their tiers and their reputation.
use vstd::prelude::*;
use crate::address::{optional_view, Address};
use crate::error::Error;
use crate::event::{event_views, Event, EventView, Outbox};
use crate::text::{clone_strings, texts};

verus! {

/// The least stake of a general expert, and so of any expert at registration.
pub const MIN_STAKE_GENERAL: i128 = 1_000_000_000;

/// The least stake of a specialized expert.
pub const MIN_STAKE_SPECIALIZED: i128 = 5_000_000_000;

/// The least stake of a professional expert.
pub const MIN_STAKE_PROFESSIONAL: i128 = 10_000_000_000;

/// The tier of an expert, by their stake.
#[derive(Clone, Copy, Debug, PartialEq, Eq, Structural)]
pub enum ExpertLevel {
    General,
    Specialized,
    Professional,
}

/// The standing of an expert, by their reputation points.
#[derive(Clone, Copy, Debug, PartialEq, Eq, Structural)]
pub enum ReputationLevel {
    Seedling,
    Sprout,
    Established,
    Expert,
    Master,
}

/// The tier that goes with a stake: professional from the professional
/// threshold on, specialized from the specialized threshold on, general
/// below. Each threshold belongs to the tier above it.
pub open spec fn level_for_stake(stake: int) -> ExpertLevel {
    if stake >= MIN_STAKE_PROFESSIONAL {
        ExpertLevel::Professional
    } else if stake >= MIN_STAKE_SPECIALIZED {
        ExpertLevel::Specialized
    } else {
        ExpertLevel::General
    }
}

/// The standing that goes with a number of points: seedling below 100,
/// sprout below 500, established below 1000, expert below 5000, master from
/// there on.
pub open spec fn level_for_points(points: int) -> ReputationLevel {
    if points >= 5000 {
        ReputationLevel::Master
    } else if points >= 1000 {
        ReputationLevel::Expert
    } else if points >= 500 {
        ReputationLevel::Established
    } else if points >= 100 {
        ReputationLevel::Sprout
    } else {
        ReputationLevel::Seedling
    }
}

/// Points after a change: the sum, kept within zero and the top of the
/// 64-bit range.
pub open spec fn points_after(points: int, change: int) -> int {
    if points + change < 0 {
        0
    } else if points + change > i64::MAX {
        i64::MAX as int
    } else {
        points + change
    }
}

/// The share of correct reviews in percent, rounded down; 0 without reviews.
pub open spec fn accuracy_of(correct: int, total: int) -> int {
    if total == 0 {
        0
    } else {
        correct * 100 / total
    }
}

/// The profile of a staked expert.
#[derive(Debug, PartialEq, Eq)]
pub struct Expert {
    pub address: Address,
    pub name: String,
    pub bio: String,
    pub expertise_categories: Vec<String>,
    pub staked_amount: i128,
    pub expert_level: ExpertLevel,
    pub reputation_points: i64,
    pub reputation_level: ReputationLevel,
    pub total_reviews: u32,
    pub correct_reviews: u32,
    pub total_earnings: i128,
    pub registered_at: u64,
}

/// An [`Expert`] as a mathematical value.
pub ghost struct ExpertView {
    pub address: Seq<char>,
    pub name: Seq<char>,
    pub bio: Seq<char>,
    pub expertise_categories: Seq<Seq<char>>,
    pub staked_amount: i128,
    pub expert_level: ExpertLevel,
    pub reputation_points: i64,
    pub reputation_level: ReputationLevel,
    pub total_reviews: u32,
    pub correct_reviews: u32,
    pub total_earnings: i128,
    pub registered_at: u64,
}

impl View for Expert {
    type V = ExpertView;

    open spec fn view(&self) -> ExpertView {
        ExpertView {
            address: self.address@,
            name: self.name@,
            bio: self.bio@,
            expertise_categories: texts(self.expertise_categories@),
            staked_amount: self.staked_amount,
            expert_level: self.expert_level,
            reputation_points: self.reputation_points,
            reputation_level: self.reputation_level,
            total_reviews: self.total_reviews,
            correct_reviews: self.correct_reviews,
            total_earnings: self.total_earnings,
            registered_at: self.registered_at,
        }
    }
}

impl Clone for Expert {
    fn clone(&self) -> (copy: Expert)
        ensures
            copy@ == self@,
    {
        Expert {
            address: self.address.clone(),
            name: self.name.clone(),
            bio: self.bio.clone(),
            expertise_categories: clone_strings(&self.expertise_categories),
            staked_amount: self.staked_amount,
            expert_level: self.expert_level,
            reputation_points: self.reputation_points,
            reputation_level: self.reputation_level,
            total_reviews: self.total_reviews,
            correct_reviews: self.correct_reviews,
            total_earnings: self.total_earnings,
            registered_at: self.registered_at,
        }
    }
}

impl ExpertView {
    /// Whether the profile is in order: tier and standing are those that go
    /// with the stake and the points, no amount and no points are negative,
    /// and no more reviews are counted correct than were counted.
    pub open spec fn consistent(self) -> bool {
        &&& self.expert_level == level_for_stake(self.staked_amount as int)
        &&& self.reputation_level == level_for_points(self.reputation_points as int)
        &&& self.reputation_points >= 0
        &&& self.staked_amount >= 0
        &&& self.total_earnings >= 0
        &&& self.correct_reviews <= self.total_reviews
    }

    /// The profile of an expert who has just registered.
    pub open spec fn registered(
        address: Seq<char>,
        name: Seq<char>,
        bio: Seq<char>,
        expertise_categories: Seq<Seq<char>>,
        stake_amount: i128,
        registered_at: u64,
    ) -> ExpertView {
        ExpertView {
            address,
            name,
            bio,
            expertise_categories,
            staked_amount: stake_amount,
            expert_level: level_for_stake(stake_amount as int),
            reputation_points: 0,
            reputation_level: ReputationLevel::Seedling,
            total_reviews: 0,
            correct_reviews: 0,
            total_earnings: 0,
            registered_at,
        }
    }

    /// The profile after one more settled review: the points change and stay
    /// within zero and the top of their range, the review is counted, as
    /// correct if it was, and the standing follows the points.
    pub open spec fn with_reputation(self, points_change: i64, was_correct: bool) -> ExpertView {
        let points = points_after(self.reputation_points as int, points_change as int);
        ExpertView {
            reputation_points: points as i64,
            reputation_level: level_for_points(points),
            total_reviews: (self.total_reviews + 1) as u32,
            correct_reviews: if was_correct {
                (self.correct_reviews + 1) as u32
            } else {
                self.correct_reviews
            },
            ..self
        }
    }

    /// The profile with `amount` added to the earnings.
    pub open spec fn with_earnings(self, amount: i128) -> ExpertView {
        ExpertView { total_earnings: (self.total_earnings + amount) as i128, ..self }
    }

    /// The profile with the stake set; the tier follows the stake.
    pub open spec fn with_stake(self, stake: int) -> ExpertView {
        ExpertView {
            staked_amount: stake as i128,
            expert_level: level_for_stake(stake),
            ..self
        }
    }

    /// What a slash of `amount` takes from the stake: the amount, or the
    /// whole stake where that is less.
    pub open spec fn slashed_by(self, amount: i128) -> i128 {
        if amount > self.staked_amount {
            self.staked_amount
        } else {
            amount
        }
    }

    /// The share of correct reviews in percent.
    pub open spec fn accuracy(self) -> int {
        accuracy_of(self.correct_reviews as int, self.total_reviews as int)
    }
}

/// The profile after a run of settled reviews, each with its change of
/// points and whether it was correct, oldest first.
pub open spec fn after_reviews(expert: ExpertView, outcomes: Seq<(i64, bool)>) -> ExpertView
    decreases outcomes.len(),
{
    if outcomes.len() == 0 {
        expert
    } else {
        after_reviews(expert, outcomes.drop_last()).with_reputation(
            outcomes.last().0,
            outcomes.last().1,
        )
    }
}

/// Points never fall below zero: not after one change, whatever the profile
/// was, and not after any run of changes to a profile whose points were not
/// negative. The standing goes with the points throughout.
pub proof fn lemma_points_never_negative(
    expert: ExpertView,
    points_change: i64,
    was_correct: bool,
    outcomes: Seq<(i64, bool)>,
)
    ensures
        expert.with_reputation(points_change, was_correct).reputation_points >= 0,
        expert.with_reputation(points_change, was_correct).reputation_level == level_for_points(
            expert.with_reputation(points_change, was_correct).reputation_points as int,
        ),
        expert.reputation_points >= 0 ==> after_reviews(expert, outcomes).reputation_points >= 0,
        outcomes.len() > 0 ==> after_reviews(expert, outcomes).reputation_points >= 0,
    decreases outcomes.len(),
{
    if outcomes.len() > 0 {
        lemma_points_never_negative(expert, points_change, was_correct, outcomes.drop_last());
    }
}

/// A profile that is in order stays in order through every change that the
/// registry makes: a change of reputation, a payment of earnings, a new
/// stake. A profile is in order when it is registered.
pub proof fn lemma_profile_stays_consistent(
    expert: ExpertView,
    points_change: i64,
    was_correct: bool,
    amount: i128,
    stake: int,
)
    requires
        expert.consistent(),
    ensures
        expert.total_reviews < u32::MAX ==> expert.with_reputation(
            points_change,
            was_correct,
        ).consistent(),
        amount >= 0 && expert.total_earnings + amount <= i128::MAX ==> expert.with_earnings(
            amount,
        ).consistent(),
        0 <= stake <= i128::MAX ==> expert.with_stake(stake).consistent(),
        amount >= 0 ==> ExpertView::registered(
            expert.address,
            expert.name,
            expert.bio,
            expert.expertise_categories,
            amount,
            expert.registered_at,
        ).consistent(),
{
}

/// In a registry that is in order, the tier and the standing of every
/// expert are those that go with their stake and their points, and their
/// points are not negative.
pub proof fn lemma_levels_follow_their_fields(registry: ExpertRegistryView, address: Seq<char>)
    requires
        registry.inv(),
        registry.is_registered(address),
    ensures
        registry.expert(address) matches Some(e) && e.address == address && e.expert_level
            == level_for_stake(e.staked_amount as int) && e.reputation_level == level_for_points(
            e.reputation_points as int,
        ) && e.reputation_points >= 0,
{
    let i = registry.index_of(address);
    assert(registry.experts[i].consistent());
}

/// The experts of a list, in order.
pub open spec fn expert_views(list: Seq<Expert>) -> Seq<ExpertView> {
    list.map_values(|e: Expert| e@)
}

/// The expert registry. It owns the profiles of the experts, one for each
/// identity, and keeps each profile's tier and standing in step with its
/// stake and its points.
#[derive(Debug)]
pub struct ExpertRegistry {
    admin: Option<Address>,
    experts: Vec<Expert>,
    outbox: Outbox,
}

/// An [`ExpertRegistry`] as a mathematical value.
pub ghost struct ExpertRegistryView {
    /// The administrator, once the registry is initialized.
    pub admin: Option<Seq<char>>,
    /// The profiles, in the order of registration.
    pub experts: Seq<ExpertView>,
    /// The events not collected yet, oldest first.
    pub events: Seq<EventView>,
}

impl ExpertRegistryView {
    /// What holds of every registry: no identity has two profiles, every
    /// profile is in order, and the number of profiles fits its type.
    pub open spec fn inv(self) -> bool {
        &&& self.experts.len() <= u64::MAX
        &&& forall|i: int| 0 <= i < self.experts.len() ==> (#[trigger] self.experts[i]).consistent()
        &&& forall|i: int, j: int|
            0 <= i < j < self.experts.len() ==> (#[trigger] self.experts[i]).address != (
            #[trigger] self.experts[j]).address
    }

    /// Whether the identity has a profile.
    pub open spec fn is_registered(self, address: Seq<char>) -> bool {
        exists|i: int| 0 <= i < self.experts.len() && (#[trigger] self.experts[i]).address == address
    }

    /// The position of the identity's profile, where it has one.
    pub open spec fn index_of(self, address: Seq<char>) -> int {
        choose|i: int| 0 <= i < self.experts.len() && (#[trigger] self.experts[i]).address == address
    }

    /// The profile of the identity, if it has one.
    pub open spec fn expert(self, address: Seq<char>) -> Option<ExpertView> {
        if self.is_registered(address) {
            Some(self.experts[self.index_of(address)])
        } else {
            None
        }
    }

    /// The registry with the profile of an identity replaced.
    pub open spec fn with_expert(self, address: Seq<char>, expert: ExpertView) -> ExpertRegistryView {
        ExpertRegistryView { experts: self.experts.update(self.index_of(address), expert), ..self }
    }

    /// The registry with the profile of a new identity added.
    pub open spec fn with_new_expert(self, expert: ExpertView) -> ExpertRegistryView {
        ExpertRegistryView { experts: self.experts.push(expert), ..self }
    }

    /// The registry with one more event in its outbox.
    pub open spec fn with_event(self, event: EventView) -> ExpertRegistryView {
        ExpertRegistryView { events: self.events.push(event), ..self }
    }

    /// The answer to a registration: refused, in this order, if the expert
    /// did not authorize the call, if the identity has a profile, if the
    /// stake is below the lowest threshold, or if the registry is full.
    pub open spec fn registration(self, address: Seq<char>, authorized: bool, stake_amount: i128)
        -> Result<bool, Error> {
        if !authorized {
            Err(Error::Unauthorized)
        } else if self.is_registered(address) {
            Err(Error::AlreadyRegistered)
        } else if stake_amount < MIN_STAKE_GENERAL {
            Err(Error::StakeTooLow)
        } else if self.experts.len() >= u64::MAX {
            Err(Error::Overflow)
        } else {
            Ok(true)
        }
    }

    /// The answer to a change of reputation: refused if the identity has no
    /// profile, or if its count of reviews is at the top of its range.
    pub open spec fn reputation_update(self, address: Seq<char>) -> Result<(), Error> {
        match self.expert(address) {
            None => Err(Error::ExpertNotFound),
            Some(e) => if e.total_reviews == u32::MAX {
                Err(Error::Overflow)
            } else {
                Ok(())
            },
        }
    }

    /// The answer to a payment of earnings: refused, in this order, if the
    /// identity has no profile, if the amount is negative, or if the earnings
    /// would leave their range.
    pub open spec fn earning(self, address: Seq<char>, amount: i128) -> Result<(), Error> {
        match self.expert(address) {
            None => Err(Error::ExpertNotFound),
            Some(e) => if amount < 0 {
                Err(Error::NegativeAmount)
            } else if e.total_earnings + amount > i128::MAX {
                Err(Error::Overflow)
            } else {
                Ok(())
            },
        }
    }

    /// The answer to a slash: what is taken from the stake; refused if the
    /// identity has no profile, or if the amount is negative.
    pub open spec fn slash(self, address: Seq<char>, amount: i128) -> Result<i128, Error> {
        match self.expert(address) {
            None => Err(Error::ExpertNotFound),
            Some(e) => if amount < 0 {
                Err(Error::NegativeAmount)
            } else {
                Ok(e.slashed_by(amount))
            },
        }
    }

    /// The answer to an addition to the stake: refused, in this order, if
    /// the expert did not authorize the call, if the identity has no
    /// profile, if the amount is negative, if the stake would leave its
    /// range, or if the stake would still be below the lowest threshold.
    pub open spec fn staking(self, address: Seq<char>, authorized: bool, amount: i128) -> Result<
        (),
        Error,
    > {
        if !authorized {
            Err(Error::Unauthorized)
        } else {
            match self.expert(address) {
                None => Err(Error::ExpertNotFound),
                Some(e) => if amount < 0 {
                    Err(Error::NegativeAmount)
                } else if e.staked_amount + amount > i128::MAX {
                    Err(Error::Overflow)
                } else if e.staked_amount + amount < MIN_STAKE_GENERAL {
                    Err(Error::StakeTooLow)
                } else {
                    Ok(())
                },
            }
        }
    }
}

/// What a changed profile does to the lookups: the identity whose profile
/// was replaced by one of its own is found with the new profile, every
/// other identity is found as before, and the registry holds as many
/// profiles as before.
pub proof fn lemma_lookup_after_change(
    registry: ExpertRegistryView,
    later: ExpertRegistryView,
    address: Seq<char>,
    expert: ExpertView,
    other: Seq<char>,
)
    requires
        registry.inv(),
        registry.is_registered(address),
        expert.address == address,
        later.experts == registry.with_expert(address, expert).experts,
    ensures
        later.expert(address) == Some(expert),
        other != address ==> later.expert(other) == registry.expert(other),
        later.experts.len() == registry.experts.len(),
{
    let before = registry.experts;
    let after = later.experts;
    let i = registry.index_of(address);
    assert(before[i].address == address);
    assert(after[i] == expert);
    assert forall|j: int| 0 <= j < before.len() implies (#[trigger] after[j]).address
        == before[j].address by {}
    // The identity itself.
    assert(later.is_registered(address));
    let k = later.index_of(address);
    assert(after[k].address == address);
    assert(before[k].address == before[i].address);
    assert(k == i);
    // Another identity.
    if other != address {
        if registry.is_registered(other) {
            let j = registry.index_of(other);
            assert(before[j].address == other);
            assert(after[j] == before[j]);
            assert(later.is_registered(other));
            let m = later.index_of(other);
            assert(after[m].address == other);
            assert(before[m].address == before[j].address);
            assert(m == j);
        } else if later.is_registered(other) {
            let m = later.index_of(other);
            assert(after[m].address == other);
            assert(before[m].address == other);
        }
    }
}

/// What a registration does to the lookups: the new identity is found with
/// its profile, every other identity is found as before, and the registry
/// holds one profile more.
pub proof fn lemma_lookup_after_registration(
    registry: ExpertRegistryView,
    later: ExpertRegistryView,
    expert: ExpertView,
    other: Seq<char>,
)
    requires
        registry.inv(),
        !registry.is_registered(expert.address),
        later.experts == registry.with_new_expert(expert).experts,
    ensures
        later.expert(expert.address) == Some(expert),
        other != expert.address ==> later.expert(other) == registry.expert(other),
        later.experts.len() == registry.experts.len() + 1,
{
    let before = registry.experts;
    let after = later.experts;
    let n = before.len() as int;
    assert(after[n] == expert);
    assert forall|j: int| 0 <= j < n implies #[trigger] after[j] == before[j] by {}
    assert(later.is_registered(expert.address));
    let k = later.index_of(expert.address);
    assert(after[k].address == expert.address);
    if k < n {
        assert(before[k].address == expert.address);
    }
    assert(k == n);
    if other != expert.address {
        if registry.is_registered(other) {
            let j = registry.index_of(other);
            assert(before[j].address == other);
            assert(after[j] == before[j]);
            assert(later.is_registered(other));
            let m = later.index_of(other);
            assert(after[m].address == other);
            assert(m < n);
            assert(before[m].address == before[j].address);
            assert(m == j);
        } else if later.is_registered(other) {
            let m = later.index_of(other);
            assert(after[m].address == other);
            assert(m < n);
            assert(before[m].address == other);
        }
    }
}

/// A registry that is in order stays in order through every operation that
/// succeeds: a registration, a change of reputation, a payment of earnings,
/// a slash, an addition to the stake. So the tier and the standing of every
/// expert go with their stake and their points in every registry that the
/// operations can reach from an empty one.
pub proof fn lemma_registry_stays_in_order(
    registry: ExpertRegistryView,
    address: Seq<char>,
    authorized: bool,
    name: Seq<char>,
    bio: Seq<char>,
    expertise_categories: Seq<Seq<char>>,
    registered_at: u64,
    amount: i128,
    points_change: i64,
    was_correct: bool,
)
    requires
        registry.inv(),
    ensures
        registry.registration(address, authorized, amount) is Ok ==> registry.with_new_expert(
            ExpertView::registered(address, name, bio, expertise_categories, amount, registered_at),
        ).inv(),
        registry.reputation_update(address) is Ok ==> registry.with_expert(
            address,
            registry.expert(address)->Some_0.with_reputation(points_change, was_correct),
        ).inv(),
        registry.earning(address, amount) is Ok ==> registry.with_expert(
            address,
            registry.expert(address)->Some_0.with_earnings(amount),
        ).inv(),
        registry.slash(address, amount) matches Ok(taken) ==> registry.with_expert(
            address,
            registry.expert(address)->Some_0.with_stake(
                registry.expert(address)->Some_0.staked_amount - taken,
            ),
        ).inv(),
        registry.staking(address, authorized, amount) is Ok ==> registry.with_expert(
            address,
            registry.expert(address)->Some_0.with_stake(
                registry.expert(address)->Some_0.staked_amount + amount,
            ),
        ).inv(),
{
    let before = registry.experts;
    if registry.registration(address, authorized, amount) is Ok {
        let fresh = ExpertView::registered(
            address,
            name,
            bio,
            expertise_categories,
            amount,
            registered_at,
        );
        let after = registry.with_new_expert(fresh).experts;
        assert forall|i: int| 0 <= i < after.len() implies (#[trigger] after[i]).consistent() by {
            if i < before.len() {
                assert(after[i] == before[i]);
            }
        }
        assert forall|i: int, j: int| 0 <= i < j < after.len() implies (
        #[trigger] after[i]).address != (#[trigger] after[j]).address by {
            assert(after[i] == before[i]);
            if j < before.len() {
                assert(after[j] == before[j]);
            }
        }
    }
    if registry.is_registered(address) {
        let i = registry.index_of(address);
        let e = before[i];
        assert(e.consistent());
        lemma_profile_stays_consistent(e, points_change, was_correct, amount, 0);
        lemma_profile_stays_consistent(
            e,
            points_change,
            was_correct,
            amount,
            e.staked_amount - e.slashed_by(amount),
        );
        lemma_profile_stays_consistent(
            e,
            points_change,
            was_correct,
            amount,
            e.staked_amount + amount,
        );
        assert forall|changed: ExpertView|
            changed.address == address && changed.consistent() implies (
        #[trigger] registry.with_expert(address, changed)).inv() by {
            let after = registry.with_expert(address, changed).experts;
            assert forall|j: int| 0 <= j < after.len() implies (#[trigger] after[j]).consistent()
                && after[j].address == before[j].address by {
                if j != i {
                    assert(after[j] == before[j]);
                }
            }
            assert forall|j: int, k: int| 0 <= j < k < after.len() implies (
            #[trigger] after[j]).address != (#[trigger] after[k]).address by {
                assert(before[j].address != before[k].address);
            }
        }
    }
}

impl View for ExpertRegistry {
    type V = ExpertRegistryView;

    closed spec fn view(&self) -> ExpertRegistryView {
        ExpertRegistryView {
            admin: optional_view(self.admin),
            experts: expert_views(self.experts@),
            events: self.outbox@,
        }
    }
}

impl ExpertRegistry {
    /// Whether the registry is well formed.
    pub open spec fn wf(&self) -> bool {
        self@.inv()
    }

    /// An empty registry without an administrator.
    pub fn new() -> (registry: ExpertRegistry)
        ensures
            registry.wf(),
            registry@ == (ExpertRegistryView {
                admin: None,
                experts: Seq::empty(),
                events: Seq::empty(),
            }),
    {
        let registry = ExpertRegistry { admin: None, experts: Vec::new(), outbox: Outbox::new() };
        assert(registry@.experts =~= Seq::empty());
        registry
    }

    /// The position of the identity's profile, if it has one.
    fn find(&self, expert: &Address) -> (r: Option<usize>)
        requires
            self.wf(),
        ensures
            r is Some <==> self@.is_registered(expert@),
            r matches Some(i) ==> i == self@.index_of(expert@) && i < self.experts@.len()
                && self.experts@[i as int]@ == self@.experts[i as int] && self@.experts[i as int].address
                == expert@,
    {
        let mut i: usize = 0;
        while i < self.experts.len()
            invariant
                self.wf(),
                i <= self.experts@.len(),
                self@.experts.len() == self.experts@.len(),
                forall|m: int| 0 <= m < i ==> (#[trigger] self@.experts[m]).address != expert@,
            decreases self.experts.len() - i,
        {
            assert(self@.experts[i as int] == self.experts@[i as int]@);
            if self.experts[i].address == *expert {
                proof {
                    let chosen = self@.index_of(expert@);
                    assert(self@.experts[chosen].address == expert@);
                    assert(chosen == i);
                }
                return Some(i);
            }
            i += 1;
        }
        None
    }

    /// The lookups of this registry, where it holds the profiles of an
    /// earlier one with the profile of one identity replaced.
    proof fn lemma_changed(&self, before: ExpertRegistryView, address: Seq<char>, expert: ExpertView)
        requires
            before.inv(),
            before.is_registered(address),
            expert.address == address,
            self@.experts == before.with_expert(address, expert).experts,
        ensures
            self@.expert(address) == Some(expert),
            forall|other: Seq<char>|
                other != address ==> #[trigger] self@.expert(other) == before.expert(other),
    {
        lemma_lookup_after_change(before, self@, address, expert, address);
        assert forall|other: Seq<char>| other != address implies #[trigger] self@.expert(other)
            == before.expert(other) by {
            lemma_lookup_after_change(before, self@, address, expert, other);
        }
    }

    /// Gives the registry its administrator. Refused once it has one.
    pub fn initialize(&mut self, admin: Address) -> (r: Result<(), Error>)
        requires
            old(self).wf(),
        ensures
            final(self).wf(),
            old(self)@.admin is Some ==> r == Err::<(), Error>(Error::AlreadyInitialized)
                && final(self)@ == old(self)@,
            old(self)@.admin is None ==> r is Ok && final(self)@ == (ExpertRegistryView {
                admin: Some(admin@),
                ..old(self)@
            }),
    {
        if self.admin.is_some() {
            return Err(Error::AlreadyInitialized);
        }
        self.admin = Some(admin);
        Ok(())
    }

    /// The tier that a stake buys at registration, or when stake is added.
    /// Refused with `StakeTooLow` below the lowest threshold.
    pub fn determine_expert_level(stake_amount: i128) -> (r: Result<ExpertLevel, Error>)
        ensures
            r == (if stake_amount < MIN_STAKE_GENERAL {
                Err::<ExpertLevel, Error>(Error::StakeTooLow)
            } else {
                Ok(level_for_stake(stake_amount as int))
            }),
    {
        if stake_amount >= MIN_STAKE_PROFESSIONAL {
            Ok(ExpertLevel::Professional)
        } else if stake_amount >= MIN_STAKE_SPECIALIZED {
            Ok(ExpertLevel::Specialized)
        } else if stake_amount >= MIN_STAKE_GENERAL {
            Ok(ExpertLevel::General)
        } else {
            Err(Error::StakeTooLow)
        }
    }

    /// The standing that goes with a number of reputation points.
    pub fn calculate_reputation_level(points: i64) -> (level: ReputationLevel)
        ensures
            level == level_for_points(points as int),
    {
        if points >= 5000 {
            ReputationLevel::Master
        } else if points >= 1000 {
            ReputationLevel::Expert
        } else if points >= 500 {
            ReputationLevel::Established
        } else if points >= 100 {
            ReputationLevel::Sprout
        } else {
            ReputationLevel::Seedling
        }
    }

    /// Registers an expert with their stake, at the tier that the stake
    /// buys, with no points and the standing of a seedling, and `now` as the
    /// time of registration.
    pub fn register_expert(
        &mut self,
        expert: Address,
        authorized: bool,
        name: String,
        bio: String,
        expertise_categories: Vec<String>,
        stake_amount: i128,
        now: u64,
    ) -> (r: Result<bool, Error>)
        requires
            old(self).wf(),
        ensures
            final(self).wf(),
            r == old(self)@.registration(expert@, authorized, stake_amount),
            r is Err ==> final(self)@ == old(self)@,
            r is Ok ==> final(self)@ == old(self)@.with_new_expert(
                ExpertView::registered(
                    expert@,
                    name@,
                    bio@,
                    texts(expertise_categories@),
                    stake_amount,
                    now,
                ),
            ).with_event(EventView::ExpertRegistered(expert@)),
            r is Ok ==> final(self)@.expert(expert@) == Some(
                ExpertView::registered(
                    expert@,
                    name@,
                    bio@,
                    texts(expertise_categories@),
                    stake_amount,
                    now,
                ),
            ) && final(self)@.experts.len() == old(self)@.experts.len() + 1,
            forall|other: Seq<char>|
                other != expert@ ==> #[trigger] final(self)@.expert(other) == old(self)@.expert(
                    other,
                ),
    {
        if !authorized {
            return Err(Error::Unauthorized);
        }
        if self.find(&expert).is_some() {
            return Err(Error::AlreadyRegistered);
        }
        let expert_level = match Self::determine_expert_level(stake_amount) {
            Ok(level) => level,
            Err(e) => {
                return Err(e);
            },
        };
        let count: usize = self.experts.len();
        assert(self@.experts.len() == count);
        if count as u64 == u64::MAX {
            return Err(Error::Overflow);
        }
        let profile = Expert {
            address: expert.clone(),
            name,
            bio,
            expertise_categories,
            staked_amount: stake_amount,
            expert_level,
            reputation_points: 0,
            reputation_level: ReputationLevel::Seedling,
            total_reviews: 0,
            correct_reviews: 0,
            total_earnings: 0,
            registered_at: now,
        };
        self.experts.push(profile);
        self.outbox.emit(Event::ExpertRegistered(expert));
        assert(self@.experts =~= old(self)@.experts.push(profile@));
        proof {
            lemma_lookup_after_registration(old(self)@, self@, profile@, expert@);
            assert forall|other: Seq<char>| other != expert@ implies #[trigger] self@.expert(other)
                == old(self)@.expert(other) by {
                lemma_lookup_after_registration(old(self)@, self@, profile@, other);
            }
        }
        Ok(true)
    }

    /// The profile of an expert.
    pub fn get_expert(&self, expert: Address) -> (r: Option<&Expert>)
        requires
            self.wf(),
        ensures
            r is Some <==> self@.expert(expert@) is Some,
            r matches Some(e) ==> Some(e@) == self@.expert(expert@),
    {
        match self.find(&expert) {
            Some(i) => Some(&self.experts[i]),
            None => None,
        }
    }

    /// Whether the identity is a registered expert.
    pub fn is_expert(&self, expert: Address) -> (b: bool)
        requires
            self.wf(),
        ensures
            b == self@.is_registered(expert@),
    {
        self.find(&expert).is_some()
    }

    /// The number of registered experts.
    pub fn get_expert_count(&self) -> (n: u64)
        requires
            self.wf(),
        ensures
            n == self@.experts.len(),
    {
        self.experts.len() as u64
    }

    /// Applies the outcome of a settled review to an expert: the points
    /// change by `points_change`, without falling below zero; the review is
    /// counted, and counted as correct if it was; the standing follows the
    /// points.
    pub fn update_reputation(&mut self, expert: Address, points_change: i64, was_correct: bool) -> (r:
        Result<(), Error>)
        requires
            old(self).wf(),
        ensures
            final(self).wf(),
            r == old(self)@.reputation_update(expert@),
            r is Err ==> final(self)@ == old(self)@,
            r is Ok ==> final(self)@ == old(self)@.with_expert(
                expert@,
                old(self)@.expert(expert@)->Some_0.with_reputation(points_change, was_correct),
            ).with_event(EventView::ReputationUpdated(expert@)),
            r is Ok ==> final(self)@.expert(expert@) == Some(
                old(self)@.expert(expert@)->Some_0.with_reputation(points_change, was_correct),
            ),
            r is Ok ==> final(self)@.expert(expert@)->Some_0.reputation_points == points_after(
                old(self)@.expert(expert@)->Some_0.reputation_points as int,
                points_change as int,
            ),
            final(self)@.expert(expert@) matches Some(e) ==> e.reputation_points >= 0
                && e.reputation_level == level_for_points(e.reputation_points as int),
            forall|other: Seq<char>|
                other != expert@ ==> #[trigger] final(self)@.expert(other) == old(self)@.expert(
                    other,
                ),
    {
        proof {
            if self@.is_registered(expert@) {
                lemma_levels_follow_their_fields(self@, expert@);
            }
        }
        let i: usize = match self.find(&expert) {
            Some(i) => i,
            None => {
                return Err(Error::ExpertNotFound);
            },
        };
        if self.experts[i].total_reviews == u32::MAX {
            return Err(Error::Overflow);
        }
        let points: i64 = match self.experts[i].reputation_points.checked_add(points_change) {
            Some(sum) => if sum < 0 {
                0
            } else {
                sum
            },
            None => i64::MAX,
        };
        let total: u32 = self.experts[i].total_reviews + 1;
        let correct: u32 = if was_correct {
            self.experts[i].correct_reviews + 1
        } else {
            self.experts[i].correct_reviews
        };
        self.experts[i].reputation_points = points;
        self.experts[i].total_reviews = total;
        self.experts[i].correct_reviews = correct;
        self.experts[i].reputation_level = Self::calculate_reputation_level(points);
        self.outbox.emit(Event::ReputationUpdated(expert));
        assert(self@.experts =~= old(self)@.experts.update(
            i as int,
            old(self)@.experts[i as int].with_reputation(points_change, was_correct),
        ));
        proof {
            self.lemma_changed(
                old(self)@,
                expert@,
                old(self)@.experts[i as int].with_reputation(points_change, was_correct),
            );
        }
        Ok(())
    }

    /// Adds `amount` to the earnings of an expert.
    pub fn add_earnings(&mut self, expert: Address, amount: i128) -> (r: Result<(), Error>)
        requires
            old(self).wf(),
        ensures
            final(self).wf(),
            r == old(self)@.earning(expert@, amount),
            r is Err ==> final(self)@ == old(self)@,
            r is Ok ==> final(self)@ == old(self)@.with_expert(
                expert@,
                old(self)@.expert(expert@)->Some_0.with_earnings(amount),
            ),
            r is Ok ==> final(self)@.expert(expert@) == Some(
                old(self)@.expert(expert@)->Some_0.with_earnings(amount),
            ),
            forall|other: Seq<char>|
                other != expert@ ==> #[trigger] final(self)@.expert(other) == old(self)@.expert(
                    other,
                ),
    {
        let i: usize = match self.find(&expert) {
            Some(i) => i,
            None => {
                return Err(Error::ExpertNotFound);
            },
        };
        if amount < 0 {
            return Err(Error::NegativeAmount);
        }
        match self.experts[i].total_earnings.checked_add(amount) {
            None => Err(Error::Overflow),
            Some(earnings) => {
                self.experts[i].total_earnings = earnings;
                assert(self@.experts =~= old(self)@.experts.update(
                    i as int,
                    old(self)@.experts[i as int].with_earnings(amount),
                ));
                proof {
                    self.lemma_changed(
                        old(self)@,
                        expert@,
                        old(self)@.experts[i as int].with_earnings(amount),
                    );
                }
                Ok(())
            },
        }
    }

    /// Takes `amount` from the stake of an expert, or the whole stake where
    /// that is less, and returns what was taken. The stake never falls below
    /// zero, and the tier follows the stake.
    pub fn slash_stake(&mut self, expert: Address, amount: i128) -> (r: Result<i128, Error>)
        requires
            old(self).wf(),
        ensures
            final(self).wf(),
            r == old(self)@.slash(expert@, amount),
            r is Err ==> final(self)@ == old(self)@,
            r matches Ok(taken) ==> final(self)@ == old(self)@.with_expert(
                expert@,
                old(self)@.expert(expert@)->Some_0.with_stake(
                    old(self)@.expert(expert@)->Some_0.staked_amount - taken,
                ),
            ),
            r matches Ok(taken) ==> final(self)@.expert(expert@) == Some(
                old(self)@.expert(expert@)->Some_0.with_stake(
                    old(self)@.expert(expert@)->Some_0.staked_amount - taken,
                ),
            ) && 0 <= taken <= amount,
            forall|other: Seq<char>|
                other != expert@ ==> #[trigger] final(self)@.expert(other) == old(self)@.expert(
                    other,
                ),
    {
        let i: usize = match self.find(&expert) {
            Some(i) => i,
            None => {
                return Err(Error::ExpertNotFound);
            },
        };
        if amount < 0 {
            return Err(Error::NegativeAmount);
        }
        let staked: i128 = self.experts[i].staked_amount;
        let taken: i128 = if amount > staked {
            staked
        } else {
            amount
        };
        let left: i128 = staked - taken;
        self.experts[i].staked_amount = left;
        self.experts[i].expert_level = match Self::determine_expert_level(left) {
            Ok(level) => level,
            Err(_) => ExpertLevel::General,
        };
        assert(self@.experts =~= old(self)@.experts.update(
            i as int,
            old(self)@.experts[i as int].with_stake(staked - taken),
        ));
        proof {
            self.lemma_changed(
                old(self)@,
                expert@,
                old(self)@.experts[i as int].with_stake(staked - taken),
            );
        }
        Ok(taken)
    }

    /// Adds `amount` to the stake of an expert; the tier follows the stake.
    pub fn add_stake(&mut self, expert: Address, authorized: bool, amount: i128) -> (r: Result<
        (),
        Error,
    >)
        requires
            old(self).wf(),
        ensures
            final(self).wf(),
            r == old(self)@.staking(expert@, authorized, amount),
            r is Err ==> final(self)@ == old(self)@,
            r is Ok ==> final(self)@ == old(self)@.with_expert(
                expert@,
                old(self)@.expert(expert@)->Some_0.with_stake(
                    old(self)@.expert(expert@)->Some_0.staked_amount + amount,
                ),
            ),
            r is Ok ==> final(self)@.expert(expert@) == Some(
                old(self)@.expert(expert@)->Some_0.with_stake(
                    old(self)@.expert(expert@)->Some_0.staked_amount + amount,
                ),
            ),
            forall|other: Seq<char>|
                other != expert@ ==> #[trigger] final(self)@.expert(other) == old(self)@.expert(
                    other,
                ),
    {
        if !authorized {
            return Err(Error::Unauthorized);
        }
        let i: usize = match self.find(&expert) {
            Some(i) => i,
            None => {
                return Err(Error::ExpertNotFound);
            },
        };
        if amount < 0 {
            return Err(Error::NegativeAmount);
        }
        let staked: i128 = match self.experts[i].staked_amount.checked_add(amount) {
            Some(sum) => sum,
            None => {
                return Err(Error::Overflow);
            },
        };
        let expert_level = match Self::determine_expert_level(staked) {
            Ok(level) => level,
            Err(e) => {
                return Err(e);
            },
        };
        self.experts[i].staked_amount = staked;
        self.experts[i].expert_level = expert_level;
        assert(self@.experts =~= old(self)@.experts.update(
            i as int,
            old(self)@.experts[i as int].with_stake(staked as int),
        ));
        proof {
            self.lemma_changed(
                old(self)@,
                expert@,
                old(self)@.experts[i as int].with_stake(staked as int),
            );
        }
        Ok(())
    }

    /// The share of an expert's reviews that were correct, in percent,
    /// rounded down; 0 for an expert without reviews.
    pub fn get_accuracy(&self, expert: Address) -> (r: Result<u32, Error>)
        requires
            self.wf(),
        ensures
            r == (match self@.expert(expert@) {
                None => Err::<u32, Error>(Error::ExpertNotFound),
                Some(e) => Ok(e.accuracy() as u32),
            }),
            r matches Ok(percent) ==> percent <= 100,
    {
        let i: usize = match self.find(&expert) {
            Some(i) => i,
            None => {
                return Err(Error::ExpertNotFound);
            },
        };
        let total: u64 = self.experts[i].total_reviews as u64;
        let correct: u64 = self.experts[i].correct_reviews as u64;
        if total == 0 {
            return Ok(0);
        }
        assert(correct * 100 / (total as int) <= 100) by (nonlinear_arith)
            requires
                0 <= correct <= total,
                total > 0,
        ;
        Ok((correct * 100 / total) as u32)
    }

    /// The administrator, once the registry is initialized.
    pub fn admin(&self) -> (r: Option<&Address>)
        ensures
            r is Some <==> self@.admin is Some,
            r matches Some(a) ==> self@.admin == Some(a@),
    {
        self.admin.as_ref()
    }

    /// All profiles, in the order of registration.
    pub fn experts(&self) -> (experts: &Vec<Expert>)
        ensures
            expert_views(experts@) == self@.experts,
    {
        &self.experts
    }

    /// Whether a profile is in order.
    fn in_order(expert: &Expert) -> (b: bool)
        ensures
            b == expert@.consistent(),
    {
        let tier = match Self::determine_expert_level(expert.staked_amount) {
            Ok(level) => level,
            Err(_) => ExpertLevel::General,
        };
        expert.expert_level == tier && expert.reputation_level == Self::calculate_reputation_level(
            expert.reputation_points,
        ) && expert.reputation_points >= 0 && expert.staked_amount >= 0 && expert.total_earnings
            >= 0 && expert.correct_reviews <= expert.total_reviews
    }

    /// The registry that holds the given administrator and profiles, with an
    /// empty outbox: the way back from what was saved of a registry. Nothing
    /// where the profiles are not those of a well-formed registry.
    pub fn restore(admin: Option<Address>, experts: Vec<Expert>) -> (r: Option<ExpertRegistry>)
        ensures
            r is Some <==> (ExpertRegistryView {
                admin: optional_view(admin),
                experts: expert_views(experts@),
                events: Seq::empty(),
            }).inv(),
            r matches Some(registry) ==> registry.wf() && registry@ == (ExpertRegistryView {
                admin: optional_view(admin),
                experts: expert_views(experts@),
                events: Seq::empty(),
            }),
    {
        let ghost views = expert_views(experts@);
        let mut i: usize = 0;
        while i < experts.len()
            invariant
                views == expert_views(experts@),
                i <= experts.len(),
                forall|m: int| 0 <= m < i ==> (#[trigger] views[m]).consistent(),
                forall|m: int, n: int|
                    0 <= m < n < i ==> (#[trigger] views[m]).address != (#[trigger] views[n]).address,
            decreases experts.len() - i,
        {
            assert(views[i as int] == experts@[i as int]@);
            if !Self::in_order(&experts[i]) {
                return None;
            }
            let mut j: usize = 0;
            while j < i
                invariant
                    views == expert_views(experts@),
                    j <= i < experts.len(),
                    forall|m: int| 0 <= m < j ==> (#[trigger] views[m]).address != views[i as int].address,
                decreases i - j,
            {
                assert(views[j as int] == experts@[j as int]@);
                assert(views[i as int] == experts@[i as int]@);
                if experts[j].address == experts[i].address {
                    return None;
                }
                j += 1;
            }
            i += 1;
        }
        Some(ExpertRegistry { admin, experts, outbox: Outbox::new() })
    }

    /// Hands out the events emitted since the last call, oldest first.
    pub fn take_events(&mut self) -> (events: Vec<Event>)
        requires
            old(self).wf(),
        ensures
            final(self).wf(),
            event_views(events@) == old(self)@.events,
            final(self)@ == (ExpertRegistryView { events: Seq::empty(), ..old(self)@ }),
    {
        self.outbox.take()
    }
}

} // verus!
