//! The claim store: claims and their status lifecycle.
use vstd::prelude::*;
use crate::address::{holds, optional_view, Address};
use crate::error::Error;
use crate::event::{Event, EventView, Outbox};
use crate::text::{clone_strings, texts};

verus! {

/// The fee charged for submitting a claim, in the smallest unit of the native
/// asset. It opens the claim's stake pool.
pub const CLAIM_FEE: i128 = 5_000_000;

/// Where a claim stands in its lifecycle.
#[derive(Clone, Copy, Debug, PartialEq, Eq, Structural)]
pub enum ClaimStatus {
    Pending,
    UnderReview,
    True,
    False,
}

impl ClaimStatus {
    /// The stage of the lifecycle: submitted, in review, settled.
    pub open spec fn stage(self) -> int {
        match self {
            ClaimStatus::Pending => 0,
            ClaimStatus::UnderReview => 1,
            ClaimStatus::True => 2,
            ClaimStatus::False => 2,
        }
    }

    /// The partial order of the lifecycle: a status comes before every status
    /// of a later stage, and before itself. The two settled statuses are not
    /// ordered against each other.
    pub open spec fn at_most(self, later: ClaimStatus) -> bool {
        self == later || self.stage() < later.stage()
    }

    /// The steps that the lifecycle allows: from a status to itself, from
    /// pending to under review, and from under review to either settled
    /// status. A claim is not settled before it is under review, a settled
    /// claim keeps its status, and no status falls back.
    pub open spec fn may_become(self, next: ClaimStatus) -> bool {
        self == next || next.stage() == self.stage() + 1
    }

    /// Whether the lifecycle allows the step from this status to `next`.
    pub fn can_become(self, next: ClaimStatus) -> (b: bool)
        ensures
            b == self.may_become(next),
    {
        match (self, next) {
            (ClaimStatus::Pending, ClaimStatus::Pending) => true,
            (ClaimStatus::Pending, ClaimStatus::UnderReview) => true,
            (ClaimStatus::UnderReview, ClaimStatus::UnderReview) => true,
            (ClaimStatus::UnderReview, ClaimStatus::True) => true,
            (ClaimStatus::UnderReview, ClaimStatus::False) => true,
            (ClaimStatus::True, ClaimStatus::True) => true,
            (ClaimStatus::False, ClaimStatus::False) => true,
            _ => false,
        }
    }
}

/// A textual assertion under review.
#[derive(Debug, PartialEq, Eq)]
pub struct Claim {
    pub id: u64,
    pub submitter: Address,
    pub text: String,
    pub category: String,
    pub sources: Vec<String>,
    pub status: ClaimStatus,
    pub stake_pool: i128,
    pub timestamp: u64,
    pub review_count: u32,
}

/// A [`Claim`] as a mathematical value.
pub ghost struct ClaimView {
    pub id: u64,
    pub submitter: Seq<char>,
    pub text: Seq<char>,
    pub category: Seq<char>,
    pub sources: Seq<Seq<char>>,
    pub status: ClaimStatus,
    pub stake_pool: i128,
    pub timestamp: u64,
    pub review_count: u32,
}

impl View for Claim {
    type V = ClaimView;

    open spec fn view(&self) -> ClaimView {
        ClaimView {
            id: self.id,
            submitter: self.submitter@,
            text: self.text@,
            category: self.category@,
            sources: texts(self.sources@),
            status: self.status,
            stake_pool: self.stake_pool,
            timestamp: self.timestamp,
            review_count: self.review_count,
        }
    }
}

impl Clone for Claim {
    fn clone(&self) -> (copy: Claim)
        ensures
            copy@ == self@,
    {
        Claim {
            id: self.id,
            submitter: self.submitter.clone(),
            text: self.text.clone(),
            category: self.category.clone(),
            sources: clone_strings(&self.sources),
            status: self.status,
            stake_pool: self.stake_pool,
            timestamp: self.timestamp,
            review_count: self.review_count,
        }
    }
}

impl ClaimView {
    /// The claim as first stored: pending, unreviewed, its pool holding the fee.
    pub open spec fn submitted(
        id: u64,
        submitter: Seq<char>,
        text: Seq<char>,
        category: Seq<char>,
        sources: Seq<Seq<char>>,
        timestamp: u64,
    ) -> ClaimView {
        ClaimView {
            id,
            submitter,
            text,
            category,
            sources,
            status: ClaimStatus::Pending,
            stake_pool: CLAIM_FEE,
            timestamp,
            review_count: 0,
        }
    }

    /// The claim with its status set.
    pub open spec fn with_status(self, status: ClaimStatus) -> ClaimView {
        ClaimView { status, ..self }
    }

    /// The claim after one more review: a pending claim comes under review.
    pub open spec fn reviewed(self) -> ClaimView {
        ClaimView {
            review_count: (self.review_count + 1) as u32,
            status: if self.status == ClaimStatus::Pending {
                ClaimStatus::UnderReview
            } else {
                self.status
            },
            ..self
        }
    }

    /// The claim with `amount` added to its pool.
    pub open spec fn funded(self, amount: i128) -> ClaimView {
        ClaimView { stake_pool: (self.stake_pool + amount) as i128, ..self }
    }
}

/// The claims of a list, in order.
pub open spec fn claim_views(list: Seq<Claim>) -> Seq<ClaimView> {
    list.map_values(|c: Claim| c@)
}

/// The claim store. It owns the claims, numbers them from 1 in the order of
/// submission, and lets only the registered review component move them
/// through their lifecycle.
#[derive(Debug)]
pub struct ClaimRegistry {
    admin: Option<Address>,
    expert_registry: Option<Address>,
    review_consensus: Option<Address>,
    claims: Vec<Claim>,
    outbox: Outbox,
}

/// A [`ClaimRegistry`] as a mathematical value.
pub ghost struct ClaimRegistryView {
    /// The administrator, once the store is initialized.
    pub admin: Option<Seq<char>>,
    /// The registered expert component, if any.
    pub expert_registry: Option<Seq<char>>,
    /// The registered review component, if any.
    pub review_consensus: Option<Seq<char>>,
    /// The claims, in the order of submission.
    pub claims: Seq<ClaimView>,
    /// The events not collected yet, oldest first.
    pub events: Seq<EventView>,
}

impl ClaimRegistryView {
    /// What holds of every store: the claim at position `i` has id `i + 1`,
    /// ids fit their type, and no pool is negative.
    pub open spec fn inv(self) -> bool {
        &&& self.claims.len() <= u64::MAX
        &&& forall|i: int|
            0 <= i < self.claims.len() ==> {
                &&& (#[trigger] self.claims[i]).id == i + 1
                &&& self.claims[i].stake_pool >= 0
            }
    }

    /// The claim with the given id, if there is one.
    pub open spec fn claim(self, id: u64) -> Option<ClaimView> {
        if 1 <= id <= self.claims.len() {
            Some(self.claims[id - 1])
        } else {
            None
        }
    }

    /// The store with the claim of the given id replaced.
    pub open spec fn with_claim(self, id: u64, claim: ClaimView) -> ClaimRegistryView {
        ClaimRegistryView { claims: self.claims.update(id - 1, claim), ..self }
    }

    /// The store with one more event in its outbox.
    pub open spec fn with_event(self, event: EventView) -> ClaimRegistryView {
        ClaimRegistryView { events: self.events.push(event), ..self }
    }

    /// Whether `admin` may change the store's bindings: the call is
    /// authorized and `admin` is the store's administrator.
    pub open spec fn admin_call(self, admin: Seq<char>, authorized: bool) -> bool {
        authorized && self.admin == Some(admin)
    }

    /// The answer to a call reserved for the review component: refused unless
    /// the call is authorized and `caller` is the registered review component,
    /// then refused if the claim does not exist.
    pub open spec fn partner_call(self, caller: Seq<char>, authorized: bool, id: u64) -> Result<
        (),
        Error,
    > {
        if !authorized || self.review_consensus != Some(caller) {
            Err(Error::Unauthorized)
        } else if self.claim(id) is None {
            Err(Error::ClaimNotFound)
        } else {
            Ok(())
        }
    }

    /// The answer to a request to set a claim's status: refused as every
    /// call reserved for the review component is, and then refused as an
    /// invalid transition where the lifecycle does not allow the step from
    /// the claim's status to the new one.
    pub open spec fn status_update(
        self,
        caller: Seq<char>,
        authorized: bool,
        id: u64,
        new_status: ClaimStatus,
    ) -> Result<(), Error> {
        if self.partner_call(caller, authorized, id) is Err {
            self.partner_call(caller, authorized, id)
        } else if !self.claims[id - 1].status.may_become(new_status) {
            Err(Error::InvalidTransition)
        } else {
            Ok(())
        }
    }

    /// Whether `later` can come after this store: it holds the claims of
    /// this store at their places, perhaps more, and the status of none of
    /// them has fallen back in the order of the lifecycle.
    pub open spec fn leads_to(self, later: ClaimRegistryView) -> bool {
        &&& self.claims.len() <= later.claims.len()
        &&& forall|i: int|
            0 <= i < self.claims.len() ==> (#[trigger] self.claims[i]).status.at_most(
                later.claims[i].status,
            )
    }

    /// The page of claims that starts after the first `start` claims and
    /// holds at most `limit` of them; its end is clamped to the last claim.
    pub open spec fn page(self, start: u64, limit: u64) -> Seq<ClaimView> {
        let end = if start + limit > self.claims.len() {
            self.claims.len() as int
        } else {
            start + limit
        };
        if start < end {
            self.claims.subrange(start as int, end)
        } else {
            Seq::empty()
        }
    }
}

/// The order of the lifecycle is a partial order: every status is at most
/// itself, two statuses that are each at most the other are one, and what is
/// at most a status is at most all that this status is at most.
pub proof fn lemma_lifecycle_is_ordered(a: ClaimStatus, b: ClaimStatus, c: ClaimStatus)
    ensures
        a.at_most(a),
        a.at_most(b) && b.at_most(a) ==> a == b,
        a.at_most(b) && b.at_most(c) ==> a.at_most(c),
        ClaimStatus::Pending.at_most(a),
        a.stage() == 2 && a.at_most(b) ==> a == b,
{
}

/// No claim's status falls back over any number of steps: a store leads to
/// itself, and if each store of a chain leads to the next, the first leads
/// to the last.
pub proof fn lemma_leads_to_is_a_preorder(
    first: ClaimRegistryView,
    second: ClaimRegistryView,
    third: ClaimRegistryView,
)
    ensures
        first.leads_to(first),
        first.leads_to(second) && second.leads_to(third) ==> first.leads_to(third),
{
    if first.leads_to(second) && second.leads_to(third) {
        assert forall|i: int| 0 <= i < first.claims.len() implies (
        #[trigger] first.claims[i]).status.at_most(third.claims[i].status) by {
            assert(first.claims[i].status.at_most(second.claims[i].status));
            assert(second.claims[i].status.at_most(third.claims[i].status));
        }
    }
}

/// Every step that the lifecycle allows keeps the order of the lifecycle,
/// and a settled status allows no step but to itself.
pub proof fn lemma_steps_keep_the_order(from: ClaimStatus, to: ClaimStatus)
    ensures
        from.may_become(to) ==> from.at_most(to),
        from.stage() == 2 && from.may_become(to) ==> from == to,
        from == ClaimStatus::Pending && from.may_become(to) ==> to.stage() <= 1,
{
}

/// No operation of the store makes a claim's status fall back: the store
/// before a new claim, a counted review, an addition to a pool or a status
/// that was set leads to the store after it.
pub proof fn lemma_status_never_regresses(
    store: ClaimRegistryView,
    caller: Seq<char>,
    authorized: bool,
    id: u64,
    status: ClaimStatus,
    amount: i128,
    claim: ClaimView,
)
    ensures
        store.leads_to(
            (ClaimRegistryView { claims: store.claims.push(claim), ..store }).with_event(
                EventView::ClaimSubmitted(claim.id),
            ),
        ),
        store.partner_call(caller, authorized, id) is Ok ==> store.leads_to(
            store.with_claim(id, store.claims[id - 1].reviewed()),
        ),
        store.claim(id) is Some ==> store.leads_to(
            store.with_claim(id, store.claims[id - 1].funded(amount)),
        ),
        store.status_update(caller, authorized, id, status) is Ok ==> store.leads_to(
            store.with_claim(id, store.claims[id - 1].with_status(status)).with_event(
                EventView::StatusUpdated(id),
            ),
        ),
{
}

impl View for ClaimRegistry {
    type V = ClaimRegistryView;

    closed spec fn view(&self) -> ClaimRegistryView {
        ClaimRegistryView {
            admin: optional_view(self.admin),
            expert_registry: optional_view(self.expert_registry),
            review_consensus: optional_view(self.review_consensus),
            claims: claim_views(self.claims@),
            events: self.outbox@,
        }
    }
}

impl ClaimRegistry {
    /// Whether the store is well formed.
    pub open spec fn wf(&self) -> bool {
        self@.inv()
    }

    /// An empty store without an administrator.
    pub fn new() -> (registry: ClaimRegistry)
        ensures
            registry.wf(),
            registry@ == (ClaimRegistryView {
                admin: None,
                expert_registry: None,
                review_consensus: None,
                claims: Seq::empty(),
                events: Seq::empty(),
            }),
    {
        let registry = ClaimRegistry {
            admin: None,
            expert_registry: None,
            review_consensus: None,
            claims: Vec::new(),
            outbox: Outbox::new(),
        };
        assert(registry@.claims =~= Seq::empty());
        registry
    }

    /// The position of the claim with the given id, if there is one.
    fn position(&self, claim_id: u64) -> (r: Option<usize>)
        requires
            self.wf(),
        ensures
            r is Some <==> self@.claim(claim_id) is Some,
            r matches Some(i) ==> i == claim_id - 1 && i < self.claims@.len() && self@.claims[i as int]
                == self.claims@[i as int]@,
    {
        let count: usize = self.claims.len();
        assert(self@.claims.len() == count);
        if claim_id == 0 || claim_id > count as u64 {
            return None;
        }
        let i: usize = (claim_id - 1) as usize;
        Some(i)
    }

    /// Gives the store its administrator. Refused once it has one.
    pub fn initialize(&mut self, admin: Address) -> (r: Result<(), Error>)
        requires
            old(self).wf(),
        ensures
            final(self).wf(),
            old(self)@.admin is Some ==> r == Err::<(), Error>(Error::AlreadyInitialized)
                && final(self)@ == old(self)@,
            old(self)@.admin is None ==> r is Ok && final(self)@ == (ClaimRegistryView {
                admin: Some(admin@),
                ..old(self)@
            }),
            old(self)@.leads_to(final(self)@),
    {
        if self.admin.is_some() {
            return Err(Error::AlreadyInitialized);
        }
        self.admin = Some(admin);
        Ok(())
    }

    /// Registers the expert component. Reserved for the administrator.
    pub fn set_expert_registry(
        &mut self,
        admin: Address,
        authorized: bool,
        expert_contract: Address,
    ) -> (r: Result<(), Error>)
        requires
            old(self).wf(),
        ensures
            final(self).wf(),
            !old(self)@.admin_call(admin@, authorized) ==> r == Err::<(), Error>(
                Error::Unauthorized,
            ) && final(self)@ == old(self)@,
            old(self)@.admin_call(admin@, authorized) ==> r is Ok && final(self)@ == (
            ClaimRegistryView { expert_registry: Some(expert_contract@), ..old(self)@ }),
            old(self)@.leads_to(final(self)@),
    {
        if !authorized || !holds(&self.admin, &admin) {
            return Err(Error::Unauthorized);
        }
        self.expert_registry = Some(expert_contract);
        Ok(())
    }

    /// Registers the review component, the one caller that may set a claim's
    /// status and count its reviews. Reserved for the administrator.
    pub fn set_review_consensus(
        &mut self,
        admin: Address,
        authorized: bool,
        review_contract: Address,
    ) -> (r: Result<(), Error>)
        requires
            old(self).wf(),
        ensures
            final(self).wf(),
            !old(self)@.admin_call(admin@, authorized) ==> r == Err::<(), Error>(
                Error::Unauthorized,
            ) && final(self)@ == old(self)@,
            old(self)@.admin_call(admin@, authorized) ==> r is Ok && final(self)@ == (
            ClaimRegistryView { review_consensus: Some(review_contract@), ..old(self)@ }),
            old(self)@.leads_to(final(self)@),
    {
        if !authorized || !holds(&self.admin, &admin) {
            return Err(Error::Unauthorized);
        }
        self.review_consensus = Some(review_contract);
        Ok(())
    }

    /// Stores a new claim and returns its id, the number of claims so far
    /// plus one. The claim starts pending and unreviewed, with the submission
    /// fee in its pool and `now` as its time of creation.
    ///
    /// Refused if the submitter did not authorize the call, or if the ids
    /// are used up.
    pub fn submit_claim(
        &mut self,
        submitter: Address,
        authorized: bool,
        text: String,
        category: String,
        sources: Vec<String>,
        now: u64,
    ) -> (r: Result<u64, Error>)
        requires
            old(self).wf(),
        ensures
            final(self).wf(),
            !authorized ==> r == Err::<u64, Error>(Error::Unauthorized),
            authorized && old(self)@.claims.len() >= u64::MAX ==> r == Err::<u64, Error>(
                Error::Overflow,
            ),
            authorized && old(self)@.claims.len() < u64::MAX ==> r == Ok::<u64, Error>(
                (old(self)@.claims.len() + 1) as u64,
            ),
            r is Err ==> final(self)@ == old(self)@,
            r matches Ok(id) ==> final(self)@ == (ClaimRegistryView {
                claims: old(self)@.claims.push(
                    ClaimView::submitted(id, submitter@, text@, category@, texts(sources@), now),
                ),
                ..old(self)@
            }).with_event(EventView::ClaimSubmitted(id)),
            old(self)@.leads_to(final(self)@),
    {
        if !authorized {
            return Err(Error::Unauthorized);
        }
        let count: u64 = self.get_claim_count();
        if count == u64::MAX {
            return Err(Error::Overflow);
        }
        let id: u64 = count + 1;
        let claim = Claim {
            id,
            submitter,
            text,
            category,
            sources,
            status: ClaimStatus::Pending,
            stake_pool: CLAIM_FEE,
            timestamp: now,
            review_count: 0,
        };
        self.claims.push(claim);
        self.outbox.emit(Event::ClaimSubmitted(id));
        assert(self@.claims =~= old(self)@.claims.push(claim@));
        Ok(id)
    }

    /// The claim with the given id.
    pub fn get_claim(&self, claim_id: u64) -> (r: Option<&Claim>)
        requires
            self.wf(),
        ensures
            r is Some <==> self@.claim(claim_id) is Some,
            r matches Some(c) ==> Some(c@) == self@.claim(claim_id),
    {
        match self.position(claim_id) {
            Some(i) => Some(&self.claims[i]),
            None => None,
        }
    }

    /// The number of claims, which is also the id of the newest.
    pub fn get_claim_count(&self) -> (n: u64)
        requires
            self.wf(),
        ensures
            n == self@.claims.len(),
    {
        self.claims.len() as u64
    }

    /// Sets the status of a claim, where the lifecycle allows the step from
    /// the status in place: to the same status, from pending to under
    /// review, from under review to a settled status. Reserved for the
    /// registered review component.
    ///
    /// Refused, in this order: if the call is not authorized or the caller
    /// is not the registered review component; if the claim does not exist;
    /// if the lifecycle does not allow the step, so that a settled claim
    /// keeps its status and no status falls back.
    pub fn update_claim_status(
        &mut self,
        caller: Address,
        authorized: bool,
        claim_id: u64,
        new_status: ClaimStatus,
    ) -> (r: Result<(), Error>)
        requires
            old(self).wf(),
        ensures
            final(self).wf(),
            r == old(self)@.status_update(caller@, authorized, claim_id, new_status),
            r is Err ==> final(self)@ == old(self)@,
            r is Ok ==> final(self)@ == old(self)@.with_claim(
                claim_id,
                old(self)@.claims[claim_id - 1].with_status(new_status),
            ).with_event(EventView::StatusUpdated(claim_id)),
            old(self)@.leads_to(final(self)@),
    {
        if !authorized || !holds(&self.review_consensus, &caller) {
            return Err(Error::Unauthorized);
        }
        let i: usize = match self.position(claim_id) {
            Some(i) => i,
            None => {
                return Err(Error::ClaimNotFound);
            },
        };
        if !self.claims[i].status.can_become(new_status) {
            return Err(Error::InvalidTransition);
        }
        self.claims[i].status = new_status;
        self.outbox.emit(Event::StatusUpdated(claim_id));
        assert(self@.claims =~= old(self)@.claims.update(
            claim_id - 1,
            old(self)@.claims[claim_id - 1].with_status(new_status),
        ));
        Ok(())
    }

    /// Counts one more review of a claim; the first review of a pending claim
    /// brings it under review. Reserved for the registered review component.
    ///
    /// Refused, after the checks of the caller and the claim, if the count is
    /// at the top of its range.
    pub fn increment_review_count(&mut self, caller: Address, authorized: bool, claim_id: u64) -> (r:
        Result<(), Error>)
        requires
            old(self).wf(),
        ensures
            final(self).wf(),
            old(self)@.partner_call(caller@, authorized, claim_id) is Err ==> r == old(
                self,
            )@.partner_call(caller@, authorized, claim_id),
            old(self)@.partner_call(caller@, authorized, claim_id) is Ok ==> (if old(
                self,
            )@.claims[claim_id - 1].review_count == u32::MAX {
                r == Err::<(), Error>(Error::Overflow)
            } else {
                r is Ok
            }),
            r is Err ==> final(self)@ == old(self)@,
            r is Ok ==> final(self)@ == old(self)@.with_claim(
                claim_id,
                old(self)@.claims[claim_id - 1].reviewed(),
            ),
            old(self)@.leads_to(final(self)@),
    {
        if !authorized || !holds(&self.review_consensus, &caller) {
            return Err(Error::Unauthorized);
        }
        let i: usize = match self.position(claim_id) {
            Some(i) => i,
            None => {
                return Err(Error::ClaimNotFound);
            },
        };
        if self.claims[i].review_count == u32::MAX {
            return Err(Error::Overflow);
        }
        let count: u32 = self.claims[i].review_count + 1;
        self.claims[i].review_count = count;
        if self.claims[i].status == ClaimStatus::Pending {
            self.claims[i].status = ClaimStatus::UnderReview;
        }
        assert(self@.claims =~= old(self)@.claims.update(
            claim_id - 1,
            old(self)@.claims[claim_id - 1].reviewed(),
        ));
        Ok(())
    }

    /// Adds `amount` to the pool of a claim. Any caller that authorized the
    /// call may do so.
    ///
    /// Refused, in this order: without authorization; if the claim does not
    /// exist; if `amount` is negative; if the pool would leave its range.
    pub fn add_to_stake_pool(
        &mut self,
        caller: Address,
        authorized: bool,
        claim_id: u64,
        amount: i128,
    ) -> (r: Result<(), Error>)
        requires
            old(self).wf(),
        ensures
            final(self).wf(),
            r == (if !authorized {
                Err::<(), Error>(Error::Unauthorized)
            } else if old(self)@.claim(claim_id) is None {
                Err(Error::ClaimNotFound)
            } else if amount < 0 {
                Err(Error::NegativeAmount)
            } else if old(self)@.claims[claim_id - 1].stake_pool + amount > i128::MAX {
                Err(Error::Overflow)
            } else {
                Ok(())
            }),
            r is Err ==> final(self)@ == old(self)@,
            r is Ok ==> final(self)@ == old(self)@.with_claim(
                claim_id,
                old(self)@.claims[claim_id - 1].funded(amount),
            ),
            old(self)@.leads_to(final(self)@),
    {
        if !authorized {
            return Err(Error::Unauthorized);
        }
        let i: usize = match self.position(claim_id) {
            Some(i) => i,
            None => {
                return Err(Error::ClaimNotFound);
            },
        };
        if amount < 0 {
            return Err(Error::NegativeAmount);
        }
        match self.claims[i].stake_pool.checked_add(amount) {
            None => Err(Error::Overflow),
            Some(pool) => {
                self.claims[i].stake_pool = pool;
                assert(self@.claims =~= old(self)@.claims.update(
                    claim_id - 1,
                    old(self)@.claims[claim_id - 1].funded(amount),
                ));
                Ok(())
            },
        }
    }

    /// A page of claims in the order of their ids: at most `limit` claims,
    /// starting after the first `start`. The page ends with the last claim
    /// where `start + limit` reaches beyond it.
    pub fn get_all_claims(&self, start: u64, limit: u64) -> (page: Vec<Claim>)
        requires
            self.wf(),
        ensures
            claim_views(page@) == self@.page(start, limit),
    {
        let total: usize = self.claims.len();
        assert(self@.claims.len() == total);
        let count: u64 = total as u64;
        let end: u64 = match start.checked_add(limit) {
            Some(e) => if e > count {
                count
            } else {
                e
            },
            None => count,
        };
        let mut page: Vec<Claim> = Vec::new();
        if start >= end {
            assert(claim_views(page@) =~= self@.page(start, limit));
            return page;
        }
        let first: usize = start as usize;
        let last: usize = end as usize;
        let mut i: usize = first;
        while i < last
            invariant
                first <= i <= last <= self.claims@.len(),
                page@.len() == i - first,
                forall|j: int| 0 <= j < page@.len() ==> page@[j]@ == self.claims@[first + j]@,
            decreases last - i,
        {
            page.push(self.claims[i].clone());
            i += 1;
        }
        assert(claim_views(page@) =~= self@.page(start, limit));
        page
    }

    /// The administrator, once the store is initialized.
    pub fn admin(&self) -> (r: Option<&Address>)
        ensures
            r is Some <==> self@.admin is Some,
            r matches Some(a) ==> self@.admin == Some(a@),
    {
        self.admin.as_ref()
    }

    /// The registered expert component, if any.
    pub fn expert_registry(&self) -> (r: Option<&Address>)
        ensures
            r is Some <==> self@.expert_registry is Some,
            r matches Some(a) ==> self@.expert_registry == Some(a@),
    {
        self.expert_registry.as_ref()
    }

    /// The registered review component, if any.
    pub fn review_consensus(&self) -> (r: Option<&Address>)
        ensures
            r is Some <==> self@.review_consensus is Some,
            r matches Some(a) ==> self@.review_consensus == Some(a@),
    {
        self.review_consensus.as_ref()
    }

    /// All claims, in the order of their ids.
    pub fn claims(&self) -> (claims: &Vec<Claim>)
        ensures
            claim_views(claims@) == self@.claims,
    {
        &self.claims
    }

    /// The store that holds the given bindings and claims, with an empty
    /// outbox: the way back from what was saved of a store. Nothing where
    /// the claims are not those of a well-formed store.
    pub fn restore(
        admin: Option<Address>,
        expert_registry: Option<Address>,
        review_consensus: Option<Address>,
        claims: Vec<Claim>,
    ) -> (r: Option<ClaimRegistry>)
        ensures
            r is Some <==> (ClaimRegistryView {
                admin: optional_view(admin),
                expert_registry: optional_view(expert_registry),
                review_consensus: optional_view(review_consensus),
                claims: claim_views(claims@),
                events: Seq::empty(),
            }).inv(),
            r matches Some(registry) ==> registry.wf() && registry@ == (ClaimRegistryView {
                admin: optional_view(admin),
                expert_registry: optional_view(expert_registry),
                review_consensus: optional_view(review_consensus),
                claims: claim_views(claims@),
                events: Seq::empty(),
            }),
    {
        let ghost views = claim_views(claims@);
        let mut i: usize = 0;
        while i < claims.len()
            invariant
                views == claim_views(claims@),
                i <= claims.len(),
                forall|j: int|
                    0 <= j < i ==> (#[trigger] views[j]).id == j + 1 && views[j].stake_pool >= 0,
            decreases claims.len() - i,
        {
            assert(views[i as int] == claims@[i as int]@);
            if claims[i].id != i as u64 + 1 || claims[i].stake_pool < 0 {
                return None;
            }
            i += 1;
        }
        Some(
            ClaimRegistry {
                admin,
                expert_registry,
                review_consensus,
                claims,
                outbox: Outbox::new(),
            },
        )
    }

    /// Hands out the events emitted since the last call, oldest first.
    pub fn take_events(&mut self) -> (events: Vec<Event>)
        requires
            old(self).wf(),
        ensures
            final(self).wf(),
            crate::event::event_views(events@) == old(self)@.events,
            final(self)@ == (ClaimRegistryView { events: Seq::empty(), ..old(self)@ }),
            old(self)@.leads_to(final(self)@),
    {
        self.outbox.take()
    }
}

} // verus!
