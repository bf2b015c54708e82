use factcheck::address::Address;
use factcheck::claim_registry::{Claim, ClaimRegistry, ClaimStatus, CLAIM_FEE};
use factcheck::error::Error;
use factcheck::event::Event;

fn addr(s: &str) -> Address {
    Address::new(s.to_string())
}

fn text(s: &str) -> String {
    s.to_string()
}

/// A store with an administrator, a registered review component and `n` claims.
fn store_with_claims(n: u64) -> ClaimRegistry {
    let mut registry = ClaimRegistry::new();
    registry.initialize(addr("GADMIN")).unwrap();
    registry
        .set_review_consensus(addr("GADMIN"), true, addr("CREVIEW"))
        .unwrap();
    for i in 0..n {
        let id = registry
            .submit_claim(
                addr("GSUBMITTER"),
                true,
                format!("claim {}", i + 1),
                text("Science"),
                vec![],
                100 + i,
            )
            .unwrap();
        assert_eq!(id, i + 1);
    }
    registry.take_events();
    registry
}

#[test]
fn test_submit_claim() {
    let mut registry = ClaimRegistry::new();
    let admin = addr("GADMIN");
    let submitter = addr("GSUBMITTER");

    registry.initialize(admin).unwrap();

    let text = "The Earth is round".to_string();
    let category = "Science".to_string();
    let mut sources = Vec::new();
    sources.push("https://nasa.gov".to_string());

    let claim_id = registry
        .submit_claim(submitter, true, text, category, sources, 1_700_000_000)
        .unwrap();

    assert_eq!(claim_id, 1);
    assert_eq!(registry.get_claim_count(), 1);

    let claim = registry.get_claim(claim_id).unwrap();
    assert_eq!(claim.id, 1);
    assert_eq!(claim.status, ClaimStatus::Pending);
    assert_eq!(claim.review_count, 0);
}

#[test]
fn submitted_claim_holds_what_was_given() {
    let mut registry = ClaimRegistry::new();
    let id = registry
        .submit_claim(
            addr("GSUBMITTER"),
            true,
            text("The Earth is round"),
            text("Science"),
            vec![text("https://nasa.gov"), text("https://esa.int")],
            1_700_000_000,
        )
        .unwrap();
    let claim = registry.get_claim(id).unwrap();
    assert_eq!(claim.submitter, addr("GSUBMITTER"));
    assert_eq!(claim.text, "The Earth is round");
    assert_eq!(claim.category, "Science");
    assert_eq!(claim.sources, vec![text("https://nasa.gov"), text("https://esa.int")]);
    assert_eq!(claim.stake_pool, 5_000_000);
    assert_eq!(claim.stake_pool, CLAIM_FEE);
    assert_eq!(claim.timestamp, 1_700_000_000);
    assert_eq!(registry.take_events(), vec![Event::ClaimSubmitted(1)]);
    assert_eq!(registry.take_events(), vec![]);
}

#[test]
fn claims_work_without_an_administrator() {
    let mut registry = ClaimRegistry::new();
    assert_eq!(registry.get_claim_count(), 0);
    assert!(registry.admin().is_none());
    let id = registry
        .submit_claim(addr("GSUBMITTER"), true, text("t"), text("c"), vec![], 1)
        .unwrap();
    assert_eq!(id, 1);
}

#[test]
fn submit_claim_needs_authorization() {
    let mut registry = ClaimRegistry::new();
    let r = registry.submit_claim(addr("GS"), false, text("t"), text("c"), vec![], 0);
    assert_eq!(r, Err(Error::Unauthorized));
    assert_eq!(registry.get_claim_count(), 0);
    assert!(registry.get_claim(1).is_none());
    assert_eq!(registry.take_events(), vec![]);
}

#[test]
fn ids_are_sequential_from_one() {
    let registry = store_with_claims(4);
    assert_eq!(registry.get_claim_count(), 4);
    assert!(registry.get_claim(0).is_none());
    for id in 1..=4u64 {
        assert_eq!(registry.get_claim(id).unwrap().id, id);
        assert_eq!(registry.get_claim(id).unwrap().timestamp, 99 + id);
    }
    assert!(registry.get_claim(5).is_none());
    assert!(registry.get_claim(u64::MAX).is_none());
}

#[test]
fn initialize_only_once() {
    let mut registry = ClaimRegistry::new();
    assert_eq!(registry.initialize(addr("GADMIN")), Ok(()));
    assert_eq!(registry.initialize(addr("GOTHER")), Err(Error::AlreadyInitialized));
    assert_eq!(registry.initialize(addr("GADMIN")), Err(Error::AlreadyInitialized));
    assert_eq!(registry.admin(), Some(&addr("GADMIN")));
}

#[test]
fn bindings_are_for_the_administrator() {
    let mut registry = ClaimRegistry::new();
    // Nobody is the administrator of a store that has none.
    assert_eq!(
        registry.set_review_consensus(addr("GADMIN"), true, addr("CREVIEW")),
        Err(Error::Unauthorized)
    );
    registry.initialize(addr("GADMIN")).unwrap();
    assert_eq!(
        registry.set_review_consensus(addr("GOTHER"), true, addr("CREVIEW")),
        Err(Error::Unauthorized)
    );
    assert_eq!(
        registry.set_review_consensus(addr("GADMIN"), false, addr("CREVIEW")),
        Err(Error::Unauthorized)
    );
    assert_eq!(
        registry.set_expert_registry(addr("GOTHER"), true, addr("CEXPERT")),
        Err(Error::Unauthorized)
    );
    assert!(registry.review_consensus().is_none());
    assert!(registry.expert_registry().is_none());

    assert_eq!(registry.set_review_consensus(addr("GADMIN"), true, addr("CREVIEW")), Ok(()));
    assert_eq!(registry.set_expert_registry(addr("GADMIN"), true, addr("CEXPERT")), Ok(()));
    assert_eq!(registry.review_consensus(), Some(&addr("CREVIEW")));
    assert_eq!(registry.expert_registry(), Some(&addr("CEXPERT")));

    // A binding can be replaced.
    assert_eq!(registry.set_review_consensus(addr("GADMIN"), true, addr("CREVIEW2")), Ok(()));
    assert_eq!(registry.review_consensus(), Some(&addr("CREVIEW2")));
}

#[test]
fn status_is_set_by_the_review_component_only() {
    let mut registry = store_with_claims(2);
    assert_eq!(
        registry.update_claim_status(addr("GOTHER"), true, 1, ClaimStatus::True),
        Err(Error::Unauthorized)
    );
    assert_eq!(
        registry.update_claim_status(addr("CREVIEW"), false, 1, ClaimStatus::True),
        Err(Error::Unauthorized)
    );
    assert_eq!(
        registry.update_claim_status(addr("CREVIEW"), true, 3, ClaimStatus::True),
        Err(Error::ClaimNotFound)
    );
    assert_eq!(
        registry.update_claim_status(addr("CREVIEW"), true, 0, ClaimStatus::True),
        Err(Error::ClaimNotFound)
    );
    // The caller is looked at before the claim.
    assert_eq!(
        registry.update_claim_status(addr("GOTHER"), true, 3, ClaimStatus::True),
        Err(Error::Unauthorized)
    );
    assert_eq!(registry.get_claim(1).unwrap().status, ClaimStatus::Pending);
    assert_eq!(registry.take_events(), vec![]);

    assert_eq!(
        registry.update_claim_status(addr("CREVIEW"), true, 2, ClaimStatus::UnderReview),
        Ok(())
    );
    assert_eq!(
        registry.update_claim_status(addr("CREVIEW"), true, 2, ClaimStatus::False),
        Ok(())
    );
    assert_eq!(registry.get_claim(2).unwrap().status, ClaimStatus::False);
    assert_eq!(registry.get_claim(1).unwrap().status, ClaimStatus::Pending);
    assert_eq!(
        registry.take_events(),
        vec![Event::StatusUpdated(2), Event::StatusUpdated(2)]
    );
}

#[test]
fn a_settled_claim_keeps_its_status() {
    for settled in [ClaimStatus::True, ClaimStatus::False] {
        let mut registry = store_with_claims(1);
        registry.increment_review_count(addr("CREVIEW"), true, 1).unwrap();
        assert_eq!(registry.update_claim_status(addr("CREVIEW"), true, 1, settled), Ok(()));
        registry.take_events();
        for next in [
            ClaimStatus::Pending,
            ClaimStatus::UnderReview,
            ClaimStatus::True,
            ClaimStatus::False,
        ] {
            let answer = registry.update_claim_status(addr("CREVIEW"), true, 1, next);
            if next == settled {
                assert_eq!(answer, Ok(()));
                assert_eq!(registry.take_events(), vec![Event::StatusUpdated(1)]);
            } else {
                assert_eq!(answer, Err(Error::InvalidTransition));
                assert_eq!(registry.take_events(), vec![]);
            }
            assert_eq!(registry.get_claim(1).unwrap().status, settled);
            assert_eq!(registry.get_claim(1).unwrap().review_count, 1);
        }
    }
}

#[test]
fn a_status_set_to_true_is_not_taken_back_under_review() {
    let mut registry = ClaimRegistry::new();
    registry.initialize(addr("GADMIN")).unwrap();
    registry
        .set_review_consensus(addr("GADMIN"), true, addr("CREVIEW"))
        .unwrap();
    let id = registry
        .submit_claim(addr("GS"), true, text("t"), text("c"), vec![], 0)
        .unwrap();
    assert_eq!(id, 1);
    registry.increment_review_count(addr("CREVIEW"), true, 1).unwrap();
    registry
        .update_claim_status(addr("CREVIEW"), true, 1, ClaimStatus::True)
        .unwrap();
    assert_eq!(
        registry.update_claim_status(addr("CREVIEW"), true, 1, ClaimStatus::UnderReview),
        Err(Error::InvalidTransition)
    );
    assert_eq!(registry.get_claim(1).unwrap().status, ClaimStatus::True);
}

#[test]
fn a_claim_is_not_settled_before_it_is_under_review() {
    let mut registry = store_with_claims(1);
    assert_eq!(
        registry.update_claim_status(addr("CREVIEW"), true, 1, ClaimStatus::True),
        Err(Error::InvalidTransition)
    );
    assert_eq!(
        registry.update_claim_status(addr("CREVIEW"), true, 1, ClaimStatus::False),
        Err(Error::InvalidTransition)
    );
    assert_eq!(registry.get_claim(1).unwrap().status, ClaimStatus::Pending);
    assert_eq!(registry.take_events(), vec![]);
    // Setting the status in place again is no step.
    assert_eq!(
        registry.update_claim_status(addr("CREVIEW"), true, 1, ClaimStatus::Pending),
        Ok(())
    );
    assert_eq!(
        registry.update_claim_status(addr("CREVIEW"), true, 1, ClaimStatus::UnderReview),
        Ok(())
    );
    assert_eq!(
        registry.update_claim_status(addr("CREVIEW"), true, 1, ClaimStatus::Pending),
        Err(Error::InvalidTransition)
    );
    assert_eq!(registry.get_claim(1).unwrap().status, ClaimStatus::UnderReview);
}

#[test]
fn the_caller_and_the_claim_are_looked_at_before_the_step() {
    let mut registry = store_with_claims(1);
    assert_eq!(
        registry.update_claim_status(addr("GOTHER"), true, 1, ClaimStatus::True),
        Err(Error::Unauthorized)
    );
    assert_eq!(
        registry.update_claim_status(addr("CREVIEW"), true, 2, ClaimStatus::True),
        Err(Error::ClaimNotFound)
    );
}

#[test]
fn the_steps_of_the_lifecycle() {
    let all = [
        ClaimStatus::Pending,
        ClaimStatus::UnderReview,
        ClaimStatus::True,
        ClaimStatus::False,
    ];
    let allowed = [
        (ClaimStatus::Pending, ClaimStatus::Pending),
        (ClaimStatus::Pending, ClaimStatus::UnderReview),
        (ClaimStatus::UnderReview, ClaimStatus::UnderReview),
        (ClaimStatus::UnderReview, ClaimStatus::True),
        (ClaimStatus::UnderReview, ClaimStatus::False),
        (ClaimStatus::True, ClaimStatus::True),
        (ClaimStatus::False, ClaimStatus::False),
    ];
    for from in all {
        for to in all {
            assert_eq!(from.can_become(to), allowed.contains(&(from, to)));
        }
    }
}

#[test]
fn status_needs_a_registered_review_component() {
    let mut registry = ClaimRegistry::new();
    registry.initialize(addr("GADMIN")).unwrap();
    registry
        .submit_claim(addr("GS"), true, text("t"), text("c"), vec![], 0)
        .unwrap();
    assert_eq!(
        registry.update_claim_status(addr("CREVIEW"), true, 1, ClaimStatus::True),
        Err(Error::Unauthorized)
    );
    assert_eq!(
        registry.increment_review_count(addr("CREVIEW"), true, 1),
        Err(Error::Unauthorized)
    );
}

#[test]
fn first_review_brings_a_claim_under_review() {
    let mut registry = store_with_claims(1);
    assert_eq!(registry.increment_review_count(addr("CREVIEW"), true, 1), Ok(()));
    let claim = registry.get_claim(1).unwrap();
    assert_eq!(claim.review_count, 1);
    assert_eq!(claim.status, ClaimStatus::UnderReview);

    assert_eq!(registry.increment_review_count(addr("CREVIEW"), true, 1), Ok(()));
    let claim = registry.get_claim(1).unwrap();
    assert_eq!(claim.review_count, 2);
    assert_eq!(claim.status, ClaimStatus::UnderReview);
    // Counting a review emits nothing.
    assert_eq!(registry.take_events(), vec![]);
}

#[test]
fn counting_reviews_keeps_a_settled_status() {
    let mut registry = store_with_claims(1);
    registry.increment_review_count(addr("CREVIEW"), true, 1).unwrap();
    registry
        .update_claim_status(addr("CREVIEW"), true, 1, ClaimStatus::True)
        .unwrap();
    registry.increment_review_count(addr("CREVIEW"), true, 1).unwrap();
    let claim = registry.get_claim(1).unwrap();
    assert_eq!(claim.status, ClaimStatus::True);
    assert_eq!(claim.review_count, 2);
}

#[test]
fn counting_reviews_is_for_the_review_component() {
    let mut registry = store_with_claims(1);
    assert_eq!(
        registry.increment_review_count(addr("GOTHER"), true, 1),
        Err(Error::Unauthorized)
    );
    assert_eq!(
        registry.increment_review_count(addr("CREVIEW"), false, 1),
        Err(Error::Unauthorized)
    );
    assert_eq!(
        registry.increment_review_count(addr("CREVIEW"), true, 2),
        Err(Error::ClaimNotFound)
    );
    assert_eq!(registry.get_claim(1).unwrap().review_count, 0);
    assert_eq!(registry.get_claim(1).unwrap().status, ClaimStatus::Pending);
}

#[test]
fn review_count_stops_at_the_top_of_its_range() {
    let claim = Claim {
        id: 1,
        submitter: addr("GS"),
        text: text("t"),
        category: text("c"),
        sources: vec![],
        status: ClaimStatus::UnderReview,
        stake_pool: CLAIM_FEE,
        timestamp: 0,
        review_count: u32::MAX,
    };
    let mut registry =
        ClaimRegistry::restore(Some(addr("GADMIN")), None, Some(addr("CREVIEW")), vec![claim])
            .unwrap();
    assert_eq!(
        registry.increment_review_count(addr("CREVIEW"), true, 1),
        Err(Error::Overflow)
    );
    assert_eq!(registry.get_claim(1).unwrap().review_count, u32::MAX);
}

#[test]
fn anyone_authorized_may_add_to_the_pool() {
    let mut registry = store_with_claims(2);
    assert_eq!(registry.add_to_stake_pool(addr("GANYONE"), true, 2, 1_000), Ok(()));
    assert_eq!(registry.get_claim(2).unwrap().stake_pool, 5_001_000);
    assert_eq!(registry.add_to_stake_pool(addr("GOTHER"), true, 2, 0), Ok(()));
    assert_eq!(registry.get_claim(2).unwrap().stake_pool, 5_001_000);
    assert_eq!(registry.get_claim(1).unwrap().stake_pool, 5_000_000);
    assert_eq!(registry.take_events(), vec![]);
}

#[test]
fn pool_additions_are_refused_in_order() {
    let mut registry = store_with_claims(1);
    assert_eq!(
        registry.add_to_stake_pool(addr("GANYONE"), false, 9, -1),
        Err(Error::Unauthorized)
    );
    assert_eq!(
        registry.add_to_stake_pool(addr("GANYONE"), true, 9, -1),
        Err(Error::ClaimNotFound)
    );
    assert_eq!(
        registry.add_to_stake_pool(addr("GANYONE"), true, 1, -1),
        Err(Error::NegativeAmount)
    );
    assert_eq!(
        registry.add_to_stake_pool(addr("GANYONE"), true, 1, i128::MAX),
        Err(Error::Overflow)
    );
    assert_eq!(registry.get_claim(1).unwrap().stake_pool, 5_000_000);
    // The largest amount that still fits.
    assert_eq!(
        registry.add_to_stake_pool(addr("GANYONE"), true, 1, i128::MAX - 5_000_000),
        Ok(())
    );
    assert_eq!(registry.get_claim(1).unwrap().stake_pool, i128::MAX);
}

#[test]
fn pages_are_clamped_to_the_claims_there_are() {
    let registry = store_with_claims(5);
    let ids = |page: Vec<Claim>| page.iter().map(|c| c.id).collect::<Vec<u64>>();

    assert_eq!(ids(registry.get_all_claims(0, 5)), vec![1, 2, 3, 4, 5]);
    assert_eq!(ids(registry.get_all_claims(0, 2)), vec![1, 2]);
    assert_eq!(ids(registry.get_all_claims(2, 2)), vec![3, 4]);
    assert_eq!(ids(registry.get_all_claims(3, 10)), vec![4, 5]);
    assert_eq!(ids(registry.get_all_claims(4, 1)), vec![5]);
    assert_eq!(ids(registry.get_all_claims(0, 100)), vec![1, 2, 3, 4, 5]);
    assert_eq!(ids(registry.get_all_claims(5, 1)), Vec::<u64>::new());
    assert_eq!(ids(registry.get_all_claims(6, 3)), Vec::<u64>::new());
    assert_eq!(ids(registry.get_all_claims(2, 0)), Vec::<u64>::new());
    assert_eq!(ids(registry.get_all_claims(1, u64::MAX)), vec![2, 3, 4, 5]);
    assert_eq!(ids(registry.get_all_claims(u64::MAX, u64::MAX)), Vec::<u64>::new());
}

#[test]
fn pages_of_an_empty_store_are_empty() {
    let registry = ClaimRegistry::new();
    assert!(registry.get_all_claims(0, 10).is_empty());
    assert!(registry.get_all_claims(0, 0).is_empty());
}

#[test]
fn a_page_holds_copies_of_the_claims() {
    let registry = store_with_claims(3);
    let page = registry.get_all_claims(1, 1);
    assert_eq!(page.len(), 1);
    assert_eq!(&page[0], registry.get_claim(2).unwrap());
    assert_eq!(page[0].text, "claim 2");
}

#[test]
fn status_does_not_fall_back_through_reviews_and_funding() {
    let mut registry = store_with_claims(1);
    let stage = |s: ClaimStatus| match s {
        ClaimStatus::Pending => 0,
        ClaimStatus::UnderReview => 1,
        ClaimStatus::True | ClaimStatus::False => 2,
    };
    let mut last = stage(registry.get_claim(1).unwrap().status);
    registry.add_to_stake_pool(addr("GANYONE"), true, 1, 7).unwrap();
    assert!(stage(registry.get_claim(1).unwrap().status) >= last);
    last = stage(registry.get_claim(1).unwrap().status);
    registry.increment_review_count(addr("CREVIEW"), true, 1).unwrap();
    assert!(stage(registry.get_claim(1).unwrap().status) >= last);
    last = stage(registry.get_claim(1).unwrap().status);
    registry
        .update_claim_status(addr("CREVIEW"), true, 1, ClaimStatus::False)
        .unwrap();
    assert!(stage(registry.get_claim(1).unwrap().status) >= last);
    registry.increment_review_count(addr("CREVIEW"), true, 1).unwrap();
    registry.add_to_stake_pool(addr("GANYONE"), true, 1, 7).unwrap();
    assert_eq!(registry.get_claim(1).unwrap().status, ClaimStatus::False);
}

#[test]
fn a_store_comes_back_from_its_parts() {
    let mut registry = store_with_claims(3);
    registry.increment_review_count(addr("CREVIEW"), true, 2).unwrap();
    registry.add_to_stake_pool(addr("GANYONE"), true, 3, 11).unwrap();

    let restored = ClaimRegistry::restore(
        registry.admin().cloned(),
        registry.expert_registry().cloned(),
        registry.review_consensus().cloned(),
        registry.get_all_claims(0, registry.get_claim_count()),
    )
    .unwrap();

    assert_eq!(restored.get_claim_count(), 3);
    assert_eq!(restored.claims(), registry.claims());
    assert_eq!(restored.admin(), Some(&addr("GADMIN")));
    assert_eq!(restored.review_consensus(), Some(&addr("CREVIEW")));
    assert!(restored.expert_registry().is_none());
    assert_eq!(restored.get_claim(2).unwrap().status, ClaimStatus::UnderReview);
    assert_eq!(restored.get_claim(3).unwrap().stake_pool, 5_000_011);
}

#[test]
fn a_store_does_not_come_back_from_broken_parts() {
    let claim = |id: u64, pool: i128| Claim {
        id,
        submitter: addr("GS"),
        text: text("t"),
        category: text("c"),
        sources: vec![],
        status: ClaimStatus::Pending,
        stake_pool: pool,
        timestamp: 0,
        review_count: 0,
    };
    assert!(ClaimRegistry::restore(None, None, None, vec![]).is_some());
    assert!(ClaimRegistry::restore(None, None, None, vec![claim(1, 0), claim(2, 5)]).is_some());
    // Ids that do not count from one.
    assert!(ClaimRegistry::restore(None, None, None, vec![claim(2, 0)]).is_none());
    assert!(ClaimRegistry::restore(None, None, None, vec![claim(0, 0)]).is_none());
    assert!(ClaimRegistry::restore(None, None, None, vec![claim(1, 0), claim(1, 0)]).is_none());
    assert!(ClaimRegistry::restore(None, None, None, vec![claim(1, 0), claim(3, 0)]).is_none());
    // A negative pool.
    assert!(ClaimRegistry::restore(None, None, None, vec![claim(1, -1)]).is_none());
}
