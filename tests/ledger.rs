use copyright::consensus::{evaluate_consensus, quorum_of, resolve_round, VOTE_FEE};
use copyright::contract::Contract;
use copyright::id::generate_id;
use copyright::learning::Roles;
use copyright::model::{AverageRating, GovernanceError, Vote, Work};
use copyright::rating::apply_rating;
use copyright::ratios::{equal_split, ratios_sum_to_hundred, share_amount, split_payment};
use copyright::visibility::{apply_tier, project, Tier, HIDDEN_CONTENT};

fn s(x: &str) -> String {
    x.to_string()
}

fn ledger_with_author(author: &str) -> Contract {
    let mut c = Contract::new(s("owner.near"));
    c.create_author(&s(author), s("Alice"), 30);
    c
}

fn work_with(author: &str, collaborators: &[&str]) -> (Contract, String) {
    let mut c = ledger_with_author(author);
    let collabs: Vec<String> = collaborators.iter().map(|x| s(x)).collect();
    let w = c
        .create_work(&s(author), 1000, s("Great Song"), s("la la"), Some(collabs), Some(5), None)
        .unwrap();
    (c, w.id)
}

fn ballot(voter: &str, decision: bool) -> Vote {
    Vote { voter: s(voter), decision, timestamp: 1 }
}

#[test]
fn generate_id_takes_initials_and_timestamp() {
    assert_eq!(generate_id(s("my first work"), 1700), "MFW1700");
    assert_eq!(generate_id(s("  spaced   out\ttitle "), 0), "SOT0");
    assert_eq!(generate_id(s(""), 42), "42");
    assert_eq!(generate_id(s("élan vital"), 7), "éV7");
    assert_eq!(generate_id(s("a\u{3000}b"), 18446744073709551615), "AB18446744073709551615");
}

#[test]
fn create_work_builds_fresh_record() {
    let mut c = ledger_with_author("alice.near");
    let w = c
        .create_work(&s("alice.near"), 1234, s("Blue Sky"), s("body"), None, None, None)
        .unwrap();
    assert_eq!(w.id, "BS1234");
    assert_eq!(w.fee, 0);
    assert!(w.collaborators.is_empty());
    assert_eq!(w.author.id, "alice.near");
    assert_eq!(w.published_date, 1234);
    assert!(w.votes.is_none());
    let got = c.get_work_by_id(&s("alice.near"), &s("BS1234")).unwrap();
    assert_eq!(got, w);
}

#[test]
fn create_work_needs_registered_author() {
    let mut c = Contract::new(s("owner.near"));
    let r = c.create_work(&s("bob.near"), 1, s("X"), s("y"), None, None, None);
    assert_eq!(r, Err(GovernanceError::NotFound));
}

#[test]
fn ratios_must_sum_to_hundred() {
    assert!(ratios_sum_to_hundred(&vec![(s("a"), 60), (s("b"), 40)]));
    assert!(!ratios_sum_to_hundred(&vec![(s("a"), 60), (s("b"), 39)]));
    assert!(!ratios_sum_to_hundred(&vec![]));
    assert!(!ratios_sum_to_hundred(&vec![(s("a"), u32::MAX), (s("b"), 101)]));
    let mut c = ledger_with_author("alice.near");
    let bad = Some(vec![(s("alice.near"), 50), (s("bob.near"), 40)]);
    let r = c.create_work(&s("alice.near"), 1, s("X"), s("y"), None, None, bad.clone());
    assert_eq!(r, Err(GovernanceError::ValidationFailed));
    assert!(c.get_all_works(&s("alice.near")).is_empty());
    let w = c.create_work(&s("alice.near"), 1, s("X"), s("y"), None, None, None).unwrap();
    let r = c.update_work(&s("alice.near"), 2, &w.id, None, None, None, None, bad.clone());
    assert_eq!(r, Err(GovernanceError::ValidationFailed));
    assert_eq!(c.distribute_funds(100, &w.id, bad), Err(GovernanceError::ValidationFailed));
}

#[test]
fn update_work_changes_given_fields() {
    let mut c = ledger_with_author("alice.near");
    let w = c.create_work(&s("alice.near"), 1, s("X"), s("y"), None, None, None).unwrap();
    let avg = AverageRating { total: 9, count: 2 };
    let n = c
        .update_work(&s("alice.near"), 5, &w.id, None, Some(s("new")), Some(7), Some(avg), Some(vec![(s("alice.near"), 100)]))
        .unwrap();
    assert_eq!(n.content, "new");
    assert_eq!(n.name, "X");
    assert_eq!(n.fee, 7);
    assert_eq!(n.average_rating, Some(avg));
    assert_eq!(n.updated_date, 5);
    assert_eq!(n.published_date, 1);
    assert_eq!(c.update_work(&s("bob.near"), 5, &w.id, None, None, None, None, None), Err(GovernanceError::Unauthorized));
    assert_eq!(c.update_work(&s("alice.near"), 5, &s("nope"), None, None, None, None, None), Err(GovernanceError::NotFound));
}

#[test]
fn average_follows_rating_sequence() {
    let (mut c, id) = work_with("alice.near", &[]);
    c.create_author(&s("bob.near"), s("Bob"), 20);
    c.create_author(&s("carol.near"), s("Carol"), 25);
    c.rate_work(&s("bob.near"), &id, 4).unwrap();
    let w = c.get_work_by_id(&s("alice.near"), &id).unwrap();
    assert_eq!(w.average_rating, Some(AverageRating { total: 4, count: 1 }));
    c.rate_work(&s("carol.near"), &id, 5).unwrap();
    c.rate_work(&s("bob.near"), &id, 2).unwrap();
    let w = c.get_work_by_id(&s("alice.near"), &id).unwrap();
    assert_eq!(w.ratings, vec![(s("bob.near"), 2), (s("carol.near"), 5)]);
    assert_eq!(w.average_rating, Some(AverageRating { total: 7, count: 2 }));
    c.rate_work(&s("bob.near"), &id, 0).unwrap();
    c.rate_work(&s("carol.near"), &id, 0).unwrap();
    let w = c.get_work_by_id(&s("alice.near"), &id).unwrap();
    assert!(w.ratings.is_empty());
    assert_eq!(w.average_rating, None);
    let bob = c.get_author_by_id(&s("bob.near")).unwrap();
    assert_eq!(bob.rated_works, vec![(id.clone(), 4), (id.clone(), 2), (id.clone(), 0)]);
}

#[test]
fn zero_rating_without_prior_is_noop() {
    let (mut c, id) = work_with("alice.near", &[]);
    c.create_author(&s("bob.near"), s("Bob"), 20);
    c.rate_work(&s("alice.near"), &id, 3).unwrap();
    let before = c.get_work_by_id(&s("alice.near"), &id).unwrap();
    assert_eq!(c.rate_work(&s("bob.near"), &id, 0), Ok(()));
    let after = c.get_work_by_id(&s("alice.near"), &id).unwrap();
    assert_eq!(after.ratings, before.ratings);
    assert_eq!(after.average_rating, before.average_rating);
}

#[test]
fn rating_out_of_range_is_rejected() {
    let (mut c, id) = work_with("alice.near", &[]);
    assert_eq!(c.rate_work(&s("alice.near"), &id, 6), Err(GovernanceError::ValidationFailed));
    assert_eq!(c.rate_work(&s("alice.near"), &s("none"), 3), Err(GovernanceError::NotFound));
    assert_eq!(c.rate_work(&s("ghost.near"), &id, 3), Err(GovernanceError::NotFound));
    let w = c.get_work_by_id(&s("alice.near"), &id).unwrap();
    assert!(w.ratings.is_empty());
}

#[test]
fn apply_rating_replaces_and_removes() {
    let mut r = vec![(s("a"), 3), (s("b"), 4)];
    apply_rating(&mut r, &s("a"), 5);
    assert_eq!(r, vec![(s("a"), 5), (s("b"), 4)]);
    apply_rating(&mut r, &s("a"), 0);
    assert_eq!(r, vec![(s("b"), 4)]);
    apply_rating(&mut r, &s("c"), 1);
    assert_eq!(r, vec![(s("b"), 4), (s("c"), 1)]);
}

fn sample_work() -> Work {
    let (mut c, id) = work_with("alice.near", &["bob.near"]);
    c.create_author(&s("dave.near"), s("Dave"), 40);
    c.report_infringement(&s("dave.near"), 3, &id, s("copied")).unwrap();
    c.vote(&s("alice.near"), VOTE_FEE, 4, &id, true).unwrap();
    c.get_access(&s("carol.near"), 5, &id).unwrap();
    c.get_work_by_id(&s("alice.near"), &id).unwrap()
}

#[test]
fn projection_tiers() {
    let w = sample_work();
    assert_eq!(project(&w, &s("alice.near")), w);
    assert_eq!(project(&w, &s("bob.near")), w);
    let paid = project(&w, &s("carol.near"));
    assert_eq!(paid.content, "la la");
    assert!(paid.reported_infringements.is_none());
    assert!(paid.ratios.is_none());
    assert!(paid.votes.is_none());
    assert!(paid.authorized_users.is_empty());
    let public = project(&w, &s("eve.near"));
    assert_eq!(public.content, HIDDEN_CONTENT);
    assert!(public.reported_infringements.is_none());
    assert!(public.votes.is_none());
    assert!(public.authorized_users.is_empty());
    assert_eq!(public.ratings, w.ratings);
}

#[test]
fn projection_is_idempotent() {
    let w = sample_work();
    for tier in [Tier::Full, Tier::Authorized, Tier::Public] {
        let once = apply_tier(&w, tier);
        assert_eq!(apply_tier(&once, tier), once);
    }
    let public = project(&w, &s("eve.near"));
    assert_eq!(project(&public, &s("eve.near")), public);
    let full = project(&w, &s("bob.near"));
    assert_eq!(project(&full, &s("bob.near")), full);
}

#[test]
fn listings_use_the_same_projection() {
    let (mut c, id) = work_with("alice.near", &[]);
    c.vote(&s("alice.near"), VOTE_FEE, 2, &id, true).unwrap();
    let single = c.get_work_by_id(&s("eve.near"), &id).unwrap();
    let all = c.get_all_works(&s("eve.near"));
    let mine = c.get_all_works_of_author(&s("eve.near"), &s("alice.near"));
    assert_eq!(all, vec![single.clone()]);
    assert_eq!(mine, vec![single]);
    assert!(c.get_all_works_of_author(&s("eve.near"), &s("nobody.near")).is_empty());
    let own = c.get_all_works(&s("alice.near"));
    assert!(own[0].votes.is_some());
}

#[test]
fn single_collaborator_author_vote_approves_delete() {
    let (mut c, id) = work_with("alice.near", &["bob.near"]);
    assert_eq!(c.vote(&s("alice.near"), VOTE_FEE, 9, &id, true), Ok(()));
    assert_eq!(c.delete_work(&s("alice.near"), &id), Ok(()));
    assert!(c.get_work_by_id(&s("alice.near"), &id).is_none());
    assert_eq!(c.delete_work(&s("alice.near"), &id), Err(GovernanceError::NotFound));
}

#[test]
fn four_collaborators_need_three_votes() {
    assert_eq!(quorum_of(4), 3);
    assert_eq!(quorum_of(0), 0);
    assert_eq!(quorum_of(7), 5);
    assert_eq!(quorum_of(usize::MAX), usize::MAX / 4 * 3 + 2);
    let caller = s("alice.near");
    let approve = vec![ballot("alice.near", true), ballot("b", true), ballot("c", false)];
    assert_eq!(evaluate_consensus(&approve, 4, &caller), Ok(()));
    let reject = vec![ballot("alice.near", true), ballot("b", false), ballot("c", false)];
    assert_eq!(evaluate_consensus(&reject, 4, &caller), Err(GovernanceError::ConsensusRejected));
    let short = vec![ballot("alice.near", true), ballot("b", true)];
    assert_eq!(evaluate_consensus(&short, 4, &caller), Err(GovernanceError::QuorumNotMet));
    let absent = vec![ballot("b", true), ballot("c", true), ballot("d", true)];
    assert_eq!(evaluate_consensus(&absent, 4, &caller), Err(GovernanceError::QuorumNotMet));
    let tie = vec![ballot("alice.near", true), ballot("b", false)];
    assert_eq!(evaluate_consensus(&tie, 1, &caller), Err(GovernanceError::ConsensusRejected));
}

#[test]
fn four_collaborators_resolve_round() {
    let (c, id) = work_with("alice.near", &["b", "c", "d", "e"]);
    let mut w = c.get_work_by_id(&s("alice.near"), &id).unwrap();
    w.votes = Some(vec![ballot("alice.near", true), ballot("b", true), ballot("c", false)]);
    assert_eq!(resolve_round(&w, &s("alice.near")), Ok(()));
    w.votes = Some(vec![ballot("alice.near", true), ballot("b", false), ballot("c", false)]);
    assert_eq!(resolve_round(&w, &s("alice.near")), Err(GovernanceError::ConsensusRejected));
}

#[test]
fn four_collaborators_two_agree_one_disagree_deletes() {
    let (mut c, id) = work_with("alice.near", &["b", "c", "d", "e"]);
    c.vote(&s("alice.near"), VOTE_FEE, 2, &id, true).unwrap();
    c.vote(&s("b"), VOTE_FEE, 3, &id, true).unwrap();
    assert_eq!(c.delete_work(&s("alice.near"), &id), Err(GovernanceError::QuorumNotMet));
    let kept = c.get_work_by_id(&s("alice.near"), &id).unwrap();
    assert_eq!(kept.votes.map(|v| v.len()), Some(2));
    c.vote(&s("c"), VOTE_FEE, 4, &id, false).unwrap();
    assert_eq!(c.delete_work(&s("b"), &id), Err(GovernanceError::Unauthorized));
    assert_eq!(c.delete_work(&s("alice.near"), &id), Ok(()));
    assert!(c.get_work_by_id(&s("alice.near"), &id).is_none());
}

#[test]
fn four_collaborators_one_agree_two_disagree_rejects() {
    let (mut c, id) = work_with("alice.near", &["b", "c", "d", "e"]);
    c.vote(&s("alice.near"), VOTE_FEE, 2, &id, true).unwrap();
    c.vote(&s("b"), VOTE_FEE, 3, &id, false).unwrap();
    c.vote(&s("c"), VOTE_FEE, 4, &id, false).unwrap();
    assert_eq!(c.delete_work(&s("alice.near"), &id), Err(GovernanceError::ConsensusRejected));
    let w = c.get_work_by_id(&s("alice.near"), &id).unwrap();
    assert!(w.votes.is_none());
}

#[test]
fn rejected_round_restarts_empty() {
    let (mut c, id) = work_with("alice.near", &[]);
    c.vote(&s("alice.near"), VOTE_FEE, 2, &id, false).unwrap();
    assert_eq!(c.vote(&s("alice.near"), VOTE_FEE, 3, &id, true), Err(GovernanceError::AlreadyVoted));
    assert_eq!(c.delete_work(&s("alice.near"), &id), Err(GovernanceError::ConsensusRejected));
    let w = c.get_work_by_id(&s("alice.near"), &id).unwrap();
    assert!(w.votes.is_none());
    c.vote(&s("alice.near"), VOTE_FEE, 4, &id, true).unwrap();
    let w = c.get_work_by_id(&s("alice.near"), &id).unwrap();
    assert_eq!(w.votes, Some(vec![Vote { voter: s("alice.near"), decision: true, timestamp: 4 }]));
}

#[test]
fn delete_work_needs_open_round_and_author() {
    let (mut c, id) = work_with("alice.near", &["bob.near"]);
    assert_eq!(c.delete_work(&s("alice.near"), &id), Err(GovernanceError::QuorumNotMet));
    assert_eq!(c.delete_work(&s("bob.near"), &id), Err(GovernanceError::Unauthorized));
    assert_eq!(c.vote(&s("eve.near"), VOTE_FEE, 1, &id, true), Err(GovernanceError::Unauthorized));
    assert_eq!(c.vote(&s("alice.near"), 0, 1, &id, true), Err(GovernanceError::ValidationFailed));
    assert_eq!(c.vote(&s("alice.near"), VOTE_FEE, 1, &s("none"), true), Err(GovernanceError::NotFound));
}

#[test]
fn add_collaborator_after_approval() {
    let (mut c, id) = work_with("alice.near", &["bob.near"]);
    assert_eq!(c.add_collaborator(&s("alice.near"), &id, vec![s("carol.near")]), Err(GovernanceError::QuorumNotMet));
    c.vote(&s("alice.near"), VOTE_FEE, 1, &id, true).unwrap();
    assert_eq!(c.add_collaborator(&s("eve.near"), &id, vec![s("carol.near")]), Err(GovernanceError::Unauthorized));
    assert_eq!(c.add_collaborator(&s("alice.near"), &id, vec![s("bob.near")]), Err(GovernanceError::ValidationFailed));
    assert_eq!(c.add_collaborator(&s("alice.near"), &id, vec![s("carol.near")]), Ok(()));
    let w = c.get_work_by_id(&s("alice.near"), &id).unwrap();
    assert_eq!(w.collaborators, vec![s("bob.near"), s("carol.near")]);
    assert!(w.votes.is_none());
    assert_eq!(c.add_collaborator(&s("alice.near"), &s("none"), vec![]), Err(GovernanceError::NotFound));
}

#[test]
fn equal_split_among_four_has_no_dust() {
    let (c, id) = work_with("a", &["b", "c", "d"]);
    let t = c.distribute_funds(100, &id, None).unwrap();
    assert_eq!(t, vec![(s("a"), 25), (s("b"), 25), (s("c"), 25), (s("d"), 25)]);
    assert_eq!(t.iter().map(|x| x.1).sum::<u128>(), 100);
}

#[test]
fn equal_split_among_three_leaves_dust() {
    let split = equal_split(&s("a"), &vec![s("b"), s("c")]);
    assert_eq!(split, vec![(s("a"), 33), (s("b"), 33), (s("c"), 33)]);
    assert_eq!(share_amount(100, 33) * 3, 99);
    let (c, id) = work_with("a", &["b", "c"]);
    let t = c.distribute_funds(100, &id, None).unwrap();
    assert_eq!(t, vec![(s("a"), 33), (s("b"), 33), (s("c"), 33)]);
    assert_eq!(t.iter().map(|x| x.1).sum::<u128>(), 99);
    assert_eq!(c.distribute_funds(100, &s("none"), None), Err(GovernanceError::NotFound));
}

#[test]
fn split_amounts_round_down() {
    let t = split_payment(7, &vec![(s("a"), 50), (s("b"), 50)]).unwrap();
    assert_eq!(t, vec![(s("a"), 3), (s("b"), 3)]);
    let t = split_payment(u128::MAX, &vec![(s("a"), 100)]).unwrap();
    assert_eq!(t, vec![(s("a"), u128::MAX)]);
    assert_eq!(share_amount(u128::MAX, 50), u128::MAX / 2);
    assert_eq!(share_amount(199, 1), 1);
}

#[test]
fn get_access_charges_exact_fee() {
    let (mut c, id) = work_with("alice.near", &["bob.near", "carol.near", "dan.near"]);
    assert_eq!(c.get_access(&s("alice.near"), 0, &id), Ok(None));
    assert_eq!(c.get_access(&s("bob.near"), 0, &id), Ok(None));
    assert_eq!(c.get_access(&s("eve.near"), 4, &id), Err(GovernanceError::ValidationFailed));
    assert_eq!(c.get_work_by_id(&s("eve.near"), &id).unwrap().content, HIDDEN_CONTENT);
    let t = c.get_access(&s("eve.near"), 5, &id).unwrap().unwrap();
    assert_eq!(t.len(), 4);
    assert_eq!(t[0], (s("alice.near"), 1));
    assert_eq!(c.get_work_by_id(&s("eve.near"), &id).unwrap().content, "la la");
    assert_eq!(c.get_access(&s("eve.near"), 5, &s("none")), Err(GovernanceError::NotFound));
}

#[test]
fn get_access_pays_equal_split_with_dust() {
    let (mut c, id) = work_with("alice.near", &["bob.near", "carol.near"]);
    let t = c.get_access(&s("eve.near"), 5, &id).unwrap().unwrap();
    assert_eq!(t, vec![(s("alice.near"), 1), (s("bob.near"), 1), (s("carol.near"), 1)]);
    let w = c.get_work_by_id(&s("alice.near"), &id).unwrap();
    assert_eq!(w.authorized_users, vec![s("eve.near")]);
}

#[test]
fn collaborator_vote_counts() {
    let (mut c, id) = work_with("alice.near", &["bob.near", "carol.near", "dan.near"]);
    c.vote(&s("bob.near"), VOTE_FEE, 1, &id, true).unwrap();
    c.vote(&s("carol.near"), VOTE_FEE, 2, &id, true).unwrap();
    assert_eq!(c.vote(&s("bob.near"), VOTE_FEE, 3, &id, false), Err(GovernanceError::AlreadyVoted));
    assert_eq!(c.add_collaborator(&s("bob.near"), &id, vec![s("erin.near")]), Ok(()));
    let w = c.get_work_by_id(&s("bob.near"), &id).unwrap();
    assert_eq!(w.collaborators.len(), 4);
    assert!(w.votes.is_none());
}

#[test]
fn get_access_uses_declared_ratios() {
    let mut c = ledger_with_author("alice.near");
    let ratios = Some(vec![(s("alice.near"), 70), (s("bob.near"), 30)]);
    let w = c.create_work(&s("alice.near"), 1, s("X"), s("y"), None, Some(10), ratios).unwrap();
    let t = c.get_access(&s("eve.near"), 10, &w.id).unwrap().unwrap();
    assert_eq!(t, vec![(s("alice.near"), 7), (s("bob.near"), 3)]);
}

#[test]
fn report_infringement_upserts() {
    let (mut c, id) = work_with("alice.near", &[]);
    c.report_infringement(&s("eve.near"), 1, &id, s("first")).unwrap();
    c.report_infringement(&s("dan.near"), 2, &id, s("other")).unwrap();
    c.report_infringement(&s("eve.near"), 3, &id, s("second")).unwrap();
    let w = c.get_work_by_id(&s("alice.near"), &id).unwrap();
    let reports = w.reported_infringements.unwrap();
    assert_eq!(reports.len(), 2);
    assert_eq!(reports[0].reason, "second");
    assert_eq!(reports[0].timestamp, 3);
    assert_eq!(reports[1].reporter, "dan.near");
    assert_eq!(c.report_infringement(&s("eve.near"), 1, &s("none"), s("x")), Err(GovernanceError::NotFound));
}

#[test]
fn author_lifecycle() {
    let mut c = ledger_with_author("alice.near");
    let a = c.update_author(&s("alice.near"), Some(s("Alicia")), None).unwrap();
    assert_eq!(a.name, "Alicia");
    assert_eq!(a.age, 30);
    assert_eq!(c.update_author(&s("bob.near"), None, Some(3)), Err(GovernanceError::NotFound));
    c.create_author(&s("bob.near"), s("Bob"), 20);
    assert_eq!(c.get_all_authors().len(), 2);
    assert_eq!(c.delete_author(&s("bob.near"), &s("alice.near")), Err(GovernanceError::Unauthorized));
    assert_eq!(c.delete_author(&s("alice.near"), &s("alice.near")), Ok(()));
    assert_eq!(c.delete_author(&s("alice.near"), &s("alice.near")), Err(GovernanceError::NotFound));
    assert!(c.get_author_by_id(&s("alice.near")).is_none());
    assert_eq!(c.get_all_authors()[0].id, "bob.near");
}

#[test]
fn update_work_list_replaces_or_appends() {
    let (mut c, id) = work_with("alice.near", &[]);
    let mut w = c.get_work_by_id(&s("alice.near"), &id).unwrap();
    w.content = s("changed");
    assert_eq!(c.update_work_list(&s("alice.near"), &w), Ok(()));
    assert_eq!(c.get_all_works(&s("alice.near")).len(), 1);
    assert_eq!(c.get_work_by_id(&s("alice.near"), &id).unwrap().content, "changed");
    w.id = s("OTHER1");
    assert_eq!(c.update_work_list(&s("alice.near"), &w), Ok(()));
    assert_eq!(c.get_all_works_of_author(&s("alice.near"), &s("alice.near")).len(), 2);
    assert_eq!(c.update_work_list(&s("bob.near"), &w), Err(GovernanceError::ValidationFailed));
    w.ratios = Some(vec![(s("alice.near"), 99)]);
    assert_eq!(c.update_work_list(&s("alice.near"), &w), Err(GovernanceError::ValidationFailed));
    assert_eq!(c.get_all_works(&s("alice.near")).len(), 2);
}

#[test]
fn roles_default_to_subscriber() {
    assert_eq!(Roles::default(), Roles::Subscriber);
}
