use ecochain_dao_backend::ledger::{
    create_proposal, get_active_proposals, get_all_proposals, get_all_users, get_proposal,
    get_system_stats, get_total_supply, get_unvalidated_data, get_user_balance, get_user_info,
    is_user_registered, register_user, reward_user, submit_data, transfer_tokens, validate_data,
    vote_on_proposal, Ledger,
};
use ecochain_dao_backend::{ActionType, EcoError, Identity, VoteChoice};

fn id(b: u8) -> Identity {
    Identity::new(vec![b, 7, 42])
}

fn registered(ids: &[u8]) -> Ledger {
    let mut l = Ledger::new();
    for (t, b) in ids.iter().enumerate() {
        register_user(&mut l, &id(*b), t as u64).unwrap();
    }
    l
}

#[test]
fn register_gives_reward_and_time() {
    let mut l = Ledger::new();
    let u = register_user(&mut l, &id(1), 77).unwrap();
    assert_eq!(u.balance, 1000);
    assert_eq!(u.registered_at, 77);
    assert_eq!(u.principal.bytes, vec![1, 7, 42]);
    assert_eq!(get_user_balance(&l, &id(1)), Ok(1000));
}

#[test]
fn register_twice_fails_once() {
    let mut l = Ledger::new();
    assert!(register_user(&mut l, &id(1), 1).is_ok());
    assert_eq!(register_user(&mut l, &id(1), 2).unwrap_err(), EcoError::Unauthorized);
    assert_eq!(get_user_balance(&l, &id(1)), Ok(1000));
    assert_eq!(get_all_users(&l).len(), 1);
    assert_eq!(get_user_info(&l, &id(1)).unwrap().registered_at, 1);
}

#[test]
fn unknown_user_queries_fail() {
    let l = registered(&[1]);
    assert_eq!(get_user_balance(&l, &id(2)), Err(EcoError::UserNotFound));
    assert_eq!(get_user_info(&l, &id(2)).unwrap_err(), EcoError::UserNotFound);
    assert!(is_user_registered(&l, &id(1)));
    assert!(!is_user_registered(&l, &id(2)));
    assert!(!is_user_registered(&l, &Identity::new(vec![1, 7])));
}

#[test]
fn transfer_moves_exact_amount() {
    let mut l = registered(&[1, 2, 3]);
    assert_eq!(transfer_tokens(&mut l, &id(1), &id(2), 300), Ok(()));
    assert_eq!(get_user_balance(&l, &id(1)), Ok(700));
    assert_eq!(get_user_balance(&l, &id(2)), Ok(1300));
    assert_eq!(get_user_balance(&l, &id(3)), Ok(1000));
}

#[test]
fn transfer_whole_balance() {
    let mut l = registered(&[1, 2]);
    assert_eq!(transfer_tokens(&mut l, &id(1), &id(2), 1000), Ok(()));
    assert_eq!(get_user_balance(&l, &id(1)), Ok(0));
    assert_eq!(get_user_balance(&l, &id(2)), Ok(2000));
}

#[test]
fn transfer_over_balance_changes_nothing() {
    let mut l = registered(&[1, 2]);
    assert_eq!(
        transfer_tokens(&mut l, &id(1), &id(2), 1001),
        Err(EcoError::InsufficientBalance)
    );
    assert_eq!(get_user_balance(&l, &id(1)), Ok(1000));
    assert_eq!(get_user_balance(&l, &id(2)), Ok(1000));
}

#[test]
fn transfer_to_unknown_or_from_unknown() {
    let mut l = registered(&[1]);
    assert_eq!(transfer_tokens(&mut l, &id(1), &id(9), 5), Err(EcoError::UserNotFound));
    assert_eq!(transfer_tokens(&mut l, &id(9), &id(1), 5), Err(EcoError::UserNotFound));
    assert_eq!(get_user_balance(&l, &id(1)), Ok(1000));
}

#[test]
fn transfer_to_self_is_no_op() {
    let mut l = registered(&[1]);
    assert_eq!(transfer_tokens(&mut l, &id(1), &id(1), 400), Ok(()));
    assert_eq!(get_user_balance(&l, &id(1)), Ok(1000));
}

#[test]
fn reward_credits_and_overflows() {
    let mut l = registered(&[1]);
    assert_eq!(reward_user(&mut l, &id(1), 5, ActionType::Registration), Ok(()));
    assert_eq!(get_user_balance(&l, &id(1)), Ok(1005));
    assert_eq!(
        reward_user(&mut l, &id(1), u64::MAX, ActionType::Governance),
        Err(EcoError::Overflow)
    );
    assert_eq!(get_user_balance(&l, &id(1)), Ok(1005));
    assert_eq!(
        reward_user(&mut l, &id(2), 5, ActionType::Validation),
        Err(EcoError::UserNotFound)
    );
}

#[test]
fn transfer_overflowing_receiver_fails() {
    let mut l = registered(&[1, 2]);
    reward_user(&mut l, &id(2), u64::MAX - 1000, ActionType::Governance).unwrap();
    assert_eq!(transfer_tokens(&mut l, &id(1), &id(2), 1), Err(EcoError::Overflow));
    assert_eq!(get_user_balance(&l, &id(1)), Ok(1000));
    assert_eq!(get_user_balance(&l, &id(2)), Ok(u64::MAX));
}

#[test]
fn submit_stores_and_rewards() {
    let mut l = registered(&[1]);
    let d = submit_data(&mut l, &id(1), "air quality 12".to_string(), 50).unwrap();
    assert_eq!(d.id, 1);
    assert_eq!(d.data, "air quality 12");
    assert!(!d.validated);
    assert!(d.validator.is_none());
    assert_eq!(d.submitted_at, 50);
    assert_eq!(get_user_balance(&l, &id(1)), Ok(1050));
    let d2 = submit_data(&mut l, &id(1), String::new(), 51).unwrap();
    assert_eq!(d2.id, 2);
    assert_eq!(get_user_balance(&l, &id(1)), Ok(1100));
}

#[test]
fn submit_by_unknown_fails_without_using_an_id() {
    let mut l = registered(&[1]);
    assert_eq!(submit_data(&mut l, &id(2), "x".to_string(), 1).unwrap_err(), EcoError::UserNotFound);
    assert_eq!(submit_data(&mut l, &id(1), "y".to_string(), 2).unwrap().id, 1);
}

#[test]
fn validate_by_other_marks_and_rewards() {
    let mut l = registered(&[1, 2]);
    submit_data(&mut l, &id(1), "x".to_string(), 1).unwrap();
    let d = validate_data(&mut l, &id(2), 1).unwrap();
    assert!(d.validated);
    assert_eq!(d.validator.unwrap().bytes, vec![2, 7, 42]);
    assert_eq!(get_user_balance(&l, &id(2)), Ok(1025));
    assert_eq!(get_user_balance(&l, &id(1)), Ok(1050));
}

#[test]
fn self_validation_is_refused() {
    let mut l = registered(&[1]);
    submit_data(&mut l, &id(1), "x".to_string(), 1).unwrap();
    assert_eq!(validate_data(&mut l, &id(1), 1).unwrap_err(), EcoError::Unauthorized);
    let open = get_unvalidated_data(&l);
    assert_eq!(open.len(), 1);
    assert!(!open[0].validated);
    assert_eq!(get_user_balance(&l, &id(1)), Ok(1050));
}

#[test]
fn second_validation_is_refused() {
    let mut l = registered(&[1, 2, 3]);
    submit_data(&mut l, &id(1), "x".to_string(), 1).unwrap();
    validate_data(&mut l, &id(2), 1).unwrap();
    assert_eq!(validate_data(&mut l, &id(3), 1).unwrap_err(), EcoError::AlreadyValidated);
    assert_eq!(get_user_balance(&l, &id(3)), Ok(1000));
}

#[test]
fn validate_errors() {
    let mut l = registered(&[1, 2]);
    assert_eq!(validate_data(&mut l, &id(2), 1).unwrap_err(), EcoError::DataNotFound);
    assert_eq!(validate_data(&mut l, &id(2), 0).unwrap_err(), EcoError::DataNotFound);
    submit_data(&mut l, &id(1), "x".to_string(), 1).unwrap();
    assert_eq!(validate_data(&mut l, &id(9), 1).unwrap_err(), EcoError::UserNotFound);
}

#[test]
fn unvalidated_list_keeps_id_order() {
    let mut l = registered(&[1, 2]);
    submit_data(&mut l, &id(1), "a".to_string(), 1).unwrap();
    submit_data(&mut l, &id(1), "b".to_string(), 2).unwrap();
    submit_data(&mut l, &id(1), "c".to_string(), 3).unwrap();
    validate_data(&mut l, &id(2), 2).unwrap();
    let open: Vec<u64> = get_unvalidated_data(&l).iter().map(|d| d.id).collect();
    assert_eq!(open, vec![1, 3]);
}

#[test]
fn proposal_needs_minimum_balance() {
    let mut l = registered(&[1, 2]);
    transfer_tokens(&mut l, &id(1), &id(2), 1).unwrap();
    assert_eq!(
        create_proposal(&mut l, &id(1), "p".to_string(), 5).unwrap_err(),
        EcoError::InsufficientBalance
    );
    assert!(get_all_proposals(&l).is_empty());
    let p = create_proposal(&mut l, &id(2), "q".to_string(), 6).unwrap();
    assert_eq!(p.id, 1);
    assert_eq!(get_user_balance(&l, &id(2)), Ok(1001));
}

#[test]
fn proposal_by_unknown_fails() {
    let mut l = registered(&[1]);
    assert_eq!(
        create_proposal(&mut l, &id(2), "p".to_string(), 5).unwrap_err(),
        EcoError::UserNotFound
    );
}

#[test]
fn vote_errors() {
    let mut l = registered(&[1, 2]);
    assert_eq!(
        vote_on_proposal(&mut l, &id(2), 1, VoteChoice::Yes).unwrap_err(),
        EcoError::ProposalNotFound
    );
    create_proposal(&mut l, &id(1), "p".to_string(), 5).unwrap();
    assert_eq!(
        vote_on_proposal(&mut l, &id(9), 1, VoteChoice::Yes).unwrap_err(),
        EcoError::UserNotFound
    );
    assert_eq!(
        vote_on_proposal(&mut l, &id(2), 2, VoteChoice::No).unwrap_err(),
        EcoError::ProposalNotFound
    );
}

#[test]
fn no_vote_counts_and_second_vote_refused() {
    let mut l = registered(&[1, 2]);
    create_proposal(&mut l, &id(1), "p".to_string(), 5).unwrap();
    let p = vote_on_proposal(&mut l, &id(2), 1, VoteChoice::No).unwrap();
    assert_eq!((p.yes_votes, p.no_votes, p.voters.len()), (0, 1, 1));
    assert_eq!(
        vote_on_proposal(&mut l, &id(2), 1, VoteChoice::Yes).unwrap_err(),
        EcoError::AlreadyVoted
    );
    let p = get_proposal(&l, 1).unwrap();
    assert_eq!((p.yes_votes, p.no_votes, p.voters.len()), (0, 1, 1));
}

#[test]
fn creator_may_vote() {
    let mut l = registered(&[1]);
    create_proposal(&mut l, &id(1), "p".to_string(), 5).unwrap();
    let p = vote_on_proposal(&mut l, &id(1), 1, VoteChoice::Yes).unwrap();
    assert_eq!(p.yes_votes, 1);
    assert_eq!(get_user_balance(&l, &id(1)), Ok(1010));
}

#[test]
fn two_accounts_scenario() {
    let mut l = Ledger::new();
    let a = id(0xA);
    let b = id(0xB);
    assert_eq!(register_user(&mut l, &a, 1).unwrap().balance, 1000);
    let first = create_proposal(&mut l, &a, "plant trees".to_string(), 2).unwrap();
    assert_eq!(first.id, 1);
    assert_eq!(first.yes_votes, 0);
    assert_eq!(first.no_votes, 0);
    assert!(first.is_active);
    assert!(first.voters.is_empty());
    assert_eq!(register_user(&mut l, &b, 3).unwrap().balance, 1000);
    let p = vote_on_proposal(&mut l, &b, 1, VoteChoice::Yes).unwrap();
    assert_eq!(p.yes_votes, 1);
    assert_eq!(get_user_balance(&l, &b), Ok(1010));
    assert_eq!(
        vote_on_proposal(&mut l, &b, 1, VoteChoice::Yes).unwrap_err(),
        EcoError::AlreadyVoted
    );
    assert_eq!(get_proposal(&l, 1).unwrap().yes_votes, 1);
    assert_eq!(get_user_balance(&l, &b), Ok(1010));
}

#[test]
fn proposal_lookup_and_lists() {
    let mut l = registered(&[1]);
    assert_eq!(get_proposal(&l, 1).unwrap_err(), EcoError::ProposalNotFound);
    create_proposal(&mut l, &id(1), "p".to_string(), 5).unwrap();
    create_proposal(&mut l, &id(1), "q".to_string(), 6).unwrap();
    assert_eq!(get_proposal(&l, 2).unwrap().description, "q");
    assert_eq!(get_proposal(&l, 0).unwrap_err(), EcoError::ProposalNotFound);
    let all: Vec<u64> = get_all_proposals(&l).iter().map(|p| p.id).collect();
    assert_eq!(all, vec![1, 2]);
    let active: Vec<u64> = get_active_proposals(&l).iter().map(|p| p.id).collect();
    assert_eq!(active, vec![1, 2]);
}

#[test]
fn stats_count_everything() {
    let mut l = registered(&[1, 2, 3]);
    submit_data(&mut l, &id(1), "a".to_string(), 1).unwrap();
    submit_data(&mut l, &id(1), "b".to_string(), 2).unwrap();
    validate_data(&mut l, &id(2), 1).unwrap();
    create_proposal(&mut l, &id(3), "p".to_string(), 3).unwrap();
    let s = get_system_stats(&l);
    assert_eq!(s.total_users, 3);
    assert_eq!(s.total_proposals, 1);
    assert_eq!(s.active_proposals, 1);
    assert_eq!(s.total_data_submissions, 2);
    assert_eq!(s.validated_data, 1);
    assert_eq!(s.total_supply, 100_000_000);
    assert_eq!(get_total_supply(), 100_000_000);
}

#[test]
fn empty_ledger_stats() {
    let l = Ledger::new();
    let s = get_system_stats(&l);
    assert_eq!(
        (s.total_users, s.total_proposals, s.active_proposals, s.total_data_submissions, s.validated_data),
        (0, 0, 0, 0, 0)
    );
    assert!(get_all_users(&l).is_empty());
    assert!(get_unvalidated_data(&l).is_empty());
    assert!(get_active_proposals(&l).is_empty());
}

#[test]
fn identities_compare_by_bytes() {
    assert!(id(1).same_as(&id(1)));
    assert!(!id(1).same_as(&id(2)));
    assert!(!Identity::new(vec![1]).same_as(&Identity::new(vec![1, 0])));
    assert!(Identity::new(vec![]).same_as(&Identity::new(vec![])));
}

#[test]
fn accounts_list_in_identity_order() {
    let mut l = Ledger::new();
    for (t, b) in [vec![5u8], vec![1, 2], vec![3], vec![1, 1]].into_iter().enumerate() {
        register_user(&mut l, &Identity::new(b), t as u64).unwrap();
    }
    let order: Vec<Vec<u8>> = get_all_users(&l).into_iter().map(|u| u.principal.bytes).collect();
    assert_eq!(order, vec![vec![3], vec![5], vec![1, 1], vec![1, 2]]);
    assert_eq!(get_user_info(&l, &Identity::new(vec![1, 2])).unwrap().registered_at, 1);
}

#[test]
fn identity_order_is_length_then_bytes() {
    assert!(Identity::new(vec![9]).precedes(&Identity::new(vec![0, 0])));
    assert!(Identity::new(vec![1, 2]).precedes(&Identity::new(vec![1, 3])));
    assert!(!Identity::new(vec![1, 3]).precedes(&Identity::new(vec![1, 2])));
    assert!(!Identity::new(vec![1, 2]).precedes(&Identity::new(vec![1, 2])));
}
