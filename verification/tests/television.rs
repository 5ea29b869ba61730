use television::contract::{execute, instantiate, query};
use television::error::ContractError;
use television::msg::{ExecuteMsg, InstantiateMsg, QueryAnswer, QueryMsg, Response};
use television::state::Television;

fn new_tv() -> Television {
    instantiate(InstantiateMsg {}).0
}

fn run(tv: &mut Television, caller: &str, msg: ExecuteMsg) -> Result<Response, ContractError> {
    execute(tv, caller.to_string(), 0, 0, msg)
}

fn run_at(
    tv: &mut Television,
    caller: &str,
    time: u64,
    height: u64,
    msg: ExecuteMsg,
) -> Result<Response, ContractError> {
    execute(tv, caller.to_string(), time, height, msg)
}

fn create(tv: &mut Television, owner: &str, name: &str) {
    run(tv, owner, ExecuteMsg::CreateChannel { channel: name.to_string() }).unwrap();
}

fn tune(tv: &mut Television, user: &str, name: &str) -> Result<Response, ContractError> {
    run(tv, user, ExecuteMsg::TuneIn { channel: name.to_string() })
}

fn viewer_count(tv: &Television, name: &str) -> u64 {
    match query(tv, QueryMsg::GetChannelViewers { channel: name.to_string() }).unwrap() {
        QueryAnswer::Viewers(n) => n,
        other => panic!("unexpected answer {:?}", other),
    }
}

fn channel_names(tv: &Television) -> Vec<String> {
    match query(tv, QueryMsg::ListChannels {}).unwrap() {
        QueryAnswer::Channels(names) => names,
        other => panic!("unexpected answer {:?}", other),
    }
}

fn ratings_of(tv: &Television, name: &str) -> Vec<u8> {
    match query(tv, QueryMsg::GetChannelRatings { channel: name.to_string() }).unwrap() {
        QueryAnswer::Ratings(scores) => scores,
        other => panic!("unexpected answer {:?}", other),
    }
}

#[test]
fn instantiate_starts_empty() {
    let (tv, resp) = instantiate(InstantiateMsg {});
    assert_eq!(resp.attributes.len(), 1);
    assert_eq!(resp.attributes[0].key, "action");
    assert_eq!(resp.attributes[0].value, "instantiate");
    assert_eq!(channel_names(&tv), Vec::<String>::new());
}

#[test]
fn create_then_list_single() {
    let mut tv = new_tv();
    create(&mut tv, "alice", "news");
    assert_eq!(channel_names(&tv), vec!["news".to_string()]);
}

#[test]
fn list_channels_sorted() {
    let mut tv = new_tv();
    create(&mut tv, "alice", "sports");
    create(&mut tv, "alice", "news");
    create(&mut tv, "alice", "anime");
    assert_eq!(
        channel_names(&tv),
        vec!["anime".to_string(), "news".to_string(), "sports".to_string()]
    );
}

#[test]
fn create_response_attributes() {
    let mut tv = new_tv();
    let resp = run(&mut tv, "alice", ExecuteMsg::CreateChannel { channel: "news".to_string() })
        .unwrap();
    assert_eq!(resp.attributes.len(), 2);
    assert_eq!(resp.attributes[0].key, "method");
    assert_eq!(resp.attributes[0].value, "create_channel");
    assert_eq!(resp.attributes[1].key, "channel");
    assert_eq!(resp.attributes[1].value, "news");
}

#[test]
fn tune_in_adjusts_viewer_counts() {
    let mut tv = new_tv();
    create(&mut tv, "alice", "news");
    create(&mut tv, "alice", "sports");
    tune(&mut tv, "bob", "news").unwrap();
    assert_eq!(viewer_count(&tv, "news"), 1);
    tune(&mut tv, "bob", "sports").unwrap();
    assert_eq!(viewer_count(&tv, "news"), 0);
    assert_eq!(viewer_count(&tv, "sports"), 1);
}

#[test]
fn tune_in_twice_fails_already_tuned() {
    let mut tv = new_tv();
    create(&mut tv, "alice", "news");
    tune(&mut tv, "bob", "news").unwrap();
    assert_eq!(tune(&mut tv, "bob", "news"), Err(ContractError::AlreadyTuned));
    assert_eq!(viewer_count(&tv, "news"), 1);
}

#[test]
fn tune_in_absent_channel_fails() {
    let mut tv = new_tv();
    assert_eq!(tune(&mut tv, "bob", "news"), Err(ContractError::ChannelNotFound));
    assert_eq!(
        query(&tv, QueryMsg::GetUserProfile { user: "bob".to_string() }),
        Err(ContractError::NotFound)
    );
}

#[test]
fn tune_away_from_removed_channel() {
    let mut tv = new_tv();
    create(&mut tv, "alice", "news");
    create(&mut tv, "alice", "sports");
    tune(&mut tv, "bob", "news").unwrap();
    run(&mut tv, "alice", ExecuteMsg::RemoveChannel { channel: "news".to_string() }).unwrap();
    tune(&mut tv, "bob", "sports").unwrap();
    assert_eq!(viewer_count(&tv, "sports"), 1);
}

#[test]
fn rate_without_tune_in_fails() {
    let mut tv = new_tv();
    create(&mut tv, "alice", "news");
    assert_eq!(
        run(&mut tv, "bob", ExecuteMsg::RateBroadcast { channel: "news".to_string(), rating: 7 }),
        Err(ContractError::NoActiveTuneIn)
    );
}

#[test]
fn rate_other_channel_fails_mismatch() {
    let mut tv = new_tv();
    create(&mut tv, "alice", "news");
    create(&mut tv, "alice", "sports");
    tune(&mut tv, "bob", "sports").unwrap();
    assert_eq!(
        run(&mut tv, "bob", ExecuteMsg::RateBroadcast { channel: "news".to_string(), rating: 7 }),
        Err(ContractError::ChannelMismatch)
    );
}

#[test]
fn rate_tuned_channel_appends_score() {
    let mut tv = new_tv();
    create(&mut tv, "alice", "news");
    tune(&mut tv, "bob", "news").unwrap();
    run(&mut tv, "bob", ExecuteMsg::RateBroadcast { channel: "news".to_string(), rating: 7 })
        .unwrap();
    assert_eq!(ratings_of(&tv, "news").last(), Some(&7));
    run(&mut tv, "bob", ExecuteMsg::RateBroadcast { channel: "news".to_string(), rating: 3 })
        .unwrap();
    assert_eq!(ratings_of(&tv, "news"), vec![7, 3]);
}

#[test]
fn transfer_by_non_owner_fails_unauthorized() {
    let mut tv = new_tv();
    create(&mut tv, "alice", "news");
    assert_eq!(
        run(
            &mut tv,
            "mallory",
            ExecuteMsg::TransferChannelOwnership {
                channel: "news".to_string(),
                new_owner: "mallory".to_string(),
            },
        ),
        Err(ContractError::Unauthorized)
    );
    // the owner is unchanged: alice may still mutate the channel
    run(
        &mut tv,
        "alice",
        ExecuteMsg::UpdateBroadcast {
            channel: "news".to_string(),
            broadcast: "headlines".to_string(),
        },
    )
    .unwrap();
}

#[test]
fn transfer_by_owner_locks_out_former_owner() {
    let mut tv = new_tv();
    create(&mut tv, "alice", "news");
    run(
        &mut tv,
        "alice",
        ExecuteMsg::TransferChannelOwnership {
            channel: "news".to_string(),
            new_owner: "carol".to_string(),
        },
    )
    .unwrap();
    assert_eq!(
        run(&mut tv, "alice", ExecuteMsg::RemoveChannel { channel: "news".to_string() }),
        Err(ContractError::Unauthorized)
    );
    run(&mut tv, "carol", ExecuteMsg::RemoveChannel { channel: "news".to_string() }).unwrap();
}

#[test]
fn remove_leaves_dangling_profile_reference() {
    let mut tv = new_tv();
    create(&mut tv, "alice", "news");
    tune(&mut tv, "bob", "news").unwrap();
    run(&mut tv, "alice", ExecuteMsg::RemoveChannel { channel: "news".to_string() }).unwrap();
    match query(&tv, QueryMsg::GetUserProfile { user: "bob".to_string() }).unwrap() {
        QueryAnswer::Profile(p) => {
            assert_eq!(p.current_channel, Some("news".to_string()));
            assert_eq!(p.viewing_history.len(), 1);
        },
        other => panic!("unexpected answer {:?}", other),
    }
    assert_eq!(
        query(&tv, QueryMsg::GetChannelViewers { channel: "news".to_string() }),
        Err(ContractError::NotFound)
    );
}

#[test]
fn create_overwrites_existing_channel() {
    let mut tv = new_tv();
    create(&mut tv, "alice", "news");
    tune(&mut tv, "bob", "news").unwrap();
    run(&mut tv, "bob", ExecuteMsg::RateBroadcast { channel: "news".to_string(), rating: 5 })
        .unwrap();
    create(&mut tv, "mallory", "news");
    assert_eq!(ratings_of(&tv, "news"), Vec::<u8>::new());
    assert_eq!(viewer_count(&tv, "news"), 0);
    assert_eq!(
        run(
            &mut tv,
            "alice",
            ExecuteMsg::UpdateBroadcast {
                channel: "news".to_string(),
                broadcast: "late".to_string(),
            },
        ),
        Err(ContractError::Unauthorized)
    );
    run(
        &mut tv,
        "mallory",
        ExecuteMsg::UpdateBroadcast { channel: "news".to_string(), broadcast: "late".to_string() },
    )
    .unwrap();
}

#[test]
fn broadcast_update_roundtrip() {
    let mut tv = new_tv();
    create(&mut tv, "alice", "news");
    run(
        &mut tv,
        "alice",
        ExecuteMsg::UpdateBroadcast {
            channel: "news".to_string(),
            broadcast: "breaking story".to_string(),
        },
    )
    .unwrap();
    assert_eq!(
        query(&tv, QueryMsg::GetCurrentBroadcast { channel: "news".to_string() }).unwrap(),
        QueryAnswer::Broadcast("breaking story".to_string())
    );
}

#[test]
fn queries_on_absent_channel_fail_not_found() {
    let tv = new_tv();
    assert_eq!(
        query(&tv, QueryMsg::GetCurrentBroadcast { channel: "news".to_string() }),
        Err(ContractError::NotFound)
    );
    assert_eq!(
        query(&tv, QueryMsg::GetChannelRatings { channel: "news".to_string() }),
        Err(ContractError::NotFound)
    );
    assert_eq!(
        query(&tv, QueryMsg::GetChannelViewers { channel: "news".to_string() }),
        Err(ContractError::NotFound)
    );
}

#[test]
fn remove_and_update_absent_channel_fail_not_found() {
    let mut tv = new_tv();
    assert_eq!(
        run(&mut tv, "alice", ExecuteMsg::RemoveChannel { channel: "news".to_string() }),
        Err(ContractError::NotFound)
    );
    assert_eq!(
        run(
            &mut tv,
            "alice",
            ExecuteMsg::UpdateBroadcast {
                channel: "news".to_string(),
                broadcast: "x".to_string(),
            },
        ),
        Err(ContractError::NotFound)
    );
}

#[test]
fn remove_by_non_owner_fails_unauthorized() {
    let mut tv = new_tv();
    create(&mut tv, "alice", "news");
    assert_eq!(
        run(&mut tv, "mallory", ExecuteMsg::RemoveChannel { channel: "news".to_string() }),
        Err(ContractError::Unauthorized)
    );
    assert_eq!(channel_names(&tv), vec!["news".to_string()]);
}

#[test]
fn viewing_history_records_context() {
    let mut tv = new_tv();
    create(&mut tv, "alice", "news");
    create(&mut tv, "alice", "sports");
    run_at(&mut tv, "bob", 10, 100, ExecuteMsg::TuneIn { channel: "news".to_string() }).unwrap();
    run_at(&mut tv, "bob", 20, 200, ExecuteMsg::TuneIn { channel: "sports".to_string() }).unwrap();
    match query(&tv, QueryMsg::GetUserProfile { user: "bob".to_string() }).unwrap() {
        QueryAnswer::Profile(p) => {
            assert_eq!(p.current_channel, Some("sports".to_string()));
            assert_eq!(p.viewing_history.len(), 2);
            assert_eq!(p.viewing_history[0].channel, "news");
            assert_eq!(p.viewing_history[0].start_time, 10);
            assert_eq!(p.viewing_history[0].start_height, 100);
            assert_eq!(p.viewing_history[1].channel, "sports");
            assert_eq!(p.viewing_history[1].start_time, 20);
            assert_eq!(p.viewing_history[1].start_height, 200);
        },
        other => panic!("unexpected answer {:?}", other),
    }
}

#[test]
fn viewer_counts_stay_consistent_over_a_sequence() {
    let mut tv = new_tv();
    create(&mut tv, "alice", "news");
    create(&mut tv, "alice", "sports");
    tune(&mut tv, "bob", "news").unwrap();
    tune(&mut tv, "carol", "news").unwrap();
    tune(&mut tv, "dave", "sports").unwrap();
    assert_eq!(viewer_count(&tv, "news"), 2);
    assert_eq!(viewer_count(&tv, "sports"), 1);
    tune(&mut tv, "carol", "sports").unwrap();
    assert_eq!(viewer_count(&tv, "news"), 1);
    assert_eq!(viewer_count(&tv, "sports"), 2);
    assert!(tune(&mut tv, "dave", "drama").is_err());
    assert_eq!(viewer_count(&tv, "news"), 1);
    assert_eq!(viewer_count(&tv, "sports"), 2);
    run(&mut tv, "alice", ExecuteMsg::RemoveChannel { channel: "news".to_string() }).unwrap();
    assert_eq!(viewer_count(&tv, "sports"), 2);
}

#[test]
fn is_wf_accepts_reachable_and_rejects_disordered_states() {
    let mut tv = new_tv();
    assert!(tv.is_wf());
    create(&mut tv, "alice", "news");
    create(&mut tv, "alice", "anime");
    tune(&mut tv, "bob", "news").unwrap();
    assert!(tv.is_wf());
    // a registry out of lexical order is rejected
    let entry = tv.channels.remove(0);
    tv.channels.push(entry);
    assert!(!tv.is_wf());
}
