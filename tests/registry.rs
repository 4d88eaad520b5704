use cw721_derivative::{
    execute, instantiate, query, str_less, token_owner_idx, Approval, BlockInfo, ContractError,
    Cw721Contract, DerivativeNft, ExecuteMsg, Expiration, Extension, InstantiateMsg, MetaAccess,
    Metadata, MintMsg, OperatorGrant, QueryMsg, QueryResponse, Snapshot, StdError, TokenEntry,
    TokenInfo,
};

fn s(v: &str) -> String {
    v.to_string()
}

fn block(height: u64, time: u64) -> BlockInfo {
    BlockInfo { height, time }
}

fn setup() -> Cw721Contract {
    instantiate(InstantiateMsg { name: s("Derivatives"), symbol: s("DRV"), minter: s("minter") })
}

fn mint_msg(id: &str, owner: &str, extension: Extension) -> MintMsg<Extension> {
    MintMsg { token_id: s(id), owner: s(owner), token_uri: None, extension }
}

fn derived_from(sources: &[&str]) -> Extension {
    Some(Metadata {
        derivative: Some(DerivativeNft {
            method: s("remix"),
            params: None,
            source_ids: sources.iter().map(|x| s(x)).collect(),
        }),
        ..Metadata::default()
    })
}

fn owner(c: &Cw721Contract, id: &str) -> String {
    c.owner_of(&block(1, 1), &s(id), true).unwrap().owner
}

#[test]
fn mint_sets_owner_and_counts() {
    let mut c = setup();
    assert_eq!(c.token_count(), 0);
    let msg = MintMsg {
        token_id: s("a"),
        owner: s("alice"),
        token_uri: Some(s("ipfs://a")),
        extension: None,
    };
    assert_eq!(c.mint(msg), Ok(()));
    assert_eq!(c.token_count(), 1);
    let resp = c.owner_of(&block(1, 1), &s("a"), true).unwrap();
    assert_eq!(resp.owner, "alice");
    assert!(resp.approvals.is_empty());
    let info = c.nft_info(&s("a")).unwrap();
    assert_eq!(info.token_uri, Some(s("ipfs://a")));
    assert_eq!(info.extension, None);
}

#[test]
fn mint_twice_is_claimed_and_changes_nothing() {
    let mut c = setup();
    c.mint(mint_msg("a", "alice", None)).unwrap();
    assert_eq!(c.mint(mint_msg("a", "bob", None)), Err(ContractError::Claimed {}));
    assert_eq!(c.token_count(), 1);
    assert_eq!(owner(&c, "a"), "alice");
    assert_eq!(c.all_tokens(None, None), vec![s("a")]);
    assert_eq!(c.tokens(&s("bob"), None, None), Vec::<String>::new());
}

#[test]
fn transfer_by_stranger_is_unauthorized() {
    let mut c = setup();
    c.mint(mint_msg("a", "alice", None)).unwrap();
    let r = c.transfer_nft(&block(1, 1), &s("mallory"), s("mallory"), &s("a"));
    assert_eq!(r, Err(ContractError::Unauthorized {}));
    assert_eq!(owner(&c, "a"), "alice");
}

#[test]
fn transfer_of_unknown_token_is_not_found() {
    let mut c = setup();
    let r = c.transfer_nft(&block(1, 1), &s("alice"), s("bob"), &s("zz"));
    assert!(matches!(r, Err(ContractError::Std(StdError::NotFound { .. }))));
    assert!(matches!(
        c.owner_of(&block(1, 1), &s("zz"), false),
        Err(ContractError::Std(StdError::NotFound { .. }))
    ));
}

#[test]
fn transfer_clears_approvals_and_moves_index() {
    let mut c = setup();
    c.mint(mint_msg("x", "alice", None)).unwrap();
    c.approve(&block(1, 1), &s("alice"), s("sam"), &s("x"), None).unwrap();
    assert_eq!(c.owner_of(&block(1, 1), &s("x"), true).unwrap().approvals.len(), 1);
    c.transfer_nft(&block(1, 1), &s("alice"), s("bob"), &s("x")).unwrap();
    let resp = c.owner_of(&block(1, 1), &s("x"), true).unwrap();
    assert_eq!(resp.owner, "bob");
    assert!(resp.approvals.is_empty());
    assert_eq!(c.tokens(&s("alice"), None, None), Vec::<String>::new());
    assert_eq!(c.tokens(&s("bob"), None, None), vec![s("x")]);
}

#[test]
fn approved_spender_transfers_before_expiry() {
    let mut c = setup();
    c.mint(mint_msg("x", "alice", None)).unwrap();
    c.approve(&block(10, 100), &s("alice"), s("sam"), &s("x"), Some(Expiration::AtHeight(20)))
        .unwrap();
    assert!(c.is_approved(&s("x"), &s("sam"), &block(19, 100)));
    let r = c.transfer_nft(&block(19, 100), &s("sam"), s("carol"), &s("x"));
    assert_eq!(r, Ok(()));
    assert_eq!(owner(&c, "x"), "carol");
}

#[test]
fn approved_spender_fails_after_expiry() {
    let mut c = setup();
    c.mint(mint_msg("x", "alice", None)).unwrap();
    c.approve(&block(10, 100), &s("alice"), s("sam"), &s("x"), Some(Expiration::AtTime(500)))
        .unwrap();
    assert!(!c.is_approved(&s("x"), &s("sam"), &block(11, 500)));
    let r = c.transfer_nft(&block(11, 500), &s("sam"), s("carol"), &s("x"));
    assert_eq!(r, Err(ContractError::Unauthorized {}));
    assert_eq!(owner(&c, "x"), "alice");
    assert_eq!(c.owner_of(&block(11, 500), &s("x"), false).unwrap().approvals.len(), 0);
    assert_eq!(c.owner_of(&block(11, 500), &s("x"), true).unwrap().approvals.len(), 1);
}

#[test]
fn approve_with_elapsed_expiration_is_expired() {
    let mut c = setup();
    c.mint(mint_msg("x", "alice", None)).unwrap();
    let r = c.approve(&block(30, 1), &s("alice"), s("sam"), &s("x"), Some(Expiration::AtHeight(30)));
    assert_eq!(r, Err(ContractError::Expired {}));
    let r = c.approve_all(&block(30, 1), &s("alice"), s("op"), Some(Expiration::AtHeight(5)));
    assert_eq!(r, Err(ContractError::Expired {}));
}

#[test]
fn only_owner_manages_approvals() {
    let mut c = setup();
    c.mint(mint_msg("x", "alice", None)).unwrap();
    c.approve_all(&block(1, 1), &s("alice"), s("op"), None).unwrap();
    let r = c.approve(&block(1, 1), &s("op"), s("sam"), &s("x"), None);
    assert_eq!(r, Err(ContractError::Unauthorized {}));
    assert_eq!(c.revoke(&s("op"), &s("sam"), &s("x")), Err(ContractError::Unauthorized {}));
}

#[test]
fn new_approval_replaces_old_for_same_spender() {
    let mut c = setup();
    c.mint(mint_msg("x", "alice", None)).unwrap();
    c.approve(&block(1, 1), &s("alice"), s("sam"), &s("x"), Some(Expiration::AtHeight(5))).unwrap();
    c.approve(&block(1, 1), &s("alice"), s("tom"), &s("x"), None).unwrap();
    c.approve(&block(1, 1), &s("alice"), s("sam"), &s("x"), Some(Expiration::AtHeight(50))).unwrap();
    let approvals = c.owner_of(&block(1, 1), &s("x"), true).unwrap().approvals;
    assert_eq!(approvals.len(), 2);
    assert_eq!(approvals[0].spender, "tom");
    assert_eq!(approvals[1].spender, "sam");
    assert_eq!(approvals[1].expires, Expiration::AtHeight(50));
    c.revoke(&s("alice"), &s("sam"), &s("x")).unwrap();
    c.revoke(&s("alice"), &s("nobody"), &s("x")).unwrap();
    let approvals = c.owner_of(&block(1, 1), &s("x"), true).unwrap().approvals;
    assert_eq!(approvals.len(), 1);
    assert_eq!(approvals[0].spender, "tom");
}

#[test]
fn revoked_operator_is_unauthorized() {
    let mut c = setup();
    c.mint(mint_msg("x", "alice", None)).unwrap();
    c.approve_all(&block(1, 1), &s("alice"), s("op"), None).unwrap();
    assert!(c.is_operator(&s("alice"), &s("op"), &block(1, 1)));
    assert!(c.can_act(&s("x"), &s("op"), &block(1, 1)));
    c.revoke_all(&s("alice"), &s("op"));
    assert!(!c.is_operator(&s("alice"), &s("op"), &block(1, 1)));
    let r = c.transfer_nft(&block(1, 1), &s("op"), s("op"), &s("x"));
    assert_eq!(r, Err(ContractError::Unauthorized {}));
    assert_eq!(owner(&c, "x"), "alice");
}

#[test]
fn operator_transfers_until_grant_expires() {
    let mut c = setup();
    c.mint(mint_msg("x", "alice", None)).unwrap();
    c.mint(mint_msg("y", "alice", None)).unwrap();
    c.approve_all(&block(1, 1), &s("alice"), s("op"), Some(Expiration::AtHeight(10))).unwrap();
    assert_eq!(c.transfer_nft(&block(9, 1), &s("op"), s("bob"), &s("x")), Ok(()));
    assert_eq!(
        c.transfer_nft(&block(10, 1), &s("op"), s("bob"), &s("y")),
        Err(ContractError::Unauthorized {})
    );
}

#[test]
fn index_follows_every_mutation() {
    let mut c = setup();
    c.mint(mint_msg("t1", "alice", None)).unwrap();
    c.mint(mint_msg("t2", "alice", None)).unwrap();
    c.mint(mint_msg("t3", "bob", None)).unwrap();
    c.transfer_nft(&block(1, 1), &s("alice"), s("bob"), &s("t1")).unwrap();
    c.send_nft(&block(1, 1), &s("bob"), s("vault"), &s("t3")).unwrap();
    c.transfer_nft(&block(1, 1), &s("bob"), s("alice"), &s("t1")).unwrap();
    assert_eq!(c.tokens(&s("alice"), None, None), vec![s("t1"), s("t2")]);
    assert_eq!(c.tokens(&s("bob"), None, None), Vec::<String>::new());
    assert_eq!(c.tokens(&s("vault"), None, None), vec![s("t3")]);
    for id in ["t1", "t2", "t3"] {
        let o = owner(&c, id);
        for who in ["alice", "bob", "vault"] {
            let listed = c.tokens(&s(who), None, Some(100)).contains(&s(id));
            assert_eq!(listed, who == o);
        }
    }
}

#[test]
fn derivative_with_missing_source_is_rejected() {
    let mut c = setup();
    c.mint(mint_msg("src1", "alice", None)).unwrap();
    let r = c.mint(mint_msg("d", "alice", derived_from(&["src1", "ghost", "other"])));
    assert_eq!(r, Err(ContractError::SourceNotFound(s("ghost"))));
    assert_eq!(c.token_count(), 1);
    assert_eq!(c.all_tokens(None, None), vec![s("src1")]);
}

#[test]
fn derivative_with_present_sources_mints() {
    let mut c = setup();
    c.mint(mint_msg("src1", "alice", None)).unwrap();
    c.mint(mint_msg("src2", "bob", None)).unwrap();
    let ext = derived_from(&["src1", "src2"]);
    assert!(ext.is_derivative());
    assert_eq!(ext.get_metadata().derivative.as_ref().unwrap().method, "remix");
    assert_eq!(c.mint(mint_msg("d", "carol", ext.clone())), Ok(()));
    assert_eq!(c.token_count(), 3);
    assert_eq!(c.nft_info(&s("d")).unwrap().extension, ext);
}

#[test]
fn plain_metadata_is_not_derivative() {
    let ext: Extension = Some(Metadata { name: Some(s("n")), ..Metadata::default() });
    assert!(!ext.is_derivative());
    let none: Extension = None;
    assert!(!none.is_derivative());
}

#[test]
fn pages_are_ordered_and_bounded() {
    let mut c = setup();
    for id in ["d", "b", "a", "e", "c"] {
        c.mint(mint_msg(id, "alice", None)).unwrap();
    }
    assert_eq!(c.all_tokens(None, None), vec![s("a"), s("b"), s("c"), s("d"), s("e")]);
    assert_eq!(c.all_tokens(None, Some(2)), vec![s("a"), s("b")]);
    assert_eq!(c.all_tokens(Some(s("b")), Some(2)), vec![s("c"), s("d")]);
    assert_eq!(c.tokens(&s("alice"), Some(s("d")), None), vec![s("e")]);
    assert_eq!(c.all_tokens(None, Some(0)), Vec::<String>::new());
}

#[test]
fn page_limit_defaults_to_ten_and_caps_at_hundred() {
    let mut c = setup();
    for i in 0..120u32 {
        c.mint(mint_msg(&format!("t{:03}", i), "alice", None)).unwrap();
    }
    assert_eq!(c.all_tokens(None, None).len(), 10);
    assert_eq!(c.all_tokens(None, Some(500)).len(), 100);
    assert_eq!(c.all_tokens(None, Some(3)), vec![s("t000"), s("t001"), s("t002")]);
}

#[test]
fn string_order_is_by_code_point() {
    assert!(str_less(&s("a"), &s("b")));
    assert!(str_less(&s("ab"), &s("abc")));
    assert!(!str_less(&s("abc"), &s("abc")));
    assert!(!str_less(&s("b"), &s("abc")));
    assert!(str_less(&s("Z"), &s("a")));
    assert!(str_less(&s(""), &s("a")));
}

#[test]
fn expiration_is_checked_against_block() {
    let b = block(10, 1_000);
    assert!(Expiration::AtHeight(10).is_expired(&b));
    assert!(!Expiration::AtHeight(11).is_expired(&b));
    assert!(Expiration::AtTime(1_000).is_expired(&b));
    assert!(!Expiration::AtTime(1_001).is_expired(&b));
    assert!(!Expiration::Never.is_expired(&b));
}

#[test]
fn execute_dispatches_messages() {
    let mut c = setup();
    let b = block(1, 1);
    let mint = ExecuteMsg::Mint(mint_msg("x", "alice", None));
    assert_eq!(execute(&mut c, &b, &s("minter"), mint), Ok(()));
    let approve = ExecuteMsg::Approve { spender: s("sam"), token_id: s("x"), expires: None };
    assert_eq!(execute(&mut c, &b, &s("alice"), approve), Ok(()));
    let send = ExecuteMsg::SendNft { contract: s("vault"), token_id: s("x"), msg: vec![1, 2] };
    assert_eq!(execute(&mut c, &b, &s("sam"), send), Ok(()));
    assert_eq!(owner(&c, "x"), "vault");
    let all = ExecuteMsg::ApproveAll { operator: s("op"), expires: None };
    assert_eq!(execute(&mut c, &b, &s("vault"), all), Ok(()));
    let revoke_all = ExecuteMsg::RevokeAll { operator: s("op") };
    assert_eq!(execute(&mut c, &b, &s("vault"), revoke_all), Ok(()));
    let transfer = ExecuteMsg::TransferNft { recipient: s("op"), token_id: s("x") };
    assert_eq!(execute(&mut c, &b, &s("op"), transfer), Err(ContractError::Unauthorized {}));
}

#[test]
fn instantiate_records_metadata() {
    let c = setup();
    assert_eq!(c.minter().minter, "minter");
    let info = c.contract_info();
    assert_eq!(info.name, "Derivatives");
    assert_eq!(info.symbol, "DRV");
    assert_eq!(c.token_count(), 0);
}

#[test]
fn operators_are_listed_in_order_and_filtered() {
    let mut c = setup();
    let b = block(5, 5);
    c.approve_all(&b, &s("alice"), s("zed"), None).unwrap();
    c.approve_all(&b, &s("alice"), s("amy"), Some(Expiration::AtHeight(8))).unwrap();
    c.approve_all(&b, &s("alice"), s("max"), Some(Expiration::AtHeight(50))).unwrap();
    c.approve_all(&b, &s("bob"), s("bea"), None).unwrap();
    let names = |v: Vec<Approval>| v.into_iter().map(|a| a.spender).collect::<Vec<_>>();
    assert_eq!(names(c.approved_for_all(&b, &s("alice"), false, None, None)), vec![s("amy"), s("max"), s("zed")]);
    assert_eq!(names(c.approved_for_all(&block(9, 5), &s("alice"), false, None, None)), vec![s("max"), s("zed")]);
    assert_eq!(names(c.approved_for_all(&block(9, 5), &s("alice"), true, None, None)), vec![s("amy"), s("max"), s("zed")]);
    assert_eq!(names(c.approved_for_all(&b, &s("alice"), false, Some(s("amy")), Some(1))), vec![s("max")]);
    let v = c.approved_for_all(&b, &s("alice"), false, Some(s("max")), None);
    assert_eq!(v.len(), 1);
    assert_eq!(v[0].expires, Expiration::Never);
    c.approve_all(&b, &s("alice"), s("max"), Some(Expiration::AtHeight(60))).unwrap();
    let v = c.approved_for_all(&b, &s("alice"), false, Some(s("amy")), Some(1));
    assert_eq!(v[0].expires, Expiration::AtHeight(60));
}

#[test]
fn query_answers_each_message() {
    let mut c = setup();
    c.mint(MintMsg { token_id: s("x"), owner: s("alice"), token_uri: Some(s("u")), extension: None }).unwrap();
    let b = block(1, 1);
    match query(&c, &b, QueryMsg::NumTokens {}) {
        Ok(QueryResponse::NumTokens(n)) => assert_eq!(n, 1),
        _ => panic!("wrong answer"),
    }
    match query(&c, &b, QueryMsg::OwnerOf { token_id: s("x"), include_expired: None }) {
        Ok(QueryResponse::OwnerOf(o)) => assert_eq!(o.owner, "alice"),
        _ => panic!("wrong answer"),
    }
    match query(&c, &b, QueryMsg::AllNftInfo { token_id: s("x"), include_expired: Some(true) }) {
        Ok(QueryResponse::AllNftInfo(o, t)) => {
            assert_eq!(o.owner, "alice");
            assert_eq!(t.token_uri, Some(s("u")));
        }
        _ => panic!("wrong answer"),
    }
    match query(&c, &b, QueryMsg::Tokens { owner: s("alice"), start_after: None, limit: None }) {
        Ok(QueryResponse::Tokens(v)) => assert_eq!(v, vec![s("x")]),
        _ => panic!("wrong answer"),
    }
    match query(&c, &b, QueryMsg::Minter {}) {
        Ok(QueryResponse::Minter(m)) => assert_eq!(m.minter, "minter"),
        _ => panic!("wrong answer"),
    }
    assert!(matches!(
        query(&c, &b, QueryMsg::NftInfo { token_id: s("nope") }),
        Err(ContractError::Std(StdError::NotFound { .. }))
    ));
}

#[test]
fn snapshot_round_trip_keeps_records() {
    let mut c = setup();
    c.mint(mint_msg("a", "alice", None)).unwrap();
    c.mint(mint_msg("b", "bob", None)).unwrap();
    c.approve(&block(1, 1), &s("alice"), s("sam"), &s("a"), None).unwrap();
    c.approve_all(&block(1, 1), &s("bob"), s("op"), None).unwrap();
    let snap = c.into_snapshot();
    assert_eq!(snap.token_count, 2);
    assert_eq!(snap.tokens.len(), 2);
    assert_eq!(snap.operators.len(), 1);
    let mut c = Cw721Contract::from_snapshot(snap).unwrap();
    assert_eq!(c.tokens(&s("bob"), None, None), vec![s("b")]);
    assert!(c.is_approved(&s("a"), &s("sam"), &block(1, 1)));
    assert!(c.is_operator(&s("bob"), &s("op"), &block(1, 1)));
    c.transfer_nft(&block(1, 1), &s("op"), s("carol"), &s("b")).unwrap();
    assert_eq!(c.tokens(&s("carol"), None, None), vec![s("b")]);
}

fn entry(id: &str, owner: &str, spenders: &[&str]) -> TokenEntry {
    TokenEntry {
        token_id: s(id),
        info: TokenInfo {
            owner: s(owner),
            approvals: spenders.iter().map(|x| Approval { spender: s(x), expires: Expiration::Never }).collect(),
            token_uri: None,
            extension: None,
        },
    }
}

fn snapshot(tokens: Vec<TokenEntry>, operators: Vec<OperatorGrant>, count: u64) -> Snapshot {
    Snapshot { name: s("n"), symbol: s("s"), minter: s("m"), token_count: count, tokens, operators }
}

#[test]
fn inconsistent_snapshots_are_refused() {
    let ok = snapshot(vec![entry("a", "alice", &["x", "y"])], vec![], 1);
    assert!(Cw721Contract::from_snapshot(ok).is_some());
    let dup_id = snapshot(vec![entry("a", "alice", &[]), entry("a", "bob", &[])], vec![], 2);
    assert!(Cw721Contract::from_snapshot(dup_id).is_none());
    let dup_spender = snapshot(vec![entry("a", "alice", &["x", "x"])], vec![], 1);
    assert!(Cw721Contract::from_snapshot(dup_spender).is_none());
    let bad_count = snapshot(vec![entry("a", "alice", &[])], vec![], 2);
    assert!(Cw721Contract::from_snapshot(bad_count).is_none());
    let grant = || OperatorGrant { owner: s("alice"), operator: s("op"), expires: Expiration::Never };
    let dup_grant = snapshot(vec![], vec![grant(), grant()], 0);
    assert!(Cw721Contract::from_snapshot(dup_grant).is_none());
}

#[test]
fn owner_index_key_is_owner_then_id() {
    let e = entry("tok", "alice", &[]);
    assert_eq!(token_owner_idx(&e.info, s("tok")), (s("alice"), s("tok")));
}

#[test]
fn count_by_owner_follows_transfers() {
    let mut c = setup();
    c.mint(mint_msg("a", "alice", None)).unwrap();
    c.mint(mint_msg("b", "alice", None)).unwrap();
    c.mint(mint_msg("c", "bob", None)).unwrap();
    assert_eq!(c.count_by_owner(&s("alice")), 2);
    c.transfer_nft(&block(1, 1), &s("alice"), s("bob"), &s("a")).unwrap();
    assert_eq!(c.count_by_owner(&s("alice")), 1);
    assert_eq!(c.count_by_owner(&s("bob")), 2);
    assert_eq!(c.count_by_owner(&s("carol")), 0);
}
