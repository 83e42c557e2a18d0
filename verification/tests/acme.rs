use nyrun::acme::{
    account_contact, account_path, begin_issue, cert_dir, cert_path, issue_cert, key_path, register_acme,
    request_outcome, request_params, Authorization, ChallengeStore, HttpChallenge, Issuance, IssueEvent, IssueNext,
    IssueStage, OrderStatus, RequestStage, SignedRequest,
};

fn go(i: Issuance, store: &mut ChallengeStore, event: IssueEvent) -> Issuance {
    match issue_cert(i, store, event) {
        IssueNext::Continue(next) => next,
        other => panic!("{other:?}"),
    }
}

fn auth(valid: bool, token: Option<&str>) -> Authorization {
    Authorization {
        valid,
        http: token.map(|t| HttpChallenge {
            token: t.to_string(),
            key_auth: format!("{t}.key"),
            url: format!("https://ca/{t}"),
        }),
    }
}

/// An order with two challenges that are answered.
fn polling(store: &mut ChallengeStore) -> Issuance {
    let mut i = begin_issue("me@x", "x.com", true);
    for _ in 0..3 {
        i = go(i, store, IssueEvent::Done);
    }
    i = go(i, store, IssueEvent::Status(OrderStatus::Pending));
    assert_eq!(i.stage, IssueStage::Authorize);
    let auths = vec![auth(true, None), auth(false, Some("one")), auth(false, Some("two"))];
    i = go(i, store, IssueEvent::Authorizations(auths));
    assert_eq!((i.stage, i.index), (IssueStage::SetReady, 1));
    assert_eq!(store.get("one").as_deref(), Some("one.key"));
    assert_eq!(store.get("two"), None);
    i = go(i, store, IssueEvent::Done);
    assert_eq!((i.stage, i.index), (IssueStage::SetReady, 2));
    assert_eq!(store.get("two").as_deref(), Some("two.key"));
    i = go(i, store, IssueEvent::Done);
    assert_eq!(i.stage, IssueStage::PollOrder);
    i
}

#[test]
fn a_certificate_is_issued() {
    let mut store = ChallengeStore::new();
    store.set("kept".to_string(), "kept.key".to_string());
    let mut i = polling(&mut store);
    i = go(i, &mut store, IssueEvent::Status(OrderStatus::Processing));
    assert_eq!(i.tries, 1);
    i = go(i, &mut store, IssueEvent::Status(OrderStatus::Ready));
    assert_eq!(i.stage, IssueStage::MakeRequest);
    assert_eq!((store.get("one"), store.get("two")), (None, None));
    assert_eq!(store.get("kept").as_deref(), Some("kept.key"));
    i = go(i, &mut store, IssueEvent::Done);
    assert_eq!(i.stage, IssueStage::Finalize);
    i = go(i, &mut store, IssueEvent::Done);
    assert_eq!((i.stage, i.tries), (IssueStage::PollCert, 0));
    i = go(i, &mut store, IssueEvent::Status(OrderStatus::Processing));
    i = go(i, &mut store, IssueEvent::Status(OrderStatus::Valid));
    assert_eq!(i.stage, IssueStage::Download);
    i = go(i, &mut store, IssueEvent::Downloaded(true));
    let mut stages = Vec::new();
    for _ in 0..3 {
        stages.push(i.stage);
        i = go(i, &mut store, IssueEvent::Done);
    }
    assert_eq!(stages, [IssueStage::CreateDir, IssueStage::WriteCert, IssueStage::WriteKey]);
    assert_eq!(issue_cert(i, &mut store, IssueEvent::Done), IssueNext::Finished);
}

#[test]
fn a_new_account_is_saved() {
    let mut store = ChallengeStore::new();
    let mut i = begin_issue("me@x", "x.com", false);
    let mut stages = Vec::new();
    while i.stage != IssueStage::NewOrder {
        stages.push(i.stage);
        i = go(i, &mut store, IssueEvent::Done);
    }
    assert_eq!(
        stages,
        [
            IssueStage::CreateAccount,
            IssueStage::CreateCertsDir,
            IssueStage::SerializeAccount,
            IssueStage::SaveAccount,
        ]
    );
    assert_eq!(account_contact("me@x"), "mailto:me@x");
    let invalid = issue_cert(i, &mut store, IssueEvent::Status(OrderStatus::Invalid));
    assert_eq!(invalid, IssueNext::Failed("ACME order is invalid".to_string()));
}

#[test]
fn an_order_that_is_given_up() {
    for (status, message) in [
        (OrderStatus::Pending, "ACME order timed out (still pending)"),
        (OrderStatus::Processing, "ACME order timed out (processing)"),
    ] {
        let mut store = ChallengeStore::new();
        let mut i = polling(&mut store);
        for _ in 0..19 {
            i = go(i, &mut store, IssueEvent::Status(status));
            assert!(store.get("one").is_some());
        }
        let end = issue_cert(i, &mut store, IssueEvent::Status(status));
        assert_eq!(end, IssueNext::Failed(message.to_string()));
        assert_eq!(store.get("one"), None);
    }
    let mut store = ChallengeStore::new();
    let i = polling(&mut store);
    let end = issue_cert(i, &mut store, IssueEvent::Status(OrderStatus::Invalid));
    assert_eq!(end, IssueNext::Failed("ACME order became invalid".to_string()));
    assert_eq!(store.get("two"), None);
}

#[test]
fn a_certificate_that_does_not_come() {
    let mut store = ChallengeStore::new();
    let poll = |store: &mut ChallengeStore| {
        let mut i = begin_issue("me@x", "x.com", true);
        i.stage = IssueStage::Finalize;
        go(i, store, IssueEvent::Done)
    };
    let mut i = poll(&mut store);
    for _ in 0..9 {
        i = go(i, &mut store, IssueEvent::Status(OrderStatus::Ready));
    }
    assert_eq!(
        issue_cert(i, &mut store, IssueEvent::Status(OrderStatus::Pending)),
        IssueNext::Failed("timed out waiting for certificate".to_string())
    );
    let i = poll(&mut store);
    assert_eq!(
        issue_cert(i, &mut store, IssueEvent::Status(OrderStatus::Invalid)),
        IssueNext::Failed("order became invalid after finalize".to_string())
    );
    let mut i = begin_issue("me@x", "x.com", true);
    i.stage = IssueStage::Download;
    assert_eq!(
        issue_cert(i, &mut store, IssueEvent::Downloaded(false)),
        IssueNext::Failed("no certificate returned".to_string())
    );
    let mut i = begin_issue("me@x", "x.com", true);
    i.stage = IssueStage::Authorize;
    assert_eq!(
        issue_cert(i, &mut store, IssueEvent::Authorizations(vec![auth(false, None)])),
        IssueNext::Failed("no HTTP-01 challenge found".to_string())
    );
}

#[test]
fn steps_that_fail() {
    for (stage, message) in [
        (IssueStage::ReadAccount, "failed to read account: e"),
        (IssueStage::ParseAccount, "failed to parse account: e"),
        (IssueStage::LoadAccount, "failed to load account: e"),
        (IssueStage::CreateAccount, "failed to create ACME account: e"),
        (IssueStage::CreateCertsDir, "failed to create certs dir: e"),
        (IssueStage::SerializeAccount, "serialize error: e"),
        (IssueStage::SaveAccount, "failed to save account: e"),
        (IssueStage::NewOrder, "failed to create order: e"),
        (IssueStage::Authorize, "failed to get authorizations: e"),
        (IssueStage::SetReady, "failed to set challenge ready: e"),
        (IssueStage::PollOrder, "failed to refresh order: e"),
        (IssueStage::MakeRequest, "e"),
        (IssueStage::Finalize, "failed to finalize order: e"),
        (IssueStage::PollCert, "failed to refresh order: e"),
        (IssueStage::Download, "failed to download cert: e"),
        (IssueStage::CreateDir, "failed to create cert dir: e"),
        (IssueStage::WriteCert, "failed to write cert: e"),
        (IssueStage::WriteKey, "failed to write key: e"),
        (IssueStage::Install, "e"),
    ] {
        let mut store = ChallengeStore::new();
        let mut i = begin_issue("me@x", "x.com", true);
        i.stage = stage;
        i.auths = vec![auth(false, Some("t"))];
        let end = issue_cert(i, &mut store, IssueEvent::Failed("e".to_string()));
        assert_eq!(end, IssueNext::Failed(message.to_string()));
    }
}

#[test]
fn events_out_of_place_change_nothing() {
    let mut store = ChallengeStore::new();
    let i = begin_issue("me@x", "x.com", true);
    let i = go(i, &mut store, IssueEvent::Status(OrderStatus::Valid));
    let i = go(i, &mut store, IssueEvent::Downloaded(true));
    let i = go(i, &mut store, IssueEvent::Authorizations(vec![auth(false, None)]));
    assert_eq!(i, begin_issue("me@x", "x.com", true));
}

#[test]
fn files_of_certificates() {
    assert_eq!(cert_dir("x.com"), "/var/run/nyrun/certs/x.com");
    assert_eq!(cert_path("x.com"), "/var/run/nyrun/certs/x.com/cert.pem");
    assert_eq!(key_path("x.com"), "/var/run/nyrun/certs/x.com/key.pem");
    assert_eq!(account_path(), "/var/run/nyrun/certs/account.json");
}

#[test]
fn a_host_is_registered_once() {
    let mut hosts = Vec::new();
    register_acme(&mut hosts, "a.com", "one");
    register_acme(&mut hosts, "b.com", "two");
    register_acme(&mut hosts, "a.com", "three");
    assert_eq!(
        hosts,
        vec![("a.com".to_string(), "one".to_string()), ("b.com".to_string(), "two".to_string())]
    );
}

#[test]
fn challenges_are_kept_and_forgotten() {
    let mut store = ChallengeStore::new();
    store.set("t".to_string(), "a".to_string());
    store.set("t".to_string(), "b".to_string());
    assert_eq!(store.get("t").as_deref(), Some("b"));
    store.remove("t");
    store.remove("t");
    assert_eq!(store.get("t"), None);
}

#[test]
fn requests_that_fail() {
    for (stage, message) in [
        (RequestStage::Key, "failed to generate key: e"),
        (RequestStage::Params, "failed to create cert params: e"),
        (RequestStage::Sign, "failed to create CSR: e"),
    ] {
        assert_eq!(request_outcome(Err((stage, "e".to_string()))), Err(message.to_string()));
    }
    let signed = || SignedRequest { params: request_params("x.com"), der: vec![1], key_pem: "key".to_string() };
    assert_eq!(request_outcome(Ok(signed())), Ok(signed()));
}
