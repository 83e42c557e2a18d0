//! Certificates from a certificate authority that checks a host by a challenge.

use vstd::prelude::*;
use vstd::string::*;
use crate::assoc::Assoc;
use crate::path::{join, joined};
use crate::text::{cat2, opt_text, same, texts};
use crate::tls::{cert_end, cert_refusal, pem_end};

verus! {

/// Where certificates are kept.
pub const CERTS_DIR: &'static str = "/var/run/nyrun/certs";

/// How many days before its end a certificate is renewed.
pub const RENEW_BEFORE_DAYS: i64 = 30;

/// The seconds between two looks at the certificates.
pub const RENEWAL_INTERVAL: u64 = 43200;

/// How often the state of an order is asked for before it is given up.
pub const ORDER_POLLS: u32 = 20;

/// The seconds before the state of an order is asked for.
pub const ORDER_POLL_SECS: u64 = 3;

/// How often a certificate is asked for before it is given up.
pub const CERT_POLLS: u32 = 10;

/// The seconds before a certificate is asked for.
pub const CERT_POLL_SECS: u64 = 2;

// ---------------------------------------------------------------------------
// Challenges
// ---------------------------------------------------------------------------

/// What the authority is answered, by the token that it asks for.
#[derive(Debug, PartialEq, Eq)]
pub struct ChallengeStore {
    pub tokens: Assoc<String>,
}

/// The contents of texts by key.
pub open spec fn text_views(m: Map<Seq<char>, String>) -> Map<Seq<char>, Seq<char>> {
    m.map_values(|s: String| s@)
}

impl View for ChallengeStore {
    type V = Map<Seq<char>, Seq<char>>;

    open spec fn view(&self) -> Map<Seq<char>, Seq<char>> {
        text_views(self.tokens@)
    }
}

impl ChallengeStore {
    /// Each token occurs once.
    pub open spec fn valid(self) -> bool {
        self.tokens.valid()
    }

    /// No challenges.
    pub fn new() -> (r: ChallengeStore)
        ensures
            r.valid(),
            r@ == Map::<Seq<char>, Seq<char>>::empty(),
    {
        let r = ChallengeStore { tokens: Assoc::new() };
        assert(r@ =~= Map::empty());
        r
    }

    /// Keeps the answer to a token.
    pub fn set(&mut self, token: String, key_auth: String)
        requires
            old(self).valid(),
        ensures
            final(self).valid(),
            final(self)@ == old(self)@.insert(token@, key_auth@),
    {
        let ghost before = self.tokens@;
        let ghost t = token@;
        let ghost k = key_auth@;
        self.tokens.insert(token, key_auth);
        assert(self@ =~= text_views(before).insert(t, k));
    }

    /// The answer to a token.
    pub fn get(&self, token: &str) -> (r: Option<String>)
        requires
            self.valid(),
        ensures
            match r {
                Some(k) => self@.contains_key(token@) && self@[token@] == k@,
                None => !self@.contains_key(token@),
            },
    {
        match self.tokens.get(token) {
            Some(k) => Some(k.clone()),
            None => None,
        }
    }

    /// Forgets the answer to a token.
    pub fn remove(&mut self, token: &str)
        requires
            old(self).valid(),
        ensures
            final(self).valid(),
            final(self)@ == old(self)@.remove(token@),
    {
        let ghost before = self.tokens@;
        self.tokens.remove(token);
        assert(self@ =~= text_views(before).remove(token@));
    }
}

// ---------------------------------------------------------------------------
// A certificate that is there
// ---------------------------------------------------------------------------

/// The directory of a host's certificate.
pub open spec fn cert_dir_of(hostname: Seq<char>) -> Seq<char> {
    joined(CERTS_DIR@, hostname)
}

/// The directory of a host's certificate.
pub fn cert_dir(hostname: &str) -> (r: String)
    ensures
        r@ == cert_dir_of(hostname@),
{
    join(CERTS_DIR, hostname)
}

/// The file of a host's certificate.
pub fn cert_path(hostname: &str) -> (r: String)
    ensures
        r@ == joined(cert_dir_of(hostname@), "cert.pem"@),
{
    join(cert_dir(hostname).as_str(), "cert.pem")
}

/// The file of the key of a host's certificate.
pub fn key_path(hostname: &str) -> (r: String)
    ensures
        r@ == joined(cert_dir_of(hostname@), "key.pem"@),
{
    join(cert_dir(hostname).as_str(), "key.pem")
}

/// The file of the account with the authority.
pub fn account_path() -> (r: String)
    ensures
        r@ == joined(CERTS_DIR@, "account.json"@),
{
    join(CERTS_DIR, "account.json")
}

/// Whether a certificate that ends then, in days and seconds since the Unix epoch, need
/// not be renewed now.
pub open spec fn fresh(end: Option<(i32, i32)>, now: int) -> bool {
    match end {
        Some((days, secs)) => days * 86400 + secs > now + RENEW_BEFORE_DAYS * 86400,
        None => false,
    }
}

/// Whether a certificate that ends then need not be renewed now.
pub fn is_fresh(end: Option<(i32, i32)>, now: i64) -> (r: bool)
    ensures
        r == fresh(end, now as int),
{
    match end {
        Some((days, secs)) => {
            let ends: i128 = days as i128 * 86400 + secs as i128;
            ends > now as i128 + RENEW_BEFORE_DAYS as i128 * 86400
        },
        None => false,
    }
}

// ---------------------------------------------------------------------------
// The request for a certificate
// ---------------------------------------------------------------------------

/// Where the making of a request failed.
#[derive(Clone, Copy, Debug, PartialEq, Eq, Structural)]
pub enum RequestStage {
    /// There is no key.
    Key,
    /// A host cannot stand in a certificate.
    Params,
    /// The request cannot be written or signed.
    Sign,
}

/// What a certificate is asked for.
#[derive(Debug, PartialEq, Eq)]
pub struct RequestParams {
    /// The hosts that it is for.
    pub names: Vec<String>,
    /// The common name of its subject, where it has one.
    pub subject: Option<String>,
}

/// The contents of `RequestParams`.
#[verifier::ext_equal]
pub struct RequestParamsView {
    pub names: Seq<Seq<char>>,
    pub subject: Option<Seq<char>>,
}

impl View for RequestParams {
    type V = RequestParamsView;

    open spec fn view(&self) -> RequestParamsView {
        RequestParamsView { names: texts(self.names@), subject: opt_text(self.subject) }
    }
}

/// A signed request for a certificate.
#[derive(Debug, PartialEq, Eq)]
pub struct SignedRequest {
    /// What it asks for.
    pub params: RequestParams,
    /// The request in DER.
    pub der: Vec<u8>,
    /// The key that signed it, as PEM text.
    pub key_pem: String,
}

/// The contents of a `SignedRequest`.
#[verifier::ext_equal]
pub struct SignedRequestView {
    pub params: RequestParamsView,
    pub der: Seq<u8>,
    pub key_pem: Seq<char>,
}

impl View for SignedRequest {
    type V = SignedRequestView;

    open spec fn view(&self) -> SignedRequestView {
        SignedRequestView { params: self.params@, der: self.der@, key_pem: self.key_pem@ }
    }
}

/// The certificate that is asked for a host: for that host alone, and without a subject.
pub fn request_params(hostname: &str) -> (r: RequestParams)
    ensures
        r@ == (RequestParamsView { names: seq![hostname@], subject: None }),
{
    let mut names: Vec<String> = Vec::new();
    names.push(hostname.to_string());
    let r = RequestParams { names, subject: None };
    assert(r@.names =~= seq![hostname@]);
    r
}

/// `rcgen::KeyPair::generate`, `rcgen::CertificateParams::new` for the hosts, the subject's
/// name through `DistinguishedName::push`, `serialize_request` with the key and
/// `KeyPair::serialize_pem`: the request for just these parameters, signed with a new key, and
/// that key. A host with a character outside of ASCII, and no other, is refused as a
/// parameter. The key and the signature are random, so that nothing is said of the texts, nor
/// of when there is a key or a signature.
#[verifier::external_body]
fn sign_request(params: RequestParams) -> (r: Result<SignedRequest, (RequestStage, String)>)
    ensures
        match r {
            Ok(s) => s@.params == params@ && all_ascii(params@.names),
            Err((stage, _)) => match stage {
                RequestStage::Key => true,
                RequestStage::Params => !all_ascii(params@.names),
                RequestStage::Sign => all_ascii(params@.names),
            },
        },
{
    let key = rcgen::KeyPair::generate().map_err(|e| (RequestStage::Key, e.to_string()))?;
    let mut cert = rcgen::CertificateParams::new(params.names.clone())
        .map_err(|e| (RequestStage::Params, e.to_string()))?;
    cert.distinguished_name = rcgen::DistinguishedName::new();
    if let Some(name) = &params.subject {
        cert.distinguished_name.push(rcgen::DnType::CommonName, name.as_str());
    }
    let csr = cert.serialize_request(&key).map_err(|e| (RequestStage::Sign, e.to_string()))?;
    Ok(SignedRequest { params, der: csr.der().to_vec(), key_pem: key.serialize_pem() })
}

/// Whether a text is ASCII.
pub open spec fn is_ascii_chars(s: Seq<char>) -> bool {
    forall|i: int| 0 <= i < s.len() ==> (#[trigger] s[i]) as int <= 0x7f
}

/// Whether all texts are ASCII.
pub open spec fn all_ascii(v: Seq<Seq<char>>) -> bool {
    forall|i: int| 0 <= i < v.len() ==> is_ascii_chars(#[trigger] v[i])
}

/// How a request that failed is reported.
pub open spec fn request_failure(stage: RequestStage, e: Seq<char>) -> Seq<char> {
    match stage {
        RequestStage::Key => "failed to generate key: "@ + e,
        RequestStage::Params => "failed to create cert params: "@ + e,
        RequestStage::Sign => "failed to create CSR: "@ + e,
    }
}

/// A signed request, or how its failure is reported, from what signing it gave.
pub fn request_outcome(signed: Result<SignedRequest, (RequestStage, String)>) -> (r: Result<
    SignedRequest,
    String,
>)
    ensures
        match (signed, r) {
            (Ok(s), Ok(t)) => t@ == s@,
            (Err((stage, e)), Err(m)) => m@ == request_failure(stage, e@),
            _ => false,
        },
{
    match signed {
        Ok(s) => Ok(s),
        Err((stage, e)) => Err(
            match stage {
                RequestStage::Key => cat2("failed to generate key: ", e.as_str()),
                RequestStage::Params => cat2("failed to create cert params: ", e.as_str()),
                RequestStage::Sign => cat2("failed to create CSR: ", e.as_str()),
            },
        ),
    }
}

/// A signed request for a certificate of a host, with the key that signed it; a host outside
/// of ASCII gets none. The key and the signature are random, and so is whether there is one.
pub fn certificate_request(hostname: &str) -> (r: Result<SignedRequest, String>)
    ensures
        match r {
            Ok(s) => is_ascii_chars(hostname@) && s@.params == (RequestParamsView {
                names: seq![hostname@],
                subject: None,
            }),
            Err(m) => exists|stage: RequestStage, e: Seq<char>|
                #![trigger request_failure(stage, e)]
                m@ == request_failure(stage, e) && match stage {
                    RequestStage::Key => true,
                    RequestStage::Params => !is_ascii_chars(hostname@),
                    RequestStage::Sign => is_ascii_chars(hostname@),
                },
        },
{
    let params = request_params(hostname);
    let ghost names = params@.names;
    proof {
        assert(names[0] == hostname@);
        assert(all_ascii(names) == is_ascii_chars(hostname@)) by {
            if is_ascii_chars(hostname@) {
                assert forall|i: int| 0 <= i < names.len() implies is_ascii_chars(
                    #[trigger] names[i],
                ) by {}
            }
        }
    }
    request_outcome(sign_request(params))
}

// ---------------------------------------------------------------------------
// An order
// ---------------------------------------------------------------------------

/// The state of an order.
#[derive(Clone, Copy, Debug, PartialEq, Eq, Structural)]
pub enum OrderStatus {
    Pending,
    Ready,
    Processing,
    Valid,
    Invalid,
}

/// A challenge that is answered over HTTP.
#[derive(Debug, PartialEq, Eq)]
pub struct HttpChallenge {
    pub token: String,
    pub key_auth: String,
    pub url: String,
}

/// The contents of an `HttpChallenge`.
#[verifier::ext_equal]
pub struct HttpChallengeView {
    pub token: Seq<char>,
    pub key_auth: Seq<char>,
    pub url: Seq<char>,
}

/// What the authority wants to be shown for a host.
#[derive(Debug, PartialEq, Eq)]
pub struct Authorization {
    /// Whether it has been shown already.
    pub valid: bool,
    /// The challenge over HTTP, where there is one.
    pub http: Option<HttpChallenge>,
}

/// The contents of an `Authorization`.
#[verifier::ext_equal]
pub struct AuthorizationView {
    pub valid: bool,
    pub http: Option<HttpChallengeView>,
}

impl View for HttpChallenge {
    type V = HttpChallengeView;

    open spec fn view(&self) -> HttpChallengeView {
        HttpChallengeView { token: self.token@, key_auth: self.key_auth@, url: self.url@ }
    }
}

impl View for Authorization {
    type V = AuthorizationView;

    open spec fn view(&self) -> AuthorizationView {
        AuthorizationView {
            valid: self.valid,
            http: match self.http {
                Some(c) => Some(c@),
                None => None,
            },
        }
    }
}

/// The contents of a list of authorizations.
pub open spec fn auths_view(v: Seq<Authorization>) -> Seq<AuthorizationView> {
    v.map_values(|a: Authorization| a@)
}

/// What has to be done next for a certificate.
#[derive(Clone, Copy, Debug, PartialEq, Eq, Structural)]
pub enum IssueStage {
    /// Read the file of the account.
    ReadAccount,
    /// Make sense of it.
    ParseAccount,
    /// Load the account.
    LoadAccount,
    /// Create an account.
    CreateAccount,
    /// Create the directory of certificates.
    CreateCertsDir,
    /// Serialise the account.
    SerializeAccount,
    /// Write the file of the account.
    SaveAccount,
    /// Create an order.
    NewOrder,
    /// Ask what has to be shown.
    Authorize,
    /// Tell the authority that a challenge is answered.
    SetReady,
    /// Wait, then ask for the state of the order.
    PollOrder,
    /// Make a key and a request for the certificate.
    MakeRequest,
    /// Send the request.
    Finalize,
    /// Wait, then ask whether the certificate is there.
    PollCert,
    /// Download the certificate.
    Download,
    /// Create the directory of the certificate.
    CreateDir,
    /// Write the certificate.
    WriteCert,
    /// Write the key.
    WriteKey,
    /// Put the certificate into the store.
    Install,
}

/// A certificate on its way.
#[derive(Debug, PartialEq, Eq)]
pub struct Issuance {
    pub email: String,
    pub hostname: String,
    pub stage: IssueStage,
    pub auths: Vec<Authorization>,
    /// The authorization that is being shown.
    pub index: usize,
    /// The tokens whose answers are kept.
    pub tokens: Vec<String>,
    /// How often the authority has been asked in vain.
    pub tries: u32,
}

/// The contents of an `Issuance`.
#[verifier::ext_equal]
pub struct IssuanceView {
    pub email: Seq<char>,
    pub hostname: Seq<char>,
    pub stage: IssueStage,
    pub auths: Seq<AuthorizationView>,
    pub index: int,
    pub tokens: Seq<Seq<char>>,
    pub tries: int,
}

impl View for Issuance {
    type V = IssuanceView;

    open spec fn view(&self) -> IssuanceView {
        IssuanceView {
            email: self.email@,
            hostname: self.hostname@,
            stage: self.stage,
            auths: auths_view(self.auths@),
            index: self.index as int,
            tokens: texts(self.tokens@),
            tries: self.tries as int,
        }
    }
}

/// What happened in a step.
#[derive(Debug, PartialEq, Eq)]
pub enum IssueEvent {
    /// The step is done.
    Done,
    /// The step failed.
    Failed(String),
    /// The state of the order.
    Status(OrderStatus),
    /// What has to be shown.
    Authorizations(Vec<Authorization>),
    /// Whether there was a certificate to download.
    Downloaded(bool),
}

/// The contents of an `IssueEvent`.
#[verifier::ext_equal]
pub enum IssueEventView {
    Done,
    Failed(Seq<char>),
    Status(OrderStatus),
    Authorizations(Seq<AuthorizationView>),
    Downloaded(bool),
}

impl View for IssueEvent {
    type V = IssueEventView;

    open spec fn view(&self) -> IssueEventView {
        match *self {
            IssueEvent::Done => IssueEventView::Done,
            IssueEvent::Failed(e) => IssueEventView::Failed(e@),
            IssueEvent::Status(s) => IssueEventView::Status(s),
            IssueEvent::Authorizations(v) => IssueEventView::Authorizations(auths_view(v@)),
            IssueEvent::Downloaded(b) => IssueEventView::Downloaded(b),
        }
    }
}

/// Where a step leads.
#[derive(Debug, PartialEq, Eq)]
pub enum IssueNext {
    Continue(Issuance),
    Failed(String),
    /// The certificate is in the store.
    Finished,
}

/// The contents of an `IssueNext`.
#[verifier::ext_equal]
pub enum IssueNextView {
    Continue(IssuanceView),
    Failed(Seq<char>),
    Finished,
}

impl View for IssueNext {
    type V = IssueNextView;

    open spec fn view(&self) -> IssueNextView {
        match *self {
            IssueNext::Continue(i) => IssueNextView::Continue(i@),
            IssueNext::Failed(e) => IssueNextView::Failed(e@),
            IssueNext::Finished => IssueNextView::Finished,
        }
    }
}

/// How the failure of a step is reported.
pub open spec fn failure_text(stage: IssueStage, e: Seq<char>) -> Seq<char> {
    match stage {
        IssueStage::ReadAccount => "failed to read account: "@ + e,
        IssueStage::ParseAccount => "failed to parse account: "@ + e,
        IssueStage::LoadAccount => "failed to load account: "@ + e,
        IssueStage::CreateAccount => "failed to create ACME account: "@ + e,
        IssueStage::CreateCertsDir => "failed to create certs dir: "@ + e,
        IssueStage::SerializeAccount => "serialize error: "@ + e,
        IssueStage::SaveAccount => "failed to save account: "@ + e,
        IssueStage::NewOrder => "failed to create order: "@ + e,
        IssueStage::Authorize => "failed to get authorizations: "@ + e,
        IssueStage::SetReady => "failed to set challenge ready: "@ + e,
        IssueStage::PollOrder => "failed to refresh order: "@ + e,
        IssueStage::MakeRequest => e,
        IssueStage::Finalize => "failed to finalize order: "@ + e,
        IssueStage::PollCert => "failed to refresh order: "@ + e,
        IssueStage::Download => "failed to download cert: "@ + e,
        IssueStage::CreateDir => "failed to create cert dir: "@ + e,
        IssueStage::WriteCert => "failed to write cert: "@ + e,
        IssueStage::WriteKey => "failed to write key: "@ + e,
        IssueStage::Install => e,
    }
}

/// The challenges without the listed tokens.
pub open spec fn cleared(store: Map<Seq<char>, Seq<char>>, tokens: Seq<Seq<char>>) -> Map<
    Seq<char>,
    Seq<char>,
>
    decreases tokens.len(),
{
    if tokens.len() == 0 {
        store
    } else {
        cleared(store, tokens.drop_last()).remove(tokens.last())
    }
}

/// A certificate on its way, at another stage.
pub open spec fn at(i: IssuanceView, stage: IssueStage) -> IssueNextView {
    IssueNextView::Continue(IssuanceView { stage, ..i })
}

/// The next authorization that has not been shown: its challenge is kept and the
/// authority told; where there is none left the order is asked for.
pub open spec fn next_challenge(i: IssuanceView, store: Map<Seq<char>, Seq<char>>) -> (
    IssueNextView,
    Map<Seq<char>, Seq<char>>,
)
    decreases i.auths.len() - i.index,
{
    if i.index < 0 || i.index >= i.auths.len() {
        (
            IssueNextView::Continue(
                IssuanceView { stage: IssueStage::PollOrder, tries: 0, ..i },
            ),
            store,
        )
    } else if i.auths[i.index].valid {
        next_challenge(IssuanceView { index: i.index + 1, ..i }, store)
    } else {
        match i.auths[i.index].http {
            None => (IssueNextView::Failed("no HTTP-01 challenge found"@), store),
            Some(c) => (
                IssueNextView::Continue(
                    IssuanceView { stage: IssueStage::SetReady, tokens: i.tokens.push(c.token), ..i },
                ),
                store.insert(c.token, c.key_auth),
            ),
        }
    }
}

/// What the state of an order means while it waits for the challenges: the challenges
/// are forgotten as soon as it is decided or given up.
pub open spec fn order_polled(
    i: IssuanceView,
    store: Map<Seq<char>, Seq<char>>,
    status: OrderStatus,
) -> (IssueNextView, Map<Seq<char>, Seq<char>>) {
    match status {
        OrderStatus::Ready | OrderStatus::Valid => (
            at(i, IssueStage::MakeRequest),
            cleared(store, i.tokens),
        ),
        OrderStatus::Invalid => (
            IssueNextView::Failed("ACME order became invalid"@),
            cleared(store, i.tokens),
        ),
        OrderStatus::Pending => if i.tries + 1 >= ORDER_POLLS {
            (
                IssueNextView::Failed("ACME order timed out (still pending)"@),
                cleared(store, i.tokens),
            )
        } else {
            (IssueNextView::Continue(IssuanceView { tries: i.tries + 1, ..i }), store)
        },
        OrderStatus::Processing => if i.tries + 1 >= ORDER_POLLS {
            (
                IssueNextView::Failed("ACME order timed out (processing)"@),
                cleared(store, i.tokens),
            )
        } else {
            (IssueNextView::Continue(IssuanceView { tries: i.tries + 1, ..i }), store)
        },
    }
}

/// What the state of an order means once the request was sent.
pub open spec fn cert_polled(i: IssuanceView, status: OrderStatus) -> IssueNextView {
    match status {
        OrderStatus::Valid => at(i, IssueStage::Download),
        OrderStatus::Invalid => IssueNextView::Failed("order became invalid after finalize"@),
        _ => if i.tries + 1 >= CERT_POLLS {
            IssueNextView::Failed("timed out waiting for certificate"@)
        } else {
            IssueNextView::Continue(IssuanceView { tries: i.tries + 1, ..i })
        },
    }
}

/// Where a step that is done leads.
pub open spec fn step_done(i: IssuanceView, store: Map<Seq<char>, Seq<char>>) -> (
    IssueNextView,
    Map<Seq<char>, Seq<char>>,
) {
    match i.stage {
        IssueStage::ReadAccount => (at(i, IssueStage::ParseAccount), store),
        IssueStage::ParseAccount => (at(i, IssueStage::LoadAccount), store),
        IssueStage::LoadAccount => (at(i, IssueStage::NewOrder), store),
        IssueStage::CreateAccount => (at(i, IssueStage::CreateCertsDir), store),
        IssueStage::CreateCertsDir => (at(i, IssueStage::SerializeAccount), store),
        IssueStage::SerializeAccount => (at(i, IssueStage::SaveAccount), store),
        IssueStage::SaveAccount => (at(i, IssueStage::NewOrder), store),
        IssueStage::SetReady => next_challenge(IssuanceView { index: i.index + 1, ..i }, store),
        IssueStage::MakeRequest => (at(i, IssueStage::Finalize), store),
        IssueStage::Finalize => (
            IssueNextView::Continue(IssuanceView { stage: IssueStage::PollCert, tries: 0, ..i }),
            store,
        ),
        IssueStage::CreateDir => (at(i, IssueStage::WriteCert), store),
        IssueStage::WriteCert => (at(i, IssueStage::WriteKey), store),
        IssueStage::WriteKey => (at(i, IssueStage::Install), store),
        IssueStage::Install => (IssueNextView::Finished, store),
        _ => (IssueNextView::Continue(i), store),
    }
}

/// What an event makes of a certificate on its way and of the challenges that are
/// kept. Events that mean nothing to the present stage change nothing.
pub open spec fn issue_next(
    i: IssuanceView,
    store: Map<Seq<char>, Seq<char>>,
    event: IssueEventView,
) -> (IssueNextView, Map<Seq<char>, Seq<char>>) {
    match event {
        IssueEventView::Failed(e) => (IssueNextView::Failed(failure_text(i.stage, e)), store),
        IssueEventView::Done => step_done(i, store),
        IssueEventView::Status(s) => if i.stage == IssueStage::NewOrder {
            if s == OrderStatus::Invalid {
                (IssueNextView::Failed("ACME order is invalid"@), store)
            } else {
                (at(i, IssueStage::Authorize), store)
            }
        } else if i.stage == IssueStage::PollOrder {
            order_polled(i, store, s)
        } else if i.stage == IssueStage::PollCert {
            (cert_polled(i, s), store)
        } else {
            (IssueNextView::Continue(i), store)
        },
        IssueEventView::Authorizations(v) => if i.stage == IssueStage::Authorize {
            next_challenge(IssuanceView { auths: v, index: 0, ..i }, store)
        } else {
            (IssueNextView::Continue(i), store)
        },
        IssueEventView::Downloaded(there) => if i.stage == IssueStage::Download {
            if there {
                (at(i, IssueStage::CreateDir), store)
            } else {
                (IssueNextView::Failed("no certificate returned"@), store)
            }
        } else {
            (IssueNextView::Continue(i), store)
        },
    }
}

impl IssuanceView {
    /// The authorizations and the number of tries are within their bounds.
    pub open spec fn valid(self) -> bool {
        &&& 0 <= self.index <= self.auths.len()
        &&& 0 <= self.tries < ORDER_POLLS
        &&& self.stage == IssueStage::SetReady ==> self.index < self.auths.len()
    }
}

/// How a host gets its certificate.
#[derive(Debug, PartialEq, Eq)]
pub enum IssueStart {
    /// The one that is there is loaded, and nothing is ordered.
    Load,
    /// A new one is ordered.
    Order(Issuance),
}

/// The issuance at its beginning.
pub open spec fn begun(email: Seq<char>, hostname: Seq<char>, account_exists: bool) -> IssuanceView {
    IssuanceView {
        email,
        hostname,
        stage: if account_exists {
            IssueStage::ReadAccount
        } else {
            IssueStage::CreateAccount
        },
        auths: Seq::empty(),
        index: 0,
        tokens: Seq::empty(),
        tries: 0,
    }
}

/// How a host gets its certificate, given when the one that is there ends; `end` is missing
/// where there is none.
pub fn choose_issue(
    email: &str,
    hostname: &str,
    end: Option<(i32, i32)>,
    account_exists: bool,
    now: i64,
) -> (r: IssueStart)
    ensures
        match r {
            IssueStart::Load => fresh(end, now as int),
            IssueStart::Order(i) => !fresh(end, now as int) && i@.valid() && i@ == begun(
                email@,
                hostname@,
                account_exists,
            ),
        },
{
    if is_fresh(end, now) {
        IssueStart::Load
    } else {
        IssueStart::Order(begin_issue(email, hostname, account_exists))
    }
}

/// What a file holds.
pub open spec fn held(f: Option<Vec<u8>>) -> Option<Seq<u8>> {
    match f {
        Some(c) => Some(c@),
        None => None,
    }
}

/// Whether the certificate in a file may be said to end then: none where the file or its key
/// is missing or the file is refused, and never at another time than the file's certificate
/// does.
pub open spec fn ends_at(
    cert: Option<Seq<u8>>,
    key_exists: bool,
    end: Option<(i32, i32)>,
) -> bool {
    end matches Some(e) ==> key_exists && (cert matches Some(c) && cert_refusal(c) is None && e
        == pem_end(c))
}

/// How a host gets its certificate: the one in its file is loaded, and nothing ordered,
/// exactly where it need not be renewed yet. `cert` is what the file holds, and missing where
/// it cannot be read; `key_exists` tells whether its key is there.
pub fn start_issue(
    email: &str,
    hostname: &str,
    cert: &Option<Vec<u8>>,
    key_exists: bool,
    account_exists: bool,
    now: i64,
) -> (r: IssueStart)
    ensures
        exists|end: Option<(i32, i32)>| #[trigger]
            ends_at(held(*cert), key_exists, end) && match r {
                IssueStart::Load => fresh(end, now as int),
                IssueStart::Order(i) => !fresh(end, now as int) && i@.valid() && i@ == begun(
                    email@,
                    hostname@,
                    account_exists,
                ),
            },
{
    let end = match cert {
        Some(c) => if key_exists {
            cert_end(c)
        } else {
            None
        },
        None => None,
    };
    assert(ends_at(held(*cert), key_exists, end));
    choose_issue(email, hostname, end, account_exists, now)
}

/// Begins to get a certificate: with the account in the file, or with a new one.
pub fn begin_issue(email: &str, hostname: &str, account_exists: bool) -> (r: Issuance)
    ensures
        r@.valid(),
        r@ == begun(email@, hostname@, account_exists),
{
    let stage = if account_exists {
        IssueStage::ReadAccount
    } else {
        IssueStage::CreateAccount
    };
    let r = Issuance {
        email: email.to_string(),
        hostname: hostname.to_string(),
        stage,
        auths: Vec::new(),
        index: 0,
        tokens: Vec::new(),
        tries: 0,
    };
    assert(r@.auths =~= Seq::empty());
    assert(r@.tokens =~= Seq::empty());
    r
}

/// How the owner of the account is reached.
pub fn account_contact(email: &str) -> (r: String)
    ensures
        r@ == "mailto:"@ + email@,
{
    cat2("mailto:", email)
}

fn step_failure(stage: IssueStage, e: &str) -> (r: String)
    ensures
        r@ == failure_text(stage, e@),
{
    match stage {
        IssueStage::ReadAccount => cat2("failed to read account: ", e),
        IssueStage::ParseAccount => cat2("failed to parse account: ", e),
        IssueStage::LoadAccount => cat2("failed to load account: ", e),
        IssueStage::CreateAccount => cat2("failed to create ACME account: ", e),
        IssueStage::CreateCertsDir => cat2("failed to create certs dir: ", e),
        IssueStage::SerializeAccount => cat2("serialize error: ", e),
        IssueStage::SaveAccount => cat2("failed to save account: ", e),
        IssueStage::NewOrder => cat2("failed to create order: ", e),
        IssueStage::Authorize => cat2("failed to get authorizations: ", e),
        IssueStage::SetReady => cat2("failed to set challenge ready: ", e),
        IssueStage::PollOrder => cat2("failed to refresh order: ", e),
        IssueStage::MakeRequest => e.to_string(),
        IssueStage::Finalize => cat2("failed to finalize order: ", e),
        IssueStage::PollCert => cat2("failed to refresh order: ", e),
        IssueStage::Download => cat2("failed to download cert: ", e),
        IssueStage::CreateDir => cat2("failed to create cert dir: ", e),
        IssueStage::WriteCert => cat2("failed to write cert: ", e),
        IssueStage::WriteKey => cat2("failed to write key: ", e),
        IssueStage::Install => e.to_string(),
    }
}

/// Forgets the answers to the listed tokens.
fn clear_tokens(store: &mut ChallengeStore, tokens: &Vec<String>)
    requires
        old(store).valid(),
    ensures
        final(store).valid(),
        final(store)@ == cleared(old(store)@, texts(tokens@)),
{
    let ghost before = store@;
    let ghost all = texts(tokens@);
    let mut i: usize = 0;
    assert(all.take(0) =~= Seq::empty());
    while i < tokens.len()
        invariant
            i <= tokens@.len(),
            all == texts(tokens@),
            store.valid(),
            store@ == cleared(before, all.take(i as int)),
        decreases tokens@.len() - i,
    {
        proof {
            assert(all.take(i + 1).drop_last() =~= all.take(i as int));
            assert(all.take(i + 1).last() == tokens@[i as int]@);
        }
        store.remove(tokens[i].as_str());
        i += 1;
    }
    assert(all.take(i as int) =~= all);
}

/// The next authorization that has not been shown.
fn show_next(issuance: Issuance, store: &mut ChallengeStore) -> (r: IssueNext)
    requires
        old(store).valid(),
        issuance.index <= issuance.auths@.len(),
        issuance.tries < ORDER_POLLS,
    ensures
        final(store).valid(),
        (r@, final(store)@) == next_challenge(issuance@, old(store)@),
        r matches IssueNext::Continue(i) ==> i@.valid(),
{
    let mut p = issuance;
    while p.index < p.auths.len() && p.auths[p.index].valid
        invariant
            store.valid(),
            store@ == old(store)@,
            p.index <= p.auths@.len(),
            p.tries < ORDER_POLLS,
            next_challenge(p@, store@) == next_challenge(issuance@, store@),
        decreases p.auths@.len() - p.index,
    {
        let ghost was = p@;
        assert(was.auths[was.index] == p.auths@[p.index as int]@);
        p.index = p.index + 1;
        assert(p@ == (IssuanceView { index: was.index + 1, ..was }));
    }
    let ghost q = p@;
    if p.index < p.auths.len() {
        assert(q.auths[q.index] == p.auths@[p.index as int]@);
        match &p.auths[p.index].http {
            None => IssueNext::Failed("no HTTP-01 challenge found".to_string()),
            Some(c) => {
                let token = c.token.clone();
                let key_auth = c.key_auth.clone();
                let ghost t = token@;
                store.set(token.clone(), key_auth);
                let ghost was = texts(p.tokens@);
                p.tokens.push(token);
                assert(texts(p.tokens@) =~= was.push(t));
                p.stage = IssueStage::SetReady;
                IssueNext::Continue(p)
            },
        }
    } else {
        p.stage = IssueStage::PollOrder;
        p.tries = 0;
        IssueNext::Continue(p)
    }
}

/// What the state of an order means while it waits for the challenges.
fn poll_order(issuance: Issuance, store: &mut ChallengeStore, status: OrderStatus) -> (r: IssueNext)
    requires
        old(store).valid(),
        issuance@.valid(),
        issuance.stage == IssueStage::PollOrder,
    ensures
        final(store).valid(),
        (r@, final(store)@) == order_polled(issuance@, old(store)@, status),
        r matches IssueNext::Continue(i) ==> i@.valid(),
{
    let mut p = issuance;
    match status {
        OrderStatus::Ready | OrderStatus::Valid => {
            clear_tokens(store, &p.tokens);
            p.stage = IssueStage::MakeRequest;
            IssueNext::Continue(p)
        },
        OrderStatus::Invalid => {
            clear_tokens(store, &p.tokens);
            IssueNext::Failed("ACME order became invalid".to_string())
        },
        OrderStatus::Pending => {
            if p.tries + 1 >= ORDER_POLLS {
                clear_tokens(store, &p.tokens);
                return IssueNext::Failed("ACME order timed out (still pending)".to_string());
            }
            p.tries = p.tries + 1;
            IssueNext::Continue(p)
        },
        OrderStatus::Processing => {
            if p.tries + 1 >= ORDER_POLLS {
                clear_tokens(store, &p.tokens);
                return IssueNext::Failed("ACME order timed out (processing)".to_string());
            }
            p.tries = p.tries + 1;
            IssueNext::Continue(p)
        },
    }
}

/// Where a step that is done leads.
fn finish_step(issuance: Issuance, store: &mut ChallengeStore) -> (r: IssueNext)
    requires
        old(store).valid(),
        issuance@.valid(),
    ensures
        final(store).valid(),
        (r@, final(store)@) == step_done(issuance@, old(store)@),
        r matches IssueNext::Continue(i) ==> i@.valid(),
{
    let mut p = issuance;
    match p.stage {
        IssueStage::ReadAccount => {
            p.stage = IssueStage::ParseAccount;
        },
        IssueStage::ParseAccount => {
            p.stage = IssueStage::LoadAccount;
        },
        IssueStage::LoadAccount => {
            p.stage = IssueStage::NewOrder;
        },
        IssueStage::CreateAccount => {
            p.stage = IssueStage::CreateCertsDir;
        },
        IssueStage::CreateCertsDir => {
            p.stage = IssueStage::SerializeAccount;
        },
        IssueStage::SerializeAccount => {
            p.stage = IssueStage::SaveAccount;
        },
        IssueStage::SaveAccount => {
            p.stage = IssueStage::NewOrder;
        },
        IssueStage::SetReady => {
            let count = p.auths.len();
            assert(p@.auths.len() == count);
            p.index = p.index + 1;
            return show_next(p, store);
        },
        IssueStage::MakeRequest => {
            p.stage = IssueStage::Finalize;
        },
        IssueStage::Finalize => {
            p.stage = IssueStage::PollCert;
            p.tries = 0;
        },
        IssueStage::CreateDir => {
            p.stage = IssueStage::WriteCert;
        },
        IssueStage::WriteCert => {
            p.stage = IssueStage::WriteKey;
        },
        IssueStage::WriteKey => {
            p.stage = IssueStage::Install;
        },
        IssueStage::Install => {
            return IssueNext::Finished;
        },
        _ => {},
    }
    IssueNext::Continue(p)
}

/// What an event makes of a certificate on its way and of the challenges that are kept.
pub fn issue_cert(issuance: Issuance, store: &mut ChallengeStore, event: IssueEvent) -> (r:
    IssueNext)
    requires
        old(store).valid(),
        issuance@.valid(),
    ensures
        final(store).valid(),
        (r@, final(store)@) == issue_next(issuance@, old(store)@, event@),
        r matches IssueNext::Continue(i) ==> i@.valid(),
{
    match event {
        IssueEvent::Failed(e) => IssueNext::Failed(step_failure(issuance.stage, e.as_str())),
        IssueEvent::Done => finish_step(issuance, store),
        IssueEvent::Status(s) => match issuance.stage {
            IssueStage::NewOrder => {
                if s == OrderStatus::Invalid {
                    return IssueNext::Failed("ACME order is invalid".to_string());
                }
                let mut p = issuance;
                p.stage = IssueStage::Authorize;
                IssueNext::Continue(p)
            },
            IssueStage::PollOrder => poll_order(issuance, store, s),
            IssueStage::PollCert => {
                let mut p = issuance;
                match s {
                    OrderStatus::Valid => {
                        p.stage = IssueStage::Download;
                        IssueNext::Continue(p)
                    },
                    OrderStatus::Invalid => IssueNext::Failed(
                        "order became invalid after finalize".to_string(),
                    ),
                    _ => {
                        if p.tries + 1 >= CERT_POLLS {
                            return IssueNext::Failed(
                                "timed out waiting for certificate".to_string(),
                            );
                        }
                        p.tries = p.tries + 1;
                        IssueNext::Continue(p)
                    },
                }
            },
            _ => IssueNext::Continue(issuance),
        },
        IssueEvent::Authorizations(v) => match issuance.stage {
            IssueStage::Authorize => {
                let mut p = issuance;
                p.auths = v;
                p.index = 0;
                show_next(p, store)
            },
            _ => IssueNext::Continue(issuance),
        },
        IssueEvent::Downloaded(there) => match issuance.stage {
            IssueStage::Download => {
                if there {
                    let mut p = issuance;
                    p.stage = IssueStage::CreateDir;
                    IssueNext::Continue(p)
                } else {
                    IssueNext::Failed("no certificate returned".to_string())
                }
            },
            _ => IssueNext::Continue(issuance),
        },
    }
}

// ---------------------------------------------------------------------------
// Laws of an order
// ---------------------------------------------------------------------------

proof fn lemma_cleared(store: Map<Seq<char>, Seq<char>>, tokens: Seq<Seq<char>>, t: Seq<char>)
    ensures
        cleared(store, tokens).contains_key(t) <==> store.contains_key(t) && !tokens.contains(t),
        cleared(store, tokens).contains_key(t) ==> cleared(store, tokens)[t] == store[t],
    decreases tokens.len(),
{
    if tokens.len() > 0 {
        let front = tokens.drop_last();
        lemma_cleared(store, front, t);
        assert(tokens.contains(t) <==> front.contains(t) || tokens.last() == t) by {
            if tokens.contains(t) {
                let i = choose|i: int| 0 <= i < tokens.len() && tokens[i] == t;
                if i < front.len() {
                    assert(front[i] == t);
                }
            }
            if front.contains(t) {
                let i = choose|i: int| 0 <= i < front.len() && front[i] == t;
                assert(tokens[i] == t);
            }
            assert(tokens[tokens.len() - 1] == tokens.last());
        }
    }
}

/// As soon as an order is decided or given up, no challenge that was kept for it is
/// answered any more, and all others are; until then nothing is forgotten.
pub proof fn law_challenges_cleared(
    i: IssuanceView,
    store: Map<Seq<char>, Seq<char>>,
    status: OrderStatus,
)
    requires
        i.stage == IssueStage::PollOrder,
    ensures
        ({
            let (next, after) = issue_next(i, store, IssueEventView::Status(status));
            let waits = next matches IssueNextView::Continue(n) && n.stage == IssueStage::PollOrder;
            &&& waits ==> after == store
            &&& !waits ==> forall|t: Seq<char>| #[trigger]
                after.contains_key(t) <==> store.contains_key(t) && !i.tokens.contains(t)
            &&& !waits ==> forall|t: Seq<char>| #[trigger]
                after.contains_key(t) ==> after[t] == store[t]
        }),
{
    let after = cleared(store, i.tokens);
    assert forall|t: Seq<char>| true implies (#[trigger] after.contains_key(t)
        <==> store.contains_key(t) && !i.tokens.contains(t)) && (after.contains_key(t) ==> after[t]
        == store[t]) by {
        lemma_cleared(store, i.tokens, t);
    }
}

/// The authority is asked a bounded number of times: each answer that decides nothing
/// counts, and the last one ends the matter.
pub proof fn law_polls_bounded(
    i: IssuanceView,
    store: Map<Seq<char>, Seq<char>>,
    status: OrderStatus,
)
    requires
        i.valid(),
        i.stage == IssueStage::PollOrder || i.stage == IssueStage::PollCert,
    ensures
        ({
            let (next, _) = issue_next(i, store, IssueEventView::Status(status));
            let limit: int = if i.stage == IssueStage::PollOrder {
                ORDER_POLLS as int
            } else {
                CERT_POLLS as int
            };
            &&& next matches IssueNextView::Continue(n) ==> n.stage == i.stage ==> n.tries
                == i.tries + 1 && n.tries < limit
            &&& i.tries + 1 >= limit ==> (next matches IssueNextView::Continue(n) ==> n.stage
                != i.stage)
        }),
{
}

/// When the authority is told that a challenge is answered, its token is kept together
/// with the answer that the authority expects.
pub proof fn law_challenge_answered(i: IssuanceView, store: Map<Seq<char>, Seq<char>>)
    requires
        0 <= i.index,
    ensures
        next_challenge(i, store).0 matches IssueNextView::Continue(n) ==> n.stage
            == IssueStage::SetReady ==> {
            &&& 0 <= n.index < n.auths.len() && !n.auths[n.index].valid
            &&& n.auths[n.index].http matches Some(c) && n.tokens == i.tokens.push(c.token)
                && next_challenge(i, store).1 == store.insert(c.token, c.key_auth)
        },
    decreases i.auths.len() - i.index,
{
    if i.index < i.auths.len() && i.auths[i.index].valid {
        law_challenge_answered(IssuanceView { index: i.index + 1, ..i }, store);
    }
}

// ---------------------------------------------------------------------------
// Hosts whose certificates are renewed
// ---------------------------------------------------------------------------

/// The contents of a list of hosts and addresses.
pub open spec fn host_list(v: Seq<(String, String)>) -> Seq<(Seq<char>, Seq<char>)> {
    v.map_values(|p: (String, String)| (p.0@, p.1@))
}

/// Whether a host is on the list.
pub open spec fn listed(v: Seq<(Seq<char>, Seq<char>)>, hostname: Seq<char>) -> bool {
    exists|i: int| 0 <= i < v.len() && (#[trigger] v[i]).0 == hostname
}

/// The list with a host; one that is on it already stays as it is.
pub open spec fn with_host(
    v: Seq<(Seq<char>, Seq<char>)>,
    hostname: Seq<char>,
    email: Seq<char>,
) -> Seq<(Seq<char>, Seq<char>)> {
    if listed(v, hostname) {
        v
    } else {
        v.push((hostname, email))
    }
}

/// Puts a host on the list of those whose certificates are renewed.
pub fn register_acme(configs: &mut Vec<(String, String)>, hostname: &str, email: &str)
    ensures
        host_list(final(configs)@) == with_host(host_list(old(configs)@), hostname@, email@),
{
    let ghost all = host_list(configs@);
    let mut i: usize = 0;
    while i < configs.len()
        invariant
            i <= configs@.len(),
            all == host_list(configs@),
            host_list(configs@) == host_list(old(configs)@),
            forall|j: int| 0 <= j < i ==> (#[trigger] all[j]).0 != hostname@,
        decreases configs@.len() - i,
    {
        assert(all[i as int].0 == configs@[i as int].0@);
        if same(configs[i].0.as_str(), hostname) {
            return;
        }
        i += 1;
    }
    configs.push((hostname.to_string(), email.to_string()));
    assert(host_list(configs@) =~= all.push((hostname@, email@)));
}

/// A host is put on the list once: a second time changes nothing.
pub proof fn law_registered_once(
    v: Seq<(Seq<char>, Seq<char>)>,
    hostname: Seq<char>,
    email: Seq<char>,
    other: Seq<char>,
)
    ensures
        listed(with_host(v, hostname, email), hostname),
        with_host(with_host(v, hostname, email), hostname, other) == with_host(v, hostname, email),
{
    let w = with_host(v, hostname, email);
    if !listed(v, hostname) {
        assert(w[v.len() as int].0 == hostname);
    }
}

// ---------------------------------------------------------------------------
// The way of a certificate
// ---------------------------------------------------------------------------

/// A certificate is renewed once it is valid for no more than thirty days, or is not there.
pub proof fn law_renewal(days: i32, secs: i32, now: int)
    ensures
        fresh(Some((days, secs)), now) <==> days * 86400 + secs - now > 2592000,
        !fresh(None, now),
{
}

/// An issuance starts with the account: it is read where there is one, and else created.
pub proof fn law_begun(email: Seq<char>, hostname: Seq<char>)
    ensures
        begun(email, hostname, true).stage == IssueStage::ReadAccount,
        begun(email, hostname, false).stage == IssueStage::CreateAccount,
        forall|b: bool|
            ({
                let i = #[trigger] begun(email, hostname, b);
                i.email == email && i.hostname == hostname && i.tokens.len() == 0 && i.auths.len()
                    == 0 && i.index == 0 && i.tries == 0
            }),
{
}

/// Where a certificate, its key and the account are kept.
pub proof fn law_cert_paths(hostname: Seq<char>)
    requires
        hostname.len() > 0,
        hostname[0] != '/',
        hostname.last() != '/',
    ensures
        cert_dir_of(hostname) == "/var/run/nyrun/certs/"@ + hostname,
        joined(cert_dir_of(hostname), "cert.pem"@) == "/var/run/nyrun/certs/"@ + hostname
            + "/cert.pem"@,
        joined(cert_dir_of(hostname), "key.pem"@) == "/var/run/nyrun/certs/"@ + hostname
            + "/key.pem"@,
        joined(CERTS_DIR@, "account.json"@) == "/var/run/nyrun/certs/account.json"@,
{
    reveal_strlit("/var/run/nyrun/certs");
    reveal_strlit("/var/run/nyrun/certs/");
    reveal_strlit("cert.pem");
    reveal_strlit("/cert.pem");
    reveal_strlit("key.pem");
    reveal_strlit("/key.pem");
    reveal_strlit("account.json");
    reveal_strlit("/var/run/nyrun/certs/account.json");
    let d = cert_dir_of(hostname);
    assert(d =~= "/var/run/nyrun/certs/"@ + hostname);
    assert(d.last() == hostname.last());
    assert(joined(d, "cert.pem"@) =~= d + "/cert.pem"@);
    assert(joined(d, "key.pem"@) =~= d + "/key.pem"@);
    assert(joined(CERTS_DIR@, "account.json"@) =~= "/var/run/nyrun/certs/account.json"@);
}

/// The steps of an issuance that was done: from the account to the order, and from the request
/// over the directory and the two files to the installed certificate.
pub proof fn law_issue_steps(i: IssuanceView, store: Map<Seq<char>, Seq<char>>)
    ensures
        ({
            let (next, after) = issue_next(i, store, IssueEventView::Done);
            let to = |stage: IssueStage| IssueNextView::Continue(IssuanceView { stage, ..i });
            &&& i.stage == IssueStage::ReadAccount ==> next == to(IssueStage::ParseAccount)
            &&& i.stage == IssueStage::ParseAccount ==> next == to(IssueStage::LoadAccount)
            &&& i.stage == IssueStage::LoadAccount ==> next == to(IssueStage::NewOrder)
            &&& i.stage == IssueStage::CreateAccount ==> next == to(IssueStage::CreateCertsDir)
            &&& i.stage == IssueStage::CreateCertsDir ==> next == to(IssueStage::SerializeAccount)
            &&& i.stage == IssueStage::SerializeAccount ==> next == to(IssueStage::SaveAccount)
            &&& i.stage == IssueStage::SaveAccount ==> next == to(IssueStage::NewOrder)
            &&& i.stage == IssueStage::MakeRequest ==> next == to(IssueStage::Finalize)
            &&& i.stage == IssueStage::Finalize ==> next == IssueNextView::Continue(
                IssuanceView { stage: IssueStage::PollCert, tries: 0, ..i },
            )
            &&& i.stage == IssueStage::CreateDir ==> next == to(IssueStage::WriteCert)
            &&& i.stage == IssueStage::WriteCert ==> next == to(IssueStage::WriteKey)
            &&& i.stage == IssueStage::WriteKey ==> next == to(IssueStage::Install)
            &&& i.stage == IssueStage::Install <==> next is Finished
            &&& i.stage != IssueStage::SetReady ==> after == store
        }),
{
    if i.stage == IssueStage::SetReady {
        lemma_never_finished(IssuanceView { index: i.index + 1, ..i }, store);
    }
}

proof fn lemma_never_finished(i: IssuanceView, store: Map<Seq<char>, Seq<char>>)
    ensures
        next_challenge(i, store).0 !is Finished,
    decreases i.auths.len() - i.index,
{
    if !(i.index < 0 || i.index >= i.auths.len()) && i.auths[i.index].valid {
        lemma_never_finished(IssuanceView { index: i.index + 1, ..i }, store);
    }
}

/// What the state of an order brings: an invalid one ends the issuance; a new one is authorized;
/// one that is ready or valid goes on to the request; a certificate is fetched once its order is
/// valid, and without one the issuance ends.
pub proof fn law_order_states(i: IssuanceView, store: Map<Seq<char>, Seq<char>>, s: OrderStatus)
    ensures
        ({
            let next = issue_next(i, store, IssueEventView::Status(s)).0;
            let to = |stage: IssueStage| IssueNextView::Continue(IssuanceView { stage, ..i });
            &&& i.stage == IssueStage::NewOrder && s == OrderStatus::Invalid ==> next
                == IssueNextView::Failed("ACME order is invalid"@)
            &&& i.stage == IssueStage::NewOrder && s != OrderStatus::Invalid ==> next == to(
                IssueStage::Authorize,
            )
            &&& i.stage == IssueStage::PollOrder && (s == OrderStatus::Ready || s
                == OrderStatus::Valid) ==> next == to(IssueStage::MakeRequest)
            &&& i.stage == IssueStage::PollOrder && s == OrderStatus::Invalid ==> next
                == IssueNextView::Failed("ACME order became invalid"@)
            &&& i.stage == IssueStage::PollOrder && s == OrderStatus::Pending ==> next == if i.tries
                + 1 >= 20 {
                IssueNextView::Failed("ACME order timed out (still pending)"@)
            } else {
                IssueNextView::Continue(IssuanceView { tries: i.tries + 1, ..i })
            }
            &&& i.stage == IssueStage::PollOrder && s == OrderStatus::Processing ==> next
                == if i.tries + 1 >= 20 {
                IssueNextView::Failed("ACME order timed out (processing)"@)
            } else {
                IssueNextView::Continue(IssuanceView { tries: i.tries + 1, ..i })
            }
            &&& i.stage == IssueStage::PollCert && s == OrderStatus::Valid ==> next == to(
                IssueStage::Download,
            )
            &&& i.stage == IssueStage::PollCert && s == OrderStatus::Invalid ==> next
                == IssueNextView::Failed("order became invalid after finalize"@)
            &&& i.stage == IssueStage::PollCert && s != OrderStatus::Valid && s
                != OrderStatus::Invalid ==> next == if i.tries + 1 >= 10 {
                IssueNextView::Failed("timed out waiting for certificate"@)
            } else {
                IssueNextView::Continue(IssuanceView { tries: i.tries + 1, ..i })
            }
        }),
        i.stage == IssueStage::Download ==> issue_next(i, store, IssueEventView::Downloaded(true))
            == (
            IssueNextView::Continue(IssuanceView { stage: IssueStage::CreateDir, ..i }),
            store,
        ) && issue_next(i, store, IssueEventView::Downloaded(false)) == (
            IssueNextView::Failed("no certificate returned"@),
            store,
        ),
{
}

/// Each authorization that is not valid yet is answered in its order: those that are valid are
/// passed over, one without a challenge over HTTP ends the issuance, and after the last one the
/// order is asked for.
pub proof fn law_challenges_in_order(
    i: IssuanceView,
    store: Map<Seq<char>, Seq<char>>,
    valid: Seq<AuthorizationView>,
    a: AuthorizationView,
    rest: Seq<AuthorizationView>,
)
    requires
        forall|k: int| 0 <= k < valid.len() ==> (#[trigger] valid[k]).valid,
        !a.valid,
    ensures
        i.stage == IssueStage::Authorize ==> ({
            let v = valid.push(a) + rest;
            let (next, after) = issue_next(i, store, IssueEventView::Authorizations(v));
            &&& a.http is None ==> next == IssueNextView::Failed("no HTTP-01 challenge found"@)
                && after == store
            &&& a.http matches Some(c) ==> next == IssueNextView::Continue(
                IssuanceView {
                    stage: IssueStage::SetReady,
                    auths: v,
                    index: valid.len() as int,
                    tokens: i.tokens.push(c.token),
                    ..i
                },
            ) && after == store.insert(c.token, c.key_auth)
        }),
        i.stage == IssueStage::Authorize ==> issue_next(
            i,
            store,
            IssueEventView::Authorizations(valid),
        ) == (
            IssueNextView::Continue(
                IssuanceView {
                    stage: IssueStage::PollOrder,
                    auths: valid,
                    index: valid.len() as int,
                    tries: 0,
                    ..i
                },
            ),
            store,
        ),
        i.stage == IssueStage::SetReady ==> issue_next(i, store, IssueEventView::Done)
            == next_challenge(IssuanceView { index: i.index + 1, ..i }, store),
{
    let v = valid.push(a) + rest;
    assert(v[valid.len() as int] == a);
    assert forall|k: int| 0 <= k < valid.len() implies (#[trigger] v[k]).valid by {
        assert(v[k] == valid[k]);
    }
    lemma_valid_passed(IssuanceView { auths: v, index: 0, ..i }, store, valid.len() as int);
    lemma_valid_passed(IssuanceView { auths: valid, index: 0, ..i }, store, valid.len() as int);
}

/// Authorizations that are valid are passed over.
proof fn lemma_valid_passed(i: IssuanceView, store: Map<Seq<char>, Seq<char>>, n: int)
    requires
        0 <= i.index <= n <= i.auths.len(),
        forall|k: int| i.index <= k < n ==> (#[trigger] i.auths[k]).valid,
    ensures
        next_challenge(i, store) == next_challenge(IssuanceView { index: n, ..i }, store),
    decreases n - i.index,
{
    if i.index < n {
        assert(i.auths[i.index].valid);
        lemma_valid_passed(IssuanceView { index: i.index + 1, ..i }, store, n);
    }
}

/// A step that fails ends the issuance and says what failed; the answers to challenges stay.
pub proof fn law_issue_failures(i: IssuanceView, store: Map<Seq<char>, Seq<char>>, e: Seq<char>)
    ensures
        issue_next(i, store, IssueEventView::Failed(e)) == (
            IssueNextView::Failed(
                match i.stage {
                    IssueStage::ReadAccount => "failed to read account: "@ + e,
                    IssueStage::ParseAccount => "failed to parse account: "@ + e,
                    IssueStage::LoadAccount => "failed to load account: "@ + e,
                    IssueStage::CreateAccount => "failed to create ACME account: "@ + e,
                    IssueStage::CreateCertsDir => "failed to create certs dir: "@ + e,
                    IssueStage::SerializeAccount => "serialize error: "@ + e,
                    IssueStage::SaveAccount => "failed to save account: "@ + e,
                    IssueStage::NewOrder => "failed to create order: "@ + e,
                    IssueStage::Authorize => "failed to get authorizations: "@ + e,
                    IssueStage::SetReady => "failed to set challenge ready: "@ + e,
                    IssueStage::PollOrder => "failed to refresh order: "@ + e,
                    IssueStage::MakeRequest => e,
                    IssueStage::Finalize => "failed to finalize order: "@ + e,
                    IssueStage::PollCert => "failed to refresh order: "@ + e,
                    IssueStage::Download => "failed to download cert: "@ + e,
                    IssueStage::CreateDir => "failed to create cert dir: "@ + e,
                    IssueStage::WriteCert => "failed to write cert: "@ + e,
                    IssueStage::WriteKey => "failed to write key: "@ + e,
                    IssueStage::Install => e,
                },
            ),
            store,
        ),
{
}

/// A new host is kept with its address behind those that are there, which all stay.
pub proof fn law_hosts_kept(
    v: Seq<(Seq<char>, Seq<char>)>,
    hostname: Seq<char>,
    email: Seq<char>,
)
    ensures
        (forall|i: int| 0 <= i < v.len() ==> (#[trigger] v[i]).0 != hostname) ==> with_host(
            v,
            hostname,
            email,
        ) == v.push((hostname, email)),
        (exists|i: int| 0 <= i < v.len() && (#[trigger] v[i]).0 == hostname) ==> with_host(
            v,
            hostname,
            email,
        ) == v,
{
}

/// What making a request fails with is told by its stage.
pub proof fn law_request_failures(e: Seq<char>)
    ensures
        request_failure(RequestStage::Key, e) == "failed to generate key: "@ + e,
        request_failure(RequestStage::Params, e) == "failed to create cert params: "@ + e,
        request_failure(RequestStage::Sign, e) == "failed to create CSR: "@ + e,
{
}

/// The end of a certificate is known only where its key is there too, and is then that of the
/// certificate that is kept.
pub proof fn law_known_end(cert: Option<Seq<u8>>, key_exists: bool, end: (i32, i32))
    requires
        ends_at(cert, key_exists, Some(end)),
    ensures
        key_exists,
        cert matches Some(c) && end == pem_end(c),
{
}

} // verus!
