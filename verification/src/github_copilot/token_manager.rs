//! The short-lived Copilot token: how it is obtained, kept and given out.
use vstd::prelude::*;
use vstd::string::*;

use super::credential_store::StoredCredentials;
use super::endpoint::TokenExchangeResponse;
use super::EditorIdentity;
use crate::error::{labelled, ProviderError};
use crate::headers::{add_header, header_texts};
use crate::text::{join_url, without_trailing_slashes};
use crate::upstream::{is_success, Outgoing, Route};

verus! {

/// A token, where to use it, and until when.
#[derive(Clone, Debug, PartialEq)]
pub struct CopilotToken {
    pub token: String,
    pub api_base: String,
    pub expires_at_unix: i64,
}

/// The model of `CopilotToken`.
#[verifier::ext_equal]
pub struct TokenModel {
    pub token: Seq<char>,
    pub api_base: Seq<char>,
    pub expires_at_unix: i64,
}

impl CopilotToken {
    pub open spec fn view(&self) -> TokenModel {
        TokenModel {
            token: self.token@,
            api_base: self.api_base@,
            expires_at_unix: self.expires_at_unix,
        }
    }

    pub fn duplicate(&self) -> (copy: CopilotToken)
        ensures
            copy@ == self@,
    {
        CopilotToken {
            token: self.token.clone(),
            api_base: self.api_base.clone(),
            expires_at_unix: self.expires_at_unix,
        }
    }

    /// The token of an exchange.
    pub fn from_exchange(reply: TokenExchangeResponse) -> (token: CopilotToken)
        ensures
            token@ == (TokenModel {
                token: reply.token@,
                api_base: reply.endpoints.api@,
                expires_at_unix: reply.expires_at,
            }),
    {
        CopilotToken {
            token: reply.token,
            api_base: reply.endpoints.api,
            expires_at_unix: reply.expires_at,
        }
    }
}

// ---------------------------------------------------------------------------
// Credentials
// ---------------------------------------------------------------------------

/// Where the credentials come from: at hand, or from a file when needed.
#[derive(Clone, Debug, PartialEq)]
pub enum CredentialSource<P> {
    Preloaded(StoredCredentials),
    Lazy(P),
}

/// How to get at the credentials.
#[derive(Clone, Debug, PartialEq)]
pub enum CredentialStep<'a, P> {
    Use(StoredCredentials),
    ReadFile(&'a P),
}

impl<P> CredentialSource<P> {
    /// Decides how to get at the credentials.
    pub fn load(&self) -> (step: CredentialStep<'_, P>)
        ensures
            match (*self, step) {
                (CredentialSource::Preloaded(have), CredentialStep::Use(creds)) => {
                    &&& creds.github_oauth_token@ == have.github_oauth_token@
                    &&& creds.created_at_unix == have.created_at_unix
                },
                (CredentialSource::Lazy(have), CredentialStep::ReadFile(path)) => *path == have,
                _ => false,
            },
    {
        match self {
            CredentialSource::Preloaded(creds) => CredentialStep::Use(
                StoredCredentials {
                    github_oauth_token: creds.github_oauth_token.clone(),
                    created_at_unix: creds.created_at_unix,
                },
            ),
            CredentialSource::Lazy(path) => CredentialStep::ReadFile(path),
        }
    }
}

// ---------------------------------------------------------------------------
// Exchange
// ---------------------------------------------------------------------------

/// Plans the request that exchanges credentials for a token.
pub fn plan_exchange(creds: &StoredCredentials, identity: &EditorIdentity, base_url: &str) -> (out:
    Outgoing<()>)
    ensures
        out.route() == (Route {
            url: without_trailing_slashes(base_url@) + "/copilot_internal/v2/token"@,
            bearer: None,
            headers: seq![
                ("authorization"@, "token "@ + creds.github_oauth_token@),
                ("user-agent"@, identity.user_agent@),
                ("editor-version"@, identity.editor_version@),
                ("accept"@, "application/json"@),
            ],
        }),
{
    let mut headers: Vec<(String, String)> = Vec::new();
    assert(header_texts(headers@) =~= seq![]);
    let authorization = labelled("token ", creds.github_oauth_token.as_str());
    add_header(&mut headers, "authorization", authorization.as_str());
    add_header(&mut headers, "user-agent", identity.user_agent.as_str());
    add_header(&mut headers, "editor-version", identity.editor_version.as_str());
    add_header(&mut headers, "accept", "application/json");
    let out = Outgoing {
        url: join_url(base_url, "/copilot_internal/v2/token"),
        bearer: None,
        headers,
        body: (),
    };
    assert(out.route().headers =~= seq![
        ("authorization"@, "token "@ + creds.github_oauth_token@),
        ("user-agent"@, identity.user_agent@),
        ("editor-version"@, identity.editor_version@),
        ("accept"@, "application/json"@),
    ]);
    out
}

/// The error of a reply to an exchange, if its status is one.
pub fn exchange_failure(status: u16, body: String) -> (error: Option<ProviderError>)
    ensures
        match error {
            None => 200 <= status < 300,
            Some(ProviderError::Upstream { status: s, body: text }) => {
                &&& !(200 <= status < 300)
                &&& s == status
                &&& text@ == (if status == 401 {
                    "unauthorized – re-run `copilot login`"@
                } else {
                    body@
                })
            },
            Some(_) => false,
        },
{
    if status == 401 {
        Some(
            ProviderError::Upstream {
                status: 401,
                body: "unauthorized – re-run `copilot login`".to_owned(),
            },
        )
    } else if is_success(status) {
        None
    } else {
        Some(ProviderError::Upstream { status, body })
    }
}

// ---------------------------------------------------------------------------
// Cache
// ---------------------------------------------------------------------------

/// The token that was obtained last, as long as it is of use.
#[derive(Debug)]
pub struct TokenCache {
    cached: Option<CopilotToken>,
}

/// What to do when a token is asked for.
#[derive(Clone, Debug, PartialEq)]
pub enum TokenStep {
    /// Hand out this one.
    Serve(CopilotToken),
    /// Obtain a new one.
    Exchange,
}

/// Whether a token is still good: for more than a minute.
pub open spec fn still_good(token: TokenModel, now: i64) -> bool {
    token.expires_at_unix - now > 60
}

/// Whether a token is served from what is kept.
pub open spec fn serves(held: Option<TokenModel>, now: i64) -> bool {
    match held {
        Some(token) => still_good(token, now),
        None => false,
    }
}

/// The model of an optional token.
pub open spec fn opt_token(token: Option<CopilotToken>) -> Option<TokenModel> {
    match token {
        Some(t) => Some(t@),
        None => None,
    }
}

/// What happens while a token is got: it is asked for, and what was to be done
/// has come to something.
#[derive(Debug, PartialEq)]
pub enum TokenEvent {
    Asked { now: i64 },
    Loaded(Result<StoredCredentials, ProviderError>),
    Exchanged(Result<CopilotToken, ProviderError>),
}

/// What is to be done next.
#[derive(Debug, PartialEq)]
pub enum TokenAction {
    /// Give this answer.
    Reply(Result<CopilotToken, ProviderError>),
    /// Load the credentials.
    Load,
    /// Exchange these credentials for a token.
    Exchange(StoredCredentials),
}

/// The model of `TokenEvent`.
pub enum Happening {
    Asked(i64),
    Loaded,
    NotLoaded,
    Obtained(TokenModel),
    Failed,
}

/// The model of `TokenAction`.
pub enum Act {
    Serve(TokenModel),
    Deny,
    Load,
    Exchange,
}

impl TokenEvent {
    pub open spec fn view(&self) -> Happening {
        match self {
            TokenEvent::Asked { now } => Happening::Asked(*now),
            TokenEvent::Loaded(Ok(_)) => Happening::Loaded,
            TokenEvent::Loaded(Err(_)) => Happening::NotLoaded,
            TokenEvent::Exchanged(Ok(token)) => Happening::Obtained(token@),
            TokenEvent::Exchanged(Err(_)) => Happening::Failed,
        }
    }
}

impl TokenAction {
    pub open spec fn view(&self) -> Act {
        match self {
            TokenAction::Reply(Ok(token)) => Act::Serve(token@),
            TokenAction::Reply(Err(_)) => Act::Deny,
            TokenAction::Load => Act::Load,
            TokenAction::Exchange(_) => Act::Exchange,
        }
    }
}

/// What is done when something happens.
pub open spec fn act(held: Option<TokenModel>, happening: Happening) -> Act {
    match happening {
        Happening::Asked(now) => if serves(held, now) {
            Act::Serve(held->0)
        } else {
            Act::Load
        },
        Happening::Loaded => Act::Exchange,
        Happening::NotLoaded => Act::Deny,
        Happening::Obtained(token) => Act::Serve(token),
        Happening::Failed => Act::Deny,
    }
}

/// What is kept when something happened.
pub open spec fn held_after_act(held: Option<TokenModel>, happening: Happening) -> Option<
    TokenModel,
> {
    match happening {
        Happening::Obtained(token) => after_event(held, CacheEvent::Exchanged(token)),
        Happening::Failed => after_event(held, CacheEvent::ExchangeFailed),
        _ => held,
    }
}

/// The message where the credentials cannot be loaded.
pub open spec fn load_message(error: ProviderError) -> Seq<char> {
    "load credentials: "@ + error.shown() + " — run `agent-shim copilot login` first"@
}

/// What can happen to a cache.
pub enum CacheEvent {
    Invalidated,
    Exchanged(TokenModel),
    ExchangeFailed,
}

/// What a cache holds after an event. A token is kept; an invalidation or a
/// failure leaves none.
pub open spec fn after_event(held: Option<TokenModel>, event: CacheEvent) -> Option<TokenModel> {
    match event {
        CacheEvent::Exchanged(token) => Some(token),
        CacheEvent::Invalidated => None,
        CacheEvent::ExchangeFailed => None,
    }
}

impl TokenCache {
    pub closed spec fn view(&self) -> Option<TokenModel> {
        opt_token(self.cached)
    }

    pub fn new() -> (cache: TokenCache)
        ensures
            cache@ is None,
    {
        TokenCache { cached: None }
    }

    /// Decides what to do when a token is asked for.
    pub fn on_get(&self, now: i64) -> (step: TokenStep)
        ensures
            match step {
                TokenStep::Serve(token) => self@ == Some(token@) && serves(self@, now),
                TokenStep::Exchange => !serves(self@, now),
            },
    {
        match &self.cached {
            Some(token) => if (token.expires_at_unix as i128) - (now as i128) > 60 {
                TokenStep::Serve(token.duplicate())
            } else {
                TokenStep::Exchange
            },
            None => TokenStep::Exchange,
        }
    }

    /// The answer where the credentials cannot be loaded. What is kept stays.
    pub fn on_credentials_failure(error: &ProviderError) -> (answer: ProviderError)
        ensures
            match answer {
                ProviderError::Network(text) => text@ == load_message(*error),
                _ => false,
            },
    {
        let mut text = labelled("load credentials: ", error.message().as_str());
        text.append(" — run `agent-shim copilot login` first");
        ProviderError::Network(text)
    }

    /// Takes in the outcome of an exchange, and gives the answer. A token is
    /// kept; a failure leaves none.
    pub fn on_exchange(&mut self, outcome: Result<CopilotToken, ProviderError>) -> (answer: Result<
        CopilotToken,
        ProviderError,
    >)
        ensures
            match outcome {
                Ok(token) => {
                    &&& final(self)@ == after_event(old(self)@, CacheEvent::Exchanged(token@))
                    &&& match answer {
                        Ok(t) => t@ == token@,
                        Err(_) => false,
                    }
                },
                Err(error) => {
                    &&& final(self)@ == after_event(old(self)@, CacheEvent::ExchangeFailed)
                    &&& answer == Err::<CopilotToken, ProviderError>(error)
                },
            },
    {
        match outcome {
            Ok(token) => {
                let copy = token.duplicate();
                self.cached = Some(token);
                Ok(copy)
            },
            Err(error) => {
                self.cached = None;
                Err(error)
            },
        }
    }

    /// One step of getting a token: what to do when something happened. From
    /// the question to the answer there is at most one exchange.
    pub fn on_event(&mut self, event: TokenEvent) -> (action: TokenAction)
        ensures
            action@ == act(old(self)@, event@),
            final(self)@ == held_after_act(old(self)@, event@),
            match (event, action) {
                (TokenEvent::Loaded(Ok(creds)), TokenAction::Exchange(c)) => c == creds,
                (TokenEvent::Loaded(Err(error)), TokenAction::Reply(Err(answer))) => match answer {
                    ProviderError::Network(text) => text@ == load_message(error),
                    _ => false,
                },
                (TokenEvent::Exchanged(Err(error)), TokenAction::Reply(Err(answer))) => answer
                    == error,
                _ => true,
            },
    {
        match event {
            TokenEvent::Asked { now } => match self.on_get(now) {
                TokenStep::Serve(token) => TokenAction::Reply(Ok(token)),
                TokenStep::Exchange => TokenAction::Load,
            },
            TokenEvent::Loaded(Ok(creds)) => TokenAction::Exchange(creds),
            TokenEvent::Loaded(Err(error)) => TokenAction::Reply(
                Err(TokenCache::on_credentials_failure(&error)),
            ),
            TokenEvent::Exchanged(outcome) => TokenAction::Reply(self.on_exchange(outcome)),
        }
    }

    /// Forgets the token.
    pub fn invalidate(&mut self)
        ensures
            final(self)@ == after_event(old(self)@, CacheEvent::Invalidated),
    {
        self.cached = None;
    }
}

impl Default for TokenCache {
    fn default() -> (cache: TokenCache)
        ensures
            cache@ is None,
    {
        TokenCache::new()
    }
}

// ---------------------------------------------------------------------------
// Laws
// ---------------------------------------------------------------------------

/// What a cache holds after events, starting with nothing.
pub open spec fn held_after(events: Seq<CacheEvent>) -> Option<TokenModel>
    decreases events.len(),
{
    if events.len() == 0 {
        None
    } else {
        after_event(held_after(events.drop_last()), events.last())
    }
}

/// A token that is kept is the one that the last event obtained: no
/// invalidation and no failure came after it.
pub proof fn kept_token_is_the_last_obtained(events: Seq<CacheEvent>, token: TokenModel)
    requires
        held_after(events) == Some(token),
    ensures
        events.len() > 0,
        events.last() == CacheEvent::Exchanged(token),
{
}

/// A token that is still good at one time was good at every earlier time.
pub proof fn goodness_only_fades(token: TokenModel, earlier: i64, later: i64)
    requires
        earlier <= later,
        still_good(token, later),
    ensures
        still_good(token, earlier),
{
}

/// What getting a new token comes to, where it is tried.
pub enum Outcome {
    NoCredentials,
    Obtained(TokenModel),
    Failed,
}

/// One visit to a cache: a token is asked for at some time, or the one that is
/// kept is to be forgotten.
pub enum Visit {
    Get { now: i64, outcome: Outcome },
    Invalidate,
}

/// What is kept after a visit. Where the credentials cannot be loaded, what was
/// kept stays.
pub open spec fn after_visit(held: Option<TokenModel>, visit: Visit) -> Option<TokenModel> {
    match visit {
        Visit::Invalidate => after_event(held, CacheEvent::Invalidated),
        Visit::Get { now, outcome } => if serves(held, now) {
            held
        } else {
            match outcome {
                Outcome::NoCredentials => held,
                Outcome::Obtained(token) => after_event(held, CacheEvent::Exchanged(token)),
                Outcome::Failed => after_event(held, CacheEvent::ExchangeFailed),
            }
        },
    }
}

/// What is kept before the visit `i`, starting with nothing.
pub open spec fn held_at(visits: Seq<Visit>, i: nat) -> Option<TokenModel>
    decreases i,
{
    if i == 0 {
        None
    } else {
        after_visit(held_at(visits, (i - 1) as nat), visits[i - 1])
    }
}

/// Whether a new token is tried for at the visit `i`.
pub open spec fn tries(visits: Seq<Visit>, i: int) -> bool {
    match visits[i] {
        Visit::Get { now, .. } => !serves(held_at(visits, i as nat), now),
        Visit::Invalidate => false,
    }
}

/// The token that was obtained at the visit `i`.
pub open spec fn obtained(visits: Seq<Visit>, i: int) -> Option<TokenModel> {
    match visits[i] {
        Visit::Get { outcome: Outcome::Obtained(token), .. } => if tries(visits, i) {
            Some(token)
        } else {
            None
        },
        _ => None,
    }
}

/// Whether the visit `i` leaves the cache as it was: one that was served, or
/// that found no credentials.
pub open spec fn passes(visits: Seq<Visit>, i: int) -> bool {
    match visits[i] {
        Visit::Get { outcome, .. } => !tries(visits, i) || outcome is NoCredentials,
        Visit::Invalidate => false,
    }
}

/// Whether `token` was obtained at the visit `j` and nothing touched it up to
/// the visit `i`.
pub open spec fn stays_from(visits: Seq<Visit>, token: TokenModel, j: int, i: int) -> bool {
    &&& 0 <= j < i
    &&& obtained(visits, j) == Some(token)
    &&& forall|k: int| j < k < i ==> #[trigger] passes(visits, k)
}

proof fn lemma_held(visits: Seq<Visit>, i: nat, token: TokenModel)
    requires
        i <= visits.len(),
    ensures
        held_at(visits, i) == Some(token) <==> exists|j: int|
            #[trigger] stays_from(visits, token, j, i as int),
    decreases i,
{
    if i > 0 {
        let last = i - 1;
        lemma_held(visits, last as nat, token);
        if held_at(visits, i) == Some(token) {
            if passes(visits, last) {
                let j = choose|j: int| #[trigger] stays_from(visits, token, j, last);
                assert(stays_from(visits, token, j, i as int));
            } else {
                assert(stays_from(visits, token, last, i as int));
            }
        }
        if exists|j: int| #[trigger] stays_from(visits, token, j, i as int) {
            let j = choose|j: int| #[trigger] stays_from(visits, token, j, i as int);
            if j < last {
                assert(passes(visits, last));
                assert(stays_from(visits, token, j, last));
            }
        }
    }
}

/// Over any sequence of visits: a token is served from the cache if and only if
/// it was obtained at an earlier visit, nothing in between forgot or replaced
/// it, and it is still good. In every other case a new one is tried for.
pub proof fn token_is_served_while_it_is_good(visits: Seq<Visit>, i: int, token: TokenModel)
    requires
        0 <= i < visits.len(),
        visits[i] is Get,
    ensures
        held_at(visits, i as nat) == Some(token) && serves(
            held_at(visits, i as nat),
            visits[i]->now,
        ) <==> still_good(token, visits[i]->now) && exists|j: int|
            #[trigger] stays_from(visits, token, j, i),
        tries(visits, i) <==> !exists|t: TokenModel, j: int|
            still_good(t, visits[i]->now) && #[trigger] stays_from(visits, t, j, i),
{
    let now = visits[i]->now;
    let held = held_at(visits, i as nat);
    lemma_held(visits, i as nat, token);
    if let Some(t) = held {
        lemma_held(visits, i as nat, t);
        let j = choose|j: int| #[trigger] stays_from(visits, t, j, i);
        assert(stays_from(visits, t, j, i));
    }
    assert forall|t: TokenModel, j: int|
        still_good(t, now) && #[trigger] stays_from(visits, t, j, i) implies held == Some(t) by {
        lemma_held(visits, i as nat, t);
    }
}

/// What happens while a token is got: what comes back from each thing that is
/// to be done, up to the answer.
pub open spec fn happenings(held: Option<TokenModel>, now: i64, outcome: Outcome) -> Seq<
    Happening,
> {
    if serves(held, now) {
        seq![Happening::Asked(now)]
    } else {
        match outcome {
            Outcome::NoCredentials => seq![Happening::Asked(now), Happening::NotLoaded],
            Outcome::Obtained(token) => seq![
                Happening::Asked(now),
                Happening::Loaded,
                Happening::Obtained(token),
            ],
            Outcome::Failed => seq![Happening::Asked(now), Happening::Loaded, Happening::Failed],
        }
    }
}

/// What is kept after happenings.
pub open spec fn held_through(held: Option<TokenModel>, list: Seq<Happening>) -> Option<TokenModel>
    decreases list.len(),
{
    if list.len() == 0 {
        held
    } else {
        held_after_act(held_through(held, list.drop_last()), list.last())
    }
}

/// What is done at each happening.
pub open spec fn acts(held: Option<TokenModel>, list: Seq<Happening>) -> Seq<Act>
    decreases list.len(),
{
    if list.len() == 0 {
        seq![]
    } else {
        acts(held, list.drop_last()).push(act(held_through(held, list.drop_last()), list.last()))
    }
}

proof fn lemma_acts(held: Option<TokenModel>, now: i64, outcome: Outcome)
    ensures
        acts(held, happenings(held, now, outcome)) == (if serves(held, now) {
            seq![Act::Serve(held->0)]
        } else {
            match outcome {
                Outcome::NoCredentials => seq![Act::Load, Act::Deny],
                Outcome::Obtained(token) => seq![Act::Load, Act::Exchange, Act::Serve(token)],
                Outcome::Failed => seq![Act::Load, Act::Exchange, Act::Deny],
            }
        }),
        held_through(held, happenings(held, now, outcome)) == after_visit(
            held,
            Visit::Get { now, outcome },
        ),
{
    reveal_with_fuel(acts, 4);
    reveal_with_fuel(held_through, 4);
    let list = happenings(held, now, outcome);
    let n = list.len() as int;
    assert(list.take(n) =~= list);
    assert(list.drop_last() =~= list.take(n - 1));
    if n >= 2 {
        assert(list.take(n - 1).drop_last() =~= list.take(n - 2));
    }
    if n >= 3 {
        assert(list.take(n - 2).drop_last() =~= list.take(n - 3));
    }
}

/// Getting a token, at any visit of any sequence: where a token was obtained
/// that nothing forgot or replaced since and that is still good, it is the
/// answer and nothing else is done. In every other case the credentials are
/// loaded; if that succeeds there is exactly one exchange, whose token or
/// failure is the answer, and if not there is none and the answer is an error.
/// A token obtained is kept, a failed exchange leaves none, and nothing else
/// changes what is kept.
pub proof fn get_serves_or_exchanges_once(visits: Seq<Visit>, i: int)
    requires
        0 <= i < visits.len(),
        visits[i] is Get,
    ensures
        ({
            let now = visits[i]->now;
            let outcome = visits[i]->outcome;
            let held = held_at(visits, i as nat);
            let list = happenings(held, now, outcome);
            &&& forall|t: TokenModel, j: int|
                still_good(t, now) && #[trigger] stays_from(visits, t, j, i) ==> acts(held, list)
                    == seq![Act::Serve(t)]
            &&& (!exists|t: TokenModel, j: int|
                still_good(t, now) && #[trigger] stays_from(visits, t, j, i)) ==> acts(held, list)
                == (match outcome {
                Outcome::NoCredentials => seq![Act::Load, Act::Deny],
                Outcome::Obtained(token) => seq![Act::Load, Act::Exchange, Act::Serve(token)],
                Outcome::Failed => seq![Act::Load, Act::Exchange, Act::Deny],
            })
            &&& held_at(visits, (i + 1) as nat) == held_through(held, list)
        }),
{
    let now = visits[i]->now;
    let outcome = visits[i]->outcome;
    let held = held_at(visits, i as nat);
    lemma_acts(held, now, outcome);
    assert forall|t: TokenModel, j: int|
        still_good(t, now) && #[trigger] stays_from(visits, t, j, i) implies held == Some(t) by {
        lemma_held(visits, i as nat, t);
    }
    if let Some(t) = held {
        token_is_served_while_it_is_good(visits, i, t);
    }
    assert(visits[i] == Visit::Get { now, outcome });
    assert(visits[(i + 1) - 1] == visits[i]);
}

} // verus!
