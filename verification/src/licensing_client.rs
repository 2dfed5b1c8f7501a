//! What a licensing client decides: which key it uses, which servers it asks, and what their
//! answers let the user do.
use vstd::prelude::*;

use crate::keys::{LicensingProtoError, SignedEntitlementEnvelope, VerifyingKey};
use crate::licensing_proto::{
    ClientNotification, EntitlementClaims, EntitlementStatus, LicensedFeature,
};

verus! {

/// What the user can do.
#[derive(Debug, Clone, Copy, PartialEq, Eq, Structural)]
pub enum EffectiveMode {
    PlayOnly,
    Editor,
}

/// How the licence stands.
#[derive(Debug, Clone, Copy, PartialEq, Eq, Structural)]
pub enum VerificationState {
    MissingKey,
    Verified,
    PendingConfirmation,
    Revoked,
    ReplacementIssued,
    OfflineFallback,
    InvalidResponse,
}

/// What a refresh of the licence came to.
#[derive(Debug, Clone, PartialEq, Eq)]
pub struct LicenseSnapshot {
    pub current_key: Option<String>,
    pub claims: Option<EntitlementClaims>,
    pub verification_state: VerificationState,
    pub effective_mode: EffectiveMode,
    pub endpoint: Option<String>,
    pub message: String,
    pub server_notifications: Vec<ClientNotification>,
}

impl LicenseSnapshot {
    /// The editor is open only to a licence that a server has just verified and that names it.
    pub open spec fn earned(self) -> bool {
        self.effective_mode is Editor ==> {
            &&& self.verification_state is Verified
            &&& self.claims is Some
            &&& self.claims->Some_0.entitles(LicensedFeature::EditorWorkspace)
        }
    }

    /// The client only plays with `key`, for the reason that the message gives.
    pub open spec fn refuses(self, key: String, message: Seq<char>) -> bool {
        &&& self.current_key == Some(key)
        &&& self.claims is None
        &&& self.verification_state is InvalidResponse
        &&& self.effective_mode is PlayOnly
        &&& self.endpoint is None
        &&& self.message@ == message
        &&& self.server_notifications@.len() == 0
        &&& self.earned()
    }

    pub fn allows_editor(&self) -> (r: bool)
        ensures
            r == (self.effective_mode is Editor),
    {
        self.effective_mode == EffectiveMode::Editor
    }
}

/// What a client keeps between runs.
#[derive(Debug, Clone, PartialEq, Eq)]
pub struct ClientStateFile {
    pub current_key: Option<String>,
    pub cached_envelope: Option<SignedEntitlementEnvelope>,
    pub last_endpoint: Option<String>,
    pub last_verified_at_epoch_s: Option<u64>,
}

impl Default for ClientStateFile {
    fn default() -> (s: Self)
        ensures
            s == (ClientStateFile {
                current_key: None,
                cached_envelope: None,
                last_endpoint: None,
                last_verified_at_epoch_s: None,
            }),
    {
        ClientStateFile {
            current_key: None,
            cached_envelope: None,
            last_endpoint: None,
            last_verified_at_epoch_s: None,
        }
    }
}

impl ClientStateFile {
    /// The state with another key.
    pub fn with_key(self, key: String) -> (s: Self)
        ensures
            s == (ClientStateFile { current_key: Some(key), ..self }),
    {
        ClientStateFile { current_key: Some(key), ..self }
    }

    /// The state after a server has answered.
    pub fn after_verification(
        self,
        key: String,
        envelope: SignedEntitlementEnvelope,
        endpoint: String,
        now_epoch_s: u64,
    ) -> (s: Self)
        ensures
            s == (ClientStateFile {
                current_key: Some(key),
                cached_envelope: Some(envelope),
                last_endpoint: Some(endpoint),
                last_verified_at_epoch_s: Some(now_epoch_s),
            }),
    {
        ClientStateFile {
            current_key: Some(key),
            cached_envelope: Some(envelope),
            last_endpoint: Some(endpoint),
            last_verified_at_epoch_s: Some(now_epoch_s),
        }
    }
}

/// The key that a client uses: the one it keeps, else the one it was configured with.
pub fn current_key(kept: Option<String>, configured: Option<String>) -> (k: Option<String>)
    ensures
        k == if kept is Some {
            kept
        } else {
            configured
        },
{
    match kept {
        Some(k) => Some(k),
        None => configured,
    }
}

/// The key that a client uses from now on.
pub open spec fn replaced_key(
    answered: Option<String>,
    claimed: Option<String>,
    key: String,
) -> String {
    if answered is Some {
        answered->Some_0
    } else if claimed is Some {
        claimed->Some_0
    } else {
        key
    }
}

/// The key that a client uses from now on: one that the answer or the claims put in its place,
/// else the one that was asked about.
pub fn key_after_answer(
    answered: Option<String>,
    claimed: Option<String>,
    key: String,
) -> (k: String)
    ensures
        k == replaced_key(answered, claimed, key),
{
    match answered {
        Some(k) => k,
        None => match claimed {
            Some(k) => k,
            None => key,
        },
    }
}

/// The servers to ask, in order; one that is named twice is asked once.
pub fn preferred_endpoints(primary_url: &String, backup_url: &String) -> (v: Vec<String>)
    ensures
        v@ == if primary_url@ == backup_url@ {
            seq![*primary_url]
        } else {
            seq![*primary_url, *backup_url]
        },
{
    let mut v: Vec<String> = Vec::new();
    v.push(primary_url.clone());
    if *primary_url != *backup_url {
        v.push(backup_url.clone());
    }
    assert(primary_url@ == backup_url@ ==> v@ =~= seq![*primary_url]);
    assert(primary_url@ != backup_url@ ==> v@ =~= seq![*primary_url, *backup_url]);
    v
}

/// Cached claims that have not expired.
pub fn unexpired(claims: EntitlementClaims, now_epoch_s: u64) -> (r: Option<EntitlementClaims>)
    ensures
        r == if claims.expires_at_epoch_s > now_epoch_s {
            Some(claims)
        } else {
            None
        },
{
    if claims.expires_at_epoch_s <= now_epoch_s {
        return None;
    }
    Some(claims)
}

/// The claims that a client keeps: those of an envelope whose signature holds under its public
/// key, while they have not expired.
pub open spec fn claims_kept(
    kept: Option<SignedEntitlementEnvelope>,
    key: Seq<u8>,
    read: Option<EntitlementClaims>,
    now: int,
) -> Option<EntitlementClaims> {
    if kept is Some && kept->Some_0.verified_by(key) is Ok && read is Some
        && read->Some_0.expires_at_epoch_s > now {
        read
    } else {
        None
    }
}

/// The claims that a client keeps. `read` is what the text of the kept envelope reads as; it
/// counts for nothing unless the signature of that text holds.
pub fn kept_claims(
    kept: &Option<SignedEntitlementEnvelope>,
    verifying_key: &VerifyingKey,
    read: Option<EntitlementClaims>,
    now_epoch_s: u64,
) -> (r: Option<EntitlementClaims>)
    ensures
        r == claims_kept(*kept, verifying_key.bytes@, read, now_epoch_s as int),
{
    match kept {
        None => None,
        Some(envelope) => match envelope.verify(verifying_key) {
            Err(_) => None,
            Ok(_) => match read {
                None => None,
                Some(claims) => unexpired(claims, now_epoch_s),
            },
        },
    }
}

/// Without a key nothing is asked.
pub fn snapshot_without_key() -> (s: LicenseSnapshot)
    ensures
        s.current_key is None,
        s.claims is None,
        s.verification_state is MissingKey,
        s.effective_mode is PlayOnly,
        s.endpoint is None,
        s.message@ == "No license key configured; editor mode unavailable."@,
        s.server_notifications@.len() == 0,
        s.earned(),
{
    LicenseSnapshot {
        current_key: None,
        claims: None,
        verification_state: VerificationState::MissingKey,
        effective_mode: EffectiveMode::PlayOnly,
        endpoint: None,
        message: "No license key configured; editor mode unavailable.".to_owned(),
        server_notifications: Vec::new(),
    }
}

fn snapshot_invalid(key: String, message: String) -> (s: LicenseSnapshot)
    ensures
        s.refuses(key, message@),
{
    LicenseSnapshot {
        current_key: Some(key),
        claims: None,
        verification_state: VerificationState::InvalidResponse,
        effective_mode: EffectiveMode::PlayOnly,
        endpoint: None,
        message,
        server_notifications: Vec::new(),
    }
}

/// The installation has no identity; `error` says why.
pub fn snapshot_without_identity(key: String, error: &str) -> (s: LicenseSnapshot)
    ensures
        s.refuses(key, "Failed to initialize install identity: "@ + error@),
{
    let mut message: String = "Failed to initialize install identity: ".to_owned();
    message.append(error);
    snapshot_invalid(key, message)
}

/// The configured public key is none; `error` says why.
pub fn snapshot_without_public_key(key: String, error: &str) -> (s: LicenseSnapshot)
    ensures
        s.refuses(key, "Invalid public key configuration: "@ + error@),
{
    let mut message: String = "Invalid public key configuration: ".to_owned();
    message.append(error);
    snapshot_invalid(key, message)
}

/// How a licence with a status stands.
pub open spec fn state_of_status(s: EntitlementStatus) -> VerificationState {
    match s {
        EntitlementStatus::Active => VerificationState::Verified,
        EntitlementStatus::PendingConfirmation => VerificationState::PendingConfirmation,
        EntitlementStatus::Revoked => VerificationState::Revoked,
        EntitlementStatus::ReplacementIssued => VerificationState::ReplacementIssued,
    }
}

/// What a verified answer of a server comes to.
pub fn snapshot_from_live_response(
    current_key: String,
    claims: EntitlementClaims,
    endpoint: String,
    message: String,
    server_notifications: Vec<ClientNotification>,
) -> (s: LicenseSnapshot)
    ensures
        s.current_key == Some(current_key),
        s.claims == Some(claims),
        s.verification_state == state_of_status(claims.status),
        s.effective_mode is Editor <==> claims.entitles(LicensedFeature::EditorWorkspace),
        s.endpoint == Some(endpoint),
        s.message == if message@.len() == 0 {
            claims.message
        } else {
            message
        },
        s.server_notifications == server_notifications,
        s.earned(),
{
    let verification_state: VerificationState = match claims.status {
        EntitlementStatus::Active => VerificationState::Verified,
        EntitlementStatus::PendingConfirmation => VerificationState::PendingConfirmation,
        EntitlementStatus::Revoked => VerificationState::Revoked,
        EntitlementStatus::ReplacementIssued => VerificationState::ReplacementIssued,
    };
    let effective_mode: EffectiveMode = if verification_state == VerificationState::Verified
        && claims.is_editor_enabled() {
        EffectiveMode::Editor
    } else {
        EffectiveMode::PlayOnly
    };
    assert(message@.len() == 0 ==> message@ =~= Seq::<char>::empty());
    let shown: String = if message == String::new() {
        claims.message.clone()
    } else {
        message
    };
    LicenseSnapshot {
        current_key: Some(current_key),
        claims: Some(claims),
        verification_state,
        effective_mode,
        endpoint: Some(endpoint),
        message: shown,
        server_notifications,
    }
}

/// The name of a status in messages.
pub open spec fn status_name(s: EntitlementStatus) -> &'static str {
    match s {
        EntitlementStatus::Active => "Active",
        EntitlementStatus::PendingConfirmation => "PendingConfirmation",
        EntitlementStatus::Revoked => "Revoked",
        EntitlementStatus::ReplacementIssued => "ReplacementIssued",
    }
}

fn name_of_status(s: EntitlementStatus) -> (n: &'static str)
    ensures
        n == status_name(s),
{
    match s {
        EntitlementStatus::Active => "Active",
        EntitlementStatus::PendingConfirmation => "PendingConfirmation",
        EntitlementStatus::Revoked => "Revoked",
        EntitlementStatus::ReplacementIssued => "ReplacementIssued",
    }
}

/// The first `n` errors with bars between them.
pub open spec fn joined_errors(errors: Seq<String>, n: int) -> Seq<char>
    decreases n,
{
    if n <= 0 {
        seq![]
    } else if n == 1 {
        errors[0]@
    } else {
        joined_errors(errors, n - 1) + " | "@ + errors[n - 1]@
    }
}

fn join_errors(errors: &Vec<String>) -> (s: String)
    ensures
        s@ == joined_errors(errors@, errors@.len() as int),
{
    let mut s: String = String::new();
    let n: usize = errors.len();
    let mut i: usize = 0;
    while i < n
        invariant
            i <= n,
            n == errors@.len(),
            s@ == joined_errors(errors@, i as int),
        decreases n - i,
    {
        if i > 0 {
            s.append(" | ");
        }
        s.append(errors[i].as_str());
        proof {
            assert(Seq::<char>::empty() + errors@[0]@ =~= errors@[0]@);
        }
        i += 1;
    }
    s
}

/// What a client says when no server could be asked.
pub open spec fn offline_message(errors: Seq<String>, claims: Option<EntitlementClaims>) -> Seq<
    char,
> {
    let trouble = if errors.len() == 0 {
        "Licensing server unavailable."@
    } else {
        "Licensing server unavailable: "@ + joined_errors(errors, errors.len() as int) + "."@
    };
    let cached = match claims {
        None => seq![],
        Some(c) => " Cached entitlement status: "@ + status_name(c.status)@ + "."@,
    };
    trouble + " Falling back to play-only mode."@ + cached
}

/// What a refresh comes to when no server could be asked. `read` is what the text of the kept
/// envelope reads as; whatever it says, the client only plays.
pub fn snapshot_from_offline_fallback(
    state: ClientStateFile,
    key: String,
    verifying_key: &VerifyingKey,
    read: Option<EntitlementClaims>,
    now_epoch_s: u64,
    errors: Vec<String>,
) -> (s: LicenseSnapshot)
    ensures
        s.current_key == Some(key),
        s.claims == claims_kept(
            state.cached_envelope,
            verifying_key.bytes@,
            read,
            now_epoch_s as int,
        ),
        s.verification_state is OfflineFallback,
        s.effective_mode is PlayOnly,
        s.endpoint == state.last_endpoint,
        s.message@ == offline_message(errors@, s.claims),
        s.server_notifications@.len() == 0,
        s.earned(),
{
    let claims: Option<EntitlementClaims> = kept_claims(
        &state.cached_envelope,
        verifying_key,
        read,
        now_epoch_s,
    );
    let mut message: String = if errors.len() == 0 {
        "Licensing server unavailable.".to_owned()
    } else {
        let mut m: String = "Licensing server unavailable: ".to_owned();
        m.append(join_errors(&errors).as_str());
        m.append(".");
        m
    };
    message.append(" Falling back to play-only mode.");
    match &claims {
        Some(c) => {
            let mut note: String = " Cached entitlement status: ".to_owned();
            note.append(name_of_status(c.status));
            note.append(".");
            message.append(note.as_str());
        },
        None => {},
    }
    assert(message@ =~= offline_message(errors@, claims));
    LicenseSnapshot {
        current_key: Some(key),
        claims,
        verification_state: VerificationState::OfflineFallback,
        effective_mode: EffectiveMode::PlayOnly,
        endpoint: state.last_endpoint,
        message,
        server_notifications: Vec::new(),
    }
}

/// What a refresh of the licence does next.
#[derive(Debug, Clone, PartialEq, Eq)]
pub enum RefreshAction {
    /// Ask a server to verify the key.
    Ask(String),
    /// No server is left: read what the client keeps.
    ReadKept,
}

/// A refresh of the licence that is under way: the servers are asked in order until one answers.
pub struct LicenseRefresh {
    pub key: String,
    /// The key that answers are verified with.
    pub public_key: VerifyingKey,
    pub endpoints: Vec<String>,
    /// What the servers that were asked failed with.
    pub errors: Vec<String>,
}

/// What a server failed with, as it is reported.
pub open spec fn endpoint_error(endpoint: Seq<char>, error: Seq<char>) -> Seq<char> {
    endpoint + ": "@ + error
}

/// A report names a server.
pub open spec fn blames(endpoint: Seq<char>, report: Seq<char>) -> bool {
    exists|e: Seq<char>| report == #[trigger] endpoint_error(endpoint, e)
}

impl LicenseRefresh {
    /// At most one error per server, each reported under the server's name.
    pub open spec fn valid(self) -> bool {
        &&& self.errors@.len() <= self.endpoints@.len()
        &&& forall|i: int|
            0 <= i < self.errors@.len() ==> blames(
                self.endpoints@[i]@,
                (#[trigger] self.errors@[i])@,
            )
    }

    /// Begins a refresh, unless the client has no identity or no public key to check answers
    /// with; the errors of those say why.
    pub fn begin(
        key: String,
        identity: Result<String, String>,
        public_key: Result<VerifyingKey, String>,
        primary_url: &String,
        backup_url: &String,
    ) -> (r: Result<Self, LicenseSnapshot>)
        ensures
            match (identity, public_key) {
                (Err(e), _) => r is Err && r->Err_0.refuses(
                    key,
                    "Failed to initialize install identity: "@ + e@,
                ),
                (Ok(_), Err(e)) => r is Err && r->Err_0.refuses(
                    key,
                    "Invalid public key configuration: "@ + e@,
                ),
                (Ok(_), Ok(k)) => {
                    &&& r is Ok
                    &&& r->Ok_0.valid()
                    &&& r->Ok_0.public_key == k
                    &&& r->Ok_0.key == key
                    &&& r->Ok_0.errors@.len() == 0
                    &&& r->Ok_0.endpoints@ == if primary_url@ == backup_url@ {
                        seq![*primary_url]
                    } else {
                        seq![*primary_url, *backup_url]
                    }
                },
            },
    {
        match identity {
            Err(e) => {
                return Err(snapshot_without_identity(key, e.as_str()));
            },
            Ok(_) => {},
        }
        let public_key: VerifyingKey = match public_key {
            Err(e) => {
                return Err(snapshot_without_public_key(key, e.as_str()));
            },
            Ok(k) => k,
        };
        Ok(
            LicenseRefresh {
                key,
                public_key,
                endpoints: preferred_endpoints(primary_url, backup_url),
                errors: Vec::new(),
            },
        )
    }

    /// The server to ask is the one behind those that failed.
    pub fn next(&self) -> (a: RefreshAction)
        requires
            self.valid(),
        ensures
            a == if self.errors@.len() < self.endpoints@.len() {
                RefreshAction::Ask(self.endpoints@[self.errors@.len() as int])
            } else {
                RefreshAction::ReadKept
            },
    {
        let asked: usize = self.errors.len();
        if asked < self.endpoints.len() {
            RefreshAction::Ask(self.endpoints[asked].clone())
        } else {
            RefreshAction::ReadKept
        }
    }

    /// The server that was asked could not be reached, or its answer does not hold.
    pub fn failed(&mut self, error: &str)
        requires
            old(self).valid(),
            old(self).errors@.len() < old(self).endpoints@.len(),
        ensures
            final(self).valid(),
            final(self).key == old(self).key,
            final(self).public_key == old(self).public_key,
            final(self).endpoints == old(self).endpoints,
            final(self).errors@.len() == old(self).errors@.len() + 1,
            final(self).errors@.drop_last() == old(self).errors@,
            final(self).errors@.last()@ == endpoint_error(
                old(self).endpoints@[old(self).errors@.len() as int]@,
                error@,
            ),
    {
        let asked: usize = self.errors.len();
        let mut line: String = self.endpoints[asked].clone();
        line.append(": ");
        line.append(error);
        self.errors.push(line);
        assert(self.errors@.drop_last() =~= old(self).errors@);
        assert(self.errors@.last()@ == endpoint_error(self.endpoints@[asked as int]@, error@));
        assert forall|i: int| 0 <= i < self.errors@.len() implies blames(
            self.endpoints@[i]@,
            (#[trigger] self.errors@[i])@,
        ) by {
            if i < asked {
                assert(self.errors@[i] == old(self).errors@[i]);
            }
        }
    }

    /// The text of the claims in a server's answer, if its signature holds under the configured
    /// key.
    pub fn check_answer(&self, envelope: &SignedEntitlementEnvelope) -> (r: Result<
        String,
        LicensingProtoError,
    >)
        ensures
            match envelope.verified_by(self.public_key.bytes@) {
                Ok(_) => r is Ok && r->Ok_0@ == envelope.claims_json@,
                Err(e) => r == Err::<String, LicensingProtoError>(e),
            },
    {
        envelope.verify(&self.public_key)
    }

    /// The server that was asked has answered. `claims` is what the text of the envelope reads as;
    /// it counts for nothing unless the signature of that text holds under the configured key.
    pub fn answered(
        &self,
        envelope: &SignedEntitlementEnvelope,
        claims: EntitlementClaims,
        replacement_key: Option<String>,
        message: String,
        server_notifications: Vec<ClientNotification>,
    ) -> (r: Result<LicenseSnapshot, LicensingProtoError>)
        requires
            self.valid(),
            self.errors@.len() < self.endpoints@.len(),
        ensures
            match envelope.verified_by(self.public_key.bytes@) {
                Err(e) => r == Err::<LicenseSnapshot, LicensingProtoError>(e),
                Ok(_) => r matches Ok(s) && {
                    &&& s.current_key == Some(
                        replaced_key(replacement_key, claims.replacement_key, self.key),
                    )
                    &&& s.claims == Some(claims)
                    &&& s.verification_state == state_of_status(claims.status)
                    &&& s.effective_mode is Editor <==> claims.entitles(
                        LicensedFeature::EditorWorkspace,
                    )
                    &&& s.endpoint == Some(self.endpoints@[self.errors@.len() as int])
                    &&& s.message == if message@.len() == 0 {
                        claims.message
                    } else {
                        message
                    }
                    &&& s.server_notifications == server_notifications
                    &&& s.earned()
                },
            },
    {
        match self.check_answer(envelope) {
            Err(e) => {
                return Err(e);
            },
            Ok(_) => {},
        }
        let asked: usize = self.errors.len();
        let endpoint: String = self.endpoints[asked].clone();
        let key: String = key_after_answer(
            replacement_key,
            claims.replacement_key.clone(),
            self.key.clone(),
        );
        Ok(snapshot_from_live_response(key, claims, endpoint, message, server_notifications))
    }

    /// No server has answered. `state` is what the client keeps, and `read` what the text of the
    /// envelope in it reads as.
    pub fn given_up(
        self,
        state: ClientStateFile,
        read: Option<EntitlementClaims>,
        now_epoch_s: u64,
    ) -> (s: LicenseSnapshot)
        requires
            self.valid(),
            self.errors@.len() == self.endpoints@.len(),
        ensures
            s.current_key == Some(self.key),
            s.claims == claims_kept(
                state.cached_envelope,
                self.public_key.bytes@,
                read,
                now_epoch_s as int,
            ),
            s.verification_state is OfflineFallback,
            s.effective_mode is PlayOnly,
            s.endpoint == state.last_endpoint,
            s.message@ == offline_message(self.errors@, s.claims),
            s.server_notifications@.len() == 0,
            s.earned(),
    {
        snapshot_from_offline_fallback(
            state,
            self.key,
            &self.public_key,
            read,
            now_epoch_s,
            self.errors,
        )
    }
}

/// The editor opens only to a licence that is active, names the editor and has just been verified.
pub proof fn editor_needs_an_active_licence(s: LicenseSnapshot)
    requires
        s.earned(),
        s.effective_mode is Editor,
    ensures
        s.claims is Some,
        s.claims->0.status is Active,
        s.claims->0.features@.contains(LicensedFeature::EditorWorkspace),
        s.verification_state is Verified,
{
}

/// A licence stands as verified only while it is active, and each status shows as its own state;
/// none shows as missing, offline or invalid.
pub proof fn only_active_licences_are_verified(s: EntitlementStatus, t: EntitlementStatus)
    ensures
        state_of_status(s) is Verified <==> s is Active,
        state_of_status(s) is Revoked <==> s is Revoked,
        state_of_status(s) is PendingConfirmation <==> s is PendingConfirmation,
        state_of_status(s) is ReplacementIssued <==> s is ReplacementIssued,
        state_of_status(s) == state_of_status(t) ==> s == t,
        !(state_of_status(s) is MissingKey),
        !(state_of_status(s) is OfflineFallback),
        !(state_of_status(s) is InvalidResponse),
{
}

/// A client keeps claims only from an envelope whose signature holds under its key, and only before
/// they expire; it keeps them as they read.
pub proof fn kept_claims_are_signed_and_current(
    kept: Option<SignedEntitlementEnvelope>,
    key: Seq<u8>,
    read: Option<EntitlementClaims>,
    now: int,
    later: int,
)
    requires
        now <= later,
    ensures
        claims_kept(kept, key, read, now) matches Some(c) ==> {
            &&& kept is Some
            &&& kept->0.verified_by(key) is Ok
            &&& read == Some(c)
            &&& now < c.expires_at_epoch_s
        },
        kept is Some && kept->0.verified_by(key) is Ok && read is Some && now
            < read->0.expires_at_epoch_s ==> claims_kept(kept, key, read, now) == read,
        claims_kept(kept, key, read, now) is None ==> claims_kept(kept, key, read, later) is None,
        claims_kept(None, key, read, now) is None,
{
}

/// The key that an answer names comes first, then the key that the claims name, and without either
/// the client keeps the key that it asked about.
pub proof fn named_keys_replace_the_old(
    answered: Option<String>,
    claimed: Option<String>,
    key: String,
    new: String,
)
    ensures
        replaced_key(Some(new), claimed, key) == new,
        replaced_key(None, Some(new), key) == new,
        replaced_key(None, None, key) == key,
{
}

/// What the user is told offline begins with the trouble, names every server that failed, and says
/// that the client only plays; the cached status comes last.
pub proof fn offline_messages_say_what_happened(errors: Seq<String>, c: EntitlementClaims)
    ensures
        offline_message(errors, None).len() > 0,
        offline_message(errors, Some(c)) == offline_message(errors, None)
            + " Cached entitlement status: "@ + status_name(c.status)@ + "."@,
        errors.len() == 1 ==> offline_message(errors, None) == "Licensing server unavailable: "@
            + errors[0]@ + "."@ + " Falling back to play-only mode."@,
        errors.len() == 0 ==> offline_message(errors, None) == "Licensing server unavailable."@
            + " Falling back to play-only mode."@,
        errors.len() == 2 ==> offline_message(errors, None) == "Licensing server unavailable: "@ + (
        errors[0]@ + " | "@ + errors[1]@) + "."@ + " Falling back to play-only mode."@,
{
    reveal_strlit("Licensing server unavailable.");
    reveal_strlit("Licensing server unavailable: ");
    reveal_strlit(" Falling back to play-only mode.");
    reveal_with_fuel(joined_errors, 3);
    let none: Seq<char> = seq![];
    assert(offline_message(errors, Some(c)) =~= offline_message(errors, None)
        + " Cached entitlement status: "@ + status_name(c.status)@ + "."@);
    if errors.len() == 0 {
        assert(offline_message(errors, None) =~= "Licensing server unavailable."@
            + " Falling back to play-only mode."@);
    }
    if errors.len() == 1 {
        assert(offline_message(errors, None) =~= "Licensing server unavailable: "@ + errors[0]@
            + "."@ + " Falling back to play-only mode."@);
    }
    if errors.len() == 2 {
        assert(offline_message(errors, None) =~= "Licensing server unavailable: "@ + (errors[0]@
            + " | "@ + errors[1]@) + "."@ + " Falling back to play-only mode."@);
    }
}

} // verus!
