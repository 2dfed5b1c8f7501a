//! What licensing clients and servers exchange.
use vstd::prelude::*;

use crate::keys::SignedEntitlementEnvelope;

verus! {

/// What a licence can switch on.
#[derive(Debug, Clone, Copy, PartialEq, Eq, Hash, PartialOrd, Ord, Structural)]
pub enum LicensedFeature {
    Basic,
    EditorWorkspace,
    Encode,
    Decode,
    Compress,
    Import,
    Transcode,
    Mux,
    Demux,
    Select,
    FrameEdit,
    TimelineEdit,
    Export,
}

/// The name of a feature on the wire.
pub open spec fn feature_slug(f: LicensedFeature) -> &'static str {
    match f {
        LicensedFeature::Basic => "basic",
        LicensedFeature::EditorWorkspace => "editor_workspace",
        LicensedFeature::Encode => "encode",
        LicensedFeature::Decode => "decode",
        LicensedFeature::Compress => "compress",
        LicensedFeature::Import => "import",
        LicensedFeature::Transcode => "transcode",
        LicensedFeature::Mux => "mux",
        LicensedFeature::Demux => "demux",
        LicensedFeature::Select => "select",
        LicensedFeature::FrameEdit => "frame_edit",
        LicensedFeature::TimelineEdit => "timeline_edit",
        LicensedFeature::Export => "export",
    }
}

fn same_text(a: &str, b: &str) -> (r: bool)
    ensures
        r == (a@ == b@),
{
    a.to_owned() == b.to_owned()
}

/// All features.
pub open spec fn every_feature() -> Seq<LicensedFeature> {
    seq![
        LicensedFeature::Basic,
        LicensedFeature::EditorWorkspace,
        LicensedFeature::Encode,
        LicensedFeature::Decode,
        LicensedFeature::Compress,
        LicensedFeature::Import,
        LicensedFeature::Transcode,
        LicensedFeature::Mux,
        LicensedFeature::Demux,
        LicensedFeature::Select,
        LicensedFeature::FrameEdit,
        LicensedFeature::TimelineEdit,
        LicensedFeature::Export,
    ]
}

/// No feature is missing from the list, and none is there twice.
pub proof fn every_feature_is_listed(f: LicensedFeature)
    ensures
        every_feature().contains(f),
        every_feature().no_duplicates(),
{
    let l = every_feature();
    assert(l[0] is Basic && l[1] is EditorWorkspace && l[2] is Encode && l[3] is Decode && l[4]
        is Compress && l[5] is Import && l[6] is Transcode && l[7] is Mux && l[8] is Demux && l[9]
        is Select && l[10] is FrameEdit && l[11] is TimelineEdit && l[12] is Export);
}

/// The length and the first two letters of a feature's name.
spec fn feature_mark(f: LicensedFeature) -> (int, char, char) {
    match f {
        LicensedFeature::Basic => (5, 'b', 'a'),
        LicensedFeature::EditorWorkspace => (16, 'e', 'd'),
        LicensedFeature::Encode => (6, 'e', 'n'),
        LicensedFeature::Decode => (6, 'd', 'e'),
        LicensedFeature::Compress => (8, 'c', 'o'),
        LicensedFeature::Import => (6, 'i', 'm'),
        LicensedFeature::Transcode => (9, 't', 'r'),
        LicensedFeature::Mux => (3, 'm', 'u'),
        LicensedFeature::Demux => (5, 'd', 'e'),
        LicensedFeature::Select => (6, 's', 'e'),
        LicensedFeature::FrameEdit => (10, 'f', 'r'),
        LicensedFeature::TimelineEdit => (13, 't', 'i'),
        LicensedFeature::Export => (6, 'e', 'x'),
    }
}

proof fn lemma_feature_mark(f: LicensedFeature)
    ensures
        feature_slug(f)@.len() == feature_mark(f).0,
        feature_slug(f)@[0] == feature_mark(f).1,
        feature_slug(f)@[1] == feature_mark(f).2,
{
    match f {
        LicensedFeature::Basic => {
            reveal_strlit("basic");
        },
        LicensedFeature::EditorWorkspace => {
            reveal_strlit("editor_workspace");
        },
        LicensedFeature::Encode => {
            reveal_strlit("encode");
        },
        LicensedFeature::Decode => {
            reveal_strlit("decode");
        },
        LicensedFeature::Compress => {
            reveal_strlit("compress");
        },
        LicensedFeature::Import => {
            reveal_strlit("import");
        },
        LicensedFeature::Transcode => {
            reveal_strlit("transcode");
        },
        LicensedFeature::Mux => {
            reveal_strlit("mux");
        },
        LicensedFeature::Demux => {
            reveal_strlit("demux");
        },
        LicensedFeature::Select => {
            reveal_strlit("select");
        },
        LicensedFeature::FrameEdit => {
            reveal_strlit("frame_edit");
        },
        LicensedFeature::TimelineEdit => {
            reveal_strlit("timeline_edit");
        },
        LicensedFeature::Export => {
            reveal_strlit("export");
        },
    }
}

/// Two features have different names.
pub proof fn feature_slugs_differ(f: LicensedFeature, g: LicensedFeature)
    requires
        feature_slug(f)@ == feature_slug(g)@,
    ensures
        f == g,
{
    lemma_feature_mark(f);
    lemma_feature_mark(g);
    assert(feature_mark(f) == feature_mark(g));
}

impl LicensedFeature {
    pub fn as_str(self) -> (s: &'static str)
        ensures
            s == feature_slug(self),
    {
        match self {
            LicensedFeature::Basic => "basic",
            LicensedFeature::EditorWorkspace => "editor_workspace",
            LicensedFeature::Encode => "encode",
            LicensedFeature::Decode => "decode",
            LicensedFeature::Compress => "compress",
            LicensedFeature::Import => "import",
            LicensedFeature::Transcode => "transcode",
            LicensedFeature::Mux => "mux",
            LicensedFeature::Demux => "demux",
            LicensedFeature::Select => "select",
            LicensedFeature::FrameEdit => "frame_edit",
            LicensedFeature::TimelineEdit => "timeline_edit",
            LicensedFeature::Export => "export",
        }
    }

    /// The feature with a name.
    pub fn from_slug(value: &str) -> (r: Option<Self>)
        ensures
            r matches Some(f) ==> feature_slug(f)@ == value@,
            r is None ==> forall|f: LicensedFeature| (#[trigger] feature_slug(f))@ != value@,
    {
        let all: Vec<Self> = LicensedFeature::all();
        let mut i: usize = 0;
        while i < all.len()
            invariant
                i <= all@.len(),
                all@ == every_feature(),
                forall|k: int|
                    0 <= k < i ==> feature_slug(#[trigger] all@[k])@ != value@,
            decreases all@.len() - i,
        {
            if same_text(all[i].as_str(), value) {
                return Some(all[i]);
            }
            i += 1;
        }
        proof {
            assert forall|f: LicensedFeature| (#[trigger] feature_slug(f))@ != value@ by {
                every_feature_is_listed(f);
                let k = choose|k: int| 0 <= k < all@.len() && all@[k] == f;
                assert(feature_slug(all@[k])@ != value@);
            }
        }
        None
    }

    pub fn all() -> (v: Vec<Self>)
        ensures
            v@ == every_feature(),
    {
        let v: Vec<Self> = vec![
            LicensedFeature::Basic,
            LicensedFeature::EditorWorkspace,
            LicensedFeature::Encode,
            LicensedFeature::Decode,
            LicensedFeature::Compress,
            LicensedFeature::Import,
            LicensedFeature::Transcode,
            LicensedFeature::Mux,
            LicensedFeature::Demux,
            LicensedFeature::Select,
            LicensedFeature::FrameEdit,
            LicensedFeature::TimelineEdit,
            LicensedFeature::Export,
        ];
        assert(v@ =~= every_feature());
        v
    }

    /// What a basic licence switches on.
    pub fn basic_defaults() -> (v: Vec<Self>)
        ensures
            v@ == seq![LicensedFeature::Basic],
    {
        let v: Vec<Self> = vec![LicensedFeature::Basic];
        assert(v@ =~= seq![LicensedFeature::Basic]);
        v
    }

    /// What an editor licence switches on: everything.
    pub fn editor_defaults() -> (v: Vec<Self>)
        ensures
            v@ == every_feature(),
    {
        LicensedFeature::all()
    }
}

#[derive(Debug, Clone, Copy, PartialEq, Eq)]
pub struct AdminStats {
    pub license_count: u64,
    pub key_count: u64,
    pub active_key_count: u64,
    pub installation_count: u64,
    pub trusted_installation_count: u64,
    pub pending_request_count: u64,
    pub audit_event_count: u64,
    pub playback_request_count: u64,
}

#[derive(Debug, Clone, Copy, PartialEq, Eq, Structural)]
pub enum AdminRecordState {
    Active,
    Archived,
    Deleted,
}

/// The name of a record state on the wire.
pub open spec fn record_slug(s: AdminRecordState) -> &'static str {
    match s {
        AdminRecordState::Active => "active",
        AdminRecordState::Archived => "archived",
        AdminRecordState::Deleted => "deleted",
    }
}

/// Two record states have different names.
pub proof fn record_slugs_differ(a: AdminRecordState, b: AdminRecordState)
    requires
        record_slug(a)@ == record_slug(b)@,
    ensures
        a == b,
{
    reveal_strlit("active");
    reveal_strlit("archived");
    reveal_strlit("deleted");
    let x = record_slug(a)@;
    let y = record_slug(b)@;
    assert(x.len() == y.len() && x[0] == y[0] && x[1] == y[1]);
}

impl AdminRecordState {
    pub fn as_str(self) -> (s: &'static str)
        ensures
            s == record_slug(self),
    {
        match self {
            AdminRecordState::Active => "active",
            AdminRecordState::Archived => "archived",
            AdminRecordState::Deleted => "deleted",
        }
    }

    /// The state with a name.
    pub fn from_slug(value: &str) -> (r: Option<Self>)
        ensures
            r matches Some(s) ==> record_slug(s)@ == value@,
            r is None ==> forall|s: AdminRecordState| (#[trigger] record_slug(s))@ != value@,
    {
        if same_text(value, "active") {
            Some(AdminRecordState::Active)
        } else if same_text(value, "archived") {
            Some(AdminRecordState::Archived)
        } else if same_text(value, "deleted") {
            Some(AdminRecordState::Deleted)
        } else {
            None
        }
    }
}

#[derive(Debug, Clone, Copy, PartialEq, Eq, Structural)]
pub enum NotificationDeliveryState {
    Queued,
    Sent,
    Delivered,
    Read,
}

/// The name of a delivery state on the wire.
pub open spec fn delivery_slug(s: NotificationDeliveryState) -> &'static str {
    match s {
        NotificationDeliveryState::Queued => "queued",
        NotificationDeliveryState::Sent => "sent",
        NotificationDeliveryState::Delivered => "delivered",
        NotificationDeliveryState::Read => "read",
    }
}

/// Two delivery states have different names.
pub proof fn delivery_slugs_differ(a: NotificationDeliveryState, b: NotificationDeliveryState)
    requires
        delivery_slug(a)@ == delivery_slug(b)@,
    ensures
        a == b,
{
    reveal_strlit("queued");
    reveal_strlit("sent");
    reveal_strlit("delivered");
    reveal_strlit("read");
    let x = delivery_slug(a)@;
    let y = delivery_slug(b)@;
    assert(x.len() == y.len() && x[0] == y[0]);
}

impl NotificationDeliveryState {
    pub fn as_str(self) -> (s: &'static str)
        ensures
            s == delivery_slug(self),
    {
        match self {
            NotificationDeliveryState::Queued => "queued",
            NotificationDeliveryState::Sent => "sent",
            NotificationDeliveryState::Delivered => "delivered",
            NotificationDeliveryState::Read => "read",
        }
    }

    /// The state with a name.
    pub fn from_slug(value: &str) -> (r: Option<Self>)
        ensures
            r matches Some(s) ==> delivery_slug(s)@ == value@,
            r is None ==> forall|s: NotificationDeliveryState|
                (#[trigger] delivery_slug(s))@ != value@,
    {
        if same_text(value, "queued") {
            Some(NotificationDeliveryState::Queued)
        } else if same_text(value, "sent") {
            Some(NotificationDeliveryState::Sent)
        } else if same_text(value, "delivered") {
            Some(NotificationDeliveryState::Delivered)
        } else if same_text(value, "read") {
            Some(NotificationDeliveryState::Read)
        } else {
            None
        }
    }
}

#[derive(Debug, Clone, PartialEq, Eq)]
pub struct AdminLicenseRecord {
    pub license_id: String,
    pub owner_email: String,
    pub features: Vec<LicensedFeature>,
    pub active_key_count: u64,
    pub record_state: AdminRecordState,
}

#[derive(Debug, Clone, PartialEq, Eq)]
pub struct AdminKeyRecord {
    pub key_id: String,
    pub license_id: String,
    pub key_value: String,
    pub key_version: i64,
    pub active: bool,
    pub created_at_epoch_s: u64,
    pub record_state: AdminRecordState,
}

#[derive(Debug, Clone, PartialEq, Eq)]
pub struct AdminInstallationRecord {
    pub installation_id: String,
    pub license_id: String,
    pub device_install_id: String,
    pub first_seen_ip: Option<String>,
    pub last_seen_ip: Option<String>,
    pub os_family: String,
    pub os_arch: String,
    pub hostname: Option<String>,
    pub first_seen_epoch_s: u64,
    pub last_seen_epoch_s: u64,
    pub trusted: bool,
    pub record_state: AdminRecordState,
}

#[derive(Debug, Clone, PartialEq, Eq)]
pub struct AdminPendingRequestRecord {
    pub request_id: String,
    pub license_id: String,
    pub device_install_id: String,
    pub requested_ip: Option<String>,
    pub requested_os: String,
    pub requested_arch: String,
    pub hostname: Option<String>,
    pub created_at_epoch_s: u64,
    pub expires_at_epoch_s: u64,
    pub approved_at_epoch_s: Option<u64>,
    pub record_state: AdminRecordState,
}

#[derive(Debug, Clone, PartialEq, Eq)]
pub struct AdminAuditRecord {
    pub event_id: String,
    pub license_id: String,
    pub key_id: Option<String>,
    pub installation_id: Option<String>,
    pub event_type: String,
    pub event_payload_json: String,
    pub created_at_epoch_s: u64,
    pub record_state: AdminRecordState,
}

#[derive(Debug, Clone, PartialEq, Eq)]
pub struct AdminNotificationRecord {
    pub email_id: String,
    pub license_id: String,
    pub request_id: Option<String>,
    pub recipient: String,
    pub subject: String,
    pub notification_state: NotificationDeliveryState,
    pub created_at_epoch_s: u64,
    pub sent_at_epoch_s: Option<u64>,
    pub delivered_at_epoch_s: Option<u64>,
    pub read_at_epoch_s: Option<u64>,
    pub record_state: AdminRecordState,
}

#[derive(Debug, Clone, PartialEq, Eq)]
pub struct UnsupportedCodecTrack {
    pub track_id: u32,
    pub kind: String,
    pub codec: String,
    pub detail: String,
}

#[derive(Debug, Clone, PartialEq, Eq)]
pub struct ClientUnsupportedPlaybackRequest {
    pub key: Option<String>,
    pub license_id: Option<String>,
    pub device_install_id: String,
    pub source: String,
    pub app_name: String,
    pub app_version: String,
    pub tracks: Vec<UnsupportedCodecTrack>,
}

#[derive(Debug, Clone, PartialEq, Eq)]
pub struct AdminPlaybackRequestRecord {
    pub playback_request_id: String,
    pub license_id: Option<String>,
    pub device_install_id: String,
    pub source: String,
    pub app_name: String,
    pub app_version: String,
    pub tracks_json: String,
    pub created_at_epoch_s: u64,
    pub record_state: AdminRecordState,
}

#[derive(Debug, Clone, PartialEq, Eq)]
pub struct AdminSnapshot {
    pub stats: AdminStats,
    pub licenses: Vec<AdminLicenseRecord>,
    pub keys: Vec<AdminKeyRecord>,
    pub installations: Vec<AdminInstallationRecord>,
    pub pending_requests: Vec<AdminPendingRequestRecord>,
    pub audits: Vec<AdminAuditRecord>,
    pub notifications: Vec<AdminNotificationRecord>,
    pub playback_requests: Vec<AdminPlaybackRequestRecord>,
}

#[derive(Debug, Clone, PartialEq, Eq)]
pub struct AdminUpdateLicenseFeaturesRequest {
    pub license_id: String,
    pub features: Vec<LicensedFeature>,
}

#[derive(Debug, Clone, PartialEq, Eq)]
pub struct AdminUpdateKeyStatusRequest {
    pub key_id: String,
    pub active: bool,
}

#[derive(Debug, Clone, PartialEq, Eq)]
pub struct AdminUpdateRecordStateRequest {
    pub state: AdminRecordState,
}

#[derive(Debug, Clone, PartialEq, Eq)]
pub struct AdminCreateNotificationRequest {
    pub license_id: String,
    pub recipient: String,
    pub subject: String,
    pub body: String,
}

#[derive(Debug, Clone, PartialEq, Eq)]
pub struct AdminActionResponse {
    pub ok: bool,
    pub message: String,
}

#[derive(Debug, Clone, Copy, PartialEq, Eq, Structural)]
pub enum EntitlementStatus {
    Active,
    PendingConfirmation,
    Revoked,
    ReplacementIssued,
}

#[derive(Debug, Clone, PartialEq, Eq)]
pub struct ClientOsInfo {
    pub family: String,
    pub version: Option<String>,
    pub arch: String,
}

#[derive(Debug, Clone, PartialEq, Eq)]
pub struct ClientAppInfo {
    pub name: String,
    pub version: String,
    pub channel: Option<String>,
}

#[derive(Debug, Clone, PartialEq, Eq)]
pub struct DeviceFingerprint {
    pub install_id: String,
    pub hostname: Option<String>,
}

#[derive(Debug, Clone, PartialEq, Eq)]
pub struct VerifyKeyRequest {
    pub key: String,
    pub claimed_ip: Option<String>,
    pub os: ClientOsInfo,
    pub device: DeviceFingerprint,
    pub app: ClientAppInfo,
    pub session_secret: Option<String>,
}

#[derive(Debug, Clone, PartialEq, Eq)]
pub struct VerifyKeyResponse {
    pub envelope: SignedEntitlementEnvelope,
    pub replacement_key: Option<String>,
    pub new_session_secret: Option<String>,
    pub message: String,
}

#[derive(Debug, Clone, PartialEq, Eq)]
pub struct ClientNotificationReadRequest {
    pub key: String,
    pub license_id: String,
    pub device_install_id: String,
}

#[derive(Debug, Clone, PartialEq, Eq)]
pub struct ClientNotification {
    pub notification_id: String,
    pub subject: String,
    pub body: String,
    pub created_at_epoch_s: u64,
}

#[derive(Debug, Clone, PartialEq, Eq)]
pub struct IssueKeyRequest {
    pub email: String,
    pub requested_features: Option<Vec<LicensedFeature>>,
    pub registrant_os: Option<String>,
    pub registrant_ip: Option<String>,
}

#[derive(Debug, Clone, PartialEq, Eq)]
pub struct IssueKeyResponse {
    pub license_id: String,
    pub key: String,
    pub features: Vec<LicensedFeature>,
}

/// What a licence entitles a device to.
#[derive(Debug, Clone, PartialEq, Eq)]
pub struct EntitlementClaims {
    pub license_id: String,
    pub key_id: String,
    pub features: Vec<LicensedFeature>,
    pub status: EntitlementStatus,
    pub issued_at_epoch_s: u64,
    pub expires_at_epoch_s: u64,
    pub device_install_id: String,
    pub message: String,
    pub replacement_key: Option<String>,
}

impl EntitlementClaims {
    /// The claims are active and name the feature.
    pub open spec fn entitles(self, feature: LicensedFeature) -> bool {
        self.status is Active && self.features@.contains(feature)
    }

    pub fn allows_feature(&self, feature: LicensedFeature) -> (r: bool)
        ensures
            r == self.entitles(feature),
    {
        if self.status != EntitlementStatus::Active {
            return false;
        }
        let mut i: usize = 0;
        while i < self.features.len()
            invariant
                i <= self.features@.len(),
                self.status is Active,
                forall|k: int| 0 <= k < i ==> #[trigger] self.features@[k] != feature,
            decreases self.features@.len() - i,
        {
            if self.features[i] == feature {
                assert(self.features@[i as int] == feature);
                return true;
            }
            i += 1;
        }
        false
    }

    pub fn is_editor_enabled(&self) -> (r: bool)
        ensures
            r == self.entitles(LicensedFeature::EditorWorkspace),
    {
        self.allows_feature(LicensedFeature::EditorWorkspace)
    }
}

/// Claims entitle to the features that they list, and to nothing once they are not active.
pub proof fn claims_entitle_while_active(c: EntitlementClaims, f: LicensedFeature, k: int)
    ensures
        c.entitles(f) ==> c.status is Active && exists|i: int|
            0 <= i < c.features@.len() && #[trigger] c.features@[i] == f,
        c.status is Active && 0 <= k < c.features@.len() ==> c.entitles(c.features@[k]),
        c.status is Revoked || c.status is PendingConfirmation || c.status is ReplacementIssued
            ==> !c.entitles(f),
{
    if c.entitles(f) {
        let i = choose|i: int| 0 <= i < c.features@.len() && c.features@[i] == f;
        assert(c.features@[i] == f);
    }
}

} // verus!
