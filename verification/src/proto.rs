//! The messages that a controller and its agents exchange, as plain values.

use crate::store::records::copy_bytes;
use crate::strmap::StrMap;
use crate::text;
use vstd::prelude::*;

verus! {

broadcast use vstd::string::group_string_axioms;

/// The version of the protocol that controller and agents must share.
pub const PROTOCOL_VERSION: u32 = 1;

/// An address of an interface.
#[derive(Debug)]
pub struct AddressReport {
    pub address: String,
    pub prefix_len: u32,
    pub family: String,
}

/// An interface as an agent reports it.
#[derive(Debug)]
pub struct InterfaceReport {
    pub name: String,
    pub addresses: Vec<AddressReport>,
    /// Empty when the interface has none.
    pub mac_address: String,
    pub link_state: String,
    pub ifindex: u32,
}

/// A rule that an agent has loaded.
#[derive(Debug)]
pub struct PersistedRule {
    pub id: u64,
    /// The rule as `AddRuleInput` JSON.
    pub params_json: Vec<u8>,
}

/// The side of an interface on which a program sits.
#[derive(Clone, Copy, Debug, PartialEq, Eq, Structural)]
pub enum BpfDirection {
    Unspecified,
    Ingress,
    Egress,
}

/// How a program is attached to an interface.
#[derive(Clone, Copy, Debug, PartialEq, Eq, Structural)]
pub enum BpfMode {
    /// The agent picks the fastest mode that the driver offers.
    Auto,
}

/// A program attached to an interface.
#[derive(Debug)]
pub struct ProgramAttachment {
    pub interface_name: String,
    pub direction: BpfDirection,
}

/// The state that an agent reports.
#[derive(Debug)]
pub struct StateSnapshot {
    pub rules: Vec<PersistedRule>,
    pub attachments: Vec<ProgramAttachment>,
    pub default_actions: StrMap<String>,
    pub fib_forwarding_interfaces: Vec<String>,
    /// "interface:direction" to "pass" or "drop".
    pub per_interface_default_actions: StrMap<String>,
    /// Empty when not yet reported.
    pub stop_behavior: String,
    /// The reverse-path filtering mode of each interface that has one.
    pub urpf_interfaces: StrMap<u32>,
}

/// What an agent is able to do.
#[derive(Debug)]
pub struct AgentCapabilities {
    pub features: Vec<String>,
    pub engine_version: String,
    pub sources: Vec<String>,
}

/// The first message of an agent.
#[derive(Debug)]
pub struct AgentHello {
    pub node_id: String,
    pub protocol_version: u32,
    pub agent_version: String,
    pub dmi_uuid: String,
    pub tpm_backed: bool,
    pub interfaces: Vec<InterfaceReport>,
    pub hostname: String,
    pub os_pretty_name: String,
    pub kernel_version: String,
    pub dmi_sys_vendor: String,
    pub dmi_product_name: String,
    pub capabilities: Option<AgentCapabilities>,
}

/// A sign of life.
#[derive(Debug)]
pub struct Heartbeat {
    pub timestamp_ns: u64,
}

/// How applying a configuration went.
#[derive(Debug)]
pub struct ConfigResult {
    pub success: bool,
    pub error_message: String,
}

/// Metrics in Prometheus text format.
#[derive(Debug)]
pub struct MetricsUpdate {
    pub timestamp_ns: u64,
    pub prometheus_text: Vec<u8>,
}

/// Events, each as JSON.
#[derive(Debug)]
pub struct EventBatch {
    pub timestamp_ns: u64,
    pub node_id: String,
    pub events_json: Vec<Vec<u8>>,
}

/// Rule lifecycle events, each as JSON.
#[derive(Debug)]
pub struct RuleLifecycleBatch {
    pub events_json: Vec<Vec<u8>>,
}

/// A fresh report of interfaces.
#[derive(Debug)]
pub struct InterfaceUpdate {
    pub interfaces: Vec<InterfaceReport>,
}

/// A change that was made on the node itself.
#[derive(Debug)]
pub struct LocalChangeReport {
    pub source: String,
    pub current_state: Option<StateSnapshot>,
}

/// A request for the whole configuration.
#[derive(Debug)]
pub struct RestoreRequest {
    pub reason: String,
}

/// What became of a pushed configuration.
#[derive(Clone, Copy, Debug, PartialEq, Eq, Structural)]
pub enum ConfirmedAs {
    Unspecified,
    Applied,
    Rejected,
    Reverted,
}

/// The answer of an agent to a pushed configuration.
#[derive(Debug)]
pub struct ConfigConfirm {
    pub generation_id: String,
    pub outcome: ConfirmedAs,
    pub error_message: String,
}

/// What an agent can say.
#[derive(Debug)]
pub enum AgentPayload {
    Hello(AgentHello),
    Heartbeat(Heartbeat),
    State(StateSnapshot),
    ConfigResult(ConfigResult),
    Metrics(MetricsUpdate),
    Events(EventBatch),
    RuleLifecycleEvents(RuleLifecycleBatch),
    InterfaceUpdate(InterfaceUpdate),
    LocalChange(LocalChangeReport),
    RestoreRequest(RestoreRequest),
    ConfigConfirm(ConfigConfirm),
}

/// A message of an agent.
#[derive(Debug)]
pub struct AgentMessage {
    pub payload: Option<AgentPayload>,
}

/// A rule to be added.
pub struct RuleAdd {
    pub rule_id: String,
    pub interface_name: String,
    pub direction: String,
    /// The rule as `AddRuleInput` JSON.
    pub params_json: Vec<u8>,
}

/// What a rule to be added holds.
pub struct RuleAddView {
    pub rule_id: Seq<char>,
    pub interface_name: Seq<char>,
    pub direction: Seq<char>,
    pub params_json: Seq<u8>,
}

impl View for RuleAdd {
    type V = RuleAddView;

    open spec fn view(&self) -> RuleAddView {
        RuleAddView {
            rule_id: self.rule_id@,
            interface_name: self.interface_name@,
            direction: self.direction@,
            params_json: self.params_json@,
        }
    }
}

impl Clone for RuleAdd {
    fn clone(&self) -> (r: Self)
        ensures
            r@ == self@,
    {
        RuleAdd {
            rule_id: self.rule_id.clone(),
            interface_name: self.interface_name.clone(),
            direction: self.direction.clone(),
            params_json: copy_bytes(&self.params_json),
        }
    }
}

/// What rules to be added hold.
pub open spec fn rule_add_views(v: Seq<RuleAdd>) -> Seq<RuleAddView> {
    v.map_values(|r: RuleAdd| r@)
}

/// A change of the configuration of a node.
pub struct DeltaConfigPush {
    pub rules_to_add: Vec<RuleAdd>,
    pub rule_ids_to_delete: Vec<String>,
    /// Whether the agent drops all its rules first.
    pub is_full_restore: bool,
    /// "interface:direction" to "pass" or "drop".
    pub per_interface_default_actions: StrMap<String>,
    /// Echoed in the agent's confirmation; empty when none is awaited.
    pub generation_id: String,
    pub confirm_deadline_ms: u32,
    /// Empty when it does not change.
    pub stop_behavior: String,
}

/// What a change of the configuration holds.
pub struct DeltaView {
    pub rules_to_add: Seq<RuleAddView>,
    pub rule_ids_to_delete: Seq<Seq<char>>,
    pub is_full_restore: bool,
    pub per_interface_default_actions: Map<Seq<char>, Seq<char>>,
    pub generation_id: Seq<char>,
    pub confirm_deadline_ms: u32,
    pub stop_behavior: Seq<char>,
}

impl View for DeltaConfigPush {
    type V = DeltaView;

    open spec fn view(&self) -> DeltaView {
        DeltaView {
            rules_to_add: rule_add_views(self.rules_to_add@),
            rule_ids_to_delete: text::texts(self.rule_ids_to_delete@),
            is_full_restore: self.is_full_restore,
            per_interface_default_actions: crate::strmap::texts(
                self.per_interface_default_actions@,
            ),
            generation_id: self.generation_id@,
            confirm_deadline_ms: self.confirm_deadline_ms,
            stop_behavior: self.stop_behavior@,
        }
    }
}

/// Attach a program to an interface.
pub struct AttachProgram {
    pub interface_name: String,
    pub direction: BpfDirection,
    pub mode: BpfMode,
    /// Echoed in the agent's confirmation; empty when none is awaited.
    pub generation_id: String,
    pub confirm_deadline_ms: u32,
}

/// What a request to attach holds.
pub struct AttachView {
    pub interface_name: Seq<char>,
    pub direction: BpfDirection,
    pub mode: BpfMode,
    pub generation_id: Seq<char>,
    pub confirm_deadline_ms: u32,
}

impl View for AttachProgram {
    type V = AttachView;

    open spec fn view(&self) -> AttachView {
        AttachView {
            interface_name: self.interface_name@,
            direction: self.direction,
            mode: self.mode,
            generation_id: self.generation_id@,
            confirm_deadline_ms: self.confirm_deadline_ms,
        }
    }
}

/// Detach a program from an interface.
pub struct DetachProgram {
    pub interface_name: String,
    pub direction: BpfDirection,
    /// Echoed in the agent's confirmation; empty when none is awaited.
    pub generation_id: String,
    pub confirm_deadline_ms: u32,
}

/// What a request to detach holds.
pub struct DetachView {
    pub interface_name: Seq<char>,
    pub direction: BpfDirection,
    pub generation_id: Seq<char>,
    pub confirm_deadline_ms: u32,
}

impl View for DetachProgram {
    type V = DetachView;

    open spec fn view(&self) -> DetachView {
        DetachView {
            interface_name: self.interface_name@,
            direction: self.direction,
            generation_id: self.generation_id@,
            confirm_deadline_ms: self.confirm_deadline_ms,
        }
    }
}

/// Turn FIB forwarding on or off.
pub struct SetFibForwarding {
    pub interface_name: String,
    pub enabled: bool,
    /// Echoed in the agent's confirmation; empty when none is awaited.
    pub generation_id: String,
    pub confirm_deadline_ms: u32,
}

/// What a request to set FIB forwarding holds.
pub struct SetFibView {
    pub interface_name: Seq<char>,
    pub enabled: bool,
    pub generation_id: Seq<char>,
    pub confirm_deadline_ms: u32,
}

impl View for SetFibForwarding {
    type V = SetFibView;

    open spec fn view(&self) -> SetFibView {
        SetFibView {
            interface_name: self.interface_name@,
            enabled: self.enabled,
            generation_id: self.generation_id@,
            confirm_deadline_ms: self.confirm_deadline_ms,
        }
    }
}

/// Set the reverse-path filtering mode.
pub struct SetUrpf {
    pub interface_name: String,
    pub mode: u32,
    /// Echoed in the agent's confirmation; empty when none is awaited.
    pub generation_id: String,
    pub confirm_deadline_ms: u32,
}

/// What a request to set reverse-path filtering holds.
pub struct SetUrpfView {
    pub interface_name: Seq<char>,
    pub mode: u32,
    pub generation_id: Seq<char>,
    pub confirm_deadline_ms: u32,
}

impl View for SetUrpf {
    type V = SetUrpfView;

    open spec fn view(&self) -> SetUrpfView {
        SetUrpfView {
            interface_name: self.interface_name@,
            mode: self.mode,
            generation_id: self.generation_id@,
            confirm_deadline_ms: self.confirm_deadline_ms,
        }
    }
}

/// Set how a node inspects traffic.
pub struct SetInspectMode {
    pub mode: u32,
    /// Echoed in the agent's confirmation; empty when none is awaited.
    pub generation_id: String,
    pub confirm_deadline_ms: u32,
}

/// What a request to set the inspection mode holds.
pub struct SetInspectModeView {
    pub mode: u32,
    pub generation_id: Seq<char>,
    pub confirm_deadline_ms: u32,
}

impl View for SetInspectMode {
    type V = SetInspectModeView;

    open spec fn view(&self) -> SetInspectModeView {
        SetInspectModeView {
            mode: self.mode,
            generation_id: self.generation_id@,
            confirm_deadline_ms: self.confirm_deadline_ms,
        }
    }
}

/// Turn inspection of an interface on or off.
pub struct SetInspectInterface {
    pub interface_name: String,
    pub enabled: bool,
    /// Echoed in the agent's confirmation; empty when none is awaited.
    pub generation_id: String,
    pub confirm_deadline_ms: u32,
}

/// What a request to set inspection of an interface holds.
pub struct SetInspectInterfaceView {
    pub interface_name: Seq<char>,
    pub enabled: bool,
    pub generation_id: Seq<char>,
    pub confirm_deadline_ms: u32,
}

impl View for SetInspectInterface {
    type V = SetInspectInterfaceView;

    open spec fn view(&self) -> SetInspectInterfaceView {
        SetInspectInterfaceView {
            interface_name: self.interface_name@,
            enabled: self.enabled,
            generation_id: self.generation_id@,
            confirm_deadline_ms: self.confirm_deadline_ms,
        }
    }
}

/// A Suricata rule file to be written.
pub struct SuricataRuleFile {
    pub filename: String,
    pub content: Vec<u8>,
    /// Hex SHA-256 over the content.
    pub sha256: String,
    pub rule_count: u32,
}

/// What a rule file to be written holds.
pub struct PushedFileView {
    pub filename: Seq<char>,
    pub content: Seq<u8>,
    pub sha256: Seq<char>,
    pub rule_count: u32,
}

impl View for SuricataRuleFile {
    type V = PushedFileView;

    open spec fn view(&self) -> PushedFileView {
        PushedFileView {
            filename: self.filename@,
            content: self.content@,
            sha256: self.sha256@,
            rule_count: self.rule_count,
        }
    }
}

impl Clone for SuricataRuleFile {
    fn clone(&self) -> (r: Self)
        ensures
            r@ == self@,
    {
        SuricataRuleFile {
            filename: self.filename.clone(),
            content: copy_bytes(&self.content),
            sha256: self.sha256.clone(),
            rule_count: self.rule_count,
        }
    }
}

/// What rule files to be written hold.
pub open spec fn pushed_file_views(v: Seq<SuricataRuleFile>) -> Seq<PushedFileView> {
    v.map_values(|f: SuricataRuleFile| f@)
}

/// The Suricata rule files that a node should have.
pub struct SuricataRulesetPush {
    /// Files whose content the node lacks.
    pub files: Vec<SuricataRuleFile>,
    /// All fleet-managed files that should be there; the agent deletes others.
    pub desired_filenames: Vec<String>,
    /// Echoed in the agent's confirmation; empty when none is awaited.
    pub generation_id: String,
    pub confirm_deadline_ms: u32,
}

/// What a push of rule files holds.
pub struct RulesetPushView {
    pub files: Seq<PushedFileView>,
    pub desired_filenames: Seq<Seq<char>>,
    pub generation_id: Seq<char>,
    pub confirm_deadline_ms: u32,
}

impl View for SuricataRulesetPush {
    type V = RulesetPushView;

    open spec fn view(&self) -> RulesetPushView {
        RulesetPushView {
            files: pushed_file_views(self.files@),
            desired_filenames: text::texts(self.desired_filenames@),
            generation_id: self.generation_id@,
            confirm_deadline_ms: self.confirm_deadline_ms,
        }
    }
}

impl Clone for SuricataRulesetPush {
    fn clone(&self) -> (r: Self)
        ensures
            r@ == self@,
    {
        let mut files: Vec<SuricataRuleFile> = Vec::new();
        let mut i: usize = 0;
        while i < self.files.len()
            invariant
                i <= self.files@.len(),
                files@.len() == i,
                forall|j: int| 0 <= j < i ==> (#[trigger] files@[j])@ == self.files@[j]@,
            decreases self.files@.len() - i,
        {
            files.push(self.files[i].clone());
            i = i + 1;
        }
        assert(pushed_file_views(files@) =~= pushed_file_views(self.files@));
        SuricataRulesetPush {
            files,
            desired_filenames: text::copy_texts(&self.desired_filenames),
            generation_id: self.generation_id.clone(),
            confirm_deadline_ms: self.confirm_deadline_ms,
        }
    }
}

/// Tells an agent what became of a change that it confirmed.
pub struct ConfigCommitAck {
    pub generation_id: String,
    pub committed: bool,
    pub reason: String,
}

/// What an acknowledgement holds.
pub struct CommitAckView {
    pub generation_id: Seq<char>,
    pub committed: bool,
    pub reason: Seq<char>,
}

impl View for ConfigCommitAck {
    type V = CommitAckView;

    open spec fn view(&self) -> CommitAckView {
        CommitAckView {
            generation_id: self.generation_id@,
            committed: self.committed,
            reason: self.reason@,
        }
    }
}

/// Tells an agent why the stream ends.
pub struct Disconnect {
    pub reason: String,
}

/// What a farewell holds.
pub struct DisconnectView {
    pub reason: Seq<char>,
}

impl View for Disconnect {
    type V = DisconnectView;

    open spec fn view(&self) -> DisconnectView {
        DisconnectView {
            reason: self.reason@,
        }
    }
}

/// Asks an agent for its state.
pub struct StateQuery {}

/// Sets how often an agent sends metrics.
pub struct SetMetricsInterval {
    pub interval_secs: u32,
}

/// What a controller can say.
pub enum ControllerPayload {
    Config(DeltaConfigPush),
    Attach(AttachProgram),
    Detach(DetachProgram),
    SetFib(SetFibForwarding),
    SetUrpf(SetUrpf),
    SetInspectMode(SetInspectMode),
    SetInspectInterface(SetInspectInterface),
    SuricataRulesetPush(SuricataRulesetPush),
    CommitAck(ConfigCommitAck),
    StateQuery(StateQuery),
    Disconnect(Disconnect),
    SetMetricsInterval(SetMetricsInterval),
}

/// What a message of the controller holds.
pub enum PayloadView {
    Config(DeltaView),
    Attach(AttachView),
    Detach(DetachView),
    SetFib(SetFibView),
    SetUrpf(SetUrpfView),
    SetInspectMode(SetInspectModeView),
    SetInspectInterface(SetInspectInterfaceView),
    SuricataRulesetPush(RulesetPushView),
    CommitAck(CommitAckView),
    StateQuery,
    Disconnect(DisconnectView),
    SetMetricsInterval(u32),
}

/// A message of the controller.
pub struct ControllerMessage {
    pub payload: Option<ControllerPayload>,
}

impl View for ControllerMessage {
    type V = Option<PayloadView>;

    open spec fn view(&self) -> Option<PayloadView> {
        match self.payload {
            None => None,
            Some(p) => Some(p@),
        }
    }
}

impl View for ControllerPayload {
    type V = PayloadView;

    open spec fn view(&self) -> PayloadView {
        match self {
            ControllerPayload::Config(p) => PayloadView::Config(p@),
            ControllerPayload::Attach(p) => PayloadView::Attach(p@),
            ControllerPayload::Detach(p) => PayloadView::Detach(p@),
            ControllerPayload::SetFib(p) => PayloadView::SetFib(p@),
            ControllerPayload::SetUrpf(p) => PayloadView::SetUrpf(p@),
            ControllerPayload::SetInspectMode(p) => PayloadView::SetInspectMode(p@),
            ControllerPayload::SetInspectInterface(p) => PayloadView::SetInspectInterface(p@),
            ControllerPayload::SuricataRulesetPush(p) => PayloadView::SuricataRulesetPush(p@),
            ControllerPayload::CommitAck(p) => PayloadView::CommitAck(p@),
            ControllerPayload::StateQuery(_) => PayloadView::StateQuery,
            ControllerPayload::Disconnect(p) => PayloadView::Disconnect(p@),
            ControllerPayload::SetMetricsInterval(p) => PayloadView::SetMetricsInterval(
                p.interval_secs,
            ),
        }
    }
}

impl ControllerMessage {
    /// A message with a payload.
    pub fn of(payload: ControllerPayload) -> (m: ControllerMessage)
        ensures
            m@ == Some(payload@),
    {
        ControllerMessage { payload: Some(payload) }
    }
}

/// A token that lets a node enroll without an operator.
pub struct BootstrapToken {
    pub token_id: String,
    pub token: Vec<u8>,
}

/// The request of an agent to be enrolled. A text is empty where the agent has none.
pub struct EnrollRequest {
    pub public_key_der: Vec<u8>,
    pub dmi_uuid: String,
    pub csr_pem: Vec<u8>,
    pub signature: Vec<u8>,
    pub agent_version: String,
    pub tpm_backed: bool,
    pub hostname: String,
    pub bootstrap_token: Option<BootstrapToken>,
}

/// Where an enrollment stands.
#[derive(Clone, Copy, Debug, PartialEq, Eq, Structural)]
pub enum EnrollmentStatus {
    Unspecified,
    Pending,
    Approved,
    Rejected,
}

/// The answer to a request to be enrolled.
pub struct EnrollmentResponse {
    pub enrollment_id: String,
    pub status: EnrollmentStatus,
    pub ca_cert_pem: Vec<u8>,
    pub client_cert_pem: Vec<u8>,
}

/// The answer to a question for an enrollment.
pub struct EnrollmentStatusResponse {
    pub status: EnrollmentStatus,
    pub client_cert_pem: Vec<u8>,
    pub reject_reason: String,
}

} // verus!
