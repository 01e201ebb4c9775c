//! Capture of network payload, from packets and from kernel probes, as one stream of events.

pub mod address;
pub mod bounded_recency;
pub mod ebpf;
pub mod event;
pub mod evidence_laws;
pub mod keyed;
pub mod libpcap;
pub mod model;
pub mod multiplex;
pub mod multiplex_laws;
pub mod octets;
pub mod order;
pub mod output_loss;
pub mod payload;
pub mod provider;
pub mod selector;
pub mod text;

pub use address::{AddressPort, IpAddress, TcpConnection, TcpEndpoint};
pub use ebpf::bridge::{
    EbpfListenSocketLookup, EbpfProcessHint, EbpfResolvedListenSocket, EbpfResolvedSocketFlow,
    EbpfSocketFlowLookup, EbpfSocketFlowResolver,
};
pub use ebpf::diagnostics::{
    EbpfProcessObservationActiveTracepointLiveness,
    EbpfProcessObservationActiveTracepointLivenessProgram,
    EbpfProcessObservationActiveTracepointLivenessState, EbpfProcessObservationRuntimeDiagnostics,
    EbpfProcessObservationTracepointDiagnostics, EbpfProcessObservationTracepointFiring,
};
pub use ebpf::host::{
    EbpfHostProbe, EbpfHostProbeConfig, EbpfHostProbeReport, EbpfProbeCheck, UnprivilegedBpfStatus,
};
pub use ebpf::object::{
    AyaEbpfObjectProbe, EbpfObjectProbeConfig, EbpfObjectProbeReport, EbpfObjectProgram,
    EbpfObjectProgramKind,
};
pub use ebpf::observation_source::EbpfObservationSource;
pub use ebpf::payload_authorization::{
    process_payload_hint_command_key, ProcessPayloadSampleAuthorization,
};
pub use ebpf::probe_snapshot::{
    EbpfProcessObservationLinkOwnershipSnapshot,
    EbpfProcessObservationOptionalTracepointPairSnapshot, EbpfProcessObservationProbeConfig,
    EbpfProcessObservationProbeSnapshot, EbpfProcessObservationProgramLinkOwnershipSnapshot,
};
pub use ebpf::provider::EbpfProcessObservationProvider;
pub use ebpf::tracepoints::{
    EbpfProcessObservationOptionalTracepointPairState, EbpfProcessOptionalTracepointPairSpec,
};
pub use ebpf::types::{
    EbpfAcceptTracepointObservation, EbpfCloseRangeTracepointObservation,
    EbpfCloseTracepointObservation, EbpfConnectTracepointObservation, EbpfObservedProcess,
    EbpfProcessLifecycleKind, EbpfProcessLifecycleObservation, EbpfProcessObservation,
    EbpfSocketEndpoint, EbpfSocketReadObservation, EbpfSocketWriteObservation,
};
pub use event::{
    CaptureEvent, CapturedBytes, CapturedGap, CapturedLoss, EnforcementEvidencePropagation,
};
pub use libpcap::provider::LibpcapConfig;
pub use model::{
    CaptureLoss, CaptureOrigin, CaptureProviderKind, CaptureSource, Direction, EnforcementEvidence,
    FlowContext, FlowIdentity, Gap, ObservationOnlyReason, ProcessContext, ProcessIdentity,
    Timestamp, TransportProtocol,
};
pub use multiplex::{CaptureMultiplexer, DisableHandler, MultiplexedProvider};
pub use provider::{
    CapabilityKind, CapabilityState, CapabilityStatus, CaptureError, CapturePoll, CaptureProvider,
    ProcessResolver, ResolvedProcess,
};
pub use selector::{CompiledSelector, ProcessSelector, SelectorTerm, TrafficSelector};
