pub mod attachment;
pub mod attempt;
pub mod boundary;
pub mod boundary_laws;
pub mod bridge;
pub mod clock;
pub mod coff_layout;
pub mod course_laws;
pub mod descriptor_lease;
pub mod diagnostics;
pub mod elf_layout;
pub mod flow_start;
pub mod host;
pub mod laws;
pub mod ledger;
pub mod mach_layout;
pub mod object;
pub mod object_layout;
pub mod observation_source;
pub mod observing;
pub mod octet_fields;
pub mod payload_authorization;
pub mod payload_bridge;
pub mod payload_direction;
pub mod payload_laws;
pub mod payload_recovery;
pub mod poll_laws;
pub mod polling;
pub mod preflight_laws;
pub mod probe_event;
pub mod probe_snapshot;
pub mod process_allowance;
pub mod process_payload_allowance;
pub mod program_names;
pub mod provider;
pub mod record_laws;
pub mod resolution;
pub mod selection_laws;
pub mod state;
pub mod tracked_flow;
pub mod tracepoints;
pub mod type_layout;
pub mod types;
pub mod write_bridge;
pub mod xcoff_layout;
