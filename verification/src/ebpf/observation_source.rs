//! Where observations come from, and how the kernel is told what to sample.
use vstd::prelude::*;

use crate::provider::CaptureError;

use super::descriptor_lease::DescriptorLeaseKey;
use super::diagnostics::EbpfProcessObservationTracepointFiring;
use super::payload_authorization::{
    ProcessPayloadSampleAuthorization, SocketPayloadSampleAuthorization,
};
use super::types::EbpfProcessObservation;

verus! {

/// A source of observations that can be told what payload to sample.
pub trait EbpfObservationSource {
    fn next_observation(&mut self) -> Result<Option<EbpfProcessObservation>, CaptureError>;

    fn allow_socket_payload_sample(
        &mut self,
        authorization: SocketPayloadSampleAuthorization,
    ) -> Result<(), CaptureError>;

    fn revoke_socket_payload_sample(&mut self, _key: DescriptorLeaseKey) -> Result<
        (),
        CaptureError,
    > {
        Ok(())
    }

    fn allow_process_payload_sample(
        &mut self,
        authorization: ProcessPayloadSampleAuthorization,
    ) -> Result<(), CaptureError>;

    fn revoke_process_payload_sample(&mut self, tgid: u32) -> Result<(), CaptureError>;

    fn process_output_loss_count(&mut self) -> Result<u64, CaptureError> {
        Ok(0)
    }

    fn process_tracepoint_firings(&mut self) -> Result<
        Option<Vec<EbpfProcessObservationTracepointFiring>>,
        CaptureError,
    > {
        Ok(None)
    }
}

impl EbpfObservationSource for Box<dyn EbpfObservationSource> {
    fn next_observation(&mut self) -> Result<Option<EbpfProcessObservation>, CaptureError> {
        (**self).next_observation()
    }

    fn allow_socket_payload_sample(
        &mut self,
        authorization: SocketPayloadSampleAuthorization,
    ) -> Result<(), CaptureError> {
        (**self).allow_socket_payload_sample(authorization)
    }

    fn revoke_socket_payload_sample(&mut self, key: DescriptorLeaseKey) -> Result<
        (),
        CaptureError,
    > {
        (**self).revoke_socket_payload_sample(key)
    }

    fn allow_process_payload_sample(
        &mut self,
        authorization: ProcessPayloadSampleAuthorization,
    ) -> Result<(), CaptureError> {
        (**self).allow_process_payload_sample(authorization)
    }

    fn revoke_process_payload_sample(&mut self, tgid: u32) -> Result<(), CaptureError> {
        (**self).revoke_process_payload_sample(tgid)
    }

    fn process_output_loss_count(&mut self) -> Result<u64, CaptureError> {
        (**self).process_output_loss_count()
    }

    fn process_tracepoint_firings(&mut self) -> Result<
        Option<Vec<EbpfProcessObservationTracepointFiring>>,
        CaptureError,
    > {
        (**self).process_tracepoint_firings()
    }
}

} // verus!
