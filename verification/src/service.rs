//! The Flight service of the follower.

use crate::do_get::{DoGet, DoGetAction};
use crate::outside::{compressed_options, internal_error_notice};
use crate::outside::{internal_error_text, try_with_compression};
use crate::request::FlightSearchRequest;
use crate::session::Edition;
use crate::status::{Code, FlightStatus};
use arrow::ipc::writer::IpcWriteOptions;
use vstd::prelude::*;

verus! {

/// The number of ZSTD among the compressions of the Arrow format.
pub const ZSTD: i8 = 1;

/// The Flight service. It answers `do_get`; the other calls of the protocol are not offered.
pub struct FlightServiceImpl;

impl Default for FlightServiceImpl {
    fn default() -> (r: FlightServiceImpl)
        ensures
            r == FlightServiceImpl,
    {
        FlightServiceImpl
    }
}

/// The options that responses are written with: ZSTD compression over the defaults. An error is
/// handed on as text.
pub fn write_options() -> (r: Result<IpcWriteOptions, String>)
    ensures
        r is Ok,
        r->Ok_0 == compressed_options(ZSTD),
{
    match try_with_compression(ZSTD) {
        Ok(options) => Ok(options),
        Err(e) => Err(e.to_string()),
    }
}

impl FlightServiceImpl {
    /// Begin to answer a search request. A ticket that could not be decoded is refused with what
    /// the decoder had to say.
    pub fn do_get(
        &self,
        edition: Edition,
        decoded: Result<FlightSearchRequest, String>,
    ) -> (r: Result<(DoGet, DoGetAction), FlightStatus>)
        ensures
            match (decoded, r) {
                (Ok(req), Ok((request, action))) => {
                    &&& request.wf()
                    &&& request.edition == edition
                    &&& request.job.reads(req)
                    &&& request.begins(action)
                },
                (Err(detail), Err(status)) => status.says(
                    Code::Internal,
                    "Internal error: "@ + detail@ + internal_error_notice(),
                ),
                _ => false,
            },
    {
        match decoded {
            Ok(req) => Ok(DoGet::start(edition, &req)),
            Err(detail) => Err(FlightStatus::internal(internal_error_text(detail))),
        }
    }

    /// Handshakes are not offered.
    pub fn handshake(&self) -> (r: FlightStatus)
        ensures
            r.says(Code::Unimplemented, "Implement handshake"@),
    {
        FlightStatus::unimplemented("Implement handshake")
    }

    /// Listing flights is not offered.
    pub fn list_flights(&self) -> (r: FlightStatus)
        ensures
            r.says(Code::Unimplemented, "Implement list_flights"@),
    {
        FlightStatus::unimplemented("Implement list_flights")
    }

    /// Information on a flight is not offered.
    pub fn get_flight_info(&self) -> (r: FlightStatus)
        ensures
            r.says(Code::Unimplemented, "Implement get_flight_info"@),
    {
        FlightStatus::unimplemented("Implement get_flight_info")
    }

    /// Polling for information on a flight is not offered.
    pub fn poll_flight_info(&self) -> (r: FlightStatus)
        ensures
            r.says(Code::Unimplemented, "Implement poll_flight_info"@),
    {
        FlightStatus::unimplemented("Implement poll_flight_info")
    }

    /// The schema of a flight is not offered.
    pub fn get_schema(&self) -> (r: FlightStatus)
        ensures
            r.says(Code::Unimplemented, "Implement get_schema"@),
    {
        FlightStatus::unimplemented("Implement get_schema")
    }

    /// Uploads are not offered.
    pub fn do_put(&self) -> (r: FlightStatus)
        ensures
            r.says(Code::Unimplemented, "Implement do_put"@),
    {
        FlightStatus::unimplemented("Implement do_put")
    }

    /// Actions are not offered.
    pub fn do_action(&self) -> (r: FlightStatus)
        ensures
            r.says(Code::Unimplemented, "Implement do_action"@),
    {
        FlightStatus::unimplemented("Implement do_action")
    }

    /// Listing actions is not offered.
    pub fn list_actions(&self) -> (r: FlightStatus)
        ensures
            r.says(Code::Unimplemented, "Implement list_actions"@),
    {
        FlightStatus::unimplemented("Implement list_actions")
    }

    /// Exchanges are not offered.
    pub fn do_exchange(&self) -> (r: FlightStatus)
        ensures
            r.says(Code::Unimplemented, "Implement do_exchange"@),
    {
        FlightStatus::unimplemented("Implement do_exchange")
    }
}

/// Law: a ticket that was decoded begins a request that shares an execution exactly where the leader
/// has split the job; one that was not is refused as an internal failure that quotes the decoder.
pub proof fn law_every_ticket_is_answered(
    service: FlightServiceImpl,
    edition: Edition,
    decoded: Result<FlightSearchRequest, String>,
    r: Result<(DoGet, DoGetAction), FlightStatus>,
)
    requires
        call_ensures(FlightServiceImpl::do_get, (&service, edition, decoded), r),
    ensures
        decoded matches Ok(req) ==> {
            &&& r matches Ok((request, action)) && (action is JoinShared
                <==> req.query_identifier.doget_count > 1) && request.edition == edition
                && request.job.doget_count == req.query_identifier.doget_count
                && request.job.doget_index == req.query_identifier.doget_index
                && request.job.is_super_cluster == req.super_cluster_info.is_super_cluster
                && request.job.is_analyze == req.search_info.is_analyze && request.job.trace_id@
                == req.query_identifier.trace_id@.push('-') + req.query_identifier.job_id@ && (
            req.search_info.timeout >= 0 ==> request.job.timeout_secs == req.search_info.timeout)
        },
        decoded matches Err(detail) ==> {
            &&& r matches Err(status) && status.code is Internal && status.message@
                == "Internal error: "@ + detail@ + internal_error_notice()
        },
{
    reveal_strlit("-");
    match decoded {
        Ok(req) => {
            let id = req.query_identifier.trace_id@;
            assert(id + "-"@ =~= id.push('-'));
        },
        Err(_) => {},
    }
}

/// Law: responses are compressed with ZSTD, which is compression one of the Arrow format.
pub proof fn law_responses_are_compressed(r: Result<IpcWriteOptions, String>)
    requires
        call_ensures(write_options, (), r),
    ensures
        r matches Ok(options) && options == compressed_options(1),
{
}

} // verus!
