//! A search request, and what the follower reads from it.

use vstd::prelude::*;
use vstd::string::*;

verus! {

/// Which query a request belongs to, and which part of it.
#[derive(Debug)]
pub struct QueryIdentifier {
    pub trace_id: String,
    pub job_id: String,
    /// The number of parallel requests that the leader has split the job into.
    pub doget_count: u32,
    /// The number of this request among them, from zero.
    pub doget_index: u32,
}

#[derive(Debug)]
pub struct SuperClusterInfo {
    pub is_super_cluster: bool,
}

#[derive(Debug)]
pub struct SearchInfo {
    /// The time that the search may take, in seconds.
    pub timeout: i64,
    pub is_analyze: bool,
}

/// A search request of the leader.
#[derive(Debug)]
pub struct FlightSearchRequest {
    pub query_identifier: QueryIdentifier,
    pub super_cluster_info: SuperClusterInfo,
    pub search_info: SearchInfo,
}

/// What the follower goes by when it answers a request.
#[derive(Debug)]
pub struct Job {
    /// The trace id of the follower, under which sessions, slots and shared executions are kept.
    pub trace_id: String,
    pub is_super_cluster: bool,
    pub is_analyze: bool,
    /// The time after which the response ends, in seconds.
    pub timeout_secs: u64,
    pub doget_count: usize,
    pub doget_index: usize,
}

/// The follower's trace id. Requests of one job have the same.
pub open spec fn follower_trace_id(trace_id: Seq<char>, job_id: Seq<char>) -> Seq<char> {
    trace_id + "-"@ + job_id
}

/// A timeout as an unsigned number; a negative one wraps round.
pub open spec fn unsigned_secs(timeout: i64) -> int {
    if timeout < 0 {
        timeout + 0x1_0000_0000_0000_0000
    } else {
        timeout as int
    }
}

impl Job {
    /// The leader has split the job, so that this request takes a part of a shared execution.
    pub open spec fn fans_out(self) -> bool {
        self.doget_count > 1
    }

    /// The job says what the request says.
    pub open spec fn reads(self, req: FlightSearchRequest) -> bool {
        &&& self.trace_id@ == follower_trace_id(
            req.query_identifier.trace_id@,
            req.query_identifier.job_id@,
        )
        &&& self.is_super_cluster == req.super_cluster_info.is_super_cluster
        &&& self.is_analyze == req.search_info.is_analyze
        &&& self.timeout_secs == unsigned_secs(req.search_info.timeout)
        &&& self.doget_count == req.query_identifier.doget_count
        &&& self.doget_index == req.query_identifier.doget_index
    }

    /// What the follower reads from a request.
    pub fn of_request(req: &FlightSearchRequest) -> (r: Job)
        ensures
            r.reads(*req),
    {
        let mut trace_id = req.query_identifier.trace_id.as_str().to_owned();
        trace_id.append("-");
        trace_id.append(req.query_identifier.job_id.as_str());
        let timeout: i64 = req.search_info.timeout;
        assert(timeout >= 0 ==> (timeout as u64) == timeout) by (bit_vector);
        assert(timeout < 0 ==> (timeout as u64) == timeout + 0x1_0000_0000_0000_0000)
            by (bit_vector);
        Job {
            trace_id,
            is_super_cluster: req.super_cluster_info.is_super_cluster,
            is_analyze: req.search_info.is_analyze,
            timeout_secs: timeout as u64,
            doget_count: req.query_identifier.doget_count as usize,
            doget_index: req.query_identifier.doget_index as usize,
        }
    }
}

/// Law: a job says what its request says, field by field. The trace id is that of the query and the
/// job id, with a hyphen in between, so that all requests of one job have the same. A negative
/// timeout is read modulo the range of the unsigned number.
pub proof fn law_job_says_what_its_request_says(req: FlightSearchRequest, job: Job)
    requires
        call_ensures(Job::of_request, (&req,), job),
    ensures
        job.trace_id@ == req.query_identifier.trace_id@.push('-') + req.query_identifier.job_id@,
        job.is_super_cluster == req.super_cluster_info.is_super_cluster,
        job.is_analyze == req.search_info.is_analyze,
        req.search_info.timeout >= 0 ==> job.timeout_secs == req.search_info.timeout,
        req.search_info.timeout < 0 ==> job.timeout_secs - req.search_info.timeout == u64::MAX + 1,
        job.doget_count == req.query_identifier.doget_count,
        job.doget_index == req.query_identifier.doget_index,
{
    reveal_strlit("-");
    assert(req.query_identifier.trace_id@ + "-"@ =~= req.query_identifier.trace_id@.push('-'));
}

/// Law: requests of one job find each other. Whatever else they say, requests with the same trace
/// id and job id have the same follower trace id.
pub proof fn law_requests_of_a_job_have_one_key(
    a: FlightSearchRequest,
    b: FlightSearchRequest,
    job_a: Job,
    job_b: Job,
)
    requires
        call_ensures(Job::of_request, (&a,), job_a),
        call_ensures(Job::of_request, (&b,), job_b),
        a.query_identifier.trace_id@ == b.query_identifier.trace_id@,
    ensures
        job_a.trace_id@ == job_b.trace_id@ <==> a.query_identifier.job_id@
            == b.query_identifier.job_id@,
{
    law_job_says_what_its_request_says(a, job_a);
    law_job_says_what_its_request_says(b, job_b);
    let n = a.query_identifier.trace_id@.len() as int + 1;
    assert(job_a.trace_id@.skip(n) =~= a.query_identifier.job_id@);
    assert(job_b.trace_id@.skip(n) =~= b.query_identifier.job_id@);
}

} // verus!
