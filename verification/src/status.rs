//! The status that a refused call is answered with.

use vstd::prelude::*;

verus! {

/// The gRPC status codes that the follower answers with.
#[derive(Clone, Copy, Debug, PartialEq, Eq, Structural)]
pub enum Code {
    Internal,
    Unimplemented,
}

/// A refusal: a code and a message for the caller.
#[derive(Debug, PartialEq, Eq)]
pub struct FlightStatus {
    pub code: Code,
    pub message: String,
}

impl FlightStatus {
    /// The status carries this code and this message.
    pub open spec fn says(self, code: Code, message: Seq<char>) -> bool {
        &&& self.code == code
        &&& self.message@ == message
    }

    /// A failure inside the follower.
    pub fn internal(message: String) -> (r: FlightStatus)
        ensures
            r.says(Code::Internal, message@),
    {
        FlightStatus { code: Code::Internal, message }
    }

    /// A call that the follower does not offer.
    pub fn unimplemented(message: &str) -> (r: FlightStatus)
        ensures
            r.says(Code::Unimplemented, message@),
    {
        FlightStatus { code: Code::Unimplemented, message: message.to_owned() }
    }
}

/// Law: a refusal carries what it was made with.
pub proof fn law_status_carries_its_message(
    internal: FlightStatus,
    failure: String,
    unimplemented: FlightStatus,
    call: &str,
)
    requires
        call_ensures(FlightStatus::internal, (failure,), internal),
        call_ensures(FlightStatus::unimplemented, (call,), unimplemented),
    ensures
        internal.code is Internal,
        internal.message@ == failure@,
        unimplemented.code is Unimplemented,
        unimplemented.message@ == call@,
{
}

} // verus!
