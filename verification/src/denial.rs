//! What a client is told when a request is refused.
use vstd::prelude::*;

verus! {

/// Whose fault a refusal is.
#[derive(Clone, Copy, PartialEq, Eq, Structural)]
pub enum DenialFault {
    Server,
    User,
}

impl DenialFault {
    /// The fault as clients see it.
    pub open spec fn name(self) -> Seq<char> {
        match self {
            DenialFault::Server => "Server"@,
            DenialFault::User => "User"@,
        }
    }

    /// Writes the fault as clients see it.
    pub fn to_text(&self) -> (res: String)
        ensures
            res@ == self.name(),
    {
        match self {
            DenialFault::Server => "Server".to_owned(),
            DenialFault::User => "User".to_owned(),
        }
    }
}

/// Why a request was refused.
pub struct RequestDenial {
    pub fault: String,
    pub reason: String,
    pub additional_info: String,
}

/// A refusal and the HTTP status that it is sent with.
pub struct DenialResponse {
    pub status: u16,
    pub denial: RequestDenial,
}

impl RequestDenial {
    /// A refusal with its reason and what else there is to say.
    pub fn new(fault: DenialFault, reason: String, additional_info: String) -> (res: Self)
        ensures
            res.fault@ == fault.name(),
            res.reason@ == reason@,
            res.additional_info@ == additional_info@,
    {
        RequestDenial { fault: fault.to_text(), reason, additional_info }
    }

    /// Sends this refusal with an HTTP status.
    pub fn into_response(self, status_code: u16) -> (res: DenialResponse)
        ensures
            res.status == status_code,
            res.denial == self,
    {
        DenialResponse { status: status_code, denial: self }
    }
}

impl DenialResponse {
    /// Whether this is the refusal with the given parts.
    pub open spec fn says(
        self,
        status: u16,
        fault: DenialFault,
        reason: Seq<char>,
        additional_info: Seq<char>,
    ) -> bool {
        &&& self.status == status
        &&& self.denial.fault@ == fault.name()
        &&& self.denial.reason@ == reason
        &&& self.denial.additional_info@ == additional_info
    }

    /// Whether this is the refusal of a request without a valid session.
    pub open spec fn says_unauthorized(self) -> bool {
        self.says(401, DenialFault::User, "Invalid username or cookie"@, ""@)
    }
}

/// Refuses a request.
pub fn deny(
    status: u16,
    fault: DenialFault,
    reason: &str,
    additional_info: &str,
) -> (res: DenialResponse)
    ensures
        res.says(status, fault, reason@, additional_info@),
{
    RequestDenial::new(fault, reason.to_owned(), additional_info.to_owned()).into_response(status)
}

/// Refuses a request without a valid session.
pub fn deny_unauthorized() -> (res: DenialResponse)
    ensures
        res.says_unauthorized(),
{
    deny(401, DenialFault::User, "Invalid username or cookie", "")
}

/// Why no route took a request.
pub enum RejectionCause {
    /// No route has that path.
    NotFound,
    /// The body could not be read, with what the reader said.
    UnreadableBody(Option<String>),
    /// The path takes other methods only.
    MethodNotAllowed,
    /// Anything else.
    Unhandled,
}

/// What a client is told when no route took its request.
pub struct ErrorMessage {
    pub code: u16,
    pub message: String,
}

impl RejectionCause {
    /// The status that the client gets.
    pub open spec fn code(self) -> u16 {
        match self {
            RejectionCause::NotFound => 404,
            RejectionCause::UnreadableBody(_) => 400,
            RejectionCause::MethodNotAllowed => 405,
            RejectionCause::Unhandled => 500,
        }
    }

    /// The message that the client gets.
    pub open spec fn message(self) -> Seq<char> {
        match self {
            RejectionCause::NotFound => "NOT_FOUND"@,
            RejectionCause::UnreadableBody(Some(cause)) => cause@,
            RejectionCause::UnreadableBody(None) => "BAD_REQUEST"@,
            RejectionCause::MethodNotAllowed => "METHOD_NOT_ALLOWED"@,
            RejectionCause::Unhandled => "UNHANDLED_REJECTION"@,
        }
    }
}

/// Decides what a client is told when no route took its request.
pub fn handle_rejection(cause: RejectionCause) -> (res: ErrorMessage)
    ensures
        res.code == cause.code(),
        res.message@ == cause.message(),
{
    match cause {
        RejectionCause::NotFound => ErrorMessage { code: 404, message: "NOT_FOUND".to_owned() },
        RejectionCause::UnreadableBody(Some(message)) => ErrorMessage { code: 400, message },
        RejectionCause::UnreadableBody(None) => ErrorMessage {
            code: 400,
            message: "BAD_REQUEST".to_owned(),
        },
        RejectionCause::MethodNotAllowed => ErrorMessage {
            code: 405,
            message: "METHOD_NOT_ALLOWED".to_owned(),
        },
        RejectionCause::Unhandled => ErrorMessage {
            code: 500,
            message: "UNHANDLED_REJECTION".to_owned(),
        },
    }
}

/// A refusal says exactly one thing: its status, whose fault it is, the reason
/// and what else there is to say.
pub proof fn refusals_say_one_thing(
    response: DenialResponse,
    status: u16,
    fault: DenialFault,
    reason: Seq<char>,
    additional_info: Seq<char>,
)
    ensures
        response.says(status, fault, reason, additional_info) <==> {
            &&& response.status == status
            &&& response.denial.fault@ == if fault is Server {
                "Server"@
            } else {
                "User"@
            }
            &&& response.denial.reason@ == reason
            &&& response.denial.additional_info@ == additional_info
        },
        response.says_unauthorized() <==> response.says(
            401,
            DenialFault::User,
            "Invalid username or cookie"@,
            ""@,
        ),
{
}

/// Whatever no route took is answered with an error: one of the client, but for
/// what is not handled. What the reader of a body said is told as it is.
pub proof fn rejections_are_errors(cause: RejectionCause, said: String)
    ensures
        cause is NotFound ==> cause.code() == 404 && cause.message() == "NOT_FOUND"@,
        cause is MethodNotAllowed ==> cause.code() == 405 && cause.message()
            == "METHOD_NOT_ALLOWED"@,
        cause is UnreadableBody ==> cause.code() == 400,
        cause is Unhandled ==> cause.code() == 500 && cause.message() == "UNHANDLED_REJECTION"@,
        RejectionCause::UnreadableBody(Some(said)).message() == said@,
        RejectionCause::UnreadableBody(None).message() == "BAD_REQUEST"@,
{
}

} // verus!
