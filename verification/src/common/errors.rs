//! Errors that every service reports, and the form in which an error leaves a
//! service: a code and a message.

use crate::text::{decimal_text, push_decimal, push_quoted, quoted_text};
use vstd::prelude::*;

verus! {

/// An error as it is handed to a remote caller.
#[derive(Debug, Clone, PartialEq, Eq, PartialOrd, Ord)]
pub struct ErrorInfo {
    /// Error code
    pub code: u32,
    /// Error message
    pub message: String,
}

impl ErrorInfo {
    /// The code, a space, and the message.
    pub open spec fn text(&self) -> Seq<char> {
        decimal_text(self.code as nat) + " "@ + self.message@
    }

    /// The form in which an error message quotes this value.
    pub open spec fn quoted_form(&self) -> Seq<char> {
        "ErrorInfo { code: "@ + decimal_text(self.code as nat) + ", message: "@ + quoted_text(
            self.message@,
        ) + " }"@
    }

    /// The code, a space, and the message.
    pub fn to_string(&self) -> (out: String)
        ensures
            out@ == self.text(),
    {
        let mut out = String::new();
        push_decimal(&mut out, self.code as u64);
        out.append(" ");
        out.append(self.message.as_str());
        assert(Seq::<char>::empty() + decimal_text(self.code as nat) =~= decimal_text(
            self.code as nat,
        ));
        out
    }

    /// Appends the quoted form of this value.
    pub fn push_quoted_form(&self, out: &mut String)
        ensures
            final(out)@ == old(out)@ + self.quoted_form(),
    {
        out.append("ErrorInfo { code: ");
        push_decimal(out, self.code as u64);
        out.append(", message: ");
        push_quoted(out, self.message.as_str());
        out.append(" }");
        assert(final(out)@ =~= old(out)@ + self.quoted_form());
    }
}

/// The errors that any service may report.
#[derive(Debug, Clone, PartialEq, Eq, PartialOrd, Ord)]
pub enum CommonError {
    Unknown,
    RemoteError(ErrorInfo),
    Unauthorized,
    PermissionDenied,
    ValueShouldBeInRangeError { field: String, min: usize, max: usize },
}

impl CommonError {
    /// The number by which a remote caller tells the errors apart.
    pub open spec fn code_spec(&self) -> u32 {
        match self {
            CommonError::Unknown => 1,
            CommonError::RemoteError(_) => 2,
            CommonError::Unauthorized => 3,
            CommonError::PermissionDenied => 4,
            CommonError::ValueShouldBeInRangeError { .. } => 5,
        }
    }

    /// The sentence that describes the error.
    pub open spec fn message_spec(&self) -> Seq<char> {
        match self {
            CommonError::Unknown => "there is a unknown error raised"@,
            CommonError::RemoteError(info) => "error from remote, "@ + info.quoted_form(),
            CommonError::Unauthorized => "Unauthorized, please login first"@,
            CommonError::PermissionDenied => "Permission denied"@,
            CommonError::ValueShouldBeInRangeError { field, min, max } => "Length of "@
                + quoted_text(field@) + " must be in range ["@ + decimal_text(*min as nat) + ", "@
                + decimal_text(*max as nat) + ")"@,
        }
    }

    /// The number by which a remote caller tells the errors apart.
    pub fn code(&self) -> (code: u32)
        ensures
            code == self.code_spec(),
    {
        match self {
            CommonError::Unknown => 1,
            CommonError::RemoteError(_) => 2,
            CommonError::Unauthorized => 3,
            CommonError::PermissionDenied => 4,
            CommonError::ValueShouldBeInRangeError { .. } => 5,
        }
    }

    /// The sentence that describes the error.
    pub fn to_string(&self) -> (out: String)
        ensures
            out@ == self.message_spec(),
    {
        match self {
            CommonError::Unknown => String::from_str("there is a unknown error raised"),
            CommonError::RemoteError(info) => {
                let mut out = String::from_str("error from remote, ");
                info.push_quoted_form(&mut out);
                out
            },
            CommonError::Unauthorized => String::from_str("Unauthorized, please login first"),
            CommonError::PermissionDenied => String::from_str("Permission denied"),
            CommonError::ValueShouldBeInRangeError { field, min, max } => {
                let mut out = String::from_str("Length of ");
                push_quoted(&mut out, field.as_str());
                out.append(" must be in range [");
                push_decimal(&mut out, *min as u64);
                out.append(", ");
                push_decimal(&mut out, *max as u64);
                out.append(")");
                out
            },
        }
    }
}

/// The code and the message of an error.
pub fn get_error_code(error: CommonError) -> (info: ErrorInfo)
    ensures
        info.code == error.code_spec(),
        info.message@ == error.message_spec(),
{
    ErrorInfo { code: error.code(), message: error.to_string() }
}

impl From<CommonError> for ErrorInfo {
    fn from(error: CommonError) -> (info: Self)
        ensures
            info.code == error.code_spec(),
            info.message@ == error.message_spec(),
    {
        get_error_code(error)
    }
}

impl vstd::std_specs::convert::FromSpecImpl<CommonError> for ErrorInfo {
    open spec fn obeys_from_spec() -> bool {
        false
    }

    open spec fn from_spec(error: CommonError) -> Self {
        arbitrary()
    }
}

impl From<ErrorInfo> for CommonError {
    fn from(error: ErrorInfo) -> (wrapped: Self) {
        CommonError::RemoteError(error)
    }
}

impl vstd::std_specs::convert::FromSpecImpl<ErrorInfo> for CommonError {
    open spec fn obeys_from_spec() -> bool {
        true
    }

    open spec fn from_spec(error: ErrorInfo) -> Self {
        CommonError::RemoteError(error)
    }
}

pub type ServiceResult<T> = Result<T, CommonError>;

pub type ActorResult<T> = Result<T, ErrorInfo>;

/// What a call that answers yes or no returns to a remote caller.
#[derive(Debug, Clone, PartialEq, Eq)]
pub enum BooleanActorResponse {
    Success(bool),
    Failure(ErrorInfo),
}

impl BooleanActorResponse {
    /// Whether this is what `new` makes of a result: the answer itself, or
    /// the code and the message of the error.
    pub open spec fn renders(self, result: ServiceResult<bool>) -> bool {
        match result {
            Ok(answer) => self == BooleanActorResponse::Success(answer),
            Err(error) => self matches BooleanActorResponse::Failure(info) && info.code
                == error.code_spec() && info.message@ == error.message_spec(),
        }
    }

    /// The answer of a service, in the form that leaves it.
    pub fn new(result: ServiceResult<bool>) -> (response: BooleanActorResponse)
        ensures
            response.renders(result),
    {
        match result {
            Ok(available) => BooleanActorResponse::Success(available),
            Err(err) => BooleanActorResponse::Failure(get_error_code(err)),
        }
    }
}

} // verus!
