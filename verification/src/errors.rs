//! The errors of the registry.

use crate::common::errors::ErrorInfo;
use crate::text::{decimal_text, push_decimal, push_quoted, quoted_text};
use vstd::prelude::*;

verus! {

/// Everything that a call into the registry can fail with.
#[derive(Debug, Clone, PartialEq, Eq, PartialOrd, Ord)]
pub enum MockError {
    Unknown,
    RemoteError(ErrorInfo),
    InvalidCanisterName,
    OwnerOnly,
    InvalidOwner,
    InvalidName { reason: String },
    NameUnavailable { reason: String },
    PermissionDenied,
    RegistrationHasBeenTaken,
    RegistrationNotFound,
    TopNameAlreadyExists,
    RegistryNotFoundError { name: String },
    ResolverNotFoundError { name: String },
    OperatorShouldNotBeTheSameToOwner,
    YearsRangeError { min: u32, max: u32 },
    InvalidResolverKey { key: String },
    ValueMaxLengthError { max: usize },
    ValueShouldBeInRangeError { field: String, min: usize, max: usize },
    TooManyFavorites { max: usize },
    Unauthorized,
    InvalidQuotaOrderDetails,
    PendingOrder,
    OrderNotFound,
    RefundFailed,
    OperatorCountExceeded,
    CanisterCallError { rejection_code: String, message: String },
    InvalidResolverValueFormat { value: String, format: String },
    Conflict,
    InsufficientQuota,
    RenewalYearsError { years: u32 },
    InvalidApproveAmount,
}

impl MockError {
    /// The number by which a remote caller tells the errors apart.
    pub open spec fn code_spec(&self) -> u32 {
        match self {
            MockError::Unknown => 1,
            MockError::RemoteError(_) => 2,
            MockError::InvalidCanisterName => 3,
            MockError::OwnerOnly => 5,
            MockError::InvalidOwner => 4,
            MockError::InvalidName { .. } => 6,
            MockError::NameUnavailable { .. } => 7,
            MockError::PermissionDenied => 8,
            MockError::RegistrationHasBeenTaken => 9,
            MockError::RegistrationNotFound => 10,
            MockError::TopNameAlreadyExists => 11,
            MockError::RegistryNotFoundError { .. } => 12,
            MockError::ResolverNotFoundError { .. } => 13,
            MockError::OperatorShouldNotBeTheSameToOwner => 14,
            MockError::YearsRangeError { .. } => 15,
            MockError::InvalidResolverKey { .. } => 16,
            MockError::ValueMaxLengthError { .. } => 17,
            MockError::ValueShouldBeInRangeError { .. } => 18,
            MockError::TooManyFavorites { .. } => 19,
            MockError::Unauthorized => 20,
            MockError::InvalidQuotaOrderDetails => 21,
            MockError::PendingOrder => 22,
            MockError::OrderNotFound => 23,
            MockError::RefundFailed => 24,
            MockError::OperatorCountExceeded => 25,
            MockError::CanisterCallError { .. } => 26,
            MockError::InvalidResolverValueFormat { .. } => 27,
            MockError::Conflict => 28,
            MockError::InsufficientQuota => 29,
            MockError::RenewalYearsError { .. } => 30,
            MockError::InvalidApproveAmount => 31,
        }
    }

    /// The sentence that describes the error. A string in it stands between
    /// quotes, a number in decimal.
    pub open spec fn message_spec(&self) -> Seq<char> {
        match self {
            MockError::Unknown => "there is a unknown error raised"@,
            MockError::RemoteError(info) => "error from remote, "@ + info.quoted_form(),
            MockError::InvalidCanisterName => "the canister name is not allow"@,
            MockError::OwnerOnly => "caller not changed since you are not the owner"@,
            MockError::InvalidOwner => "owner is invalid"@,
            MockError::InvalidName { reason } => "name is invalid, reason: "@
                + quoted_text(reason@),
            MockError::NameUnavailable { reason } => "name is unavailable, reason: "@
                + quoted_text(reason@),
            MockError::PermissionDenied => "permission deny"@,
            MockError::RegistrationHasBeenTaken => "Registration has been taken"@,
            MockError::RegistrationNotFound => "Registration is not found"@,
            MockError::TopNameAlreadyExists => "Top level named had been set"@,
            MockError::RegistryNotFoundError { name } => "registry for "@ + quoted_text(name@)
                + " is not found"@,
            MockError::ResolverNotFoundError { name } => "resolver for "@ + quoted_text(name@)
                + " is not found"@,
            MockError::OperatorShouldNotBeTheSameToOwner => "operator should not be the same to the owner"@,
            MockError::YearsRangeError { min, max } => "year must be in rang ["@
                + decimal_text(*min as nat) + ","@ + decimal_text(*max as nat) + ")"@,
            MockError::InvalidResolverKey { key } => "invalid resolver key: "@ + quoted_text(key@),
            MockError::ValueMaxLengthError { max } => "Length of value must be less than "@
                + decimal_text(*max as nat),
            MockError::ValueShouldBeInRangeError { field, min, max } => "Length of "@
                + quoted_text(field@) + " must be in range ["@ + decimal_text(*min as nat) + ", "@
                + decimal_text(*max as nat) + ")"@,
            MockError::TooManyFavorites { max } => "You have reached the maximum number of favorites: "@
                + decimal_text(*max as nat),
            MockError::Unauthorized => "Unauthorized, please login first"@,
            MockError::InvalidQuotaOrderDetails => "invalid quota order details"@,
            MockError::PendingOrder => "please finish the previous order first"@,
            MockError::OrderNotFound => "quota order is not found"@,
            MockError::RefundFailed => "refund failed, please try again later"@,
            MockError::OperatorCountExceeded => "too many operators"@,
            MockError::CanisterCallError { rejection_code, .. } => "canister call error, rejected by "@
                + quoted_text(rejection_code@),
            MockError::InvalidResolverValueFormat { value, format } => "invalid resolver value format for "@
                + quoted_text(value@) + ", it should be formatted as "@ + quoted_text(format@),
            MockError::Conflict => "some operations are processing, please try again later"@,
            MockError::InsufficientQuota => "insufficient quota"@,
            MockError::RenewalYearsError { years } => "it is not allowed to renew the name more than "@
                + decimal_text(*years as nat) + " years"@,
            MockError::InvalidApproveAmount => "price changed, please refresh and try again"@,
        }
    }

    /// The number by which a remote caller tells the errors apart.
    pub fn code(&self) -> (code: u32)
        ensures
            code == self.code_spec(),
    {
        match self {
            MockError::Unknown => 1,
            MockError::RemoteError(_) => 2,
            MockError::InvalidCanisterName => 3,
            MockError::OwnerOnly => 5,
            MockError::InvalidOwner => 4,
            MockError::InvalidName { .. } => 6,
            MockError::NameUnavailable { .. } => 7,
            MockError::PermissionDenied => 8,
            MockError::RegistrationHasBeenTaken => 9,
            MockError::RegistrationNotFound => 10,
            MockError::TopNameAlreadyExists => 11,
            MockError::RegistryNotFoundError { .. } => 12,
            MockError::ResolverNotFoundError { .. } => 13,
            MockError::OperatorShouldNotBeTheSameToOwner => 14,
            MockError::YearsRangeError { .. } => 15,
            MockError::InvalidResolverKey { .. } => 16,
            MockError::ValueMaxLengthError { .. } => 17,
            MockError::ValueShouldBeInRangeError { .. } => 18,
            MockError::TooManyFavorites { .. } => 19,
            MockError::Unauthorized => 20,
            MockError::InvalidQuotaOrderDetails => 21,
            MockError::PendingOrder => 22,
            MockError::OrderNotFound => 23,
            MockError::RefundFailed => 24,
            MockError::OperatorCountExceeded => 25,
            MockError::CanisterCallError { .. } => 26,
            MockError::InvalidResolverValueFormat { .. } => 27,
            MockError::Conflict => 28,
            MockError::InsufficientQuota => 29,
            MockError::RenewalYearsError { .. } => 30,
            MockError::InvalidApproveAmount => 31,
        }
    }

    /// The sentence that describes the error.
    pub fn to_string(&self) -> (out: String)
        ensures
            out@ == self.message_spec(),
    {
        match self {
            MockError::Unknown => String::from_str("there is a unknown error raised"),
            MockError::RemoteError(info) => {
                let mut out = String::from_str("error from remote, ");
                info.push_quoted_form(&mut out);
                out
            },
            MockError::InvalidCanisterName => String::from_str("the canister name is not allow"),
            MockError::OwnerOnly => String::from_str("caller not changed since you are not the owner"),
            MockError::InvalidOwner => String::from_str("owner is invalid"),
            MockError::InvalidName { reason } => {
                let mut out = String::from_str("name is invalid, reason: ");
                push_quoted(&mut out, reason.as_str());
                out
            },
            MockError::NameUnavailable { reason } => {
                let mut out = String::from_str("name is unavailable, reason: ");
                push_quoted(&mut out, reason.as_str());
                out
            },
            MockError::PermissionDenied => String::from_str("permission deny"),
            MockError::RegistrationHasBeenTaken => String::from_str("Registration has been taken"),
            MockError::RegistrationNotFound => String::from_str("Registration is not found"),
            MockError::TopNameAlreadyExists => String::from_str("Top level named had been set"),
            MockError::RegistryNotFoundError { name } => {
                let mut out = String::from_str("registry for ");
                push_quoted(&mut out, name.as_str());
                out.append(" is not found");
                out
            },
            MockError::ResolverNotFoundError { name } => {
                let mut out = String::from_str("resolver for ");
                push_quoted(&mut out, name.as_str());
                out.append(" is not found");
                out
            },
            MockError::OperatorShouldNotBeTheSameToOwner => String::from_str("operator should not be the same to the owner"),
            MockError::YearsRangeError { min, max } => {
                let mut out = String::from_str("year must be in rang [");
                push_decimal(&mut out, *min as u64);
                out.append(",");
                push_decimal(&mut out, *max as u64);
                out.append(")");
                out
            },
            MockError::InvalidResolverKey { key } => {
                let mut out = String::from_str("invalid resolver key: ");
                push_quoted(&mut out, key.as_str());
                out
            },
            MockError::ValueMaxLengthError { max } => {
                let mut out = String::from_str("Length of value must be less than ");
                push_decimal(&mut out, *max as u64);
                out
            },
            MockError::ValueShouldBeInRangeError { field, min, max } => {
                let mut out = String::from_str("Length of ");
                push_quoted(&mut out, field.as_str());
                out.append(" must be in range [");
                push_decimal(&mut out, *min as u64);
                out.append(", ");
                push_decimal(&mut out, *max as u64);
                out.append(")");
                out
            },
            MockError::TooManyFavorites { max } => {
                let mut out = String::from_str("You have reached the maximum number of favorites: ");
                push_decimal(&mut out, *max as u64);
                out
            },
            MockError::Unauthorized => String::from_str("Unauthorized, please login first"),
            MockError::InvalidQuotaOrderDetails => String::from_str("invalid quota order details"),
            MockError::PendingOrder => String::from_str("please finish the previous order first"),
            MockError::OrderNotFound => String::from_str("quota order is not found"),
            MockError::RefundFailed => String::from_str("refund failed, please try again later"),
            MockError::OperatorCountExceeded => String::from_str("too many operators"),
            MockError::CanisterCallError { rejection_code, .. } => {
                let mut out = String::from_str("canister call error, rejected by ");
                push_quoted(&mut out, rejection_code.as_str());
                out
            },
            MockError::InvalidResolverValueFormat { value, format } => {
                let mut out = String::from_str("invalid resolver value format for ");
                push_quoted(&mut out, value.as_str());
                out.append(", it should be formatted as ");
                push_quoted(&mut out, format.as_str());
                out
            },
            MockError::Conflict => String::from_str("some operations are processing, please try again later"),
            MockError::InsufficientQuota => String::from_str("insufficient quota"),
            MockError::RenewalYearsError { years } => {
                let mut out = String::from_str("it is not allowed to renew the name more than ");
                push_decimal(&mut out, *years as u64);
                out.append(" years");
                out
            },
            MockError::InvalidApproveAmount => String::from_str("price changed, please refresh and try again"),
        }
    }
}

/// The code and the message of an error.
pub fn get_error_code(error: MockError) -> (info: ErrorInfo)
    ensures
        info.code == error.code_spec(),
        info.message@ == error.message_spec(),
{
    ErrorInfo { code: error.code(), message: error.to_string() }
}

impl From<MockError> for ErrorInfo {
    fn from(error: MockError) -> (info: Self)
        ensures
            info.code == error.code_spec(),
            info.message@ == error.message_spec(),
    {
        get_error_code(error)
    }
}

impl vstd::std_specs::convert::FromSpecImpl<MockError> for ErrorInfo {
    open spec fn obeys_from_spec() -> bool {
        false
    }

    open spec fn from_spec(error: MockError) -> Self {
        arbitrary()
    }
}

impl From<ErrorInfo> for MockError {
    fn from(error: ErrorInfo) -> (wrapped: Self) {
        MockError::RemoteError(error)
    }
}

impl vstd::std_specs::convert::FromSpecImpl<ErrorInfo> for MockError {
    open spec fn obeys_from_spec() -> bool {
        true
    }

    open spec fn from_spec(error: ErrorInfo) -> Self {
        MockError::RemoteError(error)
    }
}

pub type ServiceResult<T> = Result<T, MockError>;

pub type ActorResult<T> = Result<T, ErrorInfo>;

/// What a call that answers yes or no returns to a remote caller.
#[derive(Debug, Clone, PartialEq, Eq)]
pub enum BooleanActorResponse {
    Success(bool),
    Failure(ErrorInfo),
}

impl BooleanActorResponse {
    /// Whether this is the failure that carries the code and the message of
    /// an error.
    pub open spec fn reports(self, error: MockError) -> bool {
        self matches BooleanActorResponse::Failure(info) && info.code == error.code_spec()
            && info.message@ == error.message_spec()
    }

    /// Whether this is what `new` makes of a result: the answer itself, or
    /// the code and the message of the error.
    pub open spec fn renders(self, result: ServiceResult<bool>) -> bool {
        match result {
            Ok(answer) => self == BooleanActorResponse::Success(answer),
            Err(error) => self.reports(error),
        }
    }

    /// The answer of the registry, in the form that leaves it.
    pub fn new(result: ServiceResult<bool>) -> (response: BooleanActorResponse)
        ensures
            response.renders(result),
    {
        match result {
            Ok(available) => BooleanActorResponse::Success(available),
            Err(err) => BooleanActorResponse::Failure(get_error_code(err)),
        }
    }
}

} // verus!
