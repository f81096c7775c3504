use naming_registry::common::errors::{CommonError, ErrorInfo};
use naming_registry::errors::{get_error_code, BooleanActorResponse, MockError};

#[test]
fn codes_follow_the_table() {
    assert_eq!(MockError::Unknown.code(), 1);
    assert_eq!(MockError::InvalidOwner.code(), 4);
    assert_eq!(MockError::OwnerOnly.code(), 5);
    assert_eq!(MockError::PermissionDenied.code(), 8);
    assert_eq!(MockError::RegistrationNotFound.code(), 10);
    assert_eq!(MockError::Unauthorized.code(), 20);
    assert_eq!(MockError::InsufficientQuota.code(), 29);
    assert_eq!(MockError::InvalidApproveAmount.code(), 31);
    assert_eq!(CommonError::PermissionDenied.code(), 4);
}

#[test]
fn message_quotes_strings_and_prints_numbers() {
    let e = MockError::InvalidName { reason: "it must be second level name".to_string() };
    assert_eq!(e.to_string(), "name is invalid, reason: \"it must be second level name\"");
    let e = MockError::YearsRangeError { min: 1, max: 10 };
    assert_eq!(e.to_string(), "year must be in rang [1,10)");
    let e = MockError::ValueShouldBeInRangeError { field: "a\"b".to_string(), min: 0, max: 4096 };
    assert_eq!(e.to_string(), "Length of \"a\\\"b\" must be in range [0, 4096)");
}

#[test]
fn remote_error_prints_the_inner_error() {
    let inner = ErrorInfo { code: 8, message: "permission deny".to_string() };
    assert_eq!(inner.to_string(), "8 permission deny");
    let e = MockError::RemoteError(inner.clone());
    assert_eq!(e.to_string(), format!("error from remote, {:?}", inner));
    assert_eq!(
        e.to_string(),
        "error from remote, ErrorInfo { code: 8, message: \"permission deny\" }"
    );
}

#[test]
fn response_carries_code_and_message() {
    assert_eq!(BooleanActorResponse::new(Ok(true)), BooleanActorResponse::Success(true));
    let info = get_error_code(MockError::InsufficientQuota);
    assert_eq!(info, ErrorInfo { code: 29, message: "insufficient quota".to_string() });
    assert_eq!(
        BooleanActorResponse::new(Err(MockError::InsufficientQuota)),
        BooleanActorResponse::Failure(info)
    );
}

fn s(text: &str) -> String {
    text.to_string()
}

#[test]
fn every_error_has_its_code_and_message() {
    let table: Vec<(MockError, u32, &str)> = vec![
        (MockError::Unknown, 1, "there is a unknown error raised"),
        (
            MockError::RemoteError(ErrorInfo { code: 0, message: s("") }),
            2,
            "error from remote, ErrorInfo { code: 0, message: \"\" }",
        ),
        (MockError::InvalidCanisterName, 3, "the canister name is not allow"),
        (MockError::InvalidOwner, 4, "owner is invalid"),
        (MockError::OwnerOnly, 5, "caller not changed since you are not the owner"),
        (MockError::InvalidName { reason: s("r") }, 6, "name is invalid, reason: \"r\""),
        (MockError::NameUnavailable { reason: s("r") }, 7, "name is unavailable, reason: \"r\""),
        (MockError::PermissionDenied, 8, "permission deny"),
        (MockError::RegistrationHasBeenTaken, 9, "Registration has been taken"),
        (MockError::RegistrationNotFound, 10, "Registration is not found"),
        (MockError::TopNameAlreadyExists, 11, "Top level named had been set"),
        (MockError::RegistryNotFoundError { name: s("n") }, 12, "registry for \"n\" is not found"),
        (MockError::ResolverNotFoundError { name: s("n") }, 13, "resolver for \"n\" is not found"),
        (
            MockError::OperatorShouldNotBeTheSameToOwner,
            14,
            "operator should not be the same to the owner",
        ),
        (MockError::YearsRangeError { min: 0, max: u32::MAX }, 15, "year must be in rang [0,4294967295)"),
        (MockError::InvalidResolverKey { key: s("k\n") }, 16, "invalid resolver key: \"k\\n\""),
        (MockError::ValueMaxLengthError { max: 512 }, 17, "Length of value must be less than 512"),
        (
            MockError::ValueShouldBeInRangeError { field: s("f"), min: 1, max: 9 },
            18,
            "Length of \"f\" must be in range [1, 9)",
        ),
        (
            MockError::TooManyFavorites { max: 100 },
            19,
            "You have reached the maximum number of favorites: 100",
        ),
        (MockError::Unauthorized, 20, "Unauthorized, please login first"),
        (MockError::InvalidQuotaOrderDetails, 21, "invalid quota order details"),
        (MockError::PendingOrder, 22, "please finish the previous order first"),
        (MockError::OrderNotFound, 23, "quota order is not found"),
        (MockError::RefundFailed, 24, "refund failed, please try again later"),
        (MockError::OperatorCountExceeded, 25, "too many operators"),
        (
            MockError::CanisterCallError { rejection_code: s("SysFatal"), message: s("m") },
            26,
            "canister call error, rejected by \"SysFatal\"",
        ),
        (
            MockError::InvalidResolverValueFormat { value: s("v"), format: s("f") },
            27,
            "invalid resolver value format for \"v\", it should be formatted as \"f\"",
        ),
        (MockError::Conflict, 28, "some operations are processing, please try again later"),
        (MockError::InsufficientQuota, 29, "insufficient quota"),
        (
            MockError::RenewalYearsError { years: 10 },
            30,
            "it is not allowed to renew the name more than 10 years",
        ),
        (MockError::InvalidApproveAmount, 31, "price changed, please refresh and try again"),
    ];
    assert_eq!(table.len(), 31);
    for (error, code, message) in table {
        assert_eq!(error.code(), code);
        assert_eq!(error.to_string(), message);
        let info = get_error_code(error.clone());
        assert_eq!(info, ErrorInfo { code, message: message.to_string() });
        assert_eq!(ErrorInfo::from(error), info);
    }
}

#[test]
fn every_common_error_has_its_code_and_message() {
    let table: Vec<(CommonError, u32, &str)> = vec![
        (CommonError::Unknown, 1, "there is a unknown error raised"),
        (
            CommonError::RemoteError(ErrorInfo { code: 31, message: s("tab\there") }),
            2,
            "error from remote, ErrorInfo { code: 31, message: \"tab\\there\" }",
        ),
        (CommonError::Unauthorized, 3, "Unauthorized, please login first"),
        (CommonError::PermissionDenied, 4, "Permission denied"),
        (
            CommonError::ValueShouldBeInRangeError { field: s("limit"), min: 1, max: 100 },
            5,
            "Length of \"limit\" must be in range [1, 100)",
        ),
    ];
    for (error, code, message) in table {
        assert_eq!(error.code(), code);
        assert_eq!(error.to_string(), message);
        let info = naming_registry::common::errors::get_error_code(error.clone());
        assert_eq!(info, ErrorInfo { code, message: message.to_string() });
        assert_eq!(ErrorInfo::from(error.clone()), info);
        assert_eq!(
            naming_registry::common::errors::BooleanActorResponse::new(Err(error)),
            naming_registry::common::errors::BooleanActorResponse::Failure(info)
        );
    }
    assert_eq!(
        naming_registry::common::errors::BooleanActorResponse::new(Ok(false)),
        naming_registry::common::errors::BooleanActorResponse::Success(false)
    );
}

#[test]
fn an_error_that_came_from_afar_is_wrapped() {
    let info = ErrorInfo { code: 4294967295, message: s("far away") };
    assert_eq!(info.to_string(), "4294967295 far away");
    assert_eq!(MockError::from(info.clone()), MockError::RemoteError(info.clone()));
    assert_eq!(CommonError::from(info.clone()), CommonError::RemoteError(info));
    assert_eq!(ErrorInfo { code: 0, message: s("") }.to_string(), "0 ");
    assert_eq!(ErrorInfo { code: 10, message: s("x") }.to_string(), "10 x");
}

#[test]
fn quoting_escapes_as_the_standard_library_does() {
    for reason in ["", "plain", "with \"quotes\"", "back\\slash", "line\nbreak", "é\u{301}", "\u{0}"] {
        let e = MockError::InvalidName { reason: reason.to_string() };
        assert_eq!(e.to_string(), format!("name is invalid, reason: {:?}", reason));
    }
}
