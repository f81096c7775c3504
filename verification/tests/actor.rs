use naming_registry::actor::{
    add_quota, approve, batch_transfer_quota, get_names, get_quota, init_function,
    set_registry_owner, transfer, transfer_from, transfer_from_quota, transfer_quota,
    BatchTransferRequest, TransferFromQuotaRequest,
};
use naming_registry::common::actor::{load_state_guard, load_state_response};
use naming_registry::common::canister_api::{
    call_canister_as_actor_result, call_canister_as_result, call_rejected, management_error,
};
use naming_registry::common::errors::{self as common_errors, CommonError, ErrorInfo};
use naming_registry::errors::{BooleanActorResponse, MockError};
use naming_registry::identity::Identity;
use naming_registry::state::{owner_of, validate_name, State};
use naming_registry::user::{mock_user, mock_user1, mock_user2, mock_user3};
use naming_registry::user_quota_store::{QuotaType, TransferQuotaDetails};

const STANDARD: QuotaType = QuotaType::LenGte(7);

fn failure(error: MockError) -> BooleanActorResponse {
    BooleanActorResponse::Failure(ErrorInfo { code: error.code(), message: error.to_string() })
}

fn fresh(owner: &Identity) -> State {
    let mut state = State::new();
    init_function(&mut state, owner.clone());
    state
}

#[test]
fn a_fresh_registry_holds_four_names() {
    let service = mock_user(100);
    let state = fresh(&service);
    let mut names = get_names(&state).unwrap().names;
    names.sort();
    let text = service.to_text();
    let expected: Vec<(String, String)> = ["user1.org", "user2.org", "user3.org", "user4.org"]
        .iter()
        .map(|n| (n.to_string(), text.clone()))
        .collect();
    assert_eq!(names, expected);
    assert_eq!(get_names(&State::new()).unwrap().names, vec![]);
}

#[test]
fn names_are_listed_with_the_text_of_their_owner() {
    let mut state = State::new();
    state.insert_registration(&validate_name("alice.icp").unwrap(), Identity::anonymous());
    state.insert_registration(&validate_name("bob.icp").unwrap(), Identity::from_slice(&[]));
    state.insert_registration(&validate_name("alice.icp").unwrap(), mock_user1());
    let mut names = get_names(&state).unwrap().names;
    names.sort();
    assert_eq!(
        names,
        vec![
            ("alice.icp".to_string(), mock_user1().to_text()),
            ("bob.icp".to_string(), "aaaaa-aa".to_string()),
        ]
    );
}

#[test]
fn the_registry_owner_is_set_for_registered_names_only() {
    let service = mock_user(100);
    let mut state = fresh(&service);
    assert_eq!(
        set_registry_owner(&mut state, "user1.org", mock_user1()),
        Ok(BooleanActorResponse::Success(true))
    );
    assert_eq!(
        set_registry_owner(&mut state, "user9.org", mock_user1()),
        Ok(BooleanActorResponse::Success(false))
    );
    assert_eq!(
        set_registry_owner(&mut state, " USER2.org", mock_user1()),
        Ok(BooleanActorResponse::Success(false))
    );
    assert_eq!(owner_of(&state, &validate_name("user1.org").unwrap()), Some(mock_user1()));
    assert_eq!(owner_of(&state, &validate_name("user2.org").unwrap()), Some(service));
    assert_eq!(owner_of(&state, &validate_name("user9.org").unwrap()), None);
}

#[test]
fn calls_on_names_answer_true_or_report_the_error() {
    let o = mock_user1();
    let d = mock_user2();
    let mut state = fresh(&o);
    assert_eq!(
        approve(&mut state, &d, "user1.org", d.clone()),
        failure(MockError::PermissionDenied)
    );
    assert_eq!(
        approve(&mut state, &Identity::anonymous(), "user1.org", d.clone()),
        failure(MockError::Unauthorized)
    );
    assert_eq!(
        approve(&mut state, &o, "user1", d.clone()),
        BooleanActorResponse::Failure(ErrorInfo {
            code: 6,
            message: "name is invalid, reason: \"it must be second level name\"".to_string(),
        })
    );
    assert_eq!(approve(&mut state, &o, "user1.org", d.clone()), BooleanActorResponse::Success(true));
    assert_eq!(
        transfer_from(&mut state, &mock_user3(), "user1.org"),
        failure(MockError::PermissionDenied)
    );
    assert_eq!(transfer_from(&mut state, &d, "user1.org"), BooleanActorResponse::Success(true));
    assert_eq!(
        transfer(&mut state, &o, "user1.org", mock_user3()),
        BooleanActorResponse::Failure(ErrorInfo {
            code: 8,
            message: "permission deny".to_string(),
        })
    );
    assert_eq!(
        transfer(&mut state, &d, "user1.org", mock_user3()),
        BooleanActorResponse::Success(true)
    );
    assert_eq!(
        transfer(&mut state, &d, "nobody.org", mock_user3()),
        BooleanActorResponse::Failure(ErrorInfo {
            code: 10,
            message: "Registration is not found".to_string(),
        })
    );
    assert_eq!(owner_of(&state, &validate_name("user1.org").unwrap()), Some(mock_user3()));
}

#[test]
fn quota_is_granted_by_the_admin_where_there_is_one() {
    let admin = mock_user(100);
    let a = mock_user1();
    let mut state = State::new();
    assert_eq!(
        add_quota(&mut state, &a, Some(&admin), a.clone(), STANDARD, 5),
        Err(MockError::PermissionDenied)
    );
    assert_eq!(get_quota(&state, &a, STANDARD), Ok(0));
    assert_eq!(
        add_quota(&mut state, &admin, Some(&admin), a.clone(), STANDARD, 5),
        Ok(BooleanActorResponse::Success(true))
    );
    assert_eq!(
        add_quota(&mut state, &a, None, a.clone(), STANDARD, 2),
        Ok(BooleanActorResponse::Success(true))
    );
    assert_eq!(get_quota(&state, &a, STANDARD), Ok(7));
    assert_eq!(get_quota(&state, &admin, STANDARD), Ok(0));
    assert_eq!(get_quota(&state, &a, QuotaType::LenEq(7)), Ok(0));
}

#[test]
fn quota_calls_answer_true_or_report_the_error() {
    let a = mock_user1();
    let b = mock_user2();
    let c = mock_user3();
    let mut state = State::new();
    add_quota(&mut state, &a, None, a.clone(), STANDARD, 5).unwrap();
    assert_eq!(
        transfer_quota(&mut state, &a, b.clone(), STANDARD, 6),
        BooleanActorResponse::Failure(ErrorInfo {
            code: 29,
            message: "insufficient quota".to_string(),
        })
    );
    assert_eq!(
        transfer_quota(&mut state, &Identity::anonymous(), b.clone(), STANDARD, 1),
        BooleanActorResponse::Failure(ErrorInfo {
            code: 20,
            message: "Unauthorized, please login first".to_string(),
        })
    );
    assert_eq!(
        transfer_quota(&mut state, &a, a.clone(), STANDARD, 1),
        BooleanActorResponse::Failure(ErrorInfo { code: 4, message: "owner is invalid".to_string() })
    );
    assert_eq!(
        transfer_quota(&mut state, &a, b.clone(), STANDARD, 0),
        BooleanActorResponse::Failure(ErrorInfo {
            code: 21,
            message: "invalid quota order details".to_string(),
        })
    );
    assert_eq!(
        transfer_quota(&mut state, &a, b.clone(), STANDARD, 1),
        BooleanActorResponse::Success(true)
    );
    let request = TransferFromQuotaRequest {
        from: a.clone(),
        to: c.clone(),
        quota_type: STANDARD,
        diff: 1,
    };
    assert_eq!(transfer_from_quota(&mut state, request), BooleanActorResponse::Success(true));
    let request = TransferFromQuotaRequest {
        from: b.clone(),
        to: c.clone(),
        quota_type: STANDARD,
        diff: 2,
    };
    assert_eq!(transfer_from_quota(&mut state, request), failure(MockError::InsufficientQuota));
    let batch = BatchTransferRequest {
        items: vec![
            TransferQuotaDetails { to: b.clone(), quota_type: STANDARD, diff: 2 },
            TransferQuotaDetails { to: c.clone(), quota_type: STANDARD, diff: 10 },
        ],
    };
    assert_eq!(
        batch_transfer_quota(&mut state, &a, batch),
        failure(MockError::InsufficientQuota)
    );
    let batch = BatchTransferRequest {
        items: vec![
            TransferQuotaDetails { to: b.clone(), quota_type: STANDARD, diff: 2 },
            TransferQuotaDetails { to: c.clone(), quota_type: STANDARD, diff: 1 },
        ],
    };
    assert_eq!(batch_transfer_quota(&mut state, &a, batch), BooleanActorResponse::Success(true));
    assert_eq!(get_quota(&state, &a, STANDARD), Ok(0));
    assert_eq!(get_quota(&state, &b, STANDARD), Ok(3));
    assert_eq!(get_quota(&state, &c, STANDARD), Ok(2));
}

#[test]
fn a_rejected_call_keeps_code_and_message() {
    let error = call_rejected(4, "canister trapped".to_string());
    assert_eq!(
        error,
        CommonError::RemoteError(ErrorInfo { code: 4, message: "canister trapped".to_string() })
    );
    let info = common_errors::get_error_code(error.clone());
    assert_eq!(info.code, 2);
    assert_eq!(
        info.message,
        "error from remote, ErrorInfo { code: 4, message: \"canister trapped\" }"
    );
    assert_eq!(call_canister_as_result::<u32>(Err(error.clone())), Err(info.clone()));
    assert_eq!(call_canister_as_result(Ok(7u32)), Ok(7));
    assert_eq!(call_canister_as_actor_result::<u32>(Err(error)), Err(info.clone()));
    assert_eq!(call_canister_as_actor_result(Ok(Ok(7u32))), Ok(7));
    assert_eq!(call_canister_as_actor_result::<u32>(Ok(Err(info.clone()))), Err(info));
    assert_eq!(
        management_error(5, "out of cycles"),
        "An error happened during the call: 5: out of cycles"
    );
    assert_eq!(management_error(255, ""), "An error happened during the call: 255: ");
    assert_eq!(management_error(0, "x"), "An error happened during the call: 0: x");
}

#[test]
fn a_state_is_loaded_in_development_by_the_owner() {
    assert_eq!(load_state_guard(false, true), Err(CommonError::Unknown));
    assert_eq!(load_state_guard(false, false), Err(CommonError::Unknown));
    assert_eq!(load_state_guard(true, false), Err(CommonError::PermissionDenied));
    assert_eq!(load_state_guard(true, true), Ok(()));
    assert_eq!(
        load_state_response(true),
        common_errors::BooleanActorResponse::Success(true)
    );
    assert_eq!(
        load_state_response(false),
        common_errors::BooleanActorResponse::Failure(ErrorInfo {
            code: 1,
            message: "there is a unknown error raised".to_string(),
        })
    );
}

#[test]
fn the_ledger_of_a_state_can_be_read() {
    let a = mock_user1();
    let mut state = State::new();
    add_quota(&mut state, &a, None, a.clone(), STANDARD, 5).unwrap();
    let store = state.quota_store();
    assert_eq!(
        store.get_quota(&naming_registry::user_quota_store::AuthPrincipal(a.clone()), &STANDARD),
        5
    );
    assert!(store.has_room_for(&[TransferQuotaDetails {
        to: a,
        quota_type: STANDARD,
        diff: u32::MAX - 5,
    }]));
}
