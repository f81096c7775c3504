use naming_registry::errors::MockError;
use naming_registry::identity::Identity;
use naming_registry::user::{mock_user, mock_user1, mock_user2, mock_user3};
use naming_registry::user_quota_store::{
    AuthPrincipal, QuotaType, TransferQuotaDetails, UserQuotaStore,
};

const STANDARD: QuotaType = QuotaType::LenGte(7);
const SHORT: QuotaType = QuotaType::LenEq(3);

fn auth(id: &Identity) -> AuthPrincipal {
    AuthPrincipal(id.clone())
}

fn leg(to: &Identity, quota_type: QuotaType, diff: u32) -> TransferQuotaDetails {
    TransferQuotaDetails { to: to.clone(), quota_type, diff }
}

fn balance(store: &UserQuotaStore, id: &Identity, quota_type: QuotaType) -> u32 {
    store.get_quota(&auth(id), &quota_type)
}

#[test]
fn a_balance_never_credited_is_zero() {
    let store = UserQuotaStore::new();
    assert_eq!(balance(&store, &mock_user1(), STANDARD), 0);
    assert_eq!(balance(&store, &Identity::anonymous(), SHORT), 0);
}

#[test]
fn every_credit_adds_again() {
    let a = mock_user1();
    let mut store = UserQuotaStore::new();
    store.add_quota(auth(&a), STANDARD, 5);
    store.add_quota(auth(&a), STANDARD, 5);
    store.add_quota(auth(&a), SHORT, 1);
    store.add_quota(auth(&a), QuotaType::LenGte(3), 2);
    store.add_quota(auth(&a), STANDARD, 0);
    assert_eq!(balance(&store, &a, STANDARD), 10);
    assert_eq!(balance(&store, &a, SHORT), 1);
    assert_eq!(balance(&store, &a, QuotaType::LenGte(3)), 2);
    assert_eq!(balance(&store, &a, QuotaType::LenEq(7)), 0);
    assert_eq!(balance(&store, &mock_user2(), STANDARD), 0);
    store.add_quota(auth(&mock_user2()), STANDARD, u32::MAX);
    assert_eq!(balance(&store, &mock_user2(), STANDARD), u32::MAX);
}

#[test]
fn subtract_needs_the_funds() {
    let a = mock_user1();
    let mut store = UserQuotaStore::new();
    store.add_quota(auth(&a), STANDARD, 5);
    assert_eq!(store.sub_quota(&auth(&a), &STANDARD, 6), Err(MockError::InsufficientQuota));
    assert_eq!(balance(&store, &a, STANDARD), 5);
    assert_eq!(store.sub_quota(&auth(&a), &SHORT, 1), Err(MockError::InsufficientQuota));
    assert_eq!(store.sub_quota(&auth(&a), &STANDARD, 2), Ok(()));
    assert_eq!(balance(&store, &a, STANDARD), 3);
    assert_eq!(store.sub_quota(&auth(&a), &STANDARD, 3), Ok(()));
    assert_eq!(balance(&store, &a, STANDARD), 0);
    assert_eq!(store.sub_quota(&auth(&a), &STANDARD, 0), Ok(()));
    assert_eq!(store.sub_quota(&auth(&a), &STANDARD, 1), Err(MockError::InsufficientQuota));
    assert_eq!(balance(&store, &a, STANDARD), 0);
}

#[test]
fn a_transfer_conserves_quota() {
    let a = mock_user1();
    let b = mock_user2();
    let mut store = UserQuotaStore::new();
    store.add_quota(auth(&a), STANDARD, 7);
    store.add_quota(auth(&b), STANDARD, 1);
    store.add_quota(auth(&a), SHORT, 4);
    assert_eq!(store.transfer_quota(&auth(&a), &leg(&b, STANDARD, 3)), Ok(()));
    assert_eq!(balance(&store, &a, STANDARD), 4);
    assert_eq!(balance(&store, &b, STANDARD), 4);
    assert_eq!(balance(&store, &a, SHORT), 4);
    assert_eq!(balance(&store, &b, SHORT), 0);
    assert_eq!(store.transfer_quota(&auth(&a), &leg(&b, STANDARD, 4)), Ok(()));
    assert_eq!(balance(&store, &a, STANDARD), 0);
    assert_eq!(balance(&store, &b, STANDARD), 8);
}

#[test]
fn a_transfer_is_refused_for_each_defect() {
    let a = mock_user1();
    let b = mock_user2();
    let anonymous = Identity::anonymous();
    let mut store = UserQuotaStore::new();
    store.add_quota(auth(&a), STANDARD, 5);
    store.add_quota(auth(&anonymous), STANDARD, 5);
    assert_eq!(
        store.transfer_quota(&auth(&anonymous), &leg(&b, STANDARD, 1)),
        Err(MockError::Unauthorized)
    );
    assert_eq!(
        store.transfer_quota(&auth(&a), &leg(&anonymous, STANDARD, 1)),
        Err(MockError::Unauthorized)
    );
    assert_eq!(
        store.transfer_quota(&auth(&a), &leg(&a, STANDARD, 1)),
        Err(MockError::InvalidOwner)
    );
    assert_eq!(
        store.transfer_quota(&auth(&a), &leg(&b, STANDARD, 0)),
        Err(MockError::InvalidQuotaOrderDetails)
    );
    assert_eq!(
        store.transfer_quota(&auth(&a), &leg(&b, STANDARD, 6)),
        Err(MockError::InsufficientQuota)
    );
    assert_eq!(
        store.transfer_quota(&auth(&a), &leg(&b, SHORT, 1)),
        Err(MockError::InsufficientQuota)
    );
    assert_eq!(balance(&store, &a, STANDARD), 5);
    assert_eq!(balance(&store, &b, STANDARD), 0);
    assert_eq!(balance(&store, &anonymous, STANDARD), 5);
}

#[test]
fn a_batch_is_carried_out_whole() {
    let a = mock_user1();
    let b = mock_user2();
    let c = mock_user3();
    let mut store = UserQuotaStore::new();
    store.add_quota(auth(&a), STANDARD, 10);
    store.add_quota(auth(&a), SHORT, 2);
    store.add_quota(auth(&c), STANDARD, 1);
    let items = vec![
        leg(&b, STANDARD, 2),
        leg(&c, STANDARD, 3),
        leg(&b, SHORT, 2),
        leg(&b, STANDARD, 5),
    ];
    assert_eq!(store.batch_transfer_quota(auth(&a), &items), Ok(()));
    assert_eq!(balance(&store, &a, STANDARD), 0);
    assert_eq!(balance(&store, &a, SHORT), 0);
    assert_eq!(balance(&store, &b, STANDARD), 7);
    assert_eq!(balance(&store, &b, SHORT), 2);
    assert_eq!(balance(&store, &c, STANDARD), 4);
    assert_eq!(store.batch_transfer_quota(auth(&a), &[]), Ok(()));
    assert_eq!(balance(&store, &b, STANDARD), 7);
}

fn five_legs_with_third(third: TransferQuotaDetails) -> Vec<TransferQuotaDetails> {
    vec![
        leg(&mock_user(2), STANDARD, 1),
        leg(&mock_user(3), STANDARD, 1),
        third,
        leg(&mock_user(4), STANDARD, 1),
        leg(&mock_user(5), STANDARD, 1),
    ]
}

fn assert_untouched(store: &UserQuotaStore) {
    assert_eq!(balance(store, &mock_user(1), STANDARD), 20);
    for i in 2..=5u32 {
        assert_eq!(balance(store, &mock_user(i), STANDARD), 0);
    }
}

#[test]
fn a_batch_with_a_bad_leg_changes_nothing() {
    let a = mock_user(1);
    let mut store = UserQuotaStore::new();
    store.add_quota(auth(&a), STANDARD, 20);
    let zero = five_legs_with_third(leg(&mock_user(6), STANDARD, 0));
    assert_eq!(
        store.batch_transfer_quota(auth(&a), &zero),
        Err(MockError::InvalidQuotaOrderDetails)
    );
    assert_untouched(&store);
    let to_self = five_legs_with_third(leg(&a, STANDARD, 1));
    assert_eq!(store.batch_transfer_quota(auth(&a), &to_self), Err(MockError::InvalidOwner));
    assert_untouched(&store);
    let to_nobody = five_legs_with_third(leg(&Identity::anonymous(), STANDARD, 1));
    assert_eq!(store.batch_transfer_quota(auth(&a), &to_nobody), Err(MockError::Unauthorized));
    assert_untouched(&store);
    let good = five_legs_with_third(leg(&mock_user(6), STANDARD, 1));
    assert_eq!(
        store.batch_transfer_quota(auth(&Identity::anonymous()), &good),
        Err(MockError::Unauthorized)
    );
    assert_untouched(&store);
    assert_eq!(store.batch_transfer_quota(auth(&a), &good), Ok(()));
    assert_eq!(balance(&store, &a, STANDARD), 15);
}

#[test]
fn the_first_bad_leg_names_the_error() {
    let a = mock_user(1);
    let mut store = UserQuotaStore::new();
    store.add_quota(auth(&a), STANDARD, 1);
    let items = vec![
        leg(&mock_user(2), STANDARD, 5),
        leg(&a, STANDARD, 1),
        leg(&mock_user(3), STANDARD, 0),
    ];
    assert_eq!(store.batch_transfer_quota(auth(&a), &items), Err(MockError::InvalidOwner));
    let items = vec![leg(&mock_user(3), STANDARD, 0), leg(&a, STANDARD, 1)];
    assert_eq!(
        store.batch_transfer_quota(auth(&a), &items),
        Err(MockError::InvalidQuotaOrderDetails)
    );
    // A leg that names both the anonymous identity and no amount.
    let items = vec![leg(&Identity::anonymous(), STANDARD, 0)];
    assert_eq!(store.batch_transfer_quota(auth(&a), &items), Err(MockError::Unauthorized));
}

#[test]
fn end_to_end_batch_short_of_funds() {
    let a = mock_user1();
    let b = mock_user2();
    let c = mock_user3();
    let mut store = UserQuotaStore::new();
    store.add_quota(auth(&a), STANDARD, 5);
    let items = vec![leg(&b, STANDARD, 2), leg(&c, STANDARD, 10)];
    assert_eq!(store.batch_transfer_quota(auth(&a), &items), Err(MockError::InsufficientQuota));
    assert_eq!(balance(&store, &a, STANDARD), 5);
    assert_eq!(balance(&store, &b, STANDARD), 0);
    assert_eq!(balance(&store, &c, STANDARD), 0);
}

#[test]
fn a_batch_is_short_when_its_legs_together_are() {
    let a = mock_user1();
    let b = mock_user2();
    let c = mock_user3();
    let mut store = UserQuotaStore::new();
    store.add_quota(auth(&a), STANDARD, 5);
    store.add_quota(auth(&a), SHORT, 5);
    let items = vec![leg(&b, STANDARD, 3), leg(&c, SHORT, 5), leg(&c, STANDARD, 3)];
    assert_eq!(store.batch_transfer_quota(auth(&a), &items), Err(MockError::InsufficientQuota));
    assert_eq!(balance(&store, &a, STANDARD), 5);
    assert_eq!(balance(&store, &a, SHORT), 5);
    assert_eq!(balance(&store, &b, STANDARD), 0);
    assert_eq!(balance(&store, &c, SHORT), 0);
    let items = vec![leg(&b, STANDARD, 3), leg(&c, SHORT, 5), leg(&c, STANDARD, 2)];
    assert_eq!(store.batch_transfer_quota(auth(&a), &items), Ok(()));
    assert_eq!(balance(&store, &a, STANDARD), 0);
    assert_eq!(balance(&store, &a, SHORT), 0);
    assert_eq!(balance(&store, &b, STANDARD), 3);
    assert_eq!(balance(&store, &c, STANDARD), 2);
    assert_eq!(balance(&store, &c, SHORT), 5);
}

#[test]
fn large_amounts_are_summed_without_wrapping() {
    let a = mock_user1();
    let b = mock_user2();
    let mut store = UserQuotaStore::new();
    store.add_quota(auth(&a), STANDARD, u32::MAX);
    let items = vec![leg(&b, STANDARD, u32::MAX), leg(&b, STANDARD, 1)];
    assert_eq!(store.batch_transfer_quota(auth(&a), &items), Err(MockError::InsufficientQuota));
    assert_eq!(balance(&store, &a, STANDARD), u32::MAX);
    assert_eq!(store.transfer_quota(&auth(&a), &leg(&b, STANDARD, u32::MAX)), Ok(()));
    assert_eq!(balance(&store, &b, STANDARD), u32::MAX);
    assert_eq!(balance(&store, &a, STANDARD), 0);
}

#[test]
fn room_is_what_the_receivers_can_still_hold() {
    let a = mock_user1();
    let b = mock_user2();
    let c = mock_user3();
    let mut store = UserQuotaStore::new();
    assert!(store.has_room_for(&[]));
    store.add_quota(auth(&b), STANDARD, u32::MAX - 3);
    assert!(store.has_room_for(&[leg(&b, STANDARD, 3)]));
    assert!(store.has_room_for(&[leg(&b, STANDARD, 1), leg(&c, STANDARD, 7), leg(&b, STANDARD, 2)]));
    assert!(!store.has_room_for(&[leg(&b, STANDARD, 4)]));
    assert!(!store.has_room_for(&[leg(&b, STANDARD, 2), leg(&c, STANDARD, 7), leg(&b, STANDARD, 2)]));
    assert!(store.has_room_for(&[leg(&b, STANDARD, 2), leg(&b, SHORT, 2), leg(&c, STANDARD, 2)]));
    assert!(store.has_room_for(&[leg(&c, STANDARD, u32::MAX)]));
    assert!(!store.has_room_for(&[leg(&c, STANDARD, u32::MAX), leg(&c, STANDARD, 1)]));
    assert!(!store.has_room_for(&[leg(&c, SHORT, u32::MAX), leg(&c, SHORT, u32::MAX)]));
    store.add_quota(auth(&a), STANDARD, 3);
    let items = vec![leg(&b, STANDARD, 1), leg(&b, STANDARD, 2)];
    assert!(store.has_room_for(&items));
    assert_eq!(store.batch_transfer_quota(auth(&a), &items), Ok(()));
    assert_eq!(balance(&store, &b, STANDARD), u32::MAX);
    assert_eq!(balance(&store, &a, STANDARD), 0);
}
