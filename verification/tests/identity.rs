use candid::Principal;
use naming_registry::common::constants::{is_dev_env, is_env, load_dev_or_env, CommonEnv};
use naming_registry::identity::Identity;
use naming_registry::user::{
    anonymous_user, mock_now, mock_user, mock_user1, mock_user2, mock_user3,
};

#[test]
fn anonymous_is_the_byte_four() {
    let a = Identity::anonymous();
    assert_eq!(a.as_slice(), &[4u8]);
    assert_eq!(a.as_slice(), Principal::anonymous().as_slice());
    assert!(a.is_anonymous());
    assert!(anonymous_user().is_anonymous());
    assert!(!Identity::from_slice(&[4u8, 0]).is_anonymous());
    assert!(!Identity::from_slice(&[]).is_anonymous());
    assert!(!Identity::from_slice(&[5u8]).is_anonymous());
}

#[test]
fn equals_compares_the_bytes() {
    let a = Identity::from_slice(&[1, 2, 3]);
    let b = Identity::from_slice(&[1, 2, 3]);
    let c = Identity::from_slice(&[1, 2, 4]);
    let d = Identity::from_slice(&[1, 2]);
    assert!(a.equals(&b));
    assert!(!a.equals(&c));
    assert!(!a.equals(&d));
    assert!(!d.equals(&a));
    assert!(a.equals(&a.clone()));
    assert_eq!(a, b);
}

#[test]
fn at_most_29_bytes_make_an_identity() {
    let long = [7u8; 29];
    assert_eq!(Identity::try_from_slice(&long).unwrap().as_slice(), &long[..]);
    let too_long = [7u8; 30];
    assert!(Identity::try_from_slice(&too_long).is_none());
    assert!(Identity::try_from_slice(&[]).is_some());
}

#[test]
fn text_is_the_text_of_the_principal() {
    assert_eq!(Identity::from_slice(&[]).to_text(), "aaaaa-aa");
    assert_eq!(Identity::anonymous().to_text(), "2vxsx-fae");
    let bytes = [0xef, 0xcd, 0xab, 0, 0, 0, 0, 0, 1];
    assert_eq!(Identity::from_slice(&bytes).to_text(), "2chl6-4hpzw-vqaaa-aaaaa-c");
    assert_eq!(
        Identity::from_slice(&bytes).to_text(),
        Principal::from_slice(&bytes).to_text()
    );
}

#[test]
fn text_is_read_back() {
    let id = Identity::from_text("2chl6-4hpzw-vqaaa-aaaaa-c").unwrap();
    assert_eq!(id.as_slice(), &[0xef, 0xcd, 0xab, 0, 0, 0, 0, 0, 1]);
    assert_eq!(Identity::from_text("aaaaa-aa").unwrap().as_slice(), &[] as &[u8]);
    assert!(Identity::from_text("2vxsx-fae").unwrap().is_anonymous());
    assert!(Identity::from_text("").is_none());
    assert!(Identity::from_text("not a principal").is_none());
    assert!(Identity::from_text("2chl6-4hpzw-vqaaa-aaaaa-d").is_none());
    for index in [0u32, 1, 77, 65536, u32::MAX] {
        let id = mock_user(index);
        assert_eq!(Identity::from_text(&id.to_text()), Some(id));
    }
}

#[test]
fn mock_user_holds_the_index_in_its_first_bytes() {
    let id = mock_user(0x01020304);
    let mut expected = vec![0u8; 29];
    expected[0..4].copy_from_slice(&[1, 2, 3, 4]);
    assert_eq!(id.as_slice(), &expected[..]);
    for index in [0u32, 1, 2, 3, 255, 256, 65535, 65536, 0x00ff_ffff, 0x0100_0000, u32::MAX] {
        let mut bytes = vec![0u8; 29];
        bytes[0..4].copy_from_slice(&index.to_be_bytes());
        assert_eq!(mock_user(index).as_slice(), Principal::from_slice(&bytes).as_slice());
        assert!(!mock_user(index).is_anonymous());
    }
    assert_eq!(mock_user1(), mock_user(1));
    assert_eq!(mock_user2(), mock_user(2));
    assert_eq!(mock_user3(), mock_user(3));
    assert_ne!(mock_user1(), mock_user2());
    assert_eq!(mock_now(), 15_844_844_000_000_000);
}

#[test]
fn the_build_is_for_development() {
    assert!(is_env(CommonEnv::Dev));
    assert!(!is_env(CommonEnv::Staging));
    assert!(!is_env(CommonEnv::Production));
    assert!(is_dev_env());
}

#[test]
fn a_listed_identity_comes_before_the_configured_one() {
    let listed = mock_user(9);
    assert_eq!(load_dev_or_env(Some(listed.clone()), "aaaaa-aa"), Some(listed.clone()));
    assert_eq!(load_dev_or_env(Some(listed.clone()), ""), Some(listed));
    assert_eq!(load_dev_or_env(None, "aaaaa-aa"), Some(Identity::from_slice(&[])));
    assert_eq!(load_dev_or_env(None, ""), None);
}
