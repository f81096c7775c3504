//! Identities and a point in time to try the registry with.

use crate::identity::{anonymous_bytes, Identity};
use vstd::prelude::*;

verus! {

/// The bytes of the identity numbered `index`: the number in four bytes, the
/// most significant first, and 25 zero bytes.
pub open spec fn mock_user_bytes(index: u32) -> Seq<u8> {
    Seq::new(
        29,
        |i: int|
            if i == 0 {
                (index / 0x100_0000) as u8
            } else if i == 1 {
                (index / 0x1_0000 % 0x100) as u8
            } else if i == 2 {
                (index / 0x100 % 0x100) as u8
            } else if i == 3 {
                (index % 0x100) as u8
            } else {
                0u8
            },
    )
}

/// The anonymous identity.
pub fn anonymous_user() -> (id: Identity)
    ensures
        id@ == anonymous_bytes(),
{
    Identity::anonymous()
}

/// The identity numbered `index`. Different numbers give different
/// identities, none of them anonymous.
pub fn mock_user(index: u32) -> (id: Identity)
    ensures
        id@ == mock_user_bytes(index),
{
    let mut principal_bytes: Vec<u8> = Vec::new();
    // The first four bytes are the index.
    principal_bytes.push((index / 0x100_0000) as u8);
    principal_bytes.push((index / 0x1_0000 % 0x100) as u8);
    principal_bytes.push((index / 0x100 % 0x100) as u8);
    principal_bytes.push((index % 0x100) as u8);
    while principal_bytes.len() < 29
        invariant
            4 <= principal_bytes@.len() <= 29,
            forall|i: int|
                0 <= i < principal_bytes@.len() ==> principal_bytes@[i] == mock_user_bytes(
                    index,
                )[i],
        decreases 29 - principal_bytes@.len(),
    {
        principal_bytes.push(0);
    }
    assert(principal_bytes@ =~= mock_user_bytes(index));
    Identity::from_slice(principal_bytes.as_slice())
}

/// Identities of different numbers differ, and none is anonymous.
pub proof fn lemma_mock_users_differ(a: u32, b: u32)
    ensures
        mock_user_bytes(a) != anonymous_bytes(),
        a != b ==> mock_user_bytes(a) != mock_user_bytes(b),
{
    assert(mock_user_bytes(a).len() == 29);
    assert(anonymous_bytes().len() == 1);
    if a != b && mock_user_bytes(a) == mock_user_bytes(b) {
        let x = mock_user_bytes(a);
        let y = mock_user_bytes(b);
        assert(x[0] == y[0] && x[1] == y[1] && x[2] == y[2] && x[3] == y[3]);
        assert(false);
    }
}

pub fn mock_user1() -> (id: Identity)
    ensures
        id@ == mock_user_bytes(1),
{
    mock_user(1)
}

pub fn mock_user2() -> (id: Identity)
    ensures
        id@ == mock_user_bytes(2),
{
    mock_user(2)
}

pub fn mock_user3() -> (id: Identity)
    ensures
        id@ == mock_user_bytes(3),
{
    mock_user(3)
}

/// A point in time, in nanoseconds.
pub fn mock_now() -> (now: u64)
    ensures
        now == 15_844_844_000_000_000,
{
    15_844_844_000_000_000
}

} // verus!
