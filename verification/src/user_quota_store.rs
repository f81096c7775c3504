//! The quota ledger: how many registrations of each quota type an identity
//! may still make.
//!
//! A balance that was never credited is 0. Quota is moved between identities
//! and never made or lost on the way: a transfer takes from one balance what
//! it adds to another, and a batch of transfers is applied whole or not at
//! all.

use crate::errors::MockError;
use crate::identity::{anonymous_bytes, Identity};
use vstd::prelude::*;

verus! {

/// A kind of quota: for names of exactly so many characters, or of at least
/// so many.
#[derive(Debug, Clone, Copy, PartialEq, Eq, Hash, Structural)]
pub enum QuotaType {
    LenEq(u8),
    LenGte(u8),
}

/// An identity in the place of one that has been authenticated.
#[derive(Debug, Clone, PartialEq, Eq, Hash)]
pub struct AuthPrincipal(pub Identity);

impl View for AuthPrincipal {
    type V = Seq<u8>;

    open spec fn view(&self) -> Seq<u8> {
        self.0@
    }
}

/// One leg of a transfer of quota: how much of which quota type goes to
/// whom.
#[derive(Debug, Clone, PartialEq, Eq)]
pub struct TransferQuotaDetails {
    pub to: Identity,
    pub quota_type: QuotaType,
    pub diff: u32,
}

/// A leg of a transfer, as the contracts see it.
pub struct QuotaLeg {
    pub to: Seq<u8>,
    pub quota_type: QuotaType,
    pub diff: nat,
}

impl View for TransferQuotaDetails {
    type V = QuotaLeg;

    open spec fn view(&self) -> QuotaLeg {
        QuotaLeg { to: self.to@, quota_type: self.quota_type, diff: self.diff as nat }
    }
}

/// The balances of a ledger: one number for every identity and quota type.
pub type Balances = Map<(Seq<u8>, QuotaType), nat>;

/// The balances after `diff` was added to one of them.
pub open spec fn credited(balances: Balances, owner: Seq<u8>, quota_type: QuotaType, diff: nat)
    -> Balances {
    balances.insert((owner, quota_type), balances[(owner, quota_type)] + diff)
}

/// The balances after `diff` was taken from one of them, which holds at least
/// as much.
pub open spec fn debited(balances: Balances, owner: Seq<u8>, quota_type: QuotaType, diff: nat)
    -> Balances {
    balances.insert((owner, quota_type), (balances[(owner, quota_type)] - diff) as nat)
}

/// Why a leg cannot be carried out, whatever the balances are: a party is
/// anonymous, the quota would go to the identity it comes from, or nothing is
/// to be moved.
pub open spec fn leg_refusal(from: Seq<u8>, leg: QuotaLeg) -> Option<MockError> {
    if from == anonymous_bytes() || leg.to == anonymous_bytes() {
        Some(MockError::Unauthorized)
    } else if leg.to == from {
        Some(MockError::InvalidOwner)
    } else if leg.diff == 0 {
        Some(MockError::InvalidQuotaOrderDetails)
    } else {
        None
    }
}

/// Why a transfer is refused, if it is.
pub open spec fn transfer_refusal(balances: Balances, from: Seq<u8>, leg: QuotaLeg) -> Option<
    MockError,
> {
    match leg_refusal(from, leg) {
        Some(error) => Some(error),
        None => if balances[(from, leg.quota_type)] < leg.diff {
            Some(MockError::InsufficientQuota)
        } else {
            None
        },
    }
}

/// The balances after a leg was carried out.
pub open spec fn transferred(balances: Balances, from: Seq<u8>, leg: QuotaLeg) -> Balances {
    credited(debited(balances, from, leg.quota_type, leg.diff), leg.to, leg.quota_type, leg.diff)
}

/// What the first leg that cannot be carried out is refused for, if there is
/// such a leg.
pub open spec fn batch_leg_refusal(from: Seq<u8>, legs: Seq<QuotaLeg>) -> Option<MockError>
    decreases legs.len(),
{
    if legs.len() == 0 {
        None
    } else {
        match leg_refusal(from, legs.first()) {
            Some(error) => Some(error),
            None => batch_leg_refusal(from, legs.drop_first()),
        }
    }
}

/// How much of a quota type a batch takes from its sender.
pub open spec fn batch_debit(legs: Seq<QuotaLeg>, quota_type: QuotaType) -> nat
    decreases legs.len(),
{
    if legs.len() == 0 {
        0
    } else {
        batch_debit(legs.drop_last(), quota_type) + if legs.last().quota_type == quota_type {
            legs.last().diff
        } else {
            0
        }
    }
}

/// How much of a quota type a batch gives to an identity.
pub open spec fn batch_credit(legs: Seq<QuotaLeg>, to: Seq<u8>, quota_type: QuotaType) -> nat
    decreases legs.len(),
{
    if legs.len() == 0 {
        0
    } else {
        batch_credit(legs.drop_last(), to, quota_type) + if legs.last().to == to
            && legs.last().quota_type == quota_type {
            legs.last().diff
        } else {
            0
        }
    }
}

/// Whether the sender of a batch holds, in every quota type, what the batch
/// takes of it.
pub open spec fn batch_covered(balances: Balances, from: Seq<u8>, legs: Seq<QuotaLeg>) -> bool {
    forall|quota_type: QuotaType| #[trigger]
        batch_debit(legs, quota_type) <= balances[(from, quota_type)]
}

/// Why a batch is refused, if it is.
pub open spec fn batch_refusal(balances: Balances, from: Seq<u8>, legs: Seq<QuotaLeg>) -> Option<
    MockError,
> {
    if from == anonymous_bytes() {
        Some(MockError::Unauthorized)
    } else {
        match batch_leg_refusal(from, legs) {
            Some(error) => Some(error),
            None => if batch_covered(balances, from, legs) {
                None
            } else {
                Some(MockError::InsufficientQuota)
            },
        }
    }
}

/// The balances after a whole batch was carried out: the sender has lost
/// what the batch takes, and every identity has gained what the batch gives
/// to it.
pub open spec fn batch_transferred(balances: Balances, from: Seq<u8>, legs: Seq<QuotaLeg>)
    -> Balances {
    Map::total(
        |key: (Seq<u8>, QuotaType)|
            (balances[key] - (if key.0 == from {
                batch_debit(legs, key.1)
            } else {
                0
            }) + batch_credit(legs, key.0, key.1)) as nat,
    )
}

/// Whether no balance is above `u32::MAX`.
pub open spec fn balances_fit(balances: Balances) -> bool {
    forall|key: (Seq<u8>, QuotaType)| #[trigger] balances[key] <= u32::MAX
}

/// The legs of a batch, as the contracts see them.
pub open spec fn legs_of(items: Seq<TransferQuotaDetails>) -> Seq<QuotaLeg> {
    items.map_values(|item: TransferQuotaDetails| item@)
}

/// A batch whose legs up to `i` can all be carried out, and whose leg `i`
/// cannot, is refused for what leg `i` is refused for.
pub proof fn lemma_batch_leg_refusal_at(from: Seq<u8>, legs: Seq<QuotaLeg>, i: int)
    requires
        0 <= i < legs.len(),
        forall|j: int| 0 <= j < i ==> leg_refusal(from, #[trigger] legs[j]) is None,
        leg_refusal(from, legs[i]) is Some,
    ensures
        batch_leg_refusal(from, legs) == leg_refusal(from, legs[i]),
    decreases i,
{
    if i > 0 {
        let rest = legs.drop_first();
        assert(leg_refusal(from, legs[0]) is None);
        assert forall|j: int| 0 <= j < i - 1 implies leg_refusal(from, #[trigger] rest[j])
            is None by {
            assert(rest[j] == legs[j + 1]);
        }
        assert(rest[i - 1] == legs[i]);
        lemma_batch_leg_refusal_at(from, rest, i - 1);
    }
}

/// A batch each of whose legs can be carried out is not refused for a leg.
pub proof fn lemma_batch_leg_refusal_none(from: Seq<u8>, legs: Seq<QuotaLeg>)
    requires
        forall|j: int| 0 <= j < legs.len() ==> leg_refusal(from, #[trigger] legs[j]) is None,
    ensures
        batch_leg_refusal(from, legs) is None,
    decreases legs.len(),
{
    if legs.len() > 0 {
        let rest = legs.drop_first();
        assert(leg_refusal(from, legs[0]) is None);
        assert forall|j: int| 0 <= j < rest.len() implies leg_refusal(from, #[trigger] rest[j])
            is None by {
            assert(rest[j] == legs[j + 1]);
        }
        lemma_batch_leg_refusal_none(from, rest);
    }
}

/// In a batch that is not refused for a leg, every leg can be carried out.
pub proof fn lemma_batch_legs_accepted(from: Seq<u8>, legs: Seq<QuotaLeg>)
    requires
        batch_leg_refusal(from, legs) is None,
    ensures
        forall|j: int| 0 <= j < legs.len() ==> leg_refusal(from, #[trigger] legs[j]) is None,
    decreases legs.len(),
{
    if legs.len() > 0 {
        let rest = legs.drop_first();
        lemma_batch_leg_refusal_none_step(from, legs);
        lemma_batch_legs_accepted(from, rest);
        assert forall|j: int| 0 <= j < legs.len() implies leg_refusal(from, #[trigger] legs[j])
            is None by {
            if j > 0 {
                assert(rest[j - 1] == legs[j]);
            }
        }
    }
}

proof fn lemma_batch_leg_refusal_none_step(from: Seq<u8>, legs: Seq<QuotaLeg>)
    requires
        legs.len() > 0,
        batch_leg_refusal(from, legs) is None,
    ensures
        leg_refusal(from, legs[0]) is None,
        batch_leg_refusal(from, legs.drop_first()) is None,
{
}

/// The start of a batch takes no more than the batch.
pub proof fn lemma_batch_debit_prefix(legs: Seq<QuotaLeg>, n: int, quota_type: QuotaType)
    requires
        0 <= n <= legs.len(),
    ensures
        batch_debit(legs.take(n), quota_type) <= batch_debit(legs, quota_type),
    decreases legs.len() - n,
{
    if n == legs.len() {
        assert(legs.take(n) =~= legs);
    } else {
        lemma_batch_debit_prefix(legs, n + 1, quota_type);
        assert(legs.take(n + 1).drop_last() =~= legs.take(n));
    }
}

/// The start of a batch gives no more than the batch.
pub proof fn lemma_batch_credit_prefix(
    legs: Seq<QuotaLeg>,
    n: int,
    to: Seq<u8>,
    quota_type: QuotaType,
)
    requires
        0 <= n <= legs.len(),
    ensures
        batch_credit(legs.take(n), to, quota_type) <= batch_credit(legs, to, quota_type),
    decreases legs.len() - n,
{
    if n == legs.len() {
        assert(legs.take(n) =~= legs);
    } else {
        lemma_batch_credit_prefix(legs, n + 1, to, quota_type);
        assert(legs.take(n + 1).drop_last() =~= legs.take(n));
    }
}

/// A batch takes nothing of a quota type that none of its legs names.
pub proof fn lemma_batch_debit_absent(legs: Seq<QuotaLeg>, quota_type: QuotaType)
    requires
        forall|j: int| 0 <= j < legs.len() ==> (#[trigger] legs[j]).quota_type != quota_type,
    ensures
        batch_debit(legs, quota_type) == 0,
    decreases legs.len(),
{
    if legs.len() > 0 {
        let rest = legs.drop_last();
        assert forall|j: int| 0 <= j < rest.len() implies (#[trigger] rest[j]).quota_type
            != quota_type by {
            assert(rest[j] == legs[j]);
        }
        lemma_batch_debit_absent(rest, quota_type);
        assert(legs.last() == legs[legs.len() - 1]);
    }
}

/// A batch gives nothing to an identity that none of its legs names.
pub proof fn lemma_batch_credit_absent(legs: Seq<QuotaLeg>, to: Seq<u8>, quota_type: QuotaType)
    requires
        forall|j: int| 0 <= j < legs.len() ==> (#[trigger] legs[j]).to != to,
    ensures
        batch_credit(legs, to, quota_type) == 0,
    decreases legs.len(),
{
    if legs.len() > 0 {
        let rest = legs.drop_last();
        assert forall|j: int| 0 <= j < rest.len() implies (#[trigger] rest[j]).to != to by {
            assert(rest[j] == legs[j]);
        }
        lemma_batch_credit_absent(rest, to, quota_type);
        assert(legs.last() == legs[legs.len() - 1]);
    }
}

/// Carrying out leg `i` after the legs before it gives what carrying out the
/// batch up to and with leg `i` gives.
pub proof fn lemma_batch_step(balances: Balances, from: Seq<u8>, legs: Seq<QuotaLeg>, i: int)
    requires
        0 <= i < legs.len(),
        forall|j: int| 0 <= j < legs.len() ==> leg_refusal(from, #[trigger] legs[j]) is None,
        batch_covered(balances, from, legs),
    ensures
        transfer_refusal(batch_transferred(balances, from, legs.take(i)), from, legs[i]) is None,
        transferred(batch_transferred(balances, from, legs.take(i)), from, legs[i])
            == batch_transferred(balances, from, legs.take(i + 1)),
{
    let before = legs.take(i);
    let after = legs.take(i + 1);
    let leg = legs[i];
    let current = batch_transferred(balances, from, before);
    assert(after.drop_last() =~= before);
    assert(after.last() == leg);
    assert(leg_refusal(from, leg) is None);
    assert forall|j: int| 0 <= j < before.len() implies (#[trigger] before[j]).to != from by {
        assert(leg_refusal(from, legs[j]) is None);
    }
    assert forall|j: int| 0 <= j < after.len() implies (#[trigger] after[j]).to != from by {
        assert(leg_refusal(from, legs[j]) is None);
    }
    assert forall|q: QuotaType|
        batch_debit(before, q) <= batch_debit(after, q) && #[trigger] batch_debit(after, q)
            <= balances[(from, q)] && batch_credit(before, from, q) == 0 && batch_credit(
            after,
            from,
            q,
        ) == 0 by {
        lemma_batch_debit_prefix(legs, i + 1, q);
        lemma_batch_credit_absent(before, from, q);
        lemma_batch_credit_absent(after, from, q);
        assert(batch_debit(legs, q) <= balances[(from, q)]);
    }
    assert(batch_debit(after, leg.quota_type) <= balances[(from, leg.quota_type)]);
    assert(current[(from, leg.quota_type)] >= leg.diff);
    let stepped = transferred(current, from, leg);
    let target = batch_transferred(balances, from, after);
    assert forall|key: (Seq<u8>, QuotaType)| #[trigger] stepped[key] == target[key] by {
        assert(batch_debit(after, key.1) <= balances[(from, key.1)]);
    }
    assert(stepped =~= target);
}

/// The balances after `transfer_quota`: a transfer that is refused changes
/// nothing.
pub open spec fn after_transfer(balances: Balances, from: Seq<u8>, leg: QuotaLeg) -> Balances {
    if transfer_refusal(balances, from, leg) is None {
        transferred(balances, from, leg)
    } else {
        balances
    }
}

/// The balances after `batch_transfer_quota`: a batch that is refused changes
/// nothing.
pub open spec fn after_batch(balances: Balances, from: Seq<u8>, legs: Seq<QuotaLeg>) -> Balances {
    if batch_refusal(balances, from, legs) is None {
        batch_transferred(balances, from, legs)
    } else {
        balances
    }
}

/// Quota is conserved: a transfer between two different authenticated
/// identities, of no more than the sender holds, takes from the sender what
/// it gives to the receiver, and touches no other balance.
pub proof fn lemma_transfer_conserves(
    balances: Balances,
    from: Seq<u8>,
    to: Seq<u8>,
    quota_type: QuotaType,
    diff: nat,
)
    requires
        from != to,
        from != anonymous_bytes(),
        to != anonymous_bytes(),
        diff <= balances[(from, quota_type)],
    ensures
        ({
            let after = after_transfer(balances, from, QuotaLeg { to, quota_type, diff });
            &&& after[(from, quota_type)] == balances[(from, quota_type)] - diff
            &&& after[(to, quota_type)] == balances[(to, quota_type)] + diff
            &&& after[(from, quota_type)] + after[(to, quota_type)] == balances[(from, quota_type)]
                + balances[(to, quota_type)]
            &&& forall|key: (Seq<u8>, QuotaType)|
                key != (from, quota_type) && key != (to, quota_type) ==> #[trigger] after[key]
                    == balances[key]
        }),
{
}

/// A transfer of more than the sender holds is refused for want of quota
/// and changes nothing.
pub proof fn lemma_transfer_short(balances: Balances, from: Seq<u8>, leg: QuotaLeg)
    requires
        leg_refusal(from, leg) is None,
        leg.diff > balances[(from, leg.quota_type)],
    ensures
        transfer_refusal(balances, from, leg) == Some(MockError::InsufficientQuota),
        after_transfer(balances, from, leg) == balances,
{
}

/// A batch is all or nothing: where one of its legs moves nothing, names the
/// sender as receiver, or names the anonymous identity, the batch is refused
/// and every balance is what it was.
pub proof fn lemma_batch_atomic(balances: Balances, from: Seq<u8>, legs: Seq<QuotaLeg>, i: int)
    requires
        0 <= i < legs.len(),
        legs[i].diff == 0 || legs[i].to == from || legs[i].to == anonymous_bytes(),
    ensures
        batch_refusal(balances, from, legs) is Some,
        after_batch(balances, from, legs) == balances,
{
    if from != anonymous_bytes() && batch_leg_refusal(from, legs) is None {
        lemma_batch_legs_accepted(from, legs);
        assert(leg_refusal(from, legs[i]) is None);
    }
}

/// A batch that takes more of a quota type than the sender holds is refused,
/// and every balance is what it was.
pub proof fn lemma_batch_short(
    balances: Balances,
    from: Seq<u8>,
    legs: Seq<QuotaLeg>,
    quota_type: QuotaType,
)
    requires
        batch_debit(legs, quota_type) > balances[(from, quota_type)],
    ensures
        batch_refusal(balances, from, legs) is Some,
        after_batch(balances, from, legs) == balances,
{
}

/// A batch that is carried out conserves quota: of every quota type, the
/// sender loses what the batch takes, the others gain what it gives them.
pub proof fn lemma_batch_conserves(
    balances: Balances,
    from: Seq<u8>,
    legs: Seq<QuotaLeg>,
    key: (Seq<u8>, QuotaType),
)
    requires
        batch_refusal(balances, from, legs) is None,
    ensures
        key.0 == from ==> after_batch(balances, from, legs)[key] == balances[key] - batch_debit(
            legs,
            key.1,
        ),
        key.0 != from ==> after_batch(balances, from, legs)[key] == balances[key] + batch_credit(
            legs,
            key.0,
            key.1,
        ),
{
    lemma_batch_legs_accepted(from, legs);
    assert forall|j: int| 0 <= j < legs.len() implies (#[trigger] legs[j]).to != from by {
        assert(leg_refusal(from, legs[j]) is None);
    }
    lemma_batch_credit_absent(legs, from, key.1);
    assert(batch_debit(legs, key.1) <= balances[(from, key.1)]);
}

/// Whether every balance has room for what a batch gives to it.
pub open spec fn batch_credit_fits(balances: Balances, legs: Seq<QuotaLeg>) -> bool {
    forall|to: Seq<u8>, quota_type: QuotaType|
        balances[(to, quota_type)] + #[trigger] batch_credit(legs, to, quota_type) <= u32::MAX
}

/// Where every balance has room for what a batch gives to it, no balance is
/// above `u32::MAX` after the batch, if the batch is carried out.
pub proof fn lemma_batch_fits(balances: Balances, from: Seq<u8>, legs: Seq<QuotaLeg>)
    requires
        batch_credit_fits(balances, legs),
    ensures
        batch_refusal(balances, from, legs) is None ==> balances_fit(
            batch_transferred(balances, from, legs),
        ),
{
    if batch_refusal(balances, from, legs) is None {
        let after = batch_transferred(balances, from, legs);
        assert forall|key: (Seq<u8>, QuotaType)| #[trigger] after[key] <= u32::MAX by {
            assert(key == (key.0, key.1));
            assert(balances[(key.0, key.1)] + batch_credit(legs, key.0, key.1) <= u32::MAX);
            assert(batch_debit(legs, key.1) <= balances[(from, key.1)]);
        }
    }
}

/// A batch gives nothing to an identity in a quota type that no leg names
/// together.
pub proof fn lemma_batch_credit_missing(legs: Seq<QuotaLeg>, to: Seq<u8>, quota_type: QuotaType)
    requires
        forall|j: int|
            0 <= j < legs.len() ==> !((#[trigger] legs[j]).to == to && legs[j].quota_type
                == quota_type),
    ensures
        batch_credit(legs, to, quota_type) == 0,
    decreases legs.len(),
{
    if legs.len() > 0 {
        let rest = legs.drop_last();
        assert forall|j: int| 0 <= j < rest.len() implies !((#[trigger] rest[j]).to == to
            && rest[j].quota_type == quota_type) by {
            assert(rest[j] == legs[j]);
        }
        lemma_batch_credit_missing(rest, to, quota_type);
        assert(legs.last() == legs[legs.len() - 1]);
    }
}

struct QuotaAccount {
    owner: Identity,
    quota_type: QuotaType,
    balance: u32,
}

/// The ledger.
pub struct UserQuotaStore {
    accounts: Vec<QuotaAccount>,
}

impl View for UserQuotaStore {
    type V = Balances;

    closed spec fn view(&self) -> Balances {
        Map::total(|key: (Seq<u8>, QuotaType)| self.balance_of(key.0, key.1))
    }
}

impl Default for UserQuotaStore {
    fn default() -> (store: Self)
        ensures
            store.wf(),
            forall|key: (Seq<u8>, QuotaType)| #[trigger] store@[key] == 0,
    {
        UserQuotaStore::new()
    }
}

impl UserQuotaStore {
    spec fn at(&self, i: int, owner: Seq<u8>, quota_type: QuotaType) -> bool {
        0 <= i < self.accounts.len() && self.accounts[i].owner@ == owner
            && self.accounts[i].quota_type == quota_type
    }

    spec fn has(&self, owner: Seq<u8>, quota_type: QuotaType) -> bool {
        exists|i: int| self.at(i, owner, quota_type)
    }

    spec fn position(&self, owner: Seq<u8>, quota_type: QuotaType) -> int {
        choose|i: int| self.at(i, owner, quota_type)
    }

    spec fn balance_of(&self, owner: Seq<u8>, quota_type: QuotaType) -> nat {
        if self.has(owner, quota_type) {
            self.accounts[self.position(owner, quota_type)].balance as nat
        } else {
            0
        }
    }

    /// No identity has two accounts of one quota type.
    pub closed spec fn wf(&self) -> bool {
        forall|i: int, j: int|
            0 <= i < j < self.accounts.len() ==> !(self.accounts[i].owner@
                == self.accounts[j].owner@ && self.accounts[i].quota_type
                == self.accounts[j].quota_type)
    }

    /// Every identity and quota type has a balance, and none is above
    /// `u32::MAX`.
    pub proof fn lemma_balances(&self)
        ensures
            forall|key: (Seq<u8>, QuotaType)| #[trigger] self@.contains_key(key),
            forall|key: (Seq<u8>, QuotaType)| #[trigger] self@[key] <= u32::MAX,
    {
    }

    proof fn lemma_position(&self, i: int, owner: Seq<u8>, quota_type: QuotaType)
        requires
            self.wf(),
            self.at(i, owner, quota_type),
        ensures
            self.has(owner, quota_type),
            self.position(owner, quota_type) == i,
            self@[(owner, quota_type)] == self.accounts[i].balance,
    {
        let p = self.position(owner, quota_type);
        assert(self.at(p, owner, quota_type));
        if p < i {
            assert(!(self.accounts[p].owner@ == self.accounts[i].owner@
                && self.accounts[p].quota_type == self.accounts[i].quota_type));
        } else if i < p {
            assert(!(self.accounts[i].owner@ == self.accounts[p].owner@
                && self.accounts[i].quota_type == self.accounts[p].quota_type));
        }
    }

    /// The ledger in which every balance is 0.
    pub fn new() -> (store: UserQuotaStore)
        ensures
            store.wf(),
            forall|key: (Seq<u8>, QuotaType)| #[trigger] store@[key] == 0,
    {
        UserQuotaStore { accounts: Vec::new() }
    }

    fn find(&self, owner: &Identity, quota_type: &QuotaType) -> (found: Option<usize>)
        ensures
            match found {
                Some(i) => self.at(i as int, owner@, *quota_type),
                None => !self.has(owner@, *quota_type),
            },
    {
        let mut i: usize = 0;
        while i < self.accounts.len()
            invariant
                i <= self.accounts.len(),
                forall|k: int| 0 <= k < i ==> !self.at(k, owner@, *quota_type),
            decreases self.accounts.len() - i,
        {
            if self.accounts[i].quota_type == *quota_type && self.accounts[i].owner.equals(owner) {
                return Some(i);
            }
            i = i + 1;
        }
        None
    }

    /// The balance of an identity in a quota type.
    pub fn get_quota(&self, principal: &AuthPrincipal, quota_type: &QuotaType) -> (balance: u32)
        requires
            self.wf(),
        ensures
            balance == self@[(principal@, *quota_type)],
    {
        match self.find(&principal.0, quota_type) {
            Some(i) => {
                proof {
                    self.lemma_position(i as int, principal@, *quota_type);
                }
                self.accounts[i].balance
            },
            None => 0,
        }
    }

    fn set(&mut self, owner: &Identity, quota_type: QuotaType, balance: u32)
        requires
            old(self).wf(),
        ensures
            final(self).wf(),
            final(self)@ == old(self)@.insert((owner@, quota_type), balance as nat),
    {
        let ghost before = *self;
        let ghost key = (owner@, quota_type);
        match self.find(owner, &quota_type) {
            Some(i) => {
                self.accounts[i].balance = balance;
                proof {
                    assert forall|k: int| 0 <= k < self.accounts.len() implies (
                    #[trigger] self.accounts[k]).owner == before.accounts[k].owner
                        && self.accounts[k].quota_type == before.accounts[k].quota_type by {}
                    assert(self.wf());
                    assert forall|o: Seq<u8>, q: QuotaType| #[trigger]
                        self.has(o, q) == before.has(o, q) by {
                        if self.has(o, q) {
                            assert(before.at(self.position(o, q), o, q));
                        }
                        if before.has(o, q) {
                            assert(self.at(before.position(o, q), o, q));
                        }
                    }
                    assert forall|k: (Seq<u8>, QuotaType)| #[trigger]
                        self@[k] == before@.insert(key, balance as nat)[k] by {
                        if self.has(k.0, k.1) {
                            let p = self.position(k.0, k.1);
                            self.lemma_position(p, k.0, k.1);
                            assert(before.at(p, k.0, k.1));
                            before.lemma_position(p, k.0, k.1);
                            if k == key {
                                self.lemma_position(i as int, k.0, k.1);
                            }
                        }
                    }
                    self.lemma_position(i as int, owner@, quota_type);
                    assert(self@ =~= before@.insert(key, balance as nat));
                }
            },
            None => {
                self.accounts.push(QuotaAccount { owner: owner.clone(), quota_type, balance });
                proof {
                    let last = before.accounts.len() as int;
                    assert forall|k: int| 0 <= k < last implies #[trigger] self.accounts[k]
                        == before.accounts[k] by {}
                    assert forall|k: int| 0 <= k < last implies !(self.accounts[k].owner@
                        == owner@ && self.accounts[k].quota_type == quota_type) by {
                        assert(!before.at(k, owner@, quota_type));
                    }
                    assert(self.wf());
                    assert(self.at(last, owner@, quota_type));
                    assert forall|o: Seq<u8>, q: QuotaType| #[trigger]
                        self.has(o, q) == (before.has(o, q) || (o, q) == key) by {
                        if self.has(o, q) {
                            let p = self.position(o, q);
                            if p < last {
                                assert(before.at(p, o, q));
                            }
                        }
                        if before.has(o, q) {
                            assert(self.at(before.position(o, q), o, q));
                        }
                    }
                    assert forall|k: (Seq<u8>, QuotaType)| #[trigger]
                        self@[k] == before@.insert(key, balance as nat)[k] by {
                        if self.has(k.0, k.1) {
                            let p = self.position(k.0, k.1);
                            self.lemma_position(p, k.0, k.1);
                            if p < last {
                                assert(before.at(p, k.0, k.1));
                                before.lemma_position(p, k.0, k.1);
                            }
                        }
                    }
                    assert(self@ =~= before@.insert(key, balance as nat));
                }
            },
        }
    }

    /// Credits an identity with quota.
    pub fn add_quota(&mut self, principal: AuthPrincipal, quota_type: QuotaType, diff: u32)
        requires
            old(self).wf(),
            old(self)@[(principal@, quota_type)] + diff <= u32::MAX,
        ensures
            final(self).wf(),
            final(self)@ == credited(old(self)@, principal@, quota_type, diff as nat),
    {
        let balance = self.get_quota(&principal, &quota_type);
        self.set(&principal.0, quota_type, balance + diff);
    }

    /// Takes quota from an identity, if it has that much.
    pub fn sub_quota(&mut self, principal: &AuthPrincipal, quota_type: &QuotaType, diff: u32) -> (done:
        Result<(), MockError>)
        requires
            old(self).wf(),
        ensures
            final(self).wf(),
            old(self)@[(principal@, *quota_type)] < diff ==> done == Err::<(), MockError>(
                MockError::InsufficientQuota,
            ) && final(self)@ == old(self)@,
            old(self)@[(principal@, *quota_type)] >= diff ==> done is Ok && final(self)@
                == debited(old(self)@, principal@, *quota_type, diff as nat),
    {
        let balance = self.get_quota(principal, quota_type);
        if balance < diff {
            return Err(MockError::InsufficientQuota);
        }
        self.set(&principal.0, *quota_type, balance - diff);
        Ok(())
    }

    /// Moves quota from one identity to another.
    pub fn transfer_quota(&mut self, from: &AuthPrincipal, details: &TransferQuotaDetails) -> (done:
        Result<(), MockError>)
        requires
            old(self).wf(),
            transfer_refusal(old(self)@, from@, details@) is None ==> old(self)@[(
                details@.to,
                details@.quota_type,
            )] + details@.diff <= u32::MAX,
        ensures
            final(self).wf(),
            final(self)@ == after_transfer(old(self)@, from@, details@),
            match transfer_refusal(old(self)@, from@, details@) {
                Some(error) => done == Err::<(), MockError>(error) && final(self)@ == old(self)@,
                None => done is Ok && final(self)@ == transferred(old(self)@, from@, details@),
            },
    {
        if from.0.is_anonymous() || details.to.is_anonymous() {
            return Err(MockError::Unauthorized);
        }
        if details.to.equals(&from.0) {
            return Err(MockError::InvalidOwner);
        }
        if details.diff == 0 {
            return Err(MockError::InvalidQuotaOrderDetails);
        }
        match self.sub_quota(from, &details.quota_type, details.diff) {
            Err(error) => Err(error),
            Ok(()) => {
                self.add_quota(AuthPrincipal(details.to.clone()), details.quota_type, details.diff);
                Ok(())
            },
        }
    }

    /// Moves quota from one identity to several, all of it or none: the batch
    /// is examined before any balance is touched.
    #[verifier::loop_isolation(false)]
    pub fn batch_transfer_quota(&mut self, from: AuthPrincipal, details: &[TransferQuotaDetails]) -> (done:
        Result<(), MockError>)
        requires
            old(self).wf(),
            batch_refusal(old(self)@, from@, legs_of(details@)) is None ==> balances_fit(
                batch_transferred(old(self)@, from@, legs_of(details@)),
            ),
        ensures
            final(self).wf(),
            final(self)@ == after_batch(old(self)@, from@, legs_of(details@)),
            match batch_refusal(old(self)@, from@, legs_of(details@)) {
                Some(error) => done == Err::<(), MockError>(error) && final(self)@ == old(self)@,
                None => done is Ok && final(self)@ == batch_transferred(
                    old(self)@,
                    from@,
                    legs_of(details@),
                ),
            },
    {
        let ghost legs = legs_of(details@);
        let ghost start = self@;
        if from.0.is_anonymous() {
            return Err(MockError::Unauthorized);
        }
        let mut i: usize = 0;
        while i < details.len()
            invariant
                i <= details@.len(),
                legs == legs_of(details@),
                from@ != anonymous_bytes(),
                forall|j: int| 0 <= j < i ==> leg_refusal(from@, #[trigger] legs[j]) is None,
            decreases details@.len() - i,
        {
            let refused = if details[i].to.is_anonymous() {
                Some(MockError::Unauthorized)
            } else if details[i].to.equals(&from.0) {
                Some(MockError::InvalidOwner)
            } else if details[i].diff == 0 {
                Some(MockError::InvalidQuotaOrderDetails)
            } else {
                None
            };
            assert(legs[i as int] == details@[i as int]@);
            assert(refused == leg_refusal(from@, legs[i as int]));
            if let Some(error) = refused {
                proof {
                    lemma_batch_leg_refusal_at(from@, legs, i as int);
                }
                return Err(error);
            }
            i = i + 1;
        }
        proof {
            lemma_batch_leg_refusal_none(from@, legs);
        }
        let mut i: usize = 0;
        while i < details.len()
            invariant
                i <= details@.len(),
                legs == legs_of(details@),
                self.wf(),
                self@ == start,
                forall|j: int|
                    0 <= j < i ==> batch_debit(legs, (#[trigger] legs[j]).quota_type) <= start[(
                        from@,
                        legs[j].quota_type,
                    )],
            decreases details@.len() - i,
        {
            let quota_type = details[i].quota_type;
            assert(legs[i as int] == details@[i as int]@);
            let balance = self.get_quota(&from, &quota_type);
            let mut taken: u32 = 0;
            let mut j: usize = 0;
            while j < details.len()
                invariant
                    j <= details@.len(),
                    legs == legs_of(details@),
                    taken == batch_debit(legs.take(j as int), quota_type),
                    taken <= balance,
                    balance == start[(from@, quota_type)],
                    self@ == start,
                decreases details@.len() - j,
            {
                assert(legs[j as int] == details@[j as int]@);
                proof {
                    assert(legs.take(j + 1).drop_last() =~= legs.take(j as int));
                    assert(legs.take(j + 1).last() == legs[j as int]);
                    lemma_batch_debit_prefix(legs, j + 1, quota_type);
                }
                if details[j].quota_type == quota_type {
                    if details[j].diff > balance - taken {
                        proof {
                            assert(batch_debit(legs, quota_type) > start[(from@, quota_type)]);
                            assert(!batch_covered(start, from@, legs));
                        }
                        return Err(MockError::InsufficientQuota);
                    }
                    taken = taken + details[j].diff;
                }
                j = j + 1;
            }
            proof {
                assert(legs.take(j as int) =~= legs);
            }
            i = i + 1;
        }
        proof {
            assert forall|q: QuotaType| #[trigger] batch_debit(legs, q) <= start[(from@, q)] by {
                if exists|j: int| 0 <= j < legs.len() && (#[trigger] legs[j]).quota_type == q {
                    let j = choose|j: int| 0 <= j < legs.len() && (#[trigger] legs[j]).quota_type == q;
                    assert(batch_debit(legs, legs[j].quota_type) <= start[(from@, legs[j].quota_type)]);
                } else {
                    lemma_batch_debit_absent(legs, q);
                }
            }
            assert(batch_covered(start, from@, legs));
            assert(legs.take(0) =~= Seq::<QuotaLeg>::empty());
            assert(batch_transferred(start, from@, legs.take(0)) =~= start);
        }
        let mut i: usize = 0;
        while i < details.len()
            invariant
                i <= details@.len(),
                legs == legs_of(details@),
                self.wf(),
                self@ == batch_transferred(start, from@, legs.take(i as int)),
                forall|j: int| 0 <= j < legs.len() ==> leg_refusal(from@, #[trigger] legs[j]) is None,
                batch_covered(start, from@, legs),
                balances_fit(batch_transferred(start, from@, legs)),
            decreases details@.len() - i,
        {
            assert(legs[i as int] == details@[i as int]@);
            proof {
                lemma_batch_step(start, from@, legs, i as int);
                let leg = legs[i as int];
                let key = (leg.to, leg.quota_type);
                assert(legs.take(i + 1).drop_last() =~= legs.take(i as int));
                assert(legs.take(i + 1).last() == leg);
                lemma_batch_credit_prefix(legs, i + 1, leg.to, leg.quota_type);
                assert(batch_transferred(start, from@, legs)[key] <= u32::MAX);
                assert(batch_debit(legs, leg.quota_type) <= start[(from@, leg.quota_type)]);
            }
            match self.transfer_quota(&from, &details[i]) {
                Ok(()) => {},
                Err(error) => {
                    return Err(error);
                },
            }
            i = i + 1;
        }
        proof {
            assert(legs.take(i as int) =~= legs);
        }
        Ok(())
    }

    /// Whether every balance has room for what a batch gives to it. A batch
    /// may be handed to `batch_transfer_quota` where this holds.
    #[verifier::loop_isolation(false)]
    pub fn has_room_for(&self, details: &[TransferQuotaDetails]) -> (room: bool)
        requires
            self.wf(),
        ensures
            room == batch_credit_fits(self@, legs_of(details@)),
    {
        let ghost legs = legs_of(details@);
        let mut i: usize = 0;
        while i < details.len()
            invariant
                i <= details@.len(),
                forall|j: int|
                    0 <= j < i ==> self@[((#[trigger] legs[j]).to, legs[j].quota_type)]
                        + batch_credit(legs, legs[j].to, legs[j].quota_type) <= u32::MAX,
            decreases details@.len() - i,
        {
            let quota_type = details[i].quota_type;
            assert(legs[i as int] == details@[i as int]@);
            let ghost to = legs[i as int].to;
            let balance = self.get_quota(&AuthPrincipal(details[i].to.clone()), &quota_type);
            let mut given: u32 = 0;
            let mut j: usize = 0;
            while j < details.len()
                invariant
                    j <= details@.len(),
                    given == batch_credit(legs.take(j as int), to, quota_type),
                    balance + given <= u32::MAX,
                decreases details@.len() - j,
            {
                assert(legs[j as int] == details@[j as int]@);
                proof {
                    assert(legs.take(j + 1).drop_last() =~= legs.take(j as int));
                    assert(legs.take(j + 1).last() == legs[j as int]);
                    lemma_batch_credit_prefix(legs, j + 1, to, quota_type);
                }
                if details[j].quota_type == quota_type && details[j].to.equals(&details[i].to) {
                    if details[j].diff > u32::MAX - balance - given {
                        proof {
                            assert(self@[(to, quota_type)] + batch_credit(legs, to, quota_type)
                                > u32::MAX);
                        }
                        return false;
                    }
                    given = given + details[j].diff;
                }
                j = j + 1;
            }
            proof {
                assert(legs.take(j as int) =~= legs);
            }
            i = i + 1;
        }
        proof {
            self.lemma_balances();
            assert forall|to: Seq<u8>, quota_type: QuotaType|
                self@[(to, quota_type)] + #[trigger] batch_credit(legs, to, quota_type)
                    <= u32::MAX by {
                if exists|j: int|
                    0 <= j < legs.len() && (#[trigger] legs[j]).to == to && legs[j].quota_type
                        == quota_type {
                    let j = choose|j: int|
                        0 <= j < legs.len() && (#[trigger] legs[j]).to == to && legs[j].quota_type
                            == quota_type;
                    assert(self@[(legs[j].to, legs[j].quota_type)] + batch_credit(
                        legs,
                        legs[j].to,
                        legs[j].quota_type,
                    ) <= u32::MAX);
                } else {
                    lemma_batch_credit_missing(legs, to, quota_type);
                    assert(self@[(to, quota_type)] <= u32::MAX);
                }
            }
        }
        true
    }
}

} // verus!
