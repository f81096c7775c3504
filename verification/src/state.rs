//! The state of the registry, and the operations on names: who owns a name,
//! who is approved to take it over, and how ownership moves.

use crate::errors::{MockError, ServiceResult};
use crate::identity::{anonymous_bytes, Identity};
use crate::name_table::NameTable;
use crate::naming::{is_registrable, validated, FirstLevelName, NameDefect};
use crate::user_quota_store::{AuthPrincipal, Balances, UserQuotaStore};
use vstd::prelude::*;

verus! {

/// Everything that the registry holds.
pub struct State {
    pub(crate) registries: NameTable,
    pub(crate) approvals: NameTable,
    pub(crate) user_quota_store: UserQuotaStore,
}

/// The state as the contracts see it: the owner of each registered name, the
/// delegate approved for a name, and the balances of the ledger.
pub struct StateView {
    pub registries: Map<Seq<char>, Seq<u8>>,
    pub approvals: Map<Seq<char>, Seq<u8>>,
    pub quotas: Balances,
}

impl StateView {
    /// Every name in the state is a second-level name in normal form, and no
    /// approval names the anonymous identity.
    pub open spec fn wf(self) -> bool {
        &&& forall|name: Seq<char>| #[trigger]
            self.registries.contains_key(name) ==> is_registrable(name)
        &&& forall|name: Seq<char>| #[trigger]
            self.approvals.contains_key(name) ==> is_registrable(name) && self.approvals[name]
                != anonymous_bytes()
    }

    /// The owner of a name, if it is registered.
    pub open spec fn owner_of(self, name: Seq<char>) -> Option<Seq<u8>> {
        if self.registries.contains_key(name) {
            Some(self.registries[name])
        } else {
            None
        }
    }

    /// Whether an identity is the delegate approved for a name.
    pub open spec fn is_approved(self, name: Seq<char>, candidate: Seq<u8>) -> bool {
        self.approvals.contains_key(name) && self.approvals[name] == candidate
    }

    /// The state after a name was given to an owner.
    pub open spec fn with_owner(self, name: Seq<char>, owner: Seq<u8>) -> StateView {
        StateView { registries: self.registries.insert(name, owner), ..self }
    }

    /// The state after a delegate was approved for a name; approving the
    /// anonymous identity takes the approval away.
    pub open spec fn with_approval(self, name: Seq<char>, delegate: Seq<u8>) -> StateView {
        if delegate == anonymous_bytes() {
            self.without_approval(name)
        } else {
            StateView { approvals: self.approvals.insert(name, delegate), ..self }
        }
    }

    /// The state without an approval for a name.
    pub open spec fn without_approval(self, name: Seq<char>) -> StateView {
        StateView { approvals: self.approvals.remove(name), ..self }
    }
}

impl View for State {
    type V = StateView;

    closed spec fn view(&self) -> StateView {
        self.model()
    }
}

impl Default for State {
    fn default() -> (state: Self)
        ensures
            state.wf(),
            state@.registries == Map::<Seq<char>, Seq<u8>>::empty(),
            state@.approvals == Map::<Seq<char>, Seq<u8>>::empty(),
            forall|key| #[trigger] state@.quotas[key] == 0,
    {
        State::new()
    }
}

impl State {
    pub open(crate) spec fn model(&self) -> StateView {
        StateView {
            registries: self.registries@,
            approvals: self.approvals@,
            quotas: self.user_quota_store@,
        }
    }

    /// The tables and the ledger are well formed, and so is what they hold.
    pub open(crate) spec fn wf(&self) -> bool {
        &&& self.registries.wf()
        &&& self.approvals.wf()
        &&& self.user_quota_store.wf()
        &&& self.model().wf()
    }

    pub(crate) proof fn lemma_model(&self)
        ensures
            self@ == self.model(),
    {
    }

    /// A change of the ledger alone leaves a well-formed state well formed.
    pub(crate) proof fn lemma_ledger_changed(&self, before: State)
        requires
            before.wf(),
            self.registries == before.registries,
            self.approvals == before.approvals,
            self.user_quota_store.wf(),
        ensures
            self.wf(),
            self@.registries == before@.registries,
            self@.approvals == before@.approvals,
            self@.quotas == self.user_quota_store@,
            before@.quotas == before.user_quota_store@,
    {
        assert(self.model().registries == before.model().registries);
        assert(self.model().approvals == before.model().approvals);
    }

    /// What a well-formed state holds is well formed.
    pub proof fn lemma_view_wf(&self)
        requires
            self.wf(),
        ensures
            self@.wf(),
    {
    }

    /// The state without a name and without quota.
    pub fn new() -> (state: State)
        ensures
            state.wf(),
            state@.registries == Map::<Seq<char>, Seq<u8>>::empty(),
            state@.approvals == Map::<Seq<char>, Seq<u8>>::empty(),
            forall|key| #[trigger] state@.quotas[key] == 0,
    {
        State {
            registries: NameTable::new(),
            approvals: NameTable::new(),
            user_quota_store: UserQuotaStore::new(),
        }
    }

    /// The ledger of the registry.
    pub fn quota_store(&self) -> (store: &UserQuotaStore)
        requires
            self.wf(),
        ensures
            store.wf(),
            store@ == self@.quotas,
    {
        &self.user_quota_store
    }

    /// Registers a name for an owner, or gives a registered name to that
    /// owner.
    pub fn insert_registration(&mut self, name: &FirstLevelName, owner: Identity)
        requires
            old(self).wf(),
        ensures
            final(self).wf(),
            final(self)@ == old(self)@.with_owner(name@, owner@),
    {
        let ghost before = self.model();
        let key = name.get_name().clone();
        self.registries.insert(key, owner);
        proof {
            let after = self.model();
            assert(after.registries == before.registries.insert(name@, owner@));
            assert forall|n: Seq<char>| #[trigger]
                after.registries.contains_key(n) implies is_registrable(n) by {
                if n != name@ {
                    assert(before.registries.contains_key(n));
                }
            }
            assert(after.approvals == before.approvals);
            assert(after.wf());
        }
    }
}

/// Whether a result is the error that reports a defect of a name.
pub open spec fn is_invalid_name<T>(result: ServiceResult<T>, defect: NameDefect) -> bool {
    result matches Err(MockError::InvalidName { reason }) && reason@ == defect.reason_spec()
}

/// Why an identity may not act as the owner of a name, if it may not: the
/// name is not registered, or another identity owns it.
pub open spec fn ownership_refusal(state: StateView, name: Seq<char>, caller: Seq<u8>) -> Option<
    MockError,
> {
    if !state.registries.contains_key(name) {
        Some(MockError::RegistrationNotFound)
    } else if state.registries[name] != caller {
        Some(MockError::PermissionDenied)
    } else {
        None
    }
}

/// Why an approval is refused, if it is, for a name that is valid.
pub open spec fn approve_refusal(state: StateView, caller: Seq<u8>, name: Seq<char>) -> Option<
    MockError,
> {
    if caller == anonymous_bytes() {
        Some(MockError::Unauthorized)
    } else {
        ownership_refusal(state, name, caller)
    }
}

/// Why a delegate may not take a name over, if it may not, for a name that is
/// valid.
pub open spec fn transfer_from_refusal(state: StateView, caller: Seq<u8>, name: Seq<char>)
    -> Option<MockError> {
    if !state.is_approved(name, caller) {
        Some(MockError::PermissionDenied)
    } else if !state.registries.contains_key(name) {
        Some(MockError::RegistrationNotFound)
    } else {
        None
    }
}

/// The state after `approve`.
pub open spec fn approve_next(state: StateView, caller: Seq<u8>, raw: Seq<char>, to: Seq<u8>)
    -> StateView {
    match validated(raw) {
        Ok(name) => if approve_refusal(state, caller, name) is None {
            state.with_approval(name, to)
        } else {
            state
        },
        Err(_) => state,
    }
}

/// The state after `transfer`.
pub open spec fn transfer_next(
    state: StateView,
    caller: Seq<u8>,
    raw: Seq<char>,
    new_owner: Seq<u8>,
) -> StateView {
    match validated(raw) {
        Ok(name) => if ownership_refusal(state, name, caller) is None {
            state.with_owner(name, new_owner)
        } else {
            state
        },
        Err(_) => state,
    }
}

/// The state after `transfer_from`.
pub open spec fn transfer_from_next(state: StateView, caller: Seq<u8>, raw: Seq<char>)
    -> StateView {
    match validated(raw) {
        Ok(name) => if transfer_from_refusal(state, caller, name) is None {
            state.with_owner(name, caller)
        } else {
            state
        },
        Err(_) => state,
    }
}

/// Validates a raw name.
pub fn validate_name(name: &str) -> (valid: ServiceResult<FirstLevelName>)
    ensures
        match validated(name@) {
            Ok(normal) => valid matches Ok(n) && n@ == normal,
            Err(defect) => is_invalid_name(valid, defect),
        },
{
    match FirstLevelName::parse(name) {
        Ok(valid) => Ok(valid),
        Err(defect) => Err(MockError::InvalidName { reason: defect.reason() }),
    }
}

/// Lets every identity through but the anonymous one.
pub fn must_not_anonymous(caller: &Identity) -> (guarded: ServiceResult<AuthPrincipal>)
    ensures
        caller@ == anonymous_bytes() ==> guarded == Err::<AuthPrincipal, MockError>(
            MockError::Unauthorized,
        ),
        caller@ != anonymous_bytes() ==> (guarded matches Ok(principal) && principal@ == caller@),
{
    if caller.is_anonymous() {
        return Err(MockError::Unauthorized);
    }
    Ok(AuthPrincipal(caller.clone()))
}

/// The owner of a name, if it is registered.
pub fn owner_of(state: &State, name: &FirstLevelName) -> (owner: Option<Identity>)
    requires
        state.wf(),
    ensures
        match state@.owner_of(name@) {
            Some(id) => owner matches Some(o) && o@ == id,
            None => owner is None,
        },
{
    match state.registries.get(name.get_name()) {
        Some(owner) => Some(owner.clone()),
        None => None,
    }
}

/// Whether an identity owns a name; an error where nobody does.
pub fn is_owner(state: &State, name: &FirstLevelName, id: &Identity) -> (owns: ServiceResult<bool>)
    requires
        state.wf(),
    ensures
        match state@.owner_of(name@) {
            Some(owner) => owns == Ok::<bool, MockError>(owner == id@),
            None => owns == Err::<bool, MockError>(MockError::RegistrationNotFound),
        },
{
    match state.registries.get(name.get_name()) {
        Some(owner) => Ok(owner.equals(id)),
        None => Err(MockError::RegistrationNotFound),
    }
}

/// The owner of a name, where the caller is that owner.
pub fn is_name_owner(state: &State, name: &FirstLevelName, caller: &Identity) -> (owner:
    ServiceResult<Identity>)
    requires
        state.wf(),
    ensures
        match ownership_refusal(state@, name@, caller@) {
            Some(error) => owner == Err::<Identity, MockError>(error),
            None => owner matches Ok(o) && o@ == caller@,
        },
{
    match is_owner(state, name, caller) {
        Err(error) => Err(error),
        Ok(false) => Err(MockError::PermissionDenied),
        Ok(true) => Ok(caller.clone()),
    }
}

/// Gives a registered name to a new owner.
pub fn set_owner(state: &mut State, name: &FirstLevelName, new_owner: Identity) -> (done:
    ServiceResult<()>)
    requires
        old(state).wf(),
    ensures
        final(state).wf(),
        old(state)@.registries.contains_key(name@) ==> done is Ok && final(state)@ == old(
            state,
        )@.with_owner(name@, new_owner@),
        !old(state)@.registries.contains_key(name@) ==> done == Err::<(), MockError>(
            MockError::RegistrationNotFound,
        ) && final(state)@ == old(state)@,
{
    if state.registries.get(name.get_name()).is_none() {
        return Err(MockError::RegistrationNotFound);
    }
    state.insert_registration(name, new_owner);
    Ok(())
}

/// Approves a delegate for a name, in place of the one approved before;
/// approving the anonymous identity takes the approval away.
pub fn set_approval(state: &mut State, name: &FirstLevelName, approved_to: &Identity)
    requires
        old(state).wf(),
    ensures
        final(state).wf(),
        final(state)@ == old(state)@.with_approval(name@, approved_to@),
{
    let ghost before = state.model();
    if approved_to.is_anonymous() {
        state.approvals.remove(name.get_name());
    } else {
        let key = name.get_name().clone();
        state.approvals.insert(key, approved_to.clone());
    }
    proof {
        let after = state.model();
        assert forall|n: Seq<char>| #[trigger] after.approvals.contains_key(n) implies is_registrable(
            n,
        ) && after.approvals[n] != anonymous_bytes() by {
            if n != name@ {
                assert(before.approvals.contains_key(n));
            }
        }
        assert(after.registries == before.registries);
        assert(after.wf());
    }
}

/// Whether an identity is the delegate approved for a name.
pub fn is_approved_to(state: &State, name: &str, approved_to: &Identity) -> (approved: bool)
    requires
        state.wf(),
    ensures
        approved == state@.is_approved(name@, approved_to@),
{
    let key = String::from_str(name);
    match state.approvals.get(&key) {
        Some(approval) => approval.equals(approved_to),
        None => false,
    }
}

/// Takes the approval for a name away.
pub fn remove_approval(state: &mut State, name: &str)
    requires
        old(state).wf(),
    ensures
        final(state).wf(),
        final(state)@ == old(state)@.without_approval(name@),
{
    let ghost before = state.model();
    let key = String::from_str(name);
    state.approvals.remove(&key);
    proof {
        let after = state.model();
        assert forall|n: Seq<char>| #[trigger] after.approvals.contains_key(n) implies is_registrable(
            n,
        ) && after.approvals[n] != anonymous_bytes() by {
            assert(before.approvals.contains_key(n));
        }
        assert(after.registries == before.registries);
        assert(after.wf());
    }
}

/// The owner of a name approves a delegate, who may then take the name over.
pub fn approve(state: &mut State, caller: &Identity, name: &str, to: Identity) -> (done:
    ServiceResult<bool>)
    requires
        old(state).wf(),
    ensures
        final(state).wf(),
        final(state)@ == approve_next(old(state)@, caller@, name@, to@),
        match validated(name@) {
            Err(defect) => is_invalid_name(done, defect),
            Ok(normal) => match approve_refusal(old(state)@, caller@, normal) {
                Some(error) => done == Err::<bool, MockError>(error),
                None => done == Ok::<bool, MockError>(true),
            },
        },
{
    let name = match validate_name(name) {
        Ok(name) => name,
        Err(error) => {
            return Err(error);
        },
    };
    if let Err(error) = must_not_anonymous(caller) {
        return Err(error);
    }
    if let Err(error) = is_name_owner(state, &name, caller) {
        return Err(error);
    }
    set_approval(state, &name, &to);
    Ok(true)
}

/// The owner of a name gives it to a new owner.
pub fn transfer(state: &mut State, caller: &Identity, name: &str, new_owner: Identity) -> (done:
    ServiceResult<bool>)
    requires
        old(state).wf(),
    ensures
        final(state).wf(),
        final(state)@ == transfer_next(old(state)@, caller@, name@, new_owner@),
        match validated(name@) {
            Err(defect) => is_invalid_name(done, defect),
            Ok(normal) => match ownership_refusal(old(state)@, normal, caller@) {
                Some(error) => done == Err::<bool, MockError>(error),
                None => done == Ok::<bool, MockError>(true),
            },
        },
{
    let name = match validate_name(name) {
        Ok(name) => name,
        Err(error) => {
            return Err(error);
        },
    };
    if let Err(error) = is_name_owner(state, &name, caller) {
        return Err(error);
    }
    match set_owner(state, &name, new_owner) {
        Ok(()) => Ok(true),
        Err(error) => Err(error),
    }
}

/// The delegate approved for a name takes it over.
pub fn transfer_from(state: &mut State, caller: &Identity, name: &str) -> (done: ServiceResult<
    bool,
>)
    requires
        old(state).wf(),
    ensures
        final(state).wf(),
        final(state)@ == transfer_from_next(old(state)@, caller@, name@),
        match validated(name@) {
            Err(defect) => is_invalid_name(done, defect),
            Ok(normal) => match transfer_from_refusal(old(state)@, caller@, normal) {
                Some(error) => done == Err::<bool, MockError>(error),
                None => done == Ok::<bool, MockError>(true),
            },
        },
{
    let name = match validate_name(name) {
        Ok(name) => name,
        Err(error) => {
            return Err(error);
        },
    };
    if !is_approved_to(state, name.get_name().as_str(), caller) {
        return Err(MockError::PermissionDenied);
    }
    match set_owner(state, &name, caller.clone()) {
        Ok(()) => Ok(true),
        Err(error) => Err(error),
    }
}

/// The owner of a registered name can give it to anyone, who then owns it.
/// Nobody else can: such a call is refused for want of permission and
/// changes nothing.
pub proof fn lemma_transfer_by_owner_only(
    state: StateView,
    name: Seq<char>,
    owner: Seq<u8>,
    caller: Seq<u8>,
    new_owner: Seq<u8>,
)
    requires
        state.wf(),
        state.owner_of(name) == Some(owner),
    ensures
        validated(name) == Ok::<Seq<char>, NameDefect>(name),
        caller == owner ==> ownership_refusal(state, name, caller) is None && transfer_next(
            state,
            caller,
            name,
            new_owner,
        ).owner_of(name) == Some(new_owner),
        caller != owner ==> ownership_refusal(state, name, caller) == Some(
            MockError::PermissionDenied,
        ) && transfer_next(state, caller, name, new_owner) == state,
{
    assert(state.registries.contains_key(name));
    assert(is_registrable(name));
}

/// Once the owner of a name has approved a delegate, the delegate can take
/// the name over and then owns it. Anyone else who tries is refused for want
/// of permission, and nothing changes.
pub proof fn lemma_approved_delegate_takes_over(
    state: StateView,
    owner: Seq<u8>,
    raw: Seq<char>,
    delegate: Seq<u8>,
    other: Seq<u8>,
)
    requires
        state.wf(),
        validated(raw) is Ok,
        approve_refusal(state, owner, validated(raw)->Ok_0) is None,
        delegate != anonymous_bytes(),
    ensures
        ({
            let name = validated(raw)->Ok_0;
            let approved = approve_next(state, owner, raw, delegate);
            &&& approved.wf()
            &&& transfer_from_refusal(approved, delegate, name) is None
            &&& transfer_from_next(approved, delegate, raw).owner_of(name) == Some(delegate)
            &&& other != delegate ==> transfer_from_refusal(approved, other, name) == Some(
                MockError::PermissionDenied,
            ) && transfer_from_next(approved, other, raw) == approved
        }),
{
    let name = validated(raw)->Ok_0;
    let approved = approve_next(state, owner, raw, delegate);
    crate::naming::lemma_validate_idempotent(raw);
    assert(is_registrable(name));
    assert forall|n: Seq<char>| #[trigger] approved.approvals.contains_key(n) implies is_registrable(
        n,
    ) && approved.approvals[n] != anonymous_bytes() by {
        if n != name {
            assert(state.approvals.contains_key(n));
        }
    }
}

/// Each operation on names leaves a well-formed state well formed.
pub proof fn lemma_next_wf(state: StateView, caller: Seq<u8>, raw: Seq<char>, other: Seq<u8>)
    requires
        state.wf(),
    ensures
        approve_next(state, caller, raw, other).wf(),
        transfer_next(state, caller, raw, other).wf(),
        transfer_from_next(state, caller, raw).wf(),
{
    crate::naming::lemma_validate_idempotent(raw);
    if validated(raw) is Ok {
        let name = validated(raw)->Ok_0;
        assert(is_registrable(name));
        let approved = approve_next(state, caller, raw, other);
        assert forall|n: Seq<char>| #[trigger] approved.approvals.contains_key(n) implies is_registrable(
            n,
        ) && approved.approvals[n] != anonymous_bytes() by {
            if n != name {
                assert(state.approvals.contains_key(n));
            }
        }
        let given = transfer_next(state, caller, raw, other);
        assert forall|n: Seq<char>| #[trigger] given.registries.contains_key(n) implies is_registrable(
            n,
        ) by {
            if n != name {
                assert(state.registries.contains_key(n));
            }
        }
        let taken = transfer_from_next(state, caller, raw);
        assert forall|n: Seq<char>| #[trigger] taken.registries.contains_key(n) implies is_registrable(
            n,
        ) by {
            if n != name {
                assert(state.registries.contains_key(n));
            }
        }
    }
}

} // verus!
