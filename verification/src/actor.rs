//! The calls that the registry answers. Each takes the state and the
//! identity of the caller, and returns what is handed back to the caller.

use crate::common::errors::ErrorInfo;
use crate::errors::{ActorResult, BooleanActorResponse, MockError, ServiceResult};
use crate::identity::{principal_text, Identity};
use crate::naming::{is_registrable, lemma_second_level_name, validated, NameDefect};
use crate::state::{
    approve_next, approve_refusal, ownership_refusal, transfer_from_next, transfer_from_refusal,
    transfer_next, validate_name, State,
};
use crate::text::quoted_text;
use crate::user_quota_store::{
    after_batch, after_transfer, balances_fit, batch_refusal, batch_transferred, credited, legs_of,
    transfer_refusal, AuthPrincipal, QuotaLeg, QuotaType, TransferQuotaDetails,
};
use vstd::prelude::*;

verus! {

/// The registered names, each with the textual form of its owner.
#[derive(Debug, Clone, PartialEq, Eq)]
pub struct GetNamesResponse {
    pub names: Vec<(String, String)>,
}

/// A batch of transfers of quota, all from the caller.
#[derive(Debug, Clone, PartialEq, Eq)]
pub struct BatchTransferRequest {
    pub items: Vec<TransferQuotaDetails>,
}

/// A transfer of quota between two identities, asked for by a third.
#[derive(Debug, Clone, PartialEq, Eq)]
pub struct TransferFromQuotaRequest {
    pub from: Identity,
    pub to: Identity,
    pub quota_type: QuotaType,
    pub diff: u32,
}

/// Whether a response is the failure that reports a defect of a name: the
/// code of an invalid name, 6, and the message that quotes the reason.
pub open spec fn reports_invalid_name(response: BooleanActorResponse, defect: NameDefect) -> bool {
    response matches BooleanActorResponse::Failure(info) && info.code == 6 && info.message@
        == "name is invalid, reason: "@ + quoted_text(defect.reason_spec())
}

/// Whether a response is the one owed to a call on a name: the report of the
/// defect of the name, the report of the refusal, or `true`.
pub open spec fn answers(
    response: BooleanActorResponse,
    name: Result<Seq<char>, NameDefect>,
    refusal: Option<MockError>,
) -> bool {
    match name {
        Err(defect) => reports_invalid_name(response, defect),
        Ok(_) => match refusal {
            Some(error) => response.reports(error),
            None => response == BooleanActorResponse::Success(true),
        },
    }
}

/// The names that a fresh registry starts with are names that the registry
/// accepts as they are.
pub proof fn lemma_first_names()
    ensures
        is_registrable("user1.org"@),
        is_registrable("user2.org"@),
        is_registrable("user3.org"@),
        is_registrable("user4.org"@),
{
    reveal_strlit("user1.org");
    reveal_strlit("user2.org");
    reveal_strlit("user3.org");
    reveal_strlit("user4.org");
    let top = seq!['o', 'r', 'g'];
    let first = seq!['u', 's', 'e', 'r', '1'];
    let second = seq!['u', 's', 'e', 'r', '2'];
    let third = seq!['u', 's', 'e', 'r', '3'];
    let fourth = seq!['u', 's', 'e', 'r', '4'];
    lemma_second_level_name(first, top);
    lemma_second_level_name(second, top);
    lemma_second_level_name(third, top);
    lemma_second_level_name(fourth, top);
    assert("user1.org"@ =~= first + seq!['.'] + top);
    assert("user2.org"@ =~= second + seq!['.'] + top);
    assert("user3.org"@ =~= third + seq!['.'] + top);
    assert("user4.org"@ =~= fourth + seq!['.'] + top);
}

fn seed(state: &mut State, raw: &str, owner: &Identity)
    requires
        old(state).wf(),
        is_registrable(raw@),
    ensures
        final(state).wf(),
        final(state)@ == old(state)@.with_owner(raw@, owner@),
{
    if let Ok(name) = validate_name(raw) {
        state.insert_registration(&name, owner.clone());
    }
}

/// Registers the four names that a fresh registry starts with, all for one
/// owner.
pub fn init_function(state: &mut State, owner: Identity)
    requires
        old(state).wf(),
    ensures
        final(state).wf(),
        final(state)@ == old(state)@.with_owner("user1.org"@, owner@).with_owner(
            "user2.org"@,
            owner@,
        ).with_owner("user3.org"@, owner@).with_owner("user4.org"@, owner@),
{
    proof {
        lemma_first_names();
    }
    seed(state, "user1.org", &owner);
    seed(state, "user2.org", &owner);
    seed(state, "user3.org", &owner);
    seed(state, "user4.org", &owner);
}

/// Gives a registered name to a new owner, whoever asks; answers whether the
/// name was registered.
pub fn set_registry_owner(state: &mut State, name: &str, new_owner: Identity) -> (response:
    ActorResult<BooleanActorResponse>)
    requires
        old(state).wf(),
    ensures
        final(state).wf(),
        old(state)@.registries.contains_key(name@) ==> response == Ok::<
            BooleanActorResponse,
            ErrorInfo,
        >(BooleanActorResponse::Success(true)) && final(state)@ == old(state)@.with_owner(
            name@,
            new_owner@,
        ),
        !old(state)@.registries.contains_key(name@) ==> response == Ok::<
            BooleanActorResponse,
            ErrorInfo,
        >(BooleanActorResponse::Success(false)) && final(state)@ == old(state)@,
{
    proof {
        state.lemma_model();
    }
    let key = String::from_str(name);
    if state.registries.get(&key).is_none() {
        return Ok(BooleanActorResponse::Success(false));
    }
    assert(state.model().registries.contains_key(name@));
    assert(is_registrable(name@));
    match validate_name(name) {
        Ok(valid) => {
            match crate::state::set_owner(state, &valid, new_owner) {
                Ok(()) => Ok(BooleanActorResponse::Success(true)),
                Err(_) => Ok(BooleanActorResponse::Success(false)),
            }
        },
        Err(_) => Ok(BooleanActorResponse::Success(false)),
    }
}

/// Whether a list holds every registered name once, each with the textual
/// form of its owner, and nothing else.
pub open spec fn lists_registry(
    names: Seq<(String, String)>,
    registries: Map<Seq<char>, Seq<u8>>,
) -> bool {
    &&& forall|i: int|
        0 <= i < names.len() ==> registries.contains_key((#[trigger] names[i]).0@) && names[i].1@
            == principal_text(registries[names[i].0@])
    &&& forall|i: int, j: int|
        0 <= i < j < names.len() ==> (#[trigger] names[i]).0@ != (#[trigger] names[j]).0@
    &&& forall|name: Seq<char>| #[trigger]
        registries.contains_key(name) ==> exists|i: int|
            0 <= i < names.len() && (#[trigger] names[i]).0@ == name
}

/// The registered names, each with the textual form of its owner.
pub fn get_names(state: &State) -> (response: ServiceResult<GetNamesResponse>)
    requires
        state.wf(),
    ensures
        response is Ok,
        lists_registry(response->Ok_0.names@, state@.registries),
{
    proof {
        state.lemma_model();
        state.registries.lemma_names();
    }
    let ghost keys = state.registries.names();
    let mut names: Vec<(String, String)> = Vec::new();
    let mut i: usize = 0;
    let n = state.registries.len();
    while i < n
        invariant
            state.wf(),
            i <= n,
            n == keys.len(),
            keys == state.registries.names(),
            names@.len() == i,
            forall|k: int|
                0 <= k < i ==> (#[trigger] names@[k]).0@ == keys[k] && state.registries@.contains_key(
                    keys[k],
                ) && names@[k].1@ == principal_text(state.registries@[keys[k]]),
        decreases n - i,
    {
        let (name, owner) = state.registries.entry(i);
        names.push((name.clone(), owner.to_text()));
        i = i + 1;
    }
    let response = GetNamesResponse { names };
    proof {
        let listed = response.names@;
        let registries = state@.registries;
        assert(registries == state.registries@);
        assert forall|k: int| 0 <= k < listed.len() implies registries.contains_key(
            (#[trigger] listed[k]).0@,
        ) && listed[k].1@ == principal_text(registries[listed[k].0@]) by {
            assert(listed[k].0@ == keys[k]);
        }
        assert forall|a: int, b: int| 0 <= a < b < listed.len() implies (#[trigger] listed[a]).0@
            != (#[trigger] listed[b]).0@ by {
            assert(listed[a].0@ == keys[a] && listed[b].0@ == keys[b]);
            assert(keys[a] != keys[b]);
        }
        assert forall|name: Seq<char>| #[trigger] registries.contains_key(name) implies exists|
            k: int,
        |
            0 <= k < listed.len() && (#[trigger] listed[k]).0@ == name by {
            assert(keys.contains(name));
            let k = choose|k: int| 0 <= k < keys.len() && keys[k] == name;
            assert(listed[k].0@ == name);
        }
        assert(lists_registry(listed, registries));
    }
    Ok(response)
}

/// Credits an identity with quota. Where `admin` names an identity, only
/// that identity may do so.
pub fn add_quota(
    state: &mut State,
    caller: &Identity,
    admin: Option<&Identity>,
    quota_owner: Identity,
    quota_type: QuotaType,
    diff: u32,
) -> (response: ServiceResult<BooleanActorResponse>)
    requires
        old(state).wf(),
        old(state)@.quotas[(quota_owner@, quota_type)] + diff <= u32::MAX,
    ensures
        final(state).wf(),
        final(state)@.registries == old(state)@.registries,
        final(state)@.approvals == old(state)@.approvals,
        (admin matches Some(a) && a@ != caller@) ==> response == Err::<
            BooleanActorResponse,
            MockError,
        >(MockError::PermissionDenied) && final(state)@ == old(state)@,
        !(admin matches Some(a) && a@ != caller@) ==> response == Ok::<
            BooleanActorResponse,
            MockError,
        >(BooleanActorResponse::Success(true)) && final(state)@.quotas == credited(
            old(state)@.quotas,
            quota_owner@,
            quota_type,
            diff as nat,
        ),
{
    proof {
        state.lemma_model();
    }
    if let Some(a) = admin {
        if !a.equals(caller) {
            return Err(MockError::PermissionDenied);
        }
    }
    let ghost before = *state;
    state.user_quota_store.add_quota(AuthPrincipal(quota_owner), quota_type, diff);
    proof {
        state.lemma_ledger_changed(before);
    }
    Ok(BooleanActorResponse::Success(true))
}

/// The quota that the caller holds of a quota type.
pub fn get_quota(state: &State, caller: &Identity, quota_type: QuotaType) -> (response:
    ServiceResult<u32>)
    requires
        state.wf(),
    ensures
        response == Ok::<u32, MockError>(state@.quotas[(caller@, quota_type)] as u32),
        state@.quotas[(caller@, quota_type)] <= u32::MAX,
{
    proof {
        state.lemma_model();
        state.user_quota_store.lemma_balances();
    }
    Ok(state.user_quota_store.get_quota(&AuthPrincipal(caller.clone()), &quota_type))
}

/// Moves quota from the caller to another identity.
pub fn transfer_quota(
    state: &mut State,
    caller: &Identity,
    to: Identity,
    quota_type: QuotaType,
    diff: u32,
) -> (response: BooleanActorResponse)
    requires
        old(state).wf(),
        ({
            let leg = QuotaLeg { to: to@, quota_type, diff: diff as nat };
            transfer_refusal(old(state)@.quotas, caller@, leg) is None ==> old(state)@.quotas[(
                to@,
                quota_type,
            )] + diff <= u32::MAX
        }),
    ensures
        final(state).wf(),
        final(state)@.registries == old(state)@.registries,
        final(state)@.approvals == old(state)@.approvals,
        ({
            let leg = QuotaLeg { to: to@, quota_type, diff: diff as nat };
            &&& final(state)@.quotas == after_transfer(old(state)@.quotas, caller@, leg)
            &&& match transfer_refusal(old(state)@.quotas, caller@, leg) {
                Some(error) => response.reports(error),
                None => response == BooleanActorResponse::Success(true),
            }
        }),
{
    proof {
        state.lemma_model();
    }
    let from = AuthPrincipal(caller.clone());
    let details = TransferQuotaDetails { to, quota_type, diff };
    let ghost before = *state;
    let result = state.user_quota_store.transfer_quota(&from, &details);
    proof {
        state.lemma_ledger_changed(before);
    }
    match result {
        Ok(_) => BooleanActorResponse::Success(true),
        Err(e) => BooleanActorResponse::new(Err(e)),
    }
}

/// Moves quota from one identity to another, for a caller that is trusted
/// to ask for it.
pub fn transfer_from_quota(state: &mut State, request: TransferFromQuotaRequest) -> (response:
    BooleanActorResponse)
    requires
        old(state).wf(),
        ({
            let leg = QuotaLeg {
                to: request.to@,
                quota_type: request.quota_type,
                diff: request.diff as nat,
            };
            transfer_refusal(old(state)@.quotas, request.from@, leg) is None ==> old(
                state,
            )@.quotas[(request.to@, request.quota_type)] + request.diff <= u32::MAX
        }),
    ensures
        final(state).wf(),
        final(state)@.registries == old(state)@.registries,
        final(state)@.approvals == old(state)@.approvals,
        ({
            let leg = QuotaLeg {
                to: request.to@,
                quota_type: request.quota_type,
                diff: request.diff as nat,
            };
            &&& final(state)@.quotas == after_transfer(old(state)@.quotas, request.from@, leg)
            &&& match transfer_refusal(old(state)@.quotas, request.from@, leg) {
                Some(error) => response.reports(error),
                None => response == BooleanActorResponse::Success(true),
            }
        }),
{
    proof {
        state.lemma_model();
    }
    let from = AuthPrincipal(request.from);
    let details = TransferQuotaDetails {
        to: request.to,
        quota_type: request.quota_type,
        diff: request.diff,
    };
    let ghost before = *state;
    let result = state.user_quota_store.transfer_quota(&from, &details);
    proof {
        state.lemma_ledger_changed(before);
    }
    match result {
        Ok(_) => BooleanActorResponse::Success(true),
        Err(e) => BooleanActorResponse::new(Err(e)),
    }
}

/// Moves quota from the caller to several identities, all of it or none.
pub fn batch_transfer_quota(state: &mut State, caller: &Identity, request: BatchTransferRequest) -> (response:
    BooleanActorResponse)
    requires
        old(state).wf(),
        batch_refusal(old(state)@.quotas, caller@, legs_of(request.items@)) is None
            ==> balances_fit(
            batch_transferred(old(state)@.quotas, caller@, legs_of(request.items@)),
        ),
    ensures
        final(state).wf(),
        final(state)@.registries == old(state)@.registries,
        final(state)@.approvals == old(state)@.approvals,
        final(state)@.quotas == after_batch(old(state)@.quotas, caller@, legs_of(request.items@)),
        match batch_refusal(old(state)@.quotas, caller@, legs_of(request.items@)) {
            Some(error) => response.reports(error),
            None => response == BooleanActorResponse::Success(true),
        },
{
    proof {
        state.lemma_model();
    }
    let from = AuthPrincipal(caller.clone());
    let ghost before = *state;
    let result = state.user_quota_store.batch_transfer_quota(from, request.items.as_slice());
    proof {
        state.lemma_ledger_changed(before);
    }
    match result {
        Ok(_) => BooleanActorResponse::Success(true),
        Err(e) => BooleanActorResponse::new(Err(e)),
    }
}

/// The owner of a name approves a delegate.
pub fn approve(state: &mut State, caller: &Identity, name: &str, to: Identity) -> (response:
    BooleanActorResponse)
    requires
        old(state).wf(),
    ensures
        final(state).wf(),
        final(state)@ == approve_next(old(state)@, caller@, name@, to@),
        answers(
            response,
            validated(name@),
            match validated(name@) {
                Ok(normal) => approve_refusal(old(state)@, caller@, normal),
                Err(_) => None,
            },
        ),
{
    BooleanActorResponse::new(crate::state::approve(state, caller, name, to))
}

/// The owner of a name gives it to a new owner.
pub fn transfer(state: &mut State, caller: &Identity, name: &str, new_owner: Identity) -> (response:
    BooleanActorResponse)
    requires
        old(state).wf(),
    ensures
        final(state).wf(),
        final(state)@ == transfer_next(old(state)@, caller@, name@, new_owner@),
        answers(
            response,
            validated(name@),
            match validated(name@) {
                Ok(normal) => ownership_refusal(old(state)@, normal, caller@),
                Err(_) => None,
            },
        ),
{
    BooleanActorResponse::new(crate::state::transfer(state, caller, name, new_owner))
}

/// The delegate approved for a name takes it over.
pub fn transfer_from(state: &mut State, caller: &Identity, name: &str) -> (response:
    BooleanActorResponse)
    requires
        old(state).wf(),
    ensures
        final(state).wf(),
        final(state)@ == transfer_from_next(old(state)@, caller@, name@),
        answers(
            response,
            validated(name@),
            match validated(name@) {
                Ok(normal) => transfer_from_refusal(old(state)@, caller@, normal),
                Err(_) => None,
            },
        ),
{
    BooleanActorResponse::new(crate::state::transfer_from(state, caller, name))
}

} // verus!
