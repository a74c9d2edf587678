//! What holds of the engineer registry across its entry points.

use vstd::prelude::*;

use crate::engineer_registry::{
    add_issuer_effect, without_address, engineer_registry_invariant, holds_address, register_engineer_effect, register_engineer_error,
    remove_issuer_effect, revoke_effect, revoke_error, unpaused_admin_error, verified, zero_hash,
    ContractError, EngineerEvent, EngineerRegistryView,
};
use crate::Address;

verus! {

/// A freshly credentialed engineer is verified exactly until the credential expires,
/// whatever the engineer's earlier credential was.
pub proof fn law_credential_valid_until_expiry(
    v: EngineerRegistryView,
    engineer: Address,
    credential_hash: [u8; 32],
    issuer: Address,
    validity_period: u64,
    now: u64,
    t: u64,
)
    requires
        now + validity_period <= u64::MAX,
    ensures
        verified(
            register_engineer_effect(v, engineer, credential_hash, issuer, validity_period, now),
            engineer@,
            t,
        ) <==> t < now + validity_period,
{
}

/// A registration stores, under the engineer's address, an active credential with the
/// given hash from the given issuer, issued at the ledger time of the registration and
/// expiring `validity_period` seconds later; every other engineer's credential stays as
/// it was.
pub proof fn law_registration_stamps_credential(
    v: EngineerRegistryView,
    engineer: Address,
    credential_hash: [u8; 32],
    issuer: Address,
    validity_period: u64,
    now: u64,
    other: Seq<char>,
)
    requires
        now + validity_period <= u64::MAX,
    ensures
        ({
            let w = register_engineer_effect(v, engineer, credential_hash, issuer, validity_period, now);
            let c = w.engineers[engineer@];
            &&& w.engineers.contains_key(engineer@)
            &&& c.address == engineer
            &&& c.credential_hash == credential_hash
            &&& c.issuer == issuer
            &&& c.active
            &&& c.issued_at == now
            &&& c.expires_at == now + validity_period
            &&& c.expires_at - c.issued_at == validity_period
            &&& other != engineer@ ==> w.engineers.get(other) == v.engineers.get(other)
        }),
{
}

/// A revoked credential is not verified at any time, keeps every other detail of the
/// credential, and revoking one engineer's credential leaves every other engineer's as
/// it was.
pub proof fn law_revocation_is_final(
    v: EngineerRegistryView,
    engineer: Seq<char>,
    now: u64,
    t: u64,
    other: Seq<char>,
)
    requires
        revoke_error(v, engineer) is None,
        other != engineer,
    ensures
        !verified(revoke_effect(v, engineer, now), engineer, t),
        verified(revoke_effect(v, engineer, now), other, t) == verified(v, other, t),
        revoke_error(revoke_effect(v, engineer, now), engineer) == Some(
            ContractError::CredentialAlreadyRevoked,
        ),
        ({
            let c = v.engineers[engineer];
            let r = revoke_effect(v, engineer, now).engineers[engineer];
            &&& r.address == c.address
            &&& r.credential_hash == c.credential_hash
            &&& r.issuer == c.issuer
            &&& r.issued_at == c.issued_at
            &&& r.expires_at == c.expires_at
            &&& !r.active
        }),
{
}

/// The list of trusted issuers holds exactly the trusted issuers, each once.
pub proof fn law_trusted_list_is_exact(v: EngineerRegistryView, issuer: Seq<char>)
    requires
        engineer_registry_invariant(v),
    ensures
        holds_address(v.issuer_list, issuer) <==> v.trusted.contains(issuer),
        forall|i: int, j: int|
            0 <= i < v.issuer_list.len() && 0 <= j < v.issuer_list.len() && i != j
                ==> #[trigger] v.issuer_list[i]@ != #[trigger] v.issuer_list[j]@,
{
}

/// An issuer taken off the trusted issuers can credential no one, and the removal is
/// announced.
pub proof fn law_removed_issuer_cannot_credential(
    v: EngineerRegistryView,
    admin: Address,
    issuer: Address,
    credential_hash: Seq<u8>,
)
    requires
        !v.paused,
    ensures
        register_engineer_error(remove_issuer_effect(v, admin, issuer), credential_hash, issuer@)
            == Some(ContractError::UntrustedIssuer),
        remove_issuer_effect(v, admin, issuer).events == v.events.push(
            EngineerEvent::IssuerRemoved { admin: admin, issuer: issuer },
        ),
{
}

/// A credential hash of zeros is refused from a trusted issuer.
pub proof fn law_zero_credential_refused(
    v: EngineerRegistryView,
    credential_hash: Seq<u8>,
    issuer: Seq<char>,
)
    requires
        !v.paused,
        v.trusted.contains(issuer),
        zero_hash(credential_hash),
    ensures
        register_engineer_error(v, credential_hash, issuer) == Some(
            ContractError::InvalidCredentialHash,
        ),
{
}

/// While the registry is paused, credentials and trusted issuers cannot change.
pub proof fn law_pause_blocks_credential_changes(
    v: EngineerRegistryView,
    engineer: Seq<char>,
    credential_hash: Seq<u8>,
    issuer: Seq<char>,
    admin: Seq<char>,
)
    requires
        v.paused,
    ensures
        register_engineer_error(v, credential_hash, issuer) == Some(ContractError::Paused),
        revoke_error(v, engineer) == Some(ContractError::Paused),
        unpaused_admin_error(v, admin) == Some(ContractError::Paused),
{
}

/// Taking out of a list an address that it does not hold leaves the list as it is.
proof fn lemma_without_absent(s: Seq<Address>, a: Seq<char>)
    requires
        !holds_address(s, a),
    ensures
        without_address(s, a) == s,
    decreases s.len(),
{
    reveal_with_fuel(Seq::<_>::filter, 1);
    if s.len() > 0 {
        let t = s.drop_last();
        assert(!holds_address(t, a)) by {
            if holds_address(t, a) {
                let i = choose|i: int| 0 <= i < t.len() && #[trigger] t[i]@ == a;
                assert(s[i]@ == a);
            }
        }
        lemma_without_absent(t, a);
        assert(s[s.len() - 1]@ != a);
        assert(t.push(s.last()) =~= s);
    } else {
        assert(without_address(s, a) =~= s);
    }
}

/// Adding a trusted issuer that was not trusted and then removing it restores the list
/// of trusted issuers, the other issuers keeping their order, and leaves the issuer
/// unable to credential anyone.
pub proof fn law_add_then_remove_issuer_restores(
    v: EngineerRegistryView,
    admin: Address,
    issuer: Address,
    engineer_hash: Seq<u8>,
)
    requires
        engineer_registry_invariant(v),
        !v.trusted.contains(issuer@),
    ensures
        ({
            let w = remove_issuer_effect(add_issuer_effect(v, admin, issuer), admin, issuer);
            &&& w.issuer_list == v.issuer_list
            &&& w.trusted == v.trusted
            &&& !w.paused ==> register_engineer_error(w, engineer_hash, issuer@) == Some(
                ContractError::UntrustedIssuer,
            )
        }),
{
    let u = add_issuer_effect(v, admin, issuer);
    assert(!holds_address(v.issuer_list, issuer@));
    assert(u.issuer_list == v.issuer_list.push(issuer));
    reveal_with_fuel(Seq::<_>::filter, 1);
    assert(v.issuer_list.push(issuer).drop_last() =~= v.issuer_list);
    lemma_without_absent(v.issuer_list, issuer@);
    assert(without_address(u.issuer_list, issuer@) == without_address(v.issuer_list, issuer@));
    assert(v.trusted.insert(issuer@).remove(issuer@) =~= v.trusted);
}

} // verus!
