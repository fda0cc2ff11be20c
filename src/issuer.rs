use vstd::prelude::*;
use vstd::string::StringSliceAdditionalSpecFns;
use crate::codec::{address_text_valid, hex_decode, parse_address, parse_signature, signature_text_valid};
use crate::message::{bind_message, bind_message_spec, lemma_bind_message_injective};
use crate::recover::{recover_address, recovered_address};
use crate::store::{
    address_registered, commit_spec, keys_unique, principal_registered, CredentialView, Store,
};
use crate::types::{bytes_equal, Address, IssueError, Principal, RegisteredBy};

verus! {

/// The principal of a caller whose identity has at least 29 bytes: its first 29.
pub open spec fn caller_principal(caller: Seq<u8>) -> Option<Seq<u8>> {
    if caller.len() >= 29 {
        Some(caller.subrange(0, 29))
    } else {
        None
    }
}

/// Takes the principal from the bytes of an authenticated caller identity.
pub fn principal_from_bytes(caller: &[u8]) -> (r: Result<Principal, IssueError>)
    ensures
        match r {
            Ok(p) => caller_principal(caller@) == Some(p@),
            Err(e) => caller_principal(caller@) is None && e == IssueError::NotAuthenticated,
        },
{
    if caller.len() < 29 {
        return Err(IssueError::NotAuthenticated);
    }
    let mut bytes = [0u8; 29];
    let mut i: usize = 0;
    while i < 29
        invariant
            0 <= i <= 29,
            caller@.len() >= 29,
            forall|k: int| 0 <= k < i ==> #[trigger] bytes@[k] == caller@[k],
        decreases 29 - i,
    {
        bytes[i] = caller[i];
        i = i + 1;
    }
    assert(bytes@ =~= caller@.subrange(0, 29));
    Ok(Principal { bytes })
}

/// The outcome of the checks that come before the score is fetched: the
/// address to fetch it for, or why the call stops. In order: the principal
/// is unregistered, the address text is valid, the address is unregistered,
/// the signature text is valid, and the signature over the binding message
/// recovers the claimed address.
pub open spec fn claim_spec<S>(
    creds: Seq<CredentialView<S>>,
    p: Seq<u8>,
    signature: Seq<u8>,
    address: Seq<u8>,
) -> Result<Seq<u8>, IssueError> {
    if principal_registered(creds, p) {
        Err(IssueError::AlreadyRegistered(RegisteredBy::Principal))
    } else if !address_text_valid(address) {
        Err(IssueError::InvalidAddressFormat)
    } else {
        let a = hex_decode(address.subrange(2, 42));
        if address_registered(creds, a) {
            Err(IssueError::AlreadyRegistered(RegisteredBy::Address))
        } else if !signature_text_valid(signature) {
            Err(IssueError::InvalidSignatureFormat)
        } else {
            match recovered_address(bind_message_spec(a, p), hex_decode(signature.subrange(2, 132))) {
                None => Err(IssueError::RecoveryFailed),
                Some(r) => if r == a {
                    Ok(a)
                } else {
                    Err(IssueError::SignatureMismatch)
                },
            }
        }
    }
}

/// The outcome of the step after the score fetch, and the credentials
/// afterwards: a failed fetch stops the call; a score is committed only if
/// neither key was taken meanwhile.
pub open spec fn complete_spec<S>(
    creds: Seq<CredentialView<S>>,
    p: Seq<u8>,
    a: Seq<u8>,
    fetched: Option<S>,
) -> (Result<S, IssueError>, Seq<CredentialView<S>>) {
    match fetched {
        None => (Err(IssueError::OracleUnavailable), creds),
        Some(score) => {
            let (r, after) = commit_spec(creds, p, a, score);
            match r {
                Ok(_) => (Ok(score), after),
                Err(e) => (Err(e), after),
            }
        },
    }
}

/// Runs the checks that come before the score fetch, touching no state.
/// On success the caller fetches the score for the returned address and
/// hands it to `complete_issuance`.
pub fn verify_claim<S: Copy>(store: &Store<S>, p: &Principal, signature: &str, address: &str) -> (r:
    Result<Address, IssueError>)
    ensures
        match r {
            Ok(a) => claim_spec(store@, p@, signature.spec_bytes(), address.spec_bytes()) == Ok::<
                Seq<u8>,
                IssueError,
            >(a@),
            Err(e) => claim_spec(store@, p@, signature.spec_bytes(), address.spec_bytes()) == Err::<
                Seq<u8>,
                IssueError,
            >(e),
        },
{
    if store.has_principal(p) {
        return Err(IssueError::AlreadyRegistered(RegisteredBy::Principal));
    }
    let a = parse_address(address)?;
    if store.has_address(&a) {
        return Err(IssueError::AlreadyRegistered(RegisteredBy::Address));
    }
    let sig = parse_signature(signature)?;
    let message = bind_message(&a, p);
    let recovered = recover_address(message.as_slice(), &sig)?;
    if !bytes_equal(&recovered.bytes, &a.bytes) {
        return Err(IssueError::SignatureMismatch);
    }
    Ok(a)
}

/// Finishes an issuance once the score fetch has come back (`None` where it
/// failed): re-checks both keys and commits the credential in one step.
pub fn complete_issuance<S: Copy>(
    store: &mut Store<S>,
    p: &Principal,
    a: &Address,
    fetched: Option<S>,
) -> (r: Result<S, IssueError>)
    requires
        old(store).wf(),
    ensures
        final(store).wf(),
        (r, final(store)@) == complete_spec(old(store)@, p@, a@, fetched),
        r is Ok ==> principal_registered(final(store)@, p@) && address_registered(
            final(store)@,
            a@,
        ),
{
    match fetched {
        None => Err(IssueError::OracleUnavailable),
        Some(score) => {
            let committed = store.commit(p, a, score);
            match committed {
                Ok(()) => Ok(score),
                Err(e) => Err(e),
            }
        },
    }
}

/// Committing a credential keeps every principal and every address unique.
pub proof fn lemma_commit_keeps_keys_unique<S>(
    creds: Seq<CredentialView<S>>,
    p: Seq<u8>,
    a: Seq<u8>,
    score: S,
)
    requires
        keys_unique(creds),
    ensures
        keys_unique(commit_spec(creds, p, a, score).1),
{
    if !principal_registered(creds, p) && !address_registered(creds, a) {
        let after = creds.push((p, a, score));
        assert forall|i: int, j: int|
            0 <= i < after.len() && 0 <= j < after.len() && i != j implies #[trigger] after[i].0
            != #[trigger] after[j].0 by {
            if i == creds.len() {
                assert(creds[j].0 == after[j].0);
            } else if j == creds.len() {
                assert(creds[i].0 == after[i].0);
            }
        }
        assert forall|i: int, j: int|
            0 <= i < after.len() && 0 <= j < after.len() && i != j implies #[trigger] after[i].1
            != #[trigger] after[j].1 by {
            if i == creds.len() {
                assert(creds[j].1 == after[j].1);
            } else if j == creds.len() {
                assert(creds[i].1 == after[i].1);
            }
        }
    }
}

/// Once a call for principal `p` has committed, the credential is stored,
/// and every later call for `p`, with any address and any signature, is
/// refused as registered by principal, before and after its score fetch.
pub proof fn law_one_credential_per_principal<S>(
    creds: Seq<CredentialView<S>>,
    p: Seq<u8>,
    a: Seq<u8>,
    score: S,
    signature2: Seq<u8>,
    address2: Seq<u8>,
    a2: Seq<u8>,
    fetched2: S,
)
    requires
        complete_spec(creds, p, a, Some(score)).0 is Ok,
    ensures
        ({
            let after = complete_spec(creds, p, a, Some(score)).1;
            &&& after == creds.push((p, a, score))
            &&& claim_spec(after, p, signature2, address2) == Err::<Seq<u8>, IssueError>(
                IssueError::AlreadyRegistered(RegisteredBy::Principal),
            )
            &&& complete_spec(after, p, a2, Some(fetched2)).0 == Err::<S, IssueError>(
                IssueError::AlreadyRegistered(RegisteredBy::Principal),
            )
        }),
{
    let after = creds.push((p, a, score));
    assert(after[creds.len() as int].0 == p);
}

/// Once address `a` is bound, every later call that claims it from another,
/// unregistered principal is refused as registered by address, whatever its
/// signature, before and after its score fetch.
pub proof fn law_one_credential_per_address<S>(
    creds: Seq<CredentialView<S>>,
    p: Seq<u8>,
    a: Seq<u8>,
    score: S,
    p2: Seq<u8>,
    signature2: Seq<u8>,
    address2: Seq<u8>,
    fetched2: S,
)
    requires
        complete_spec(creds, p, a, Some(score)).0 is Ok,
        !principal_registered(complete_spec(creds, p, a, Some(score)).1, p2),
        address_text_valid(address2),
        hex_decode(address2.subrange(2, 42)) == a,
    ensures
        ({
            let after = complete_spec(creds, p, a, Some(score)).1;
            &&& claim_spec(after, p2, signature2, address2) == Err::<Seq<u8>, IssueError>(
                IssueError::AlreadyRegistered(RegisteredBy::Address),
            )
            &&& complete_spec(after, p2, a, Some(fetched2)).0 == Err::<S, IssueError>(
                IssueError::AlreadyRegistered(RegisteredBy::Address),
            )
        }),
{
    let after = creds.push((p, a, score));
    assert(after[creds.len() as int].1 == a);
}

/// A signature binds one address to one principal: the binding messages of
/// two principals differ, and a claim passes only where the signature over
/// the claimant's own message recovers the claimed address; where another
/// address comes back, the claim is refused as a mismatch.
pub proof fn law_signature_bound_to_pair<S>(
    creds: Seq<CredentialView<S>>,
    p1: Seq<u8>,
    p2: Seq<u8>,
    signature: Seq<u8>,
    address: Seq<u8>,
)
    requires
        p1.len() == 29,
        p2.len() == 29,
        p1 != p2,
        !principal_registered(creds, p2),
        address_text_valid(address),
        !address_registered(creds, hex_decode(address.subrange(2, 42))),
        signature_text_valid(signature),
    ensures
        ({
            let a = hex_decode(address.subrange(2, 42));
            let sig = hex_decode(signature.subrange(2, 132));
            &&& bind_message_spec(a, p1) != bind_message_spec(a, p2)
            &&& (claim_spec(creds, p2, signature, address) is Ok <==> recovered_address(
                bind_message_spec(a, p2),
                sig,
            ) == Some(a))
            &&& (recovered_address(bind_message_spec(a, p2), sig) is Some && recovered_address(
                bind_message_spec(a, p2),
                sig,
            ) != Some(a)) ==> claim_spec(creds, p2, signature, address) == Err::<
                Seq<u8>,
                IssueError,
            >(IssueError::SignatureMismatch)
        }),
{
    let a = hex_decode(address.subrange(2, 42));
    assert(a.len() == 20);
    if bind_message_spec(a, p1) == bind_message_spec(a, p2) {
        lemma_bind_message_injective(a, p1, a, p2);
    }
}

/// For an unregistered principal, malformed address text is refused as such,
/// whatever the signature, and without regard to which addresses are bound.
pub proof fn law_malformed_address_refused<S>(
    creds: Seq<CredentialView<S>>,
    other: Seq<CredentialView<S>>,
    p: Seq<u8>,
    signature: Seq<u8>,
    address: Seq<u8>,
)
    requires
        !principal_registered(creds, p),
        !principal_registered(other, p),
        !address_text_valid(address),
    ensures
        claim_spec(creds, p, signature, address) == Err::<Seq<u8>, IssueError>(
            IssueError::InvalidAddressFormat,
        ),
        claim_spec(creds, p, signature, address) == claim_spec(other, p, signature, address),
{
}

/// A call that ends in an error leaves the credentials as they were.
pub proof fn law_failure_changes_nothing<S>(
    creds: Seq<CredentialView<S>>,
    p: Seq<u8>,
    a: Seq<u8>,
    fetched: Option<S>,
)
    requires
        complete_spec(creds, p, a, fetched).0 is Err,
    ensures
        complete_spec(creds, p, a, fetched).1 == creds,
{
}

/// Two calls that claim the same address and have both passed their checks
/// before either fetched a score end, whichever finishes first, with exactly
/// one committed credential and one refusal as already registered.
pub proof fn law_racing_claims_commit_once<S>(
    creds: Seq<CredentialView<S>>,
    p1: Seq<u8>,
    p2: Seq<u8>,
    signature1: Seq<u8>,
    signature2: Seq<u8>,
    address1: Seq<u8>,
    address2: Seq<u8>,
    a: Seq<u8>,
    score1: S,
    score2: S,
)
    requires
        keys_unique(creds),
        claim_spec(creds, p1, signature1, address1) == Ok::<Seq<u8>, IssueError>(a),
        claim_spec(creds, p2, signature2, address2) == Ok::<Seq<u8>, IssueError>(a),
    ensures
        ({
            let (r1, mid) = complete_spec(creds, p1, a, Some(score1));
            let (r2, end) = complete_spec(mid, p2, a, Some(score2));
            &&& r1 == Ok::<S, IssueError>(score1)
            &&& r2 is Err && r2->Err_0 is AlreadyRegistered
            &&& end == creds.push((p1, a, score1))
            &&& keys_unique(end)
        }),
{
    let mid = creds.push((p1, a, score1));
    assert(mid[creds.len() as int].1 == a);
    lemma_commit_keeps_keys_unique(creds, p1, a, score1);
}

} // verus!
