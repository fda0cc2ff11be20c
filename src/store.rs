use vstd::prelude::*;
use crate::types::{Address, IssueError, Principal, RegisteredBy, bytes_equal};

verus! {

/// The committed fact that a principal is bound to an address with a score.
#[derive(Debug)]
pub struct Credential<S> {
    pub principal: Principal,
    pub address: Address,
    pub score: S,
}

/// Abstract form of a credential: principal bytes, address bytes, score.
pub type CredentialView<S> = (Seq<u8>, Seq<u8>, S);

/// Whether some credential binds principal `p`.
pub open spec fn principal_registered<S>(creds: Seq<CredentialView<S>>, p: Seq<u8>) -> bool {
    exists|i: int| 0 <= i < creds.len() && #[trigger] creds[i].0 == p
}

/// Whether some credential binds address `a`.
pub open spec fn address_registered<S>(creds: Seq<CredentialView<S>>, a: Seq<u8>) -> bool {
    exists|i: int| 0 <= i < creds.len() && #[trigger] creds[i].1 == a
}

/// No principal and no address appears in two credentials.
pub open spec fn keys_unique<S>(creds: Seq<CredentialView<S>>) -> bool {
    &&& forall|i: int, j: int|
        0 <= i < creds.len() && 0 <= j < creds.len() && i != j ==> #[trigger] creds[i].0
            != #[trigger] creds[j].0
    &&& forall|i: int, j: int|
        0 <= i < creds.len() && 0 <= j < creds.len() && i != j ==> #[trigger] creds[i].1
            != #[trigger] creds[j].1
}

/// What a commit of `(p, a, score)` does to the credentials: the outcome and
/// the credentials afterwards. The principal is checked before the address.
pub open spec fn commit_spec<S>(creds: Seq<CredentialView<S>>, p: Seq<u8>, a: Seq<u8>, score: S) -> (
    Result<(), IssueError>,
    Seq<CredentialView<S>>,
) {
    if principal_registered(creds, p) {
        (Err(IssueError::AlreadyRegistered(RegisteredBy::Principal)), creds)
    } else if address_registered(creds, a) {
        (Err(IssueError::AlreadyRegistered(RegisteredBy::Address)), creds)
    } else {
        (Ok(()), creds.push((p, a, score)))
    }
}

/// The credential store: an append-only set of credentials in which each
/// principal and each address occurs at most once.
pub struct Store<S> {
    credentials: Vec<Credential<S>>,
}

impl<S: Copy> Store<S> {
    /// The credentials in the order in which they were committed.
    pub closed spec fn view(&self) -> Seq<CredentialView<S>> {
        self.credentials@.map_values(
            |c: Credential<S>| (c.principal@, c.address@, c.score),
        )
    }

    pub open spec fn wf(&self) -> bool {
        keys_unique(self@)
    }

    /// An empty store.
    pub fn new() -> (r: Self)
        ensures
            r.wf(),
            r@ == Seq::<CredentialView<S>>::empty(),
    {
        let r = Store { credentials: Vec::new() };
        assert(r@ =~= Seq::<CredentialView<S>>::empty());
        r
    }

    /// Number of committed credentials.
    pub fn len(&self) -> (r: usize)
        ensures
            r == self@.len(),
    {
        self.credentials.len()
    }

    fn index_of_principal(&self, p: &Principal) -> (r: Option<usize>)
        ensures
            match r {
                Some(i) => i < self@.len() && self@[i as int].0 == p@,
                None => !principal_registered(self@, p@),
            },
    {
        let mut i: usize = 0;
        while i < self.credentials.len()
            invariant
                0 <= i <= self@.len(),
                self@.len() == self.credentials@.len(),
                forall|j: int| 0 <= j < i ==> #[trigger] self@[j].0 != p@,
            decreases self.credentials@.len() - i,
        {
            if bytes_equal(&self.credentials[i].principal.bytes, &p.bytes) {
                return Some(i);
            }
            i = i + 1;
        }
        None
    }

    fn index_of_address(&self, a: &Address) -> (r: Option<usize>)
        ensures
            match r {
                Some(i) => i < self@.len() && self@[i as int].1 == a@,
                None => !address_registered(self@, a@),
            },
    {
        let mut i: usize = 0;
        while i < self.credentials.len()
            invariant
                0 <= i <= self@.len(),
                self@.len() == self.credentials@.len(),
                forall|j: int| 0 <= j < i ==> #[trigger] self@[j].1 != a@,
            decreases self.credentials@.len() - i,
        {
            if bytes_equal(&self.credentials[i].address.bytes, &a.bytes) {
                return Some(i);
            }
            i = i + 1;
        }
        None
    }

    /// Whether principal `p` holds a credential.
    pub fn has_principal(&self, p: &Principal) -> (r: bool)
        ensures
            r == principal_registered(self@, p@),
    {
        self.index_of_principal(p).is_some()
    }

    /// Whether address `a` is bound to some principal.
    pub fn has_address(&self, a: &Address) -> (r: bool)
        ensures
            r == address_registered(self@, a@),
    {
        self.index_of_address(a).is_some()
    }

    /// The score committed for principal `p`, if any.
    pub fn score_of(&self, p: &Principal) -> (r: Option<S>)
        requires
            self.wf(),
        ensures
            r is None <==> !principal_registered(self@, p@),
            forall|i: int|
                0 <= i < self@.len() && #[trigger] self@[i].0 == p@ ==> r == Some(self@[i].2),
    {
        match self.index_of_principal(p) {
            Some(i) => Some(self.credentials[i].score),
            None => None,
        }
    }

    /// The principal that address `a` is bound to, if any.
    pub fn principal_of(&self, a: &Address) -> (r: Option<Principal>)
        requires
            self.wf(),
        ensures
            r is None <==> !address_registered(self@, a@),
            forall|i: int|
                0 <= i < self@.len() && #[trigger] self@[i].1 == a@ ==> r.unwrap()@ == self@[i].0,
    {
        match self.index_of_address(a) {
            Some(i) => {
                assert(forall|j: int|
                    0 <= j < self@.len() && #[trigger] self@[j].1 == a@ ==> j == i);
                Some(self.credentials[i].principal)
            },
            None => None,
        }
    }

    /// Re-checks both keys and, when neither is taken, writes the credential,
    /// as one step with nothing in between.
    pub fn commit(&mut self, p: &Principal, a: &Address, score: S) -> (r: Result<(), IssueError>)
        requires
            old(self).wf(),
        ensures
            final(self).wf(),
            (r, final(self)@) == commit_spec(old(self)@, p@, a@, score),
            r is Ok ==> principal_registered(final(self)@, p@) && address_registered(
                final(self)@,
                a@,
            ),
    {
        if self.has_principal(p) {
            return Err(IssueError::AlreadyRegistered(RegisteredBy::Principal));
        }
        if self.has_address(a) {
            return Err(IssueError::AlreadyRegistered(RegisteredBy::Address));
        }
        let ghost before = self@;
        self.credentials.push(Credential { principal: *p, address: *a, score });
        assert(self@ =~= before.push((p@, a@, score)));
        assert(self@[before.len() as int].0 == p@ && self@[before.len() as int].1 == a@);
        assert forall|i: int, j: int|
            0 <= i < self@.len() && 0 <= j < self@.len() && i != j implies #[trigger] self@[i].0
            != #[trigger] self@[j].0 by {
            if i == before.len() {
                assert(before[j].0 != p@);
            } else if j == before.len() {
                assert(before[i].0 != p@);
            }
        }
        assert forall|i: int, j: int|
            0 <= i < self@.len() && 0 <= j < self@.len() && i != j implies #[trigger] self@[i].1
            != #[trigger] self@[j].1 by {
            if i == before.len() {
                assert(before[j].1 != a@);
            } else if j == before.len() {
                assert(before[i].1 != a@);
            }
        }
        Ok(())
    }
}

} // verus!
