//! The authentication service: registration, challenges and the check of
//! answers, over one group, one registry and one challenge store.
use crate::bignat::BigNat;
use crate::challenges::{new_token, now_secs, ChallengeStore, PendingView};
use crate::chaum_pedersen::ChaumPedersen;
use crate::error::AuthError;
use crate::registry::UserRegistry;
use vstd::prelude::*;

verus! {

/// Proof of a successful authentication.
pub struct Session {
    pub session_id: String,
    pub user_name: String,
    pub issued_at: u64,
}

/// The server side of the protocol.
pub struct AuthService {
    cp: ChaumPedersen,
    users: UserRegistry,
    challenges: ChallengeStore,
}

impl AuthService {
    /// The group that the service works in.
    pub closed spec fn group(&self) -> ChaumPedersen {
        self.cp
    }

    /// Each registered user name with its commitment.
    pub closed spec fn registered(&self) -> Map<Seq<char>, (nat, nat)> {
        self.users@
    }

    /// Each correlation token with its challenge.
    pub closed spec fn pending(&self) -> Map<Seq<char>, PendingView> {
        self.challenges@
    }

    /// The group is usable, both stores are well formed, and every pending
    /// challenge belongs to a registered user.
    pub closed spec fn wf(&self) -> bool {
        &&& self.cp.wf()
        &&& self.users.wf()
        &&& self.challenges.wf()
        &&& forall|t: Seq<char>| #[trigger] self.challenges@.contains_key(t) ==> self.users@.contains_key(
            self.challenges@[t].user_name,
        )
    }

    /// A service over `cp` with no user and no challenge.
    pub fn new(cp: ChaumPedersen) -> (r: AuthService)
        requires
            cp.wf(),
        ensures
            r.wf(),
            r.group() == cp,
            r.registered() == Map::<Seq<char>, (nat, nat)>::empty(),
            r.pending() == Map::<Seq<char>, PendingView>::empty(),
    {
        AuthService { cp, users: UserRegistry::new(), challenges: ChallengeStore::new() }
    }

    /// The group parameters `p`, `q`, `g` and `h`.
    pub fn get_params(&self) -> (r: &ChaumPedersen)
        requires
            self.wf(),
        ensures
            *r == self.group(),
            r.wf(),
    {
        &self.cp
    }

    /// Registers `user_name` with the commitment `(y1, y2)`; a name that is
    /// taken is `AlreadyExists`, and its commitment stays as it was.
    pub fn register(&mut self, user_name: String, y1: BigNat, y2: BigNat) -> (r: Result<(), AuthError>)
        requires
            old(self).wf(),
        ensures
            final(self).wf(),
            final(self).group() == old(self).group(),
            final(self).pending() == old(self).pending(),
            old(self).registered().contains_key(user_name@) ==> r == Err::<(), AuthError>(
                AuthError::AlreadyExists,
            ) && final(self).registered() == old(self).registered(),
            !old(self).registered().contains_key(user_name@) ==> r == Ok::<(), AuthError>(())
                && final(self).registered() == old(self).registered().insert(user_name@, (y1@, y2@)),
    {
        self.users.register(user_name, y1, y2)
    }

    /// Issues a challenge to the registered user `user_name` for the nonce
    /// commitment `(r1, r2)`, and returns its correlation token and the
    /// challenge `c`; an unknown user is `NotFound`.
    pub fn create_authentication_challenge(&mut self, user_name: String, r1: BigNat, r2: BigNat) -> (r: Result<(String, BigNat), AuthError>)
        requires
            old(self).wf(),
        ensures
            final(self).wf(),
            final(self).group() == old(self).group(),
            final(self).registered() == old(self).registered(),
            !old(self).registered().contains_key(user_name@) ==> r is Err && r->Err_0
                == AuthError::NotFound && final(self).pending() == old(self).pending(),
            old(self).registered().contains_key(user_name@) ==> r is Ok,
            match r {
                Ok((id, c)) => {
                    &&& c@ < old(self).group().q@
                    &&& !old(self).pending().contains_key(id@)
                    &&& final(self).pending() == old(self).pending().insert(id@, final(self).pending()[id@])
                    &&& final(self).pending()[id@].user_name == user_name@
                    &&& final(self).pending()[id@].r1 == r1@
                    &&& final(self).pending()[id@].r2 == r2@
                    &&& final(self).pending()[id@].c == c@
                },
                Err(_) => true,
            },
    {
        if let Err(e) = self.users.lookup(&user_name) {
            return Err(e);
        }
        let r = self.challenges.create(&self.cp, user_name, r1, r2);
        assert forall|t: Seq<char>| #[trigger] self.challenges@.contains_key(t) implies self.users@.contains_key(
            self.challenges@[t].user_name,
        ) by {
            if t != r.0@ {
                assert(old(self).challenges@.contains_key(t));
            }
        }
        Ok(r)
    }

    /// Checks the answer `s` to the challenge under `correlation_id`. The
    /// challenge is consumed whatever the outcome; a token that was never
    /// issued, or was used already, is `Unauthenticated`, and an answer that
    /// fails the check is `PermissionDenied`. On success a fresh session is
    /// issued to the challenge's user.
    pub fn verify_authentication(&mut self, correlation_id: &String, s: &BigNat) -> (r: Result<Session, AuthError>)
        requires
            old(self).wf(),
        ensures
            final(self).wf(),
            final(self).group() == old(self).group(),
            final(self).registered() == old(self).registered(),
            final(self).pending() == old(self).pending().remove(correlation_id@),
            !old(self).pending().contains_key(correlation_id@) ==> r is Err && r->Err_0
                == AuthError::Unauthenticated,
            old(self).pending().contains_key(correlation_id@) ==> {
                let ch = old(self).pending()[correlation_id@];
                let (y1, y2) = old(self).registered()[ch.user_name];
                &&& r is Ok == old(self).group().accepts(ch.r1, ch.r2, y1, y2, ch.c, s@)
                &&& r is Err ==> r->Err_0 == AuthError::PermissionDenied
                &&& r is Ok ==> r->Ok_0.user_name@ == ch.user_name
                &&& r is Ok ==> r->Ok_0.session_id@.len() == 36
            },
    {
        let challenge = match self.challenges.consume(correlation_id) {
            Ok(ch) => ch,
            Err(_) => return Err(AuthError::Unauthenticated),
        };
        assert forall|t: Seq<char>| #[trigger] self.challenges@.contains_key(t) implies self.users@.contains_key(
            self.challenges@[t].user_name,
        ) by {
            assert(old(self).challenges@.contains_key(t));
        }
        assert(self.users@.contains_key(challenge.user_name@)) by {
            assert(old(self).challenges@.contains_key(correlation_id@));
        }
        let user = match self.users.lookup(&challenge.user_name) {
            Ok(u) => u,
            Err(e) => return Err(e),
        };
        match challenge.verify(&self.cp, user, s) {
            Ok(()) => Ok(
                Session {
                    session_id: new_token(),
                    user_name: challenge.user_name,
                    issued_at: now_secs(),
                },
            ),
            Err(_) => Err(AuthError::PermissionDenied),
        }
    }
}

} // verus!
