//! The challenges issued and not yet answered, each consumed exactly once.
use crate::bignat::BigNat;
use crate::chaum_pedersen::{ChaumPedersen, R1_MISMATCH, R2_MISMATCH};
use crate::error::AuthError;
use crate::registry::User;
use crate::table::Table;
use vstd::prelude::*;

verus! {

/// A challenge in flight: the user it was issued to, the nonce commitment
/// `(r1, r2)` the user sent, the challenge `c`, and when it was issued, in
/// seconds since the Unix epoch.
pub struct PendingChallenge {
    pub user_name: String,
    pub r1: BigNat,
    pub r2: BigNat,
    pub c: BigNat,
    pub created_at: u64,
}

/// What a pending challenge holds, as plain values.
pub ghost struct PendingView {
    pub user_name: Seq<char>,
    pub r1: nat,
    pub r2: nat,
    pub c: nat,
    pub created_at: u64,
}

impl View for PendingChallenge {
    type V = PendingView;

    open spec fn view(&self) -> PendingView {
        PendingView {
            user_name: self.user_name@,
            r1: self.r1@,
            r2: self.r2@,
            c: self.c@,
            created_at: self.created_at,
        }
    }
}

/// Relies on `uuid::Uuid::new_v4` and its hyphenated text form: a random
/// version 4 identifier.
#[verifier::external_body]
pub(crate) fn new_token() -> (r: String)
    ensures
        r@.len() == 36,
{
    uuid::Uuid::new_v4().to_string()
}

/// Relies on `SystemTime::elapsed` from `UNIX_EPOCH`: whole seconds since the
/// epoch, or zero where the clock reads earlier.
#[verifier::external_body]
pub(crate) fn now_secs() -> (r: u64) {
    std::time::UNIX_EPOCH.elapsed().map_or(0, |d| d.as_secs())
}

impl PendingChallenge {
    /// Checks the response `s` to this challenge against the commitment of
    /// `user`.
    pub fn verify<'a>(&'a self, cp: &'a ChaumPedersen, user: &User, s: &BigNat) -> (r: Result<(), &'a str>)
        requires
            cp.p@ > 0,
        ensures
            r.is_ok() == cp.accepts(self.r1@, self.r2@, user.y1@, user.y2@, self.c@, s@),
            !cp.accepts_first(self.r1@, user.y1@, self.c@, s@) ==> r == Err::<(), &str>(R1_MISMATCH),
            cp.accepts_first(self.r1@, user.y1@, self.c@, s@) && !cp.accepts(
                self.r1@,
                self.r2@,
                user.y1@,
                user.y2@,
                self.c@,
                s@,
            ) ==> r == Err::<(), &str>(R2_MISMATCH),
    {
        cp.verify(&self.r1, &self.r2, &user.y1, &user.y2, &self.c, s)
    }
}

/// The pending challenges, keyed by their correlation tokens.
pub struct ChallengeStore {
    pending: Table<PendingChallenge>,
}

impl View for ChallengeStore {
    type V = Map<Seq<char>, PendingView>;

    /// Each correlation token with its challenge.
    closed spec fn view(&self) -> Map<Seq<char>, PendingView> {
        self.pending@.map_values(|p: PendingChallenge| p@)
    }
}

impl ChallengeStore {
    /// The table is well formed.
    pub closed spec fn wf(&self) -> bool {
        self.pending.wf()
    }

    /// A store with no challenge in it.
    pub fn new() -> (r: ChallengeStore)
        ensures
            r.wf(),
            r@ == Map::<Seq<char>, PendingView>::empty(),
    {
        let r = ChallengeStore { pending: Table::new() };
        assert(r@ =~= Map::<Seq<char>, PendingView>::empty());
        r
    }

    /// Issues a challenge to `user_name` for the nonce commitment `(r1, r2)`:
    /// draws `c` below `q`, stores the challenge under a random token that the
    /// store does not hold yet, with the time now, and returns the token and
    /// `c`.
    pub fn create(&mut self, cp: &ChaumPedersen, user_name: String, r1: BigNat, r2: BigNat) -> (r: (String, BigNat))
        requires
            old(self).wf(),
            cp.q@ > 0,
        ensures
            final(self).wf(),
            r.1@ < cp.q@,
            !old(self)@.contains_key(r.0@),
            final(self)@ == old(self)@.insert(r.0@, final(self)@[r.0@]),
            final(self)@[r.0@].user_name == user_name@,
            final(self)@[r.0@].r1 == r1@,
            final(self)@[r.0@].r2 == r2@,
            final(self)@[r.0@].c == r.1@,
    {
        let c = cp.generate_q_random();
        let challenge = PendingChallenge { user_name, r1, r2, c: c.copy(), created_at: now_secs() };
        let ghost v = challenge@;
        let token = self.pending.fresh_key(new_token());
        self.pending.insert(token.clone(), challenge);
        assert(self@ =~= old(self)@.insert(token@, v));
        (token, c)
    }

    /// Takes the challenge stored under `correlation_id` out of the store; a
    /// token that was never issued, or was consumed already, is `NotFound`.
    pub fn consume(&mut self, correlation_id: &String) -> (r: Result<PendingChallenge, AuthError>)
        requires
            old(self).wf(),
        ensures
            final(self).wf(),
            final(self)@ == old(self)@.remove(correlation_id@),
            match r {
                Ok(p) => old(self)@.contains_key(correlation_id@) && p@ == old(self)@[correlation_id@],
                Err(e) => e == AuthError::NotFound && !old(self)@.contains_key(correlation_id@),
            },
    {
        let r = self.pending.remove(correlation_id);
        assert(self@ =~= old(self)@.remove(correlation_id@));
        match r {
            Some(p) => Ok(p),
            None => Err(AuthError::NotFound),
        }
    }
}

/// Replay resistance: once a token's challenge has been consumed, the store
/// holds nothing under it, so consuming it again finds nothing.
pub proof fn lemma_consume_once(before: Map<Seq<char>, PendingView>, correlation_id: Seq<char>)
    ensures
        !before.remove(correlation_id).contains_key(correlation_id),
{
}

} // verus!
