//! The registered users and their commitments.
use crate::bignat::BigNat;
use crate::error::AuthError;
use crate::table::Table;
use vstd::prelude::*;

verus! {

/// A registered user: the commitment `(y1, y2) = (g^x, h^x)` to the secret
/// `x`. It does not change once stored.
pub struct User {
    pub user_name: String,
    pub y1: BigNat,
    pub y2: BigNat,
}

/// The users, each name registered at most once.
pub struct UserRegistry {
    users: Table<User>,
}

impl View for UserRegistry {
    type V = Map<Seq<char>, (nat, nat)>;

    /// Each user name with its commitment.
    closed spec fn view(&self) -> Map<Seq<char>, (nat, nat)> {
        self.users@.map_values(|u: User| (u.y1@, u.y2@))
    }
}

impl UserRegistry {
    /// The table is well formed and holds each user under the user's name.
    pub closed spec fn wf(&self) -> bool {
        &&& self.users.wf()
        &&& forall|k: Seq<char>| #[trigger] self.users@.contains_key(k) ==> self.users@[k].user_name@ == k
    }

    /// A registry with nobody in it.
    pub fn new() -> (r: UserRegistry)
        ensures
            r.wf(),
            r@ == Map::<Seq<char>, (nat, nat)>::empty(),
    {
        let r = UserRegistry { users: Table::new() };
        assert(r@ =~= Map::<Seq<char>, (nat, nat)>::empty());
        r
    }

    /// Registers `user_name` with the commitment `(y1, y2)`, unless the name
    /// is taken: then nothing changes.
    pub fn register(&mut self, user_name: String, y1: BigNat, y2: BigNat) -> (r: Result<(), AuthError>)
        requires
            old(self).wf(),
        ensures
            final(self).wf(),
            old(self)@.contains_key(user_name@) ==> r == Err::<(), AuthError>(AuthError::AlreadyExists)
                && final(self)@ == old(self)@,
            !old(self)@.contains_key(user_name@) ==> r == Ok::<(), AuthError>(())
                && final(self)@ == old(self)@.insert(user_name@, (y1@, y2@)),
    {
        if self.users.contains(&user_name) {
            return Err(AuthError::AlreadyExists);
        }
        let key = user_name.clone();
        let user = User { user_name, y1, y2 };
        self.users.insert(key, user);
        assert(self@ =~= old(self)@.insert(key@, (y1@, y2@)));
        Ok(())
    }

    /// The user registered under `user_name`.
    pub fn lookup(&self, user_name: &String) -> (r: Result<&User, AuthError>)
        requires
            self.wf(),
        ensures
            match r {
                Ok(u) => self@.contains_key(user_name@) && self@[user_name@] == (u.y1@, u.y2@)
                    && u.user_name@ == user_name@,
                Err(e) => e == AuthError::NotFound && !self@.contains_key(user_name@),
            },
    {
        match self.users.get(user_name) {
            Some(u) => Ok(u),
            None => Err(AuthError::NotFound),
        }
    }
}

} // verus!
