//! Who may do what: the bot's owner is its one administrator.
use vstd::prelude::*;

verus! {

/// The Discord id of the bot's owner.
pub const DISCORD_ID_OWNER: u64 = 402830098870435857;

/// A Discord user, as far as permissions go: its id.
#[derive(PartialEq, Eq, Structural, Clone, Copy, Debug)]
pub struct DcUser {
    pub id: u64,
}

/// Whether `user` is an administrator of the bot: only its owner is.
pub open spec fn is_admin_user(user: DcUser) -> bool {
    user.id == DISCORD_ID_OWNER
}

/// The permissions of one user, worked out when first asked for.
pub struct DcUserPerms {
    user: DcUser,
    admin: Option<bool>,
}

impl DcUserPerms {
    #[verifier::type_invariant]
    spec fn cache_agrees(self) -> bool {
        match self.admin {
            Some(v) => v == is_admin_user(self.user),
            None => true,
        }
    }

    /// The user whose permissions these are.
    pub closed spec fn user(self) -> DcUser {
        self.user
    }

    /// Whether the answer to `is_admin` has been worked out already.
    pub closed spec fn admin_known(self) -> bool {
        self.admin is Some
    }

    /// The permissions of `user`, not worked out yet.
    pub fn new(user: DcUser) -> (p: Self)
        ensures
            p.user() == user,
            !p.admin_known(),
    {
        Self { user: user, admin: None }
    }

    /// The user whose permissions these are.
    pub fn get_user(&self) -> (u: &DcUser)
        ensures
            *u == self.user(),
    {
        &self.user
    }

    /// Whether the user is an administrator; the answer is kept for later calls.
    pub fn is_admin(&mut self) -> (admin: bool)
        ensures
            admin == is_admin_user(old(self).user()),
            final(self).user() == old(self).user(),
            final(self).admin_known(),
    {
        proof {
            use_type_invariant(&*self);
        }
        match self.admin {
            None => {
                let v = self.user.id == DISCORD_ID_OWNER;
                self.admin = Some(v);
                v
            },
            Some(v) => v,
        }
    }
}

/// The bot has exactly one administrator: its owner, by id.
pub proof fn lemma_only_owner_is_admin(user: DcUser)
    ensures
        is_admin_user(user) <==> user.id == 402830098870435857u64,
{
}

} // verus!
