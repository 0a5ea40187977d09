//! An in-memory model of the relational store: users, groups, permissions
//! and the two membership tables, with the store's own invariants —
//! usernames, emails and identifiers are each globally unique, and the
//! insert is the final arbiter of uniqueness.

use vstd::prelude::*;

use crate::textutil::contains_name;
use crate::textutil::contains_str;
use crate::textutil::str_eq;

verus! {

/// The source of truth for one identity.  `password` holds the PHC hash,
/// never a plaintext password.
#[derive(Debug)]
pub struct User {
    pub id: u128,
    pub username: String,
    pub email: String,
    pub password: String,
    pub created_at: u64,
    pub updated_at: u64,
}

impl User {
    /// A field-for-field copy.
    pub fn duplicate(&self) -> (u: User)
        ensures
            u == *self,
    {
        User {
            id: self.id,
            username: self.username.clone(),
            email: self.email.clone(),
            password: self.password.clone(),
            created_at: self.created_at,
            updated_at: self.updated_at,
        }
    }
}

/// What a registration hands to the store: the hash is already computed.
#[derive(Debug)]
pub struct NewUser {
    pub username: String,
    pub email: String,
    pub password: String,
}

/// A logical role container.
#[derive(Debug)]
pub struct Group {
    pub id: u128,
    pub name: String,
}

/// An atomic capability.
#[derive(Debug)]
pub struct Permission {
    pub id: u128,
    pub name: String,
}

/// Membership of a user in a group.
#[derive(Debug, Clone, Copy, PartialEq, Eq, Structural)]
pub struct UserGroup {
    pub user_id: u128,
    pub group_id: u128,
}

/// A grant of a permission to a group.
#[derive(Debug, Clone, Copy, PartialEq, Eq, Structural)]
pub struct GroupPermission {
    pub group_id: u128,
    pub permission_id: u128,
}

/// Why an insert was refused.
#[derive(Debug, Clone, Copy, PartialEq, Eq, Structural)]
pub enum StoreError {
    /// The row would break a uniqueness constraint.
    UniqueViolation,
}

/// Whether some user in `users` carries this username.
pub open spec fn has_username(users: Seq<User>, name: Seq<char>) -> bool {
    exists|i: int| 0 <= i < users.len() && users[i].username@ == name
}

/// Whether some user in `users` carries this email.
pub open spec fn has_email(users: Seq<User>, email: Seq<char>) -> bool {
    exists|i: int| 0 <= i < users.len() && users[i].email@ == email
}

/// Whether some user in `users` carries this identifier.
pub open spec fn has_id(users: Seq<User>, id: u128) -> bool {
    exists|i: int| 0 <= i < users.len() && users[i].id == id
}

/// Whether `uid` belongs to group `gid`.
pub open spec fn member_of(ugs: Seq<UserGroup>, uid: u128, gid: u128) -> bool {
    exists|a: int| 0 <= a < ugs.len() && ugs[a].user_id == uid && ugs[a].group_id == gid
}

/// Whether some group of `uid` is granted permission `pid`.
pub open spec fn linked(
    ugs: Seq<UserGroup>,
    gps: Seq<GroupPermission>,
    uid: u128,
    pid: u128,
) -> bool {
    exists|a: int, b: int|
        0 <= a < ugs.len() && 0 <= b < gps.len() && ugs[a].user_id == uid && gps[b].group_id
            == ugs[a].group_id && gps[b].permission_id == pid
}

/// The names of every group row carrying `gid`, in table order.
pub open spec fn names_for_group(groups: Seq<Group>, gid: u128) -> Seq<Seq<char>>
    decreases groups.len(),
{
    if groups.len() == 0 {
        Seq::empty()
    } else {
        let rest = names_for_group(groups.skip(1), gid);
        if groups[0].id == gid {
            seq![groups[0].name@] + rest
        } else {
            rest
        }
    }
}

/// The group names reached by walking `uid`'s membership rows in order:
/// one name per (membership, group) pair, duplicates kept.
pub open spec fn role_rows(ugs: Seq<UserGroup>, groups: Seq<Group>, uid: u128) -> Seq<Seq<char>>
    decreases ugs.len(),
{
    if ugs.len() == 0 {
        Seq::empty()
    } else {
        let head = if ugs[0].user_id == uid {
            names_for_group(groups, ugs[0].group_id)
        } else {
            Seq::empty()
        };
        head + role_rows(ugs.skip(1), groups, uid)
    }
}

/// The relational store.
pub struct UserStore {
    pub users: Vec<User>,
    pub groups: Vec<Group>,
    pub permissions: Vec<Permission>,
    pub user_groups: Vec<UserGroup>,
    pub group_permissions: Vec<GroupPermission>,
}

impl UserStore {
    /// The store's invariant: usernames, emails and identifiers are each
    /// globally unique among users.
    pub open spec fn wf(&self) -> bool {
        forall|i: int, j: int|
            0 <= i < j < self.users@.len() ==> #[trigger] self.users@[i].username@
                != #[trigger] self.users@[j].username@ && self.users@[i].email@
                != self.users@[j].email@ && self.users@[i].id != self.users@[j].id
    }

    /// Permission `name` is reachable for `uid` through some membership
    /// and grant, considering rows up to (excluding) permission row
    /// `bound`.
    pub open spec fn perm_upto(&self, uid: u128, name: Seq<char>, bound: int) -> bool {
        exists|c: int|
            0 <= c < bound && c < self.permissions@.len() && self.permissions@[c].name@ == name
                && linked(self.user_groups@, self.group_permissions@, uid, self.permissions@[c].id)
    }

    /// Permission `name` is reachable for `uid` through some membership
    /// and grant.
    pub open spec fn user_has_perm(&self, uid: u128, name: Seq<char>) -> bool {
        self.perm_upto(uid, name, self.permissions@.len() as int)
    }

    /// `name` is the name of some group `uid` belongs to.
    pub open spec fn user_has_role(&self, uid: u128, name: Seq<char>) -> bool {
        exists|g: int|
            0 <= g < self.groups@.len() && self.groups@[g].name@ == name && member_of(
                self.user_groups@,
                uid,
                self.groups@[g].id,
            )
    }

    /// An empty store.
    pub fn new() -> (s: UserStore)
        ensures
            s.wf(),
            s.users@.len() == 0,
            s.groups@.len() == 0,
            s.permissions@.len() == 0,
            s.user_groups@.len() == 0,
            s.group_permissions@.len() == 0,
    {
        UserStore {
            users: Vec::new(),
            groups: Vec::new(),
            permissions: Vec::new(),
            user_groups: Vec::new(),
            group_permissions: Vec::new(),
        }
    }

    /// The user carrying `username`, if any.
    pub fn get_user_by_username(&self, username: &str) -> (r: Option<User>)
        ensures
            r matches Some(u) ==> (exists|i: int|
                0 <= i < self.users@.len() && self.users@[i] == u) && u.username@ == username@,
            r is None <==> !has_username(self.users@, username@),
    {
        let n = self.users.len();
        let mut i: usize = 0;
        while i < n
            invariant
                0 <= i <= n,
                n == self.users@.len(),
                forall|j: int| 0 <= j < i ==> self.users@[j].username@ != username@,
            decreases n - i,
        {
            if str_eq(self.users[i].username.as_str(), username) {
                return Some(self.users[i].duplicate());
            }
            i = i + 1;
        }
        None
    }

    /// The user carrying identifier `id`, if any.
    pub fn get_user(&self, id: u128) -> (r: Option<User>)
        ensures
            r matches Some(u) ==> (exists|i: int|
                0 <= i < self.users@.len() && self.users@[i] == u) && u.id == id,
            r is None <==> !has_id(self.users@, id),
    {
        let n = self.users.len();
        let mut i: usize = 0;
        while i < n
            invariant
                0 <= i <= n,
                n == self.users@.len(),
                forall|j: int| 0 <= j < i ==> self.users@[j].id != id,
            decreases n - i,
        {
            if self.users[i].id == id {
                return Some(self.users[i].duplicate());
            }
            i = i + 1;
        }
        None
    }

    /// The user carrying `q` as username or as email, if any.
    pub fn find_user_by_username_or_email(&self, q: &str) -> (r: Option<User>)
        ensures
            r matches Some(u) ==> (exists|i: int|
                0 <= i < self.users@.len() && self.users@[i] == u) && (u.username@ == q@
                || u.email@ == q@),
            r is None <==> (!has_username(self.users@, q@) && !has_email(self.users@, q@)),
    {
        let n = self.users.len();
        let mut i: usize = 0;
        while i < n
            invariant
                0 <= i <= n,
                n == self.users@.len(),
                forall|j: int|
                    0 <= j < i ==> self.users@[j].username@ != q@ && self.users@[j].email@ != q@,
            decreases n - i,
        {
            if str_eq(self.users[i].username.as_str(), q) || str_eq(
                self.users[i].email.as_str(),
                q,
            ) {
                return Some(self.users[i].duplicate());
            }
            i = i + 1;
        }
        None
    }

    /// Whether `username` or `email` is already taken.
    pub fn user_exists_by_username_or_email(&self, username: &str, email: &str) -> (r: bool)
        ensures
            r == (has_username(self.users@, username@) || has_email(self.users@, email@)),
    {
        let n = self.users.len();
        let mut i: usize = 0;
        while i < n
            invariant
                0 <= i <= n,
                n == self.users@.len(),
                forall|j: int|
                    0 <= j < i ==> self.users@[j].username@ != username@ && self.users@[j].email@
                        != email@,
            decreases n - i,
        {
            if str_eq(self.users[i].username.as_str(), username) || str_eq(
                self.users[i].email.as_str(),
                email,
            ) {
                return true;
            }
            i = i + 1;
        }
        false
    }

    /// Inserts a user row, enforcing the uniqueness constraints: the
    /// insert, not any pre-check, is the final arbiter.
    pub fn new_user(&mut self, new_user: NewUser, id: u128, now: u64) -> (r: Result<
        User,
        StoreError,
    >)
        ensures
            final(self).groups == old(self).groups,
            final(self).permissions == old(self).permissions,
            final(self).user_groups == old(self).user_groups,
            final(self).group_permissions == old(self).group_permissions,
            r matches Err(e) ==> e == StoreError::UniqueViolation && final(self).users
                == old(self).users,
            r is Err <==> (has_username(old(self).users@, new_user.username@) || has_email(
                old(self).users@,
                new_user.email@,
            ) || has_id(old(self).users@, id)),
            r matches Ok(u) ==> {
                &&& u.id == id
                &&& u.username == new_user.username
                &&& u.email == new_user.email
                &&& u.password == new_user.password
                &&& u.created_at == now
                &&& u.updated_at == now
                &&& final(self).users@ == old(self).users@.push(u)
            },
            old(self).wf() ==> final(self).wf(),
    {
        let n = self.users.len();
        let mut i: usize = 0;
        while i < n
            invariant
                0 <= i <= n,
                n == self.users@.len(),
                forall|j: int|
                    0 <= j < i ==> self.users@[j].username@ != new_user.username@
                        && self.users@[j].email@ != new_user.email@ && self.users@[j].id != id,
            decreases n - i,
        {
            if str_eq(self.users[i].username.as_str(), new_user.username.as_str()) || str_eq(
                self.users[i].email.as_str(),
                new_user.email.as_str(),
            ) || self.users[i].id == id {
                return Err(StoreError::UniqueViolation);
            }
            i = i + 1;
        }
        let user = User {
            id,
            username: new_user.username,
            email: new_user.email,
            password: new_user.password,
            created_at: now,
            updated_at: now,
        };
        let copy = user.duplicate();
        self.users.push(user);
        Ok(copy)
    }

    /// Every user row.
    pub fn get_users(&self) -> (r: Vec<User>)
        ensures
            r@ == self.users@,
    {
        let n = self.users.len();
        let mut out: Vec<User> = Vec::new();
        let mut i: usize = 0;
        while i < n
            invariant
                0 <= i <= n,
                n == self.users@.len(),
                out@ == self.users@.subrange(0, i as int),
            decreases n - i,
        {
            out.push(self.users[i].duplicate());
            proof {
                assert(out@ =~= self.users@.subrange(0, i + 1));
            }
            i = i + 1;
        }
        proof {
            assert(self.users@.subrange(0, n as int) =~= self.users@);
        }
        out
    }

    /// The distinct group identifiers `uid` belongs to.
    pub fn get_group_ids_for_user(&self, uid: u128) -> (r: Vec<u128>)
        ensures
            forall|g: u128| #[trigger] r@.contains(g) <==> member_of(self.user_groups@, uid, g),
            forall|i: int, j: int| 0 <= i < j < r@.len() ==> r@[i] != r@[j],
    {
        let n = self.user_groups.len();
        let mut out: Vec<u128> = Vec::new();
        let mut a: usize = 0;
        while a < n
            invariant
                0 <= a <= n,
                n == self.user_groups@.len(),
                forall|g: u128| #[trigger]
                    out@.contains(g) <==> (exists|k: int|
                        0 <= k < a && self.user_groups@[k].user_id == uid
                            && self.user_groups@[k].group_id == g),
                forall|i: int, j: int| 0 <= i < j < out@.len() ==> out@[i] != out@[j],
            decreases n - a,
        {
            let row = self.user_groups[a];
            let ghost out0 = out@;
            if row.user_id == uid {
                let mut seen = false;
                let m = out.len();
                let mut t: usize = 0;
                while t < m
                    invariant
                        0 <= t <= m,
                        m == out@.len(),
                        seen <==> (exists|k: int| 0 <= k < t && out@[k] == row.group_id),
                    decreases m - t,
                {
                    if out[t] == row.group_id {
                        seen = true;
                    }
                    t = t + 1;
                }
                if !seen {
                    out.push(row.group_id);
                }
                proof {
                    if seen {
                        let k = choose|k: int| 0 <= k < out0.len() && out0[k] == row.group_id;
                        assert(out@.contains(row.group_id));
                    } else {
                        assert(out@[out@.len() - 1] == row.group_id);
                        assert(out@.contains(row.group_id));
                        assert forall|g: u128| #[trigger] out@.contains(g) implies (out0.contains(
                            g,
                        ) || g == row.group_id) by {
                            let k = choose|k: int| 0 <= k < out@.len() && out@[k] == g;
                            if k < out0.len() {
                                assert(out0[k] == g);
                            }
                        }
                        assert(forall|g: u128|
                            out0.contains(g) ==> #[trigger] out@.contains(g)) by {
                            assert forall|g: u128| out0.contains(g) implies #[trigger] out@.contains(
                                g,
                            ) by {
                                let k = choose|k: int| 0 <= k < out0.len() && out0[k] == g;
                                assert(out@[k] == g);
                            }
                        }
                    }
                    assert forall|g: u128| #[trigger]
                        out@.contains(g) <==> (exists|k: int|
                            0 <= k < a + 1 && self.user_groups@[k].user_id == uid
                                && self.user_groups@[k].group_id == g) by {
                        if out@.contains(g) {
                            if out0.contains(g) {
                                let k = choose|k: int|
                                    0 <= k < a && self.user_groups@[k].user_id == uid
                                        && self.user_groups@[k].group_id == g;
                                assert(0 <= k < a + 1 && self.user_groups@[k].user_id == uid
                                    && self.user_groups@[k].group_id == g);
                            } else {
                                assert(g == row.group_id);
                                assert(self.user_groups@[a as int].user_id == uid
                                    && self.user_groups@[a as int].group_id == g);
                            }
                        }
                        if exists|k: int|
                            0 <= k < a + 1 && self.user_groups@[k].user_id == uid
                                && self.user_groups@[k].group_id == g {
                            let k = choose|k: int|
                                0 <= k < a + 1 && self.user_groups@[k].user_id == uid
                                    && self.user_groups@[k].group_id == g;
                            if k < a {
                                assert(out0.contains(g));
                                if seen {
                                } else {
                                    let kk = choose|kk: int| 0 <= kk < out0.len() && out0[kk] == g;
                                    assert(out@[kk] == g);
                                }
                            } else {
                                assert(g == row.group_id);
                            }
                            assert(out@.contains(g));
                        }
                    }
                }
            } else {
                proof {
                    assert forall|g: u128| #[trigger]
                        out@.contains(g) <==> (exists|k: int|
                            0 <= k < a + 1 && self.user_groups@[k].user_id == uid
                                && self.user_groups@[k].group_id == g) by {
                        if exists|k: int|
                            0 <= k < a + 1 && self.user_groups@[k].user_id == uid
                                && self.user_groups@[k].group_id == g {
                            let k = choose|k: int|
                                0 <= k < a + 1 && self.user_groups@[k].user_id == uid
                                    && self.user_groups@[k].group_id == g;
                            assert(k < a);
                        }
                    }
                }
            }
            a = a + 1;
        }
        out
    }

    /// The distinct names of the groups `uid` belongs to.
    pub fn get_group_names_for_user(&self, uid: u128) -> (r: Vec<String>)
        ensures
            forall|s: Seq<char>| contains_name(r@, s) <==> self.user_has_role(uid, s),
            forall|i: int, j: int| 0 <= i < j < r@.len() ==> r@[i]@ != r@[j]@,
    {
        let n = self.groups.len();
        let mut out: Vec<String> = Vec::new();
        let mut g: usize = 0;
        while g < n
            invariant
                0 <= g <= n,
                n == self.groups@.len(),
                forall|s: Seq<char>|
                    contains_name(out@, s) <==> (exists|k: int|
                        0 <= k < g && self.groups@[k].name@ == s && member_of(
                            self.user_groups@,
                            uid,
                            self.groups@[k].id,
                        )),
                forall|i: int, j: int| 0 <= i < j < out@.len() ==> out@[i]@ != out@[j]@,
            decreases n - g,
        {
            let ghost out0 = out@;
            if self.is_member(uid, self.groups[g].id) {
                let had = contains_str(&out, self.groups[g].name.as_str());
                if !had {
                    out.push(self.groups[g].name.clone());
                }
                proof {
                    if had {
                        let k = choose|k: int| 0 <= k < out0.len() && out0[k]@ == self.groups@[g as int].name@;
                        assert(contains_name(out@, self.groups@[g as int].name@));
                    } else {
                        assert(out@[out@.len() - 1]@ == self.groups@[g as int].name@);
                        assert(contains_name(out@, self.groups@[g as int].name@));
                    }
                    assert forall|s: Seq<char>|
                        contains_name(out@, s) <==> (contains_name(out0, s) || s
                            == self.groups@[g as int].name@) by {
                        if contains_name(out@, s) {
                            let k = choose|k: int| 0 <= k < out@.len() && out@[k]@ == s;
                            if k < out0.len() {
                                assert(out0[k]@ == s);
                            }
                        }
                        if contains_name(out0, s) {
                            let k = choose|k: int| 0 <= k < out0.len() && out0[k]@ == s;
                            assert(out@[k]@ == s);
                        }
                        if s == self.groups@[g as int].name@ {
                            assert(contains_name(out@, s));
                        }
                    }
                }
                proof {
                    assert forall|s: Seq<char>|
                        contains_name(out@, s) <==> (exists|k: int|
                            0 <= k < g + 1 && self.groups@[k].name@ == s && member_of(
                                self.user_groups@,
                                uid,
                                self.groups@[k].id,
                            )) by {
                        if contains_name(out@, s) {
                            if contains_name(out0, s) {
                                let k = choose|k: int|
                                    0 <= k < g && self.groups@[k].name@ == s && member_of(
                                        self.user_groups@,
                                        uid,
                                        self.groups@[k].id,
                                    );
                                assert(0 <= k < g + 1 && self.groups@[k].name@ == s && member_of(
                                    self.user_groups@,
                                    uid,
                                    self.groups@[k].id,
                                ));
                            } else {
                                assert(s == self.groups@[g as int].name@);
                                assert(member_of(self.user_groups@, uid, self.groups@[g as int].id));
                            }
                        }
                        if exists|k: int|
                            0 <= k < g + 1 && self.groups@[k].name@ == s && member_of(
                                self.user_groups@,
                                uid,
                                self.groups@[k].id,
                            ) {
                            let k = choose|k: int|
                                0 <= k < g + 1 && self.groups@[k].name@ == s && member_of(
                                    self.user_groups@,
                                    uid,
                                    self.groups@[k].id,
                                );
                            if k < g {
                                assert(contains_name(out0, s));
                            } else {
                                assert(s == self.groups@[g as int].name@);
                            }
                            assert(contains_name(out@, s));
                        }
                    }
                }
            } else {
                proof {
                    assert forall|s: Seq<char>|
                        contains_name(out@, s) <==> (exists|k: int|
                            0 <= k < g + 1 && self.groups@[k].name@ == s && member_of(
                                self.user_groups@,
                                uid,
                                self.groups@[k].id,
                            )) by {
                        if exists|k: int|
                            0 <= k < g + 1 && self.groups@[k].name@ == s && member_of(
                                self.user_groups@,
                                uid,
                                self.groups@[k].id,
                            ) {
                            let k = choose|k: int|
                                0 <= k < g + 1 && self.groups@[k].name@ == s && member_of(
                                    self.user_groups@,
                                    uid,
                                    self.groups@[k].id,
                                );
                            assert(k < g);
                        }
                    }
                }
            }
            g = g + 1;
        }
        out
    }

    /// The group names of `uid`'s memberships, one per membership row in
    /// table order, duplicates kept (the roles a token could carry).
    #[verifier::loop_isolation(false)]
    pub fn get_user_roles(&self, uid: u128) -> (r: Vec<String>)
        ensures
            r@.map_values(|s: String| s@) == role_rows(self.user_groups@, self.groups@, uid),
    {
        let n = self.user_groups.len();
        let m = self.groups.len();
        let mut out: Vec<String> = Vec::new();
        let mut a: usize = 0;
        proof {
            assert(self.user_groups@.skip(0) =~= self.user_groups@);
            assert(out@.map_values(|s: String| s@) =~= Seq::<Seq<char>>::empty());
        }
        while a < n
            invariant
                0 <= a <= n,
                role_rows(self.user_groups@, self.groups@, uid) == out@.map_values(
                    |s: String| s@,
                ) + role_rows(self.user_groups@.skip(a as int), self.groups@, uid),
            decreases n - a,
        {
            let ghost rest = self.user_groups@.skip(a as int);
            proof {
                assert(rest[0] == self.user_groups@[a as int]);
                assert(rest.skip(1) =~= self.user_groups@.skip(a + 1));
            }
            if self.user_groups[a].user_id == uid {
                let gid = self.user_groups[a].group_id;
                let mut g: usize = 0;
                proof {
                    assert(self.groups@.skip(0) =~= self.groups@);
                }
                while g < m
                    invariant
                        0 <= g <= m,
                        gid == self.user_groups@[a as int].group_id,
                        self.user_groups@[a as int].user_id == uid,
                        role_rows(self.user_groups@, self.groups@, uid) == out@.map_values(
                            |s: String| s@,
                        ) + names_for_group(self.groups@.skip(g as int), gid) + role_rows(
                            self.user_groups@.skip(a + 1),
                            self.groups@,
                            uid,
                        ),
                    decreases m - g,
                {
                    let ghost grest = self.groups@.skip(g as int);
                    let ghost out0 = out@;
                    proof {
                        assert(grest[0] == self.groups@[g as int]);
                        assert(grest.skip(1) =~= self.groups@.skip(g + 1));
                    }
                    if self.groups[g].id == gid {
                        out.push(self.groups[g].name.clone());
                        proof {
                            assert(out@.map_values(|s: String| s@) =~= out0.map_values(
                                |s: String| s@,
                            ).push(self.groups@[g as int].name@));
                            assert(out0.map_values(|s: String| s@) + (seq![
                                self.groups@[g as int].name@,
                            ] + names_for_group(self.groups@.skip(g + 1), gid)) =~= out@.map_values(
                                |s: String| s@,
                            ) + names_for_group(self.groups@.skip(g + 1), gid));
                        }
                    }
                    g = g + 1;
                }
                proof {
                    assert(self.groups@.skip(m as int) =~= Seq::<Group>::empty());
                    assert(names_for_group(self.groups@.skip(m as int), gid)
                        =~= Seq::<Seq<char>>::empty());
                }
            }
            a = a + 1;
        }
        proof {
            assert(self.user_groups@.skip(n as int) =~= Seq::<UserGroup>::empty());
            assert(role_rows(self.user_groups@.skip(n as int), self.groups@, uid)
                =~= Seq::<Seq<char>>::empty());
            assert(out@.map_values(|s: String| s@) + Seq::<Seq<char>>::empty() =~= out@.map_values(
                |s: String| s@,
            ));
        }
        out
    }

    /// Whether `uid` belongs to group `gid`.
    fn is_member(&self, uid: u128, gid: u128) -> (r: bool)
        ensures
            r == member_of(self.user_groups@, uid, gid),
    {
        let n = self.user_groups.len();
        let mut a: usize = 0;
        while a < n
            invariant
                0 <= a <= n,
                n == self.user_groups@.len(),
                forall|k: int|
                    0 <= k < a ==> !(self.user_groups@[k].user_id == uid
                        && self.user_groups@[k].group_id == gid),
            decreases n - a,
        {
            if self.user_groups[a].user_id == uid && self.user_groups[a].group_id == gid {
                return true;
            }
            a = a + 1;
        }
        false
    }

    /// Whether some group of `uid` is granted permission `pid`.
    fn is_linked(&self, uid: u128, pid: u128) -> (r: bool)
        ensures
            r == linked(self.user_groups@, self.group_permissions@, uid, pid),
    {
        let n = self.user_groups.len();
        let m = self.group_permissions.len();
        let mut a: usize = 0;
        while a < n
            invariant
                0 <= a <= n,
                n == self.user_groups@.len(),
                m == self.group_permissions@.len(),
                forall|k: int, b: int|
                    0 <= k < a && 0 <= b < m ==> !(self.user_groups@[k].user_id == uid
                        && self.group_permissions@[b].group_id == self.user_groups@[k].group_id
                        && self.group_permissions@[b].permission_id == pid),
            decreases n - a,
        {
            if self.user_groups[a].user_id == uid {
                let gid = self.user_groups[a].group_id;
                let mut b: usize = 0;
                while b < m
                    invariant
                        0 <= b <= m,
                        m == self.group_permissions@.len(),
                        gid == self.user_groups@[a as int].group_id,
                        a < n == self.user_groups@.len(),
                        self.user_groups@[a as int].user_id == uid,
                        forall|bb: int|
                            0 <= bb < b ==> !(self.group_permissions@[bb].group_id == gid
                                && self.group_permissions@[bb].permission_id == pid),
                    decreases m - b,
                {
                    if self.group_permissions[b].group_id == gid && self.group_permissions[b].permission_id
                        == pid {
                        return true;
                    }
                    b = b + 1;
                }
            }
            a = a + 1;
        }
        false
    }

    /// The distinct names of every permission reachable for `uid` through
    /// their group memberships: one relational walk, deduplicated.
    /// Returns an empty list, not an error, for a user in no groups.
    pub fn get_permission_names_for_user(&self, uid: u128) -> (r: Vec<String>)
        ensures
            forall|s: Seq<char>| contains_name(r@, s) <==> self.user_has_perm(uid, s),
            forall|i: int, j: int| 0 <= i < j < r@.len() ==> r@[i]@ != r@[j]@,
    {
        let n = self.permissions.len();
        let mut out: Vec<String> = Vec::new();
        let mut c: usize = 0;
        while c < n
            invariant
                0 <= c <= n,
                n == self.permissions@.len(),
                forall|s: Seq<char>| contains_name(out@, s) <==> self.perm_upto(uid, s, c as int),
                forall|i: int, j: int| 0 <= i < j < out@.len() ==> out@[i]@ != out@[j]@,
            decreases n - c,
        {
            let ghost out0 = out@;
            if self.is_linked(uid, self.permissions[c].id) {
                let had = contains_str(&out, self.permissions[c].name.as_str());
                if !had {
                    out.push(self.permissions[c].name.clone());
                }
                proof {
                    if had {
                        let k = choose|k: int| 0 <= k < out0.len() && out0[k]@ == self.permissions@[c as int].name@;
                        assert(contains_name(out@, self.permissions@[c as int].name@));
                    } else {
                        assert(out@[out@.len() - 1]@ == self.permissions@[c as int].name@);
                        assert(contains_name(out@, self.permissions@[c as int].name@));
                    }
                    assert forall|s: Seq<char>|
                        contains_name(out@, s) <==> (contains_name(out0, s) || s
                            == self.permissions@[c as int].name@) by {
                        if contains_name(out@, s) {
                            let k = choose|k: int| 0 <= k < out@.len() && out@[k]@ == s;
                            if k < out0.len() {
                                assert(out0[k]@ == s);
                            }
                        }
                        if contains_name(out0, s) {
                            let k = choose|k: int| 0 <= k < out0.len() && out0[k]@ == s;
                            assert(out@[k]@ == s);
                        }
                        if s == self.permissions@[c as int].name@ {
                            assert(contains_name(out@, s));
                        }
                    }
                }
                proof {
                    assert forall|s: Seq<char>|
                        contains_name(out@, s) <==> self.perm_upto(uid, s, c + 1) by {
                        if contains_name(out@, s) {
                            if contains_name(out0, s) {
                                let k = choose|k: int|
                                    0 <= k < c && k < self.permissions@.len()
                                        && self.permissions@[k].name@ == s && linked(
                                        self.user_groups@,
                                        self.group_permissions@,
                                        uid,
                                        self.permissions@[k].id,
                                    );
                                assert(self.perm_upto(uid, s, c + 1));
                            } else {
                                assert(s == self.permissions@[c as int].name@);
                                assert(self.perm_upto(uid, s, c + 1));
                            }
                        }
                        if self.perm_upto(uid, s, c + 1) {
                            let k = choose|k: int|
                                0 <= k < c + 1 && k < self.permissions@.len()
                                    && self.permissions@[k].name@ == s && linked(
                                    self.user_groups@,
                                    self.group_permissions@,
                                    uid,
                                    self.permissions@[k].id,
                                );
                            if k < c {
                                assert(self.perm_upto(uid, s, c as int));
                                assert(contains_name(out0, s));
                            } else {
                                assert(s == self.permissions@[c as int].name@);
                            }
                            assert(contains_name(out@, s));
                        }
                    }
                }
            } else {
                proof {
                    assert forall|s: Seq<char>|
                        contains_name(out@, s) <==> self.perm_upto(uid, s, c + 1) by {
                        if self.perm_upto(uid, s, c + 1) {
                            let k = choose|k: int|
                                0 <= k < c + 1 && k < self.permissions@.len()
                                    && self.permissions@[k].name@ == s && linked(
                                    self.user_groups@,
                                    self.group_permissions@,
                                    uid,
                                    self.permissions@[k].id,
                                );
                            assert(k < c);
                            assert(self.perm_upto(uid, s, c as int));
                        }
                    }
                }
            }
            c = c + 1;
        }
        out
    }

    /// The permission names of `uid`, resolved through their groups.
    pub fn get_user_permissions(&self, uid: u128) -> (r: Vec<String>)
        ensures
            forall|s: Seq<char>| contains_name(r@, s) <==> self.user_has_perm(uid, s),
            forall|i: int, j: int| 0 <= i < j < r@.len() ==> r@[i]@ != r@[j]@,
    {
        self.get_permission_names_for_user(uid)
    }

    /// Whether `uid` holds the permission named `required`.  Every check
    /// re-queries: a permission revoked between two requests takes effect
    /// on the next checked request.
    pub fn has_permission(&self, uid: u128, required: &str) -> (r: bool)
        ensures
            r == self.user_has_perm(uid, required@),
    {
        let n = self.permissions.len();
        let mut c: usize = 0;
        while c < n
            invariant
                0 <= c <= n,
                n == self.permissions@.len(),
                !self.perm_upto(uid, required@, c as int),
            decreases n - c,
        {
            if str_eq(self.permissions[c].name.as_str(), required) && self.is_linked(
                uid,
                self.permissions[c].id,
            ) {
                return true;
            }
            c = c + 1;
        }
        false
    }
}

/// A user who belongs to no group reaches no permission at all: their
/// permission set is empty and `has_permission` is false for every name.
pub proof fn lemma_no_groups_no_permissions(s: &UserStore, uid: u128)
    requires
        forall|a: int|
            0 <= a < s.user_groups@.len() ==> (#[trigger] s.user_groups@[a]).user_id != uid,
    ensures
        forall|name: Seq<char>| !s.user_has_perm(uid, name),
        forall|name: Seq<char>| !s.user_has_role(uid, name),
{
    assert forall|name: Seq<char>| !s.user_has_perm(uid, name) by {
        if s.user_has_perm(uid, name) {
            let c = choose|c: int|
                0 <= c < s.permissions@.len() && s.permissions@[c].name@ == name && linked(
                    s.user_groups@,
                    s.group_permissions@,
                    uid,
                    s.permissions@[c].id,
                );
            let (a, b) = choose|a: int, b: int|
                0 <= a < s.user_groups@.len() && 0 <= b < s.group_permissions@.len()
                    && s.user_groups@[a].user_id == uid && s.group_permissions@[b].group_id
                    == s.user_groups@[a].group_id && s.group_permissions@[b].permission_id
                    == s.permissions@[c].id;
            assert(s.user_groups@[a].user_id != uid);
        }
    }
    assert forall|name: Seq<char>| !s.user_has_role(uid, name) by {
        if s.user_has_role(uid, name) {
            let g = choose|g: int|
                0 <= g < s.groups@.len() && s.groups@[g].name@ == name && member_of(
                    s.user_groups@,
                    uid,
                    s.groups@[g].id,
                );
            let a = choose|a: int|
                0 <= a < s.user_groups@.len() && s.user_groups@[a].user_id == uid
                    && s.user_groups@[a].group_id == s.groups@[g].id;
            assert(s.user_groups@[a].user_id != uid);
        }
    }
}

} // verus!
