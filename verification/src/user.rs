//! Users and their scores.
use crate::keyed::{distinct, index_of, lemma_index_at, lemma_index_of, lemma_index_prefix};
use vstd::prelude::*;
use vstd::std_specs::cmp::PartialEqSpecImpl;

verus! {

/// A user's data: the unique name and the score. Two users are equal where
/// they have the same name, whatever their scores.
#[derive(Clone, Debug, Eq)]
pub struct User {
    pub id: String,
    pub score: i64,
}

impl PartialEq for User {
    fn eq(&self, other: &User) -> (b: bool) {
        self.id == other.id
    }
}

impl PartialEqSpecImpl for User {
    open spec fn obeys_eq_spec() -> bool {
        true
    }

    open spec fn eq_spec(&self, other: &User) -> bool {
        self.id@ == other.id@
    }
}

/// What a user is doing.
#[derive(Clone, Debug, PartialEq, Eq)]
pub enum UserState {
    /// Nothing, as in the lobby.
    Idle,
    /// Waiting for a match.
    Matchmaking,
    /// Playing in the room of this name.
    Playing(String),
}

impl User {
    /// A user without points.
    pub fn new(id: String) -> (u: User)
        ensures
            u.id == id,
            u.score == 0,
    {
        User { id, score: 0 }
    }
}

/// The users that are held in memory, each name once.
pub struct UserManager {
    /// Where the users' data are kept on disk.
    pub path: String,
    /// The users in memory, in the order in which they came.
    pub cache: Vec<User>,
}

/// The names of the users, in the order of the list.
pub open spec fn user_ids(users: Seq<User>) -> Seq<Seq<char>> {
    Seq::new(users.len(), |i: int| users[i].id@)
}

/// The position of the user named `id`, if there is one.
pub open spec fn position_of(users: Seq<User>, id: Seq<char>) -> Option<int> {
    index_of(user_ids(users), id)
}

impl UserManager {
    /// Validity: no name twice.
    pub open spec fn wf(&self) -> bool {
        distinct(user_ids(self.cache@))
    }

    /// The user named `id` as held in memory, if held.
    pub open spec fn cached(&self, id: Seq<char>) -> Option<User> {
        match position_of(self.cache@, id) {
            Some(i) => Some(self.cache@[i]),
            None => None,
        }
    }

    /// No users in memory, and `path` for their data on disk.
    pub fn new(path: String) -> (m: UserManager)
        ensures
            m.path == path,
            m.cache@.len() == 0,
            m.wf(),
    {
        UserManager { path, cache: Vec::new() }
    }

    /// Where the user named `id` stands in memory.
    fn find(&self, id: &String) -> (r: Option<usize>)
        ensures
            match r {
                Some(i) => position_of(self.cache@, id@) == Some(i as int) && i < self.cache@.len(),
                None => position_of(self.cache@, id@).is_none(),
            },
    {
        let ghost ids = user_ids(self.cache@);
        let mut i: usize = 0;
        while i < self.cache.len()
            invariant
                i <= self.cache@.len(),
                ids == user_ids(self.cache@),
                index_of(ids.take(i as int), id@).is_none(),
            decreases self.cache.len() - i,
        {
            proof {
                assert(ids.take(i + 1).drop_last() =~= ids.take(i as int));
                assert(ids[i as int] == self.cache@[i as int].id@);
            }
            if self.cache[i].id == *id {
                proof {
                    lemma_index_prefix(ids, i + 1, id@);
                }
                return Some(i);
            }
            i += 1;
        }
        proof {
            assert(ids.take(ids.len() as int) =~= ids);
        }
        None
    }

    /// The user named `id`: as held in memory; else as `stored` on disk,
    /// where the caller found the user there; else a new user without
    /// points.
    pub fn get_user(&self, id: &String, stored: Option<User>) -> (r: Option<User>)
        ensures
            r == Some(UserManager::read_user_or_create_spec(self.cached(id@), stored, *id)),
    {
        match self.find(id) {
            Some(i) => {
                let held = &self.cache[i];
                Some(User { id: held.id.clone(), score: held.score })
            },
            None => Some(UserManager::read_user_or_create(stored, id)),
        }
    }

    /// The user that is known of the name `id`: the one in memory before the
    /// one on disk, and without either a new user without points.
    pub open spec fn read_user_or_create_spec(
        held: Option<User>,
        stored: Option<User>,
        id: String,
    ) -> User {
        match held {
            Some(u) => u,
            None => match stored {
                Some(u) => u,
                None => User { id, score: 0 },
            },
        }
    }

    /// The user as `stored` on disk, where the caller found the user there;
    /// else a new user without points.
    pub fn read_user_or_create(stored: Option<User>, id: &String) -> (u: User)
        ensures
            u == UserManager::read_user_or_create_spec(None, stored, *id),
    {
        match stored {
            Some(u) => u,
            None => User::new(id.clone()),
        }
    }

    /// Holds `user` in memory under the name `id`, in place of the user held
    /// under that name before, if there was one.
    pub fn insert_user(&mut self, id: String, user: User)
        requires
            old(self).wf(),
            user.id@ == id@,
        ensures
            final(self).wf(),
            final(self).path == old(self).path,
            final(self).cached(id@) == Some(user),
            match position_of(old(self).cache@, id@) {
                Some(i) => final(self).cache@ == old(self).cache@.update(i, user),
                None => final(self).cache@ == old(self).cache@.push(user),
            },
    {
        let ghost before = self.cache@;
        proof {
            lemma_index_of(user_ids(before), id@);
        }
        let ghost at = match position_of(before, id@) {
            Some(i) => i,
            None => before.len() as int,
        };
        match self.find(&id) {
            Some(i) => {
                self.cache.set(i, user);
            },
            None => {
                self.cache.push(user);
            },
        }
        proof {
            let after = self.cache@;
            let ids = user_ids(after);
            assert(after[at] == user);
            assert forall|i: int, j: int| 0 <= i < j < ids.len() implies #[trigger] ids[i]
                != #[trigger] ids[j] by {
                if i != at {
                    assert(ids[i] == user_ids(before)[i]);
                }
                if j != at {
                    assert(ids[j] == user_ids(before)[j]);
                }
            }
            assert(ids[at] == id@);
            lemma_index_at(ids, at);
        }
    }

    /// The user named `id` as held in memory, for changing. A user who is
    /// not held there is taken in first: as `stored` on disk, where the
    /// caller found the user there, else as a new user without points.
    pub fn get_user_mut(&mut self, id: &String, stored: Option<User>) -> (u: &mut User)
        requires
            old(self).wf(),
        ensures
            *u == UserManager::read_user_or_create_spec(old(self).cached(id@), stored, *id),
            final(self).path == old(self).path,
            match position_of(old(self).cache@, id@) {
                Some(i) => final(self).cache@ == old(self).cache@.update(i, *final(u)),
                None => final(self).cache@ == old(self).cache@.push(*final(u)),
            },
    {
        let at = match self.find(id) {
            Some(i) => i,
            None => {
                let user = UserManager::read_user_or_create(stored, id);
                self.cache.push(user);
                self.cache.len() - 1
            },
        };
        &mut self.cache[at]
    }
}

} // verus!
