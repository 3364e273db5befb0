//! The session registry: which identity each live connection claims.

use crate::identity::{IDInfo, IDInfoView};
use std::collections::HashMap;
use vstd::prelude::*;

verus! {

broadcast use vstd::std_specs::hash::group_hash_axioms;

/// Maps a live connection to the identity it currently claims.
///
/// A connection is in the registry from the first identity it presents until
/// it disconnects, and at most once.
pub struct SessionRegistry {
    entries: HashMap<usize, IDInfo>,
}

impl View for SessionRegistry {
    type V = Map<usize, IDInfoView>;

    closed spec fn view(&self) -> Map<usize, IDInfoView> {
        Map::new(|c: usize| self.entries@.contains_key(c), |c: usize| self.entries@[c]@)
    }
}

impl SessionRegistry {
    /// A registry without connections.
    pub fn new() -> (registry: SessionRegistry)
        ensures
            registry@ == Map::<usize, IDInfoView>::empty(),
    {
        let registry = SessionRegistry { entries: HashMap::new() };
        assert(registry@ =~= Map::<usize, IDInfoView>::empty());
        registry
    }

    /// Records `identity` for `conn_id`, replacing what was recorded before.
    pub fn register(&mut self, conn_id: usize, identity: IDInfo)
        ensures
            final(self)@ == old(self)@.insert(conn_id, identity@),
    {
        self.entries.insert(conn_id, identity);
        assert(self@ =~= old(self)@.insert(conn_id, identity@));
    }

    /// Replaces the identity of `conn_id` if the connection is known, and
    /// says whether it was. An unknown connection leaves the registry as it
    /// is.
    pub fn update_identity(&mut self, conn_id: usize, identity: IDInfo) -> (updated: bool)
        ensures
            updated == old(self)@.contains_key(conn_id),
            updated ==> final(self)@ == old(self)@.insert(conn_id, identity@),
            !updated ==> final(self)@ == old(self)@,
    {
        if self.entries.contains_key(&conn_id) {
            self.register(conn_id, identity);
            true
        } else {
            false
        }
    }

    /// Whether `conn_id` has an identity on record.
    pub fn contains(&self, conn_id: usize) -> (known: bool)
        ensures
            known == self@.contains_key(conn_id),
    {
        self.entries.contains_key(&conn_id)
    }

    /// The identity on record for `conn_id`, if any.
    pub fn lookup(&self, conn_id: usize) -> (found: Option<IDInfo>)
        ensures
            found is Some <==> self@.contains_key(conn_id),
            found is Some ==> found->0@ == self@[conn_id],
    {
        match self.entries.get(&conn_id) {
            Some(identity) => Some(identity.clone()),
            None => None,
        }
    }

    /// The user that `conn_id` stands for, if the connection is known.
    pub fn user_of(&self, conn_id: usize) -> (user: Option<usize>)
        ensures
            user is Some <==> self@.contains_key(conn_id),
            user is Some ==> user->0 == self@[conn_id].user_id,
    {
        match self.entries.get(&conn_id) {
            Some(identity) => Some(identity.user_id),
            None => None,
        }
    }

    /// Forgets `conn_id` and returns the identity that was on record.
    pub fn remove(&mut self, conn_id: usize) -> (removed: Option<IDInfo>)
        ensures
            final(self)@ == old(self)@.remove(conn_id),
            removed is Some <==> old(self)@.contains_key(conn_id),
            removed is Some ==> removed->0@ == old(self)@[conn_id],
    {
        let removed = self.entries.remove(&conn_id);
        assert(self@ =~= old(self)@.remove(conn_id));
        removed
    }

    /// The number of connections on record.
    pub fn len(&self) -> (n: usize)
        ensures
            n == self@.dom().len(),
    {
        let n = self.entries.len();
        assert(self@.dom() =~= self.entries@.dom());
        n
    }
}

} // verus!
