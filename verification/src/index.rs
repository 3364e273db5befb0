//! The per-user connection index.
//!
//! Each user owns a bucket: the ordered list of connections that are open on
//! the user's behalf, each tagged with the contact whose conversation it
//! carries.

use crate::identity::WSData;
use std::collections::HashMap;
use vstd::prelude::*;
use vstd::std_specs::iter::IteratorSpec;

verus! {

broadcast use vstd::std_specs::hash::group_hash_axioms;

/// The connection of the first entry of `bucket` that carries the
/// conversation with `contact`.
pub open spec fn first_connection(bucket: Seq<WSData>, contact: usize) -> Option<usize>
    decreases bucket.len(),
{
    if bucket.len() == 0 {
        None
    } else if bucket[0].user_id == contact {
        Some(bucket[0].ws_id)
    } else {
        first_connection(bucket.drop_first(), contact)
    }
}

/// `bucket` without the entries that go over connection `conn_id`, the rest
/// in their order.
pub open spec fn without_connection(bucket: Seq<WSData>, conn_id: usize) -> Seq<WSData> {
    bucket.filter(|entry: WSData| entry.ws_id != conn_id)
}

/// The connections of `bucket` that carry the conversation with `contact`,
/// in bucket order.
pub open spec fn connections_for(bucket: Seq<WSData>, contact: usize) -> Seq<usize> {
    bucket.filter(|entry: WSData| entry.user_id == contact).map_values(
        |entry: WSData| entry.ws_id,
    )
}

/// Whether `order` lists every bucket owner of `buckets` exactly once.
pub open spec fn is_bucket_order(buckets: Map<usize, Seq<WSData>>, order: Seq<usize>) -> bool {
    &&& order.no_duplicates()
    &&& order.to_set() == buckets.dom()
}

/// The connections that hear of a change to `user`'s profile when the
/// buckets are visited in `order`: from every bucket but `user`'s own, the
/// connections that carry the conversation with `user`.
pub open spec fn fan_out(buckets: Map<usize, Seq<WSData>>, order: Seq<usize>, user: usize) -> Seq<
    usize,
>
    decreases order.len(),
{
    if order.len() == 0 {
        Seq::empty()
    } else {
        let owner = order.last();
        let before = fan_out(buckets, order.drop_last(), user);
        if owner == user {
            before
        } else {
            before + connections_for(buckets[owner], user)
        }
    }
}

/// No bucket of `buckets` holds the same entry twice.
pub open spec fn buckets_without_repeats(buckets: Map<usize, Seq<WSData>>) -> bool {
    forall|owner: usize| #[trigger] buckets.contains_key(owner) ==> buckets[owner].no_duplicates()
}

/// For each user, the connections that are open on that user's behalf.
pub struct ConnectionIndex {
    buckets: HashMap<usize, Vec<WSData>>,
}

impl View for ConnectionIndex {
    type V = Map<usize, Seq<WSData>>;

    closed spec fn view(&self) -> Map<usize, Seq<WSData>> {
        Map::new(|owner: usize| self.buckets@.contains_key(owner), |owner: usize| self.buckets@[owner]@)
    }
}

fn holds_entry(bucket: &Vec<WSData>, entry: WSData) -> (present: bool)
    ensures
        present == bucket@.contains(entry),
{
    let mut i: usize = 0;
    while i < bucket.len()
        invariant
            i <= bucket.len(),
            forall|j: int| 0 <= j < i ==> bucket@[j] != entry,
        decreases bucket.len() - i,
    {
        if bucket[i].user_id == entry.user_id && bucket[i].ws_id == entry.ws_id {
            return true;
        }
        i += 1;
    }
    false
}

fn first_connection_in(bucket: &Vec<WSData>, contact: usize) -> (found: Option<usize>)
    ensures
        found == first_connection(bucket@, contact),
{
    let mut i: usize = 0;
    assert(bucket@.skip(0) =~= bucket@);
    while i < bucket.len()
        invariant
            i <= bucket.len(),
            first_connection(bucket@, contact) == first_connection(bucket@.skip(i as int), contact),
        decreases bucket.len() - i,
    {
        if bucket[i].user_id == contact {
            return Some(bucket[i].ws_id);
        }
        assert(bucket@.skip(i as int).drop_first() =~= bucket@.skip(i + 1));
        i += 1;
    }
    assert(bucket@.skip(i as int).len() == 0);
    None
}

fn purged(bucket: &Vec<WSData>, conn_id: usize) -> (kept: Vec<WSData>)
    ensures
        kept@ == without_connection(bucket@, conn_id),
{
    let mut kept: Vec<WSData> = Vec::new();
    let mut i: usize = 0;
    proof {
        reveal(Seq::filter);
    }
    while i < bucket.len()
        invariant
            i <= bucket.len(),
            kept@ == without_connection(bucket@.take(i as int), conn_id),
        decreases bucket.len() - i,
    {
        proof {
            reveal(Seq::filter);
            assert(bucket@.take(i + 1).drop_last() =~= bucket@.take(i as int));
        }
        if bucket[i].ws_id != conn_id {
            kept.push(bucket[i]);
        }
        i += 1;
    }
    assert(bucket@.take(i as int) =~= bucket@);
    kept
}

fn matching_connections(bucket: &Vec<WSData>, contact: usize, out: &mut Vec<usize>)
    ensures
        final(out)@ == old(out)@ + connections_for(bucket@, contact),
{
    let mut i: usize = 0;
    proof {
        reveal(Seq::filter);
        assert(old(out)@ + connections_for(bucket@.take(0), contact) =~= old(out)@);
    }
    while i < bucket.len()
        invariant
            i <= bucket.len(),
            out@ == old(out)@ + connections_for(bucket@.take(i as int), contact),
        decreases bucket.len() - i,
    {
        proof {
            reveal(Seq::filter);
            assert(bucket@.take(i + 1).drop_last() =~= bucket@.take(i as int));
        }
        let ghost before = connections_for(bucket@.take(i as int), contact);
        if bucket[i].user_id == contact {
            out.push(bucket[i].ws_id);
            assert(connections_for(bucket@.take(i + 1), contact) =~= before.push(bucket@[i as int].ws_id));
            assert(out@ =~= old(out)@ + connections_for(bucket@.take(i + 1), contact));
        }
        i += 1;
    }
    assert(bucket@.take(i as int) =~= bucket@);
}

impl ConnectionIndex {
    /// The entries of `owner`'s bucket; none where the user has no bucket.
    pub open spec fn bucket(&self, owner: usize) -> Seq<WSData> {
        if self@.contains_key(owner) {
            self@[owner]
        } else {
            Seq::empty()
        }
    }

    /// No bucket holds the same entry twice.
    pub open spec fn wf(&self) -> bool {
        buckets_without_repeats(self@)
    }

    /// An index without buckets.
    pub fn new() -> (index: ConnectionIndex)
        ensures
            index@ == Map::<usize, Seq<WSData>>::empty(),
            index.wf(),
    {
        let index = ConnectionIndex { buckets: HashMap::new() };
        assert(index@ =~= Map::<usize, Seq<WSData>>::empty());
        index
    }

    /// Whether `owner` has a bucket.
    pub fn has_bucket(&self, owner: usize) -> (present: bool)
        ensures
            present == self@.contains_key(owner),
    {
        self.buckets.contains_key(&owner)
    }

    /// A copy of `owner`'s bucket.
    pub fn entries(&self, owner: usize) -> (entries: Vec<WSData>)
        ensures
            entries@ == self.bucket(owner),
    {
        let mut entries: Vec<WSData> = Vec::new();
        match self.buckets.get(&owner) {
            Some(bucket) => {
                let mut i: usize = 0;
                while i < bucket.len()
                    invariant
                        i <= bucket.len(),
                        entries@ == bucket@.take(i as int),
                    decreases bucket.len() - i,
                {
                    entries.push(bucket[i]);
                    assert(bucket@.take(i + 1) =~= bucket@.take(i as int).push(bucket@[i as int]));
                    i += 1;
                }
                assert(bucket@.take(i as int) =~= bucket@);
            },
            None => {},
        }
        entries
    }

    /// Appends the entry `(contact_id, conn_id)` to `bucket_owner`'s bucket
    /// unless the bucket holds it already, and says whether it was appended.
    /// The bucket is created where the user had none.
    pub fn add_ref(&mut self, bucket_owner: usize, contact_id: usize, conn_id: usize) -> (added:
        bool)
        ensures
            added == !old(self).bucket(bucket_owner).contains(
                WSData { user_id: contact_id, ws_id: conn_id },
            ),
            final(self)@ == old(self)@.insert(
                bucket_owner,
                if added {
                    old(self).bucket(bucket_owner).push(
                        WSData { user_id: contact_id, ws_id: conn_id },
                    )
                } else {
                    old(self).bucket(bucket_owner)
                },
            ),
            old(self).wf() ==> final(self).wf(),
    {
        let entry = WSData::new(contact_id, conn_id);
        let mut bucket = match self.buckets.remove(&bucket_owner) {
            Some(bucket) => bucket,
            None => Vec::new(),
        };
        assert(bucket@ == old(self).bucket(bucket_owner));
        let present = holds_entry(&bucket, entry);
        if !present {
            bucket.push(entry);
        }
        let ghost after = bucket@;
        self.buckets.insert(bucket_owner, bucket);
        assert(self@ =~= old(self)@.insert(bucket_owner, after));
        assert(old(self).wf() ==> self.wf()) by {
            if old(self).wf() {
                assert(old(self)@.contains_key(bucket_owner)
                    ==> old(self)@[bucket_owner].no_duplicates());
                assert(after.no_duplicates());
                assert forall|owner: usize| #[trigger] self@.contains_key(owner)
                    implies self@[owner].no_duplicates() by {
                    if owner != bucket_owner {
                        assert(old(self)@.contains_key(owner));
                    }
                }
            }
        }
        !present
    }

    /// The connection that `bucket_owner` has open for the conversation with
    /// `contact_id`: that of the first such entry of the bucket.
    pub fn find_by_contact(&self, bucket_owner: usize, contact_id: usize) -> (found: Option<usize>)
        ensures
            found == first_connection(self.bucket(bucket_owner), contact_id),
    {
        match self.buckets.get(&bucket_owner) {
            Some(bucket) => first_connection_in(bucket, contact_id),
            None => None,
        }
    }

    /// Removes from every bucket the entries that go over `conn_id`. No
    /// bucket is created or dropped, and the other entries keep their order.
    pub fn remove_by_connection(&mut self, conn_id: usize)
        ensures
            final(self)@.dom() == old(self)@.dom(),
            forall|owner: usize| #[trigger]
                final(self)@.contains_key(owner) ==> final(self)@[owner] == without_connection(
                    old(self)@[owner],
                    conn_id,
                ),
            old(self).wf() ==> final(self).wf(),
    {
        let owners = self.owners();
        let mut i: usize = 0;
        while i < owners.len()
            invariant
                i <= owners.len(),
                owners@.to_set() == old(self)@.dom(),
                self@.dom() == old(self)@.dom(),
                forall|owner: usize| #[trigger]
                    self@.contains_key(owner) ==> self@[owner] == if owners@.take(
                        i as int,
                    ).contains(owner) {
                        without_connection(old(self)@[owner], conn_id)
                    } else {
                        old(self)@[owner]
                    },
                owners@.no_duplicates(),
            decreases owners.len() - i,
        {
            let owner = owners[i];
            let ghost before = self@;
            assert(owners@.to_set().contains(owner));
            assert(before.contains_key(owner));
            let ghost done = owners@.take(i as int);
            let ghost next = owners@.take(i + 1);
            proof {
                if done.contains(owner) {
                    let j = choose|j: int| 0 <= j < done.len() && done[j] == owner;
                    assert(owners@[j] == owners@[i as int]);
                    assert(false);
                }
            }
            let kept = match self.buckets.get(&owner) {
                Some(bucket) => purged(bucket, conn_id),
                None => Vec::new(),
            };
            let ghost kept_entries = kept@;
            self.buckets.insert(owner, kept);
            assert(self@ =~= before.insert(owner, kept_entries));
            assert(self@.dom() =~= old(self)@.dom());
            assert forall|other: usize| #[trigger] self@.contains_key(other) implies self@[other]
                == if next.contains(other) {
                without_connection(old(self)@[other], conn_id)
            } else {
                old(self)@[other]
            } by {
                assert(next =~= done.push(owner));
                assert(before.contains_key(other));
                if other == owner {
                    assert(next[i as int] == owner);
                } else {
                    if next.contains(other) {
                        let j = choose|j: int| 0 <= j < next.len() && next[j] == other;
                        assert(j < i);
                        assert(done[j] == other);
                    }
                    if done.contains(other) {
                        let j = choose|j: int| 0 <= j < done.len() && done[j] == other;
                        assert(next[j] == other);
                    }
                }
            }
            i += 1;
        }
        proof {
            assert(owners@.take(i as int) =~= owners@);
            assert forall|owner: usize| #[trigger] self@.contains_key(owner) implies self@[owner]
                == without_connection(old(self)@[owner], conn_id) by {
                assert(owners@.to_set().contains(owner));
                assert(owners@.contains(owner));
            }
            if old(self).wf() {
                assert forall|owner: usize| #[trigger] self@.contains_key(owner)
                    implies self@[owner].no_duplicates() by {
                    assert(old(self)@.contains_key(owner));
                    lemma_without_connection_no_duplicates(old(self)@[owner], conn_id);
                }
            }
        }
    }

    /// The connections that hear of a change to `user`'s profile: from every
    /// bucket but `user`'s own, those that carry the conversation with
    /// `user`. The buckets are visited in an order of the index's choosing,
    /// each once; within a bucket the connections come in bucket order.
    pub fn watchers(&self, user: usize) -> (conns: Vec<usize>)
        ensures
            exists|order: Seq<usize>| #[trigger]
                is_bucket_order(self@, order) && conns@ == fan_out(self@, order, user),
    {
        let owners = self.owners();
        let mut conns: Vec<usize> = Vec::new();
        let mut i: usize = 0;
        while i < owners.len()
            invariant
                i <= owners.len(),
                owners@.to_set() == self@.dom(),
                conns@ == fan_out(self@, owners@.take(i as int), user),
            decreases owners.len() - i,
        {
            let owner = owners[i];
            assert(owners@.take(i + 1).drop_last() =~= owners@.take(i as int));
            assert(owners@.take(i + 1).last() == owner);
            if owner != user {
                assert(owners@.to_set().contains(owner));
                match self.buckets.get(&owner) {
                    Some(bucket) => {
                        matching_connections(bucket, user, &mut conns);
                    },
                    None => {},
                }
            }
            i += 1;
        }
        assert(owners@.take(i as int) =~= owners@);
        assert(is_bucket_order(self@, owners@));
        conns
    }

    fn owners(&self) -> (keys: Vec<usize>)
        ensures
            keys@.no_duplicates(),
            keys@.to_set() == self@.dom(),
    {
        let mut keys: Vec<usize> = Vec::new();
        let ghost all: Seq<usize> = self.buckets.keys().remaining().unref();
        for k in it: self.buckets.keys()
            invariant
                it.seq().unref() == all,
                keys@ == all.take(it.index()),
        {
            keys.push(*k);
            assert(all.take(it.index() + 1) =~= all.take(it.index()).push(*k));
        }
        assert(keys@ =~= all);
        assert(self@.dom() =~= self.buckets@.dom());
        keys
    }
}

/// Dropping entries from a bucket brings in nothing new, and leaves no
/// repeats where there were none.
pub proof fn lemma_without_connection_no_duplicates(bucket: Seq<WSData>, conn_id: usize)
    ensures
        forall|entry: WSData| #[trigger]
            without_connection(bucket, conn_id).contains(entry) ==> bucket.contains(entry)
                && entry.ws_id != conn_id,
        bucket.no_duplicates() ==> without_connection(bucket, conn_id).no_duplicates(),
    decreases bucket.len(),
{
    reveal(Seq::filter);
    if bucket.len() > 0 {
        let rest = bucket.drop_last();
        let last = bucket.last();
        lemma_without_connection_no_duplicates(rest, conn_id);
        let kept = without_connection(rest, conn_id);
        assert forall|entry: WSData| #[trigger]
            without_connection(bucket, conn_id).contains(entry) implies bucket.contains(entry)
            && entry.ws_id != conn_id by {
            let j = choose|j: int|
                0 <= j < without_connection(bucket, conn_id).len() && without_connection(
                    bucket,
                    conn_id,
                )[j] == entry;
            if j < kept.len() {
                assert(kept[j] == entry);
                assert(kept.contains(entry));
                let k = choose|k: int| 0 <= k < rest.len() && rest[k] == entry;
                assert(bucket[k] == entry);
            } else {
                assert(entry == last);
                assert(bucket[bucket.len() - 1] == entry);
            }
        }
        if bucket.no_duplicates() {
            assert(rest.no_duplicates());
            if last.ws_id != conn_id {
                if kept.contains(last) {
                    let k = choose|k: int| 0 <= k < rest.len() && rest[k] == last;
                    assert(bucket[k] == bucket[bucket.len() - 1]);
                    assert(false);
                }
                assert(kept.push(last).no_duplicates());
            }
        }
    }
}

/// Purging a connection twice leaves what purging it once leaves.
pub proof fn lemma_without_connection_idempotent(bucket: Seq<WSData>, conn_id: usize)
    ensures
        without_connection(without_connection(bucket, conn_id), conn_id) == without_connection(
            bucket,
            conn_id,
        ),
    decreases bucket.len(),
{
    reveal(Seq::filter);
    if bucket.len() > 0 {
        let rest = bucket.drop_last();
        let last = bucket.last();
        lemma_without_connection_idempotent(rest, conn_id);
        let kept = without_connection(rest, conn_id);
        if last.ws_id != conn_id {
            assert(kept.push(last).drop_last() =~= kept);
        }
    }
}

/// A connection is among those of `bucket` for the conversation with
/// `contact` exactly if the bucket holds the entry that joins the two.
pub proof fn lemma_connections_for_members(bucket: Seq<WSData>, contact: usize, conn: usize)
    ensures
        connections_for(bucket, contact).contains(conn) <==> bucket.contains(
            WSData { user_id: contact, ws_id: conn },
        ),
    decreases bucket.len(),
{
    reveal(Seq::filter);
    let entry = WSData { user_id: contact, ws_id: conn };
    let found = connections_for(bucket, contact);
    if bucket.len() > 0 {
        let rest = bucket.drop_last();
        let last = bucket.last();
        let before = connections_for(rest, contact);
        lemma_connections_for_members(rest, contact, conn);
        if last.user_id == contact {
            assert(found =~= before.push(last.ws_id));
        } else {
            assert(found =~= before);
        }
        if found.contains(conn) {
            let j = choose|j: int| 0 <= j < found.len() && found[j] == conn;
            if j < before.len() {
                assert(before[j] == conn);
                assert(before.contains(conn));
                let k = choose|k: int| 0 <= k < rest.len() && rest[k] == entry;
                assert(bucket[k] == entry);
            } else {
                assert(bucket[bucket.len() - 1] == entry);
            }
        }
        if bucket.contains(entry) {
            let k = choose|k: int| 0 <= k < bucket.len() && bucket[k] == entry;
            if k < rest.len() {
                assert(rest[k] == entry);
                assert(rest.contains(entry));
                let j = choose|j: int| 0 <= j < before.len() && before[j] == conn;
                assert(found[j] == conn);
            } else {
                assert(found[found.len() - 1] == conn);
            }
        }
    } else {
        assert(found =~= Seq::<usize>::empty());
    }
}

/// Whether the bucket of `owner`, who is not `user`, holds an entry for the
/// conversation with `user` over `conn`.
pub open spec fn watches(
    buckets: Map<usize, Seq<WSData>>,
    owner: usize,
    user: usize,
    conn: usize,
) -> bool {
    owner != user && buckets[owner].contains(WSData { user_id: user, ws_id: conn })
}

proof fn lemma_fan_out_members(
    buckets: Map<usize, Seq<WSData>>,
    order: Seq<usize>,
    user: usize,
    conn: usize,
)
    ensures
        fan_out(buckets, order, user).contains(conn) <==> exists|k: int|
            0 <= k < order.len() && #[trigger] watches(buckets, order[k], user, conn),
    decreases order.len(),
{
    let all = fan_out(buckets, order, user);
    if order.len() > 0 {
        let owner = order.last();
        let rest = order.drop_last();
        let before = fan_out(buckets, rest, user);
        let here = connections_for(buckets[owner], user);
        lemma_fan_out_members(buckets, rest, user, conn);
        lemma_connections_for_members(buckets[owner], user, conn);
        if all.contains(conn) {
            let j = choose|j: int| 0 <= j < all.len() && all[j] == conn;
            if j < before.len() {
                assert(before[j] == conn);
                assert(before.contains(conn));
                let k = choose|k: int|
                    0 <= k < rest.len() && #[trigger] watches(buckets, rest[k], user, conn);
                assert(watches(buckets, order[k], user, conn));
            } else {
                assert(owner != user);
                assert(here[j - before.len()] == conn);
                assert(here.contains(conn));
                assert(watches(buckets, order[order.len() - 1], user, conn));
            }
        }
        if exists|k: int| 0 <= k < order.len() && #[trigger] watches(buckets, order[k], user, conn) {
            let k = choose|k: int|
                0 <= k < order.len() && #[trigger] watches(buckets, order[k], user, conn);
            if k < rest.len() {
                assert(watches(buckets, rest[k], user, conn));
                assert(before.contains(conn));
                let j = choose|j: int| 0 <= j < before.len() && before[j] == conn;
                assert(all[j] == conn);
            } else {
                assert(here.contains(conn));
                let j = choose|j: int| 0 <= j < here.len() && here[j] == conn;
                assert(all[before.len() + j] == conn);
            }
        }
    }
}

/// A profile change reaches the buckets that refer to the user, and no
/// others: whatever the order in which the buckets are visited, a connection
/// is among those that hear of a change to `user` exactly if some bucket
/// other than `user`'s own holds an entry for the conversation with `user`
/// over that connection.
pub proof fn lemma_fan_out_reaches_the_watchers(
    buckets: Map<usize, Seq<WSData>>,
    order: Seq<usize>,
    user: usize,
    conn: usize,
)
    requires
        is_bucket_order(buckets, order),
    ensures
        fan_out(buckets, order, user).contains(conn) <==> exists|owner: usize|
            buckets.contains_key(owner) && #[trigger] watches(buckets, owner, user, conn),
{
    lemma_fan_out_members(buckets, order, user, conn);
    if fan_out(buckets, order, user).contains(conn) {
        let k = choose|k: int|
            0 <= k < order.len() && #[trigger] watches(buckets, order[k], user, conn);
        assert(order.to_set().contains(order[k]));
        assert(buckets.contains_key(order[k]));
    }
    if exists|owner: usize|
        buckets.contains_key(owner) && #[trigger] watches(buckets, owner, user, conn) {
        let owner = choose|owner: usize|
            buckets.contains_key(owner) && #[trigger] watches(buckets, owner, user, conn);
        assert(order.to_set().contains(owner));
        assert(order.contains(owner));
        let k = choose|k: int| 0 <= k < order.len() && order[k] == owner;
        assert(watches(buckets, order[k], user, conn));
    }
}

} // verus!
