//! The relay core: one owner of the session registry and the connection
//! index, and the handlers that keep the two consistent.

use crate::allocator::{
    decide, draw_candidate, gen_usize, grants, is_user_id, thread_generator, Allocation,
};
use crate::identity::{IDInfo, IDInfoView, WSData};
use crate::index::{
    buckets_without_repeats, fan_out, is_bucket_order, lemma_fan_out_reaches_the_watchers,
    lemma_without_connection_no_duplicates, watches, without_connection, ConnectionIndex,
};
use crate::protocol::{
    decimal_text, framed, get_user_data_command, get_user_data_frame, image_updated_command,
    image_updated_frame, message_frame, name_updated_command, name_updated_frame,
    new_user_message_frame, update_user_id_command, update_user_id_frame, Outbound, OutboundView,
};
use crate::registry::SessionRegistry;
use crate::router::{delivery_of, route_of, Route};
use rand::rngs::ThreadRng;
use vstd::prelude::*;

verus! {

/// Why a request was dropped.
#[derive(Clone, Copy, Debug, PartialEq, Eq, Structural)]
pub enum RelayError {
    /// What the request refers to does not exist: the user has no stored
    /// profile, or the receiver has no connection that could take the
    /// message.
    NotFound,
    /// The connection that sent the request has no identity on record.
    UnidentifiedConnection,
}

/// What a profile change leads to: the user whose stored profile is to be
/// changed, and the frames that tell the user's contacts.
#[derive(Debug)]
pub struct ProfileUpdate {
    pub user_id: usize,
    pub frames: Vec<Outbound>,
}

/// The mathematical values of a list of frames.
pub open spec fn outbound_views(frames: Seq<Outbound>) -> Seq<OutboundView> {
    frames.map_values(|frame: Outbound| frame@)
}

/// One frame with the text `text` for each connection of `conns`, in order.
pub open spec fn broadcast_frames(conns: Seq<usize>, text: Seq<char>) -> Seq<OutboundView> {
    conns.map_values(|conn: usize| OutboundView { ws_id: conn, frame: text })
}

/// `identity` with its user id replaced by `user_id`.
pub open spec fn with_user_id(identity: IDInfoView, user_id: usize) -> IDInfoView {
    IDInfoView { user_id, ..identity }
}

/// The identity of a connection that has not said who it is.
pub open spec fn anonymous() -> IDInfoView {
    IDInfoView { user_id: 0, owner_id: 0, user_token: None }
}

/// `bucket` with `entry` appended unless it is there already.
pub open spec fn with_entry(bucket: Seq<WSData>, entry: WSData) -> Seq<WSData> {
    if bucket.contains(entry) {
        bucket
    } else {
        bucket.push(entry)
    }
}

/// Every entry of every bucket of `buckets` goes over a connection that
/// `sessions` has on record.
pub open spec fn entries_on_record(
    buckets: Map<usize, Seq<WSData>>,
    sessions: Map<usize, IDInfoView>,
) -> bool {
    forall|owner: usize, i: int|
        #![trigger buckets[owner][i]]
        buckets.contains_key(owner) && 0 <= i < buckets[owner].len() ==> sessions.contains_key(
            buckets[owner][i].ws_id,
        )
}

/// The relay core.
pub struct ChatServer {
    sessions: SessionRegistry,
    user_session: ConnectionIndex,
    rng: ThreadRng,
}

impl ChatServer {
    /// The session registry: the identity on record for each connection.
    pub closed spec fn registry(&self) -> Map<usize, IDInfoView> {
        self.sessions@
    }

    /// The connection index: each user's bucket.
    pub closed spec fn index(&self) -> Map<usize, Seq<WSData>> {
        self.user_session@
    }

    /// The entries of `owner`'s bucket; none where the user has no bucket.
    pub open spec fn bucket(&self, owner: usize) -> Seq<WSData> {
        if self.index().contains_key(owner) {
            self.index()[owner]
        } else {
            Seq::empty()
        }
    }

    /// The state is consistent: no bucket holds an entry twice, and every
    /// entry of every bucket goes over a connection that is on record.
    pub open spec fn wf(&self) -> bool {
        &&& buckets_without_repeats(self.index())
        &&& entries_on_record(self.index(), self.registry())
    }

    /// A relay without connections.
    pub fn new() -> (server: ChatServer)
        ensures
            server.registry() == Map::<usize, IDInfoView>::empty(),
            server.index() == Map::<usize, Seq<WSData>>::empty(),
            server.wf(),
    {
        ChatServer {
            sessions: SessionRegistry::new(),
            user_session: ConnectionIndex::new(),
            rng: thread_generator(),
        }
    }

    /// Records `identity` for `ws_id`, replacing what was on record.
    pub fn register(&mut self, ws_id: usize, identity: IDInfo)
        requires
            old(self).wf(),
        ensures
            final(self).wf(),
            final(self).registry() == old(self).registry().insert(ws_id, identity@),
            final(self).index() == old(self).index(),
    {
        self.sessions.register(ws_id, identity);
    }

    /// Replaces the identity of `ws_id` if the connection is on record, and
    /// says whether it was.
    pub fn update_identity(&mut self, ws_id: usize, identity: IDInfo) -> (updated: bool)
        requires
            old(self).wf(),
        ensures
            final(self).wf(),
            updated == old(self).registry().contains_key(ws_id),
            updated ==> final(self).registry() == old(self).registry().insert(ws_id, identity@),
            !updated ==> final(self).registry() == old(self).registry(),
            final(self).index() == old(self).index(),
    {
        self.sessions.update_identity(ws_id, identity)
    }

    /// The identity on record for `ws_id`, if any.
    pub fn lookup(&self, ws_id: usize) -> (found: Option<IDInfo>)
        ensures
            found is Some <==> self.registry().contains_key(ws_id),
            found is Some ==> found->0@ == self.registry()[ws_id],
    {
        self.sessions.lookup(ws_id)
    }

    /// A copy of `owner`'s bucket.
    pub fn connections_of(&self, owner: usize) -> (entries: Vec<WSData>)
        ensures
            entries@ == self.bucket(owner),
    {
        self.user_session.entries(owner)
    }

    /// Forgets the connection `ws_id`: its identity leaves the registry, and
    /// every entry that goes over it leaves its bucket. Returns the identity
    /// that was on record. A connection that is not on record leaves the
    /// registry as it is.
    pub fn on_disconnect(&mut self, ws_id: usize) -> (removed: Option<IDInfo>)
        requires
            old(self).wf(),
        ensures
            final(self).wf(),
            final(self).registry() == old(self).registry().remove(ws_id),
            !final(self).registry().contains_key(ws_id),
            removed is Some <==> old(self).registry().contains_key(ws_id),
            removed is Some ==> removed->0@ == old(self).registry()[ws_id],
            final(self).index().dom() == old(self).index().dom(),
            forall|owner: usize| #[trigger]
                final(self).index().contains_key(owner) ==> final(self).index()[owner]
                    == without_connection(old(self).index()[owner], ws_id),
            forall|owner: usize, i: int|
                final(self).index().contains_key(owner) && 0 <= i < final(self).index()[owner].len()
                    ==> (#[trigger] final(self).index()[owner][i]).ws_id != ws_id,
    {
        let removed = self.sessions.remove(ws_id);
        assert(old(self).user_session.wf());
        self.user_session.remove_by_connection(ws_id);
        proof {
            assert forall|owner: usize, i: int|
                self.index().contains_key(owner) && 0 <= i < self.index()[owner].len() implies (
            #[trigger] self.index()[owner][i]).ws_id != ws_id && self.registry().contains_key(
                self.index()[owner][i].ws_id,
            ) by {
                let before = old(self).index()[owner];
                let entry = self.index()[owner][i];
                lemma_without_connection_no_duplicates(before, ws_id);
                assert(old(self).index().contains_key(owner));
                assert(without_connection(before, ws_id).contains(entry));
                let j = choose|j: int| 0 <= j < before.len() && before[j] == entry;
                assert(old(self).registry().contains_key(before[j].ws_id));
            }
        }
        removed
    }

    /// Proposes a first candidate for the id of a new connection.
    pub fn propose_connection_id(&mut self) -> (candidate: usize)
        ensures
            final(self).registry() == old(self).registry(),
            final(self).index() == old(self).index(),
    {
        gen_usize(&mut self.rng)
    }

    /// Opens the connection `candidate` if no connection on record carries
    /// that id: the connection goes on record with an anonymous identity, and
    /// the candidate is its id. Where the id is taken nothing changes, and the
    /// relay proposes another.
    pub fn connect(&mut self, candidate: usize) -> (round: Allocation)
        requires
            old(self).wf(),
        ensures
            final(self).wf(),
            final(self).index() == old(self).index(),
            match grants(candidate, old(self).registry().contains_key(candidate)) {
                Some(id) => round == Allocation::Allocated(id) && final(self).registry() == old(
                    self,
                ).registry().insert(id, anonymous()),
                None => round is Probe && final(self).registry() == old(self).registry(),
            },
    {
        let taken = self.sessions.contains(candidate);
        let redraw = if taken {
            gen_usize(&mut self.rng)
        } else {
            self.sessions.register(candidate, IDInfo::anonymous());
            candidate
        };
        decide(candidate, taken, redraw)
    }

    /// Proposes a first candidate for a new user's id.
    pub fn propose_user_id(&mut self) -> (candidate: usize)
        ensures
            is_user_id(candidate),
            final(self).registry() == old(self).registry(),
            final(self).index() == old(self).index(),
    {
        draw_candidate(&mut self.rng)
    }

    /// Decides on `candidate` once the store has said whether a profile
    /// carries that id: a free candidate is the new id, and for a taken one
    /// the relay proposes another.
    pub fn allocate_id(&mut self, candidate: usize, taken: bool) -> (round: Allocation)
        ensures
            match grants(candidate, taken) {
                Some(id) => round == Allocation::Allocated(id),
                None => round is Probe && is_user_id(round->Probe_0),
            },
            final(self).registry() == old(self).registry(),
            final(self).index() == old(self).index(),
    {
        let redraw = if taken {
            draw_candidate(&mut self.rng)
        } else {
            candidate
        };
        decide(candidate, taken, redraw)
    }

    /// Makes `ws_id` the connection of the new user `user_id`, an id that
    /// was allocated for the user: the id replaces the user id on record for
    /// the connection, the user's bucket gets the connection as its
    /// introduction channel, and the connection is told the id. A connection
    /// that is not on record is turned away, and nothing changes.
    pub fn create_new_user(&mut self, ws_id: usize, user_id: usize) -> (outcome: Result<
        Outbound,
        RelayError,
    >)
        requires
            old(self).wf(),
            is_user_id(user_id),
        ensures
            final(self).wf(),
            old(self).registry().contains_key(ws_id) ==> {
                &&& outcome is Ok
                &&& outcome->Ok_0@ == (OutboundView {
                    ws_id,
                    frame: framed(update_user_id_command(), decimal_text(user_id as nat)),
                })
                &&& final(self).registry() == old(self).registry().insert(
                    ws_id,
                    with_user_id(old(self).registry()[ws_id], user_id),
                )
                &&& final(self).index() == old(self).index().insert(
                    user_id,
                    with_entry(old(self).bucket(user_id), WSData { user_id, ws_id }),
                )
            },
            !old(self).registry().contains_key(ws_id) ==> {
                &&& outcome == Err::<Outbound, RelayError>(RelayError::UnidentifiedConnection)
                &&& final(self).registry() == old(self).registry()
                &&& final(self).index() == old(self).index()
            },
    {
        match self.sessions.lookup(ws_id) {
            Some(known) => {
                let identity = IDInfo {
                    user_id,
                    owner_id: known.owner_id,
                    user_token: known.user_token,
                };
                assert(identity@ == with_user_id(old(self).registry()[ws_id], user_id));
                self.sessions.register(ws_id, identity);
                self.add_entry(user_id, user_id, ws_id);
                Ok(Outbound { ws_id, frame: update_user_id_frame(user_id) })
            },
            None => Err(RelayError::UnidentifiedConnection),
        }
    }

    /// Takes up a connection again for a user who holds an id already.
    /// `known` says whether the store holds a profile with the id
    /// `id_data.user_id`. If it does and the connection is on record,
    /// `id_data` replaces what is on record for `ws_id`, and the user's bucket
    /// gets the connection as its introduction channel unless it holds that
    /// entry already. Otherwise nothing changes: a user without a profile is
    /// not found, and a connection that is not on record is turned away.
    pub fn reconnect_user(&mut self, ws_id: usize, id_data: IDInfo, known: bool) -> (outcome:
        Result<(), RelayError>)
        requires
            old(self).wf(),
        ensures
            final(self).wf(),
            known && old(self).registry().contains_key(ws_id) ==> {
                &&& outcome == Ok::<(), RelayError>(())
                &&& final(self).registry() == old(self).registry().insert(ws_id, id_data@)
                &&& final(self).index() == old(self).index().insert(
                    id_data.user_id,
                    with_entry(
                        old(self).bucket(id_data.user_id),
                        WSData { user_id: id_data.user_id, ws_id },
                    ),
                )
            },
            !known ==> outcome == Err::<(), RelayError>(RelayError::NotFound),
            known && !old(self).registry().contains_key(ws_id) ==> outcome == Err::<
                (),
                RelayError,
            >(RelayError::UnidentifiedConnection),
            !(known && old(self).registry().contains_key(ws_id)) ==> {
                &&& final(self).registry() == old(self).registry()
                &&& final(self).index() == old(self).index()
            },
    {
        if !known {
            return Err(RelayError::NotFound);
        }
        let user_id = id_data.user_id;
        if self.sessions.update_identity(ws_id, id_data) {
            self.add_entry(user_id, user_id, ws_id);
            Ok(())
        } else {
            Err(RelayError::UnidentifiedConnection)
        }
    }

    /// Records that `ws_id` now carries the conversation between the client
    /// `id_data.owner_id` and the user `id_data.user_id`: `id_data` replaces
    /// what is on record for the connection, and the owner's bucket gets the
    /// entry unless it holds it already. A connection that is not on record is
    /// turned away, and nothing changes.
    pub fn update_ids(&mut self, ws_id: usize, id_data: IDInfo) -> (outcome: Result<
        (),
        RelayError,
    >)
        requires
            old(self).wf(),
        ensures
            final(self).wf(),
            old(self).registry().contains_key(ws_id) ==> {
                &&& outcome == Ok::<(), RelayError>(())
                &&& final(self).registry() == old(self).registry().insert(ws_id, id_data@)
                &&& final(self).index() == old(self).index().insert(
                    id_data.owner_id,
                    with_entry(
                        old(self).bucket(id_data.owner_id),
                        WSData { user_id: id_data.user_id, ws_id },
                    ),
                )
            },
            !old(self).registry().contains_key(ws_id) ==> {
                &&& outcome == Err::<(), RelayError>(RelayError::UnidentifiedConnection)
                &&& final(self).registry() == old(self).registry()
                &&& final(self).index() == old(self).index()
            },
    {
        let user_id = id_data.user_id;
        let owner_id = id_data.owner_id;
        if self.sessions.update_identity(ws_id, id_data) {
            self.add_entry(owner_id, user_id, ws_id);
            Ok(())
        } else {
            Err(RelayError::UnidentifiedConnection)
        }
    }

    fn add_entry(&mut self, bucket_owner: usize, contact_id: usize, conn_id: usize)
        requires
            old(self).registry().contains_key(conn_id),
            old(self).wf(),
        ensures
            final(self).wf(),
            final(self).registry() == old(self).registry(),
            final(self).index() == old(self).index().insert(
                bucket_owner,
                with_entry(
                    old(self).bucket(bucket_owner),
                    WSData { user_id: contact_id, ws_id: conn_id },
                ),
            ),
    {
        assert(old(self).user_session.wf());
        self.user_session.add_ref(bucket_owner, contact_id, conn_id);
        proof {
            let entry = WSData { user_id: contact_id, ws_id: conn_id };
            let grown = with_entry(old(self).bucket(bucket_owner), entry);
            assert forall|owner: usize, i: int|
                #![trigger self.index()[owner][i]]
                self.index().contains_key(owner) && 0 <= i < self.index()[owner].len()
                implies self.registry().contains_key(self.index()[owner][i].ws_id) by {
                if owner == bucket_owner {
                    if i < old(self).bucket(bucket_owner).len() {
                        assert(old(self).index().contains_key(owner));
                        assert(grown[i] == old(self).index()[owner][i]);
                    }
                } else {
                    assert(old(self).index().contains_key(owner));
                    assert(self.index()[owner][i] == old(self).index()[owner][i]);
                }
            }
        }
    }

    /// The frame that brings the profile `profile` to `ws_id`, which asked
    /// for it. `profile` is what the store holds for the user asked about, if
    /// anything.
    pub fn send_user_data(&self, ws_id: usize, profile: Option<&str>) -> (outcome: Result<
        Outbound,
        RelayError,
    >)
        ensures
            match outcome {
                Ok(reply) => profile is Some && self.registry().contains_key(ws_id) && reply@ == (
                OutboundView { ws_id, frame: framed(get_user_data_command(), profile->0@) }),
                Err(RelayError::NotFound) => profile is None,
                Err(RelayError::UnidentifiedConnection) => profile is Some
                    && !self.registry().contains_key(ws_id),
            },
    {
        match profile {
            None => Err(RelayError::NotFound),
            Some(profile) => {
                if self.sessions.contains(ws_id) {
                    Ok(Outbound { ws_id, frame: get_user_data_frame(profile) })
                } else {
                    Err(RelayError::UnidentifiedConnection)
                }
            },
        }
    }

    /// The route of a message from `sender_id` to `receiver_id`.
    pub fn route_message(&self, sender_id: usize, receiver_id: usize) -> (route: Route)
        ensures
            route == route_of(self.bucket(receiver_id), sender_id, receiver_id),
    {
        crate::router::route_message(&self.user_session, sender_id, receiver_id)
    }

    /// The frame that carries `message` from `from_user` to `to_user`, and
    /// the connection it goes to. `introduction` is the sender's stored
    /// profile bundled with the message into one payload, if the sender has a
    /// profile; it is used only where the message has to introduce the sender.
    pub fn send_message(
        &self,
        message: &str,
        from_user: usize,
        to_user: usize,
        introduction: Option<&str>,
    ) -> (outcome: Result<Outbound, RelayError>)
        requires
            self.wf(),
        ensures
            match delivery_of(
                route_of(self.bucket(to_user), from_user, to_user),
                message@,
                match introduction {
                    Some(payload) => Some(payload@),
                    None => None,
                },
            ) {
                Some(delivery) => outcome is Ok && outcome->Ok_0@ == delivery,
                None => outcome == Err::<Outbound, RelayError>(RelayError::NotFound),
            },
            outcome is Ok ==> self.registry().contains_key(outcome->Ok_0.ws_id),
    {
        let route = self.route_message(from_user, to_user);
        proof {
            let bucket = self.bucket(to_user);
            crate::router::lemma_route_stays_in_bucket(bucket, from_user, to_user);
            match route {
                Route::Direct(conn) => {
                    let entry = WSData { user_id: from_user, ws_id: conn };
                    let i = choose|i: int| 0 <= i < bucket.len() && bucket[i] == entry;
                    assert(self.index()[to_user][i].ws_id == conn);
                },
                Route::Introduce(conn) => {
                    let entry = WSData { user_id: to_user, ws_id: conn };
                    let i = choose|i: int| 0 <= i < bucket.len() && bucket[i] == entry;
                    assert(self.index()[to_user][i].ws_id == conn);
                },
                Route::Dropped => {},
            }
        }
        match route {
            Route::Direct(conn) => Ok(Outbound { ws_id: conn, frame: message_frame(message) }),
            Route::Introduce(conn) => match introduction {
                Some(payload) => Ok(
                    Outbound { ws_id: conn, frame: new_user_message_frame(payload) },
                ),
                None => Err(RelayError::NotFound),
            },
            Route::Dropped => Err(RelayError::NotFound),
        }
    }

    /// Tells the contacts of the user behind `ws_id` that the user is now
    /// called `new_name`.
    ///
    /// The frames go to every connection that carries a conversation with the
    /// user in a bucket other than the user's own, one frame each: the buckets
    /// in an order of the relay's choosing, the connections of a bucket in
    /// bucket order. A connection without an identity on record is turned
    /// away.
    pub fn user_name_update(&self, ws_id: usize, new_name: &str) -> (outcome: Result<
        ProfileUpdate,
        RelayError,
    >)
        requires
            self.wf(),
        ensures
            match outcome {
                Ok(update) => {
                    &&& self.registry().contains_key(ws_id)
                    &&& update.user_id == self.registry()[ws_id].user_id
                    &&& exists|order: Seq<usize>| #[trigger]
                        is_bucket_order(self.index(), order) && outbound_views(update.frames@)
                            == broadcast_frames(
                            fan_out(self.index(), order, update.user_id),
                            framed(name_updated_command(), new_name@),
                        )
                    &&& forall|i: int|
                        0 <= i < update.frames.len() ==> self.registry().contains_key(
                            (#[trigger] update.frames[i]).ws_id,
                        )
                },
                Err(error) => error == RelayError::UnidentifiedConnection
                    && !self.registry().contains_key(ws_id),
            },
    {
        match self.sessions.user_of(ws_id) {
            None => Err(RelayError::UnidentifiedConnection),
            Some(user_id) => {
                let text = name_updated_frame(new_name);
                let frames = self.broadcast(user_id, &text);
                Ok(ProfileUpdate { user_id, frames })
            },
        }
    }

    /// Tells the contacts of the user behind `ws_id` that the user's image is
    /// now at `new_link`. The frames go where those of a name change go.
    pub fn image_link_update(&self, ws_id: usize, new_link: &str) -> (outcome: Result<
        ProfileUpdate,
        RelayError,
    >)
        requires
            self.wf(),
        ensures
            match outcome {
                Ok(update) => {
                    &&& self.registry().contains_key(ws_id)
                    &&& update.user_id == self.registry()[ws_id].user_id
                    &&& exists|order: Seq<usize>| #[trigger]
                        is_bucket_order(self.index(), order) && outbound_views(update.frames@)
                            == broadcast_frames(
                            fan_out(self.index(), order, update.user_id),
                            framed(image_updated_command(), new_link@),
                        )
                    &&& forall|i: int|
                        0 <= i < update.frames.len() ==> self.registry().contains_key(
                            (#[trigger] update.frames[i]).ws_id,
                        )
                },
                Err(error) => error == RelayError::UnidentifiedConnection
                    && !self.registry().contains_key(ws_id),
            },
    {
        match self.sessions.user_of(ws_id) {
            None => Err(RelayError::UnidentifiedConnection),
            Some(user_id) => {
                let text = image_updated_frame(new_link);
                let frames = self.broadcast(user_id, &text);
                Ok(ProfileUpdate { user_id, frames })
            },
        }
    }

    fn broadcast(&self, user_id: usize, text: &String) -> (frames: Vec<Outbound>)
        requires
            self.wf(),
        ensures
            exists|order: Seq<usize>| #[trigger]
                is_bucket_order(self.index(), order) && outbound_views(frames@) == broadcast_frames(
                    fan_out(self.index(), order, user_id),
                    text@,
                ),
            forall|i: int|
                0 <= i < frames.len() ==> self.registry().contains_key((#[trigger] frames[i]).ws_id),
    {
        let conns = self.user_session.watchers(user_id);
        let ghost order = choose|order: Seq<usize>| #[trigger]
            is_bucket_order(self.index(), order) && conns@ == fan_out(self.index(), order, user_id);
        let mut frames: Vec<Outbound> = Vec::new();
        let mut i: usize = 0;
        assert(outbound_views(frames@) =~= broadcast_frames(conns@.take(0), text@));
        while i < conns.len()
            invariant
                i <= conns.len(),
                outbound_views(frames@) == broadcast_frames(conns@.take(i as int), text@),
            decreases conns.len() - i,
        {
            let ghost before = frames@;
            frames.push(Outbound { ws_id: conns[i], frame: text.clone() });
            assert(outbound_views(frames@) =~= outbound_views(before).push(
                OutboundView { ws_id: conns@[i as int], frame: text@ },
            ));
            assert(broadcast_frames(conns@.take(i + 1), text@) =~= broadcast_frames(
                conns@.take(i as int),
                text@,
            ).push(OutboundView { ws_id: conns@[i as int], frame: text@ }));
            i += 1;
        }
        assert(conns@.take(i as int) =~= conns@);
        assert(is_bucket_order(self.index(), order) && outbound_views(frames@) == broadcast_frames(
            fan_out(self.index(), order, user_id),
            text@,
        ));
        assert forall|i: int| 0 <= i < frames.len() implies self.registry().contains_key(
            (#[trigger] frames[i]).ws_id,
        ) by {
            let conn = conns@[i];
            assert(outbound_views(frames@)[i].ws_id == conn);
            assert(conns@.contains(conn));
            lemma_fan_out_reaches_the_watchers(self.index(), order, user_id, conn);
            let owner = choose|owner: usize|
                self.index().contains_key(owner) && #[trigger] watches(
                    self.index(),
                    owner,
                    user_id,
                    conn,
                );
            let entry = WSData { user_id, ws_id: conn };
            let k = choose|k: int|
                0 <= k < self.index()[owner].len() && self.index()[owner][k] == entry;
            assert(self.index()[owner][k].ws_id == conn);
        }
        frames
    }
}

} // verus!
