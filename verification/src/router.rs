//! Where a chat message goes.

use crate::identity::WSData;
use crate::index::{first_connection, ConnectionIndex};
use crate::protocol::{framed, message_command, new_user_message_command, OutboundView};
use vstd::prelude::*;

verus! {

/// The path a message takes to its receiver.
#[derive(Clone, Copy, Debug, PartialEq, Eq, Structural)]
pub enum Route {
    /// The receiver has a connection open for the conversation with the
    /// sender: the message goes there as it is.
    Direct(usize),
    /// The receiver has never met the sender: the message goes to the
    /// receiver's introduction channel, together with the sender's profile.
    Introduce(usize),
    /// The receiver has neither: the message is dropped.
    Dropped,
}

/// The route from `sender` into `bucket`, the receiver's bucket: the first
/// connection for the conversation with the sender; failing that, the first
/// one that the receiver has to itself; failing that, none.
pub open spec fn route_of(bucket: Seq<WSData>, sender: usize, receiver: usize) -> Route {
    match first_connection(bucket, sender) {
        Some(conn) => Route::Direct(conn),
        None => match first_connection(bucket, receiver) {
            Some(conn) => Route::Introduce(conn),
            None => Route::Dropped,
        },
    }
}

/// The frame that a message with body `content` gives rise to on `route`.
/// `introduction` is the payload that introduces the sender: the sender's
/// stored profile bundled with the message, if the sender has a profile. A
/// message to be introduced is dropped where there is none.
pub open spec fn delivery_of(
    route: Route,
    content: Seq<char>,
    introduction: Option<Seq<char>>,
) -> Option<OutboundView> {
    match route {
        Route::Direct(conn) => Some(
            OutboundView { ws_id: conn, frame: framed(message_command(), content) },
        ),
        Route::Introduce(conn) => match introduction {
            Some(payload) => Some(
                OutboundView { ws_id: conn, frame: framed(new_user_message_command(), payload) },
            ),
            None => None,
        },
        Route::Dropped => None,
    }
}

/// Finds the route of a message from `sender_id` to `receiver_id`.
pub fn route_message(index: &ConnectionIndex, sender_id: usize, receiver_id: usize) -> (route:
    Route)
    ensures
        route == route_of(index.bucket(receiver_id), sender_id, receiver_id),
{
    match index.find_by_contact(receiver_id, sender_id) {
        Some(conn) => Route::Direct(conn),
        None => match index.find_by_contact(receiver_id, receiver_id) {
            Some(conn) => Route::Introduce(conn),
            None => Route::Dropped,
        },
    }
}

/// What a search of a bucket finds is in the bucket: a connection that is
/// found belongs to an entry for that contact, which no entry for the contact
/// precedes, and nothing is found only where the bucket has no entry for the
/// contact.
pub proof fn lemma_first_connection(bucket: Seq<WSData>, contact: usize)
    ensures
        match first_connection(bucket, contact) {
            Some(conn) => exists|i: int|
                0 <= i < bucket.len() && #[trigger] bucket[i] == (WSData {
                    user_id: contact,
                    ws_id: conn,
                }) && forall|j: int| 0 <= j < i ==> (#[trigger] bucket[j]).user_id != contact,
            None => forall|i: int| 0 <= i < bucket.len() ==> (#[trigger] bucket[i]).user_id != contact,
        },
    decreases bucket.len(),
{
    if bucket.len() > 0 && bucket[0].user_id != contact {
        let rest = bucket.drop_first();
        lemma_first_connection(rest, contact);
        match first_connection(rest, contact) {
            Some(conn) => {
                let i = choose|i: int|
                    0 <= i < rest.len() && #[trigger] rest[i] == (WSData {
                        user_id: contact,
                        ws_id: conn,
                    }) && forall|j: int| 0 <= j < i ==> (#[trigger] rest[j]).user_id != contact;
                assert(bucket[i + 1] == rest[i]);
                assert forall|j: int| 0 <= j < i + 1 implies (#[trigger] bucket[j]).user_id
                    != contact by {
                    if j > 0 {
                        assert(bucket[j] == rest[j - 1]);
                    }
                }
            },
            None => {
                assert forall|i: int| 0 <= i < bucket.len() implies (#[trigger] bucket[i]).user_id
                    != contact by {
                    if i > 0 {
                        assert(bucket[i] == rest[i - 1]);
                    }
                }
            },
        }
    } else if bucket.len() > 0 {
        assert(bucket[0] == (WSData { user_id: contact, ws_id: bucket[0].ws_id }));
    }
}

/// A message that is not dropped goes over a connection of the receiver's
/// bucket.
pub proof fn lemma_route_stays_in_bucket(bucket: Seq<WSData>, sender: usize, receiver: usize)
    ensures
        match route_of(bucket, sender, receiver) {
            Route::Direct(conn) => bucket.contains(WSData { user_id: sender, ws_id: conn }),
            Route::Introduce(conn) => bucket.contains(WSData { user_id: receiver, ws_id: conn }),
            Route::Dropped => true,
        },
{
    lemma_first_connection(bucket, sender);
    lemma_first_connection(bucket, receiver);
}

/// Whether `bucket` has an entry for the conversation with `contact`.
pub open spec fn has_contact(bucket: Seq<WSData>, contact: usize) -> bool {
    exists|i: int| 0 <= i < bucket.len() && (#[trigger] bucket[i]).user_id == contact
}

/// A message from a contact goes the direct way: where the receiver's bucket
/// has an entry for the sender, the message is delivered as one `/message`
/// frame with its body, over a connection that the bucket has for the sender,
/// whether or not an introduction is at hand. Where `conn` is the only
/// connection that the bucket has for the sender, it is that one.
pub proof fn lemma_contact_gets_message(
    bucket: Seq<WSData>,
    sender: usize,
    receiver: usize,
    conn: usize,
    content: Seq<char>,
    introduction: Option<Seq<char>>,
)
    requires
        bucket.contains(WSData { user_id: sender, ws_id: conn }),
    ensures
        delivery_of(route_of(bucket, sender, receiver), content, introduction) matches Some(
            delivery,
        )
            && delivery.frame == framed(message_command(), content) && bucket.contains(
            WSData { user_id: sender, ws_id: delivery.ws_id },
        ) && ((forall|i: int|
            0 <= i < bucket.len() && (#[trigger] bucket[i]).user_id == sender ==> bucket[i].ws_id
                == conn) ==> delivery.ws_id == conn),
{
    lemma_first_connection(bucket, sender);
    let entry = WSData { user_id: sender, ws_id: conn };
    let i = choose|i: int| 0 <= i < bucket.len() && bucket[i] == entry;
    assert(bucket[i].user_id == sender);
    lemma_route_stays_in_bucket(bucket, sender, receiver);
    let found = first_connection(bucket, sender)->0;
    let k = choose|k: int|
        0 <= k < bucket.len() && bucket[k] == (WSData { user_id: sender, ws_id: found });
    assert(bucket[k].user_id == sender);
}

/// A message from a stranger introduces the sender: where the receiver's
/// bucket has no entry for the sender but has the receiver's own entry, and
/// the sender has a stored profile, the message is delivered as one
/// `/new-user-message` frame that carries the introduction, over a connection
/// that the receiver has to itself. Where `conn` is the only such connection,
/// it is that one.
pub proof fn lemma_stranger_gets_introduced(
    bucket: Seq<WSData>,
    sender: usize,
    receiver: usize,
    conn: usize,
    content: Seq<char>,
    introduction: Seq<char>,
)
    requires
        !has_contact(bucket, sender),
        bucket.contains(WSData { user_id: receiver, ws_id: conn }),
    ensures
        delivery_of(route_of(bucket, sender, receiver), content, Some(introduction)) matches Some(
            delivery,
        ) && delivery.frame == framed(new_user_message_command(), introduction)
            && bucket.contains(WSData { user_id: receiver, ws_id: delivery.ws_id }) && ((forall|
            i: int,
        |
            0 <= i < bucket.len() && (#[trigger] bucket[i]).user_id == receiver ==> bucket[i].ws_id
                == conn) ==> delivery.ws_id == conn),
{
    lemma_first_connection(bucket, sender);
    lemma_first_connection(bucket, receiver);
    if first_connection(bucket, sender) is Some {
        let found = first_connection(bucket, sender)->0;
        let k = choose|k: int|
            0 <= k < bucket.len() && bucket[k] == (WSData { user_id: sender, ws_id: found });
        assert(bucket[k].user_id == sender);
        assert(false);
    }
    let entry = WSData { user_id: receiver, ws_id: conn };
    let i = choose|i: int| 0 <= i < bucket.len() && bucket[i] == entry;
    assert(bucket[i].user_id == receiver);
    let found = first_connection(bucket, receiver)->0;
    let k = choose|k: int|
        0 <= k < bucket.len() && bucket[k] == (WSData { user_id: receiver, ws_id: found });
    assert(bucket[k].user_id == receiver);
    assert(bucket.contains(WSData { user_id: receiver, ws_id: found }));
}

/// A message that has nowhere to go is dropped: where the receiver's bucket
/// has neither an entry for the sender nor the receiver's own entry, nothing
/// is delivered, whatever introduction is at hand.
pub proof fn lemma_unreachable_receiver_gets_nothing(
    bucket: Seq<WSData>,
    sender: usize,
    receiver: usize,
    content: Seq<char>,
    introduction: Option<Seq<char>>,
)
    requires
        !has_contact(bucket, sender),
        !has_contact(bucket, receiver),
    ensures
        route_of(bucket, sender, receiver) == Route::Dropped,
        delivery_of(route_of(bucket, sender, receiver), content, introduction) is None,
{
    lemma_first_connection(bucket, sender);
    lemma_first_connection(bucket, receiver);
    if first_connection(bucket, sender) is Some {
        let found = first_connection(bucket, sender)->0;
        let k = choose|k: int|
            0 <= k < bucket.len() && bucket[k] == (WSData { user_id: sender, ws_id: found });
        assert(bucket[k].user_id == sender);
    }
    if first_connection(bucket, receiver) is Some {
        let found = first_connection(bucket, receiver)->0;
        let k = choose|k: int|
            0 <= k < bucket.len() && bucket[k] == (WSData { user_id: receiver, ws_id: found });
        assert(bucket[k].user_id == receiver);
    }
}

} // verus!
