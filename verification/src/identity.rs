//! Identities claimed by connections, and the references that tie a
//! connection to a conversation.

use vstd::prelude::*;

verus! {

/// The identity a connection currently claims to represent.
///
/// `user_id` is the user the connection stands for, `owner_id` the local
/// client instance that opened it, and `user_token` an opaque bearer token
/// that is carried along unchanged.
#[derive(Debug)]
pub struct IDInfo {
    pub user_id: usize,
    pub owner_id: usize,
    pub user_token: Option<String>,
}

/// Mathematical value of an [`IDInfo`]: the token is seen as its characters.
pub struct IDInfoView {
    pub user_id: usize,
    pub owner_id: usize,
    pub user_token: Option<Seq<char>>,
}

impl View for IDInfo {
    type V = IDInfoView;

    open spec fn view(&self) -> IDInfoView {
        IDInfoView {
            user_id: self.user_id,
            owner_id: self.owner_id,
            user_token: match self.user_token {
                Some(t) => Some(t@),
                None => None,
            },
        }
    }
}

impl IDInfo {
    /// An identity with the given ids and token.
    pub fn new(user_id: usize, owner_id: usize, user_token: Option<String>) -> (info: IDInfo)
        ensures
            info.user_id == user_id,
            info.owner_id == owner_id,
            info.user_token == user_token,
    {
        IDInfo { user_id, owner_id, user_token }
    }

    /// The identity of a connection that has not said who it is: both ids
    /// are zero and there is no token.
    pub fn anonymous() -> (info: IDInfo)
        ensures
            info@ == (IDInfoView { user_id: 0, owner_id: 0, user_token: None }),
    {
        IDInfo { user_id: 0, owner_id: 0, user_token: None }
    }
}

impl Clone for IDInfo {
    fn clone(&self) -> (copy: IDInfo)
        ensures
            copy@ == self@,
    {
        let user_token = match &self.user_token {
            Some(t) => Some(t.clone()),
            None => None,
        };
        IDInfo { user_id: self.user_id, owner_id: self.owner_id, user_token }
    }
}

/// One entry of a user's bucket: the bucket's owner has the connection
/// `ws_id` open to carry the conversation with `user_id`.
///
/// An entry whose `user_id` is the bucket owner's own id is the owner's
/// introduction channel.
#[derive(Clone, Copy, Debug, PartialEq, Eq, Structural)]
pub struct WSData {
    pub user_id: usize,
    pub ws_id: usize,
}

impl WSData {
    /// The entry for the conversation with `user_id` over connection `ws_id`.
    pub fn new(user_id: usize, ws_id: usize) -> (entry: WSData)
        ensures
            entry == (WSData { user_id, ws_id }),
    {
        WSData { user_id, ws_id }
    }
}

} // verus!
