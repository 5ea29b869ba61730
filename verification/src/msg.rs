//! The command and query surface, and the attribute-carrying success
//! response that mutating commands return.

use vstd::prelude::*;
use crate::state::UserProfile;

verus! {

#[derive(Debug)]
pub struct InstantiateMsg {}

/// The six mutating commands. Each carries the caller identity
/// implicitly (the host passes it beside the message).
#[derive(Debug)]
pub enum ExecuteMsg {
    CreateChannel { channel: String },
    RemoveChannel { channel: String },
    UpdateBroadcast { channel: String, broadcast: String },
    TuneIn { channel: String },
    RateBroadcast { channel: String, rating: u8 },
    TransferChannelOwnership { channel: String, new_owner: String },
}

/// The five read-only queries. None requires authorization.
#[derive(Debug)]
pub enum QueryMsg {
    GetCurrentBroadcast { channel: String },
    ListChannels {},
    GetUserProfile { user: String },
    GetChannelRatings { channel: String },
    GetChannelViewers { channel: String },
}

/// The plain value a query returns; the host encodes it on the wire.
#[derive(Debug, PartialEq)]
pub enum QueryAnswer {
    Broadcast(String),
    Channels(Vec<String>),
    Profile(UserProfile),
    Ratings(Vec<u8>),
    Viewers(u64),
}

/// One key-value attribute of a success response.
#[derive(Debug, PartialEq)]
pub struct Attribute {
    pub key: String,
    pub value: String,
}

impl View for Attribute {
    type V = (Seq<char>, Seq<char>);

    open spec fn view(&self) -> (Seq<char>, Seq<char>) {
        (self.key@, self.value@)
    }
}

/// What a successful mutating command hands back to the host: a list
/// of attributes describing what was done.
#[derive(Debug, PartialEq)]
pub struct Response {
    pub attributes: Vec<Attribute>,
}

impl View for Response {
    type V = Seq<(Seq<char>, Seq<char>)>;

    open spec fn view(&self) -> Seq<(Seq<char>, Seq<char>)> {
        self.attributes@.map_values(|a: Attribute| a@)
    }
}

/// The attribute list every successful mutating command carries: its
/// method name and the channel it acted on.
pub open spec fn method_attrs(method: Seq<char>, channel: Seq<char>) -> Seq<
    (Seq<char>, Seq<char>),
> {
    seq![("method"@, method), ("channel"@, channel)]
}

/// Builds the two-attribute response of a successful command.
pub fn make_response(method: &str, channel: &String) -> (r: Response)
    ensures
        r@ == method_attrs(method@, channel@),
{
    let mut attributes: Vec<Attribute> = Vec::new();
    attributes.push(Attribute { key: "method".to_owned(), value: method.to_owned() });
    attributes.push(Attribute { key: "channel".to_owned(), value: channel.clone() });
    let r = Response { attributes };
    proof {
        assert(r@ =~= method_attrs(method@, channel@));
    }
    r
}

} // verus!
