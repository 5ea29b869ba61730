//! The data model: channel registry entries, user viewing profiles, and
//! the whole system state with its well-formedness and consistency
//! conditions.

use vstd::prelude::*;
use crate::kvmap::{kv_map, unique_keys};
use crate::order::lex_lt;

verus! {

/// One immutable record of a tune-in event.
#[derive(Debug, PartialEq)]
pub struct ViewHistory {
    pub channel: String,
    pub start_time: u64,
    pub start_height: u64,
}

#[verifier::ext_equal]
pub ghost struct ViewHistoryView {
    pub channel: Seq<char>,
    pub start_time: u64,
    pub start_height: u64,
}

impl View for ViewHistory {
    type V = ViewHistoryView;

    open spec fn view(&self) -> ViewHistoryView {
        ViewHistoryView {
            channel: self.channel@,
            start_time: self.start_time,
            start_height: self.start_height,
        }
    }
}

impl Clone for ViewHistory {
    fn clone(&self) -> (res: Self)
        ensures
            res@ == self@,
    {
        ViewHistory {
            channel: self.channel.clone(),
            start_time: self.start_time,
            start_height: self.start_height,
        }
    }
}

/// One user's viewing state: the channel currently tuned into, if any,
/// and the append-only log of past tune-ins in chronological order.
#[derive(Debug, PartialEq)]
pub struct UserProfile {
    pub current_channel: Option<String>,
    pub viewing_history: Vec<ViewHistory>,
}

#[verifier::ext_equal]
pub ghost struct UserProfileView {
    pub current_channel: Option<Seq<char>>,
    pub viewing_history: Seq<ViewHistoryView>,
}

impl View for UserProfile {
    type V = UserProfileView;

    open spec fn view(&self) -> UserProfileView {
        UserProfileView {
            current_channel: match self.current_channel {
                Some(c) => Some(c@),
                None => None,
            },
            viewing_history: self.viewing_history@.map_values(|h: ViewHistory| h@),
        }
    }
}

impl Clone for UserProfile {
    fn clone(&self) -> (res: Self)
        ensures
            res@ == self@,
    {
        let current_channel = match &self.current_channel {
            Some(c) => Some(c.clone()),
            None => None,
        };
        let mut viewing_history: Vec<ViewHistory> = Vec::new();
        let mut i: usize = 0;
        while i < self.viewing_history.len()
            invariant
                i <= self.viewing_history@.len(),
                viewing_history@.len() == i,
                forall|j: int| 0 <= j < i ==> viewing_history@[j]@ == self.viewing_history@[j]@,
            decreases self.viewing_history@.len() - i,
        {
            viewing_history.push(self.viewing_history[i].clone());
            i = i + 1;
        }
        let res = UserProfile { current_channel, viewing_history };
        proof {
            assert(res@.viewing_history =~= self@.viewing_history);
            assert(res@ =~= self@);
        }
        res
    }
}

/// One channel's registry entry.
#[derive(Debug, PartialEq)]
pub struct ChannelState {
    pub owner: String,
    pub broadcast: String,
    pub ratings: Vec<u8>,
    pub viewer_count: u64,
}

#[verifier::ext_equal]
pub ghost struct ChannelStateView {
    pub owner: Seq<char>,
    pub broadcast: Seq<char>,
    pub ratings: Seq<u8>,
    pub viewer_count: u64,
}

impl View for ChannelState {
    type V = ChannelStateView;

    open spec fn view(&self) -> ChannelStateView {
        ChannelStateView {
            owner: self.owner@,
            broadcast: self.broadcast@,
            ratings: self.ratings@,
            viewer_count: self.viewer_count,
        }
    }
}

/// The whole system state: the channel registry and the user profiles,
/// two independent key-value namespaces.
pub struct Television {
    pub channels: Vec<(String, ChannelState)>,
    pub profiles: Vec<(String, UserProfile)>,
}

#[verifier::ext_equal]
pub ghost struct TelevisionView {
    pub channels: Map<Seq<char>, ChannelStateView>,
    pub users: Map<Seq<char>, UserProfileView>,
}

impl View for Television {
    type V = TelevisionView;

    open spec fn view(&self) -> TelevisionView {
        TelevisionView { channels: kv_map(self.channels@), users: kv_map(self.profiles@) }
    }
}

impl Television {
    /// Structural well-formedness: the registry is strictly sorted by
    /// channel name (hence names are unique), and user identities are
    /// unique.
    pub open spec fn wf(&self) -> bool {
        &&& unique_keys(self.channels@)
        &&& unique_keys(self.profiles@)
        &&& forall|i: int, j: int|
            0 <= i < j < self.channels@.len() ==> lex_lt(
                self.channels@[i].0@,
                self.channels@[j].0@,
            )
    }
}

/// The set of users currently tuned into channel `c`.
pub open spec fn viewers(users: Map<Seq<char>, UserProfileView>, c: Seq<char>) -> Set<Seq<char>> {
    users.dom().filter(|u: Seq<char>| users[u].current_channel == Some(c))
}

/// Every channel present in the registry records as its viewer count
/// exactly the number of users currently tuned into it.
pub open spec fn counts_consistent(v: TelevisionView) -> bool {
    forall|c: Seq<char>| #[trigger]
        v.channels.contains_key(c) ==> v.channels[c].viewer_count == viewers(v.users, c).len()
}

/// The profile a user is handled with: the stored one, or the lazily
/// created empty one for a user never seen before.
pub open spec fn profile_or_default(
    users: Map<Seq<char>, UserProfileView>,
    u: Seq<char>,
) -> UserProfileView {
    if users.contains_key(u) {
        users[u]
    } else {
        UserProfileView { current_channel: None, viewing_history: Seq::empty() }
    }
}

/// A viewer-count decrement saturates at zero.
pub open spec fn dec_count(c: u64) -> u64 {
    if c == 0 {
        0
    } else {
        (c - 1) as u64
    }
}

/// A viewer-count increment saturates at the largest count.
pub open spec fn inc_count(c: u64) -> u64 {
    if c == u64::MAX {
        u64::MAX
    } else {
        (c + 1) as u64
    }
}

} // verus!
