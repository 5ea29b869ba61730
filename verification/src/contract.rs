//! The state-transition logic: the six mutating commands and the five
//! queries, each specified against the abstract map view of the state.

use vstd::prelude::*;
use crate::error::ContractError;
use crate::kvmap::{kv_map, has_key, unique_keys, find_key, lemma_kv_contains, lemma_kv_index,
    lemma_kv_dom_len, lemma_kv_update, lemma_kv_remove, lemma_kv_insert_at, lemma_kv_push};
use crate::msg::{Attribute, ExecuteMsg, InstantiateMsg, QueryAnswer, QueryMsg, Response,
    make_response, method_attrs};
use crate::order::{lex_lt, lemma_lex_connex, lemma_lex_irrefl, lemma_lex_trans, str_lt};
use crate::state::{ChannelState, ChannelStateView, Television, TelevisionView, UserProfile,
    UserProfileView, ViewHistory, ViewHistoryView, counts_consistent, dec_count, inc_count,
    profile_or_default, viewers};

verus! {

/// What creating a channel does: the registry entry under that name is
/// inserted or overwritten with a fresh state owned by the caller, and
/// the command always succeeds.
pub open spec fn create_channel_spec(
    pre: TelevisionView,
    caller: Seq<char>,
    channel: Seq<char>,
    post: TelevisionView,
    r: Result<Response, ContractError>,
) -> bool {
    &&& post.channels == pre.channels.insert(
        channel,
        ChannelStateView {
            owner: caller,
            broadcast: Seq::empty(),
            ratings: Seq::empty(),
            viewer_count: 0,
        },
    )
    &&& post.users == pre.users
    &&& r matches Ok(resp) && resp@ == method_attrs("create_channel"@, channel)
}

/// What removing a channel does: absent name, then `NotFound`; caller
/// other than the owner, then `Unauthorized`; otherwise the entry is
/// deleted. Profiles still pointing at it are not touched.
pub open spec fn remove_channel_spec(
    pre: TelevisionView,
    caller: Seq<char>,
    channel: Seq<char>,
    post: TelevisionView,
    r: Result<Response, ContractError>,
) -> bool {
    if !pre.channels.contains_key(channel) {
        post == pre && r == Err::<Response, ContractError>(ContractError::NotFound)
    } else if pre.channels[channel].owner != caller {
        post == pre && r == Err::<Response, ContractError>(ContractError::Unauthorized)
    } else {
        &&& post.channels == pre.channels.remove(channel)
        &&& post.users == pre.users
        &&& r matches Ok(resp) && resp@ == method_attrs("remove_channel"@, channel)
    }
}

/// What updating a broadcast does: absent name, then `NotFound`;
/// caller other than the owner, then `Unauthorized`; otherwise the
/// broadcast text is replaced and nothing else changes.
pub open spec fn update_broadcast_spec(
    pre: TelevisionView,
    caller: Seq<char>,
    channel: Seq<char>,
    broadcast: Seq<char>,
    post: TelevisionView,
    r: Result<Response, ContractError>,
) -> bool {
    if !pre.channels.contains_key(channel) {
        post == pre && r == Err::<Response, ContractError>(ContractError::NotFound)
    } else if pre.channels[channel].owner != caller {
        post == pre && r == Err::<Response, ContractError>(ContractError::Unauthorized)
    } else {
        &&& post.channels == pre.channels.insert(
            channel,
            ChannelStateView { broadcast, ..pre.channels[channel] },
        )
        &&& post.users == pre.users
        &&& r matches Ok(resp) && resp@ == method_attrs("update_broadcast"@, channel)
    }
}

/// What transferring ownership does: absent name, then `NotFound`;
/// caller other than the owner, then `Unauthorized`; otherwise the
/// owner is replaced and nothing else changes.
pub open spec fn transfer_channel_ownership_spec(
    pre: TelevisionView,
    caller: Seq<char>,
    channel: Seq<char>,
    new_owner: Seq<char>,
    post: TelevisionView,
    r: Result<Response, ContractError>,
) -> bool {
    if !pre.channels.contains_key(channel) {
        post == pre && r == Err::<Response, ContractError>(ContractError::NotFound)
    } else if pre.channels[channel].owner != caller {
        post == pre && r == Err::<Response, ContractError>(ContractError::Unauthorized)
    } else {
        &&& post.channels == pre.channels.insert(
            channel,
            ChannelStateView { owner: new_owner, ..pre.channels[channel] },
        )
        &&& post.users == pre.users
        &&& r matches Ok(resp) && resp@ == method_attrs(
            "transfer_channel_ownership"@,
            channel,
        )
    }
}

/// What rating a broadcast does: a caller with no current channel
/// fails with `NoActiveTuneIn`; one tuned into a different channel
/// fails with `ChannelMismatch`; if the rated channel has meanwhile
/// left the registry the rating fails with `NotFound`; otherwise the
/// score is appended to the channel's rating history.
pub open spec fn rate_broadcast_spec(
    pre: TelevisionView,
    caller: Seq<char>,
    channel: Seq<char>,
    rating: u8,
    post: TelevisionView,
    r: Result<Response, ContractError>,
) -> bool {
    let cur = profile_or_default(pre.users, caller).current_channel;
    if cur is None {
        post == pre && r == Err::<Response, ContractError>(ContractError::NoActiveTuneIn)
    } else if cur != Some(channel) {
        post == pre && r == Err::<Response, ContractError>(ContractError::ChannelMismatch)
    } else if !pre.channels.contains_key(channel) {
        post == pre && r == Err::<Response, ContractError>(ContractError::NotFound)
    } else {
        &&& post.channels == pre.channels.insert(
            channel,
            ChannelStateView {
                ratings: pre.channels[channel].ratings.push(rating),
                ..pre.channels[channel]
            },
        )
        &&& post.users == pre.users
        &&& r matches Ok(resp) && resp@ == method_attrs("rate_broadcast"@, channel)
    }
}

/// The registry after the viewer-count decrement of the channel a user
/// leaves: if the user was tuned into a channel still present, that
/// channel's count drops by one (saturating at zero); a channel that
/// has meanwhile been removed is left alone.
pub open spec fn tune_in_dec(
    channels: Map<Seq<char>, ChannelStateView>,
    prev: Option<Seq<char>>,
) -> Map<Seq<char>, ChannelStateView> {
    match prev {
        Some(p) => if channels.contains_key(p) {
            channels.insert(
                p,
                ChannelStateView { viewer_count: dec_count(channels[p].viewer_count), ..channels[p] },
            )
        } else {
            channels
        },
        None => channels,
    }
}

/// What tuning in does: tuning into the channel already watched fails
/// with `AlreadyTuned`; tuning into an absent channel fails with
/// `ChannelNotFound`; otherwise the previous channel (if any, and if
/// still present) loses a viewer, the target gains one, and the
/// caller's profile records the new current channel and one more
/// history entry. A failed command leaves the state unchanged.
pub open spec fn tune_in_spec(
    pre: TelevisionView,
    caller: Seq<char>,
    channel: Seq<char>,
    now_time: u64,
    now_height: u64,
    post: TelevisionView,
    r: Result<Response, ContractError>,
) -> bool {
    let prof = profile_or_default(pre.users, caller);
    if prof.current_channel == Some(channel) {
        post == pre && r == Err::<Response, ContractError>(ContractError::AlreadyTuned)
    } else if !pre.channels.contains_key(channel) {
        post == pre && r == Err::<Response, ContractError>(ContractError::ChannelNotFound)
    } else {
        &&& post.channels == tune_in_dec(pre.channels, prof.current_channel).insert(
            channel,
            ChannelStateView {
                viewer_count: inc_count(pre.channels[channel].viewer_count),
                ..pre.channels[channel]
            },
        )
        &&& post.users == pre.users.insert(
            caller,
            UserProfileView {
                current_channel: Some(channel),
                viewing_history: prof.viewing_history.push(
                    ViewHistoryView { channel, start_time: now_time, start_height: now_height },
                ),
            },
        )
        &&& r matches Ok(resp) && resp@ == method_attrs("tune_in"@, channel)
    }
}

/// How the set of viewers of a channel changes when one user's profile
/// is set: the user joins the viewers of the channel it now watches
/// and leaves the viewers of every other channel.
proof fn lemma_viewers_insert(
    users: Map<Seq<char>, UserProfileView>,
    u: Seq<char>,
    p: UserProfileView,
    c: Seq<char>,
)
    ensures
        viewers(users.insert(u, p), c) == (if p.current_channel == Some(c) {
            viewers(users, c).insert(u)
        } else {
            viewers(users, c).remove(u)
        }),
{
    let lhs = viewers(users.insert(u, p), c);
    if p.current_channel == Some(c) {
        assert(lhs =~= viewers(users, c).insert(u));
    } else {
        assert(lhs =~= viewers(users, c).remove(u));
    }
}

/// The viewers of a channel form a finite set no larger than the set
/// of all users.
proof fn lemma_viewers_finite(users: Map<Seq<char>, UserProfileView>, c: Seq<char>)
    requires
        users.dom().finite(),
    ensures
        viewers(users, c).finite(),
        viewers(users, c).len() <= users.dom().len(),
{
    users.dom().lemma_len_filter(|u: Seq<char>| users[u].current_channel == Some(c));
}

/// A completed tune-in keeps every viewer count consistent, as long as
/// the user population leaves room for one more viewer.
proof fn lemma_counts_after_tune_in(
    pre: TelevisionView,
    post: TelevisionView,
    u: Seq<char>,
    c: Seq<char>,
    p: UserProfileView,
)
    requires
        counts_consistent(pre),
        pre.users.dom().finite(),
        pre.users.dom().len() < u64::MAX,
        pre.channels.contains_key(c),
        profile_or_default(pre.users, u).current_channel != Some(c),
        p.current_channel == Some(c),
        post.users == pre.users.insert(u, p),
        post.channels == tune_in_dec(pre.channels, profile_or_default(pre.users, u).current_channel)
            .insert(
            c,
            ChannelStateView {
                viewer_count: inc_count(pre.channels[c].viewer_count),
                ..pre.channels[c]
            },
        ),
    ensures
        counts_consistent(post),
{
    let prev_opt = profile_or_default(pre.users, u).current_channel;
    assert forall|k: Seq<char>| #[trigger] post.channels.contains_key(k)
        implies post.channels[k].viewer_count == viewers(post.users, k).len() by {
        lemma_viewers_insert(pre.users, u, p, k);
        lemma_viewers_finite(pre.users, k);
        if k == c {
            assert(!viewers(pre.users, c).contains(u));
            vstd::set::axiom_set_insert_len(viewers(pre.users, c), u);
            assert(viewers(post.users, c).len() == viewers(pre.users, c).len() + 1);
            assert(pre.channels[c].viewer_count == viewers(pre.users, c).len());
            assert(viewers(pre.users, c).len() < u64::MAX);
            assert(post.channels[c].viewer_count == inc_count(pre.channels[c].viewer_count));
        } else if prev_opt == Some(k) {
            assert(pre.channels.contains_key(k));
            assert(pre.users.contains_key(u) && pre.users[u].current_channel == Some(k));
            assert(viewers(pre.users, k).contains(u));
            assert(viewers(pre.users, k) =~= viewers(pre.users, k).remove(u).insert(u));
            vstd::set::axiom_set_insert_len(viewers(pre.users, k).remove(u), u);
            assert(viewers(pre.users, k).len() == viewers(pre.users, k).remove(u).len() + 1);
            assert(post.channels[k].viewer_count == dec_count(pre.channels[k].viewer_count));
        } else {
            assert(pre.channels.contains_key(k));
            assert(!viewers(pre.users, k).contains(u));
            assert(viewers(post.users, k) =~= viewers(pre.users, k));
            assert(post.channels[k].viewer_count == pre.channels[k].viewer_count);
        }
    }
}

/// Inserting or overwriting one channel entry whose recorded count is
/// the number of its viewers keeps every count consistent.
proof fn lemma_counts_after_channel_insert(
    pre: TelevisionView,
    post: TelevisionView,
    c: Seq<char>,
    v: ChannelStateView,
)
    requires
        counts_consistent(pre),
        post.users == pre.users,
        post.channels == pre.channels.insert(c, v),
        v.viewer_count == viewers(pre.users, c).len(),
    ensures
        counts_consistent(post),
{
    assert forall|k: Seq<char>| #[trigger] post.channels.contains_key(k)
        implies post.channels[k].viewer_count == viewers(post.users, k).len() by {
        if k != c {
            assert(pre.channels.contains_key(k));
        }
    }
}

/// Removing one channel entry keeps every remaining count consistent.
proof fn lemma_counts_after_channel_remove(pre: TelevisionView, post: TelevisionView, c: Seq<char>)
    requires
        counts_consistent(pre),
        post.users == pre.users,
        post.channels == pre.channels.remove(c),
    ensures
        counts_consistent(post),
{
    assert forall|k: Seq<char>| #[trigger] post.channels.contains_key(k)
        implies post.channels[k].viewer_count == viewers(post.users, k).len() by {
        assert(pre.channels.contains_key(k));
    }
}

impl Television {
    /// Creates (or silently overwrites) the channel, owned by the
    /// caller, with empty broadcast, no ratings and no viewers.
    pub fn try_create_channel(&mut self, caller: String, channel: String) -> (r: Result<
        Response,
        ContractError,
    >)
        requires
            old(self).wf(),
        ensures
            final(self).wf(),
            create_channel_spec(old(self)@, caller@, channel@, final(self)@, r),
            counts_consistent(old(self)@) && viewers(old(self)@.users, channel@).len() == 0
                ==> counts_consistent(final(self)@),
    {
        let resp = make_response("create_channel", &channel);
        let ghost v0 = ChannelStateView {
            owner: caller@,
            broadcast: Seq::empty(),
            ratings: Seq::empty(),
            viewer_count: 0,
        };
        let st = ChannelState {
            owner: caller,
            broadcast: String::new(),
            ratings: Vec::new(),
            viewer_count: 0,
        };
        proof {
            assert(st@ =~= v0);
        }
        let ghost s0 = self.channels@;
        let mut i: usize = 0;
        while i < self.channels.len()
            invariant
                *self == *old(self),
                old(self).wf(),
                s0 == self.channels@,
                i <= s0.len(),
                st@ == v0,
                v0 == (ChannelStateView {
                    owner: caller@,
                    broadcast: Seq::empty(),
                    ratings: Seq::empty(),
                    viewer_count: 0,
                }),
                resp@ == method_attrs("create_channel"@, channel@),
                forall|j: int| 0 <= j < i ==> lex_lt(s0[j].0@, channel@),
            decreases s0.len() - i,
        {
            if self.channels[i].0 == channel {
                let (k, _old_st) = self.channels.remove(i);
                self.channels.insert(i, (k, st));
                proof {
                    assert(self.channels@ =~= s0.update(i as int, self.channels@[i as int]));
                    assert(self.channels@[i as int].1@ == v0);
                    lemma_kv_update(s0, i as int, self.channels@[i as int]);
                    assert(self@.channels =~= old(self)@.channels.insert(channel@, v0));
                    assert forall|j1: int, j2: int| 0 <= j1 < j2 < self.channels@.len()
                        implies lex_lt(self.channels@[j1].0@, self.channels@[j2].0@) by {
                        assert(self.channels@[j1].0@ == s0[j1].0@);
                        assert(self.channels@[j2].0@ == s0[j2].0@);
                    }
                    if counts_consistent(old(self)@) && viewers(old(self)@.users, channel@).len()
                        == 0 {
                        lemma_counts_after_channel_insert(old(self)@, self@, channel@, v0);
                    }
                }
                return Ok(resp);
            }
            if str_lt(&channel, &self.channels[i].0) {
                proof {
                    lemma_lex_irrefl(channel@);
                    assert forall|j: int| 0 <= j < s0.len() implies s0[j].0@ != channel@ by {
                        if j < i {
                            assert(lex_lt(s0[j].0@, channel@));
                        } else if j == i {
                            assert(lex_lt(channel@, s0[j].0@));
                        } else {
                            lemma_lex_trans(channel@, s0[i as int].0@, s0[j].0@);
                        }
                    }
                    assert(!has_key(s0, channel@));
                }
                self.channels.insert(i, (channel, st));
                proof {
                    let p = self.channels@[i as int];
                    assert(self.channels@ =~= s0.insert(i as int, p));
                    assert(p.0@ == channel@ && p.1@ == v0);
                    lemma_kv_insert_at(s0, i as int, p);
                    assert(self@.channels =~= old(self)@.channels.insert(channel@, v0));
                    assert forall|j1: int, j2: int| 0 <= j1 < j2 < self.channels@.len()
                        implies lex_lt(self.channels@[j1].0@, self.channels@[j2].0@) by {
                        if j1 == i {
                            if j2 > i + 1 {
                                lemma_lex_trans(channel@, s0[i as int].0@, s0[j2 - 1].0@);
                            }
                        } else if j2 == i {
                        } else {
                            let k1 = if j1 < i { j1 } else { j1 - 1 };
                            let k2 = if j2 < i { j2 } else { j2 - 1 };
                            assert(lex_lt(s0[k1].0@, s0[k2].0@));
                        }
                    }
                    if counts_consistent(old(self)@) && viewers(old(self)@.users, channel@).len()
                        == 0 {
                        lemma_counts_after_channel_insert(old(self)@, self@, channel@, v0);
                    }
                }
                return Ok(resp);
            }
            proof {
                if !lex_lt(s0[i as int].0@, channel@) {
                    lemma_lex_connex(channel@, s0[i as int].0@);
                    assert(false);
                }
            }
            i = i + 1;
        }
        proof {
            lemma_lex_irrefl(channel@);
            assert forall|j: int| 0 <= j < s0.len() implies s0[j].0@ != channel@ by {
                assert(lex_lt(s0[j].0@, channel@));
            }
            assert(!has_key(s0, channel@));
        }
        self.channels.push((channel, st));
        proof {
            let p = self.channels@[s0.len() as int];
            assert(self.channels@ =~= s0.push(p));
            assert(p.0@ == channel@ && p.1@ == v0);
            lemma_kv_push(s0, p);
            assert(self@.channels =~= old(self)@.channels.insert(channel@, v0));
            assert forall|j1: int, j2: int| 0 <= j1 < j2 < self.channels@.len()
                implies lex_lt(self.channels@[j1].0@, self.channels@[j2].0@) by {
                if j2 == s0.len() {
                    assert(lex_lt(s0[j1].0@, channel@));
                } else {
                    assert(lex_lt(s0[j1].0@, s0[j2].0@));
                }
            }
            if counts_consistent(old(self)@) && viewers(old(self)@.users, channel@).len() == 0 {
                lemma_counts_after_channel_insert(old(self)@, self@, channel@, v0);
            }
        }
        Ok(resp)
    }

    /// Removes the channel after checking presence and ownership.
    pub fn try_remove_channel(&mut self, caller: String, channel: String) -> (r: Result<
        Response,
        ContractError,
    >)
        requires
            old(self).wf(),
        ensures
            final(self).wf(),
            remove_channel_spec(old(self)@, caller@, channel@, final(self)@, r),
            counts_consistent(old(self)@) ==> counts_consistent(final(self)@),
    {
        proof {
            lemma_kv_contains(self.channels@, channel@);
        }
        let i = match find_key(&self.channels, &channel) {
            None => {
                return Err(ContractError::NotFound);
            },
            Some(i) => i,
        };
        proof {
            lemma_kv_index(self.channels@, i as int);
        }
        if !(self.channels[i].1.owner == caller) {
            return Err(ContractError::Unauthorized);
        }
        let ghost s0 = self.channels@;
        let _ = self.channels.remove(i);
        proof {
            lemma_kv_remove(s0, i as int);
            assert forall|j1: int, j2: int| 0 <= j1 < j2 < self.channels@.len()
                implies lex_lt(self.channels@[j1].0@, self.channels@[j2].0@) by {
                let k1 = if j1 < i { j1 } else { j1 + 1 };
                let k2 = if j2 < i { j2 } else { j2 + 1 };
                assert(lex_lt(s0[k1].0@, s0[k2].0@));
            }
            if counts_consistent(old(self)@) {
                lemma_counts_after_channel_remove(old(self)@, self@, channel@);
            }
        }
        Ok(make_response("remove_channel", &channel))
    }

    /// Replaces the channel's broadcast text after checking presence
    /// and ownership.
    pub fn try_update_broadcast(&mut self, caller: String, channel: String, broadcast: String) -> (r:
        Result<Response, ContractError>)
        requires
            old(self).wf(),
        ensures
            final(self).wf(),
            update_broadcast_spec(old(self)@, caller@, channel@, broadcast@, final(self)@, r),
            counts_consistent(old(self)@) ==> counts_consistent(final(self)@),
    {
        proof {
            lemma_kv_contains(self.channels@, channel@);
        }
        let i = match find_key(&self.channels, &channel) {
            None => {
                return Err(ContractError::NotFound);
            },
            Some(i) => i,
        };
        proof {
            lemma_kv_index(self.channels@, i as int);
        }
        if !(self.channels[i].1.owner == caller) {
            return Err(ContractError::Unauthorized);
        }
        let ghost s0 = self.channels@;
        let (k, mut st) = self.channels.remove(i);
        st.broadcast = broadcast;
        self.channels.insert(i, (k, st));
        proof {
            assert(self.channels@ =~= s0.update(i as int, self.channels@[i as int]));
            lemma_kv_update(s0, i as int, self.channels@[i as int]);
            assert(self.channels@[i as int].1@ == (ChannelStateView {
                broadcast: broadcast@,
                ..old(self)@.channels[channel@]
            }));
            assert(self@.channels =~= old(self)@.channels.insert(
                channel@,
                ChannelStateView { broadcast: broadcast@, ..old(self)@.channels[channel@] },
            ));
            assert forall|j1: int, j2: int| 0 <= j1 < j2 < self.channels@.len()
                implies lex_lt(self.channels@[j1].0@, self.channels@[j2].0@) by {
                assert(self.channels@[j1].0@ == s0[j1].0@);
                assert(self.channels@[j2].0@ == s0[j2].0@);
            }
            if counts_consistent(old(self)@) {
                lemma_counts_after_channel_insert(
                    old(self)@,
                    self@,
                    channel@,
                    ChannelStateView { broadcast: broadcast@, ..old(self)@.channels[channel@] },
                );
            }
        }
        Ok(make_response("update_broadcast", &channel))
    }

    /// Hands the channel to a new owner after checking presence and
    /// ownership.
    pub fn try_transfer_channel_ownership(
        &mut self,
        caller: String,
        channel: String,
        new_owner: String,
    ) -> (r: Result<Response, ContractError>)
        requires
            old(self).wf(),
        ensures
            final(self).wf(),
            transfer_channel_ownership_spec(
                old(self)@,
                caller@,
                channel@,
                new_owner@,
                final(self)@,
                r,
            ),
            counts_consistent(old(self)@) ==> counts_consistent(final(self)@),
    {
        proof {
            lemma_kv_contains(self.channels@, channel@);
        }
        let i = match find_key(&self.channels, &channel) {
            None => {
                return Err(ContractError::NotFound);
            },
            Some(i) => i,
        };
        proof {
            lemma_kv_index(self.channels@, i as int);
        }
        if !(self.channels[i].1.owner == caller) {
            return Err(ContractError::Unauthorized);
        }
        let ghost s0 = self.channels@;
        let (k, mut st) = self.channels.remove(i);
        st.owner = new_owner;
        self.channels.insert(i, (k, st));
        proof {
            assert(self.channels@ =~= s0.update(i as int, self.channels@[i as int]));
            lemma_kv_update(s0, i as int, self.channels@[i as int]);
            assert(self.channels@[i as int].1@ == (ChannelStateView {
                owner: new_owner@,
                ..old(self)@.channels[channel@]
            }));
            assert(self@.channels =~= old(self)@.channels.insert(
                channel@,
                ChannelStateView { owner: new_owner@, ..old(self)@.channels[channel@] },
            ));
            assert forall|j1: int, j2: int| 0 <= j1 < j2 < self.channels@.len()
                implies lex_lt(self.channels@[j1].0@, self.channels@[j2].0@) by {
                assert(self.channels@[j1].0@ == s0[j1].0@);
                assert(self.channels@[j2].0@ == s0[j2].0@);
            }
            if counts_consistent(old(self)@) {
                lemma_counts_after_channel_insert(
                    old(self)@,
                    self@,
                    channel@,
                    ChannelStateView { owner: new_owner@, ..old(self)@.channels[channel@] },
                );
            }
        }
        Ok(make_response("transfer_channel_ownership", &channel))
    }

    /// Appends the caller's score to the channel's rating history,
    /// provided the caller is currently tuned into exactly that
    /// channel.
    pub fn try_rate_broadcast(&mut self, caller: String, channel: String, rating: u8) -> (r: Result<
        Response,
        ContractError,
    >)
        requires
            old(self).wf(),
        ensures
            final(self).wf(),
            rate_broadcast_spec(old(self)@, caller@, channel@, rating, final(self)@, r),
            counts_consistent(old(self)@) ==> counts_consistent(final(self)@),
    {
        proof {
            lemma_kv_contains(self.profiles@, caller@);
        }
        let pi = match find_key(&self.profiles, &caller) {
            None => {
                return Err(ContractError::NoActiveTuneIn);
            },
            Some(pi) => pi,
        };
        proof {
            lemma_kv_index(self.profiles@, pi as int);
        }
        let tuned = match &self.profiles[pi].1.current_channel {
            None => {
                return Err(ContractError::NoActiveTuneIn);
            },
            Some(cur) => *cur == channel,
        };
        if !tuned {
            return Err(ContractError::ChannelMismatch);
        }
        proof {
            lemma_kv_contains(self.channels@, channel@);
        }
        let i = match find_key(&self.channels, &channel) {
            None => {
                return Err(ContractError::NotFound);
            },
            Some(i) => i,
        };
        proof {
            lemma_kv_index(self.channels@, i as int);
        }
        let ghost s0 = self.channels@;
        let (k, mut st) = self.channels.remove(i);
        st.ratings.push(rating);
        self.channels.insert(i, (k, st));
        proof {
            assert(self.channels@ =~= s0.update(i as int, self.channels@[i as int]));
            lemma_kv_update(s0, i as int, self.channels@[i as int]);
            assert(self.channels@[i as int].1@ == (ChannelStateView {
                ratings: old(self)@.channels[channel@].ratings.push(rating),
                ..old(self)@.channels[channel@]
            }));
            assert(self@.channels =~= old(self)@.channels.insert(
                channel@,
                ChannelStateView {
                    ratings: old(self)@.channels[channel@].ratings.push(rating),
                    ..old(self)@.channels[channel@]
                },
            ));
            assert forall|j1: int, j2: int| 0 <= j1 < j2 < self.channels@.len()
                implies lex_lt(self.channels@[j1].0@, self.channels@[j2].0@) by {
                assert(self.channels@[j1].0@ == s0[j1].0@);
                assert(self.channels@[j2].0@ == s0[j2].0@);
            }
            if counts_consistent(old(self)@) {
                lemma_counts_after_channel_insert(
                    old(self)@,
                    self@,
                    channel@,
                    ChannelStateView {
                        ratings: old(self)@.channels[channel@].ratings.push(rating),
                        ..old(self)@.channels[channel@]
                    },
                );
            }
        }
        Ok(make_response("rate_broadcast", &channel))
    }

    /// Tunes the caller into the channel: the previously watched
    /// channel (if any, and if still present) loses a viewer, the
    /// target gains one, and the caller's profile is created or
    /// updated with the new current channel and one more history
    /// entry.
    pub fn try_tune_in(
        &mut self,
        caller: String,
        channel: String,
        now_time: u64,
        now_height: u64,
    ) -> (r: Result<Response, ContractError>)
        requires
            old(self).wf(),
        ensures
            final(self).wf(),
            tune_in_spec(old(self)@, caller@, channel@, now_time, now_height, final(self)@, r),
            counts_consistent(old(self)@) && old(self)@.users.dom().len() < u64::MAX
                ==> counts_consistent(final(self)@),
    {
        let ghost prof0 = profile_or_default(old(self)@.users, caller@);
        proof {
            lemma_kv_contains(self.profiles@, caller@);
        }
        let pi_opt = find_key(&self.profiles, &caller);
        let mut prev_name: Option<String> = None;
        if let Some(pi) = pi_opt {
            proof {
                lemma_kv_index(self.profiles@, pi as int);
            }
            match &self.profiles[pi].1.current_channel {
                Some(cur) => {
                    if *cur == channel {
                        return Err(ContractError::AlreadyTuned);
                    }
                    prev_name = Some(cur.clone());
                },
                None => {},
            }
        }
        proof {
            assert(match prev_name {
                Some(p) => prof0.current_channel == Some(p@) && p@ != channel@,
                None => prof0.current_channel is None,
            });
        }
        proof {
            lemma_kv_contains(self.channels@, channel@);
        }
        let ci = match find_key(&self.channels, &channel) {
            None => {
                return Err(ContractError::ChannelNotFound);
            },
            Some(ci) => ci,
        };
        proof {
            lemma_kv_index(self.channels@, ci as int);
        }
        let ghost s0 = self.channels@;
        let ghost target_v0 = old(self)@.channels[channel@];
        if let Some(prev) = &prev_name {
            proof {
                lemma_kv_contains(self.channels@, prev@);
            }
            if let Some(j) = find_key(&self.channels, prev) {
                proof {
                    lemma_kv_index(self.channels@, j as int);
                }
                let (k, mut st) = self.channels.remove(j);
                st.viewer_count = if st.viewer_count > 0 {
                    st.viewer_count - 1
                } else {
                    0
                };
                self.channels.insert(j, (k, st));
                proof {
                    assert(self.channels@ =~= s0.update(j as int, self.channels@[j as int]));
                    lemma_kv_update(s0, j as int, self.channels@[j as int]);
                    assert(self.channels@[j as int].1@ == (ChannelStateView {
                        viewer_count: dec_count(old(self)@.channels[prev@].viewer_count),
                        ..old(self)@.channels[prev@]
                    }));
                    assert(kv_map(self.channels@) =~= tune_in_dec(
                        old(self)@.channels,
                        prof0.current_channel,
                    ));
                    assert(j != ci);
                    assert(self.channels@[ci as int] == s0[ci as int]);
                    assert forall|j1: int, j2: int| 0 <= j1 < j2 < self.channels@.len()
                        implies lex_lt(self.channels@[j1].0@, self.channels@[j2].0@) by {
                        assert(self.channels@[j1].0@ == s0[j1].0@);
                        assert(self.channels@[j2].0@ == s0[j2].0@);
                    }
                }
            }
        }
        proof {
            assert(unique_keys(self.channels@));
            assert(kv_map(self.channels@) == tune_in_dec(
                old(self)@.channels,
                prof0.current_channel,
            ));
            assert(self.channels@.len() == s0.len());
            assert(self.channels@[ci as int] == s0[ci as int]);
        }
        let ghost s1 = self.channels@;
        let (k2, mut st2) = self.channels.remove(ci);
        st2.viewer_count = if st2.viewer_count < u64::MAX {
            st2.viewer_count + 1
        } else {
            u64::MAX
        };
        self.channels.insert(ci, (k2, st2));
        proof {
            assert(self.channels@ =~= s1.update(ci as int, self.channels@[ci as int]));
            lemma_kv_update(s1, ci as int, self.channels@[ci as int]);
            assert(self.channels@[ci as int].1@ == (ChannelStateView {
                viewer_count: inc_count(target_v0.viewer_count),
                ..target_v0
            }));
            assert(kv_map(self.channels@) =~= tune_in_dec(
                old(self)@.channels,
                prof0.current_channel,
            ).insert(
                channel@,
                ChannelStateView { viewer_count: inc_count(target_v0.viewer_count), ..target_v0 },
            ));
            assert forall|j1: int, j2: int| 0 <= j1 < j2 < self.channels@.len()
                implies lex_lt(self.channels@[j1].0@, self.channels@[j2].0@) by {
                assert(self.channels@[j1].0@ == s1[j1].0@ && s1[j1].0@ == s0[j1].0@);
                assert(self.channels@[j2].0@ == s1[j2].0@ && s1[j2].0@ == s0[j2].0@);
            }
        }
        let entry = ViewHistory {
            channel: channel.clone(),
            start_time: now_time,
            start_height: now_height,
        };
        let ghost p_new = UserProfileView {
            current_channel: Some(channel@),
            viewing_history: prof0.viewing_history.push(
                ViewHistoryView { channel: channel@, start_time: now_time, start_height: now_height },
            ),
        };
        let ghost ps0 = self.profiles@;
        match pi_opt {
            Some(pi) => {
                let (k3, mut prof) = self.profiles.remove(pi);
                prof.current_channel = Some(channel.clone());
                prof.viewing_history.push(entry);
                self.profiles.insert(pi, (k3, prof));
                proof {
                    assert(self.profiles@ =~= ps0.update(pi as int, self.profiles@[pi as int]));
                    lemma_kv_update(ps0, pi as int, self.profiles@[pi as int]);
                    assert(self.profiles@[pi as int].1@.viewing_history =~= p_new.viewing_history);
                    assert(self.profiles@[pi as int].1@ =~= p_new);
                    assert(kv_map(self.profiles@) =~= old(self)@.users.insert(caller@, p_new));
                }
            },
            None => {
                let mut hist: Vec<ViewHistory> = Vec::new();
                hist.push(entry);
                self.profiles.push(
                    (caller, UserProfile { current_channel: Some(channel.clone()), viewing_history: hist }),
                );
                proof {
                    let q = self.profiles@[ps0.len() as int];
                    assert(self.profiles@ =~= ps0.push(q));
                    lemma_kv_push(ps0, q);
                    assert(q.1@.viewing_history =~= p_new.viewing_history);
                    assert(q.1@ =~= p_new);
                    assert(kv_map(self.profiles@) =~= old(self)@.users.insert(caller@, p_new));
                }
            },
        }
        proof {
            assert(self@.users == old(self)@.users.insert(caller@, p_new));
            if counts_consistent(old(self)@) && old(self)@.users.dom().len() < u64::MAX {
                lemma_kv_dom_len(old(self).profiles@);
                lemma_counts_after_tune_in(old(self)@, self@, caller@, channel@, p_new);
            }
        }
        Ok(make_response("tune_in", &channel))
    }

    /// Returns the channel's current broadcast text.
    pub fn query_current_broadcast(&self, channel: String) -> (r: Result<String, ContractError>)
        requires
            self.wf(),
        ensures
            match r {
                Ok(b) => self@.channels.contains_key(channel@) && b@ == self@.channels[
                    channel@
                ].broadcast,
                Err(e) => !self@.channels.contains_key(channel@) && e == ContractError::NotFound,
            },
    {
        proof {
            lemma_kv_contains(self.channels@, channel@);
        }
        match find_key(&self.channels, &channel) {
            None => Err(ContractError::NotFound),
            Some(i) => {
                proof {
                    lemma_kv_index(self.channels@, i as int);
                }
                Ok(self.channels[i].1.broadcast.clone())
            },
        }
    }

    /// Returns every channel name, in ascending lexical order.
    pub fn query_list_channels(&self) -> (r: Vec<String>)
        requires
            self.wf(),
        ensures
            channel_listing(self@, r@),
    {
        let mut out: Vec<String> = Vec::new();
        let mut i: usize = 0;
        while i < self.channels.len()
            invariant
                self.wf(),
                i <= self.channels@.len(),
                out@.len() == i,
                forall|j: int| 0 <= j < i ==> out@[j]@ == self.channels@[j].0@,
            decreases self.channels@.len() - i,
        {
            out.push(self.channels[i].0.clone());
            i = i + 1;
        }
        proof {
            lemma_kv_dom_len(self.channels@);
            assert forall|j: int| 0 <= j < out@.len() implies self@.channels.contains_key(
                out@[j]@,
            ) by {
                lemma_kv_index(self.channels@, j);
            }
            assert forall|k: Seq<char>| self@.channels.contains_key(k) implies exists|j: int|
                0 <= j < out@.len() && out@[j]@ == k by {
                lemma_kv_contains(self.channels@, k);
                let j = choose|j: int|
                    0 <= j < self.channels@.len() && self.channels@[j].0@ == k;
                assert(out@[j]@ == k);
            }
        }
        out
    }

    /// Returns the user's profile as stored, even when it still points
    /// at a channel that has since been removed.
    pub fn query_user_profile(&self, user: String) -> (r: Result<UserProfile, ContractError>)
        requires
            self.wf(),
        ensures
            match r {
                Ok(p) => self@.users.contains_key(user@) && p@ == self@.users[user@],
                Err(e) => !self@.users.contains_key(user@) && e == ContractError::NotFound,
            },
    {
        proof {
            lemma_kv_contains(self.profiles@, user@);
        }
        match find_key(&self.profiles, &user) {
            None => Err(ContractError::NotFound),
            Some(i) => {
                proof {
                    lemma_kv_index(self.profiles@, i as int);
                }
                Ok(self.profiles[i].1.clone())
            },
        }
    }

    /// Returns the channel's rating history, oldest first.
    pub fn query_channel_ratings(&self, channel: String) -> (r: Result<Vec<u8>, ContractError>)
        requires
            self.wf(),
        ensures
            match r {
                Ok(v) => self@.channels.contains_key(channel@) && v@ == self@.channels[
                    channel@
                ].ratings,
                Err(e) => !self@.channels.contains_key(channel@) && e == ContractError::NotFound,
            },
    {
        proof {
            lemma_kv_contains(self.channels@, channel@);
        }
        match find_key(&self.channels, &channel) {
            None => Err(ContractError::NotFound),
            Some(i) => {
                proof {
                    lemma_kv_index(self.channels@, i as int);
                }
                let mut out: Vec<u8> = Vec::new();
                let mut j: usize = 0;
                while j < self.channels[i].1.ratings.len()
                    invariant
                        i < self.channels@.len(),
                        j <= self.channels@[i as int].1.ratings@.len(),
                        out@ == self.channels@[i as int].1.ratings@.take(j as int),
                    decreases self.channels@[i as int].1.ratings@.len() - j,
                {
                    out.push(self.channels[i].1.ratings[j]);
                    proof {
                        assert(out@ =~= self.channels@[i as int].1.ratings@.take(j + 1));
                    }
                    j = j + 1;
                }
                proof {
                    assert(out@ =~= self.channels@[i as int].1.ratings@);
                }
                Ok(out)
            },
        }
    }

    /// Returns the channel's recorded viewer count.
    pub fn query_channel_viewers(&self, channel: String) -> (r: Result<u64, ContractError>)
        requires
            self.wf(),
        ensures
            match r {
                Ok(n) => self@.channels.contains_key(channel@) && n == self@.channels[
                    channel@
                ].viewer_count,
                Err(e) => !self@.channels.contains_key(channel@) && e == ContractError::NotFound,
            },
    {
        proof {
            lemma_kv_contains(self.channels@, channel@);
        }
        match find_key(&self.channels, &channel) {
            None => Err(ContractError::NotFound),
            Some(i) => {
                proof {
                    lemma_kv_index(self.channels@, i as int);
                }
                Ok(self.channels[i].1.viewer_count)
            },
        }
    }
}

/// What listing the channels returns: exactly the registered names,
/// each once, in strictly ascending lexical order.
pub open spec fn channel_listing(v: TelevisionView, names: Seq<String>) -> bool {
    &&& names.len() == v.channels.dom().len()
    &&& forall|i: int| 0 <= i < names.len() ==> v.channels.contains_key(#[trigger] names[i]@)
    &&& forall|k: Seq<char>| #[trigger] v.channels.contains_key(k) ==> exists|i: int|
        0 <= i < names.len() && names[i]@ == k
    &&& forall|i: int, j: int| 0 <= i < j < names.len() ==> lex_lt(names[i]@, names[j]@)
}

/// Sets up the empty system: no channels, no profiles.
pub fn instantiate(_msg: InstantiateMsg) -> (r: (Television, Response))
    ensures
        r.0.wf(),
        r.0@.channels == Map::<Seq<char>, ChannelStateView>::empty(),
        r.0@.users == Map::<Seq<char>, UserProfileView>::empty(),
        counts_consistent(r.0@),
        r.1@ == seq![("action"@, "instantiate"@)],
{
    let tv = Television { channels: Vec::new(), profiles: Vec::new() };
    let mut attributes: Vec<Attribute> = Vec::new();
    attributes.push(Attribute { key: "action".to_owned(), value: "instantiate".to_owned() });
    let resp = Response { attributes };
    proof {
        assert(resp@ =~= seq![("action"@, "instantiate"@)]);
    }
    (tv, resp)
}

/// The extra room a command needs so that completing it keeps the
/// viewer counts consistent: a creation must not shadow a name some
/// user still counts as watched, and a tune-in needs the user
/// population below the largest representable count.
pub open spec fn step_keeps_counts_hyp(pre: TelevisionView, msg: ExecuteMsg) -> bool {
    match msg {
        ExecuteMsg::CreateChannel { channel } => viewers(pre.users, channel@).len() == 0,
        ExecuteMsg::TuneIn { .. } => pre.users.dom().len() < u64::MAX,
        _ => true,
    }
}

/// Routes one mutating command, issued by `caller` at the given block
/// time and height, to its operation.
pub fn execute(
    tv: &mut Television,
    caller: String,
    now_time: u64,
    now_height: u64,
    msg: ExecuteMsg,
) -> (r: Result<Response, ContractError>)
    requires
        old(tv).wf(),
    ensures
        final(tv).wf(),
        match msg {
            ExecuteMsg::CreateChannel { channel } => create_channel_spec(
                old(tv)@,
                caller@,
                channel@,
                final(tv)@,
                r,
            ),
            ExecuteMsg::RemoveChannel { channel } => remove_channel_spec(
                old(tv)@,
                caller@,
                channel@,
                final(tv)@,
                r,
            ),
            ExecuteMsg::UpdateBroadcast { channel, broadcast } => update_broadcast_spec(
                old(tv)@,
                caller@,
                channel@,
                broadcast@,
                final(tv)@,
                r,
            ),
            ExecuteMsg::TuneIn { channel } => tune_in_spec(
                old(tv)@,
                caller@,
                channel@,
                now_time,
                now_height,
                final(tv)@,
                r,
            ),
            ExecuteMsg::RateBroadcast { channel, rating } => rate_broadcast_spec(
                old(tv)@,
                caller@,
                channel@,
                rating,
                final(tv)@,
                r,
            ),
            ExecuteMsg::TransferChannelOwnership { channel, new_owner } =>
                transfer_channel_ownership_spec(
                old(tv)@,
                caller@,
                channel@,
                new_owner@,
                final(tv)@,
                r,
            ),
        },
        counts_consistent(old(tv)@) && step_keeps_counts_hyp(old(tv)@, msg)
            ==> counts_consistent(final(tv)@),
{
    match msg {
        ExecuteMsg::CreateChannel { channel } => tv.try_create_channel(caller, channel),
        ExecuteMsg::RemoveChannel { channel } => tv.try_remove_channel(caller, channel),
        ExecuteMsg::UpdateBroadcast { channel, broadcast } => tv.try_update_broadcast(
            caller,
            channel,
            broadcast,
        ),
        ExecuteMsg::TuneIn { channel } => tv.try_tune_in(caller, channel, now_time, now_height),
        ExecuteMsg::RateBroadcast { channel, rating } => tv.try_rate_broadcast(
            caller,
            channel,
            rating,
        ),
        ExecuteMsg::TransferChannelOwnership { channel, new_owner } => tv
            .try_transfer_channel_ownership(caller, channel, new_owner),
    }
}

/// What each query returns, for every state it can be asked in.
pub open spec fn query_spec(
    v: TelevisionView,
    msg: QueryMsg,
    r: Result<QueryAnswer, ContractError>,
) -> bool {
    match msg {
        QueryMsg::GetCurrentBroadcast { channel } => if v.channels.contains_key(channel@) {
            r matches Ok(QueryAnswer::Broadcast(b)) && b@ == v.channels[channel@].broadcast
        } else {
            r == Err::<QueryAnswer, ContractError>(ContractError::NotFound)
        },
        QueryMsg::ListChannels {  } => r matches Ok(QueryAnswer::Channels(names))
            && channel_listing(v, names@),
        QueryMsg::GetUserProfile { user } => if v.users.contains_key(user@) {
            r matches Ok(QueryAnswer::Profile(p)) && p@ == v.users[user@]
        } else {
            r == Err::<QueryAnswer, ContractError>(ContractError::NotFound)
        },
        QueryMsg::GetChannelRatings { channel } => if v.channels.contains_key(channel@) {
            r matches Ok(QueryAnswer::Ratings(scores)) && scores@ == v.channels[channel@].ratings
        } else {
            r == Err::<QueryAnswer, ContractError>(ContractError::NotFound)
        },
        QueryMsg::GetChannelViewers { channel } => if v.channels.contains_key(channel@) {
            r matches Ok(QueryAnswer::Viewers(n)) && n == v.channels[channel@].viewer_count
        } else {
            r == Err::<QueryAnswer, ContractError>(ContractError::NotFound)
        },
    }
}

/// Routes one read-only query to its operation.
pub fn query(tv: &Television, msg: QueryMsg) -> (r: Result<QueryAnswer, ContractError>)
    requires
        tv.wf(),
    ensures
        query_spec(tv@, msg, r),
{
    match msg {
        QueryMsg::GetCurrentBroadcast { channel } => match tv.query_current_broadcast(channel) {
            Ok(b) => Ok(QueryAnswer::Broadcast(b)),
            Err(e) => Err(e),
        },
        QueryMsg::ListChannels {  } => Ok(QueryAnswer::Channels(tv.query_list_channels())),
        QueryMsg::GetUserProfile { user } => match tv.query_user_profile(user) {
            Ok(p) => Ok(QueryAnswer::Profile(p)),
            Err(e) => Err(e),
        },
        QueryMsg::GetChannelRatings { channel } => match tv.query_channel_ratings(channel) {
            Ok(v) => Ok(QueryAnswer::Ratings(v)),
            Err(e) => Err(e),
        },
        QueryMsg::GetChannelViewers { channel } => match tv.query_channel_viewers(channel) {
            Ok(n) => Ok(QueryAnswer::Viewers(n)),
            Err(e) => Err(e),
        },
    }
}

/// In a run of adjacently ordered keys, every earlier key comes before
/// every later one.
proof fn lemma_sorted_pairwise(s: Seq<(String, ChannelState)>, i: int, j: int)
    requires
        forall|k: int| 0 <= k < s.len() - 1 ==> lex_lt(s[k].0@, #[trigger] s[k + 1].0@),
        0 <= i < j < s.len(),
    ensures
        lex_lt(s[i].0@, s[j].0@),
    decreases j - i,
{
    if j == i + 1 {
        assert(lex_lt(s[i].0@, s[i + 1].0@));
    } else {
        lemma_sorted_pairwise(s, i, j - 1);
        assert(lex_lt(s[j - 1].0@, s[j - 1 + 1].0@));
        lemma_lex_trans(s[i].0@, s[j - 1].0@, s[j].0@);
    }
}

impl Television {
    /// Decides well-formedness, so that a host reconstructing a state
    /// from its store can test it before issuing commands.
    pub fn is_wf(&self) -> (r: bool)
        ensures
            r == self.wf(),
    {
        let mut i: usize = 0;
        while i < self.channels.len()
            invariant
                i <= self.channels@.len(),
                forall|k: int|
                    0 <= k < i && k + 1 < self.channels@.len() ==> lex_lt(
                        self.channels@[k].0@,
                        #[trigger] self.channels@[k + 1].0@,
                    ),
            decreases self.channels@.len() - i,
        {
            if i + 1 < self.channels.len() {
                if !str_lt(&self.channels[i].0, &self.channels[i + 1].0) {
                    return false;
                }
            }
            i = i + 1;
        }
        proof {
            assert forall|a: int, b: int| 0 <= a < b < self.channels@.len() implies lex_lt(
                self.channels@[a].0@,
                self.channels@[b].0@,
            ) by {
                lemma_sorted_pairwise(self.channels@, a, b);
            }
            assert forall|a: int, b: int| 0 <= a < b < self.channels@.len() implies self.channels@[
                a
            ].0@ != self.channels@[b].0@ by {
                lemma_lex_irrefl(self.channels@[a].0@);
            }
            assert(unique_keys(self.channels@));
        }
        let mut a: usize = 0;
        while a < self.profiles.len()
            invariant
                a <= self.profiles@.len(),
                forall|x: int, y: int|
                    0 <= x < y < self.profiles@.len() && x < a ==> self.profiles@[x].0@
                        != self.profiles@[y].0@,
            decreases self.profiles@.len() - a,
        {
            let mut b: usize = a + 1;
            while b < self.profiles.len()
                invariant
                    a < b,
                    a < self.profiles@.len(),
                    b <= self.profiles@.len(),
                    forall|y: int| a < y < b ==> self.profiles@[a as int].0@ != self.profiles@[y].0@,
                decreases self.profiles@.len() - b,
            {
                if self.profiles[a].0 == self.profiles[b].0 {
                    return false;
                }
                b = b + 1;
            }
            a = a + 1;
        }
        assert(unique_keys(self.profiles@));
        true
    }
}

} // verus!
