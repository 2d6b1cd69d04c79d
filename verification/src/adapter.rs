//! Where a conversation takes place.

use crate::proto::copy_text;
use vstd::prelude::*;
use vstd::string::*;

verus! {

/// A channel, or a thread in it.
#[derive(Debug, PartialEq, Eq)]
pub struct ChannelRef {
    pub platform: String,
    pub channel_id: String,
    pub thread_id: Option<String>,
    pub parent_id: Option<String>,
    pub origin_event_id: Option<String>,
}

/// What a [`ChannelRef`] says.
#[verifier::ext_equal]
pub struct ChannelView {
    pub platform: Seq<char>,
    pub channel_id: Seq<char>,
    pub thread_id: Option<Seq<char>>,
    pub parent_id: Option<Seq<char>>,
    pub origin_event_id: Option<Seq<char>>,
}

impl View for ChannelRef {
    type V = ChannelView;

    open spec fn view(&self) -> ChannelView {
        ChannelView {
            platform: self.platform@,
            channel_id: self.channel_id@,
            thread_id: self.thread_id.deep_view(),
            parent_id: self.parent_id.deep_view(),
            origin_event_id: self.origin_event_id.deep_view(),
        }
    }
}

impl ChannelView {
    /// The key of the session that a conversation here belongs to.
    pub open spec fn session_pool_key(self) -> Seq<char> {
        self.platform + ":"@ + match self.thread_id {
            Some(t) => t,
            None => self.channel_id,
        }
    }
}

impl Clone for ChannelRef {
    fn clone(&self) -> (r: Self)
        ensures
            r@ == self@,
    {
        ChannelRef {
            platform: self.platform.clone(),
            channel_id: self.channel_id.clone(),
            thread_id: copy_text(&self.thread_id),
            parent_id: copy_text(&self.parent_id),
            origin_event_id: copy_text(&self.origin_event_id),
        }
    }
}

impl ChannelRef {
    /// The key of the session that a conversation here belongs to: the thread
    /// where there is one, else the channel.
    pub fn session_pool_key(&self) -> (r: String)
        ensures
            r@ == self@.session_pool_key(),
    {
        let mut k = self.platform.clone();
        k.append(":");
        match &self.thread_id {
            Some(t) => k.append(t.as_str()),
            None => k.append(self.channel_id.as_str()),
        }
        k
    }
}

/// A conversation in a thread is the thread's, wherever the thread hangs; one
/// outside any is the channel's. The platform stands in front of either.
pub proof fn law_threads_have_their_own_sessions(c: ChannelView, d: ChannelView)
    ensures
        c.thread_id matches Some(t) ==> c.session_pool_key() == c.platform + ":"@ + t,
        c.thread_id is None ==> c.session_pool_key() == c.platform + ":"@ + c.channel_id,
        c.platform == d.platform && c.thread_id is Some && d.thread_id is Some && c.thread_id
            != d.thread_id ==> c.session_pool_key() != d.session_pool_key(),
        c.platform == d.platform && c.thread_id is None && d.thread_id is None && c.channel_id
            != d.channel_id ==> c.session_pool_key() != d.session_pool_key(),
{
    let n = c.platform.len() + ":"@.len();
    let (x, y) = (c.session_pool_key(), d.session_pool_key());
    match c.thread_id {
        Some(t) => {
            assert(x.skip(n as int) =~= t);
        },
        None => {
            assert(x.skip(n as int) =~= c.channel_id);
        },
    }
    if c.platform == d.platform {
        match d.thread_id {
            Some(t) => {
                assert(y.skip(n as int) =~= t);
            },
            None => {
                assert(y.skip(n as int) =~= d.channel_id);
            },
        }
    }
}

} // verus!
