//! The ordered publish run: posts are submitted as a reply chain, each
//! created post is recorded by a rollback guard, and a failure anywhere lets
//! the guard name exactly the posts to delete. The network itself stays
//! outside; this module decides what to submit, what to record, and what to
//! roll back.

use vstd::prelude::*;

use crate::options::PostOptions;

verus! {

/// Who can see a post: the thread root is public so it can be discovered,
/// every reply is unlisted so only the root shows up on its own.
#[derive(PartialEq, Eq, Structural, Clone, Copy, Debug)]
pub enum PostVisibility {
    /// Independently discoverable; only the first post of a run.
    Public,
    /// Reachable through the thread only; every later post.
    Unlisted,
}

/// Everything the platform needs for one post of the chain.
pub struct PostSpec {
    /// The segment text, bytes of the rendered segment.
    pub text: Vec<u8>,
    /// Public for the thread root, unlisted for every reply.
    pub visibility: PostVisibility,
    /// The identifier of the previous post of the chain, absent for the root.
    pub in_reply_to: Option<String>,
    /// The run's content notice, attached uniformly to every post.
    pub content_notice: Option<Vec<u8>>,
}

/// The fixed language tag attached to every post.
pub fn post_language() -> (r: &'static str)
    ensures
        r@ =~= seq!['e', 'n'],
{
    proof {
        reveal_strlit("en");
    }
    "en"
}

/// Rollback guard: records every post created during the current run and,
/// while armed, names them all for deletion. Disarming it (only after the
/// whole run succeeded) makes the cleanup a no-op. It never names a post it
/// did not record.
pub struct PostDeleter {
    /// Identifiers of the posts created so far in this run, in order.
    pub posts: Vec<String>,
    /// Whether scope exit must delete the recorded posts.
    pub is_armed: bool,
}

impl PostDeleter {
    /// The recorded post identifiers, in creation order.
    pub open spec fn recorded(self) -> Seq<Seq<char>> {
        self.posts.deep_view()
    }

    /// A fresh guard: armed, with nothing recorded.
    pub fn new() -> (r: Self)
        ensures
            r.recorded() == Seq::<Seq<char>>::empty(),
            r.is_armed,
    {
        let r = PostDeleter { posts: Vec::new(), is_armed: true };
        proof {
            assert(r.recorded() =~= Seq::<Seq<char>>::empty());
        }
        r
    }

    /// Records a created post for possible rollback.
    pub fn add_post(&mut self, id: &str)
        ensures
            final(self).recorded() == old(self).recorded().push(id@),
            final(self).is_armed == old(self).is_armed,
    {
        self.posts.push(id.to_owned());
        proof {
            assert(self.recorded() =~= old(self).recorded().push(id@));
        }
    }

    /// Switches the cleanup off; used exactly once, after every segment was
    /// published.
    pub fn disarm(&mut self)
        ensures
            final(self).recorded() == old(self).recorded(),
            !final(self).is_armed,
    {
        self.is_armed = false;
    }

    /// Rollback-completeness: the posts a terminating run must delete are all
    /// the recorded ones while the guard is armed, and none once it was
    /// disarmed. The caller issues one delete per named identifier,
    /// best-effort, in any order.
    pub fn posts_to_delete(&self) -> (r: Option<&Vec<String>>)
        ensures
            match r {
                Some(ids) => self.is_armed && ids.deep_view() == self.recorded(),
                None => !self.is_armed,
            },
    {
        if self.is_armed {
            Some(&self.posts)
        } else {
            None
        }
    }
}

/// The content notice as a mathematical value.
pub open spec fn notice_view(o: Option<Vec<u8>>) -> Option<Seq<u8>> {
    match o {
        Some(v) => Some(v@),
        None => None,
    }
}

/// One publish run over a fixed list of segments: submits them in order as a
/// reply chain, records each created post in the rollback guard, and disarms
/// the guard only when every segment was posted.
pub struct PublishRun {
    /// The rendered segments, one post each, in order.
    pub segments: Vec<Vec<u8>>,
    /// The run's content notice, attached to every post.
    pub content_notice: Option<Vec<u8>>,
    /// The rollback guard of this run.
    pub deleter: PostDeleter,
    /// The identifier of the most recently created post.
    pub last_status: Option<String>,
}

impl PublishRun {
    /// The segment texts as mathematical values.
    pub open spec fn seg_views(self) -> Seq<Seq<u8>> {
        self.segments.deep_view()
    }

    /// How many posts were created so far.
    pub open spec fn posted(self) -> int {
        self.deleter.recorded().len() as int
    }

    /// A run is well-formed while no more posts were created than there are
    /// segments and the last-status handle names exactly the newest recorded
    /// post.
    pub open spec fn wf(self) -> bool {
        &&& self.posted() <= self.seg_views().len()
        &&& match self.last_status {
            Some(id) => self.posted() > 0 && id@ == self.deleter.recorded().last(),
            None => self.posted() == 0,
        }
    }

    /// Starts a run: nothing posted, the guard armed and empty.
    pub fn new(segments: Vec<Vec<u8>>, options: PostOptions) -> (r: Self)
        ensures
            r.wf(),
            r.posted() == 0,
            r.seg_views() == segments.deep_view(),
            notice_view(r.content_notice) == notice_view(options.content_notice),
            r.deleter.is_armed,
    {
        PublishRun {
            segments,
            content_notice: options.content_notice,
            deleter: PostDeleter::new(),
            last_status: None,
        }
    }

    /// Monotonic-ordering law, stated post by post: the next post to submit
    /// carries the next unposted segment; it is public exactly when it is the
    /// first of the chain, and otherwise replies to the most recently created
    /// post; the content notice is the run's, on every post. `None` comes
    /// exactly when every segment was posted.
    pub fn next_post(&self) -> (r: Option<PostSpec>)
        requires
            self.wf(),
        ensures
            match r {
                Some(p) => {
                    &&& self.posted() < self.seg_views().len()
                    &&& p.text@ == self.seg_views()[self.posted()]
                    &&& (p.visibility == PostVisibility::Public) <==> self.posted() == 0
                    &&& match p.in_reply_to {
                        Some(prev) => self.posted() > 0 && prev@
                            == self.deleter.recorded().last(),
                        None => self.posted() == 0,
                    }
                    &&& notice_view(p.content_notice) == notice_view(self.content_notice)
                },
                None => self.posted() == self.seg_views().len(),
            },
    {
        let k = self.deleter.posts.len();
        if k < self.segments.len() {
            let text = vstd::slice::slice_to_vec(
                vstd::slice::slice_index_get(self.segments.as_slice(), k).as_slice(),
            );
            let visibility = if k == 0 {
                PostVisibility::Public
            } else {
                PostVisibility::Unlisted
            };
            let in_reply_to = match &self.last_status {
                Some(id) => Some(id.clone()),
                None => None,
            };
            let content_notice = match &self.content_notice {
                Some(cn) => Some(vstd::slice::slice_to_vec(cn.as_slice())),
                None => None,
            };
            proof {
                assert(text@ == self.seg_views()[self.posted()]);
            }
            Some(PostSpec { text, visibility, in_reply_to, content_notice })
        } else {
            None
        }
    }

    /// Records that the platform created the next post under `id`: the guard
    /// remembers it for rollback and the reply chain continues from it.
    pub fn record_success(&mut self, id: &str)
        requires
            old(self).wf(),
            old(self).posted() < old(self).seg_views().len(),
        ensures
            final(self).wf(),
            final(self).posted() == old(self).posted() + 1,
            final(self).deleter.recorded() == old(self).deleter.recorded().push(id@),
            final(self).deleter.is_armed == old(self).deleter.is_armed,
            final(self).seg_views() == old(self).seg_views(),
            notice_view(final(self).content_notice) == notice_view(old(self).content_notice),
    {
        self.deleter.add_post(id);
        self.last_status = Some(id.to_owned());
    }

    /// Whether every segment was posted.
    pub fn is_complete(&self) -> (r: bool)
        ensures
            r == (self.posted() == self.seg_views().len()),
    {
        self.deleter.posts.len() == self.segments.len()
    }

    /// Rollback-completeness, success half: a run that created every post
    /// disarms its guard, so scope exit deletes nothing. Only a complete run
    /// may call this.
    pub fn finish(&mut self)
        requires
            old(self).wf(),
            old(self).posted() == old(self).seg_views().len(),
        ensures
            final(self).wf(),
            !final(self).deleter.is_armed,
            final(self).deleter.recorded() == old(self).deleter.recorded(),
            final(self).seg_views() == old(self).seg_views(),
    {
        self.deleter.disarm();
    }
}

} // verus!
