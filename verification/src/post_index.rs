//! Keeping the sorted sets of posts up to date, write by write.
//!
//! A write is a state machine: it names one action at a time, and steps on once
//! it is told the outcome. A write to a global set mirrors the score into the
//! ranked twin when the author is ranked.
use crate::post_stream;
use crate::post_stream::{
    to_author_posts_key, to_author_replies_key, to_bookmarks_key, to_post_replies_key, Bookmark,
    PostCounts, PostDetails, PostStream,
};
use crate::ranked_sync::MirroredSets;
use crate::sorted_set::{CommandModel, ReplyModel, ScoreAction, SortedSetCommand, SortedSetReply};
use crate::text;
use crate::text::{copy_texts, post_key};
use crate::types::StreamSorting;
use vstd::prelude::*;

verus! {

/// The ranked set that a score is mirrored into, and the post it is for.
#[derive(Debug)]
pub struct Mirror {
    pub ranked: Vec<String>,
    pub author_id: String,
    pub post_id: String,
}

/// What a write waits for.
#[derive(Debug)]
pub enum WriteStage {
    /// A member written at a score.
    Put { key: Vec<String>, member: String, score: i64, twin: Option<Mirror> },
    /// A member's score moved.
    Step { key: Vec<String>, member: String, action: ScoreAction, mirror: Mirror },
    /// Whether the author is ranked.
    Ranked { mirror: Mirror, score: i64 },
    /// A member removed, from a second set too if there is one.
    Remove { key: Vec<String>, member: String, also: Option<Vec<String>> },
    /// Nothing: all is written.
    Done,
    /// Nothing: it was told something that it had not asked for.
    Stuck,
}

/// `Mirror`, over plain sequences.
pub struct MirrorModel {
    pub ranked: Seq<Seq<char>>,
    pub author_id: Seq<char>,
    pub post_id: Seq<char>,
}

/// `WriteStage`, over plain sequences.
pub enum WriteModel {
    Put { key: Seq<Seq<char>>, member: Seq<char>, score: i64, twin: Option<MirrorModel> },
    Step { key: Seq<Seq<char>>, member: Seq<char>, action: ScoreAction, mirror: MirrorModel },
    Ranked { mirror: MirrorModel, score: i64 },
    Remove { key: Seq<Seq<char>>, member: Seq<char>, also: Option<Seq<Seq<char>>> },
    Done,
    Stuck,
}

impl View for Mirror {
    type V = MirrorModel;

    open spec fn view(&self) -> MirrorModel {
        MirrorModel {
            ranked: self.ranked.deep_view(),
            author_id: self.author_id@,
            post_id: self.post_id@,
        }
    }
}

impl View for WriteStage {
    type V = WriteModel;

    open spec fn view(&self) -> WriteModel {
        match *self {
            WriteStage::Put { key, member, score, twin } => WriteModel::Put {
                key: key.deep_view(),
                member: member@,
                score,
                twin: match twin {
                    Some(mirror) => Some(mirror@),
                    None => None,
                },
            },
            WriteStage::Step { key, member, action, mirror } => WriteModel::Step {
                key: key.deep_view(),
                member: member@,
                action,
                mirror: mirror@,
            },
            WriteStage::Ranked { mirror, score } => WriteModel::Ranked { mirror: mirror@, score },
            WriteStage::Remove { key, member, also } => WriteModel::Remove {
                key: key.deep_view(),
                member: member@,
                also: also.deep_view(),
            },
            WriteStage::Done => WriteModel::Done,
            WriteStage::Stuck => WriteModel::Stuck,
        }
    }
}

/// What a write asks of its surroundings.
#[derive(Debug)]
pub enum WriteAction {
    /// Send a command to the store.
    Store(SortedSetCommand),
    /// Tell whether the trust ranking holds a user.
    IsRanked { user_id: String },
}

/// What a write is told.
#[derive(Debug)]
pub enum WriteEvent {
    Store(SortedSetReply),
    Ranked(bool),
}

/// `WriteAction`, over plain sequences.
pub enum WriteAsk {
    Store(CommandModel),
    IsRanked { user_id: Seq<char> },
}

/// `WriteEvent`, over plain sequences.
pub enum WriteHeard {
    Store(ReplyModel),
    Ranked(bool),
}

impl View for WriteAction {
    type V = WriteAsk;

    open spec fn view(&self) -> WriteAsk {
        match *self {
            WriteAction::Store(command) => WriteAsk::Store(command@),
            WriteAction::IsRanked { user_id } => WriteAsk::IsRanked { user_id: user_id@ },
        }
    }
}

impl View for WriteEvent {
    type V = WriteHeard;

    open spec fn view(&self) -> WriteHeard {
        match *self {
            WriteEvent::Store(reply) => WriteHeard::Store(reply@),
            WriteEvent::Ranked(yes) => WriteHeard::Ranked(yes),
        }
    }
}

impl WriteModel {
    /// What is asked for in this stage.
    pub open spec fn action(self) -> Option<WriteAsk> {
        match self {
            WriteModel::Put { key, member, score, .. } => Some(
                WriteAsk::Store(CommandModel::Put { key, elements: seq![(score, member)] }),
            ),
            WriteModel::Step { key, member, action, .. } => Some(
                WriteAsk::Store(CommandModel::Step { key, member, action }),
            ),
            WriteModel::Ranked { mirror, .. } => Some(
                WriteAsk::IsRanked { user_id: mirror.author_id },
            ),
            WriteModel::Remove { key, member, .. } => Some(
                WriteAsk::Store(CommandModel::Remove { key, members: seq![member] }),
            ),
            WriteModel::Done => None,
            WriteModel::Stuck => None,
        }
    }

    /// The stage that follows once `heard` was told. A score that was written
    /// to a global set is written to the twin as it is: to move the twin's own
    /// score would create a member that was not there.
    pub open spec fn next(self, heard: WriteHeard) -> WriteModel {
        match (self, heard) {
            (
                WriteModel::Put { score, twin, .. },
                WriteHeard::Store(ReplyModel::Done),
            ) => match twin {
                Some(mirror) => WriteModel::Ranked { mirror, score },
                None => WriteModel::Done,
            },
            (
                WriteModel::Step { mirror, .. },
                WriteHeard::Store(ReplyModel::Score(score)),
            ) => WriteModel::Ranked { mirror, score },
            (WriteModel::Ranked { mirror, score }, WriteHeard::Ranked(yes)) => if yes {
                WriteModel::Put {
                    key: mirror.ranked,
                    member: text::post_key_of(mirror.author_id, mirror.post_id),
                    score,
                    twin: None,
                }
            } else {
                WriteModel::Done
            },
            (
                WriteModel::Remove { member, also, .. },
                WriteHeard::Store(ReplyModel::Done),
            ) => match also {
                Some(key) => WriteModel::Remove { key, member, also: None },
                None => WriteModel::Done,
            },
            _ => WriteModel::Stuck,
        }
    }
}

/// A write to the sorted sets of posts.
#[derive(Debug)]
pub struct IndexWrite {
    pub stage: WriteStage,
}

impl IndexWrite {
    /// What to do next; nothing once the write is over.
    pub fn action(&self) -> (action: Option<WriteAction>)
        ensures
            match action {
                Some(asked) => self.stage@.action() == Some(asked@),
                None => self.stage@.action() is None,
            },
    {
        match &self.stage {
            WriteStage::Put { key, member, score, .. } => {
                let elements: Vec<(i64, String)> = vec![(*score, member.clone())];
                assert(elements.deep_view() =~= seq![(*score, member@)]);
                Some(WriteAction::Store(SortedSetCommand::Put { key: copy_texts(key), elements }))
            },
            WriteStage::Step { key, member, action, .. } => Some(
                WriteAction::Store(
                    SortedSetCommand::Step {
                        key: copy_texts(key),
                        member: member.clone(),
                        action: *action,
                    },
                ),
            ),
            WriteStage::Ranked { mirror, .. } => Some(
                WriteAction::IsRanked { user_id: mirror.author_id.clone() },
            ),
            WriteStage::Remove { key, member, .. } => {
                let members: Vec<String> = vec![member.clone()];
                assert(members.deep_view() =~= seq![member@]);
                Some(WriteAction::Store(SortedSetCommand::Remove { key: copy_texts(key), members }))
            },
            WriteStage::Done => None,
            WriteStage::Stuck => None,
        }
    }

    /// The write once the outcome of its action was told.
    pub fn step(self, event: WriteEvent) -> (next: IndexWrite)
        ensures
            next.stage@ == self.stage@.next(event@),
    {
        let stage = match (self.stage, event) {
            (
                WriteStage::Put { score, twin, .. },
                WriteEvent::Store(SortedSetReply::Done),
            ) => match twin {
                Some(mirror) => WriteStage::Ranked { mirror, score },
                None => WriteStage::Done,
            },
            (
                WriteStage::Step { mirror, .. },
                WriteEvent::Store(SortedSetReply::Score(score)),
            ) => WriteStage::Ranked { mirror, score },
            (WriteStage::Ranked { mirror, score }, WriteEvent::Ranked(yes)) => if yes {
                let member = post_key(mirror.author_id.as_str(), mirror.post_id.as_str());
                WriteStage::Put { key: mirror.ranked, member, score, twin: None }
            } else {
                WriteStage::Done
            },
            (
                WriteStage::Remove { member, also, .. },
                WriteEvent::Store(SortedSetReply::Done),
            ) => match also {
                Some(key) => WriteStage::Remove { key, member, also: None },
                None => WriteStage::Done,
            },
            _ => WriteStage::Stuck,
        };
        IndexWrite { stage }
    }
}

/// A member written to a set that has no twin.
pub open spec fn put_start(key: Seq<Seq<char>>, member: Seq<char>, score: i64) -> WriteModel {
    WriteModel::Put { key, member, score, twin: None }
}

/// A member removed from a set that has no twin.
pub open spec fn remove_start(key: Seq<Seq<char>>, member: Seq<char>) -> WriteModel {
    WriteModel::Remove { key, member, also: None }
}

/// A post written to a global set, and to the twin if its author is ranked.
pub open spec fn mirrored_put_start(
    sorting: StreamSorting,
    author: Seq<char>,
    post: Seq<char>,
    score: i64,
) -> WriteModel {
    WriteModel::Put {
        key: post_stream::sets_for(sorting).global,
        member: text::post_key_of(author, post),
        score,
        twin: Some(
            MirrorModel {
                ranked: post_stream::sets_for(sorting).ranked,
                author_id: author,
                post_id: post,
            },
        ),
    }
}

/// A post removed from a global set and its twin.
pub open spec fn mirrored_remove_start(
    sorting: StreamSorting,
    author: Seq<char>,
    post: Seq<char>,
) -> WriteModel {
    WriteModel::Remove {
        key: post_stream::sets_for(sorting).global,
        member: text::post_key_of(author, post),
        also: Some(post_stream::sets_for(sorting).ranked),
    }
}

/// A post's engagement moved in the global set, and written to the twin if its
/// author is ranked.
pub open spec fn engagement_step_start(
    author: Seq<char>,
    post: Seq<char>,
    action: ScoreAction,
) -> WriteModel {
    let sets = post_stream::sets_for(StreamSorting::TotalEngagement);
    WriteModel::Step {
        key: sets.global,
        member: text::post_key_of(author, post),
        action,
        mirror: MirrorModel { ranked: sets.ranked, author_id: author, post_id: post },
    }
}

/// The engagement of a post: how often it was tagged, replied to or reposted.
pub open spec fn engagement(counts: PostCounts) -> int {
    counts.tags + counts.replies + counts.reposts
}

/// Adding a post to the global timeline.
pub open spec fn timeline_put(author: Seq<char>, post: Seq<char>, indexed_at: i64) -> WriteModel {
    mirrored_put_start(StreamSorting::Timeline, author, post, indexed_at)
}

/// Removing a post from the global timeline.
pub open spec fn timeline_remove(author: Seq<char>, post: Seq<char>) -> WriteModel {
    mirrored_remove_start(StreamSorting::Timeline, author, post)
}

/// Adding a post to the global engagement set.
pub open spec fn engagement_put(
    counts: PostCounts,
    author: Seq<char>,
    post: Seq<char>,
) -> WriteModel {
    mirrored_put_start(
        StreamSorting::TotalEngagement,
        author,
        post,
        engagement(counts) as i64,
    )
}

/// Removing a post from the global engagement set.
pub open spec fn engagement_remove(author: Seq<char>, post: Seq<char>) -> WriteModel {
    mirrored_remove_start(StreamSorting::TotalEngagement, author, post)
}

/// Adding a post to its author's root posts.
pub open spec fn own_post_put(author: Seq<char>, post: Seq<char>, indexed_at: i64) -> WriteModel {
    put_start(post_stream::author_posts_key(author), post, indexed_at)
}

/// Removing a post from its author's root posts.
pub open spec fn own_post_remove(author: Seq<char>, post: Seq<char>) -> WriteModel {
    remove_start(post_stream::author_posts_key(author), post)
}

/// Adding a reply to its author's replies.
pub open spec fn own_reply_put(author: Seq<char>, post: Seq<char>, indexed_at: i64) -> WriteModel {
    put_start(post_stream::author_replies_key(author), post, indexed_at)
}

/// Removing a reply from its author's replies.
pub open spec fn own_reply_remove(author: Seq<char>, post: Seq<char>) -> WriteModel {
    remove_start(post_stream::author_replies_key(author), post)
}

/// Adding a reply to the replies of its parent, given by author and post.
pub open spec fn reply_put(
    parent: (Seq<char>, Seq<char>),
    author: Seq<char>,
    reply: Seq<char>,
    indexed_at: i64,
) -> WriteModel {
    put_start(
        post_stream::post_replies_key(parent.0, parent.1),
        text::post_key_of(author, reply),
        indexed_at,
    )
}

/// Removing a reply from the replies of its parent, given by author and post.
pub open spec fn reply_remove(
    parent: (Seq<char>, Seq<char>),
    author: Seq<char>,
    reply: Seq<char>,
) -> WriteModel {
    remove_start(
        post_stream::post_replies_key(parent.0, parent.1),
        text::post_key_of(author, reply),
    )
}

/// Adding a post to a user's bookmarks.
pub open spec fn bookmark_put(
    user: Seq<char>,
    author: Seq<char>,
    post: Seq<char>,
    indexed_at: i64,
) -> WriteModel {
    put_start(post_stream::bookmarks_key(user), text::post_key_of(author, post), indexed_at)
}

/// Removing a post from a user's bookmarks.
pub open spec fn bookmark_remove(user: Seq<char>, author: Seq<char>, post: Seq<char>) -> WriteModel {
    remove_start(post_stream::bookmarks_key(user), text::post_key_of(author, post))
}

/// Writing a post to the ranked twin of a sort, if its author is ranked.
pub open spec fn mirror_start(
    sorting: StreamSorting,
    author: Seq<char>,
    post: Seq<char>,
    score: i64,
) -> WriteModel {
    WriteModel::Ranked {
        mirror: MirrorModel {
            ranked: post_stream::sets_for(sorting).ranked,
            author_id: author,
            post_id: post,
        },
        score,
    }
}

/// Writes a post to a global set at `score`, and mirrors it.
fn mirrored_put(sorting: StreamSorting, author_id: &str, post_id: &str, score: i64) -> (write:
    IndexWrite)
    ensures
        write.stage@ == mirrored_put_start(sorting, author_id@, post_id@, score),
{
    let sets = MirroredSets::for_sorting(sorting);
    IndexWrite {
        stage: WriteStage::Put {
            key: sets.global,
            member: post_key(author_id, post_id),
            score,
            twin: Some(
                Mirror {
                    ranked: sets.ranked,
                    author_id: author_id.to_owned(),
                    post_id: post_id.to_owned(),
                },
            ),
        },
    }
}

/// Removes a post from a global set and its ranked twin.
fn remove_from_sets(sorting: StreamSorting, author_id: &str, post_id: &str) -> (write: IndexWrite)
    ensures
        write.stage@ == mirrored_remove_start(sorting, author_id@, post_id@),
{
    let sets = MirroredSets::for_sorting(sorting);
    IndexWrite {
        stage: WriteStage::Remove {
            key: sets.global,
            member: post_key(author_id, post_id),
            also: Some(sets.ranked),
        },
    }
}

impl PostStream {
    /// Writes the post at `score` into the ranked set of `sorting` when its
    /// author is ranked. Unranked authors are left alone.
    pub fn mirror_ranked(
        sorting: StreamSorting,
        author_id: &str,
        post_id: &str,
        score: i64,
    ) -> (write: IndexWrite)
        ensures
            write.stage@ == mirror_start(sorting, author_id@, post_id@, score),
    {
        let sets = MirroredSets::for_sorting(sorting);
        IndexWrite {
            stage: WriteStage::Ranked {
                mirror: Mirror {
                    ranked: sets.ranked,
                    author_id: author_id.to_owned(),
                    post_id: post_id.to_owned(),
                },
                score,
            },
        }
    }

    /// Adds the post to the global timeline at the time it was indexed.
    pub fn add_to_timeline_sorted_set(details: &PostDetails) -> (write: IndexWrite)
        ensures
            write.stage@ == timeline_put(details.author@, details.id@, details.indexed_at),
            write.stage matches WriteStage::Put { member, score, .. } && member@ == details.author@
                + seq![':'] + details.id@ && score == details.indexed_at,
    {
        mirrored_put(
            StreamSorting::Timeline,
            details.author.as_str(),
            details.id.as_str(),
            details.indexed_at,
        )
    }

    /// Removes the post from the global timeline set and its ranked twin.
    pub fn remove_from_timeline_sorted_set(author_id: &str, post_id: &str) -> (write: IndexWrite)
        ensures
            write.stage@ == timeline_remove(author_id@, post_id@),
    {
        remove_from_sets(StreamSorting::Timeline, author_id, post_id)
    }

    /// Adds the post to its author's root posts at the time it was indexed.
    pub fn add_to_per_user_sorted_set(details: &PostDetails) -> (write: IndexWrite)
        ensures
            write.stage@ == own_post_put(details.author@, details.id@, details.indexed_at),
    {
        IndexWrite {
            stage: WriteStage::Put {
                key: to_author_posts_key(details.author.as_str()),
                member: details.id.clone(),
                score: details.indexed_at,
                twin: None,
            },
        }
    }

    /// Removes the post from its author's root posts.
    pub fn remove_from_per_user_sorted_set(author_id: &str, post_id: &str) -> (write: IndexWrite)
        ensures
            write.stage@ == own_post_remove(author_id@, post_id@),
    {
        IndexWrite {
            stage: WriteStage::Remove {
                key: to_author_posts_key(author_id),
                member: post_id.to_owned(),
                also: None,
            },
        }
    }

    /// Adds the reply to the replies of its parent, which is named by author and
    /// post id, at the time it was indexed.
    pub fn add_to_post_reply_sorted_set(
        parent_post_key_parts: (&str, &str),
        author_id: &str,
        reply_id: &str,
        indexed_at: i64,
    ) -> (write: IndexWrite)
        ensures
            write.stage@ == reply_put(
                (parent_post_key_parts.0@, parent_post_key_parts.1@),
                author_id@,
                reply_id@,
                indexed_at,
            ),
    {
        IndexWrite {
            stage: WriteStage::Put {
                key: to_post_replies_key(parent_post_key_parts.0, parent_post_key_parts.1),
                member: post_key(author_id, reply_id),
                score: indexed_at,
                twin: None,
            },
        }
    }

    /// Removes the reply from the replies of its parent.
    pub fn remove_from_post_reply_sorted_set(
        parent_post_key_parts: (&str, &str),
        author_id: &str,
        reply_id: &str,
    ) -> (write: IndexWrite)
        ensures
            write.stage@ == reply_remove(
                (parent_post_key_parts.0@, parent_post_key_parts.1@),
                author_id@,
                reply_id@,
            ),
    {
        IndexWrite {
            stage: WriteStage::Remove {
                key: to_post_replies_key(parent_post_key_parts.0, parent_post_key_parts.1),
                member: post_key(author_id, reply_id),
                also: None,
            },
        }
    }

    /// Adds the reply to its author's replies at the time it was indexed.
    pub fn add_to_replies_per_user_sorted_set(details: &PostDetails) -> (write: IndexWrite)
        ensures
            write.stage@ == own_reply_put(details.author@, details.id@, details.indexed_at),
    {
        IndexWrite {
            stage: WriteStage::Put {
                key: to_author_replies_key(details.author.as_str()),
                member: details.id.clone(),
                score: details.indexed_at,
                twin: None,
            },
        }
    }

    /// Removes the reply from its author's replies.
    pub fn remove_from_replies_per_user_sorted_set(author_id: &str, post_id: &str) -> (write:
        IndexWrite)
        ensures
            write.stage@ == own_reply_remove(author_id@, post_id@),
    {
        IndexWrite {
            stage: WriteStage::Remove {
                key: to_author_replies_key(author_id),
                member: post_id.to_owned(),
                also: None,
            },
        }
    }

    /// Adds the post to a user's bookmarks at the time of the bookmark.
    pub fn add_to_bookmarks_sorted_set(
        bookmark: &Bookmark,
        bookmarker_id: &str,
        post_id: &str,
        author_id: &str,
    ) -> (write: IndexWrite)
        ensures
            write.stage@ == bookmark_put(
                bookmarker_id@,
                author_id@,
                post_id@,
                bookmark.indexed_at,
            ),
    {
        IndexWrite {
            stage: WriteStage::Put {
                key: to_bookmarks_key(bookmarker_id),
                member: post_key(author_id, post_id),
                score: bookmark.indexed_at,
                twin: None,
            },
        }
    }

    /// Removes the post from a user's bookmarks.
    pub fn remove_from_bookmarks_sorted_set(
        bookmarker_id: &str,
        post_id: &str,
        author_id: &str,
    ) -> (write: IndexWrite)
        ensures
            write.stage@ == bookmark_remove(bookmarker_id@, author_id@, post_id@),
    {
        IndexWrite {
            stage: WriteStage::Remove {
                key: to_bookmarks_key(bookmarker_id),
                member: post_key(author_id, post_id),
                also: None,
            },
        }
    }

    /// Adds the post to the global engagement set at its total engagement.
    pub fn add_to_engagement_sorted_set(
        counts: &PostCounts,
        author_id: &str,
        post_id: &str,
    ) -> (write: IndexWrite)
        requires
            engagement(*counts) <= u32::MAX,
        ensures
            write.stage@ == engagement_put(*counts, author_id@, post_id@),
            write.stage matches WriteStage::Put { member, score, .. } && member@ == author_id@
                + seq![':'] + post_id@ && score == counts.tags + counts.replies + counts.reposts,
    {
        let score: u32 = counts.tags + counts.replies + counts.reposts;
        mirrored_put(StreamSorting::TotalEngagement, author_id, post_id, score as i64)
    }

    /// Removes the post from the global engagement set and its ranked twin.
    pub fn delete_from_engagement_sorted_set(author_id: &str, post_id: &str) -> (write: IndexWrite)
        ensures
            write.stage@ == engagement_remove(author_id@, post_id@),
    {
        remove_from_sets(StreamSorting::TotalEngagement, author_id, post_id)
    }

    /// Moves the post's engagement score by `score_action` in the global set,
    /// and mirrors it into the ranked set. Callers gate on the post being a root
    /// post already in the index: the store creates an absent member.
    pub fn update_index_score(author_id: &str, post_id: &str, score_action: ScoreAction) -> (write:
        IndexWrite)
        ensures
            write.stage@ == engagement_step_start(author_id@, post_id@, score_action),
    {
        let sets = MirroredSets::for_sorting(StreamSorting::TotalEngagement);
        IndexWrite {
            stage: WriteStage::Step {
                key: sets.global,
                member: post_key(author_id, post_id),
                action: score_action,
                mirror: Mirror {
                    ranked: sets.ranked,
                    author_id: author_id.to_owned(),
                    post_id: post_id.to_owned(),
                },
            },
        }
    }
}

/// What a write asks is taken for what it is, and so is what it is told.
pub proof fn law_a_write_is_taken_for_what_it_is(
    action: WriteAction,
    event: WriteEvent,
    mirror: Mirror,
)
    ensures
        match action {
            WriteAction::Store(command) => action@ == WriteAsk::Store(command@),
            WriteAction::IsRanked { user_id } => action@ == (WriteAsk::IsRanked {
                user_id: user_id@,
            }),
        },
        match event {
            WriteEvent::Store(reply) => event@ == WriteHeard::Store(reply@),
            WriteEvent::Ranked(yes) => event@ == WriteHeard::Ranked(yes),
        },
        mirror@.ranked == mirror.ranked.deep_view(),
        mirror@.author_id == mirror.author_id@,
        mirror@.post_id == mirror.post_id@,
{
}

} // verus!
