//! Keeping the ranked twins of the global post sets in line with the ranking.
//!
//! A sync is a state machine: it names one action at a time, and steps on once
//! it is told the reply. What a whole run does to the store is stated and
//! proved in `ranked_sync_laws`.
use crate::sorted_set::{CommandModel, ReplyModel, SortOrder, SortedSetCommand, SortedSetReply};
use crate::text;
use crate::text::{copy_texts, key_author, post_key};
use vstd::prelude::*;

verus! {

/// Members read or written per command while syncing the twins: every command
/// stays short however large the sets grow.
pub const RANKED_SYNC_CHUNK: usize = 1000;

/// A full build re-mirrors global timeline entries indexed from this long
/// before it started, covering writes the swap would drop and clock skew
/// between the watcher and the build.
pub const RANKED_BUILD_CATCH_UP_MS: i64 = 60_000;

/// A global `author:post` sorted set and its ranked twin, with the scratch
/// keys a full build stages the twin in and moves the old one aside to.
#[derive(Debug)]
pub struct MirroredSets {
    pub global: Vec<String>,
    pub ranked: Vec<String>,
    pub staged: Vec<String>,
    pub aside: Vec<String>,
}

/// Every key a sync of the ranked sets reads or writes.
#[derive(Debug)]
pub struct RankedSyncKeys {
    /// The published ranking.
    pub ranking: Vec<String>,
    /// Prefix of the per-author root post sets, which the author's id completes.
    pub author_posts: Vec<String>,
    pub timeline: MirroredSets,
    pub engagement: MirroredSets,
    /// The ranking the twins were last synced to. A sync diffs the published
    /// ranking against it, and only replaces it once the twins match.
    pub synced: Vec<String>,
    /// The ranking this sync applies, copied once so a concurrent publish
    /// cannot change it mid-sync.
    pub target: Vec<String>,
    /// Scratch key `synced` is moved to while `target` replaces it.
    pub aside: Vec<String>,
}

/// The keys of `MirroredSets`, over plain sequences.
pub struct MirroredKeys {
    pub global: Seq<Seq<char>>,
    pub ranked: Seq<Seq<char>>,
    pub staged: Seq<Seq<char>>,
    pub aside: Seq<Seq<char>>,
}

/// The keys of `RankedSyncKeys`, over plain sequences.
pub struct SyncKeys {
    pub ranking: Seq<Seq<char>>,
    pub author_posts: Seq<Seq<char>>,
    pub timeline: MirroredKeys,
    pub engagement: MirroredKeys,
    pub synced: Seq<Seq<char>>,
    pub target: Seq<Seq<char>>,
    pub aside: Seq<Seq<char>>,
}

impl View for MirroredSets {
    type V = MirroredKeys;

    open spec fn view(&self) -> MirroredKeys {
        MirroredKeys {
            global: self.global.deep_view(),
            ranked: self.ranked.deep_view(),
            staged: self.staged.deep_view(),
            aside: self.aside.deep_view(),
        }
    }
}

impl View for RankedSyncKeys {
    type V = SyncKeys;

    open spec fn view(&self) -> SyncKeys {
        SyncKeys {
            ranking: self.ranking.deep_view(),
            author_posts: self.author_posts.deep_view(),
            timeline: self.timeline@,
            engagement: self.engagement@,
            synced: self.synced.deep_view(),
            target: self.target.deep_view(),
            aside: self.aside.deep_view(),
        }
    }
}

impl SyncKeys {
    /// The global set and its twin for one of the two sorts.
    pub open spec fn sets(self, which: Twin) -> MirroredKeys {
        match which {
            Twin::Timeline => self.timeline,
            Twin::Engagement => self.engagement,
        }
    }

    /// The set of `author`'s root posts.
    pub open spec fn posts_of(self, author: Seq<char>) -> Seq<Seq<char>> {
        self.author_posts.push(author)
    }

    /// The keys that only mean something while a ranking exists.
    pub open spec fn derived(self) -> Seq<Seq<Seq<char>>> {
        seq![
            self.timeline.ranked,
            self.timeline.staged,
            self.timeline.aside,
            self.engagement.ranked,
            self.engagement.staged,
            self.engagement.aside,
            self.synced,
            self.target,
            self.aside,
        ]
    }
}

/// Which of the two mirrored sorts a command is about.
#[derive(Debug, Clone, Copy, PartialEq, Eq, Structural)]
pub enum Twin {
    Timeline,
    Engagement,
}

/// Where the comparison of the two rankings stands: the side that is paged, the
/// authors who entered (`entered`) or those who left, and the rank the page starts at.
#[derive(Debug, Clone, Copy, PartialEq, Eq, Structural)]
pub struct DiffPos {
    pub entered: bool,
    pub from: usize,
}

/// Where the sync of one author's posts stands: the changed authors of the same
/// page that come after, whether that page was full, and the rank that the
/// page of posts starts at.
#[derive(Debug)]
pub struct AuthorPos {
    pub diff: DiffPos,
    pub author: String,
    pub rest: Vec<String>,
    pub more_authors: bool,
    pub from: usize,
}

/// Where a walk over the global timeline stands: whether it writes to the live
/// twins or to the staged ones, the score a catch-up starts from, the score to
/// read on from, and how many entries at that score were read.
#[derive(Debug, Clone, Copy, PartialEq, Eq, Structural)]
pub struct Walk {
    pub live: bool,
    pub catch_up: i64,
    pub cursor: Option<i64>,
    pub seen: usize,
}

/// What a sync waits for.
#[derive(Debug)]
pub enum SyncPhase {
    /// Whether there is a ranking.
    CheckRanking,
    /// The removal of the twins and every sync key.
    Drop,
    /// The removal of an earlier target.
    ClearTarget,
    /// A page of the ranking.
    CopyRead { from: usize },
    /// The copy of that page to the target.
    CopyWrite { from: usize, elements: Vec<(i64, String)>, more: bool },
    /// Whether there was an earlier sync.
    CheckSynced,
    /// Whether the timeline twin is there.
    CheckTimeline,
    /// Whether the engagement twin is there.
    CheckEngagement,
    /// A page of one ranking.
    DiffRead { diff: DiffPos },
    /// The scores of that page in the other ranking.
    DiffScores { diff: DiffPos, authors: Vec<String>, more: bool },
    /// A page of a changed author's posts.
    AuthorRead { at: AuthorPos },
    /// The global scores of that page.
    AuthorScores { at: AuthorPos, which: Twin, posts: Vec<String>, more: bool },
    /// The write of the scored posts to a twin.
    AuthorPut {
        at: AuthorPos,
        which: Twin,
        posts: Vec<String>,
        elements: Vec<(i64, String)>,
        more: bool,
    },
    /// The removal of the posts from a twin.
    AuthorRemove { at: AuthorPos, which: Twin, posts: Vec<String>, more: bool },
    /// The time a full build starts at.
    ReadClock,
    /// The removal of earlier staged twins.
    ClearStaged { catch_up: i64 },
    /// A page of the global timeline.
    WalkRead { walk: Walk },
    /// The ranks of that page's authors.
    WalkRanks { walk: Walk, page: Vec<(String, i64)> },
    /// The global engagement scores of the entries by ranked authors.
    WalkScores { walk: Walk, page: Vec<(String, i64)>, timeline: Vec<(i64, String)> },
    /// The write of the ranked entries to the timeline twin.
    WalkPutTimeline {
        walk: Walk,
        page: Vec<(String, i64)>,
        timeline: Vec<(i64, String)>,
        engagement: Vec<(i64, String)>,
    },
    /// The write of the ranked entries to the engagement twin.
    WalkPutEngagement { walk: Walk, page: Vec<(String, i64)>, engagement: Vec<(i64, String)> },
    /// The swap of a staged twin for the live one.
    Swap { which: Twin, catch_up: i64 },
    /// The swap of the target for the record of the last sync.
    Commit,
    /// Nothing: the twins match the ranking.
    Done,
    /// Nothing: a reply was not an answer to the action.
    Stuck,
}

/// `AuthorPos`, over plain sequences.
pub struct AuthorPosModel {
    pub diff: DiffPos,
    pub author: Seq<char>,
    pub rest: Seq<Seq<char>>,
    pub more_authors: bool,
    pub from: usize,
}

/// `SyncPhase`, over plain sequences.
pub enum PhaseModel {
    CheckRanking,
    Drop,
    ClearTarget,
    CopyRead { from: usize },
    CopyWrite { from: usize, elements: Seq<(i64, Seq<char>)>, more: bool },
    CheckSynced,
    CheckTimeline,
    CheckEngagement,
    DiffRead { diff: DiffPos },
    DiffScores { diff: DiffPos, authors: Seq<Seq<char>>, more: bool },
    AuthorRead { at: AuthorPosModel },
    AuthorScores { at: AuthorPosModel, which: Twin, posts: Seq<Seq<char>>, more: bool },
    AuthorPut {
        at: AuthorPosModel,
        which: Twin,
        posts: Seq<Seq<char>>,
        elements: Seq<(i64, Seq<char>)>,
        more: bool,
    },
    AuthorRemove { at: AuthorPosModel, which: Twin, posts: Seq<Seq<char>>, more: bool },
    ReadClock,
    ClearStaged { catch_up: i64 },
    WalkRead { walk: Walk },
    WalkRanks { walk: Walk, page: Seq<(Seq<char>, i64)> },
    WalkScores { walk: Walk, page: Seq<(Seq<char>, i64)>, timeline: Seq<(i64, Seq<char>)> },
    WalkPutTimeline {
        walk: Walk,
        page: Seq<(Seq<char>, i64)>,
        timeline: Seq<(i64, Seq<char>)>,
        engagement: Seq<(i64, Seq<char>)>,
    },
    WalkPutEngagement {
        walk: Walk,
        page: Seq<(Seq<char>, i64)>,
        engagement: Seq<(i64, Seq<char>)>,
    },
    Swap { which: Twin, catch_up: i64 },
    Commit,
    Done,
    Stuck,
}

impl View for AuthorPos {
    type V = AuthorPosModel;

    open spec fn view(&self) -> AuthorPosModel {
        AuthorPosModel {
            diff: self.diff,
            author: self.author@,
            rest: self.rest.deep_view(),
            more_authors: self.more_authors,
            from: self.from,
        }
    }
}

impl View for SyncPhase {
    type V = PhaseModel;

    open spec fn view(&self) -> PhaseModel {
        match *self {
            SyncPhase::CheckRanking => PhaseModel::CheckRanking,
            SyncPhase::Drop => PhaseModel::Drop,
            SyncPhase::ClearTarget => PhaseModel::ClearTarget,
            SyncPhase::CopyRead { from } => PhaseModel::CopyRead { from },
            SyncPhase::CopyWrite { from, elements, more } => PhaseModel::CopyWrite {
                from,
                elements: elements.deep_view(),
                more,
            },
            SyncPhase::CheckSynced => PhaseModel::CheckSynced,
            SyncPhase::CheckTimeline => PhaseModel::CheckTimeline,
            SyncPhase::CheckEngagement => PhaseModel::CheckEngagement,
            SyncPhase::DiffRead { diff } => PhaseModel::DiffRead { diff },
            SyncPhase::DiffScores { diff, authors, more } => PhaseModel::DiffScores {
                diff,
                authors: authors.deep_view(),
                more,
            },
            SyncPhase::AuthorRead { at } => PhaseModel::AuthorRead { at: at@ },
            SyncPhase::AuthorScores { at, which, posts, more } => PhaseModel::AuthorScores {
                at: at@,
                which,
                posts: posts.deep_view(),
                more,
            },
            SyncPhase::AuthorPut { at, which, posts, elements, more } => PhaseModel::AuthorPut {
                at: at@,
                which,
                posts: posts.deep_view(),
                elements: elements.deep_view(),
                more,
            },
            SyncPhase::AuthorRemove { at, which, posts, more } => PhaseModel::AuthorRemove {
                at: at@,
                which,
                posts: posts.deep_view(),
                more,
            },
            SyncPhase::ReadClock => PhaseModel::ReadClock,
            SyncPhase::ClearStaged { catch_up } => PhaseModel::ClearStaged { catch_up },
            SyncPhase::WalkRead { walk } => PhaseModel::WalkRead { walk },
            SyncPhase::WalkRanks { walk, page } => PhaseModel::WalkRanks {
                walk,
                page: page.deep_view(),
            },
            SyncPhase::WalkScores { walk, page, timeline } => PhaseModel::WalkScores {
                walk,
                page: page.deep_view(),
                timeline: timeline.deep_view(),
            },
            SyncPhase::WalkPutTimeline { walk, page, timeline, engagement } =>
                PhaseModel::WalkPutTimeline {
                walk,
                page: page.deep_view(),
                timeline: timeline.deep_view(),
                engagement: engagement.deep_view(),
            },
            SyncPhase::WalkPutEngagement { walk, page, engagement } =>
                PhaseModel::WalkPutEngagement {
                walk,
                page: page.deep_view(),
                engagement: engagement.deep_view(),
            },
            SyncPhase::Swap { which, catch_up } => PhaseModel::Swap { which, catch_up },
            SyncPhase::Commit => PhaseModel::Commit,
            SyncPhase::Done => PhaseModel::Done,
            SyncPhase::Stuck => PhaseModel::Stuck,
        }
    }
}

/// What a sync asks of its surroundings.
#[derive(Debug)]
pub enum SyncAction {
    /// Send a command to the store.
    Store(SortedSetCommand),
    /// Tell the time in milliseconds.
    ReadClock,
}

/// What a sync is told.
#[derive(Debug)]
pub enum SyncReply {
    Store(SortedSetReply),
    Clock(i64),
}

/// `SyncAction`, over plain sequences.
pub enum ActionModel {
    Store(CommandModel),
    ReadClock,
}

/// `SyncReply`, over plain sequences.
pub enum AnswerModel {
    Store(ReplyModel),
    Clock(i64),
}

impl View for SyncAction {
    type V = ActionModel;

    open spec fn view(&self) -> ActionModel {
        match *self {
            SyncAction::Store(command) => ActionModel::Store(command@),
            SyncAction::ReadClock => ActionModel::ReadClock,
        }
    }
}

impl View for SyncReply {
    type V = AnswerModel;

    open spec fn view(&self) -> AnswerModel {
        match *self {
            SyncReply::Store(reply) => AnswerModel::Store(reply@),
            SyncReply::Clock(now) => AnswerModel::Clock(now),
        }
    }
}

/// A page of members as elements to write.
pub open spec fn as_elements(page: Seq<(Seq<char>, i64)>) -> Seq<(i64, Seq<char>)> {
    page.map_values(|entry: (Seq<char>, i64)| (entry.1, entry.0))
}

/// The members of a page.
pub open spec fn members_of(page: Seq<(Seq<char>, i64)>) -> Seq<Seq<char>> {
    page.map_values(|entry: (Seq<char>, i64)| entry.0)
}

/// The members of elements to write.
pub open spec fn keys_of(elements: Seq<(i64, Seq<char>)>) -> Seq<Seq<char>> {
    elements.map_values(|element: (i64, Seq<char>)| element.1)
}

/// The post keys of a page of `author`'s post ids.
pub open spec fn post_keys_of(author: Seq<char>, page: Seq<(Seq<char>, i64)>) -> Seq<Seq<char>> {
    page.map_values(|entry: (Seq<char>, i64)| text::post_key_of(author, entry.0))
}

/// The authors of a page of post keys.
pub open spec fn authors_of(page: Seq<(Seq<char>, i64)>) -> Seq<Seq<char>> {
    page.map_values(|entry: (Seq<char>, i64)| text::author_of(entry.0))
}

/// The lesser of two lengths: how far two lists can be paired.
pub open spec fn paired(a: nat, b: nat) -> nat {
    if a <= b {
        a
    } else {
        b
    }
}

/// Of the first `n` members, those whose score is missing.
pub open spec fn unscored_in(members: Seq<Seq<char>>, scores: Seq<Option<i64>>, n: nat) -> Seq<
    Seq<char>,
>
    decreases n,
{
    if n == 0 {
        Seq::empty()
    } else {
        let before = unscored_in(members, scores, (n - 1) as nat);
        match scores[n - 1] {
            Some(_) => before,
            None => before.push(members[n - 1]),
        }
    }
}

/// The members whose score is missing.
pub open spec fn unscored(members: Seq<Seq<char>>, scores: Seq<Option<i64>>) -> Seq<Seq<char>> {
    unscored_in(members, scores, paired(members.len(), scores.len()))
}

/// The first `n` members with their scores, without those that have none.
pub open spec fn scored_in(members: Seq<Seq<char>>, scores: Seq<Option<i64>>, n: nat) -> Seq<
    (i64, Seq<char>),
>
    decreases n,
{
    if n == 0 {
        Seq::empty()
    } else {
        let before = scored_in(members, scores, (n - 1) as nat);
        match scores[n - 1] {
            Some(score) => before.push((score, members[n - 1])),
            None => before,
        }
    }
}

/// Members paired with their scores, without those that have none.
pub open spec fn scored_members(members: Seq<Seq<char>>, scores: Seq<Option<i64>>) -> Seq<
    (i64, Seq<char>),
> {
    scored_in(members, scores, paired(members.len(), scores.len()))
}

/// Of the first `n` entries, those whose author has a rank, as elements to write.
pub open spec fn ranked_in(page: Seq<(Seq<char>, i64)>, ranks: Seq<Option<i64>>, n: nat) -> Seq<
    (i64, Seq<char>),
>
    decreases n,
{
    if n == 0 {
        Seq::empty()
    } else {
        let before = ranked_in(page, ranks, (n - 1) as nat);
        match ranks[n - 1] {
            Some(_) => before.push((page[n - 1].1, page[n - 1].0)),
            None => before,
        }
    }
}

/// The entries of a page whose author has a rank, as elements to write.
pub open spec fn ranked_entries(page: Seq<(Seq<char>, i64)>, ranks: Seq<Option<i64>>) -> Seq<
    (i64, Seq<char>),
> {
    ranked_in(page, ranks, paired(page.len(), ranks.len()))
}

/// How many entries at the end of a page score `score`.
pub open spec fn trailing(page: Seq<(Seq<char>, i64)>, score: i64) -> nat
    decreases page.len(),
{
    if page.len() == 0 || page.last().1 != score {
        0
    } else {
        1 + trailing(page.drop_last(), score)
    }
}

impl Walk {
    /// The walk once it has read `page`, which is not empty.
    pub open spec fn past(self, page: Seq<(Seq<char>, i64)>) -> Walk {
        let last = page.last().1;
        let ties = trailing(page, last);
        Walk {
            live: self.live,
            catch_up: self.catch_up,
            cursor: Some(last),
            seen: (if self.cursor == Some(last) {
                self.seen + ties
            } else {
                ties as int
            }) as usize,
        }
    }
}

/// The phase behind a page of rankings whose changed authors are `authors`.
pub open spec fn next_author(diff: DiffPos, authors: Seq<Seq<char>>, more: bool) -> PhaseModel {
    if authors.len() > 0 {
        PhaseModel::AuthorRead {
            at: AuthorPosModel {
                diff,
                author: authors[0],
                rest: authors.skip(1),
                more_authors: more,
                from: 0,
            },
        }
    } else if more {
        PhaseModel::DiffRead {
            diff: DiffPos {
                entered: diff.entered,
                from: (diff.from + RANKED_SYNC_CHUNK) as usize,
            },
        }
    } else if diff.entered {
        PhaseModel::DiffRead { diff: DiffPos { entered: false, from: 0 } }
    } else {
        PhaseModel::Commit
    }
}

/// The phase behind a page of an author's posts.
pub open spec fn author_page_done(at: AuthorPosModel, more: bool) -> PhaseModel {
    if more {
        PhaseModel::AuthorRead {
            at: AuthorPosModel { from: (at.from + RANKED_SYNC_CHUNK) as usize, ..at },
        }
    } else {
        next_author(at.diff, at.rest, at.more_authors)
    }
}

/// The phase behind a page of the global timeline.
pub open spec fn walk_page_done(walk: Walk, page: Seq<(Seq<char>, i64)>) -> PhaseModel {
    if page.len() >= RANKED_SYNC_CHUNK {
        PhaseModel::WalkRead { walk: walk.past(page) }
    } else if walk.live {
        PhaseModel::Commit
    } else {
        PhaseModel::Swap { which: Twin::Timeline, catch_up: walk.catch_up }
    }
}

impl PhaseModel {
    /// What is asked for in this phase.
    pub open spec fn action(self, keys: SyncKeys) -> Option<ActionModel> {
        match self {
            PhaseModel::CheckRanking => Some(
                ActionModel::Store(CommandModel::Exists { key: keys.ranking }),
            ),
            PhaseModel::Drop => Some(
                ActionModel::Store(CommandModel::Unlink { keys: keys.derived() }),
            ),
            PhaseModel::ClearTarget => Some(
                ActionModel::Store(CommandModel::Unlink { keys: seq![keys.target] }),
            ),
            PhaseModel::CopyRead { from } => Some(
                ActionModel::Store(
                    CommandModel::PageByRank {
                        key: keys.ranking,
                        from: from as nat,
                        to: (from + RANKED_SYNC_CHUNK - 1) as nat,
                    },
                ),
            ),
            PhaseModel::CopyWrite { elements, .. } => Some(
                ActionModel::Store(CommandModel::Put { key: keys.target, elements }),
            ),
            PhaseModel::CheckSynced => Some(
                ActionModel::Store(CommandModel::Exists { key: keys.synced }),
            ),
            PhaseModel::CheckTimeline => Some(
                ActionModel::Store(CommandModel::Exists { key: keys.timeline.ranked }),
            ),
            PhaseModel::CheckEngagement => Some(
                ActionModel::Store(CommandModel::Exists { key: keys.engagement.ranked }),
            ),
            PhaseModel::DiffRead { diff } => Some(
                ActionModel::Store(
                    CommandModel::PageByRank {
                        key: if diff.entered {
                            keys.target
                        } else {
                            keys.synced
                        },
                        from: diff.from as nat,
                        to: (diff.from + RANKED_SYNC_CHUNK - 1) as nat,
                    },
                ),
            ),
            PhaseModel::DiffScores { diff, authors, .. } => Some(
                ActionModel::Store(
                    CommandModel::Scores {
                        key: if diff.entered {
                            keys.synced
                        } else {
                            keys.target
                        },
                        members: authors,
                    },
                ),
            ),
            PhaseModel::AuthorRead { at } => Some(
                ActionModel::Store(
                    CommandModel::PageByRank {
                        key: keys.posts_of(at.author),
                        from: at.from as nat,
                        to: (at.from + RANKED_SYNC_CHUNK - 1) as nat,
                    },
                ),
            ),
            PhaseModel::AuthorScores { which, posts, .. } => Some(
                ActionModel::Store(
                    CommandModel::Scores { key: keys.sets(which).global, members: posts },
                ),
            ),
            PhaseModel::AuthorPut { which, elements, .. } => Some(
                ActionModel::Store(CommandModel::Put { key: keys.sets(which).ranked, elements }),
            ),
            PhaseModel::AuthorRemove { which, posts, .. } => Some(
                ActionModel::Store(
                    CommandModel::Remove { key: keys.sets(which).ranked, members: posts },
                ),
            ),
            PhaseModel::ReadClock => Some(ActionModel::ReadClock),
            PhaseModel::ClearStaged { .. } => Some(
                ActionModel::Store(
                    CommandModel::Unlink {
                        keys: seq![keys.timeline.staged, keys.engagement.staged],
                    },
                ),
            ),
            PhaseModel::WalkRead { walk } => Some(
                ActionModel::Store(
                    CommandModel::PageByScore {
                        key: keys.timeline.global,
                        start: None,
                        end: walk.cursor,
                        skip: Some(walk.seen),
                        limit: Some(RANKED_SYNC_CHUNK),
                        order: SortOrder::Ascending,
                    },
                ),
            ),
            PhaseModel::WalkRanks { page, .. } => Some(
                ActionModel::Store(
                    CommandModel::Scores { key: keys.target, members: authors_of(page) },
                ),
            ),
            PhaseModel::WalkScores { timeline, .. } => Some(
                ActionModel::Store(
                    CommandModel::Scores {
                        key: keys.engagement.global,
                        members: keys_of(timeline),
                    },
                ),
            ),
            PhaseModel::WalkPutTimeline { walk, timeline, .. } => Some(
                ActionModel::Store(
                    CommandModel::Put {
                        key: if walk.live {
                            keys.timeline.ranked
                        } else {
                            keys.timeline.staged
                        },
                        elements: timeline,
                    },
                ),
            ),
            PhaseModel::WalkPutEngagement { walk, engagement, .. } => Some(
                ActionModel::Store(
                    CommandModel::Put {
                        key: if walk.live {
                            keys.engagement.ranked
                        } else {
                            keys.engagement.staged
                        },
                        elements: engagement,
                    },
                ),
            ),
            PhaseModel::Swap { which, .. } => Some(
                ActionModel::Store(
                    CommandModel::SwapIn {
                        staged: keys.sets(which).staged,
                        live: keys.sets(which).ranked,
                        aside: keys.sets(which).aside,
                    },
                ),
            ),
            PhaseModel::Commit => Some(
                ActionModel::Store(
                    CommandModel::SwapIn {
                        staged: keys.target,
                        live: keys.synced,
                        aside: keys.aside,
                    },
                ),
            ),
            PhaseModel::Done => None,
            PhaseModel::Stuck => None,
        }
    }

    /// The phase that follows once `answer` has come.
    pub open spec fn next(self, answer: AnswerModel) -> PhaseModel {
        match answer {
            AnswerModel::Clock(now) => match self {
                PhaseModel::ReadClock => PhaseModel::ClearStaged {
                    catch_up: (now - RANKED_BUILD_CATCH_UP_MS) as i64,
                },
                _ => PhaseModel::Stuck,
            },
            AnswerModel::Store(ReplyModel::Exists(there)) => match self {
                PhaseModel::CheckRanking => if there {
                    PhaseModel::ClearTarget
                } else {
                    PhaseModel::Drop
                },
                PhaseModel::CheckSynced => if there {
                    PhaseModel::CheckTimeline
                } else {
                    PhaseModel::ReadClock
                },
                PhaseModel::CheckTimeline => if there {
                    PhaseModel::CheckEngagement
                } else {
                    PhaseModel::ReadClock
                },
                PhaseModel::CheckEngagement => if there {
                    PhaseModel::DiffRead { diff: DiffPos { entered: true, from: 0 } }
                } else {
                    PhaseModel::ReadClock
                },
                _ => PhaseModel::Stuck,
            },
            AnswerModel::Store(ReplyModel::Page(maybe)) => {
                let page = match maybe {
                    Some(page) => page,
                    None => Seq::empty(),
                };
                let more = page.len() >= RANKED_SYNC_CHUNK;
                match self {
                    PhaseModel::CopyRead { from } => PhaseModel::CopyWrite {
                        from,
                        elements: as_elements(page),
                        more,
                    },
                    PhaseModel::DiffRead { diff } => PhaseModel::DiffScores {
                        diff,
                        authors: members_of(page),
                        more,
                    },
                    PhaseModel::AuthorRead { at } => {
                        let posts = post_keys_of(at.author, page);
                        if at.diff.entered {
                            PhaseModel::AuthorScores { at, which: Twin::Timeline, posts, more }
                        } else {
                            PhaseModel::AuthorRemove { at, which: Twin::Timeline, posts, more }
                        }
                    },
                    PhaseModel::WalkRead { walk } => PhaseModel::WalkRanks { walk, page },
                    _ => PhaseModel::Stuck,
                }
            },
            AnswerModel::Store(ReplyModel::Scores(scores)) => match self {
                PhaseModel::DiffScores { diff, authors, more } => next_author(
                    diff,
                    unscored(authors, scores),
                    more,
                ),
                PhaseModel::AuthorScores { at, which, posts, more } => PhaseModel::AuthorPut {
                    at,
                    which,
                    posts,
                    elements: scored_members(posts, scores),
                    more,
                },
                PhaseModel::WalkRanks { walk, page } => PhaseModel::WalkScores {
                    walk,
                    page,
                    timeline: ranked_entries(page, scores),
                },
                PhaseModel::WalkScores { walk, page, timeline } => PhaseModel::WalkPutTimeline {
                    walk,
                    page,
                    timeline,
                    engagement: scored_members(keys_of(timeline), scores),
                },
                _ => PhaseModel::Stuck,
            },
            AnswerModel::Store(ReplyModel::Score(_)) => PhaseModel::Stuck,
            AnswerModel::Store(ReplyModel::Done) => match self {
                PhaseModel::Drop => PhaseModel::Done,
                PhaseModel::ClearTarget => PhaseModel::CopyRead { from: 0 },
                PhaseModel::CopyWrite { from, more, .. } => if more {
                    PhaseModel::CopyRead { from: (from + RANKED_SYNC_CHUNK) as usize }
                } else {
                    PhaseModel::CheckSynced
                },
                PhaseModel::AuthorPut { at, which, posts, more, .. } => match which {
                    Twin::Timeline => PhaseModel::AuthorScores {
                        at,
                        which: Twin::Engagement,
                        posts,
                        more,
                    },
                    Twin::Engagement => author_page_done(at, more),
                },
                PhaseModel::AuthorRemove { at, which, posts, more } => match which {
                    Twin::Timeline => PhaseModel::AuthorRemove {
                        at,
                        which: Twin::Engagement,
                        posts,
                        more,
                    },
                    Twin::Engagement => author_page_done(at, more),
                },
                PhaseModel::ClearStaged { catch_up } => PhaseModel::WalkRead {
                    walk: Walk { live: false, catch_up, cursor: None, seen: 0 },
                },
                PhaseModel::WalkPutTimeline { walk, page, engagement, .. } =>
                    PhaseModel::WalkPutEngagement { walk, page, engagement },
                PhaseModel::WalkPutEngagement { walk, page, .. } => walk_page_done(walk, page),
                PhaseModel::Swap { which, catch_up } => match which {
                    Twin::Timeline => PhaseModel::Swap { which: Twin::Engagement, catch_up },
                    Twin::Engagement => PhaseModel::WalkRead {
                        walk: Walk { live: true, catch_up, cursor: Some(catch_up), seen: 0 },
                    },
                },
                PhaseModel::Commit => PhaseModel::Done,
                _ => PhaseModel::Stuck,
            },
        }
    }

    /// Every rank this phase reads from leaves room for the page that starts there.
    pub open spec fn pages_fit(self) -> bool {
        let most = usize::MAX - RANKED_SYNC_CHUNK;
        match self {
            PhaseModel::CopyRead { from } => from <= most,
            PhaseModel::CopyWrite { from, .. } => from <= most,
            PhaseModel::DiffRead { diff } => diff.from <= most,
            PhaseModel::DiffScores { diff, .. } => diff.from <= most,
            PhaseModel::AuthorRead { at } => at.from <= most && at.diff.from <= most,
            PhaseModel::AuthorScores { at, .. } => at.from <= most && at.diff.from <= most,
            PhaseModel::AuthorPut { at, .. } => at.from <= most && at.diff.from <= most,
            PhaseModel::AuthorRemove { at, .. } => at.from <= most && at.diff.from <= most,
            _ => true,
        }
    }

    /// The numbers behind `answer` can be counted: a further page, the entries
    /// read at one score, and the start of the catch-up.
    pub open spec fn room_for(self, answer: AnswerModel) -> bool {
        let most = usize::MAX - 2 * RANKED_SYNC_CHUNK;
        match self {
            PhaseModel::CopyWrite { from, .. } => from <= most,
            PhaseModel::DiffScores { diff, .. } => diff.from <= most,
            PhaseModel::AuthorPut { at, .. } => at.from <= most && at.diff.from <= most,
            PhaseModel::AuthorRemove { at, .. } => at.from <= most && at.diff.from <= most,
            PhaseModel::WalkPutEngagement { walk, page, .. } => walk.seen + page.len()
                <= usize::MAX,
            PhaseModel::ReadClock => answer matches AnswerModel::Clock(now) ==> now >= i64::MIN
                + RANKED_BUILD_CATCH_UP_MS,
            _ => true,
        }
    }
}

/// A copy of elements to write.
fn copy_elements(elements: &Vec<(i64, String)>) -> (copy: Vec<(i64, String)>)
    ensures
        copy.deep_view() == elements.deep_view(),
{
    let mut copy: Vec<(i64, String)> = Vec::new();
    let mut i: usize = 0;
    while i < elements.len()
        invariant
            i <= elements@.len(),
            copy.deep_view() == elements.deep_view().take(i as int),
        decreases elements@.len() - i,
    {
        let ghost before = copy.deep_view();
        copy.push((elements[i].0, elements[i].1.clone()));
        i = i + 1;
        assert(copy.deep_view() =~= before.push(elements.deep_view()[i - 1]));
        assert(elements.deep_view().take(i as int) =~= before.push(elements.deep_view()[i - 1]));
    }
    assert(elements.deep_view().take(i as int) =~= elements.deep_view());
    copy
}

/// A page of members as elements to write.
fn to_elements(page: &Vec<(String, i64)>) -> (elements: Vec<(i64, String)>)
    ensures
        elements.deep_view() == as_elements(page.deep_view()),
{
    let mut elements: Vec<(i64, String)> = Vec::new();
    let mut i: usize = 0;
    while i < page.len()
        invariant
            i <= page@.len(),
            elements.deep_view() == as_elements(page.deep_view()).take(i as int),
        decreases page@.len() - i,
    {
        let ghost all = as_elements(page.deep_view());
        let ghost before = elements.deep_view();
        elements.push((page[i].1, page[i].0.clone()));
        i = i + 1;
        assert(elements.deep_view() =~= before.push(all[i - 1]));
        assert(all.take(i as int) =~= before.push(all[i - 1]));
    }
    assert(as_elements(page.deep_view()).take(i as int) =~= as_elements(page.deep_view()));
    elements
}

/// The members of a page.
fn to_members(page: &Vec<(String, i64)>) -> (members: Vec<String>)
    ensures
        members.deep_view() == members_of(page.deep_view()),
{
    let mut members: Vec<String> = Vec::new();
    let mut i: usize = 0;
    while i < page.len()
        invariant
            i <= page@.len(),
            members.deep_view() == members_of(page.deep_view()).take(i as int),
        decreases page@.len() - i,
    {
        let ghost all = members_of(page.deep_view());
        let ghost before = members.deep_view();
        members.push(page[i].0.clone());
        i = i + 1;
        assert(members.deep_view() =~= before.push(all[i - 1]));
        assert(all.take(i as int) =~= before.push(all[i - 1]));
    }
    assert(members_of(page.deep_view()).take(i as int) =~= members_of(page.deep_view()));
    members
}

/// The members of elements to write.
fn to_keys(elements: &Vec<(i64, String)>) -> (members: Vec<String>)
    ensures
        members.deep_view() == keys_of(elements.deep_view()),
{
    let mut members: Vec<String> = Vec::new();
    let mut i: usize = 0;
    while i < elements.len()
        invariant
            i <= elements@.len(),
            members.deep_view() == keys_of(elements.deep_view()).take(i as int),
        decreases elements@.len() - i,
    {
        let ghost all = keys_of(elements.deep_view());
        let ghost before = members.deep_view();
        members.push(elements[i].1.clone());
        i = i + 1;
        assert(members.deep_view() =~= before.push(all[i - 1]));
        assert(all.take(i as int) =~= before.push(all[i - 1]));
    }
    assert(keys_of(elements.deep_view()).take(i as int) =~= keys_of(elements.deep_view()));
    members
}

/// The post keys of a page of `author`'s post ids.
fn to_post_keys(author: &str, page: &Vec<(String, i64)>) -> (posts: Vec<String>)
    ensures
        posts.deep_view() == post_keys_of(author@, page.deep_view()),
{
    let mut posts: Vec<String> = Vec::new();
    let mut i: usize = 0;
    while i < page.len()
        invariant
            i <= page@.len(),
            posts.deep_view() == post_keys_of(author@, page.deep_view()).take(i as int),
        decreases page@.len() - i,
    {
        let ghost all = post_keys_of(author@, page.deep_view());
        let ghost before = posts.deep_view();
        posts.push(post_key(author, page[i].0.as_str()));
        i = i + 1;
        assert(posts.deep_view() =~= before.push(all[i - 1]));
        assert(all.take(i as int) =~= before.push(all[i - 1]));
    }
    assert(post_keys_of(author@, page.deep_view()).take(i as int) =~= post_keys_of(
        author@,
        page.deep_view(),
    ));
    posts
}

/// The authors of a page of post keys.
fn to_authors(page: &Vec<(String, i64)>) -> (authors: Vec<String>)
    ensures
        authors.deep_view() == authors_of(page.deep_view()),
{
    let mut authors: Vec<String> = Vec::new();
    let mut i: usize = 0;
    while i < page.len()
        invariant
            i <= page@.len(),
            authors.deep_view() == authors_of(page.deep_view()).take(i as int),
        decreases page@.len() - i,
    {
        let ghost all = authors_of(page.deep_view());
        let ghost before = authors.deep_view();
        authors.push(key_author(page[i].0.as_str()));
        i = i + 1;
        assert(authors.deep_view() =~= before.push(all[i - 1]));
        assert(all.take(i as int) =~= before.push(all[i - 1]));
    }
    assert(authors_of(page.deep_view()).take(i as int) =~= authors_of(page.deep_view()));
    authors
}

/// The members whose score is missing.
fn without_score(members: &Vec<String>, scores: &Vec<Option<i64>>) -> (left: Vec<String>)
    ensures
        left.deep_view() == unscored(members.deep_view(), scores@),
{
    let mut left: Vec<String> = Vec::new();
    let mut i: usize = 0;
    while i < members.len() && i < scores.len()
        invariant
            i <= paired(members@.len(), scores@.len()),
            left.deep_view() == unscored_in(members.deep_view(), scores@, i as nat),
        decreases members@.len() - i,
    {
        let ghost before = left.deep_view();
        if scores[i].is_none() {
            left.push(members[i].clone());
            assert(left.deep_view() =~= before.push(members.deep_view()[i as int]));
        }
        i = i + 1;
    }
    left
}

/// Pairs members with their scores, dropping those that have none.
fn scored(members: &Vec<String>, scores: &Vec<Option<i64>>) -> (elements: Vec<(i64, String)>)
    ensures
        elements.deep_view() == scored_members(members.deep_view(), scores@),
{
    let mut elements: Vec<(i64, String)> = Vec::new();
    let mut i: usize = 0;
    while i < members.len() && i < scores.len()
        invariant
            i <= paired(members@.len(), scores@.len()),
            elements.deep_view() == scored_in(members.deep_view(), scores@, i as nat),
        decreases members@.len() - i,
    {
        let ghost before = elements.deep_view();
        if let Some(score) = scores[i] {
            elements.push((score, members[i].clone()));
            assert(elements.deep_view() =~= before.push((score, members.deep_view()[i as int])));
        }
        i = i + 1;
    }
    elements
}

/// The entries of a page whose author has a rank, as elements to write.
fn with_rank(page: &Vec<(String, i64)>, ranks: &Vec<Option<i64>>) -> (elements: Vec<(i64, String)>)
    ensures
        elements.deep_view() == ranked_entries(page.deep_view(), ranks@),
{
    let mut elements: Vec<(i64, String)> = Vec::new();
    let mut i: usize = 0;
    while i < page.len() && i < ranks.len()
        invariant
            i <= paired(page@.len(), ranks@.len()),
            elements.deep_view() == ranked_in(page.deep_view(), ranks@, i as nat),
        decreases page@.len() - i,
    {
        let ghost before = elements.deep_view();
        if ranks[i].is_some() {
            elements.push((page[i].1, page[i].0.clone()));
            assert(elements.deep_view() =~= before.push((page@[i as int].1, page@[i as int].0@)));
        }
        i = i + 1;
    }
    elements
}

/// How many entries at the end of a page score `score`.
fn count_trailing(page: &Vec<(String, i64)>, score: i64) -> (ties: usize)
    ensures
        ties == trailing(page.deep_view(), score),
        ties <= page@.len(),
{
    let mut n: usize = page.len();
    assert(page.deep_view().take(n as int) =~= page.deep_view());
    while n > 0 && page[n - 1].1 == score
        invariant
            n <= page@.len(),
            trailing(page.deep_view(), score) == page@.len() - n + trailing(
                page.deep_view().take(n as int),
                score,
            ),
        decreases n,
    {
        assert(page.deep_view().take(n as int).drop_last() =~= page.deep_view().take(n - 1));
        assert(page.deep_view().take(n as int).last() == page.deep_view()[n - 1]);
        n = n - 1;
    }
    proof {
        if n > 0 {
            assert(page.deep_view().take(n as int).last() == page.deep_view()[n - 1]);
        }
    }
    page.len() - n
}

/// The phase behind a page of rankings whose changed authors are `authors`.
fn to_next_author(diff: DiffPos, authors: Vec<String>, more: bool) -> (next: SyncPhase)
    requires
        diff.from <= usize::MAX - 2 * RANKED_SYNC_CHUNK,
    ensures
        next@ == next_author(diff, authors.deep_view(), more),
        next@.pages_fit(),
{
    if authors.len() > 0 {
        let mut rest = authors;
        let author = rest.remove(0);
        assert(rest.deep_view() =~= authors.deep_view().skip(1));
        SyncPhase::AuthorRead {
            at: AuthorPos { diff, author, rest, more_authors: more, from: 0 },
        }
    } else if more {
        SyncPhase::DiffRead {
            diff: DiffPos { entered: diff.entered, from: diff.from + RANKED_SYNC_CHUNK },
        }
    } else if diff.entered {
        SyncPhase::DiffRead { diff: DiffPos { entered: false, from: 0 } }
    } else {
        SyncPhase::Commit
    }
}

/// The phase behind a page of an author's posts.
fn to_author_page_done(at: AuthorPos, more: bool) -> (next: SyncPhase)
    requires
        at.from <= usize::MAX - 2 * RANKED_SYNC_CHUNK,
        at.diff.from <= usize::MAX - 2 * RANKED_SYNC_CHUNK,
    ensures
        next@ == author_page_done(at@, more),
        next@.pages_fit(),
{
    if more {
        SyncPhase::AuthorRead {
            at: AuthorPos {
                diff: at.diff,
                author: at.author,
                rest: at.rest,
                more_authors: at.more_authors,
                from: at.from + RANKED_SYNC_CHUNK,
            },
        }
    } else {
        to_next_author(at.diff, at.rest, at.more_authors)
    }
}

/// The phase behind a page of the global timeline.
fn to_walk_page_done(walk: Walk, page: &Vec<(String, i64)>) -> (next: SyncPhase)
    requires
        walk.seen + page@.len() <= usize::MAX,
    ensures
        next@ == walk_page_done(walk, page.deep_view()),
        next@.pages_fit(),
{
    if page.len() >= RANKED_SYNC_CHUNK {
        let last: i64 = page[page.len() - 1].1;
        let ties: usize = count_trailing(page, last);
        let again = match walk.cursor {
            Some(cursor) => cursor == last,
            None => false,
        };
        let seen: usize = if again {
            walk.seen + ties
        } else {
            ties
        };
        assert(page.deep_view().last() == (page@[page@.len() - 1].0@, last));
        SyncPhase::WalkRead {
            walk: Walk { live: walk.live, catch_up: walk.catch_up, cursor: Some(last), seen },
        }
    } else if walk.live {
        SyncPhase::Commit
    } else {
        SyncPhase::Swap { which: Twin::Timeline, catch_up: walk.catch_up }
    }
}

impl RankedSyncKeys {
    /// The global set and its twin for one of the two sorts.
    fn sets(&self, which: Twin) -> (sets: &MirroredSets)
        ensures
            sets@ == self@.sets(which),
    {
        match which {
            Twin::Timeline => &self.timeline,
            Twin::Engagement => &self.engagement,
        }
    }
}

/// A sync of the ranked twins.
#[derive(Debug)]
pub struct RankedSync {
    keys: RankedSyncKeys,
    phase: SyncPhase,
}

/// `RankedSync`, over plain sequences.
pub struct SyncModel {
    pub keys: SyncKeys,
    pub phase: PhaseModel,
}

impl View for RankedSync {
    type V = SyncModel;

    closed spec fn view(&self) -> SyncModel {
        SyncModel { keys: self.keys@, phase: self.phase@ }
    }
}

impl RankedSync {
    /// Every page that the sync may ask for can be counted.
    #[verifier::type_invariant]
    spec fn counts(self) -> bool {
        self.phase@.pages_fit()
    }

    /// The keys that the sync works on.
    pub fn keys(&self) -> (keys: &RankedSyncKeys)
        ensures
            keys@ == self@.keys,
    {
        &self.keys
    }

    /// What the sync waits for.
    pub fn phase(&self) -> (phase: &SyncPhase)
        ensures
            phase@ == self@.phase,
    {
        &self.phase
    }

    /// A sync of the twins that `keys` names at its catch-up, which copies the
    /// posts that were added from the score `from` on.
    pub fn catch_up_from(keys: RankedSyncKeys, from: i64) -> (sync: RankedSync)
        ensures
            sync@.keys == keys@,
            sync@.phase == (PhaseModel::WalkRead {
                walk: Walk { live: true, catch_up: from, cursor: Some(from), seen: 0 },
            }),
    {
        let walk = Walk { live: true, catch_up: from, cursor: Some(from), seen: 0 };
        RankedSync { keys, phase: SyncPhase::WalkRead { walk } }
    }

    /// A sync of the twins that `keys` names, before its first action.
    ///
    /// It copies the ranking aside, then applies what changed since the last
    /// sync to the twins, or rebuilds them where there is nothing to compare
    /// with, and records the copy once the twins match. Without a ranking it
    /// drops the twins and everything derived from them. A sync that breaks off
    /// leaves the record behind the twins, so the next one applies the same
    /// changes again.
    pub fn sync_ranked_sets_with(keys: RankedSyncKeys) -> (sync: RankedSync)
        ensures
            sync@.keys == keys@,
            sync@.phase == PhaseModel::CheckRanking,
    {
        RankedSync { keys, phase: SyncPhase::CheckRanking }
    }

    /// What to do next; nothing once the sync is over.
    pub fn action(&self) -> (action: Option<SyncAction>)
        ensures
            match action {
                Some(asked) => self@.phase.action(self@.keys) == Some(asked@),
                None => self@.phase.action(self@.keys) is None,
            },
    {
        proof {
            use_type_invariant(self);
        }
        let keys = &self.keys;
        let command = match &self.phase {
            SyncPhase::CheckRanking => SortedSetCommand::Exists { key: copy_texts(&keys.ranking) },
            SyncPhase::Drop => {
                let dropped = vec![
                    copy_texts(&keys.timeline.ranked),
                    copy_texts(&keys.timeline.staged),
                    copy_texts(&keys.timeline.aside),
                    copy_texts(&keys.engagement.ranked),
                    copy_texts(&keys.engagement.staged),
                    copy_texts(&keys.engagement.aside),
                    copy_texts(&keys.synced),
                    copy_texts(&keys.target),
                    copy_texts(&keys.aside),
                ];
                assert(dropped.deep_view() =~= keys@.derived());
                SortedSetCommand::Unlink { keys: dropped }
            },
            SyncPhase::ClearTarget => {
                let dropped = vec![copy_texts(&keys.target)];
                assert(dropped.deep_view() =~= seq![keys@.target]);
                SortedSetCommand::Unlink { keys: dropped }
            },
            SyncPhase::CopyRead { from } => SortedSetCommand::PageByRank {
                key: copy_texts(&keys.ranking),
                from: *from,
                to: *from + (RANKED_SYNC_CHUNK - 1),
            },
            SyncPhase::CopyWrite { elements, .. } => SortedSetCommand::Put {
                key: copy_texts(&keys.target),
                elements: copy_elements(elements),
            },
            SyncPhase::CheckSynced => SortedSetCommand::Exists { key: copy_texts(&keys.synced) },
            SyncPhase::CheckTimeline => SortedSetCommand::Exists {
                key: copy_texts(&keys.timeline.ranked),
            },
            SyncPhase::CheckEngagement => SortedSetCommand::Exists {
                key: copy_texts(&keys.engagement.ranked),
            },
            SyncPhase::DiffRead { diff } => SortedSetCommand::PageByRank {
                key: copy_texts(
                    if diff.entered {
                        &keys.target
                    } else {
                        &keys.synced
                    },
                ),
                from: diff.from,
                to: diff.from + (RANKED_SYNC_CHUNK - 1),
            },
            SyncPhase::DiffScores { diff, authors, .. } => SortedSetCommand::Scores {
                key: copy_texts(
                    if diff.entered {
                        &keys.synced
                    } else {
                        &keys.target
                    },
                ),
                members: copy_texts(authors),
            },
            SyncPhase::AuthorRead { at } => {
                let mut key = copy_texts(&keys.author_posts);
                key.push(at.author.clone());
                assert(key.deep_view() =~= keys@.posts_of(at.author@));
                SortedSetCommand::PageByRank {
                    key,
                    from: at.from,
                    to: at.from + (RANKED_SYNC_CHUNK - 1),
                }
            },
            SyncPhase::AuthorScores { which, posts, .. } => SortedSetCommand::Scores {
                key: copy_texts(&keys.sets(*which).global),
                members: copy_texts(posts),
            },
            SyncPhase::AuthorPut { which, elements, .. } => SortedSetCommand::Put {
                key: copy_texts(&keys.sets(*which).ranked),
                elements: copy_elements(elements),
            },
            SyncPhase::AuthorRemove { which, posts, .. } => SortedSetCommand::Remove {
                key: copy_texts(&keys.sets(*which).ranked),
                members: copy_texts(posts),
            },
            SyncPhase::ReadClock => {
                return Some(SyncAction::ReadClock);
            },
            SyncPhase::ClearStaged { .. } => {
                let dropped = vec![
                    copy_texts(&keys.timeline.staged),
                    copy_texts(&keys.engagement.staged),
                ];
                assert(dropped.deep_view() =~= seq![
                    keys@.timeline.staged,
                    keys@.engagement.staged,
                ]);
                SortedSetCommand::Unlink { keys: dropped }
            },
            SyncPhase::WalkRead { walk } => SortedSetCommand::PageByScore {
                key: copy_texts(&keys.timeline.global),
                start: None,
                end: walk.cursor,
                skip: Some(walk.seen),
                limit: Some(RANKED_SYNC_CHUNK),
                order: SortOrder::Ascending,
            },
            SyncPhase::WalkRanks { page, .. } => SortedSetCommand::Scores {
                key: copy_texts(&keys.target),
                members: to_authors(page),
            },
            SyncPhase::WalkScores { timeline, .. } => SortedSetCommand::Scores {
                key: copy_texts(&keys.engagement.global),
                members: to_keys(timeline),
            },
            SyncPhase::WalkPutTimeline { walk, timeline, .. } => SortedSetCommand::Put {
                key: copy_texts(
                    if walk.live {
                        &keys.timeline.ranked
                    } else {
                        &keys.timeline.staged
                    },
                ),
                elements: copy_elements(timeline),
            },
            SyncPhase::WalkPutEngagement { walk, engagement, .. } => SortedSetCommand::Put {
                key: copy_texts(
                    if walk.live {
                        &keys.engagement.ranked
                    } else {
                        &keys.engagement.staged
                    },
                ),
                elements: copy_elements(engagement),
            },
            SyncPhase::Swap { which, .. } => SortedSetCommand::SwapIn {
                staged: copy_texts(&keys.sets(*which).staged),
                live: copy_texts(&keys.sets(*which).ranked),
                aside: copy_texts(&keys.sets(*which).aside),
            },
            SyncPhase::Commit => SortedSetCommand::SwapIn {
                staged: copy_texts(&keys.target),
                live: copy_texts(&keys.synced),
                aside: copy_texts(&keys.aside),
            },
            SyncPhase::Done => {
                return None;
            },
            SyncPhase::Stuck => {
                return None;
            },
        };
        Some(SyncAction::Store(command))
    }

    /// Whether `reply` can be taken without running out of numbers.
    pub fn has_room(&self, reply: &SyncReply) -> (room: bool)
        ensures
            room == self@.phase.room_for(reply@),
    {
        let most: usize = usize::MAX - 2 * RANKED_SYNC_CHUNK;
        match &self.phase {
            SyncPhase::CopyWrite { from, .. } => *from <= most,
            SyncPhase::DiffScores { diff, .. } => diff.from <= most,
            SyncPhase::AuthorPut { at, .. } => at.from <= most && at.diff.from <= most,
            SyncPhase::AuthorRemove { at, .. } => at.from <= most && at.diff.from <= most,
            SyncPhase::WalkPutEngagement { walk, page, .. } => walk.seen <= usize::MAX
                - page.len(),
            SyncPhase::ReadClock => match reply {
                SyncReply::Clock(now) => *now >= i64::MIN + RANKED_BUILD_CATCH_UP_MS,
                SyncReply::Store(_) => true,
            },
            _ => true,
        }
    }

    /// The sync once the reply to its action has come.
    pub fn step(self, reply: SyncReply) -> (next: RankedSync)
        requires
            self@.phase.room_for(reply@),
        ensures
            next@.keys == self@.keys,
            next@.phase == self@.phase.next(reply@),
    {
        proof {
            use_type_invariant(&self);
        }
        let keys = self.keys;
        let phase = match reply {
            SyncReply::Clock(now) => match self.phase {
                SyncPhase::ReadClock => SyncPhase::ClearStaged {
                    catch_up: now - RANKED_BUILD_CATCH_UP_MS,
                },
                _ => SyncPhase::Stuck,
            },
            SyncReply::Store(SortedSetReply::Exists(there)) => match self.phase {
                SyncPhase::CheckRanking => if there {
                    SyncPhase::ClearTarget
                } else {
                    SyncPhase::Drop
                },
                SyncPhase::CheckSynced => if there {
                    SyncPhase::CheckTimeline
                } else {
                    SyncPhase::ReadClock
                },
                SyncPhase::CheckTimeline => if there {
                    SyncPhase::CheckEngagement
                } else {
                    SyncPhase::ReadClock
                },
                SyncPhase::CheckEngagement => if there {
                    SyncPhase::DiffRead { diff: DiffPos { entered: true, from: 0 } }
                } else {
                    SyncPhase::ReadClock
                },
                _ => SyncPhase::Stuck,
            },
            SyncReply::Store(SortedSetReply::Page(maybe)) => {
                let page: Vec<(String, i64)> = match maybe {
                    Some(page) => page,
                    None => Vec::new(),
                };
                proof {
                    if maybe is None {
                        assert(page.deep_view() =~= Seq::empty());
                    }
                }
                let more = page.len() >= RANKED_SYNC_CHUNK;
                match self.phase {
                    SyncPhase::CopyRead { from } => SyncPhase::CopyWrite {
                        from,
                        elements: to_elements(&page),
                        more,
                    },
                    SyncPhase::DiffRead { diff } => SyncPhase::DiffScores {
                        diff,
                        authors: to_members(&page),
                        more,
                    },
                    SyncPhase::AuthorRead { at } => {
                        let posts = to_post_keys(at.author.as_str(), &page);
                        let entered = at.diff.entered;
                        if entered {
                            SyncPhase::AuthorScores { at, which: Twin::Timeline, posts, more }
                        } else {
                            SyncPhase::AuthorRemove { at, which: Twin::Timeline, posts, more }
                        }
                    },
                    SyncPhase::WalkRead { walk } => SyncPhase::WalkRanks { walk, page },
                    _ => SyncPhase::Stuck,
                }
            },
            SyncReply::Store(SortedSetReply::Scores(scores)) => match self.phase {
                SyncPhase::DiffScores { diff, authors, more } => to_next_author(
                    diff,
                    without_score(&authors, &scores),
                    more,
                ),
                SyncPhase::AuthorScores { at, which, posts, more } => {
                    let elements = scored(&posts, &scores);
                    SyncPhase::AuthorPut { at, which, posts, elements, more }
                },
                SyncPhase::WalkRanks { walk, page } => {
                    let timeline = with_rank(&page, &scores);
                    SyncPhase::WalkScores { walk, page, timeline }
                },
                SyncPhase::WalkScores { walk, page, timeline } => {
                    let engagement = scored(&to_keys(&timeline), &scores);
                    SyncPhase::WalkPutTimeline { walk, page, timeline, engagement }
                },
                _ => SyncPhase::Stuck,
            },
            SyncReply::Store(SortedSetReply::Score(_)) => SyncPhase::Stuck,
            SyncReply::Store(SortedSetReply::Done) => match self.phase {
                SyncPhase::Drop => SyncPhase::Done,
                SyncPhase::ClearTarget => SyncPhase::CopyRead { from: 0 },
                SyncPhase::CopyWrite { from, more, .. } => if more {
                    SyncPhase::CopyRead { from: from + RANKED_SYNC_CHUNK }
                } else {
                    SyncPhase::CheckSynced
                },
                SyncPhase::AuthorPut { at, which, posts, more, .. } => match which {
                    Twin::Timeline => SyncPhase::AuthorScores {
                        at,
                        which: Twin::Engagement,
                        posts,
                        more,
                    },
                    Twin::Engagement => to_author_page_done(at, more),
                },
                SyncPhase::AuthorRemove { at, which, posts, more } => match which {
                    Twin::Timeline => SyncPhase::AuthorRemove {
                        at,
                        which: Twin::Engagement,
                        posts,
                        more,
                    },
                    Twin::Engagement => to_author_page_done(at, more),
                },
                SyncPhase::ClearStaged { catch_up } => SyncPhase::WalkRead {
                    walk: Walk { live: false, catch_up, cursor: None, seen: 0 },
                },
                SyncPhase::WalkPutTimeline { walk, page, engagement, .. } =>
                    SyncPhase::WalkPutEngagement { walk, page, engagement },
                SyncPhase::WalkPutEngagement { walk, page, .. } => to_walk_page_done(walk, &page),
                SyncPhase::Swap { which, catch_up } => match which {
                    Twin::Timeline => SyncPhase::Swap { which: Twin::Engagement, catch_up },
                    Twin::Engagement => SyncPhase::WalkRead {
                        walk: Walk { live: true, catch_up, cursor: Some(catch_up), seen: 0 },
                    },
                },
                SyncPhase::Commit => SyncPhase::Done,
                _ => SyncPhase::Stuck,
            },
        };
        RankedSync { keys, phase }
    }
}

/// The keys of a sync are taken for what they are: none stands for another.
pub proof fn law_the_keys_of_a_sync_are_taken_for_what_they_are(
    keys: RankedSyncKeys,
    sets: MirroredSets,
)
    ensures
        sets@.global == sets.global.deep_view(),
        sets@.ranked == sets.ranked.deep_view(),
        sets@.staged == sets.staged.deep_view(),
        sets@.aside == sets.aside.deep_view(),
        keys@.ranking == keys.ranking.deep_view(),
        keys@.author_posts == keys.author_posts.deep_view(),
        keys@.sets(Twin::Timeline) == keys.timeline@,
        keys@.sets(Twin::Engagement) == keys.engagement@,
        keys@.synced == keys.synced.deep_view(),
        keys@.target == keys.target.deep_view(),
        keys@.aside == keys.aside.deep_view(),
{
}

} // verus!
