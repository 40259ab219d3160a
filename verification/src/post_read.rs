//! Reading a page of a post stream.
//!
//! A read is a state machine: it names what it wants to know, and steps on once
//! it is told. It ends with a page of post keys.
use crate::post_stream;
use crate::post_stream::{
    to_author_posts_key, to_author_replies_key, to_bookmarks_key, to_post_replies_key, KeysModel,
    KindFilter, KindModel, LookupModel, PostKeyStream, PostLookup, PostStream, PostView,
    SourceModel, StreamSource,
};
use crate::ranked_sync::MirroredSets;
use crate::scored;
use crate::scored::{sort_texts_by_score, take_window};
use crate::sorted_set;
use crate::sorted_set::{CommandModel, SortOrder, SortedSetCommand};
use crate::text;
use crate::text::{copy_texts, post_key, same_text};
use crate::types::{Pagination, PostKind, StreamSorting};
use vstd::prelude::*;

verus! {

/// A stream by reach is drawn from the posts of at most this many users.
pub const MAX_SOURCE_USERS: usize = 200;

/// A list of users around a user.
#[derive(Debug, Clone, Copy, PartialEq, Eq, Structural)]
pub enum FollowList {
    Following,
    Followers,
    Friends,
}

/// A page of a stream, asked of the graph.
#[derive(Debug)]
pub struct GraphQuery {
    pub source: StreamSource,
    pub sorting: StreamSorting,
    pub order: SortOrder,
    pub tags: Option<Vec<String>>,
    pub pagination: Pagination,
    pub kind: Option<KindFilter>,
    /// Only posts by authors whom the trust ranking holds.
    pub ranked_only: bool,
}

/// `GraphQuery`, over plain sequences.
pub struct GraphModel {
    pub source: SourceModel,
    pub sorting: StreamSorting,
    pub order: SortOrder,
    pub tags: Option<Seq<Seq<char>>>,
    pub pagination: Pagination,
    pub kind: Option<KindModel>,
    pub ranked_only: bool,
}

impl View for GraphQuery {
    type V = GraphModel;

    open spec fn view(&self) -> GraphModel {
        GraphModel {
            source: self.source@,
            sorting: self.sorting,
            order: self.order,
            tags: self.tags.deep_view(),
            pagination: self.pagination,
            kind: post_stream::kind_model(self.kind),
            ranked_only: self.ranked_only,
        }
    }
}

impl GraphQuery {
    /// The same query again.
    fn copy(&self) -> (query: GraphQuery)
        ensures
            query@ == self@,
    {
        GraphQuery {
            source: self.source.copy(),
            sorting: self.sorting,
            order: self.order,
            tags: match &self.tags {
                Some(tags) => Some(copy_texts(tags)),
                None => None,
            },
            pagination: self.pagination,
            kind: match &self.kind {
                Some(kind) => Some(kind.copy()),
                None => None,
            },
            ranked_only: self.ranked_only,
        }
    }
}

/// What a read wants to know.
#[derive(Debug)]
pub enum ReadAction {
    /// Kind and content of a post.
    Details { author_id: String, post_id: String },
    /// The posts that a collection's content lists, dead references left out.
    CollectionItems { content: String },
    /// Whether a trust ranking exists.
    RankingBuilt,
    /// A page of a sorted set.
    Page(SortedSetCommand),
    /// A page of each of several sorted sets.
    Pages(Vec<SortedSetCommand>),
    /// A page of the graph.
    Graph(GraphQuery),
    /// The posts that carry a tag.
    TagSearch { label: String, sorting: StreamSorting, pagination: Pagination },
    /// The first users of a list around a user.
    Follows { list: FollowList, user_id: String, limit: usize },
}

/// What is told of a post.
#[derive(Debug)]
pub struct PostFound {
    pub kind: PostKind,
    pub content: String,
}

/// What a read is told.
#[derive(Debug)]
pub enum ReadEvent {
    Details(Option<PostFound>),
    /// The items as author and post id; `None` where the content is malformed.
    CollectionItems(Option<Vec<(String, String)>>),
    /// `None` where the ranking could not be asked for.
    RankingBuilt(Option<bool>),
    Page(Option<Vec<(String, i64)>>),
    Pages(Vec<Option<Vec<(String, i64)>>>),
    /// Author id, post id and score of each post.
    Rows(Vec<(String, String, i64)>),
    /// Post key and score of each post.
    TagPosts(Option<Vec<(String, usize)>>),
    Users(Option<Vec<String>>),
}

/// What a page of a sorted set holds.
#[derive(Debug)]
pub enum PageOf {
    /// Post keys.
    Keys,
    /// Ids of posts by this user.
    PostsOf(String),
    /// Post keys by ranked authors; where the set is missing, the graph is
    /// asked instead, if there is a query to ask it.
    Ranked(Option<GraphQuery>),
}

/// What depends on whether there is a trust ranking.
#[derive(Debug)]
pub enum AfterRanking {
    /// Which global set is read.
    Global {
        sorting: StreamSorting,
        order: SortOrder,
        pagination: Pagination,
        fallback: Option<GraphQuery>,
    },
    /// Whether a tag's set can be read, or the graph has to be asked.
    Tag { label: String, sorting: StreamSorting, pagination: Pagination, otherwise: GraphQuery },
    /// Whether the graph hides unranked authors.
    Graph(GraphQuery),
}

/// What a read waits for.
#[derive(Debug)]
pub enum ReadStage {
    Details { author_id: String, post_id: String, skip: Option<usize>, limit: Option<usize> },
    Items { content: String, skip: Option<usize>, limit: Option<usize> },
    Ranking(AfterRanking),
    Page { key: Vec<String>, order: SortOrder, pagination: Pagination, of: PageOf },
    Users { list: FollowList, user_id: String, order: SortOrder, pagination: Pagination },
    UserPosts { users: Vec<String>, order: SortOrder, pagination: Pagination },
    Graph(GraphQuery),
    TagSearch { label: String, sorting: StreamSorting, pagination: Pagination },
    /// Nothing: this is the page. `None` where a ranking exists but its ranked
    /// set does not, and the graph was not to be asked.
    Done(Option<PostKeyStream>),
    /// Nothing: it was told something that it had not asked for.
    Stuck,
}

/// `ReadAction`, over plain sequences.
pub enum AskModel {
    Details { author_id: Seq<char>, post_id: Seq<char> },
    CollectionItems { content: Seq<char> },
    RankingBuilt,
    Page(CommandModel),
    Pages(Seq<CommandModel>),
    Graph(GraphModel),
    TagSearch { label: Seq<char>, sorting: StreamSorting, pagination: Pagination },
    Follows { list: FollowList, user_id: Seq<char>, limit: usize },
}

/// `ReadEvent`, over plain sequences.
pub enum HeardModel {
    Details(Option<(PostKind, Seq<char>)>),
    CollectionItems(Option<Seq<(Seq<char>, Seq<char>)>>),
    RankingBuilt(Option<bool>),
    Page(Option<Seq<(Seq<char>, i64)>>),
    Pages(Seq<Option<Seq<(Seq<char>, i64)>>>),
    Rows(Seq<(Seq<char>, Seq<char>, i64)>),
    TagPosts(Option<Seq<(Seq<char>, usize)>>),
    Users(Option<Seq<Seq<char>>>),
}

/// `PageOf`, over plain sequences.
pub enum PageOfModel {
    Keys,
    PostsOf(Seq<char>),
    Ranked(Option<GraphModel>),
}

/// `AfterRanking`, over plain sequences.
pub enum AfterModel {
    Global {
        sorting: StreamSorting,
        order: SortOrder,
        pagination: Pagination,
        fallback: Option<GraphModel>,
    },
    Tag { label: Seq<char>, sorting: StreamSorting, pagination: Pagination, otherwise: GraphModel },
    Graph(GraphModel),
}

/// `ReadStage`, over plain sequences.
pub enum StageModel {
    Details { author_id: Seq<char>, post_id: Seq<char>, skip: Option<usize>, limit: Option<usize> },
    Items { content: Seq<char>, skip: Option<usize>, limit: Option<usize> },
    Ranking(AfterModel),
    Page { key: Seq<Seq<char>>, order: SortOrder, pagination: Pagination, of: PageOfModel },
    Users { list: FollowList, user_id: Seq<char>, order: SortOrder, pagination: Pagination },
    UserPosts { users: Seq<Seq<char>>, order: SortOrder, pagination: Pagination },
    Graph(GraphModel),
    TagSearch { label: Seq<char>, sorting: StreamSorting, pagination: Pagination },
    Done(Option<KeysModel>),
    Stuck,
}

/// Commands, over plain sequences.
pub open spec fn commands_model(commands: Seq<SortedSetCommand>) -> Seq<CommandModel> {
    commands.map_values(|command: SortedSetCommand| command@)
}

impl View for ReadAction {
    type V = AskModel;

    open spec fn view(&self) -> AskModel {
        match *self {
            ReadAction::Details { author_id, post_id } => AskModel::Details {
                author_id: author_id@,
                post_id: post_id@,
            },
            ReadAction::CollectionItems { content } => AskModel::CollectionItems {
                content: content@,
            },
            ReadAction::RankingBuilt => AskModel::RankingBuilt,
            ReadAction::Page(command) => AskModel::Page(command@),
            ReadAction::Pages(commands) => AskModel::Pages(commands_model(commands@)),
            ReadAction::Graph(query) => AskModel::Graph(query@),
            ReadAction::TagSearch { label, sorting, pagination } => AskModel::TagSearch {
                label: label@,
                sorting,
                pagination,
            },
            ReadAction::Follows { list, user_id, limit } => AskModel::Follows {
                list,
                user_id: user_id@,
                limit,
            },
        }
    }
}

impl View for ReadEvent {
    type V = HeardModel;

    open spec fn view(&self) -> HeardModel {
        match *self {
            ReadEvent::Details(found) => HeardModel::Details(
                match found {
                    Some(post) => Some((post.kind, post.content@)),
                    None => None,
                },
            ),
            ReadEvent::CollectionItems(items) => HeardModel::CollectionItems(items.deep_view()),
            ReadEvent::RankingBuilt(built) => HeardModel::RankingBuilt(built),
            ReadEvent::Page(page) => HeardModel::Page(page.deep_view()),
            ReadEvent::Pages(pages) => HeardModel::Pages(pages.deep_view()),
            ReadEvent::Rows(rows) => HeardModel::Rows(rows.deep_view()),
            ReadEvent::TagPosts(posts) => HeardModel::TagPosts(posts.deep_view()),
            ReadEvent::Users(users) => HeardModel::Users(users.deep_view()),
        }
    }
}

/// A query, over plain sequences.
pub open spec fn query_model(query: Option<GraphQuery>) -> Option<GraphModel> {
    match query {
        Some(asked) => Some(asked@),
        None => None,
    }
}

impl View for PageOf {
    type V = PageOfModel;

    open spec fn view(&self) -> PageOfModel {
        match *self {
            PageOf::Keys => PageOfModel::Keys,
            PageOf::PostsOf(user) => PageOfModel::PostsOf(user@),
            PageOf::Ranked(fallback) => PageOfModel::Ranked(query_model(fallback)),
        }
    }
}

impl View for AfterRanking {
    type V = AfterModel;

    open spec fn view(&self) -> AfterModel {
        match *self {
            AfterRanking::Global { sorting, order, pagination, fallback } => AfterModel::Global {
                sorting,
                order,
                pagination,
                fallback: query_model(fallback),
            },
            AfterRanking::Tag { label, sorting, pagination, otherwise } => AfterModel::Tag {
                label: label@,
                sorting,
                pagination,
                otherwise: otherwise@,
            },
            AfterRanking::Graph(query) => AfterModel::Graph(query@),
        }
    }
}

impl View for ReadStage {
    type V = StageModel;

    open spec fn view(&self) -> StageModel {
        match *self {
            ReadStage::Details { author_id, post_id, skip, limit } => StageModel::Details {
                author_id: author_id@,
                post_id: post_id@,
                skip,
                limit,
            },
            ReadStage::Items { content, skip, limit } => StageModel::Items {
                content: content@,
                skip,
                limit,
            },
            ReadStage::Ranking(after) => StageModel::Ranking(after@),
            ReadStage::Page { key, order, pagination, of } => StageModel::Page {
                key: key.deep_view(),
                order,
                pagination,
                of: of@,
            },
            ReadStage::Users { list, user_id, order, pagination } => StageModel::Users {
                list,
                user_id: user_id@,
                order,
                pagination,
            },
            ReadStage::UserPosts { users, order, pagination } => StageModel::UserPosts {
                users: users.deep_view(),
                order,
                pagination,
            },
            ReadStage::Graph(query) => StageModel::Graph(query@),
            ReadStage::TagSearch { label, sorting, pagination } => StageModel::TagSearch {
                label: label@,
                sorting,
                pagination,
            },
            ReadStage::Done(page) => StageModel::Done(
                match page {
                    Some(keys) => Some(keys@),
                    None => None,
                },
            ),
            ReadStage::Stuck => StageModel::Stuck,
        }
    }
}

/// The command that reads a page of a sorted set.
pub open spec fn page_command(
    key: Seq<Seq<char>>,
    order: SortOrder,
    pagination: Pagination,
) -> CommandModel {
    CommandModel::PageByScore {
        key,
        start: pagination.start,
        end: pagination.end,
        skip: pagination.skip,
        limit: pagination.limit,
        order,
    }
}

/// The command that reads all of a user's root posts within the bounds. Nothing
/// is skipped or cut off: the page is cut out of the posts of all users.
pub open spec fn user_posts_command(
    user: Seq<char>,
    order: SortOrder,
    pagination: Pagination,
) -> CommandModel {
    CommandModel::PageByScore {
        key: post_stream::author_posts_key(user),
        start: pagination.start,
        end: pagination.end,
        skip: None,
        limit: None,
        order,
    }
}

/// A number that was left out counts as zero.
pub open spec fn or_zero(n: Option<usize>) -> nat {
    match n {
        Some(n) => n as nat,
        None => 0,
    }
}

/// A limit, counted without bounds.
pub open spec fn counted(limit: Option<usize>) -> Option<nat> {
    match limit {
        Some(n) => Some(n as nat),
        None => None,
    }
}

/// The entries of a page; a set that does not exist has none.
pub open spec fn page_or_empty(page: Option<Seq<(Seq<char>, i64)>>) -> Seq<(Seq<char>, i64)> {
    match page {
        Some(entries) => entries,
        None => Seq::empty(),
    }
}

/// A page of post ids as entries of post keys by `user`.
pub open spec fn keyed(user: Seq<char>, page: Seq<(Seq<char>, i64)>) -> Seq<(Seq<char>, i64)> {
    page.map_values(|entry: (Seq<char>, i64)| (text::post_key_of(user, entry.0), entry.1))
}

/// Pairs with their sides swapped.
pub open spec fn swapped<A, B>(entries: Seq<(A, B)>) -> Seq<(B, A)> {
    entries.map_values(|entry: (A, B)| (entry.1, entry.0))
}

/// The posts of the first `n` users, one user after the other.
pub open spec fn posts_of_users(
    users: Seq<Seq<char>>,
    pages: Seq<Option<Seq<(Seq<char>, i64)>>>,
    n: nat,
) -> Seq<(i64, Seq<char>)>
    decreases n,
{
    if n == 0 {
        Seq::empty()
    } else {
        posts_of_users(users, pages, (n - 1) as nat) + swapped(
            keyed(users[n - 1], page_or_empty(pages[n - 1])),
        )
    }
}

/// Users other than `observer`, among the first `n`.
pub open spec fn others_in(users: Seq<Seq<char>>, observer: Seq<char>, n: nat) -> Seq<Seq<char>>
    decreases n,
{
    if n == 0 {
        Seq::empty()
    } else {
        let before = others_in(users, observer, (n - 1) as nat);
        if users[n - 1] == observer {
            before
        } else {
            before.push(users[n - 1])
        }
    }
}

/// At most the first `n` of `list`.
pub open spec fn at_most<T>(list: Seq<T>, n: nat) -> Seq<T> {
    if list.len() <= n {
        list
    } else {
        list.take(n as int)
    }
}

impl GraphModel {
    /// The query with the trust filter on or off.
    pub open spec fn filtered(self, ranked_only: bool) -> GraphModel {
        GraphModel { ranked_only, ..self }
    }
}

/// Asking the graph: a global stream first learns whether it hides unranked authors.
pub open spec fn graph_start(query: GraphModel) -> StageModel {
    if query.source is All {
        StageModel::Ranking(AfterModel::Graph(query))
    } else {
        StageModel::Graph(query.filtered(false))
    }
}

/// Reading the posts of the users in a reach; other sources have none.
pub open spec fn source_start(
    source: SourceModel,
    order: SortOrder,
    pagination: Pagination,
) -> StageModel {
    match source {
        SourceModel::Following { observer_id } => StageModel::Users {
            list: FollowList::Following,
            user_id: observer_id,
            order,
            pagination,
        },
        SourceModel::Followers { observer_id } => StageModel::Users {
            list: FollowList::Followers,
            user_id: observer_id,
            order,
            pagination,
        },
        SourceModel::Friends { observer_id } => StageModel::Users {
            list: FollowList::Friends,
            user_id: observer_id,
            order,
            pagination,
        },
        _ => StageModel::Done(Some(post_stream::no_keys())),
    }
}

/// Reading a user's root posts or replies.
pub open spec fn author_start(
    user: Seq<char>,
    order: SortOrder,
    pagination: Pagination,
    replies: bool,
) -> StageModel {
    StageModel::Page {
        key: if replies {
            post_stream::author_replies_key(user)
        } else {
            post_stream::author_posts_key(user)
        },
        order,
        pagination,
        of: PageOfModel::PostsOf(user),
    }
}

/// Reading a user's bookmarks.
pub open spec fn bookmarks_start(
    user: Seq<char>,
    order: SortOrder,
    pagination: Pagination,
) -> StageModel {
    StageModel::Page {
        key: post_stream::bookmarks_key(user),
        order,
        pagination,
        of: PageOfModel::Keys,
    }
}

/// Reading the replies to a post.
pub open spec fn post_replies_start(
    author: Seq<char>,
    post: Seq<char>,
    order: SortOrder,
    pagination: Pagination,
) -> StageModel {
    StageModel::Page {
        key: post_stream::post_replies_key(author, post),
        order,
        pagination,
        of: PageOfModel::Keys,
    }
}

/// Reading a global stream, and asking the graph with `fallback` where its
/// ranked set is missing.
pub open spec fn global_start(
    sorting: StreamSorting,
    order: SortOrder,
    pagination: Pagination,
    fallback: Option<GraphModel>,
) -> StageModel {
    StageModel::Ranking(AfterModel::Global { sorting, order, pagination, fallback })
}

/// Searching a tag's posts: ten of them, from the first on, unless told otherwise.
pub open spec fn tag_start(
    label: Seq<char>,
    sorting: StreamSorting,
    pagination: Pagination,
) -> StageModel {
    StageModel::TagSearch {
        label,
        sorting,
        pagination: Pagination {
            start: pagination.start,
            end: pagination.end,
            skip: Some(or_zero(pagination.skip) as usize),
            limit: match pagination.limit {
                Some(limit) => Some(limit),
                None => Some(10),
            },
        },
    }
}

/// The graph query of a stream that is drawn from everybody, without a kind filter.
pub open spec fn global_query(
    sorting: StreamSorting,
    order: SortOrder,
    tags: Option<Seq<Seq<char>>>,
    pagination: Pagination,
) -> GraphModel {
    GraphModel {
        source: SourceModel::All,
        sorting,
        order,
        tags,
        pagination,
        kind: None,
        ranked_only: false,
    }
}

/// Reading a stream from the sorted sets.
pub open spec fn index_start(
    source: SourceModel,
    sorting: StreamSorting,
    order: SortOrder,
    tags: Option<Seq<Seq<char>>>,
    pagination: Pagination,
) -> StageModel {
    match tags {
        None => match source {
            SourceModel::Bookmarks { observer_id } => bookmarks_start(
                observer_id,
                order,
                pagination,
            ),
            SourceModel::PostReplies { author_id, post_id } => post_replies_start(
                author_id,
                post_id,
                order,
                pagination,
            ),
            SourceModel::Author { author_id } => author_start(author_id, order, pagination, false),
            SourceModel::AuthorReplies { author_id } => author_start(
                author_id,
                order,
                pagination,
                true,
            ),
            SourceModel::All => global_start(
                sorting,
                order,
                pagination,
                Some(global_query(sorting, order, None, pagination)),
            ),
            _ => source_start(source, order, pagination),
        },
        Some(labels) => if source is All && labels.len() == 1 {
            StageModel::Ranking(
                AfterModel::Tag {
                    label: labels[0],
                    sorting,
                    pagination,
                    otherwise: global_query(sorting, order, tags, pagination),
                },
            )
        } else {
            StageModel::Done(Some(post_stream::no_keys()))
        },
    }
}

/// The stream that a caller asks for.
pub open spec fn stream_query(
    source: SourceModel,
    pagination: Pagination,
    order: SortOrder,
    sorting: StreamSorting,
    tags: Option<Seq<Seq<char>>>,
    kind: Option<KindModel>,
) -> GraphModel {
    GraphModel { source, sorting, order, tags, pagination, kind, ranked_only: false }
}

/// Reading a stream: a collection from its content, what the sorted sets back
/// from those, and everything else from the graph.
pub open spec fn read_start(query: GraphModel) -> StageModel {
    match query.source {
        SourceModel::Collection { author_id, post_id } => StageModel::Details {
            author_id,
            post_id,
            skip: query.pagination.skip,
            limit: query.pagination.limit,
        },
        _ => if post_stream::index_backed(query.sorting, query.source, query.tags, query.kind) {
            index_start(query.source, query.sorting, query.order, query.tags, query.pagination)
        } else {
            graph_start(query)
        },
    }
}

impl AfterModel {
    /// What follows once it is known whether there is a trust ranking.
    pub open spec fn go_on(self, ranked: bool) -> StageModel {
        match self {
            AfterModel::Global { sorting, order, pagination, fallback } => StageModel::Page {
                key: if ranked {
                    post_stream::sets_for(sorting).ranked
                } else {
                    post_stream::sets_for(sorting).global
                },
                order,
                pagination,
                of: if ranked {
                    PageOfModel::Ranked(fallback)
                } else {
                    PageOfModel::Keys
                },
            },
            AfterModel::Tag { label, sorting, pagination, otherwise } => if ranked {
                graph_start(otherwise)
            } else {
                tag_start(label, sorting, pagination)
            },
            AfterModel::Graph(query) => StageModel::Graph(query.filtered(ranked)),
        }
    }
}

impl StageModel {
    /// What is asked in this stage.
    pub open spec fn action(self) -> Option<AskModel> {
        match self {
            StageModel::Details { author_id, post_id, .. } => Some(
                AskModel::Details { author_id, post_id },
            ),
            StageModel::Items { content, .. } => Some(AskModel::CollectionItems { content }),
            StageModel::Ranking(_) => Some(AskModel::RankingBuilt),
            StageModel::Page { key, order, pagination, .. } => Some(
                AskModel::Page(page_command(key, order, pagination)),
            ),
            StageModel::Users { list, user_id, .. } => Some(
                AskModel::Follows { list, user_id, limit: MAX_SOURCE_USERS },
            ),
            StageModel::UserPosts { users, order, pagination } => Some(
                AskModel::Pages(
                    users.map_values(
                        |user: Seq<char>| user_posts_command(user, order, pagination),
                    ),
                ),
            ),
            StageModel::Graph(query) => Some(AskModel::Graph(query)),
            StageModel::TagSearch { label, sorting, pagination } => Some(
                AskModel::TagSearch { label, sorting, pagination },
            ),
            StageModel::Done(_) => None,
            StageModel::Stuck => None,
        }
    }

    /// The stage that follows once `heard` was told.
    pub open spec fn next(self, heard: HeardModel) -> StageModel {
        match heard {
            HeardModel::Details(found) => match self {
                StageModel::Details { skip, limit, .. } => match found {
                    Some((kind, content)) => if kind == PostKind::Collection {
                        StageModel::Items { content, skip, limit }
                    } else {
                        StageModel::Done(Some(post_stream::no_keys()))
                    },
                    None => StageModel::Done(Some(post_stream::no_keys())),
                },
                _ => StageModel::Stuck,
            },
            HeardModel::CollectionItems(items) => match self {
                StageModel::Items { skip, limit, .. } => match items {
                    Some(posts) => StageModel::Done(
                        Some(
                            KeysModel {
                                post_keys: sorted_set::window(
                                    posts.map_values(
                                        |post: (Seq<char>, Seq<char>)|
                                            text::post_key_of(post.0, post.1),
                                    ),
                                    or_zero(skip),
                                    counted(limit),
                                ),
                                last_post_score: None,
                            },
                        ),
                    ),
                    None => StageModel::Done(Some(post_stream::no_keys())),
                },
                _ => StageModel::Stuck,
            },
            HeardModel::RankingBuilt(built) => match self {
                StageModel::Ranking(after) => after.go_on(built == Some(true)),
                _ => StageModel::Stuck,
            },
            HeardModel::Page(page) => match self {
                StageModel::Page { of, .. } => match of {
                    PageOfModel::Keys => StageModel::Done(
                        Some(post_stream::keys_model(page_or_empty(page))),
                    ),
                    PageOfModel::PostsOf(user) => StageModel::Done(
                        Some(post_stream::keys_model(keyed(user, page_or_empty(page)))),
                    ),
                    PageOfModel::Ranked(fallback) => match page {
                        Some(entries) => StageModel::Done(Some(post_stream::keys_model(entries))),
                        None => match fallback {
                            Some(query) => graph_start(query),
                            None => StageModel::Done(None),
                        },
                    },
                },
                _ => StageModel::Stuck,
            },
            HeardModel::Users(users) => match self {
                StageModel::Users { user_id, order, pagination, .. } => {
                    let all = match users {
                        Some(ids) => ids,
                        None => Seq::empty(),
                    };
                    let others = others_in(all, user_id, all.len());
                    if others.len() == 0 {
                        StageModel::Done(Some(post_stream::no_keys()))
                    } else {
                        StageModel::UserPosts {
                            users: at_most(others, MAX_SOURCE_USERS as nat),
                            order,
                            pagination,
                        }
                    }
                },
                _ => StageModel::Stuck,
            },
            HeardModel::Pages(pages) => match self {
                StageModel::UserPosts { users, pagination, .. } => {
                    let n = if users.len() <= pages.len() {
                        users.len()
                    } else {
                        pages.len()
                    };
                    StageModel::Done(
                        Some(
                            post_stream::keys_model(
                                swapped(
                                    sorted_set::window(
                                        scored::by_score(posts_of_users(users, pages, n)),
                                        or_zero(pagination.skip),
                                        counted(pagination.limit),
                                    ),
                                ),
                            ),
                        ),
                    )
                },
                _ => StageModel::Stuck,
            },
            HeardModel::Rows(rows) => match self {
                StageModel::Graph(_) => StageModel::Done(
                    Some(
                        KeysModel {
                            post_keys: rows.map_values(
                                |row: (Seq<char>, Seq<char>, i64)|
                                    text::post_key_of(row.0, row.1),
                            ),
                            last_post_score: if rows.len() == 0 {
                                None
                            } else {
                                Some(rows.last().2 as u64)
                            },
                        },
                    ),
                ),
                _ => StageModel::Stuck,
            },
            HeardModel::TagPosts(posts) => match self {
                StageModel::TagSearch { .. } => match posts {
                    Some(entries) => StageModel::Done(
                        Some(
                            KeysModel {
                                post_keys: entries.map_values(
                                    |entry: (Seq<char>, usize)| entry.0,
                                ),
                                last_post_score: if entries.len() == 0 {
                                    None
                                } else {
                                    Some(entries.last().1 as u64)
                                },
                            },
                        ),
                    ),
                    None => StageModel::Done(Some(post_stream::no_keys())),
                },
                _ => StageModel::Stuck,
            },
        }
    }
}

/// A page of post ids as entries of post keys by `user`.
fn to_keyed(user: &str, page: &Vec<(String, i64)>) -> (entries: Vec<(String, i64)>)
    ensures
        entries.deep_view() == keyed(user@, page.deep_view()),
{
    let mut entries: Vec<(String, i64)> = Vec::new();
    let mut i: usize = 0;
    while i < page.len()
        invariant
            i <= page@.len(),
            entries.deep_view() == keyed(user@, page.deep_view()).take(i as int),
        decreases page@.len() - i,
    {
        let ghost all = keyed(user@, page.deep_view());
        let ghost before = entries.deep_view();
        entries.push((post_key(user, page[i].0.as_str()), page[i].1));
        i = i + 1;
        assert(entries.deep_view() =~= before.push(all[i - 1]));
        assert(all.take(i as int) =~= before.push(all[i - 1]));
    }
    assert(keyed(user@, page.deep_view()).take(i as int) =~= keyed(user@, page.deep_view()));
    entries
}

/// The posts of users, one user after the other.
fn to_posts_of_users(users: &Vec<String>, pages: &Vec<Option<Vec<(String, i64)>>>) -> (posts: Vec<
    (i64, String),
>)
    ensures
        posts.deep_view() == posts_of_users(
            users.deep_view(),
            pages.deep_view(),
            if users.deep_view().len() <= pages.deep_view().len() {
                users.deep_view().len()
            } else {
                pages.deep_view().len()
            },
        ),
{
    let mut posts: Vec<(i64, String)> = Vec::new();
    let mut i: usize = 0;
    assert(posts.deep_view() =~= Seq::empty());
    while i < users.len() && i < pages.len()
        invariant
            i <= users@.len(),
            i <= pages@.len(),
            posts.deep_view() == posts_of_users(users.deep_view(), pages.deep_view(), i as nat),
        decreases users@.len() - i,
    {
        let ghost so_far = posts.deep_view();
        if let Some(page) = &pages[i] {
            let entries = to_keyed(users[i].as_str(), page);
            let ghost more = swapped(entries.deep_view());
            let mut j: usize = 0;
            assert(so_far + more.take(0) =~= so_far);
            while j < entries.len()
                invariant
                    j <= entries@.len(),
                    more == swapped(entries.deep_view()),
                    posts.deep_view() == so_far + more.take(j as int),
                decreases entries@.len() - j,
            {
                let ghost before = posts.deep_view();
                posts.push((entries[j].1, entries[j].0.clone()));
                j = j + 1;
                assert(posts.deep_view() =~= before.push(more[j - 1]));
                assert(so_far + more.take(j as int) =~= before.push(more[j - 1]));
            }
            assert(more.take(j as int) =~= more);
            assert(pages.deep_view()[i as int] == Some(page.deep_view()));
        } else {
            assert(pages.deep_view()[i as int] is None);
            assert(swapped(
                keyed(users.deep_view()[i as int], Seq::empty()),
            ) =~= Seq::<(i64, Seq<char>)>::empty());
            assert(so_far + Seq::empty() =~= so_far);
        }
        i = i + 1;
    }
    posts
}

/// Scored post keys as entries of a page.
fn to_entries(posts: Vec<(i64, String)>) -> (entries: Vec<(String, i64)>)
    ensures
        entries.deep_view() == swapped(posts.deep_view()),
{
    let mut entries: Vec<(String, i64)> = Vec::new();
    let ghost all = swapped(posts.deep_view());
    for post in it: posts
        invariant
            it.seq() == posts@,
            all == swapped(posts.deep_view()),
            entries.deep_view() == all.take(it.index() as int),
    {
        let ghost before = entries.deep_view();
        let ghost i = it.index() as int;
        entries.push((post.1, post.0));
        proof {
            assert(entries.deep_view() =~= before.push(all[i]));
            assert(all.take(i + 1) =~= before.push(all[i]));
        }
    }
    assert(all.take(posts@.len() as int) =~= all);
    entries
}

/// The users other than `observer`, at most as many as a stream is drawn from.
fn to_others(users: Vec<String>, observer: &str) -> (others: Vec<String>)
    ensures
        others.deep_view() == at_most(
            others_in(users.deep_view(), observer@, users.deep_view().len()),
            MAX_SOURCE_USERS as nat,
        ),
{
    let mut others: Vec<String> = Vec::new();
    assert(others.deep_view() =~= Seq::empty());
    let mut i: usize = 0;
    while i < users.len()
        invariant
            i <= users@.len(),
            others.deep_view() == others_in(users.deep_view(), observer@, i as nat),
        decreases users@.len() - i,
    {
        let ghost before = others.deep_view();
        if !same_text(users[i].as_str(), observer) {
            others.push(users[i].clone());
            assert(others.deep_view() =~= before.push(users.deep_view()[i as int]));
        }
        i = i + 1;
    }
    let ghost all = others.deep_view();
    if others.len() > MAX_SOURCE_USERS {
        others.truncate(MAX_SOURCE_USERS);
        assert(others.deep_view() =~= all.take(MAX_SOURCE_USERS as int));
    }
    others
}

/// The commands that read the posts of `users`.
fn to_user_commands(users: &Vec<String>, order: SortOrder, pagination: Pagination) -> (commands:
    Vec<SortedSetCommand>)
    ensures
        commands_model(commands@) == users.deep_view().map_values(
            |user: Seq<char>| user_posts_command(user, order, pagination),
        ),
{
    let ghost all = users.deep_view().map_values(
        |user: Seq<char>| user_posts_command(user, order, pagination),
    );
    let mut commands: Vec<SortedSetCommand> = Vec::new();
    let mut i: usize = 0;
    while i < users.len()
        invariant
            i <= users@.len(),
            all == users.deep_view().map_values(
                |user: Seq<char>| user_posts_command(user, order, pagination),
            ),
            commands_model(commands@) == all.take(i as int),
        decreases users@.len() - i,
    {
        let ghost before = commands_model(commands@);
        let command = SortedSetCommand::PageByScore {
            key: to_author_posts_key(users[i].as_str()),
            start: pagination.start,
            end: pagination.end,
            skip: None,
            limit: None,
            order,
        };
        commands.push(command);
        i = i + 1;
        assert(commands_model(commands@) =~= before.push(all[i - 1]));
        assert(all.take(i as int) =~= before.push(all[i - 1]));
    }
    assert(all.take(i as int) =~= all);
    commands
}

/// Asks the graph: a global stream first learns whether it hides unranked authors.
fn to_graph_start(query: GraphQuery) -> (stage: ReadStage)
    ensures
        stage@ == graph_start(query@),
{
    let global = match &query.source {
        StreamSource::All => true,
        _ => false,
    };
    if global {
        ReadStage::Ranking(AfterRanking::Graph(query))
    } else {
        to_filtered(query, false)
    }
}

/// Asks the graph, with the trust filter on or off.
fn to_filtered(query: GraphQuery, ranked_only: bool) -> (stage: ReadStage)
    ensures
        stage@ == StageModel::Graph(query@.filtered(ranked_only)),
{
    ReadStage::Graph(
        GraphQuery {
            source: query.source,
            sorting: query.sorting,
            order: query.order,
            tags: query.tags,
            pagination: query.pagination,
            kind: query.kind,
            ranked_only,
        },
    )
}

/// The read that ends with a page without entries.
fn to_nothing() -> (stage: ReadStage)
    ensures
        stage@ == StageModel::Done(Some(post_stream::no_keys())),
{
    ReadStage::Done(Some(PostKeyStream::default()))
}

fn to_source_start(source: &StreamSource, order: SortOrder, pagination: Pagination) -> (stage:
    ReadStage)
    ensures
        stage@ == source_start(source@, order, pagination),
        source matches StreamSource::Following { observer_id } ==> (stage matches
            ReadStage::Users { list, user_id, .. } && list == FollowList::Following && user_id@
            == observer_id@),
        source matches StreamSource::Followers { observer_id } ==> (stage matches
            ReadStage::Users { list, user_id, .. } && list == FollowList::Followers && user_id@
            == observer_id@),
        source matches StreamSource::Friends { observer_id } ==> (stage matches ReadStage::Users {
            list,
            user_id,
            ..
        } && list == FollowList::Friends && user_id@ == observer_id@),
{
    match source {
        StreamSource::Following { observer_id } => ReadStage::Users {
            list: FollowList::Following,
            user_id: observer_id.clone(),
            order,
            pagination,
        },
        StreamSource::Followers { observer_id } => ReadStage::Users {
            list: FollowList::Followers,
            user_id: observer_id.clone(),
            order,
            pagination,
        },
        StreamSource::Friends { observer_id } => ReadStage::Users {
            list: FollowList::Friends,
            user_id: observer_id.clone(),
            order,
            pagination,
        },
        _ => to_nothing(),
    }
}

fn to_author_start(user: &str, order: SortOrder, pagination: Pagination, replies: bool) -> (stage:
    ReadStage)
    ensures
        stage@ == author_start(user@, order, pagination, replies),
{
    ReadStage::Page {
        key: if replies {
            to_author_replies_key(user)
        } else {
            to_author_posts_key(user)
        },
        order,
        pagination,
        of: PageOf::PostsOf(user.to_owned()),
    }
}

fn to_tag_start(label: &str, sorting: StreamSorting, pagination: Pagination) -> (stage: ReadStage)
    ensures
        stage@ == tag_start(label@, sorting, pagination),
{
    ReadStage::TagSearch {
        label: label.to_owned(),
        sorting,
        pagination: Pagination {
            start: pagination.start,
            end: pagination.end,
            skip: match pagination.skip {
                Some(skip) => Some(skip),
                None => Some(0),
            },
            limit: match pagination.limit {
                Some(limit) => Some(limit),
                None => Some(10),
            },
        },
    }
}

fn to_global_query(
    sorting: StreamSorting,
    order: SortOrder,
    tags: Option<Vec<String>>,
    pagination: Pagination,
) -> (query: GraphQuery)
    ensures
        query@ == global_query(sorting, order, tags.deep_view(), pagination),
{
    GraphQuery {
        source: StreamSource::All,
        sorting,
        order,
        tags,
        pagination,
        kind: None,
        ranked_only: false,
    }
}

fn to_index_start(
    source: &StreamSource,
    sorting: StreamSorting,
    order: SortOrder,
    tags: &Option<Vec<String>>,
    pagination: Pagination,
) -> (stage: ReadStage)
    ensures
        stage@ == index_start(source@, sorting, order, tags.deep_view(), pagination),
{
    match tags {
        None => match source {
            StreamSource::Bookmarks { observer_id } => ReadStage::Page {
                key: to_bookmarks_key(observer_id.as_str()),
                order,
                pagination,
                of: PageOf::Keys,
            },
            StreamSource::PostReplies { author_id, post_id } => ReadStage::Page {
                key: to_post_replies_key(author_id.as_str(), post_id.as_str()),
                order,
                pagination,
                of: PageOf::Keys,
            },
            StreamSource::Author { author_id } => to_author_start(
                author_id.as_str(),
                order,
                pagination,
                false,
            ),
            StreamSource::AuthorReplies { author_id } => to_author_start(
                author_id.as_str(),
                order,
                pagination,
                true,
            ),
            StreamSource::All => ReadStage::Ranking(
                AfterRanking::Global {
                    sorting,
                    order,
                    pagination,
                    fallback: Some(to_global_query(sorting, order, None, pagination)),
                },
            ),
            _ => to_source_start(source, order, pagination),
        },
        Some(labels) => {
            let global = match source {
                StreamSource::All => true,
                _ => false,
            };
            if global && labels.len() == 1 {
                ReadStage::Ranking(
                    AfterRanking::Tag {
                        label: labels[0].clone(),
                        sorting,
                        pagination,
                        otherwise: to_global_query(
                            sorting,
                            order,
                            Some(copy_texts(labels)),
                            pagination,
                        ),
                    },
                )
            } else {
                to_nothing()
            }
        },
    }
}

fn to_read_start(query: GraphQuery) -> (stage: ReadStage)
    ensures
        stage@ == read_start(query@),
{
    if let StreamSource::Collection { author_id, post_id } = &query.source {
        return ReadStage::Details {
            author_id: author_id.clone(),
            post_id: post_id.clone(),
            skip: query.pagination.skip,
            limit: query.pagination.limit,
        };
    }
    if PostStream::can_use_index(&query.sorting, &query.source, &query.tags, &query.kind) {
        to_index_start(&query.source, query.sorting, query.order, &query.tags, query.pagination)
    } else {
        to_graph_start(query)
    }
}

impl AfterRanking {
    /// What follows once it is known whether there is a trust ranking.
    fn go_on(self, ranked: bool) -> (stage: ReadStage)
        ensures
            stage@ == self@.go_on(ranked),
    {
        match self {
            AfterRanking::Global { sorting, order, pagination, fallback } => {
                let sets = MirroredSets::for_sorting(sorting);
                if ranked {
                    ReadStage::Page {
                        key: sets.ranked,
                        order,
                        pagination,
                        of: PageOf::Ranked(fallback),
                    }
                } else {
                    ReadStage::Page { key: sets.global, order, pagination, of: PageOf::Keys }
                }
            },
            AfterRanking::Tag { label, sorting, pagination, otherwise } => if ranked {
                to_graph_start(otherwise)
            } else {
                to_tag_start(label.as_str(), sorting, pagination)
            },
            AfterRanking::Graph(query) => to_filtered(query, ranked),
        }
    }
}

/// The keys of collection items, cut to a page.
fn to_item_keys(
    items: &Vec<(String, String)>,
    skip: Option<usize>,
    limit: Option<usize>,
) -> (stream: PostKeyStream)
    ensures
        stream@.post_keys == sorted_set::window(
            items.deep_view().map_values(
                |post: (Seq<char>, Seq<char>)| text::post_key_of(post.0, post.1),
            ),
            or_zero(skip),
            counted(limit),
        ),
        stream@.last_post_score is None,
{
    let ghost all = items.deep_view().map_values(
        |post: (Seq<char>, Seq<char>)| text::post_key_of(post.0, post.1),
    );
    let mut post_keys: Vec<String> = Vec::new();
    let mut i: usize = 0;
    while i < items.len()
        invariant
            i <= items@.len(),
            all == items.deep_view().map_values(
                |post: (Seq<char>, Seq<char>)| text::post_key_of(post.0, post.1),
            ),
            post_keys.deep_view() == all.take(i as int),
        decreases items@.len() - i,
    {
        let ghost before = post_keys.deep_view();
        post_keys.push(post_key(items[i].0.as_str(), items[i].1.as_str()));
        i = i + 1;
        assert(post_keys.deep_view() =~= before.push(all[i - 1]));
        assert(all.take(i as int) =~= before.push(all[i - 1]));
    }
    assert(all.take(i as int) =~= all);
    let skip: usize = match skip {
        Some(n) => n,
        None => 0,
    };
    let page = take_window(post_keys, skip, limit);
    assert(page.deep_view() =~= sorted_set::window(all, skip as nat, counted(limit)));
    PostKeyStream::new(page, None)
}

/// The keys of the graph's rows, with the score of the last row as the cursor.
fn to_row_keys(rows: &Vec<(String, String, i64)>) -> (stream: PostKeyStream)
    ensures
        stream@ == (KeysModel {
            post_keys: rows.deep_view().map_values(
                |row: (Seq<char>, Seq<char>, i64)| text::post_key_of(row.0, row.1),
            ),
            last_post_score: if rows.deep_view().len() == 0 {
                None
            } else {
                Some(rows.deep_view().last().2 as u64)
            },
        }),
{
    let ghost all = rows.deep_view().map_values(
        |row: (Seq<char>, Seq<char>, i64)| text::post_key_of(row.0, row.1),
    );
    let mut post_keys: Vec<String> = Vec::new();
    let mut last: Option<u64> = None;
    let mut i: usize = 0;
    while i < rows.len()
        invariant
            i <= rows@.len(),
            all == rows.deep_view().map_values(
                |row: (Seq<char>, Seq<char>, i64)| text::post_key_of(row.0, row.1),
            ),
            post_keys.deep_view() == all.take(i as int),
            last == (if i == 0 {
                None
            } else {
                Some(rows@[i - 1].2 as u64)
            }),
        decreases rows@.len() - i,
    {
        let ghost before = post_keys.deep_view();
        post_keys.push(post_key(rows[i].0.as_str(), rows[i].1.as_str()));
        last = Some(#[verifier::truncate] (rows[i].2 as u64));
        i = i + 1;
        assert(post_keys.deep_view() =~= before.push(all[i - 1]));
        assert(all.take(i as int) =~= before.push(all[i - 1]));
    }
    assert(all.take(i as int) =~= all);
    PostKeyStream::new(post_keys, last)
}

/// The keys of a tag's posts, with the score of the last post as the cursor.
fn to_tag_keys(posts: &Vec<(String, usize)>) -> (stream: PostKeyStream)
    ensures
        stream@ == (KeysModel {
            post_keys: posts.deep_view().map_values(|entry: (Seq<char>, usize)| entry.0),
            last_post_score: if posts.deep_view().len() == 0 {
                None
            } else {
                Some(posts.deep_view().last().1 as u64)
            },
        }),
{
    let ghost all = posts.deep_view().map_values(|entry: (Seq<char>, usize)| entry.0);
    let mut post_keys: Vec<String> = Vec::new();
    let mut last: Option<u64> = None;
    let mut i: usize = 0;
    while i < posts.len()
        invariant
            i <= posts@.len(),
            all == posts.deep_view().map_values(|entry: (Seq<char>, usize)| entry.0),
            post_keys.deep_view() == all.take(i as int),
            last == (if i == 0 {
                None
            } else {
                Some(posts@[i - 1].1 as u64)
            }),
        decreases posts@.len() - i,
    {
        let ghost before = post_keys.deep_view();
        post_keys.push(posts[i].0.clone());
        last = Some(posts[i].1 as u64);
        i = i + 1;
        assert(post_keys.deep_view() =~= before.push(all[i - 1]));
        assert(all.take(i as int) =~= before.push(all[i - 1]));
    }
    assert(all.take(i as int) =~= all);
    PostKeyStream::new(post_keys, last)
}

/// A read of a page of post keys.
#[derive(Debug)]
pub struct PostKeyRead {
    pub stage: ReadStage,
}

impl PostKeyRead {
    /// What to find out next; nothing once the read is over.
    pub fn action(&self) -> (action: Option<ReadAction>)
        ensures
            match action {
                Some(asked) => self.stage@.action() == Some(asked@),
                None => self.stage@.action() is None,
            },
    {
        match &self.stage {
            ReadStage::Details { author_id, post_id, .. } => Some(
                ReadAction::Details { author_id: author_id.clone(), post_id: post_id.clone() },
            ),
            ReadStage::Items { content, .. } => Some(
                ReadAction::CollectionItems { content: content.clone() },
            ),
            ReadStage::Ranking(_) => Some(ReadAction::RankingBuilt),
            ReadStage::Page { key, order, pagination, .. } => Some(
                ReadAction::Page(
                    SortedSetCommand::PageByScore {
                        key: copy_texts(key),
                        start: pagination.start,
                        end: pagination.end,
                        skip: pagination.skip,
                        limit: pagination.limit,
                        order: *order,
                    },
                ),
            ),
            ReadStage::Users { list, user_id, .. } => Some(
                ReadAction::Follows {
                    list: *list,
                    user_id: user_id.clone(),
                    limit: MAX_SOURCE_USERS,
                },
            ),
            ReadStage::UserPosts { users, order, pagination } => Some(
                ReadAction::Pages(to_user_commands(users, *order, *pagination)),
            ),
            ReadStage::Graph(query) => Some(ReadAction::Graph(query.copy())),
            ReadStage::TagSearch { label, sorting, pagination } => Some(
                ReadAction::TagSearch {
                    label: label.clone(),
                    sorting: *sorting,
                    pagination: *pagination,
                },
            ),
            ReadStage::Done(_) => None,
            ReadStage::Stuck => None,
        }
    }

    /// The read once it was told what it asked for.
    pub fn step(self, event: ReadEvent) -> (next: PostKeyRead)
        ensures
            next.stage@ == self.stage@.next(event@),
    {
        let stage = match event {
            ReadEvent::Details(found) => match self.stage {
                ReadStage::Details { skip, limit, .. } => match found {
                    Some(post) => if post.kind == PostKind::Collection {
                        ReadStage::Items { content: post.content, skip, limit }
                    } else {
                        to_nothing()
                    },
                    None => to_nothing(),
                },
                _ => ReadStage::Stuck,
            },
            ReadEvent::CollectionItems(items) => match self.stage {
                ReadStage::Items { skip, limit, .. } => match items {
                    Some(posts) => ReadStage::Done(Some(to_item_keys(&posts, skip, limit))),
                    None => to_nothing(),
                },
                _ => ReadStage::Stuck,
            },
            ReadEvent::RankingBuilt(built) => match self.stage {
                ReadStage::Ranking(after) => {
                    let ranked = match built {
                        Some(yes) => yes,
                        None => false,
                    };
                    after.go_on(ranked)
                },
                _ => ReadStage::Stuck,
            },
            ReadEvent::Page(page) => match self.stage {
                ReadStage::Page { of, .. } => {
                    let there = page.is_some();
                    let entries: Vec<(String, i64)> = match page {
                        Some(entries) => entries,
                        None => Vec::new(),
                    };
                    assert(entries.deep_view() =~= page_or_empty(page.deep_view()));
                    match of {
                        PageOf::Keys => ReadStage::Done(
                            Some(PostKeyStream::from_scored_entries(entries)),
                        ),
                        PageOf::PostsOf(user) => ReadStage::Done(
                            Some(
                                PostKeyStream::from_scored_entries(
                                    to_keyed(user.as_str(), &entries),
                                ),
                            ),
                        ),
                        PageOf::Ranked(fallback) => if there {
                            ReadStage::Done(Some(PostKeyStream::from_scored_entries(entries)))
                        } else {
                            match fallback {
                                Some(query) => to_graph_start(query),
                                None => ReadStage::Done(None),
                            }
                        },
                    }
                },
                _ => ReadStage::Stuck,
            },
            ReadEvent::Users(users) => match self.stage {
                ReadStage::Users { user_id, order, pagination, .. } => {
                    let all: Vec<String> = match users {
                        Some(ids) => ids,
                        None => Vec::new(),
                    };
                    proof {
                        if users is None {
                            assert(all.deep_view() =~= Seq::empty());
                        }
                    }
                    let others = to_others(all, user_id.as_str());
                    assert(others.deep_view().len() == others@.len());
                    if others.len() == 0 {
                        to_nothing()
                    } else {
                        ReadStage::UserPosts { users: others, order, pagination }
                    }
                },
                _ => ReadStage::Stuck,
            },
            ReadEvent::Pages(pages) => match self.stage {
                ReadStage::UserPosts { users, pagination, .. } => {
                    let posts = sort_texts_by_score(to_posts_of_users(&users, &pages));
                    let skip: usize = match pagination.skip {
                        Some(n) => n,
                        None => 0,
                    };
                    let ghost sorted = posts.deep_view();
                    let page = take_window(posts, skip, pagination.limit);
                    assert(page.deep_view() =~= sorted_set::window(
                        sorted,
                        skip as nat,
                        counted(pagination.limit),
                    ));
                    ReadStage::Done(Some(PostKeyStream::from_scored_entries(to_entries(page))))
                },
                _ => ReadStage::Stuck,
            },
            ReadEvent::Rows(rows) => match self.stage {
                ReadStage::Graph(_) => ReadStage::Done(Some(to_row_keys(&rows))),
                _ => ReadStage::Stuck,
            },
            ReadEvent::TagPosts(posts) => match self.stage {
                ReadStage::TagSearch { .. } => match posts {
                    Some(entries) => ReadStage::Done(Some(to_tag_keys(&entries))),
                    None => to_nothing(),
                },
                _ => ReadStage::Stuck,
            },
        };
        PostKeyRead { stage }
    }

    /// The page of a read that is over; none where it is empty or there is none.
    pub fn listed(self) -> (page: Option<PostKeyStream>)
        ensures
            match page {
                Some(keys) => self.stage@ == StageModel::Done(Some(keys@)) && keys@.post_keys.len()
                    > 0,
                None => match self.stage@ {
                    StageModel::Done(Some(keys)) => keys.post_keys.len() == 0,
                    _ => true,
                },
            },
    {
        match self.stage {
            ReadStage::Done(Some(keys)) => if keys.is_empty() {
                None
            } else {
                Some(keys)
            },
            _ => None,
        }
    }
}

/// What reading a page of posts waits for.
#[derive(Debug)]
pub enum PostsStage {
    /// The page of post keys.
    Keys(PostKeyRead),
    /// The posts of that page.
    Views(PostKeyStream),
    /// Nothing: these are the posts; `None` for a page without keys.
    Done(Option<PostStream>),
    /// Nothing: it was told something that it had not asked for.
    Stuck,
}

/// `PostsStage`, over plain sequences.
pub enum PostsModel {
    Keys(StageModel),
    Views(KeysModel),
    Done(Option<Seq<PostView>>),
    Stuck,
}

impl View for PostsStage {
    type V = PostsModel;

    open spec fn view(&self) -> PostsModel {
        match *self {
            PostsStage::Keys(read) => PostsModel::Keys(read.stage@),
            PostsStage::Views(keys) => PostsModel::Views(keys@),
            PostsStage::Done(posts) => PostsModel::Done(
                match posts {
                    Some(stream) => Some(stream.0@),
                    None => None,
                },
            ),
            PostsStage::Stuck => PostsModel::Stuck,
        }
    }
}

/// What reading a page of posts asks.
#[derive(Debug)]
pub enum PostsAction {
    Keys(ReadAction),
    /// Look up each of these posts.
    Views(Vec<PostLookup>),
}

/// What reading a page of posts is told.
#[derive(Debug)]
pub enum PostsEvent {
    Keys(ReadEvent),
    /// The posts, in the order they were asked for; `None` for one that is gone.
    Views(Vec<Option<PostView>>),
}

/// The stage behind one of the reads of the page of keys: the posts of a page
/// that holds keys are looked up, and a page without keys ends the read.
pub open spec fn behind_keys(stage: StageModel) -> PostsModel {
    match stage {
        StageModel::Done(Some(keys)) => if keys.post_keys.len() == 0 {
            PostsModel::Done(None)
        } else {
            PostsModel::Views(keys)
        },
        StageModel::Done(None) => PostsModel::Done(None),
        _ => PostsModel::Keys(stage),
    }
}

/// `PostsAction`, over plain sequences.
pub enum PostsAsk {
    Keys(AskModel),
    Views(Seq<LookupModel>),
}

impl PostsModel {
    /// What is asked in this stage, for a viewer.
    pub open spec fn action(self, viewer: Option<Seq<char>>) -> Option<PostsAsk> {
        match self {
            PostsModel::Keys(stage) => match stage.action() {
                Some(ask) => Some(PostsAsk::Keys(ask)),
                None => None,
            },
            PostsModel::Views(keys) => Some(
                PostsAsk::Views(
                    post_stream::lookups_in(keys.post_keys, viewer, keys.post_keys.len()),
                ),
            ),
            _ => None,
        }
    }

    /// The stage that follows once the read of the page of keys was told `heard`.
    pub open spec fn heard(self, heard: HeardModel) -> PostsModel {
        match self {
            PostsModel::Keys(stage) => behind_keys(stage.next(heard)),
            _ => PostsModel::Stuck,
        }
    }

    /// The stage that follows once the posts of the page were told.
    pub open spec fn shown(self, views: Seq<Option<PostView>>) -> PostsModel {
        match self {
            PostsModel::Views(_) => PostsModel::Done(
                Some(post_stream::found_in(views, views.len())),
            ),
            _ => PostsModel::Stuck,
        }
    }
}

/// A read of a page of posts.
#[derive(Debug)]
pub struct PostsRead {
    pub viewer_id: Option<String>,
    pub stage: PostsStage,
}

fn to_behind_keys(read: PostKeyRead) -> (stage: PostsStage)
    ensures
        stage@ == behind_keys(read.stage@),
{
    match read.stage {
        ReadStage::Done(Some(keys)) => if keys.is_empty() {
            PostsStage::Done(None)
        } else {
            PostsStage::Views(keys)
        },
        ReadStage::Done(None) => PostsStage::Done(None),
        stage => PostsStage::Keys(PostKeyRead { stage }),
    }
}

impl PostsRead {
    /// What to find out next; nothing once the read is over.
    pub fn action(&self) -> (action: Option<PostsAction>)
        ensures
            match action {
                Some(PostsAction::Keys(asked)) => self.stage@.action(self.viewer_id.deep_view())
                    == Some(PostsAsk::Keys(asked@)),
                Some(PostsAction::Views(lookups)) => self.stage@.action(self.viewer_id.deep_view())
                    == Some(PostsAsk::Views(lookups@.map_values(|lookup: PostLookup| lookup@))),
                None => self.stage@.action(self.viewer_id.deep_view()) is None,
            },
    {
        match &self.stage {
            PostsStage::Keys(read) => match read.action() {
                Some(asked) => Some(PostsAction::Keys(asked)),
                None => None,
            },
            PostsStage::Views(keys) => {
                let viewer: Option<&str> = match &self.viewer_id {
                    Some(id) => Some(id.as_str()),
                    None => None,
                };
                Some(PostsAction::Views(PostStream::from_listed_post_ids(viewer, &keys.post_keys)))
            },
            _ => None,
        }
    }

    /// The read once it was told what it asked for.
    pub fn step(self, event: PostsEvent) -> (next: PostsRead)
        ensures
            next.viewer_id == self.viewer_id,
            next.stage@ == (match event {
                PostsEvent::Keys(heard) => self.stage@.heard(heard@),
                PostsEvent::Views(views) => self.stage@.shown(views@),
            }),
    {
        let viewer_id = self.viewer_id;
        let stage = match event {
            PostsEvent::Keys(heard) => match self.stage {
                PostsStage::Keys(read) => to_behind_keys(read.step(heard)),
                _ => PostsStage::Stuck,
            },
            PostsEvent::Views(views) => match self.stage {
                PostsStage::Views(_) => PostsStage::Done(PostStream::from_found(views)),
                _ => PostsStage::Stuck,
            },
        };
        PostsRead { viewer_id, stage }
    }
}

impl PostStream {
    /// A read of a page of posts, as `viewer_id` sees them.
    pub fn get_posts(
        source: StreamSource,
        pagination: Pagination,
        order: SortOrder,
        sorting: StreamSorting,
        viewer_id: Option<String>,
        tags: Option<Vec<String>>,
        kind: Option<KindFilter>,
    ) -> (read: PostsRead)
        ensures
            read.viewer_id == viewer_id,
            read.stage@ == behind_keys(
                read_start(
                    stream_query(
                        source@,
                        pagination,
                        order,
                        sorting,
                        tags.deep_view(),
                        post_stream::kind_model(kind),
                    ),
                ),
            ),
    {
        let keys = PostStream::get_post_keys(source, pagination, order, sorting, tags, kind);
        PostsRead { viewer_id, stage: to_behind_keys(keys) }
    }

    /// A read of a page of post keys.
    pub fn get_post_keys(
        source: StreamSource,
        pagination: Pagination,
        order: SortOrder,
        sorting: StreamSorting,
        tags: Option<Vec<String>>,
        kind: Option<KindFilter>,
    ) -> (read: PostKeyRead)
        ensures
            read.stage@ == read_start(
                stream_query(
                    source@,
                    pagination,
                    order,
                    sorting,
                    tags.deep_view(),
                    post_stream::kind_model(kind),
                ),
            ),
    {
        PostKeyRead {
            stage: to_read_start(
                GraphQuery { source, sorting, order, tags, pagination, kind, ranked_only: false },
            ),
        }
    }

    /// A read of one page of a global stream: of the ranked set while a ranking
    /// exists, of the unfiltered global set otherwise. Both carry the same
    /// scores, so a cursor from one resumes on the other. It ends without a page
    /// when the ranking exists but its ranked set does not.
    pub fn get_global_posts_keys(
        sorting: StreamSorting,
        order: SortOrder,
        start: Option<i64>,
        end: Option<i64>,
        skip: Option<usize>,
        limit: Option<usize>,
    ) -> (read: PostKeyRead)
        ensures
            read.stage@ == global_start(
                sorting,
                order,
                (Pagination { skip, limit, start, end }),
                None,
            ),
    {
        PostKeyRead {
            stage: ReadStage::Ranking(
                AfterRanking::Global {
                    sorting,
                    order,
                    pagination: Pagination { skip, limit, start, end },
                    fallback: None,
                },
            ),
        }
    }

    /// A read of one page of the posts that carry a tag.
    pub fn get_posts_keys_by_tag(
        label: &str,
        sorting: StreamSorting,
        start: Option<i64>,
        end: Option<i64>,
        skip: Option<usize>,
        limit: Option<usize>,
    ) -> (read: PostKeyRead)
        ensures
            read.stage@ == tag_start(label@, sorting, (Pagination { skip, limit, start, end })),
    {
        PostKeyRead { stage: to_tag_start(label, sorting, Pagination { skip, limit, start, end }) }
    }

    /// A read of one page of a user's root posts, or of their replies.
    pub fn get_author_posts(
        user_id: &str,
        order: SortOrder,
        start: Option<i64>,
        end: Option<i64>,
        skip: Option<usize>,
        limit: Option<usize>,
        replies: bool,
    ) -> (read: PostKeyRead)
        ensures
            read.stage@ == author_start(
                user_id@,
                order,
                (Pagination { skip, limit, start, end }),
                replies,
            ),
    {
        PostKeyRead {
            stage: to_author_start(
                user_id,
                order,
                Pagination { skip, limit, start, end },
                replies,
            ),
        }
    }

    /// A read of one page of the posts by the users in a reach. Only the first
    /// users of a reach are drawn from, and never the observer.
    pub fn get_posts_by_source(
        source: StreamSource,
        order: SortOrder,
        start: Option<i64>,
        end: Option<i64>,
        skip: Option<usize>,
        limit: Option<usize>,
    ) -> (read: PostKeyRead)
        ensures
            read.stage@ == source_start(source@, order, (Pagination { skip, limit, start, end })),
            source matches StreamSource::Following { observer_id } ==> (read.stage matches
                ReadStage::Users { list, user_id, .. } && list == FollowList::Following && user_id@
                == observer_id@),
            source matches StreamSource::Followers { observer_id } ==> (read.stage matches
                ReadStage::Users { list, user_id, .. } && list == FollowList::Followers && user_id@
                == observer_id@),
            source matches StreamSource::Friends { observer_id } ==> (read.stage matches
                ReadStage::Users { list, user_id, .. } && list == FollowList::Friends && user_id@
                == observer_id@),
    {
        PostKeyRead {
            stage: to_source_start(&source, order, Pagination { skip, limit, start, end }),
        }
    }

    /// A read of one page of a user's bookmarks.
    pub fn get_bookmarked_posts(
        user_id: &str,
        order: SortOrder,
        start: Option<i64>,
        end: Option<i64>,
        skip: Option<usize>,
        limit: Option<usize>,
    ) -> (read: PostKeyRead)
        ensures
            read.stage@ == bookmarks_start(
                user_id@,
                order,
                (Pagination { skip, limit, start, end }),
            ),
    {
        PostKeyRead {
            stage: ReadStage::Page {
                key: to_bookmarks_key(user_id),
                order,
                pagination: Pagination { skip, limit, start, end },
                of: PageOf::Keys,
            },
        }
    }

    /// A read of one page of the replies to a post.
    pub fn get_post_replies(
        author_id: &str,
        post_id: &str,
        order: SortOrder,
        start: Option<i64>,
        end: Option<i64>,
        skip: Option<usize>,
        limit: Option<usize>,
    ) -> (read: PostKeyRead)
        ensures
            read.stage@ == post_replies_start(
                author_id@,
                post_id@,
                order,
                (Pagination { skip, limit, start, end }),
            ),
    {
        PostKeyRead {
            stage: ReadStage::Page {
                key: to_post_replies_key(author_id, post_id),
                order,
                pagination: Pagination { skip, limit, start, end },
                of: PageOf::Keys,
            },
        }
    }
}

/// What a read asks is taken for what it is.
pub proof fn law_what_a_read_asks_is_taken_for_what_it_is(action: ReadAction, query: GraphQuery)
    ensures
        match action {
            ReadAction::Details { author_id, post_id } => action@ == (AskModel::Details {
                author_id: author_id@,
                post_id: post_id@,
            }),
            ReadAction::CollectionItems { content } => action@ == (AskModel::CollectionItems {
                content: content@,
            }),
            ReadAction::RankingBuilt => action@ == AskModel::RankingBuilt,
            ReadAction::Page(command) => action@ == AskModel::Page(command@),
            ReadAction::Pages(commands) => action@ matches AskModel::Pages(all) && all.len()
                == commands@.len() && forall|i: int|
                0 <= i < all.len() ==> (#[trigger] all[i]) == commands@[i]@,
            ReadAction::Graph(asked) => action@ == AskModel::Graph(asked@),
            ReadAction::TagSearch { label, sorting, pagination } => action@ == (
            AskModel::TagSearch { label: label@, sorting, pagination }),
            ReadAction::Follows { list, user_id, limit } => action@ == (AskModel::Follows {
                list,
                user_id: user_id@,
                limit,
            }),
        },
        query@.source == query.source@,
        query@.sorting == query.sorting,
        query@.order == query.order,
        query@.tags == query.tags.deep_view(),
        query@.pagination == query.pagination,
        query@.kind is Some == query.kind is Some,
        query.kind matches Some(filter) ==> query@.kind == Some(filter@),
        query@.ranked_only == query.ranked_only,
{
}

/// What a read is told is taken for what it is.
pub proof fn law_what_a_read_is_told_is_taken_for_what_it_is(event: ReadEvent)
    ensures
        match event {
            ReadEvent::Details(None) => event@ == HeardModel::Details(None),
            ReadEvent::Details(Some(post)) => event@ == HeardModel::Details(
                Some((post.kind, post.content@)),
            ),
            ReadEvent::CollectionItems(items) => event@ == HeardModel::CollectionItems(
                items.deep_view(),
            ),
            ReadEvent::RankingBuilt(built) => event@ == HeardModel::RankingBuilt(built),
            ReadEvent::Page(page) => event@ == HeardModel::Page(page.deep_view()),
            ReadEvent::Pages(pages) => event@ == HeardModel::Pages(pages.deep_view()),
            ReadEvent::Rows(rows) => event@ == HeardModel::Rows(rows.deep_view()),
            ReadEvent::TagPosts(posts) => event@ == HeardModel::TagPosts(posts.deep_view()),
            ReadEvent::Users(users) => event@ == HeardModel::Users(users.deep_view()),
        },
{
}

} // verus!
