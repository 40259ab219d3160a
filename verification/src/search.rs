//! Searching posts by tag and by content.
use crate::pubky_id;
use crate::pubky_id::parse_pubky_id;
use crate::reach;
use crate::reach::{
    reach_contains, Attribute, AttributeModel, AttributeValue, ReachAuthors, ReachMembership,
};
use crate::text;
use crate::text::count_terms;
use crate::types;
use crate::types::{Pagination, PostKind, StreamReach, StreamSorting};
use vstd::prelude::*;

verus! {

/// A page of a search: a skip of at most `MAX_SKIP`, and a limit of one to
/// `MAX_LIMIT`, which is `DEFAULT_LIMIT` where it is left out.
#[derive(Debug, Clone, Copy)]
pub struct BoundedPagination<
    const MAX_SKIP: usize,
    const DEFAULT_LIMIT: usize,
    const MAX_LIMIT: usize,
> {
    skip: Option<usize>,
    limit: Option<usize>,
}

impl<
    const MAX_SKIP: usize,
    const DEFAULT_LIMIT: usize,
    const MAX_LIMIT: usize,
> BoundedPagination<MAX_SKIP, DEFAULT_LIMIT, MAX_LIMIT> {
    /// How many results are skipped.
    pub closed spec fn skipped(self) -> usize {
        match self.skip {
            Some(n) => n,
            None => 0,
        }
    }

    /// How many results are returned at most.
    pub closed spec fn limited(self) -> usize {
        match self.limit {
            Some(n) => n,
            None => DEFAULT_LIMIT,
        }
    }

    /// The page with that skip and that limit, if both are within bounds.
    pub fn new(skip: Option<usize>, limit: Option<usize>) -> (page: Option<Self>)
        ensures
            match page {
                Some(bounded) => {
                    &&& skip matches Some(n) ==> n <= MAX_SKIP
                    &&& limit matches Some(n) ==> 1 <= n <= MAX_LIMIT
                    &&& bounded.skipped() == (match skip {
                        Some(n) => n,
                        None => 0,
                    })
                    &&& bounded.limited() == (match limit {
                        Some(n) => n,
                        None => DEFAULT_LIMIT,
                    })
                },
                None => {
                    ||| skip matches Some(n) && n > MAX_SKIP
                    ||| limit matches Some(n) && !(1 <= n <= MAX_LIMIT)
                },
            },
    {
        if let Some(n) = skip {
            if n > MAX_SKIP {
                return None;
            }
        }
        if let Some(n) = limit {
            if n < 1 || n > MAX_LIMIT {
                return None;
            }
        }
        Some(BoundedPagination { skip, limit })
    }

    pub fn skip_value(&self) -> (skip: usize)
        ensures
            skip == self.skipped(),
    {
        match self.skip {
            Some(n) => n,
            None => 0,
        }
    }

    pub fn limit_value(&self) -> (limit: usize)
        ensures
            limit == self.limited(),
    {
        match self.limit {
            Some(n) => n,
            None => DEFAULT_LIMIT,
        }
    }

    /// The page with bounds on the score.
    pub fn to_pagination(&self, start: Option<i64>, end: Option<i64>) -> (page: Pagination)
        ensures
            page == (Pagination {
                skip: Some(self.skipped()),
                limit: Some(self.limited()),
                start,
                end,
            }),
    {
        Pagination { skip: Some(self.skip_value()), limit: Some(self.limit_value()), start, end }
    }
}

/// A search for the posts that carry a tag.
#[derive(Debug)]
pub struct SearchPostsQuery {
    pub sorting: Option<StreamSorting>,
    pub user_id: Option<String>,
    pub reach: Option<StreamReach>,
    pub pagination: BoundedPagination<10_000, 20, 200>,
    pub start: Option<i64>,
    pub end: Option<i64>,
}

/// Whether a text can be searched for: two to thirty characters, and at most
/// four words.
pub open spec fn query_fits(text: Seq<char>) -> bool {
    2 <= text.len() <= 30 && text::terms_in(text) <= 4
}

/// A text that can be searched for.
#[derive(Debug)]
pub struct PostSearchQuery {
    text: String,
}

impl View for PostSearchQuery {
    type V = Seq<char>;

    closed spec fn view(&self) -> Seq<char> {
        self.text@
    }
}

impl PostSearchQuery {
    #[verifier::type_invariant]
    spec fn is_bounded(self) -> bool {
        query_fits(self.text@)
    }

    /// The query for a text, if it can be searched for.
    pub fn new(text: String) -> (query: Option<PostSearchQuery>)
        ensures
            match query {
                Some(bounded) => query_fits(text@) && bounded@ == text@,
                None => !query_fits(text@),
            },
    {
        let length: usize = text.as_str().unicode_len();
        if length < 2 || length > 30 || count_terms(text.as_str()) > 4 {
            None
        } else {
            Some(PostSearchQuery { text })
        }
    }

    /// The text that is searched for.
    pub fn into_text(self) -> (text: String)
        ensures
            text@ == self@,
            query_fits(text@),
    {
        proof {
            use_type_invariant(&self);
        }
        self.text
    }
}

/// A full-text search over post content.
#[derive(Debug)]
pub struct SearchPostsByContentQuery {
    pub q: PostSearchQuery,
    pub author: Option<String>,
    pub kind: Option<PostKind>,
    pub user_id: Option<String>,
    pub reach: Option<StreamReach>,
    pub pagination: BoundedPagination<1000, 20, 100>,
}

/// Why a request is no search.
#[derive(Debug, Clone, Copy, PartialEq, Eq, Structural)]
pub enum QueryError {
    /// The text is too short or too long, or has too many words.
    Query,
    Author,
    UserId,
    Reach,
    Sorting,
    /// The skip or the limit is out of bounds.
    Page,
}

/// What an id in a request came to.
#[derive(Debug)]
pub enum GivenId {
    /// There was none.
    Absent,
    /// The text is no id.
    Invalid,
    Valid(String),
}

/// `GivenId`, over plain sequences.
pub enum GivenModel {
    Absent,
    Invalid,
    Valid(Seq<char>),
}

impl View for GivenId {
    type V = GivenModel;

    open spec fn view(&self) -> GivenModel {
        match *self {
            GivenId::Absent => GivenModel::Absent,
            GivenId::Invalid => GivenModel::Invalid,
            GivenId::Valid(id) => GivenModel::Valid(id@),
        }
    }
}

impl GivenModel {
    /// The id, if there is one.
    pub open spec fn id(self) -> Option<Seq<char>> {
        match self {
            GivenModel::Valid(id) => Some(id),
            _ => None,
        }
    }
}

/// What an id in a request comes to.
pub open spec fn given(text: Option<Seq<char>>) -> GivenModel {
    match text {
        None => GivenModel::Absent,
        Some(spelled) => match pubky_id::pubky_id(spelled) {
            Some(id) => GivenModel::Valid(id),
            None => GivenModel::Invalid,
        },
    }
}

impl GivenId {
    /// Reads an id in a request.
    pub fn read(text: Option<String>) -> (id: GivenId)
        ensures
            id@ == given(shown(text)),
    {
        match text {
            None => GivenId::Absent,
            Some(spelled) => match parse_pubky_id(spelled.as_str()) {
                Some(id) => GivenId::Valid(id),
                None => GivenId::Invalid,
            },
        }
    }
}

/// Whether a skip and a limit are in the bounds of a page.
pub open spec fn page_fits(
    skip: Option<usize>,
    limit: Option<usize>,
    max_skip: usize,
    max_limit: usize,
) -> bool {
    (skip matches Some(n) ==> n <= max_skip) && (limit matches Some(n) ==> 1 <= n <= max_limit)
}

/// Whether a name, if one is given, names a reach.
pub open spec fn reach_fits(name: Option<Seq<char>>) -> bool {
    name matches Some(spelled) ==> types::reach_named(spelled) is Some
}

/// The reach that a name stands for, if one is given.
pub open spec fn reach_given(name: Option<Seq<char>>) -> Option<StreamReach> {
    match name {
        Some(spelled) => types::reach_named(spelled),
        None => None,
    }
}

/// Reads a reach in a request, which may be left out.
fn read_reach(name: Option<String>) -> (reach: Result<Option<StreamReach>, QueryError>)
    ensures
        match reach {
            Ok(read) => reach_fits(shown(name)) && read == reach_given(shown(name)),
            Err(error) => error == QueryError::Reach && !reach_fits(shown(name)),
        },
{
    match name {
        None => Ok(None),
        Some(spelled) => match StreamReach::parse(spelled.as_str()) {
            Some(reach) => Ok(Some(reach)),
            None => Err(QueryError::Reach),
        },
    }
}

/// Whether a name, if one is given, names a sorting.
pub open spec fn sorting_fits(name: Option<Seq<char>>) -> bool {
    name matches Some(spelled) ==> exists|sorting: StreamSorting|
        spelled == #[trigger] sorting.spelled()
}

impl SearchPostsQuery {
    /// The tag search that a request asks for, given what its user id came to.
    pub fn from_parts(
        sorting: Option<String>,
        user_id: GivenId,
        reach: Option<String>,
        page: (Option<usize>, Option<usize>),
        start: Option<i64>,
        end: Option<i64>,
    ) -> (query: Result<SearchPostsQuery, QueryError>)
        ensures
            match query {
                Ok(read) => {
                    &&& sorting_fits(shown(sorting))
                    &&& user_id@ !is Invalid
                    &&& reach_fits(shown(reach))
                    &&& page_fits(page.0, page.1, 10_000, 200)
                    &&& match (read.sorting, sorting) {
                        (Some(found), Some(name)) => name@ == found.spelled(),
                        (None, None) => true,
                        _ => false,
                    }
                    &&& shown(read.user_id) == user_id@.id()
                    &&& read.reach == reach_given(shown(reach))
                    &&& read.pagination.skipped() == (match page.0 {
                        Some(n) => n,
                        None => 0,
                    })
                    &&& read.pagination.limited() == (match page.1 {
                        Some(n) => n,
                        None => 20,
                    })
                    &&& read.start == start
                    &&& read.end == end
                },
                Err(error) => error == (if !sorting_fits(shown(sorting)) {
                    QueryError::Sorting
                } else if user_id@ is Invalid {
                    QueryError::UserId
                } else if !reach_fits(shown(reach)) {
                    QueryError::Reach
                } else {
                    QueryError::Page
                }) && (error == QueryError::Page ==> !page_fits(page.0, page.1, 10_000, 200)),
            },
    {
        let sorting: Option<StreamSorting> = match sorting {
            None => None,
            Some(name) => match StreamSorting::parse(name.as_str()) {
                Some(found) => {
                    assert(name@ == found.spelled());
                    Some(found)
                },
                None => {
                    return Err(QueryError::Sorting);
                },
            },
        };
        let user_id: Option<String> = match user_id {
            GivenId::Absent => None,
            GivenId::Valid(id) => Some(id),
            GivenId::Invalid => {
                return Err(QueryError::UserId);
            },
        };
        let reach: Option<StreamReach> = match read_reach(reach) {
            Ok(read) => read,
            Err(error) => {
                return Err(error);
            },
        };
        match BoundedPagination::new(page.0, page.1) {
            Some(pagination) => Ok(
                SearchPostsQuery { sorting, user_id, reach, pagination, start, end },
            ),
            None => Err(QueryError::Page),
        }
    }
}

impl SearchPostsByContentQuery {
    /// The content search that a request asks for, given what its ids came to.
    /// A kind that is not known is searched for as such.
    pub fn from_parts(
        q: String,
        author: GivenId,
        kind: Option<String>,
        user_id: GivenId,
        reach: Option<String>,
        page: (Option<usize>, Option<usize>),
    ) -> (query: Result<SearchPostsByContentQuery, QueryError>)
        ensures
            match query {
                Ok(read) => {
                    &&& query_fits(q@)
                    &&& author@ !is Invalid
                    &&& user_id@ !is Invalid
                    &&& reach_fits(shown(reach))
                    &&& page_fits(page.0, page.1, 1000, 100)
                    &&& read.q@ == q@
                    &&& shown(read.author) == author@.id()
                    &&& read.kind == (match kind {
                        Some(name) => Some(types::kind_named(name@)),
                        None => None,
                    })
                    &&& shown(read.user_id) == user_id@.id()
                    &&& read.reach == reach_given(shown(reach))
                    &&& read.pagination.skipped() == (match page.0 {
                        Some(n) => n,
                        None => 0,
                    })
                    &&& read.pagination.limited() == (match page.1 {
                        Some(n) => n,
                        None => 20,
                    })
                },
                Err(error) => error == (if !query_fits(q@) {
                    QueryError::Query
                } else if author@ is Invalid {
                    QueryError::Author
                } else if user_id@ is Invalid {
                    QueryError::UserId
                } else if !reach_fits(shown(reach)) {
                    QueryError::Reach
                } else {
                    QueryError::Page
                }) && (error == QueryError::Page ==> !page_fits(page.0, page.1, 1000, 100)),
            },
    {
        let q: PostSearchQuery = match PostSearchQuery::new(q) {
            Some(bounded) => bounded,
            None => {
                return Err(QueryError::Query);
            },
        };
        let author: Option<String> = match author {
            GivenId::Absent => None,
            GivenId::Valid(id) => Some(id),
            GivenId::Invalid => {
                return Err(QueryError::Author);
            },
        };
        let kind: Option<PostKind> = match kind {
            None => None,
            Some(name) => Some(PostKind::parse(name.as_str())),
        };
        let user_id: Option<String> = match user_id {
            GivenId::Absent => None,
            GivenId::Valid(id) => Some(id),
            GivenId::Invalid => {
                return Err(QueryError::UserId);
            },
        };
        let reach: Option<StreamReach> = match read_reach(reach) {
            Ok(read) => read,
            Err(error) => {
                return Err(error);
            },
        };
        match BoundedPagination::new(page.0, page.1) {
            Some(pagination) => Ok(
                SearchPostsByContentQuery { q, author, kind, user_id, reach, pagination },
            ),
            None => Err(QueryError::Page),
        }
    }
}

/// Why a search is refused.
#[derive(Debug, Clone, Copy, PartialEq, Eq, Structural)]
pub enum SearchError {
    /// A user to base a reach on without a reach, or a reach without a user.
    ReachIncomplete,
}

impl SearchError {
    /// What a refused search is told.
    pub fn message(&self) -> (message: &'static str)
        ensures
            message@ == "user_id and reach should be both provided together"@,
    {
        "user_id and reach should be both provided together"
    }
}

/// How posts by tag are looked up.
#[derive(Debug)]
pub enum TagSearch {
    /// The tag's posts by users in a reach.
    WithReach {
        tag: String,
        sorting: Option<StreamSorting>,
        user_id: String,
        reach: StreamReach,
        pagination: Pagination,
    },
    /// All of the tag's posts.
    Plain { tag: String, sorting: Option<StreamSorting>, pagination: Pagination },
}

/// The search for the posts of a tag, for a user and a reach or for neither.
pub open spec fn tag_search(
    tag: String,
    sorting: Option<StreamSorting>,
    user_id: Option<String>,
    reach: Option<StreamReach>,
    pagination: Pagination,
) -> Result<TagSearch, SearchError> {
    match (user_id, reach) {
        (Some(user), Some(around)) => Ok(
            TagSearch::WithReach { tag, sorting, user_id: user, reach: around, pagination },
        ),
        (None, None) => Ok(TagSearch::Plain { tag, sorting, pagination }),
        _ => Err(SearchError::ReachIncomplete),
    }
}

/// A tag search looks for the tag, the sorting and the page that were asked for,
/// around the user and within the reach that were asked for. It is refused
/// exactly if one of these two is given without the other.
pub proof fn law_a_tag_search_looks_for_what_was_asked(
    tag: String,
    sorting: Option<StreamSorting>,
    user_id: Option<String>,
    reach: Option<StreamReach>,
    pagination: Pagination,
)
    ensures
        ({
            let search = tag_search(tag, sorting, user_id, reach, pagination);
            &&& search is Err <==> (user_id is Some) != (reach is Some)
            &&& search matches Ok(TagSearch::Plain { tag: t, sorting: s, pagination: p })
                ==> user_id is None && t == tag && s == sorting && p == pagination
            &&& search matches Ok(
                TagSearch::WithReach { tag: t, sorting: s, user_id: u, reach: r, pagination: p },
            ) ==> user_id == Some(u) && reach == Some(r) && t == tag && s == sorting && p
                == pagination
        }),
{
}

/// How the posts of a tag are looked up. A user and a reach come together or
/// not at all.
pub fn search_posts_by_tag_handler(tag: String, query: SearchPostsQuery) -> (search: Result<
    TagSearch,
    SearchError,
>)
    ensures
        ({
            let page = Pagination {
                skip: Some(query.pagination.skipped()),
                limit: Some(query.pagination.limited()),
                start: query.start,
                end: query.end,
            };
            search == tag_search(tag, query.sorting, query.user_id, query.reach, page)
        }),
{
    let pagination = query.pagination.to_pagination(query.start, query.end);
    match (query.user_id, query.reach) {
        (Some(user_id), Some(reach)) => Ok(
            TagSearch::WithReach { tag, sorting: query.sorting, user_id, reach, pagination },
        ),
        (None, None) => Ok(TagSearch::Plain { tag, sorting: query.sorting, pagination }),
        _ => Err(SearchError::ReachIncomplete),
    }
}

/// What a tag search answers: a tag that is not there has no posts.
pub fn found_posts<T>(posts: Option<Vec<T>>) -> (answer: Vec<T>)
    ensures
        answer@ == (match posts {
            Some(list) => list@,
            None => Seq::empty(),
        }),
{
    match posts {
        Some(list) => list,
        None => Vec::new(),
    }
}

/// Whose posts a content search is scoped to.
#[derive(Debug)]
pub enum AuthorFilter {
    One(String),
    AnyOf(Vec<String>),
}

/// `AuthorFilter`, over plain sequences.
pub enum FilterModel {
    One(Seq<char>),
    AnyOf(Seq<Seq<char>>),
}

impl View for AuthorFilter {
    type V = FilterModel;

    open spec fn view(&self) -> FilterModel {
        match *self {
            AuthorFilter::One(author) => FilterModel::One(author@),
            AuthorFilter::AnyOf(authors) => FilterModel::AnyOf(authors.deep_view()),
        }
    }
}

/// A full-text search, as it is sent to the index.
#[derive(Debug)]
pub struct ContentSearch {
    pub q: String,
    pub author: Option<AuthorFilter>,
    pub kind: Option<&'static str>,
    pub skip: usize,
    pub limit: usize,
}

/// What a content search waits for.
#[derive(Debug)]
pub enum ContentStage {
    /// Whether the author is in the user's reach.
    Membership { author: String, user_id: String, reach: StreamReach },
    /// The authors in the user's reach, at most `limit` of them.
    Authors { user_id: String, reach: StreamReach, limit: usize },
    /// The search itself, scoped as far as it is.
    Search { scope: Option<AuthorFilter> },
    /// Nothing: there are no results.
    Empty,
    /// Nothing: it was told something that it had not asked for.
    Stuck,
}

/// `ContentStage`, over plain sequences.
pub enum ContentModel {
    Membership { author: Seq<char>, user_id: Seq<char>, reach: StreamReach },
    Authors { user_id: Seq<char>, reach: StreamReach, limit: usize },
    Search { scope: Option<FilterModel> },
    Empty,
    Stuck,
}

impl View for ContentStage {
    type V = ContentModel;

    open spec fn view(&self) -> ContentModel {
        match *self {
            ContentStage::Membership { author, user_id, reach } => ContentModel::Membership {
                author: author@,
                user_id: user_id@,
                reach,
            },
            ContentStage::Authors { user_id, reach, limit } => ContentModel::Authors {
                user_id: user_id@,
                reach,
                limit,
            },
            ContentStage::Search { scope } => ContentModel::Search {
                scope: match scope {
                    Some(filter) => Some(filter@),
                    None => None,
                },
            },
            ContentStage::Empty => ContentModel::Empty,
            ContentStage::Stuck => ContentModel::Stuck,
        }
    }
}

/// What a content search is told.
#[derive(Debug)]
pub enum ContentEvent {
    /// Whether the author is in reach.
    Reached(bool),
    /// The authors in reach.
    Authors(ReachAuthors),
}

impl ContentModel {
    /// The stage that follows once a search was told what it waits for.
    pub open spec fn next(self, event: ContentEvent) -> ContentModel {
        match (self, event) {
            (ContentModel::Membership { author, .. }, ContentEvent::Reached(yes)) => if yes {
                ContentModel::Search { scope: Some(FilterModel::One(author)) }
            } else {
                ContentModel::Empty
            },
            (ContentModel::Authors { .. }, ContentEvent::Authors(found)) => ContentModel::Search {
                scope: Some(FilterModel::AnyOf(found.author_ids.deep_view())),
            },
            _ => ContentModel::Stuck,
        }
    }
}

/// A content search in progress.
#[derive(Debug)]
pub struct PostContentSearch {
    pub q: String,
    pub kind: Option<&'static str>,
    pub skip: usize,
    pub limit: usize,
    pub stage: ContentStage,
}

/// Where a content search begins: with a user and a reach, an author has to be
/// in reach, and without an author the reach is resolved, to at most `limit`
/// authors. The observer is in nobody's reach that is their own.
pub open spec fn content_start(
    author: Option<Seq<char>>,
    user_id: Option<Seq<char>>,
    reach: Option<StreamReach>,
    limit: usize,
) -> ContentModel {
    match (user_id, reach) {
        (Some(user), Some(around)) => match author {
            Some(id) => if id == user {
                ContentModel::Empty
            } else {
                ContentModel::Membership { author: id, user_id: user, reach: around }
            },
            None => ContentModel::Authors { user_id: user, reach: around, limit },
        },
        _ => ContentModel::Search {
            scope: match author {
                Some(id) => Some(FilterModel::One(id)),
                None => None,
            },
        },
    }
}

/// A text that may be left out, as characters.
pub open spec fn shown(text: Option<String>) -> Option<Seq<char>> {
    match text {
        Some(s) => Some(s@),
        None => None,
    }
}

/// Starts a full-text search over post content. A user and a reach come
/// together or not at all. Combined with an author, the results are that
/// author's posts if the author is in reach, and empty otherwise. Without one
/// they are the posts of at most `max_reach_authors` authors in reach.
pub fn search_posts_by_content_handler(
    query: SearchPostsByContentQuery,
    max_reach_authors: usize,
) -> (search: Result<PostContentSearch, SearchError>)
    ensures
        match search {
            Err(error) => error == SearchError::ReachIncomplete && (query.user_id is Some)
                != (query.reach is Some),
            Ok(begun) => {
                &&& (query.user_id is Some) == (query.reach is Some)
                &&& begun.q@ == query.q@
                &&& query_fits(begun.q@)
                &&& match (begun.kind, query.kind) {
                    (Some(name), Some(kind)) => name@ == kind.spelled(),
                    (None, None) => true,
                    _ => false,
                }
                &&& begun.skip == query.pagination.skipped()
                &&& begun.limit == query.pagination.limited()
                &&& begun.stage@ == content_start(
                    shown(query.author),
                    shown(query.user_id),
                    query.reach,
                    max_reach_authors,
                )
                &&& begun.stage matches ContentStage::Membership { author, user_id, reach }
                    ==> shown(query.author) == Some(author@) && shown(query.user_id) == Some(
                    user_id@,
                ) && query.reach == Some(reach)
                &&& begun.stage matches ContentStage::Authors { user_id, reach, .. } ==> shown(
                    query.user_id,
                ) == Some(user_id@) && query.reach == Some(reach)
                &&& begun.stage matches ContentStage::Search { scope: Some(filter) } ==> (
                filter matches AuthorFilter::One(author) && shown(query.author) == Some(author@))
                &&& begun.stage matches ContentStage::Search { scope: None } ==> query.author is None
            },
        },
{
    let skip: usize = query.pagination.skip_value();
    let limit: usize = query.pagination.limit_value();
    let kind: Option<&'static str> = match &query.kind {
        Some(kind) => Some(kind.name()),
        None => None,
    };
    let stage = match (query.user_id, query.reach) {
        (Some(user_id), Some(reach)) => match query.author {
            Some(author) => match reach_contains(user_id.as_str(), &reach, author.as_str()) {
                ReachMembership::Known(_) => ContentStage::Empty,
                ReachMembership::Ask { .. } => ContentStage::Membership { author, user_id, reach },
            },
            None => ContentStage::Authors { user_id, reach, limit: max_reach_authors },
        },
        (None, None) => ContentStage::Search {
            scope: match query.author {
                Some(author) => Some(AuthorFilter::One(author)),
                None => None,
            },
        },
        _ => {
            return Err(SearchError::ReachIncomplete);
        },
    };
    Ok(PostContentSearch { q: query.q.into_text(), kind, skip, limit, stage })
}

impl PostContentSearch {
    /// The search once it was told what it waits for.
    pub fn step(self, event: ContentEvent) -> (next: PostContentSearch)
        ensures
            next.q == self.q,
            next.kind == self.kind,
            next.skip == self.skip,
            next.limit == self.limit,
            next.stage@ == self.stage@.next(event),
    {
        let stage = match (self.stage, event) {
            (ContentStage::Membership { author, .. }, ContentEvent::Reached(yes)) => if yes {
                ContentStage::Search { scope: Some(AuthorFilter::One(author)) }
            } else {
                ContentStage::Empty
            },
            (ContentStage::Authors { .. }, ContentEvent::Authors(found)) => ContentStage::Search {
                scope: Some(AuthorFilter::AnyOf(found.author_ids)),
            },
            _ => ContentStage::Stuck,
        };
        PostContentSearch {
            q: self.q,
            kind: self.kind,
            skip: self.skip,
            limit: self.limit,
            stage,
        }
    }

    /// The query that the index is sent, once the search is scoped.
    pub fn into_search(self) -> (search: Option<ContentSearch>)
        ensures
            match search {
                Some(sent) => {
                    &&& self.stage matches ContentStage::Search { scope } && sent.author == scope
                    &&& sent.q == self.q
                    &&& sent.kind == self.kind
                    &&& sent.skip == self.skip
                    &&& sent.limit == self.limit
                },
                None => !(self.stage is Search),
            },
    {
        match self.stage {
            ContentStage::Search { scope } => Some(
                ContentSearch {
                    q: self.q,
                    author: scope,
                    kind: self.kind,
                    skip: self.skip,
                    limit: self.limit,
                },
            ),
            _ => None,
        }
    }
}

/// The attributes of a content search's reach: the reach's name, whether the
/// limit was met, and the depth for a Web of Trust.
pub open spec fn content_attributes(reach: StreamReach, met_limit: bool) -> Seq<
    (Seq<char>, AttributeModel),
> {
    let (name, depth) = reach.dimensions();
    let named = seq![
        ("reach"@, AttributeModel::Text(name)),
        ("met_limit"@, AttributeModel::Flag(met_limit)),
    ];
    match depth {
        Some(n) => named.push(("depth"@, AttributeModel::Number(n as i64))),
        None => named,
    }
}

/// One reach that a content search resolved, as it is measured.
#[derive(Debug, PartialEq)]
pub struct ContentReachRecord {
    pub attributes: Vec<Attribute>,
    pub users: u64,
}

/// The record of a reach that a content search resolved. `met_limit` splits off
/// the searches that only saw part of the reach.
pub fn record_reach_resolution(reach: &StreamReach, users: usize, met_limit: bool) -> (record:
    ContentReachRecord)
    ensures
        reach::attributes_model(record.attributes@) == content_attributes(*reach, met_limit),
        record.users == users,
{
    let (name, depth) = reach.telemetry_dimensions();
    let mut attributes: Vec<Attribute> = Vec::new();
    attributes.push(
        Attribute { name: "reach", value: AttributeValue::Text(name.to_owned()) },
    );
    attributes.push(Attribute { name: "met_limit", value: AttributeValue::Flag(met_limit) });
    if let Some(n) = depth {
        attributes.push(Attribute { name: "depth", value: AttributeValue::Number(n as i64) });
    }
    assert(reach::attributes_model(attributes@) =~= content_attributes(*reach, met_limit));
    ContentReachRecord { attributes, users: users as u64 }
}

/// A search scoped to an observer's reach never asks for the observer's own posts.
pub proof fn law_no_search_for_the_observers_own_posts(
    user: Seq<char>,
    reach: StreamReach,
    limit: usize,
)
    ensures
        content_start(Some(user), Some(user), Some(reach), limit) == ContentModel::Empty,
{
}

/// The searches over posts, as the API documents them.
#[derive(Debug, Clone, Copy)]
pub struct SearchPostsApiDocs;

/// A search with an author, a user and a reach asks whether that author is in
/// that reach of that user, and about no one else. Whatever the answer to that
/// question is, the search is for the author's posts if it is yes, and has no
/// results otherwise.
pub proof fn law_a_search_for_an_author_goes_by_the_users_reach(
    author: Seq<char>,
    user: Seq<char>,
    reach: StreamReach,
    limit: usize,
    reached: Map<(Seq<char>, Seq<char>, StreamReach), bool>,
)
    requires
        author != user,
    ensures
        ({
            let begun = content_start(Some(author), Some(user), Some(reach), limit);
            &&& begun matches ContentModel::Membership { author: who, user_id: whose, reach: around }
            &&& who == author
            &&& whose == user
            &&& around == reach
            &&& reached[(user, author, reach)] ==> begun.next(
                ContentEvent::Reached(reached[(whose, who, around)]),
            ) == (ContentModel::Search { scope: Some(FilterModel::One(author)) })
            &&& !reached[(user, author, reach)] ==> begun.next(
                ContentEvent::Reached(reached[(whose, who, around)]),
            ) == ContentModel::Empty
        }),
{
}

/// A search with a user and a reach, and without an author, asks for the authors
/// in that reach of that user, at most as many as the limit, and is scoped to
/// exactly those that it is told.
pub proof fn law_a_search_of_a_reach_is_scoped_to_its_authors(
    user: Seq<char>,
    reach: StreamReach,
    limit: usize,
    told: ReachAuthors,
)
    ensures
        ({
            let begun = content_start(None, Some(user), Some(reach), limit);
            &&& begun matches ContentModel::Authors { user_id: whose, reach: around, limit: most }
            &&& whose == user
            &&& around == reach
            &&& most == limit
            &&& begun.next(ContentEvent::Authors(told)) matches ContentModel::Search {
                scope: Some(FilterModel::AnyOf(authors)),
            }
            &&& authors.len() == told.author_ids@.len()
            &&& forall|i: int|
                0 <= i < authors.len() ==> (#[trigger] authors[i]) == told.author_ids@[i]@
        }),
{
}

/// A search without a user and a reach waits for nothing: it is for the posts of
/// the author, if one is named, and for everybody's otherwise.
pub proof fn law_a_search_without_a_reach_waits_for_nothing(
    author: Option<Seq<char>>,
    limit: usize,
)
    ensures
        content_start(author, None, None, limit) matches ContentModel::Search { scope } && match (
            scope,
            author,
        ) {
            (Some(FilterModel::One(whose)), Some(named)) => whose == named,
            (None, None) => true,
            _ => false,
        },
{
}

/// A search that is told something else than it waits for ends without results.
pub proof fn law_a_search_waits_for_its_own_answer(stage: ContentModel, event: ContentEvent)
    ensures
        stage is Search || stage is Empty || stage is Stuck ==> stage.next(event) is Stuck,
        stage is Membership && event is Authors ==> stage.next(event) is Stuck,
        stage is Authors && event is Reached ==> stage.next(event) is Stuck,
{
}

/// Whether a measurement has an attribute of that name and value.
pub open spec fn attribute(
    attributes: Seq<(Seq<char>, AttributeModel)>,
    name: Seq<char>,
    value: AttributeModel,
) -> bool {
    exists|i: int| 0 <= i < attributes.len() && (#[trigger] attributes[i]) == (name, value)
}

/// A measured reach tells its name and whether the limit was met, and its depth
/// exactly if it is a Web of Trust.
pub proof fn law_a_measured_reach_tells_its_name_and_depth(reach: StreamReach, met_limit: bool)
    ensures
        ({
            let told = content_attributes(reach, met_limit);
            &&& attribute(told, "reach"@, AttributeModel::Text(reach.dimensions().0))
            &&& attribute(told, "met_limit"@, AttributeModel::Flag(met_limit))
            &&& match reach {
                StreamReach::Wot(depth) => told.len() == 3 && attribute(
                    told,
                    "depth"@,
                    AttributeModel::Number(depth.value() as i64),
                ),
                _ => told.len() == 2,
            }
        }),
{
    let told = content_attributes(reach, met_limit);
    assert(told[0] == ("reach"@, AttributeModel::Text(reach.dimensions().0)));
    assert(told[1] == ("met_limit"@, AttributeModel::Flag(met_limit)));
    match reach {
        StreamReach::Wot(depth) => {
            assert(told[2] == ("depth"@, AttributeModel::Number(depth.value() as i64)));
        },
        _ => {},
    }
}

/// What a content search waits for is taken for what it is.
pub proof fn law_what_a_search_waits_for_is_taken_for_what_it_is(
    stage: ContentStage,
    filter: AuthorFilter,
)
    ensures
        match stage {
            ContentStage::Membership { author, user_id, reach } => stage@ == (
            ContentModel::Membership { author: author@, user_id: user_id@, reach }),
            ContentStage::Authors { user_id, reach, limit } => stage@ == (ContentModel::Authors {
                user_id: user_id@,
                reach,
                limit,
            }),
            ContentStage::Search { scope: None } => stage@ == (ContentModel::Search { scope: None }),
            ContentStage::Search { scope: Some(scope) } => stage@ == (ContentModel::Search {
                scope: Some(scope@),
            }),
            ContentStage::Empty => stage@ == ContentModel::Empty,
            ContentStage::Stuck => stage@ == ContentModel::Stuck,
        },
        match filter {
            AuthorFilter::One(author) => filter@ == FilterModel::One(author@),
            AuthorFilter::AnyOf(authors) => filter@ == FilterModel::AnyOf(authors.deep_view()),
        },
{
}

/// A text that spells no id is refused as one, and one that does stands for its
/// canonical spelling; nothing is made of a text that was left out.
pub proof fn law_a_text_that_spells_no_id_is_refused(text: Option<Seq<char>>)
    ensures
        text is None <==> given(text) is Absent,
        text matches Some(spelled) ==> (given(text) is Invalid <==> pubky_id::pubky_id(
            spelled,
        ) is None),
        text matches Some(spelled) ==> given(text).id() == pubky_id::pubky_id(spelled),
{
}

/// A query of fewer than two or more than thirty characters is refused, and so is
/// one of more than four words; blanks around the words do not count as words. A
/// page is refused for a skip or a limit beyond its bound, or a limit of nothing.
pub proof fn law_a_search_is_refused_beyond_its_bounds(
    text: Seq<char>,
    blank: char,
    skip: usize,
    limit: usize,
    max_skip: usize,
    max_limit: usize,
)
    requires
        text::white_space(blank),
    ensures
        text.len() < 2 || text.len() > 30 ==> !query_fits(text),
        text::terms_in(text) > 4 ==> !query_fits(text),
        2 <= text.len() <= 30 && text::terms_in(text) <= 4 ==> query_fits(text),
        query_fits(text) && text.len() < 30 ==> query_fits(text + seq![blank]),
        page_fits(None, None, max_skip, max_limit),
        page_fits(Some(skip), None, max_skip, max_limit) <==> skip <= max_skip,
        page_fits(None, Some(limit), max_skip, max_limit) <==> 1 <= limit <= max_limit,
        page_fits(Some(skip), Some(limit), max_skip, max_limit) <==> skip <= max_skip && 1 <= limit
            <= max_limit,
{
    text::law_words_are_parted_by_white_space(text, blank, Seq::empty());
    assert(text + seq![blank] + Seq::<char>::empty() =~= text + seq![blank]);
}

} // verus!
