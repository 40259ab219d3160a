//! Streams of posts: where a page of post keys comes from, and what it holds.
use crate::order;
use crate::ranked_sync::{MirroredKeys, MirroredSets, RankedSync, RankedSyncKeys, SyncKeys};
use crate::text;
use crate::text::{copy_texts, split_once};
use crate::types::{DomainTrust, PostKind, StreamSorting, WotDepth};
use vstd::prelude::*;

verus! {

/// What a stream of posts is drawn from.
#[derive(Debug, PartialEq)]
pub enum StreamSource {
    /// Replies to a post.
    PostReplies { post_id: String, author_id: String },
    Following { observer_id: String },
    Followers { observer_id: String },
    Friends { observer_id: String },
    Bookmarks { observer_id: String },
    Author { author_id: String },
    AuthorReplies { author_id: String },
    Collection { author_id: String, post_id: String },
    /// Collection posts that contain the post `author_id:post_id` as an item.
    PostCollections { author_id: String, post_id: String },
    /// Posts authored by users in the observer's Web of Trust.
    Wot { observer_id: String, depth: WotDepth },
    /// Posts by users whom the observer's Web of Trust has tagged with a `domain_tags` label.
    WotDomain { observer_id: String, trust: DomainTrust, domain_tags: Vec<String> },
    All,
}

/// `StreamSource`, over plain sequences.
pub enum SourceModel {
    PostReplies { post_id: Seq<char>, author_id: Seq<char> },
    Following { observer_id: Seq<char> },
    Followers { observer_id: Seq<char> },
    Friends { observer_id: Seq<char> },
    Bookmarks { observer_id: Seq<char> },
    Author { author_id: Seq<char> },
    AuthorReplies { author_id: Seq<char> },
    Collection { author_id: Seq<char>, post_id: Seq<char> },
    PostCollections { author_id: Seq<char>, post_id: Seq<char> },
    Wot { observer_id: Seq<char>, depth: WotDepth },
    WotDomain { observer_id: Seq<char>, trust: DomainTrust, domain_tags: Seq<Seq<char>> },
    All,
}

impl View for StreamSource {
    type V = SourceModel;

    open spec fn view(&self) -> SourceModel {
        match *self {
            StreamSource::PostReplies { post_id, author_id } => SourceModel::PostReplies {
                post_id: post_id@,
                author_id: author_id@,
            },
            StreamSource::Following { observer_id } => SourceModel::Following {
                observer_id: observer_id@,
            },
            StreamSource::Followers { observer_id } => SourceModel::Followers {
                observer_id: observer_id@,
            },
            StreamSource::Friends { observer_id } => SourceModel::Friends {
                observer_id: observer_id@,
            },
            StreamSource::Bookmarks { observer_id } => SourceModel::Bookmarks {
                observer_id: observer_id@,
            },
            StreamSource::Author { author_id } => SourceModel::Author { author_id: author_id@ },
            StreamSource::AuthorReplies { author_id } => SourceModel::AuthorReplies {
                author_id: author_id@,
            },
            StreamSource::Collection { author_id, post_id } => SourceModel::Collection {
                author_id: author_id@,
                post_id: post_id@,
            },
            StreamSource::PostCollections { author_id, post_id } => SourceModel::PostCollections {
                author_id: author_id@,
                post_id: post_id@,
            },
            StreamSource::Wot { observer_id, depth } => SourceModel::Wot {
                observer_id: observer_id@,
                depth,
            },
            StreamSource::WotDomain { observer_id, trust, domain_tags } => SourceModel::WotDomain {
                observer_id: observer_id@,
                trust,
                domain_tags: domain_tags.deep_view(),
            },
            StreamSource::All => SourceModel::All,
        }
    }
}

impl SourceModel {
    /// Name and Web of Trust depth of the source in telemetry.
    pub open spec fn dimensions(self) -> (Seq<char>, Option<u8>) {
        match self {
            SourceModel::PostReplies { .. } => ("post_replies"@, None),
            SourceModel::Following { .. } => ("following"@, None),
            SourceModel::Followers { .. } => ("followers"@, None),
            SourceModel::Friends { .. } => ("friends"@, None),
            SourceModel::Bookmarks { .. } => ("bookmarks"@, None),
            SourceModel::Author { .. } => ("author"@, None),
            SourceModel::AuthorReplies { .. } => ("author_replies"@, None),
            SourceModel::Collection { .. } => ("collection"@, None),
            SourceModel::PostCollections { .. } => ("post_collections"@, None),
            SourceModel::Wot { depth, .. } => ("wot"@, Some(depth.value())),
            SourceModel::WotDomain { trust, .. } => ("wot_domain"@, Some(trust.value())),
            SourceModel::All => ("all"@, None),
        }
    }

    pub open spec fn observer(self) -> Option<Seq<char>> {
        match self {
            SourceModel::Followers { observer_id } => Some(observer_id),
            SourceModel::Following { observer_id } => Some(observer_id),
            SourceModel::Friends { observer_id } => Some(observer_id),
            SourceModel::Bookmarks { observer_id } => Some(observer_id),
            SourceModel::Wot { observer_id, .. } => Some(observer_id),
            SourceModel::WotDomain { observer_id, .. } => Some(observer_id),
            _ => None,
        }
    }

    pub open spec fn author(self) -> Option<Seq<char>> {
        match self {
            SourceModel::PostReplies { author_id, .. } => Some(author_id),
            SourceModel::Author { author_id } => Some(author_id),
            SourceModel::AuthorReplies { author_id } => Some(author_id),
            _ => None,
        }
    }
}

impl Default for StreamSource {
    fn default() -> (source: StreamSource)
        ensures
            source == StreamSource::All,
    {
        StreamSource::All
    }
}

impl StreamSource {
    /// Low-cardinality source value and optional Web of Trust depth for telemetry.
    pub fn telemetry_dimensions(&self) -> (dimensions: (&'static str, Option<u8>))
        ensures
            (dimensions.0@, dimensions.1) == self@.dimensions(),
    {
        match self {
            StreamSource::PostReplies { .. } => ("post_replies", None),
            StreamSource::Following { .. } => ("following", None),
            StreamSource::Followers { .. } => ("followers", None),
            StreamSource::Friends { .. } => ("friends", None),
            StreamSource::Bookmarks { .. } => ("bookmarks", None),
            StreamSource::Author { .. } => ("author", None),
            StreamSource::AuthorReplies { .. } => ("author_replies", None),
            StreamSource::Collection { .. } => ("collection", None),
            StreamSource::PostCollections { .. } => ("post_collections", None),
            StreamSource::Wot { depth, .. } => ("wot", Some(depth.get())),
            StreamSource::WotDomain { trust, .. } => ("wot_domain", Some(trust.depth())),
            StreamSource::All => ("all", None),
        }
    }

    /// Label and depth under which requests for a Web of Trust stream are
    /// counted; no other stream is counted.
    pub fn wot_dimensions(&self) -> (counted: Option<(&'static str, u8)>)
        ensures
            match counted {
                Some((label, depth)) => self@.dimensions() == (label@, Some(depth)),
                None => self@.dimensions().1 is None,
            },
    {
        let (label, depth) = self.telemetry_dimensions();
        match depth {
            Some(depth) => Some((label, depth)),
            None => None,
        }
    }

    /// The user from whose place the stream is seen.
    pub fn get_observer(&self) -> (observer: Option<&str>)
        ensures
            match observer {
                Some(id) => self@.observer() == Some(id@),
                None => self@.observer() is None,
            },
    {
        match self {
            StreamSource::Followers { observer_id } => Some(observer_id.as_str()),
            StreamSource::Following { observer_id } => Some(observer_id.as_str()),
            StreamSource::Friends { observer_id } => Some(observer_id.as_str()),
            StreamSource::Bookmarks { observer_id } => Some(observer_id.as_str()),
            StreamSource::Wot { observer_id, .. } => Some(observer_id.as_str()),
            StreamSource::WotDomain { observer_id, .. } => Some(observer_id.as_str()),
            _ => None,
        }
    }

    /// Domain-trust tag labels carried by `WotDomain`; `None` for other sources.
    pub fn get_domain_tags(&self) -> (tags: Option<&[String]>)
        ensures
            match tags {
                Some(labels) => self@ matches SourceModel::WotDomain { domain_tags, .. }
                    && domain_tags == labels.deep_view(),
                None => !(self@ is WotDomain),
            },
    {
        match self {
            StreamSource::WotDomain { domain_tags, .. } => {
                let labels = domain_tags.as_slice();
                assert(labels.deep_view() =~= domain_tags.deep_view());
                Some(labels)
            },
            _ => None,
        }
    }

    /// Author whose posts are streamed. Collection and PostCollections return
    /// `None`: their `author_id` names the anchoring post, not the streamed authors.
    pub fn get_author(&self) -> (author: Option<&str>)
        ensures
            match author {
                Some(id) => self@.author() == Some(id@),
                None => self@.author() is None,
            },
    {
        match self {
            StreamSource::PostReplies { author_id, .. } => Some(author_id.as_str()),
            StreamSource::Author { author_id } => Some(author_id.as_str()),
            StreamSource::AuthorReplies { author_id } => Some(author_id.as_str()),
            _ => None,
        }
    }

    /// Post the stream is anchored on; `None` unless the source is PostCollections.
    pub fn get_anchor_post(&self) -> (anchor: Option<(&str, &str)>)
        ensures
            match anchor {
                Some((author, post)) => self@ == (SourceModel::PostCollections {
                    author_id: author@,
                    post_id: post@,
                }),
                None => !(self@ is PostCollections),
            },
    {
        match self {
            StreamSource::PostCollections { author_id, post_id } => Some(
                (author_id.as_str(), post_id.as_str()),
            ),
            _ => None,
        }
    }

    /// The same source again.
    pub fn copy(&self) -> (source: StreamSource)
        ensures
            source@ == self@,
    {
        match self {
            StreamSource::PostReplies { post_id, author_id } => StreamSource::PostReplies {
                post_id: post_id.clone(),
                author_id: author_id.clone(),
            },
            StreamSource::Following { observer_id } => StreamSource::Following {
                observer_id: observer_id.clone(),
            },
            StreamSource::Followers { observer_id } => StreamSource::Followers {
                observer_id: observer_id.clone(),
            },
            StreamSource::Friends { observer_id } => StreamSource::Friends {
                observer_id: observer_id.clone(),
            },
            StreamSource::Bookmarks { observer_id } => StreamSource::Bookmarks {
                observer_id: observer_id.clone(),
            },
            StreamSource::Author { author_id } => StreamSource::Author {
                author_id: author_id.clone(),
            },
            StreamSource::AuthorReplies { author_id } => StreamSource::AuthorReplies {
                author_id: author_id.clone(),
            },
            StreamSource::Collection { author_id, post_id } => StreamSource::Collection {
                author_id: author_id.clone(),
                post_id: post_id.clone(),
            },
            StreamSource::PostCollections { author_id, post_id } => StreamSource::PostCollections {
                author_id: author_id.clone(),
                post_id: post_id.clone(),
            },
            StreamSource::Wot { observer_id, depth } => StreamSource::Wot {
                observer_id: observer_id.clone(),
                depth: *depth,
            },
            StreamSource::WotDomain { observer_id, trust, domain_tags } => StreamSource::WotDomain {
                observer_id: observer_id.clone(),
                trust: *trust,
                domain_tags: copy_texts(domain_tags),
            },
            StreamSource::All => StreamSource::All,
        }
    }
}

/// Post-kind filter for streams. Any filter routes the query to the graph: the
/// sorted sets carry no kind information.
#[derive(Debug, PartialEq)]
pub enum KindFilter {
    /// Only posts of exactly this kind.
    Kind(PostKind),
    /// Posts of any kind except the listed ones.
    Exclude(Vec<PostKind>),
}

/// `KindFilter`, over plain sequences.
pub enum KindModel {
    Kind(PostKind),
    Exclude(Seq<PostKind>),
}

impl View for KindFilter {
    type V = KindModel;

    open spec fn view(&self) -> KindModel {
        match *self {
            KindFilter::Kind(kind) => KindModel::Kind(kind),
            KindFilter::Exclude(kinds) => KindModel::Exclude(kinds@),
        }
    }
}

impl KindFilter {
    /// The same filter again.
    pub fn copy(&self) -> (filter: KindFilter)
        ensures
            filter@ == self@,
    {
        match self {
            KindFilter::Kind(kind) => KindFilter::Kind(*kind),
            KindFilter::Exclude(kinds) => {
                let mut copy: Vec<PostKind> = Vec::new();
                let mut i: usize = 0;
                while i < kinds.len()
                    invariant
                        i <= kinds@.len(),
                        copy@ == kinds@.take(i as int),
                    decreases kinds@.len() - i,
                {
                    copy.push(kinds[i]);
                    i = i + 1;
                    assert(kinds@.take(i as int) =~= kinds@.take(i - 1).push(kinds@[i - 1]));
                }
                assert(copy@ =~= kinds@);
                KindFilter::Exclude(copy)
            },
        }
    }
}

/// A page of post keys, with the score to go on from.
#[derive(Debug, PartialEq)]
pub struct PostKeyStream {
    pub post_keys: Vec<String>,
    pub last_post_score: Option<u64>,
}

/// `PostKeyStream`, over plain sequences.
pub struct KeysModel {
    pub post_keys: Seq<Seq<char>>,
    pub last_post_score: Option<u64>,
}

impl View for PostKeyStream {
    type V = KeysModel;

    open spec fn view(&self) -> KeysModel {
        KeysModel {
            post_keys: self.post_keys.deep_view(),
            last_post_score: self.last_post_score,
        }
    }
}

/// The page without entries.
pub open spec fn no_keys() -> KeysModel {
    KeysModel { post_keys: Seq::empty(), last_post_score: None }
}

/// A score as a cursor: one below zero counts as zero.
pub open spec fn cursor_of(score: i64) -> u64 {
    if score < 0 {
        0
    } else {
        score as u64
    }
}

/// A page of scored post keys: the keys, and the cursor of the last one.
pub open spec fn keys_model(entries: Seq<(Seq<char>, i64)>) -> KeysModel {
    KeysModel {
        post_keys: entries.map_values(|entry: (Seq<char>, i64)| entry.0),
        last_post_score: if entries.len() == 0 {
            None
        } else {
            Some(cursor_of(entries.last().1))
        },
    }
}

impl Default for PostKeyStream {
    fn default() -> (stream: PostKeyStream)
        ensures
            stream@ == no_keys(),
    {
        let post_keys: Vec<String> = Vec::new();
        assert(post_keys.deep_view() =~= Seq::empty());
        PostKeyStream { post_keys, last_post_score: None }
    }
}

impl PostKeyStream {
    pub fn new(post_keys: Vec<String>, last_post_score: Option<u64>) -> (stream: PostKeyStream)
        ensures
            stream.post_keys == post_keys,
            stream.last_post_score == last_post_score,
    {
        PostKeyStream { post_keys, last_post_score }
    }

    /// The keys of scored entries, with the score of the last one as the cursor.
    pub fn from_scored_entries(entries: Vec<(String, i64)>) -> (stream: PostKeyStream)
        ensures
            stream@ == keys_model(entries.deep_view()),
    {
        let mut post_keys: Vec<String> = Vec::new();
        let mut last_post_score: Option<u64> = None;
        let mut i: usize = 0;
        while i < entries.len()
            invariant
                i <= entries@.len(),
                post_keys.deep_view() == keys_model(entries.deep_view()).post_keys.take(i as int),
                last_post_score == (if i == 0 {
                    None
                } else {
                    Some(cursor_of(entries.deep_view()[i - 1].1))
                }),
            decreases entries@.len() - i,
        {
            let ghost all = keys_model(entries.deep_view()).post_keys;
            let ghost before = post_keys.deep_view();
            let score: i64 = entries[i].1;
            post_keys.push(entries[i].0.clone());
            last_post_score = Some(
                if score < 0 {
                    0
                } else {
                    score as u64
                },
            );
            i = i + 1;
            assert(post_keys.deep_view() =~= before.push(all[i - 1]));
            assert(all.take(i as int) =~= before.push(all[i - 1]));
        }
        assert(keys_model(entries.deep_view()).post_keys.take(i as int) =~= keys_model(
            entries.deep_view(),
        ).post_keys);
        PostKeyStream::new(post_keys, last_post_score)
    }

    pub fn is_empty(&self) -> (empty: bool)
        ensures
            empty == (self@.post_keys.len() == 0),
    {
        self.post_keys.len() == 0
    }
}

/// What the indexes keep of a post.
#[derive(Debug)]
pub struct PostDetails {
    pub id: String,
    pub author: String,
    pub indexed_at: i64,
    pub kind: PostKind,
    pub content: String,
}

/// How often a post was tagged, replied to and reposted.
#[derive(Debug, Clone, Copy)]
pub struct PostCounts {
    pub tags: u32,
    pub unique_tags: u32,
    pub replies: u32,
    pub reposts: u32,
}

/// A user's bookmark of a post.
#[derive(Debug, Clone, Copy)]
pub struct Bookmark {
    pub indexed_at: i64,
}

/// A post as a viewer sees it.
#[derive(Debug)]
pub struct PostView {
    pub details: PostDetails,
    pub counts: PostCounts,
    pub bookmark: Option<Bookmark>,
}

/// A page of posts.
#[derive(Debug)]
pub struct PostStream(pub Vec<PostView>);

impl Default for PostStream {
    fn default() -> (stream: PostStream)
        ensures
            stream.0@ == Seq::<PostView>::empty(),
    {
        PostStream(Vec::new())
    }
}

/// Which post to look up, and for whom.
#[derive(Debug)]
pub struct PostLookup {
    pub author_id: String,
    pub post_id: String,
    pub viewer_id: Option<String>,
}

/// `PostLookup`, over plain sequences.
pub struct LookupModel {
    pub author_id: Seq<char>,
    pub post_id: Seq<char>,
    pub viewer_id: Option<Seq<char>>,
}

impl View for PostLookup {
    type V = LookupModel;

    open spec fn view(&self) -> LookupModel {
        LookupModel {
            author_id: self.author_id@,
            post_id: self.post_id@,
            viewer_id: match self.viewer_id {
                Some(id) => Some(id@),
                None => None,
            },
        }
    }
}

/// The lookups for the first `n` of `keys`. A key without a colon names no post.
pub open spec fn lookups_in(keys: Seq<Seq<char>>, viewer: Option<Seq<char>>, n: nat) -> Seq<
    LookupModel,
>
    decreases n,
{
    if n == 0 {
        Seq::empty()
    } else {
        let before = lookups_in(keys, viewer, (n - 1) as nat);
        match text::split_at_first(keys[n - 1], ':') {
            Some((author_id, post_id)) => before.push(
                LookupModel { author_id, post_id, viewer_id: viewer },
            ),
            None => before,
        }
    }
}

/// Of the first `n` answers, the views that were found.
pub open spec fn found_in(views: Seq<Option<PostView>>, n: nat) -> Seq<PostView>
    decreases n,
{
    if n == 0 {
        Seq::empty()
    } else {
        let before = found_in(views, (n - 1) as nat);
        match views[n - 1] {
            Some(view) => before.push(view),
            None => before,
        }
    }
}

/// The posts that were found are those that are there.
pub proof fn lemma_found_in(views: Seq<Option<PostView>>, n: nat)
    requires
        n <= views.len(),
    ensures
        found_in(views, n) == order::present(views.take(n as int)),
    decreases n,
{
    if n > 0 {
        lemma_found_in(views, (n - 1) as nat);
        assert(views.take(n as int).drop_last() =~= views.take(n - 1));
    }
}

/// The posts of a page stand in the order in which they were looked up: every
/// post that was found is there, once, and nothing else. Of two posts that were
/// found, the one looked up first stands first. Where all are found, each stands
/// at its own place.
pub proof fn law_posts_stand_in_the_order_of_their_lookups(views: Seq<Option<PostView>>)
    ensures
        ({
            let posts = found_in(views, views.len());
            &&& order::keeps_order(views, posts)
            &&& forall|i: int, j: int|
                #![trigger views[i], views[j]]
                0 <= i < j < views.len() && views[i] is Some && views[j] is Some ==> exists|
                    p: int,
                    q: int,
                |
                    0 <= p < q < posts.len() && (#[trigger] posts[p]) == views[i]->0
                        && (#[trigger] posts[q]) == views[j]->0
            &&& (forall|i: int| 0 <= i < views.len() ==> (#[trigger] views[i]) is Some)
                ==> posts.len() == views.len() && forall|k: int|
                0 <= k < posts.len() ==> (#[trigger] posts[k]) == views[k]->0
        }),
{
    let posts = found_in(views, views.len());
    lemma_found_in(views, views.len());
    assert(views.take(views.len() as int) =~= views);
    order::lemma_present(views);
    assert forall|i: int, j: int|
        #![trigger views[i], views[j]]
        0 <= i < j < views.len() && views[i] is Some && views[j] is Some implies exists|
        p: int,
        q: int,
    |
        0 <= p < q < posts.len() && (#[trigger] posts[p]) == views[i]->0 && (
        #[trigger] posts[q]) == views[j]->0 by {
        let (p, q) = order::lemma_pair_in_order(views, posts, i, j);
        assert(posts[p] == views[i]->0 && posts[q] == views[j]->0);
    }
    if forall|i: int| 0 <= i < views.len() ==> (#[trigger] views[i]) is Some {
        order::lemma_all_present(views, posts);
        assert forall|k: int| 0 <= k < posts.len() implies (#[trigger] posts[k]) == views[k]->0 by {
            assert(views[k] == Some(posts[k]));
        }
    }
}

/// What a post key is looked up as; nothing where it names no post.
pub open spec fn lookup_of(key: Seq<char>, viewer: Option<Seq<char>>) -> Option<LookupModel> {
    match text::split_at_first(key, ':') {
        Some((author_id, post_id)) => Some(LookupModel { author_id, post_id, viewer_id: viewer }),
        None => None,
    }
}

/// The lookups for post keys are those of the keys that name a post.
pub proof fn lemma_lookups_in(keys: Seq<Seq<char>>, viewer: Option<Seq<char>>, n: nat)
    requires
        n <= keys.len(),
    ensures
        lookups_in(keys, viewer, n) == order::present(
            keys.map_values(|key: Seq<char>| lookup_of(key, viewer)).take(n as int),
        ),
    decreases n,
{
    if n > 0 {
        lemma_lookups_in(keys, viewer, (n - 1) as nat);
        let all = keys.map_values(|key: Seq<char>| lookup_of(key, viewer));
        assert(all.take(n as int).drop_last() =~= all.take(n - 1));
    }
}

/// Each post key of a page is looked up as the post that it names, for the
/// viewer, in the order of the page: the author and the post that are looked up
/// join to the key again. A key without a colon names no post.
pub proof fn law_each_post_key_is_looked_up(keys: Seq<Seq<char>>, viewer: Option<Seq<char>>)
    ensures
        ({
            let lookups = lookups_in(keys, viewer, keys.len());
            &&& forall|k: int|
                0 <= k < lookups.len() ==> {
                    &&& (#[trigger] lookups[k]).viewer_id == viewer
                    &&& !lookups[k].author_id.contains(':')
                    &&& keys.contains(
                        lookups[k].author_id + seq![':'] + lookups[k].post_id,
                    )
                }
            &&& (forall|i: int| 0 <= i < keys.len() ==> (#[trigger] keys[i]).contains(':'))
                ==> lookups.len() == keys.len() && forall|k: int|
                0 <= k < lookups.len() ==> (#[trigger] lookups[k]).author_id + seq![':']
                    + lookups[k].post_id == keys[k]
            &&& order::keeps_order(
                keys.map_values(|key: Seq<char>| lookup_of(key, viewer)),
                lookups,
            )
        }),
{
    let lookups = lookups_in(keys, viewer, keys.len());
    let all = keys.map_values(|key: Seq<char>| lookup_of(key, viewer));
    lemma_lookups_in(keys, viewer, keys.len());
    assert(all.take(keys.len() as int) =~= all);
    order::lemma_present(all);
    assert forall|k: int| 0 <= k < lookups.len() implies {
        &&& (#[trigger] lookups[k]).viewer_id == viewer
        &&& !lookups[k].author_id.contains(':')
        &&& keys.contains(lookups[k].author_id + seq![':'] + lookups[k].post_id)
    } by {
        order::lemma_picked(all, lookups, lookups[k]);
        let i = all.index_of(Some(lookups[k]));
        text::lemma_post_key_of_halves(keys[i]);
        assert(lookups[k].author_id + seq![':'] + lookups[k].post_id == keys[i]);
    }
    if forall|i: int| 0 <= i < keys.len() ==> (#[trigger] keys[i]).contains(':') {
        assert forall|i: int| 0 <= i < all.len() implies (#[trigger] all[i]) is Some by {
            text::lemma_post_key_of_halves(keys[i]);
        }
        order::lemma_all_present(all, lookups);
        assert forall|k: int| 0 <= k < lookups.len() implies (#[trigger] lookups[k]).author_id
            + seq![':'] + lookups[k].post_id == keys[k] by {
            assert(all[k] == Some(lookups[k]));
            text::lemma_post_key_of_halves(keys[k]);
        }
    }
}

/// A kind filter, over plain sequences.
pub open spec fn kind_model(kind: Option<KindFilter>) -> Option<KindModel> {
    match kind {
        Some(filter) => Some(filter@),
        None => None,
    }
}

/// Whether a sorted set backs this combination, or decides how it is served.
pub open spec fn index_backed(
    sorting: StreamSorting,
    source: SourceModel,
    tags: Option<Seq<Seq<char>>>,
    kind: Option<KindModel>,
) -> bool {
    &&& kind is None
    &&& match source {
        // The replies to a post and those of an author are always read from their sets.
        SourceModel::PostReplies { .. } => true,
        SourceModel::AuthorReplies { .. } => true,
        // The global streams have sets for both sorts, and each tag has one.
        SourceModel::All => tags matches Some(labels) ==> labels.len() == 1,
        // These have a set for the untagged timeline.
        SourceModel::Author { .. } => sorting == StreamSorting::Timeline && tags is None,
        SourceModel::Following { .. } => sorting == StreamSorting::Timeline && tags is None,
        SourceModel::Followers { .. } => sorting == StreamSorting::Timeline && tags is None,
        SourceModel::Friends { .. } => sorting == StreamSorting::Timeline && tags is None,
        SourceModel::Bookmarks { .. } => sorting == StreamSorting::Timeline && tags is None,
        _ => false,
    }
}

impl PostStream {
    /// Appends the posts of another stream.
    pub fn extend(&mut self, post_stream: PostStream)
        ensures
            final(self).0@ == old(self).0@ + post_stream.0@,
    {
        let mut more = post_stream.0;
        self.0.append(&mut more);
    }

    /// Whether there is a quick access sorted set for this combination.
    pub fn can_use_index(
        sorting: &StreamSorting,
        source: &StreamSource,
        tags: &Option<Vec<String>>,
        kind: &Option<KindFilter>,
    ) -> (yes: bool)
        ensures
            yes == index_backed(*sorting, source@, tags.deep_view(), kind_model(*kind)),
    {
        if kind.is_some() {
            return false;
        }
        let timeline = match sorting {
            StreamSorting::Timeline => true,
            StreamSorting::TotalEngagement => false,
        };
        match source {
            StreamSource::PostReplies { .. } => true,
            StreamSource::AuthorReplies { .. } => true,
            StreamSource::All => match tags {
                Some(labels) => labels.len() == 1,
                None => true,
            },
            StreamSource::Author { .. } => timeline && tags.is_none(),
            StreamSource::Following { .. } => timeline && tags.is_none(),
            StreamSource::Followers { .. } => timeline && tags.is_none(),
            StreamSource::Friends { .. } => timeline && tags.is_none(),
            StreamSource::Bookmarks { .. } => timeline && tags.is_none(),
            _ => false,
        }
    }

    /// The posts to look up for a page of post keys, in their order. A key that
    /// holds no colon is passed over.
    pub fn from_listed_post_ids(viewer_id: Option<&str>, post_keys: &Vec<String>) -> (lookups: Vec<
        PostLookup,
    >)
        ensures
            lookups@.map_values(|lookup: PostLookup| lookup@) == lookups_in(
                post_keys.deep_view(),
                match viewer_id {
                    Some(id) => Some(id@),
                    None => None,
                },
                post_keys@.len(),
            ),
    {
        let ghost viewer = match viewer_id {
            Some(id) => Some(id@),
            None => None,
        };
        let mut lookups: Vec<PostLookup> = Vec::new();
        let mut i: usize = 0;
        assert(lookups@.map_values(|lookup: PostLookup| lookup@) =~= Seq::empty());
        while i < post_keys.len()
            invariant
                i <= post_keys@.len(),
                viewer == (match viewer_id {
                    Some(id) => Some(id@),
                    None => None,
                }),
                lookups@.map_values(|lookup: PostLookup| lookup@) == lookups_in(
                    post_keys.deep_view(),
                    viewer,
                    i as nat,
                ),
            decreases post_keys@.len() - i,
        {
            let ghost before = lookups@;
            if let Some((author_id, post_id)) = split_once(post_keys[i].as_str(), ':') {
                let viewer_id: Option<String> = match viewer_id {
                    Some(id) => Some(id.to_owned()),
                    None => None,
                };
                let lookup = PostLookup { author_id, post_id, viewer_id };
                lookups.push(lookup);
                assert(lookups@.map_values(|lookup: PostLookup| lookup@) =~= before.map_values(
                    |lookup: PostLookup| lookup@,
                ).push(lookup@));
            }
            i = i + 1;
        }
        lookups
    }

    /// The stream of the posts that were found, in the order they were looked up.
    pub fn from_found(views: Vec<Option<PostView>>) -> (stream: Option<PostStream>)
        ensures
            stream matches Some(posts) && posts.0@ == found_in(views@, views@.len())
                && order::keeps_order(views@, posts.0@),
    {
        let mut posts: Vec<PostView> = Vec::new();
        for answer in it: views
            invariant
                it.seq() == views@,
                posts@ == found_in(views@, it.index() as nat),
        {
            if let Some(view) = answer {
                posts.push(view);
            }
        }
        proof {
            law_posts_stand_in_the_order_of_their_lookups(views@);
        }
        Some(PostStream(posts))
    }
}

/// A key made of `parts`.
fn key(parts: Vec<&str>) -> (key: Vec<String>)
    ensures
        key.deep_view() == parts@.map_values(|part: &str| part@),
{
    let mut key: Vec<String> = Vec::new();
    let mut i: usize = 0;
    while i < parts.len()
        invariant
            i <= parts@.len(),
            key.deep_view() == parts@.map_values(|part: &str| part@).take(i as int),
        decreases parts@.len() - i,
    {
        let ghost all = parts@.map_values(|part: &str| part@);
        let ghost before = key.deep_view();
        key.push(parts[i].to_owned());
        i = i + 1;
        assert(key.deep_view() =~= before.push(all[i - 1]));
        assert(all.take(i as int) =~= before.push(all[i - 1]));
    }
    assert(key.deep_view() =~= parts@.map_values(|part: &str| part@));
    key
}

/// The global sets of one sort, and their twins.
pub open spec fn mirrored(name: Seq<char>) -> MirroredKeys {
    MirroredKeys {
        global: seq!["Posts"@, "Global"@, name],
        ranked: seq!["Posts"@, "Global"@, name, "Ranked"@],
        staged: seq!["Posts"@, "Global"@, name, "Ranked"@, "Staged"@],
        aside: seq!["Posts"@, "Global"@, name, "Ranked"@, "Aside"@],
    }
}

/// The global sets that back `sorting`, and their twins.
pub open spec fn sets_for(sorting: StreamSorting) -> MirroredKeys {
    match sorting {
        StreamSorting::Timeline => mirrored("Timeline"@),
        StreamSorting::TotalEngagement => mirrored("TotalEngagement"@),
    }
}

/// The set of an author's root posts.
pub open spec fn author_posts_key(author: Seq<char>) -> Seq<Seq<char>> {
    seq!["Posts"@, "AuthorParents"@, author]
}

/// The set of an author's replies.
pub open spec fn author_replies_key(author: Seq<char>) -> Seq<Seq<char>> {
    seq!["Posts"@, "AuthorReplies"@, author]
}

/// The set of the replies to a post.
pub open spec fn post_replies_key(author: Seq<char>, post: Seq<char>) -> Seq<Seq<char>> {
    seq!["Posts"@, "PostReplies"@, author, post]
}

/// The set of a user's bookmarks.
pub open spec fn bookmarks_key(user: Seq<char>) -> Seq<Seq<char>> {
    seq!["Bookmarks"@, "User"@, user]
}

pub(crate) fn to_author_posts_key(author: &str) -> (key: Vec<String>)
    ensures
        key.deep_view() == author_posts_key(author@),
{
    let key = key(vec!["Posts", "AuthorParents", author]);
    assert(key.deep_view() =~= author_posts_key(author@));
    key
}

pub(crate) fn to_author_replies_key(author: &str) -> (key: Vec<String>)
    ensures
        key.deep_view() == author_replies_key(author@),
{
    let key = key(vec!["Posts", "AuthorReplies", author]);
    assert(key.deep_view() =~= author_replies_key(author@));
    key
}

pub(crate) fn to_post_replies_key(author: &str, post: &str) -> (key: Vec<String>)
    ensures
        key.deep_view() == post_replies_key(author@, post@),
{
    let key = key(vec!["Posts", "PostReplies", author, post]);
    assert(key.deep_view() =~= post_replies_key(author@, post@));
    key
}

pub(crate) fn to_bookmarks_key(user: &str) -> (key: Vec<String>)
    ensures
        key.deep_view() == bookmarks_key(user@),
{
    let key = key(vec!["Bookmarks", "User", user]);
    assert(key.deep_view() =~= bookmarks_key(user@));
    key
}

impl MirroredSets {
    /// The global set and the twin that back `sorting`.
    pub fn for_sorting(sorting: StreamSorting) -> (sets: MirroredSets)
        ensures
            sets@ == sets_for(sorting),
    {
        let name = match sorting {
            StreamSorting::Timeline => "Timeline",
            StreamSorting::TotalEngagement => "TotalEngagement",
        };
        let sets = MirroredSets {
            global: key(vec!["Posts", "Global", name]),
            ranked: key(vec!["Posts", "Global", name, "Ranked"]),
            staged: key(vec!["Posts", "Global", name, "Ranked", "Staged"]),
            aside: key(vec!["Posts", "Global", name, "Ranked", "Aside"]),
        };
        assert(sets@.global =~= mirrored(name@).global);
        assert(sets@.ranked =~= mirrored(name@).ranked);
        assert(sets@.staged =~= mirrored(name@).staged);
        assert(sets@.aside =~= mirrored(name@).aside);
        sets
    }
}

/// The keys under which the ranked twins are synced to `ranking`.
pub open spec fn ranked_sync_keys(ranking: Seq<Seq<char>>) -> SyncKeys {
    SyncKeys {
        ranking,
        author_posts: seq!["Posts"@, "AuthorParents"@],
        timeline: sets_for(StreamSorting::Timeline),
        engagement: sets_for(StreamSorting::TotalEngagement),
        synced: seq!["Posts"@, "Global"@, "Ranked"@, "Synced"@],
        target: seq!["Posts"@, "Global"@, "Ranked"@, "Target"@],
        aside: seq!["Posts"@, "Global"@, "Ranked"@, "Aside"@],
    }
}

impl PostStream {
    /// A sync of both ranked sets to the ranking published at `ranking`.
    pub fn sync_ranked_sets(ranking: Vec<String>) -> (sync: RankedSync)
        ensures
            sync@.keys == ranked_sync_keys(ranking.deep_view()),
            sync@.phase is CheckRanking,
    {
        let keys = RankedSyncKeys {
            ranking,
            author_posts: key(vec!["Posts", "AuthorParents"]),
            timeline: MirroredSets::for_sorting(StreamSorting::Timeline),
            engagement: MirroredSets::for_sorting(StreamSorting::TotalEngagement),
            synced: key(vec!["Posts", "Global", "Ranked", "Synced"]),
            target: key(vec!["Posts", "Global", "Ranked", "Target"]),
            aside: key(vec!["Posts", "Global", "Ranked", "Aside"]),
        };
        assert(keys@.author_posts =~= ranked_sync_keys(ranking.deep_view()).author_posts);
        assert(keys@.synced =~= ranked_sync_keys(ranking.deep_view()).synced);
        assert(keys@.target =~= ranked_sync_keys(ranking.deep_view()).target);
        assert(keys@.aside =~= ranked_sync_keys(ranking.deep_view()).aside);
        RankedSync::sync_ranked_sets_with(keys)
    }
}

/// No key that a sync of the ranked twins writes to is another key it uses, as
/// long as the ranking is not published under one of them.
pub proof fn law_ranked_sync_keys_are_apart(ranking: Seq<Seq<char>>)
    requires
        !ranked_sync_keys(ranking).derived().contains(ranking),
    ensures
        ranked_sync_keys(ranking).apart(),
{
    reveal_strlit("Timeline");
    reveal_strlit("TotalEngagement");
    reveal_strlit("Ranked");
    reveal_strlit("Staged");
    reveal_strlit("Aside");
    reveal_strlit("Synced");
    reveal_strlit("Target");
    let keys = ranked_sync_keys(ranking);
    let derived = keys.derived();
    assert("Timeline"@.len() == 8 && "TotalEngagement"@.len() == 15 && "Ranked"@.len() == 6);
    assert("Staged"@.len() == 6 && "Aside"@.len() == 5 && "Synced"@[0] == 'S' && "Target"@[0]
        == 'T' && "Synced"@.len() == 6 && "Target"@.len() == 6);
    assert(derived[0].len() == 4 && derived[3].len() == 4 && derived[6].len() == 4
        && derived[7].len() == 4 && derived[8].len() == 4);
    assert(derived[1].len() == 5 && derived[2].len() == 5 && derived[4].len() == 5
        && derived[5].len() == 5);
    assert(derived[0][2] == "Timeline"@ && derived[1][2] == "Timeline"@ && derived[2][2]
        == "Timeline"@);
    assert(derived[3][2] == "TotalEngagement"@ && derived[4][2] == "TotalEngagement"@
        && derived[5][2] == "TotalEngagement"@);
    assert(derived[6][2] == "Ranked"@ && derived[7][2] == "Ranked"@ && derived[8][2] == "Ranked"@);
    assert(derived[1][4] == "Staged"@ && derived[4][4] == "Staged"@ && derived[2][4] == "Aside"@
        && derived[5][4] == "Aside"@);
    assert(derived[6][3] == "Synced"@ && derived[7][3] == "Target"@ && derived[8][3] == "Aside"@);
    assert(derived.no_duplicates());
    assert forall|i: int| 0 <= i < 9 implies (#[trigger] derived[i]).len() > 3 by {}
    assert(keys.timeline.global.len() == 3 && keys.engagement.global.len() == 3);
    assert forall|author: Seq<char>| !derived.contains(#[trigger] keys.posts_of(author)) by {
        assert(keys.posts_of(author).len() == 3);
    }
}

/// A page of post keys holds the keys of its entries, each at its place, and
/// ends with the score of the last one; a score below zero counts as zero.
pub proof fn law_post_keys_stand_where_their_entries_do(entries: Seq<(Seq<char>, i64)>)
    ensures
        ({
            let page = keys_model(entries);
            &&& page.post_keys.len() == entries.len()
            &&& forall|i: int|
                0 <= i < entries.len() ==> (#[trigger] page.post_keys[i]) == entries[i].0
            &&& page.last_post_score is None <==> entries.len() == 0
            &&& entries.len() > 0 && entries.last().1 >= 0 ==> (page.last_post_score matches Some(n)
                && n as int == entries.last().1)
            &&& entries.len() > 0 && entries.last().1 < 0 ==> page.last_post_score == Some(0u64)
        }),
{
}

/// A source is seen from the place of the observer that it names, and from
/// nobody's where it names none.
pub proof fn law_a_source_is_seen_by_the_observer_it_names(
    id: Seq<char>,
    post: Seq<char>,
    depth: WotDepth,
    trust: DomainTrust,
    tags: Seq<Seq<char>>,
)
    ensures
        (SourceModel::Following { observer_id: id }).observer() == Some(id),
        (SourceModel::Followers { observer_id: id }).observer() == Some(id),
        (SourceModel::Friends { observer_id: id }).observer() == Some(id),
        (SourceModel::Bookmarks { observer_id: id }).observer() == Some(id),
        (SourceModel::Wot { observer_id: id, depth }).observer() == Some(id),
        (SourceModel::WotDomain { observer_id: id, trust, domain_tags: tags }).observer() == Some(
            id,
        ),
        (SourceModel::Author { author_id: id }).observer() is None,
        (SourceModel::AuthorReplies { author_id: id }).observer() is None,
        (SourceModel::PostReplies { post_id: post, author_id: id }).observer() is None,
        (SourceModel::Collection { author_id: id, post_id: post }).observer() is None,
        (SourceModel::PostCollections { author_id: id, post_id: post }).observer() is None,
        SourceModel::All.observer() is None,
        (SourceModel::Author { author_id: id }).author() == Some(id),
        (SourceModel::AuthorReplies { author_id: id }).author() == Some(id),
        (SourceModel::PostReplies { post_id: post, author_id: id }).author() == Some(id),
        (SourceModel::Collection { author_id: id, post_id: post }).author() is None,
        (SourceModel::PostCollections { author_id: id, post_id: post }).author() is None,
        SourceModel::All.author() is None,
{
}

/// A source is never both seen by an observer and drawn from one author, and
/// the depth it is measured with is that of its Web of Trust.
pub proof fn law_a_source_tells_its_depth_if_it_is_a_web_of_trust(source: SourceModel)
    ensures
        source.observer() is None || source.author() is None,
        match source {
            SourceModel::Wot { depth, .. } => source.dimensions().1 == Some(depth.value()),
            SourceModel::WotDomain { trust, .. } => source.dimensions().1 == Some(trust.value()),
            _ => source.dimensions().1 is None,
        },
{
}

/// A source is taken for what it is: of its own kind, with its own ids.
pub proof fn law_a_source_is_taken_for_what_it_is(source: StreamSource)
    ensures
        match source {
            StreamSource::PostReplies { post_id, author_id } => source@ == (
            SourceModel::PostReplies { post_id: post_id@, author_id: author_id@ }),
            StreamSource::Following { observer_id } => source@ == (SourceModel::Following {
                observer_id: observer_id@,
            }),
            StreamSource::Followers { observer_id } => source@ == (SourceModel::Followers {
                observer_id: observer_id@,
            }),
            StreamSource::Friends { observer_id } => source@ == (SourceModel::Friends {
                observer_id: observer_id@,
            }),
            StreamSource::Bookmarks { observer_id } => source@ == (SourceModel::Bookmarks {
                observer_id: observer_id@,
            }),
            StreamSource::Author { author_id } => source@ == (SourceModel::Author {
                author_id: author_id@,
            }),
            StreamSource::AuthorReplies { author_id } => source@ == (SourceModel::AuthorReplies {
                author_id: author_id@,
            }),
            StreamSource::Collection { author_id, post_id } => source@ == (
            SourceModel::Collection { author_id: author_id@, post_id: post_id@ }),
            StreamSource::PostCollections { author_id, post_id } => source@ == (
            SourceModel::PostCollections { author_id: author_id@, post_id: post_id@ }),
            StreamSource::Wot { observer_id, depth } => source@ == (SourceModel::Wot {
                observer_id: observer_id@,
                depth,
            }),
            StreamSource::WotDomain { observer_id, trust, domain_tags } => source@ == (
            SourceModel::WotDomain {
                observer_id: observer_id@,
                trust,
                domain_tags: domain_tags.deep_view(),
            }),
            StreamSource::All => source@ == SourceModel::All,
        },
{
}

/// A page of keys, a lookup and a kind filter are taken for what they are.
pub proof fn law_a_page_and_its_lookups_are_taken_for_what_they_are(
    page: PostKeyStream,
    lookup: PostLookup,
    filter: KindFilter,
)
    ensures
        page@.post_keys == page.post_keys.deep_view(),
        page@.last_post_score == page.last_post_score,
        lookup@.author_id == lookup.author_id@,
        lookup@.post_id == lookup.post_id@,
        lookup@.viewer_id == lookup.viewer_id.deep_view(),
        match filter {
            KindFilter::Kind(kind) => filter@ == KindModel::Kind(kind),
            KindFilter::Exclude(kinds) => filter@ == KindModel::Exclude(kinds@),
        },
{
}

} // verus!
