//! What a read of a stream shows, in a world that answers everything it asks.
use crate::order;
use crate::post_read;
use crate::post_read::{
    AskModel, FollowList, GraphModel, HeardModel, PostsAsk, PostsModel, StageModel,
};
use crate::post_stream;
use crate::post_stream::{KeysModel, KindModel, LookupModel, PostView, SourceModel};
use crate::scored;
use crate::sorted_set;
use crate::sorted_set::{CommandModel, ReplyModel, SortOrder, StoreModel};
use crate::text;
use crate::types::{Pagination, PostKind, StreamSorting};
use vstd::prelude::*;

verus! {

/// All that a read can ask about.
pub struct World {
    /// The sorted sets.
    pub store: StoreModel,
    /// Whether a trust ranking exists; `None` where it cannot be asked for.
    pub ranking: Option<bool>,
    /// The users of each list around each user.
    pub follows: Map<(FollowList, Seq<char>), Seq<Seq<char>>>,
    /// Author, post and score of each row that the graph gives for a query.
    pub rows: Map<GraphModel, Seq<(Seq<char>, Seq<char>, i64)>>,
    /// The posts that a search for a tag finds.
    pub tagged: Map<(Seq<char>, StreamSorting, Pagination), Seq<(Seq<char>, usize)>>,
    /// Kind and content of each post, by author and post id.
    pub posts: Map<(Seq<char>, Seq<char>), (PostKind, Seq<char>)>,
    /// The items that the content of a collection lists.
    pub items: Map<Seq<char>, Seq<(Seq<char>, Seq<char>)>>,
    /// The post that a lookup finds.
    pub views: Map<LookupModel, PostView>,
}

/// The value at a key, if there is one.
pub open spec fn value_at<K, V>(map: Map<K, V>, key: K) -> Option<V> {
    if map.contains_key(key) {
        Some(map[key])
    } else {
        None
    }
}

impl World {
    /// The page that the store gives for a command.
    pub open spec fn page(self, command: CommandModel) -> Option<Seq<(Seq<char>, i64)>> {
        match self.store.reply(command) {
            ReplyModel::Page(page) => page,
            _ => None,
        }
    }

    /// What a read is told when it asks.
    pub open spec fn answer(self, ask: AskModel) -> HeardModel {
        match ask {
            AskModel::Details { author_id, post_id } => HeardModel::Details(
                value_at(self.posts, (author_id, post_id)),
            ),
            AskModel::CollectionItems { content } => HeardModel::CollectionItems(
                value_at(self.items, content),
            ),
            AskModel::RankingBuilt => HeardModel::RankingBuilt(self.ranking),
            AskModel::Page(command) => HeardModel::Page(self.page(command)),
            AskModel::Pages(commands) => HeardModel::Pages(
                Seq::new(commands.len(), |i: int| self.page(commands[i])),
            ),
            AskModel::Graph(query) => HeardModel::Rows(self.rows[query]),
            AskModel::TagSearch { label, sorting, pagination } => HeardModel::TagPosts(
                value_at(self.tagged, (label, sorting, pagination)),
            ),
            AskModel::Follows { list, user_id, limit } => HeardModel::Users(
                match value_at(self.follows, (list, user_id)) {
                    Some(users) => Some(
                        if users.len() <= limit {
                            users
                        } else {
                            users.take(limit as int)
                        },
                    ),
                    None => None,
                },
            ),
        }
    }
}

/// A read after at most `n` answers.
pub open spec fn read_run(world: World, stage: StageModel, n: nat) -> StageModel
    decreases n,
{
    if n == 0 {
        stage
    } else {
        match stage.action() {
            Some(ask) => read_run(world, stage.next(world.answer(ask)), (n - 1) as nat),
            None => stage,
        }
    }
}

/// The page of keys that a read of a stream comes to: no read asks more than
/// four times.
pub open spec fn keys_read(world: World, query: GraphModel) -> Option<KeysModel> {
    match read_run(world, post_read::read_start(query), 4) {
        StageModel::Done(page) => page,
        _ => None,
    }
}

/// The score of a page's last entry is where the next page starts; one below
/// zero counts as zero.
pub open spec fn ends_at(cursor: Option<u64>, score: i64) -> bool {
    cursor matches Some(n) && n as int == (if score < 0 {
        0
    } else {
        score as int
    })
}

/// `entries` are those of `set` within the bounds of a page, in its order, from
/// behind the skipped ones on, as many as the limit allows and there are.
pub open spec fn is_page_of(
    set: Map<Seq<char>, i64>,
    order: SortOrder,
    page: Pagination,
    entries: Seq<(Seq<char>, i64)>,
) -> bool {
    let all = sorted_set::in_range(set, page.start, page.end, order);
    let skip = match page.skip {
        Some(n) => n as int,
        None => 0,
    };
    &&& forall|i: int|
        0 <= i < entries.len() ==> skip + i < all.len() && (#[trigger] entries[i]) == all[skip + i]
    &&& entries.len() == (if skip >= all.len() {
        0
    } else {
        match page.limit {
            Some(most) => if most < all.len() - skip {
                most as int
            } else {
                all.len() - skip
            },
            None => all.len() - skip,
        }
    })
}

/// `keys` are the posts that `entries` name, each at its place, and end where
/// the last entry does.
pub open spec fn shows(keys: KeysModel, entries: Seq<(Seq<char>, i64)>) -> bool {
    &&& keys.post_keys.len() == entries.len()
    &&& forall|i: int| 0 <= i < entries.len() ==> (#[trigger] keys.post_keys[i]) == entries[i].0
    &&& entries.len() == 0 ==> keys.last_post_score is None
    &&& entries.len() > 0 ==> ends_at(keys.last_post_score, entries.last().1)
}

/// `keys` are the posts of `user` that `entries` name, each at its place, and end
/// where the last entry does.
pub open spec fn shows_posts_of(
    user: Seq<char>,
    keys: KeysModel,
    entries: Seq<(Seq<char>, i64)>,
) -> bool {
    &&& keys.post_keys.len() == entries.len()
    &&& forall|i: int|
        0 <= i < entries.len() ==> (#[trigger] keys.post_keys[i]) == user + seq![':']
            + entries[i].0
    &&& entries.len() == 0 ==> keys.last_post_score is None
    &&& entries.len() > 0 ==> ends_at(keys.last_post_score, entries.last().1)
}

/// A page that is read of a set is a page of it; a set that does not exist has
/// no entries.
proof fn lemma_page_read(world: World, key: Seq<Seq<char>>, order: SortOrder, page: Pagination)
    ensures
        is_page_of(
            world.store.at(key),
            order,
            page,
            post_read::page_or_empty(world.page(post_read::page_command(key, order, page))),
        ),
        world.page(post_read::page_command(key, order, page)) is Some == world.store.exists_at(key),
{
    let set = world.store.at(key);
    let all = sorted_set::in_range(set, page.start, page.end, order);
    let skip = post_read::or_zero(page.skip);
    scored::law_a_page_is_cut_out_of_its_list(all, skip, post_read::counted(page.limit));
    if !world.store.exists_at(key) {
        assert(set.dom() =~= Set::empty());
        lemma_range(set, page.start, page.end, order);
        if all.len() > 0 {
            assert(set.contains_key(all[0].0));
        }
    } else {
        assert(world.page(post_read::page_command(key, order, page)) == Some(
            sorted_set::window(all, skip, post_read::counted(page.limit)),
        ));
    }
}

/// The entries of a set within bounds: each a member at its score within the
/// bounds, each member within the bounds once, in the order that was named.
proof fn lemma_range(
    set: Map<Seq<char>, i64>,
    start: Option<i64>,
    end: Option<i64>,
    order: SortOrder,
)
    requires
        set.dom().finite(),
    ensures
        ({
            let all = sorted_set::in_range(set, start, end, order);
            &&& forall|i: int|
                0 <= i < all.len() ==> {
                    &&& set.contains_key((#[trigger] all[i]).0)
                    &&& set[all[i].0] == all[i].1
                    &&& start matches Some(most) ==> all[i].1 <= most
                    &&& end matches Some(least) ==> all[i].1 >= least
                }
            &&& forall|member: Seq<char>| #[trigger]
                set.contains_key(member) && (start matches Some(most) ==> set[member] <= most) && (
                end matches Some(least) ==> set[member] >= least) ==> all.contains(
                    (member, set[member]),
                )
            &&& forall|i: int, j: int|
                0 <= i < j < all.len() ==> if order == SortOrder::Ascending {
                    all[i].1 <= all[j].1
                } else {
                    all[i].1 >= all[j].1
                }
        }),
{
    sorted_set::lemma_listing(set);
    let listed = sorted_set::listing(set);
    let list = match order {
        SortOrder::Ascending => listed,
        SortOrder::Descending => listed.reverse(),
    };
    let keep = |entry: (Seq<char>, i64)| sorted_set::in_bounds(entry.1, start, end);
    let all = list.filter(keep);
    assert(all == sorted_set::in_range(set, start, end, order));
    assert forall|i: int| 0 <= i < all.len() implies {
        &&& set.contains_key((#[trigger] all[i]).0)
        &&& set[all[i].0] == all[i].1
        &&& start matches Some(most) ==> all[i].1 <= most
        &&& end matches Some(least) ==> all[i].1 >= least
    } by {
        assert(all.contains(all[i]));
        list.lemma_filter_contains_rev(keep, all[i]);
        let j = list.index_of(all[i]);
        if order == SortOrder::Descending {
            assert(list[j] == listed[listed.len() - 1 - j]);
        }
        lemma_filter_keeps(list, keep, i);
    }
    assert forall|member: Seq<char>| #[trigger]
        set.contains_key(member) && (start matches Some(most) ==> set[member] <= most) && (
        end matches Some(least) ==> set[member] >= least) implies all.contains(
        (member, set[member]),
    ) by {
        let j = choose|j: int| 0 <= j < listed.len() && (#[trigger] listed[j]).0 == member;
        let entry = (member, set[member]);
        assert(listed[j] == entry);
        let at = if order == SortOrder::Descending {
            listed.len() - 1 - j
        } else {
            j
        };
        assert(list[at] == entry);
        assert(keep(entry));
        lemma_filter_holds(list, keep, at);
    }
    assert forall|i: int, j: int| 0 <= i < j < list.len() implies if order == SortOrder::Ascending {
        list[i].1 <= list[j].1
    } else {
        list[i].1 >= list[j].1
    } by {
        if order == SortOrder::Descending {
            assert(list[i] == listed[listed.len() - 1 - i]);
            assert(list[j] == listed[listed.len() - 1 - j]);
        }
    }
    lemma_filter_in_order(list, keep, order);
}

proof fn lemma_filter_keeps<T>(list: Seq<T>, keep: spec_fn(T) -> bool, i: int)
    requires
        0 <= i < list.filter(keep).len(),
    ensures
        keep(list.filter(keep)[i]),
    decreases list.len(),
{
    reveal(Seq::filter);
    if list.len() > 0 {
        let fewer = list.drop_last();
        if i < fewer.filter(keep).len() {
            lemma_filter_keeps(fewer, keep, i);
        }
    }
}

proof fn lemma_filter_holds<T>(list: Seq<T>, keep: spec_fn(T) -> bool, at: int)
    requires
        0 <= at < list.len(),
        keep(list[at]),
    ensures
        list.filter(keep).contains(list[at]),
    decreases list.len(),
{
    reveal(Seq::filter);
    let fewer = list.drop_last();
    let kept = list.filter(keep);
    if at < list.len() - 1 {
        lemma_filter_holds(fewer, keep, at);
        let j = fewer.filter(keep).index_of(list[at]);
        assert(kept[j] == list[at]);
    } else {
        assert(kept[kept.len() - 1] == list[at]);
    }
}

proof fn lemma_filter_in_order(
    list: Seq<(Seq<char>, i64)>,
    keep: spec_fn((Seq<char>, i64)) -> bool,
    order: SortOrder,
)
    requires
        forall|i: int, j: int|
            0 <= i < j < list.len() ==> if order == SortOrder::Ascending {
                list[i].1 <= list[j].1
            } else {
                list[i].1 >= list[j].1
            },
    ensures
        forall|i: int, j: int|
            0 <= i < j < list.filter(keep).len() ==> if order == SortOrder::Ascending {
                list.filter(keep)[i].1 <= list.filter(keep)[j].1
            } else {
                list.filter(keep)[i].1 >= list.filter(keep)[j].1
            },
    decreases list.len(),
{
    reveal(Seq::filter);
    if list.len() > 0 {
        let fewer = list.drop_last();
        assert(forall|i: int| 0 <= i < fewer.len() ==> #[trigger] fewer[i] == list[i]);
        lemma_filter_in_order(fewer, keep, order);
        let kept = fewer.filter(keep);
        let all = list.filter(keep);
        assert forall|i: int, j: int| 0 <= i < j < all.len() implies if order
            == SortOrder::Ascending {
            all[i].1 <= all[j].1
        } else {
            all[i].1 >= all[j].1
        } by {
            if j == kept.len() {
                assert(kept.contains(kept[i]));
                fewer.lemma_filter_contains_rev(keep, kept[i]);
                let at = fewer.index_of(kept[i]);
                assert(list[at] == kept[i]);
            }
        }
    }
}

/// A page of a set is in the order that was asked for: no entry of an ascending
/// page scores less than one before it, and none of a descending page more. Each
/// entry is a member at its score, at most `start` and at least `end`. A page
/// without a skip and a limit holds every such member.
pub proof fn law_a_page_of_a_set_is_in_order_and_within_bounds(
    set: Map<Seq<char>, i64>,
    order: SortOrder,
    page: Pagination,
    entries: Seq<(Seq<char>, i64)>,
)
    requires
        set.dom().finite(),
        is_page_of(set, order, page, entries),
    ensures
        forall|i: int|
            0 <= i < entries.len() ==> {
                &&& set.contains_key((#[trigger] entries[i]).0)
                &&& set[entries[i].0] == entries[i].1
                &&& page.start matches Some(most) ==> entries[i].1 <= most
                &&& page.end matches Some(least) ==> entries[i].1 >= least
            },
        forall|i: int, j: int|
            0 <= i < j < entries.len() ==> if order == SortOrder::Ascending {
                entries[i].1 <= entries[j].1
            } else {
                entries[i].1 >= entries[j].1
            },
        page.skip is None && page.limit is None ==> forall|member: Seq<char>| #[trigger]
            set.contains_key(member) && (page.start matches Some(most) ==> set[member] <= most) && (
            page.end matches Some(least) ==> set[member] >= least) ==> entries.contains(
                (member, set[member]),
            ),
{
    lemma_range(set, page.start, page.end, order);
    let all = sorted_set::in_range(set, page.start, page.end, order);
    if page.skip is None && page.limit is None {
        assert(entries =~= all);
    }
}

/// The sources whose streams are kept in a set of their own.
pub open spec fn has_own_set(query: GraphModel) -> bool {
    &&& query.tags is None
    &&& query.kind is None
    &&& match query.source {
        SourceModel::Author { .. } => query.sorting == StreamSorting::Timeline,
        SourceModel::Bookmarks { .. } => query.sorting == StreamSorting::Timeline,
        SourceModel::AuthorReplies { .. } => true,
        SourceModel::PostReplies { .. } => true,
        _ => false,
    }
}

/// An author's posts, an author's replies, the replies to a post and a user's
/// bookmarks are each read from the set of exactly that author, post or user: in
/// the order asked for, within the bounds, cut to the page, and with the keys of
/// the posts. Gives the entries of the page.
pub proof fn law_a_stream_shows_the_entries_of_its_own_set(world: World, query: GraphModel) -> (
entries: Seq<(Seq<char>, i64)>)
    requires
        has_own_set(query),
    ensures
        keys_read(world, query) matches Some(keys) && match query.source {
            SourceModel::Author { author_id } => is_page_of(
                world.store.at(post_stream::author_posts_key(author_id)),
                query.order,
                query.pagination,
                entries,
            ) && shows_posts_of(author_id, keys, entries),
            SourceModel::AuthorReplies { author_id } => is_page_of(
                world.store.at(post_stream::author_replies_key(author_id)),
                query.order,
                query.pagination,
                entries,
            ) && shows_posts_of(author_id, keys, entries),
            SourceModel::PostReplies { author_id, post_id } => is_page_of(
                world.store.at(post_stream::post_replies_key(author_id, post_id)),
                query.order,
                query.pagination,
                entries,
            ) && shows(keys, entries),
            SourceModel::Bookmarks { observer_id } => is_page_of(
                world.store.at(post_stream::bookmarks_key(observer_id)),
                query.order,
                query.pagination,
                entries,
            ) && shows(keys, entries),
            _ => false,
        },
{
    reveal_with_fuel(read_run, 5);
    let key = match query.source {
        SourceModel::Author { author_id } => post_stream::author_posts_key(author_id),
        SourceModel::AuthorReplies { author_id } => post_stream::author_replies_key(author_id),
        SourceModel::PostReplies { author_id, post_id } => post_stream::post_replies_key(
            author_id,
            post_id,
        ),
        SourceModel::Bookmarks { observer_id } => post_stream::bookmarks_key(observer_id),
        _ => Seq::empty(),
    };
    lemma_page_read(world, key, query.order, query.pagination);
    post_read::page_or_empty(
        world.page(post_read::page_command(key, query.order, query.pagination)),
    )
}

/// The list of users that a reach names, and the user it is around.
pub open spec fn reach_of(source: SourceModel) -> Option<(FollowList, Seq<char>)> {
    match source {
        SourceModel::Following { observer_id } => Some((FollowList::Following, observer_id)),
        SourceModel::Followers { observer_id } => Some((FollowList::Followers, observer_id)),
        SourceModel::Friends { observer_id } => Some((FollowList::Friends, observer_id)),
        _ => None,
    }
}

/// The user that a reach is around.
pub open spec fn around(source: SourceModel) -> Seq<char> {
    match reach_of(source) {
        Some((_, observer)) => observer,
        None => Seq::empty(),
    }
}

/// A stream by reach asks for the list that its source names, around the
/// observer that its source names, and for no other: whom the observer follows,
/// who follows the observer, and the observer's friends.
pub proof fn law_a_reach_asks_for_the_list_it_names(
    observer: Seq<char>,
    order: SortOrder,
    pagination: Pagination,
)
    ensures
        post_read::source_start(
            SourceModel::Following { observer_id: observer },
            order,
            pagination,
        ).action() == Some(
            AskModel::Follows {
                list: FollowList::Following,
                user_id: observer,
                limit: 200,
            },
        ),
        post_read::source_start(
            SourceModel::Followers { observer_id: observer },
            order,
            pagination,
        ).action() == Some(
            AskModel::Follows {
                list: FollowList::Followers,
                user_id: observer,
                limit: 200,
            },
        ),
        post_read::source_start(
            SourceModel::Friends { observer_id: observer },
            order,
            pagination,
        ).action() == Some(
            AskModel::Follows {
                list: FollowList::Friends,
                user_id: observer,
                limit: 200,
            },
        ),
{
}

/// The first two hundred users of the list that a source names; none where there
/// is no list.
pub open spec fn first_users(world: World, source: SourceModel) -> Seq<Seq<char>> {
    match reach_of(source) {
        Some(named) => match value_at(world.follows, named) {
            Some(users) => if users.len() <= 200 {
                users
            } else {
                users.take(200)
            },
            None => Seq::empty(),
        },
        None => Seq::empty(),
    }
}

/// Whether `user` posted `id` at `score`, within the bounds of a page.
pub open spec fn posted(
    store: StoreModel,
    page: Pagination,
    user: Seq<char>,
    id: Seq<char>,
    score: i64,
) -> bool {
    let own = store.at(post_stream::author_posts_key(user));
    &&& own.contains_key(id)
    &&& own[id] == score
    &&& page.start matches Some(most) ==> score <= most
    &&& page.end matches Some(least) ==> score >= least
}

/// Every set of an author's posts is finite.
pub open spec fn finite_posts(store: StoreModel) -> bool {
    forall|user: Seq<char>|
        (#[trigger] store.at(post_stream::author_posts_key(user))).dom().finite()
}

/// The users that a reach is drawn from.
spec fn drawn_from(world: World, source: SourceModel) -> Seq<Seq<char>> {
    let told = first_users(world, source);
    post_read::others_in(told, around(source), told.len())
}

/// The pages of the posts of users, in full.
spec fn pages_of(
    world: World,
    users: Seq<Seq<char>>,
    order: SortOrder,
    page: Pagination,
) -> Seq<Option<Seq<(Seq<char>, i64)>>> {
    Seq::new(
        users.len(),
        |i: int| world.page(post_read::user_posts_command(users[i], order, page)),
    )
}

/// The bounds of a page, without its skip and its limit.
pub open spec fn bounds_of(page: Pagination) -> Pagination {
    Pagination { skip: None, limit: None, start: page.start, end: page.end }
}

proof fn lemma_others_of(users: Seq<Seq<char>>, observer: Seq<char>, n: nat)
    requires
        n <= users.len(),
    ensures
        post_read::others_in(users, observer, n) == order::present(
            users.map_values(
                |user: Seq<char>|
                    if user == observer {
                        None
                    } else {
                        Some(user)
                    },
            ).take(n as int),
        ),
        post_read::others_in(users, observer, n).len() <= n,
    decreases n,
{
    let all = users.map_values(
        |user: Seq<char>|
            if user == observer {
                None
            } else {
                Some(user)
            },
    );
    if n > 0 {
        lemma_others_of(users, observer, (n - 1) as nat);
        assert(all.take(n as int).drop_last() =~= all.take(n - 1));
    }
}

/// The users of a reach are drawn from in the order of their list, each of them
/// but the observer.
pub proof fn law_a_reach_draws_from_everybody_else(users: Seq<Seq<char>>, observer: Seq<char>)
    ensures
        ({
            let others = post_read::others_in(users, observer, users.len());
            &&& order::keeps_order(
                users.map_values(
                    |user: Seq<char>|
                        if user == observer {
                            None
                        } else {
                            Some(user)
                        },
                ),
                others,
            )
            &&& forall|user: Seq<char>| #[trigger]
                others.contains(user) <==> users.contains(user) && user != observer
        }),
{
    let others = post_read::others_in(users, observer, users.len());
    let all = users.map_values(
        |user: Seq<char>|
            if user == observer {
                None
            } else {
                Some(user)
            },
    );
    lemma_others_of(users, observer, users.len());
    assert(all.take(users.len() as int) =~= all);
    order::lemma_present(all);
    assert forall|user: Seq<char>| #[trigger]
        others.contains(user) <==> users.contains(user) && user != observer by {
        order::lemma_picked(all, others, user);
        if all.contains(Some(user)) {
            let i = all.index_of(Some(user));
            assert(users[i] == user);
        }
        if users.contains(user) && user != observer {
            let i = users.index_of(user);
            assert(all[i] == Some(user));
        }
    }
}

/// Whether one of the first `n` users posted what an entry names, at its score.
spec fn is_theirs(
    store: StoreModel,
    page: Pagination,
    users: Seq<Seq<char>>,
    n: nat,
    entry: (i64, Seq<char>),
) -> bool {
    exists|k: int, id: Seq<char>|
        0 <= k < n && #[trigger] posted(store, page, users[k], id, entry.0) && entry.1
            == text::post_key_of(users[k], id)
}

/// The posts of the first `n` users are theirs, and all of theirs.
proof fn lemma_posts_of_users(
    world: World,
    users: Seq<Seq<char>>,
    order: SortOrder,
    page: Pagination,
    n: nat,
)
    requires
        finite_posts(world.store),
        n <= users.len(),
    ensures
        ({
            let posts = post_read::posts_of_users(users, pages_of(world, users, order, page), n);
            &&& forall|j: int|
                0 <= j < posts.len() ==> is_theirs(world.store, page, users, n, #[trigger] posts[j])
            &&& forall|k: int, id: Seq<char>, score: i64|
                0 <= k < n && #[trigger] posted(world.store, page, users[k], id, score)
                    ==> posts.contains((score, text::post_key_of(users[k], id)))
        }),
    decreases n,
{
    let pages = pages_of(world, users, order, page);
    let posts = post_read::posts_of_users(users, pages, n);
    if n > 0 {
        lemma_posts_of_users(world, users, order, page, (n - 1) as nat);
        let before = post_read::posts_of_users(users, pages, (n - 1) as nat);
        let user = users[n - 1];
        let key = post_stream::author_posts_key(user);
        let set = world.store.at(key);
        let bounds = bounds_of(page);
        assert(post_read::user_posts_command(user, order, page) == post_read::page_command(
            key,
            order,
            bounds,
        ));
        lemma_page_read(world, key, order, bounds);
        let entries = post_read::page_or_empty(pages[n - 1]);
        assert(set.dom().finite());
        law_a_page_of_a_set_is_in_order_and_within_bounds(set, order, bounds, entries);
        let more = post_read::swapped(post_read::keyed(user, entries));
        assert(posts == before + more);
        assert forall|j: int| 0 <= j < posts.len() implies is_theirs(
            world.store,
            page,
            users,
            n,
            #[trigger] posts[j],
        ) by {
            if j < before.len() {
                assert(posts[j] == before[j]);
                assert(is_theirs(world.store, page, users, (n - 1) as nat, before[j]));
                let (k, id) = choose|k: int, id: Seq<char>|
                    0 <= k < n - 1 && #[trigger] posted(
                        world.store,
                        page,
                        users[k],
                        id,
                        before[j].0,
                    ) && before[j].1 == text::post_key_of(users[k], id);
                assert(posted(world.store, page, users[k], id, posts[j].0));
            } else {
                let entry = entries[j - before.len()];
                assert(posts[j] == (entry.1, text::post_key_of(user, entry.0)));
                assert(posted(world.store, page, users[n - 1], entry.0, posts[j].0));
            }
        }
        assert forall|k: int, id: Seq<char>, score: i64|
            0 <= k < n && #[trigger] posted(
                world.store,
                page,
                users[k],
                id,
                score,
            ) implies posts.contains((score, text::post_key_of(users[k], id))) by {
            let wanted = (score, text::post_key_of(users[k], id));
            if k < n - 1 {
                assert(before.contains(wanted));
                let j = before.index_of(wanted);
                assert(posts[j] == wanted);
            } else {
                assert(set.contains_key(id));
                assert(entries.contains((id, set[id])));
                let j = entries.index_of((id, set[id]));
                assert(posts[before.len() + j] == wanted);
            }
        }
    }
}

/// What a stream by reach comes to.
proof fn lemma_reach_read(world: World, query: GraphModel)
    requires
        reach_of(query.source) is Some,
        query.sorting == StreamSorting::Timeline,
        query.tags is None,
        query.kind is None,
    ensures
        ({
            let users = drawn_from(world, query.source);
            let posts = post_read::posts_of_users(
                users,
                pages_of(world, users, query.order, query.pagination),
                users.len(),
            );
            let page = sorted_set::window(
                scored::by_score(posts),
                post_read::or_zero(query.pagination.skip),
                post_read::counted(query.pagination.limit),
            );
            keys_read(world, query) == Some(post_stream::keys_model(post_read::swapped(page)))
        }),
{
    reveal_with_fuel(read_run, 5);
    let told = first_users(world, query.source);
    let users = drawn_from(world, query.source);
    lemma_others_of(told, around(query.source), told.len());
    let pages = pages_of(world, users, query.order, query.pagination);
    let posts = post_read::posts_of_users(users, pages, users.len());
    let sorted = scored::by_score(posts);
    scored::law_ordering_by_score_keeps_every_entry(posts, 0);
    let page = sorted_set::window(
        sorted,
        post_read::or_zero(query.pagination.skip),
        post_read::counted(query.pagination.limit),
    );
    let first = post_read::read_start(query);
    let asked = first.next(world.answer(first.action()->0));
    if users.len() == 0 {
        assert(posts.len() == 0);
        assert(page.len() == 0);
        assert(post_stream::keys_model(post_read::swapped(page)).post_keys
            =~= post_stream::no_keys().post_keys);
    } else {
        assert(asked == StageModel::UserPosts {
            users,
            order: query.order,
            pagination: query.pagination,
        });
        let commands = asked.action()->0->Pages_0;
        let told_pages = Seq::new(commands.len(), |i: int| world.page(commands[i]));
        assert(told_pages =~= pages);
    }
}

/// A stream by reach shows posts by members of the list that its source names
/// and by nobody else: each post by one of the first users of that list other
/// than the observer, at the score it has among that user's posts, within the
/// bounds, highest score first. Without a skip and a limit it shows every such
/// post. Gives user, post id and score of each post shown.
pub proof fn law_a_reach_stream_shows_the_posts_of_its_list(world: World, query: GraphModel) -> (
posts: Seq<(Seq<char>, Seq<char>, i64)>)
    requires
        reach_of(query.source) is Some,
        query.sorting == StreamSorting::Timeline,
        query.tags is None,
        query.kind is None,
        finite_posts(world.store),
    ensures
        ({
            let users = first_users(world, query.source);
            let observer = around(query.source);
            &&& keys_read(world, query) matches Some(keys)
            &&& keys.post_keys.len() == posts.len()
            &&& forall|i: int|
                0 <= i < posts.len() ==> {
                    &&& (#[trigger] keys.post_keys[i]) == posts[i].0 + seq![':'] + posts[i].1
                    &&& users.contains(posts[i].0)
                    &&& posts[i].0 != observer
                    &&& posted(
                        world.store,
                        query.pagination,
                        posts[i].0,
                        posts[i].1,
                        posts[i].2,
                    )
                }
            &&& forall|i: int, j: int| 0 <= i < j < posts.len() ==> posts[i].2 >= posts[j].2
            &&& posts.len() == 0 ==> keys.last_post_score is None
            &&& posts.len() > 0 ==> ends_at(keys.last_post_score, posts.last().2)
            &&& query.pagination.limit matches Some(most) ==> posts.len() <= most
            &&& query.pagination.skip is None && query.pagination.limit is None ==> forall|
                user: Seq<char>,
                id: Seq<char>,
                score: i64,
            |
                users.contains(user) && user != observer && #[trigger] posted(
                    world.store,
                    query.pagination,
                    user,
                    id,
                    score,
                ) ==> keys.post_keys.contains(user + seq![':'] + id)
        }),
{
    let told = first_users(world, query.source);
    let observer = around(query.source);
    let users = drawn_from(world, query.source);
    let pages = pages_of(world, users, query.order, query.pagination);
    let all = post_read::posts_of_users(users, pages, users.len());
    let sorted = scored::by_score(all);
    let skip = post_read::or_zero(query.pagination.skip);
    let limit = post_read::counted(query.pagination.limit);
    let page = sorted_set::window(sorted, skip, limit);
    lemma_reach_read(world, query);
    law_a_reach_draws_from_everybody_else(told, observer);
    lemma_posts_of_users(world, users, query.order, query.pagination, users.len());
    scored::law_ordering_by_score_keeps_every_entry(all, 0);
    scored::law_a_page_is_cut_out_of_its_list(sorted, skip, limit);
    let keys = keys_read(world, query)->0;
    let posts = Seq::new(
        page.len(),
        |i: int|
            {
                let (k, id) = choose|k: int, id: Seq<char>|
                    0 <= k < users.len() && #[trigger] posted(
                        world.store,
                        query.pagination,
                        users[k],
                        id,
                        page[i].0,
                    ) && page[i].1 == text::post_key_of(users[k], id);
                (users[k], id, page[i].0)
            },
    );
    assert forall|i: int| 0 <= i < posts.len() implies {
        &&& (#[trigger] keys.post_keys[i]) == posts[i].0 + seq![':'] + posts[i].1
        &&& told.contains(posts[i].0)
        &&& posts[i].0 != observer
        &&& posted(world.store, query.pagination, posts[i].0, posts[i].1, posts[i].2)
        &&& posts[i].2 == page[i].0
    } by {
        assert(page[i] == sorted[skip + i]);
        lemma_in_both(sorted, all, skip + i);
        let j = all.index_of(page[i]);
        assert(is_theirs(world.store, query.pagination, users, users.len(), all[j]));
        let (k, id) = choose|k: int, id: Seq<char>|
            0 <= k < users.len() && #[trigger] posted(
                world.store,
                query.pagination,
                users[k],
                id,
                page[i].0,
            ) && page[i].1 == text::post_key_of(users[k], id);
        assert(posts[i] == (users[k], id, page[i].0));
        assert(users.contains(users[k]));
    }
    if posts.len() > 0 {
        let last = posts.len() - 1;
        assert(keys.post_keys[last] == posts[last].0 + seq![':'] + posts[last].1);
    }
    assert forall|i: int, j: int| 0 <= i < j < posts.len() implies posts[i].2 >= posts[j].2 by {
        assert(keys.post_keys[i] == posts[i].0 + seq![':'] + posts[i].1);
        assert(keys.post_keys[j] == posts[j].0 + seq![':'] + posts[j].1);
        assert(page[i] == sorted[skip + i] && page[j] == sorted[skip + j]);
    }
    if query.pagination.skip is None && query.pagination.limit is None {
        assert forall|user: Seq<char>, id: Seq<char>, score: i64|
            told.contains(user) && user != observer && #[trigger] posted(
                world.store,
                query.pagination,
                user,
                id,
                score,
            ) implies keys.post_keys.contains(user + seq![':'] + id) by {
            assert(users.contains(user));
            let k = users.index_of(user);
            assert(posted(world.store, query.pagination, users[k], id, score));
            let wanted = (score, text::post_key_of(user, id));
            let j = all.index_of(wanted);
            lemma_in_both(all, sorted, j);
            let i = sorted.index_of(wanted);
            assert(page =~= sorted);
            assert(keys.post_keys[i] == user + seq![':'] + id);
        }
    }
    posts
}

/// Two lists of the same entries hold each other's.
proof fn lemma_in_both<T>(a: Seq<T>, b: Seq<T>, i: int)
    requires
        a.to_multiset() == b.to_multiset(),
        0 <= i < a.len(),
    ensures
        b.contains(a[i]),
{
    broadcast use vstd::seq_lib::group_to_multiset_ensures;

    assert(a.contains(a[i]));
    assert(a.to_multiset().count(a[i]) > 0);
}

/// A page of a stream by reach is cut out of the whole stream, at its place.
pub proof fn law_a_reach_page_is_cut_out_of_the_whole(world: World, query: GraphModel)
    requires
        reach_of(query.source) is Some,
        query.sorting == StreamSorting::Timeline,
        query.tags is None,
        query.kind is None,
    ensures
        ({
            let whole = GraphModel { pagination: bounds_of(query.pagination), ..query };
            let skip = match query.pagination.skip {
                Some(n) => n as int,
                None => 0,
            };
            &&& keys_read(world, query) matches Some(keys)
            &&& keys_read(world, whole) matches Some(all)
            &&& forall|i: int|
                0 <= i < keys.post_keys.len() ==> skip + i < all.post_keys.len() && (
                #[trigger] keys.post_keys[i]) == all.post_keys[skip + i]
            &&& keys.post_keys.len() == (if skip >= all.post_keys.len() {
                0
            } else {
                match query.pagination.limit {
                    Some(most) => if most < all.post_keys.len() - skip {
                        most as int
                    } else {
                        all.post_keys.len() - skip
                    },
                    None => all.post_keys.len() - skip,
                }
            })
        }),
{
    let whole = GraphModel { pagination: bounds_of(query.pagination), ..query };
    lemma_reach_read(world, query);
    lemma_reach_read(world, whole);
    let users = drawn_from(world, query.source);
    let pages = pages_of(world, users, query.order, query.pagination);
    assert(pages =~= pages_of(world, users, query.order, whole.pagination));
    let sorted = scored::by_score(post_read::posts_of_users(users, pages, users.len()));
    scored::law_a_page_is_cut_out_of_its_list(
        sorted,
        post_read::or_zero(query.pagination.skip),
        post_read::counted(query.pagination.limit),
    );
    scored::law_a_page_is_cut_out_of_its_list(sorted, 0, None);
}

/// `keys` are the posts that rows of the graph name, each at its place, and end
/// where the last row does.
pub open spec fn shows_rows(keys: KeysModel, rows: Seq<(Seq<char>, Seq<char>, i64)>) -> bool {
    &&& keys.post_keys.len() == rows.len()
    &&& forall|i: int|
        0 <= i < rows.len() ==> (#[trigger] keys.post_keys[i]) == rows[i].0 + seq![':'] + rows[i].1
    &&& rows.len() == 0 ==> keys.last_post_score is None
    &&& rows.len() > 0 ==> keys.last_post_score is Some
    &&& rows.len() > 0 && rows.last().2 >= 0 ==> ends_at(keys.last_post_score, rows.last().2)
}

/// Whether no sorted set can serve a stream: those of a Web of Trust and the
/// collections of a post have none, none knows a post's kind, none of a user or
/// a reach is sorted by engagement or knows tags, and none knows several tags.
pub open spec fn only_the_graph_can_serve(query: GraphModel) -> bool {
    match query.source {
        SourceModel::Collection { .. } => false,
        SourceModel::PostCollections { .. } => true,
        SourceModel::Wot { .. } => true,
        SourceModel::WotDomain { .. } => true,
        SourceModel::All => query.kind is Some || (query.tags matches Some(tags) && tags.len()
            != 1),
        SourceModel::PostReplies { .. } => query.kind is Some,
        SourceModel::AuthorReplies { .. } => query.kind is Some,
        _ => query.kind is Some || query.tags is Some || query.sorting
            == StreamSorting::TotalEngagement,
    }
}

/// A stream that no sorted set can serve is asked of the graph: with all of its
/// filters, its order and its page, and with unranked authors hidden exactly
/// where it is drawn from everybody and a ranking exists. The rows are shown in
/// the order in which they come.
pub proof fn law_the_graph_is_asked_for_the_stream_as_it_is(world: World, query: GraphModel)
    requires
        only_the_graph_can_serve(query),
    ensures
        keys_read(world, query) matches Some(keys) && shows_rows(
            keys,
            world.rows[GraphModel {
                source: query.source,
                sorting: query.sorting,
                order: query.order,
                tags: query.tags,
                pagination: query.pagination,
                kind: query.kind,
                ranked_only: query.source is All && world.ranking == Some(true),
            }],
        ),
{
    reveal_with_fuel(read_run, 5);
}

/// The untagged stream of everybody is read from the global set of its sort, or,
/// while a ranking exists, from the ranked set; where that one is missing, the
/// graph is asked, with unranked authors hidden. Gives the entries of the page.
pub proof fn law_the_global_stream_follows_the_ranking(world: World, query: GraphModel) -> (entries:
    Seq<(Seq<char>, i64)>)
    requires
        query.source is All,
        query.tags is None,
        query.kind is None,
    ensures
        ({
            let sets = post_stream::sets_for(query.sorting);
            &&& keys_read(world, query) matches Some(keys)
            &&& world.ranking != Some(true) ==> is_page_of(
                world.store.at(sets.global),
                query.order,
                query.pagination,
                entries,
            ) && shows(keys, entries)
            &&& world.ranking == Some(true) && world.store.exists_at(sets.ranked) ==> is_page_of(
                world.store.at(sets.ranked),
                query.order,
                query.pagination,
                entries,
            ) && shows(keys, entries)
            &&& world.ranking == Some(true) && !world.store.exists_at(sets.ranked) ==> shows_rows(
                keys,
                world.rows[GraphModel {
                    source: SourceModel::All,
                    sorting: query.sorting,
                    order: query.order,
                    tags: None,
                    pagination: query.pagination,
                    kind: None,
                    ranked_only: true,
                }],
            )
        }),
{
    reveal_with_fuel(read_run, 5);
    let sets = post_stream::sets_for(query.sorting);
    let key = if world.ranking == Some(true) {
        sets.ranked
    } else {
        sets.global
    };
    lemma_page_read(world, key, query.order, query.pagination);
    post_read::page_or_empty(
        world.page(post_read::page_command(key, query.order, query.pagination)),
    )
}

/// The stream of everybody with one tag is what a search for that tag finds: in
/// its order, ten posts from the first on unless the page says otherwise. While a
/// ranking exists the graph is asked, with unranked authors hidden.
pub proof fn law_a_tagged_stream_is_searched_or_asked_of_the_graph(world: World, query: GraphModel)
    requires
        query.source is All,
        query.tags matches Some(tags) && tags.len() == 1,
        query.kind is None,
    ensures
        ({
            let label = query.tags->0[0];
            let page = query.pagination;
            let searched = Pagination {
                skip: Some(
                    match page.skip {
                        Some(n) => n,
                        None => 0,
                    },
                ),
                limit: Some(
                    match page.limit {
                        Some(n) => n,
                        None => 10,
                    },
                ),
                start: page.start,
                end: page.end,
            };
            &&& keys_read(world, query) matches Some(keys)
            &&& world.ranking != Some(true) ==> match value_at(
                world.tagged,
                (label, query.sorting, searched),
            ) {
                Some(posts) => {
                    &&& keys.post_keys.len() == posts.len()
                    &&& forall|i: int|
                        0 <= i < posts.len() ==> (#[trigger] keys.post_keys[i]) == posts[i].0
                    &&& posts.len() == 0 ==> keys.last_post_score is None
                    &&& posts.len() > 0 ==> (keys.last_post_score matches Some(n) && n as int
                        == posts.last().1 as int)
                },
                None => keys.post_keys.len() == 0 && keys.last_post_score is None,
            }
            &&& world.ranking == Some(true) ==> shows_rows(
                keys,
                world.rows[GraphModel {
                    source: SourceModel::All,
                    sorting: query.sorting,
                    order: query.order,
                    tags: query.tags,
                    pagination: query.pagination,
                    kind: None,
                    ranked_only: true,
                }],
            )
        }),
{
    reveal_with_fuel(read_run, 5);
}

/// The replies to a post and those of an author know no tags: with any, and
/// without a kind, their page is empty.
pub proof fn law_tagged_replies_are_empty(world: World, query: GraphModel)
    requires
        query.source is PostReplies || query.source is AuthorReplies,
        query.tags is Some,
        query.kind is None,
    ensures
        keys_read(world, query) matches Some(keys) && keys.post_keys.len() == 0
            && keys.last_post_score is None,
{
    reveal_with_fuel(read_run, 5);
}

/// A collection shows the posts that its content lists, in the order of the
/// list, cut to the page; its page has no cursor. What is no collection, or one
/// whose content is malformed, shows nothing.
pub proof fn law_a_collection_shows_its_items_in_their_order(
    world: World,
    query: GraphModel,
    author: Seq<char>,
    post: Seq<char>,
)
    requires
        query.source == (SourceModel::Collection { author_id: author, post_id: post }),
    ensures
        ({
            let skip = match query.pagination.skip {
                Some(n) => n as int,
                None => 0,
            };
            let items = match value_at(world.posts, (author, post)) {
                Some((kind, content)) => if kind == PostKind::Collection {
                    match value_at(world.items, content) {
                        Some(listed) => listed,
                        None => Seq::empty(),
                    }
                } else {
                    Seq::empty()
                },
                None => Seq::empty(),
            };
            &&& keys_read(world, query) matches Some(keys)
            &&& keys.last_post_score is None
            &&& forall|i: int|
                0 <= i < keys.post_keys.len() ==> skip + i < items.len() && (
                #[trigger] keys.post_keys[i]) == items[skip + i].0 + seq![':'] + items[skip + i].1
            &&& keys.post_keys.len() == (if skip >= items.len() {
                0
            } else {
                match query.pagination.limit {
                    Some(most) => if most < items.len() - skip {
                        most as int
                    } else {
                        items.len() - skip
                    },
                    None => items.len() - skip,
                }
            })
        }),
{
    reveal_with_fuel(read_run, 5);
}

/// A read of a page of posts after at most `n` answers, as `viewer` sees them.
pub open spec fn posts_run(
    world: World,
    viewer: Option<Seq<char>>,
    stage: PostsModel,
    n: nat,
) -> PostsModel
    decreases n,
{
    if n == 0 {
        stage
    } else {
        match stage.action(viewer) {
            Some(PostsAsk::Keys(ask)) => posts_run(
                world,
                viewer,
                stage.heard(world.answer(ask)),
                (n - 1) as nat,
            ),
            Some(PostsAsk::Views(lookups)) => stage.shown(
                lookups.map_values(|lookup: LookupModel| value_at(world.views, lookup)),
            ),
            None => stage,
        }
    }
}

/// The post that a post key names, as `viewer` sees it.
pub open spec fn view_of(
    world: World,
    viewer: Option<Seq<char>>,
    key: Seq<char>,
) -> Option<PostView> {
    match text::split_at_first(key, ':') {
        Some((author_id, post_id)) => value_at(
            world.views,
            LookupModel { author_id, post_id, viewer_id: viewer },
        ),
        None => None,
    }
}

/// Behind the page of keys, the posts are looked up.
proof fn lemma_posts_run(
    world: World,
    viewer: Option<Seq<char>>,
    stage: StageModel,
    keys: Option<KeysModel>,
    n: nat,
)
    requires
        read_run(world, stage, n) == StageModel::Done(keys),
    ensures
        match keys {
            Some(page) if page.post_keys.len() > 0 => posts_run(
                world,
                viewer,
                post_read::behind_keys(stage),
                n + 1,
            ) == PostsModel::Views(page).shown(
                post_stream::lookups_in(page.post_keys, viewer, page.post_keys.len()).map_values(
                    |lookup: LookupModel| value_at(world.views, lookup),
                ),
            ),
            _ => posts_run(world, viewer, post_read::behind_keys(stage), n + 1)
                == PostsModel::Done(None),
        },
    decreases n,
{
    match stage {
        StageModel::Done(_) => {
            reveal_with_fuel(posts_run, 2);
        },
        _ => {
            match stage.action() {
                Some(ask) => {
                    lemma_posts_run(
                        world,
                        viewer,
                        stage.next(world.answer(ask)),
                        keys,
                        (n - 1) as nat,
                    );
                },
                None => {},
            }
        },
    }
}

/// A read of a page of posts comes to the posts that the keys of the page name,
/// as the viewer sees them, in the order of the page: every post that is there,
/// once, and nothing else. Where all of them are there, the post at each place is
/// the one that the key at that place names. A page without keys has no posts.
pub proof fn law_a_page_of_posts_is_in_the_order_of_its_keys(
    world: World,
    viewer: Option<Seq<char>>,
    query: GraphModel,
)
    requires
        keys_read(world, query) is Some,
    ensures
        ({
            let keys = (keys_read(world, query)->0).post_keys;
            let end = posts_run(
                world,
                viewer,
                post_read::behind_keys(post_read::read_start(query)),
                5,
            );
            let named = keys.map_values(|key: Seq<char>| view_of(world, viewer, key));
            &&& keys.len() == 0 ==> end == PostsModel::Done(None)
            &&& keys.len() > 0 ==> {
                &&& end matches PostsModel::Done(Some(posts))
                &&& order::keeps_order(named, posts)
                &&& (forall|i: int|
                    0 <= i < keys.len() ==> view_of(world, viewer, #[trigger] keys[i]) is Some)
                    ==> posts.len() == keys.len() && forall|k: int|
                    0 <= k < posts.len() ==> Some(#[trigger] posts[k]) == view_of(
                        world,
                        viewer,
                        keys[k],
                    )
            }
        }),
{
    let page = keys_read(world, query)->0;
    let keys = page.post_keys;
    let stage = post_read::read_start(query);
    lemma_posts_run(world, viewer, stage, Some(page), 4);
    if keys.len() > 0 {
        let found = |lookup: LookupModel| value_at(world.views, lookup);
        let all = keys.map_values(|key: Seq<char>| post_stream::lookup_of(key, viewer));
        let both = |maybe: Option<LookupModel>|
            match maybe {
                Some(lookup) => found(lookup),
                None => None,
            };
        let lookups = post_stream::lookups_in(keys, viewer, keys.len());
        let views = lookups.map_values(found);
        let posts = post_stream::found_in(views, views.len());
        post_stream::lemma_lookups_in(keys, viewer, keys.len());
        assert(all.take(keys.len() as int) =~= all);
        post_stream::lemma_found_in(views, views.len());
        assert(views.take(views.len() as int) =~= views);
        order::lemma_present_twice(all, found, both);
        let named = keys.map_values(|key: Seq<char>| view_of(world, viewer, key));
        assert(all.map_values(both) =~= named);
        order::lemma_present(named);
        assert(posts == order::present(named));
        if forall|i: int| 0 <= i < keys.len() ==> view_of(world, viewer, #[trigger] keys[i]) is Some {
            assert forall|i: int| 0 <= i < named.len() implies (#[trigger] named[i]) is Some by {
                assert(view_of(world, viewer, keys[i]) is Some);
            }
            order::lemma_all_present(named, posts);
            assert forall|k: int| 0 <= k < posts.len() implies Some(#[trigger] posts[k]) == view_of(
                world,
                viewer,
                keys[k],
            ) by {
                assert(named[k] == Some(posts[k]));
            }
        }
    }
}

/// The sorted sets serve exactly the streams that do not need the graph; a
/// collection is served by its content.
pub proof fn law_the_sets_serve_what_does_not_need_the_graph(query: GraphModel)
    requires
        !(query.source is Collection),
    ensures
        post_stream::index_backed(query.sorting, query.source, query.tags, query.kind)
            <==> !only_the_graph_can_serve(query),
        (post_read::read_start(query) == post_read::graph_start(query)) <==> only_the_graph_can_serve(
            query,
        ),
{
}

/// Reading one kind of stream by its own call is reading it as a stream: an
/// author's posts and replies, a user's bookmarks, the replies to a post, a
/// reach, and everybody's posts as long as the ranked set is not missing.
pub proof fn law_each_call_reads_the_stream_it_is_named_after(
    user: Seq<char>,
    post: Seq<char>,
    order: SortOrder,
    sorting: StreamSorting,
    page: Pagination,
)
    ensures
        ({
            let plain = |source: SourceModel|
                post_read::read_start(
                    post_read::stream_query(
                        source,
                        page,
                        order,
                        StreamSorting::Timeline,
                        None,
                        None,
                    ),
                );
            let following = SourceModel::Following { observer_id: user };
            let followers = SourceModel::Followers { observer_id: user };
            let friends = SourceModel::Friends { observer_id: user };
            &&& post_read::author_start(user, order, page, false) == plain(
                SourceModel::Author { author_id: user },
            )
            &&& post_read::author_start(user, order, page, true) == plain(
                SourceModel::AuthorReplies { author_id: user },
            )
            &&& post_read::bookmarks_start(user, order, page) == plain(
                SourceModel::Bookmarks { observer_id: user },
            )
            &&& post_read::post_replies_start(user, post, order, page) == plain(
                SourceModel::PostReplies { post_id: post, author_id: user },
            )
            &&& post_read::source_start(following, order, page) == plain(following)
            &&& post_read::source_start(followers, order, page) == plain(followers)
            &&& post_read::source_start(friends, order, page) == plain(friends)
        }),
{
}

/// One page of everybody's posts, read by its own call: as the stream shows it,
/// and none where a ranking exists but its ranked set does not.
pub proof fn law_a_global_page_is_that_of_the_stream(
    world: World,
    sorting: StreamSorting,
    order: SortOrder,
    page: Pagination,
)
    ensures
        ({
            let end = read_run(
                world,
                post_read::global_start(sorting, order, page, None),
                4,
            );
            let query = post_read::stream_query(
                SourceModel::All,
                page,
                order,
                sorting,
                None,
                None,
            );
            if world.ranking == Some(true) && !world.store.exists_at(
                post_stream::sets_for(sorting).ranked,
            ) {
                end == StageModel::Done(None)
            } else {
                end == StageModel::Done(keys_read(world, query))
            }
        }),
{
    reveal_with_fuel(read_run, 5);
    let sets = post_stream::sets_for(sorting);
    lemma_page_read(world, sets.ranked, order, page);
    lemma_page_read(world, sets.global, order, page);
}

/// A stream is asked for with its source, its filters, its sort, its order and
/// its page as they were given, and with nobody hidden from the start.
pub proof fn law_a_stream_is_asked_for_as_it_was_given(
    source: SourceModel,
    pagination: Pagination,
    order: SortOrder,
    sorting: StreamSorting,
    tags: Option<Seq<Seq<char>>>,
    kind: Option<KindModel>,
)
    ensures
        ({
            let query = post_read::stream_query(source, pagination, order, sorting, tags, kind);
            &&& query.source == source
            &&& query.pagination == pagination
            &&& query.order == order
            &&& query.sorting == sorting
            &&& query.tags == tags
            &&& query.kind == kind
            &&& !query.ranked_only
        }),
{
}

/// However many users a reach is told, it goes on with the first two hundred of
/// them but the observer, in their order, and with all of them where there are
/// fewer; where there is nobody else, its page is empty.
pub proof fn law_a_reach_goes_on_with_the_first_users_it_is_told(
    list: FollowList,
    observer: Seq<char>,
    order: SortOrder,
    pagination: Pagination,
    told: Seq<Seq<char>>,
)
    ensures
        ({
            let asked = StageModel::Users { list, user_id: observer, order, pagination };
            let others = post_read::others_in(told, observer, told.len());
            &&& others.len() == 0 ==> asked.next(HeardModel::Users(Some(told)))
                == StageModel::Done(Some(post_stream::no_keys()))
            &&& others.len() > 0 ==> {
                &&& asked.next(HeardModel::Users(Some(told))) matches StageModel::UserPosts {
                    users,
                    order: same,
                    pagination: page,
                }
                &&& same == order
                &&& page == pagination
                &&& users.len() == (if others.len() <= 200 {
                    others.len() as int
                } else {
                    200
                })
                &&& forall|i: int| 0 <= i < users.len() ==> (#[trigger] users[i]) == others[i]
            }
            &&& asked.next(HeardModel::Users(None)) == StageModel::Done(
                Some(post_stream::no_keys()),
            )
        }),
{
}

} // verus!
