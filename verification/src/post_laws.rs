//! What holds of the post streams as a whole: which authors a page shows, and
//! how writes keep the ranked twins in line.
use crate::post_index;
use crate::post_index::{WriteAsk, WriteHeard, WriteModel};
use crate::post_read;
use crate::post_read::{AfterModel, GraphModel, HeardModel, StageModel};
use crate::post_stream;
use crate::post_stream::KeysModel;
use crate::ranked_sync;
use crate::ranked_sync_laws;
use crate::scored;
use crate::sorted_set;
use crate::sorted_set::{ReplyModel, ScoreAction, SortOrder, StoreModel};
use crate::text;
use crate::types::{Pagination, StreamSorting};
use vstd::prelude::*;

verus! {

/// A write and the store it runs on.
pub struct WriteState {
    pub stage: WriteModel,
    pub store: StoreModel,
}

/// A write after at most `n` actions, with the authors in `ranking` ranked.
pub open spec fn write_run(ranking: Map<Seq<char>, i64>, state: WriteState, n: nat) -> WriteState
    decreases n,
{
    if n == 0 {
        state
    } else {
        match state.stage.action() {
            Some(WriteAsk::Store(command)) => write_run(
                ranking,
                WriteState {
                    stage: state.stage.next(WriteHeard::Store(state.store.reply(command))),
                    store: state.store.after(command),
                },
                (n - 1) as nat,
            ),
            Some(WriteAsk::IsRanked { user_id }) => write_run(
                ranking,
                WriteState {
                    stage: state.stage.next(WriteHeard::Ranked(ranking.contains_key(user_id))),
                    store: state.store,
                },
                (n - 1) as nat,
            ),
            None => state,
        }
    }
}

/// The store that a write leaves behind, where it is over after three actions.
pub open spec fn written(
    ranking: Map<Seq<char>, i64>,
    stage: WriteModel,
    store: StoreModel,
) -> StoreModel {
    write_run(ranking, WriteState { stage, store }, 3).store
}

/// The two sets of a sort are different sets, and so are those of different sorts.
pub proof fn lemma_sets_apart(a: StreamSorting, b: StreamSorting)
    ensures
        post_stream::sets_for(a).global != post_stream::sets_for(b).ranked,
        a != b ==> post_stream::sets_for(a).global != post_stream::sets_for(b).global,
        a != b ==> post_stream::sets_for(a).ranked != post_stream::sets_for(b).ranked,
{
    reveal_strlit("Timeline");
    reveal_strlit("TotalEngagement");
    let first = post_stream::sets_for(a);
    let second = post_stream::sets_for(b);
    assert(first.global.len() == 3 && second.ranked.len() == 4);
    assert(first.global[2].len() != second.global[2].len() || a == b);
    assert(first.ranked[2].len() != second.ranked[2].len() || a == b);
}

/// Writing one element inserts it.
pub proof fn lemma_put_one(set: Map<Seq<char>, i64>, member: Seq<char>, score: i64)
    ensures
        sorted_set::put_all(set, seq![(score, member)]) == set.insert(member, score),
{
    reveal_with_fuel(sorted_set::put_all, 2);
    let elements = seq![(score, member)];
    assert(elements.drop_last() =~= Seq::empty());
}

/// Removing one member takes it out.
pub proof fn lemma_remove_one(set: Map<Seq<char>, i64>, member: Seq<char>)
    ensures
        set.remove_keys(seq![member].to_set()) == set.remove(member),
{
    let one = seq![member];
    assert(one[0] == member);
    assert(one.to_set() =~= set![member]);
    assert(set.remove_keys(one.to_set()) =~= set.remove(member));
}

/// A post that is written to a global set enters the ranked twin at the same
/// score when its author is ranked, and leaves the twin alone otherwise.
pub proof fn law_a_written_post_is_mirrored_for_ranked_authors(
    ranking: Map<Seq<char>, i64>,
    store: StoreModel,
    sorting: StreamSorting,
    author: Seq<char>,
    post: Seq<char>,
    score: i64,
)
    ensures
        ({
            let stage = post_index::mirrored_put_start(sorting, author, post, score);
            let sets = post_stream::sets_for(sorting);
            let key = text::post_key_of(author, post);
            let end = written(ranking, stage, store);
            &&& write_run(ranking, (WriteState { stage, store }), 3).stage is Done
            &&& end.at(sets.global) == store.at(sets.global).insert(key, score)
            &&& end.at(sets.ranked) == (if ranking.contains_key(author) {
                store.at(sets.ranked).insert(key, score)
            } else {
                store.at(sets.ranked)
            })
            &&& ranked_sync_laws::same_but(store, end, set![sets.global, sets.ranked])
        }),
{
    reveal_with_fuel(write_run, 4);
    lemma_sets_apart(sorting, sorting);
    let sets = post_stream::sets_for(sorting);
    let key = text::post_key_of(author, post);
    lemma_put_one(store.at(sets.global), key, score);
    lemma_put_one(store.at(sets.ranked), key, score);
}

/// A post that is removed leaves the global set and the ranked twin, whoever
/// its author is.
pub proof fn law_a_removed_post_leaves_both_sets(
    ranking: Map<Seq<char>, i64>,
    store: StoreModel,
    sorting: StreamSorting,
    author: Seq<char>,
    post: Seq<char>,
)
    ensures
        ({
            let stage = post_index::mirrored_remove_start(sorting, author, post);
            let sets = post_stream::sets_for(sorting);
            let key = text::post_key_of(author, post);
            let end = written(ranking, stage, store);
            &&& write_run(ranking, (WriteState { stage, store }), 3).stage is Done
            &&& end.at(sets.global) == store.at(sets.global).remove(key)
            &&& end.at(sets.ranked) == store.at(sets.ranked).remove(key)
            &&& ranked_sync_laws::same_but(store, end, set![sets.global, sets.ranked])
        }),
{
    reveal_with_fuel(write_run, 4);
    lemma_sets_apart(sorting, sorting);
    let sets = post_stream::sets_for(sorting);
    let key = text::post_key_of(author, post);
    lemma_remove_one(store.at(sets.global), key);
    lemma_remove_one(store.at(sets.ranked), key);
}

/// The engagement that a step leaves a post with.
pub open spec fn engagement_after(
    store: StoreModel,
    author: Seq<char>,
    post: Seq<char>,
    action: ScoreAction,
) -> int {
    let global = store.at(post_stream::sets_for(StreamSorting::TotalEngagement).global);
    let now = match sorted_set::score_in(global, text::post_key_of(author, post)) {
        Some(score) => score as int,
        None => 0,
    };
    sorted_set::stepped(now, action)
}

/// When a post's engagement moves, the twin follows the global score for a
/// ranked author, and is left alone otherwise.
pub proof fn law_a_moved_engagement_is_mirrored_for_ranked_authors(
    ranking: Map<Seq<char>, i64>,
    store: StoreModel,
    author: Seq<char>,
    post: Seq<char>,
    action: ScoreAction,
)
    requires
        i64::MIN <= engagement_after(store, author, post, action) <= i64::MAX,
    ensures
        ({
            let stage = post_index::engagement_step_start(author, post, action);
            let sets = post_stream::sets_for(StreamSorting::TotalEngagement);
            let key = text::post_key_of(author, post);
            let end = written(ranking, stage, store);
            let score = engagement_after(store, author, post, action) as i64;
            &&& write_run(ranking, (WriteState { stage, store }), 3).stage is Done
            &&& end.at(sets.global) == store.at(sets.global).insert(key, score)
            &&& end.at(sets.ranked) == (if ranking.contains_key(author) {
                store.at(sets.ranked).insert(key, score)
            } else {
                store.at(sets.ranked)
            })
            &&& ranked_sync_laws::same_but(store, end, set![sets.global, sets.ranked])
        }),
{
    reveal_with_fuel(write_run, 4);
    lemma_sets_apart(StreamSorting::TotalEngagement, StreamSorting::TotalEngagement);
    let sets = post_stream::sets_for(StreamSorting::TotalEngagement);
    let key = text::post_key_of(author, post);
    let score = engagement_after(store, author, post, action) as i64;
    lemma_put_one(store.at(sets.ranked), key, score);
}

/// Both twins hold what the global sets call for under `ranking`.
pub open spec fn in_line(store: StoreModel, ranking: Map<Seq<char>, i64>) -> bool {
    let timeline = store.at(post_stream::sets_for(StreamSorting::Timeline).global);
    forall|sorting: StreamSorting| #[trigger]
        store.at(post_stream::sets_for(sorting).ranked) == ranked_sync_laws::twin_of(
            timeline,
            store.at(post_stream::sets_for(sorting).global),
            ranking,
        )
}

/// A new post, written to the timeline and then to the engagement set, leaves
/// twins that were in line in line.
pub proof fn law_a_new_post_keeps_the_twins_in_line(
    ranking: Map<Seq<char>, i64>,
    store: StoreModel,
    author: Seq<char>,
    post: Seq<char>,
    indexed_at: i64,
    score: i64,
)
    requires
        in_line(store, ranking),
        !author.contains(':'),
    ensures
        ({
            let first = post_index::mirrored_put_start(
                StreamSorting::Timeline,
                author,
                post,
                indexed_at,
            );
            let second = post_index::mirrored_put_start(
                StreamSorting::TotalEngagement,
                author,
                post,
                score,
            );
            in_line(written(ranking, second, written(ranking, first, store)), ranking)
        }),
{
    let t = StreamSorting::Timeline;
    let e = StreamSorting::TotalEngagement;
    let key = text::post_key_of(author, post);
    text::lemma_author_of_post_key(author, post);
    lemma_sets_apart(t, e);
    lemma_sets_apart(e, t);
    lemma_sets_apart(t, t);
    lemma_sets_apart(e, e);
    let first = post_index::mirrored_put_start(t, author, post, indexed_at);
    let second = post_index::mirrored_put_start(e, author, post, score);
    let mid = written(ranking, first, store);
    let end = written(ranking, second, mid);
    law_a_written_post_is_mirrored_for_ranked_authors(ranking, store, t, author, post, indexed_at);
    law_a_written_post_is_mirrored_for_ranked_authors(ranking, mid, e, author, post, score);
    let sets = post_stream::sets_for(t);
    let others = post_stream::sets_for(e);
    assert(mid.at(others.global) == store.at(others.global));
    assert(mid.at(others.ranked) == store.at(others.ranked));
    assert(end.at(sets.global) == mid.at(sets.global));
    assert(end.at(sets.ranked) == mid.at(sets.ranked));
    assert(store.at(sets.ranked) == ranked_sync_laws::twin_of(
        store.at(sets.global),
        store.at(sets.global),
        ranking,
    ));
    assert(store.at(others.ranked) == ranked_sync_laws::twin_of(
        store.at(sets.global),
        store.at(others.global),
        ranking,
    ));
    assert(end.at(sets.ranked) =~= ranked_sync_laws::twin_of(
        end.at(sets.global),
        end.at(sets.global),
        ranking,
    ));
    assert(end.at(others.ranked) =~= ranked_sync_laws::twin_of(
        end.at(sets.global),
        end.at(others.global),
        ranking,
    ));
    assert forall|sorting: StreamSorting| #[trigger]
        end.at(post_stream::sets_for(sorting).ranked) == ranked_sync_laws::twin_of(
            end.at(sets.global),
            end.at(post_stream::sets_for(sorting).global),
            ranking,
        ) by {
        match sorting {
            StreamSorting::Timeline => {},
            StreamSorting::TotalEngagement => {},
        }
    }
}

/// Moving the engagement of a post that the timeline holds leaves twins that
/// were in line in line.
pub proof fn law_a_moved_engagement_keeps_the_twins_in_line(
    ranking: Map<Seq<char>, i64>,
    store: StoreModel,
    author: Seq<char>,
    post: Seq<char>,
    action: ScoreAction,
)
    requires
        in_line(store, ranking),
        !author.contains(':'),
        store.at(post_stream::sets_for(StreamSorting::Timeline).global).contains_key(
            text::post_key_of(author, post),
        ),
        i64::MIN <= engagement_after(store, author, post, action) <= i64::MAX,
    ensures
        in_line(
            written(ranking, post_index::engagement_step_start(author, post, action), store),
            ranking,
        ),
{
    let t = StreamSorting::Timeline;
    let e = StreamSorting::TotalEngagement;
    let key = text::post_key_of(author, post);
    text::lemma_author_of_post_key(author, post);
    lemma_sets_apart(t, e);
    lemma_sets_apart(e, t);
    lemma_sets_apart(t, t);
    lemma_sets_apart(e, e);
    let stage = post_index::engagement_step_start(author, post, action);
    let end = written(ranking, stage, store);
    law_a_moved_engagement_is_mirrored_for_ranked_authors(ranking, store, author, post, action);
    let sets = post_stream::sets_for(t);
    let others = post_stream::sets_for(e);
    assert(end.at(sets.global) == store.at(sets.global));
    assert(end.at(sets.ranked) == store.at(sets.ranked));
    assert(store.at(sets.ranked) == ranked_sync_laws::twin_of(
        store.at(sets.global),
        store.at(sets.global),
        ranking,
    ));
    assert(store.at(others.ranked) == ranked_sync_laws::twin_of(
        store.at(sets.global),
        store.at(others.global),
        ranking,
    ));
    assert(end.at(others.ranked) =~= ranked_sync_laws::twin_of(
        end.at(sets.global),
        end.at(others.global),
        ranking,
    ));
    assert forall|sorting: StreamSorting| #[trigger]
        end.at(post_stream::sets_for(sorting).ranked) == ranked_sync_laws::twin_of(
            end.at(sets.global),
            end.at(post_stream::sets_for(sorting).global),
            ranking,
        ) by {
        match sorting {
            StreamSorting::Timeline => {},
            StreamSorting::TotalEngagement => {},
        }
    }
}

/// A post that is removed from the timeline and from the engagement set leaves
/// twins that were in line in line.
pub proof fn law_a_removed_post_keeps_the_twins_in_line(
    ranking: Map<Seq<char>, i64>,
    store: StoreModel,
    author: Seq<char>,
    post: Seq<char>,
)
    requires
        in_line(store, ranking),
    ensures
        ({
            let first = post_index::mirrored_remove_start(StreamSorting::Timeline, author, post);
            let second = post_index::mirrored_remove_start(
                StreamSorting::TotalEngagement,
                author,
                post,
            );
            in_line(written(ranking, second, written(ranking, first, store)), ranking)
        }),
{
    let t = StreamSorting::Timeline;
    let e = StreamSorting::TotalEngagement;
    lemma_sets_apart(t, e);
    lemma_sets_apart(e, t);
    lemma_sets_apart(t, t);
    lemma_sets_apart(e, e);
    let first = post_index::mirrored_remove_start(t, author, post);
    let second = post_index::mirrored_remove_start(e, author, post);
    let mid = written(ranking, first, store);
    let end = written(ranking, second, mid);
    law_a_removed_post_leaves_both_sets(ranking, store, t, author, post);
    law_a_removed_post_leaves_both_sets(ranking, mid, e, author, post);
    let sets = post_stream::sets_for(t);
    let others = post_stream::sets_for(e);
    assert(mid.at(others.global) == store.at(others.global));
    assert(mid.at(others.ranked) == store.at(others.ranked));
    assert(end.at(sets.global) == mid.at(sets.global));
    assert(end.at(sets.ranked) == mid.at(sets.ranked));
    assert(store.at(sets.ranked) == ranked_sync_laws::twin_of(
        store.at(sets.global),
        store.at(sets.global),
        ranking,
    ));
    assert(store.at(others.ranked) == ranked_sync_laws::twin_of(
        store.at(sets.global),
        store.at(others.global),
        ranking,
    ));
    assert(end.at(sets.ranked) =~= ranked_sync_laws::twin_of(
        end.at(sets.global),
        end.at(sets.global),
        ranking,
    ));
    assert(end.at(others.ranked) =~= ranked_sync_laws::twin_of(
        end.at(sets.global),
        end.at(others.global),
        ranking,
    ));
    assert forall|sorting: StreamSorting| #[trigger]
        end.at(post_stream::sets_for(sorting).ranked) == ranked_sync_laws::twin_of(
            end.at(sets.global),
            end.at(post_stream::sets_for(sorting).global),
            ranking,
        ) by {
        match sorting {
            StreamSorting::Timeline => {},
            StreamSorting::TotalEngagement => {},
        }
    }
}

/// Every entry of a page that the store gives of a set is a member of it, at its score.
proof fn lemma_page_of_set(
    store: StoreModel,
    key: Seq<Seq<char>>,
    order: SortOrder,
    pagination: Pagination,
    page: Seq<(Seq<char>, i64)>,
)
    requires
        store.at(key).dom().finite(),
        store.reply(post_read::page_command(key, order, pagination)) == ReplyModel::Page(
            Some(page),
        ),
    ensures
        forall|i: int|
            0 <= i < page.len() ==> sorted_set::score_in(store.at(key), (#[trigger] page[i]).0)
                == Some(page[i].1),
{
    let set = store.at(key);
    sorted_set::lemma_listing(set);
    let list = match order {
        SortOrder::Ascending => sorted_set::listing(set),
        SortOrder::Descending => sorted_set::listing(set).reverse(),
    };
    let keep = |entry: (Seq<char>, i64)|
        sorted_set::in_bounds(entry.1, pagination.start, pagination.end);
    let kept = list.filter(keep);
    assert(sorted_set::in_range(set, pagination.start, pagination.end, order) == kept);
    assert(page == sorted_set::window(
        kept,
        post_read::or_zero(pagination.skip),
        post_read::counted(pagination.limit),
    ));
    assert forall|i: int| 0 <= i < page.len() implies sorted_set::score_in(
        set,
        (#[trigger] page[i]).0,
    ) == Some(page[i].1) by {
        let skip = post_read::or_zero(pagination.skip);
        let at = if skip <= kept.len() {
            skip as int
        } else {
            kept.len() as int
        };
        assert(at + i < kept.len() && page[i] == kept[at + i]);
        assert(kept.contains(page[i]));
        list.lemma_filter_contains_rev(keep, page[i]);
        let j = list.index_of(page[i]);
        let listed = sorted_set::listing(set);
        if order == SortOrder::Descending {
            assert(list[j] == listed[listed.len() - 1 - j]);
        }
    }
}

/// While a ranking exists and the twins are in line, a page of a global stream
/// shows posts by ranked authors alone.
pub proof fn law_a_global_page_hides_unranked_authors(
    ranking: Map<Seq<char>, i64>,
    store: StoreModel,
    sorting: StreamSorting,
    order: SortOrder,
    pagination: Pagination,
    fallback: Option<GraphModel>,
    page: Seq<(Seq<char>, i64)>,
    keys: KeysModel,
)
    requires
        in_line(store, ranking),
        store.at(post_stream::sets_for(sorting).ranked).dom().finite(),
        ({
            let asked = AfterModel::Global { sorting, order, pagination, fallback };
            let stage = StageModel::Ranking(asked).next(HeardModel::RankingBuilt(Some(true)));
            &&& stage.action() matches Some(post_read::AskModel::Page(command))
            &&& store.reply(command) == ReplyModel::Page(Some(page))
            &&& stage.next(HeardModel::Page(Some(page))) == StageModel::Done(Some(keys))
        }),
    ensures
        forall|i: int|
            0 <= i < keys.post_keys.len() ==> ranking.contains_key(
                text::author_of(#[trigger] keys.post_keys[i]),
            ),
{
    let key = post_stream::sets_for(sorting).ranked;
    lemma_page_of_set(store, key, order, pagination, page);
    assert(store.at(key) == ranked_sync_laws::twin_of(
        store.at(post_stream::sets_for(StreamSorting::Timeline).global),
        store.at(post_stream::sets_for(sorting).global),
        ranking,
    ));
    assert forall|i: int| 0 <= i < keys.post_keys.len() implies ranking.contains_key(
        text::author_of(#[trigger] keys.post_keys[i]),
    ) by {
        assert(keys.post_keys[i] == page[i].0);
    }
}

/// A ranked set scores its posts as the global set does, so a cursor taken from
/// a page of one resumes on the other.
pub proof fn law_twins_carry_the_global_scores(
    ranking: Map<Seq<char>, i64>,
    store: StoreModel,
    sorting: StreamSorting,
    post: Seq<char>,
)
    requires
        in_line(store, ranking),
        store.at(post_stream::sets_for(sorting).ranked).contains_key(post),
    ensures
        sorted_set::score_in(store.at(post_stream::sets_for(sorting).ranked), post)
            == sorted_set::score_in(store.at(post_stream::sets_for(sorting).global), post),
{
    assert(store.at(post_stream::sets_for(sorting).ranked) == ranked_sync_laws::twin_of(
        store.at(post_stream::sets_for(StreamSorting::Timeline).global),
        store.at(post_stream::sets_for(sorting).global),
        ranking,
    ));
}

/// Where the ranking cannot be asked for, a stream is served unfiltered.
pub proof fn law_an_unavailable_ranking_filters_nothing(stage: StageModel)
    ensures
        stage.next(HeardModel::RankingBuilt(None)) == stage.next(
            HeardModel::RankingBuilt(Some(false)),
        ),
{
}

/// A ranking without its ranked set is served by the graph, which filters on
/// its own trust scores as long as the ranking is there.
pub proof fn law_a_missing_ranked_set_is_served_by_the_graph(
    sorting: StreamSorting,
    order: SortOrder,
    pagination: Pagination,
)
    ensures
        ({
            let query = post_read::global_query(sorting, order, None, pagination);
            let asked = post_read::read_start(query);
            let page = asked.next(HeardModel::RankingBuilt(Some(true)));
            let missing = page.next(HeardModel::Page(None));
            missing.next(HeardModel::RankingBuilt(Some(true))) == StageModel::Graph(
                query.filtered(true),
            )
        }),
{
}

/// A kind filter, and several tags on a global stream, are served by the graph.
pub proof fn law_kinds_and_several_tags_read_the_graph(query: GraphModel)
    requires
        !(query.source is Collection),
        query.kind is Some || (query.source is All && (query.tags matches Some(tags)
            && tags.len() != 1)),
    ensures
        post_read::read_start(query) == post_read::graph_start(query),
{
}

/// No sorted set backs the collections of a post or a Web of Trust: the graph
/// alone serves them.
pub proof fn law_collections_of_a_post_and_trust_read_the_graph(query: GraphModel)
    requires
        query.source is PostCollections || query.source is Wot || query.source is WotDomain,
    ensures
        post_read::read_start(query) == StageModel::Graph(query.filtered(false)),
{
}

proof fn lemma_others(users: Seq<Seq<char>>, observer: Seq<char>, n: nat)
    requires
        n <= users.len(),
    ensures
        forall|i: int|
            0 <= i < post_read::others_in(users, observer, n).len()
                ==> #[trigger] post_read::others_in(users, observer, n)[i] != observer
                && users.contains(post_read::others_in(users, observer, n)[i]),
    decreases n,
{
    if n > 0 {
        lemma_others(users, observer, (n - 1) as nat);
        let before = post_read::others_in(users, observer, (n - 1) as nat);
        let others = post_read::others_in(users, observer, n);
        assert forall|i: int| 0 <= i < others.len() implies #[trigger] others[i] != observer
            && users.contains(others[i]) by {
            if i < before.len() {
                assert(others[i] == before[i]);
            } else {
                assert(users[n - 1] == others[i]);
            }
        }
    }
}

/// A stream by reach is drawn from the users of the reach that was told, at most
/// a fixed number of them, and never from the observer.
pub proof fn law_a_reach_leaves_the_observer_out(
    list: post_read::FollowList,
    observer: Seq<char>,
    order: SortOrder,
    pagination: Pagination,
    told: Seq<Seq<char>>,
    users: Seq<Seq<char>>,
)
    requires
        (StageModel::Users { list, user_id: observer, order, pagination }).next(
            HeardModel::Users(Some(told)),
        ) == (StageModel::UserPosts { users, order, pagination }),
    ensures
        users.len() <= post_read::MAX_SOURCE_USERS,
        forall|i: int|
            0 <= i < users.len() ==> #[trigger] users[i] != observer && told.contains(users[i]),
{
    lemma_others(told, observer, told.len());
    let others = post_read::others_in(told, observer, told.len());
    assert forall|i: int| 0 <= i < users.len() implies #[trigger] users[i] != observer
        && told.contains(users[i]) by {
        assert(users[i] == others[i]);
    }
}

/// Two pages that follow each other make up the longer page.
pub proof fn law_pages_follow_each_other<T>(list: Seq<T>, skip: nat, first: nat, second: nat)
    ensures
        sorted_set::window(list, skip, Some(first)) + sorted_set::window(
            list,
            skip + first,
            Some(second),
        ) == sorted_set::window(list, skip, Some(first + second)),
{
    assert(sorted_set::window(list, skip, Some(first)) + sorted_set::window(
        list,
        skip + first,
        Some(second),
    ) =~= sorted_set::window(list, skip, Some(first + second)));
}

/// A filter keeps the order of a list from high to low.
proof fn lemma_filter_sorted(
    list: Seq<(Seq<char>, i64)>,
    keep: spec_fn((Seq<char>, i64)) -> bool,
)
    requires
        forall|i: int, j: int| 0 <= i <= j < list.len() ==> list[i].1 >= list[j].1,
    ensures
        forall|i: int, j: int|
            0 <= i <= j < list.filter(keep).len() ==> list.filter(keep)[i].1 >= list.filter(
                keep,
            )[j].1,
        forall|i: int| 0 <= i < list.filter(keep).len() ==> keep(#[trigger] list.filter(keep)[i]),
    decreases list.len(),
{
    reveal(Seq::filter);
    if list.len() > 0 {
        let fewer = list.drop_last();
        assert(forall|i: int| 0 <= i < fewer.len() ==> #[trigger] fewer[i] == list[i]);
        lemma_filter_sorted(fewer, keep);
        let kept = fewer.filter(keep);
        let all = list.filter(keep);
        assert forall|i: int, j: int| 0 <= i <= j < all.len() implies all[i].1 >= all[j].1 by {
            if j == kept.len() && i < j {
                assert(kept.contains(kept[i]));
                fewer.lemma_filter_contains_rev(keep, kept[i]);
                let at = fewer.index_of(kept[i]);
                assert(list[at] == kept[i]);
            }
        }
    }
}

/// Filtering by two conditions at once is filtering by one after the other.
proof fn lemma_filter_twice<T>(
    list: Seq<T>,
    first: spec_fn(T) -> bool,
    second: spec_fn(T) -> bool,
    both: spec_fn(T) -> bool,
)
    requires
        forall|entry: T| #[trigger] both(entry) == (first(entry) && second(entry)),
    ensures
        list.filter(both) == list.filter(first).filter(second),
    decreases list.len(),
{
    reveal(Seq::filter);
    if list.len() > 0 {
        let fewer = list.drop_last();
        lemma_filter_twice(fewer, first, second, both);
        let once = fewer.filter(first);
        if first(list.last()) {
            assert(list.filter(first) == once.push(list.last()));
            assert(once.push(list.last()).drop_last() =~= once);
        }
    }
}

/// A read from the score of the entry before `at` on begins with the entries of
/// that score: as many as are tied with it stand before `at`.
proof fn lemma_from_cursor(
    set: Map<Seq<char>, i64>,
    start: Option<i64>,
    end: Option<i64>,
    at: int,
    cursor: i64,
)
    requires
        set.dom().finite(),
        0 < at <= sorted_set::in_range(set, start, end, SortOrder::Descending).len(),
        cursor == sorted_set::in_range(set, start, end, SortOrder::Descending)[at - 1].1,
    ensures
        ({
            let all = sorted_set::in_range(set, start, end, SortOrder::Descending);
            let ties = ranked_sync::trailing(all.take(at), cursor);
            &&& 0 < ties <= at
            &&& sorted_set::in_range(set, Some(cursor), end, SortOrder::Descending) == all.skip(
                at - ties,
            )
        }),
{
    sorted_set::lemma_listing(set);
    let listed = sorted_set::listing(set);
    let list = listed.reverse();
    let within = |entry: (Seq<char>, i64)| sorted_set::in_bounds(entry.1, start, end);
    let beyond = |entry: (Seq<char>, i64)| sorted_set::in_bounds(entry.1, Some(cursor), end);
    let low = |entry: (Seq<char>, i64)| entry.1 <= cursor;
    let all = list.filter(within);
    assert(all == sorted_set::in_range(set, start, end, SortOrder::Descending));
    assert forall|i: int, j: int| 0 <= i <= j < list.len() implies list[i].1 >= list[j].1 by {
        assert(list[i] == listed[listed.len() - 1 - i] && list[j] == listed[listed.len() - 1 - j]);
    }
    lemma_filter_sorted(list, within);
    assert(within(all[at - 1]));
    lemma_filter_twice(list, within, low, beyond);
    let taken = all.take(at);
    ranked_sync_laws::lemma_trailing(taken, cursor);
    let ties = ranked_sync::trailing(taken, cursor) as int;
    assert(taken.last() == all[at - 1]);
    let from = at - ties;
    let high = all.take(from);
    let rest = all.skip(from);
    assert(all =~= high + rest);
    Seq::filter_distributes_over_add(high, rest, low);
    assert forall|i: int| 0 <= i < high.len() implies !low(#[trigger] high[i]) by {
        assert(high[i] == all[i] && taken[from - 1] == all[from - 1]);
        assert(all[from - 1].1 >= all[at - 1].1);
    }
    assert forall|i: int| 0 <= i < rest.len() implies low(#[trigger] rest[i]) by {
        assert(rest[i] == all[from + i]);
        if from + i < at {
            assert(taken[from + i] == all[from + i]);
        } else {
            assert(all[at - 1].1 >= all[from + i].1);
        }
    }
    sorted_set::lemma_filter_none(high, low);
    sorted_set::lemma_filter_all(rest, low);
    assert(Seq::<(Seq<char>, i64)>::empty() + rest =~= rest);
}

/// The entries of a set that a stream reads for a page, highest score first.
pub open spec fn entries_of(
    store: StoreModel,
    key: Seq<Seq<char>>,
    pagination: Pagination,
) -> Seq<(Seq<char>, i64)> {
    match store.reply(post_read::page_command(key, SortOrder::Descending, pagination)) {
        ReplyModel::Page(page) => post_read::page_or_empty(page),
        _ => Seq::empty(),
    }
}

/// The cursor that a page ends with resumes the stream right behind the page:
/// read from the cursor's score on, and with the entries skipped that were read
/// at that score already, the next page neither repeats nor misses a post.
///
/// A cursor is never negative, so a page that ends below zero has no cursor of
/// its own.
pub proof fn law_a_cursor_resumes_where_its_page_ended(
    store: StoreModel,
    key: Seq<Seq<char>>,
    first: Pagination,
    skip: usize,
    limit: usize,
)
    requires
        store.at(key).dom().finite(),
        ({
            let page = entries_of(store, key, first);
            let all = sorted_set::in_range(
                store.at(key),
                first.start,
                first.end,
                SortOrder::Descending,
            );
            let read = all.take((post_read::or_zero(first.skip) + page.len()) as int);
            &&& page.len() > 0
            &&& page.last().1 >= 0
            &&& skip == ranked_sync::trailing(read, page.last().1)
        }),
    ensures
        ({
            let page = entries_of(store, key, first);
            let cursor = post_stream::keys_model(page).last_post_score->0;
            let next = entries_of(
                store,
                key,
                Pagination {
                    skip: Some(skip),
                    limit: Some(limit),
                    start: Some(cursor as i64),
                    end: first.end,
                },
            );
            page + next == sorted_set::window(
                sorted_set::in_range(
                    store.at(key),
                    first.start,
                    first.end,
                    SortOrder::Descending,
                ),
                post_read::or_zero(first.skip),
                Some(page.len() + limit as nat),
            )
        }),
{
    let set = store.at(key);
    let all = sorted_set::in_range(set, first.start, first.end, SortOrder::Descending);
    let page = entries_of(store, key, first);
    let from = post_read::or_zero(first.skip);
    assert(store.exists_at(key));
    assert(page == sorted_set::window(all, from, post_read::counted(first.limit)));
    assert(from < all.len());
    let at = from + page.len();
    let cursor = page.last().1;
    assert(page.last() == all[at - 1]);
    lemma_from_cursor(set, first.start, first.end, at as int, cursor);
    let rest = sorted_set::in_range(set, Some(cursor), first.end, SortOrder::Descending);
    assert(rest == all.skip(at - skip));
    let second = Pagination {
        skip: Some(skip),
        limit: Some(limit),
        start: Some(cursor),
        end: first.end,
    };
    let next = entries_of(store, key, second);
    assert(next == sorted_set::window(rest, skip as nat, Some(limit as nat)));
    assert(next =~= sorted_set::window(all, at, Some(limit as nat)));
    assert(page =~= sorted_set::window(all, from, Some(page.len())));
    law_pages_follow_each_other(all, from, page.len(), limit as nat);
    assert(post_stream::keys_model(page).last_post_score == Some(cursor as u64));
    assert((cursor as u64) as i64 == cursor);
}

/// The posts of a reach come out highest score first, whichever order each
/// user's posts were read in, and posts of equal score in the order of the users.
pub proof fn law_a_reach_page_is_sorted(
    users: Seq<Seq<char>>,
    pages: Seq<Option<Seq<(Seq<char>, i64)>>>,
    n: nat,
    skip: nat,
    limit: Option<nat>,
)
    ensures
        ({
            let posts = post_read::posts_of_users(users, pages, n);
            &&& scored::is_by_score(posts, scored::by_score(posts))
            &&& scored::descending(sorted_set::window(scored::by_score(posts), skip, limit))
        }),
{
    let posts = post_read::posts_of_users(users, pages, n);
    let sorted = scored::by_score(posts);
    scored::lemma_by_score(posts);
    let page = sorted_set::window(sorted, skip, limit);
    let from = if skip <= sorted.len() {
        skip as int
    } else {
        sorted.len() as int
    };
    assert forall|i: int, j: int| 0 <= i <= j < page.len() implies page[i].0 >= page[j].0 by {
        assert(page[i] == sorted[from + i] && page[j] == sorted[from + j]);
    }
}

} // verus!
