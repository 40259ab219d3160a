//! What a write to the sorted sets of posts changes, and what the streams show
//! of it afterwards.
use crate::post_index;
use crate::post_index::{WriteAsk, WriteModel};
use crate::post_laws;
use crate::post_laws::WriteState;
use crate::post_read::GraphModel;
use crate::post_stream;
use crate::post_stream::{PostCounts, SourceModel};
use crate::ranked_sync_laws;
use crate::read_laws;
use crate::read_laws::World;
use crate::sorted_set::{CommandModel, ScoreAction, SortOrder, StoreModel};
use crate::types::{Pagination, StreamSorting};
use vstd::prelude::*;

verus! {

/// The member that names a post in the indexes: its author, a colon, its id.
pub open spec fn named(author: Seq<char>, post: Seq<char>) -> Seq<char> {
    author + seq![':'] + post
}

/// The score at which a write puts a post into the global set of a sort.
pub open spec fn puts_at(
    stage: WriteModel,
    sorting: StreamSorting,
    author: Seq<char>,
    post: Seq<char>,
    score: int,
) -> bool {
    &&& stage.action() matches Some(WriteAsk::Store(CommandModel::Put { key, elements }))
    &&& key == post_stream::sets_for(sorting).global
    &&& elements.len() == 1
    &&& elements[0].0 == score
    &&& elements[0].1 == named(author, post)
}

/// One more tag, one more reply or one more repost raises the engagement that
/// is written by exactly one, whatever the other counts are. A post without any
/// is written at zero, and how many different tags it has does not count.
pub proof fn law_each_tag_reply_and_repost_counts_once(
    counts: PostCounts,
    more: PostCounts,
    author: Seq<char>,
    post: Seq<char>,
)
    requires
        0 <= post_index::engagement(counts) < u32::MAX,
        ({
            ||| more.tags == counts.tags + 1 && more.replies == counts.replies && more.reposts
                == counts.reposts
            ||| more.tags == counts.tags && more.replies == counts.replies + 1 && more.reposts
                == counts.reposts
            ||| more.tags == counts.tags && more.replies == counts.replies && more.reposts
                == counts.reposts + 1
        }),
    ensures
        post_index::engagement(more) == post_index::engagement(counts) + 1,
        exists|score: int|
            #![trigger puts_at(
                post_index::engagement_put(counts, author, post),
                StreamSorting::TotalEngagement,
                author,
                post,
                score,
            )]
            puts_at(
                post_index::engagement_put(counts, author, post),
                StreamSorting::TotalEngagement,
                author,
                post,
                score,
            ) && puts_at(
                post_index::engagement_put(more, author, post),
                StreamSorting::TotalEngagement,
                author,
                post,
                score + 1,
            ),
{
    let score = post_index::engagement(counts);
    assert(puts_at(
        post_index::engagement_put(counts, author, post),
        StreamSorting::TotalEngagement,
        author,
        post,
        score,
    ));
    assert(puts_at(
        post_index::engagement_put(more, author, post),
        StreamSorting::TotalEngagement,
        author,
        post,
        score + 1,
    ));
}

/// The engagement that a post is written at is the sum of its tags, its replies
/// and its reposts: none of them is left out, and nothing else counts.
pub proof fn law_engagement_is_tags_and_replies_and_reposts(
    counts: PostCounts,
    author: Seq<char>,
    post: Seq<char>,
)
    requires
        counts.tags + counts.replies + counts.reposts <= u32::MAX,
    ensures
        puts_at(
            post_index::engagement_put(counts, author, post),
            StreamSorting::TotalEngagement,
            author,
            post,
            counts.tags + counts.replies + counts.reposts,
        ),
        counts.tags == 0 && counts.replies == 0 && counts.reposts == 0 ==> puts_at(
            post_index::engagement_put(counts, author, post),
            StreamSorting::TotalEngagement,
            author,
            post,
            0,
        ),
        post_index::engagement(counts) <= u32::MAX,
{
}

/// Moving a post's engagement up by one leaves it where writing it with one more
/// tag, reply or repost would: in the global set, and in the twin.
pub proof fn law_a_step_counts_as_one_more(
    ranking: Map<Seq<char>, i64>,
    store: StoreModel,
    counts: PostCounts,
    more: PostCounts,
    author: Seq<char>,
    post: Seq<char>,
)
    requires
        counts.tags + counts.replies + counts.reposts < u32::MAX,
        more.tags + more.replies + more.reposts == counts.tags + counts.replies + counts.reposts
            + 1,
    ensures
        ({
            let sets = post_stream::sets_for(StreamSorting::TotalEngagement);
            let one = ScoreAction::Increment(1);
            let put = post_laws::written(
                ranking,
                post_index::engagement_put(counts, author, post),
                store,
            );
            let moved = post_laws::written(
                ranking,
                post_index::engagement_step_start(author, post, one),
                put,
            );
            let anew = post_laws::written(
                ranking,
                post_index::engagement_put(more, author, post),
                store,
            );
            moved.at(sets.global) == anew.at(sets.global) && moved.at(sets.ranked) == anew.at(
                sets.ranked,
            )
        }),
{
    let sorting = StreamSorting::TotalEngagement;
    let sets = post_stream::sets_for(sorting);
    let key = named(author, post);
    let one = ScoreAction::Increment(1);
    let score = post_index::engagement(counts) as i64;
    let next = post_index::engagement(more) as i64;
    let put = post_laws::written(
        ranking,
        post_index::engagement_put(counts, author, post),
        store,
    );
    post_laws::law_a_written_post_is_mirrored_for_ranked_authors(
        ranking,
        store,
        sorting,
        author,
        post,
        score,
    );
    post_laws::law_a_written_post_is_mirrored_for_ranked_authors(
        ranking,
        store,
        sorting,
        author,
        post,
        next,
    );
    assert(post_laws::engagement_after(put, author, post, one) == score + 1);
    post_laws::law_a_moved_engagement_is_mirrored_for_ranked_authors(
        ranking,
        put,
        author,
        post,
        one,
    );
    assert(store.at(sets.global).insert(key, score).insert(key, next) =~= store.at(
        sets.global,
    ).insert(key, next));
    assert(store.at(sets.ranked).insert(key, score).insert(key, next) =~= store.at(
        sets.ranked,
    ).insert(key, next));
}

/// What a write to one set without a twin does: it is over, one member of that
/// set is there at a score, or gone, and nothing else has changed.
pub open spec fn changes_one(
    ranking: Map<Seq<char>, i64>,
    stage: WriteModel,
    store: StoreModel,
    key: Seq<Seq<char>>,
    member: Seq<char>,
    score: Option<i64>,
) -> bool {
    let end = post_laws::written(ranking, stage, store);
    &&& post_laws::write_run(ranking, WriteState { stage, store }, 3).stage is Done
    &&& end.at(key) == (match score {
        Some(at) => store.at(key).insert(member, at),
        None => store.at(key).remove(member),
    })
    &&& forall|other: Seq<Seq<char>>| other != key ==> #[trigger] end.at(other) == store.at(other)
}

/// Each of the writes to the posts and replies of an author, to the replies to a
/// post and to a user's bookmarks changes the set of exactly that author, post or
/// user: it puts the post there at its time, or takes it out, and touches nothing
/// else.
pub proof fn law_a_write_changes_its_own_set_alone(
    ranking: Map<Seq<char>, i64>,
    store: StoreModel,
    user: Seq<char>,
    author: Seq<char>,
    post: Seq<char>,
    parent: (Seq<char>, Seq<char>),
    at: i64,
)
    ensures
        changes_one(
            ranking,
            post_index::own_post_put(author, post, at),
            store,
            post_stream::author_posts_key(author),
            post,
            Some(at),
        ),
        changes_one(
            ranking,
            post_index::own_post_remove(author, post),
            store,
            post_stream::author_posts_key(author),
            post,
            None,
        ),
        changes_one(
            ranking,
            post_index::own_reply_put(author, post, at),
            store,
            post_stream::author_replies_key(author),
            post,
            Some(at),
        ),
        changes_one(
            ranking,
            post_index::own_reply_remove(author, post),
            store,
            post_stream::author_replies_key(author),
            post,
            None,
        ),
        changes_one(
            ranking,
            post_index::reply_put(parent, author, post, at),
            store,
            post_stream::post_replies_key(parent.0, parent.1),
            named(author, post),
            Some(at),
        ),
        changes_one(
            ranking,
            post_index::reply_remove(parent, author, post),
            store,
            post_stream::post_replies_key(parent.0, parent.1),
            named(author, post),
            None,
        ),
        changes_one(
            ranking,
            post_index::bookmark_put(user, author, post, at),
            store,
            post_stream::bookmarks_key(user),
            named(author, post),
            Some(at),
        ),
        changes_one(
            ranking,
            post_index::bookmark_remove(user, author, post),
            store,
            post_stream::bookmarks_key(user),
            named(author, post),
            None,
        ),
{
    lemma_changes_one(ranking, store, post_stream::author_posts_key(author), post, at);
    lemma_changes_one(ranking, store, post_stream::author_replies_key(author), post, at);
    lemma_changes_one(
        ranking,
        store,
        post_stream::post_replies_key(parent.0, parent.1),
        named(author, post),
        at,
    );
    lemma_changes_one(ranking, store, post_stream::bookmarks_key(user), named(author, post), at);
}

proof fn lemma_changes_one(
    ranking: Map<Seq<char>, i64>,
    store: StoreModel,
    key: Seq<Seq<char>>,
    member: Seq<char>,
    score: i64,
)
    ensures
        changes_one(
            ranking,
            post_index::put_start(key, member, score),
            store,
            key,
            member,
            Some(score),
        ),
        changes_one(ranking, post_index::remove_start(key, member), store, key, member, None),
{
    reveal_with_fuel(post_laws::write_run, 4);
    post_laws::lemma_put_one(store.at(key), member, score);
    post_laws::lemma_remove_one(store.at(key), member);
}

/// The stream of a source from its first entry to its last, in an order.
pub open spec fn whole_stream(source: SourceModel, order: SortOrder) -> GraphModel {
    GraphModel {
        source,
        sorting: StreamSorting::Timeline,
        order,
        tags: None,
        pagination: Pagination { skip: None, limit: None, start: None, end: None },
        kind: None,
        ranked_only: false,
    }
}

/// Whether the whole stream of a source shows a post.
pub open spec fn stream_shows(
    world: World,
    source: SourceModel,
    order: SortOrder,
    author: Seq<char>,
    post: Seq<char>,
) -> bool {
    read_laws::keys_read(world, whole_stream(source, order)) matches Some(keys)
        && keys.post_keys.contains(named(author, post))
}

/// The world with another store.
pub open spec fn with_store(world: World, store: StoreModel) -> World {
    World { store, ..world }
}

/// An entry of a set is shown by the stream of that set, and what is no entry is
/// not.
proof fn lemma_shown(
    world: World,
    source: SourceModel,
    order: SortOrder,
    key: Seq<Seq<char>>,
    author: Seq<char>,
    post: Seq<char>,
)
    requires
        world.store.at(key).dom().finite(),
        match source {
            SourceModel::Author { author_id } => key == post_stream::author_posts_key(author_id)
                && author == author_id,
            SourceModel::AuthorReplies { author_id } => key == post_stream::author_replies_key(
                author_id,
            ) && author == author_id,
            SourceModel::PostReplies { author_id, post_id } => key == post_stream::post_replies_key(
                author_id,
                post_id,
            ),
            SourceModel::Bookmarks { observer_id } => key == post_stream::bookmarks_key(
                observer_id,
            ),
            _ => false,
        },
    ensures
        stream_shows(world, source, order, author, post) == world.store.at(key).contains_key(
            match source {
                SourceModel::Author { .. } => post,
                SourceModel::AuthorReplies { .. } => post,
                _ => named(author, post),
            },
        ),
{
    let query = whole_stream(source, order);
    let entries = read_laws::law_a_stream_shows_the_entries_of_its_own_set(world, query);
    let set = world.store.at(key);
    read_laws::law_a_page_of_a_set_is_in_order_and_within_bounds(
        set,
        order,
        query.pagination,
        entries,
    );
    let keys = (read_laws::keys_read(world, query)->0).post_keys;
    let wanted = named(author, post);
    let own = source is Author || source is AuthorReplies;
    let member = if own {
        post
    } else {
        wanted
    };
    if keys.contains(wanted) {
        let i = keys.index_of(wanted);
        assert(set.contains_key(entries[i].0));
        if own {
            assert(wanted == author + seq![':'] + entries[i].0);
            assert(wanted.skip(author.len() as int + 1) =~= post);
            assert((author + seq![':'] + entries[i].0).skip(author.len() as int + 1)
                =~= entries[i].0);
        }
    }
    if set.contains_key(member) {
        assert(entries.contains((member, set[member])));
        let i = entries.index_of((member, set[member]));
        assert(keys[i] == wanted);
    }
}

/// What was added is read back, and what was removed is not: a root post in the
/// stream of its author, a reply among the author's replies and among those to
/// its parent, and a bookmark among those of the user who made it.
pub proof fn law_what_is_added_is_read_back_until_it_is_removed(
    ranking: Map<Seq<char>, i64>,
    world: World,
    order: SortOrder,
    user: Seq<char>,
    author: Seq<char>,
    post: Seq<char>,
    parent: (Seq<char>, Seq<char>),
    at: i64,
)
    requires
        world.store.at(post_stream::author_posts_key(author)).dom().finite(),
        world.store.at(post_stream::author_replies_key(author)).dom().finite(),
        world.store.at(post_stream::post_replies_key(parent.0, parent.1)).dom().finite(),
        world.store.at(post_stream::bookmarks_key(user)).dom().finite(),
    ensures
        ({
            let own = SourceModel::Author { author_id: author };
            let put = post_laws::written(
                ranking,
                post_index::own_post_put(author, post, at),
                world.store,
            );
            let gone = post_laws::written(ranking, post_index::own_post_remove(author, post), put);
            &&& stream_shows(with_store(world, put), own, order, author, post)
            &&& !stream_shows(with_store(world, gone), own, order, author, post)
        }),
        ({
            let own = SourceModel::AuthorReplies { author_id: author };
            let put = post_laws::written(
                ranking,
                post_index::own_reply_put(author, post, at),
                world.store,
            );
            let gone = post_laws::written(ranking, post_index::own_reply_remove(author, post), put);
            &&& stream_shows(with_store(world, put), own, order, author, post)
            &&& !stream_shows(with_store(world, gone), own, order, author, post)
        }),
        ({
            let replies = SourceModel::PostReplies { author_id: parent.0, post_id: parent.1 };
            let put = post_laws::written(
                ranking,
                post_index::reply_put(parent, author, post, at),
                world.store,
            );
            let gone = post_laws::written(
                ranking,
                post_index::reply_remove(parent, author, post),
                put,
            );
            &&& stream_shows(with_store(world, put), replies, order, author, post)
            &&& !stream_shows(with_store(world, gone), replies, order, author, post)
        }),
        ({
            let bookmarks = SourceModel::Bookmarks { observer_id: user };
            let put = post_laws::written(
                ranking,
                post_index::bookmark_put(user, author, post, at),
                world.store,
            );
            let gone = post_laws::written(
                ranking,
                post_index::bookmark_remove(user, author, post),
                put,
            );
            &&& stream_shows(with_store(world, put), bookmarks, order, author, post)
            &&& !stream_shows(with_store(world, gone), bookmarks, order, author, post)
        }),
{
    let store = world.store;
    law_a_write_changes_its_own_set_alone(ranking, store, user, author, post, parent, at);
    let posts = post_stream::author_posts_key(author);
    let a = post_laws::written(ranking, post_index::own_post_put(author, post, at), store);
    law_a_write_changes_its_own_set_alone(ranking, a, user, author, post, parent, at);
    let b = post_laws::written(ranking, post_index::own_post_remove(author, post), a);
    let own = SourceModel::Author { author_id: author };
    lemma_shown(with_store(world, a), own, order, posts, author, post);
    lemma_shown(with_store(world, b), own, order, posts, author, post);
    let replies = post_stream::author_replies_key(author);
    let a = post_laws::written(ranking, post_index::own_reply_put(author, post, at), store);
    law_a_write_changes_its_own_set_alone(ranking, a, user, author, post, parent, at);
    let b = post_laws::written(ranking, post_index::own_reply_remove(author, post), a);
    let own = SourceModel::AuthorReplies { author_id: author };
    lemma_shown(with_store(world, a), own, order, replies, author, post);
    lemma_shown(with_store(world, b), own, order, replies, author, post);
    let thread = post_stream::post_replies_key(parent.0, parent.1);
    let a = post_laws::written(ranking, post_index::reply_put(parent, author, post, at), store);
    law_a_write_changes_its_own_set_alone(ranking, a, user, author, post, parent, at);
    let b = post_laws::written(ranking, post_index::reply_remove(parent, author, post), a);
    let source = SourceModel::PostReplies { author_id: parent.0, post_id: parent.1 };
    lemma_shown(with_store(world, a), source, order, thread, author, post);
    lemma_shown(with_store(world, b), source, order, thread, author, post);
    let marks = post_stream::bookmarks_key(user);
    let a = post_laws::written(ranking, post_index::bookmark_put(user, author, post, at), store);
    law_a_write_changes_its_own_set_alone(ranking, a, user, author, post, parent, at);
    let b = post_laws::written(ranking, post_index::bookmark_remove(user, author, post), a);
    let source = SourceModel::Bookmarks { observer_id: user };
    lemma_shown(with_store(world, a), source, order, marks, author, post);
    lemma_shown(with_store(world, b), source, order, marks, author, post);
}

/// No two of the sets of posts are one: not those of different authors, posts or
/// users, not those of different kinds, and none is a global set or a twin.
pub proof fn law_every_set_of_posts_is_its_own(
    a: Seq<char>,
    b: Seq<char>,
    p: (Seq<char>, Seq<char>),
    q: (Seq<char>, Seq<char>),
    sorting: StreamSorting,
)
    ensures
        a != b ==> post_stream::author_posts_key(a) != post_stream::author_posts_key(b),
        a != b ==> post_stream::author_replies_key(a) != post_stream::author_replies_key(b),
        a != b ==> post_stream::bookmarks_key(a) != post_stream::bookmarks_key(b),
        p != q ==> post_stream::post_replies_key(p.0, p.1) != post_stream::post_replies_key(
            q.0,
            q.1,
        ),
        post_stream::author_posts_key(a) != post_stream::author_replies_key(b),
        post_stream::author_posts_key(a) != post_stream::bookmarks_key(b),
        post_stream::author_replies_key(a) != post_stream::bookmarks_key(b),
        post_stream::author_posts_key(a) != post_stream::post_replies_key(q.0, q.1),
        post_stream::author_replies_key(a) != post_stream::post_replies_key(q.0, q.1),
        post_stream::bookmarks_key(a) != post_stream::post_replies_key(q.0, q.1),
        post_stream::author_posts_key(a) != post_stream::sets_for(sorting).global,
        post_stream::author_replies_key(a) != post_stream::sets_for(sorting).global,
        post_stream::bookmarks_key(a) != post_stream::sets_for(sorting).global,
        post_stream::author_posts_key(a) != post_stream::sets_for(sorting).ranked,
        post_stream::author_replies_key(a) != post_stream::sets_for(sorting).ranked,
        post_stream::bookmarks_key(a) != post_stream::sets_for(sorting).ranked,
        post_stream::post_replies_key(q.0, q.1) != post_stream::sets_for(sorting).global,
        post_stream::post_replies_key(q.0, q.1) != post_stream::sets_for(sorting).ranked,
{
    reveal_strlit("Posts");
    reveal_strlit("Bookmarks");
    reveal_strlit("User");
    reveal_strlit("Global");
    reveal_strlit("AuthorParents");
    reveal_strlit("AuthorReplies");
    reveal_strlit("PostReplies");
    assert("Posts"@.len() == 5 && "Bookmarks"@.len() == 9 && "Global"@.len() == 6
        && "PostReplies"@.len() == 11);
    assert("AuthorParents"@.len() == 13 && "AuthorReplies"@.len() == 13 && "AuthorParents"@[6]
        == 'P' && "AuthorReplies"@[6] == 'R');
    let posts = post_stream::author_posts_key(a);
    let replies = post_stream::author_replies_key(b);
    assert(posts[1] == "AuthorParents"@ && replies[1] == "AuthorReplies"@);
    assert(post_stream::author_replies_key(a)[1] == "AuthorReplies"@);
    assert(post_stream::author_posts_key(a)[2] == a && post_stream::author_posts_key(b)[2] == b);
    assert(post_stream::author_replies_key(a)[2] == a && replies[2] == b);
    assert(post_stream::bookmarks_key(a)[2] == a && post_stream::bookmarks_key(b)[2] == b);
    assert(post_stream::bookmarks_key(a)[0] == "Bookmarks"@ && post_stream::bookmarks_key(b)[0]
        == "Bookmarks"@);
    let first = post_stream::post_replies_key(p.0, p.1);
    let second = post_stream::post_replies_key(q.0, q.1);
    assert(first[2] == p.0 && first[3] == p.1 && second[2] == q.0 && second[3] == q.1);
    assert(second[1] == "PostReplies"@ && second.len() == 4);
    let sets = post_stream::sets_for(sorting);
    assert(sets.global[1] == "Global"@ && sets.ranked[1] == "Global"@ && sets.ranked[0]
        == "Posts"@ && sets.global[0] == "Posts"@);
    assert(posts[0] == "Posts"@ && replies[0] == "Posts"@);
}

/// A sync reads the very sets that the writes of an author's root posts fill.
pub proof fn law_a_sync_reads_the_authors_own_sets(ranking: Seq<Seq<char>>, author: Seq<char>)
    ensures
        post_stream::ranked_sync_keys(ranking).posts_of(author) == post_stream::author_posts_key(
            author,
        ),
        post_stream::ranked_sync_keys(ranking).timeline == post_stream::sets_for(
            StreamSorting::Timeline,
        ),
        post_stream::ranked_sync_keys(ranking).engagement == post_stream::sets_for(
            StreamSorting::TotalEngagement,
        ),
        post_stream::ranked_sync_keys(ranking).ranking == ranking,
{
    assert(post_stream::ranked_sync_keys(ranking).posts_of(author)
        =~= post_stream::author_posts_key(author));
}

/// Mirroring a post writes it to the ranked twin of its sort at its score when
/// its author is ranked, and does nothing at all otherwise.
pub proof fn law_mirroring_writes_the_twin_for_ranked_authors_alone(
    ranking: Map<Seq<char>, i64>,
    store: StoreModel,
    sorting: StreamSorting,
    author: Seq<char>,
    post: Seq<char>,
    score: i64,
)
    ensures
        ({
            let stage = post_index::mirror_start(sorting, author, post, score);
            let ranked = post_stream::sets_for(sorting).ranked;
            let end = post_laws::written(ranking, stage, store);
            &&& post_laws::write_run(ranking, (WriteState { stage, store }), 3).stage is Done
            &&& ranking.contains_key(author) ==> end.at(ranked) == store.at(ranked).insert(
                named(author, post),
                score,
            ) && ranked_sync_laws::same_but(store, end, set![ranked])
            &&& !ranking.contains_key(author) ==> end == store
        }),
{
    reveal_with_fuel(post_laws::write_run, 4);
    let ranked = post_stream::sets_for(sorting).ranked;
    post_laws::lemma_put_one(store.at(ranked), named(author, post), score);
}

/// The stream of everybody in a world.
pub open spec fn everybody(sorting: StreamSorting, order: SortOrder) -> GraphModel {
    GraphModel { sorting, ..whole_stream(SourceModel::All, order) }
}

/// A post that enters the global timeline, or the global engagement set, is shown
/// by the stream of everybody of that sort: to all where there is no ranking, and
/// where there is one exactly if its author is ranked or it was shown before. One
/// that is removed is shown no more.
pub proof fn law_the_global_stream_shows_what_is_written(
    ranking: Map<Seq<char>, i64>,
    world: World,
    sorting: StreamSorting,
    order: SortOrder,
    author: Seq<char>,
    post: Seq<char>,
    score: i64,
)
    requires
        world.store.at(post_stream::sets_for(sorting).global).dom().finite(),
        world.store.at(post_stream::sets_for(sorting).ranked).dom().finite(),
    ensures
        ({
            let sets = post_stream::sets_for(sorting);
            let put = with_store(
                world,
                post_laws::written(
                    ranking,
                    post_index::mirrored_put_start(sorting, author, post, score),
                    world.store,
                ),
            );
            let gone = with_store(
                put,
                post_laws::written(
                    ranking,
                    post_index::mirrored_remove_start(sorting, author, post),
                    put.store,
                ),
            );
            let shown = read_laws::keys_read(put, everybody(sorting, order));
            let left = read_laws::keys_read(gone, everybody(sorting, order));
            &&& world.ranking != Some(true) ==> shown is Some && left is Some && (
            shown->0).post_keys.contains(named(author, post)) && !(left->0).post_keys.contains(
                named(author, post),
            )
            &&& world.ranking == Some(true) && put.store.exists_at(sets.ranked) ==> shown is Some
                && (shown->0).post_keys.contains(named(author, post)) == (ranking.contains_key(
                author,
            ) || world.store.at(sets.ranked).contains_key(named(author, post)))
            &&& world.ranking == Some(true) && gone.store.exists_at(sets.ranked) ==> left is Some
                && !(left->0).post_keys.contains(named(author, post))
        }),
{
    let sets = post_stream::sets_for(sorting);
    post_laws::law_a_written_post_is_mirrored_for_ranked_authors(
        ranking,
        world.store,
        sorting,
        author,
        post,
        score,
    );
    let put = with_store(
        world,
        post_laws::written(
            ranking,
            post_index::mirrored_put_start(sorting, author, post, score),
            world.store,
        ),
    );
    post_laws::law_a_removed_post_leaves_both_sets(ranking, put.store, sorting, author, post);
    let gone = with_store(
        put,
        post_laws::written(
            ranking,
            post_index::mirrored_remove_start(sorting, author, post),
            put.store,
        ),
    );
    lemma_everybody_shown(put, sorting, order, named(author, post));
    lemma_everybody_shown(gone, sorting, order, named(author, post));
}

proof fn lemma_everybody_shown(
    world: World,
    sorting: StreamSorting,
    order: SortOrder,
    key: Seq<char>,
)
    requires
        world.store.at(post_stream::sets_for(sorting).global).dom().finite(),
        world.store.at(post_stream::sets_for(sorting).ranked).dom().finite(),
    ensures
        ({
            let sets = post_stream::sets_for(sorting);
            let shown = read_laws::keys_read(world, everybody(sorting, order));
            &&& world.ranking != Some(true) ==> shown is Some && (shown->0).post_keys.contains(key)
                == world.store.at(sets.global).contains_key(key)
            &&& world.ranking == Some(true) && world.store.exists_at(sets.ranked) ==> shown is Some
                && (shown->0).post_keys.contains(key) == world.store.at(sets.ranked).contains_key(
                key,
            )
        }),
{
    let sets = post_stream::sets_for(sorting);
    let query = everybody(sorting, order);
    let entries = read_laws::law_the_global_stream_follows_the_ranking(world, query);
    let set = if world.ranking == Some(true) {
        world.store.at(sets.ranked)
    } else {
        world.store.at(sets.global)
    };
    if world.ranking != Some(true) || world.store.exists_at(sets.ranked) {
        read_laws::law_a_page_of_a_set_is_in_order_and_within_bounds(
            set,
            order,
            query.pagination,
            entries,
        );
        let keys = (read_laws::keys_read(world, query)->0).post_keys;
        if keys.contains(key) {
            let i = keys.index_of(key);
            assert(set.contains_key(entries[i].0));
        }
        if set.contains_key(key) {
            let i = entries.index_of((key, set[key]));
            assert(keys[i] == key);
        }
    }
}

/// The timeline is the set that a post enters at its time, and the engagement
/// set the one that it enters with its counts: neither write touches the other
/// sort's sets.
pub proof fn law_the_two_sorts_are_written_apart(
    ranking: Map<Seq<char>, i64>,
    store: StoreModel,
    counts: PostCounts,
    author: Seq<char>,
    post: Seq<char>,
    at: i64,
)
    ensures
        ({
            let timeline = post_stream::sets_for(StreamSorting::Timeline);
            let engagement = post_stream::sets_for(StreamSorting::TotalEngagement);
            let a = post_laws::written(ranking, post_index::timeline_put(author, post, at), store);
            let b = post_laws::written(
                ranking,
                post_index::engagement_put(counts, author, post),
                store,
            );
            let c = post_laws::written(ranking, post_index::timeline_remove(author, post), store);
            let d = post_laws::written(ranking, post_index::engagement_remove(author, post), store);
            &&& a.at(timeline.global) == store.at(timeline.global).insert(named(author, post), at)
            &&& a.at(engagement.global) == store.at(engagement.global)
            &&& a.at(engagement.ranked) == store.at(engagement.ranked)
            &&& b.at(timeline.global) == store.at(timeline.global)
            &&& b.at(timeline.ranked) == store.at(timeline.ranked)
            &&& c.at(timeline.global) == store.at(timeline.global).remove(named(author, post))
            &&& c.at(engagement.global) == store.at(engagement.global)
            &&& d.at(engagement.global) == store.at(engagement.global).remove(named(author, post))
            &&& d.at(timeline.global) == store.at(timeline.global)
        }),
{
    let t = StreamSorting::Timeline;
    let e = StreamSorting::TotalEngagement;
    post_laws::lemma_sets_apart(t, e);
    post_laws::lemma_sets_apart(e, t);
    post_laws::lemma_sets_apart(t, t);
    post_laws::lemma_sets_apart(e, e);
    post_laws::law_a_written_post_is_mirrored_for_ranked_authors(
        ranking,
        store,
        t,
        author,
        post,
        at,
    );
    post_laws::law_a_written_post_is_mirrored_for_ranked_authors(
        ranking,
        store,
        e,
        author,
        post,
        post_index::engagement(counts) as i64,
    );
    post_laws::law_a_removed_post_leaves_both_sets(ranking, store, t, author, post);
    post_laws::law_a_removed_post_leaves_both_sets(ranking, store, e, author, post);
}

} // verus!
