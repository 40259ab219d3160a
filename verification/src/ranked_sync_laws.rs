//! What a whole sync of the ranked twins does to a store that nobody else
//! writes to meanwhile, and what of that holds while others add posts or publish
//! a ranking.
use crate::ranked_sync;
use crate::ranked_sync::{
    ActionModel, AnswerModel, AuthorPosModel, DiffPos, PhaseModel, SyncKeys, Twin, Walk,
    RANKED_BUILD_CATCH_UP_MS, RANKED_SYNC_CHUNK,
};
use crate::sorted_set;
use crate::sorted_set::{CommandModel, SortOrder, StoreModel};
use crate::text;
use vstd::prelude::*;

verus! {

/// A sync and the store it runs on.
pub struct SyncState {
    pub phase: PhaseModel,
    pub store: StoreModel,
}

/// One action of a sync, answered by the store, or by a clock that shows `now`.
/// There is none once the sync is over, nor where the answer leaves no room to
/// count on.
pub open spec fn tick(keys: SyncKeys, now: i64, state: SyncState) -> Option<SyncState> {
    match state.phase.action(keys) {
        None => None,
        Some(action) => {
            let answer = match action {
                ActionModel::ReadClock => AnswerModel::Clock(now),
                ActionModel::Store(command) => AnswerModel::Store(state.store.reply(command)),
            };
            if state.phase.room_for(answer) {
                Some(
                    SyncState {
                        phase: state.phase.next(answer),
                        store: match action {
                            ActionModel::ReadClock => state.store,
                            ActionModel::Store(command) => state.store.after(command),
                        },
                    },
                )
            } else {
                None
            }
        },
    }
}

/// A sync after at most `n` actions.
pub open spec fn run(keys: SyncKeys, now: i64, state: SyncState, n: nat) -> SyncState
    decreases n,
{
    if n == 0 {
        state
    } else {
        match tick(keys, now, state) {
            Some(next) => run(keys, now, next, (n - 1) as nat),
            None => state,
        }
    }
}

/// Whether a sync gets from `from` to `to`.
pub open spec fn reaches(keys: SyncKeys, now: i64, from: SyncState, to: SyncState) -> bool {
    exists|n: nat| #[trigger] run(keys, now, from, n) == to
}

proof fn lemma_run_on(keys: SyncKeys, now: i64, state: SyncState, n: nat, m: nat)
    ensures
        run(keys, now, state, n + m) == run(keys, now, run(keys, now, state, n), m),
    decreases n,
{
    if n > 0 {
        match tick(keys, now, state) {
            Some(next) => {
                lemma_run_on(keys, now, next, (n - 1) as nat, m);
                assert(((n + m) - 1) as nat == (n - 1) as nat + m);
            },
            None => {},
        }
    }
}

proof fn lemma_reach_on(keys: SyncKeys, now: i64, a: SyncState, b: SyncState, c: SyncState)
    requires
        reaches(keys, now, a, b),
        reaches(keys, now, b, c),
    ensures
        reaches(keys, now, a, c),
{
    let n = choose|n: nat| #[trigger] run(keys, now, a, n) == b;
    let m = choose|m: nat| #[trigger] run(keys, now, b, m) == c;
    lemma_run_on(keys, now, a, n, m);
    assert(run(keys, now, a, n + m) == c);
}

proof fn lemma_reach_tick(keys: SyncKeys, now: i64, a: SyncState, b: SyncState)
    requires
        tick(keys, now, a) == Some(b),
    ensures
        reaches(keys, now, a, b),
{
    reveal_with_fuel(run, 2);
    assert(run(keys, now, a, 1) == b);
}

/// One command of a sync that goes on from what it reached.
proof fn lemma_reach_command(
    keys: SyncKeys,
    now: i64,
    start: SyncState,
    phase: PhaseModel,
    store: StoreModel,
    command: CommandModel,
)
    requires
        reaches(keys, now, start, (SyncState { phase, store })),
        phase.action(keys) == Some(ActionModel::Store(command)),
        phase.room_for(AnswerModel::Store(store.reply(command))),
    ensures
        reaches(
            keys,
            now,
            start,
            (SyncState {
                phase: phase.next(AnswerModel::Store(store.reply(command))),
                store: store.after(command),
            }),
        ),
{
    let a = SyncState { phase, store };
    let b = SyncState {
        phase: phase.next(AnswerModel::Store(store.reply(command))),
        store: store.after(command),
    };
    lemma_reach_tick(keys, now, a, b);
    lemma_reach_on(keys, now, start, a, b);
}

impl SyncKeys {
    /// No key a sync writes to is another key it reads or writes.
    pub open spec fn apart(self) -> bool {
        &&& self.derived().no_duplicates()
        &&& !self.derived().contains(self.ranking)
        &&& !self.derived().contains(self.timeline.global)
        &&& !self.derived().contains(self.engagement.global)
        &&& forall|author: Seq<char>| !self.derived().contains(#[trigger] self.posts_of(author))
    }
}

/// `after` holds what `before` holds at every key but `written`.
pub open spec fn same_but(
    before: StoreModel,
    after: StoreModel,
    written: Set<Seq<Seq<char>>>,
) -> bool {
    forall|key: Seq<Seq<char>>| #[trigger]
        after.at(key) == before.at(key) || written.contains(key)
}

/// A finite set, small enough for its ranks to be counted.
pub open spec fn countable(set: Map<Seq<char>, i64>) -> bool {
    &&& set.dom().finite()
    &&& set.dom().len() <= usize::MAX - 3 * RANKED_SYNC_CHUNK
}

/// `set` scores every post as `old` does or as `new` does.
pub open spec fn between(
    set: Map<Seq<char>, i64>,
    old: Map<Seq<char>, i64>,
    new: Map<Seq<char>, i64>,
) -> bool {
    forall|post: Seq<char>| #[trigger]
        sorted_set::score_in(set, post) == sorted_set::score_in(old, post) || sorted_set::score_in(
            set,
            post,
        ) == sorted_set::score_in(new, post)
}

/// A twin is absent, or scores every post as the ranking of the last sync calls
/// for or as the published one does. Without a last sync it may hold anything.
pub open spec fn tidy(
    keys: SyncKeys,
    store: StoreModel,
    which: Twin,
    set: Map<Seq<char>, i64>,
) -> bool {
    store.exists_at(keys.synced) ==> set.dom().is_empty() || between(
        set,
        keys.twin(store, which, store.at(keys.synced)),
        keys.twin(store, which, store.at(keys.ranking)),
    )
}

/// Whether `author` entered the ranking or left it since the last sync.
pub open spec fn moved(keys: SyncKeys, store: StoreModel, author: Seq<char>) -> bool {
    store.at(keys.ranking).contains_key(author) != store.at(keys.synced).contains_key(author)
}

/// Of the authors who moved: the members that the global timeline has of them
/// are post keys, their ids hold no colon, and the set of each one's root posts
/// names the posts that the global timeline has of that author.
pub open spec fn posts_agree(keys: SyncKeys, store: StoreModel) -> bool {
    &&& forall|post: Seq<char>| #[trigger]
        store.at(keys.timeline.global).contains_key(post) && moved(
            keys,
            store,
            text::author_of(post),
        ) ==> post.contains(':')
    &&& forall|author: Seq<char>| #[trigger]
        moved(keys, store, author) ==> !author.contains(':')
    &&& forall|author: Seq<char>, id: Seq<char>|
        moved(keys, store, author) ==> #[trigger] store.at(
            keys.posts_of(author),
        ).contains_key(id) == store.at(keys.timeline.global).contains_key(
            text::post_key_of(author, id),
        )
}

/// The post sets of the authors who moved agree, and both twins are tidy.
pub open spec fn sound(keys: SyncKeys, store: StoreModel) -> bool {
    &&& posts_agree(keys, store)
    &&& forall|which: Twin| #[trigger] tidy(keys, store, which, store.at(keys.sets(which).ranked))
}

/// The store a sync started on, and whether its twins are watched on the way.
struct Origin {
    store: StoreModel,
    twins: bool,
}

impl Origin {
    spec fn at(self, key: Seq<Seq<char>>) -> Map<Seq<char>, i64> {
        self.store.at(key)
    }

    /// Whether the twins are watched, and were in order at the start.
    spec fn watched(self, keys: SyncKeys) -> bool {
        self.twins && sound(keys, self.store)
    }
}

/// What a sync that started on `origin` keeps until it records the ranking: it
/// writes to its own keys alone, the record of the last sync stays, and watched
/// twins stay tidy.
spec fn kept(keys: SyncKeys, origin: Origin, store: StoreModel) -> bool {
    &&& forall|key: Seq<Seq<char>>| #[trigger]
        store.at(key) == origin.at(key) || keys.derived().contains(key)
    &&& store.at(keys.synced) == origin.at(keys.synced)
    &&& origin.watched(keys) ==> forall|which: Twin| #[trigger]
        tidy(keys, origin.store, which, store.at(keys.sets(which).ranked))
}

spec fn kept_until(
    keys: SyncKeys,
    now: i64,
    origin: Origin,
    from: SyncState,
    n: nat,
) -> bool {
    forall|k: nat| k <= n ==> kept(keys, origin, (#[trigger] run(keys, now, from, k)).store)
}

/// Whether a sync gets from `from` to `to` and keeps every store on the way.
spec fn gets(
    keys: SyncKeys,
    now: i64,
    origin: Origin,
    from: SyncState,
    to: SyncState,
) -> bool {
    exists|n: nat| #[trigger]
        run(keys, now, from, n) == to && kept_until(keys, now, origin, from, n)
}

proof fn lemma_gets_kept(
    keys: SyncKeys,
    now: i64,
    origin: Origin,
    a: SyncState,
    b: SyncState,
)
    requires
        gets(keys, now, origin, a, b),
    ensures
        kept(keys, origin, b.store),
        reaches(keys, now, a, b),
{
    let n = choose|n: nat| #[trigger]
        run(keys, now, a, n) == b && kept_until(keys, now, origin, a, n);
    assert(kept(keys, origin, run(keys, now, a, n).store));
}

proof fn lemma_gets_tick(
    keys: SyncKeys,
    now: i64,
    origin: Origin,
    start: SyncState,
    a: SyncState,
    b: SyncState,
)
    requires
        gets(keys, now, origin, start, a),
        tick(keys, now, a) == Some(b),
        kept(keys, origin, b.store),
    ensures
        gets(keys, now, origin, start, b),
{
    reveal_with_fuel(run, 2);
    let n = choose|n: nat| #[trigger]
        run(keys, now, start, n) == a && kept_until(keys, now, origin, start, n);
    lemma_run_on(keys, now, start, n, 1);
    assert(run(keys, now, a, 1) == b);
    assert(run(keys, now, start, n + 1) == b);
    assert forall|k: nat| k <= n + 1 implies kept(
        keys,
        origin,
        (#[trigger] run(keys, now, start, k)).store,
    ) by {}
    assert(kept_until(keys, now, origin, start, n + 1));
}

/// One command of a sync that goes on from what it got to.
proof fn lemma_gets_command(
    keys: SyncKeys,
    now: i64,
    origin: Origin,
    start: SyncState,
    phase: PhaseModel,
    store: StoreModel,
    command: CommandModel,
)
    requires
        gets(keys, now, origin, start, (SyncState { phase, store })),
        phase.action(keys) == Some(ActionModel::Store(command)),
        phase.room_for(AnswerModel::Store(store.reply(command))),
        kept(keys, origin, store.after(command)),
    ensures
        gets(
            keys,
            now,
            origin,
            start,
            (SyncState {
                phase: phase.next(AnswerModel::Store(store.reply(command))),
                store: store.after(command),
            }),
        ),
{
    lemma_gets_tick(
        keys,
        now,
        origin,
        start,
        SyncState { phase, store },
        SyncState {
            phase: phase.next(AnswerModel::Store(store.reply(command))),
            store: store.after(command),
        },
    );
}

/// Writing to scratch sets keeps the store.
proof fn lemma_kept_scratch(
    keys: SyncKeys,
    origin: Origin,
    store: StoreModel,
    next: StoreModel,
)
    requires
        kept(keys, origin, store),
        forall|key: Seq<Seq<char>>| #[trigger]
            next.at(key) == store.at(key) || (keys.derived().contains(key) && key != keys.synced
                && key != keys.timeline.ranked && key != keys.engagement.ranked),
    ensures
        kept(keys, origin, next),
{
    assert(next.at(keys.synced) == store.at(keys.synced));
    assert(next.at(keys.timeline.ranked) == store.at(keys.timeline.ranked));
    assert(next.at(keys.engagement.ranked) == store.at(keys.engagement.ranked));
    assert forall|key: Seq<Seq<char>>| #[trigger]
        next.at(key) == origin.at(key) || keys.derived().contains(key) by {
        assert(next.at(key) == store.at(key) || keys.derived().contains(key));
    }
    if origin.watched(keys) {
        assert forall|which: Twin| #[trigger]
            tidy(keys, origin.store, which, next.at(keys.sets(which).ranked)) by {
            assert(tidy(keys, origin.store, which, store.at(keys.sets(which).ranked)));
        }
    }
}

/// Writing tidy twins keeps the store.
proof fn lemma_kept_twins(
    keys: SyncKeys,
    origin: Origin,
    store: StoreModel,
    next: StoreModel,
)
    requires
        keys.apart(),
        kept(keys, origin, store),
        forall|key: Seq<Seq<char>>| #[trigger]
            next.at(key) == store.at(key) || (keys.derived().contains(key) && key != keys.synced),
        origin.watched(keys) ==> tidy(
            keys,
            origin.store,
            Twin::Timeline,
            next.at(keys.timeline.ranked),
        ),
        origin.watched(keys) ==> tidy(
            keys,
            origin.store,
            Twin::Engagement,
            next.at(keys.engagement.ranked),
        ),
    ensures
        kept(keys, origin, next),
{
    assert(next.at(keys.synced) == store.at(keys.synced));
    assert forall|key: Seq<Seq<char>>| #[trigger]
        next.at(key) == origin.at(key) || keys.derived().contains(key) by {
        assert(next.at(key) == store.at(key) || keys.derived().contains(key));
    }
    if origin.watched(keys) {
        assert forall|which: Twin| #[trigger]
            tidy(keys, origin.store, which, next.at(keys.sets(which).ranked)) by {
            match which {
                Twin::Timeline => {},
                Twin::Engagement => {},
            }
        }
    }
}

/// With no ranking, a sync drops the twins and everything derived from them,
/// and leaves every other set alone.
pub proof fn law_without_a_ranking_the_twins_are_dropped(
    keys: SyncKeys,
    now: i64,
    store: StoreModel,
) -> (end: StoreModel)
    requires
        !store.exists_at(keys.ranking),
    ensures
        reaches(
            keys,
            now,
            (SyncState { phase: PhaseModel::CheckRanking, store }),
            (SyncState { phase: PhaseModel::Done, store: end }),
        ),
        forall|key: Seq<Seq<char>>| #[trigger]
            end.at(key) == (if keys.derived().contains(key) {
                Map::empty()
            } else {
                store.at(key)
            }),
{
    let start = SyncState { phase: PhaseModel::CheckRanking, store };
    assert(run(keys, now, start, 0) == start);
    lemma_reach_command(
        keys,
        now,
        start,
        PhaseModel::CheckRanking,
        store,
        CommandModel::Exists { key: keys.ranking },
    );
    lemma_reach_command(
        keys,
        now,
        start,
        PhaseModel::Drop,
        store,
        CommandModel::Unlink { keys: keys.derived() },
    );
    store.without(keys.derived())
}

/// The first `n` entries of a set, as the store lists them, written to an empty set.
spec fn head_of(set: Map<Seq<char>, i64>, n: int) -> Map<Seq<char>, i64> {
    sorted_set::put_all(
        Map::empty(),
        ranked_sync::as_elements(sorted_set::listing(set).take(n)),
    )
}

proof fn lemma_head_of_all(set: Map<Seq<char>, i64>)
    requires
        set.dom().finite(),
    ensures
        head_of(set, sorted_set::listing(set).len() as int) == set,
{
    sorted_set::lemma_listing(set);
    let list = sorted_set::listing(set);
    assert(list.take(list.len() as int) =~= list);
    let elements = ranked_sync::as_elements(list);
    let copy = head_of(set, list.len() as int);
    assert forall|i: int| 0 <= i < elements.len() implies sorted_set::score_in(
        set,
        (#[trigger] elements[i]).1,
    ) == Some(elements[i].0) by {
        assert(elements[i] == (list[i].1, list[i].0));
    }
    sorted_set::lemma_put_all(Map::empty(), elements, set);
    assert forall|member: Seq<char>| sorted_set::score_in(copy, member) == sorted_set::score_in(
        set,
        member,
    ) by {
        if set.contains_key(member) {
            let i = choose|i: int| 0 <= i < list.len() && (#[trigger] list[i]).0 == member;
            assert(elements[i].1 == member);
        } else {
            if sorted_set::writes(elements, member) {
                let i = choose|i: int|
                    0 <= i < elements.len() && (#[trigger] elements[i]).1 == member;
                assert(set.contains_key(list[i].0));
            }
        }
    }
    lemma_same_scores(copy, set);
}

/// Sets that score every member alike are the same set.
proof fn lemma_same_scores(a: Map<Seq<char>, i64>, b: Map<Seq<char>, i64>)
    requires
        forall|member: Seq<char>|
            sorted_set::score_in(a, member) == sorted_set::score_in(b, member),
    ensures
        a == b,
{
    assert forall|member: Seq<char>|
        #![trigger a.contains_key(member)]
        a.contains_key(member) == b.contains_key(member) && (a.contains_key(member) ==> a[member]
            == b[member]) by {
        assert(sorted_set::score_in(a, member) == sorted_set::score_in(b, member));
    }
    assert(a =~= b);
}

/// From the page of the ranking that starts at `from` on, the copy takes over
/// what is left of it.
proof fn lemma_copy(
    keys: SyncKeys,
    now: i64,
    origin: Origin,
    start: SyncState,
    store: StoreModel,
    from: usize,
) -> (end: StoreModel)
    requires
        keys.apart(),
        countable(store.at(keys.ranking)),
        from <= sorted_set::listing(store.at(keys.ranking)).len(),
        store.at(keys.target) == head_of(store.at(keys.ranking), from as int),
        gets(keys, now, origin, start, (SyncState { phase: PhaseModel::CopyRead { from }, store })),
    ensures
        gets(keys, now, origin, start, (SyncState { phase: PhaseModel::CheckSynced, store: end })),
        end.at(keys.target) == store.at(keys.ranking),
        same_but(store, end, set![keys.target]),
    decreases sorted_set::listing(store.at(keys.ranking)).len() - from,
{
    let ranking = store.at(keys.ranking);
    let list = sorted_set::listing(ranking);
    lemma_gets_kept(
        keys,
        now,
        origin,
        start,
        SyncState { phase: PhaseModel::CopyRead { from }, store },
    );
    sorted_set::lemma_listing(ranking);
    sorted_set::lemma_listing_len(ranking, list);
    let page = sorted_set::window(list, from as nat, Some(1000));
    let read = CommandModel::PageByRank {
        key: keys.ranking,
        from: from as nat,
        to: (from + RANKED_SYNC_CHUNK - 1) as nat,
    };
    lemma_gets_command(keys, now, origin, start, PhaseModel::CopyRead { from }, store, read);
    let elements = ranked_sync::as_elements(page);
    let more = page.len() >= RANKED_SYNC_CHUNK;
    let write = CommandModel::Put { key: keys.target, elements };
    lemma_apart(keys);
    lemma_kept_scratch(keys, origin, store, store.after(write));
    lemma_gets_command(
        keys,
        now,
        origin,
        start,
        PhaseModel::CopyWrite { from, elements, more },
        store,
        write,
    );
    let next = store.after(write);
    let to = from + page.len();
    sorted_set::lemma_put_all_on(
        Map::empty(),
        ranked_sync::as_elements(list.take(from as int)),
        elements,
    );
    assert(ranked_sync::as_elements(list.take(to as int)) =~= ranked_sync::as_elements(
        list.take(from as int),
    ) + elements);
    assert(next.at(keys.target) == head_of(ranking, to as int));
    assert(keys.derived()[7] == keys.target);
    assert(next.at(keys.ranking) == ranking);
    if more {
        let end = lemma_copy(keys, now, origin, start, next, to as usize);
        assert(same_but(store, end, set![keys.target])) by {
            assert(same_but(store, next, set![keys.target]));
        }
        end
    } else {
        lemma_head_of_all(ranking);
        assert(same_but(store, next, set![keys.target]));
        next
    }
}

/// The scores the store tells of `members`.
spec fn scores_of(set: Map<Seq<char>, i64>, members: Seq<Seq<char>>) -> Seq<Option<i64>> {
    Seq::new(members.len(), |i: int| sorted_set::score_in(set, members[i]))
}

proof fn lemma_scored_in(members: Seq<Seq<char>>, set: Map<Seq<char>, i64>, n: nat)
    requires
        n <= members.len(),
    ensures
        ({
            let elements = ranked_sync::scored_in(members, scores_of(set, members), n);
            &&& forall|i: int|
                0 <= i < elements.len() ==> sorted_set::score_in(set, (#[trigger] elements[i]).1)
                    == Some(elements[i].0)
            &&& forall|member: Seq<char>| #[trigger]
                sorted_set::writes(elements, member) <==> (members.take(n as int).contains(member)
                    && set.contains_key(member))
        }),
    decreases n,
{
    let elements = ranked_sync::scored_in(members, scores_of(set, members), n);
    if n > 0 {
        let before = ranked_sync::scored_in(members, scores_of(set, members), (n - 1) as nat);
        lemma_scored_in(members, set, (n - 1) as nat);
        let shorter = members.take(n - 1);
        let longer = members.take(n as int);
        assert(longer =~= shorter.push(members[n - 1]));
        assert(longer[n - 1] == members[n - 1]);
        assert forall|member: Seq<char>| #[trigger]
            sorted_set::writes(elements, member) <==> (longer.contains(member)
                && set.contains_key(member)) by {
            assert(sorted_set::writes(before, member) <==> (shorter.contains(member)
                && set.contains_key(member)));
            if sorted_set::writes(elements, member) {
                let i = choose|i: int|
                    0 <= i < elements.len() && (#[trigger] elements[i]).1 == member;
                if i < before.len() {
                    assert(before[i].1 == member);
                    let j = shorter.index_of(member);
                    assert(longer[j] == member);
                }
            }
            if longer.contains(member) && set.contains_key(member) {
                let j = longer.index_of(member);
                if j < n - 1 {
                    assert(shorter[j] == member);
                    let i = choose|i: int|
                        0 <= i < before.len() && (#[trigger] before[i]).1 == member;
                    assert(elements[i].1 == member);
                } else {
                    assert(elements[before.len() as int].1 == member);
                }
            }
        }
        assert forall|i: int| 0 <= i < elements.len() implies sorted_set::score_in(
            set,
            (#[trigger] elements[i]).1,
        ) == Some(elements[i].0) by {
            if i < before.len() {
                assert(before[i] == elements[i]);
            }
        }
    } else {
        assert(members.take(0).len() == 0);
    }
}

/// The scored members are those that the set holds, at its scores.
proof fn lemma_scored(members: Seq<Seq<char>>, set: Map<Seq<char>, i64>)
    ensures
        ({
            let elements = ranked_sync::scored_members(members, scores_of(set, members));
            &&& forall|i: int|
                0 <= i < elements.len() ==> sorted_set::score_in(set, (#[trigger] elements[i]).1)
                    == Some(elements[i].0)
            &&& forall|member: Seq<char>| #[trigger]
                sorted_set::writes(elements, member) <==> (members.contains(member)
                    && set.contains_key(member))
        }),
{
    lemma_scored_in(members, set, members.len());
    assert(members.take(members.len() as int) =~= members);
}

/// Whether `member` is an entry of `list` from `lo` up to `hi`.
spec fn lists(list: Seq<(Seq<char>, i64)>, lo: int, hi: int, member: Seq<char>) -> bool {
    exists|i: int| lo <= i < hi && (#[trigger] list[i]).0 == member
}

proof fn lemma_ranked_in(
    page: Seq<(Seq<char>, i64)>,
    ranking: Map<Seq<char>, i64>,
    scores: Map<Seq<char>, i64>,
    n: nat,
)
    requires
        n <= page.len(),
        forall|i: int|
            0 <= i < page.len() ==> sorted_set::score_in(scores, (#[trigger] page[i]).0) == Some(
                page[i].1,
            ),
    ensures
        ({
            let ranks = scores_of(ranking, ranked_sync::authors_of(page));
            let elements = ranked_sync::ranked_in(page, ranks, n);
            &&& forall|i: int|
                0 <= i < elements.len() ==> sorted_set::score_in(scores, (#[trigger] elements[i]).1)
                    == Some(elements[i].0)
            &&& forall|member: Seq<char>| #[trigger]
                sorted_set::writes(elements, member) <==> (lists(page, 0, n as int, member)
                    && ranking.contains_key(text::author_of(member)))
        }),
    decreases n,
{
    let ranks = scores_of(ranking, ranked_sync::authors_of(page));
    let elements = ranked_sync::ranked_in(page, ranks, n);
    if n > 0 {
        let before = ranked_sync::ranked_in(page, ranks, (n - 1) as nat);
        lemma_ranked_in(page, ranking, scores, (n - 1) as nat);
        assert(ranks[n - 1] == sorted_set::score_in(ranking, text::author_of(page[n - 1].0)));
        assert forall|member: Seq<char>| #[trigger]
            sorted_set::writes(elements, member) <==> (lists(page, 0, n as int, member)
                && ranking.contains_key(text::author_of(member))) by {
            assert(sorted_set::writes(before, member) <==> (lists(page, 0, n - 1, member)
                && ranking.contains_key(text::author_of(member))));
            if sorted_set::writes(elements, member) {
                let i = choose|i: int|
                    0 <= i < elements.len() && (#[trigger] elements[i]).1 == member;
                if i < before.len() {
                    assert(before[i].1 == member);
                } else {
                    assert(page[n - 1].0 == member);
                }
            }
            if lists(page, 0, n as int, member) && ranking.contains_key(text::author_of(member)) {
                let j = choose|j: int| 0 <= j < n && (#[trigger] page[j]).0 == member;
                if j < n - 1 {
                    assert(lists(page, 0, n - 1, member));
                    let i = choose|i: int|
                        0 <= i < before.len() && (#[trigger] before[i]).1 == member;
                    assert(elements[i].1 == member);
                } else {
                    assert(elements[before.len() as int].1 == member);
                }
            }
        }
        assert forall|i: int| 0 <= i < elements.len() implies sorted_set::score_in(
            scores,
            (#[trigger] elements[i]).1,
        ) == Some(elements[i].0) by {
            if i < before.len() {
                assert(before[i] == elements[i]);
            } else {
                assert(page[n - 1].0 == elements[i].1);
            }
        }
    }
}

/// `set` is `base` with the entries of `list` from `lo` up to `hi` that are by
/// ranked authors and have a score in `scores` written to it.
spec fn copied(
    set: Map<Seq<char>, i64>,
    base: Map<Seq<char>, i64>,
    ranking: Map<Seq<char>, i64>,
    list: Seq<(Seq<char>, i64)>,
    lo: int,
    hi: int,
    scores: Map<Seq<char>, i64>,
) -> bool {
    forall|member: Seq<char>| #[trigger]
        sorted_set::score_in(set, member) == (if lists(list, lo, hi, member)
            && ranking.contains_key(text::author_of(member)) && scores.contains_key(member) {
            Some(scores[member])
        } else {
            sorted_set::score_in(base, member)
        })
}

/// Writing a page's entries to both twins carries the copy on by that page.
proof fn lemma_copied_page(
    global: Map<Seq<char>, i64>,
    engagement: Map<Seq<char>, i64>,
    ranking: Map<Seq<char>, i64>,
    list: Seq<(Seq<char>, i64)>,
    lo: int,
    at: int,
    to: int,
    sets: (Map<Seq<char>, i64>, Map<Seq<char>, i64>),
    bases: (Map<Seq<char>, i64>, Map<Seq<char>, i64>),
)
    requires
        sorted_set::is_listing(global, list),
        0 <= lo <= at <= to <= list.len(),
        copied(sets.0, bases.0, ranking, list, lo, at, global),
        copied(sets.1, bases.1, ranking, list, lo, at, engagement),
    ensures
        ({
            let page = list.subrange(at, to);
            let first = ranked_sync::ranked_entries(
                page,
                scores_of(ranking, ranked_sync::authors_of(page)),
            );
            let posts = ranked_sync::keys_of(first);
            let second = ranked_sync::scored_members(posts, scores_of(engagement, posts));
            &&& copied(
                sorted_set::put_all(sets.0, first),
                bases.0,
                ranking,
                list,
                lo,
                to,
                global,
            )
            &&& copied(
                sorted_set::put_all(sets.1, second),
                bases.1,
                ranking,
                list,
                lo,
                to,
                engagement,
            )
        }),
{
    let page = list.subrange(at, to);
    let ranks = scores_of(ranking, ranked_sync::authors_of(page));
    let first = ranked_sync::ranked_entries(page, ranks);
    let posts = ranked_sync::keys_of(first);
    let second = ranked_sync::scored_members(posts, scores_of(engagement, posts));
    assert forall|i: int| 0 <= i < page.len() implies sorted_set::score_in(
        global,
        (#[trigger] page[i]).0,
    ) == Some(page[i].1) by {
        assert(page[i] == list[at + i]);
    }
    lemma_ranked_in(page, ranking, global, page.len());
    lemma_scored(posts, engagement);
    sorted_set::lemma_put_all(sets.0, first, global);
    sorted_set::lemma_put_all(sets.1, second, engagement);
    assert forall|member: Seq<char>| #[trigger]
        lists(list, lo, to, member) == (lists(list, lo, at, member) || lists(
            page,
            0,
            page.len() as int,
            member,
        )) by {
        if lists(list, lo, to, member) {
            let i = choose|i: int| lo <= i < to && (#[trigger] list[i]).0 == member;
            if i >= at {
                assert(page[i - at].0 == member);
            }
        }
        if lists(page, 0, page.len() as int, member) {
            let i = choose|i: int| 0 <= i < page.len() && (#[trigger] page[i]).0 == member;
            assert(list[at + i].0 == member);
        }
    }
    assert forall|member: Seq<char>| #[trigger]
        posts.contains(member) == sorted_set::writes(first, member) by {
        if posts.contains(member) {
            let i = posts.index_of(member);
            assert(first[i].1 == member);
        }
        if sorted_set::writes(first, member) {
            let i = choose|i: int| 0 <= i < first.len() && (#[trigger] first[i]).1 == member;
            assert(posts[i] == member);
        }
    }
    assert forall|member: Seq<char>| lists(page, 0, page.len() as int, member) implies #[trigger]
        global.contains_key(member) by {
        let i = choose|i: int| 0 <= i < page.len() && (#[trigger] page[i]).0 == member;
        assert(sorted_set::score_in(global, page[i].0) == Some(page[i].1));
    }
    let set = sorted_set::put_all(sets.0, first);
    assert forall|member: Seq<char>| #[trigger]
        sorted_set::score_in(set, member) == (if lists(list, lo, to, member)
            && ranking.contains_key(text::author_of(member)) && global.contains_key(member) {
            Some(global[member])
        } else {
            sorted_set::score_in(bases.0, member)
        }) by {
        assert(lists(list, lo, to, member) == (lists(list, lo, at, member) || lists(
            page,
            0,
            page.len() as int,
            member,
        )));
        assert(sorted_set::score_in(sets.0, member) == sorted_set::score_in(sets.0, member));
    }
    let other = sorted_set::put_all(sets.1, second);
    assert forall|member: Seq<char>| #[trigger]
        sorted_set::score_in(other, member) == (if lists(list, lo, to, member)
            && ranking.contains_key(text::author_of(member)) && engagement.contains_key(member) {
            Some(engagement[member])
        } else {
            sorted_set::score_in(bases.1, member)
        }) by {
        assert(lists(list, lo, to, member) == (lists(list, lo, at, member) || lists(
            page,
            0,
            page.len() as int,
            member,
        )));
        assert(posts.contains(member) == sorted_set::writes(first, member));
        assert(sorted_set::score_in(sets.1, member) == sorted_set::score_in(sets.1, member));
    }
}

/// The trailing entries of a page are the longest run of one score at its end.
pub proof fn lemma_trailing(page: Seq<(Seq<char>, i64)>, score: i64)
    ensures
        ({
            let ties = ranked_sync::trailing(page, score);
            &&& ties <= page.len()
            &&& forall|i: int| page.len() - ties <= i < page.len() ==> (#[trigger] page[i]).1
                == score
            &&& ties < page.len() ==> page[page.len() - ties - 1].1 != score
        }),
    decreases page.len(),
{
    if page.len() > 0 && page.last().1 == score {
        lemma_trailing(page.drop_last(), score);
        let fewer = page.drop_last();
        let ties = ranked_sync::trailing(page, score);
        assert forall|i: int| page.len() - ties <= i < page.len() implies (#[trigger] page[i]).1
            == score by {
            if i < fewer.len() {
                assert(fewer[i] == page[i]);
            }
        }
        if ties < page.len() {
            assert(fewer[page.len() - ties - 1] == page[page.len() - ties - 1]);
        }
    }
}

/// A walk stands behind the first `at` entries of the global timeline.
spec fn walk_stands_at(walk: Walk, list: Seq<(Seq<char>, i64)>, at: int) -> bool {
    &&& 0 <= at <= list.len()
    &&& match walk.cursor {
        None => at == 0 && walk.seen == 0,
        Some(score) => {
            &&& at == sorted_set::below(list, score) + walk.seen
            &&& forall|i: int| 0 <= i < at ==> (#[trigger] list[i]).1 <= score
        },
    }
}

/// A walk that has read a page stands behind it.
proof fn lemma_walk_past(walk: Walk, list: Seq<(Seq<char>, i64)>, at: int, to: int)
    requires
        forall|i: int, j: int| 0 <= i <= j < list.len() ==> list[i].1 <= list[j].1,
        list.len() <= usize::MAX,
        walk_stands_at(walk, list, at),
        at < to <= list.len(),
    ensures
        walk_stands_at(walk.past(list.subrange(at, to)), list, to),
{
    let page = list.subrange(at, to);
    assert(forall|i: int| 0 <= i < page.len() ==> #[trigger] page[i] == list[at + i]);
    let last = page.last().1;
    assert(page.last() == list[to - 1]);
    let ties = ranked_sync::trailing(page, last) as int;
    lemma_trailing(page, last);
    let first = to - ties;
    assert(ties > 0);
    assert forall|i: int| first <= i < to implies (#[trigger] list[i]).1 == last by {
        assert(page[i - at] == list[i]);
    }
    if ties < page.len() {
        assert(page[page.len() - ties - 1] == list[first - 1]);
        assert(list[first - 1].1 < last);
        sorted_set::lemma_below_is(list, last, first);
        if walk.cursor == Some(last) {
            sorted_set::lemma_below(list, last);
        }
    } else {
        assert(first == at);
        if walk.cursor == Some(last) {
        } else {
            match walk.cursor {
                Some(score) => {
                    sorted_set::lemma_below(list, score);
                    assert(list[at].1 == last);
                    assert(score <= last);
                },
                None => {},
            }
            assert forall|i: int| 0 <= i < at implies (#[trigger] list[i]).1 < last by {
                assert(list[i].1 <= walk.cursor->0);
            }
            sorted_set::lemma_below_is(list, last, at);
        }
    }
    assert forall|i: int| 0 <= i < to implies (#[trigger] list[i]).1 <= last by {
        assert(list[i].1 <= list[to - 1].1);
    }
}

impl SyncKeys {
    /// The sets a walk writes to.
    spec fn walked(self, live: bool) -> (Seq<Seq<char>>, Seq<Seq<char>>) {
        if live {
            (self.timeline.ranked, self.engagement.ranked)
        } else {
            (self.timeline.staged, self.engagement.staged)
        }
    }
}

/// What follows a walk.
spec fn behind_walk(walk: Walk) -> PhaseModel {
    if walk.live {
        PhaseModel::Commit
    } else {
        PhaseModel::Swap { which: Twin::Timeline, catch_up: walk.catch_up }
    }
}

/// The place in the global timeline that a walk reads from next.
spec fn walk_reads_from(walk: Walk, list: Seq<(Seq<char>, i64)>) -> int {
    walk.seen + match walk.cursor {
        None => 0,
        Some(score) => sorted_set::below(list, score) as int,
    }
}

/// The page a walk reads next.
proof fn lemma_walk_page(store: StoreModel, keys: SyncKeys, walk: Walk, at: int)
    requires
        store.at(keys.timeline.global).dom().finite(),
        at == walk_reads_from(walk, sorted_set::listing(store.at(keys.timeline.global))),
        at <= sorted_set::listing(store.at(keys.timeline.global)).len(),
    ensures
        ({
            let list = sorted_set::listing(store.at(keys.timeline.global));
            let to = if at + 1000 <= list.len() {
                at + 1000
            } else {
                list.len() as int
            };
            let read = CommandModel::PageByScore {
                key: keys.timeline.global,
                start: None,
                end: walk.cursor,
                skip: Some(walk.seen),
                limit: Some(RANKED_SYNC_CHUNK),
                order: SortOrder::Ascending,
            };
            PhaseModel::WalkRead { walk }.next(AnswerModel::Store(store.reply(read)))
                == PhaseModel::WalkRanks { walk, page: list.subrange(at, to) }
        }),
{
    let global = store.at(keys.timeline.global);
    let list = sorted_set::listing(global);
    sorted_set::lemma_listing(global);
    sorted_set::lemma_in_range_from(global, walk.cursor);
    let to = if at + 1000 <= list.len() {
        at + 1000
    } else {
        list.len() as int
    };
    let skipped = match walk.cursor {
        Some(least) => sorted_set::below(list, least) as int,
        None => 0,
    };
    let page = sorted_set::window(list.skip(skipped), walk.seen as nat, Some(1000));
    assert(page =~= list.subrange(at, to));
    if !store.exists_at(keys.timeline.global) {
        assert(list.len() == 0) by {
            if list.len() > 0 {
                assert(global.contains_key(list[0].0));
            }
        }
        assert(page =~= Seq::empty());
    }
}

/// From where it stands on, a walk copies what is left of the global timeline.
proof fn lemma_walk(
    keys: SyncKeys,
    now: i64,
    origin: Origin,
    start: SyncState,
    store: StoreModel,
    walk: Walk,
    lo: int,
    at: int,
    bases: (Map<Seq<char>, i64>, Map<Seq<char>, i64>),
) -> (end: StoreModel)
    requires
        keys.apart(),
        countable(store.at(keys.timeline.global)),
        walk.live && origin.watched(keys) ==> store.at(keys.target) == origin.at(keys.ranking)
            && bases == (
            keys.twin(origin.store, Twin::Timeline, origin.at(keys.ranking)),
            keys.twin(origin.store, Twin::Engagement, origin.at(keys.ranking)),
        ),
        0 <= lo <= at,
        walk_stands_at(walk, sorted_set::listing(store.at(keys.timeline.global)), at),
        copied(
            store.at(keys.walked(walk.live).0),
            bases.0,
            store.at(keys.target),
            sorted_set::listing(store.at(keys.timeline.global)),
            lo,
            at,
            store.at(keys.timeline.global),
        ),
        copied(
            store.at(keys.walked(walk.live).1),
            bases.1,
            store.at(keys.target),
            sorted_set::listing(store.at(keys.timeline.global)),
            lo,
            at,
            store.at(keys.engagement.global),
        ),
        gets(keys, now, origin, start, (SyncState { phase: PhaseModel::WalkRead { walk }, store })),
    ensures
        gets(keys, now, origin, start, (SyncState { phase: behind_walk(walk), store: end })),
        same_but(store, end, set![keys.walked(walk.live).0, keys.walked(walk.live).1]),
        ({
            let list = sorted_set::listing(store.at(keys.timeline.global));
            &&& copied(
                end.at(keys.walked(walk.live).0),
                bases.0,
                store.at(keys.target),
                list,
                lo,
                list.len() as int,
                store.at(keys.timeline.global),
            )
            &&& copied(
                end.at(keys.walked(walk.live).1),
                bases.1,
                store.at(keys.target),
                list,
                lo,
                list.len() as int,
                store.at(keys.engagement.global),
            )
        }),
    decreases sorted_set::listing(store.at(keys.timeline.global)).len() - at,
{
    let global = store.at(keys.timeline.global);
    let engaged = store.at(keys.engagement.global);
    let ranking = store.at(keys.target);
    let list = sorted_set::listing(global);
    let written = keys.walked(walk.live);
    sorted_set::lemma_listing(global);
    sorted_set::lemma_listing_len(global, list);
    let to = if at + 1000 <= list.len() {
        at + 1000
    } else {
        list.len() as int
    };
    let page = list.subrange(at, to);
    let ranks = scores_of(ranking, ranked_sync::authors_of(page));
    let timeline = ranked_sync::ranked_entries(page, ranks);
    let posts = ranked_sync::keys_of(timeline);
    let engagement = ranked_sync::scored_members(posts, scores_of(engaged, posts));
    lemma_apart(keys);
    lemma_gets_kept(
        keys,
        now,
        origin,
        start,
        SyncState { phase: PhaseModel::WalkRead { walk }, store },
    );
    assert(global == origin.at(keys.timeline.global));
    assert(engaged == origin.at(keys.engagement.global));
    lemma_copied_page(
        global,
        engaged,
        ranking,
        list,
        lo,
        at,
        to,
        (store.at(written.0), store.at(written.1)),
        bases,
    );
    let write = CommandModel::Put { key: written.0, elements: timeline };
    let half = store.after(write);
    let write_other = CommandModel::Put { key: written.1, elements: engagement };
    let next = half.after(write_other);
    if walk.live {
        if origin.watched(keys) {
            lemma_copied_onto_twin(store.at(written.1), ranking, global, engaged, lo, at);
            lemma_copied_onto_twin(half.at(written.0), ranking, global, global, lo, to);
            lemma_copied_onto_twin(next.at(written.1), ranking, global, engaged, lo, to);
        }
        lemma_kept_twins(keys, origin, store, half);
        lemma_kept_twins(keys, origin, half, next);
    } else {
        lemma_kept_scratch(keys, origin, store, half);
        lemma_kept_scratch(keys, origin, half, next);
    }

    lemma_walk_page(store, keys, walk, at);
    lemma_gets_command(
        keys,
        now,
        origin,
        start,
        PhaseModel::WalkRead { walk },
        store,
        CommandModel::PageByScore {
            key: keys.timeline.global,
            start: None,
            end: walk.cursor,
            skip: Some(walk.seen),
            limit: Some(RANKED_SYNC_CHUNK),
            order: SortOrder::Ascending,
        },
    );
    lemma_gets_command(
        keys,
        now,
        origin,
        start,
        PhaseModel::WalkRanks { walk, page },
        store,
        CommandModel::Scores { key: keys.target, members: ranked_sync::authors_of(page) },
    );
    lemma_gets_command(
        keys,
        now,
        origin,
        start,
        PhaseModel::WalkScores { walk, page, timeline },
        store,
        CommandModel::Scores { key: keys.engagement.global, members: posts },
    );
    lemma_gets_command(
        keys,
        now,
        origin,
        start,
        PhaseModel::WalkPutTimeline { walk, page, timeline, engagement },
        store,
        write,
    );
    lemma_gets_command(
        keys,
        now,
        origin,
        start,
        PhaseModel::WalkPutEngagement { walk, page, engagement },
        half,
        write_other,
    );
    assert(same_but(store, next, set![written.0, written.1]));
    if page.len() >= RANKED_SYNC_CHUNK {
        lemma_walk_past(walk, list, at, to);
        lemma_walk(keys, now, origin, start, next, walk.past(page), lo, to, bases)
    } else {
        next
    }
}

/// What `apart` says of each pair of keys a sync writes to.
proof fn lemma_apart(keys: SyncKeys)
    requires
        keys.apart(),
    ensures
        forall|i: int, j: int| #![trigger keys.derived()[i], keys.derived()[j]]
            0 <= i < 9 && 0 <= j < 9 && i != j ==> keys.derived()[i] != keys.derived()[j],
        forall|i: int|
            0 <= i < 9 ==> (#[trigger] keys.derived()[i]) != keys.ranking && keys.derived()[i]
                != keys.timeline.global && keys.derived()[i] != keys.engagement.global,
        forall|i: int, author: Seq<char>|
            0 <= i < 9 ==> (#[trigger] keys.derived()[i]) != (#[trigger] keys.posts_of(author)),
        keys.derived()[0] == keys.timeline.ranked,
        keys.derived()[1] == keys.timeline.staged,
        keys.derived()[2] == keys.timeline.aside,
        keys.derived()[3] == keys.engagement.ranked,
        keys.derived()[4] == keys.engagement.staged,
        keys.derived()[5] == keys.engagement.aside,
        keys.derived()[6] == keys.synced,
        keys.derived()[7] == keys.target,
        keys.derived()[8] == keys.aside,
{
    assert forall|i: int, author: Seq<char>| 0 <= i < 9 implies (#[trigger] keys.derived()[i]) != (
    #[trigger] keys.posts_of(author)) by {
        assert(keys.derived().contains(keys.derived()[i]));
    }
    assert forall|i: int| 0 <= i < 9 implies (#[trigger] keys.derived()[i]) != keys.ranking
        && keys.derived()[i] != keys.timeline.global && keys.derived()[i]
        != keys.engagement.global by {
        assert(keys.derived().contains(keys.derived()[i]));
    }
}

/// The twin of a global set: the posts of the global timeline whose author is
/// ranked, at the scores that the global set gives them.
pub open spec fn twin_of(
    timeline: Map<Seq<char>, i64>,
    scores: Map<Seq<char>, i64>,
    ranking: Map<Seq<char>, i64>,
) -> Map<Seq<char>, i64> {
    Map::new(
        |post: Seq<char>|
            timeline.contains_key(post) && ranking.contains_key(text::author_of(post))
                && scores.contains_key(post),
        |post: Seq<char>| scores[post],
    )
}

impl SyncKeys {
    /// The twin of one sort that `store` calls for under `ranking`.
    pub open spec fn twin(
        self,
        store: StoreModel,
        which: Twin,
        ranking: Map<Seq<char>, i64>,
    ) -> Map<Seq<char>, i64> {
        twin_of(store.at(self.timeline.global), store.at(self.sets(which).global), ranking)
    }
}

/// A walk over the whole timeline into an empty set makes the twin.
proof fn lemma_copied_is_twin(
    set: Map<Seq<char>, i64>,
    ranking: Map<Seq<char>, i64>,
    timeline: Map<Seq<char>, i64>,
    scores: Map<Seq<char>, i64>,
)
    requires
        timeline.dom().finite(),
        copied(
            set,
            Map::empty(),
            ranking,
            sorted_set::listing(timeline),
            0,
            sorted_set::listing(timeline).len() as int,
            scores,
        ),
    ensures
        set == twin_of(timeline, scores, ranking),
{
    sorted_set::lemma_listing(timeline);
    let list = sorted_set::listing(timeline);
    assert forall|member: Seq<char>| sorted_set::score_in(set, member) == sorted_set::score_in(
        twin_of(timeline, scores, ranking),
        member,
    ) by {
        lemma_listed(timeline, list, member);
    }
    lemma_same_scores(set, twin_of(timeline, scores, ranking));
}

/// A listing names exactly the members of its set.
proof fn lemma_listed(
    set: Map<Seq<char>, i64>,
    list: Seq<(Seq<char>, i64)>,
    member: Seq<char>,
)
    requires
        sorted_set::is_listing(set, list),
    ensures
        lists(list, 0, list.len() as int, member) == set.contains_key(member),
{
    if lists(list, 0, list.len() as int, member) {
        let i = choose|i: int| 0 <= i < list.len() && (#[trigger] list[i]).0 == member;
        assert(set.contains_key(list[i].0));
    }
}

/// Copying part of the timeline onto the twin leaves the twin as it is.
proof fn lemma_copied_onto_twin(
    set: Map<Seq<char>, i64>,
    ranking: Map<Seq<char>, i64>,
    timeline: Map<Seq<char>, i64>,
    scores: Map<Seq<char>, i64>,
    lo: int,
    hi: int,
)
    requires
        timeline.dom().finite(),
        0 <= lo,
        hi <= sorted_set::listing(timeline).len(),
        copied(
            set,
            twin_of(timeline, scores, ranking),
            ranking,
            sorted_set::listing(timeline),
            lo,
            hi,
            scores,
        ),
    ensures
        set == twin_of(timeline, scores, ranking),
{
    sorted_set::lemma_listing(timeline);
    let list = sorted_set::listing(timeline);
    let twin = twin_of(timeline, scores, ranking);
    assert forall|member: Seq<char>| sorted_set::score_in(set, member) == sorted_set::score_in(
        twin,
        member,
    ) by {
        if lists(list, lo, hi, member) {
            let i = choose|i: int| lo <= i < hi && (#[trigger] list[i]).0 == member;
            assert(timeline.contains_key(list[i].0));
        }
    }
    lemma_same_scores(set, twin);
}

/// A full build replaces both twins by what the global sets and the target call for.
proof fn lemma_build(
    keys: SyncKeys,
    now: i64,
    origin: Origin,
    start: SyncState,
    store: StoreModel,
) -> (end:
    StoreModel)
    requires
        keys.apart(),
        countable(store.at(keys.timeline.global)),
        store.at(keys.target) == origin.at(keys.ranking),
        now >= i64::MIN + RANKED_BUILD_CATCH_UP_MS,
        gets(keys, now, origin, start, (SyncState { phase: PhaseModel::ReadClock, store })),
    ensures
        gets(keys, now, origin, start, (SyncState { phase: PhaseModel::Commit, store: end })),
        end.at(keys.timeline.ranked) == keys.twin(store, Twin::Timeline, store.at(keys.target)),
        end.at(keys.engagement.ranked) == keys.twin(store, Twin::Engagement, store.at(keys.target)),
        end.at(keys.timeline.staged) == Map::<Seq<char>, i64>::empty(),
        end.at(keys.timeline.aside) == Map::<Seq<char>, i64>::empty(),
        end.at(keys.engagement.staged) == Map::<Seq<char>, i64>::empty(),
        end.at(keys.engagement.aside) == Map::<Seq<char>, i64>::empty(),
        same_but(store, end, keys.derived().take(6).to_set()),
{
    lemma_apart(keys);
    let catch_up = (now - RANKED_BUILD_CATCH_UP_MS) as i64;
    let global = store.at(keys.timeline.global);
    let engaged = store.at(keys.engagement.global);
    let ranking = store.at(keys.target);
    let list = sorted_set::listing(global);
    sorted_set::lemma_listing(global);

    let told = SyncState { phase: PhaseModel::ClearStaged { catch_up }, store };
    let asked = SyncState { phase: PhaseModel::ReadClock, store };
    lemma_gets_kept(keys, now, origin, start, asked);
    lemma_gets_tick(keys, now, origin, start, asked, told);
    assert(global == origin.at(keys.timeline.global));
    assert(engaged == origin.at(keys.engagement.global));

    let staged = seq![keys.timeline.staged, keys.engagement.staged];
    let clear = CommandModel::Unlink { keys: staged };
    assert(staged[0] == keys.timeline.staged && staged[1] == keys.engagement.staged);
    assert(forall|key: Seq<Seq<char>>| #[trigger]
        staged.contains(key) ==> key == staged[0] || key == staged[1]);
    lemma_kept_scratch(keys, origin, store, store.after(clear));
    lemma_gets_command(keys, now, origin, start, PhaseModel::ClearStaged { catch_up }, store, clear);
    let s1 = store.after(clear);
    assert(s1.at(keys.timeline.global) == global);
    assert(s1.at(keys.engagement.global) == engaged);
    assert(s1.at(keys.target) == ranking);
    assert(s1.at(keys.timeline.staged) == Map::<Seq<char>, i64>::empty());
    assert(s1.at(keys.engagement.staged) == Map::<Seq<char>, i64>::empty());
    let bases = (Map::<Seq<char>, i64>::empty(), Map::<Seq<char>, i64>::empty());
    let walk = Walk { live: false, catch_up, cursor: None, seen: 0 };
    let s2 = lemma_walk(keys, now, origin, start, s1, walk, 0, 0, bases);
    lemma_copied_is_twin(s2.at(keys.timeline.staged), ranking, global, global);
    lemma_copied_is_twin(s2.at(keys.engagement.staged), ranking, global, engaged);

    let swap = CommandModel::SwapIn {
        staged: keys.timeline.staged,
        live: keys.timeline.ranked,
        aside: keys.timeline.aside,
    };
    let s3 = s2.after(swap);
    lemma_swapped(s2, keys.timeline.staged, keys.timeline.ranked, keys.timeline.aside);
    let swapping = SyncState { phase: PhaseModel::Swap { which: Twin::Timeline, catch_up }, store: s2 };
    lemma_gets_kept(keys, now, origin, start, swapping);
    assert(s3.at(keys.engagement.ranked) == s2.at(keys.engagement.ranked));
    if origin.watched(keys) {
        assert(tidy(keys, origin.store, Twin::Engagement, s2.at(keys.sets(Twin::Engagement).ranked)));
    }
    lemma_kept_twins(keys, origin, s2, s3);
    lemma_gets_command(
        keys,
        now,
        origin,
        start,
        PhaseModel::Swap { which: Twin::Timeline, catch_up },
        s2,
        swap,
    );
    let swap_other = CommandModel::SwapIn {
        staged: keys.engagement.staged,
        live: keys.engagement.ranked,
        aside: keys.engagement.aside,
    };
    let s4 = s3.after(swap_other);
    lemma_swapped(s3, keys.engagement.staged, keys.engagement.ranked, keys.engagement.aside);
    assert(s4.at(keys.timeline.ranked) == s3.at(keys.timeline.ranked));
    lemma_kept_twins(keys, origin, s3, s4);
    lemma_gets_command(
        keys,
        now,
        origin,
        start,
        PhaseModel::Swap { which: Twin::Engagement, catch_up },
        s3,
        swap_other,
    );

    let again = Walk { live: true, catch_up, cursor: Some(catch_up), seen: 0 };
    let lo = sorted_set::below(list, catch_up) as int;
    sorted_set::lemma_below(list, catch_up);
    let twins = (s4.at(keys.timeline.ranked), s4.at(keys.engagement.ranked));
    assert(s4.at(keys.timeline.global) == global);
    assert(s4.at(keys.engagement.global) == engaged);
    assert(s4.at(keys.target) == ranking);
    let s5 = lemma_walk(keys, now, origin, start, s4, again, lo, lo, twins);
    lemma_copied_onto_twin(s5.at(keys.timeline.ranked), ranking, global, global, lo, list.len() as int);
    lemma_copied_onto_twin(s5.at(keys.engagement.ranked), ranking, global, engaged, lo, list.len() as int);
    assert forall|key: Seq<Seq<char>>| #[trigger]
        s5.at(key) == store.at(key) || keys.derived().take(6).to_set().contains(key) by {
        let scratch = keys.derived().take(6);
        assert(scratch[0] == keys.timeline.ranked && scratch[1] == keys.timeline.staged
            && scratch[2] == keys.timeline.aside && scratch[3] == keys.engagement.ranked
            && scratch[4] == keys.engagement.staged && scratch[5] == keys.engagement.aside);
    }
    s5
}

/// What swapping a staged set in leaves behind.
proof fn lemma_swapped(
    store: StoreModel,
    staged: Seq<Seq<char>>,
    live: Seq<Seq<char>>,
    aside: Seq<Seq<char>>,
)
    requires
        staged != live,
        live != aside,
    ensures
        ({
            let end = store.after(CommandModel::SwapIn { staged, live, aside });
            &&& end.at(live) == store.at(staged)
            &&& end.at(staged) == Map::<Seq<char>, i64>::empty()
            &&& end.at(aside) == Map::<Seq<char>, i64>::empty()
            &&& same_but(store, end, set![staged, live, aside])
        }),
{
    let gone = seq![staged, aside];
    assert(gone[0] == staged && gone[1] == aside);
    assert(forall|key: Seq<Seq<char>>| #[trigger]
        gone.contains(key) ==> key == gone[0] || key == gone[1]);
}

/// `set` is `base` once the posts in `changed` were added (`entered`) or
/// removed. A post that is added takes its score in `scores`, and one that has
/// none there is skipped.
pub open spec fn applied(
    set: Map<Seq<char>, i64>,
    base: Map<Seq<char>, i64>,
    scores: Map<Seq<char>, i64>,
    changed: Set<Seq<char>>,
    entered: bool,
) -> bool {
    forall|post: Seq<char>| #[trigger]
        sorted_set::score_in(set, post) == (if !changed.contains(post) {
            sorted_set::score_in(base, post)
        } else if !entered {
            None
        } else if scores.contains_key(post) {
            Some(scores[post])
        } else {
            sorted_set::score_in(base, post)
        })
}

/// Writing the scored posts of a page adds that page.
proof fn lemma_applied_put(
    set: Map<Seq<char>, i64>,
    base: Map<Seq<char>, i64>,
    scores: Map<Seq<char>, i64>,
    changed: Set<Seq<char>>,
    posts: Seq<Seq<char>>,
)
    requires
        applied(set, base, scores, changed, true),
    ensures
        applied(
            sorted_set::put_all(
                set,
                ranked_sync::scored_members(posts, scores_of(scores, posts)),
            ),
            base,
            scores,
            changed.union(posts.to_set()),
            true,
        ),
{
    let elements = ranked_sync::scored_members(posts, scores_of(scores, posts));
    lemma_scored(posts, scores);
    sorted_set::lemma_put_all(set, elements, scores);
    let end = sorted_set::put_all(set, elements);
    assert forall|post: Seq<char>| #[trigger]
        sorted_set::score_in(end, post) == (if !changed.union(posts.to_set()).contains(post) {
            sorted_set::score_in(base, post)
        } else if scores.contains_key(post) {
            Some(scores[post])
        } else {
            sorted_set::score_in(base, post)
        }) by {
        assert(posts.to_set().contains(post) == posts.contains(post));
        assert(sorted_set::writes(elements, post) <==> (posts.contains(post)
            && scores.contains_key(post)));
        assert(sorted_set::score_in(set, post) == sorted_set::score_in(set, post));
    }
}

/// Removing the posts of a page takes that page out.
proof fn lemma_applied_remove(
    set: Map<Seq<char>, i64>,
    base: Map<Seq<char>, i64>,
    scores: Map<Seq<char>, i64>,
    changed: Set<Seq<char>>,
    posts: Seq<Seq<char>>,
)
    requires
        applied(set, base, scores, changed, false),
    ensures
        applied(
            set.remove_keys(posts.to_set()),
            base,
            scores,
            changed.union(posts.to_set()),
            false,
        ),
{
    let end = set.remove_keys(posts.to_set());
    assert forall|post: Seq<char>| #[trigger]
        sorted_set::score_in(end, post) == (if !changed.union(posts.to_set()).contains(post) {
            sorted_set::score_in(base, post)
        } else {
            None
        }) by {
        assert(sorted_set::score_in(set, post) == sorted_set::score_in(set, post));
    }
}

/// The post keys of the first `n` posts that `list` names of `author`.
spec fn first_posts(author: Seq<char>, list: Seq<(Seq<char>, i64)>, n: int) -> Set<Seq<char>> {
    Set::new(
        |post: Seq<char>|
            exists|i: int|
                0 <= i < n && text::post_key_of(author, (#[trigger] list[i]).0) == post,
    )
}

/// The post keys of `author` for the post ids in `ids`.
pub open spec fn posts_by(author: Seq<char>, ids: Map<Seq<char>, i64>) -> Set<Seq<char>> {
    Set::new(
        |post: Seq<char>|
            exists|id: Seq<char>| #[trigger]
                ids.contains_key(id) && text::post_key_of(author, id) == post,
    )
}

proof fn lemma_first_posts_all(
    author: Seq<char>,
    ids: Map<Seq<char>, i64>,
    list: Seq<(Seq<char>, i64)>,
)
    requires
        sorted_set::is_listing(ids, list),
    ensures
        first_posts(author, list, list.len() as int) == posts_by(author, ids),
{
    let head = first_posts(author, list, list.len() as int);
    let all = posts_by(author, ids);
    assert forall|post: Seq<char>| head.contains(post) == all.contains(post) by {
        if head.contains(post) {
            let i = choose|i: int|
                0 <= i < list.len() && text::post_key_of(author, (#[trigger] list[i]).0) == post;
            assert(ids.contains_key(list[i].0));
        }
        if all.contains(post) {
            let id = choose|id: Seq<char>| #[trigger]
                ids.contains_key(id) && text::post_key_of(author, id) == post;
            let i = choose|i: int| 0 <= i < list.len() && (#[trigger] list[i]).0 == id;
            assert(text::post_key_of(author, list[i].0) == post);
        }
    }
    assert(head =~= all);
}

proof fn lemma_first_posts_on(
    author: Seq<char>,
    list: Seq<(Seq<char>, i64)>,
    from: int,
    to: int,
)
    requires
        0 <= from <= to <= list.len(),
    ensures
        first_posts(author, list, to) == first_posts(author, list, from).union(
            ranked_sync::post_keys_of(author, list.subrange(from, to)).to_set(),
        ),
{
    let page = list.subrange(from, to);
    let posts = ranked_sync::post_keys_of(author, page);
    let left = first_posts(author, list, to);
    let right = first_posts(author, list, from).union(posts.to_set());
    assert forall|post: Seq<char>| left.contains(post) == right.contains(post) by {
        if left.contains(post) {
            let i = choose|i: int|
                0 <= i < to && text::post_key_of(author, (#[trigger] list[i]).0) == post;
            if i >= from {
                assert(posts[i - from] == post);
            }
        }
        if posts.to_set().contains(post) {
            let i = posts.index_of(post);
            assert(page[i] == list[from + i]);
            assert(text::post_key_of(author, list[from + i].0) == post);
        }
    }
    assert(left =~= right);
}

/// The live twins of a store.
spec fn twins(keys: SyncKeys, store: StoreModel) -> (Map<Seq<char>, i64>, Map<Seq<char>, i64>) {
    (store.at(keys.timeline.ranked), store.at(keys.engagement.ranked))
}

/// Both twins are `bases` once the posts in `changed` were added or removed.
spec fn both_applied(
    keys: SyncKeys,
    store: StoreModel,
    bases: (Map<Seq<char>, i64>, Map<Seq<char>, i64>),
    changed: Set<Seq<char>>,
    entered: bool,
) -> bool {
    &&& applied(
        store.at(keys.timeline.ranked),
        bases.0,
        store.at(keys.timeline.global),
        changed,
        entered,
    )
    &&& applied(
        store.at(keys.engagement.ranked),
        bases.1,
        store.at(keys.engagement.global),
        changed,
        entered,
    )
}

/// Only the live twins differ.
spec fn same_but_twins(keys: SyncKeys, before: StoreModel, after: StoreModel) -> bool {
    same_but(before, after, set![keys.timeline.ranked, keys.engagement.ranked])
}

/// Both of `sets` score every post as the ranking of the last sync calls for or
/// as the published one does.
spec fn both_between(
    keys: SyncKeys,
    origin: Origin,
    sets: (Map<Seq<char>, i64>, Map<Seq<char>, i64>),
) -> bool {
    &&& between(
        sets.0,
        keys.twin(origin.store, Twin::Timeline, origin.at(keys.synced)),
        keys.twin(origin.store, Twin::Timeline, origin.at(keys.ranking)),
    )
    &&& between(
        sets.1,
        keys.twin(origin.store, Twin::Engagement, origin.at(keys.synced)),
        keys.twin(origin.store, Twin::Engagement, origin.at(keys.ranking)),
    )
}

/// The authors who entered the ranking since the last sync, or those who left it.
spec fn movers(keys: SyncKeys, origin: Origin, entered: bool) -> Set<Seq<char>> {
    if entered {
        newcomers(origin.at(keys.ranking), origin.at(keys.synced))
    } else {
        newcomers(origin.at(keys.synced), origin.at(keys.ranking))
    }
}

/// Adding posts of authors who entered, or removing posts of authors who left,
/// brings a twin no further from either ranking.
proof fn lemma_applied_between(
    keys: SyncKeys,
    origin: Origin,
    which: Twin,
    set: Map<Seq<char>, i64>,
    base: Map<Seq<char>, i64>,
    changed: Set<Seq<char>>,
    entered: bool,
)
    requires
        posts_agree(keys, origin.store),
        between(
            base,
            keys.twin(origin.store, which, origin.at(keys.synced)),
            keys.twin(origin.store, which, origin.at(keys.ranking)),
        ),
        applied(set, base, origin.at(keys.sets(which).global), changed, entered),
        changed.subset_of(posts_by_all(keys, origin.store, movers(keys, origin, entered))),
    ensures
        between(
            set,
            keys.twin(origin.store, which, origin.at(keys.synced)),
            keys.twin(origin.store, which, origin.at(keys.ranking)),
        ),
{
    let old = keys.twin(origin.store, which, origin.at(keys.synced));
    let new = keys.twin(origin.store, which, origin.at(keys.ranking));
    assert forall|post: Seq<char>| #[trigger]
        sorted_set::score_in(set, post) == sorted_set::score_in(old, post) || sorted_set::score_in(
            set,
            post,
        ) == sorted_set::score_in(new, post) by {
        assert(sorted_set::score_in(base, post) == sorted_set::score_in(old, post)
            || sorted_set::score_in(base, post) == sorted_set::score_in(new, post));
        if changed.contains(post) {
            lemma_moved_post(keys, origin, post, entered);
        }
    }
}

/// A post of an author who entered or left stands in the global timeline, and
/// its key names that author.
proof fn lemma_moved_post(keys: SyncKeys, origin: Origin, post: Seq<char>, entered: bool)
    requires
        posts_agree(keys, origin.store),
        posts_by_all(keys, origin.store, movers(keys, origin, entered)).contains(post),
    ensures
        origin.at(keys.timeline.global).contains_key(post),
        movers(keys, origin, entered).contains(text::author_of(post)),
{
    let author = choose|author: Seq<char>| #[trigger]
        movers(keys, origin, entered).contains(author) && posts_by(
            author,
            origin.at(keys.posts_of(author)),
        ).contains(post);
    let ids = origin.at(keys.posts_of(author));
    let id = choose|id: Seq<char>| #[trigger]
        ids.contains_key(id) && text::post_key_of(author, id) == post;
    assert(moved(keys, origin.store, author));
    assert(origin.at(keys.posts_of(author)).contains_key(id));
    text::lemma_author_of_post_key(author, id);
}

/// Adding or removing posts of authors who moved keeps the store.
proof fn lemma_kept_applied(
    keys: SyncKeys,
    origin: Origin,
    store: StoreModel,
    next: StoreModel,
    bases: (Map<Seq<char>, i64>, Map<Seq<char>, i64>),
    changed: (Set<Seq<char>>, Set<Seq<char>>),
    entered: bool,
)
    requires
        keys.apart(),
        kept(keys, origin, store),
        same_but_twins(keys, store, next),
        origin.watched(keys) ==> both_between(keys, origin, bases),
        applied(
            next.at(keys.timeline.ranked),
            bases.0,
            store.at(keys.timeline.global),
            changed.0,
            entered,
        ),
        applied(
            next.at(keys.engagement.ranked),
            bases.1,
            store.at(keys.engagement.global),
            changed.1,
            entered,
        ),
        changed.0.subset_of(posts_by_all(keys, origin.store, movers(keys, origin, entered))),
        changed.1.subset_of(posts_by_all(keys, origin.store, movers(keys, origin, entered))),
    ensures
        kept(keys, origin, next),
{
    lemma_apart(keys);
    assert(store.at(keys.timeline.global) == origin.at(keys.timeline.global));
    assert(store.at(keys.engagement.global) == origin.at(keys.engagement.global));
    if origin.watched(keys) {
        lemma_applied_between(
            keys,
            origin,
            Twin::Timeline,
            next.at(keys.timeline.ranked),
            bases.0,
            changed.0,
            entered,
        );
        lemma_applied_between(
            keys,
            origin,
            Twin::Engagement,
            next.at(keys.engagement.ranked),
            bases.1,
            changed.1,
            entered,
        );
    }
    lemma_kept_twins(keys, origin, store, next);
}

/// One page of an author's posts, added to or removed from both twins.
proof fn lemma_author_page(
    keys: SyncKeys,
    now: i64,
    origin: Origin,
    start: SyncState,
    store: StoreModel,
    at: AuthorPosModel,
    bases: (Map<Seq<char>, i64>, Map<Seq<char>, i64>),
    changed: Set<Seq<char>>,
    posts: Seq<Seq<char>>,
    more: bool,
) -> (end: StoreModel)
    requires
        keys.apart(),
        at.from <= usize::MAX - 2 * RANKED_SYNC_CHUNK,
        at.diff.from <= usize::MAX - 2 * RANKED_SYNC_CHUNK,
        both_applied(keys, store, bases, changed, at.diff.entered),
        origin.watched(keys) ==> both_between(keys, origin, bases),
        changed.union(posts.to_set()).subset_of(
            posts_by_all(keys, origin.store, movers(keys, origin, at.diff.entered)),
        ),
        gets(
            keys,
            now,
            origin,
            start,
            (SyncState {
                phase: (if at.diff.entered {
                    PhaseModel::AuthorScores { at, which: Twin::Timeline, posts, more }
                } else {
                    PhaseModel::AuthorRemove { at, which: Twin::Timeline, posts, more }
                }),
                store,
            }),
        ),
    ensures
        gets(
            keys,
            now,
            origin,
            start,
            (SyncState { phase: ranked_sync::author_page_done(at, more), store: end }),
        ),
        same_but_twins(keys, store, end),
        both_applied(keys, end, bases, changed.union(posts.to_set()), at.diff.entered),
{
    lemma_apart(keys);
    let global = store.at(keys.timeline.global);
    let engaged = store.at(keys.engagement.global);
    let wider = changed.union(posts.to_set());
    assert(changed.subset_of(wider));
    if at.diff.entered {
        lemma_gets_kept(
            keys,
            now,
            origin,
            start,
            SyncState {
                phase: PhaseModel::AuthorScores { at, which: Twin::Timeline, posts, more },
                store,
            },
        );
        lemma_gets_command(
            keys,
            now,
            origin,
            start,
            PhaseModel::AuthorScores { at, which: Twin::Timeline, posts, more },
            store,
            CommandModel::Scores { key: keys.timeline.global, members: posts },
        );
        let elements = ranked_sync::scored_members(posts, scores_of(global, posts));
        let write = CommandModel::Put { key: keys.timeline.ranked, elements };
        lemma_applied_put(twins(keys, store).0, bases.0, global, changed, posts);
        lemma_applied_put(twins(keys, store).1, bases.1, engaged, changed, posts);
        lemma_kept_applied(
            keys,
            origin,
            store,
            store.after(write),
            bases,
            (wider, changed),
            true,
        );
        lemma_gets_command(
            keys,
            now,
            origin,
            start,
            PhaseModel::AuthorPut { at, which: Twin::Timeline, posts, elements, more },
            store,
            write,
        );
        let half = store.after(write);
        lemma_gets_command(
            keys,
            now,
            origin,
            start,
            PhaseModel::AuthorScores { at, which: Twin::Engagement, posts, more },
            half,
            CommandModel::Scores { key: keys.engagement.global, members: posts },
        );
        assert(half.at(keys.engagement.global) == engaged);
        let others = ranked_sync::scored_members(posts, scores_of(engaged, posts));
        let write_other = CommandModel::Put { key: keys.engagement.ranked, elements: others };
        lemma_kept_applied(
            keys,
            origin,
            half,
            half.after(write_other),
            bases,
            (wider, wider),
            true,
        );
        lemma_gets_command(
            keys,
            now,
            origin,
            start,
            PhaseModel::AuthorPut {
                at,
                which: Twin::Engagement,
                posts,
                elements: others,
                more,
            },
            half,
            write_other,
        );
        half.after(write_other)
    } else {
        let remove = CommandModel::Remove { key: keys.timeline.ranked, members: posts };
        lemma_gets_kept(
            keys,
            now,
            origin,
            start,
            SyncState {
                phase: PhaseModel::AuthorRemove { at, which: Twin::Timeline, posts, more },
                store,
            },
        );
        lemma_applied_remove(twins(keys, store).0, bases.0, global, changed, posts);
        lemma_applied_remove(twins(keys, store).1, bases.1, engaged, changed, posts);
        lemma_kept_applied(
            keys,
            origin,
            store,
            store.after(remove),
            bases,
            (wider, changed),
            false,
        );
        lemma_gets_command(
            keys,
            now,
            origin,
            start,
            PhaseModel::AuthorRemove { at, which: Twin::Timeline, posts, more },
            store,
            remove,
        );
        let half = store.after(remove);
        let remove_other = CommandModel::Remove { key: keys.engagement.ranked, members: posts };
        lemma_kept_applied(
            keys,
            origin,
            half,
            half.after(remove_other),
            bases,
            (wider, wider),
            false,
        );
        lemma_gets_command(
            keys,
            now,
            origin,
            start,
            PhaseModel::AuthorRemove { at, which: Twin::Engagement, posts, more },
            half,
            remove_other,
        );
        half.after(remove_other)
    }
}

/// From the page that starts at `at.from` on, the rest of an author's posts is
/// added to or removed from both twins.
proof fn lemma_author(
    keys: SyncKeys,
    now: i64,
    origin: Origin,
    start: SyncState,
    store: StoreModel,
    at: AuthorPosModel,
    bases: (Map<Seq<char>, i64>, Map<Seq<char>, i64>),
    changed: Set<Seq<char>>,
) -> (end: StoreModel)
    requires
        keys.apart(),
        countable(store.at(keys.posts_of(at.author))),
        at.from <= sorted_set::listing(store.at(keys.posts_of(at.author))).len(),
        origin.watched(keys) ==> both_between(keys, origin, bases),
        movers(keys, origin, at.diff.entered).contains(at.author),
        changed.subset_of(posts_by_all(keys, origin.store, movers(keys, origin, at.diff.entered))),
        at.diff.from <= usize::MAX - 2 * RANKED_SYNC_CHUNK,
        both_applied(
            keys,
            store,
            bases,
            changed.union(
                first_posts(
                    at.author,
                    sorted_set::listing(store.at(keys.posts_of(at.author))),
                    at.from as int,
                ),
            ),
            at.diff.entered,
        ),
        gets(keys, now, origin, start, (SyncState { phase: PhaseModel::AuthorRead { at }, store })),
    ensures
        gets(
            keys,
            now,
            origin,
            start,
            (SyncState {
                phase: ranked_sync::next_author(at.diff, at.rest, at.more_authors),
                store: end,
            }),
        ),
        same_but_twins(keys, store, end),
        both_applied(
            keys,
            end,
            bases,
            changed.union(posts_by(at.author, store.at(keys.posts_of(at.author)))),
            at.diff.entered,
        ),
    decreases sorted_set::listing(store.at(keys.posts_of(at.author))).len() - at.from,
{
    lemma_apart(keys);
    let ids = store.at(keys.posts_of(at.author));
    let list = sorted_set::listing(ids);
    sorted_set::lemma_listing(ids);
    sorted_set::lemma_listing_len(ids, list);
    let from = at.from as int;
    let to = if from + 1000 <= list.len() {
        from + 1000
    } else {
        list.len() as int
    };
    let page = list.subrange(from, to);
    assert(sorted_set::window(list, at.from as nat, Some(1000)) =~= page);
    lemma_gets_kept(
        keys,
        now,
        origin,
        start,
        SyncState { phase: PhaseModel::AuthorRead { at }, store },
    );
    lemma_gets_command(
        keys,
        now,
        origin,
        start,
        PhaseModel::AuthorRead { at },
        store,
        CommandModel::PageByRank {
            key: keys.posts_of(at.author),
            from: at.from as nat,
            to: (at.from + RANKED_SYNC_CHUNK - 1) as nat,
        },
    );
    let posts = ranked_sync::post_keys_of(at.author, page);
    let more = page.len() >= RANKED_SYNC_CHUNK;
    let before = changed.union(first_posts(at.author, list, from));
    lemma_gets_kept(
        keys,
        now,
        origin,
        start,
        SyncState {
            phase: (if at.diff.entered {
                PhaseModel::AuthorScores { at, which: Twin::Timeline, posts, more }
            } else {
                PhaseModel::AuthorRemove { at, which: Twin::Timeline, posts, more }
            }),
            store,
        },
    );
    let moved = posts_by_all(keys, origin.store, movers(keys, origin, at.diff.entered));
    assert(before.union(posts.to_set()).subset_of(moved)) by {
        assert(origin.at(keys.posts_of(at.author)) == ids);
        lemma_first_posts_on(at.author, list, from, to);
        assert forall|post: Seq<char>| first_posts(at.author, list, to).contains(
            post,
        ) implies moved.contains(post) by {
            let i = choose|i: int|
                0 <= i < to && text::post_key_of(at.author, (#[trigger] list[i]).0) == post;
            assert(ids.contains_key(list[i].0));
            assert(posts_by(at.author, origin.at(keys.posts_of(at.author))).contains(post));
        }
    }
    let next = lemma_author_page(keys, now, origin, start, store, at, bases, before, posts, more);
    lemma_first_posts_on(at.author, list, from, to);
    assert(before.union(posts.to_set()) =~= changed.union(first_posts(at.author, list, to)));
    assert(next.at(keys.posts_of(at.author)) == ids);
    if more {
        let further = AuthorPosModel { from: (at.from + RANKED_SYNC_CHUNK) as usize, ..at };
        lemma_author(keys, now, origin, start, next, further, bases, changed)
    } else {
        lemma_first_posts_all(at.author, ids, list);
        next
    }
}

/// The post keys of all posts by `authors`.
pub open spec fn posts_by_all(
    keys: SyncKeys,
    store: StoreModel,
    authors: Set<Seq<char>>,
) -> Set<Seq<char>> {
    Set::new(
        |post: Seq<char>|
            exists|author: Seq<char>| #[trigger]
                authors.contains(author) && posts_by(
                    author,
                    store.at(keys.posts_of(author)),
                ).contains(post),
    )
}

/// The changed authors of a page, one after the other.
proof fn lemma_authors(
    keys: SyncKeys,
    now: i64,
    origin: Origin,
    start: SyncState,
    store: StoreModel,
    diff: DiffPos,
    authors: Seq<Seq<char>>,
    more: bool,
    bases: (Map<Seq<char>, i64>, Map<Seq<char>, i64>),
    changed: Set<Seq<char>>,
) -> (end: StoreModel)
    requires
        keys.apart(),
        forall|author: Seq<char>| countable(store.at(#[trigger] keys.posts_of(author))),
        diff.from <= usize::MAX - 2 * RANKED_SYNC_CHUNK,
        both_applied(keys, store, bases, changed, diff.entered),
        origin.watched(keys) ==> both_between(keys, origin, bases),
        forall|i: int|
            0 <= i < authors.len() ==> movers(keys, origin, diff.entered).contains(
                #[trigger] authors[i],
            ),
        changed.subset_of(posts_by_all(keys, origin.store, movers(keys, origin, diff.entered))),
        gets(
            keys,
            now,
            origin,
            start,
            (SyncState { phase: ranked_sync::next_author(diff, authors, more), store }),
        ),
    ensures
        gets(
            keys,
            now,
            origin,
            start,
            (SyncState { phase: ranked_sync::next_author(diff, Seq::empty(), more), store: end }),
        ),
        same_but_twins(keys, store, end),
        both_applied(
            keys,
            end,
            bases,
            changed.union(posts_by_all(keys, store, authors.to_set())),
            diff.entered,
        ),
    decreases authors.len(),
{
    lemma_apart(keys);
    if authors.len() == 0 {
        assert(authors =~= Seq::empty());
        assert(changed.union(posts_by_all(keys, store, authors.to_set())) =~= changed);
        store
    } else {
        let author = authors[0];
        let rest = authors.skip(1);
        let at = AuthorPosModel { diff, author, rest, more_authors: more, from: 0 };
        let ids = store.at(keys.posts_of(author));
        let list = sorted_set::listing(ids);
        assert(changed.union(first_posts(author, list, 0)) =~= changed);
        assert(movers(keys, origin, diff.entered).contains(authors[0]));
        let next = lemma_author(keys, now, origin, start, store, at, bases, changed);
        let wider = changed.union(posts_by(author, ids));
        lemma_gets_kept(
            keys,
            now,
            origin,
            start,
            SyncState { phase: ranked_sync::next_author(diff, rest, more), store: next },
        );
        assert(wider.subset_of(
            posts_by_all(keys, origin.store, movers(keys, origin, diff.entered)),
        )) by {
            assert(next.at(keys.posts_of(author)) == ids);
            assert(origin.at(keys.posts_of(author)) == ids);
            assert(movers(keys, origin, diff.entered).contains(authors[0]));
        }
        assert forall|i: int| 0 <= i < rest.len() implies movers(
            keys,
            origin,
            diff.entered,
        ).contains(#[trigger] rest[i]) by {
            assert(rest[i] == authors[i + 1]);
        }
        assert forall|other: Seq<char>| countable(next.at(#[trigger] keys.posts_of(other))) by {
            assert(next.at(keys.posts_of(other)) == store.at(keys.posts_of(other)));
        }
        let end = lemma_authors(keys, now, origin, start, next, diff, rest, more, bases, wider);
        let left = wider.union(posts_by_all(keys, next, rest.to_set()));
        let right = changed.union(posts_by_all(keys, store, authors.to_set()));
        assert forall|post: Seq<char>| left.contains(post) == right.contains(post) by {
            if posts_by(author, ids).contains(post) {
                assert(authors.to_set().contains(author)) by {
                    assert(authors[0] == author);
                }
            }
            if posts_by_all(keys, next, rest.to_set()).contains(post) {
                let other = choose|other: Seq<char>| #[trigger]
                    rest.to_set().contains(other) && posts_by(
                        other,
                        next.at(keys.posts_of(other)),
                    ).contains(post);
                let i = rest.index_of(other);
                assert(authors[i + 1] == other);
                assert(authors.to_set().contains(other));
                assert(next.at(keys.posts_of(other)) == store.at(keys.posts_of(other)));
            }
            if posts_by_all(keys, store, authors.to_set()).contains(post) {
                let other = choose|other: Seq<char>| #[trigger]
                    authors.to_set().contains(other) && posts_by(
                        other,
                        store.at(keys.posts_of(other)),
                    ).contains(post);
                let i = authors.index_of(other);
                if i > 0 {
                    assert(rest[i - 1] == other);
                    assert(rest.to_set().contains(other));
                    assert(next.at(keys.posts_of(other)) == store.at(keys.posts_of(other)));
                }
            }
        }
        assert(left =~= right);
        end
    }
}

/// The authors that `ranking` holds and `previous` does not.
pub open spec fn newcomers(
    ranking: Map<Seq<char>, i64>,
    previous: Map<Seq<char>, i64>,
) -> Set<Seq<char>> {
    Set::new(
        |author: Seq<char>| ranking.contains_key(author) && !previous.contains_key(author),
    )
}

/// Of the first `n` authors that `list` names, those that `previous` does not hold.
spec fn first_newcomers(
    list: Seq<(Seq<char>, i64)>,
    n: int,
    previous: Map<Seq<char>, i64>,
) -> Set<Seq<char>> {
    Set::new(|author: Seq<char>| lists(list, 0, n, author) && !previous.contains_key(author))
}

proof fn lemma_unscored_in(members: Seq<Seq<char>>, set: Map<Seq<char>, i64>, n: nat)
    requires
        n <= members.len(),
    ensures
        forall|member: Seq<char>| #[trigger]
            ranked_sync::unscored_in(members, scores_of(set, members), n).contains(member) <==> (
            members.take(n as int).contains(member) && !set.contains_key(member)),
    decreases n,
{
    let left = ranked_sync::unscored_in(members, scores_of(set, members), n);
    if n > 0 {
        let before = ranked_sync::unscored_in(members, scores_of(set, members), (n - 1) as nat);
        lemma_unscored_in(members, set, (n - 1) as nat);
        let shorter = members.take(n - 1);
        let longer = members.take(n as int);
        assert(longer =~= shorter.push(members[n - 1]));
        assert forall|member: Seq<char>| #[trigger]
            left.contains(member) <==> (longer.contains(member) && !set.contains_key(member)) by {
            assert(before.contains(member) <==> (shorter.contains(member) && !set.contains_key(
                member,
            )));
            if left.contains(member) {
                let i = left.index_of(member);
                if i < before.len() {
                    assert(before[i] == member);
                    let j = shorter.index_of(member);
                    assert(longer[j] == member);
                } else {
                    assert(longer[n - 1] == member);
                }
            }
            if longer.contains(member) && !set.contains_key(member) {
                let j = longer.index_of(member);
                if j < n - 1 {
                    assert(shorter[j] == member);
                    let i = before.index_of(member);
                    assert(left[i] == member);
                } else {
                    assert(left[before.len() as int] == member);
                }
            }
        }
    } else {
        assert(members.take(0).len() == 0);
    }
}

proof fn lemma_first_newcomers_on(
    list: Seq<(Seq<char>, i64)>,
    from: int,
    to: int,
    previous: Map<Seq<char>, i64>,
)
    requires
        0 <= from <= to <= list.len(),
    ensures
        ({
            let members = ranked_sync::members_of(list.subrange(from, to));
            first_newcomers(list, to, previous) == first_newcomers(list, from, previous).union(
                ranked_sync::unscored(members, scores_of(previous, members)).to_set(),
            )
        }),
{
    let page = list.subrange(from, to);
    let members = ranked_sync::members_of(page);
    let fresh = ranked_sync::unscored(members, scores_of(previous, members));
    lemma_unscored_in(members, previous, members.len());
    assert(members.take(members.len() as int) =~= members);
    let left = first_newcomers(list, to, previous);
    let right = first_newcomers(list, from, previous).union(fresh.to_set());
    assert forall|author: Seq<char>| left.contains(author) == right.contains(author) by {
        assert(fresh.to_set().contains(author) == fresh.contains(author));
        if left.contains(author) {
            let i = choose|i: int| 0 <= i < to && (#[trigger] list[i]).0 == author;
            if i >= from {
                assert(members[i - from] == author);
            } else {
                assert(lists(list, 0, from, author));
            }
        }
        if fresh.contains(author) {
            let i = members.index_of(author);
            assert(list[from + i].0 == author);
        }
        if lists(list, 0, from, author) {
            let i = choose|i: int| 0 <= i < from && (#[trigger] list[i]).0 == author;
            assert(lists(list, 0, to, author));
        }
    }
    assert(left =~= right);
}

impl SyncKeys {
    /// The ranking that is paged while authors enter, or while they leave.
    spec fn paged(self, entered: bool) -> Seq<Seq<char>> {
        if entered {
            self.target
        } else {
            self.synced
        }
    }
}

/// From the page that `diff` names on, the rest of one ranking is compared with
/// the other, and the posts of its newcomers are added to or removed from both twins.
proof fn lemma_diff(
    keys: SyncKeys,
    now: i64,
    origin: Origin,
    start: SyncState,
    store: StoreModel,
    diff: DiffPos,
    bases: (Map<Seq<char>, i64>, Map<Seq<char>, i64>),
) -> (end: StoreModel)
    requires
        keys.apart(),
        countable(store.at(keys.paged(diff.entered))),
        forall|author: Seq<char>| countable(store.at(#[trigger] keys.posts_of(author))),
        diff.from <= sorted_set::listing(store.at(keys.paged(diff.entered))).len(),
        store.at(keys.target) == origin.at(keys.ranking),
        origin.watched(keys) ==> both_between(keys, origin, bases),
        both_applied(
            keys,
            store,
            bases,
            posts_by_all(
                keys,
                store,
                first_newcomers(
                    sorted_set::listing(store.at(keys.paged(diff.entered))),
                    diff.from as int,
                    store.at(keys.paged(!diff.entered)),
                ),
            ),
            diff.entered,
        ),
        gets(keys, now, origin, start, (SyncState { phase: PhaseModel::DiffRead { diff }, store })),
    ensures
        gets(
            keys,
            now,
            origin,
            start,
            (SyncState {
                phase: (if diff.entered {
                    PhaseModel::DiffRead { diff: DiffPos { entered: false, from: 0 } }
                } else {
                    PhaseModel::Commit
                }),
                store: end,
            }),
        ),
        same_but_twins(keys, store, end),
        both_applied(
            keys,
            end,
            bases,
            posts_by_all(
                keys,
                store,
                newcomers(
                    store.at(keys.paged(diff.entered)),
                    store.at(keys.paged(!diff.entered)),
                ),
            ),
            diff.entered,
        ),
    decreases sorted_set::listing(store.at(keys.paged(diff.entered))).len() - diff.from,
{
    lemma_apart(keys);
    let ranking = store.at(keys.paged(diff.entered));
    let previous = store.at(keys.paged(!diff.entered));
    let list = sorted_set::listing(ranking);
    sorted_set::lemma_listing(ranking);
    sorted_set::lemma_listing_len(ranking, list);
    let from = diff.from as int;
    let to = if from + 1000 <= list.len() {
        from + 1000
    } else {
        list.len() as int
    };
    let page = list.subrange(from, to);
    assert(sorted_set::window(list, diff.from as nat, Some(1000)) =~= page);
    lemma_gets_kept(
        keys,
        now,
        origin,
        start,
        SyncState { phase: PhaseModel::DiffRead { diff }, store },
    );
    assert(newcomers(ranking, previous) == movers(keys, origin, diff.entered));
    lemma_gets_command(
        keys,
        now,
        origin,
        start,
        PhaseModel::DiffRead { diff },
        store,
        CommandModel::PageByRank {
            key: keys.paged(diff.entered),
            from: diff.from as nat,
            to: (diff.from + RANKED_SYNC_CHUNK - 1) as nat,
        },
    );
    let authors = ranked_sync::members_of(page);
    let more = page.len() >= RANKED_SYNC_CHUNK;
    lemma_gets_command(
        keys,
        now,
        origin,
        start,
        PhaseModel::DiffScores { diff, authors, more },
        store,
        CommandModel::Scores { key: keys.paged(!diff.entered), members: authors },
    );
    let fresh = ranked_sync::unscored(authors, scores_of(previous, authors));
    let before = first_newcomers(list, from, previous);
    let changed = posts_by_all(keys, store, before);
    lemma_unscored_in(authors, previous, authors.len());
    assert(authors.take(authors.len() as int) =~= authors);
    assert forall|i: int| 0 <= i < fresh.len() implies movers(
        keys,
        origin,
        diff.entered,
    ).contains(#[trigger] fresh[i]) by {
        assert(fresh.contains(fresh[i]));
        let j = authors.index_of(fresh[i]);
        assert(ranking.contains_key(list[from + j].0));
    }
    assert(changed.subset_of(posts_by_all(keys, origin.store, movers(keys, origin, diff.entered)))) by {
        assert forall|post: Seq<char>| changed.contains(post) implies posts_by_all(
            keys,
            origin.store,
            movers(keys, origin, diff.entered),
        ).contains(post) by {
            let author = choose|author: Seq<char>| #[trigger]
                before.contains(author) && posts_by(
                    author,
                    store.at(keys.posts_of(author)),
                ).contains(post);
            let i = choose|i: int| 0 <= i < from && (#[trigger] list[i]).0 == author;
            assert(ranking.contains_key(list[i].0));
            assert(movers(keys, origin, diff.entered).contains(author));
            assert(origin.at(keys.posts_of(author)) == store.at(keys.posts_of(author)));
        }
    }
    let next = lemma_authors(keys, now, origin, start, store, diff, fresh, more, bases, changed);
    lemma_first_newcomers_on(list, from, to, previous);
    let wider = first_newcomers(list, to, previous);
    assert(wider == before.union(fresh.to_set()));
    let left = changed.union(posts_by_all(keys, store, fresh.to_set()));
    let right = posts_by_all(keys, store, wider);
    assert forall|post: Seq<char>| left.contains(post) == right.contains(post) by {
        if right.contains(post) {
            let author = choose|author: Seq<char>| #[trigger]
                wider.contains(author) && posts_by(
                    author,
                    store.at(keys.posts_of(author)),
                ).contains(post);
            assert(before.contains(author) || fresh.to_set().contains(author));
        }
        if changed.contains(post) {
            let author = choose|author: Seq<char>| #[trigger]
                before.contains(author) && posts_by(
                    author,
                    store.at(keys.posts_of(author)),
                ).contains(post);
            assert(wider.contains(author));
        }
        if posts_by_all(keys, store, fresh.to_set()).contains(post) {
            let author = choose|author: Seq<char>| #[trigger]
                fresh.to_set().contains(author) && posts_by(
                    author,
                    store.at(keys.posts_of(author)),
                ).contains(post);
            assert(wider.contains(author));
        }
    }
    assert(left =~= right);
    assert forall|author: Seq<char>| next.at(#[trigger] keys.posts_of(author)) == store.at(
        keys.posts_of(author),
    ) by {}
    lemma_posts_by_all_same(keys, store, next, wider);
    assert(next.at(keys.paged(diff.entered)) == ranking);
    assert(next.at(keys.paged(!diff.entered)) == previous);
    if more {
        assert forall|author: Seq<char>| countable(
            next.at(#[trigger] keys.posts_of(author)),
        ) by {
            assert(next.at(keys.posts_of(author)) == store.at(keys.posts_of(author)));
        }
        let further = DiffPos { entered: diff.entered, from: to as usize };
        let end = lemma_diff(keys, now, origin, start, next, further, bases);
        lemma_posts_by_all_same(keys, store, next, newcomers(ranking, previous));
        end
    } else {
        assert(wider =~= newcomers(ranking, previous)) by {
            assert forall|author: Seq<char>| wider.contains(author) == newcomers(
                ranking,
                previous,
            ).contains(author) by {
                lemma_listed(ranking, list, author);
            }
        }
        next
    }
}

/// The posts of authors are the same in two stores that hold the same per-author sets.
proof fn lemma_posts_by_all_same(
    keys: SyncKeys,
    store: StoreModel,
    next: StoreModel,
    authors: Set<Seq<char>>,
)
    requires
        forall|author: Seq<char>| next.at(#[trigger] keys.posts_of(author)) == store.at(
            keys.posts_of(author),
        ),
    ensures
        posts_by_all(keys, store, authors) == posts_by_all(keys, next, authors),
{
    let left = posts_by_all(keys, store, authors);
    let right = posts_by_all(keys, next, authors);
    assert forall|post: Seq<char>| left.contains(post) == right.contains(post) by {
        if left.contains(post) {
            let author = choose|author: Seq<char>| #[trigger]
                authors.contains(author) && posts_by(
                    author,
                    store.at(keys.posts_of(author)),
                ).contains(post);
            assert(next.at(keys.posts_of(author)) == store.at(keys.posts_of(author)));
        }
        if right.contains(post) {
            let author = choose|author: Seq<char>| #[trigger]
                authors.contains(author) && posts_by(
                    author,
                    next.at(keys.posts_of(author)),
                ).contains(post);
            assert(next.at(keys.posts_of(author)) == store.at(keys.posts_of(author)));
        }
    }
    assert(left =~= right);
}

/// A sync with a ranking copies it aside before anything else.
proof fn lemma_start(keys: SyncKeys, now: i64, store: StoreModel) -> (end: StoreModel)
    requires
        keys.apart(),
        store.exists_at(keys.ranking),
        countable(store.at(keys.ranking)),
    ensures
        gets(
            keys,
            now,
            (Origin { store, twins: true }),
            (SyncState { phase: PhaseModel::CheckRanking, store }),
            (SyncState { phase: PhaseModel::CheckSynced, store: end }),
        ),
        end.at(keys.target) == store.at(keys.ranking),
        same_but(store, end, set![keys.target]),
{
    lemma_apart(keys);
    let start = SyncState { phase: PhaseModel::CheckRanking, store };
    let origin = Origin { store, twins: true };
    assert(kept(keys, origin, store));
    assert(run(keys, now, start, 0) == start && kept_until(keys, now, origin, start, 0));
    lemma_gets_command(
        keys,
        now,
        origin,
        start,
        PhaseModel::CheckRanking,
        store,
        CommandModel::Exists { key: keys.ranking },
    );
    let clear = CommandModel::Unlink { keys: seq![keys.target] };
    let next = store.after(clear);
    assert(seq![keys.target][0] == keys.target);
    lemma_kept_scratch(keys, origin, store, next);
    lemma_gets_command(keys, now, origin, start, PhaseModel::ClearTarget, store, clear);
    assert(sorted_set::listing(store.at(keys.ranking)).take(0) =~= Seq::empty());
    assert(ranked_sync::as_elements(Seq::<(Seq<char>, i64)>::empty()) =~= Seq::empty());
    assert(next.at(keys.target) == head_of(store.at(keys.ranking), 0));
    lemma_copy(keys, now, origin, start, next, 0)
}

/// The last command of a sync records the ranking that it applied.
proof fn lemma_commit(keys: SyncKeys, now: i64, start: SyncState, store: StoreModel) -> (end:
    StoreModel)
    requires
        keys.apart(),
        reaches(keys, now, start, (SyncState { phase: PhaseModel::Commit, store })),
    ensures
        tick(keys, now, (SyncState { phase: PhaseModel::Commit, store })) == Some(
            SyncState { phase: PhaseModel::Done, store: end },
        ),
        reaches(keys, now, start, (SyncState { phase: PhaseModel::Done, store: end })),
        end.at(keys.synced) == store.at(keys.target),
        end.at(keys.target) == Map::<Seq<char>, i64>::empty(),
        end.at(keys.aside) == Map::<Seq<char>, i64>::empty(),
        same_but(store, end, set![keys.synced, keys.target, keys.aside]),
{
    lemma_apart(keys);
    let swap = CommandModel::SwapIn {
        staged: keys.target,
        live: keys.synced,
        aside: keys.aside,
    };
    lemma_reach_command(keys, now, start, PhaseModel::Commit, store, swap);
    lemma_swapped(store, keys.target, keys.synced, keys.aside);
    store.after(swap)
}

/// Whether a sync can go by what changed since the last one: there was a last
/// one, and both twins are there.
pub open spec fn incremental(keys: SyncKeys, store: StoreModel) -> bool {
    &&& store.exists_at(keys.synced)
    &&& store.exists_at(keys.timeline.ranked)
    &&& store.exists_at(keys.engagement.ranked)
}

/// The three checks lead to the comparison with the last sync, or to a full build.
proof fn lemma_checks(
    keys: SyncKeys,
    now: i64,
    origin: Origin,
    start: SyncState,
    store: StoreModel,
)
    requires
        gets(
            keys,
            now,
            origin,
            start,
            (SyncState { phase: PhaseModel::CheckSynced, store }),
        ),
    ensures
        gets(
            keys,
            now,
            origin,
            start,
            (SyncState {
                phase: (if incremental(keys, store) {
                    PhaseModel::DiffRead { diff: DiffPos { entered: true, from: 0 } }
                } else {
                    PhaseModel::ReadClock
                }),
                store,
            }),
        ),
{
    lemma_gets_kept(
        keys,
        now,
        origin,
        start,
        SyncState { phase: PhaseModel::CheckSynced, store },
    );
    lemma_gets_command(
        keys,
        now,
        origin,
        start,
        PhaseModel::CheckSynced,
        store,
        CommandModel::Exists { key: keys.synced },
    );
    if store.exists_at(keys.synced) {
        lemma_gets_command(
            keys,
            now,
            origin,
            start,
            PhaseModel::CheckTimeline,
            store,
            CommandModel::Exists { key: keys.timeline.ranked },
        );
        if store.exists_at(keys.timeline.ranked) {
            lemma_gets_command(
                keys,
                now,
                origin,
                start,
                PhaseModel::CheckEngagement,
                store,
                CommandModel::Exists { key: keys.engagement.ranked },
            );
        }
    }
}

/// A full build up to the command that records the ranking.
proof fn lemma_built(keys: SyncKeys, now: i64, store: StoreModel) -> (end: StoreModel)
    requires
        keys.apart(),
        store.exists_at(keys.ranking),
        !incremental(keys, store),
        countable(store.at(keys.ranking)),
        countable(store.at(keys.timeline.global)),
        now >= i64::MIN + RANKED_BUILD_CATCH_UP_MS,
    ensures
        gets(
            keys,
            now,
            (Origin { store, twins: true }),
            (SyncState { phase: PhaseModel::CheckRanking, store }),
            (SyncState { phase: PhaseModel::Commit, store: end }),
        ),
        end.at(keys.target) == store.at(keys.ranking),
        end.at(keys.timeline.ranked) == keys.twin(store, Twin::Timeline, store.at(keys.ranking)),
        end.at(keys.engagement.ranked) == keys.twin(
            store,
            Twin::Engagement,
            store.at(keys.ranking),
        ),
        end.at(keys.timeline.staged) == Map::<Seq<char>, i64>::empty(),
        end.at(keys.timeline.aside) == Map::<Seq<char>, i64>::empty(),
        end.at(keys.engagement.staged) == Map::<Seq<char>, i64>::empty(),
        end.at(keys.engagement.aside) == Map::<Seq<char>, i64>::empty(),
{
    lemma_apart(keys);
    let start = SyncState { phase: PhaseModel::CheckRanking, store };
    let origin = Origin { store, twins: true };
    let s1 = lemma_start(keys, now, store);
    assert(s1.at(keys.synced) == store.at(keys.synced));
    assert(s1.at(keys.timeline.ranked) == store.at(keys.timeline.ranked));
    assert(s1.at(keys.engagement.ranked) == store.at(keys.engagement.ranked));
    lemma_checks(keys, now, origin, start, s1);
    assert(s1.at(keys.timeline.global) == store.at(keys.timeline.global));
    assert(s1.at(keys.engagement.global) == store.at(keys.engagement.global));
    let s2 = lemma_build(keys, now, origin, start, s1);
    let built = keys.derived().take(6);
    assert(forall|key: Seq<Seq<char>>| #[trigger]
        built.to_set().contains(key) ==> exists|i: int|
            0 <= i < 6 && key == keys.derived()[i]) by {
        assert forall|key: Seq<Seq<char>>| #[trigger]
            built.to_set().contains(key) implies exists|i: int|
            0 <= i < 6 && key == keys.derived()[i] by {
            let i = built.index_of(key);
            assert(keys.derived()[i] == key);
        }
    }
    assert(!built.to_set().contains(keys.target));
    assert(s2.at(keys.target) == s1.at(keys.target));
    s2
}

/// Without a last sync, or with a twin missing, a sync builds both twins anew:
/// each holds exactly the posts of the global timeline whose author is ranked,
/// at their global scores. It records the ranking, leaves no scratch set behind
/// and changes nothing else.
pub proof fn law_full_build_keeps_the_ranked_authors(
    keys: SyncKeys,
    now: i64,
    store: StoreModel,
) -> (end: StoreModel)
    requires
        keys.apart(),
        store.exists_at(keys.ranking),
        !incremental(keys, store),
        countable(store.at(keys.ranking)),
        countable(store.at(keys.timeline.global)),
        now >= i64::MIN + RANKED_BUILD_CATCH_UP_MS,
    ensures
        reaches(
            keys,
            now,
            (SyncState { phase: PhaseModel::CheckRanking, store }),
            (SyncState { phase: PhaseModel::Done, store: end }),
        ),
        forall|which: Twin| #[trigger]
            end.at(keys.sets(which).ranked) == keys.twin(store, which, store.at(keys.ranking)),
        end.at(keys.synced) == store.at(keys.ranking),
        forall|i: int|
            0 <= i < 9 && i != 0 && i != 3 && i != 6 ==> end.at(#[trigger] keys.derived()[i])
                == Map::<Seq<char>, i64>::empty(),
        same_but(store, end, keys.derived().to_set()),
{
    lemma_apart(keys);
    let start = SyncState { phase: PhaseModel::CheckRanking, store };
    let origin = Origin { store, twins: true };
    let s1 = lemma_built(keys, now, store);
    let ready = SyncState { phase: PhaseModel::Commit, store: s1 };
    lemma_gets_kept(keys, now, origin, start, ready);
    let end = lemma_commit(keys, now, start, s1);
    assert forall|which: Twin| #[trigger]
        end.at(keys.sets(which).ranked) == keys.twin(store, which, store.at(keys.ranking)) by {
        assert(end.at(keys.sets(which).ranked) == s1.at(keys.sets(which).ranked));
    }
    assert forall|i: int| 0 <= i < 9 && i != 0 && i != 3 && i != 6 implies end.at(
        #[trigger] keys.derived()[i],
    ) == Map::<Seq<char>, i64>::empty() by {
        if i < 6 {
            assert(end.at(keys.derived()[i]) == s1.at(keys.derived()[i]));
        }
    }
    assert forall|key: Seq<Seq<char>>| #[trigger]
        end.at(key) == store.at(key) || keys.derived().to_set().contains(key) by {
        if !keys.derived().contains(key) {
            assert forall|i: int| 0 <= i < 9 implies keys.derived()[i] != key by {
                assert(keys.derived().contains(keys.derived()[i]));
            }
            assert(end.at(key) == s1.at(key));
        }
    }
    end
}

/// How a twin scores `post` once the changes of the ranking were applied to it.
pub open spec fn diffed(
    keys: SyncKeys,
    store: StoreModel,
    which: Twin,
    post: Seq<char>,
) -> Option<i64> {
    let ranking = store.at(keys.ranking);
    let synced = store.at(keys.synced);
    let global = store.at(keys.sets(which).global);
    if posts_by_all(keys, store, newcomers(synced, ranking)).contains(post) {
        None
    } else if posts_by_all(keys, store, newcomers(ranking, synced)).contains(post)
        && global.contains_key(post) {
        Some(global[post])
    } else {
        sorted_set::score_in(store.at(keys.sets(which).ranked), post)
    }
}

/// An incremental sync up to the command that records the ranking.
proof fn lemma_diffed(keys: SyncKeys, now: i64, store: StoreModel) -> (end: StoreModel)
    requires
        keys.apart(),
        store.exists_at(keys.ranking),
        incremental(keys, store),
        countable(store.at(keys.ranking)),
        countable(store.at(keys.synced)),
        forall|author: Seq<char>| countable(store.at(#[trigger] keys.posts_of(author))),
    ensures
        gets(
            keys,
            now,
            (Origin { store, twins: true }),
            (SyncState { phase: PhaseModel::CheckRanking, store }),
            (SyncState { phase: PhaseModel::Commit, store: end }),
        ),
        end.at(keys.target) == store.at(keys.ranking),
        forall|which: Twin, post: Seq<char>| #[trigger]
            sorted_set::score_in(end.at(keys.sets(which).ranked), post) == diffed(
                keys,
                store,
                which,
                post,
            ),
        same_but(
            store,
            end,
            set![keys.timeline.ranked, keys.engagement.ranked, keys.target],
        ),
{
    lemma_apart(keys);
    let start = SyncState { phase: PhaseModel::CheckRanking, store };
    let origin = Origin { store, twins: true };
    let ranking = store.at(keys.ranking);
    let synced = store.at(keys.synced);
    let s1 = lemma_start(keys, now, store);
    assert(s1.at(keys.synced) == synced);
    assert(s1.at(keys.timeline.ranked) == store.at(keys.timeline.ranked));
    assert(s1.at(keys.engagement.ranked) == store.at(keys.engagement.ranked));
    assert(s1.at(keys.timeline.global) == store.at(keys.timeline.global));
    assert(s1.at(keys.engagement.global) == store.at(keys.engagement.global));
    assert forall|author: Seq<char>| s1.at(#[trigger] keys.posts_of(author)) == store.at(
        keys.posts_of(author),
    ) by {}
    lemma_checks(keys, now, origin, start, s1);

    let bases = twins(keys, s1);
    if sound(keys, store) {
        assert(tidy(keys, store, Twin::Timeline, store.at(keys.sets(Twin::Timeline).ranked)));
        assert(tidy(keys, store, Twin::Engagement, store.at(keys.sets(Twin::Engagement).ranked)));
    }
    let entering = DiffPos { entered: true, from: 0 };
    assert(posts_by_all(
        keys,
        s1,
        first_newcomers(sorted_set::listing(ranking), 0, synced),
    ) =~= Set::empty());
    let s2 = lemma_diff(keys, now, origin, start, s1, entering, bases);
    assert forall|author: Seq<char>| s2.at(#[trigger] keys.posts_of(author)) == s1.at(
        keys.posts_of(author),
    ) by {}
    let added = posts_by_all(keys, s1, newcomers(ranking, synced));
    lemma_posts_by_all_same(keys, store, s1, newcomers(ranking, synced));
    lemma_posts_by_all_same(keys, store, s2, newcomers(synced, ranking));
    let more = twins(keys, s2);
    if sound(keys, store) {
        lemma_applied_between(keys, origin, Twin::Timeline, more.0, bases.0, added, true);
        lemma_applied_between(keys, origin, Twin::Engagement, more.1, bases.1, added, true);
    }
    let leaving = DiffPos { entered: false, from: 0 };
    assert(posts_by_all(
        keys,
        s2,
        first_newcomers(sorted_set::listing(synced), 0, ranking),
    ) =~= Set::empty());
    let s3 = lemma_diff(keys, now, origin, start, s2, leaving, more);
    assert forall|which: Twin, post: Seq<char>| #[trigger]
        sorted_set::score_in(s3.at(keys.sets(which).ranked), post) == diffed(
            keys,
            store,
            which,
            post,
        ) by {
        let live = keys.sets(which).ranked;
        assert(sorted_set::score_in(s2.at(live), post) == sorted_set::score_in(s2.at(live), post));
    }
    s3
}

/// After an earlier sync, a sync adds the posts of the authors who entered the
/// ranking, at their global scores, and removes those of the authors who left.
/// Every other entry of the twins stays as it was. It records the ranking and
/// changes nothing else.
pub proof fn law_diff_touches_changed_authors_only(
    keys: SyncKeys,
    now: i64,
    store: StoreModel,
) -> (end: StoreModel)
    requires
        keys.apart(),
        store.exists_at(keys.ranking),
        incremental(keys, store),
        countable(store.at(keys.ranking)),
        countable(store.at(keys.synced)),
        forall|author: Seq<char>| countable(store.at(#[trigger] keys.posts_of(author))),
    ensures
        reaches(
            keys,
            now,
            (SyncState { phase: PhaseModel::CheckRanking, store }),
            (SyncState { phase: PhaseModel::Done, store: end }),
        ),
        forall|which: Twin, post: Seq<char>| #[trigger]
            sorted_set::score_in(end.at(keys.sets(which).ranked), post) == diffed(
                keys,
                store,
                which,
                post,
            ),
        end.at(keys.synced) == store.at(keys.ranking),
        end.at(keys.target) == Map::<Seq<char>, i64>::empty(),
        end.at(keys.aside) == Map::<Seq<char>, i64>::empty(),
        same_but(
            store,
            end,
            set![
                keys.timeline.ranked,
                keys.engagement.ranked,
                keys.synced,
                keys.target,
                keys.aside,
            ],
        ),
{
    lemma_apart(keys);
    let start = SyncState { phase: PhaseModel::CheckRanking, store };
    let origin = Origin { store, twins: true };
    let s1 = lemma_diffed(keys, now, store);
    let ready = SyncState { phase: PhaseModel::Commit, store: s1 };
    lemma_gets_kept(keys, now, origin, start, ready);
    let end = lemma_commit(keys, now, start, s1);
    assert forall|which: Twin, post: Seq<char>| #[trigger]
        sorted_set::score_in(end.at(keys.sets(which).ranked), post) == diffed(
            keys,
            store,
            which,
            post,
        ) by {
        let live = keys.sets(which).ranked;
        assert(end.at(live) == s1.at(live));
        assert(sorted_set::score_in(s1.at(live), post) == diffed(keys, store, which, post));
    }
    end
}

/// Where the post sets agree, applying the changes of the ranking to tidy twins
/// gives the twins of the published ranking.
proof fn lemma_diffed_is_twin(keys: SyncKeys, store: StoreModel, which: Twin, post: Seq<char>)
    requires
        sound(keys, store),
        incremental(keys, store),
    ensures
        diffed(keys, store, which, post) == sorted_set::score_in(
            keys.twin(store, which, store.at(keys.ranking)),
            post,
        ),
{
    let origin = Origin { store, twins: true };
    let ranking = store.at(keys.ranking);
    let synced = store.at(keys.synced);
    let timeline = store.at(keys.timeline.global);
    let twin = store.at(keys.sets(which).ranked);
    assert(tidy(keys, store, which, twin));
    assert(between(twin, keys.twin(store, which, synced), keys.twin(store, which, ranking)));
    assert(sorted_set::score_in(twin, post) == sorted_set::score_in(twin, post));
    let entered = posts_by_all(keys, store, newcomers(ranking, synced));
    let left = posts_by_all(keys, store, newcomers(synced, ranking));
    if left.contains(post) {
        lemma_moved_post(keys, origin, post, false);
    } else if entered.contains(post) {
        lemma_moved_post(keys, origin, post, true);
    } else if timeline.contains_key(post) {
        let author = text::author_of(post);
        if moved(keys, store, author) {
            text::lemma_post_key_of_halves(post);
            let (_, id) = text::split_at_first(post, ':').unwrap();
            assert(text::post_key_of(author, id) == post);
            let ids = store.at(keys.posts_of(author));
            assert(ids.contains_key(id));
            assert(posts_by(author, ids).contains(post));
            if ranking.contains_key(author) {
                assert(newcomers(ranking, synced).contains(author));
            } else {
                assert(newcomers(synced, ranking).contains(author));
            }
        }
    }
}

/// A sync, up to the command that records the ranking, makes both twins what
/// the published ranking calls for.
proof fn lemma_synced(keys: SyncKeys, now: i64, store: StoreModel) -> (end: StoreModel)
    requires
        keys.apart(),
        store.exists_at(keys.ranking),
        incremental(keys, store) ==> sound(keys, store),
        countable(store.at(keys.ranking)),
        countable(store.at(keys.synced)),
        countable(store.at(keys.timeline.global)),
        forall|author: Seq<char>| countable(store.at(#[trigger] keys.posts_of(author))),
        now >= i64::MIN + RANKED_BUILD_CATCH_UP_MS,
    ensures
        gets(
            keys,
            now,
            (Origin { store, twins: true }),
            (SyncState { phase: PhaseModel::CheckRanking, store }),
            (SyncState { phase: PhaseModel::Commit, store: end }),
        ),
        end.at(keys.target) == store.at(keys.ranking),
        forall|which: Twin| #[trigger]
            end.at(keys.sets(which).ranked) == keys.twin(store, which, store.at(keys.ranking)),
{
    if incremental(keys, store) {
        let end = lemma_diffed(keys, now, store);
        assert forall|which: Twin| #[trigger]
            end.at(keys.sets(which).ranked) == keys.twin(store, which, store.at(keys.ranking)) by {
            let live = end.at(keys.sets(which).ranked);
            let twin = keys.twin(store, which, store.at(keys.ranking));
            assert forall|post: Seq<char>| sorted_set::score_in(live, post)
                == sorted_set::score_in(twin, post) by {
                lemma_diffed_is_twin(keys, store, which, post);
                assert(sorted_set::score_in(live, post) == diffed(keys, store, which, post));
            }
            lemma_same_scores(live, twin);
        }
        end
    } else {
        let end = lemma_built(keys, now, store);
        assert forall|which: Twin| #[trigger]
            end.at(keys.sets(which).ranked) == keys.twin(store, which, store.at(keys.ranking)) by {
            match which {
                Twin::Timeline => {},
                Twin::Engagement => {},
            }
        }
        end
    }
}

/// Whichever way a sync takes, it ends with both twins as the published ranking
/// calls for, and with that ranking on record. Only where it applies changes do
/// the twins have to be tidy, and the post sets of the authors who moved to agree.
pub proof fn law_sync_brings_the_twins_in_line(
    keys: SyncKeys,
    now: i64,
    store: StoreModel,
) -> (end: StoreModel)
    requires
        keys.apart(),
        store.exists_at(keys.ranking),
        incremental(keys, store) ==> sound(keys, store),
        countable(store.at(keys.ranking)),
        countable(store.at(keys.synced)),
        countable(store.at(keys.timeline.global)),
        forall|author: Seq<char>| countable(store.at(#[trigger] keys.posts_of(author))),
        now >= i64::MIN + RANKED_BUILD_CATCH_UP_MS,
    ensures
        reaches(
            keys,
            now,
            (SyncState { phase: PhaseModel::CheckRanking, store }),
            (SyncState { phase: PhaseModel::Done, store: end }),
        ),
        forall|which: Twin| #[trigger]
            end.at(keys.sets(which).ranked) == keys.twin(store, which, store.at(keys.ranking)),
        end.at(keys.synced) == store.at(keys.ranking),
        same_but(store, end, keys.derived().to_set()),
{
    lemma_apart(keys);
    let start = SyncState { phase: PhaseModel::CheckRanking, store };
    let origin = Origin { store, twins: true };
    let s1 = lemma_synced(keys, now, store);
    let ready = SyncState { phase: PhaseModel::Commit, store: s1 };
    lemma_gets_kept(keys, now, origin, start, ready);
    let end = lemma_commit(keys, now, start, s1);
    lemma_line(keys, store, s1, end);
    end
}

/// What recording the ranking leaves of a store whose twins are in line.
proof fn lemma_line(keys: SyncKeys, store: StoreModel, ready: StoreModel, end: StoreModel)
    requires
        keys.apart(),
        kept(keys, (Origin { store, twins: true }), ready),
        same_but(ready, end, set![keys.synced, keys.target, keys.aside]),
    ensures
        forall|which: Twin| #[trigger]
            end.at(keys.sets(which).ranked) == ready.at(keys.sets(which).ranked),
        same_but(store, end, keys.derived().to_set()),
{
    lemma_apart(keys);
    assert forall|which: Twin| #[trigger]
        end.at(keys.sets(which).ranked) == ready.at(keys.sets(which).ranked) by {
        match which {
            Twin::Timeline => {},
            Twin::Engagement => {},
        }
    }
    assert forall|key: Seq<Seq<char>>| #[trigger]
        end.at(key) == store.at(key) || keys.derived().to_set().contains(key) by {
        if !keys.derived().contains(key) {
            assert forall|i: int| 0 <= i < 9 implies keys.derived()[i] != key by {
                assert(keys.derived().contains(keys.derived()[i]));
            }
            assert(end.at(key) == ready.at(key));
        }
    }
}

/// A sync that breaks off, behind whichever of its actions, is made good by the
/// next one: that brings both twins in line with the ranking. Where there was no
/// earlier sync, nothing is asked of the twins or of the sets of the authors.
pub proof fn law_an_interrupted_sync_is_made_good(
    keys: SyncKeys,
    now: i64,
    later: i64,
    store: StoreModel,
    n: nat,
) -> (end: StoreModel)
    requires
        keys.apart(),
        store.exists_at(keys.ranking),
        store.exists_at(keys.synced) ==> sound(keys, store),
        countable(store.at(keys.ranking)),
        countable(store.at(keys.synced)),
        countable(store.at(keys.timeline.global)),
        forall|author: Seq<char>| countable(store.at(#[trigger] keys.posts_of(author))),
        now >= i64::MIN + RANKED_BUILD_CATCH_UP_MS,
        later >= i64::MIN + RANKED_BUILD_CATCH_UP_MS,
    ensures
        ({
            let start = SyncState { phase: PhaseModel::CheckRanking, store };
            let broken = run(keys, now, start, n).store;
            reaches(
                keys,
                later,
                (SyncState { phase: PhaseModel::CheckRanking, store: broken }),
                (SyncState { phase: PhaseModel::Done, store: end }),
            )
        }),
        forall|which: Twin| #[trigger]
            end.at(keys.sets(which).ranked) == keys.twin(store, which, store.at(keys.ranking)),
        end.at(keys.synced) == store.at(keys.ranking),
        same_but(store, end, keys.derived().to_set()),
{
    lemma_apart(keys);
    let start = SyncState { phase: PhaseModel::CheckRanking, store };
    let origin = Origin { store, twins: true };
    let ranking = store.at(keys.ranking);
    let broken = run(keys, now, start, n).store;
    let s1 = lemma_synced(keys, now, store);
    let ready = SyncState { phase: PhaseModel::Commit, store: s1 };
    lemma_gets_kept(keys, now, origin, start, ready);
    let done = lemma_commit(keys, now, start, s1);
    lemma_line(keys, store, s1, done);
    let last = choose|k: nat| #[trigger]
        run(keys, now, start, k) == ready && kept_until(keys, now, origin, start, k);
    let recorded = if n <= last {
        store.at(keys.synced)
    } else {
        ranking
    };
    if n <= last {
        assert(kept(keys, origin, broken));
    } else {
        let finished = SyncState { phase: PhaseModel::Done, store: done };
        lemma_run_on(keys, now, start, last, (n - last) as nat);
        reveal_with_fuel(run, 2);
        assert(tick(keys, now, finished) is None);
        assert(run(keys, now, ready, (n - last) as nat) == run(
            keys,
            now,
            finished,
            (n - last - 1) as nat,
        ));
        assert(broken == done);
    }
    assert(broken.at(keys.synced) == recorded);
    assert forall|key: Seq<Seq<char>>| #[trigger]
        broken.at(key) == store.at(key) || keys.derived().contains(key) by {
        assert(keys.derived().to_set().contains(key) == keys.derived().contains(key));
    }
    assert(broken.at(keys.ranking) == ranking);
    assert(broken.at(keys.timeline.global) == store.at(keys.timeline.global));
    assert(broken.at(keys.engagement.global) == store.at(keys.engagement.global));
    assert forall|author: Seq<char>| broken.at(#[trigger] keys.posts_of(author)) == store.at(
        keys.posts_of(author),
    ) by {}
    if incremental(keys, broken) {
        assert(posts_agree(keys, broken)) by {
            assert forall|author: Seq<char>| #[trigger] moved(keys, broken, author) implies moved(
                keys,
                store,
                author,
            ) && sound(keys, store) by {}
            assert forall|author: Seq<char>, id: Seq<char>|
                moved(keys, broken, author) implies #[trigger] broken.at(
                keys.posts_of(author),
            ).contains_key(id) == broken.at(keys.timeline.global).contains_key(
                text::post_key_of(author, id),
            ) by {
                assert(moved(keys, store, author));
                assert(store.at(keys.posts_of(author)).contains_key(id) == store.at(
                    keys.timeline.global,
                ).contains_key(text::post_key_of(author, id)));
            }
        }
        assert forall|which: Twin| #[trigger]
            tidy(keys, broken, which, broken.at(keys.sets(which).ranked)) by {
            assert(keys.twin(broken, which, ranking) == keys.twin(store, which, ranking));
            assert(keys.twin(broken, which, recorded) == keys.twin(store, which, recorded));
            if n <= last {
                assert(tidy(keys, store, which, broken.at(keys.sets(which).ranked)));
            }
        }
    }
    let end = law_sync_brings_the_twins_in_line(keys, later, broken);
    assert forall|which: Twin| #[trigger]
        end.at(keys.sets(which).ranked) == keys.twin(store, which, ranking) by {
        assert(keys.twin(broken, which, ranking) == keys.twin(store, which, ranking));
    }
    assert forall|key: Seq<Seq<char>>| #[trigger]
        end.at(key) == store.at(key) || keys.derived().to_set().contains(key) by {
        assert(keys.derived().to_set().contains(key) == keys.derived().contains(key));
        assert(end.at(key) == broken.at(key) || keys.derived().to_set().contains(key));
    }
    end
}

/// The catch-up that follows a full build copies the posts by ranked authors
/// that entered the global timeline at its start or after, at their global
/// scores, and leaves every other entry of the live twins alone.
pub proof fn law_catch_up_copies_from_its_start(
    keys: SyncKeys,
    now: i64,
    store: StoreModel,
    catch_up: i64,
) -> (end: StoreModel)
    requires
        keys.apart(),
        countable(store.at(keys.timeline.global)),
    ensures
        ({
            let walk = Walk { live: true, catch_up, cursor: Some(catch_up), seen: 0 };
            reaches(
                keys,
                now,
                (SyncState { phase: PhaseModel::WalkRead { walk }, store }),
                (SyncState { phase: PhaseModel::Commit, store: end }),
            )
        }),
        forall|which: Twin, post: Seq<char>| #[trigger]
            sorted_set::score_in(end.at(keys.sets(which).ranked), post) == (if late(
                keys,
                store,
                catch_up,
                post,
            ) && store.at(keys.sets(which).global).contains_key(post) {
                sorted_set::score_in(store.at(keys.sets(which).global), post)
            } else {
                sorted_set::score_in(store.at(keys.sets(which).ranked), post)
            }),
        same_but(store, end, set![keys.timeline.ranked, keys.engagement.ranked]),
{
    lemma_apart(keys);
    let walk = Walk { live: true, catch_up, cursor: Some(catch_up), seen: 0 };
    let start = SyncState { phase: PhaseModel::WalkRead { walk }, store };
    let origin = Origin { store, twins: false };
    assert(run(keys, now, start, 0) == start && kept_until(keys, now, origin, start, 0));
    let global = store.at(keys.timeline.global);
    let list = sorted_set::listing(global);
    sorted_set::lemma_listing(global);
    sorted_set::lemma_below(list, catch_up);
    let lo = sorted_set::below(list, catch_up) as int;
    let end = lemma_walk(keys, now, origin, start, store, walk, lo, lo, twins(keys, store));
    let done = SyncState { phase: PhaseModel::Commit, store: end };
    lemma_gets_kept(keys, now, origin, start, done);
    assert forall|which: Twin, post: Seq<char>| #[trigger]
        sorted_set::score_in(end.at(keys.sets(which).ranked), post) == (if late(
            keys,
            store,
            catch_up,
            post,
        ) && store.at(keys.sets(which).global).contains_key(post) {
            sorted_set::score_in(store.at(keys.sets(which).global), post)
        } else {
            sorted_set::score_in(store.at(keys.sets(which).ranked), post)
        }) by {
        lemma_listed(global, list, post);
        assert(lists(list, lo, list.len() as int, post) == (global.contains_key(post)
            && global[post] >= catch_up)) by {
            if global.contains_key(post) {
                let i = choose|i: int| 0 <= i < list.len() && (#[trigger] list[i]).0 == post;
                assert(global[list[i].0] == list[i].1);
            }
            if lists(list, lo, list.len() as int, post) {
                let i = choose|i: int| lo <= i < list.len() && (#[trigger] list[i]).0 == post;
                assert(global[list[i].0] == list[i].1);
            }
        }
        match which {
            Twin::Timeline => {},
            Twin::Engagement => {},
        }
    }
    end
}

/// Whether `post` is by an author that the target holds, and stands in the
/// global timeline at `since` or after.
pub open spec fn late(keys: SyncKeys, store: StoreModel, since: i64, post: Seq<char>) -> bool {
    &&& store.at(keys.timeline.global).contains_key(post)
    &&& store.at(keys.timeline.global)[post] >= since
    &&& store.at(keys.target).contains_key(text::author_of(post))
}

/// How many members a command reads or writes; a command on whole sets names none.
pub open spec fn members_in(command: CommandModel) -> nat {
    match command {
        CommandModel::PageByRank { from, to, .. } => (to + 1 - from) as nat,
        CommandModel::PageByScore { limit, .. } => match limit {
            Some(most) => most as nat,
            None => 0,
        },
        CommandModel::Scores { members, .. } => members.len(),
        CommandModel::Put { elements, .. } => elements.len(),
        CommandModel::Remove { members, .. } => members.len(),
        _ => 0,
    }
}

/// Nothing a phase carries is longer than a page.
spec fn short(phase: PhaseModel) -> bool {
    let most = RANKED_SYNC_CHUNK;
    match phase {
        PhaseModel::CopyWrite { elements, .. } => elements.len() <= most,
        PhaseModel::DiffScores { authors, .. } => authors.len() <= most,
        PhaseModel::AuthorScores { posts, .. } => posts.len() <= most,
        PhaseModel::AuthorPut { posts, elements, .. } => posts.len() <= most && elements.len()
            <= most,
        PhaseModel::AuthorRemove { posts, .. } => posts.len() <= most,
        PhaseModel::WalkRanks { page, .. } => page.len() <= most,
        PhaseModel::WalkScores { page, timeline, .. } => page.len() <= most && timeline.len()
            <= most,
        PhaseModel::WalkPutTimeline { timeline, engagement, .. } => timeline.len() <= most
            && engagement.len() <= most,
        PhaseModel::WalkPutEngagement { engagement, .. } => engagement.len() <= most,
        _ => true,
    }
}

proof fn lemma_scored_short(members: Seq<Seq<char>>, scores: Seq<Option<i64>>, n: nat)
    ensures
        ranked_sync::scored_in(members, scores, n).len() <= n,
    decreases n,
{
    if n > 0 {
        lemma_scored_short(members, scores, (n - 1) as nat);
    }
}

proof fn lemma_ranked_short(page: Seq<(Seq<char>, i64)>, ranks: Seq<Option<i64>>, n: nat)
    ensures
        ranked_sync::ranked_in(page, ranks, n).len() <= n,
    decreases n,
{
    if n > 0 {
        lemma_ranked_short(page, ranks, (n - 1) as nat);
    }
}

proof fn lemma_short_tick(keys: SyncKeys, now: i64, state: SyncState)
    requires
        short(state.phase),
    ensures
        tick(keys, now, state) matches Some(next) ==> short(next.phase),
{
    match state.phase {
        PhaseModel::AuthorScores { posts, which, .. } => {
            let scores = scores_of(state.store.at(keys.sets(which).global), posts);
            lemma_scored_short(posts, scores, ranked_sync::paired(posts.len(), scores.len()));
        },
        PhaseModel::WalkRanks { page, .. } => {
            let ranks = scores_of(state.store.at(keys.target), ranked_sync::authors_of(page));
            lemma_ranked_short(page, ranks, ranked_sync::paired(page.len(), ranks.len()));
        },
        PhaseModel::WalkScores { timeline, .. } => {
            let posts = ranked_sync::keys_of(timeline);
            let scores = scores_of(state.store.at(keys.engagement.global), posts);
            lemma_scored_short(posts, scores, ranked_sync::paired(posts.len(), scores.len()));
        },
        _ => {},
    }
}

proof fn lemma_short_run(keys: SyncKeys, now: i64, state: SyncState, n: nat)
    requires
        short(state.phase),
    ensures
        short(run(keys, now, state, n).phase),
    decreases n,
{
    if n > 0 {
        lemma_short_tick(keys, now, state);
        match tick(keys, now, state) {
            Some(next) => lemma_short_run(keys, now, next, (n - 1) as nat),
            None => {},
        }
    }
}

/// Every command of a sync handles at most a page of members, however large the
/// sets have grown.
pub proof fn law_every_command_stays_short(keys: SyncKeys, now: i64, store: StoreModel, n: nat)
    ensures
        ({
            let start = SyncState { phase: PhaseModel::CheckRanking, store };
            run(keys, now, start, n).phase.action(keys) matches Some(ActionModel::Store(command))
                ==> members_in(command) <= RANKED_SYNC_CHUNK
        }),
{
    let start = SyncState { phase: PhaseModel::CheckRanking, store };
    lemma_short_run(keys, now, start, n);
    match run(keys, now, start, n).phase {
        PhaseModel::WalkRanks { page, .. } => {
            assert(ranked_sync::authors_of(page).len() == page.len());
        },
        PhaseModel::WalkScores { timeline, .. } => {
            assert(ranked_sync::keys_of(timeline).len() == timeline.len());
        },
        _ => {},
    }
}

/// What others do to a store between two actions of a sync: they may add posts
/// to the global timeline, each scored above all that are there, and leave the
/// ranking being applied and the staged timeline twin alone. All else is open.
pub open spec fn meanwhile(keys: SyncKeys, before: StoreModel, after: StoreModel) -> bool {
    &&& sorted_set::grown(before.at(keys.timeline.global), after.at(keys.timeline.global))
    &&& countable(after.at(keys.timeline.global))
    &&& after.at(keys.target) == before.at(keys.target)
    &&& after.at(keys.timeline.staged) == before.at(keys.timeline.staged)
}

/// A sync and its store before each of its actions, others writing in between.
pub open spec fn amid(keys: SyncKeys, now: i64, states: Seq<SyncState>) -> bool {
    forall|k: int|
        0 <= k < states.len() - 1 ==> (#[trigger] tick(keys, now, states[k])) is Some
            && states[k + 1].phase == tick(keys, now, states[k])->0.phase && meanwhile(
            keys,
            tick(keys, now, states[k])->0.store,
            states[k + 1].store,
        )
}

/// A full build walks the global timeline while others write: it begins with
/// nothing staged, and its walk is not over before the last state.
pub open spec fn walks_amid(
    keys: SyncKeys,
    now: i64,
    catch_up: i64,
    states: Seq<SyncState>,
) -> bool {
    &&& states.len() > 0
    &&& states[0].phase == PhaseModel::WalkRead {
        walk: Walk { live: false, catch_up, cursor: None, seen: 0 },
    }
    &&& states[0].store.at(keys.timeline.staged) == Map::<Seq<char>, i64>::empty()
    &&& countable(states[0].store.at(keys.timeline.global))
    &&& forall|k: int| 0 <= k < states.len() - 1 ==> (#[trigger] states[k]).phase !is Swap
    &&& amid(keys, now, states)
}

/// How many entries the pages hold that were read before the state at `k`.
pub open spec fn read_before(states: Seq<SyncState>, k: nat) -> nat
    decreases k,
{
    if k == 0 {
        0
    } else {
        read_before(states, (k - 1) as nat) + match states[k - 1].phase {
            PhaseModel::WalkRanks { page, .. } => page.len(),
            _ => 0,
        }
    }
}

/// A page that a walk has read stands in `list` from `at` on; one that is not
/// full reaches to the end of the timeline at the walk's start, `first`.
spec fn page_read(
    walk: Walk,
    page: Seq<(Seq<char>, i64)>,
    list: Seq<(Seq<char>, i64)>,
    first: Seq<(Seq<char>, i64)>,
    at: int,
) -> bool {
    &&& !walk.live
    &&& walk_stands_at(walk, list, at)
    &&& at + page.len() <= list.len()
    &&& page == list.subrange(at, at + page.len())
    &&& page.len() < RANKED_SYNC_CHUNK ==> at + page.len() >= first.len()
}

/// Where a walk amid others stands before the action at `k`.
spec fn stands_amid(keys: SyncKeys, states: Seq<SyncState>, k: nat) -> bool {
    let start = states[0].store;
    let store = states[k as int].store;
    let global = store.at(keys.timeline.global);
    let ranking = start.at(keys.target);
    let list = sorted_set::listing(global);
    let first = sorted_set::listing(start.at(keys.timeline.global));
    let staged = store.at(keys.timeline.staged);
    let none = Map::<Seq<char>, i64>::empty();
    let at = read_before(states, k) as int;
    &&& countable(global)
    &&& store.at(keys.target) == ranking
    &&& first.len() <= list.len()
    &&& list.take(first.len() as int) == first
    &&& match states[k as int].phase {
        PhaseModel::WalkRead { walk } => {
            &&& !walk.live
            &&& walk_stands_at(walk, list, at)
            &&& walk.cursor matches Some(score) ==> 0 < at && list[at - 1].1 == score
            &&& copied(staged, none, ranking, list, 0, at, global)
        },
        PhaseModel::WalkRanks { walk, page } => {
            &&& page_read(walk, page, list, first, at)
            &&& walk.cursor matches Some(score) ==> 0 < at && list[at - 1].1 == score
            &&& copied(staged, none, ranking, list, 0, at, global)
        },
        PhaseModel::WalkScores { walk, page, timeline } => {
            &&& page_read(walk, page, list, first, at - page.len())
            &&& walk.cursor matches Some(score) ==> 0 < at - page.len() && list[at - page.len()
                - 1].1 == score
            &&& timeline == ranked_sync::ranked_entries(
                page,
                scores_of(ranking, ranked_sync::authors_of(page)),
            )
            &&& copied(staged, none, ranking, list, 0, at - page.len(), global)
        },
        PhaseModel::WalkPutTimeline { walk, page, timeline, .. } => {
            &&& page_read(walk, page, list, first, at - page.len())
            &&& walk.cursor matches Some(score) ==> 0 < at - page.len() && list[at - page.len()
                - 1].1 == score
            &&& timeline == ranked_sync::ranked_entries(
                page,
                scores_of(ranking, ranked_sync::authors_of(page)),
            )
            &&& copied(staged, none, ranking, list, 0, at - page.len(), global)
        },
        PhaseModel::WalkPutEngagement { walk, page, .. } => {
            &&& page_read(walk, page, list, first, at - page.len())
            &&& walk.cursor matches Some(score) ==> 0 < at - page.len() && list[at - page.len()
                - 1].1 == score
            &&& copied(staged, none, ranking, list, 0, at, global)
        },
        PhaseModel::Swap { .. } => {
            &&& first.len() <= at <= list.len()
            &&& copied(staged, none, ranking, list, 0, at, global)
        },
        _ => false,
    }
}

/// What was copied of a timeline stays so when the timeline grows.
proof fn lemma_copied_grown(
    set: Map<Seq<char>, i64>,
    ranking: Map<Seq<char>, i64>,
    before: Map<Seq<char>, i64>,
    after: Map<Seq<char>, i64>,
    at: int,
)
    requires
        after.dom().finite(),
        sorted_set::grown(before, after),
        0 <= at <= sorted_set::listing(before).len(),
        copied(set, Map::empty(), ranking, sorted_set::listing(before), 0, at, before),
    ensures
        copied(set, Map::empty(), ranking, sorted_set::listing(after), 0, at, after),
{
    sorted_set::lemma_grown_listing(before, after);
    let old = sorted_set::listing(before);
    let new = sorted_set::listing(after);
    sorted_set::lemma_listing(before);
    assert forall|i: int| 0 <= i < old.len() implies #[trigger] new[i] == old[i] by {
        assert(new.take(old.len() as int)[i] == new[i]);
    }
    assert forall|member: Seq<char>| #[trigger] lists(old, 0, at, member) == lists(
        new,
        0,
        at,
        member,
    ) by {
        if lists(old, 0, at, member) {
            let i = choose|i: int| 0 <= i < at && (#[trigger] old[i]).0 == member;
            assert(new[i].0 == member);
        }
        if lists(new, 0, at, member) {
            let i = choose|i: int| 0 <= i < at && (#[trigger] new[i]).0 == member;
            assert(old[i].0 == member);
        }
    }
    assert forall|member: Seq<char>| lists(old, 0, at, member) implies #[trigger]
        before.contains_key(member) by {
        let i = choose|i: int| 0 <= i < at && (#[trigger] old[i]).0 == member;
        assert(before.contains_key(old[i].0));
    }
    let none = Map::<Seq<char>, i64>::empty();
    assert forall|member: Seq<char>| #[trigger]
        sorted_set::score_in(set, member) == (if lists(new, 0, at, member)
            && ranking.contains_key(text::author_of(member)) && after.contains_key(member) {
            Some(after[member])
        } else {
            sorted_set::score_in(none, member)
        }) by {
        assert(lists(old, 0, at, member) == lists(new, 0, at, member));
        if lists(old, 0, at, member) {
            assert(before.contains_key(member));
        }
    }
}

/// A walk stands where it stood when the timeline grows behind what it has read.
proof fn lemma_stands_grown(
    walk: Walk,
    before: Map<Seq<char>, i64>,
    after: Map<Seq<char>, i64>,
    at: int,
)
    requires
        after.dom().finite(),
        sorted_set::grown(before, after),
        walk_stands_at(walk, sorted_set::listing(before), at),
        walk.cursor matches Some(score) ==> 0 < at && sorted_set::listing(before)[at - 1].1
            == score,
    ensures
        walk_stands_at(walk, sorted_set::listing(after), at),
        walk.cursor matches Some(score) ==> 0 < at && sorted_set::listing(after)[at - 1].1
            == score,
{
    sorted_set::lemma_grown_listing(before, after);
    let old = sorted_set::listing(before);
    let new = sorted_set::listing(after);
    sorted_set::lemma_listing(before);
    sorted_set::lemma_listing(after);
    assert forall|i: int| 0 <= i < old.len() implies #[trigger] new[i] == old[i] by {
        assert(new.take(old.len() as int)[i] == new[i]);
    }
    if let Some(score) = walk.cursor {
        sorted_set::lemma_below(old, score);
        let below = sorted_set::below(old, score) as int;
        assert(below < old.len());
        assert(new[below] == old[below]);
        sorted_set::lemma_below_is(new, score, below);
    }
}

/// A page stays where it is when the timeline grows.
proof fn lemma_page_grown(
    walk: Walk,
    page: Seq<(Seq<char>, i64)>,
    first: Seq<(Seq<char>, i64)>,
    before: Map<Seq<char>, i64>,
    after: Map<Seq<char>, i64>,
    at: int,
)
    requires
        after.dom().finite(),
        sorted_set::grown(before, after),
        page_read(walk, page, sorted_set::listing(before), first, at),
        walk.cursor matches Some(score) ==> 0 < at && sorted_set::listing(before)[at - 1].1
            == score,
    ensures
        page_read(walk, page, sorted_set::listing(after), first, at),
        walk.cursor matches Some(score) ==> 0 < at && sorted_set::listing(after)[at - 1].1
            == score,
{
    lemma_stands_grown(walk, before, after, at);
    sorted_set::lemma_grown_listing(before, after);
    let old = sorted_set::listing(before);
    let new = sorted_set::listing(after);
    assert forall|i: int| 0 <= i < old.len() implies #[trigger] new[i] == old[i] by {
        assert(new.take(old.len() as int)[i] == new[i]);
    }
    assert(page =~= new.subrange(at, at + page.len()));
}

/// Before each of its actions, a walk amid others stands behind the pages it has read.
#[verifier::spinoff_prover]
#[verifier::rlimit(60)]
proof fn lemma_amid(
    keys: SyncKeys,
    now: i64,
    catch_up: i64,
    states: Seq<SyncState>,
    k: nat,
)
    requires
        keys.apart(),
        walks_amid(keys, now, catch_up, states),
        k < states.len(),
    ensures
        stands_amid(keys, states, k),
    decreases k,
{
    let none = Map::<Seq<char>, i64>::empty();
    let start = states[0].store;
    let first = sorted_set::listing(start.at(keys.timeline.global));
    lemma_apart(keys);
    if k == 0 {
        assert(first.take(first.len() as int) =~= first);
        assert(copied(
            none,
            none,
            start.at(keys.target),
            first,
            0,
            0,
            start.at(keys.timeline.global),
        ));
    } else {
        let last = (k - 1) as nat;
        lemma_amid(keys, now, catch_up, states, last);
        let state = states[last as int];
        let store = state.store;
        let global = store.at(keys.timeline.global);
        let ranking = start.at(keys.target);
        let list = sorted_set::listing(global);
        let at = read_before(states, last) as int;
        assert(tick(keys, now, states[last as int]) is Some);
        let mid = tick(keys, now, state)->0;
        let next = states[k as int];
        let after = next.store.at(keys.timeline.global);
        sorted_set::lemma_listing(global);
        assert(mid.store.at(keys.timeline.global) == global);
        assert(mid.store.at(keys.target) == ranking);
        sorted_set::lemma_grown_listing(global, after);
        let new = sorted_set::listing(after);
        assert(new.take(first.len() as int) =~= first) by {
            assert forall|i: int| 0 <= i < first.len() implies new[i] == #[trigger] first[i] by {
                assert(list.take(first.len() as int)[i] == list[i]);
                assert(new.take(list.len() as int)[i] == new[i]);
            }
        }
        match state.phase {
            PhaseModel::WalkRead { walk } => {
                lemma_walk_page(store, keys, walk, at);
                let to = if at + 1000 <= list.len() {
                    at + 1000
                } else {
                    list.len() as int
                };
                let page = list.subrange(at, to);
                assert(mid.phase == PhaseModel::WalkRanks { walk, page });
                assert(mid.store == store);
                lemma_page_grown(walk, page, first, global, after, at);
                lemma_copied_grown(store.at(keys.timeline.staged), ranking, global, after, at);
            },
            PhaseModel::WalkRanks { walk, page } => {
                assert(mid.store == store);
                lemma_page_grown(walk, page, first, global, after, at);
                lemma_copied_grown(store.at(keys.timeline.staged), ranking, global, after, at);
            },
            PhaseModel::WalkScores { walk, page, .. } => {
                assert(mid.store == store);
                lemma_page_grown(walk, page, first, global, after, at - page.len());
                lemma_copied_grown(
                    store.at(keys.timeline.staged),
                    ranking,
                    global,
                    after,
                    at - page.len(),
                );
            },
            PhaseModel::WalkPutTimeline { walk, page, timeline, .. } => {
                assert(page == list.subrange(at - page.len(), at));
                assert(copied(none, none, ranking, list, 0, 0, none));
                assert(copied(none, none, ranking, list, 0, at - page.len(), none));
                lemma_copied_page(
                    global,
                    none,
                    ranking,
                    list,
                    0,
                    at - page.len(),
                    at,
                    (store.at(keys.timeline.staged), none),
                    (none, none),
                );
                lemma_page_grown(walk, page, first, global, after, at - page.len());
                lemma_copied_grown(mid.store.at(keys.timeline.staged), ranking, global, after, at);
            },
            PhaseModel::WalkPutEngagement { walk, page, .. } => {
                assert(mid.store.at(keys.timeline.staged) == store.at(keys.timeline.staged));
                lemma_page_grown(walk, page, first, global, after, at - page.len());
                lemma_copied_grown(store.at(keys.timeline.staged), ranking, global, after, at);
                if page.len() >= RANKED_SYNC_CHUNK {
                    sorted_set::lemma_listing_len(global, list);
                    assert(page == list.subrange(at - page.len(), at));
                    assert(page.last() == list[at - 1]);
                    lemma_walk_past(walk, list, at - page.len(), at);
                    lemma_stands_grown(walk.past(page), global, after, at);
                }
            },
            _ => {},
        }
    }
}

/// Posts that are added while a full build walks the global timeline shift no
/// page: they are listed behind all that is there, and each page is the stretch
/// of the timeline that follows the entries read before it.
pub proof fn law_new_posts_shift_no_page(
    keys: SyncKeys,
    now: i64,
    catch_up: i64,
    states: Seq<SyncState>,
    k: nat,
)
    requires
        keys.apart(),
        walks_amid(keys, now, catch_up, states),
        k < states.len(),
    ensures
        states[k as int].phase matches PhaseModel::WalkRanks { page, .. } ==> ({
            let list = sorted_set::listing(states[k as int].store.at(keys.timeline.global));
            let from = read_before(states, k) as int;
            from + page.len() <= list.len() && page == list.subrange(from, from + page.len())
        }),
        ({
            let list = sorted_set::listing(states[k as int].store.at(keys.timeline.global));
            let first = sorted_set::listing(states[0].store.at(keys.timeline.global));
            first.len() <= list.len() && list.take(first.len() as int) == first
        }),
{
    lemma_amid(keys, now, catch_up, states, k);
}

/// A full build misses no post, though others are added while it walks: once
/// the walk is over, the staged timeline twin holds every post by a ranked author
/// that the timeline held at its start, at its score, and nothing but posts of
/// the timeline by ranked authors.
pub proof fn law_a_walk_amid_new_posts_misses_none(
    keys: SyncKeys,
    now: i64,
    catch_up: i64,
    states: Seq<SyncState>,
    post: Seq<char>,
)
    requires
        keys.apart(),
        walks_amid(keys, now, catch_up, states),
        states.last().phase is Swap,
    ensures
        ({
            let first = states[0].store.at(keys.timeline.global);
            let ranking = states[0].store.at(keys.target);
            let end = states.last().store;
            let staged = end.at(keys.timeline.staged);
            &&& first.contains_key(post) && ranking.contains_key(text::author_of(post))
                ==> sorted_set::score_in(staged, post) == Some(first[post])
            &&& staged.contains_key(post) ==> ranking.contains_key(text::author_of(post))
                && sorted_set::score_in(end.at(keys.timeline.global), post) == Some(staged[post])
        }),
{
    let k = (states.len() - 1) as nat;
    lemma_amid(keys, now, catch_up, states, k);
    let first = states[0].store.at(keys.timeline.global);
    let early = sorted_set::listing(first);
    let end = states.last().store;
    let global = end.at(keys.timeline.global);
    let list = sorted_set::listing(global);
    let at = read_before(states, k) as int;
    sorted_set::lemma_listing(first);
    sorted_set::lemma_listing(global);
    let staged = end.at(keys.timeline.staged);
    assert(sorted_set::score_in(staged, post) == sorted_set::score_in(staged, post));
    if first.contains_key(post) {
        let i = choose|i: int| 0 <= i < early.len() && (#[trigger] early[i]).0 == post;
        assert(list.take(early.len() as int)[i] == list[i]);
        assert(list[i].0 == post);
        assert(lists(list, 0, at, post));
    }
}

/// Whether `command` reads or writes the set at `key`.
pub open spec fn names(command: CommandModel, key: Seq<Seq<char>>) -> bool {
    match command {
        CommandModel::Exists { key: named } => named == key,
        CommandModel::Unlink { keys } => keys.contains(key),
        CommandModel::PageByRank { key: named, .. } => named == key,
        CommandModel::PageByScore { key: named, .. } => named == key,
        CommandModel::Scores { key: named, .. } => named == key,
        CommandModel::Put { key: named, .. } => named == key,
        CommandModel::Remove { key: named, .. } => named == key,
        CommandModel::SwapIn { staged, live, aside } => staged == key || live == key || aside
            == key,
        CommandModel::Step { key: named, .. } => named == key,
    }
}

impl SyncKeys {
    /// The published ranking is no set of posts.
    pub open spec fn ranking_apart(self) -> bool {
        &&& self.ranking != self.timeline.global
        &&& self.ranking != self.engagement.global
        &&& forall|author: Seq<char>| self.ranking != #[trigger] self.posts_of(author)
    }
}

/// A sync names the published ranking only where it looks whether there is one,
/// and where it copies it; all that follows goes by the copy.
pub proof fn law_only_the_copy_names_the_ranking(keys: SyncKeys, phase: PhaseModel)
    requires
        keys.apart(),
        keys.ranking_apart(),
    ensures
        (phase.action(keys) matches Some(ActionModel::Store(command)) && names(
            command,
            keys.ranking,
        )) <==> phase is CheckRanking || phase is CopyRead,
{
    lemma_apart(keys);
    match phase {
        PhaseModel::ClearTarget => {
            assert(seq![keys.target].contains(keys.ranking) ==> keys.target == keys.ranking);
        },
        PhaseModel::ClearStaged { .. } => {
            let staged = seq![keys.timeline.staged, keys.engagement.staged];
            assert(staged.contains(keys.ranking) ==> keys.timeline.staged == keys.ranking
                || keys.engagement.staged == keys.ranking);
        },
        _ => {},
    }
}

/// The sync has its copy of the ranking, or needs none.
pub open spec fn copied_already(phase: PhaseModel) -> bool {
    match phase {
        PhaseModel::CheckRanking => false,
        PhaseModel::ClearTarget => false,
        PhaseModel::CopyRead { .. } => false,
        PhaseModel::CopyWrite { .. } => false,
        _ => true,
    }
}

/// A command that does not name a set is answered the same whatever that set
/// holds, and leaves it alone.
proof fn lemma_unnamed(
    command: CommandModel,
    a: StoreModel,
    b: StoreModel,
    key: Seq<Seq<char>>,
)
    requires
        !names(command, key),
        same_but(a, b, set![key]),
    ensures
        a.reply(command) == b.reply(command),
        same_but(a.after(command), b.after(command), set![key]),
        b.after(command).at(key) == b.at(key),
{
    let written = set![key];
    match command {
        CommandModel::Exists { key: named } => {
            assert(a.at(named) == b.at(named));
        },
        CommandModel::PageByRank { key: named, .. } => {
            assert(a.at(named) == b.at(named));
        },
        CommandModel::PageByScore { key: named, .. } => {
            assert(a.at(named) == b.at(named));
        },
        CommandModel::Scores { key: named, members } => {
            assert(a.at(named) == b.at(named));
        },
        CommandModel::Put { key: named, .. } => {
            assert(a.at(named) == b.at(named));
        },
        CommandModel::Remove { key: named, .. } => {
            assert(a.at(named) == b.at(named));
        },
        CommandModel::Step { key: named, .. } => {
            assert(a.at(named) == b.at(named));
        },
        CommandModel::SwapIn { staged, live, aside } => {
            assert(a.at(staged) == b.at(staged));
        },
        CommandModel::Unlink { keys } => {},
    }
    assert forall|other: Seq<Seq<char>>| #[trigger]
        b.after(command).at(other) == a.after(command).at(other) || written.contains(other) by {
        assert(b.at(other) == a.at(other) || written.contains(other));
    }
}

/// Once a sync has its copy of the ranking, publishing another one changes
/// nothing of it, whichever way it takes: each further action is what it would
/// have been, and so is every set but the published ranking, which stays as it
/// was published.
pub proof fn law_a_ranking_published_amid_a_sync_waits(
    keys: SyncKeys,
    now: i64,
    phase: PhaseModel,
    before: StoreModel,
    published: StoreModel,
    n: nat,
)
    requires
        keys.apart(),
        keys.ranking_apart(),
        copied_already(phase),
        same_but(before, published, set![keys.ranking]),
    ensures
        ({
            let quiet = run(keys, now, (SyncState { phase, store: before }), n);
            let amid = run(keys, now, (SyncState { phase, store: published }), n);
            &&& amid.phase == quiet.phase
            &&& same_but(quiet.store, amid.store, set![keys.ranking])
            &&& amid.store.at(keys.ranking) == published.at(keys.ranking)
        }),
    decreases n,
{
    if n > 0 {
        let quiet = SyncState { phase, store: before };
        let amid = SyncState { phase, store: published };
        law_only_the_copy_names_the_ranking(keys, phase);
        match phase.action(keys) {
            Some(ActionModel::Store(command)) => {
                lemma_unnamed(command, before, published, keys.ranking);
            },
            _ => {},
        }
        match tick(keys, now, quiet) {
            Some(next) => {
                assert(tick(keys, now, amid) is Some);
                let other = tick(keys, now, amid)->0;
                assert(copied_already(next.phase));
                law_a_ranking_published_amid_a_sync_waits(
                    keys,
                    now,
                    next.phase,
                    next.store,
                    other.store,
                    (n - 1) as nat,
                );
            },
            None => {},
        }
    }
}

/// A sync amid which another ranking is published, behind its copy, ends with
/// both twins in line with the ranking that it copied, and records that one; the
/// next sync finds the other.
pub proof fn law_a_sync_amid_a_publish_applies_its_copy(
    keys: SyncKeys,
    now: i64,
    store: StoreModel,
    n: nat,
    fresh: Map<Seq<char>, i64>,
) -> (end: StoreModel)
    requires
        keys.apart(),
        keys.ranking_apart(),
        store.exists_at(keys.ranking),
        incremental(keys, store) ==> sound(keys, store),
        countable(store.at(keys.ranking)),
        countable(store.at(keys.synced)),
        countable(store.at(keys.timeline.global)),
        forall|author: Seq<char>| countable(store.at(#[trigger] keys.posts_of(author))),
        now >= i64::MIN + RANKED_BUILD_CATCH_UP_MS,
        copied_already(
            run(keys, now, (SyncState { phase: PhaseModel::CheckRanking, store }), n).phase,
        ),
    ensures
        ({
            let there = run(keys, now, (SyncState { phase: PhaseModel::CheckRanking, store }), n);
            reaches(
                keys,
                now,
                (SyncState { phase: there.phase, store: there.store.with(keys.ranking, fresh) }),
                (SyncState { phase: PhaseModel::Done, store: end }),
            )
        }),
        forall|which: Twin| #[trigger]
            end.at(keys.sets(which).ranked) == keys.twin(store, which, store.at(keys.ranking)),
        end.at(keys.synced) == store.at(keys.ranking),
        end.at(keys.ranking) == fresh,
{
    let start = SyncState { phase: PhaseModel::CheckRanking, store };
    let quiet = law_sync_brings_the_twins_in_line(keys, now, store);
    let done = SyncState { phase: PhaseModel::Done, store: quiet };
    let m = choose|m: nat| #[trigger] run(keys, now, start, m) == done;
    let there = run(keys, now, start, n);
    // One run is the other's continuation, and a run stays where it ended.
    lemma_run_on(keys, now, start, n, m);
    lemma_run_on(keys, now, start, m, n);
    assert(run(keys, now, done, n) == done);
    assert(run(keys, now, there, m) == done);
    let published = there.store.with(keys.ranking, fresh);
    assert(same_but(there.store, published, set![keys.ranking]));
    law_a_ranking_published_amid_a_sync_waits(keys, now, there.phase, there.store, published, m);
    let end = run(keys, now, (SyncState { phase: there.phase, store: published }), m);
    lemma_apart(keys);
    assert(end.store.at(keys.synced) == quiet.at(keys.synced));
    assert forall|which: Twin| #[trigger]
        end.store.at(keys.sets(which).ranked) == quiet.at(keys.sets(which).ranked) by {
        match which {
            Twin::Timeline => {},
            Twin::Engagement => {},
        }
    }
    end.store
}

/// What others do to a store between two actions of a catch-up: they may add
/// posts to the global sets, at whatever score, and to the live twins, and leave
/// the ranking being applied alone. All else is open.
pub open spec fn alongside(keys: SyncKeys, before: StoreModel, after: StoreModel) -> bool {
    &&& sorted_set::gained(before.at(keys.timeline.global), after.at(keys.timeline.global))
    &&& after.at(keys.timeline.global).dom().finite()
    &&& after.at(keys.target) == before.at(keys.target)
    &&& forall|which: Twin, post: Seq<char>| #[trigger]
        before.at(keys.sets(which).global).contains_key(post) ==> after.at(
            keys.sets(which).global,
        ).contains_key(post)
    &&& forall|which: Twin, post: Seq<char>| #[trigger]
        before.at(keys.sets(which).ranked).contains_key(post) ==> after.at(
            keys.sets(which).ranked,
        ).contains_key(post)
}

/// A full build and its store before each of its actions, from where it reads
/// the clock to where it is over. Its catch-up starts at `at`, behind the second
/// swap: until there others may do whatever they like to the store, from there on
/// they write alongside.
pub open spec fn builds_amid(
    keys: SyncKeys,
    now: i64,
    states: Seq<SyncState>,
    at: int,
) -> bool {
    &&& 0 < at < states.len()
    &&& states[0].phase == PhaseModel::ReadClock
    &&& states[at - 1].phase matches PhaseModel::Swap { which: Twin::Engagement, .. }
    &&& states[at].store.at(keys.timeline.global).dom().finite()
    &&& forall|k: int|
        0 <= k < states.len() - 1 ==> (#[trigger] tick(keys, now, states[k])) is Some
            && states[k + 1].phase == tick(keys, now, states[k])->0.phase
    &&& forall|k: int|
        at <= k < states.len() - 1 ==> alongside(
            keys,
            (#[trigger] tick(keys, now, states[k]))->0.store,
            states[k + 1].store,
        )
    &&& states.last().phase is Commit
}

/// Where the catch-up of a build that started at `now` starts.
pub open spec fn caught_up_from(now: i64) -> i64 {
    (now - RANKED_BUILD_CATCH_UP_MS) as i64
}

/// Whether `post` is by an author that the target holds, stands in the global
/// timeline at `since` or after, and has a score in the global set of a twin.
pub open spec fn wanted(
    keys: SyncKeys,
    store: StoreModel,
    since: i64,
    which: Twin,
    post: Seq<char>,
) -> bool {
    &&& late(keys, store, since, post)
    &&& store.at(keys.sets(which).global).contains_key(post)
}

/// Others mirror what they add: a post that becomes wanted in a twin enters it
/// at the same time.
pub open spec fn mirrored(
    keys: SyncKeys,
    since: i64,
    before: StoreModel,
    after: StoreModel,
) -> bool {
    forall|which: Twin, post: Seq<char>| #[trigger]
        wanted(keys, after, since, which, post) ==> wanted(keys, before, since, which, post)
            || after.at(keys.sets(which).ranked).contains_key(post)
}

/// A full build that read `now` off the clock carries the start of its catch-up.
spec fn dated(phase: PhaseModel, now: i64) -> bool {
    let since = caught_up_from(now);
    match phase {
        PhaseModel::ReadClock => true,
        PhaseModel::ClearStaged { catch_up } => catch_up == since,
        PhaseModel::WalkRead { walk } => walk.catch_up == since,
        PhaseModel::WalkRanks { walk, .. } => walk.catch_up == since,
        PhaseModel::WalkScores { walk, .. } => walk.catch_up == since,
        PhaseModel::WalkPutTimeline { walk, .. } => walk.catch_up == since,
        PhaseModel::WalkPutEngagement { walk, .. } => walk.catch_up == since,
        PhaseModel::Swap { catch_up, .. } => catch_up == since,
        PhaseModel::Commit => true,
        PhaseModel::Done => true,
        _ => false,
    }
}

proof fn lemma_dated(keys: SyncKeys, now: i64, states: Seq<SyncState>, at: int, k: nat)
    requires
        builds_amid(keys, now, states, at),
        k < states.len(),
    ensures
        dated(states[k as int].phase, now),
    decreases k,
{
    if k > 0 {
        let last = k - 1;
        lemma_dated(keys, now, states, at, last as nat);
        assert(tick(keys, now, states[last]) is Some);
        assert(states[last + 1].phase == tick(keys, now, states[last])->0.phase);
    }
}

/// A walk has yet to read `post`.
spec fn unread(walk: Walk, global: Map<Seq<char>, i64>, post: Seq<char>) -> bool {
    let list = sorted_set::listing(global);
    &&& walk.cursor is Some
    &&& lists(list, walk_reads_from(walk, list), list.len() as int, post)
}

/// What a walk has yet to read stays so when posts are added, wherever they stand.
proof fn lemma_unread_gained(
    walk: Walk,
    before: Map<Seq<char>, i64>,
    after: Map<Seq<char>, i64>,
    post: Seq<char>,
)
    requires
        after.dom().finite(),
        sorted_set::gained(before, after),
        unread(walk, before, post),
    ensures
        unread(walk, after, post),
{
    let old = sorted_set::listing(before);
    let i = choose|i: int|
        walk_reads_from(walk, old) <= i < old.len() && (#[trigger] old[i]).0 == post;
    let j = sorted_set::lemma_gained_listing(before, after, walk.cursor->0, i);
    assert(sorted_set::listing(after)[j].0 == post);
}

/// A walk that has read a full page reads on from no further than its end.
proof fn lemma_reads_on(walk: Walk, list: Seq<(Seq<char>, i64)>, at: int, to: int)
    requires
        forall|i: int, j: int| 0 <= i <= j < list.len() ==> list[i].1 <= list[j].1,
        at == walk_reads_from(walk, list),
        0 <= at < to <= list.len(),
        walk.seen + (to - at) <= usize::MAX,
    ensures
        walk_reads_from(walk.past(list.subrange(at, to)), list) <= to,
{
    let page = list.subrange(at, to);
    let last = page.last().1;
    let ties = ranked_sync::trailing(page, last) as int;
    lemma_trailing(page, last);
    sorted_set::lemma_below(list, last);
    assert(page.last() == list[to - 1]);
    assert(ties > 0);
    assert(page[page.len() - ties] == list[to - ties]);
    assert(list[to - ties].1 == last);
    assert(sorted_set::below(list, last) <= to - ties);
}

/// What a full page leaves to be read.
spec fn pending(
    walk: Walk,
    page: Seq<(Seq<char>, i64)>,
    global: Map<Seq<char>, i64>,
    post: Seq<char>,
) -> bool {
    &&& page.len() >= RANKED_SYNC_CHUNK
    &&& walk.seen + page.len() <= usize::MAX ==> unread(walk.past(page), global, post)
}

/// A catch-up is on its way, or over.
spec fn catching_up(phase: PhaseModel) -> bool {
    match phase {
        PhaseModel::WalkRead { walk } => walk.live,
        PhaseModel::WalkRanks { walk, .. } => walk.live,
        PhaseModel::WalkScores { walk, .. } => walk.live,
        PhaseModel::WalkPutTimeline { walk, .. } => walk.live,
        PhaseModel::WalkPutEngagement { walk, .. } => walk.live,
        PhaseModel::Commit => true,
        _ => false,
    }
}

/// A catch-up will yet write `post` to a twin.
spec fn on_its_way(keys: SyncKeys, which: Twin, post: Seq<char>, state: SyncState) -> bool {
    let global = state.store.at(keys.timeline.global);
    match state.phase {
        PhaseModel::WalkRead { walk } => unread(walk, global, post),
        PhaseModel::WalkRanks { walk, page } => pending(walk, page, global, post) || lists(
            page,
            0,
            page.len() as int,
            post,
        ),
        PhaseModel::WalkScores { walk, page, timeline } => pending(walk, page, global, post)
            || sorted_set::writes(timeline, post),
        PhaseModel::WalkPutTimeline { walk, page, timeline, engagement } => pending(
            walk,
            page,
            global,
            post,
        ) || match which {
            Twin::Timeline => sorted_set::writes(timeline, post),
            Twin::Engagement => sorted_set::writes(engagement, post),
        },
        PhaseModel::WalkPutEngagement { walk, page, engagement } => pending(
            walk,
            page,
            global,
            post,
        ) || (which is Engagement && sorted_set::writes(engagement, post)),
        _ => false,
    }
}

/// A catch-up does not miss `post`: a twin holds it, or will.
spec fn assured(keys: SyncKeys, which: Twin, post: Seq<char>, state: SyncState) -> bool {
    let store = state.store;
    &&& catching_up(state.phase)
    &&& store.at(keys.timeline.global).dom().finite()
    &&& store.at(keys.target).contains_key(text::author_of(post))
    &&& store.at(keys.sets(which).global).contains_key(post)
    &&& store.at(keys.sets(which).ranked).contains_key(post) || on_its_way(
        keys,
        which,
        post,
        state,
    )
}

/// An entry of a page whose author is ranked is written.
proof fn lemma_ranked_written(
    page: Seq<(Seq<char>, i64)>,
    ranking: Map<Seq<char>, i64>,
    post: Seq<char>,
    n: nat,
)
    requires
        n <= page.len(),
        lists(page, 0, n as int, post),
        ranking.contains_key(text::author_of(post)),
    ensures
        sorted_set::writes(
            ranked_sync::ranked_in(page, scores_of(ranking, ranked_sync::authors_of(page)), n),
            post,
        ),
    decreases n,
{
    let ranks = scores_of(ranking, ranked_sync::authors_of(page));
    let elements = ranked_sync::ranked_in(page, ranks, n);
    let i = choose|i: int| 0 <= i < n && (#[trigger] page[i]).0 == post;
    assert(ranks[n - 1] == sorted_set::score_in(ranking, text::author_of(page[n - 1].0)));
    if i == n - 1 {
        assert(elements.last().1 == post);
        assert(elements[elements.len() - 1].1 == post);
    } else {
        assert(lists(page, 0, n - 1, post));
        lemma_ranked_written(page, ranking, post, (n - 1) as nat);
        let fewer = ranked_sync::ranked_in(page, ranks, (n - 1) as nat);
        let j = choose|j: int| 0 <= j < fewer.len() && (#[trigger] fewer[j]).1 == post;
        assert(elements[j].1 == post);
    }
}

/// Reading a page brings a post on its way into it, or leaves it to be read.
proof fn lemma_assured_page(keys: SyncKeys, store: StoreModel, walk: Walk, post: Seq<char>)
    requires
        store.at(keys.timeline.global).dom().finite(),
        unread(walk, store.at(keys.timeline.global), post),
    ensures
        ({
            let global = store.at(keys.timeline.global);
            let read = CommandModel::PageByScore {
                key: keys.timeline.global,
                start: None,
                end: walk.cursor,
                skip: Some(walk.seen),
                limit: Some(RANKED_SYNC_CHUNK),
                order: SortOrder::Ascending,
            };
            &&& PhaseModel::WalkRead { walk }.next(
                AnswerModel::Store(store.reply(read)),
            ) matches PhaseModel::WalkRanks { walk: same, page }
            &&& same == walk
            &&& pending(walk, page, global, post) || lists(page, 0, page.len() as int, post)
        }),
{
    let global = store.at(keys.timeline.global);
    let list = sorted_set::listing(global);
    sorted_set::lemma_listing(global);
    let at = walk_reads_from(walk, list);
    let i = choose|i: int| at <= i < list.len() && (#[trigger] list[i]).0 == post;
    lemma_walk_page(store, keys, walk, at);
    let to = if at + 1000 <= list.len() {
        at + 1000
    } else {
        list.len() as int
    };
    let page = list.subrange(at, to);
    if i < to {
        assert(page[i - at].0 == post);
    } else if walk.seen + page.len() <= usize::MAX {
        lemma_reads_on(walk, list, at, to);
        assert(lists(list, walk_reads_from(walk.past(page), list), list.len() as int, post));
    }
}

/// An action of a catch-up, others writing alongside, keeps a post assured.
#[verifier::spinoff_prover]
#[verifier::rlimit(60)]
proof fn lemma_assured(
    keys: SyncKeys,
    now: i64,
    which: Twin,
    post: Seq<char>,
    state: SyncState,
    next: SyncState,
)
    requires
        keys.apart(),
        assured(keys, which, post, state),
        state.phase !is Commit,
        tick(keys, now, state) is Some,
        next.phase == tick(keys, now, state)->0.phase,
        alongside(keys, tick(keys, now, state)->0.store, next.store),
    ensures
        assured(keys, which, post, next),
{
    lemma_apart(keys);
    let store = state.store;
    let mid = tick(keys, now, state)->0;
    let global = store.at(keys.timeline.global);
    let after = next.store.at(keys.timeline.global);
    let held = store.at(keys.sets(which).ranked).contains_key(post);
    assert(mid.store.at(keys.timeline.global) == global);
    assert(mid.store.at(keys.target) == store.at(keys.target));
    assert(mid.store.at(keys.sets(which).global) == store.at(keys.sets(which).global));
    match state.phase {
        PhaseModel::WalkRead { walk } => {
            assert(mid.store == store);
            assert(mid.phase is WalkRanks && mid.phase->WalkRanks_walk == walk);
            if !held {
                lemma_assured_page(keys, store, walk, post);
                let page = mid.phase->WalkRanks_page;
                if pending(walk, page, global, post) && walk.seen + page.len() <= usize::MAX {
                    lemma_unread_gained(walk.past(page), global, after, post);
                }
            }
        },
        PhaseModel::WalkRanks { walk, page } => {
            assert(mid.store == store);
            if !held {
                if pending(walk, page, global, post) {
                    if walk.seen + page.len() <= usize::MAX {
                        lemma_unread_gained(walk.past(page), global, after, post);
                    }
                } else {
                    lemma_ranked_written(page, store.at(keys.target), post, page.len());
                }
            }
        },
        PhaseModel::WalkScores { walk, page, timeline } => {
            assert(mid.store == store);
            if !held {
                if pending(walk, page, global, post) {
                    if walk.seen + page.len() <= usize::MAX {
                        lemma_unread_gained(walk.past(page), global, after, post);
                    }
                } else {
                    let posts = ranked_sync::keys_of(timeline);
                    let i = choose|i: int|
                        0 <= i < timeline.len() && (#[trigger] timeline[i]).1 == post;
                    assert(posts[i] == post && posts.contains(post));
                    lemma_scored(posts, store.at(keys.engagement.global));
                    let elements = ranked_sync::scored_members(
                        posts,
                        scores_of(store.at(keys.engagement.global), posts),
                    );
                    if which is Engagement {
                        assert(sorted_set::writes(elements, post));
                    }
                }
            }
        },
        PhaseModel::WalkPutTimeline { walk, page, timeline, .. } => {
            if which is Timeline && (held || sorted_set::writes(timeline, post)) {
                sorted_set::lemma_put_all_holds(store.at(keys.timeline.ranked), timeline, post);
            }
            assert(held ==> mid.store.at(keys.sets(which).ranked).contains_key(post));
            assert(which is Timeline && sorted_set::writes(timeline, post) ==> mid.store.at(
                keys.sets(which).ranked,
            ).contains_key(post));
            if pending(walk, page, global, post) && walk.seen + page.len() <= usize::MAX {
                lemma_unread_gained(walk.past(page), global, after, post);
            }
        },
        PhaseModel::WalkPutEngagement { walk, page, engagement } => {
            if which is Engagement && (held || sorted_set::writes(engagement, post)) {
                sorted_set::lemma_put_all_holds(
                    store.at(keys.engagement.ranked),
                    engagement,
                    post,
                );
            }
            assert(held || (which is Engagement && sorted_set::writes(engagement, post))
                ==> mid.store.at(keys.sets(which).ranked).contains_key(post));
            if pending(walk, page, global, post) {
                assert(walk.seen + page.len() <= usize::MAX);
                lemma_unread_gained(walk.past(page), global, after, post);
            }
        },
        _ => {},
    }
}

/// A build that is over at the last state is not over before.
proof fn lemma_not_over(keys: SyncKeys, now: i64, states: Seq<SyncState>, at: int, k: int)
    requires
        builds_amid(keys, now, states, at),
        0 <= k < states.len() - 1,
    ensures
        states[k].phase !is Commit,
{
    assert(tick(keys, now, states[k]) is Some);
    if states[k].phase is Commit {
        assert(states[k + 1].phase == PhaseModel::Done);
        if k + 1 < states.len() - 1 {
            assert(tick(keys, now, states[k + 1]) is Some);
        }
    }
}

/// The catch-up starts with every wanted post assured.
proof fn lemma_assured_first(
    keys: SyncKeys,
    now: i64,
    states: Seq<SyncState>,
    at: int,
    which: Twin,
    post: Seq<char>,
)
    requires
        builds_amid(keys, now, states, at),
    ensures
        catching_up(states[at].phase),
        wanted(keys, states[at].store, caught_up_from(now), which, post) ==> assured(
            keys,
            which,
            post,
            states[at],
        ),
{
    let since = caught_up_from(now);
    lemma_dated(keys, now, states, at, (at - 1) as nat);
    assert(tick(keys, now, states[at - 1]) is Some);
    assert(states[(at - 1) + 1].phase == tick(keys, now, states[at - 1])->0.phase);
    let walk = Walk { live: true, catch_up: since, cursor: Some(since), seen: 0 };
    assert(states[at].phase == PhaseModel::WalkRead { walk });
    if wanted(keys, states[at].store, since, which, post) {
        let global = states[at].store.at(keys.timeline.global);
        let list = sorted_set::listing(global);
        sorted_set::lemma_listing(global);
        sorted_set::lemma_below(list, since);
        let i = choose|i: int| 0 <= i < list.len() && (#[trigger] list[i]).0 == post;
        assert(global[list[i].0] == list[i].1);
        assert(lists(list, walk_reads_from(walk, list), list.len() as int, post));
    }
}

proof fn lemma_assured_on(
    keys: SyncKeys,
    now: i64,
    states: Seq<SyncState>,
    at: int,
    k: nat,
    which: Twin,
    post: Seq<char>,
)
    requires
        keys.apart(),
        builds_amid(keys, now, states, at),
        wanted(keys, states[at].store, caught_up_from(now), which, post),
        at <= k < states.len(),
    ensures
        assured(keys, which, post, states[k as int]),
    decreases k,
{
    if k == at {
        lemma_assured_first(keys, now, states, at, which, post);
    } else {
        let last = k - 1;
        lemma_assured_on(keys, now, states, at, last as nat, which, post);
        lemma_not_over(keys, now, states, at, last);
        assert(tick(keys, now, states[last]) is Some);
        assert(states[last + 1].phase == tick(keys, now, states[last])->0.phase);
        lemma_assured(keys, now, which, post, states[last], states[last + 1]);
    }
}

/// A full build loses no post that was indexed while it ran, whatever others did
/// to the store until its catch-up started and whatever they add from then on:
/// once it is over, each live twin holds every post by a ranked author that stood
/// in the global timeline when the catch-up started, scored no more than
/// `RANKED_BUILD_CATCH_UP_MS` below the time at which the build started, and had a
/// score in that twin's global set.
pub proof fn law_a_full_build_amid_new_posts_loses_none(
    keys: SyncKeys,
    now: i64,
    states: Seq<SyncState>,
    at: int,
    which: Twin,
    post: Seq<char>,
)
    requires
        keys.apart(),
        builds_amid(keys, now, states, at),
    ensures
        wanted(keys, states[at].store, caught_up_from(now), which, post)
            ==> states.last().store.at(keys.sets(which).ranked).contains_key(post),
{
    if wanted(keys, states[at].store, caught_up_from(now), which, post) {
        lemma_assured_on(keys, now, states, at, (states.len() - 1) as nat, which, post);
    }
}

proof fn lemma_assured_or_mirrored(
    keys: SyncKeys,
    now: i64,
    states: Seq<SyncState>,
    at: int,
    k: nat,
    which: Twin,
    post: Seq<char>,
)
    requires
        keys.apart(),
        builds_amid(keys, now, states, at),
        forall|k: int|
            at <= k < states.len() - 1 ==> mirrored(
                keys,
                caught_up_from(now),
                (#[trigger] tick(keys, now, states[k]))->0.store,
                states[k + 1].store,
            ),
        at <= k < states.len(),
    ensures
        catching_up(states[k as int].phase),
        wanted(keys, states[k as int].store, caught_up_from(now), which, post) ==> assured(
            keys,
            which,
            post,
            states[k as int],
        ),
    decreases k,
{
    let since = caught_up_from(now);
    if k == at {
        lemma_assured_first(keys, now, states, at, which, post);
    } else {
        let last = k - 1;
        let state = states[last];
        lemma_apart(keys);
        lemma_assured_or_mirrored(keys, now, states, at, last as nat, which, post);
        lemma_not_over(keys, now, states, at, last);
        assert(tick(keys, now, states[last]) is Some);
        assert(states[last + 1].phase == tick(keys, now, states[last])->0.phase);
        let mid = tick(keys, now, state)->0;
        assert(mid.store.at(keys.timeline.global) == state.store.at(keys.timeline.global));
        assert(mid.store.at(keys.target) == state.store.at(keys.target));
        assert(mid.store.at(keys.sets(which).global) == state.store.at(keys.sets(which).global));
        if wanted(keys, state.store, since, which, post) {
            lemma_assured(keys, now, which, post, state, states[last + 1]);
        } else {
            assert(!wanted(keys, mid.store, since, which, post));
        }
    }
}

/// Where others mirror into the live twins what they add while the catch-up
/// runs, the twins are complete once the build is over: each holds every post by
/// a ranked author that stands in the global timeline, scores no more than
/// `RANKED_BUILD_CATCH_UP_MS` below the time at which the build started, and has a
/// score in that twin's global set.
pub proof fn law_a_full_build_amid_mirrored_posts_ends_complete(
    keys: SyncKeys,
    now: i64,
    states: Seq<SyncState>,
    at: int,
    which: Twin,
    post: Seq<char>,
)
    requires
        keys.apart(),
        builds_amid(keys, now, states, at),
        forall|k: int|
            at <= k < states.len() - 1 ==> mirrored(
                keys,
                caught_up_from(now),
                (#[trigger] tick(keys, now, states[k]))->0.store,
                states[k + 1].store,
            ),
    ensures
        wanted(keys, states.last().store, caught_up_from(now), which, post)
            ==> states.last().store.at(keys.sets(which).ranked).contains_key(post),
{
    lemma_assured_or_mirrored(keys, now, states, at, (states.len() - 1) as nat, which, post);
}

} // verus!
