//! Sorted sets of scored members: the commands the indexes send to the store,
//! the replies they get, and a model of a store that answers them.
//!
//! A score is a whole number: a timestamp in milliseconds, a count of
//! engagements, or a rank.
use vstd::prelude::*;

verus! {

/// Which end of a sorted set a page starts from.
#[derive(Debug, Clone, Copy, PartialEq, Eq, Structural)]
pub enum SortOrder {
    Ascending,
    Descending,
}

/// A step of a member's score.
#[derive(Debug, Clone, Copy, PartialEq, Eq, Structural)]
pub enum ScoreAction {
    Increment(i64),
    Decrement(i64),
}

/// One command to the store of sorted sets. A key is given by its parts.
#[derive(Debug)]
pub enum SortedSetCommand {
    /// Whether the set holds any member; an empty set does not exist.
    Exists { key: Vec<String> },
    /// Drops whole sets.
    Unlink { keys: Vec<Vec<String>> },
    /// Members from rank `from` to rank `to`, both included, in ascending order.
    PageByRank { key: Vec<String>, from: usize, to: usize },
    /// Members with a score of at most `start` and at least `end`.
    PageByScore {
        key: Vec<String>,
        start: Option<i64>,
        end: Option<i64>,
        skip: Option<usize>,
        limit: Option<usize>,
        order: SortOrder,
    },
    /// The scores of some members, one for each, `None` for one that is not there.
    Scores { key: Vec<String>, members: Vec<String> },
    /// Writes members at their scores.
    Put { key: Vec<String>, elements: Vec<(i64, String)> },
    /// Removes members.
    Remove { key: Vec<String>, members: Vec<String> },
    /// Moves the `staged` set to `live`, whose old members are moved `aside` and dropped.
    SwapIn { staged: Vec<String>, live: Vec<String>, aside: Vec<String> },
    /// Moves a member's score and tells the new one; an absent member starts at zero.
    Step { key: Vec<String>, member: String, action: ScoreAction },
}

/// What the store answers.
#[derive(Debug)]
pub enum SortedSetReply {
    Exists(bool),
    /// A page of members with their scores; `None` where the set does not exist.
    Page(Option<Vec<(String, i64)>>),
    Scores(Vec<Option<i64>>),
    Score(i64),
    Done,
}

/// What a command asks, over plain sequences.
pub enum CommandModel {
    Exists { key: Seq<Seq<char>> },
    Unlink { keys: Seq<Seq<Seq<char>>> },
    PageByRank { key: Seq<Seq<char>>, from: nat, to: nat },
    PageByScore {
        key: Seq<Seq<char>>,
        start: Option<i64>,
        end: Option<i64>,
        skip: Option<usize>,
        limit: Option<usize>,
        order: SortOrder,
    },
    Scores { key: Seq<Seq<char>>, members: Seq<Seq<char>> },
    Put { key: Seq<Seq<char>>, elements: Seq<(i64, Seq<char>)> },
    Remove { key: Seq<Seq<char>>, members: Seq<Seq<char>> },
    SwapIn { staged: Seq<Seq<char>>, live: Seq<Seq<char>>, aside: Seq<Seq<char>> },
    Step { key: Seq<Seq<char>>, member: Seq<char>, action: ScoreAction },
}

/// What a reply tells, over plain sequences.
pub enum ReplyModel {
    Exists(bool),
    Page(Option<Seq<(Seq<char>, i64)>>),
    Scores(Seq<Option<i64>>),
    Score(i64),
    Done,
}

impl View for SortedSetCommand {
    type V = CommandModel;

    open spec fn view(&self) -> CommandModel {
        match *self {
            SortedSetCommand::Exists { key } => CommandModel::Exists { key: key.deep_view() },
            SortedSetCommand::Unlink { keys } => CommandModel::Unlink { keys: keys.deep_view() },
            SortedSetCommand::PageByRank { key, from, to } => CommandModel::PageByRank {
                key: key.deep_view(),
                from: from as nat,
                to: to as nat,
            },
            SortedSetCommand::PageByScore { key, start, end, skip, limit, order } =>
                CommandModel::PageByScore { key: key.deep_view(), start, end, skip, limit, order },
            SortedSetCommand::Scores { key, members } => CommandModel::Scores {
                key: key.deep_view(),
                members: members.deep_view(),
            },
            SortedSetCommand::Put { key, elements } => CommandModel::Put {
                key: key.deep_view(),
                elements: elements.deep_view(),
            },
            SortedSetCommand::Remove { key, members } => CommandModel::Remove {
                key: key.deep_view(),
                members: members.deep_view(),
            },
            SortedSetCommand::SwapIn { staged, live, aside } => CommandModel::SwapIn {
                staged: staged.deep_view(),
                live: live.deep_view(),
                aside: aside.deep_view(),
            },
            SortedSetCommand::Step { key, member, action } => CommandModel::Step {
                key: key.deep_view(),
                member: member@,
                action,
            },
        }
    }
}

impl View for SortedSetReply {
    type V = ReplyModel;

    open spec fn view(&self) -> ReplyModel {
        match *self {
            SortedSetReply::Exists(there) => ReplyModel::Exists(there),
            SortedSetReply::Page(page) => ReplyModel::Page(page.deep_view()),
            SortedSetReply::Scores(scores) => ReplyModel::Scores(scores@),
            SortedSetReply::Score(score) => ReplyModel::Score(score),
            SortedSetReply::Done => ReplyModel::Done,
        }
    }
}

/// A store of sorted sets: each key holds members at their scores, and a key
/// that holds nothing is absent.
pub struct StoreModel {
    pub sets: Map<Seq<Seq<char>>, Map<Seq<char>, i64>>,
}

impl StoreModel {
    /// What the set at `key` holds.
    pub open spec fn at(self, key: Seq<Seq<char>>) -> Map<Seq<char>, i64> {
        if self.sets.contains_key(key) {
            self.sets[key]
        } else {
            Map::empty()
        }
    }

    /// Whether the set at `key` exists.
    pub open spec fn exists_at(self, key: Seq<Seq<char>>) -> bool {
        !self.at(key).dom().is_empty()
    }

    /// This store with `set` at `key`.
    pub open spec fn with(self, key: Seq<Seq<char>>, set: Map<Seq<char>, i64>) -> StoreModel {
        StoreModel { sets: self.sets.insert(key, set) }
    }

    /// This store without the sets at `keys`.
    pub open spec fn without(self, keys: Seq<Seq<Seq<char>>>) -> StoreModel {
        StoreModel { sets: self.sets.remove_keys(keys.to_set()) }
    }
}

/// Whether `a` stands before `b` in a dictionary of code points.
pub open spec fn earlier(a: Seq<char>, b: Seq<char>) -> bool
    decreases a.len(),
{
    if b.len() == 0 {
        false
    } else if a.len() == 0 {
        true
    } else if a[0] == b[0] {
        earlier(a.skip(1), b.skip(1))
    } else {
        (a[0] as int) < (b[0] as int)
    }
}

/// Of two texts, one stands before the other.
proof fn lemma_earlier_total(a: Seq<char>, b: Seq<char>)
    requires
        a != b,
    ensures
        earlier(a, b) || earlier(b, a),
    decreases a.len(),
{
    if a.len() > 0 && b.len() > 0 && a[0] == b[0] {
        if a.skip(1) == b.skip(1) {
            assert(a =~= seq![a[0]] + a.skip(1));
            assert(b =~= seq![b[0]] + b.skip(1));
        }
        lemma_earlier_total(a.skip(1), b.skip(1));
    } else if a.len() == 0 && b.len() == 0 {
        assert(a =~= b);
    }
}

/// What stands before a text stands before all that follow it, and no text
/// stands before itself.
pub proof fn lemma_earlier_order(a: Seq<char>, b: Seq<char>, c: Seq<char>)
    ensures
        earlier(a, b) && earlier(b, c) ==> earlier(a, c),
        !earlier(a, a),
    decreases a.len(),
{
    if a.len() > 0 {
        if b.len() > 0 && c.len() > 0 {
            lemma_earlier_order(a.skip(1), b.skip(1), c.skip(1));
        } else {
            lemma_earlier_order(a.skip(1), a.skip(1), a.skip(1));
        }
    }
}

/// Whether the store lists entry `a` before entry `b`: by score, and members of
/// equal score as in a dictionary.
pub open spec fn listed_before(a: (Seq<char>, i64), b: (Seq<char>, i64)) -> bool {
    a.1 < b.1 || (a.1 == b.1 && earlier(a.0, b.0))
}

/// `list` names every member of `set` once, at its score, in ascending order of
/// the scores, and members of equal score as in a dictionary.
pub open spec fn is_listing(set: Map<Seq<char>, i64>, list: Seq<(Seq<char>, i64)>) -> bool {
    &&& forall|i: int, j: int| 0 <= i <= j < list.len() ==> list[i].1 <= list[j].1
    &&& forall|i: int, j: int|
        0 <= i < j < list.len() ==> listed_before(#[trigger] list[i], #[trigger] list[j])
    &&& forall|i: int, j: int|
        0 <= i < list.len() && 0 <= j < list.len() && i != j ==> list[i].0 != list[j].0
    &&& forall|i: int|
        0 <= i < list.len() ==> set.contains_key((#[trigger] list[i]).0) && set[list[i].0]
            == list[i].1
    &&& forall|member: Seq<char>| #[trigger]
        set.contains_key(member) ==> exists|i: int|
            0 <= i < list.len() && (#[trigger] list[i]).0 == member
}

/// The order in which the store lists the members of `set`.
pub open spec fn listing(set: Map<Seq<char>, i64>) -> Seq<(Seq<char>, i64)> {
    choose|list: Seq<(Seq<char>, i64)>| is_listing(set, list)
}

/// Number of entries of `list` that score less than `bound`, up to the first that does not.
pub open spec fn below(list: Seq<(Seq<char>, i64)>, bound: i64) -> nat
    decreases list.len(),
{
    if list.len() == 0 || list[0].1 >= bound {
        0
    } else {
        1 + below(list.skip(1), bound)
    }
}

/// In a sorted list, `below` parts the entries that score less than `bound` from the others.
pub proof fn lemma_below(list: Seq<(Seq<char>, i64)>, bound: i64)
    requires
        forall|i: int, j: int| 0 <= i <= j < list.len() ==> list[i].1 <= list[j].1,
    ensures
        below(list, bound) <= list.len(),
        forall|i: int| 0 <= i < below(list, bound) ==> (#[trigger] list[i]).1 < bound,
        forall|i: int| below(list, bound) <= i < list.len() ==> (#[trigger] list[i]).1 >= bound,
    decreases list.len(),
{
    if list.len() > 0 && list[0].1 < bound {
        let rest = list.skip(1);
        assert(forall|i: int| 0 <= i < rest.len() ==> #[trigger] rest[i] == list[i + 1]);
        lemma_below(rest, bound);
        assert forall|i: int| 0 <= i < below(list, bound) implies (#[trigger] list[i]).1
            < bound by {
            if i > 0 {
                assert(rest[i - 1] == list[i]);
            }
        }
        assert forall|i: int| below(list, bound) <= i < list.len() implies (#[trigger] list[i]).1
            >= bound by {
            assert(rest[i - 1] == list[i]);
        }
    }
}

/// A place that parts the entries below `bound` from the others is the only one.
pub proof fn lemma_below_is(list: Seq<(Seq<char>, i64)>, bound: i64, at: int)
    requires
        forall|i: int, j: int| 0 <= i <= j < list.len() ==> list[i].1 <= list[j].1,
        0 <= at <= list.len(),
        forall|i: int| 0 <= i < at ==> (#[trigger] list[i]).1 < bound,
        at < list.len() ==> list[at].1 >= bound,
    ensures
        below(list, bound) == at,
{
    lemma_below(list, bound);
    let b = below(list, bound) as int;
    if b < at {
        assert(list[b].1 < bound);
    }
    if at < b {
        assert(list[at].1 < bound);
    }
}

/// Number of entries that are listed before `entry`, up to the first that is not.
spec fn ahead(list: Seq<(Seq<char>, i64)>, entry: (Seq<char>, i64)) -> nat
    decreases list.len(),
{
    if list.len() == 0 || !listed_before(list[0], entry) {
        0
    } else {
        1 + ahead(list.skip(1), entry)
    }
}

/// In a listing without `entry`, `ahead` is the place where it belongs.
proof fn lemma_ahead(list: Seq<(Seq<char>, i64)>, entry: (Seq<char>, i64))
    requires
        forall|i: int, j: int|
            0 <= i < j < list.len() ==> listed_before(#[trigger] list[i], #[trigger] list[j]),
        forall|i: int| 0 <= i < list.len() ==> (#[trigger] list[i]).0 != entry.0,
    ensures
        ahead(list, entry) <= list.len(),
        forall|i: int|
            0 <= i < ahead(list, entry) ==> listed_before(#[trigger] list[i], entry),
        forall|i: int|
            ahead(list, entry) <= i < list.len() ==> listed_before(entry, #[trigger] list[i]),
    decreases list.len(),
{
    if list.len() > 0 {
        if listed_before(list[0], entry) {
            let rest = list.skip(1);
            assert(forall|i: int| 0 <= i < rest.len() ==> #[trigger] rest[i] == list[i + 1]);
            lemma_ahead(rest, entry);
            assert forall|i: int| 0 <= i < ahead(list, entry) implies listed_before(
                #[trigger] list[i],
                entry,
            ) by {
                if i > 0 {
                    assert(rest[i - 1] == list[i]);
                }
            }
            assert forall|i: int| ahead(list, entry) <= i < list.len() implies listed_before(
                entry,
                #[trigger] list[i],
            ) by {
                assert(rest[i - 1] == list[i]);
            }
        } else {
            lemma_earlier_total(list[0].0, entry.0);
            assert forall|i: int| 0 <= i < list.len() implies listed_before(
                entry,
                #[trigger] list[i],
            ) by {
                if i > 0 {
                    assert(listed_before(list[0], list[i]));
                    lemma_earlier_order(entry.0, list[0].0, list[i].0);
                }
            }
        }
    }
}

/// Every finite set can be listed.
pub proof fn lemma_listing(set: Map<Seq<char>, i64>)
    requires
        set.dom().finite(),
    ensures
        is_listing(set, listing(set)),
    decreases set.dom().len(),
{
    if set.dom().len() == 0 {
        let list = Seq::<(Seq<char>, i64)>::empty();
        assert(set.dom() =~= Set::empty());
        assert(is_listing(set, list));
    } else {
        let member = set.dom().choose();
        let rest = set.remove(member);
        assert(rest.dom() =~= set.dom().remove(member));
        lemma_listing(rest);
        let shorter = listing(rest);
        let entry = (member, set[member]);
        assert forall|i: int| 0 <= i < shorter.len() implies (#[trigger] shorter[i]).0
            != member by {
            assert(rest.contains_key(shorter[i].0));
        }
        lemma_ahead(shorter, entry);
        let at = ahead(shorter, entry) as int;
        let list = shorter.insert(at, entry);
        shorter.insert_ensures(at, entry);
        assert forall|i: int| 0 <= i < list.len() implies list[i] == (if i < at {
            shorter[i]
        } else if i == at {
            entry
        } else {
            shorter[i - 1]
        }) by {}
        assert forall|m: Seq<char>| #[trigger] set.contains_key(m) implies exists|i: int|
            0 <= i < list.len() && (#[trigger] list[i]).0 == m by {
            if m == member {
                assert(list[at].0 == m);
            } else {
                assert(rest.contains_key(m));
                let i = choose|i: int| 0 <= i < shorter.len() && (#[trigger] shorter[i]).0 == m;
                if i < at {
                    assert(list[i].0 == m);
                } else {
                    assert(list[i + 1].0 == m);
                }
            }
        }
        assert forall|i: int| 0 <= i < list.len() implies set.contains_key((#[trigger] list[i]).0)
            && set[list[i].0] == list[i].1 by {
            if i < at {
                assert(rest.contains_key(shorter[i].0));
            } else if i > at {
                assert(rest.contains_key(shorter[i - 1].0));
            }
        }
        assert forall|i: int, j: int| 0 <= i < j < list.len() implies listed_before(
            #[trigger] list[i],
            #[trigger] list[j],
        ) by {
            if i != at && j != at {
                let a = if i < at { i } else { i - 1 };
                let b = if j < at { j } else { j - 1 };
                assert(listed_before(shorter[a], shorter[b]));
            } else if j != at {
                assert(listed_before(entry, shorter[j - 1]));
            }
        }
        assert forall|i: int, j: int|
            0 <= i < list.len() && 0 <= j < list.len() && i != j implies list[i].0
            != list[j].0 by {
            let a = if i < j { i } else { j };
            let b = if i < j { j } else { i };
            assert(listed_before(list[a], list[b]));
            if list[a].0 == list[b].0 {
                assert(list[a].1 == set[list[a].0] && list[b].1 == set[list[b].0]);
                lemma_earlier_order(list[a].0, list[a].0, list[a].0);
            }
        }
        assert(is_listing(set, list));
    }
}

/// A set has one listing.
pub proof fn lemma_one_listing(
    set: Map<Seq<char>, i64>,
    a: Seq<(Seq<char>, i64)>,
    b: Seq<(Seq<char>, i64)>,
)
    requires
        is_listing(set, a),
        is_listing(set, b),
    ensures
        a == b,
    decreases a.len(),
{
    if a.len() == 0 {
        if b.len() > 0 {
            assert(set.contains_key(b[0].0));
        }
        assert(a =~= b);
    } else {
        assert(set.contains_key(a[a.len() - 1].0));
        let last = a.last();
        let i = choose|i: int| 0 <= i < b.len() && (#[trigger] b[i]).0 == last.0;
        if i < b.len() - 1 {
            let top = b.last();
            assert(listed_before(b[i], b[b.len() - 1]));
            assert(set.contains_key(b[b.len() - 1].0));
            let j = choose|j: int| 0 <= j < a.len() && (#[trigger] a[j]).0 == top.0;
            assert(b[i].0 != b[b.len() - 1].0);
            assert(listed_before(a[j], a[a.len() - 1]));
            lemma_earlier_order(last.0, top.0, last.0);
        }
        assert(b.last() == last);
        let rest = set.remove(last.0);
        lemma_shorter_listing(set, a);
        lemma_shorter_listing(set, b);
        lemma_one_listing(rest, a.drop_last(), b.drop_last());
        assert(a =~= a.drop_last().push(last));
        assert(b =~= b.drop_last().push(last));
    }
}

/// A listing without its last entry lists the set without that member.
proof fn lemma_shorter_listing(set: Map<Seq<char>, i64>, list: Seq<(Seq<char>, i64)>)
    requires
        is_listing(set, list),
        list.len() > 0,
    ensures
        is_listing(set.remove(list.last().0), list.drop_last()),
{
    let fewer = list.drop_last();
    let rest = set.remove(list.last().0);
    assert(forall|i: int| 0 <= i < fewer.len() ==> #[trigger] fewer[i] == list[i]);
    assert forall|i: int, j: int| 0 <= i < j < fewer.len() implies listed_before(
        #[trigger] fewer[i],
        #[trigger] fewer[j],
    ) by {
        assert(listed_before(list[i], list[j]));
    }
    assert forall|member: Seq<char>| #[trigger] rest.contains_key(member) implies exists|i: int|
        0 <= i < fewer.len() && (#[trigger] fewer[i]).0 == member by {
        assert(set.contains_key(member));
        let i = choose|i: int| 0 <= i < list.len() && (#[trigger] list[i]).0 == member;
        assert(fewer[i].0 == member);
    }
    assert forall|i: int| 0 <= i < fewer.len() implies rest.contains_key((#[trigger] fewer[i]).0)
        && rest[fewer[i].0] == fewer[i].1 by {
        assert(list[i].0 != list[list.len() - 1].0);
    }
}

/// `after` is `before`, with or without further members.
pub open spec fn gained(before: Map<Seq<char>, i64>, after: Map<Seq<char>, i64>) -> bool {
    forall|member: Seq<char>| #[trigger]
        before.contains_key(member) ==> after.contains_key(member) && after[member]
            == before[member]
}

/// Further members only push a member back among those that score at least
/// `least`: at least as many of these are listed before it as were.
pub proof fn lemma_gained_listing(
    before: Map<Seq<char>, i64>,
    after: Map<Seq<char>, i64>,
    least: i64,
    i: int,
) -> (j: int)
    requires
        after.dom().finite(),
        gained(before, after),
        below(listing(before), least) <= i < listing(before).len(),
    ensures
        0 <= j < listing(after).len(),
        listing(after)[j].0 == listing(before)[i].0,
        j - below(listing(after), least) >= i - below(listing(before), least),
{
    assert(before.dom().subset_of(after.dom()));
    vstd::set_lib::lemma_len_subset(before.dom(), after.dom());
    lemma_listing(before);
    lemma_listing(after);
    let old = listing(before);
    let new = listing(after);
    lemma_below(old, least);
    lemma_below(new, least);
    let lo = below(old, least) as int;
    let hi = below(new, least) as int;
    assert(before.contains_key(old[i].0));
    assert(after.contains_key(old[i].0));
    let j = choose|j: int| 0 <= j < new.len() && (#[trigger] new[j]).0 == old[i].0;
    assert(new[j] == old[i]);
    assert(j >= hi);
    let few = Seq::new((i - lo) as nat, |x: int| old[lo + x].0);
    let many = Seq::new((j - hi) as nat, |x: int| new[hi + x].0);
    assert forall|x: int, y: int| 0 <= x < few.len() && 0 <= y < few.len() && x != y implies few[x]
        != few[y] by {
        assert(old[lo + x].0 != old[lo + y].0);
    }
    assert forall|x: int, y: int|
        0 <= x < many.len() && 0 <= y < many.len() && x != y implies many[x] != many[y] by {
        assert(new[hi + x].0 != new[hi + y].0);
    }
    few.unique_seq_to_set();
    many.unique_seq_to_set();
    assert forall|member: Seq<char>| #[trigger] few.to_set().contains(member) implies many.to_set().contains(
        member,
    ) by {
        let x = few.index_of(member);
        let from = old[lo + x];
        assert(from.0 == member);
        assert(before.contains_key(from.0));
        assert(after.contains_key(member));
        let y = choose|y: int| 0 <= y < new.len() && (#[trigger] new[y]).0 == member;
        assert(new[y] == from);
        assert(y >= hi);
        assert(listed_before(old[lo + x], old[i]));
        if y >= j {
            assert(old[lo + x].0 != old[i].0);
            assert(y != j);
            assert(listed_before(new[j], new[y]));
            lemma_earlier_order(from.0, old[i].0, from.0);
        }
        assert(many[y - hi] == member);
    }
    vstd::set_lib::lemma_len_subset(few.to_set(), many.to_set());
    j
}

/// `after` is `before` with further members, each of which scores above all
/// that were there.
pub open spec fn grown(before: Map<Seq<char>, i64>, after: Map<Seq<char>, i64>) -> bool {
    &&& gained(before, after)
    &&& forall|old: Seq<char>, new: Seq<char>|
        #![trigger before.contains_key(old), after.contains_key(new)]
        before.contains_key(old) && after.contains_key(new) && !before.contains_key(new)
            ==> before[old] < after[new]
}

/// The listing of a set that has grown begins with its earlier listing.
pub proof fn lemma_grown_listing(before: Map<Seq<char>, i64>, after: Map<Seq<char>, i64>)
    requires
        after.dom().finite(),
        grown(before, after),
    ensures
        before.dom().finite(),
        listing(before).len() <= listing(after).len(),
        listing(after).take(listing(before).len() as int) == listing(before),
        forall|i: int, j: int|
            0 <= i < listing(before).len() <= j < listing(after).len() ==> (#[trigger] listing(
                after,
            )[i]).1 < (#[trigger] listing(after)[j]).1,
{
    assert(before.dom().subset_of(after.dom()));
    vstd::set_lib::lemma_len_subset(before.dom(), after.dom());
    let more = after.remove_keys(before.dom());
    assert(more.dom() =~= after.dom().difference(before.dom()));
    lemma_listing(before);
    lemma_listing(more);
    lemma_listing(after);
    let low = listing(before);
    let high = listing(more);
    let list = low + high;
    assert forall|i: int, j: int| 0 <= i < low.len() <= j < list.len() implies list[i].1
        < list[j].1 by {
        assert(before.contains_key(low[i].0));
        assert(more.contains_key(high[j - low.len()].0));
        assert(after.contains_key(high[j - low.len()].0));
    }
    assert forall|i: int| 0 <= i < list.len() implies after.contains_key((#[trigger] list[i]).0)
        && after[list[i].0] == list[i].1 && before.contains_key(list[i].0) == (i
        < low.len()) by {
        if i < low.len() {
            assert(before.contains_key(low[i].0));
        } else {
            assert(more.contains_key(high[i - low.len()].0));
        }
    }
    assert forall|i: int, j: int| 0 <= i < j < list.len() implies listed_before(
        #[trigger] list[i],
        #[trigger] list[j],
    ) by {
        if j < low.len() {
            assert(listed_before(low[i], low[j]));
        } else if i >= low.len() {
            assert(listed_before(high[i - low.len()], high[j - low.len()]));
        }
    }
    assert forall|i: int, j: int|
        0 <= i < list.len() && 0 <= j < list.len() && i != j implies list[i].0
        != list[j].0 by {
        if i < low.len() && j < low.len() {
            assert(low[i].0 != low[j].0);
        } else if i >= low.len() && j >= low.len() {
            assert(high[i - low.len()].0 != high[j - low.len()].0);
        }
    }
    assert forall|member: Seq<char>| #[trigger] after.contains_key(member) implies exists|i: int|
        0 <= i < list.len() && (#[trigger] list[i]).0 == member by {
        if before.contains_key(member) {
            let i = choose|i: int| 0 <= i < low.len() && (#[trigger] low[i]).0 == member;
            assert(list[i].0 == member);
        } else {
            assert(more.contains_key(member));
            let i = choose|i: int| 0 <= i < high.len() && (#[trigger] high[i]).0 == member;
            assert(list[low.len() + i].0 == member);
        }
    }
    assert(is_listing(after, list)) by {
        assert forall|i: int, j: int| 0 <= i <= j < list.len() implies list[i].1 <= list[j].1 by {
            if i < j {
                assert(listed_before(list[i], list[j]));
            }
        }
    }
    lemma_one_listing(after, listing(after), list);
    assert(list.take(low.len() as int) =~= low);
}

/// At most `limit` entries of `list`, from the one behind the first `skip` on.
pub open spec fn window<T>(list: Seq<T>, skip: nat, limit: Option<nat>) -> Seq<T> {
    let from = if skip <= list.len() { skip as int } else { list.len() as int };
    let left = list.len() - from;
    let taken = match limit {
        Some(most) => if most <= left { most as int } else { left },
        None => left,
    };
    list.subrange(from, from + taken)
}

/// Whether `score` is at most `start` and at least `end`, as far as those are given.
pub open spec fn in_bounds(score: i64, start: Option<i64>, end: Option<i64>) -> bool {
    (start matches Some(most) ==> score <= most) && (end matches Some(least) ==> score >= least)
}

/// The members of `set` in bounds, from the end that `order` names.
pub open spec fn in_range(
    set: Map<Seq<char>, i64>,
    start: Option<i64>,
    end: Option<i64>,
    order: SortOrder,
) -> Seq<(Seq<char>, i64)> {
    let list = match order {
        SortOrder::Ascending => listing(set),
        SortOrder::Descending => listing(set).reverse(),
    };
    list.filter(|entry: (Seq<char>, i64)| in_bounds(entry.1, start, end))
}

/// `set` with `elements` written to it, the later of two with one name winning.
pub open spec fn put_all(
    set: Map<Seq<char>, i64>,
    elements: Seq<(i64, Seq<char>)>,
) -> Map<Seq<char>, i64>
    decreases elements.len(),
{
    if elements.len() == 0 {
        set
    } else {
        put_all(set, elements.drop_last()).insert(elements.last().1, elements.last().0)
    }
}

/// Whether `elements` write `member`.
pub open spec fn writes(elements: Seq<(i64, Seq<char>)>, member: Seq<char>) -> bool {
    exists|i: int| 0 <= i < elements.len() && (#[trigger] elements[i]).1 == member
}

/// The score of `member` in `set`, if it is there.
pub open spec fn score_in(set: Map<Seq<char>, i64>, member: Seq<char>) -> Option<i64> {
    if set.contains_key(member) {
        Some(set[member])
    } else {
        None
    }
}

/// A score after `action`.
pub open spec fn stepped(score: int, action: ScoreAction) -> int {
    match action {
        ScoreAction::Increment(by) => score + by,
        ScoreAction::Decrement(by) => score - by,
    }
}

impl StoreModel {
    /// What the store answers to `command`.
    pub open spec fn reply(self, command: CommandModel) -> ReplyModel {
        match command {
            CommandModel::Exists { key } => ReplyModel::Exists(self.exists_at(key)),
            CommandModel::PageByRank { key, from, to } => ReplyModel::Page(
                Some(window(listing(self.at(key)), from, Some((to + 1 - from) as nat))),
            ),
            CommandModel::PageByScore { key, start, end, skip, limit, order } => ReplyModel::Page(
                if self.exists_at(key) {
                    Some(
                        window(
                            in_range(self.at(key), start, end, order),
                            match skip {
                                Some(n) => n as nat,
                                None => 0,
                            },
                            match limit {
                                Some(n) => Some(n as nat),
                                None => None,
                            },
                        ),
                    )
                } else {
                    None
                },
            ),
            CommandModel::Scores { key, members } => ReplyModel::Scores(
                Seq::new(members.len(), |i: int| score_in(self.at(key), members[i])),
            ),
            CommandModel::Step { key, member, action } => ReplyModel::Score(
                stepped(
                    match score_in(self.at(key), member) {
                        Some(score) => score as int,
                        None => 0,
                    },
                    action,
                ) as i64,
            ),
            _ => ReplyModel::Done,
        }
    }

    /// The store once `command` has run.
    pub open spec fn after(self, command: CommandModel) -> StoreModel {
        match command {
            CommandModel::Unlink { keys } => self.without(keys),
            CommandModel::Put { key, elements } => self.with(key, put_all(self.at(key), elements)),
            CommandModel::Remove { key, members } => self.with(
                key,
                self.at(key).remove_keys(members.to_set()),
            ),
            CommandModel::SwapIn { staged, live, aside } => self.with(
                live,
                self.at(staged),
            ).without(seq![staged, aside]),
            CommandModel::Step { key, member, action } => match self.reply(command) {
                ReplyModel::Score(score) => self.with(key, self.at(key).insert(member, score)),
                _ => self,
            },
            _ => self,
        }
    }
}

/// Writing elements leaves every other member alone and puts each of theirs at
/// its score, where the elements agree with `scores`.
pub proof fn lemma_put_all(
    set: Map<Seq<char>, i64>,
    elements: Seq<(i64, Seq<char>)>,
    scores: Map<Seq<char>, i64>,
)
    requires
        forall|i: int|
            0 <= i < elements.len() ==> score_in(scores, (#[trigger] elements[i]).1) == Some(
                elements[i].0,
            ),
    ensures
        forall|member: Seq<char>| #[trigger]
            score_in(put_all(set, elements), member) == (if writes(elements, member) {
                Some(scores[member])
            } else {
                score_in(set, member)
            }),
        set.dom().finite() ==> put_all(set, elements).dom().finite(),
    decreases elements.len(),
{
    if elements.len() > 0 {
        let fewer = elements.drop_last();
        assert(forall|i: int| 0 <= i < fewer.len() ==> #[trigger] fewer[i] == elements[i]);
        lemma_put_all(set, fewer, scores);
        let last = elements.last();
        assert(elements[elements.len() - 1] == last);
        assert forall|member: Seq<char>| #[trigger]
            score_in(put_all(set, elements), member) == (if writes(elements, member) {
                Some(scores[member])
            } else {
                score_in(set, member)
            }) by {
            assert(score_in(put_all(set, fewer), member) == (if writes(fewer, member) {
                Some(scores[member])
            } else {
                score_in(set, member)
            }));
            if last.1 != member && writes(elements, member) {
                let i = choose|i: int|
                    0 <= i < elements.len() && (#[trigger] elements[i]).1 == member;
                assert(fewer[i].1 == member);
            }
        }
    }
}

/// What was there before elements are written is there behind it, and so is
/// what they write.
pub proof fn lemma_put_all_holds(
    set: Map<Seq<char>, i64>,
    elements: Seq<(i64, Seq<char>)>,
    member: Seq<char>,
)
    requires
        set.contains_key(member) || writes(elements, member),
    ensures
        put_all(set, elements).contains_key(member),
    decreases elements.len(),
{
    if elements.len() > 0 && elements.last().1 != member {
        let fewer = elements.drop_last();
        if writes(elements, member) {
            let i = choose|i: int| 0 <= i < elements.len() && (#[trigger] elements[i]).1 == member;
            assert(fewer[i].1 == member);
        }
        lemma_put_all_holds(set, fewer, member);
    }
}

/// A filter that every entry passes keeps the list.
pub proof fn lemma_filter_all<T>(list: Seq<T>, keep: spec_fn(T) -> bool)
    requires
        forall|i: int| 0 <= i < list.len() ==> keep(#[trigger] list[i]),
    ensures
        list.filter(keep) == list,
    decreases list.len(),
{
    reveal(Seq::filter);
    if list.len() > 0 {
        let fewer = list.drop_last();
        assert(forall|i: int| 0 <= i < fewer.len() ==> #[trigger] fewer[i] == list[i]);
        lemma_filter_all(fewer, keep);
        assert(keep(list[list.len() - 1]));
        assert(fewer.push(list.last()) =~= list);
    }
}

/// A filter that no entry passes leaves nothing.
pub proof fn lemma_filter_none<T>(list: Seq<T>, keep: spec_fn(T) -> bool)
    requires
        forall|i: int| 0 <= i < list.len() ==> !keep(#[trigger] list[i]),
    ensures
        list.filter(keep) == Seq::<T>::empty(),
    decreases list.len(),
{
    reveal(Seq::filter);
    if list.len() > 0 {
        let fewer = list.drop_last();
        assert(forall|i: int| 0 <= i < fewer.len() ==> #[trigger] fewer[i] == list[i]);
        lemma_filter_none(fewer, keep);
        assert(!keep(list[list.len() - 1]));
    }
}

/// An ascending read with a lower bound alone gives the end of the listing.
pub proof fn lemma_in_range_from(set: Map<Seq<char>, i64>, end: Option<i64>)
    requires
        set.dom().finite(),
    ensures
        in_range(set, None, end, SortOrder::Ascending) == listing(set).skip(
            match end {
                Some(least) => below(listing(set), least) as int,
                None => 0,
            },
        ),
{
    lemma_listing(set);
    let list = listing(set);
    let keep = |entry: (Seq<char>, i64)| in_bounds(entry.1, None, end);
    match end {
        Some(least) => {
            lemma_below(list, least);
            let at = below(list, least) as int;
            let low = list.take(at);
            let high = list.skip(at);
            assert(list =~= low + high);
            Seq::filter_distributes_over_add(low, high, keep);
            assert forall|i: int| 0 <= i < low.len() implies !keep(#[trigger] low[i]) by {
                assert(low[i] == list[i]);
            }
            assert forall|i: int| 0 <= i < high.len() implies keep(#[trigger] high[i]) by {
                assert(high[i] == list[at + i]);
            }
            lemma_filter_none(low, keep);
            lemma_filter_all(high, keep);
            assert(Seq::<(Seq<char>, i64)>::empty() + high =~= high);
        },
        None => {
            lemma_filter_all(list, keep);
            assert(list.skip(0) =~= list);
        },
    }
}

/// Writing two lists one after the other is writing them in one.
pub proof fn lemma_put_all_on(
    set: Map<Seq<char>, i64>,
    first: Seq<(i64, Seq<char>)>,
    second: Seq<(i64, Seq<char>)>,
)
    ensures
        put_all(put_all(set, first), second) == put_all(set, first + second),
    decreases second.len(),
{
    if second.len() == 0 {
        assert(first + second =~= first);
    } else {
        lemma_put_all_on(set, first, second.drop_last());
        assert((first + second).drop_last() =~= first + second.drop_last());
        assert((first + second).last() == second.last());
    }
}

/// A listing has as many entries as the set has members.
pub proof fn lemma_listing_len(set: Map<Seq<char>, i64>, list: Seq<(Seq<char>, i64)>)
    requires
        is_listing(set, list),
    ensures
        list.len() == set.dom().len(),
{
    let members = list.map_values(|entry: (Seq<char>, i64)| entry.0);
    assert forall|i: int, j: int|
        0 <= i < members.len() && 0 <= j < members.len() && i != j implies members[i]
        != members[j] by {
        assert(list[i].0 != list[j].0);
    }
    members.unique_seq_to_set();
    assert forall|member: Seq<char>| set.dom().contains(member) implies #[trigger] members.contains(
        member,
    ) by {
        assert(set.contains_key(member));
        let i = choose|i: int| 0 <= i < list.len() && (#[trigger] list[i]).0 == member;
        assert(members[i] == member);
    }
    assert forall|member: Seq<char>| #[trigger]
        members.contains(member) implies set.dom().contains(member) by {
        let i = members.index_of(member);
        assert(list[i].0 == member);
    }
    assert(members.to_set() =~= set.dom());
}

/// A command is taken for what it is: each bound, key and member for its own.
pub proof fn law_a_command_is_taken_for_what_it_is(command: SortedSetCommand)
    ensures
        match command {
            SortedSetCommand::Exists { key } => command@ == (CommandModel::Exists {
                key: key.deep_view(),
            }),
            SortedSetCommand::Unlink { keys } => command@ == (CommandModel::Unlink {
                keys: keys.deep_view(),
            }),
            SortedSetCommand::PageByRank { key, from, to } => command@ matches
                CommandModel::PageByRank { key: k, from: f, to: t } && k == key.deep_view() && f
                == from && t == to,
            SortedSetCommand::PageByScore { key, start, end, skip, limit, order } => command@ == (
            CommandModel::PageByScore { key: key.deep_view(), start, end, skip, limit, order }),
            SortedSetCommand::Scores { key, members } => command@ == (CommandModel::Scores {
                key: key.deep_view(),
                members: members.deep_view(),
            }),
            SortedSetCommand::Put { key, elements } => command@ == (CommandModel::Put {
                key: key.deep_view(),
                elements: elements.deep_view(),
            }),
            SortedSetCommand::Remove { key, members } => command@ == (CommandModel::Remove {
                key: key.deep_view(),
                members: members.deep_view(),
            }),
            SortedSetCommand::SwapIn { staged, live, aside } => command@ == (CommandModel::SwapIn {
                staged: staged.deep_view(),
                live: live.deep_view(),
                aside: aside.deep_view(),
            }),
            SortedSetCommand::Step { key, member, action } => command@ == (CommandModel::Step {
                key: key.deep_view(),
                member: member@,
                action,
            }),
        },
{
}

/// A reply is taken for what it is.
pub proof fn law_a_reply_is_taken_for_what_it_is(reply: SortedSetReply)
    ensures
        match reply {
            SortedSetReply::Exists(there) => reply@ == ReplyModel::Exists(there),
            SortedSetReply::Page(page) => reply@ == ReplyModel::Page(page.deep_view()),
            SortedSetReply::Scores(scores) => reply@ == ReplyModel::Scores(scores@),
            SortedSetReply::Score(score) => reply@ == ReplyModel::Score(score),
            SortedSetReply::Done => reply@ == ReplyModel::Done,
        },
{
}

} // verus!
