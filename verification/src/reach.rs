//! Which authors a reach around an observer holds.
use crate::order;
use crate::pubky_id;
use crate::pubky_id::parse_pubky_id;
use crate::sorted_set;
use crate::text::same_text;
use crate::types::StreamReach;
use vstd::prelude::*;

verus! {

/// Authors resolved from a reach by `reach_authors`.
#[derive(Debug, PartialEq)]
pub struct ReachAuthors {
    /// At most `limit` authors, the most prolific first.
    pub author_ids: Vec<String>,
    /// The reach held more than `limit` authors, so `author_ids` is a subset.
    pub met_limit: bool,
}

/// The most prolific authors in a reach, asked of the graph.
#[derive(Debug)]
pub struct ReachQuery {
    pub observer_id: String,
    pub reach: StreamReach,
    pub limit: usize,
}

/// Of the first `n` parsed ids, those that are ids.
pub open spec fn valid_in(parsed: Seq<Option<Seq<char>>>, n: nat) -> Seq<Seq<char>>
    decreases n,
{
    if n == 0 {
        Seq::empty()
    } else {
        let before = valid_in(parsed, (n - 1) as nat);
        match parsed[n - 1] {
            Some(id) => before.push(id),
            None => before,
        }
    }
}

/// What the ids of a reach parse to, up to a limit.
pub open spec fn parsed_ids(ids: Seq<Seq<char>>, limit: nat) -> Seq<Option<Seq<char>>> {
    Seq::new(
        if ids.len() <= limit {
            ids.len()
        } else {
            limit
        },
        |i: int| pubky_id::pubky_id(ids[i]),
    )
}

/// The authors that rows resolve to under a limit.
pub open spec fn authors_of_rows(rows: Seq<Seq<char>>, limit: nat) -> Seq<Seq<char>> {
    valid_in(parsed_ids(rows, limit), parsed_ids(rows, limit).len())
}

/// How many rows are asked for to resolve up to `limit` authors.
pub open spec fn asked_rows(limit: usize) -> int {
    if limit == usize::MAX {
        limit as int
    } else {
        limit + 1
    }
}

/// Whether so many rows are more than the limit.
pub open spec fn exceeds(rows: usize, limit: usize) -> bool {
    rows > limit
}

/// The query that resolves up to `limit` authors of `observer_id`'s `reach`.
///
/// One extra row is asked for: it tells a reach of exactly `limit` authors from
/// a larger one.
pub fn reach_authors_query(observer_id: &str, reach: &StreamReach, limit: usize) -> (query:
    ReachQuery)
    ensures
        query.observer_id@ == observer_id@,
        query.reach == *reach,
        query.limit == asked_rows(limit),
{
    ReachQuery {
        observer_id: observer_id.to_owned(),
        reach: *reach,
        limit: if limit == usize::MAX {
            limit
        } else {
            limit + 1
        },
    }
}

/// The authors that a reach resolves to, from the rows of its query and what
/// the ids among the first `limit` of them parse to. An id that does not parse
/// is dropped rather than failing the whole search.
pub fn resolved_authors(rows: usize, parsed: Vec<Option<String>>, limit: usize) -> (authors:
    ReachAuthors)
    ensures
        authors.author_ids.deep_view() == valid_in(parsed.deep_view(), parsed.deep_view().len()),
        authors.met_limit == exceeds(rows, limit),
{
    let mut author_ids: Vec<String> = Vec::new();
    assert(author_ids.deep_view() =~= Seq::empty());
    for id in it: parsed
        invariant
            it.seq() == parsed@,
            author_ids.deep_view() == valid_in(parsed.deep_view(), it.index() as nat),
    {
        let ghost before = author_ids.deep_view();
        let ghost i = it.index() as int;
        assert(parsed.deep_view()[i] == id.deep_view());
        if let Some(text) = id {
            author_ids.push(text);
            assert(author_ids.deep_view() =~= before.push(text@));
        }
    }
    ReachAuthors { author_ids, met_limit: rows > limit }
}

/// Resolves up to `limit` users of a reach who authored at least one post, from
/// the author ids that the graph gave for `reach_authors_query`. A larger reach
/// is trimmed to the authors with the most posts, and flagged with `met_limit`.
pub fn reach_authors(ids: Vec<String>, limit: usize) -> (authors: ReachAuthors)
    ensures
        authors.author_ids.deep_view() == authors_of_rows(ids.deep_view(), limit as nat),
        authors.met_limit == exceeds(ids@.len() as usize, limit),
        authors.met_limit == (ids@.len() > limit),
{
    let mut parsed: Vec<Option<String>> = Vec::new();
    let ghost all = parsed_ids(ids.deep_view(), limit as nat);
    let mut i: usize = 0;
    while i < ids.len() && i < limit
        invariant
            i <= ids@.len(),
            i <= limit,
            all == parsed_ids(ids.deep_view(), limit as nat),
            parsed.deep_view() == all.take(i as int),
        decreases ids@.len() - i,
    {
        let ghost before = parsed.deep_view();
        parsed.push(parse_pubky_id(ids[i].as_str()));
        i = i + 1;
        assert(parsed.deep_view() =~= before.push(all[i - 1]));
        assert(all.take(i as int) =~= before.push(all[i - 1]));
    }
    assert(parsed.deep_view() =~= all);
    resolved_authors(ids.len(), parsed, limit)
}

/// Whether a user is in a reach: known at once, or for the graph to tell.
#[derive(Debug)]
pub enum ReachMembership {
    Known(bool),
    Ask { observer_id: String, user_id: String, reach: StreamReach },
}

/// `ReachMembership`, over plain sequences.
pub enum MembershipModel {
    Known(bool),
    Ask { observer_id: Seq<char>, user_id: Seq<char>, reach: StreamReach },
}

impl View for ReachMembership {
    type V = MembershipModel;

    open spec fn view(&self) -> MembershipModel {
        match *self {
            ReachMembership::Known(reached) => MembershipModel::Known(reached),
            ReachMembership::Ask { observer_id, user_id, reach } => MembershipModel::Ask {
                observer_id: observer_id@,
                user_id: user_id@,
                reach,
            },
        }
    }
}

/// Whether a user is in an observer's reach, as far as that is known at once.
pub open spec fn membership_of(
    observer: Seq<char>,
    reach: StreamReach,
    user: Seq<char>,
) -> MembershipModel {
    if user == observer {
        MembershipModel::Known(false)
    } else {
        MembershipModel::Ask { observer_id: observer, user_id: user, reach }
    }
}

/// Whether `user_id` is in `observer_id`'s `reach`. The observer is never in
/// their own reach; of anyone else the graph is asked.
pub fn reach_contains(observer_id: &str, reach: &StreamReach, user_id: &str) -> (membership:
    ReachMembership)
    ensures
        membership@ == membership_of(observer_id@, *reach, user_id@),
{
    if same_text(user_id, observer_id) {
        ReachMembership::Known(false)
    } else {
        ReachMembership::Ask {
            observer_id: observer_id.to_owned(),
            user_id: user_id.to_owned(),
            reach: *reach,
        }
    }
}

/// Whether the graph's answer is a yes.
pub open spec fn says_yes(answer: Option<bool>) -> bool {
    answer == Some(true)
}

/// What the graph's answer says of a user; one it knows nothing of is in nobody's reach.
pub fn reached(answer: Option<bool>) -> (yes: bool)
    ensures
        yes == says_yes(answer),
        yes == (answer == Some(true)),
{
    match answer {
        Some(yes) => yes,
        None => false,
    }
}

/// The value of an attribute of a measurement.
#[derive(Debug, PartialEq)]
pub enum AttributeValue {
    Text(String),
    Number(i64),
    Flag(bool),
}

/// `AttributeValue`, over plain sequences.
pub enum AttributeModel {
    Text(Seq<char>),
    Number(i64),
    Flag(bool),
}

impl View for AttributeValue {
    type V = AttributeModel;

    open spec fn view(&self) -> AttributeModel {
        match *self {
            AttributeValue::Text(text) => AttributeModel::Text(text@),
            AttributeValue::Number(n) => AttributeModel::Number(n),
            AttributeValue::Flag(yes) => AttributeModel::Flag(yes),
        }
    }
}

/// An attribute of a measurement.
#[derive(Debug, PartialEq)]
pub struct Attribute {
    pub name: &'static str,
    pub value: AttributeValue,
}

/// Attributes, over plain sequences.
pub open spec fn attributes_model(attributes: Seq<Attribute>) -> Seq<(Seq<char>, AttributeModel)> {
    attributes.map_values(|attribute: Attribute| (attribute.name@, attribute.value@))
}

/// The attributes of a reach: its name, and the depth for a Web of Trust.
pub open spec fn reach_attributes(reach: StreamReach) -> Seq<(Seq<char>, AttributeModel)> {
    let (name, depth) = reach.dimensions();
    let named = seq![("reach"@, AttributeModel::Text(name))];
    match depth {
        Some(n) => named.push(("depth"@, AttributeModel::Number(n as i64))),
        None => named,
    }
}

/// `reach=<name>`, plus `depth` for a Web of Trust only.
pub fn reach_attrs(reach: &StreamReach) -> (attributes: Vec<Attribute>)
    ensures
        attributes_model(attributes@) == reach_attributes(*reach),
{
    let (name, depth) = reach.telemetry_dimensions();
    let mut attributes: Vec<Attribute> = Vec::new();
    attributes.push(
        Attribute { name: "reach", value: AttributeValue::Text(name.to_owned()) },
    );
    if let Some(n) = depth {
        attributes.push(Attribute { name: "depth", value: AttributeValue::Number(n as i64) });
    }
    assert(attributes_model(attributes@) =~= reach_attributes(*reach));
    attributes
}

/// One resolved reach, as it is measured.
#[derive(Debug, PartialEq)]
pub struct ReachRecord {
    pub attributes: Vec<Attribute>,
    /// How many users the reach came to.
    pub users: u64,
    /// How much the count of trimmed resolutions grows.
    pub truncated: Option<u64>,
}

/// The record of one resolved reach: how many users it came to, and one more
/// trimmed resolution where the caller's limit cut it short.
pub fn record_resolution(reach: &StreamReach, users: usize, truncated: bool) -> (record:
    ReachRecord)
    ensures
        attributes_model(record.attributes@) == reach_attributes(*reach),
        record.users == users,
        record.truncated == (if truncated {
            Some(1u64)
        } else {
            None
        }),
{
    ReachRecord {
        attributes: reach_attrs(reach),
        users: users as u64,
        truncated: if truncated {
            Some(1)
        } else {
            None
        },
    }
}

proof fn lemma_valid_len(parsed: Seq<Option<Seq<char>>>, n: nat)
    ensures
        valid_in(parsed, n).len() <= n,
    decreases n,
{
    if n > 0 {
        lemma_valid_len(parsed, (n - 1) as nat);
    }
}

/// A reach never resolves to more authors than the limit.
pub proof fn law_a_reach_stays_within_its_limit(ids: Seq<Seq<char>>, limit: nat)
    ensures
        authors_of_rows(ids, limit).len() <= limit,
{
    lemma_valid_len(parsed_ids(ids, limit), parsed_ids(ids, limit).len());
}

/// What the graph holds of a reach: who is in it, and how many posts users have.
pub struct ReachModel {
    pub members: Set<Seq<char>>,
    pub posts: Map<Seq<char>, nat>,
}

impl ReachModel {
    /// Whether a user is in the reach and authored at least one post.
    pub open spec fn is_author(self, id: Seq<char>) -> bool {
        self.members.contains(id) && self.posts.contains_key(id) && self.posts[id] > 0
    }

    /// Whether author `a` is listed before author `b`: by the number of posts,
    /// the most prolific first, and equal numbers by id, from the last one down.
    pub open spec fn ranks_before(self, a: Seq<char>, b: Seq<char>) -> bool {
        self.posts[a] > self.posts[b] || (self.posts[a] == self.posts[b] && sorted_set::earlier(
            b,
            a,
        ))
    }

    /// Whether the graph answers a query for `limit` authors with `rows`: with
    /// the first authors of the reach, as many as there are or are asked for.
    pub open spec fn is_rows(self, rows: Seq<Seq<char>>, limit: nat) -> bool {
        &&& rows.len() <= limit
        &&& forall|i: int| 0 <= i < rows.len() ==> self.is_author(#[trigger] rows[i])
        &&& forall|i: int, j: int|
            0 <= i < j < rows.len() ==> self.ranks_before(#[trigger] rows[i], #[trigger] rows[j])
        &&& forall|id: Seq<char>| #[trigger]
            self.is_author(id) && !rows.contains(id) ==> rows.len() == limit && forall|i: int|
                0 <= i < rows.len() ==> self.ranks_before(#[trigger] rows[i], id)
    }

    /// Whether the ids of all authors are ids, spelled canonically.
    pub open spec fn has_valid_ids(self) -> bool {
        forall|id: Seq<char>| #[trigger]
            self.is_author(id) ==> pubky_id::pubky_id(id) == Some(id)
    }
}

/// Canonical ids parse to themselves.
proof fn lemma_valid_rows(rows: Seq<Seq<char>>, limit: nat, n: nat)
    requires
        n <= parsed_ids(rows, limit).len(),
        forall|i: int|
            0 <= i < rows.len() ==> pubky_id::pubky_id(#[trigger] rows[i]) == Some(rows[i]),
    ensures
        valid_in(parsed_ids(rows, limit), n) == rows.take(n as int),
    decreases n,
{
    if n > 0 {
        lemma_valid_rows(rows, limit, (n - 1) as nat);
        assert(parsed_ids(rows, limit)[n - 1] == Some(rows[n - 1]));
        assert(rows.take(n as int) =~= rows.take(n - 1).push(rows[n - 1]));
    } else {
        assert(rows.take(0) =~= Seq::empty());
    }
}

/// No author is listed before themselves, nor two before each other.
proof fn lemma_ranks(reach: ReachModel, a: Seq<char>, b: Seq<char>)
    ensures
        !(reach.ranks_before(a, b) && reach.ranks_before(b, a)),
        !reach.ranks_before(a, a),
{
    sorted_set::lemma_earlier_order(a, b, a);
}

/// The rows of fewer authors begin the rows of more.
proof fn lemma_rows_begin(
    reach: ReachModel,
    few: Seq<Seq<char>>,
    many: Seq<Seq<char>>,
    k: nat,
    n: nat,
    i: int,
)
    requires
        k <= n,
        reach.is_rows(few, k),
        reach.is_rows(many, n),
        0 <= i < few.len(),
    ensures
        i < many.len(),
        few[i] == many[i],
    decreases i,
{
    assert forall|j: int| 0 <= j < i implies j < many.len() && #[trigger] few[j] == many[j] by {
        lemma_rows_begin(reach, few, many, k, n, j);
    }
    if i > 0 {
        assert(few[i - 1] == many[i - 1]);
    }
    let id = few[i];
    assert(reach.is_author(id));
    if many.contains(id) {
        let j = many.index_of(id);
        if j < i {
            assert(few[j] == many[j]);
            assert(reach.ranks_before(few[j], few[i]));
            lemma_ranks(reach, id, id);
        }
        if j > i {
            assert(reach.ranks_before(many[i], many[j]));
        }
    }
    assert(i < many.len());
    let other = many[i];
    if other != id {
        assert(reach.is_author(many[i]));
        assert(reach.ranks_before(other, id));
        if few.contains(other) {
            let j = few.index_of(other);
            if j < i {
                assert(few[j] == many[j]);
                assert(reach.ranks_before(many[j], many[i]));
                lemma_ranks(reach, other, other);
            }
            assert(reach.ranks_before(few[i], few[j]));
        } else {
            assert(reach.ranks_before(few[i], other));
        }
        lemma_ranks(reach, id, other);
    }
}

/// A smaller limit keeps the first authors of a larger one.
pub proof fn law_a_smaller_limit_keeps_the_first_authors(
    reach: ReachModel,
    few: Seq<Seq<char>>,
    many: Seq<Seq<char>>,
    k: nat,
    n: nat,
)
    requires
        k <= n,
        reach.has_valid_ids(),
        reach.is_rows(few, k + 1),
        reach.is_rows(many, n + 1),
    ensures
        ({
            let all = authors_of_rows(many, n);
            authors_of_rows(few, k) == all.take(
                if k <= all.len() {
                    k as int
                } else {
                    all.len() as int
                },
            )
        }),
{
    assert forall|i: int| 0 <= i < few.len() implies pubky_id::pubky_id(#[trigger] few[i]) == Some(
        few[i],
    ) by {
        assert(reach.is_author(few[i]));
    }
    assert forall|i: int| 0 <= i < many.len() implies pubky_id::pubky_id(#[trigger] many[i])
        == Some(many[i]) by {
        assert(reach.is_author(many[i]));
    }
    lemma_valid_rows(few, k, parsed_ids(few, k).len());
    lemma_valid_rows(many, n, parsed_ids(many, n).len());
    assert forall|i: int| 0 <= i < few.len() implies i < many.len() && #[trigger] few[i]
        == many[i] by {
        lemma_rows_begin(reach, few, many, k + 1, n + 1, i);
    }
    if few.len() > 0 {
        assert(few[few.len() - 1] == many[few.len() - 1]);
    }
    if few.len() <= k && many.len() > few.len() {
        let next = many[few.len() as int];
        assert(reach.is_author(many[few.len() as int]));
        assert(few.contains(next));
        let j = few.index_of(next);
        assert(few[j] == many[j]);
        assert(reach.ranks_before(many[j], many[few.len() as int]));
        lemma_ranks(reach, next, next);
    }
    let all = authors_of_rows(many, n);
    let kept = if k <= all.len() {
        k as int
    } else {
        all.len() as int
    };
    assert(authors_of_rows(few, k) =~= all.take(kept));
}

/// A reach is trimmed to the most prolific authors: nobody who is left out has
/// more posts than an author who is listed. Nobody is left out unless the limit
/// was met, and nobody without a post is listed.
pub proof fn law_a_trimmed_reach_keeps_the_most_prolific(
    reach: ReachModel,
    rows: Seq<Seq<char>>,
    limit: nat,
    id: Seq<char>,
)
    requires
        reach.has_valid_ids(),
        reach.is_rows(rows, limit + 1),
    ensures
        ({
            let authors = authors_of_rows(rows, limit);
            &&& authors.contains(id) ==> reach.is_author(id)
            &&& reach.is_author(id) && !authors.contains(id) ==> rows.len() > limit && forall|
                i: int,
            |
                0 <= i < authors.len() ==> reach.posts[#[trigger] authors[i]] >= reach.posts[id]
        }),
{
    assert forall|i: int| 0 <= i < rows.len() implies pubky_id::pubky_id(#[trigger] rows[i])
        == Some(rows[i]) by {
        assert(reach.is_author(rows[i]));
    }
    lemma_valid_rows(rows, limit, parsed_ids(rows, limit).len());
    let authors = authors_of_rows(rows, limit);
    if authors.contains(id) {
        let i = authors.index_of(id);
        assert(rows[i] == id);
    } else if reach.is_author(id) {
        if rows.contains(id) {
            let at = rows.index_of(id);
            if at < authors.len() {
                assert(authors[at] == id);
            }
            assert forall|i: int| 0 <= i < authors.len() implies reach.posts[#[trigger] authors[i]]
                >= reach.posts[id] by {
                assert(authors[i] == rows[i]);
                assert(reach.ranks_before(rows[i], rows[at]));
            }
        } else {
            assert forall|i: int| 0 <= i < authors.len() implies reach.posts[#[trigger] authors[i]]
                >= reach.posts[id] by {
                assert(authors[i] == rows[i]);
                assert(reach.ranks_before(rows[i], id));
            }
        }
    }
}

/// What `reach_contains` comes to, given what the graph answers if it is asked.
pub open spec fn is_reached(
    observer: Seq<char>,
    reach: StreamReach,
    user: Seq<char>,
    answer: Option<bool>,
) -> bool {
    match membership_of(observer, reach, user) {
        MembershipModel::Known(reached) => reached,
        MembershipModel::Ask { .. } => says_yes(answer),
    }
}

/// The graph is asked about the very observer, user and reach; and nobody is in
/// their own reach, whatever it would answer.
pub proof fn law_the_graph_is_asked_about_that_very_membership(
    observer: Seq<char>,
    reach: StreamReach,
    user: Seq<char>,
    answer: Option<bool>,
)
    ensures
        membership_of(observer, reach, user) matches MembershipModel::Ask {
            observer_id: whose,
            user_id: who,
            reach: around,
        } ==> whose == observer && who == user && around == reach && who != whose,
        is_reached(observer, reach, user, answer) <==> user != observer && answer == Some(true),
{
}

/// Membership in a reach and its authors agree, where the graph answers both and
/// the limit was not met: a user who posted, whom nobody knows, or who is the
/// observer is in the reach exactly if they are listed. A user in the reach who
/// never posted is in it all the same, and not listed.
pub proof fn law_membership_agrees_with_the_authors(
    around: StreamReach,
    reach: ReachModel,
    rows: Seq<Seq<char>>,
    limit: nat,
    observer: Seq<char>,
    user: Seq<char>,
    answer: Option<bool>,
)
    requires
        reach.has_valid_ids(),
        reach.is_rows(rows, limit + 1),
        rows.len() <= limit,
        !reach.members.contains(observer),
        reach.members.contains(user) ==> answer == Some(true),
        !reach.members.contains(user) ==> answer != Some(true),
    ensures
        reach.members.contains(user) ==> (is_reached(observer, around, user, answer) && (authors_of_rows(
            rows,
            limit,
        ).contains(user) == reach.is_author(user))),
        !reach.members.contains(user) ==> (!is_reached(observer, around, user, answer)
            && !authors_of_rows(rows, limit).contains(user)),
        user == observer ==> !is_reached(observer, around, user, answer),
{
    law_a_trimmed_reach_keeps_the_most_prolific(reach, rows, limit, user);
}

proof fn lemma_valid_in(parsed: Seq<Option<Seq<char>>>, n: nat)
    requires
        n <= parsed.len(),
    ensures
        valid_in(parsed, n) == order::present(parsed.take(n as int)),
    decreases n,
{
    if n > 0 {
        lemma_valid_in(parsed, (n - 1) as nat);
        assert(parsed.take(n as int).drop_last() =~= parsed.take(n - 1));
    }
}

/// An id that does not parse is left out, and nothing else: all other rows among
/// the first `limit` are authors, in the order of the rows.
pub proof fn law_only_broken_ids_are_left_out(rows: Seq<Seq<char>>, limit: nat)
    ensures
        ({
            let first = rows.take(
                if rows.len() <= limit {
                    rows.len() as int
                } else {
                    limit as int
                },
            );
            order::keeps_order(
                first.map_values(|id: Seq<char>| pubky_id::pubky_id(id)),
                authors_of_rows(rows, limit),
            )
        }),
{
    let parsed = parsed_ids(rows, limit);
    let first = rows.take(
        if rows.len() <= limit {
            rows.len() as int
        } else {
            limit as int
        },
    );
    lemma_valid_in(parsed, parsed.len());
    assert(parsed.take(parsed.len() as int) =~= parsed);
    order::lemma_present(parsed);
    assert(first.map_values(|id: Seq<char>| pubky_id::pubky_id(id)) =~= parsed);
}

/// A reach is said to meet the limit exactly if it holds more authors than the
/// limit: enough rows are asked for to tell, unless the limit is the largest
/// number there is.
pub proof fn law_the_limit_is_met_by_a_larger_reach_alone(
    reach: ReachModel,
    authors: Set<Seq<char>>,
    rows: Seq<Seq<char>>,
    limit: usize,
)
    requires
        limit < usize::MAX,
        authors.finite(),
        forall|id: Seq<char>| authors.contains(id) == #[trigger] reach.is_author(id),
        reach.is_rows(rows, asked_rows(limit) as nat),
    ensures
        rows.len() <= usize::MAX,
        exceeds(rows.len() as usize, limit) <==> authors.len() > limit,
{
    assert forall|i: int, j: int| 0 <= i < j < rows.len() implies rows[i] != rows[j] by {
        assert(reach.ranks_before(rows[i], rows[j]));
        lemma_ranks(reach, rows[i], rows[i]);
    }
    rows.unique_seq_to_set();
    assert forall|id: Seq<char>| #[trigger] rows.to_set().contains(id) implies authors.contains(
        id,
    ) by {
        let i = rows.index_of(id);
        assert(reach.is_author(rows[i]));
    }
    vstd::set_lib::lemma_len_subset(rows.to_set(), authors);
    if rows.len() <= limit {
        assert forall|id: Seq<char>| #[trigger] authors.contains(id) implies rows.to_set().contains(
            id,
        ) by {
            assert(reach.is_author(id));
        }
        assert(authors =~= rows.to_set());
    }
}

/// A measured reach tells its name, and its depth exactly if it is a Web of Trust.
pub proof fn law_a_measured_reach_tells_its_depth_if_it_is_a_web_of_trust(reach: StreamReach)
    ensures
        ({
            let told = reach_attributes(reach);
            &&& told[0] == ("reach"@, AttributeModel::Text(reach.dimensions().0))
            &&& match reach {
                StreamReach::Wot(depth) => told.len() == 2 && told[1] == (
                    "depth"@,
                    AttributeModel::Number(depth.value() as i64),
                ),
                _ => told.len() == 1,
            }
        }),
{
}

} // verus!
