//! Reaches, and searches scoped to them.
use nexus::fixtures::random_pubky_id;
use nexus::reach::{
    reach_attrs, reach_authors, reach_authors_query, reach_contains, reached, record_resolution,
    resolved_authors, Attribute, AttributeValue, ReachAuthors, ReachMembership,
};
use nexus::search::{
    found_posts, record_reach_resolution, search_posts_by_content_handler,
    search_posts_by_tag_handler, AuthorFilter, BoundedPagination, ContentEvent, ContentStage,
    GivenId, PostContentSearch, PostSearchQuery, QueryError, SearchError, SearchPostsByContentQuery,
    SearchPostsQuery, TagSearch,
};
use nexus::types::{DomainTrust, PostKind, StreamReach, StreamSorting, WotDepth};

fn text(s: &str) -> String {
    s.to_string()
}

fn wot(depth: u8) -> StreamReach {
    StreamReach::Wot(WotDepth::new(depth).expect("valid depth"))
}

/// `attr=value` pairs, sorted.
fn attrs(attributes: &[Attribute]) -> Vec<String> {
    let mut list: Vec<String> = attributes
        .iter()
        .map(|a| match &a.value {
            AttributeValue::Text(v) => format!("{}={v}", a.name),
            AttributeValue::Number(v) => format!("{}={v}", a.name),
            AttributeValue::Flag(v) => format!("{}={v}", a.name),
        })
        .collect();
    list.sort();
    list
}

#[test]
fn records_reach_size_and_truncation() {
    let following = record_resolution(&StreamReach::Following, 7, false);
    let wot_3 = record_resolution(&wot(3), 1_000, true);
    assert_eq!(
        (attrs(&following.attributes), following.users),
        (vec![text("reach=following")], 7)
    );
    assert_eq!(
        (attrs(&wot_3.attributes), wot_3.users),
        (vec![text("depth=3"), text("reach=wot")], 1_000)
    );
    // Only the trimmed resolution counts, so truncated / count(users) is the rate
    assert_eq!((following.truncated, wot_3.truncated), (None, Some(1)));
}

#[test]
fn records_reach_size_and_whether_the_limit_was_met() {
    let following = record_reach_resolution(&StreamReach::Following, 7, false);
    let wot_3 = record_reach_resolution(&wot(3), 500, true);
    // met_limit splits the searches that missed part of the reach off the
    // same instrument, so no second one is needed to tell them apart
    assert_eq!(
        vec![
            (attrs(&following.attributes), following.users),
            (attrs(&wot_3.attributes), wot_3.users)
        ],
        vec![
            (vec![text("met_limit=false"), text("reach=following")], 7),
            (
                vec![
                    text("depth=3"),
                    text("met_limit=true"),
                    text("reach=wot")
                ],
                500
            ),
        ]
    );
}

#[test]
fn depths_are_one_to_three() {
    assert_eq!(WotDepth::new(0), None);
    assert_eq!(WotDepth::new(4), None);
    for n in 1..=3 {
        assert_eq!(WotDepth::new(n).map(|d| d.get()), Some(n));
    }
    assert_eq!(DomainTrust::Me.depth(), 0);
    assert_eq!(DomainTrust::Network(WotDepth::Two).depth(), 2);
    assert_eq!(StreamReach::Friends.telemetry_dimensions(), ("friends", None));
    assert_eq!(
        StreamReach::Followers.telemetry_dimensions(),
        ("followers", None)
    );
    assert_eq!(attrs(&reach_attrs(&wot(1))), ["depth=1", "reach=wot"]);
}

#[test]
fn one_more_author_than_wanted_is_asked_for() {
    let query = reach_authors_query("me", &wot(2), 10);
    assert_eq!(
        (query.observer_id.as_str(), query.reach, query.limit),
        ("me", wot(2), 11)
    );
    let most = reach_authors_query("me", &wot(2), usize::MAX);
    assert_eq!(most.limit, usize::MAX);
}

#[test]
fn a_reach_is_trimmed_and_its_broken_ids_dropped() {
    let a = random_pubky_id();
    let b = random_pubky_id();
    let c = random_pubky_id();
    let whole = reach_authors(vec![a.clone(), text("broken"), b.clone()], 3);
    assert_eq!(
        whole,
        ReachAuthors {
            author_ids: vec![a.clone(), b.clone()],
            met_limit: false
        }
    );
    let cut = reach_authors(vec![a.clone(), text("broken"), b, c], 2);
    assert_eq!(
        cut,
        ReachAuthors {
            author_ids: vec![a],
            met_limit: true
        }
    );
    let given = resolved_authors(4, vec![None, Some(text("x"))], 4);
    assert_eq!(given.author_ids, vec![text("x")]);
    assert!(!given.met_limit);
}

#[test]
fn nobody_is_in_their_own_reach() {
    assert!(matches!(
        reach_contains("me", &wot(1), "me"),
        ReachMembership::Known(false)
    ));
    match reach_contains("me", &wot(1), "you") {
        ReachMembership::Ask {
            observer_id,
            user_id,
            reach,
        } => assert_eq!(
            (observer_id.as_str(), user_id.as_str(), reach),
            ("me", "you", wot(1))
        ),
        other => panic!("unexpected {other:?}"),
    }
    assert!(reached(Some(true)));
    assert!(!reached(Some(false)));
    assert!(!reached(None));
}

#[test]
fn a_page_stays_within_its_bounds() {
    type Page = BoundedPagination<10_000, 20, 200>;
    assert!(Page::new(Some(10_001), None).is_none());
    assert!(Page::new(None, Some(0)).is_none());
    assert!(Page::new(None, Some(201)).is_none());
    let page = Page::new(None, None).expect("in bounds");
    assert_eq!((page.skip_value(), page.limit_value()), (0, 20));
    let page = Page::new(Some(10_000), Some(200)).expect("in bounds");
    let pagination = page.to_pagination(Some(9), None);
    assert_eq!(
        (pagination.skip, pagination.limit),
        (Some(10_000), Some(200))
    );
    assert_eq!((pagination.start, pagination.end), (Some(9), None));
}

fn tag_query(user_id: Option<&str>, reach: Option<StreamReach>) -> SearchPostsQuery {
    SearchPostsQuery {
        sorting: Some(StreamSorting::Timeline),
        user_id: user_id.map(text),
        reach,
        pagination: BoundedPagination::new(Some(5), None).expect("in bounds"),
        start: Some(50),
        end: None,
    }
}

#[test]
fn a_tag_search_takes_a_user_and_a_reach_together() {
    let plain = search_posts_by_tag_handler(text("rust"), tag_query(None, None));
    match plain {
        Ok(TagSearch::Plain {
            tag, pagination, ..
        }) => {
            assert_eq!(tag, "rust");
            assert_eq!((pagination.skip, pagination.limit), (Some(5), Some(20)));
            assert_eq!(pagination.start, Some(50));
        }
        other => panic!("unexpected {other:?}"),
    }
    let scoped = search_posts_by_tag_handler(text("rust"), tag_query(Some("me"), Some(wot(2))));
    match scoped {
        Ok(TagSearch::WithReach { user_id, reach, .. }) => {
            assert_eq!((user_id.as_str(), reach), ("me", wot(2)));
        }
        other => panic!("unexpected {other:?}"),
    }
    for query in [tag_query(Some("me"), None), tag_query(None, Some(wot(2)))] {
        match search_posts_by_tag_handler(text("rust"), query) {
            Err(error) => {
                assert_eq!(error, SearchError::ReachIncomplete);
                assert_eq!(
                    error.message(),
                    "user_id and reach should be both provided together"
                );
            }
            other => panic!("unexpected {other:?}"),
        }
    }
    assert_eq!(found_posts::<u8>(None), Vec::<u8>::new());
    assert_eq!(found_posts(Some(vec![1, 2])), vec![1, 2]);
}

fn content_query(
    author: Option<&str>,
    user_id: Option<&str>,
    reach: Option<StreamReach>,
) -> SearchPostsByContentQuery {
    SearchPostsByContentQuery {
        q: PostSearchQuery::new(text("bitcoin")).expect("in bounds"),
        author: author.map(text),
        kind: Some(PostKind::Collection),
        user_id: user_id.map(text),
        reach,
        pagination: BoundedPagination::new(None, Some(7)).expect("in bounds"),
    }
}

fn begin(author: Option<&str>, user_id: Option<&str>, reach: Option<StreamReach>) -> PostContentSearch {
    search_posts_by_content_handler(content_query(author, user_id, reach), 500).expect("complete")
}

#[test]
fn a_content_search_without_a_reach_is_sent_at_once() {
    let search = begin(Some("bob"), None, None).into_search().expect("scoped");
    assert_eq!(search.q, "bitcoin");
    assert_eq!(search.kind, Some("collection"));
    assert_eq!((search.skip, search.limit), (0, 7));
    match search.author {
        Some(AuthorFilter::One(author)) => assert_eq!(author, "bob"),
        other => panic!("unexpected {other:?}"),
    }
    let all = begin(None, None, None).into_search().expect("scoped");
    assert!(all.author.is_none());
}

#[test]
fn an_author_out_of_reach_has_no_results() {
    let search = begin(Some("bob"), Some("me"), Some(wot(1)));
    assert!(matches!(search.stage, ContentStage::Membership { .. }));
    let out = search.step(ContentEvent::Reached(false));
    assert!(matches!(out.stage, ContentStage::Empty));
    assert!(out.into_search().is_none());
    let within = begin(Some("bob"), Some("me"), Some(wot(1))).step(ContentEvent::Reached(true));
    match within.into_search().expect("scoped").author {
        Some(AuthorFilter::One(author)) => assert_eq!(author, "bob"),
        other => panic!("unexpected {other:?}"),
    }
    let own = begin(Some("me"), Some("me"), Some(wot(1)));
    assert!(matches!(own.stage, ContentStage::Empty));
}

#[test]
fn a_reach_scopes_a_content_search() {
    let search = begin(None, Some("me"), Some(StreamReach::Friends));
    match &search.stage {
        ContentStage::Authors {
            user_id,
            reach,
            limit,
        } => assert_eq!(
            (user_id.as_str(), *reach, *limit),
            ("me", StreamReach::Friends, 500)
        ),
        other => panic!("unexpected {other:?}"),
    }
    let search = search.step(ContentEvent::Authors(ReachAuthors {
        author_ids: vec![text("a"), text("b")],
        met_limit: true,
    }));
    match search.into_search().expect("scoped").author {
        Some(AuthorFilter::AnyOf(authors)) => assert_eq!(authors, vec![text("a"), text("b")]),
        other => panic!("unexpected {other:?}"),
    }
    let stuck = begin(None, Some("me"), Some(StreamReach::Friends)).step(ContentEvent::Reached(true));
    assert!(matches!(stuck.stage, ContentStage::Stuck));
    for (user, reach) in [(Some("me"), None), (None, Some(wot(1)))] {
        assert_eq!(
            search_posts_by_content_handler(content_query(None, user, reach), 500).err(),
            Some(SearchError::ReachIncomplete)
        );
    }
}

#[test]
fn kinds_are_spelled_in_lower_case() {
    let names: Vec<&str> = [
        PostKind::Short,
        PostKind::Long,
        PostKind::Image,
        PostKind::Video,
        PostKind::Link,
        PostKind::File,
        PostKind::Collection,
        PostKind::Unknown,
    ]
    .iter()
    .map(PostKind::name)
    .collect();
    assert_eq!(
        names,
        ["short", "long", "image", "video", "link", "file", "collection", "unknown"]
    );
}

/// Reads a content search from the pairs of a query string.
fn parse_query(s: &str) -> Result<SearchPostsByContentQuery, QueryError> {
    let of = |name: &str| {
        s.split('&')
            .filter_map(|pair| pair.split_once('='))
            .find(|(key, _)| *key == name)
            .map(|(_, value)| value.to_string())
    };
    SearchPostsByContentQuery::from_parts(
        of("q").expect("a query has a q"),
        GivenId::read(of("author")),
        of("kind"),
        GivenId::read(of("user_id")),
        of("reach"),
        (
            of("skip").map(|n| n.parse().expect("a number")),
            of("limit").map(|n| n.parse().expect("a number")),
        ),
    )
}

#[test]
fn author_missing_parses_unscoped() {
    let q = parse_query("q=bitcoin").expect("valid query must parse");
    assert!(q.author.is_none());
    assert!(q.kind.is_none());
}

#[test]
fn author_invalid_format_rejected() {
    let refused = parse_query("q=bitcoin&author=not-a-pubky");
    assert_eq!(refused.err(), Some(QueryError::Author));
}

#[test]
fn reach_parses_with_user_id() {
    let q = parse_query(
        "q=bitcoin&user_id=wnhrmj3b1tt3n6fr7fhedgak4q11e9i1uxm4dmiactgeobyu9wpy&reach=wot_3",
    )
    .expect("valid reach must parse");
    assert!(q.user_id.is_some());
    assert!(matches!(q.reach, Some(StreamReach::Wot(depth)) if depth.get() == 3));
}

#[test]
fn reach_invalid_rejected() {
    assert_eq!(
        parse_query("q=bitcoin&reach=wot_4").err(),
        Some(QueryError::Reach)
    );
    assert!(parse_query("q=bitcoin&reach=everyone").is_err());
}

#[test]
fn kind_missing_parses_unscoped() {
    let q = parse_query("q=bitcoin").expect("valid query must parse");
    assert!(q.kind.is_none());
}

#[test]
fn kind_valid_short_accepted() {
    let q = parse_query("q=bitcoin&kind=short").expect("valid kind must parse");
    assert_eq!(q.kind, Some(PostKind::Short));
}

#[test]
fn kind_unknown_parses_as_unknown() {
    let q = parse_query("q=bitcoin&kind=not-a-kind").expect("lenient kind parsing must not error");
    assert_eq!(q.kind, Some(PostKind::Unknown));
}

#[test]
fn a_request_out_of_bounds_is_refused() {
    assert_eq!(
        parse_query("q=bitcoin&limit=101").err(),
        Some(QueryError::Page)
    );
    assert_eq!(
        parse_query("q=bitcoin&user_id=nobody").err(),
        Some(QueryError::UserId)
    );
    let page = parse_query("q=bitcoin&skip=1000&limit=100").expect("in bounds");
    assert_eq!(
        (page.pagination.skip_value(), page.pagination.limit_value()),
        (1000, 100)
    );
}

#[test]
fn a_tag_search_is_read_from_a_request() {
    let read = |sorting: Option<&str>, reach: Option<&str>, limit: Option<usize>| {
        SearchPostsQuery::from_parts(
            sorting.map(text),
            GivenId::Absent,
            reach.map(text),
            (None, limit),
            Some(8),
            None,
        )
    };
    let query = read(Some("total_engagement"), Some("wot"), None).expect("valid");
    assert_eq!(query.sorting, Some(StreamSorting::TotalEngagement));
    assert_eq!(query.reach, Some(wot(2)));
    assert_eq!((query.start, query.end), (Some(8), None));
    assert_eq!(query.pagination.limit_value(), 20);
    let error = |r: Result<SearchPostsQuery, QueryError>| r.err();
    assert_eq!(
        error(read(Some("best"), None, None)),
        Some(QueryError::Sorting)
    );
    assert_eq!(
        error(read(None, Some("Friends"), None)),
        Some(QueryError::Reach)
    );
    assert_eq!(error(read(None, None, Some(201))), Some(QueryError::Page));
    for (name, reach) in [
        ("followers", StreamReach::Followers),
        ("following", StreamReach::Following),
        ("friends", StreamReach::Friends),
        ("wot_1", wot(1)),
        ("wot_2", wot(2)),
        ("wot_3", wot(3)),
    ] {
        assert_eq!(StreamReach::parse(name), Some(reach));
    }
    for kind in [
        PostKind::Short,
        PostKind::Long,
        PostKind::Image,
        PostKind::Video,
        PostKind::Link,
        PostKind::File,
        PostKind::Collection,
        PostKind::Unknown,
    ] {
        assert_eq!(PostKind::parse(kind.name()), kind);
    }
}

#[test]
fn a_query_has_two_to_thirty_characters_and_up_to_four_terms() {
    let fits = |q: &str| PostSearchQuery::new(text(q)).is_some();
    assert!(!fits("") && !fits("a"));
    assert!(fits("ab") && fits("\u{e9}\u{e9}"));
    assert!(fits(&"x".repeat(30)));
    assert!(!fits(&"x".repeat(31)));
    assert!(fits("one two  three\tfour "));
    assert!(!fits("a b c d e"));
    assert!(!fits("a\u{3000}b\u{a0}c\nd e"));
    assert_eq!(parse_query("q=a").err(), Some(QueryError::Query));
    let query = PostSearchQuery::new(text("big blocks")).expect("in bounds");
    assert_eq!(query.into_text(), "big blocks");
}

#[test]
fn a_smaller_limit_keeps_the_first_authors() {
    let rows: Vec<String> = (0..5).map(|_| random_pubky_id()).collect();
    let resolve = |limit: usize| {
        let asked = reach_authors_query("me", &wot(2), limit).limit;
        reach_authors(rows.iter().take(asked).cloned().collect(), limit)
    };
    let all = resolve(5);
    assert_eq!((all.author_ids.len(), all.met_limit), (5, false));
    for limit in 0..5 {
        let few = resolve(limit);
        assert_eq!(few.author_ids, all.author_ids[..limit]);
        assert!(few.met_limit);
    }
}
