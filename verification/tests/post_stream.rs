//! Reading pages of post streams.
use nexus::post_read::{
    FollowList, PageOf, PostFound, PostKeyRead, PostsAction, PostsEvent, PostsStage, ReadAction,
    ReadEvent, ReadStage, MAX_SOURCE_USERS,
};
use nexus::post_stream::{
    Bookmark, KindFilter, PostCounts, PostDetails, PostKeyStream, PostStream, PostView,
    StreamSource,
};
use nexus::sorted_set::{SortOrder, SortedSetCommand};
use nexus::types::{DomainTrust, Pagination, PostKind, StreamSorting, WotDepth};

fn text(s: &str) -> String {
    s.to_string()
}

fn texts(list: &[&str]) -> Vec<String> {
    list.iter().map(|s| s.to_string()).collect()
}

const PAGE: Pagination = Pagination {
    skip: Some(1),
    limit: Some(2),
    start: Some(90),
    end: Some(10),
};

fn all_sources() -> Vec<StreamSource> {
    vec![
        StreamSource::PostReplies {
            post_id: text("p"),
            author_id: text("a"),
        },
        StreamSource::Following {
            observer_id: text("o"),
        },
        StreamSource::Followers {
            observer_id: text("o"),
        },
        StreamSource::Friends {
            observer_id: text("o"),
        },
        StreamSource::Bookmarks {
            observer_id: text("o"),
        },
        StreamSource::Author {
            author_id: text("a"),
        },
        StreamSource::AuthorReplies {
            author_id: text("a"),
        },
        StreamSource::Collection {
            author_id: text("a"),
            post_id: text("p"),
        },
        StreamSource::PostCollections {
            author_id: text("a"),
            post_id: text("p"),
        },
        StreamSource::Wot {
            observer_id: text("o"),
            depth: WotDepth::Three,
        },
        StreamSource::WotDomain {
            observer_id: text("o"),
            trust: DomainTrust::Me,
            domain_tags: texts(&["rust"]),
        },
        StreamSource::All,
    ]
}

/// PostCollections is served from the graph only; no sorted set backs it.
#[test]
fn test_can_use_index_is_false_for_post_collections() {
    let source = StreamSource::PostCollections {
        author_id: "author".to_string(),
        post_id: "post".to_string(),
    };
    for sorting in [StreamSorting::Timeline, StreamSorting::TotalEngagement] {
        assert!(!PostStream::can_use_index(&sorting, &source, &None, &None));
    }
}

/// `can_use_index` short-circuits to the graph whenever a kind filter is set,
/// regardless of which kind.
#[test]
fn test_can_use_index_returns_false_for_any_kind_filter() {
    let kinds_to_test = [
        PostKind::Short,
        PostKind::Long,
        PostKind::Image,
        PostKind::Video,
        PostKind::Link,
        PostKind::File,
        PostKind::Collection,
    ];

    // Combinations that would normally return `true` when kind is None.
    let index_eligible_combos = [
        (
            StreamSorting::Timeline,
            StreamSource::Following {
                observer_id: "observer".to_string(),
            },
        ),
        (
            StreamSorting::Timeline,
            StreamSource::Author {
                author_id: "author".to_string(),
            },
        ),
        (
            StreamSorting::Timeline,
            StreamSource::Bookmarks {
                observer_id: "observer".to_string(),
            },
        ),
    ];

    for kind in &kinds_to_test {
        for (sorting, source) in &index_eligible_combos {
            for filter in [KindFilter::Kind(*kind), KindFilter::Exclude(vec![*kind])] {
                let label = format!("{sorting:?}, {source:?}, None, {filter:?}");
                assert!(
                    !PostStream::can_use_index(sorting, source, &None, &Some(filter)),
                    "can_use_index({label}) must return false"
                );
            }
        }
    }
}

/// Sanity counterpart: when no kind is set, `can_use_index` returns true for
/// the index-eligible combinations.
#[test]
fn test_can_use_index_returns_true_for_no_kind_filter() {
    assert!(PostStream::can_use_index(
        &StreamSorting::Timeline,
        &StreamSource::Author {
            author_id: "author".to_string(),
        },
        &None,
        &None,
    ));
}

/// Untagged and single-tag `All` streams are index-eligible; several tags
/// always query the graph.
#[test]
fn test_can_use_index_for_all_depends_on_tags() {
    for sorting in [StreamSorting::Timeline, StreamSorting::TotalEngagement] {
        assert!(PostStream::can_use_index(
            &sorting,
            &StreamSource::All,
            &None,
            &None
        ));
        assert!(PostStream::can_use_index(
            &sorting,
            &StreamSource::All,
            &Some(vec!["tag".to_string()]),
            &None,
        ));
        assert!(!PostStream::can_use_index(
            &sorting,
            &StreamSource::All,
            &Some(vec!["a".to_string(), "b".to_string()]),
            &None,
        ));
    }
}

#[test]
fn sources_name_themselves_in_telemetry() {
    let names: Vec<(&str, Option<u8>)> = all_sources()
        .iter()
        .map(StreamSource::telemetry_dimensions)
        .collect();
    assert_eq!(
        names,
        vec![
            ("post_replies", None),
            ("following", None),
            ("followers", None),
            ("friends", None),
            ("bookmarks", None),
            ("author", None),
            ("author_replies", None),
            ("collection", None),
            ("post_collections", None),
            ("wot", Some(3)),
            ("wot_domain", Some(0)),
            ("all", None),
        ]
    );
    let counted: Vec<(&str, u8)> = all_sources()
        .iter()
        .filter_map(StreamSource::wot_dimensions)
        .collect();
    assert_eq!(counted, vec![("wot", 3), ("wot_domain", 0)]);
    let network = StreamSource::WotDomain {
        observer_id: text("o"),
        trust: DomainTrust::Network(WotDepth::Two),
        domain_tags: vec![],
    };
    assert_eq!(network.telemetry_dimensions(), ("wot_domain", Some(2)));
}

#[test]
fn sources_tell_their_parts() {
    let sources = all_sources();
    let observers = sources.iter().filter(|s| s.get_observer() == Some("o"));
    assert_eq!(observers.count(), 6);
    let authors: Vec<bool> = sources
        .iter()
        .map(|s| s.get_author() == Some("a"))
        .collect();
    assert_eq!(
        authors,
        [true, false, false, false, false, true, true, false, false, false, false, false]
    );
    assert_eq!(sources[8].get_anchor_post(), Some(("a", "p")));
    assert_eq!(sources[7].get_anchor_post(), None);
    assert_eq!(sources[10].get_domain_tags(), Some(&texts(&["rust"])[..]));
    assert_eq!(sources[9].get_domain_tags(), None);
    for source in &sources {
        assert_eq!(source.copy(), *source);
    }
    assert_eq!(StreamSource::default(), StreamSource::All);
}

#[test]
fn a_page_of_keys_ends_with_a_cursor() {
    let page = PostKeyStream::from_scored_entries(vec![(text("a:1"), 7), (text("b:2"), 5)]);
    assert_eq!(page, PostKeyStream::new(texts(&["a:1", "b:2"]), Some(5)));
    let below = PostKeyStream::from_scored_entries(vec![(text("a:1"), -3)]);
    assert_eq!(below.last_post_score, Some(0));
    let none = PostKeyStream::from_scored_entries(vec![]);
    assert!(none.is_empty());
    assert_eq!(none, PostKeyStream::default());
}

/// The page that a read ends with.
fn done(read: PostKeyRead) -> Option<PostKeyStream> {
    match read.stage {
        ReadStage::Done(page) => page,
        other => panic!("not over: {other:?}"),
    }
}

fn page_key(read: &PostKeyRead) -> (Vec<String>, Option<usize>, Option<i64>) {
    match read.action() {
        Some(ReadAction::Page(SortedSetCommand::PageByScore {
            key, skip, start, ..
        })) => (key, skip, start),
        other => panic!("no page asked for: {other:?}"),
    }
}

fn keys_of(source: StreamSource, tags: Option<Vec<String>>, kind: Option<KindFilter>) -> PostKeyRead {
    PostStream::get_post_keys(
        source,
        PAGE,
        SortOrder::Descending,
        StreamSorting::Timeline,
        tags,
        kind,
    )
}

#[test]
fn an_author_stream_reads_the_authors_set() {
    let read = keys_of(
        StreamSource::Author {
            author_id: text("bob"),
        },
        None,
        None,
    );
    assert_eq!(
        page_key(&read),
        (texts(&["Posts", "AuthorParents", "bob"]), Some(1), Some(90))
    );
    let page = done(read.step(ReadEvent::Page(Some(vec![
        (text("p1"), 80),
        (text("p2"), 70),
    ]))));
    assert_eq!(
        page,
        Some(PostKeyStream::new(texts(&["bob:p1", "bob:p2"]), Some(70)))
    );
}

#[test]
fn replies_and_bookmarks_have_sets_of_their_own() {
    let replies = PostStream::get_author_posts(
        "bob",
        SortOrder::Ascending,
        None,
        None,
        None,
        None,
        true,
    );
    assert_eq!(
        page_key(&replies).0,
        texts(&["Posts", "AuthorReplies", "bob"])
    );
    assert_eq!(
        done(replies.step(ReadEvent::Page(None))),
        Some(PostKeyStream::default())
    );
    let of_post =
        PostStream::get_post_replies("bob", "p1", SortOrder::Ascending, None, None, None, None);
    assert_eq!(
        page_key(&of_post).0,
        texts(&["Posts", "PostReplies", "bob", "p1"])
    );
    let saved =
        PostStream::get_bookmarked_posts("eve", SortOrder::Ascending, None, None, None, None);
    assert_eq!(page_key(&saved).0, texts(&["Bookmarks", "User", "eve"]));
    let page = done(saved.step(ReadEvent::Page(Some(vec![(text("a:1"), 3)]))));
    assert_eq!(page, Some(PostKeyStream::new(texts(&["a:1"]), Some(3))));
}

#[test]
fn a_tagged_reply_stream_is_empty() {
    let read = keys_of(
        StreamSource::AuthorReplies {
            author_id: text("bob"),
        },
        Some(texts(&["t"])),
        None,
    );
    assert_eq!(done(read), Some(PostKeyStream::default()));
}

#[test]
fn the_global_stream_follows_the_ranking() {
    let read = keys_of(StreamSource::All, None, None);
    assert!(matches!(read.action(), Some(ReadAction::RankingBuilt)));
    let plain = read.step(ReadEvent::RankingBuilt(Some(false)));
    assert_eq!(page_key(&plain).0, texts(&["Posts", "Global", "Timeline"]));
    // A ranking that cannot be asked for filters nothing.
    let unknown =
        keys_of(StreamSource::All, None, None).step(ReadEvent::RankingBuilt(None));
    assert_eq!(
        page_key(&unknown).0,
        texts(&["Posts", "Global", "Timeline"])
    );
    let ranked = keys_of(StreamSource::All, None, None).step(ReadEvent::RankingBuilt(Some(true)));
    assert_eq!(
        page_key(&ranked).0,
        texts(&["Posts", "Global", "Timeline", "Ranked"])
    );
    // An empty page of a set that is there is a page.
    let empty = ranked.step(ReadEvent::Page(Some(vec![])));
    assert!(empty.listed().is_none());
}

#[test]
fn a_missing_ranked_set_falls_back_to_the_graph() {
    let read = keys_of(StreamSource::All, None, None)
        .step(ReadEvent::RankingBuilt(Some(true)))
        .step(ReadEvent::Page(None));
    assert!(matches!(read.action(), Some(ReadAction::RankingBuilt)));
    let read = read.step(ReadEvent::RankingBuilt(Some(true)));
    match read.action() {
        Some(ReadAction::Graph(query)) => {
            assert!(query.ranked_only);
            assert_eq!(query.source, StreamSource::All);
            assert_eq!(query.tags, None);
            assert_eq!(query.pagination, PAGE);
        }
        other => panic!("unexpected {other:?}"),
    }
    let page = read.step(ReadEvent::Rows(vec![
        (text("a"), text("1"), 40),
        (text("b"), text("2"), 30),
    ]));
    assert_eq!(
        page.listed(),
        Some(PostKeyStream::new(texts(&["a:1", "b:2"]), Some(30)))
    );
    // Asked for by itself, a missing ranked set is no page.
    let alone = PostStream::get_global_posts_keys(
        StreamSorting::TotalEngagement,
        SortOrder::Descending,
        None,
        None,
        None,
        None,
    )
    .step(ReadEvent::RankingBuilt(Some(true)));
    assert_eq!(
        page_key(&alone).0,
        texts(&["Posts", "Global", "TotalEngagement", "Ranked"])
    );
    assert_eq!(done(alone.step(ReadEvent::Page(None))), None);
}

#[test]
fn a_tag_is_searched_only_without_a_ranking() {
    let tagged = || keys_of(StreamSource::All, Some(texts(&["rust"])), None);
    let read = tagged().step(ReadEvent::RankingBuilt(Some(false)));
    match read.action() {
        Some(ReadAction::TagSearch {
            label, pagination, ..
        }) => {
            assert_eq!(label, "rust");
            assert_eq!(pagination, PAGE);
        }
        other => panic!("unexpected {other:?}"),
    }
    let page = done(read.step(ReadEvent::TagPosts(Some(vec![(text("a:1"), 12)]))));
    assert_eq!(page, Some(PostKeyStream::new(texts(&["a:1"]), Some(12))));
    let ranked = tagged()
        .step(ReadEvent::RankingBuilt(Some(true)))
        .step(ReadEvent::RankingBuilt(Some(true)));
    match ranked.action() {
        Some(ReadAction::Graph(query)) => {
            assert_eq!(query.tags, Some(texts(&["rust"])));
            assert!(query.ranked_only);
        }
        other => panic!("unexpected {other:?}"),
    }
}

#[test]
fn a_tag_search_starts_with_ten() {
    let read =
        PostStream::get_posts_keys_by_tag("rust", StreamSorting::Timeline, None, None, None, None);
    match read.action() {
        Some(ReadAction::TagSearch { pagination, .. }) => {
            assert_eq!((pagination.skip, pagination.limit), (Some(0), Some(10)));
        }
        other => panic!("unexpected {other:?}"),
    }
    assert_eq!(
        done(read.step(ReadEvent::TagPosts(None))),
        Some(PostKeyStream::default())
    );
}

#[test]
fn kinds_and_web_of_trust_streams_ask_the_graph() {
    let kind = KindFilter::Exclude(vec![PostKind::Long]);
    let read = keys_of(
        StreamSource::Author {
            author_id: text("bob"),
        },
        None,
        Some(kind),
    );
    match read.action() {
        Some(ReadAction::Graph(query)) => {
            assert_eq!(query.kind, Some(KindFilter::Exclude(vec![PostKind::Long])));
            assert!(!query.ranked_only);
        }
        other => panic!("unexpected {other:?}"),
    }
    let wot = keys_of(
        StreamSource::Wot {
            observer_id: text("o"),
            depth: WotDepth::One,
        },
        None,
        None,
    );
    assert!(matches!(wot.action(), Some(ReadAction::Graph(_))));
    // A global stream with a kind filter still learns of the ranking first.
    let global = keys_of(
        StreamSource::All,
        None,
        Some(KindFilter::Kind(PostKind::Image)),
    );
    assert!(matches!(global.action(), Some(ReadAction::RankingBuilt)));
}

#[test]
fn a_reach_stream_merges_the_posts_of_its_users() {
    let read = PostStream::get_posts_by_source(
        StreamSource::Following {
            observer_id: text("me"),
        },
        SortOrder::Ascending,
        None,
        None,
        Some(1),
        Some(3),
    );
    match read.action() {
        Some(ReadAction::Follows {
            list,
            user_id,
            limit,
        }) => {
            assert_eq!(list, FollowList::Following);
            assert_eq!(user_id, "me");
            assert_eq!(limit, 200);
        }
        other => panic!("unexpected {other:?}"),
    }
    let read = read.step(ReadEvent::Users(Some(texts(&["a", "me", "b"]))));
    match read.action() {
        Some(ReadAction::Pages(commands)) => {
            assert_eq!(commands.len(), 2);
            match &commands[1] {
                SortedSetCommand::PageByScore {
                    key, skip, limit, ..
                } => {
                    assert_eq!(*key, texts(&["Posts", "AuthorParents", "b"]));
                    assert_eq!((*skip, *limit), (None, None));
                }
                other => panic!("unexpected {other:?}"),
            }
        }
        other => panic!("unexpected {other:?}"),
    }
    let read = read.step(ReadEvent::Pages(vec![
        Some(vec![(text("1"), 10), (text("2"), 30)]),
        Some(vec![(text("3"), 20), (text("4"), 30), (text("5"), 5)]),
    ]));
    // 30 a:2, 30 b:4 (a tie, in the order of the users), 20 b:3, 10 a:1, 5 b:5
    assert_eq!(
        done(read),
        Some(PostKeyStream::new(texts(&["b:4", "b:3", "a:1"]), Some(10)))
    );
}

#[test]
fn a_reach_without_others_is_empty() {
    let source = || StreamSource::Friends {
        observer_id: text("me"),
    };
    for told in [None, Some(vec![]), Some(texts(&["me"]))] {
        let read = keys_of(source(), None, None).step(ReadEvent::Users(told));
        assert_eq!(done(read), Some(PostKeyStream::default()));
    }
    let many: Vec<String> = (0..500).map(|i| format!("u{i}")).collect();
    let read = keys_of(source(), None, None).step(ReadEvent::Users(Some(many)));
    match read.action() {
        Some(ReadAction::Pages(commands)) => assert_eq!(commands.len(), MAX_SOURCE_USERS),
        other => panic!("unexpected {other:?}"),
    }
}

#[test]
fn a_collection_is_read_from_its_content() {
    let collection = || {
        keys_of(
            StreamSource::Collection {
                author_id: text("bob"),
                post_id: text("c"),
            },
            None,
            None,
        )
    };
    let read = collection();
    match read.action() {
        Some(ReadAction::Details { author_id, post_id }) => {
            assert_eq!((author_id.as_str(), post_id.as_str()), ("bob", "c"));
        }
        other => panic!("unexpected {other:?}"),
    }
    let read = read.step(ReadEvent::Details(Some(PostFound {
        kind: PostKind::Collection,
        content: text("{}"),
    })));
    match read.action() {
        Some(ReadAction::CollectionItems { content }) => assert_eq!(content, "{}"),
        other => panic!("unexpected {other:?}"),
    }
    let items = vec![
        (text("a"), text("1")),
        (text("b"), text("2")),
        (text("c"), text("3")),
        (text("d"), text("4")),
    ];
    let page = done(read.step(ReadEvent::CollectionItems(Some(items))));
    assert_eq!(
        page,
        Some(PostKeyStream::new(texts(&["b:2", "c:3"]), None))
    );
    // A post that is gone, one of another kind, and a malformed content.
    let gone = collection().step(ReadEvent::Details(None));
    assert_eq!(done(gone), Some(PostKeyStream::default()));
    let short = collection().step(ReadEvent::Details(Some(PostFound {
        kind: PostKind::Short,
        content: text("{}"),
    })));
    assert_eq!(done(short), Some(PostKeyStream::default()));
    let malformed = collection()
        .step(ReadEvent::Details(Some(PostFound {
            kind: PostKind::Collection,
            content: text("?"),
        })))
        .step(ReadEvent::CollectionItems(None));
    assert_eq!(done(malformed), Some(PostKeyStream::default()));
}

#[test]
fn a_read_told_something_else_is_stuck() {
    let read = keys_of(StreamSource::All, None, None).step(ReadEvent::Page(None));
    assert!(matches!(read.stage, ReadStage::Stuck));
    assert!(read.action().is_none());
    assert!(read.listed().is_none());
    let set = PostKeyRead {
        stage: ReadStage::Page {
            key: texts(&["x"]),
            order: SortOrder::Ascending,
            pagination: PAGE,
            of: PageOf::Keys,
        },
    };
    assert!(matches!(
        set.step(ReadEvent::Users(None)).stage,
        ReadStage::Stuck
    ));
}

fn view(id: &str) -> PostView {
    PostView {
        details: PostDetails {
            id: text(id),
            author: text("a"),
            indexed_at: 1,
            kind: PostKind::Short,
            content: text("hello"),
        },
        counts: PostCounts {
            tags: 0,
            unique_tags: 0,
            replies: 0,
            reposts: 0,
        },
        bookmark: Some(Bookmark { indexed_at: 2 }),
    }
}

#[test]
fn posts_are_looked_up_and_those_gone_left_out() {
    let read = PostStream::get_posts(
        StreamSource::Author {
            author_id: text("a"),
        },
        PAGE,
        SortOrder::Descending,
        StreamSorting::Timeline,
        Some(text("viewer")),
        None,
        None,
    );
    assert!(matches!(
        read.action(),
        Some(PostsAction::Keys(ReadAction::Page(_)))
    ));
    let read = read.step(PostsEvent::Keys(ReadEvent::Page(Some(vec![
        (text("1"), 9),
        (text("2"), 8),
    ]))));
    match read.action() {
        Some(PostsAction::Views(lookups)) => {
            assert_eq!(lookups.len(), 2);
            assert_eq!(lookups[1].author_id, "a");
            assert_eq!(lookups[1].post_id, "2");
            assert_eq!(lookups[1].viewer_id, Some(text("viewer")));
        }
        other => panic!("unexpected {other:?}"),
    }
    let read = read.step(PostsEvent::Views(vec![Some(view("1")), None]));
    match read.stage {
        PostsStage::Done(Some(stream)) => {
            assert_eq!(stream.0.len(), 1);
            assert_eq!(stream.0[0].details.id, "1");
        }
        other => panic!("unexpected {other:?}"),
    }
}

#[test]
fn a_page_without_keys_ends_the_read_of_posts() {
    let read = PostStream::get_posts(
        StreamSource::Author {
            author_id: text("a"),
        },
        PAGE,
        SortOrder::Descending,
        StreamSorting::Timeline,
        None,
        None,
        None,
    );
    let read = read.step(PostsEvent::Keys(ReadEvent::Page(None)));
    assert!(matches!(read.stage, PostsStage::Done(None)));
    let stuck = read.step(PostsEvent::Views(vec![]));
    assert!(matches!(stuck.stage, PostsStage::Stuck));
}

#[test]
fn a_key_without_a_colon_names_no_post() {
    let lookups =
        PostStream::from_listed_post_ids(None, &texts(&["a:1", "broken", "b:2:3"]));
    let found: Vec<(&str, &str)> = lookups
        .iter()
        .map(|l| (l.author_id.as_str(), l.post_id.as_str()))
        .collect();
    assert_eq!(found, vec![("a", "1"), ("b", "2:3")]);
}

#[test]
fn streams_are_joined() {
    let mut stream = PostStream(vec![view("1")]);
    stream.extend(PostStream(vec![view("2"), view("3")]));
    let ids: Vec<&str> = stream.0.iter().map(|v| v.details.id.as_str()).collect();
    assert_eq!(ids, vec!["1", "2", "3"]);
    assert!(PostStream::default().0.is_empty());
}

#[test]
fn the_ranked_sets_are_synced_under_their_keys() {
    let sync = PostStream::sync_ranked_sets(texts(&["Users", "SocialGraph"]));
    assert_eq!(sync.keys().ranking, texts(&["Users", "SocialGraph"]));
    assert_eq!(sync.keys().author_posts, texts(&["Posts", "AuthorParents"]));
    assert_eq!(
        sync.keys().timeline.staged,
        texts(&["Posts", "Global", "Timeline", "Ranked", "Staged"])
    );
    assert_eq!(
        sync.keys().engagement.aside,
        texts(&["Posts", "Global", "TotalEngagement", "Ranked", "Aside"])
    );
    assert_eq!(
        sync.keys().synced,
        texts(&["Posts", "Global", "Ranked", "Synced"])
    );
    assert_eq!(
        sync.keys().target,
        texts(&["Posts", "Global", "Ranked", "Target"])
    );
    assert_eq!(
        sync.keys().aside,
        texts(&["Posts", "Global", "Ranked", "Aside"])
    );
}

/// Answers a read of a set, highest score first.
fn answer(set: &[(&str, i64)], read: &PostKeyRead) -> Vec<(String, i64)> {
    match read.action() {
        Some(ReadAction::Page(SortedSetCommand::PageByScore {
            start,
            end,
            skip,
            limit,
            ..
        })) => set
            .iter()
            .filter(|(_, score)| start.map_or(true, |s| *score <= s))
            .filter(|(_, score)| end.map_or(true, |e| *score >= e))
            .skip(skip.unwrap_or(0))
            .take(limit.unwrap_or(usize::MAX))
            .map(|(key, score)| (key.to_string(), *score))
            .collect(),
        other => panic!("no page asked for: {other:?}"),
    }
}

#[test]
fn a_cursor_neither_repeats_nor_misses_a_post() {
    let set = [("a:5", 50), ("a:4", 40), ("a:3", 40), ("a:2", 40), ("a:1", 10)];
    let page = |start: Option<i64>, skip: usize| {
        let read = PostStream::get_global_posts_keys(
            StreamSorting::Timeline,
            SortOrder::Descending,
            start,
            None,
            Some(skip),
            Some(3),
        )
        .step(ReadEvent::RankingBuilt(Some(false)));
        let entries = answer(&set, &read);
        done(read.step(ReadEvent::Page(Some(entries)))).expect("a page")
    };
    let first = page(None, 0);
    assert_eq!(
        first,
        PostKeyStream::new(texts(&["a:5", "a:4", "a:3"]), Some(40))
    );
    // Two of the page's posts are tied at its cursor.
    let second = page(first.last_post_score.map(|s| s as i64), 2);
    assert_eq!(second, PostKeyStream::new(texts(&["a:2", "a:1"]), Some(10)));
    let end = page(second.last_post_score.map(|s| s as i64), 1);
    assert_eq!(end, PostKeyStream::default());
}
