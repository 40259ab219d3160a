//! Resources, media, the cache, fixtures, commands and small helpers.
use nexus::cache::{clear_redis, setup_cache, CacheCommand, CacheSetup};
use nexus::cli::{
    Cli, ConfigDirArgs, DbCommands, JobCommands, JobRunArgs, MockArgs, NexusCommands,
};
use nexus::fixtures::{
    collection_post, default_ingestor_tests, locked_post, long_post, random_pk, random_pubky_id,
    short_post, short_reply, short_repost, test_user,
};
use nexus::media::{
    FileDetails, FileVariant, GateOutcome, MediaProcessor, MediaProcessorError, VariantController,
    VariantPlace,
};
use nexus::resource_stream::{
    LoadAction, LoadEvent, LoadStage, ResourceDetails, ResourceKeyStream, ResourceLoad,
    ResourceSorting, ResourceStream, ResourceStreamSource, ResourceView, TagDetails,
};
use nexus::scored::{sort_by_score, sort_texts_by_score, take_window};
use nexus::sorted_set::SortOrder;
use nexus::text::{
    contains_text, count_terms, is_white_space, key_author, post_key, same_text, split_once, starts_with, strip_prefix,
    strip_suffix,
};
use nexus::types::Pagination;
use std::collections::{BTreeMap, BTreeSet};

fn text(s: &str) -> String {
    s.to_string()
}

#[test]
fn a_page_of_resources_ends_with_a_cursor() {
    let page = ResourceKeyStream::from_scored_entries(vec![(text("r1"), 9), (text("r2"), 4)]);
    assert_eq!(
        page,
        ResourceKeyStream::new(vec![text("r1"), text("r2")], Some(4))
    );
    assert!(!page.is_empty());
    let below = ResourceKeyStream::from_scored_entries(vec![(text("r"), -1)]);
    assert_eq!(below.last_score, Some(0));
    assert_eq!(
        ResourceKeyStream::from_scored_entries(vec![]),
        ResourceKeyStream::default()
    );
}

#[test]
fn resources_are_asked_of_the_graph() {
    let page = Pagination {
        skip: None,
        limit: Some(3),
        start: None,
        end: None,
    };
    let source = ResourceStreamSource::App {
        app: text("mapky"),
    };
    let tags = vec![text("bitcoin")];
    let query = ResourceStream::get_resource_keys(
        &source,
        page,
        SortOrder::Descending,
        &ResourceSorting::TaggersCount,
        Some(&tags),
    );
    assert_eq!(query.app, Some(text("mapky")));
    assert_eq!(query.tags, Some(tags));
    assert_eq!(query.sorting, ResourceSorting::TaggersCount);
    assert_eq!(query.pagination, page);
    let all = ResourceStream::get_resource_keys(
        &ResourceStreamSource::default(),
        page,
        SortOrder::Ascending,
        &ResourceSorting::default(),
        None,
    );
    assert_eq!((all.app, all.tags), (None, None));
    assert_eq!(all.sorting, ResourceSorting::Timeline);
}

fn tag(count: usize) -> TagDetails {
    TagDetails {
        label: text("t"),
        taggers: vec![],
        taggers_count: count,
        relationship: false,
    }
}

fn details(id: &str) -> ResourceDetails {
    ResourceDetails {
        id: text(id),
        uri: text("https://example.org"),
    }
}

#[test]
fn a_resource_is_loaded_with_its_tags() {
    assert!(ResourceStream::from_listed_resource_ids(None, &vec![]).is_none());
    let loads =
        ResourceStream::from_listed_resource_ids(Some("me"), &vec![text("r1"), text("r2")])
            .expect("two resources");
    assert_eq!(loads.len(), 2);
    let mut loaded: Vec<Option<ResourceView>> = Vec::new();
    for (i, load) in loads.into_iter().enumerate() {
        match load.action() {
            Some(LoadAction::Details { resource_id }) => {
                assert_eq!(resource_id, format!("r{}", i + 1));
            }
            other => panic!("unexpected {other:?}"),
        }
        if i == 1 {
            let gone = load.step(LoadEvent::Details(None));
            assert!(gone.action().is_none());
            match gone.stage {
                LoadStage::Done(view) => loaded.push(view),
                other => panic!("unexpected {other:?}"),
            }
            continue;
        }
        let load = load.step(LoadEvent::Details(Some(details("r1"))));
        match load.action() {
            Some(LoadAction::Tags {
                tags_limit,
                taggers_limit,
                viewer_id,
                ..
            }) => {
                assert_eq!((tags_limit, taggers_limit), (5, 3));
                assert_eq!(viewer_id, Some(text("me")));
            }
            other => panic!("unexpected {other:?}"),
        }
        match load.step(LoadEvent::Tags(Some(vec![tag(4), tag(6)]))).stage {
            LoadStage::Done(view) => loaded.push(view),
            other => panic!("unexpected {other:?}"),
        }
    }
    let stream = ResourceStream::from_loaded(loaded).expect("one was found");
    assert_eq!(stream.0.len(), 1);
    assert_eq!(stream.0[0].taggers_count, 10);
    assert!(ResourceStream::from_loaded(vec![None]).is_none());
    assert!(ResourceStream::default().0.is_empty());
}

#[test]
fn a_resource_without_tags_has_no_taggers() {
    let load = ResourceLoad {
        resource_id: text("r"),
        viewer_id: None,
        stage: LoadStage::Tags(details("r")),
    };
    match load.step(LoadEvent::Tags(None)).stage {
        LoadStage::Done(Some(view)) => {
            assert!(view.tags.is_empty());
            assert_eq!(view.taggers_count, 0);
        }
        other => panic!("unexpected {other:?}"),
    }
    let load = ResourceLoad {
        resource_id: text("r"),
        viewer_id: None,
        stage: LoadStage::Details,
    };
    assert!(matches!(
        load.step(LoadEvent::Tags(None)).stage,
        LoadStage::Stuck
    ));
}

#[test]
fn variants_are_told_by_their_names() {
    for (name, variant) in [
        ("main", FileVariant::Main),
        ("feed", FileVariant::Feed),
        ("small", FileVariant::Small),
    ] {
        assert_eq!(FileVariant::from_str(name), Ok(variant));
        assert_eq!(variant.name(), name);
    }
    let error = FileVariant::from_str("Main").expect_err("no such variant");
    assert_eq!(error.message(), "Invalid file version");
}

/// Files by path, each part of a path behind the other.
type Files = BTreeMap<Vec<String>, &'static str>;

fn path(parts: &[&str]) -> Vec<String> {
    parts.iter().map(|p| p.to_string()).collect()
}

fn rename(files: &mut Files, from: &[&str], to: &[&str]) {
    let content = files.remove(&path(from)).expect("the file is there");
    files.insert(path(to), content);
}

fn variant_exists(file: &FileDetails, variant: FileVariant, files: &Files) -> bool {
    match VariantController::check_variant_exists(file, variant) {
        VariantPlace::Always => true,
        VariantPlace::At(place) => files.contains_key(&place),
    }
}

fn make_file_details(owner_id: &str, file_id: &str, content_type: &str) -> FileDetails {
    FileDetails {
        id: text(file_id),
        owner_id: text(owner_id),
        content_type: text(content_type),
    }
}

#[test]
fn test_check_variant_exists_ignores_temp_file() {
    let file = make_file_details("owner1", "file1", "image/png");
    let mut files = Files::new();
    files.insert(path(&["owner1", "file1", "main"]), "MAIN");
    let temp = ["owner1", "file1", "small.12345.1700000000000000000"];
    files.insert(path(&temp), "PARTIAL");
    assert!(
        !variant_exists(&file, FileVariant::Small, &files),
        "check_variant_exists should return false while only a temp file exists"
    );
    rename(&mut files, &temp, &["owner1", "file1", "small"]);
    assert!(
        variant_exists(&file, FileVariant::Small, &files),
        "check_variant_exists should return true after the atomic rename"
    );
}

#[test]
fn test_atomic_write_flow_no_partial_variant_observable() {
    let file = make_file_details("owner1", "file1", "image/png");
    let mut files = Files::new();
    files.insert(path(&["owner1", "file1", "main"]), "MAIN");
    assert!(!variant_exists(&file, FileVariant::Small, &files));
    let temp = ["owner1", "file1", "small.12345.9999999999999999999"];
    files.insert(path(&temp), "PARTIAL_DATA");
    assert!(
        !variant_exists(&file, FileVariant::Small, &files),
        "check_variant_exists must return false while the temp file is being written"
    );
    rename(&mut files, &temp, &["owner1", "file1", "small"]);
    assert!(
        variant_exists(&file, FileVariant::Small, &files),
        "check_variant_exists must return true after the atomic rename"
    );
    assert_eq!(
        files[&path(&["owner1", "file1", "small"])],
        "PARTIAL_DATA",
        "File content should be intact after rename"
    );
}

#[test]
fn test_failed_processor_cleanup_no_poisoned_variant() {
    let file = make_file_details("owner1", "file1", "image/png");
    let mut files = Files::new();
    files.insert(path(&["owner1", "file1", "main"]), "MAIN");
    let temp = path(&["owner1", "file1", "small.12345.8888888888888888888"]);
    files.insert(temp.clone(), "PARTIAL");
    assert!(files.contains_key(&temp), "Temp file should exist");
    assert!(
        !variant_exists(&file, FileVariant::Small, &files),
        "check_variant_exists should return false for a temp file"
    );
    files.remove(&temp);
    assert!(
        !variant_exists(&file, FileVariant::Small, &files),
        "check_variant_exists should still return false after temp cleanup"
    );
    assert!(variant_exists(&file, FileVariant::Main, &files));
}

#[test]
fn test_variant_path_construction() {
    let file = make_file_details("user123", "file456", "image/png");
    let mut files = Files::new();
    assert!(!variant_exists(&file, FileVariant::Small, &files));
    files.insert(path(&["user123", "file456", "small"]), "COMPLETE_VARIANT");
    assert!(variant_exists(&file, FileVariant::Small, &files));
}

fn file(content_type: &str) -> FileDetails {
    make_file_details("user123", "file456", content_type)
}

#[test]
fn images_and_videos_have_processors() {
    let processor = |t: &str| VariantController::create_file_variant(&file(t));
    assert_eq!(processor("image/png"), Ok(MediaProcessor::Image));
    assert_eq!(processor("video/mp4"), Ok(MediaProcessor::Video));
    assert_eq!(
        processor("image"),
        Err(MediaProcessorError::UnsupportedContentType(text("image")))
    );
    let kept = VariantController::get_content_type_for_variant(&file("text/plain"), None);
    assert_eq!(kept, Some(text("text/plain")));
    let made = VariantController::get_content_type_for_variant(
        &file("image/png"),
        Some(text("image/webp")),
    );
    assert_eq!(made, Some(text("image/webp")));
}

#[test]
fn a_variant_is_valid_where_it_is_made() {
    let made = vec![FileVariant::Feed, FileVariant::Small];
    let valid = |t: &str, v: FileVariant| {
        VariantController::validate_variant_for_content_type(t, &v, &made)
    };
    assert!(valid("text/plain", FileVariant::Main));
    assert!(!valid("text/plain", FileVariant::Small));
    assert!(valid("image/png", FileVariant::Small));
    // The bare type is enough here.
    assert!(valid("image", FileVariant::Feed));
    let urls = |t: &str| VariantController::get_file_urls_by_content_type(t, made.clone());
    assert_eq!(urls("video/mp4"), made);
    assert!(urls("audio/ogg").is_empty());
}

#[test]
fn work_is_shed_without_a_place() {
    assert!(GateOutcome::Acquired.acquired().is_ok());
    for outcome in [GateOutcome::Closed, GateOutcome::Elapsed] {
        assert_eq!(outcome.acquired(), Err(MediaProcessorError::AtCapacity));
    }
}

/// Clearing must leave the search index in place, not just empty the keyspace.
#[test]
fn clear_redis_leaves_search_index() {
    let mut keys: BTreeSet<String> = [text("a"), text("b")].into_iter().collect();
    let mut indexes: BTreeSet<String> = [text("postContentIdx"), text("old")].into_iter().collect();
    let mut setup = clear_redis();
    while let Some(command) = setup.command("PostDetails") {
        match command {
            CacheCommand::FlushDb => {
                keys.clear();
                indexes.clear();
            }
            CacheCommand::CreateIndex(args) => {
                indexes.insert(args[0].clone());
            }
        }
        setup = setup.step(None);
    }
    assert!(matches!(setup, CacheSetup::Done));
    assert!(keys.is_empty());
    assert_eq!(indexes, [text("postContentIdx")].into_iter().collect());
}

/// The index holds the three fields that the current schema declares.
#[test]
fn post_content_index_has_expected_schema() {
    match setup_cache().command("PostDetails") {
        Some(CacheCommand::CreateIndex(args)) => {
            assert_eq!(args[0], "postContentIdx");
            let rendered = format!("{args:?}");
            for field in ["content", "author", "kind"] {
                assert!(
                    rendered.contains(field),
                    "the index is missing the '{field}' field: {rendered}"
                );
            }
        }
        other => panic!("unexpected {other:?}"),
    }
}

#[test]
fn an_index_that_is_there_is_left_as_it_is() {
    let setup = setup_cache();
    match setup.command("PostDetails") {
        Some(CacheCommand::CreateIndex(args)) => {
            assert_eq!(args[5], "PostDetails:");
            for field in ["content", "author", "kind"] {
                assert!(args.contains(&text(field)));
            }
        }
        other => panic!("unexpected {other:?}"),
    }
    let setup = setup.step(Some(text("Index already exists")));
    assert!(matches!(setup, CacheSetup::Done));
    assert!(matches!(
        setup_cache().step(Some(text("down"))),
        CacheSetup::Failed(_)
    ));
    assert!(matches!(
        clear_redis().step(Some(text("Index already exists"))),
        CacheSetup::Failed(_)
    ));
}

#[test]
fn posts_are_made_trimmed_and_of_their_kind() {
    let post = short_post(text("  hello "));
    assert_eq!((post.content.as_str(), post.kind.as_str()), ("hello", "short"));
    assert!(post.parent.is_none() && post.embed.is_none() && post.lock.is_none());
    assert_eq!(long_post(text("x")).kind, "long");
    let uri = "pubky://user/pub/pubky.app/posts/1";
    let reply = short_reply(text("x"), format!(" {uri} "));
    assert_eq!(reply.parent.as_deref(), Some(uri));
    let repost = short_repost(text("x"), text(uri));
    assert_eq!(repost.embed, Some((text("short"), text(uri))));
    let locked = locked_post(text("x"), text(uri));
    assert_eq!(locked.lock.as_deref(), Some(uri));
    let collection = collection_post(text("my \"list\""));
    assert_eq!(collection.kind, "collection");
    assert_eq!(
        collection.content,
        "{\"name\":\"my \\\"list\\\"\",\"items\":[]}"
    );
}

#[test]
fn a_profile_is_made_of_a_name_and_a_bio() {
    let user = test_user(text(" Ann "), text(" hi "));
    assert_eq!(user.name, "Ann");
    assert_eq!(user.bio.as_deref(), Some("hi"));
    assert!(user.image.is_none() && user.links.is_none() && user.status.is_none());
    assert_eq!(test_user(text(" [DELETED]"), text("")).name, "anonymous");
    let wide = test_user(text("\u{3000}Ann\u{a0}"), text("\u{2003}a b\u{85}"));
    assert_eq!((wide.name.as_str(), wide.bio.as_deref()), ("Ann", Some("a b")));
}

#[test]
fn random_ids_are_ids() {
    let id = random_pubky_id();
    assert_eq!(id.len(), 52);
    assert_ne!(id, random_pubky_id());
    assert_eq!(random_pk().len(), 52);
    assert!(default_ingestor_tests().hs_blacklist.is_empty());
}

/// Resolves the directory of a command that carries one against the top-level one.
fn resolved_config_dir(command: NexusCommands, root: &str) -> Option<String> {
    match command {
        NexusCommands::Api(args) | NexusCommands::Watcher(args) | NexusCommands::Run(args) => {
            Some(args.resolve(root.into()))
        }
        NexusCommands::Jobs(JobCommands::Run(JobRunArgs { config, .. })) => {
            Some(config.resolve(root.into()))
        }
        NexusCommands::Db(DbCommands::Clear { config, .. }) => Some(config.resolve(root.into())),
        NexusCommands::Db(DbCommands::Mock(args)) => Some(args.config.resolve(root.into())),
        _ => None,
    }
}

/// Every command that reads a config dir.
fn config_dir_commands(dir: Option<&str>) -> Vec<NexusCommands> {
    let args = || ConfigDirArgs {
        config_dir: dir.map(text),
    };
    vec![
        NexusCommands::Api(args()),
        NexusCommands::Watcher(args()),
        NexusCommands::Run(args()),
        NexusCommands::Jobs(JobCommands::Run(JobRunArgs {
            name: text("some-job"),
            config: args(),
        })),
        NexusCommands::Db(DbCommands::Clear {
            yes: true,
            config: args(),
        }),
        NexusCommands::Db(DbCommands::Mock(MockArgs {
            mock_type: None,
            config: args(),
        })),
    ]
}

fn cli(command: Option<NexusCommands>) -> Cli {
    Cli {
        config_dir: text("root-dir"),
        command,
    }
}

#[test]
fn subcommand_inherits_top_level_config_dir() {
    for command in config_dir_commands(None) {
        let label = format!("{command:?}");
        let command = Cli::receive_command(cli(Some(command)));
        assert_eq!(
            resolved_config_dir(command, "root-dir"),
            Some(text("root-dir")),
            "`{label}` must inherit the top-level config dir"
        );
    }
}

#[test]
fn subcommand_config_dir_overrides_top_level() {
    for command in config_dir_commands(Some("sub-dir")) {
        let label = format!("{command:?}");
        let command = Cli::receive_command(cli(Some(command)));
        assert_eq!(
            resolved_config_dir(command, "root-dir"),
            Some(text("sub-dir")),
            "`{label}` must let the subcommand-level directory win"
        );
    }
}

#[test]
fn bare_invocation_uses_top_level_config_dir() {
    match Cli::receive_command(cli(None)) {
        NexusCommands::Run(args) => {
            assert_eq!(args.resolve(text("root-dir")), text("root-dir"));
        }
        other => panic!("unexpected command: {other:?}"),
    }
}

#[test]
fn entries_are_sorted_and_ties_keep_their_order() {
    let entries = vec![(2, 'a'), (5, 'b'), (2, 'c'), (9, 'd'), (5, 'e'), (-1, 'f')];
    assert_eq!(
        sort_by_score(entries),
        vec![(9, 'd'), (5, 'b'), (5, 'e'), (2, 'a'), (2, 'c'), (-1, 'f')]
    );
    let many: Vec<(i64, String)> = (0..5_000).map(|i| ((i * 7) % 13, i.to_string())).collect();
    let mut expected = many.clone();
    expected.sort_by(|a, b| b.0.cmp(&a.0));
    assert_eq!(sort_texts_by_score(many), expected);
}

#[test]
fn a_page_is_cut_out_of_a_list() {
    let list = || vec![1, 2, 3, 4, 5];
    assert_eq!(take_window(list(), 1, Some(2)), vec![2, 3]);
    assert_eq!(take_window(list(), 3, None), vec![4, 5]);
    assert_eq!(take_window(list(), 9, Some(2)), Vec::<i32>::new());
    assert_eq!(take_window(list(), 4, Some(usize::MAX)), vec![5]);
    let mut joined = take_window(list(), 0, Some(2));
    joined.extend(take_window(list(), 2, Some(3)));
    assert_eq!(joined, take_window(list(), 0, Some(5)));
}

#[test]
fn texts_are_cut_and_joined() {
    assert_eq!(post_key("bob", "p"), "bob:p");
    assert_eq!(key_author("bob:p:q"), "bob");
    assert_eq!(key_author("bob"), "bob");
    assert_eq!(
        split_once("a:b:c", ':'),
        Some((text("a"), text("b:c")))
    );
    assert_eq!(split_once("abc", ':'), None);
    assert_eq!(strip_prefix("héllo", "hé"), Some("llo"));
    assert_eq!(strip_prefix("hello", "world"), None);
    assert_eq!(strip_suffix("a:Timeline", ":Timeline"), Some("a"));
    assert_eq!(strip_suffix("Timeline", ":Timeline"), None);
    assert!(starts_with("image/png", "image/"));
    assert!(!starts_with("imag", "image"));
    assert!(contains_text("the index", "ind"));
    assert!(contains_text("abc", ""));
    assert!(!contains_text("abc", "abcd"));
    assert!(same_text("a", "a") && !same_text("a", "b"));
    assert_eq!(count_terms(" a\tbc  d "), 3);
    for n in 0..=0x3001u32 {
        if let Some(c) = char::from_u32(n) {
            assert_eq!(is_white_space(c), c.is_whitespace(), "{n:x}");
        }
    }
}
