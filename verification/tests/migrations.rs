//! The registry of migrations and what they decide.
use nexus::cache::post_content_index_schema_args;
use nexus::migrations::{
    build_migrations, import_migrations, is_retired_resource_stream_key,
    post_content_index_schema_args_v2, scan_pattern, FlagProgress, FlagStep, IndexUpgrade,
    MigrationManager, PostContentIndexAuthorSetup1780531200, ResourceStreamKeysRetire1790208000,
    UserDeletedFlag1780617600, FLAG_BATCH, SCAN_COUNT,
};

/// The live schema and the frozen one of the newest migration must agree.
#[test]
fn setup_cache_schema_matches_frozen_v2_migration_schema() {
    assert_eq!(
        post_content_index_schema_args(),
        post_content_index_schema_args_v2(),
        "setup_cache postContentIdx schema must match the frozen v2 migration schema"
    );
}

/// Extracts the trailing unix timestamp from a migration id such as
/// `PostContentIndexAuthorSetup1780531200`.
fn trailing_timestamp(id: &str) -> u64 {
    let digits: String = id
        .chars()
        .rev()
        .take_while(|c| c.is_ascii_digit())
        .collect();
    digits
        .chars()
        .rev()
        .collect::<String>()
        .parse()
        .expect("migration id must end with a unix timestamp")
}

#[test]
fn migrations_are_registered_in_chronological_order() {
    let migrations = build_migrations();

    let timestamps: Vec<u64> = migrations
        .iter()
        .map(|m| trailing_timestamp(m.id()))
        .collect();

    let mut sorted = timestamps.clone();
    sorted.sort_unstable();

    assert_eq!(
        timestamps, sorted,
        "migrations must be registered in ascending chronological order"
    );
}

#[test]
fn import_registers_every_migration_once() {
    let mut manager = MigrationManager::default();
    import_migrations(&mut manager);
    assert_eq!(manager.migrations, build_migrations());
    assert_eq!(manager.migrations.len(), 6);
}

#[test]
fn matches_exactly_the_eight_retired_shapes() {
    for key in [
        "Sorted:Resources:Global:Timeline",
        "Sorted:Resources:Global:TaggersCount",
        "Sorted:Resources:App:mapky:Timeline",
        "Sorted:Resources:App:mapky:TaggersCount",
        "Sorted:Resources:Tag:bitcoin:Timeline",
        "Sorted:Resources:Tag:bitcoin:TaggersCount",
        "Sorted:Resources:App:mapky:Tag:bitcoin:Timeline",
        "Sorted:Resources:App:mapky:Tag:bitcoin:TaggersCount",
        // Labels and apps may carry colons; the fixed segments still decide.
        "Sorted:Resources:Tag:a:b:Timeline",
        "Sorted:Resources:App:x:y:Tag:a:b:TaggersCount",
    ] {
        assert!(
            is_retired_resource_stream_key(key),
            "{key} should be retired"
        );
    }
}

#[test]
fn keeps_live_keys_under_the_shared_prefix() {
    for key in [
        // TagResource label scores, keyed by resource id
        "Sorted:Resources:Tag:450a72e3da164bfc3ac5f4056f9e5c7c",
        // A label that only looks like a stream key on its own
        "Sorted:Resources:Tag:Timeline",
        "Sorted:Resources:Tag:TaggersCount",
        "Sorted:Resources:Global",
        "Sorted:Resources:Other:Timeline",
        "Sorted:Posts:Global:Timeline",
        "Resource:Taggers:450a72e3da164bfc3ac5f4056f9e5c7c:bitcoin",
    ] {
        assert!(!is_retired_resource_stream_key(key), "{key} must be kept");
    }
}

#[test]
fn a_scan_deletes_the_retired_keys_only() {
    let keys = vec![
        "Sorted:Resources:App:x:Timeline".to_string(),
        "Sorted:Resources:Tag:0123".to_string(),
        "Sorted:Resources:Global:TaggersCount".to_string(),
    ];
    let retire = ResourceStreamKeysRetire1790208000;
    assert_eq!(
        retire.backfill(keys),
        vec![
            "Sorted:Resources:App:x:Timeline".to_string(),
            "Sorted:Resources:Global:TaggersCount".to_string()
        ]
    );
    assert_eq!(retire.id(), "ResourceStreamKeysRetire1790208000");
    assert!(!retire.is_multi_staged());
    assert_eq!((scan_pattern(), SCAN_COUNT), ("Sorted:Resources:*", 1000));
}

#[test]
fn an_index_upgrade_drops_and_creates() {
    let migration = PostContentIndexAuthorSetup1780531200;
    assert_eq!(migration.id(), "PostContentIndexAuthorSetup1780531200");
    assert!(!migration.is_multi_staged());
    let upgrade = migration.backfill();
    assert!(matches!(upgrade, IndexUpgrade::Drop));
    let upgrade = upgrade.step(None);
    assert!(matches!(upgrade, IndexUpgrade::Create));
    assert!(matches!(upgrade.step(None), IndexUpgrade::Done));
}

#[test]
fn an_absent_index_needs_no_drop_and_a_present_one_no_creation() {
    for message in ["Unknown Index name", "ERR No Such Index: postContentIdx"] {
        let next = IndexUpgrade::Drop.step(Some(message.to_string()));
        assert!(matches!(next, IndexUpgrade::Create), "{message}");
    }
    let next = IndexUpgrade::Create.step(Some("Index already exists".to_string()));
    assert!(matches!(next, IndexUpgrade::Done));
    for upgrade in [IndexUpgrade::Drop, IndexUpgrade::Create] {
        match upgrade.step(Some("Connection refused".to_string())) {
            IndexUpgrade::Failed(message) => assert_eq!(message, "Connection refused"),
            other => panic!("unexpected {other:?}"),
        }
    }
    // The case of a message counts where an index is created.
    let next = IndexUpgrade::Create.step(Some("Already Exists".to_string()));
    assert!(matches!(next, IndexUpgrade::Failed(_)));
}

#[test]
fn the_index_is_created_for_the_documents_of_a_prefix() {
    let args = IndexUpgrade::create_post_content_index_v2("PostDetails");
    assert_eq!(
        args[..6],
        ["postContentIdx", "ON", "JSON", "PREFIX", "1", "PostDetails:"].map(String::from)
    );
    assert_eq!(args[6..], post_content_index_schema_args_v2()[..]);
    assert_eq!(args.len(), 23);
}

#[test]
fn users_are_flagged_until_none_is_left() {
    let migration = UserDeletedFlag1780617600;
    assert_eq!(migration.id(), "UserDeletedFlag1780617600");
    assert!(!migration.is_multi_staged());
    let progress = migration.backfill();
    let FlagStep::Continue {
        invalidate,
        progress,
    } = progress.next(Some(10_000), Some(vec!["gone".to_string()]))
    else {
        panic!("the first batch flagged users");
    };
    assert_eq!(invalidate, vec!["gone".to_string()]);
    let FlagStep::Continue {
        invalidate,
        progress,
    } = progress.next(Some(7), None)
    else {
        panic!("the second batch flagged users");
    };
    assert!(invalidate.is_empty());
    let FlagStep::Finished(progress) = progress.next(None, None) else {
        panic!("the third batch flagged nobody");
    };
    assert_eq!(
        progress,
        FlagProgress {
            total_processed: 10_007,
            total_tombstoned: 1
        }
    );
}

/// Of the keys a scan finds, exactly the retired ones are deleted, and a second
/// run keeps the live key.
#[test]
fn backfill_deletes_only_the_retired_keys() {
    let suffix = 1_790_208_000_123i64;
    let app = format!("retireapp{suffix}");
    let label = format!("retirelabel{suffix}");
    let retired = [
        "Sorted:Resources:Global:Timeline".to_string(),
        "Sorted:Resources:Global:TaggersCount".to_string(),
        format!("Sorted:Resources:App:{app}:Timeline"),
        format!("Sorted:Resources:App:{app}:TaggersCount"),
        format!("Sorted:Resources:Tag:{label}:Timeline"),
        format!("Sorted:Resources:Tag:{label}:TaggersCount"),
        format!("Sorted:Resources:App:{app}:Tag:{label}:Timeline"),
        format!("Sorted:Resources:App:{app}:Tag:{label}:TaggersCount"),
    ];
    let live = format!("Sorted:Resources:Tag:{suffix:032x}");
    let mut keys: Vec<String> = retired.to_vec();
    keys.push(live.clone());

    let deleted = ResourceStreamKeysRetire1790208000.backfill(keys.clone());
    keys.retain(|key| !deleted.contains(key));
    for key in &retired {
        assert!(!keys.contains(key), "{key} should have been deleted");
    }
    assert!(keys.contains(&live), "{live} must survive the migration");

    let deleted = ResourceStreamKeysRetire1790208000.backfill(keys.clone());
    keys.retain(|key| !deleted.contains(key));
    assert!(keys.contains(&live));
}

/// A whole run over users by id, with their name and flag, and the cached ids.
#[test]
fn a_run_flags_every_user_by_name() {
    let name_is_gone = |name: Option<&str>| name == Some("[DELETED]");
    let mut users: Vec<(String, Option<&str>, Option<bool>)> = (0..25)
        .map(|i| {
            let name = match i % 5 {
                0 => None,
                1 | 2 => Some("[DELETED]"),
                _ => Some("Ann"),
            };
            let flag = match i % 3 {
                0 => None,
                1 => Some(true),
                _ => Some(false),
            };
            (format!("u{i}"), name, flag)
        })
        .collect();
    let start = users.clone();
    let mut cached: Vec<String> = users.iter().map(|user| user.0.clone()).collect();
    for run in 0..2 {
        let mut progress = UserDeletedFlag1780617600.backfill();
        let mut batches = 0;
        loop {
            batches += 1;
            let mut processed = 0;
            let mut tombstoned = Vec::new();
            for (id, name, flag) in users.iter_mut() {
                let gone = name_is_gone(*name);
                if *flag != Some(gone) && processed < 4 {
                    *flag = Some(gone);
                    processed += 1;
                    if gone {
                        tombstoned.push(id.clone());
                    }
                }
            }
            match progress.next(Some(processed), Some(tombstoned)) {
                FlagStep::Continue {
                    invalidate,
                    progress: so_far,
                } => {
                    cached.retain(|id| !invalidate.contains(id));
                    progress = so_far;
                }
                FlagStep::Finished(total) => {
                    let wrong = start.iter().filter(|u| u.2 != Some(name_is_gone(u.1)));
                    let expected = if run == 0 { wrong.count() as i64 } else { 0 };
                    assert_eq!(total.total_processed, expected);
                    break;
                }
            }
        }
        assert_eq!(batches == 1, run == 1);
        for (before, after) in start.iter().zip(&users) {
            let gone = name_is_gone(before.1);
            assert_eq!(after.2, Some(gone));
            let dropped = gone && before.2 != Some(true);
            assert_eq!(cached.contains(&before.0), !dropped, "{}", before.0);
        }
    }
}

#[test]
fn the_batch_query_takes_users_whose_flag_their_name_belies() {
    let query = UserDeletedFlag1780617600.batch_query();
    let (matched, written) = query.split_once(" SET ").expect("it writes");
    assert!(matched.ends_with(&format!("WITH u LIMIT {FLAG_BATCH}")));
    assert!(matched.contains("u.deleted IS NULL OR u.deleted <> coalesce("));
    assert!(written.starts_with("u.deleted = coalesce(u.name = '[DELETED]', false)"));
}
