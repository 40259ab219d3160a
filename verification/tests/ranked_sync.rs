//! Whole syncs of the ranked twins against a store in memory.
use nexus::ranked_sync::{
    MirroredSets, RankedSync, RankedSyncKeys, SyncAction, SyncPhase, SyncReply,
    RANKED_SYNC_CHUNK,
};
use nexus::sorted_set::{ScoreAction, SortOrder, SortedSetCommand, SortedSetReply};
use std::collections::BTreeMap;

type Key = Vec<String>;

/// A store of sorted sets. An empty set does not exist.
#[derive(Clone, Default)]
struct Store {
    sets: BTreeMap<Key, BTreeMap<String, i64>>,
}

impl Store {
    fn at(&self, key: &Key) -> BTreeMap<String, i64> {
        self.sets.get(key).cloned().unwrap_or_default()
    }

    fn there(&self, key: &Key) -> bool {
        !self.at(key).is_empty()
    }

    fn listing(&self, key: &Key) -> Vec<(String, i64)> {
        let mut list: Vec<(String, i64)> = self.at(key).into_iter().collect();
        list.sort_by(|a, b| a.1.cmp(&b.1).then(a.0.cmp(&b.0)));
        list
    }

    fn put(&mut self, key: &Key, elements: &[(i64, String)]) {
        let set = self.sets.entry(key.clone()).or_default();
        for (score, member) in elements {
            set.insert(member.clone(), *score);
        }
    }

    fn run(&mut self, command: &SortedSetCommand) -> SortedSetReply {
        match command {
            SortedSetCommand::Exists { key } => SortedSetReply::Exists(self.there(key)),
            SortedSetCommand::Unlink { keys } => {
                for key in keys {
                    self.sets.remove(key);
                }
                SortedSetReply::Done
            }
            SortedSetCommand::PageByRank { key, from, to } => SortedSetReply::Page(Some(
                self.listing(key)
                    .into_iter()
                    .skip(*from)
                    .take(to + 1 - from)
                    .collect(),
            )),
            SortedSetCommand::PageByScore {
                key,
                start,
                end,
                skip,
                limit,
                order,
            } => {
                if !self.there(key) {
                    return SortedSetReply::Page(None);
                }
                let mut list = self.listing(key);
                if *order == SortOrder::Descending {
                    list.reverse();
                }
                SortedSetReply::Page(Some(
                    list.into_iter()
                        .filter(|(_, s)| start.is_none_or(|m| *s <= m))
                        .filter(|(_, s)| end.is_none_or(|m| *s >= m))
                        .skip(skip.unwrap_or(0))
                        .take(limit.unwrap_or(usize::MAX))
                        .collect(),
                ))
            }
            SortedSetCommand::Scores { key, members } => {
                let set = self.at(key);
                SortedSetReply::Scores(members.iter().map(|m| set.get(m).copied()).collect())
            }
            SortedSetCommand::Put { key, elements } => {
                self.put(key, elements);
                SortedSetReply::Done
            }
            SortedSetCommand::Remove { key, members } => {
                if let Some(set) = self.sets.get_mut(key) {
                    for member in members {
                        set.remove(member);
                    }
                }
                SortedSetReply::Done
            }
            SortedSetCommand::SwapIn {
                staged,
                live,
                aside,
            } => {
                let fresh = self.sets.remove(staged).unwrap_or_default();
                self.sets.insert(live.clone(), fresh);
                self.sets.remove(aside);
                SortedSetReply::Done
            }
            SortedSetCommand::Step {
                key,
                member,
                action,
            } => {
                let set = self.sets.entry(key.clone()).or_default();
                let score = set.entry(member.clone()).or_insert(0);
                match action {
                    ScoreAction::Increment(by) => *score += by,
                    ScoreAction::Decrement(by) => *score -= by,
                }
                SortedSetReply::Score(*score)
            }
        }
    }
}

fn key(parts: &[&str]) -> Key {
    parts.iter().map(|p| p.to_string()).collect()
}

/// A private key namespace per test.
fn keys(ns: &str) -> RankedSyncKeys {
    let sets = |name: &str| MirroredSets {
        global: key(&[ns, name]),
        ranked: key(&[ns, name, "Ranked"]),
        staged: key(&[ns, name, "Staged"]),
        aside: key(&[ns, name, "Aside"]),
    };
    RankedSyncKeys {
        ranking: key(&[ns, "Ranking"]),
        author_posts: key(&[ns, "AuthorParents"]),
        timeline: sets("Timeline"),
        engagement: sets("Engagement"),
        synced: key(&[ns, "Synced"]),
        target: key(&[ns, "Target"]),
        aside: key(&[ns, "Aside"]),
    }
}

/// A root post: author, post id, timeline and engagement score.
type SeedPost = (String, String, i64, i64);
/// Both twins as `(member, score)` lists sorted by member.
type Twins = (Vec<(String, i64)>, Vec<(String, i64)>);

fn posts_of(author: &str, count: usize, timestamp: impl Fn(usize) -> i64) -> Vec<SeedPost> {
    (0..count)
        .map(|i| {
            let ts = timestamp(i);
            (author.to_string(), format!("P{i:06}"), ts, (i % 7) as i64)
        })
        .collect()
}

fn set_ranking(store: &mut Store, keys: &RankedSyncKeys, ranked: &[&str]) {
    store.sets.remove(&keys.ranking);
    let ranks: Vec<(i64, String)> = ranked
        .iter()
        .enumerate()
        .map(|(i, id)| ((i + 1) as i64, id.to_string()))
        .collect();
    store.put(&keys.ranking, &ranks);
}

fn add_posts(store: &mut Store, keys: &RankedSyncKeys, posts: &[SeedPost]) {
    for (author, post, ts, engagement) in posts {
        let member = format!("{author}:{post}");
        store.put(&keys.timeline.global, &[(*ts, member.clone())]);
        store.put(&keys.engagement.global, &[(*engagement, member)]);
        let mut own = keys.author_posts.clone();
        own.push(author.clone());
        store.put(&own, &[(*ts, post.clone())]);
    }
}

/// Every post by a ranked author, at its global scores.
fn expected_twins(posts: &[SeedPost], ranked: &[&str]) -> Twins {
    let mut timeline = Vec::new();
    let mut engagement = Vec::new();
    for (author, post_id, ts, eng) in posts {
        if ranked.contains(&author.as_str()) {
            timeline.push((format!("{author}:{post_id}"), *ts));
            engagement.push((format!("{author}:{post_id}"), *eng));
        }
    }
    timeline.sort();
    engagement.sort();
    (timeline, engagement)
}

fn actual_twins(store: &Store, keys: &RankedSyncKeys) -> Twins {
    (
        store.at(&keys.timeline.ranked).into_iter().collect(),
        store.at(&keys.engagement.ranked).into_iter().collect(),
    )
}

fn assert_no_scratch_keys(store: &Store, keys: &RankedSyncKeys) {
    for key in [
        &keys.timeline.staged,
        &keys.timeline.aside,
        &keys.engagement.staged,
        &keys.engagement.aside,
        &keys.target,
        &keys.aside,
    ] {
        assert!(!store.there(key), "scratch key {key:?} left behind");
    }
}

/// Runs a sync for at most `steps` actions; whether it came to its end.
fn run_for(store: &mut Store, mut sync: RankedSync, now: i64, steps: usize) -> (bool, usize) {
    for step in 0..steps {
        let reply = match sync.action() {
            None => {
                assert!(matches!(sync.phase(), SyncPhase::Done), "{:?}", sync.phase());
                return (true, step);
            }
            Some(SyncAction::ReadClock) => SyncReply::Clock(now),
            Some(SyncAction::Store(command)) => SyncReply::Store(store.run(&command)),
        };
        assert!(sync.has_room(&reply));
        sync = sync.step(reply);
    }
    (false, steps)
}

fn run_sync(store: &mut Store, keys: RankedSyncKeys) -> usize {
    let sync = RankedSync::sync_ranked_sets_with(keys);
    let (over, steps) = run_for(store, sync, 1_700_000_000_000, 1_000_000);
    assert!(over);
    steps
}

#[test]
fn ranked_sync_full_build_filters_by_ranking() {
    let ns = "Test:RankedSync:Full";
    let keys_ = keys(ns);
    let mut store = Store::default();
    // 1,500 posts share one timestamp, so a page boundary falls inside the tie.
    let mut posts = posts_of("ranked-a", 1_500, |_| 1_000);
    posts.extend(posts_of("ranked-b", 700, |i| 2_000 + i as i64));
    posts.extend(posts_of("unranked-c", 900, |i| 500 + i as i64));
    add_posts(&mut store, &keys_, &posts);
    set_ranking(&mut store, &keys_, &["ranked-a", "ranked-b"]);

    run_sync(&mut store, keys(ns));

    assert_eq!(
        actual_twins(&store, &keys_),
        expected_twins(&posts, &["ranked-a", "ranked-b"])
    );
    assert_eq!(store.at(&keys_.synced), store.at(&keys_.ranking));
    assert_no_scratch_keys(&store, &keys_);
}

#[test]
fn ranked_sync_applies_the_ranking_diff() {
    let ns = "Test:RankedSync:Diff";
    let keys_ = keys(ns);
    let mut store = Store::default();
    let mut posts = posts_of("stays", 50, |i| 100 + i as i64);
    posts.extend(posts_of("leaves", 60, |i| 300 + i as i64));
    posts.extend(posts_of("enters", 1_200, |i| 500 + i as i64));
    add_posts(&mut store, &keys_, &posts);
    set_ranking(&mut store, &keys_, &["stays", "leaves"]);
    run_sync(&mut store, keys(ns));

    // A member only a full build would drop proves the diff path ran.
    store.put(&keys_.timeline.ranked, &[(1, "stray:X".to_string())]);
    set_ranking(&mut store, &keys_, &["stays", "enters"]);
    run_sync(&mut store, keys(ns));

    let (mut timeline, engagement) = expected_twins(&posts, &["stays", "enters"]);
    timeline.push(("stray:X".to_string(), 1));
    timeline.sort();
    assert_eq!(actual_twins(&store, &keys_), (timeline, engagement));
    assert_eq!(store.at(&keys_.synced), store.at(&keys_.ranking));
    assert_no_scratch_keys(&store, &keys_);
}

#[test]
fn ranked_sync_recovers_an_interrupted_sync() {
    let ns = "Test:RankedSync:Recover";
    let keys_ = keys(ns);
    let mut store = Store::default();
    let mut posts = posts_of("stays", 10, |i| 100 + i as i64);
    posts.extend(posts_of("leaves", 10, |i| 200 + i as i64));
    posts.extend(posts_of("enters", 10, |i| 300 + i as i64));
    add_posts(&mut store, &keys_, &posts);
    set_ranking(&mut store, &keys_, &["stays", "leaves"]);
    run_sync(&mut store, keys(ns));

    // Interrupted: half of the entering author's posts written, nothing
    // removed, the sync record still at the old ranking.
    set_ranking(&mut store, &keys_, &["stays", "enters"]);
    let (half, _) = expected_twins(&posts[20..25], &["enters"]);
    let half: Vec<(i64, String)> = half.into_iter().map(|(m, s)| (s, m)).collect();
    store.put(&keys_.timeline.ranked, &half);
    run_sync(&mut store, keys(ns));
    assert_eq!(
        actual_twins(&store, &keys_),
        expected_twins(&posts, &["stays", "enters"])
    );

    // No sync record: a full build, which drops anything unexpected.
    store.put(&keys_.timeline.ranked, &[(1, "stray:X".to_string())]);
    store.sets.remove(&keys_.synced);
    run_sync(&mut store, keys(ns));
    assert_eq!(
        actual_twins(&store, &keys_),
        expected_twins(&posts, &["stays", "enters"])
    );
    assert_no_scratch_keys(&store, &keys_);
}

#[test]
fn ranked_sync_drops_the_twins_without_a_ranking() {
    let ns = "Test:RankedSync:NoRanking";
    let keys_ = keys(ns);
    let mut store = Store::default();
    add_posts(
        &mut store,
        &keys_,
        &posts_of("ranked", 5, |i| 10 + i as i64),
    );
    set_ranking(&mut store, &keys_, &["ranked"]);
    run_sync(&mut store, keys(ns));
    assert!(store.there(&keys_.timeline.ranked));

    let globals = store.at(&keys_.timeline.global);
    store.sets.remove(&keys_.ranking);
    run_sync(&mut store, keys(ns));
    for key in [
        &keys_.timeline.ranked,
        &keys_.engagement.ranked,
        &keys_.synced,
    ] {
        assert!(!store.there(key), "{key:?} kept");
    }
    assert_eq!(store.at(&keys_.timeline.global), globals);
    assert_no_scratch_keys(&store, &keys_);
}

#[test]
fn ranked_sync_catch_up_copies_entries_from_its_start() {
    let ns = "Test:RankedSync:CatchUp";
    let keys_ = keys(ns);
    let mut store = Store::default();
    let mut posts = posts_of("ranked", 20, |i| 1_000 + i as i64);
    posts.extend(posts_of("unranked", 20, |i| 1_000 + i as i64));
    add_posts(&mut store, &keys_, &posts);
    set_ranking(&mut store, &keys_, &["ranked"]);
    let ranking = store.at(&keys_.ranking);
    store.sets.insert(keys_.target.clone(), ranking);

    let sync = RankedSync::catch_up_from(keys(ns), 1_010);
    let (over, _) = run_for(&mut store, sync, 0, 1_000);
    assert!(over);

    let late: Vec<SeedPost> = posts.iter().filter(|p| p.2 >= 1_010).cloned().collect();
    assert_eq!(
        actual_twins(&store, &keys_),
        expected_twins(&late, &["ranked"])
    );
}

#[test]
fn a_sync_that_breaks_off_anywhere_is_made_good() {
    let ns = "Break";
    let keys_ = keys(ns);
    let mut seed = Store::default();
    let mut posts = posts_of("stays", 4, |i| 100 + i as i64);
    posts.extend(posts_of("leaves", 3, |i| 200 + i as i64));
    posts.extend(posts_of("enters", 5, |i| 150 + i as i64));
    add_posts(&mut seed, &keys_, &posts);
    set_ranking(&mut seed, &keys_, &["stays", "leaves"]);
    run_sync(&mut seed, keys(ns));
    set_ranking(&mut seed, &keys_, &["stays", "enters"]);

    let mut without_twin = seed.clone();
    without_twin.sets.remove(&keys_.timeline.ranked);
    for start in [seed, without_twin] {
        let mut whole = start.clone();
        let steps = run_sync(&mut whole, keys(ns));
        for n in 0..=steps {
            let mut store = start.clone();
            let sync = RankedSync::sync_ranked_sets_with(keys(ns));
            run_for(&mut store, sync, 1_700_000_000_000, n);
            run_sync(&mut store, keys(ns));
            assert_eq!(
                actual_twins(&store, &keys_),
                expected_twins(&posts, &["stays", "enters"]),
                "broken off after {n} actions"
            );
            assert_eq!(store.at(&keys_.synced), store.at(&keys_.ranking));
        }
    }
}

#[test]
fn a_post_without_engagement_is_skipped_for_that_twin() {
    let ns = "Skip";
    let keys_ = keys(ns);
    let mut store = Store::default();
    let posts = posts_of("a", 2, |i| 10 + i as i64);
    add_posts(&mut store, &keys_, &posts);
    store
        .sets
        .get_mut(&keys_.engagement.global)
        .map(|set| set.remove("a:P000001"));
    set_ranking(&mut store, &keys_, &["a"]);
    run_sync(&mut store, keys(ns));
    let (timeline, engagement) = actual_twins(&store, &keys_);
    assert_eq!(timeline.len(), 2);
    assert_eq!(engagement, vec![("a:P000000".to_string(), 0)]);
}

#[test]
fn no_command_names_more_members_than_a_page() {
    let ns = "Short";
    let keys_ = keys(ns);
    let mut store = Store::default();
    add_posts(&mut store, &keys_, &posts_of("a", 2_300, |i| i as i64));
    set_ranking(&mut store, &keys_, &["a"]);
    let mut sync = RankedSync::sync_ranked_sets_with(keys(ns));
    while let Some(action) = sync.action() {
        let reply = match action {
            SyncAction::ReadClock => SyncReply::Clock(0),
            SyncAction::Store(command) => {
                let members = match &command {
                    SortedSetCommand::PageByRank { from, to, .. } => to + 1 - from,
                    SortedSetCommand::PageByScore { limit, .. } => limit.unwrap_or(usize::MAX),
                    SortedSetCommand::Scores { members, .. } => members.len(),
                    SortedSetCommand::Put { elements, .. } => elements.len(),
                    SortedSetCommand::Remove { members, .. } => members.len(),
                    _ => 0,
                };
                assert!(members <= RANKED_SYNC_CHUNK);
                SyncReply::Store(store.run(&command))
            }
        };
        sync = sync.step(reply);
    }
    assert_eq!(store.at(&keys_.timeline.ranked).len(), 2_300);
}

#[test]
fn a_reply_that_was_not_asked_for_ends_the_sync() {
    let sync = RankedSync::sync_ranked_sets_with(keys("Stuck"));
    let sync = sync.step(SyncReply::Clock(5));
    assert!(matches!(sync.phase(), SyncPhase::Stuck));
    assert!(sync.action().is_none());
}

#[test]
fn a_clock_too_early_to_catch_up_from_has_no_room() {
    let mut sync = RankedSync::sync_ranked_sets_with(keys("Clock"));
    for reply in [
        SortedSetReply::Exists(true),
        SortedSetReply::Done,
        SortedSetReply::Page(Some(vec![("author".to_string(), 1)])),
        SortedSetReply::Done,
        SortedSetReply::Exists(false),
    ] {
        sync = sync.step(SyncReply::Store(reply));
    }
    assert!(matches!(sync.action(), Some(SyncAction::ReadClock)));
    assert!(!sync.has_room(&SyncReply::Clock(i64::MIN)));
    let reply = SyncReply::Clock(100_000);
    assert!(sync.has_room(&reply));
    let sync = sync.step(reply);
    assert!(matches!(
        sync.phase(),
        SyncPhase::ClearStaged { catch_up: 40_000 }
    ));
}

/// Posts that are added while a full build walks the timeline shift no page.
#[test]
fn a_walk_amid_new_posts_misses_none() {
    let ns = "Amid";
    let keys_ = keys(ns);
    let mut store = Store::default();
    let mut posts = posts_of("ranked", 1_500, |i| 1_000 + (i / 7) as i64);
    posts.extend(posts_of("unranked", 700, |i| 1_000 + (i / 7) as i64));
    add_posts(&mut store, &keys_, &posts);
    set_ranking(&mut store, &keys_, &["ranked"]);
    let mut sync = RankedSync::sync_ranked_sets_with(keys(ns));
    let mut added: i64 = 0;
    while let Some(action) = sync.action() {
        let reply = match action {
            SyncAction::ReadClock => SyncReply::Clock(1_000_000),
            SyncAction::Store(command) => SyncReply::Store(store.run(&command)),
        };
        sync = sync.step(reply);
        if matches!(sync.phase(), SyncPhase::Swap { .. }) {
            break;
        }
        added += 1;
        let member = format!("ranked:new{added:04}");
        let timeline = store.sets.entry(keys_.timeline.global.clone()).or_default();
        timeline.insert(member, 500_000 + added);
    }
    let staged = store.at(&keys_.timeline.staged);
    for (author, id, score) in posts.iter().map(|p| (&p.0, &p.1, p.2)) {
        let member = format!("{author}:{id}");
        let expected = (author == "ranked").then_some(score);
        assert_eq!(staged.get(&member).copied(), expected, "{member}");
    }
}

/// Only the authors who entered or left need sets of their own that agree with
/// the global timeline.
#[test]
fn post_sets_of_authors_who_stayed_are_not_read() {
    let ns = "Stayed";
    let keys_ = keys(ns);
    let mut store = Store::default();
    let mut posts = posts_of("stays", 30, |i| 100 + i as i64);
    posts.extend(posts_of("leaves", 20, |i| 300 + i as i64));
    posts.extend(posts_of("enters", 40, |i| 500 + i as i64));
    add_posts(&mut store, &keys_, &posts);
    set_ranking(&mut store, &keys_, &["stays", "leaves"]);
    run_sync(&mut store, keys(ns));

    let mut own = keys_.author_posts.clone();
    own.push("stays".to_string());
    store.sets.insert(own, BTreeMap::from([("gone".to_string(), 7)]));
    store.put(&keys_.timeline.global, &[(900, "nocolon".to_string())]);
    set_ranking(&mut store, &keys_, &["stays", "enters"]);
    run_sync(&mut store, keys(ns));
    assert_eq!(
        actual_twins(&store, &keys_),
        expected_twins(&posts, &["stays", "enters"])
    );
}

/// The commands of a sync name the published ranking only to look for it and to
/// copy it.
#[test]
fn only_the_copy_names_the_ranking() {
    let ns = "Names";
    let keys_ = keys(ns);
    let mut store = Store::default();
    let mut posts = posts_of("stays", 5, |i| 100 + i as i64);
    posts.extend(posts_of("leaves", 5, |i| 300 + i as i64));
    posts.extend(posts_of("enters", 5, |i| 500 + i as i64));
    add_posts(&mut store, &keys_, &posts);
    for ranked in [["stays", "leaves"], ["stays", "enters"]] {
        set_ranking(&mut store, &keys_, &ranked);
        let mut named: usize = 0;
        let mut sync = RankedSync::sync_ranked_sets_with(keys(ns));
        while let Some(action) = sync.action() {
            let reply = match action {
                SyncAction::ReadClock => SyncReply::Clock(1_000_000),
                SyncAction::Store(command) => {
                    let touched: Vec<Key> = match &command {
                        SortedSetCommand::Exists { key }
                        | SortedSetCommand::PageByRank { key, .. }
                        | SortedSetCommand::PageByScore { key, .. }
                        | SortedSetCommand::Scores { key, .. }
                        | SortedSetCommand::Put { key, .. }
                        | SortedSetCommand::Remove { key, .. }
                        | SortedSetCommand::Step { key, .. } => vec![key.clone()],
                        SortedSetCommand::Unlink { keys } => keys.clone(),
                        SortedSetCommand::SwapIn {
                            staged,
                            live,
                            aside,
                        } => vec![staged.clone(), live.clone(), aside.clone()],
                    };
                    if touched.contains(&keys_.ranking) {
                        assert!(matches!(
                            sync.phase(),
                            SyncPhase::CheckRanking | SyncPhase::CopyRead { .. }
                        ));
                        named += 1;
                    }
                    SyncReply::Store(store.run(&command))
                }
            };
            sync = sync.step(reply);
        }
        assert_eq!(named, 2);
    }
}

/// A ranking that is published behind the copy waits for the next sync, on
/// either way a sync takes and behind whichever action.
#[test]
fn a_ranking_published_amid_a_sync_waits() {
    let ns = "Publish";
    let keys_ = keys(ns);
    let mut posts = posts_of("stays", 5, |i| 100 + i as i64);
    posts.extend(posts_of("leaves", 5, |i| 300 + i as i64));
    posts.extend(posts_of("enters", 5, |i| 500 + i as i64));
    let mut empty = Store::default();
    add_posts(&mut empty, &keys_, &posts);
    let mut synced = empty.clone();
    set_ranking(&mut synced, &keys_, &["stays", "leaves"]);
    run_sync(&mut synced, keys(ns));

    for first in [empty, synced] {
        let mut published: usize = 0;
        loop {
            let mut store = first.clone();
            set_ranking(&mut store, &keys_, &["stays", "enters"]);
            let mut sync = RankedSync::sync_ranked_sets_with(keys(ns));
            let mut behind_copy: usize = 0;
            let mut done = false;
            while let Some(action) = sync.action() {
                let copying = matches!(
                    sync.phase(),
                    SyncPhase::CheckRanking
                        | SyncPhase::ClearTarget
                        | SyncPhase::CopyRead { .. }
                        | SyncPhase::CopyWrite { .. }
                );
                if !copying {
                    if behind_copy == published {
                        set_ranking(&mut store, &keys_, &["leaves"]);
                        done = true;
                    }
                    behind_copy += 1;
                }
                let reply = match action {
                    SyncAction::ReadClock => SyncReply::Clock(1_000_000),
                    SyncAction::Store(command) => SyncReply::Store(store.run(&command)),
                };
                sync = sync.step(reply);
            }
            if !done {
                break;
            }
            assert_eq!(
                actual_twins(&store, &keys_),
                expected_twins(&posts, &["stays", "enters"])
            );
            let recorded: Vec<String> = store.at(&keys_.synced).into_keys().collect();
            assert_eq!(recorded, vec!["enters".to_string(), "stays".to_string()]);
            run_sync(&mut store, keys(ns));
            assert_eq!(
                actual_twins(&store, &keys_),
                expected_twins(&posts, &["leaves"])
            );
            published += 1;
        }
        assert!(published > 5);
    }
}

/// Posts that are indexed while a full build runs are in the live twins once it
/// is over, though the swaps drop what was mirrored before them, and though some
/// land behind the cursor of the walk.
#[test]
fn a_full_build_amid_new_posts_loses_none() {
    let ns = "BuildAmid";
    let keys_ = keys(ns);
    let now: i64 = 1_000_000;
    let mut store = Store::default();
    let mut posts = posts_of("ranked", 1_500, |i| 945_000 + (i / 7) as i64);
    posts.extend(posts_of("unranked", 700, |i| 945_000 + (i / 7) as i64));
    add_posts(&mut store, &keys_, &posts);
    set_ranking(&mut store, &keys_, &["ranked"]);
    let mut sync = RankedSync::sync_ranked_sets_with(keys(ns));
    let mut added: i64 = 0;
    let mut wanted: Vec<String> = Vec::new();
    while let Some(action) = sync.action() {
        let reply = match action {
            SyncAction::ReadClock => SyncReply::Clock(now),
            SyncAction::Store(command) => SyncReply::Store(store.run(&command)),
        };
        sync = sync.step(reply);
        let catching_up = matches!(sync.phase(), SyncPhase::WalkRead { walk } if walk.live);
        if catching_up && wanted.is_empty() {
            wanted = store
                .at(&keys_.timeline.global)
                .into_keys()
                .filter(|m| m.starts_with("ranked:"))
                .collect();
        }
        added += 1;
        for (name, score) in [("above", now + added), ("behind", 940_000 + added % 3)] {
            let member = format!("ranked:{name}{added:04}");
            store.put(&keys_.timeline.global, &[(score, member.clone())]);
            store.put(&keys_.engagement.global, &[(added, member)]);
        }
    }
    assert!(wanted.len() > 1_500);
    let timeline = store.at(&keys_.timeline.ranked);
    let engagement = store.at(&keys_.engagement.ranked);
    for member in &wanted {
        assert_eq!(
            timeline.get(member),
            store.at(&keys_.timeline.global).get(member)
        );
        assert!(engagement.contains_key(member), "{member}");
    }
}
