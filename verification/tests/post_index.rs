//! Writes to the sorted sets of posts, against a store in memory.
use nexus::post_index::{IndexWrite, WriteAction, WriteEvent, WriteStage};
use nexus::post_stream::{Bookmark, PostCounts, PostDetails, PostStream};
use nexus::sorted_set::{ScoreAction, SortedSetCommand, SortedSetReply};
use nexus::types::{PostKind, StreamSorting};
use std::collections::BTreeMap;

type Sets = BTreeMap<Vec<String>, BTreeMap<String, i64>>;

fn texts(list: &[&str]) -> Vec<String> {
    list.iter().map(|s| s.to_string()).collect()
}

fn send(sets: &mut Sets, command: &SortedSetCommand) -> SortedSetReply {
    match command {
        SortedSetCommand::Put { key, elements } => {
            let set = sets.entry(key.clone()).or_default();
            for (score, member) in elements {
                set.insert(member.clone(), *score);
            }
            SortedSetReply::Done
        }
        SortedSetCommand::Remove { key, members } => {
            let set = sets.entry(key.clone()).or_default();
            for member in members {
                set.remove(member);
            }
            SortedSetReply::Done
        }
        SortedSetCommand::Step {
            key,
            member,
            action,
        } => {
            let set = sets.entry(key.clone()).or_default();
            let score = set.entry(member.clone()).or_insert(0);
            match action {
                ScoreAction::Increment(by) => *score += by,
                ScoreAction::Decrement(by) => *score -= by,
            }
            SortedSetReply::Score(*score)
        }
        other => panic!("unexpected command {other:?}"),
    }
}

fn run(sets: &mut Sets, mut write: IndexWrite, ranked: &[&str]) {
    while let Some(action) = write.action() {
        let event = match action {
            WriteAction::Store(command) => WriteEvent::Store(send(sets, &command)),
            WriteAction::IsRanked { user_id } => {
                WriteEvent::Ranked(ranked.contains(&user_id.as_str()))
            }
        };
        write = write.step(event);
    }
    assert!(matches!(write.stage, WriteStage::Done));
}

fn score(sets: &Sets, key: &[&str], member: &str) -> Option<i64> {
    sets.get(&texts(key))
        .and_then(|set| set.get(member))
        .copied()
}

const TIMELINE: &[&str] = &["Posts", "Global", "Timeline"];
const TIMELINE_RANKED: &[&str] = &["Posts", "Global", "Timeline", "Ranked"];
const ENGAGEMENT: &[&str] = &["Posts", "Global", "TotalEngagement"];
const ENGAGEMENT_RANKED: &[&str] = &["Posts", "Global", "TotalEngagement", "Ranked"];

/// A root post by a ranked author enters both ranked sets at its global score
/// and leaves them on delete; one by an unranked author never enters them.
#[test]
fn ranked_sets_mirror_writes_by_ranked_authors() {
    const UNRANKED_AUTHOR: &str = "mirror-test-unranked-author";
    const POST_ID: &str = "MIRRORTEST001";
    let ranked = ["ranked-author"];
    let mut sets = Sets::new();

    for (author, mirrored) in [("ranked-author", true), (UNRANKED_AUTHOR, false)] {
        let member = format!("{author}:{POST_ID}");
        let expected = |n: i64| if mirrored { Some(n) } else { None };

        let write = PostStream::mirror_ranked(
            StreamSorting::Timeline,
            author,
            POST_ID,
            1_650_000_000_000,
        );
        run(&mut sets, write, &ranked);
        assert_eq!(
            score(&sets, TIMELINE_RANKED, &member),
            expected(1_650_000_000_000),
            "timeline mirror for {author}"
        );

        let counts = PostCounts {
            tags: 2,
            unique_tags: 0,
            replies: 0,
            reposts: 0,
        };
        let write = PostStream::add_to_engagement_sorted_set(&counts, author, POST_ID);
        run(&mut sets, write, &ranked);
        assert_eq!(
            score(&sets, ENGAGEMENT_RANKED, &member),
            expected(2),
            "engagement mirror for {author}"
        );
        let write = PostStream::update_index_score(author, POST_ID, ScoreAction::Increment(1));
        run(&mut sets, write, &ranked);
        assert_eq!(
            score(&sets, ENGAGEMENT_RANKED, &member),
            expected(3),
            "engagement mirror follows the global score for {author}"
        );

        let write = PostStream::remove_from_timeline_sorted_set(author, POST_ID);
        run(&mut sets, write, &ranked);
        let write = PostStream::delete_from_engagement_sorted_set(author, POST_ID);
        run(&mut sets, write, &ranked);
        for key in [TIMELINE_RANKED, ENGAGEMENT_RANKED] {
            assert_eq!(score(&sets, key, &member), None, "delete clears the twin");
        }
        for key in [TIMELINE, ENGAGEMENT] {
            assert_eq!(
                score(&sets, key, &member),
                None,
                "delete clears the global set"
            );
        }
    }
}

fn details() -> PostDetails {
    PostDetails {
        id: "p".to_string(),
        author: "bob".to_string(),
        indexed_at: 77,
        kind: PostKind::Short,
        content: "hi".to_string(),
    }
}

#[test]
fn a_post_enters_the_timeline_at_its_time() {
    let mut sets = Sets::new();
    run(
        &mut sets,
        PostStream::add_to_timeline_sorted_set(&details()),
        &["bob"],
    );
    assert_eq!(score(&sets, TIMELINE, "bob:p"), Some(77));
    assert_eq!(score(&sets, TIMELINE_RANKED, "bob:p"), Some(77));
}

#[test]
fn engagement_counts_tags_replies_and_reposts() {
    let counts = PostCounts {
        tags: 2,
        unique_tags: 100,
        replies: 3,
        reposts: 5,
    };
    let mut sets = Sets::new();
    run(
        &mut sets,
        PostStream::add_to_engagement_sorted_set(&counts, "bob", "p"),
        &[],
    );
    assert_eq!(score(&sets, ENGAGEMENT, "bob:p"), Some(10));
    run(
        &mut sets,
        PostStream::update_index_score("bob", "p", ScoreAction::Decrement(4)),
        &[],
    );
    assert_eq!(score(&sets, ENGAGEMENT, "bob:p"), Some(6));
    assert_eq!(score(&sets, ENGAGEMENT_RANKED, "bob:p"), None);
}

#[test]
fn sets_without_a_twin_are_written_and_cleared() {
    let mut sets = Sets::new();
    let parent = ("alice", "root");
    run(
        &mut sets,
        PostStream::add_to_per_user_sorted_set(&details()),
        &[],
    );
    run(
        &mut sets,
        PostStream::add_to_replies_per_user_sorted_set(&details()),
        &[],
    );
    run(
        &mut sets,
        PostStream::add_to_post_reply_sorted_set(parent, "bob", "p", 78),
        &[],
    );
    let bookmark = Bookmark { indexed_at: 79 };
    run(
        &mut sets,
        PostStream::add_to_bookmarks_sorted_set(&bookmark, "eve", "p", "bob"),
        &[],
    );
    let places: [(&[&str], &str, i64); 4] = [
        (&["Posts", "AuthorParents", "bob"], "p", 77),
        (&["Posts", "AuthorReplies", "bob"], "p", 77),
        (&["Posts", "PostReplies", "alice", "root"], "bob:p", 78),
        (&["Bookmarks", "User", "eve"], "bob:p", 79),
    ];
    for (key, member, at) in places {
        assert_eq!(score(&sets, key, member), Some(at), "{key:?}");
    }
    run(
        &mut sets,
        PostStream::remove_from_per_user_sorted_set("bob", "p"),
        &[],
    );
    run(
        &mut sets,
        PostStream::remove_from_replies_per_user_sorted_set("bob", "p"),
        &[],
    );
    run(
        &mut sets,
        PostStream::remove_from_post_reply_sorted_set(parent, "bob", "p"),
        &[],
    );
    run(
        &mut sets,
        PostStream::remove_from_bookmarks_sorted_set("eve", "p", "bob"),
        &[],
    );
    for (key, member, _) in places {
        assert_eq!(score(&sets, key, member), None, "{key:?}");
    }
}

#[test]
fn a_write_told_something_else_is_stuck() {
    let write = PostStream::add_to_per_user_sorted_set(&details());
    let write = write.step(WriteEvent::Ranked(true));
    assert!(matches!(write.stage, WriteStage::Stuck));
    assert!(write.action().is_none());
}
