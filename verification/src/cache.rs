//! Bringing the cache into its bootstrapped state.
use crate::migrations;
use crate::migrations::{index_was_there, to_create_args};
use crate::text;
use vstd::prelude::*;

verus! {

/// The schema of the full-text index that every environment must have.
pub open spec fn live_schema() -> Seq<Seq<char>> {
    seq![
        "NOOFFSETS"@,
        "NOHL"@,
        "SCHEMA"@,
        "$.content"@,
        "AS"@,
        "content"@,
        "TEXT"@,
        "$.author"@,
        "AS"@,
        "author"@,
        "TAG"@,
        "CASESENSITIVE"@,
        "$.kind"@,
        "AS"@,
        "kind"@,
        "TAG"@,
        "CASESENSITIVE"@,
    ]
}

/// The `FT.CREATE` arguments for the live schema of the full-text index, as they
/// follow `PREFIX 1 <prefix>`.
pub fn post_content_index_schema_args() -> (args: Vec<&'static str>)
    ensures
        args@.map_values(|arg: &'static str| arg@) == live_schema(),
{
    let args = vec![
        "NOOFFSETS",
        "NOHL",
        "SCHEMA",
        "$.content",
        "AS",
        "content",
        "TEXT",
        "$.author",
        "AS",
        "author",
        "TAG",
        "CASESENSITIVE",
        "$.kind",
        "AS",
        "kind",
        "TAG",
        "CASESENSITIVE",
    ];
    assert(args@.map_values(|arg: &'static str| arg@) =~= live_schema());
    args
}

/// The live schema is the one that the newest migration of the index made.
pub proof fn law_the_live_schema_is_the_newest_frozen_one()
    ensures
        live_schema() == migrations::schema_v2(),
{
    assert(live_schema() =~= migrations::schema_v2());
}

/// What setting up or clearing the cache waits for.
#[derive(Debug)]
pub enum CacheSetup {
    /// Every key dropped.
    Flush,
    /// The full-text index created.
    CreateIndex,
    /// Nothing: the cache is set up.
    Done,
    /// Nothing: a command failed with this message.
    Failed(String),
}

/// A command to the cache.
#[derive(Debug)]
pub enum CacheCommand {
    FlushDb,
    /// `FT.CREATE` with these arguments.
    CreateIndex(Vec<String>),
}

/// Sets up the search indexes that must exist in every environment. It may run
/// again at any time: a flush takes the indexes along with the keys.
pub fn setup_cache() -> (setup: CacheSetup)
    ensures
        setup is CreateIndex,
{
    CacheSetup::CreateIndex
}

/// Drops every key and returns to a bootstrapped-empty state: the search schema
/// is applied again, so full-text search keeps working.
pub fn clear_redis() -> (setup: CacheSetup)
    ensures
        setup is Flush,
{
    CacheSetup::Flush
}

impl CacheSetup {
    /// The setup behind a command that succeeded, or failed with a message.
    pub open spec fn behind(self, failure: Option<String>) -> CacheSetup {
        match self {
            CacheSetup::Flush => match failure {
                None => CacheSetup::CreateIndex,
                Some(message) => CacheSetup::Failed(message),
            },
            CacheSetup::CreateIndex => match failure {
                None => CacheSetup::Done,
                Some(message) => if text::holds_part(message@, "already exists"@) {
                    CacheSetup::Done
                } else {
                    CacheSetup::Failed(message)
                },
            },
            _ => self,
        }
    }
}

/// Clearing the cache creates the index only once the flush has succeeded, and is
/// done only once the index is there: created, or there already. Any other
/// failure ends it with that failure's message, and what is over stays as it is.
pub proof fn law_a_setup_is_done_once_the_index_is_there(
    setup: CacheSetup,
    failure: Option<String>,
)
    ensures
        setup is Flush && failure is None ==> setup.behind(failure) is CreateIndex,
        setup is Flush ==> (setup.behind(failure) is CreateIndex <==> failure is None),
        setup is CreateIndex && failure is None ==> setup.behind(failure) is Done,
        setup is Flush ==> !(setup.behind(failure) is Done),
        setup is CreateIndex ==> (setup.behind(failure) is Done <==> (failure is None
            || text::holds_part((failure->0)@, "already exists"@))),
        setup is Flush || setup is CreateIndex ==> (setup.behind(failure) matches CacheSetup::Failed(
            message,
        ) ==> failure == Some(message)),
        setup is Flush && failure is Some ==> setup.behind(failure) is Failed,
        setup is Done || setup is Failed ==> setup.behind(failure) == setup,
{
}

impl CacheSetup {
    /// The next command, for documents whose keys begin with `prefix` and a colon.
    pub fn command(&self, prefix: &str) -> (command: Option<CacheCommand>)
        ensures
            match self {
                CacheSetup::Flush => command matches Some(CacheCommand::FlushDb),
                CacheSetup::CreateIndex => command matches Some(CacheCommand::CreateIndex(args))
                    && args.deep_view() == migrations::create_args(prefix@, live_schema()),
                _ => command is None,
            },
    {
        match self {
            CacheSetup::Flush => Some(CacheCommand::FlushDb),
            CacheSetup::CreateIndex => Some(
                CacheCommand::CreateIndex(to_create_args(prefix, post_content_index_schema_args())),
            ),
            _ => None,
        }
    }

    /// The setup once a command has succeeded, or failed with a message. An
    /// index that is there already is left as it is.
    pub fn step(self, failure: Option<String>) -> (next: CacheSetup)
        ensures
            next == self.behind(failure),
    {
        match self {
            CacheSetup::Flush => match failure {
                None => CacheSetup::CreateIndex,
                Some(message) => CacheSetup::Failed(message),
            },
            CacheSetup::CreateIndex => match failure {
                None => CacheSetup::Done,
                Some(message) => if index_was_there(message.as_str()) {
                    CacheSetup::Done
                } else {
                    CacheSetup::Failed(message)
                },
            },
            other => other,
        }
    }
}

/// What a cache holds: its keys, and the schema of each of its search indexes.
pub struct CacheModel {
    pub keys: Set<Seq<char>>,
    pub indexes: Map<Seq<char>, Seq<Seq<char>>>,
}

impl CacheModel {
    /// The cache once a command of the setup in this stage has run: a flush takes
    /// the indexes along, and an index that is there is not created anew.
    pub open spec fn after(self, setup: CacheSetup, prefix: Seq<char>) -> CacheModel {
        match setup {
            CacheSetup::Flush => CacheModel { keys: Set::empty(), indexes: Map::empty() },
            CacheSetup::CreateIndex => {
                let args = migrations::create_args(prefix, live_schema());
                if self.indexes.contains_key(args[0]) {
                    self
                } else {
                    CacheModel { indexes: self.indexes.insert(args[0], args), ..self }
                }
            },
            _ => self,
        }
    }
}

/// Clearing the cache leaves no key, and the full-text index in place.
pub proof fn law_clearing_leaves_the_search_index(cache: CacheModel, prefix: Seq<char>)
    ensures
        ({
            let end = cache.after(CacheSetup::Flush, prefix).after(CacheSetup::CreateIndex, prefix);
            &&& end.keys == Set::<Seq<char>>::empty()
            &&& end.indexes.contains_key("postContentIdx"@)
            &&& end.indexes["postContentIdx"@] == migrations::create_args(prefix, live_schema())
        }),
{
    let args = migrations::create_args(prefix, live_schema());
    assert(args[0] == "postContentIdx"@);
}

/// Setting up the cache again changes nothing.
pub proof fn law_setting_up_again_changes_nothing(cache: CacheModel, prefix: Seq<char>)
    ensures
        ({
            let once = cache.after(CacheSetup::CreateIndex, prefix);
            once.after(CacheSetup::CreateIndex, prefix) == once
        }),
{
}

} // verus!
