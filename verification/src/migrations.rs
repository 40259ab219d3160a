//! Migrations of the databases: which there are, in which order they run, and
//! what they decide.
use crate::text;
use crate::text::{contains_text, same_text, strip_prefix, strip_suffix};
use vstd::prelude::*;

verus! {

/// A migration that is run when it is registered and has not run yet.
#[derive(Debug, Clone, Copy, PartialEq, Eq, Structural)]
pub enum RegisteredMigration {
    UsersByPkReindex,
    RemoveMuted,
    ResourceNodeSetup,
    PostContentIndexSetup,
    PostContentIndexAuthorSetup,
    UsersByTagsIndexBackfill,
}

impl RegisteredMigration {
    /// The name under which a migration is recorded: what it does, and the time
    /// it was written at.
    pub open spec fn name(self) -> Seq<char> {
        match self {
            RegisteredMigration::UsersByPkReindex => "UsersByPkReindex1751635096"@,
            RegisteredMigration::RemoveMuted => "RemoveMuted1771718400"@,
            RegisteredMigration::ResourceNodeSetup => "ResourceNodeSetup1774000000"@,
            RegisteredMigration::PostContentIndexSetup => "PostContentIndexSetup1780444800"@,
            RegisteredMigration::PostContentIndexAuthorSetup =>
                "PostContentIndexAuthorSetup1780531200"@,
            RegisteredMigration::UsersByTagsIndexBackfill => "UsersByTagsIndexBackfill1786924800"@,
        }
    }

    /// The time a migration was written at, in seconds.
    pub open spec fn written_at(self) -> nat {
        match self {
            RegisteredMigration::UsersByPkReindex => 1751635096,
            RegisteredMigration::RemoveMuted => 1771718400,
            RegisteredMigration::ResourceNodeSetup => 1774000000,
            RegisteredMigration::PostContentIndexSetup => 1780444800,
            RegisteredMigration::PostContentIndexAuthorSetup => 1780531200,
            RegisteredMigration::UsersByTagsIndexBackfill => 1786924800,
        }
    }

    pub fn id(&self) -> (id: &'static str)
        ensures
            id@ == self.name(),
    {
        match self {
            RegisteredMigration::UsersByPkReindex => "UsersByPkReindex1751635096",
            RegisteredMigration::RemoveMuted => "RemoveMuted1771718400",
            RegisteredMigration::ResourceNodeSetup => "ResourceNodeSetup1774000000",
            RegisteredMigration::PostContentIndexSetup => "PostContentIndexSetup1780444800",
            RegisteredMigration::PostContentIndexAuthorSetup =>
                "PostContentIndexAuthorSetup1780531200",
            RegisteredMigration::UsersByTagsIndexBackfill => "UsersByTagsIndexBackfill1786924800",
        }
    }
}

/// The migrations in the order they run.
pub open spec fn migration_order() -> Seq<RegisteredMigration> {
    seq![
        RegisteredMigration::UsersByPkReindex,
        RegisteredMigration::RemoveMuted,
        RegisteredMigration::ResourceNodeSetup,
        RegisteredMigration::PostContentIndexSetup,
        RegisteredMigration::PostContentIndexAuthorSetup,
        RegisteredMigration::UsersByTagsIndexBackfill,
    ]
}

/// All migrations, oldest first.
pub fn build_migrations() -> (migrations: Vec<RegisteredMigration>)
    ensures
        migrations@ == migration_order(),
{
    let migrations = vec![
        RegisteredMigration::UsersByPkReindex,
        RegisteredMigration::RemoveMuted,
        RegisteredMigration::ResourceNodeSetup,
        RegisteredMigration::PostContentIndexSetup,
        RegisteredMigration::PostContentIndexAuthorSetup,
        RegisteredMigration::UsersByTagsIndexBackfill,
    ];
    assert(migrations@ =~= migration_order());
    migrations
}

/// The migrations that a database is brought up to date with.
#[derive(Debug)]
pub struct MigrationManager {
    pub migrations: Vec<RegisteredMigration>,
}

impl Default for MigrationManager {
    fn default() -> (manager: MigrationManager)
        ensures
            manager.migrations@ == Seq::<RegisteredMigration>::empty(),
    {
        MigrationManager { migrations: Vec::new() }
    }
}

impl MigrationManager {
    /// Adds a migration behind those already registered.
    pub fn register(&mut self, migration: RegisteredMigration)
        ensures
            final(self).migrations@ == old(self).migrations@.push(migration),
    {
        self.migrations.push(migration);
    }
}

/// Registers all migrations, oldest first.
pub fn import_migrations(migration_manager: &mut MigrationManager)
    ensures
        final(migration_manager).migrations@ == old(migration_manager).migrations@
            + migration_order(),
{
    let migrations = build_migrations();
    let ghost before = migration_manager.migrations@;
    let mut i: usize = 0;
    while i < migrations.len()
        invariant
            i <= migrations@.len(),
            migrations@ == migration_order(),
            migration_manager.migrations@ == before + migration_order().take(i as int),
        decreases migrations@.len() - i,
    {
        migration_manager.register(migrations[i]);
        i = i + 1;
        assert(before + migration_order().take(i as int) =~= (before + migration_order().take(
            i - 1,
        )).push(migration_order()[i - 1]));
    }
    assert(migration_order().take(i as int) =~= migration_order());
}

/// Migrations are registered in the order they were written: a newer index
/// migration never runs before an older one that would overwrite it.
pub proof fn law_migrations_run_in_chronological_order(i: int, j: int)
    requires
        0 <= i < j < migration_order().len(),
    ensures
        migration_order()[i].written_at() < migration_order()[j].written_at(),
{
}

/// The keys that a scan for retired sets looks at.
pub fn scan_pattern() -> (pattern: &'static str)
    ensures
        pattern@ == "Sorted:Resources:*"@,
{
    "Sorted:Resources:*"
}

/// How many keys a scan looks at in one go.
pub const SCAN_COUNT: usize = 1000;

/// Retires the eight sorted sets in which resource streams used to be kept:
///
/// ```text
/// Sorted:Resources:Global:Timeline
/// Sorted:Resources:Global:TaggersCount
/// Sorted:Resources:App:{app}:Timeline
/// Sorted:Resources:App:{app}:TaggersCount
/// Sorted:Resources:Tag:{label}:Timeline
/// Sorted:Resources:Tag:{label}:TaggersCount
/// Sorted:Resources:App:{app}:Tag:{label}:Timeline
/// Sorted:Resources:App:{app}:Tag:{label}:TaggersCount
/// ```
///
/// `Sorted:Resources:Tag:{resource_id}` shares the prefix and is kept.
#[derive(Debug, Clone, Copy)]
pub struct ResourceStreamKeysRetire1790208000;

impl ResourceStreamKeysRetire1790208000 {
    pub fn id(&self) -> (id: &'static str)
        ensures
            id@ == "ResourceStreamKeysRetire1790208000"@,
    {
        "ResourceStreamKeysRetire1790208000"
    }

    pub fn is_multi_staged(&self) -> (yes: bool)
        ensures
            !yes,
    {
        false
    }

    /// Of the keys that a scan found, those to delete.
    pub fn backfill(&self, keys: Vec<String>) -> (retired: Vec<String>)
        ensures
            retired.deep_view() == retired_in(keys.deep_view(), keys.deep_view().len()),
    {
        let mut retired: Vec<String> = Vec::new();
        assert(retired.deep_view() =~= Seq::empty());
        for key in it: keys
            invariant
                it.seq() == keys@,
                retired.deep_view() == retired_in(keys.deep_view(), it.index() as nat),
        {
            let ghost before = retired.deep_view();
            let ghost i = it.index() as int;
            assert(keys.deep_view()[i] == key@);
            if is_retired_resource_stream_key(key.as_str()) {
                retired.push(key);
                assert(retired.deep_view() =~= before.push(key@));
            }
        }
        retired
    }
}

/// A key under which one app's, one label's or both's sets were kept.
pub open spec fn scoped_key(scope: Seq<char>, middle: Seq<char>, sort: Seq<char>) -> Seq<char> {
    "Sorted:Resources:"@ + (scope + (middle + sort))
}

/// Whether a key is one of the retired sets. The fixed parts decide, not the
/// app or the label in between, which may hold colons.
pub open spec fn retired_key(key: Seq<char>) -> bool {
    ||| key == "Sorted:Resources:"@ + "Global:Timeline"@
    ||| key == "Sorted:Resources:"@ + "Global:TaggersCount"@
    ||| exists|middle: Seq<char>|
        middle.len() > 0 && (key == #[trigger] scoped_key("App:"@, middle, ":Timeline"@))
    ||| exists|middle: Seq<char>|
        middle.len() > 0 && (key == #[trigger] scoped_key("App:"@, middle, ":TaggersCount"@))
    ||| exists|middle: Seq<char>|
        middle.len() > 0 && (key == #[trigger] scoped_key("Tag:"@, middle, ":Timeline"@))
    ||| exists|middle: Seq<char>|
        middle.len() > 0 && (key == #[trigger] scoped_key("Tag:"@, middle, ":TaggersCount"@))
}

/// Of the first `n` keys, those of retired sets.
pub open spec fn retired_in(keys: Seq<Seq<char>>, n: nat) -> Seq<Seq<char>>
    decreases n,
{
    if n == 0 {
        Seq::empty()
    } else {
        let before = retired_in(keys, (n - 1) as nat);
        if retired_key(keys[n - 1]) {
            before.push(keys[n - 1])
        } else {
            before
        }
    }
}

/// Whether `rest` is `scope`, something, and `sort`.
spec fn fits(rest: Seq<char>, scope: Seq<char>, sort: Seq<char>) -> bool {
    exists|middle: Seq<char>| middle.len() > 0 && rest == #[trigger] (scope + (middle + sort))
}

/// Whether `rest` begins with `scope` and ends with `sort`, with something in between.
fn has_shape(rest: &str, scope: &str, sort: &str) -> (yes: bool)
    ensures
        yes == fits(rest@, scope@, sort@),
{
    match strip_prefix(rest, scope) {
        Some(scoped) => match strip_suffix(scoped, sort) {
            Some(middle) => {
                let some = middle.unicode_len() > 0;
                proof {
                    assert(rest@ == scope@ + (middle@ + sort@));
                    if fits(rest@, scope@, sort@) {
                        let other = choose|other: Seq<char>|
                            other.len() > 0 && rest@ == #[trigger] (scope@ + (other + sort@));
                        assert(rest@.len() == scope@.len() + other.len() + sort@.len());
                    }
                }
                some
            },
            None => {
                proof {
                    if fits(rest@, scope@, sort@) {
                        let other = choose|other: Seq<char>|
                            other.len() > 0 && rest@ == #[trigger] (scope@ + (other + sort@));
                        assert(scoped@ =~= other + sort@);
                        assert(scoped@.skip(scoped@.len() - sort@.len()) =~= sort@);
                        assert(text::ends_with(scoped@, sort@));
                    }
                }
                false
            },
        },
        None => {
            proof {
                if fits(rest@, scope@, sort@) {
                    let other = choose|other: Seq<char>|
                        other.len() > 0 && rest@ == #[trigger] (scope@ + (other + sort@));
                    assert(rest@.take(scope@.len() as int) =~= scope@);
                    assert(text::begins_with(rest@, scope@));
                }
            }
            false
        },
    }
}

/// A key behind the common prefix is scoped as what is left of it is.
proof fn lemma_scoped(key: Seq<char>, rest: Seq<char>, scope: Seq<char>, sort: Seq<char>)
    requires
        key == "Sorted:Resources:"@ + rest,
    ensures
        fits(rest, scope, sort) == (exists|middle: Seq<char>|
            middle.len() > 0 && (key == #[trigger] scoped_key(scope, middle, sort))),
{
    let prefix = "Sorted:Resources:"@;
    if fits(rest, scope, sort) {
        let middle = choose|middle: Seq<char>|
            middle.len() > 0 && rest == #[trigger] (scope + (middle + sort));
        assert(key == scoped_key(scope, middle, sort));
    }
    if exists|middle: Seq<char>|
        middle.len() > 0 && (key == #[trigger] scoped_key(scope, middle, sort)) {
        let middle = choose|middle: Seq<char>|
            middle.len() > 0 && (key == #[trigger] scoped_key(scope, middle, sort));
        assert(rest =~= key.skip(prefix.len() as int));
        assert((prefix + (scope + (middle + sort))).skip(prefix.len() as int) =~= scope + (middle
            + sort));
    }
}

/// True for exactly the retired sets.
pub fn is_retired_resource_stream_key(key: &str) -> (retired: bool)
    ensures
        retired == retired_key(key@),
{
    let rest = match strip_prefix(key, "Sorted:Resources:") {
        Some(rest) => rest,
        None => {
            proof {
                let prefix = "Sorted:Resources:"@;
                if retired_key(key@) {
                    assert(exists|tail: Seq<char>| key@ == prefix + tail);
                    let tail = choose|tail: Seq<char>| key@ == prefix + tail;
                    assert(key@.take(prefix.len() as int) =~= prefix);
                    assert(text::begins_with(key@, prefix));
                }
            }
            return false;
        },
    };
    proof {
        let prefix = "Sorted:Resources:"@;
        lemma_scoped(key@, rest@, "App:"@, ":Timeline"@);
        lemma_scoped(key@, rest@, "App:"@, ":TaggersCount"@);
        lemma_scoped(key@, rest@, "Tag:"@, ":Timeline"@);
        lemma_scoped(key@, rest@, "Tag:"@, ":TaggersCount"@);
        assert((prefix + "Global:Timeline"@).skip(prefix.len() as int) =~= "Global:Timeline"@);
        assert((prefix + "Global:TaggersCount"@).skip(prefix.len() as int)
            =~= "Global:TaggersCount"@);
    }
    same_text(rest, "Global:Timeline") || same_text(rest, "Global:TaggersCount") || has_shape(
        rest,
        "App:",
        ":Timeline",
    ) || has_shape(rest, "App:", ":TaggersCount") || has_shape(rest, "Tag:", ":Timeline")
        || has_shape(rest, "Tag:", ":TaggersCount")
}

/// Of the first `n` keys, exactly those of retired sets are picked.
proof fn lemma_retired_in(keys: Seq<Seq<char>>, n: nat, key: Seq<char>)
    requires
        n <= keys.len(),
    ensures
        retired_in(keys, n).contains(key) == (keys.take(n as int).contains(key) && retired_key(
            key,
        )),
    decreases n,
{
    if n > 0 {
        lemma_retired_in(keys, (n - 1) as nat, key);
        let before = retired_in(keys, (n - 1) as nat);
        let all = retired_in(keys, n);
        let last = keys[n - 1];
        assert(keys.take(n as int) =~= keys.take(n - 1).push(last));
        if keys.take(n - 1).contains(key) {
            let i = keys.take(n - 1).index_of(key);
            assert(keys.take(n as int)[i] == key);
        }
        if keys.take(n as int).contains(key) && key != last {
            let i = keys.take(n as int).index_of(key);
            assert(keys.take(n - 1)[i] == key);
        }
        if key == last {
            assert(keys.take(n as int)[n - 1] == key);
        }
        if retired_key(last) {
            assert(all == before.push(last));
            if key == last {
                assert(all[before.len() as int] == key);
            }
            if before.contains(key) {
                let i = before.index_of(key);
                assert(all[i] == key);
            }
            if all.contains(key) && key != last {
                let i = all.index_of(key);
                assert(before[i] == key);
            }
        }
    }
}

/// A retirement deletes every retired set that the scan found and no other key,
/// so a second one finds nothing to delete.
pub proof fn law_exactly_the_retired_keys_are_deleted(keys: Seq<Seq<char>>, key: Seq<char>)
    requires
        keys.contains(key),
    ensures
        retired_in(keys, keys.len()).contains(key) == retired_key(key),
{
    lemma_retired_in(keys, keys.len(), key);
    assert(keys.take(keys.len() as int) =~= keys);
}

/// The retired sets of an app and a label, whatever their names, are retired.
pub proof fn law_app_and_label_keys_are_retired(app: Seq<char>, label: Seq<char>)
    requires
        app.len() > 0,
        label.len() > 0,
    ensures
        retired_key(scoped_key("App:"@, app, ":Timeline"@)),
        retired_key(scoped_key("App:"@, app, ":TaggersCount"@)),
        retired_key(scoped_key("Tag:"@, label, ":Timeline"@)),
        retired_key(scoped_key("Tag:"@, label, ":TaggersCount"@)),
        retired_key(scoped_key("App:"@, app + ":Tag:"@ + label, ":Timeline"@)),
        retired_key(scoped_key("App:"@, app + ":Tag:"@ + label, ":TaggersCount"@)),
{
}

/// A key that ends with neither sort is kept: such are the label scores of a
/// resource, whose keys end with the resource's id.
pub proof fn law_keys_of_another_end_are_kept(key: Seq<char>)
    requires
        !text::ends_with(key, ":Timeline"@),
        !text::ends_with(key, ":TaggersCount"@),
    ensures
        !retired_key(key),
{
    let t = ":Timeline"@;
    let c = ":TaggersCount"@;
    reveal_strlit(":Timeline");
    reveal_strlit("Global:Timeline");
    reveal_strlit(":TaggersCount");
    reveal_strlit("Global:TaggersCount");
    let prefix = "Sorted:Resources:"@;
    if retired_key(key) {
        if key == prefix + "Global:Timeline"@ {
            assert(key.skip(key.len() - t.len()) =~= t);
        } else if key == prefix + "Global:TaggersCount"@ {
            assert(key.skip(key.len() - c.len()) =~= c);
        } else if exists|middle: Seq<char>|
            middle.len() > 0 && (key == #[trigger] scoped_key("App:"@, middle, t)) {
            let middle = choose|middle: Seq<char>|
                middle.len() > 0 && (key == #[trigger] scoped_key("App:"@, middle, t));
            assert(key.skip(key.len() - t.len()) =~= t);
        } else if exists|middle: Seq<char>|
            middle.len() > 0 && (key == #[trigger] scoped_key("Tag:"@, middle, t)) {
            let middle = choose|middle: Seq<char>|
                middle.len() > 0 && (key == #[trigger] scoped_key("Tag:"@, middle, t));
            assert(key.skip(key.len() - t.len()) =~= t);
        } else if exists|middle: Seq<char>|
            middle.len() > 0 && (key == #[trigger] scoped_key("App:"@, middle, c)) {
            let middle = choose|middle: Seq<char>|
                middle.len() > 0 && (key == #[trigger] scoped_key("App:"@, middle, c));
            assert(key.skip(key.len() - c.len()) =~= c);
        } else {
            let middle = choose|middle: Seq<char>|
                middle.len() > 0 && (key == #[trigger] scoped_key("Tag:"@, middle, c));
            assert(key.skip(key.len() - c.len()) =~= c);
        }
    }
}

/// The name of the full-text index over post content.
pub fn post_content_index() -> (name: &'static str)
    ensures
        name@ == "postContentIdx"@,
{
    "postContentIdx"
}

/// The schema of the full-text index as this migration made it: the content as
/// text, the author and the kind as case-sensitive tags.
pub open spec fn schema_v2() -> Seq<Seq<char>> {
    seq![
        "NOOFFSETS"@,
        "NOHL"@,
        "SCHEMA"@,
        "$.content"@,
        "AS"@,
        "content"@,
        "TEXT"@,
        "$.author"@,
        "AS"@,
        "author"@,
        "TAG"@,
        "CASESENSITIVE"@,
        "$.kind"@,
        "AS"@,
        "kind"@,
        "TAG"@,
        "CASESENSITIVE"@,
    ]
}

/// Frozen `FT.CREATE` arguments for the schema of the full-text index, as they
/// follow `PREFIX 1 <prefix>`.
pub fn post_content_index_schema_args_v2() -> (args: Vec<&'static str>)
    ensures
        args@.map_values(|arg: &'static str| arg@) == schema_v2(),
{
    let args = vec![
        "NOOFFSETS",
        "NOHL",
        "SCHEMA",
        "$.content",
        "AS",
        "content",
        "TEXT",
        "$.author",
        "AS",
        "author",
        "TAG",
        "CASESENSITIVE",
        "$.kind",
        "AS",
        "kind",
        "TAG",
        "CASESENSITIVE",
    ];
    assert(args@.map_values(|arg: &'static str| arg@) =~= schema_v2());
    args
}

/// The arguments of `FT.CREATE` for documents whose keys begin with `prefix`
/// and a colon.
pub open spec fn create_args(prefix: Seq<char>, schema: Seq<Seq<char>>) -> Seq<Seq<char>> {
    seq!["postContentIdx"@, "ON"@, "JSON"@, "PREFIX"@, "1"@, prefix + seq![':']] + schema
}

/// The arguments of `FT.CREATE` with a schema.
pub fn to_create_args(prefix: &str, schema: Vec<&'static str>) -> (args: Vec<String>)
    ensures
        args.deep_view() == create_args(
            prefix@,
            schema@.map_values(|arg: &'static str| arg@),
        ),
{
    let ghost parts = schema@.map_values(|arg: &'static str| arg@);
    let ghost whole = create_args(prefix@, parts);
    let mut documents = prefix.to_owned();
    documents.append(":");
    proof {
        reveal_strlit(":");
        assert(":"@ =~= seq![':']);
    }
    let mut args: Vec<String> = vec![
        "postContentIdx".to_owned(),
        "ON".to_owned(),
        "JSON".to_owned(),
        "PREFIX".to_owned(),
        "1".to_owned(),
        documents,
    ];
    assert(args.deep_view() =~= whole.take(6));
    let mut i: usize = 0;
    while i < schema.len()
        invariant
            i <= schema@.len(),
            parts == schema@.map_values(|arg: &'static str| arg@),
            whole == create_args(prefix@, parts),
            args.deep_view() == whole.take(6 + i),
        decreases schema@.len() - i,
    {
        let ghost before = args.deep_view();
        args.push(schema[i].to_owned());
        i = i + 1;
        assert(args.deep_view() =~= before.push(parts[i - 1]));
        assert(whole.take(6 + i) =~= before.push(whole[5 + i]));
    }
    assert(whole.take(6 + i) =~= whole);
    args
}

/// `text` in lower case, as `str::to_lowercase` of std spells it.
pub uninterp spec fn lowered(text: Seq<char>) -> Seq<char>;

/// Puts a text in lower case with `str::to_lowercase` of std. How each character
/// is lowered is a matter of Unicode: it is told by `lowered`, which depends on
/// the text alone.
#[verifier::external_body]
fn to_lowercase(text: &str) -> (lower: String)
    ensures
        lower@ == lowered(text@),
{
    text.to_lowercase()
}

/// Whether the message of a failed drop, in lower case, says that there was no
/// index to drop.
pub open spec fn says_absent(message: Seq<char>) -> bool {
    text::holds_part(message, "unknown index name"@) || text::holds_part(message, "no such index"@)
}

/// Whether the message of a failed drop, in lower case, says that there was no
/// index to drop.
pub fn index_was_absent(message: &str) -> (absent: bool)
    ensures
        absent == says_absent(message@),
{
    contains_text(message, "unknown index name") || contains_text(message, "no such index")
}

/// Whether the message of a failed creation says that the index is there already.
pub fn index_was_there(message: &str) -> (there: bool)
    ensures
        there == text::holds_part(message@, "already exists"@),
{
    contains_text(message, "already exists")
}

/// Adds the author and the kind of a post to the full-text index over post
/// content. Between the drop and the creation there is no index, so a search
/// finds nothing; afterwards the existing documents are indexed anew.
#[derive(Debug, Clone, Copy)]
pub struct PostContentIndexAuthorSetup1780531200;

/// What the upgrade of the index waits for.
#[derive(Debug)]
pub enum IndexUpgrade {
    /// The drop of the old index.
    Drop,
    /// The creation of the new one.
    Create,
    /// Nothing: the index has the new schema.
    Done,
    /// Nothing: a command failed with this message.
    Failed(String),
}

impl PostContentIndexAuthorSetup1780531200 {
    pub fn id(&self) -> (id: &'static str)
        ensures
            id@ == RegisteredMigration::PostContentIndexAuthorSetup.name(),
    {
        "PostContentIndexAuthorSetup1780531200"
    }

    pub fn is_multi_staged(&self) -> (yes: bool)
        ensures
            !yes,
    {
        false
    }

    /// The upgrade before its first command.
    pub fn backfill(&self) -> (upgrade: IndexUpgrade)
        ensures
            upgrade is Drop,
    {
        IndexUpgrade::Drop
    }
}

impl IndexUpgrade {
    /// The upgrade behind a command that succeeded, or failed with a message
    /// whose lower-case spelling is `lower`.
    pub open spec fn behind(self, failure: Option<String>, lower: Seq<char>) -> IndexUpgrade {
        match self {
            IndexUpgrade::Drop => match failure {
                None => IndexUpgrade::Create,
                Some(message) => if says_absent(lower) {
                    IndexUpgrade::Create
                } else {
                    IndexUpgrade::Failed(message)
                },
            },
            IndexUpgrade::Create => match failure {
                None => IndexUpgrade::Done,
                Some(message) => if text::holds_part(message@, "already exists"@) {
                    IndexUpgrade::Done
                } else {
                    IndexUpgrade::Failed(message)
                },
            },
            _ => self,
        }
    }
}

/// An upgrade creates the new index once the old one is gone, dropped or absent,
/// and is done once the new one is there, created or there already. Any other
/// failure ends it with that failure's message, and what is over stays as it is.
pub proof fn law_an_upgrade_is_done_once_the_new_index_is_there(
    upgrade: IndexUpgrade,
    failure: Option<String>,
    lower: Seq<char>,
)
    ensures
        upgrade is Drop ==> (upgrade.behind(failure, lower) is Create <==> (failure is None
            || text::holds_part(lower, "unknown index name"@) || text::holds_part(
            lower,
            "no such index"@,
        ))),
        upgrade is Drop ==> !(upgrade.behind(failure, lower) is Done),
        upgrade is Create ==> (upgrade.behind(failure, lower) is Done <==> (failure is None
            || text::holds_part((failure->0)@, "already exists"@))),
        upgrade is Drop || upgrade is Create ==> (upgrade.behind(failure, lower) matches
            IndexUpgrade::Failed(message) ==> failure == Some(message)),
        upgrade is Drop ==> upgrade.behind(failure, lower) is Create || upgrade.behind(
            failure,
            lower,
        ) is Failed,
        upgrade is Create ==> upgrade.behind(failure, lower) is Done || upgrade.behind(
            failure,
            lower,
        ) is Failed,
        upgrade is Done || upgrade is Failed ==> upgrade.behind(failure, lower) == upgrade,
{
}

impl IndexUpgrade {
    /// The upgrade once a command has succeeded, or failed with a message whose
    /// lower-case spelling is given with it. An index that was not there needs no
    /// drop, and one that is there needs no creation, so a second run changes
    /// nothing more.
    pub fn next(self, failure: Option<(String, String)>) -> (next: IndexUpgrade)
        ensures
            next == self.behind(
                match failure {
                    Some((message, _)) => Some(message),
                    None => None,
                },
                match failure {
                    Some((_, lower)) => lower@,
                    None => Seq::empty(),
                },
            ),
    {
        match self {
            IndexUpgrade::Drop => match failure {
                None => IndexUpgrade::Create,
                Some((message, lower)) => if index_was_absent(lower.as_str()) {
                    IndexUpgrade::Create
                } else {
                    IndexUpgrade::Failed(message)
                },
            },
            IndexUpgrade::Create => match failure {
                None => IndexUpgrade::Done,
                Some((message, _)) => if index_was_there(message.as_str()) {
                    IndexUpgrade::Done
                } else {
                    IndexUpgrade::Failed(message)
                },
            },
            other => other,
        }
    }

    /// The upgrade once a command has succeeded, or failed with a message.
    pub fn step(self, failure: Option<String>) -> (next: IndexUpgrade)
        ensures
            next == self.behind(
                failure,
                match failure {
                    Some(message) => lowered(message@),
                    None => Seq::empty(),
                },
            ),
    {
        match failure {
            None => self.next(None),
            Some(message) => {
                let lower = to_lowercase(message.as_str());
                self.next(Some((message, lower)))
            },
        }
    }

    /// The arguments of `FT.CREATE`, for documents whose keys begin with
    /// `prefix` and a colon.
    pub fn create_post_content_index_v2(prefix: &str) -> (args: Vec<String>)
        ensures
            args.deep_view() == create_args(prefix@, schema_v2()),
    {
        to_create_args(prefix, post_content_index_schema_args_v2())
    }
}

/// The name of a user whose profile is gone.
pub open spec fn deleted_name() -> Seq<char> {
    "[DELETED]"@
}

/// How many users a batch flags at most.
pub const FLAG_BATCH: usize = 10_000;

/// Marks deleted users by a flag instead of by their name.
///
/// Every user named `[DELETED]` is flagged as deleted, and every other user as
/// not deleted, batch by batch. Cached details are dropped for the deleted users
/// only: a cached live user without the flag reads as not deleted, as is right.
#[derive(Debug, Clone, Copy)]
pub struct UserDeletedFlag1780617600;

/// The flagging of users, batch by batch.
#[derive(Debug, Clone, Copy, PartialEq, Eq, Structural)]
pub struct FlagProgress {
    pub total_processed: i64,
    pub total_tombstoned: usize,
}

/// What follows a batch.
#[derive(Debug)]
pub enum FlagStep {
    /// Drop the cached details of these users, if any, and go on.
    Continue { invalidate: Vec<String>, progress: FlagProgress },
    /// No user was left to flag.
    Finished(FlagProgress),
}

impl UserDeletedFlag1780617600 {
    pub fn id(&self) -> (id: &'static str)
        ensures
            id@ == "UserDeletedFlag1780617600"@,
    {
        "UserDeletedFlag1780617600"
    }

    pub fn is_multi_staged(&self) -> (yes: bool)
        ensures
            !yes,
    {
        false
    }

    /// The query that flags one batch, and tells how many users it took and the
    /// ids of the deleted ones. The limit stands before the write: behind it, a
    /// batch would be the whole match. A user without a name is not deleted.
    pub fn batch_query(&self) -> (query: &'static str)
        ensures
            query@ == "MATCH (u:User) WHERE u.deleted IS NULL OR u.deleted <> coalesce(u.name = '[DELETED]', false) WITH u LIMIT 10000 SET u.deleted = coalesce(u.name = '[DELETED]', false) RETURN count(u) AS processed, collect(CASE WHEN u.name = '[DELETED]' THEN u.id ELSE null END) AS tombstoned"@,
    {
        "MATCH (u:User) WHERE u.deleted IS NULL OR u.deleted <> coalesce(u.name = '[DELETED]', false) WITH u LIMIT 10000 SET u.deleted = coalesce(u.name = '[DELETED]', false) RETURN count(u) AS processed, collect(CASE WHEN u.name = '[DELETED]' THEN u.id ELSE null END) AS tombstoned"
    }

    /// The flagging before its first batch.
    pub fn backfill(&self) -> (progress: FlagProgress)
        ensures
            progress == (FlagProgress { total_processed: 0, total_tombstoned: 0 }),
    {
        FlagProgress { total_processed: 0, total_tombstoned: 0 }
    }
}

/// How many users a batch flagged; a batch that tells nothing flagged none.
pub open spec fn processed_in(processed: Option<i64>) -> int {
    match processed {
        Some(n) => n as int,
        None => 0,
    }
}

/// The deleted users of a batch; a batch that tells nothing has none.
pub open spec fn tombstoned_in(tombstoned: Option<Vec<String>>) -> Seq<Seq<char>> {
    match tombstoned {
        Some(ids) => ids.deep_view(),
        None => Seq::empty(),
    }
}

/// `FlagProgress`, counted without bounds.
pub struct ProgressModel {
    pub processed: int,
    pub tombstoned: int,
}

/// `FlagStep`, over plain sequences.
pub enum StepModel {
    Continue { invalidate: Seq<Seq<char>>, progress: ProgressModel },
    Finished(ProgressModel),
}

impl View for FlagProgress {
    type V = ProgressModel;

    open spec fn view(&self) -> ProgressModel {
        ProgressModel {
            processed: self.total_processed as int,
            tombstoned: self.total_tombstoned as int,
        }
    }
}

impl View for FlagStep {
    type V = StepModel;

    open spec fn view(&self) -> StepModel {
        match *self {
            FlagStep::Continue { invalidate, progress } => StepModel::Continue {
                invalidate: invalidate.deep_view(),
                progress: progress@,
            },
            FlagStep::Finished(progress) => StepModel::Finished(progress@),
        }
    }
}

impl ProgressModel {
    /// What follows a batch that flagged `processed` users, of whom `tombstoned`
    /// are deleted: a batch that flagged nobody is the last one.
    pub open spec fn next(self, processed: int, tombstoned: Seq<Seq<char>>) -> StepModel {
        if processed == 0 {
            StepModel::Finished(self)
        } else {
            StepModel::Continue {
                invalidate: tombstoned,
                progress: ProgressModel {
                    processed: self.processed + processed,
                    tombstoned: self.tombstoned + tombstoned.len(),
                },
            }
        }
    }
}

impl FlagProgress {
    /// What follows a batch that flagged `processed` users, of whom `tombstoned`
    /// are deleted.
    pub fn next(self, processed: Option<i64>, tombstoned: Option<Vec<String>>) -> (step: FlagStep)
        requires
            i64::MIN <= self.total_processed + processed_in(processed) <= i64::MAX,
            self.total_tombstoned + tombstoned_in(tombstoned).len() <= usize::MAX,
        ensures
            step@ == self@.next(processed_in(processed), tombstoned_in(tombstoned)),
    {
        let processed: i64 = match processed {
            Some(n) => n,
            None => 0,
        };
        if processed == 0 {
            return FlagStep::Finished(self);
        }
        let invalidate: Vec<String> = match tombstoned {
            Some(ids) => ids,
            None => Vec::new(),
        };
        assert(invalidate.deep_view() =~= tombstoned_in(tombstoned));
        let progress = FlagProgress {
            total_processed: self.total_processed + processed,
            total_tombstoned: self.total_tombstoned + invalidate.len(),
        };
        FlagStep::Continue { invalidate, progress }
    }
}

/// A user as the migration sees them.
pub struct FlaggedUser {
    pub name: Option<Seq<char>>,
    pub deleted: Option<bool>,
}

impl FlaggedUser {
    /// Whether the user goes by the name of a deleted one.
    pub open spec fn is_tombstone(self) -> bool {
        self.name == Some(deleted_name())
    }

    /// Whether a batch takes the user: without a flag, or with one that the name
    /// belies.
    pub open spec fn to_flag(self) -> bool {
        self.deleted != Some(self.is_tombstone())
    }

    /// The user once a batch took them.
    pub open spec fn flagged(self) -> FlaggedUser {
        FlaggedUser { name: self.name, deleted: Some(self.is_tombstone()) }
    }
}

/// A user that a batch took is taken by no later one: the batches drain, and a
/// second run finds nothing to do.
pub proof fn law_a_flagged_user_is_left_alone(user: FlaggedUser)
    ensures
        !user.flagged().to_flag(),
        user.flagged().flagged() == user.flagged(),
{
}

/// Once no user is left to flag, every user has a flag: those named as deleted
/// are flagged so, and every other user is not.
pub proof fn law_a_drained_graph_is_flagged(user: FlaggedUser)
    requires
        !user.to_flag(),
    ensures
        user.deleted == Some(user.name == Some(deleted_name())),
{
}

/// The users by id that a batch may take.
pub open spec fn flaggable(users: Map<Seq<char>, FlaggedUser>) -> Set<Seq<char>> {
    users.dom().filter(|id: Seq<char>| users[id].to_flag())
}

/// Of some users, those who go by the name of a deleted one.
pub open spec fn tombstones(
    users: Map<Seq<char>, FlaggedUser>,
    ids: Set<Seq<char>>,
) -> Set<Seq<char>> {
    ids.filter(|id: Seq<char>| users[id].is_tombstone())
}

/// The users that one batch took, and the deleted ones it told of.
pub struct FlagBatch {
    pub picked: Set<Seq<char>>,
    pub tombstoned: Seq<Seq<char>>,
}

/// Whether a batch over `users` may have gone so: it takes users to flag, any of
/// them, as many as there are or as a batch holds, and tells of the deleted ones
/// among them once each.
pub open spec fn is_batch(users: Map<Seq<char>, FlaggedUser>, batch: FlagBatch) -> bool {
    &&& batch.picked.subset_of(flaggable(users))
    &&& batch.picked.len() == (if flaggable(users).len() <= FLAG_BATCH {
        flaggable(users).len() as int
    } else {
        FLAG_BATCH as int
    })
    &&& batch.tombstoned.no_duplicates()
    &&& batch.tombstoned.to_set() == tombstones(users, batch.picked)
}

/// A run of the migration: the users in the graph, the users whose details are
/// cached, and how far it has got.
#[verifier::ext_equal]
pub struct FlagRun {
    pub users: Map<Seq<char>, FlaggedUser>,
    pub cached: Set<Seq<char>>,
    pub progress: ProgressModel,
    pub over: bool,
}

impl FlagRun {
    /// The run before its first batch.
    pub open spec fn begin(users: Map<Seq<char>, FlaggedUser>, cached: Set<Seq<char>>) -> FlagRun {
        FlagRun {
            users,
            cached,
            progress: ProgressModel { processed: 0, tombstoned: 0 },
            over: false,
        }
    }

    /// The run behind one more batch; nothing once it is over.
    pub open spec fn after(self, batch: FlagBatch) -> FlagRun {
        if self.over {
            self
        } else {
            let users = Map::new(
                |id: Seq<char>| self.users.contains_key(id),
                |id: Seq<char>|
                    if batch.picked.contains(id) {
                        self.users[id].flagged()
                    } else {
                        self.users[id]
                    },
            );
            match self.progress.next(batch.picked.len() as int, batch.tombstoned) {
                StepModel::Finished(progress) => FlagRun {
                    users,
                    progress,
                    over: true,
                    ..self
                },
                StepModel::Continue { invalidate, progress } => FlagRun {
                    users,
                    cached: self.cached.difference(invalidate.to_set()),
                    progress,
                    over: false,
                },
            }
        }
    }
}

/// A run behind its first `n` batches.
pub open spec fn flag_run(start: FlagRun, batches: Seq<FlagBatch>, n: nat) -> FlagRun
    decreases n,
{
    if n == 0 {
        start
    } else {
        flag_run(start, batches, (n - 1) as nat).after(batches[n - 1])
    }
}

/// Each batch went as a batch over the users that the earlier ones left.
pub open spec fn are_batches(start: FlagRun, batches: Seq<FlagBatch>) -> bool {
    forall|k: int|
        0 <= k < batches.len() ==> is_batch(
            (#[trigger] flag_run(start, batches, k as nat)).users,
            batches[k],
        )
}

/// What the first `k` batches of a run have done: the users they took are
/// flagged, the cached details of the deleted ones among those are dropped, and
/// both are counted.
spec fn flagged_so_far(
    users: Map<Seq<char>, FlaggedUser>,
    cached: Set<Seq<char>>,
    run: FlagRun,
    done: Set<Seq<char>>,
    k: nat,
) -> bool {
    &&& done.finite()
    &&& done.subset_of(flaggable(users))
    &&& flaggable(run.users) == flaggable(users).difference(done)
    &&& run.users.dom() == users.dom()
    &&& forall|id: Seq<char>| #[trigger]
        run.users.contains_key(id) ==> run.users[id] == (if done.contains(id) {
            users[id].flagged()
        } else {
            users[id]
        })
    &&& run.cached == cached.difference(tombstones(users, done))
    &&& run.progress.processed == done.len()
    &&& run.progress.tombstoned == tombstones(users, done).len()
    &&& run.over ==> flaggable(run.users).is_empty()
    &&& !run.over ==> done.len() >= k
}

/// What the first `k` batches of a run have done; gives the users they took.
proof fn lemma_flag_run(
    users: Map<Seq<char>, FlaggedUser>,
    cached: Set<Seq<char>>,
    batches: Seq<FlagBatch>,
    k: nat,
) -> (done: Set<Seq<char>>)
    requires
        users.dom().finite(),
        are_batches(FlagRun::begin(users, cached), batches),
        k <= batches.len(),
    ensures
        flagged_so_far(
            users,
            cached,
            flag_run(FlagRun::begin(users, cached), batches, k),
            done,
            k,
        ),
    decreases k,
{
    let start = FlagRun::begin(users, cached);
    if k == 0 {
        let done = Set::<Seq<char>>::empty();
        assert(flaggable(users).difference(done) =~= flaggable(users));
        assert(tombstones(users, done) =~= Set::empty());
        assert(cached.difference(tombstones(users, done)) =~= cached);
        done
    } else {
        let before = lemma_flag_run(users, cached, batches, (k - 1) as nat);
        let run = flag_run(start, batches, (k - 1) as nat);
        let batch = batches[k - 1];
        let end = flag_run(start, batches, k);
        assert(is_batch(flag_run(start, batches, (k - 1) as nat).users, batches[k - 1]));
        assert(flaggable(run.users).finite());
        if run.over {
            before
        } else {
            vstd::set_lib::lemma_len_subset(batch.picked, flaggable(run.users));
            if batch.picked.len() == 0 {
                assert(flaggable(run.users).len() == 0);
                assert(flaggable(run.users) =~= Set::empty());
                assert(batch.picked =~= Set::empty());
                assert(end.users =~= run.users);
                before
            } else {
                let done = before.union(batch.picked);
                assert(before.disjoint(batch.picked));
                vstd::set_lib::lemma_set_disjoint_lens(before, batch.picked);
                assert forall|id: Seq<char>| batch.picked.contains(id) implies run.users[id]
                    == users[id] && users.contains_key(id) by {
                    assert(run.users.contains_key(id));
                }
                let told = tombstones(run.users, batch.picked);
                assert(told =~= tombstones(users, batch.picked));
                assert(tombstones(users, done) =~= tombstones(users, before).union(told));
                assert(tombstones(users, before).disjoint(told));
                assert(tombstones(users, before).subset_of(before));
                vstd::set_lib::lemma_len_subset(tombstones(users, before), before);
                vstd::set_lib::lemma_len_subset(told, batch.picked);
                vstd::set_lib::lemma_set_disjoint_lens(tombstones(users, before), told);
                batch.tombstoned.unique_seq_to_set();
                assert(end.cached =~= cached.difference(tombstones(users, done)));
                assert(end.users.dom() =~= users.dom());
                assert forall|id: Seq<char>| #[trigger] end.users.contains_key(id) implies end.users[id]
                    == (if done.contains(id) {
                    users[id].flagged()
                } else {
                    users[id]
                }) by {
                    assert(run.users.contains_key(id));
                }
                assert(flaggable(end.users) =~= flaggable(users).difference(done)) by {
                    assert forall|id: Seq<char>| #[trigger]
                        flaggable(end.users).contains(id) == flaggable(users).difference(
                            done,
                        ).contains(id) by {
                        assert(end.users.contains_key(id) == users.contains_key(id));
                    }
                }
                done
            }
        }
    }
}

/// A whole run: it is over once there were more batches than users to flag.
/// Then every user is flagged by their name, and no other user has changed. The
/// cached details that were dropped are exactly those of the users named as
/// deleted who were not flagged so, and no live user's. Both are counted, and
/// no user is left to flag.
pub proof fn law_a_run_flags_every_user(
    users: Map<Seq<char>, FlaggedUser>,
    cached: Set<Seq<char>>,
    batches: Seq<FlagBatch>,
)
    requires
        users.dom().finite(),
        are_batches(FlagRun::begin(users, cached), batches),
    ensures
        ({
            let end = flag_run(FlagRun::begin(users, cached), batches, batches.len());
            &&& batches.len() > flaggable(users).len() ==> end.over
            &&& end.over ==> {
                &&& end.users == users.map_values(|user: FlaggedUser| user.flagged())
                &&& end.cached == cached.difference(tombstones(users, flaggable(users)))
                &&& end.progress.processed == flaggable(users).len()
                &&& end.progress.tombstoned == tombstones(users, flaggable(users)).len()
                &&& flaggable(end.users).is_empty()
            }
        }),
{
    let done = lemma_flag_run(users, cached, batches, batches.len());
    let end = flag_run(FlagRun::begin(users, cached), batches, batches.len());
    assert(flaggable(users).finite());
    vstd::set_lib::lemma_len_subset(done, flaggable(users));
    if end.over {
        assert forall|id: Seq<char>| #[trigger] flaggable(users).contains(id) implies done.contains(
            id,
        ) by {
            assert(!flaggable(end.users).contains(id));
        }
        assert(done =~= flaggable(users));
        assert forall|id: Seq<char>| #[trigger] end.users.contains_key(id) implies end.users[id]
            == users[id].flagged() by {
            assert(flaggable(users).contains(id) == users[id].to_flag());
        }
        assert(end.users =~= users.map_values(|user: FlaggedUser| user.flagged()));
    }
}

/// A second run changes no user and drops no cached details: its first batch is
/// its last.
pub proof fn law_a_second_run_changes_nothing(
    users: Map<Seq<char>, FlaggedUser>,
    cached: Set<Seq<char>>,
    batches: Seq<FlagBatch>,
)
    requires
        users.dom().finite(),
        flaggable(users).is_empty(),
        batches.len() > 0,
        are_batches(FlagRun::begin(users, cached), batches),
    ensures
        ({
            let end = flag_run(FlagRun::begin(users, cached), batches, 1);
            end.over && end.users == users && end.cached == cached
        }),
{
    reveal_with_fuel(flag_run, 2);
    let start = FlagRun::begin(users, cached);
    let none: int = 0;
    assert(is_batch(flag_run(start, batches, none as nat).users, batches[none]));
    let batch = batches[0];
    assert(flaggable(users) =~= Set::empty());
    assert(batch.picked =~= Set::empty());
    let end = flag_run(start, batches, 1);
    assert(end == start.after(batch));
    assert(end.users =~= users);
}

/// Every migration runs, and runs once.
pub proof fn law_every_migration_runs_once(migration: RegisteredMigration)
    ensures
        migration_order().contains(migration),
        migration_order().no_duplicates(),
{
    let order = migration_order();
    match migration {
        RegisteredMigration::UsersByPkReindex => {
            assert(order[0] == migration);
        },
        RegisteredMigration::RemoveMuted => {
            assert(order[1] == migration);
        },
        RegisteredMigration::ResourceNodeSetup => {
            assert(order[2] == migration);
        },
        RegisteredMigration::PostContentIndexSetup => {
            assert(order[3] == migration);
        },
        RegisteredMigration::PostContentIndexAuthorSetup => {
            assert(order[4] == migration);
        },
        RegisteredMigration::UsersByTagsIndexBackfill => {
            assert(order[5] == migration);
        },
    }
}

/// The number that the last `n` characters of a text spell.
pub open spec fn number_at_end(s: Seq<char>, n: nat) -> int
    decreases n,
{
    if n == 0 || s.len() == 0 {
        0
    } else {
        number_at_end(s.drop_last(), (n - 1) as nat) * 10 + (s.last() as int - '0' as int)
    }
}

/// A migration's name ends with the time it was written at, so no two migrations
/// are recorded under one name.
pub proof fn law_a_migration_is_named_after_its_time(migration: RegisteredMigration)
    ensures
        number_at_end(migration.name(), 10) == migration.written_at(),
{
    reveal_with_fuel(number_at_end, 11);
    reveal_strlit("UsersByPkReindex1751635096");
    reveal_strlit("RemoveMuted1771718400");
    reveal_strlit("ResourceNodeSetup1774000000");
    reveal_strlit("PostContentIndexSetup1780444800");
    reveal_strlit("PostContentIndexAuthorSetup1780531200");
    reveal_strlit("UsersByTagsIndexBackfill1786924800");
}

/// A key outside the resources' prefix is kept, and so is one whose part behind
/// the prefix begins with neither of the scopes; both global sets are retired.
pub proof fn law_other_keys_are_kept(key: Seq<char>)
    ensures
        !text::begins_with(key, "Sorted:Resources:"@) ==> !retired_key(key),
        !text::begins_with(key, "Sorted:Resources:"@ + "Global:"@) && !text::begins_with(
            key,
            "Sorted:Resources:"@ + "App:"@,
        ) && !text::begins_with(key, "Sorted:Resources:"@ + "Tag:"@) ==> !retired_key(key),
        retired_key("Sorted:Resources:"@ + "Global:"@ + "Timeline"@),
        retired_key("Sorted:Resources:"@ + "Global:"@ + "TaggersCount"@),
{
    let prefix = "Sorted:Resources:"@;
    reveal_strlit("Global:");
    reveal_strlit("Timeline");
    reveal_strlit("TaggersCount");
    reveal_strlit("Global:Timeline");
    reveal_strlit("Global:TaggersCount");
    let global = "Global:"@;
    assert(global + "Timeline"@ =~= "Global:Timeline"@);
    assert(global + "TaggersCount"@ =~= "Global:TaggersCount"@);
    assert(prefix + global + "Timeline"@ =~= prefix + "Global:Timeline"@);
    assert(prefix + global + "TaggersCount"@ =~= prefix + "Global:TaggersCount"@);
    if retired_key(key) {
        if key == prefix + "Global:Timeline"@ {
            lemma_begins(key, prefix, global, "Timeline"@);
        } else if key == prefix + "Global:TaggersCount"@ {
            lemma_begins(key, prefix, global, "TaggersCount"@);
        } else if exists|middle: Seq<char>|
            middle.len() > 0 && (key == #[trigger] scoped_key("App:"@, middle, ":Timeline"@)) {
            let middle = choose|middle: Seq<char>|
                middle.len() > 0 && (key == #[trigger] scoped_key("App:"@, middle, ":Timeline"@));
            lemma_begins(key, prefix, "App:"@, middle + ":Timeline"@);
        } else if exists|middle: Seq<char>|
            middle.len() > 0 && (key == #[trigger] scoped_key("App:"@, middle, ":TaggersCount"@)) {
            let middle = choose|middle: Seq<char>|
                middle.len() > 0 && (key == #[trigger] scoped_key(
                    "App:"@,
                    middle,
                    ":TaggersCount"@,
                ));
            lemma_begins(key, prefix, "App:"@, middle + ":TaggersCount"@);
        } else if exists|middle: Seq<char>|
            middle.len() > 0 && (key == #[trigger] scoped_key("Tag:"@, middle, ":Timeline"@)) {
            let middle = choose|middle: Seq<char>|
                middle.len() > 0 && (key == #[trigger] scoped_key("Tag:"@, middle, ":Timeline"@));
            lemma_begins(key, prefix, "Tag:"@, middle + ":Timeline"@);
        } else {
            let middle = choose|middle: Seq<char>|
                middle.len() > 0 && (key == #[trigger] scoped_key(
                    "Tag:"@,
                    middle,
                    ":TaggersCount"@,
                ));
            lemma_begins(key, prefix, "Tag:"@, middle + ":TaggersCount"@);
        }
    }
}

/// A key begins with its first part, and with its first two.
proof fn lemma_begins(key: Seq<char>, prefix: Seq<char>, scope: Seq<char>, rest: Seq<char>)
    requires
        key == prefix + (scope + rest),
    ensures
        text::begins_with(key, prefix),
        text::begins_with(key, prefix + scope),
{
    assert(key.take(prefix.len() as int) =~= prefix);
    assert(key.take((prefix + scope).len() as int) =~= prefix + scope);
}

/// A second scan finds nothing to delete among the keys that were kept.
pub proof fn law_a_second_scan_finds_nothing_to_delete(keys: Seq<Seq<char>>, kept: Seq<Seq<char>>)
    requires
        forall|key: Seq<char>| #[trigger]
            kept.contains(key) ==> keys.contains(key) && !retired_in(keys, keys.len()).contains(key),
    ensures
        retired_in(kept, kept.len()).len() == 0,
{
    let again = retired_in(kept, kept.len());
    if again.len() > 0 {
        let key = again[0];
        assert(again.contains(key));
        lemma_retired_in(kept, kept.len(), key);
        assert(kept.take(kept.len() as int) =~= kept);
        law_exactly_the_retired_keys_are_deleted(keys, key);
    }
}

} // verus!
