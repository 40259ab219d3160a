//! The commands of the daemon, once they have been parsed.
use vstd::prelude::*;

verus! {

/// What the daemon was called with.
#[derive(Debug)]
pub struct Cli {
    /// Directory containing `config.toml`.
    pub config_dir: String,
    pub command: Option<NexusCommands>,
}

/// What the daemon is to do.
#[derive(Debug)]
pub enum NexusCommands {
    /// Run the API service.
    Api(ConfigDirArgs),
    /// Run the event watcher.
    Watcher(ConfigDirArgs),
    /// Run scheduled jobs on demand.
    Jobs(JobCommands),
    /// Database operations.
    Db(DbCommands),
    /// Run the API, the watcher and the scheduled jobs.
    Run(ConfigDirArgs),
}

/// A directory that overrides the top-level one.
#[derive(Debug)]
pub struct ConfigDirArgs {
    /// Directory containing `config.toml`. Overrides the top-level one.
    pub config_dir: Option<String>,
}

#[derive(Debug)]
pub enum JobCommands {
    /// Run a single job once, now.
    Run(JobRunArgs),
    /// List the available jobs.
    List,
}

#[derive(Debug)]
pub struct JobRunArgs {
    /// Name of the job to run.
    pub name: String,
    pub config: ConfigDirArgs,
}

#[derive(Debug)]
pub enum DbCommands {
    /// Clear the databases, once that is confirmed.
    Clear { yes: bool, config: ConfigDirArgs },
    /// Mock the database.
    Mock(MockArgs),
    /// Manage database migrations.
    Migration(MigrationCommands),
}

/// The part of the database that is mocked.
#[derive(Debug, Clone, Copy, PartialEq, Eq, Structural)]
pub enum MockType {
    Redis,
    Graph,
}

#[derive(Debug)]
pub struct MockArgs {
    /// Which part of the database to mock; both where it is left out.
    pub mock_type: Option<MockType>,
    pub config: ConfigDirArgs,
}

#[derive(Debug)]
pub enum MigrationCommands {
    /// Create a new migration.
    New(MigrationNewArgs),
    /// Run pending migrations.
    Run,
    /// Check for pending migrations without running them.
    Check,
}

#[derive(Debug)]
pub struct MigrationNewArgs {
    /// The name of the new migration.
    pub name: String,
}

impl Cli {
    /// The command that was given. Without one the daemon runs everything, from
    /// the top-level directory: the command carries no override.
    pub fn receive_command(cli: Cli) -> (command: NexusCommands)
        ensures
            match cli.command {
                Some(given) => command == given,
                None => command == NexusCommands::Run(ConfigDirArgs { config_dir: None }),
            },
    {
        match cli.command {
            None => NexusCommands::Run(ConfigDirArgs { config_dir: None }),
            Some(command) => command,
        }
    }
}

impl ConfigDirArgs {
    /// The subcommand-level directory wins; otherwise the top-level one counts.
    pub fn resolve(self, root: String) -> (dir: String)
        ensures
            dir == (match self.config_dir {
                Some(own) => own,
                None => root,
            }),
    {
        match self.config_dir {
            Some(own) => own,
            None => root,
        }
    }
}

} // verus!
