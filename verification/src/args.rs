//! The command line: the `starship` subcommand and what it is asked to do.
use vstd::prelude::*;

verus! {

/// `std::path::PathBuf`, carried through opaque.
#[verifier::external_type_specification]
#[verifier::external_body]
pub struct ExPathBuf(std::path::PathBuf);

/// The subcommand this tool adds to `jj`.
pub enum CustomCommand {
    Starship(StarshipOptions),
}

/// What the `starship` subcommand does.
pub enum StarshipCommands {
    /// Print the configured prompt.
    Prompt {
        /// Path to the starship-jj config file.
        starship_config: Option<std::path::PathBuf>,
    },
    /// Interact with the configuration.
    Config(ConfigCommands),
}

/// What the `config` subcommand prints.
pub enum ConfigCommands {
    /// Print the path to the config file.
    Path,
    /// Print the default config.
    Default,
}

/// The options of the `starship` subcommand.
pub struct StarshipOptions {
    pub command: StarshipCommands,
}

} // verus!
