use vstd::prelude::*;

verus! {

/// The arguments the command line carries, as plain data. The argument
/// parser in front of the library fills this in.
pub struct CommandLineArgs {
    /// Debug mode was requested.
    pub debug: bool,
    /// The terminal interface was requested.
    pub tui: bool,
    /// The subcommand, if one was given.
    pub command: Option<Commands>,
}

/// The subcommands the tool understands.
pub enum Commands {
    /// Encrypt a file or a folder of files.
    Encrypt {
        /// Path to the file or directory.
        path: String,
        /// Encrypt in place, replacing the original.
        in_place: bool,
    },
    /// Decrypt a file or a folder of files.
    Decrypt {
        /// Path to the file or directory.
        path: String,
        /// Where to put the output, if not the recorded location.
        output: Option<String>,
    },
    /// Import or export the keeper store.
    Keeper {
        /// Import records from a tabular file.
        import: bool,
        /// Export records to a tabular file.
        export: bool,
        /// The tabular file for an import.
        csv_path: String,
    },
    /// Upload to the configured cloud provider.
    Upload {},
    /// View or change configuration.
    Config {
        /// Which setting, if any.
        category: Option<ConfigCommand>,
    },
}

/// The configuration subcommands.
pub enum ConfigCommand {
    /// View or update the store path.
    DatabasePath {
        /// New path; empty shows the current one.
        path: String,
    },
    /// Update whether originals are kept after processing.
    Retain {
        /// New value as text.
        value: String,
    },
    /// View or change the ignored names.
    IgnoreDirectories {
        /// What to do.
        value: String,
        /// The name it applies to.
        value2: String,
    },
    /// View or change the compression level.
    ZstdLevel {
        /// New level as text.
        value: String,
    },
}

/// The one operation a command line resolves to.
pub enum Directive {
    /// Nothing to do; the help screen was shown.
    NoOp,
    /// The arguments were incomplete; show a usage hint.
    Usage,
    /// Encrypt this path.
    Encrypt { path: String, in_place: bool },
    /// Decrypt this path.
    Decrypt { path: String, output: Option<String> },
    /// Import keeper records from this tabular file.
    KeeperImport { csv_path: String },
    /// Export keeper records.
    KeeperExport,
    /// Show the whole configuration.
    ShowConfig,
    /// View or update the store path.
    SetDatabasePath { value: String },
    /// Update the retain flag.
    SetRetain { value: String },
    /// Change the ignored names.
    SetIgnore { value: String, value2: String },
    /// Change the compression level.
    SetZstdLevel { value: String },
    /// Upload to the configured provider.
    Upload,
}

/// What a command line means, stated once; the executable dispatch returns
/// exactly this.
pub open spec fn spec_directive_for(args: CommandLineArgs) -> Directive {
    match args.command {
        None => Directive::NoOp,
        Some(Commands::Encrypt { path, in_place }) => Directive::Encrypt { path, in_place },
        Some(Commands::Decrypt { path, output }) => Directive::Decrypt { path, output },
        Some(Commands::Keeper { import, export, csv_path }) => {
            if import && !export {
                if csv_path@.len() == 0 {
                    Directive::Usage
                } else {
                    Directive::KeeperImport { csv_path }
                }
            } else if export && !import {
                Directive::KeeperExport
            } else {
                Directive::NoOp
            }
        },
        Some(Commands::Upload {  }) => Directive::Upload,
        Some(Commands::Config { category }) => match category {
            None => Directive::ShowConfig,
            Some(ConfigCommand::DatabasePath { path }) => Directive::SetDatabasePath {
                value: path,
            },
            Some(ConfigCommand::Retain { value }) => Directive::SetRetain { value },
            Some(ConfigCommand::IgnoreDirectories { value, value2 }) => Directive::SetIgnore {
                value,
                value2,
            },
            Some(ConfigCommand::ZstdLevel { value }) => Directive::SetZstdLevel { value },
        },
    }
}

/// Resolve a parsed command line to the operation it asks for. An import
/// without a file is an incomplete request, not an import of nothing;
/// giving both of import and export, or neither, asks for nothing.
pub fn directive_for(args: CommandLineArgs) -> (r: Directive)
    ensures
        r == spec_directive_for(args),
{
    match args.command {
        None => Directive::NoOp,
        Some(Commands::Encrypt { path, in_place }) => Directive::Encrypt { path, in_place },
        Some(Commands::Decrypt { path, output }) => Directive::Decrypt { path, output },
        Some(Commands::Keeper { import, export, csv_path }) => {
            if import && !export {
                if csv_path.as_str().is_empty() {
                    Directive::Usage
                } else {
                    Directive::KeeperImport { csv_path }
                }
            } else if export && !import {
                Directive::KeeperExport
            } else {
                Directive::NoOp
            }
        },
        Some(Commands::Upload {  }) => Directive::Upload,
        Some(Commands::Config { category }) => match category {
            None => Directive::ShowConfig,
            Some(ConfigCommand::DatabasePath { path }) => Directive::SetDatabasePath {
                value: path,
            },
            Some(ConfigCommand::Retain { value }) => Directive::SetRetain { value },
            Some(ConfigCommand::IgnoreDirectories { value, value2 }) => Directive::SetIgnore {
                value,
                value2,
            },
            Some(ConfigCommand::ZstdLevel { value }) => Directive::SetZstdLevel { value },
        },
    }
}

} // verus!
