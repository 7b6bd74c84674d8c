//! The commands the program accepts.
use vstd::prelude::*;

verus! {

/// A parsed command line.
#[derive(Debug)]
pub struct Cli {
    pub command: Commands,
}

/// What to do.
#[derive(Debug)]
pub enum Commands {
    /// Apply a profile to the current repository.
    Use { profile_name: String, ssh: bool },
    /// Show the identity set in the current repository.
    Show,
    /// List the profiles.
    List,
    /// Write the starting configuration.
    Init,
    /// Apply the profile mapped to the current directory.
    Auto { ssh: bool },
    /// Add a profile.
    Add {
        name: String,
        user_name: String,
        email: String,
        github_username: Option<String>,
        github_pat: Option<String>,
        signing_key: Option<String>,
        ssh_key: Option<String>,
    },
    /// Remove a profile.
    Remove { name: String },
    /// Map a directory to a profile.
    MapPath { path: String, profile: String },
    /// Remove the mapping of a directory.
    Unmap { path: String },
    /// Manage cached credentials.
    Credentials { action: CredentialAction },
}

/// What to do with cached credentials.
#[derive(Debug)]
pub enum CredentialAction {
    /// List the cached GitHub accounts.
    List,
    /// Clear the credentials of one GitHub account.
    Clear { username: String },
    /// Clear the credentials of every GitHub account.
    ClearAll,
}

} // verus!
