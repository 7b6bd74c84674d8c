//! Git profile switching: profiles, path mappings, remote URL rewriting,
//! token encryption and masking, with their contracts proved by Verus.

pub mod b64;
pub mod cli;
pub mod config;
pub mod crypto;
pub mod error;
pub mod git;
pub mod keyed;
pub mod remote;
pub mod ssh;
pub mod text;

pub use cli::{Cli, Commands, CredentialAction};
pub use config::{AutoDetector, Config, Profile};
pub use crypto::TokenCrypto;
pub use error::Error;
pub use git::GitConfig;
pub use keyed::KeyedList;
pub use remote::{ApplyStep, CredentialManager, ProfileManager};
pub use ssh::SshManager;
