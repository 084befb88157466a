//! Skill library management: identity and frontmatter of `SKILL.md`
//! documents, download sources, marketplace search results, package groups,
//! library metadata and backup rules.
use vstd::prelude::*;

pub mod discovery;
pub mod backup;
pub mod backup_run;
pub mod clawhub;
pub mod create_skill;
pub mod dir_names;
pub mod document;
pub mod download;
pub mod github_sync;
pub mod editing;
pub mod identity;
pub mod importing;
pub mod library;
pub mod linking;
pub mod market;
pub mod packages;
pub mod recovery;
pub mod skillsmp;
pub mod skillssh;
pub mod text;
pub mod translation;
pub mod types;
pub mod updates;

verus! {

} // verus!
