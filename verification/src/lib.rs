//! Verified core of the session-viewer data API: error values, path and
//! file-name validation, the project-scan, parsed-message and repository
//! group caches, the registry of background scans, list pagination and
//! group paging, compact chunk derivation and trimming, message lookups,
//! memory index parsing, context switching and external-app command
//! planning.

pub mod assoc;
pub mod chunk;
pub mod clock;
pub mod config_section;
pub mod context;
pub mod decimal;
pub mod image;
pub mod invalidator;
pub mod jobs;
pub mod laws;
pub mod error;
pub mod external_app;
pub mod file_event;
pub mod group;
pub mod groups_cache;
pub mod parsed_cache;
pub mod lex;
pub mod memory;
pub mod messages;
pub mod omit;
pub mod pagination;
pub mod paths;
pub mod project;
pub mod scan_cache;
pub mod scan_registry;
pub mod search;
pub mod search_path;
pub mod session;
pub mod session_filter;
pub mod subagents;
pub mod text;
pub mod worktree_meta;
