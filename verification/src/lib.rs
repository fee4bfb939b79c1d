//! A small directory-summarization library.
//!
//! The library inspects the immediate children of one directory — given to it
//! as a sequence of plain entry records — and derives a structured summary:
//! entry counts, an extension-frequency table with a deterministic key order,
//! notable-marker flags, a suspicious-file list, and the five largest files.
//! Every function is verified: the contract of [`summary::build_summary`]
//! pins each field of the summary to a mathematical function of the entry
//! sequence alone.

pub mod entry;
pub mod laws;
pub mod summary;
pub mod text;

pub use entry::DirectoryEntry;
pub use entry::EntryKind;
pub use entry::FilesystemError;
pub use entry::make_entry;
pub use summary::Counts;
pub use summary::DirSummary;
pub use summary::HintEntry;
pub use summary::NotableFiles;
pub use summary::SizeEntry;
pub use summary::build_summary;
