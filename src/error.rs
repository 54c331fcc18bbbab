use vstd::prelude::*;

verus! {

/// What was found in the way of a new entry.
#[derive(Debug, Clone, Copy, PartialEq, Eq, Structural)]
pub enum Existing {
    /// A file of the name a new note was to take.
    File,
    /// A folder of the name a new folder was to take.
    Folder,
    /// A sibling of the name a renamed entry was to take.
    Sibling,
}

/// Failures reported by the file-system operations.
#[derive(Debug, Clone, PartialEq, Eq)]
pub enum FsError {
    /// The path does not exist.
    NotFound,
    /// The path exists but is not a directory.
    NotADirectory,
    /// An entry of that name is already there.
    AlreadyExists(Existing),
    /// The path has no parent to work from, or the name is not a plain name.
    InvalidPath,
    /// The source of a copy has no final component.
    InvalidSourcePath,
    /// The watcher id is not registered.
    WatcherNotFound,
    /// The system's random source failed, so no watcher id could be drawn.
    RandomUnavailable,
    /// The watcher id drawn is already registered.
    IdTaken,
    /// A failure reported by the operating system, with its message.
    Io(String),
}

impl FsError {
    /// Human-readable description of the failure.
    pub fn message(&self) -> (r: String)
        ensures
            r@ == match self {
                FsError::NotFound => "Path does not exist"@,
                FsError::NotADirectory => "Path is not a directory"@,
                FsError::AlreadyExists(Existing::File) => "File already exists"@,
                FsError::AlreadyExists(Existing::Folder) => "Folder already exists"@,
                FsError::AlreadyExists(Existing::Sibling) => "A file with this name already exists"@,
                FsError::InvalidPath => "Invalid path"@,
                FsError::InvalidSourcePath => "Invalid source path"@,
                FsError::WatcherNotFound => "Watcher not found"@,
                FsError::RandomUnavailable => "Could not draw random bytes for a watcher id"@,
                FsError::IdTaken => "The watcher id drawn is already in use"@,
                FsError::Io(m) => m@,
            },
    {
        match self {
            FsError::NotFound => String::from_str("Path does not exist"),
            FsError::NotADirectory => String::from_str("Path is not a directory"),
            FsError::AlreadyExists(Existing::File) => String::from_str("File already exists"),
            FsError::AlreadyExists(Existing::Folder) => String::from_str("Folder already exists"),
            FsError::AlreadyExists(Existing::Sibling) => String::from_str(
                "A file with this name already exists",
            ),
            FsError::InvalidPath => String::from_str("Invalid path"),
            FsError::InvalidSourcePath => String::from_str("Invalid source path"),
            FsError::WatcherNotFound => String::from_str("Watcher not found"),
            FsError::RandomUnavailable => String::from_str(
                "Could not draw random bytes for a watcher id",
            ),
            FsError::IdTaken => String::from_str("The watcher id drawn is already in use"),
            FsError::Io(m) => m.clone(),
        }
    }
}

} // verus!
