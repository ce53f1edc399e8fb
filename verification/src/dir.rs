//! What the library reads of a server directory, held as plain values.

use vstd::prelude::*;

verus! {

/// One file of the directory's `fastmc/` metadata folder: its name (the
/// key) and what it holds.
pub struct MetaFile {
    pub key: String,
    pub content: String,
}

/// A `java` process that `pgrep` reported: the line `pgrep` printed for it,
/// its `/proc/<pid>/comm` (empty where unreadable), its
/// `/proc/<pid>/cmdline` (absent where unreadable) and the canonical path
/// of its working directory `/proc/<pid>/cwd` (absent where unreadable).
pub struct JavaProcess {
    pub pid_text: String,
    pub comm: String,
    pub cmdline: Option<String>,
    pub cwd: Option<String>,
}

/// A server directory as the logic sees it. Each optional text is absent
/// where the file is missing or could not be read.
pub struct ServerDir {
    /// The directory's path.
    pub path: String,
    /// Whether `fastmc/` exists.
    pub meta_dir_exists: bool,
    /// The files of `fastmc/`, each with its content (empty where it
    /// could not be read).
    pub meta: Vec<MetaFile>,
    /// Whether `.mcserver.conf` exists.
    pub conf_exists: bool,
    /// The content of `.mcserver.conf`.
    pub conf: Option<String>,
    /// The content of `server.properties`.
    pub properties: Option<String>,
    /// Whether `start.sh` exists.
    pub start_script_exists: bool,
    /// The content of `start.sh`.
    pub start_script: Option<String>,
    /// How many `*.jar` files the directory holds.
    pub jar_count: usize,
    /// The canonical form of the path, absent where it cannot be resolved.
    pub canonical_path: Option<String>,
    /// The processes that `pgrep -f "java.*server.jar"` listed, in its order.
    pub java_processes: Vec<JavaProcess>,
}

/// The view of an optional string.
pub open spec fn opt_view(o: Option<String>) -> Option<Seq<char>> {
    match o {
        Some(s) => Some(s@),
        None => None,
    }
}

} // verus!
