//! What a client asks the build server.
use vstd::prelude::*;

verus! {

/// The status of a build action.
#[derive(Clone, Copy, Debug, PartialEq, Eq, Hash)]
pub enum EStatus {
    Running,
    Success,
    Failure,
}

/// A build action on a target.
#[derive(Clone, Debug, PartialEq, Eq, Hash)]
pub struct BuildAction {
    pub target: String,
    pub status: EStatus,
}

/// Where the sources, the books and the build tree are.
#[derive(Clone, Debug, PartialEq, Eq, Hash)]
pub struct BuildConfig {
    pub songdir: String,
    pub bookdir: String,
    pub builddir: String,
}

/// A file to save: its path (as shown to the client) and its new content.
#[derive(Clone, Debug, PartialEq, Eq, Hash)]
pub struct InfoSaveFile {
    pub path: String,
    pub content: String,
}

/// The requests.
#[derive(Clone, Debug, PartialEq, Eq, Hash)]
pub enum EChoice {
    /// Build everything; the identifier of the run.
    ItemBuild(String),
    ItemOMakeChildrenInfo,
    ItemOMakeKill,
    ItemCleanBuildTree,
    ItemHealthCheck,
    ItemSeeProgress,
    ItemSourceTree,
    ItemSaveFile(InfoSaveFile),
    ItemGetOMakeStdout,
    /// A source file, by its path under the song directory.
    ItemGetSourceFile(String),
    ItemGetOMakeProgress,
}

/// A request.
#[derive(Clone, Debug, PartialEq, Eq)]
pub struct Choice {
    pub choice: EChoice,
}

} // verus!
