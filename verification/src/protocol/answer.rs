//! What the build server answers.
use vstd::prelude::*;

verus! {

/// A running process below the build.
#[derive(Clone, Debug, PartialEq, Eq, Hash)]
pub struct ChildInfo {
    pub pid: u32,
    pub cwd: Option<String>,
    pub name: String,
    pub run_time: u64,
}

/// A node of the process tree.
#[derive(Clone, Debug, PartialEq, Eq, Hash)]
pub struct TreeInfo {
    pub item: u32,
    pub cwd: Option<String>,
    pub name: String,
    pub run_time: u64,
}

/// Where one step of the build stands: its last status, its topic and
/// message, when it started and, once it reported again, when it did (as
/// Unix timestamps).
#[derive(Clone, Debug, PartialEq, Eq, Hash)]
pub struct ProgressItem {
    pub status: String,
    pub topic: String,
    pub message: String,
    pub start_date: i64,
    pub end_date: Option<i64>,
}

/// The progress of a build.
#[derive(Clone, Debug, PartialEq, Eq, Hash)]
pub struct Progress {
    pub progress: Vec<ProgressItem>,
}

/// The source files of a song, as paths under the song directory.
#[derive(Clone, Debug, PartialEq, Eq, Hash)]
pub struct SourceTreeItem {
    pub title: String,
    pub author: String,
    pub masterjsonfile: String,
    pub mastertexfile: String,
    pub texfiles: Vec<String>,
    pub lyricstexfiles: Vec<String>,
    pub lyfiles: Vec<String>,
}

/// The source files of all the songs.
#[derive(Clone, Debug, PartialEq, Eq, Hash)]
pub struct SourceTree {
    pub items: Vec<SourceTreeItem>,
}

/// The answers.
#[derive(Clone, Debug, PartialEq, Eq, Hash)]
pub enum EChoice {
    /// A build was started, by the process with this id.
    ItemOmakeBuild(u32),
    ItemOMakeOmakeChildren(Vec<ChildInfo>),
    ItemOkMessage,
    ItemErrorMessage(String),
    ItemHealthOk,
    ItemSeeProgress(Progress),
    ItemSourceTree(SourceTree),
    /// A file: its name and its content.
    ItemFileData(String, String),
}

/// An answer.
#[derive(Clone, Debug, PartialEq, Eq)]
pub struct Choice {
    pub choice: EChoice,
}

} // verus!
