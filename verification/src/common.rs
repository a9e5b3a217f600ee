//! The data model shared by every module: projects, indexed files, chunks,
//! wiki pages, AI configuration, search results and the error type.
use vstd::prelude::*;

verus! {

/// A point in time: whole seconds since the Unix epoch and the nanoseconds
/// past that second (at or above one billion only inside a leap second).
#[derive(Clone, Copy, Debug, PartialEq, Eq, Structural)]
pub struct Timestamp {
    pub secs: i64,
    pub nanos: u32,
}

/// Chronological order of two timestamps.
pub open spec fn ts_le(a: Timestamp, b: Timestamp) -> bool {
    a.secs < b.secs || (a.secs == b.secs && a.nanos <= b.nanos)
}

/// Whether `a` is strictly later than `b`.
pub fn ts_later(a: Timestamp, b: Timestamp) -> (r: bool)
    ensures
        r == !ts_le(a, b),
{
    a.secs > b.secs || (a.secs == b.secs && a.nanos > b.nanos)
}

pub enum KnowlixError {
    ProjectNotFound(String),
    FileNotFound(String),
    UnsupportedFileType(String),
    Validation(String),
    Duplicate(String),
    Storage(String),
    Index(String),
    AiNotConfigured,
    AiProviderUnreachable(String),
    Ai(String),
    Io(String),
}

/// The message each error displays.
pub open spec fn error_message(e: KnowlixError) -> Seq<char> {
    match e {
        KnowlixError::ProjectNotFound(s) => "Project not found: "@ + s@,
        KnowlixError::FileNotFound(s) => "File not found: "@ + s@,
        KnowlixError::UnsupportedFileType(s) => "Unsupported file type: "@ + s@,
        KnowlixError::Validation(s) => "Validation error: "@ + s@,
        KnowlixError::Duplicate(s) => "Duplicate: "@ + s@,
        KnowlixError::Storage(s) => "Storage error: "@ + s@,
        KnowlixError::Index(s) => "Index error: "@ + s@,
        KnowlixError::AiNotConfigured => "AI not configured"@,
        KnowlixError::AiProviderUnreachable(s) => "AI provider unreachable: "@ + s@,
        KnowlixError::Ai(s) => "AI error: "@ + s@,
        KnowlixError::Io(s) => "IO error: "@ + s@,
    }
}

/// `prefix` followed by `rest`.
pub fn join2(prefix: &str, rest: &str) -> (r: String)
    ensures
        r@ == prefix@ + rest@,
{
    let mut s = String::from_str(prefix);
    s.append(rest);
    s
}

impl KnowlixError {
    /// The human-readable message of the error.
    pub fn message(&self) -> (r: String)
        ensures
            r@ == error_message(*self),
    {
        match self {
            KnowlixError::ProjectNotFound(s) => join2("Project not found: ", s.as_str()),
            KnowlixError::FileNotFound(s) => join2("File not found: ", s.as_str()),
            KnowlixError::UnsupportedFileType(s) => join2("Unsupported file type: ", s.as_str()),
            KnowlixError::Validation(s) => join2("Validation error: ", s.as_str()),
            KnowlixError::Duplicate(s) => join2("Duplicate: ", s.as_str()),
            KnowlixError::Storage(s) => join2("Storage error: ", s.as_str()),
            KnowlixError::Index(s) => join2("Index error: ", s.as_str()),
            KnowlixError::AiNotConfigured => String::from_str("AI not configured"),
            KnowlixError::AiProviderUnreachable(s) => join2(
                "AI provider unreachable: ",
                s.as_str(),
            ),
            KnowlixError::Ai(s) => join2("AI error: ", s.as_str()),
            KnowlixError::Io(s) => join2("IO error: ", s.as_str()),
        }
    }
}

pub struct Project {
    pub id: String,
    pub name: String,
    pub description: Option<String>,
    pub folders: Vec<String>,
    pub created_at: Timestamp,
    pub updated_at: Timestamp,
}

#[derive(Clone, Copy, Debug, PartialEq, Eq, Structural)]
pub enum FileType {
    Text,
    Markdown,
    Code,
    Pdf,
    Word,
    Excel,
    Image,
    Unknown,
}

pub struct FileEntry {
    pub id: String,
    pub project_id: String,
    pub path: String,
    pub file_type: FileType,
    pub language: Option<String>,
    pub size_bytes: i64,
    pub content_hash: String,
    pub last_indexed: Timestamp,
    pub indexed: bool,
}

#[derive(Clone, Debug)]
pub struct Chunk {
    pub id: String,
    pub file_id: String,
    pub chunk_index: i32,
    pub content: String,
    pub token_count: i32,
    pub start_byte: i64,
    pub end_byte: i64,
}

pub struct WikiPage {
    pub id: String,
    pub project_id: Option<String>,
    pub title: String,
    pub content: String,
    pub tags: Vec<String>,
    pub source_hashes: Vec<String>,
    pub created_at: Timestamp,
    pub updated_at: Timestamp,
}

#[derive(Clone, Copy, Debug, PartialEq, Eq, Structural)]
pub enum AiProvider {
    Disabled,
    Ollama,
    Api,
}

#[derive(Clone, Debug)]
pub struct AiConfig {
    pub provider: AiProvider,
    pub ollama_model: Option<String>,
    pub ollama_url: String,
    pub api_key: Option<String>,
    pub api_base_url: String,
    pub api_model: Option<String>,
}

impl Default for AiConfig {
    /// No provider, the `phi3.5` Ollama model on the local Ollama port, and
    /// the OpenAI endpoint with neither key nor model.
    fn default() -> (c: Self)
        ensures
            c.provider == AiProvider::Disabled,
            c.ollama_model matches Some(m) && m@ == "phi3.5"@,
            c.ollama_url@ == "http://localhost:11434"@,
            c.api_key is None,
            c.api_base_url@ == "https://api.openai.com/v1"@,
            c.api_model is None,
    {
        AiConfig {
            provider: AiProvider::Disabled,
            ollama_model: Some(String::from_str("phi3.5")),
            ollama_url: String::from_str("http://localhost:11434"),
            api_key: None,
            api_base_url: String::from_str("https://api.openai.com/v1"),
            api_model: None,
        }
    }
}

#[derive(Clone, Copy, Debug, PartialEq, Eq, Structural)]
pub enum AiTier {
    Disabled,
    Local,
    Api,
}

#[derive(Clone, Copy, Debug, PartialEq, Eq, Structural)]
pub enum SearchSource {
    Bm25,
    Vector,
    Hybrid,
}

/// One ranked chunk. The relevance score is carried as the bit pattern of
/// its `f32` value (`f32::to_bits`); the library never reads it.
pub struct SearchResult {
    pub file_id: String,
    pub file_path: String,
    pub chunk_id: String,
    pub snippet: String,
    pub score_bits: u32,
    pub rank_bm25: Option<i32>,
    pub rank_vec: Option<i32>,
    pub source: SearchSource,
}

pub struct AiAnswer {
    pub answer: String,
    pub sources: Vec<SearchResult>,
    pub model: String,
    pub query: String,
}

#[derive(Clone, Copy, Debug, PartialEq, Eq, Structural)]
pub enum IndexFileStatus {
    Indexed,
    Skipped,
    Failed,
    Removed,
}

pub struct IndexFileResult {
    pub path: String,
    pub status: IndexFileStatus,
    pub error: Option<String>,
}

pub struct IndexStats {
    pub total_files: usize,
    pub indexed: usize,
    pub skipped: usize,
    pub failed: usize,
    pub removed: usize,
    pub duration_ms: u64,
    pub file_results: Vec<IndexFileResult>,
}

pub struct IndexProgress {
    pub current: usize,
    pub total: usize,
    pub current_file: String,
}

pub struct IndexStatus {
    pub total_files: usize,
    pub indexed_files: usize,
    pub in_progress: bool,
    pub last_indexed: Option<Timestamp>,
}

pub struct WikiProgress {
    pub stage: String,
    pub current: usize,
    pub total: usize,
}

pub struct AiHealthStatus {
    pub tier: AiTier,
    pub model: Option<String>,
    pub reachable: bool,
    pub error: Option<String>,
}

} // verus!
