//! What the storage layer computes around its database: the names under
//! which enums are stored, rows turned back into records, the error for a
//! rejected insert, the stored AI configuration and result snippets.
use vstd::prelude::*;
use vstd::string::StringSliceAdditionalSpecFns;
use vstd::utf8::*;

use crate::chunking::{floor_boundary, lemma_floor_boundary};
use crate::common::{
    AiConfig, AiProvider, Chunk, FileEntry, FileType, KnowlixError, Project, Timestamp, WikiPage,
};
use crate::text::{
    char_is_whitespace, chars_of, contains_str, is_ws, lemma_encode_concat, spec_contains, str_eq,
    string_from_chars,
};

verus! {

broadcast use vstd::utf8::group_utf8_lib;

pub open spec fn spec_file_type_name(ft: FileType) -> Seq<char> {
    match ft {
        FileType::Text => "text"@,
        FileType::Markdown => "markdown"@,
        FileType::Code => "code"@,
        FileType::Pdf => "pdf"@,
        FileType::Word => "word"@,
        FileType::Excel => "excel"@,
        FileType::Image => "image"@,
        FileType::Unknown => "unknown"@,
    }
}

pub open spec fn spec_file_type_from_name(s: Seq<char>) -> FileType {
    if s == "text"@ {
        FileType::Text
    } else if s == "markdown"@ {
        FileType::Markdown
    } else if s == "code"@ {
        FileType::Code
    } else if s == "pdf"@ {
        FileType::Pdf
    } else if s == "word"@ {
        FileType::Word
    } else if s == "excel"@ {
        FileType::Excel
    } else if s == "image"@ {
        FileType::Image
    } else {
        FileType::Unknown
    }
}

/// The name under which a file type is stored.
pub fn file_type_to_str(ft: FileType) -> (r: &'static str)
    ensures
        r@ == spec_file_type_name(ft),
{
    match ft {
        FileType::Text => "text",
        FileType::Markdown => "markdown",
        FileType::Code => "code",
        FileType::Pdf => "pdf",
        FileType::Word => "word",
        FileType::Excel => "excel",
        FileType::Image => "image",
        FileType::Unknown => "unknown",
    }
}

/// The file type stored under a name; any other name reads as `Unknown`.
pub fn str_to_file_type(s: &str) -> (r: FileType)
    ensures
        r == spec_file_type_from_name(s@),
{
    if str_eq(s, "text") {
        FileType::Text
    } else if str_eq(s, "markdown") {
        FileType::Markdown
    } else if str_eq(s, "code") {
        FileType::Code
    } else if str_eq(s, "pdf") {
        FileType::Pdf
    } else if str_eq(s, "word") {
        FileType::Word
    } else if str_eq(s, "excel") {
        FileType::Excel
    } else if str_eq(s, "image") {
        FileType::Image
    } else {
        FileType::Unknown
    }
}

/// A stored file type reads back as itself.
pub proof fn lemma_file_type_round_trip(ft: FileType)
    ensures
        spec_file_type_from_name(spec_file_type_name(ft)) == ft,
{
    reveal_strlit("text");
    reveal_strlit("markdown");
    reveal_strlit("code");
    reveal_strlit("pdf");
    reveal_strlit("word");
    reveal_strlit("excel");
    reveal_strlit("image");
    reveal_strlit("unknown");
    let n = spec_file_type_name(ft);
    assert("text"@[0] == 't' && "markdown"@[0] == 'm' && "code"@[0] == 'c' && "pdf"@[0] == 'p');
    assert("word"@[0] == 'w' && "excel"@[0] == 'e' && "image"@[0] == 'i' && "unknown"@[0] == 'u');
    assert(n.len() > 0);
}

pub open spec fn spec_provider_name(p: AiProvider) -> Seq<char> {
    match p {
        AiProvider::Disabled => "none"@,
        AiProvider::Ollama => "ollama"@,
        AiProvider::Api => "api"@,
    }
}

pub open spec fn spec_provider_from_name(s: Seq<char>) -> AiProvider {
    if s == "ollama"@ {
        AiProvider::Ollama
    } else if s == "api"@ {
        AiProvider::Api
    } else {
        AiProvider::Disabled
    }
}

/// The name under which an AI provider is stored.
pub fn ai_provider_to_str(p: AiProvider) -> (r: &'static str)
    ensures
        r@ == spec_provider_name(p),
{
    match p {
        AiProvider::Disabled => "none",
        AiProvider::Ollama => "ollama",
        AiProvider::Api => "api",
    }
}

/// The provider stored under a name; any other name reads as no provider.
pub fn str_to_ai_provider(s: &str) -> (r: AiProvider)
    ensures
        r == spec_provider_from_name(s@),
{
    if str_eq(s, "ollama") {
        AiProvider::Ollama
    } else if str_eq(s, "api") {
        AiProvider::Api
    } else {
        AiProvider::Disabled
    }
}

/// A stored AI provider reads back as itself.
pub proof fn lemma_provider_round_trip(p: AiProvider)
    ensures
        spec_provider_from_name(spec_provider_name(p)) == p,
{
    reveal_strlit("none");
    reveal_strlit("ollama");
    reveal_strlit("api");
    let n = spec_provider_name(p);
    assert("none"@[0] == 'n' && "ollama"@[0] == 'o' && "api"@[0] == 'a');
    assert(n.len() > 0);
}

/// The message of a project name that is already taken.
pub open spec fn duplicate_name_message(name: Seq<char>) -> Seq<char> {
    "Project '"@ + name + "' already exists"@
}

/// The error for a project name that is already taken.
pub fn duplicate_project_error(name: &str) -> (e: KnowlixError)
    ensures
        e matches KnowlixError::Duplicate(m) && m@ == duplicate_name_message(name@),
{
    let mut m = String::from_str("Project '");
    m.append(name);
    m.append("' already exists");
    KnowlixError::Duplicate(m)
}

/// The error for a failed project insert, from the database's message: a
/// violated uniqueness constraint means the name is taken.
pub fn insert_project_error(db_message: &str, name: &str) -> (e: KnowlixError)
    ensures
        spec_contains(db_message@, "UNIQUE"@) ==> (e matches KnowlixError::Duplicate(m) && m@
            == duplicate_name_message(name@)),
        !spec_contains(db_message@, "UNIQUE"@) ==> (e matches KnowlixError::Storage(m) && m@
            == db_message@),
{
    if contains_str(db_message, "UNIQUE") {
        duplicate_project_error(name)
    } else {
        KnowlixError::Storage(String::from_str(db_message))
    }
}

/// The AI configuration as stored in its table.
pub struct AiConfigRow {
    pub provider: String,
    pub ollama_model: Option<String>,
    pub ollama_url: String,
    pub api_key: Option<String>,
    pub api_base_url: String,
    pub api_model: Option<String>,
}

/// The AI configuration read from its row, or the default one when no row
/// has been saved.
pub fn ai_config_from_row(row: Option<AiConfigRow>) -> (c: AiConfig)
    ensures
        match row {
            Some(r) => c.provider == spec_provider_from_name(r.provider@) && c.ollama_model
                == r.ollama_model && c.ollama_url == r.ollama_url && c.api_key == r.api_key
                && c.api_base_url == r.api_base_url && c.api_model == r.api_model,
            None => c.provider == AiProvider::Disabled && (c.ollama_model matches Some(m) && m@
                == "phi3.5"@) && c.ollama_url@ == "http://localhost:11434"@ && c.api_key is None
                && c.api_base_url@ == "https://api.openai.com/v1"@ && c.api_model is None,
        },
{
    match row {
        Some(r) => AiConfig {
            provider: str_to_ai_provider(r.provider.as_str()),
            ollama_model: r.ollama_model,
            ollama_url: r.ollama_url,
            api_key: r.api_key,
            api_base_url: r.api_base_url,
            api_model: r.api_model,
        },
        None => AiConfig::default(),
    }
}

/// Name for what `serde_json::from_str::<Vec<String>>` gives: the strings of
/// a JSON array of strings, or the parser's error message.
pub uninterp spec fn spec_json_string_list(s: Seq<char>) -> Result<Seq<Seq<char>>, Seq<char>>;

/// `serde_json::from_str::<Vec<String>>`, with the error rendered by its
/// `Display`. The JSON grammar is not written out here.
#[verifier::external_body]
fn parse_json_string_list(s: &str) -> (r: Result<Vec<String>, String>)
    ensures
        match r {
            Ok(v) => spec_json_string_list(s@) == Ok::<Seq<Seq<char>>, Seq<char>>(v.deep_view()),
            Err(m) => spec_json_string_list(s@) == Err::<Seq<Seq<char>>, Seq<char>>(m@),
        },
{
    match serde_json::from_str::<Vec<String>>(s) {
        Ok(v) => Ok(v),
        Err(e) => Err(e.to_string()),
    }
}

/// Name for what `chrono::DateTime::parse_from_rfc3339` gives: the instant
/// as epoch seconds and nanoseconds, or the parser's error message.
pub uninterp spec fn spec_rfc3339(s: Seq<char>) -> Result<(i64, u32), Seq<char>>;

/// `chrono::DateTime::parse_from_rfc3339`, taken as the instant it denotes
/// (`timestamp`, `timestamp_subsec_nanos`), with the error rendered by its
/// `Display`. The RFC 3339 grammar is not written out here.
#[verifier::external_body]
fn parse_rfc3339(s: &str) -> (r: Result<Timestamp, String>)
    ensures
        match r {
            Ok(t) => spec_rfc3339(s@) == Ok::<(i64, u32), Seq<char>>((t.secs, t.nanos)),
            Err(m) => spec_rfc3339(s@) == Err::<(i64, u32), Seq<char>>(m@),
        },
{
    match chrono::DateTime::parse_from_rfc3339(s) {
        Ok(d) => Ok(Timestamp { secs: d.timestamp(), nanos: d.timestamp_subsec_nanos() }),
        Err(e) => Err(e.to_string()),
    }
}

/// Name for what `serde_json::to_string` gives for a list of strings: its
/// JSON text, or the serializer's error message.
pub uninterp spec fn spec_json_of_list(v: Seq<Seq<char>>) -> Result<Seq<char>, Seq<char>>;

/// `serde_json::to_string` on a list of strings, with the error rendered by
/// its `Display`. The text it writes parses back (`serde_json::from_str`) to
/// the same list; the JSON escaping rules are not written out here.
#[verifier::external_body]
fn json_of_string_list(v: &Vec<String>) -> (r: Result<String, String>)
    ensures
        match r {
            Ok(s) => spec_json_of_list(v.deep_view()) == Ok::<Seq<char>, Seq<char>>(s@)
                && spec_json_string_list(s@) == Ok::<Seq<Seq<char>>, Seq<char>>(v.deep_view()),
            Err(m) => spec_json_of_list(v.deep_view()) == Err::<Seq<char>, Seq<char>>(m@),
        },
{
    match serde_json::to_string(v) {
        Ok(s) => Ok(s),
        Err(e) => Err(e.to_string()),
    }
}

/// Name for the RFC 3339 text (`DateTime::<Utc>::to_rfc3339`) of the instant
/// `secs` seconds and `nanos` nanoseconds after the Unix epoch, or `None`
/// when `DateTime::from_timestamp` cannot represent that instant.
pub uninterp spec fn spec_rfc3339_text(secs: i64, nanos: u32) -> Option<Seq<char>>;

/// An instant in the years 1 to 9999 outside a leap second: its RFC 3339
/// text has a four-digit year, which `parse_from_rfc3339` reads.
pub open spec fn four_digit_year(t: Timestamp) -> bool {
    -62135596800 <= t.secs <= 253402300799 && t.nanos < 1_000_000_000
}

/// `DateTime::from_timestamp` followed by `to_rfc3339`. In the years 1 to
/// 9999 the instant is representable and its text, written with the
/// `+00:00` offset and as many fraction digits as the nanoseconds need,
/// parses back to the same instant.
#[verifier::external_body]
fn rfc3339_text(t: Timestamp) -> (r: Option<String>)
    ensures
        spec_rfc3339_text(t.secs, t.nanos) == match r {
            Some(s) => Some(s@),
            None => None::<Seq<char>>,
        },
        four_digit_year(t) ==> r is Some,
        r matches Some(x) ==> (four_digit_year(t) ==> spec_rfc3339(x@) == Ok::<
            (i64, u32),
            Seq<char>,
        >((t.secs, t.nanos))),
{
    match chrono::DateTime::from_timestamp(t.secs, t.nanos) {
        Some(d) => Some(d.to_rfc3339()),
        None => None,
    }
}

/// A list of strings as stored: its JSON text, or a storage error.
fn json_text_field(v: &Vec<String>) -> (r: Result<String, KnowlixError>)
    ensures
        match spec_json_of_list(v.deep_view()) {
            Ok(t) => (r matches Ok(x) && x@ == t && spec_json_string_list(t) == Ok::<
                Seq<Seq<char>>,
                Seq<char>,
            >(v.deep_view())),
            Err(m) => (r matches Err(KnowlixError::Storage(x)) && x@ == m),
        },
{
    match json_of_string_list(v) {
        Ok(t) => Ok(t),
        Err(m) => Err(KnowlixError::Storage(m)),
    }
}

/// An instant as stored: its RFC 3339 text, or a storage error for an
/// instant that no date can hold.
fn time_text_field(t: Timestamp) -> (r: Result<String, KnowlixError>)
    ensures
        match spec_rfc3339_text(t.secs, t.nanos) {
            Some(x) => (r matches Ok(y) && y@ == x),
            None => (r matches Err(KnowlixError::Storage(m)) && m@ == "timestamp out of range"@),
        },
        four_digit_year(t) ==> (r matches Ok(y) && spec_rfc3339(y@) == Ok::<(i64, u32), Seq<char>>(
            (t.secs, t.nanos),
        )),
{
    match rfc3339_text(t) {
        Some(x) => Ok(x),
        None => Err(KnowlixError::Storage(String::from_str("timestamp out of range"))),
    }
}

/// A stored JSON list of strings, or a storage error with the parser's message.
fn json_list_field(s: &str) -> (r: Result<Vec<String>, KnowlixError>)
    ensures
        match spec_json_string_list(s@) {
            Ok(v) => r matches Ok(x) && x.deep_view() == v,
            Err(m) => r matches Err(KnowlixError::Storage(x)) && x@ == m,
        },
{
    match parse_json_string_list(s) {
        Ok(v) => Ok(v),
        Err(m) => Err(KnowlixError::Storage(m)),
    }
}

/// A stored RFC 3339 time, or a storage error with the parser's message.
fn time_field(s: &str) -> (r: Result<Timestamp, KnowlixError>)
    ensures
        match spec_rfc3339(s@) {
            Ok(t) => r == Ok::<Timestamp, KnowlixError>(Timestamp { secs: t.0, nanos: t.1 }),
            Err(m) => r matches Err(KnowlixError::Storage(x)) && x@ == m,
        },
{
    match parse_rfc3339(s) {
        Ok(t) => Ok(t),
        Err(m) => Err(KnowlixError::Storage(m)),
    }
}

/// A project as stored: folders as a JSON list, times in RFC 3339.
pub struct ProjectRow {
    pub id: String,
    pub name: String,
    pub description: Option<String>,
    pub folders: String,
    pub created_at: String,
    pub updated_at: String,
}

/// A project read back from its row; the first field that does not parse
/// (folders, then creation time, then update time) gives a storage error.
pub fn project_from_row(row: ProjectRow) -> (r: Result<Project, KnowlixError>)
    ensures
        match (
            spec_json_string_list(row.folders@),
            spec_rfc3339(row.created_at@),
            spec_rfc3339(row.updated_at@),
        ) {
            (Ok(f), Ok(c), Ok(u)) => r matches Ok(p) && p.id == row.id && p.name == row.name
                && p.description == row.description && p.folders.deep_view() == f && p.created_at
                == (Timestamp { secs: c.0, nanos: c.1 }) && p.updated_at == (Timestamp {
                secs: u.0,
                nanos: u.1,
            }),
            (Err(m), _, _) => r matches Err(KnowlixError::Storage(x)) && x@ == m,
            (Ok(_), Err(m), _) => r matches Err(KnowlixError::Storage(x)) && x@ == m,
            (Ok(_), Ok(_), Err(m)) => r matches Err(KnowlixError::Storage(x)) && x@ == m,
        },
{
    let folders = match json_list_field(row.folders.as_str()) {
        Ok(f) => f,
        Err(e) => return Err(e),
    };
    let created_at = match time_field(row.created_at.as_str()) {
        Ok(t) => t,
        Err(e) => return Err(e),
    };
    let updated_at = match time_field(row.updated_at.as_str()) {
        Ok(t) => t,
        Err(e) => return Err(e),
    };
    Ok(
        Project {
            id: row.id,
            name: row.name,
            description: row.description,
            folders,
            created_at,
            updated_at,
        },
    )
}

/// Whether reading the row back gives the project's folders and times.
pub open spec fn project_reads_back(row: ProjectRow, p: Project) -> bool {
    &&& spec_json_string_list(row.folders@) == Ok::<Seq<Seq<char>>, Seq<char>>(p.folders.deep_view())
    &&& spec_rfc3339(row.created_at@) == Ok::<(i64, u32), Seq<char>>(
        (p.created_at.secs, p.created_at.nanos),
    )
    &&& spec_rfc3339(row.updated_at@) == Ok::<(i64, u32), Seq<char>>(
        (p.updated_at.secs, p.updated_at.nanos),
    )
}

/// A project as it is stored: folders as JSON, times in RFC 3339. What is
/// stored reads back (see `project_from_row`) as the same project when its
/// times fall in the years 1 to 9999.
pub fn project_to_row(p: &Project) -> (r: Result<ProjectRow, KnowlixError>)
    ensures
        match (
            spec_json_of_list(p.folders.deep_view()),
            spec_rfc3339_text(p.created_at.secs, p.created_at.nanos),
            spec_rfc3339_text(p.updated_at.secs, p.updated_at.nanos),
        ) {
            (Ok(f), Some(c), Some(u)) => (r matches Ok(row) && row.id@ == p.id@ && row.name@
                == p.name@ && row.description == p.description && row.folders@ == f
                && row.created_at@ == c && row.updated_at@ == u),
            (Err(m), _, _) => (r matches Err(KnowlixError::Storage(x)) && x@ == m),
            (Ok(_), None, _) => (r matches Err(KnowlixError::Storage(x)) && x@
                == "timestamp out of range"@),
            (Ok(_), Some(_), None) => (r matches Err(KnowlixError::Storage(x)) && x@
                == "timestamp out of range"@),
        },
        r matches Ok(row) ==> (four_digit_year(p.created_at) && four_digit_year(p.updated_at)
            ==> project_reads_back(row, *p)),
{
    let folders = match json_text_field(&p.folders) {
        Ok(f) => f,
        Err(e) => return Err(e),
    };
    let created_at = match time_text_field(p.created_at) {
        Ok(t) => t,
        Err(e) => return Err(e),
    };
    let updated_at = match time_text_field(p.updated_at) {
        Ok(t) => t,
        Err(e) => return Err(e),
    };
    Ok(
        ProjectRow {
            id: p.id.clone(),
            name: p.name.clone(),
            description: p.description.clone(),
            folders,
            created_at,
            updated_at,
        },
    )
}

/// What is written for a project reads back as that project: when its times
/// fall in the years 1 to 9999, `project_from_row` on the row that
/// `project_to_row` gave succeeds with the same folders and times.
pub proof fn lemma_project_row_round_trip(p: Project, row: ProjectRow)
    requires
        project_reads_back(row, p),
    ensures
        spec_json_string_list(row.folders@) is Ok,
        spec_rfc3339(row.created_at@) is Ok,
        spec_rfc3339(row.updated_at@) is Ok,
        spec_json_string_list(row.folders@)->Ok_0 == p.folders.deep_view(),
        (Timestamp {
            secs: spec_rfc3339(row.created_at@)->Ok_0.0,
            nanos: spec_rfc3339(row.created_at@)->Ok_0.1,
        }) == p.created_at,
        (Timestamp {
            secs: spec_rfc3339(row.updated_at@)->Ok_0.0,
            nanos: spec_rfc3339(row.updated_at@)->Ok_0.1,
        }) == p.updated_at,
{
}

/// A file entry as stored: type by name, time in RFC 3339, flag as integer.
pub struct FileEntryRow {
    pub id: String,
    pub project_id: String,
    pub path: String,
    pub file_type: String,
    pub language: Option<String>,
    pub size_bytes: i64,
    pub content_hash: String,
    pub last_indexed: String,
    pub indexed: i64,
}

/// A file entry read back from its row; an unparsable time gives a storage error.
pub fn file_entry_from_row(row: FileEntryRow) -> (r: Result<FileEntry, KnowlixError>)
    ensures
        match spec_rfc3339(row.last_indexed@) {
            Ok(t) => r matches Ok(e) && e.id == row.id && e.project_id == row.project_id && e.path
                == row.path && e.file_type == spec_file_type_from_name(row.file_type@) && e.language
                == row.language && e.size_bytes == row.size_bytes && e.content_hash
                == row.content_hash && e.last_indexed == (Timestamp { secs: t.0, nanos: t.1 })
                && e.indexed == (row.indexed != 0),
            Err(m) => r matches Err(KnowlixError::Storage(x)) && x@ == m,
        },
{
    let file_type = str_to_file_type(row.file_type.as_str());
    let last_indexed = match time_field(row.last_indexed.as_str()) {
        Ok(t) => t,
        Err(e) => return Err(e),
    };
    Ok(
        FileEntry {
            id: row.id,
            project_id: row.project_id,
            path: row.path,
            file_type,
            language: row.language,
            size_bytes: row.size_bytes,
            content_hash: row.content_hash,
            last_indexed,
            indexed: row.indexed != 0,
        },
    )
}

/// A file entry as it is stored: type by name, time in RFC 3339, the
/// indexed flag as 0 or 1.
pub fn file_entry_to_row(e: &FileEntry) -> (r: Result<FileEntryRow, KnowlixError>)
    ensures
        match spec_rfc3339_text(e.last_indexed.secs, e.last_indexed.nanos) {
            Some(t) => (r matches Ok(row) && row.id@ == e.id@ && row.project_id@ == e.project_id@
                && row.path@ == e.path@ && row.file_type@ == spec_file_type_name(e.file_type)
                && row.language == e.language && row.size_bytes == e.size_bytes
                && row.content_hash@ == e.content_hash@ && row.last_indexed@ == t
                && row.indexed == (if e.indexed {
                1i64
            } else {
                0i64
            })),
            None => (r matches Err(KnowlixError::Storage(x)) && x@ == "timestamp out of range"@),
        },
        r matches Ok(row) ==> (four_digit_year(e.last_indexed) ==> spec_rfc3339(
            row.last_indexed@,
        ) == Ok::<(i64, u32), Seq<char>>((e.last_indexed.secs, e.last_indexed.nanos))),
{
    let last_indexed = match time_text_field(e.last_indexed) {
        Ok(t) => t,
        Err(x) => return Err(x),
    };
    Ok(
        FileEntryRow {
            id: e.id.clone(),
            project_id: e.project_id.clone(),
            path: e.path.clone(),
            file_type: String::from_str(file_type_to_str(e.file_type)),
            language: e.language.clone(),
            size_bytes: e.size_bytes,
            content_hash: e.content_hash.clone(),
            last_indexed,
            indexed: if e.indexed {
                1
            } else {
                0
            },
        },
    )
}

/// A chunk as stored.
pub struct ChunkRow {
    pub id: String,
    pub file_id: String,
    pub chunk_index: i32,
    pub content: String,
    pub token_count: i32,
    pub start_byte: i64,
    pub end_byte: i64,
}

/// A chunk read back from its row, field for field.
pub fn chunk_from_row(row: ChunkRow) -> (c: Chunk)
    ensures
        c.id == row.id,
        c.file_id == row.file_id,
        c.chunk_index == row.chunk_index,
        c.content == row.content,
        c.token_count == row.token_count,
        c.start_byte == row.start_byte,
        c.end_byte == row.end_byte,
{
    Chunk {
        id: row.id,
        file_id: row.file_id,
        chunk_index: row.chunk_index,
        content: row.content,
        token_count: row.token_count,
        start_byte: row.start_byte,
        end_byte: row.end_byte,
    }
}

/// A wiki page as stored: tags and hashes as JSON lists, times in RFC 3339.
pub struct WikiPageRow {
    pub id: String,
    pub project_id: Option<String>,
    pub title: String,
    pub content: String,
    pub tags: String,
    pub source_hashes: String,
    pub created_at: String,
    pub updated_at: String,
}

/// A wiki page read back from its row; the first field that does not parse
/// (tags, source hashes, creation time, update time) gives a storage error.
pub fn wiki_page_from_row(row: WikiPageRow) -> (r: Result<WikiPage, KnowlixError>)
    ensures
        match (
            spec_json_string_list(row.tags@),
            spec_json_string_list(row.source_hashes@),
            spec_rfc3339(row.created_at@),
            spec_rfc3339(row.updated_at@),
        ) {
            (Ok(tg), Ok(h), Ok(c), Ok(u)) => r matches Ok(p) && p.id == row.id && p.project_id
                == row.project_id && p.title == row.title && p.content == row.content
                && p.tags.deep_view() == tg && p.source_hashes.deep_view() == h && p.created_at
                == (Timestamp { secs: c.0, nanos: c.1 }) && p.updated_at == (Timestamp {
                secs: u.0,
                nanos: u.1,
            }),
            (Err(m), _, _, _) => r matches Err(KnowlixError::Storage(x)) && x@ == m,
            (Ok(_), Err(m), _, _) => r matches Err(KnowlixError::Storage(x)) && x@ == m,
            (Ok(_), Ok(_), Err(m), _) => r matches Err(KnowlixError::Storage(x)) && x@ == m,
            (Ok(_), Ok(_), Ok(_), Err(m)) => r matches Err(KnowlixError::Storage(x)) && x@ == m,
        },
{
    let tags = match json_list_field(row.tags.as_str()) {
        Ok(t) => t,
        Err(e) => return Err(e),
    };
    let source_hashes = match json_list_field(row.source_hashes.as_str()) {
        Ok(h) => h,
        Err(e) => return Err(e),
    };
    let created_at = match time_field(row.created_at.as_str()) {
        Ok(t) => t,
        Err(e) => return Err(e),
    };
    let updated_at = match time_field(row.updated_at.as_str()) {
        Ok(t) => t,
        Err(e) => return Err(e),
    };
    Ok(
        WikiPage {
            id: row.id,
            project_id: row.project_id,
            title: row.title,
            content: row.content,
            tags,
            source_hashes,
            created_at,
            updated_at,
        },
    )
}

/// A chunk as it is stored, field for field.
pub fn chunk_to_row(c: &Chunk) -> (row: ChunkRow)
    ensures
        row.id@ == c.id@,
        row.file_id@ == c.file_id@,
        row.chunk_index == c.chunk_index,
        row.content@ == c.content@,
        row.token_count == c.token_count,
        row.start_byte == c.start_byte,
        row.end_byte == c.end_byte,
{
    ChunkRow {
        id: c.id.clone(),
        file_id: c.file_id.clone(),
        chunk_index: c.chunk_index,
        content: c.content.clone(),
        token_count: c.token_count,
        start_byte: c.start_byte,
        end_byte: c.end_byte,
    }
}

/// A wiki page as it is stored: tags and hashes as JSON, times in RFC 3339.
pub fn wiki_page_to_row(p: &WikiPage) -> (r: Result<WikiPageRow, KnowlixError>)
    ensures
        match (
            spec_json_of_list(p.tags.deep_view()),
            spec_json_of_list(p.source_hashes.deep_view()),
            spec_rfc3339_text(p.created_at.secs, p.created_at.nanos),
            spec_rfc3339_text(p.updated_at.secs, p.updated_at.nanos),
        ) {
            (Ok(tg), Ok(h), Some(c), Some(u)) => (r matches Ok(row) && row.id@ == p.id@
                && row.project_id == p.project_id && row.title@ == p.title@ && row.content@
                == p.content@ && row.tags@ == tg && row.source_hashes@ == h && row.created_at@ == c
                && row.updated_at@ == u),
            (Err(m), _, _, _) => (r matches Err(KnowlixError::Storage(x)) && x@ == m),
            (Ok(_), Err(m), _, _) => (r matches Err(KnowlixError::Storage(x)) && x@ == m),
            (Ok(_), Ok(_), None, _) => (r matches Err(KnowlixError::Storage(x)) && x@
                == "timestamp out of range"@),
            (Ok(_), Ok(_), Some(_), None) => (r matches Err(KnowlixError::Storage(x)) && x@
                == "timestamp out of range"@),
        },
        r matches Ok(row) ==> spec_json_string_list(row.tags@) == Ok::<
            Seq<Seq<char>>,
            Seq<char>,
        >(p.tags.deep_view()) && spec_json_string_list(row.source_hashes@) == Ok::<
            Seq<Seq<char>>,
            Seq<char>,
        >(p.source_hashes.deep_view()),
{
    let tags = match json_text_field(&p.tags) {
        Ok(t) => t,
        Err(e) => return Err(e),
    };
    let source_hashes = match json_text_field(&p.source_hashes) {
        Ok(h) => h,
        Err(e) => return Err(e),
    };
    let created_at = match time_text_field(p.created_at) {
        Ok(t) => t,
        Err(e) => return Err(e),
    };
    let updated_at = match time_text_field(p.updated_at) {
        Ok(t) => t,
        Err(e) => return Err(e),
    };
    Ok(
        WikiPageRow {
            id: p.id.clone(),
            project_id: p.project_id.clone(),
            title: p.title.clone(),
            content: p.content.clone(),
            tags,
            source_hashes,
            created_at,
            updated_at,
        },
    )
}

/// The AI configuration as it is stored: the provider by name.
pub fn ai_config_to_row(c: &AiConfig) -> (row: AiConfigRow)
    ensures
        row.provider@ == spec_provider_name(c.provider),
        row.ollama_model == c.ollama_model,
        row.ollama_url@ == c.ollama_url@,
        row.api_key == c.api_key,
        row.api_base_url@ == c.api_base_url@,
        row.api_model == c.api_model,
{
    AiConfigRow {
        provider: String::from_str(ai_provider_to_str(c.provider)),
        ollama_model: c.ollama_model.clone(),
        ollama_url: c.ollama_url.clone(),
        api_key: c.api_key.clone(),
        api_base_url: c.api_base_url.clone(),
        api_model: c.api_model.clone(),
    }
}

/// A saved AI configuration reads back as itself.
pub proof fn lemma_ai_config_round_trip(row: AiConfigRow, c: AiConfig)
    requires
        row.provider@ == spec_provider_name(c.provider),
    ensures
        spec_provider_from_name(row.provider@) == c.provider,
{
    lemma_provider_round_trip(c.provider);
}

/// A keyword index hit: the chunk, its file, the relevance score as the bit
/// pattern of its `f32` value (`f32::to_bits`), and a snippet of its text.
pub struct FtsHit {
    pub chunk_id: String,
    pub file_id: String,
    pub file_path: String,
    pub score_bits: u32,
    pub snippet: String,
}

/// The number of documents a keyword search asks the index for: the limit,
/// but at least one.
pub fn fts_fetch_limit(limit: usize) -> (r: usize)
    ensures
        r == if limit >= 1 {
            limit
        } else {
            1
        },
{
    if limit >= 1 {
        limit
    } else {
        1
    }
}

/// A hit built from the stored fields of a matching chunk, with a snippet of
/// at most 300 bytes of its content (see `make_snippet`).
pub fn fts_hit(chunk_id: String, file_id: String, file_path: String, score_bits: u32, content: &str) -> (h: FtsHit)
    ensures
        h.chunk_id == chunk_id,
        h.file_id == file_id,
        h.file_path == file_path,
        h.score_bits == score_bits,
        h.snippet@ == spec_snippet(content@, 300),
{
    let snippet = make_snippet(content, 300);
    FtsHit { chunk_id, file_id, file_path, score_bits, snippet }
}

/// The index of the last whitespace character, if any.
pub open spec fn last_ws(s: Seq<char>) -> Option<int>
    decreases s.len(),
{
    if s.len() == 0 {
        None
    } else if is_ws(s.last()) {
        Some(s.len() - 1)
    } else {
        last_ws(s.drop_last())
    }
}

/// The snippet shown for a chunk: the whole content when it has at most
/// `max_len` bytes; otherwise its first `max_len` bytes, moved back to the
/// last character boundary, cut back before their last whitespace character
/// (kept whole when there is none), then `…`.
pub open spec fn spec_snippet(content: Seq<char>, max_len: int) -> Seq<char> {
    let b = encode_utf8(content);
    if b.len() <= max_len {
        content
    } else {
        let t = decode_utf8(b.subrange(0, floor_boundary(b, 0, max_len)));
        match last_ws(t) {
            Some(k) => t.take(k) + seq!['\u{2026}'],
            None => t + seq!['\u{2026}'],
        }
    }
}

/// The first `max_len` bytes of a chunk, moved back to a character
/// boundary, cut back to its last whitespace and marked with `…`; short
/// content is kept whole.
pub fn make_snippet(content: &str, max_len: usize) -> (r: String)
    ensures
        r@ == spec_snippet(content@, max_len as int),
{
    let n = content.as_bytes().len();
    if n <= max_len {
        return String::from_str(content);
    }
    let ghost b = content.spec_bytes();
    let mut cut = max_len;
    while cut > 0 && !content.is_char_boundary(cut)
        invariant
            cut <= max_len < b.len(),
            b == content.spec_bytes(),
            floor_boundary(b, 0, max_len as int) == floor_boundary(b, 0, cut as int),
        decreases cut,
    {
        cut = cut - 1;
    }
    proof {
        assert(floor_boundary(b, 0, cut as int) == cut);
    }
    let (truncated, _) = content.split_at(cut);
    proof {
        assert(truncated.spec_bytes() =~= content.spec_bytes().subrange(0, cut as int));
        assert(truncated@ == decode_utf8(truncated.spec_bytes()));
    }
    let t = chars_of(truncated);
    let mut k = t.len();
    proof {
        assert(t@.take(k as int) =~= t@);
    }
    while k > 0 && !char_is_whitespace(t[k - 1])
        invariant
            k <= t@.len(),
            last_ws(t@) == last_ws(t@.take(k as int)),
        decreases k,
    {
        proof {
            assert(t@.take(k as int).drop_last() =~= t@.take(k - 1));
        }
        k = k - 1;
    }
    let mut out: Vec<char> = Vec::new();
    let end = if k > 0 {
        proof {
            assert(t@.take(k as int).last() == t@[k - 1]);
            assert(last_ws(t@) == Some(k - 1));
        }
        k - 1
    } else {
        proof {
            assert(t@.take(0) =~= Seq::<char>::empty());
        }
        t.len()
    };
    let mut i: usize = 0;
    while i < end
        invariant
            end <= t@.len(),
            i <= end,
            out@ == t@.take(i as int),
        decreases end - i,
    {
        out.push(t[i]);
        i = i + 1;
        proof {
            assert(out@ =~= t@.take(i as int));
        }
    }
    out.push('\u{2026}');
    proof {
        if k == 0 {
            assert(t@.take(end as int) =~= t@);
        }
    }
    string_from_chars(out.as_slice())
}

proof fn lemma_encode_prefix_len(s: Seq<char>, k: int)
    requires
        0 <= k <= s.len(),
    ensures
        encode_utf8(s.take(k)).len() <= encode_utf8(s).len(),
{
    assert(s =~= s.take(k) + s.skip(k));
    lemma_encode_concat(s.take(k), s.skip(k));
}

/// A snippet of a long chunk has at most `max_len` bytes before its
/// three-byte `…` mark.
pub proof fn lemma_snippet_len(content: Seq<char>, max_len: int)
    requires
        0 <= max_len,
    ensures
        encode_utf8(spec_snippet(content, max_len)).len() <= max_len + 3,
{
    let b = encode_utf8(content);
    if b.len() > max_len {
        lemma_floor_boundary(b, 0, max_len);
        let cut = floor_boundary(b, 0, max_len);
        let p = b.subrange(0, cut);
        assert(valid_utf8(p));
        let t = decode_utf8(p);
        assert(encode_utf8(t) == p);
        let ell = seq!['\u{2026}'];
        assert(encode_utf8(ell) == encode_scalar(0x2026u32) + encode_utf8(ell.drop_first()));
        assert(ell.drop_first() =~= Seq::<char>::empty());
        assert(has_width_3_encoding(0x2026u32));
        assert(encode_scalar(0x2026u32).len() == 3);
        match last_ws(t) {
            Some(k) => {
                lemma_last_ws_range(t);
                lemma_encode_concat(t.take(k), ell);
                lemma_encode_prefix_len(t, k);
            },
            None => {
                lemma_encode_concat(t, ell);
            },
        }
    }
}

proof fn lemma_last_ws_range(s: Seq<char>)
    ensures
        last_ws(s) matches Some(k) ==> 0 <= k < s.len(),
    decreases s.len(),
{
    if s.len() > 0 && !is_ws(s.last()) {
        lemma_last_ws_range(s.drop_last());
    }
}

} // verus!
