//! What the indexer and the viewer know of file extensions: which can be
//! indexed, how their text is extracted, their file type and the language
//! used to highlight them.
use vstd::prelude::*;

use crate::common::FileType;
use crate::text::{lower_extension, spec_lower_ext, spec_to_lowercase, str_eq, to_lowercase};

verus! {

/// Extensions whose files are read as plain UTF-8 text.
pub open spec fn is_plain_text_ext(e: Seq<char>) -> bool {
    e == "txt"@ || e == "log"@ || e == "md"@ || e == "mdx"@ || e == "rs"@ || e == "py"@ ||
        e == "ts"@ || e == "tsx"@ || e == "js"@ || e == "jsx"@ || e == "go"@ || e == "java"@ ||
        e == "c"@ || e == "cpp"@ || e == "cc"@ || e == "h"@ || e == "hpp"@ || e == "html"@ ||
        e == "css"@ || e == "json"@ || e == "yaml"@ || e == "yml"@ || e == "toml"@ ||
        e == "sh"@ || e == "bash"@ || e == "sql"@ || e == "rb"@ || e == "php"@ ||
        e == "swift"@ || e == "kt"@ || e == "scala"@ || e == "r"@ || e == "lua"@ ||
        e == "xml"@ || e == "vue"@ || e == "svelte"@ || e == "dart"@ || e == "csv"@
}

/// Extensions of source code files.
pub open spec fn is_code_ext(e: Seq<char>) -> bool {
    e == "rs"@ || e == "py"@ || e == "ts"@ || e == "tsx"@ || e == "js"@ || e == "jsx"@ ||
        e == "go"@ || e == "java"@ || e == "c"@ || e == "cpp"@ || e == "cc"@ || e == "h"@ ||
        e == "hpp"@ || e == "html"@ || e == "css"@ || e == "json"@ || e == "yaml"@ ||
        e == "yml"@ || e == "toml"@ || e == "sh"@ || e == "bash"@ || e == "sql"@ ||
        e == "rb"@ || e == "php"@ || e == "swift"@ || e == "kt"@ || e == "scala"@ ||
        e == "r"@ || e == "lua"@ || e == "xml"@ || e == "vue"@ || e == "svelte"@ ||
        e == "dart"@
}

/// Spreadsheet extensions.
pub open spec fn is_sheet_ext(e: Seq<char>) -> bool {
    e == "xlsx"@ || e == "xls"@ || e == "xlsb"@ || e == "ods"@
}

/// Image extensions.
pub open spec fn is_image_ext(e: Seq<char>) -> bool {
    e == "png"@ || e == "jpg"@ || e == "jpeg"@ || e == "gif"@ || e == "svg"@ || e == "webp"@
}

/// How the text of a file with a given (lowercase) extension is extracted.
#[derive(Clone, Copy, Debug, PartialEq, Eq, Structural)]
pub enum ExtractKind {
    /// Read as UTF-8 text.
    PlainText,
    /// Paragraphs of `word/document.xml` in a zip archive.
    Docx,
    /// Paragraphs of `content.xml` in a zip archive (ODT, ODP).
    OpenDocument,
    /// Text extracted from a PDF.
    Pdf,
    /// Cells of every sheet of a workbook.
    Spreadsheet,
    /// Paragraphs of every slide of a PPTX archive.
    Slides,
}

pub open spec fn spec_extract_kind(e: Seq<char>) -> Option<ExtractKind> {
    if is_plain_text_ext(e) {
        Some(ExtractKind::PlainText)
    } else if e == "docx"@ {
        Some(ExtractKind::Docx)
    } else if e == "odt"@ || e == "odp"@ {
        Some(ExtractKind::OpenDocument)
    } else if e == "pdf"@ {
        Some(ExtractKind::Pdf)
    } else if is_sheet_ext(e) {
        Some(ExtractKind::Spreadsheet)
    } else if e == "pptx"@ {
        Some(ExtractKind::Slides)
    } else {
        None
    }
}

/// Extensions that the folder walk collects for indexing.
pub open spec fn spec_supported(e: Seq<char>) -> bool {
    is_plain_text_ext(e) || e == "docx"@ || e == "odt"@ || e == "odp"@ || e == "pdf"@
        || is_sheet_ext(e) || e == "pptx"@
}

pub open spec fn spec_file_type(e: Seq<char>) -> FileType {
    if e == "txt"@ || e == "log"@ || e == "csv"@ {
        FileType::Text
    } else if e == "md"@ || e == "mdx"@ {
        FileType::Markdown
    } else if e == "pdf"@ {
        FileType::Pdf
    } else if e == "docx"@ || e == "odt"@ {
        FileType::Word
    } else if is_sheet_ext(e) {
        FileType::Excel
    } else if e == "pptx"@ || e == "odp"@ {
        FileType::Unknown
    } else if is_image_ext(e) {
        FileType::Image
    } else if is_code_ext(e) {
        FileType::Code
    } else {
        FileType::Unknown
    }
}

/// The highlighting language named for an extension, `plaintext` when none is.
pub open spec fn spec_language(e: Seq<char>) -> Seq<char> {
    if e == "rs"@ {
        "rust"@
    } else if e == "py"@ {
        "python"@
    } else if e == "ts"@ || e == "tsx"@ {
        "typescript"@
    } else if e == "js"@ || e == "jsx"@ {
        "javascript"@
    } else if e == "go"@ {
        "go"@
    } else if e == "java"@ {
        "java"@
    } else if e == "c"@ {
        "c"@
    } else if e == "cpp"@ || e == "cc"@ || e == "hpp"@ {
        "cpp"@
    } else if e == "html"@ {
        "html"@
    } else if e == "css"@ {
        "css"@
    } else if e == "json"@ {
        "json"@
    } else if e == "yaml"@ || e == "yml"@ {
        "yaml"@
    } else if e == "toml"@ {
        "toml"@
    } else if e == "sh"@ || e == "bash"@ {
        "bash"@
    } else if e == "sql"@ {
        "sql"@
    } else if e == "rb"@ {
        "ruby"@
    } else if e == "php"@ {
        "php"@
    } else if e == "swift"@ {
        "swift"@
    } else if e == "kt"@ {
        "kotlin"@
    } else if e == "scala"@ {
        "scala"@
    } else if e == "r"@ {
        "r"@
    } else if e == "lua"@ {
        "lua"@
    } else if e == "xml"@ {
        "xml"@
    } else if e == "vue"@ {
        "vue"@
    } else if e == "svelte"@ {
        "svelte"@
    } else if e == "dart"@ {
        "dart"@
    } else {
        "plaintext"@
    }
}

pub fn is_plain_text_extension(e: &str) -> (r: bool)
    ensures
        r == is_plain_text_ext(e@),
{
    str_eq(e, "txt") || str_eq(e, "log") || str_eq(e, "md") || str_eq(e, "mdx") ||
        str_eq(e, "rs") || str_eq(e, "py") || str_eq(e, "ts") || str_eq(e, "tsx") ||
        str_eq(e, "js") || str_eq(e, "jsx") || str_eq(e, "go") || str_eq(e, "java") ||
        str_eq(e, "c") || str_eq(e, "cpp") || str_eq(e, "cc") || str_eq(e, "h") ||
        str_eq(e, "hpp") || str_eq(e, "html") || str_eq(e, "css") || str_eq(e, "json") ||
        str_eq(e, "yaml") || str_eq(e, "yml") || str_eq(e, "toml") || str_eq(e, "sh") ||
        str_eq(e, "bash") || str_eq(e, "sql") || str_eq(e, "rb") || str_eq(e, "php") ||
        str_eq(e, "swift") || str_eq(e, "kt") || str_eq(e, "scala") || str_eq(e, "r") ||
        str_eq(e, "lua") || str_eq(e, "xml") || str_eq(e, "vue") || str_eq(e, "svelte") ||
        str_eq(e, "dart") || str_eq(e, "csv")
}

fn is_code_extension(e: &str) -> (r: bool)
    ensures
        r == is_code_ext(e@),
{
    str_eq(e, "rs") || str_eq(e, "py") || str_eq(e, "ts") || str_eq(e, "tsx") ||
        str_eq(e, "js") || str_eq(e, "jsx") || str_eq(e, "go") || str_eq(e, "java") ||
        str_eq(e, "c") || str_eq(e, "cpp") || str_eq(e, "cc") || str_eq(e, "h") ||
        str_eq(e, "hpp") || str_eq(e, "html") || str_eq(e, "css") || str_eq(e, "json") ||
        str_eq(e, "yaml") || str_eq(e, "yml") || str_eq(e, "toml") || str_eq(e, "sh") ||
        str_eq(e, "bash") || str_eq(e, "sql") || str_eq(e, "rb") || str_eq(e, "php") ||
        str_eq(e, "swift") || str_eq(e, "kt") || str_eq(e, "scala") || str_eq(e, "r") ||
        str_eq(e, "lua") || str_eq(e, "xml") || str_eq(e, "vue") || str_eq(e, "svelte") ||
        str_eq(e, "dart")
}

fn is_sheet_extension(e: &str) -> (r: bool)
    ensures
        r == is_sheet_ext(e@),
{
    str_eq(e, "xlsx") || str_eq(e, "xls") || str_eq(e, "xlsb") || str_eq(e, "ods")
}

fn is_image_extension(e: &str) -> (r: bool)
    ensures
        r == is_image_ext(e@),
{
    str_eq(e, "png") || str_eq(e, "jpg") || str_eq(e, "jpeg") || str_eq(e, "gif") ||
        str_eq(e, "svg") || str_eq(e, "webp")
}

/// Whether files with this (lowercase) extension are collected for indexing.
pub fn is_supported_extension(ext: &str) -> (r: bool)
    ensures
        r == spec_supported(ext@),
{
    is_plain_text_extension(ext) || str_eq(ext, "docx") || str_eq(ext, "odt") || str_eq(ext, "odp")
        || str_eq(ext, "pdf") || is_sheet_extension(ext) || str_eq(ext, "pptx")
}

/// How the text of a file with this (lowercase) extension is extracted;
/// `None` for an unsupported file type.
pub fn extract_kind(ext: &str) -> (r: Option<ExtractKind>)
    ensures
        r == spec_extract_kind(ext@),
{
    if is_plain_text_extension(ext) {
        Some(ExtractKind::PlainText)
    } else if str_eq(ext, "docx") {
        Some(ExtractKind::Docx)
    } else if str_eq(ext, "odt") || str_eq(ext, "odp") {
        Some(ExtractKind::OpenDocument)
    } else if str_eq(ext, "pdf") {
        Some(ExtractKind::Pdf)
    } else if is_sheet_extension(ext) {
        Some(ExtractKind::Spreadsheet)
    } else if str_eq(ext, "pptx") {
        Some(ExtractKind::Slides)
    } else {
        None
    }
}

/// The file type of a file with this (lowercase) extension.
pub fn file_type_for_extension(ext: &str) -> (r: FileType)
    ensures
        r == spec_file_type(ext@),
{
    if str_eq(ext, "txt") || str_eq(ext, "log") || str_eq(ext, "csv") {
        FileType::Text
    } else if str_eq(ext, "md") || str_eq(ext, "mdx") {
        FileType::Markdown
    } else if str_eq(ext, "pdf") {
        FileType::Pdf
    } else if str_eq(ext, "docx") || str_eq(ext, "odt") {
        FileType::Word
    } else if is_sheet_extension(ext) {
        FileType::Excel
    } else if str_eq(ext, "pptx") || str_eq(ext, "odp") {
        FileType::Unknown
    } else if is_image_extension(ext) {
        FileType::Image
    } else if is_code_extension(ext) {
        FileType::Code
    } else {
        FileType::Unknown
    }
}

/// The file type of a path, from its lowercased extension.
pub fn detect_file_type(path: &str) -> (r: FileType)
    ensures
        r == spec_file_type(spec_lower_ext(path@)),
{
    let ext = lower_extension(path);
    file_type_for_extension(ext.as_str())
}

/// The highlighting language for an extension, taken as it is.
pub fn language_for_extension(ext: &str) -> (r: &'static str)
    ensures
        r@ == spec_language(ext@),
{
    if str_eq(ext, "rs") {
        "rust"
    } else if str_eq(ext, "py") {
        "python"
    } else if str_eq(ext, "ts") || str_eq(ext, "tsx") {
        "typescript"
    } else if str_eq(ext, "js") || str_eq(ext, "jsx") {
        "javascript"
    } else if str_eq(ext, "go") {
        "go"
    } else if str_eq(ext, "java") {
        "java"
    } else if str_eq(ext, "c") {
        "c"
    } else if str_eq(ext, "cpp") || str_eq(ext, "cc") || str_eq(ext, "hpp") {
        "cpp"
    } else if str_eq(ext, "html") {
        "html"
    } else if str_eq(ext, "css") {
        "css"
    } else if str_eq(ext, "json") {
        "json"
    } else if str_eq(ext, "yaml") || str_eq(ext, "yml") {
        "yaml"
    } else if str_eq(ext, "toml") {
        "toml"
    } else if str_eq(ext, "sh") || str_eq(ext, "bash") {
        "bash"
    } else if str_eq(ext, "sql") {
        "sql"
    } else if str_eq(ext, "rb") {
        "ruby"
    } else if str_eq(ext, "php") {
        "php"
    } else if str_eq(ext, "swift") {
        "swift"
    } else if str_eq(ext, "kt") {
        "kotlin"
    } else if str_eq(ext, "scala") {
        "scala"
    } else if str_eq(ext, "r") {
        "r"
    } else if str_eq(ext, "lua") {
        "lua"
    } else if str_eq(ext, "xml") {
        "xml"
    } else if str_eq(ext, "vue") {
        "vue"
    } else if str_eq(ext, "svelte") {
        "svelte"
    } else if str_eq(ext, "dart") {
        "dart"
    } else {
        "plaintext"
    }
}

/// The highlighting language for an extension, lowercased first.
pub fn detect_language(ext: &str) -> (r: &'static str)
    ensures
        r@ == spec_language(spec_to_lowercase(ext@)),
{
    let lower = to_lowercase(ext);
    language_for_extension(lower.as_str())
}

/// Word documents are read from `word/document.xml` exactly when they are
/// `docx` files, and OpenDocument text and presentations (`odt`, `odp`)
/// from `content.xml` exactly when they are those; slides, PDF and
/// spreadsheet readers are chosen only for their own extensions.
pub proof fn lemma_archive_kinds(e: Seq<char>)
    ensures
        spec_extract_kind(e) == Some(ExtractKind::Docx) <==> e == "docx"@,
        spec_extract_kind(e) == Some(ExtractKind::OpenDocument) <==> (e == "odt"@ || e == "odp"@),
        spec_extract_kind(e) == Some(ExtractKind::Slides) ==> e == "pptx"@,
        spec_extract_kind(e) == Some(ExtractKind::Pdf) ==> e == "pdf"@,
        spec_extract_kind(e) == Some(ExtractKind::Spreadsheet) ==> is_sheet_ext(e),
        spec_extract_kind(e) == Some(ExtractKind::PlainText) <==> is_plain_text_ext(e),
{
    reveal_strlit("bash");
    reveal_strlit("c");
    reveal_strlit("cc");
    reveal_strlit("cpp");
    reveal_strlit("css");
    reveal_strlit("csv");
    reveal_strlit("dart");
    reveal_strlit("docx");
    reveal_strlit("go");
    reveal_strlit("h");
    reveal_strlit("hpp");
    reveal_strlit("html");
    reveal_strlit("java");
    reveal_strlit("js");
    reveal_strlit("json");
    reveal_strlit("jsx");
    reveal_strlit("kt");
    reveal_strlit("log");
    reveal_strlit("lua");
    reveal_strlit("md");
    reveal_strlit("mdx");
    reveal_strlit("odp");
    reveal_strlit("odt");
    reveal_strlit("php");
    reveal_strlit("py");
    reveal_strlit("r");
    reveal_strlit("rb");
    reveal_strlit("rs");
    reveal_strlit("scala");
    reveal_strlit("sh");
    reveal_strlit("sql");
    reveal_strlit("svelte");
    reveal_strlit("swift");
    reveal_strlit("toml");
    reveal_strlit("ts");
    reveal_strlit("tsx");
    reveal_strlit("txt");
    reveal_strlit("vue");
    reveal_strlit("xml");
    reveal_strlit("yaml");
    reveal_strlit("yml");
    assert("docx"@[0] != "bash"@[0]);
    assert("docx"@[1] != "dart"@[1]);
    assert("docx"@[0] != "html"@[0]);
    assert("docx"@[0] != "java"@[0]);
    assert("docx"@[0] != "json"@[0]);
    assert("docx"@[0] != "toml"@[0]);
    assert("docx"@[0] != "yaml"@[0]);
    assert("odt"@[0] != "cpp"@[0]);
    assert("odt"@[0] != "css"@[0]);
    assert("odt"@[0] != "csv"@[0]);
    assert("odt"@[0] != "hpp"@[0]);
    assert("odt"@[0] != "jsx"@[0]);
    assert("odt"@[0] != "log"@[0]);
    assert("odt"@[0] != "lua"@[0]);
    assert("odt"@[0] != "mdx"@[0]);
    assert("odt"@[0] != "php"@[0]);
    assert("odt"@[0] != "sql"@[0]);
    assert("odt"@[0] != "tsx"@[0]);
    assert("odt"@[0] != "txt"@[0]);
    assert("odt"@[0] != "vue"@[0]);
    assert("odt"@[0] != "xml"@[0]);
    assert("odt"@[0] != "yml"@[0]);
    assert("odt"@[2] != "odp"@[2]);
    assert("odp"@[0] != "cpp"@[0]);
    assert("odp"@[0] != "css"@[0]);
    assert("odp"@[0] != "csv"@[0]);
    assert("odp"@[0] != "hpp"@[0]);
    assert("odp"@[0] != "jsx"@[0]);
    assert("odp"@[0] != "log"@[0]);
    assert("odp"@[0] != "lua"@[0]);
    assert("odp"@[0] != "mdx"@[0]);
    assert("odp"@[0] != "php"@[0]);
    assert("odp"@[0] != "sql"@[0]);
    assert("odp"@[0] != "tsx"@[0]);
    assert("odp"@[0] != "txt"@[0]);
    assert("odp"@[0] != "vue"@[0]);
    assert("odp"@[0] != "xml"@[0]);
    assert("odp"@[0] != "yml"@[0]);
    assert("odp"@[2] != "odt"@[2]);
}

/// The folder walk collects exactly the files whose text the indexer can extract.
pub proof fn lemma_supported_iff_extractable(e: Seq<char>)
    ensures
        spec_supported(e) <==> spec_extract_kind(e) is Some,
{
}

} // verus!
