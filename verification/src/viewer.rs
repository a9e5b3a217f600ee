//! How a file is shown: the view chosen by its extension and the content
//! built from what was read (text, or bytes as Base64).
use vstd::prelude::*;

use vstd::string::StringSliceAdditionalSpecFns;
use vstd::utf8::*;

use crate::common::{join2, KnowlixError};
use crate::digest::{base64_encode, spec_base64};
use crate::common::FileType;
use crate::filetypes::{
    is_image_ext, language_for_extension, spec_extract_kind, spec_file_type, spec_language, ExtractKind,
};
use crate::text::str_eq;

verus! {

/// What the viewer shows.
pub enum ViewContent {
    Code { content: String, language: String },
    Markdown { content: String },
    Html { content: String },
    Image { data_uri: String, mime: String },
    PlainText { content: String },
    Pdf { data: String },
    Docx { data: String },
}

/// How a file is shown, by its lowercased extension.
#[derive(Clone, Copy, Debug, PartialEq, Eq, Structural)]
pub enum ViewKind {
    Markdown,
    PlainText,
    RasterImage,
    Svg,
    Pdf,
    Docx,
    Code,
}

pub open spec fn spec_view_kind(ext: Seq<char>) -> ViewKind {
    if ext == "md"@ || ext == "mdx"@ {
        ViewKind::Markdown
    } else if ext == "txt"@ || ext == "log"@ {
        ViewKind::PlainText
    } else if ext == "png"@ || ext == "jpg"@ || ext == "jpeg"@ || ext == "gif"@ || ext == "webp"@ {
        ViewKind::RasterImage
    } else if ext == "svg"@ {
        ViewKind::Svg
    } else if ext == "pdf"@ {
        ViewKind::Pdf
    } else if ext == "docx"@ {
        ViewKind::Docx
    } else {
        ViewKind::Code
    }
}

pub fn view_kind(ext: &str) -> (k: ViewKind)
    ensures
        k == spec_view_kind(ext@),
{
    if str_eq(ext, "md") || str_eq(ext, "mdx") {
        ViewKind::Markdown
    } else if str_eq(ext, "txt") || str_eq(ext, "log") {
        ViewKind::PlainText
    } else if str_eq(ext, "png") || str_eq(ext, "jpg") || str_eq(ext, "jpeg") || str_eq(ext, "gif")
        || str_eq(ext, "webp") {
        ViewKind::RasterImage
    } else if str_eq(ext, "svg") {
        ViewKind::Svg
    } else if str_eq(ext, "pdf") {
        ViewKind::Pdf
    } else if str_eq(ext, "docx") {
        ViewKind::Docx
    } else {
        ViewKind::Code
    }
}

/// Files are shown as the indexer classifies them: exactly the image
/// files are shown as images, every raster image (`png`, `jpg`, `jpeg`,
/// `gif`, `webp`) as a raster image and `svg` as SVG; and a file is shown as
/// a Word document exactly when its text is read as one.
pub proof fn lemma_view_kinds_agree(e: Seq<char>)
    ensures
        spec_view_kind(e) == ViewKind::RasterImage <==> (is_image_ext(e) && e != "svg"@),
        spec_view_kind(e) == ViewKind::Svg <==> e == "svg"@,
        spec_file_type(e) == FileType::Image <==> (spec_view_kind(e) == ViewKind::RasterImage
            || spec_view_kind(e) == ViewKind::Svg),
        spec_view_kind(e) == ViewKind::Docx <==> spec_extract_kind(e) == Some(ExtractKind::Docx),
{
    reveal_strlit("csv");
    reveal_strlit("docx");
    reveal_strlit("gif");
    reveal_strlit("jpeg");
    reveal_strlit("jpg");
    reveal_strlit("log");
    reveal_strlit("md");
    reveal_strlit("mdx");
    reveal_strlit("odp");
    reveal_strlit("ods");
    reveal_strlit("odt");
    reveal_strlit("pdf");
    reveal_strlit("png");
    reveal_strlit("pptx");
    reveal_strlit("svg");
    reveal_strlit("txt");
    reveal_strlit("webp");
    reveal_strlit("xls");
    reveal_strlit("xlsb");
    reveal_strlit("xlsx");
    assert("png"@[0] != "csv"@[0]);
    assert("png"@[0] != "gif"@[0]);
    assert("png"@[0] != "jpg"@[0]);
    assert("png"@[0] != "log"@[0]);
    assert("png"@[0] != "mdx"@[0]);
    assert("png"@[0] != "odp"@[0]);
    assert("png"@[0] != "ods"@[0]);
    assert("png"@[0] != "odt"@[0]);
    assert("png"@[1] != "pdf"@[1]);
    assert("png"@[0] != "svg"@[0]);
    assert("png"@[0] != "txt"@[0]);
    assert("png"@[0] != "xls"@[0]);
    assert("jpg"@[0] != "csv"@[0]);
    assert("jpg"@[0] != "gif"@[0]);
    assert("jpg"@[0] != "log"@[0]);
    assert("jpg"@[0] != "mdx"@[0]);
    assert("jpg"@[0] != "odp"@[0]);
    assert("jpg"@[0] != "ods"@[0]);
    assert("jpg"@[0] != "odt"@[0]);
    assert("jpg"@[0] != "pdf"@[0]);
    assert("jpg"@[0] != "png"@[0]);
    assert("jpg"@[0] != "svg"@[0]);
    assert("jpg"@[0] != "txt"@[0]);
    assert("jpg"@[0] != "xls"@[0]);
    assert("jpeg"@[0] != "docx"@[0]);
    assert("jpeg"@[0] != "pptx"@[0]);
    assert("jpeg"@[0] != "webp"@[0]);
    assert("jpeg"@[0] != "xlsb"@[0]);
    assert("jpeg"@[0] != "xlsx"@[0]);
    assert("gif"@[0] != "csv"@[0]);
    assert("gif"@[0] != "jpg"@[0]);
    assert("gif"@[0] != "log"@[0]);
    assert("gif"@[0] != "mdx"@[0]);
    assert("gif"@[0] != "odp"@[0]);
    assert("gif"@[0] != "ods"@[0]);
    assert("gif"@[0] != "odt"@[0]);
    assert("gif"@[0] != "pdf"@[0]);
    assert("gif"@[0] != "png"@[0]);
    assert("gif"@[0] != "svg"@[0]);
    assert("gif"@[0] != "txt"@[0]);
    assert("gif"@[0] != "xls"@[0]);
    assert("webp"@[0] != "docx"@[0]);
    assert("webp"@[0] != "jpeg"@[0]);
    assert("webp"@[0] != "pptx"@[0]);
    assert("webp"@[0] != "xlsb"@[0]);
    assert("webp"@[0] != "xlsx"@[0]);
    assert("svg"@[0] != "csv"@[0]);
    assert("svg"@[0] != "gif"@[0]);
    assert("svg"@[0] != "jpg"@[0]);
    assert("svg"@[0] != "log"@[0]);
    assert("svg"@[0] != "mdx"@[0]);
    assert("svg"@[0] != "odp"@[0]);
    assert("svg"@[0] != "ods"@[0]);
    assert("svg"@[0] != "odt"@[0]);
    assert("svg"@[0] != "pdf"@[0]);
    assert("svg"@[0] != "png"@[0]);
    assert("svg"@[0] != "txt"@[0]);
    assert("svg"@[0] != "xls"@[0]);
    assert("docx"@[0] != "jpeg"@[0]);
    assert("docx"@[0] != "pptx"@[0]);
    assert("docx"@[0] != "webp"@[0]);
    assert("docx"@[0] != "xlsb"@[0]);
    assert("docx"@[0] != "xlsx"@[0]);
    crate::filetypes::lemma_archive_kinds(e);
}

/// Whether the view is built from the file's text (otherwise from its bytes).
pub open spec fn spec_reads_text(k: ViewKind) -> bool {
    match k {
        ViewKind::RasterImage | ViewKind::Pdf | ViewKind::Docx => false,
        _ => true,
    }
}

pub fn reads_text(k: ViewKind) -> (r: bool)
    ensures
        r == spec_reads_text(k),
{
    match k {
        ViewKind::RasterImage | ViewKind::Pdf | ViewKind::Docx => false,
        _ => true,
    }
}

pub open spec fn spec_image_mime(ext: Seq<char>) -> Seq<char> {
    if ext == "png"@ {
        "image/png"@
    } else if ext == "jpg"@ || ext == "jpeg"@ {
        "image/jpeg"@
    } else if ext == "gif"@ {
        "image/gif"@
    } else if ext == "webp"@ {
        "image/webp"@
    } else {
        "image/png"@
    }
}

/// The MIME type of a raster image extension (PNG for any other).
pub fn image_mime(ext: &str) -> (r: &'static str)
    ensures
        r@ == spec_image_mime(ext@),
{
    if str_eq(ext, "png") {
        "image/png"
    } else if str_eq(ext, "jpg") || str_eq(ext, "jpeg") {
        "image/jpeg"
    } else if str_eq(ext, "gif") {
        "image/gif"
    } else if str_eq(ext, "webp") {
        "image/webp"
    } else {
        "image/png"
    }
}

/// A `data:` URI holding the Base64 encoding of the bytes.
pub open spec fn data_uri(mime: Seq<char>, data: Seq<u8>) -> Seq<char> {
    "data:"@ + mime + ";base64,"@ + spec_base64(data)
}

fn make_data_uri(mime: &str, data: &[u8]) -> (r: String)
    ensures
        r@ == data_uri(mime@, data@),
{
    let mut s = String::from_str("data:");
    s.append(mime);
    s.append(";base64,");
    let enc = base64_encode(data);
    s.append(enc.as_str());
    s
}

/// The view of a file whose text was read, or the error its reading gave:
/// a text that cannot be read as code is reported as a binary file.
pub fn view_from_text(kind: ViewKind, ext: &str, read: Result<String, String>) -> (r: Result<
    ViewContent,
    KnowlixError,
>)
    requires
        spec_reads_text(kind),
    ensures
        match read {
            Ok(t) => match kind {
                ViewKind::Markdown => r matches Ok(ViewContent::Markdown { content }) && content == t,
                ViewKind::PlainText => r matches Ok(ViewContent::PlainText { content }) && content
                    == t,
                ViewKind::Svg => r matches Ok(ViewContent::Image { data_uri: u, mime }) && mime@
                    == "image/svg+xml"@ && u@ == data_uri("image/svg+xml"@, encode_utf8(t@)),
                _ => r matches Ok(ViewContent::Code { content, language }) && content == t
                    && language@ == spec_language(ext@),
            },
            Err(m) => match kind {
                ViewKind::Code => r matches Err(KnowlixError::UnsupportedFileType(x)) && x@
                    == "Cannot read binary file: ."@ + ext@,
                _ => r matches Err(KnowlixError::Io(x)) && x@ == m@,
            },
        },
{
    match read {
        Ok(t) => match kind {
            ViewKind::Markdown => Ok(ViewContent::Markdown { content: t }),
            ViewKind::PlainText => Ok(ViewContent::PlainText { content: t }),
            ViewKind::Svg => {
                let uri = make_data_uri("image/svg+xml", t.as_str().as_bytes());
                Ok(ViewContent::Image { data_uri: uri, mime: String::from_str("image/svg+xml") })
            },
            _ => Ok(
                ViewContent::Code {
                    content: t,
                    language: String::from_str(language_for_extension(ext)),
                },
            ),
        },
        Err(m) => match kind {
            ViewKind::Code => Err(
                KnowlixError::UnsupportedFileType(join2("Cannot read binary file: .", ext)),
            ),
            _ => Err(KnowlixError::Io(m)),
        },
    }
}

/// The view of a file whose bytes were read, or the error its reading gave.
pub fn view_from_bytes(kind: ViewKind, ext: &str, read: Result<Vec<u8>, String>) -> (r: Result<
    ViewContent,
    KnowlixError,
>)
    requires
        !spec_reads_text(kind),
    ensures
        match read {
            Ok(d) => match kind {
                ViewKind::Pdf => r matches Ok(ViewContent::Pdf { data }) && data@ == spec_base64(d@),
                ViewKind::Docx => r matches Ok(ViewContent::Docx { data }) && data@ == spec_base64(
                    d@,
                ),
                _ => r matches Ok(ViewContent::Image { data_uri: u, mime }) && mime@
                    == spec_image_mime(ext@) && u@ == data_uri(spec_image_mime(ext@), d@),
            },
            Err(m) => r matches Err(KnowlixError::Io(x)) && x@ == m@,
        },
{
    match read {
        Ok(d) => match kind {
            ViewKind::Pdf => Ok(ViewContent::Pdf { data: base64_encode(d.as_slice()) }),
            ViewKind::Docx => Ok(ViewContent::Docx { data: base64_encode(d.as_slice()) }),
            _ => {
                let mime = image_mime(ext);
                let uri = make_data_uri(mime, d.as_slice());
                Ok(ViewContent::Image { data_uri: uri, mime: String::from_str(mime) })
            },
        },
        Err(m) => Err(KnowlixError::Io(m)),
    }
}

/// The error for a file that does not exist.
pub fn missing_file_error(path: &str) -> (e: KnowlixError)
    ensures
        e matches KnowlixError::FileNotFound(p) && p@ == path@,
{
    KnowlixError::FileNotFound(String::from_str(path))
}

} // verus!
