use knowlix::common::KnowlixError;
use knowlix::filetypes::language_for_extension;
use knowlix::viewer::{
    image_mime, missing_file_error, reads_text, view_from_bytes, view_from_text, view_kind,
    ViewContent, ViewKind,
};

#[test]
fn lib_test_detect_language() {
    assert_eq!(language_for_extension("rs"), "rust");
    assert_eq!(language_for_extension("py"), "python");
    assert_eq!(language_for_extension("unknown"), "plaintext");
}

#[test]
fn test_image_mime() {
    assert_eq!(image_mime("png"), "image/png");
    assert_eq!(image_mime("jpg"), "image/jpeg");
    assert_eq!(image_mime("jpeg"), "image/jpeg");
    assert_eq!(image_mime("gif"), "image/gif");
    assert_eq!(image_mime("webp"), "image/webp");
}

#[test]
fn view_kinds_by_extension() {
    assert_eq!(view_kind("md"), ViewKind::Markdown);
    assert_eq!(view_kind("mdx"), ViewKind::Markdown);
    assert_eq!(view_kind("log"), ViewKind::PlainText);
    assert_eq!(view_kind("webp"), ViewKind::RasterImage);
    assert_eq!(view_kind("svg"), ViewKind::Svg);
    assert_eq!(view_kind("pdf"), ViewKind::Pdf);
    assert_eq!(view_kind("docx"), ViewKind::Docx);
    assert_eq!(view_kind("ts"), ViewKind::Code);
    assert_eq!(view_kind(""), ViewKind::Code);
    assert!(reads_text(ViewKind::Svg));
    assert!(!reads_text(ViewKind::Pdf));
}

#[test]
fn text_views() {
    match view_from_text(ViewKind::Markdown, "md", Ok("# Hello\nWorld".into())) {
        Ok(ViewContent::Markdown { content }) => assert!(content.contains("Hello")),
        _ => panic!("expected markdown"),
    }
    match view_from_text(ViewKind::Code, "rs", Ok("fn main() {}".into())) {
        Ok(ViewContent::Code { content, language }) => {
            assert_eq!(language, "rust");
            assert!(content.contains("fn main"));
        }
        _ => panic!("expected code"),
    }
    match view_from_text(ViewKind::Code, "json", Ok("{}".into())) {
        Ok(ViewContent::Code { language, .. }) => assert_eq!(language, "json"),
        _ => panic!("expected code"),
    }
    match view_from_text(ViewKind::Svg, "svg", Ok("<svg/>".into())) {
        Ok(ViewContent::Image { data_uri, mime }) => {
            assert_eq!(mime, "image/svg+xml");
            assert_eq!(data_uri, "data:image/svg+xml;base64,PHN2Zy8+");
        }
        _ => panic!("expected image"),
    }
}

#[test]
fn unreadable_text_errors() {
    match view_from_text(ViewKind::Code, "bin", Err("invalid UTF-8".into())) {
        Err(KnowlixError::UnsupportedFileType(m)) => assert_eq!(m, "Cannot read binary file: .bin"),
        _ => panic!("code that is not text is a binary file"),
    }
    match view_from_text(ViewKind::Markdown, "md", Err("denied".into())) {
        Err(KnowlixError::Io(m)) => assert_eq!(m, "denied"),
        _ => panic!("other read failures are IO errors"),
    }
}

#[test]
fn byte_views_are_base64() {
    match view_from_bytes(ViewKind::Pdf, "pdf", Ok(b"%PDF".to_vec())) {
        Ok(ViewContent::Pdf { data }) => assert_eq!(data, "JVBERg=="),
        _ => panic!("expected pdf"),
    }
    match view_from_bytes(ViewKind::Docx, "docx", Ok(b"PK".to_vec())) {
        Ok(ViewContent::Docx { data }) => assert_eq!(data, "UEs="),
        _ => panic!("expected docx"),
    }
    match view_from_bytes(ViewKind::RasterImage, "jpg", Ok(vec![1, 2, 3])) {
        Ok(ViewContent::Image { data_uri, mime }) => {
            assert_eq!(mime, "image/jpeg");
            assert_eq!(data_uri, "data:image/jpeg;base64,AQID");
        }
        _ => panic!("expected image"),
    }
}

#[test]
fn missing_file_is_reported_with_its_path() {
    match missing_file_error("/nonexistent/path/file.txt") {
        KnowlixError::FileNotFound(p) => assert_eq!(p, "/nonexistent/path/file.txt"),
        _ => panic!("expected file not found"),
    }
}
