use knowlix::filetypes::ExtractKind;
use knowlix::xmltext::{
    document_entry_name, document_xml_text, rows_to_text, slide_entry_names, slides_text,
    xml_to_text,
};

#[test]
fn xml_paragraphs_become_lines() {
    let xml = "<w:p><w:r><w:t>Hello &amp; welcome</w:t></w:r></w:p><w:p><w:t>a<w:br/>b &lt;c&gt;</w:t></w:p>";
    assert_eq!(
        xml_to_text(xml, &["</w:p>"], &["<w:br/>", "<w:br />"]),
        "Hello & welcome\na\nb <c>\n"
    );
    assert_eq!(xml_to_text("&quot;x&apos;&nbsp;", &[], &[]), "\"x' ");
}

#[test]
fn document_kinds() {
    assert_eq!(document_entry_name(ExtractKind::Docx), "word/document.xml");
    assert_eq!(document_entry_name(ExtractKind::OpenDocument), "content.xml");
    assert_eq!(
        document_xml_text(ExtractKind::OpenDocument, "<text:p>x</text:p><text:p>y<text:line-break/>z</text:p>"),
        "x\ny\nz\n"
    );
}

#[test]
fn sheet_rows_become_tab_separated_lines() {
    let rows = vec![
        vec!["a".to_string(), "".to_string(), "b".to_string()],
        vec!["".to_string()],
        vec!["c".to_string()],
    ];
    assert_eq!(rows_to_text(&rows), "a\tb\nc\n");
}

#[test]
fn slides_in_name_order() {
    let names = vec![
        "ppt/slides/slide2.xml".to_string(),
        "ppt/media/image1.png".to_string(),
        "ppt/slides/slide10.xml".to_string(),
        "ppt/slides/slide1.xml".to_string(),
        "ppt/slides/_rels/slide1.xml.rels".to_string(),
    ];
    assert_eq!(
        slide_entry_names(&names),
        vec![
            "ppt/slides/slide1.xml".to_string(),
            "ppt/slides/slide10.xml".to_string(),
            "ppt/slides/slide2.xml".to_string(),
        ]
    );
    assert_eq!(
        slides_text(&vec!["<a:p>one</a:p>".to_string(), "<a:p>t<a:br/>w</a:p>".to_string()]),
        "one\n\nt\nw\n\n"
    );
}
