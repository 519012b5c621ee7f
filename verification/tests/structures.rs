use vault_outline::structures::{
    fileextension_to_string, string_to_fileextension, FileExtension, FileKind,
};

#[test]
fn known_extensions_are_classified() {
    assert_eq!(string_to_fileextension(&"md".to_string()), FileExtension::Markdown);
    assert_eq!(string_to_fileextension(&"pdf".to_string()), FileExtension::Pdf);
    assert_eq!(string_to_fileextension(&"html".to_string()), FileExtension::Html);
    assert_eq!(string_to_fileextension(&"jpg".to_string()), FileExtension::Image);
    assert_eq!(string_to_fileextension(&"png".to_string()), FileExtension::Image);
}

#[test]
fn unknown_extensions_are_unknown_not_an_error() {
    assert_eq!(string_to_fileextension(&"txt".to_string()), FileExtension::Unknown);
    assert_eq!(string_to_fileextension(&"".to_string()), FileExtension::Unknown);
    assert_eq!(string_to_fileextension(&".md".to_string()), FileExtension::Unknown);
    assert_eq!(string_to_fileextension(&"MD".to_string()), FileExtension::Unknown);
    assert_eq!(string_to_fileextension(&"md ".to_string()), FileExtension::Unknown);
    assert_eq!(string_to_fileextension(&"jpeg".to_string()), FileExtension::Unknown);
}

#[test]
fn classifications_are_written_with_their_dot() {
    assert_eq!(fileextension_to_string(&FileExtension::Html), ".html");
    assert_eq!(fileextension_to_string(&FileExtension::Image), ".jpg");
    assert_eq!(fileextension_to_string(&FileExtension::Markdown), ".md");
    assert_eq!(fileextension_to_string(&FileExtension::Pdf), ".pdf");
    assert_eq!(fileextension_to_string(&FileExtension::Unknown), ".unknown");
}

#[test]
fn only_markdown_is_a_document() {
    assert_eq!(FileExtension::Markdown.kind(), FileKind::Document);
    assert_eq!(FileExtension::Html.kind(), FileKind::Binary);
    assert_eq!(FileExtension::Image.kind(), FileKind::Binary);
    assert_eq!(FileExtension::Pdf.kind(), FileKind::Binary);
    assert_eq!(FileExtension::Unknown.kind(), FileKind::Unclassified);
}
