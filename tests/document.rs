use mdedit::link::{link_target, LinkError};
use mdedit::doc_type::DocTypes;
use mdedit::editor_file::{MDFileState, ViewOptions};

fn opts() -> ViewOptions {
    ViewOptions { show_ctrl: true, show_break: false, wrap_text: false, show_linenr: false }
}

#[test]
fn new_file_gets_md_extension() {
    let f = MDFileState::new_file("notes", &opts());
    assert_eq!(f.path, "notes.md");
    assert_eq!(f.doc_type, DocTypes::MD);
    assert!(!f.changed);
    assert_eq!(f.text(), "");
    let g = MDFileState::new_file("dir/readme.txt", &opts());
    assert_eq!(g.path, "dir/readme.txt");
    assert_eq!(g.doc_type, DocTypes::TXT);
}

#[test]
fn doc_type_by_extension() {
    assert_eq!(MDFileState::doc_type("a/b.md"), DocTypes::MD);
    assert_eq!(MDFileState::doc_type("a/b.markdown"), DocTypes::TXT);
    assert_eq!(MDFileState::doc_type("Makefile"), DocTypes::TXT);
    assert_eq!(DocTypes::for_extension(&Some("md".to_string())), DocTypes::MD);
    assert_eq!(DocTypes::for_extension(&None), DocTypes::TXT);
}

#[test]
fn open_file_holds_text() {
    let f = MDFileState::open_file("x.md", "line 1\nline 2", &opts());
    assert_eq!(f.text(), "line 1\nline 2");
    assert!(!f.changed);
    assert!(!f.show_linenr);
}

#[test]
fn save_content_terminates_every_line() {
    let mut f = MDFileState::open_file("x.md", "a\r\nb\n\nc", &opts());
    assert_eq!(f.save_content(), None);
    f.changed = true;
    let nl = f.edit.newline().to_string();
    assert_eq!(f.save_content(), Some(format!("a{nl}b{nl}{nl}c{nl}")));
    f.mark_saved();
    assert!(!f.changed);
    assert_eq!(f.save_content(), None);
}

#[test]
fn save_content_of_empty_text_is_empty() {
    let mut f = MDFileState::new_file("x.md", &opts());
    f.changed = true;
    assert_eq!(f.save_content(), Some(String::new()));
}

#[test]
fn text_changed_follows_undo() {
    let mut f = MDFileState::open_file("x.md", "abc", &opts());
    f.text_changed();
    assert!(!f.changed);
    f.edit.insert_str("z");
    f.text_changed();
    assert!(f.changed);
    f.edit.undo();
    f.text_changed();
    assert!(!f.changed);
}

#[test]
fn set_text_marks_changed() {
    let mut f = MDFileState::open_file("x.md", "abc", &opts());
    f.set_text("xyz");
    assert!(f.changed);
    assert_eq!(f.text(), "xyz");
}

#[test]
fn clone_view_is_independent() {
    let f = MDFileState::open_file("x.md", "abc", &opts());
    let mut g = f.clone_view();
    assert_eq!(g.path, "x.md");
    assert_eq!(g.text(), "abc");
    g.set_text("new");
    assert_eq!(f.text(), "abc");
}

#[test]
fn set_path_moves_view() {
    let mut f = MDFileState::open_file("x.md", "abc", &opts());
    f.set_path("y.md");
    assert_eq!(f.path, "y.md");
}

#[test]
fn links_resolve_beside_the_document() {
    assert_eq!(link_target("/a/b/doc.md", "[x](other.md)"), Ok(Some("/a/b/other.md".to_string())));
    assert_eq!(link_target("/a/b/doc.md", "[x](sub/more.md)"), Ok(Some("/a/b/sub/more.md".to_string())));
    assert_eq!(link_target("/a/b/doc.md", "[x](/abs.md)"), Err(LinkError::NotLocal));
    assert_eq!(link_target("/a/b/doc.md", "[x](http://example.com)"), Err(LinkError::NotLocal));
    assert_eq!(link_target("/a/b/doc.md", "no link here"), Ok(None));
    assert_eq!(link_target("/", "[x](y.md)"), Err(LinkError::NoParent));
}

#[test]
fn default_extension_for_paths() {
    assert_eq!(MDFileState::with_default_extension("notes"), "notes.md");
    assert_eq!(MDFileState::with_default_extension("a/b.txt"), "a/b.txt");
}

#[test]
fn follow_link_under_cursor() {
    let mut f = MDFileState::open_file("/docs/index.md", "see [next](next.md) here", &opts());
    let styles = rat_markdown::styles::parse_md_styles(&f.text());
    f.edit.set_styles(styles);
    let link = rat_markdown::styles::MDStyle::Link.into();
    f.edit.set_cursor((6, 0), false);
    assert_eq!(f.follow_link(link), Ok(Some("/docs/next.md".to_string())));
    f.edit.set_cursor((1, 0), false);
    assert_eq!(f.follow_link(link), Ok(None));
}
