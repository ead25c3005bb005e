use mdedit::fsys::{list_path, FileSysStructure, FsError, RootCandidate};

fn cand(path: &str, cargo: bool, book: bool) -> RootCandidate {
    RootCandidate { path: path.to_string(), has_cargo_toml: cargo, has_book_toml: book }
}

#[test]
fn find_root_takes_nearest_project() {
    let c = vec![cand("/p/a/b", false, false), cand("/p/a", false, true), cand("/p", true, false)];
    assert_eq!(FileSysStructure::find_root(&c), Some("/p/a".to_string()));
    let none = vec![cand("/x/y", false, false), cand("/x", false, false)];
    assert_eq!(FileSysStructure::find_root(&none), None);
    assert_eq!(FileSysStructure::root_for("/x/y", &none), "/x/y");
    assert_eq!(FileSysStructure::root_for("/p/a/b", &c), "/p/a");
}

#[test]
fn cargo_name_wins() {
    let cargo = Some("[package]\nname = \"demo\"\nversion = \"0.1.0\"\n".to_string());
    let book = Some("[book]\ntitle = \"Book\"\n".to_string());
    assert_eq!(
        FileSysStructure::name_root("/p/demo_dir", &cargo, &book),
        Ok(("demo".to_string(), true, false))
    );
}

#[test]
fn book_title_next() {
    let cargo = Some("[workspace]\nmembers = []\n".to_string());
    let book = Some("[book]\ntitle = \"The Book\"\n".to_string());
    assert_eq!(
        FileSysStructure::name_root("/p/dir", &cargo, &book),
        Ok(("The Book".to_string(), false, true))
    );
}

#[test]
fn directory_name_last() {
    assert_eq!(
        FileSysStructure::name_root("/p/dir", &None, &None),
        Ok(("dir".to_string(), false, false))
    );
    assert_eq!(FileSysStructure::name_root("/", &None, &None), Ok((".".to_string(), false, false)));
}

#[test]
fn broken_manifest_is_an_error() {
    let cargo = Some("[package\nname = ".to_string());
    assert_eq!(FileSysStructure::name_root("/p", &cargo, &None), Err(FsError::Toml));
}

#[test]
fn non_string_name_is_empty() {
    let cargo = Some("[package]\nname = 3\n".to_string());
    assert_eq!(
        FileSysStructure::name_root("/p", &cargo, &None),
        Ok((String::new(), true, false))
    );
}

#[test]
fn listed_paths_start_at_dot() {
    assert_eq!(list_path(&"a/b.md".to_string()), "./a/b.md");
    assert_eq!(list_path(&"./a.md".to_string()), "./a.md");
    assert_eq!(list_path(&"/abs/a.md".to_string()), "/abs/a.md");
    assert_eq!(list_path(&".hidden".to_string()), "./.hidden");
}

#[test]
fn load_current_sorts_and_dedups() {
    let mut fs = FileSysStructure::new();
    let found = vec!["b.md".to_string(), "a.md".to_string(), "./b.md".to_string(), "a-b.md".to_string()];
    fs.load_current("/dir", &found);
    assert_eq!(fs.files_dir(), "/dir");
    assert_eq!(fs.files(), &["./a-b.md".to_string(), "./a.md".to_string(), "./b.md".to_string()]);
    assert_eq!(fs.files_len(), 3);
    assert!(!fs.files_is_empty());
    assert_eq!(fs.file(1), "./a.md");
}

#[test]
fn new_file_view_is_empty() {
    let fs = FileSysStructure::new();
    assert_eq!(fs.root(), "");
    assert_eq!(fs.name(), "");
    assert!(!fs.is_cargo());
    assert!(!fs.is_mdbook());
    assert_eq!(fs.dirs_len(), 0);
    assert!(fs.dirs().is_empty());
    assert!(fs.display().is_empty());
    assert!(fs.files_is_empty());
}

fn strings(v: &[&str]) -> Vec<String> {
    v.iter().map(|s| s.to_string()).collect()
}

#[test]
fn tree_lines_for_walk() {
    let mut fs = FileSysStructure::new();
    let walk = strings(&["", "a", "a/x.md", "a/b", "a/b/y.md", "c", "c/z.md", "top.md"]);
    let root = "/p/proj".to_string();
    assert_eq!(fs.load_filesys(&root, &None, &None, &walk), Ok(()));
    assert_eq!(fs.name(), "proj");
    assert_eq!(fs.root(), "/p/proj");
    assert_eq!(fs.dirs(), strings(&["/p/proj", "/p/proj/a", "/p/proj/a/b", "/p/proj/c"]).as_slice());
    assert_eq!(fs.display(), strings(&["proj", "├a", "│└b", "└c"]).as_slice());
    assert_eq!(fs.dirs_len(), 4);
}

#[test]
fn same_root_is_not_reloaded() {
    let mut fs = FileSysStructure::new();
    let root = "/p/proj".to_string();
    let cargo = Some("[package]\nname = \"proj-crate\"\n".to_string());
    assert_eq!(fs.load_filesys(&root, &cargo, &None, &strings(&["src", "src/lib.rs"])), Ok(()));
    assert_eq!(fs.name(), "proj-crate");
    assert!(fs.is_cargo());
    assert_eq!(fs.display(), strings(&["proj-crate", "└src"]).as_slice());
    assert_eq!(fs.load_filesys(&root, &None, &None, &strings(&[])), Ok(()));
    assert_eq!(fs.name(), "proj-crate");
    assert_eq!(fs.dirs_len(), 2);
}

#[test]
fn broken_manifest_leaves_empty_tree() {
    let mut fs = FileSysStructure::new();
    let root = "/p/book".to_string();
    let book = Some("[book\n".to_string());
    assert_eq!(fs.load_filesys(&root, &None, &book, &strings(&["ch1/a.md"])), Err(FsError::Toml));
    assert_eq!(fs.root(), "/p/book");
    assert_eq!(fs.dirs_len(), 0);
}

#[test]
fn load_lists_and_builds() {
    let mut fs = FileSysStructure::new();
    let root = "/p/bk".to_string();
    let book = Some("[book]\ntitle = \"Guide\"\n".to_string());
    let r = fs.load("/p/bk/src", &strings(&["/p/bk/src/b.md", "/p/bk/src/a.md"]), &root, &None, &book, &strings(&["src", "src/a.md"]));
    assert_eq!(r, Ok(()));
    assert!(fs.is_mdbook());
    assert_eq!(fs.files(), strings(&["/p/bk/src/a.md", "/p/bk/src/b.md"]).as_slice());
    assert_eq!(fs.display(), strings(&["Guide", "└src"]).as_slice());
}
