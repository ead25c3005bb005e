//! What the file view shows: the directory tree of the project around the
//! current file, and the files of the current directory.

use crate::fs_tree::{build_tree, built, draw_tree, drawn, drawn_dirs, drawn_lines, root_tree};
use crate::paths::{
    path_eq, path_le, dedup_paths, deduped_paths_of, file_name_of, path_file_name, sort_paths, sorted_paths_of,
    strings_view,
};
use vstd::prelude::*;

verus! {

#[verifier::external_type_specification]
#[verifier::external_body]
pub struct ExTomlError(toml::de::Error);

/// The entry under `key` in table `table` of the TOML document `doc`:
/// `None` where the document does not parse, `Some(None)` where it has no
/// such entry, else the entry's string, `None` for an entry that is not a
/// string.
pub uninterp spec fn toml_entry_of(doc: Seq<char>, table: Seq<char>, key: Seq<char>) -> Option<Option<Option<Seq<char>>>>;

/// Relies on `toml::Table::from_str`, with `Map::get`, `Value::as_table`
/// and `Value::as_str` to read the entry of the parsed document.
#[verifier::external_body]
fn toml_entry(doc: &str, table: &str, key: &str) -> (r: Result<Option<Option<String>>, toml::de::Error>)
    ensures
        r is Err <==> toml_entry_of(doc@, table@, key@) is None,
        r matches Ok(v) ==> toml_entry_of(doc@, table@, key@) == Some(
            match v {
                Some(Some(s)) => Some(Some(s@)),
                Some(None) => Some(None),
                None => None,
            },
        ),
{
    let t: toml::Table = doc.parse()?;
    Ok(match t.get(table) {
        Some(section) => match section.as_table() {
            Some(section) => match section.get(key) {
                Some(v) => Some(v.as_str().map(|s| s.to_string())),
                None => None,
            },
            None => None,
        },
        None => None,
    })
}

/// Why the file view could not be loaded.
#[derive(Debug, Clone, Copy, PartialEq, Eq, Structural)]
pub enum FsError {
    /// A `Cargo.toml` or `book.toml` that does not parse.
    Toml,
}

/// A directory on the way up from the current one, with the project files
/// it holds.
pub struct RootCandidate {
    pub path: String,
    pub has_cargo_toml: bool,
    pub has_book_toml: bool,
}

/// A candidate marks a project root: it holds a `Cargo.toml` or a
/// `book.toml`.
pub open spec fn marks_root(c: RootCandidate) -> bool {
    c.has_cargo_toml || c.has_book_toml
}

/// The entry that names a project in a manifest, if the manifest is
/// there; an entry that is not a string names it with the empty string.
pub open spec fn manifest_entry(doc: Option<Seq<char>>, table: Seq<char>, key: Seq<char>) -> Option<Option<Seq<char>>> {
    match doc {
        None => Some(None),
        Some(d) => match toml_entry_of(d, table, key) {
            None => None,
            Some(None) => Some(None),
            Some(Some(Some(s))) => Some(Some(s)),
            Some(Some(None)) => Some(Some(seq![])),
        },
    }
}

pub open spec fn package_str() -> Seq<char> {
    seq!['p', 'a', 'c', 'k', 'a', 'g', 'e']
}

pub open spec fn name_str() -> Seq<char> {
    seq!['n', 'a', 'm', 'e']
}

pub open spec fn book_str() -> Seq<char> {
    seq!['b', 'o', 'o', 'k']
}

pub open spec fn title_str() -> Seq<char> {
    seq!['t', 'i', 't', 'l', 'e']
}

/// The name the file view gives a root, and whether it is a cargo project
/// or an mdbook: the package name of its `Cargo.toml`, else the title of
/// its `book.toml`, else the directory's own name, else `.`. `None` where a
/// manifest does not parse.
pub open spec fn root_naming(cargo_toml: Option<Seq<char>>, book_toml: Option<Seq<char>>, root: Seq<char>) -> Option<(Seq<char>, bool, bool)> {
    match manifest_entry(cargo_toml, package_str(), name_str()) {
        None => None,
        Some(Some(n)) => Some((n, true, false)),
        Some(None) => match manifest_entry(book_toml, book_str(), title_str()) {
            None => None,
            Some(Some(n)) => Some((n, false, true)),
            Some(None) => match file_name_of(root) {
                Some(f) => Some((f, false, false)),
                None => Some((seq!['.'], false, false)),
            },
        },
    }
}

/// The entry of an optional manifest.
fn read_manifest(doc: &Option<String>, table: &str, key: &str) -> (r: Result<Option<String>, FsError>)
    ensures
        r is Err <==> manifest_entry(
            match doc {
                Some(d) => Some(d@),
                None => None,
            },
            table@,
            key@,
        ) is None,
        r matches Ok(v) ==> manifest_entry(
            match doc {
                Some(d) => Some(d@),
                None => None,
            },
            table@,
            key@,
        ) == Some(
            match v {
                Some(s) => Some(s@),
                None => None,
            },
        ),
{
    match doc {
        None => Ok(None),
        Some(d) => match toml_entry(d.as_str(), table, key) {
            Ok(None) => Ok(None),
            Ok(Some(Some(s))) => Ok(Some(s)),
            Ok(Some(None)) => Ok(Some(String::new())),
            Err(_) => Err(FsError::Toml),
        },
    }
}

/// Logic for the file view: the directory tree and the current files.
pub struct FileSysStructure {
    pub root: String,
    pub name: String,
    pub dirs: Vec<String>,
    pub display: Vec<String>,
    pub is_cargo: bool,
    pub is_mdbook: bool,
    pub files_dir: String,
    pub files: Vec<String>,
}

impl FileSysStructure {
    /// An empty file view.
    pub fn new() -> (r: FileSysStructure)
        ensures
            r.root@.len() == 0,
            r.name@.len() == 0,
            r.dirs@.len() == 0,
            r.display@.len() == 0,
            !r.is_cargo,
            !r.is_mdbook,
            r.files_dir@.len() == 0,
            r.files@.len() == 0,
    {
        FileSysStructure {
            root: String::new(),
            name: String::new(),
            dirs: Vec::new(),
            display: Vec::new(),
            is_cargo: false,
            is_mdbook: false,
            files_dir: String::new(),
            files: Vec::new(),
        }
    }

    pub fn root(&self) -> (r: &str)
        ensures
            r@ == self.root@,
    {
        self.root.as_str()
    }

    pub fn name(&self) -> (r: &str)
        ensures
            r@ == self.name@,
    {
        self.name.as_str()
    }

    pub fn is_mdbook(&self) -> (r: bool)
        ensures
            r == self.is_mdbook,
    {
        self.is_mdbook
    }

    pub fn is_cargo(&self) -> (r: bool)
        ensures
            r == self.is_cargo,
    {
        self.is_cargo
    }

    pub fn dirs(&self) -> (r: &[String])
        ensures
            r@ == self.dirs@,
    {
        self.dirs.as_slice()
    }

    pub fn dirs_len(&self) -> (r: usize)
        ensures
            r == self.dirs@.len(),
    {
        self.dirs.len()
    }

    pub fn display(&self) -> (r: &[String])
        ensures
            r@ == self.display@,
    {
        self.display.as_slice()
    }

    pub fn files_dir(&self) -> (r: &str)
        ensures
            r@ == self.files_dir@,
    {
        self.files_dir.as_str()
    }

    pub fn files(&self) -> (r: &[String])
        ensures
            r@ == self.files@,
    {
        self.files.as_slice()
    }

    pub fn file(&self, n: usize) -> (r: &str)
        requires
            n < self.files@.len(),
        ensures
            r@ == self.files@[n as int]@,
    {
        self.files[n].as_str()
    }

    pub fn files_len(&self) -> (r: usize)
        ensures
            r == self.files@.len(),
    {
        self.files.len()
    }

    pub fn files_is_empty(&self) -> (r: bool)
        ensures
            r == (self.files@.len() == 0),
    {
        self.files.len() == 0
    }

    /// The project root for a directory: the first of `candidates`, the
    /// directory itself and then its ancestors nearest first, that holds a
    /// `Cargo.toml` or a `book.toml`.
    pub fn find_root(candidates: &Vec<RootCandidate>) -> (r: Option<String>)
        ensures
            r matches Some(p) ==> exists|k: int|
                0 <= k < candidates@.len() && marks_root(#[trigger] candidates@[k]) && candidates@[k].path@ == p@
                    && forall|j: int| 0 <= j < k ==> !marks_root(#[trigger] candidates@[j]),
            r is None ==> forall|j: int| 0 <= j < candidates@.len() ==> !marks_root(#[trigger] candidates@[j]),
    {
        let mut i: usize = 0;
        while i < candidates.len()
            invariant
                0 <= i <= candidates@.len(),
                forall|j: int| 0 <= j < i ==> !marks_root(#[trigger] candidates@[j]),
            decreases candidates@.len() - i,
        {
            if candidates[i].has_cargo_toml || candidates[i].has_book_toml {
                let r = candidates[i].path.clone();
                assert(marks_root(candidates@[i as int]));
                return Some(r);
            }
            i = i + 1;
        }
        None
    }

    /// The root the file view uses for `path`: its project root, or the
    /// path itself where it lies in no project.
    pub fn root_for(path: &str, candidates: &Vec<RootCandidate>) -> (r: String)
        ensures
            (exists|k: int| 0 <= k < candidates@.len() && marks_root(#[trigger] candidates@[k])) ==> exists|k: int|
                0 <= k < candidates@.len() && marks_root(#[trigger] candidates@[k]) && candidates@[k].path@ == r@
                    && forall|j: int| 0 <= j < k ==> !marks_root(#[trigger] candidates@[j]),
            (forall|j: int| 0 <= j < candidates@.len() ==> !marks_root(#[trigger] candidates@[j])) ==> r@ == path@,
    {
        match Self::find_root(candidates) {
            Some(r) => r,
            None => String::from_str(path),
        }
    }

    /// The name of a root and its kind; see [`root_naming`].
    pub fn name_root(root: &str, cargo_toml: &Option<String>, book_toml: &Option<String>) -> (r: Result<(String, bool, bool), FsError>)
        ensures
            r is Err <==> root_naming(opt_view(cargo_toml), opt_view(book_toml), root@) is None,
            r matches Ok(v) ==> root_naming(opt_view(cargo_toml), opt_view(book_toml), root@) == Some((v.0@, v.1, v.2)),
    {
        let package = String::from_str("package");
        let name = String::from_str("name");
        let book = String::from_str("book");
        let title = String::from_str("title");
        proof {
            reveal_strlit("package");
            reveal_strlit("name");
            reveal_strlit("book");
            reveal_strlit("title");
            assert(package@ =~= package_str());
            assert(name@ =~= name_str());
            assert(book@ =~= book_str());
            assert(title@ =~= title_str());
        }
        match read_manifest(cargo_toml, package.as_str(), name.as_str()) {
            Err(e) => Err(e),
            Ok(Some(n)) => Ok((n, true, false)),
            Ok(None) => match read_manifest(book_toml, book.as_str(), title.as_str()) {
                Err(e) => Err(e),
                Ok(Some(n)) => Ok((n, false, true)),
                Ok(None) => match path_file_name(root) {
                    Some(f) => Ok((f, false, false)),
                    None => {
                        let dot = String::from_str(".");
                        proof {
                            reveal_strlit(".");
                            assert(dot@ =~= seq!['.']);
                        }
                        Ok((dot, false, false))
                    },
                },
            },
        }
    }
}

/// A relative path that does not start at `.` is listed as `./path`.
pub open spec fn listed_path(p: Seq<char>) -> Seq<char> {
    let absolute = p.len() > 0 && p[0] == '/';
    let from_dot = p.len() > 0 && p[0] == '.' && (p.len() == 1 || p[1] == '/');
    if !absolute && !from_dot {
        seq!['.', '/'] + p
    } else {
        p
    }
}

/// `x` is equal as a path to one of `files`.
pub open spec fn path_in(x: Seq<char>, files: Seq<Seq<char>>) -> bool {
    exists|k: int| 0 <= k < files.len() && path_eq(x, #[trigger] files[k])
}

/// Every found path, as listed, is equal as a path to one in `files`.
pub open spec fn represents_all(found: Seq<Seq<char>>, files: Seq<Seq<char>>) -> bool {
    forall|m: int| 0 <= m < found.len() ==> path_in(listed_path(#[trigger] found[m]), files)
}

/// The file list for what the globs found: listed, sorted by path, each
/// path once.
pub open spec fn file_listing(found: Seq<Seq<char>>) -> Seq<Seq<char>> {
    deduped_paths_of(sorted_paths_of(found.map_values(|p: Seq<char>| listed_path(p))))
}

/// How a found path is listed; see [`listed_path`].
pub fn list_path(p: &String) -> (r: String)
    ensures
        r@ == listed_path(p@),
{
    let n = p.unicode_len();
    let absolute = n > 0 && p.as_str().get_char(0) == '/';
    let from_dot = n > 0 && p.as_str().get_char(0) == '.' && (n == 1 || p.as_str().get_char(1) == '/');
    if !absolute && !from_dot {
        let mut r = String::from_str("./");
        proof {
            reveal_strlit("./");
        }
        r.append(p.as_str());
        proof {
            assert(r@ =~= listed_path(p@));
        }
        r
    } else {
        p.clone()
    }
}

impl FileSysStructure {
    /// Loads the listing of the current directory `path` from the files the
    /// globs found there.
    pub fn load_current(&mut self, path: &str, found: &Vec<String>)
        ensures
            final(self).files_dir@ == path@,
            strings_view(final(self).files@) == file_listing(strings_view(found@)),
            forall|i: int, j: int|
                0 <= i < j < final(self).files@.len() ==> path_le(#[trigger] final(self).files@[i]@, #[trigger] final(self).files@[j]@)
                    && !path_eq(final(self).files@[i]@, final(self).files@[j]@),
            forall|k: int|
                #![trigger final(self).files@[k]]
                0 <= k < final(self).files@.len() ==> exists|m: int|
                    0 <= m < found@.len() && final(self).files@[k]@ == listed_path(#[trigger] found@[m]@),
            represents_all(strings_view(found@), strings_view(final(self).files@)),
            final(self).root == old(self).root,
            final(self).name == old(self).name,
            final(self).dirs == old(self).dirs,
            final(self).display == old(self).display,
            final(self).is_cargo == old(self).is_cargo,
            final(self).is_mdbook == old(self).is_mdbook,
    {
        let mut listed: Vec<String> = Vec::new();
        let mut i: usize = 0;
        while i < found.len()
            invariant
                0 <= i <= found@.len(),
                listed@.len() == i,
                forall|k: int| 0 <= k < i ==> #[trigger] listed@[k]@ == listed_path(found@[k]@),
            decreases found@.len() - i,
        {
            listed.push(list_path(&found[i]));
            i = i + 1;
        }
        proof {
            assert(strings_view(listed@) =~= strings_view(found@).map_values(|p: Seq<char>| listed_path(p)));
        }
        let ghost lv = strings_view(listed@);
        let sorted = sort_paths(listed);
        let ghost sv = strings_view(sorted@);
        let files = dedup_paths(sorted);
        proof {
            broadcast use vstd::seq_lib::to_multiset_contains;
            assert forall|k: int|
                #![trigger files@[k]]
                0 <= k < files@.len() implies exists|m: int|
                0 <= m < found@.len() && files@[k]@ == listed_path(#[trigger] found@[m]@) by {
                assert(sv.contains(files@[k]@));
                assert(sv.to_multiset().count(files@[k]@) > 0);
                assert(lv.to_multiset().count(files@[k]@) > 0);
                assert(lv.contains(files@[k]@));
                let m = choose|m: int| 0 <= m < lv.len() && lv[m] == files@[k]@;
                assert(lv[m] == listed@[m]@);
                assert(files@[k]@ == listed_path(found@[m]@));
            }
            assert forall|m: int|
                #![trigger found@[m]]
                0 <= m < found@.len() implies exists|k: int|
                0 <= k < files@.len() && path_eq(listed_path(found@[m]@), #[trigger] files@[k]@) by {
                assert(lv[m] == listed@[m]@);
                assert(lv[m] == listed_path(found@[m]@));
                assert(lv.contains(lv[m]));
                assert(lv.to_multiset().count(lv[m]) > 0);
                assert(sv.to_multiset().count(lv[m]) > 0);
                assert(sv.contains(lv[m]));
                let i = choose|i: int| 0 <= i < sv.len() && sv[i] == lv[m];
                assert(sorted@[i]@ == sv[i]);
                let k = choose|k: int| 0 <= k < files@.len() && path_eq(#[trigger] sorted@[i]@, files@[k]@);
                assert(path_eq(listed_path(found@[m]@), files@[k]@));
            }
        }
        let ghost fs = files@;
        self.files = files;
        self.files_dir = String::from_str(path);
        proof {
            let found_v = strings_view(found@);
            let files_v = strings_view(self.files@);
            assert forall|m: int| 0 <= m < found_v.len() implies path_in(listed_path(#[trigger] found_v[m]), files_v) by {
                assert(found_v[m] == found@[m]@);
                let k = choose|k: int| 0 <= k < fs.len() && path_eq(listed_path(found@[m]@), #[trigger] fs[k]@);
                assert(files_v[k] == fs[k]@);
            }
        }
    }
}

/// The lines of the directory tree for the paths a walk of a root yields,
/// relative to the root.
pub open spec fn tree_lines(walk: Seq<Seq<char>>) -> Seq<(Seq<char>, Seq<char>)> {
    drawn(built(root_tree(), walk), 0, 0, seq![])
}

impl FileSysStructure {
    /// Loads the directory tree for the root `new_root`, where it is not
    /// the loaded one already. `cargo_toml` and `book_toml` hold the
    /// manifests found in the root, `walk` the paths below it, relative to
    /// it, in walk order. The first line is the root under its name, then
    /// one line per directory that holds walked paths.
    pub fn load_filesys(
        &mut self,
        new_root: &String,
        cargo_toml: &Option<String>,
        book_toml: &Option<String>,
        walk: &Vec<String>,
    ) -> (r: Result<(), FsError>)
        ensures
            final(self).files_dir == old(self).files_dir,
            final(self).files == old(self).files,
            old(self).root@ == new_root@ ==> r is Ok && final(self).root == old(self).root
                && final(self).name == old(self).name && final(self).dirs == old(self).dirs
                && final(self).display == old(self).display && final(self).is_cargo
                == old(self).is_cargo && final(self).is_mdbook == old(self).is_mdbook,
            old(self).root@ != new_root@ ==> final(self).root@ == new_root@ && match root_naming(
                opt_view(cargo_toml),
                opt_view(book_toml),
                new_root@,
            ) {
                None => r is Err && final(self).name@.len() == 0 && final(self).dirs@.len() == 0
                    && final(self).display@.len() == 0,
                Some(named) => r is Ok && final(self).name@ == named.0 && final(self).is_cargo
                    == named.1 && final(self).is_mdbook == named.2 && strings_view(
                    final(self).dirs@,
                ) == seq![new_root@] + drawn_dirs(new_root@, tree_lines(strings_view(walk@)))
                    && strings_view(final(self).display@) == seq![named.0] + drawn_lines(
                    tree_lines(strings_view(walk@)),
                ),
            },
    {
        if self.root == *new_root {
            return Ok(());
        }
        self.name = String::new();
        self.root = new_root.clone();
        self.dirs = Vec::new();
        self.display = Vec::new();
        match Self::name_root(new_root.as_str(), cargo_toml, book_toml) {
            Err(e) => Err(e),
            Ok((name, is_cargo, is_mdbook)) => {
                self.name = name;
                self.is_cargo = is_cargo;
                self.is_mdbook = is_mdbook;
                self.dirs.push(new_root.clone());
                self.display.push(self.name.clone());
                let tree = build_tree(walk);
                let prefix = String::new();
                proof {
                    assert(prefix@ =~= Seq::<char>::empty());
                    assert(strings_view(self.dirs@) =~= seq![new_root@]);
                    assert(strings_view(self.display@) =~= seq![self.name@]);
                }
                draw_tree(&tree, 0, &prefix, new_root.as_str(), &mut self.dirs, &mut self.display);
                Ok(())
            },
        }
    }

    /// Loads both the listing of the current directory and the tree of its
    /// root; see [`FileSysStructure::load_current`] and
    /// [`FileSysStructure::load_filesys`].
    pub fn load(
        &mut self,
        path: &str,
        found: &Vec<String>,
        new_root: &String,
        cargo_toml: &Option<String>,
        book_toml: &Option<String>,
        walk: &Vec<String>,
    ) -> (r: Result<(), FsError>)
        ensures
            final(self).files_dir@ == path@,
            strings_view(final(self).files@) == file_listing(strings_view(found@)),
            final(self).root@ == new_root@,
            r is Err <==> (old(self).root@ != new_root@ && root_naming(
                opt_view(cargo_toml),
                opt_view(book_toml),
                new_root@,
            ) is None),
    {
        self.load_current(path, found);
        self.load_filesys(new_root, cargo_toml, book_toml, walk)
    }
}

impl Default for FileSysStructure {
    /// An empty file view.
    fn default() -> (r: FileSysStructure)
        ensures
            r.root@.len() == 0,
            r.name@.len() == 0,
            r.dirs@.len() == 0,
            r.display@.len() == 0,
            !r.is_cargo,
            !r.is_mdbook,
            r.files_dir@.len() == 0,
            r.files@.len() == 0,
    {
        FileSysStructure::new()
    }
}

/// The contents of an optional string.
pub open spec fn opt_view(s: &Option<String>) -> Option<Seq<char>> {
    match s {
        Some(v) => Some(v@),
        None => None,
    }
}

} // verus!
