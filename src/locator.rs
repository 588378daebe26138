//! Which page files a path stands for, and the collection root above them.
//! The facts about the file system are gathered by the caller; the decision is
//! made here.
use vstd::prelude::*;
use crate::storage::StorageError;
use crate::text::{chars_of, eq_lit};

verus! {

/// An entry of a `pages` directory.
pub struct DirEntry {
    pub path: String,
    pub is_file: bool,
    pub extension: Option<String>,
}

/// What the file system says about a path.
pub struct PathFacts {
    pub exists: bool,
    pub is_dir: bool,
    /// For a file: its parent's last component; `None` where the path has no
    /// parent, `Some(None)` where the parent has no name (such as `/`).
    pub parent_name: Option<Option<String>>,
    /// For a file: its parent's parent, where there is one.
    pub grandparent: Option<String>,
    /// For a directory: whether it holds a `pages` subdirectory.
    pub pages_dir_exists: bool,
    /// For a directory: the entries of its `pages` subdirectory, in the order
    /// the directory lists them.
    pub pages_entries: Vec<DirEntry>,
}

/// The page files in scope of a path.
pub enum PageFiles {
    /// One file, outside any collection root.
    Single(String),
    /// One file in the `pages` directory of a collection root: (root, file).
    SingleInGraphRoot(String, String),
    /// A collection root and the page files of its `pages` directory.
    GraphRoot(String, Vec<String>),
}

/// A page file: a file with the extension `md`.
pub open spec fn is_page_entry(e: DirEntry) -> bool {
    e.is_file && e.extension is Some && e.extension->Some_0@ == "md"@
}

/// The paths of the page files among `es`, in order.
pub open spec fn page_paths(es: Seq<DirEntry>) -> Seq<Seq<char>>
    decreases es.len(),
{
    if es.len() == 0 {
        seq![]
    } else if is_page_entry(es.last()) {
        page_paths(es.drop_last()).push(es.last().path@)
    } else {
        page_paths(es.drop_last())
    }
}

/// What a path stands for (each `String` by its text): `Err(0)` where it does
/// not exist, `Err(1)` for a directory without `pages`. A file stands for
/// itself; it has a collection root only where it sits in a `pages` directory
/// that has a parent.
pub open spec fn classify(path: Seq<char>, f: PathFacts) -> Result<(Option<Seq<char>>, Seq<Seq<char>>), u8> {
    if !f.exists {
        Err(0)
    } else if !f.is_dir {
        match f.parent_name {
            None => Ok((None, seq![path])),
            Some(None) => Ok((None, seq![path])),
            Some(Some(n)) => if n@ == "pages"@ && f.grandparent is Some {
                Ok((Some(f.grandparent->Some_0@), seq![path]))
            } else {
                Ok((None, seq![path]))
            },
        }
    } else if !f.pages_dir_exists {
        Err(1)
    } else {
        Ok((Some(path), page_paths(f.pages_entries@)))
    }
}

/// The collection root and page files of a `PageFiles`, by text.
pub open spec fn page_files_view(p: PageFiles) -> (Option<Seq<char>>, Seq<Seq<char>>) {
    match p {
        PageFiles::Single(f) => (None, seq![f@]),
        PageFiles::SingleInGraphRoot(r, f) => (Some(r@), seq![f@]),
        PageFiles::GraphRoot(r, fs) => (Some(r@), fs@.map_values(|s: String| s@)),
    }
}

pub open spec fn reports_layout(e: StorageError, code: u8) -> bool {
    if code == 0 {
        e is NotFound
    } else {
        e is InvalidLayout
    }
}

fn copy_string(s: &String) -> (r: String)
    ensures
        r@ == s@,
{
    let cs = chars_of(s.as_str());
    crate::text::string_of(cs.as_slice())
}

fn page_paths_of(es: &Vec<DirEntry>) -> (r: Vec<String>)
    ensures
        r@.map_values(|s: String| s@) == page_paths(es@),
{
    let mut out: Vec<String> = Vec::new();
    let mut i: usize = 0;
    while i < es.len()
        invariant
            i <= es@.len(),
            out@.map_values(|s: String| s@) == page_paths(es@.subrange(0, i as int)),
        decreases es.len() - i,
    {
        assert(es@.subrange(0, i + 1).drop_last() == es@.subrange(0, i as int));
        let e = &es[i];
        let is_md = match &e.extension {
            Some(x) => {
                let cs = chars_of(x.as_str());
                eq_lit(cs.as_slice(), "md")
            },
            None => false,
        };
        if e.is_file && is_md {
            let ghost before = out@.map_values(|s: String| s@);
            out.push(copy_string(&e.path));
            assert(out@.map_values(|s: String| s@) =~= before.push(e.path@));
        }
        i = i + 1;
    }
    assert(es@.subrange(0, es@.len() as int) == es@);
    out
}

/// Classifies a path (see `classify`).
pub fn find_page_files_inner(path: &str, facts: &PathFacts) -> (r: Result<PageFiles, StorageError>)
    ensures
        match classify(path@, *facts) {
            Ok(v) => r matches Ok(p) && page_files_view(p) == v,
            Err(code) => r matches Err(e) && reports_layout(e, code),
        },
{
    let p = crate::text::string_of(chars_of(path).as_slice());
    if !facts.exists {
        return Err(StorageError::NotFound { path: p });
    }
    if !facts.is_dir {
        match &facts.parent_name {
            None => {
                return Ok(PageFiles::Single(p));
            },
            Some(None) => {
                return Ok(PageFiles::Single(p));
            },
            Some(Some(n)) => {
                let cs = chars_of(n.as_str());
                if eq_lit(cs.as_slice(), "pages") {
                    if let Some(g) = &facts.grandparent {
                        return Ok(PageFiles::SingleInGraphRoot(copy_string(g), p));
                    }
                }
                return Ok(PageFiles::Single(p));
            },
        }
    }
    if !facts.pages_dir_exists {
        return Err(StorageError::InvalidLayout { path: p });
    }
    Ok(PageFiles::GraphRoot(p, page_paths_of(&facts.pages_entries)))
}

/// The collection root of a path, where it has one.
pub fn find_graph_root(path: &str, facts: &PathFacts) -> (r: Result<Option<String>, StorageError>)
    ensures
        match classify(path@, *facts) {
            Ok((root, _)) => r matches Ok(x) && match x {
                Some(s) => root == Some(s@),
                None => root is None,
            },
            Err(code) => r matches Err(e) && reports_layout(e, code),
        },
{
    match find_page_files_inner(path, facts)? {
        PageFiles::Single(_) => Ok(None),
        PageFiles::SingleInGraphRoot(root, _) => Ok(Some(root)),
        PageFiles::GraphRoot(root, _) => Ok(Some(root)),
    }
}

/// The page files a path stands for.
pub fn find_page_files(path: &str, facts: &PathFacts) -> (r: Result<Vec<String>, StorageError>)
    ensures
        match classify(path@, *facts) {
            Ok((_, files)) => r matches Ok(v) && v@.map_values(|s: String| s@) == files,
            Err(code) => r matches Err(e) && reports_layout(e, code),
        },
{
    match find_page_files_inner(path, facts)? {
        PageFiles::Single(f) => {
            let v = vec![f];
            assert(v@.map_values(|s: String| s@) =~= seq![v@[0]@]);
            Ok(v)
        },
        PageFiles::SingleInGraphRoot(_, f) => {
            let v = vec![f];
            assert(v@.map_values(|s: String| s@) =~= seq![v@[0]@]);
            Ok(v)
        },
        PageFiles::GraphRoot(_, fs) => Ok(fs),
    }
}

} // verus!
