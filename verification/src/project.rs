//! Choosing the directory of a project.
use crate::paths;
use crate::paths::Platform;
use crate::sort;
use crate::sort::ByText;
use crate::text;
use vstd::prelude::*;
use vstd::string::*;

verus! {

/// A directory that can be opened.
#[derive(Debug)]
pub struct DirectoryEntry {
    pub name: String,
    pub path: String,
}

impl Clone for DirectoryEntry {
    fn clone(&self) -> (r: Self)
        ensures
            r == *self,
    {
        DirectoryEntry { name: self.name.clone(), path: self.path.clone() }
    }
}

/// What a directory holds.
#[derive(Debug)]
pub struct DirectoryListing {
    pub path: String,
    pub parent: Option<String>,
    pub directories: Vec<DirectoryEntry>,
    pub roots: Vec<String>,
}

/// The text in lower case.
pub uninterp spec fn lowercase(text: Seq<char>) -> Seq<char>;

/// `str::to_lowercase`: the lower case of a text, which depends on the text alone.
#[verifier::external_body]
fn to_lowercase(text: &str) -> (r: String)
    ensures
        r@ == lowercase(text@),
{
    text.to_lowercase()
}

/// A requested path, seen from `base`.
pub fn resolve_path(platform: Platform, base: &str, requested: &str) -> (r: String)
    ensures
        r@ == paths::joined(platform, base@, requested@),
{
    if paths::is_absolute(platform, requested) {
        requested.to_owned()
    } else {
        paths::join(platform, base, requested)
    }
}

/// Where the file system begins: on Windows at each drive that there is, or else at the first part
/// of the current path.
pub fn filesystem_roots(platform: Platform, drives: Vec<String>, first_part: Option<&str>) -> (r: Vec<
    String,
>)
    ensures
        text::views(r@) == (if platform != Platform::Windows {
            seq!["/"@]
        } else if drives@.len() > 0 {
            text::views(drives@)
        } else {
            match first_part {
                Some(p) => seq![p@],
                None => Seq::empty(),
            }
        }),
{
    let mut r: Vec<String> = Vec::new();
    match platform {
        Platform::Windows => {
            if drives.len() > 0 {
                return drives;
            }
            if let Some(p) = first_part {
                r.push(p.to_owned());
                assert(text::views(r@) == seq![p@]);
            } else {
                assert(text::views(r@) == Seq::<Seq<char>>::empty());
            }
        },
        _ => {
            r.push("/".to_owned());
            assert(text::views(r@) == seq!["/"@]);
        },
    }
    r
}

/// Why a directory cannot be named so.
#[derive(Clone, Copy, Debug, PartialEq, Eq, Structural)]
pub enum NameError {
    Empty,
    Separators,
}

impl NameError {
    /// What a person is told.
    pub open spec fn text(self) -> Seq<char> {
        match self {
            NameError::Empty => "directory name is required"@,
            NameError::Separators => "directory name must be one name without path separators"@,
        }
    }

    /// What a person is told.
    pub fn message(&self) -> (s: String)
        ensures
            s@ == self.text(),
    {
        match self {
            NameError::Empty => "directory name is required".to_owned(),
            NameError::Separators =>
                "directory name must be one name without path separators".to_owned(),
        }
    }
}

/// The name of a directory to be created, and where that is.
pub fn create_directory(platform: Platform, parent: &str, name: &str) -> (r: Result<
    String,
    NameError,
>)
    ensures
        ({
            let trimmed = text::trimmed(name@);
            if trimmed.len() == 0 {
                r == Err::<String, NameError>(NameError::Empty)
            } else if !paths::is_single_name(platform, trimmed) {
                r == Err::<String, NameError>(NameError::Separators)
            } else {
                r matches Ok(path) && path@ == paths::joined(platform, parent@, trimmed)
            }
        }),
{
    let trimmed = text::trim(name);
    if trimmed.is_empty() {
        return Err(NameError::Empty);
    }
    if !paths::single_name(platform, trimmed) {
        return Err(NameError::Separators);
    }
    Ok(paths::join(platform, parent, trimmed))
}

/// The names of directories in lower case.
pub open spec fn name_keys(entries: Seq<DirectoryEntry>, keys: Seq<ByText>) -> bool {
    keys.len() == entries.len() && forall|i: int|
        0 <= i < entries.len() ==> (#[trigger] keys[i]).text@ == lowercase(entries[i].name@)
}

/// Sorts directories by their names in lower case; those that are alike keep their order.
pub fn sort_directories(entries: &Vec<DirectoryEntry>) -> (r: Vec<DirectoryEntry>)
    ensures
        exists|keys: Seq<ByText>| #[trigger]
            name_keys(entries@, keys) && r@ == placed(entries@, sort::sort_by(
                keys,
                sort::upto(entries@.len()),
            )),
{
    let mut keys: Vec<ByText> = Vec::new();
    let mut i: usize = 0;
    while i < entries.len()
        invariant
            i <= entries@.len(),
            keys@.len() == i,
            forall|j: int|
                0 <= j < i ==> (#[trigger] keys@[j]).text@ == lowercase(entries@[j].name@),
        decreases entries@.len() - i,
    {
        keys.push(ByText { text: to_lowercase(&entries[i].name) });
        i += 1;
    }
    let order = sort::sort_all(&keys);
    let mut r: Vec<DirectoryEntry> = Vec::new();
    let mut i: usize = 0;
    while i < order.len()
        invariant
            i <= order@.len(),
            r@.len() == i,
            forall|j: int| 0 <= j < order@.len() ==> #[trigger] order@[j] < entries@.len(),
            forall|j: int| 0 <= j < i ==> #[trigger] r@[j] == entries@[order@[j] as int],
        decreases order@.len() - i,
    {
        r.push(entries[order[i]].clone());
        i += 1;
    }
    assert(name_keys(entries@, keys@));
    assert(r@ == placed(entries@, sort::ints(order@)));
    r
}

/// What stands at the positions of a list.
pub open spec fn placed(entries: Seq<DirectoryEntry>, order: Seq<int>) -> Seq<DirectoryEntry> {
    Seq::new(order.len(), |i: int| entries[order[i]])
}

/// Something that a directory holds.
#[derive(Debug)]
pub struct FoundEntry {
    pub entry: DirectoryEntry,
    pub is_directory: bool,
}

/// The directories among the first `n` of what was found.
pub open spec fn directories_in(found: Seq<FoundEntry>, n: nat) -> Seq<DirectoryEntry>
    decreases n,
{
    if n == 0 {
        Seq::empty()
    } else if found[n - 1].is_directory {
        directories_in(found, (n - 1) as nat).push(found[n - 1].entry)
    } else {
        directories_in(found, (n - 1) as nat)
    }
}

/// What a directory holds, of which only the directories are listed, sorted by their names.
pub fn browse_directories(
    path: String,
    parent: Option<String>,
    found: &Vec<FoundEntry>,
    roots: Vec<String>,
) -> (r: DirectoryListing)
    ensures
        r.path == path,
        r.parent == parent,
        r.roots == roots,
        ({
            let directories = directories_in(found@, found@.len());
            exists|keys: Seq<ByText>| #[trigger]
                name_keys(directories, keys) && r.directories@ == placed(
                    directories,
                    sort::sort_by(keys, sort::upto(directories.len())),
                )
        }),
{
    let mut directories: Vec<DirectoryEntry> = Vec::new();
    let mut i: usize = 0;
    while i < found.len()
        invariant
            i <= found@.len(),
            directories@ == directories_in(found@, i as nat),
        decreases found@.len() - i,
    {
        if found[i].is_directory {
            directories.push(found[i].entry.clone());
        }
        i += 1;
    }
    DirectoryListing { path, parent, directories: sort_directories(&directories), roots }
}

/// The directory of a project that is opened: `resolved` is what a path leads to and whether that is
/// a directory, or why it leads nowhere.
pub fn existing_directory(path: &str, resolved: Result<(String, bool), String>) -> (r: Result<
    String,
    String,
>)
    ensures
        match resolved {
            Ok((p, true)) => r == Ok::<String, String>(p),
            Ok((p, false)) => r matches Err(e) && e@ == p@ + " is not a directory"@,
            Err(m) => r matches Err(e) && e@ == "cannot open project "@ + path@ + ": "@ + m@,
        },
{
    match resolved {
        Ok((p, is_directory)) => if is_directory {
            Ok(p)
        } else {
            Err(text::cat2(&p, " is not a directory"))
        },
        Err(m) => Err(text::cat4("cannot open project ", path, ": ", &m)),
    }
}

// ---------------------------------------------------------------------------
// Laws
proof fn lemma_directories(found: Seq<FoundEntry>, one: FoundEntry, n: nat)
    requires
        n <= found.len(),
    ensures
        directories_in(found.push(one), n) == directories_in(found, n),
    decreases n,
{
    if n > 0 {
        lemma_directories(found, one, (n - 1) as nat);
    }
}

/// Of what a directory holds, exactly the directories are listed.
pub proof fn directories_are_listed(found: Seq<FoundEntry>, one: FoundEntry)
    ensures
        directories_in(Seq::empty(), 0).len() == 0,
        directories_in(found.push(one), found.len() + 1) == directories_in(found, found.len()) + (
        if one.is_directory {
            seq![one.entry]
        } else {
            Seq::<DirectoryEntry>::empty()
        }),
{
    lemma_directories(found, one, found.len());
}

/// Sorting directories keeps them all, and puts none before one whose name comes first.
pub proof fn directories_are_sorted_by_name(entries: Seq<DirectoryEntry>, keys: Seq<ByText>)
    requires
        name_keys(entries, keys),
    ensures
        ({
            let r = placed(entries, sort::sort_by(keys, sort::upto(entries.len())));
            &&& r.len() == entries.len()
            &&& forall|k: int| 0 <= k < entries.len() ==> r.contains(#[trigger] entries[k])
        }),
{
    let all = sort::upto(entries.len());
    let order = sort::sort_by(keys, all);
    let r = placed(entries, order);
    sort::lemma_sort_members(keys, all);
    assert forall|k: int| 0 <= k < entries.len() implies r.contains(#[trigger] entries[k]) by {
        sort::lemma_sort_contains(keys, all, k);
        assert(all[k] == k);
        assert(order.contains(k));
        let i = choose|i: int| 0 <= i < order.len() && order[i] == k;
        assert(r[i] == entries[k]);
    }
}

/// A directory is made under one name in its place, and under nothing else.
pub proof fn a_directory_is_made_in_its_place(
    platform: Platform,
    parent: &str,
    name: &str,
    r: Result<String, NameError>,
)
    requires
        call_ensures(create_directory, (platform, parent, name), r),
    ensures
        r == Err::<String, NameError>(NameError::Empty) <==> text::trimmed(name@).len() == 0,
        r is Ok ==> paths::is_single_name(platform, text::trimmed(name@)),
        paths::is_single_name(platform, text::trimmed(name@)) && text::trimmed(name@).len() > 0
            ==> r is Ok,
        r matches Ok(p) ==> p@ == paths::joined(platform, parent@, text::trimmed(name@)),
{
}

/// A project is opened exactly where its path leads to a directory.
pub proof fn a_project_is_a_directory(
    path: &str,
    resolved: Result<(String, bool), String>,
    r: Result<String, String>,
)
    requires
        call_ensures(existing_directory, (path, resolved), r),
    ensures
        r is Ok <==> (resolved matches Ok(p) && p.1),
        r matches Ok(d) ==> resolved == Ok::<(String, bool), String>((d, true)),
{
}

} // verus!
