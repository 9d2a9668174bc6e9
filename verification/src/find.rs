//! Finding the Git repositories among the immediate children of a
//! directory: a child is reported when it is a directory holding `.git` and
//! its folder name is not excluded.

use vstd::prelude::*;
use vstd::string::StringExecFns;

verus! {

/// One child of the scanned directory, as the file system showed it.
pub struct DirEntryInfo {
    /// The child's full path.
    pub path: String,
    /// The child's own name, the last component of `path`.
    pub folder_name: String,
    /// The child is a directory that holds `.git`.
    pub has_git_dir: bool,
}

/// What a `DirEntryInfo` holds.
pub struct DirEntryView {
    pub path: Seq<char>,
    pub folder_name: Seq<char>,
    pub has_git_dir: bool,
}

impl View for DirEntryInfo {
    type V = DirEntryView;

    open spec fn view(&self) -> DirEntryView {
        DirEntryView {
            path: self.path@,
            folder_name: self.folder_name@,
            has_git_dir: self.has_git_dir,
        }
    }
}

/// The repositories found in one directory.
pub struct FindGitRepos {
    pub dir: String,
    pub num_repos: u32,
    pub repos_found: Vec<String>,
}

/// The characters of each string.
pub open spec fn string_views(strings: Seq<String>) -> Seq<Seq<char>> {
    strings.map_values(|s: String| s@)
}

/// The names in an optional exclusion list.
pub open spec fn exclusion_view(exclude: Option<Vec<String>>) -> Option<Seq<Seq<char>>> {
    match exclude {
        Some(names) => Some(string_views(names@)),
        None => None,
    }
}

/// `name` is one of the excluded names.
pub open spec fn is_excluded(exclude: Option<Seq<Seq<char>>>, name: Seq<char>) -> bool {
    match exclude {
        Some(names) => names.contains(name),
        None => false,
    }
}

/// The entry is reported: a Git repository whose name is not excluded.
pub open spec fn is_reported(entry: DirEntryView, exclude: Option<Seq<Seq<char>>>) -> bool {
    entry.has_git_dir && !is_excluded(exclude, entry.folder_name)
}

/// The paths of the reported entries, in the order of the entries.
pub open spec fn found_paths(entries: Seq<DirEntryView>, exclude: Option<Seq<Seq<char>>>) -> Seq<
    Seq<char>,
>
    decreases entries.len(),
{
    if entries.len() == 0 {
        Seq::empty()
    } else {
        let rest = found_paths(entries.drop_last(), exclude);
        if is_reported(entries.last(), exclude) {
            rest.push(entries.last().path)
        } else {
            rest
        }
    }
}

/// The entries' views.
pub open spec fn entry_views(entries: Seq<DirEntryInfo>) -> Seq<DirEntryView> {
    entries.map_values(|e: DirEntryInfo| e@)
}

impl FindGitRepos {
    /// The count of repositories matches the list of their paths.
    pub open spec fn well_formed(&self) -> bool {
        self.num_repos == self.repos_found@.len()
    }

    /// No repository found yet in `dir`.
    pub fn new(dir: String) -> (r: FindGitRepos)
        ensures
            r.dir@ == dir@,
            r.num_repos == 0,
            r.repos_found@.len() == 0,
            r.well_formed(),
    {
        FindGitRepos { dir, num_repos: 0, repos_found: Vec::new() }
    }

    /// Takes one child of the directory into account: a reported one adds
    /// its path and one to the count, any other leaves the result as it is.
    pub fn record(&mut self, entry: &DirEntryInfo, exclude: &Option<Vec<String>>)
        requires
            old(self).well_formed(),
            old(self).num_repos < u32::MAX,
        ensures
            final(self).well_formed(),
            final(self).dir == old(self).dir,
            is_reported(entry@, exclusion_view(*exclude)) ==> string_views(
                final(self).repos_found@,
            ) == string_views(old(self).repos_found@).push(entry.path@),
            !is_reported(entry@, exclusion_view(*exclude)) ==> final(self).repos_found@ == old(
                self,
            ).repos_found@,
    {
        if entry.has_git_dir {
            let excluded = is_excluded_name(exclude, &entry.folder_name);
            if !excluded {
                self.num_repos = self.num_repos + 1;
                self.repos_found.push(entry.path.clone());
                proof {
                    assert(string_views(self.repos_found@) == string_views(
                        old(self).repos_found@,
                    ).push(entry.path@));
                }
            }
        }
    }
}

/// Whether `folder_name` is on the exclusion list; no list excludes nothing.
pub fn is_excluded_name(exclude: &Option<Vec<String>>, folder_name: &String) -> (r: bool)
    ensures
        r == is_excluded(exclusion_view(*exclude), folder_name@),
        *exclude is None ==> !r,
        exclude matches Some(names) ==> (r <==> exists|i: int|
            0 <= i < names.len() && (#[trigger] names@[i])@ == folder_name@),
{
    match exclude {
        None => false,
        Some(names) => {
            let ghost views = string_views(names@);
            assert(exclusion_view(*exclude) == Some(views));
            let mut i: usize = 0;
            while i < names.len()
                invariant
                    *exclude == Some(*names),
                    exclusion_view(*exclude) == Some(views),
                    i <= names.len(),
                    views == string_views(names@),
                    forall|j: int| 0 <= j < i ==> views[j] != folder_name@,
                    forall|j: int| 0 <= j < i ==> (#[trigger] names@[j])@ != folder_name@,
                decreases names.len() - i,
            {
                if names[i] == *folder_name {
                    proof {
                        assert(views[i as int] == folder_name@);
                        assert(names@[i as int]@ == folder_name@);
                    }
                    return true;
                }
                i = i + 1;
            }
            false
        },
    }
}

/// The Git repositories among the children `entries` of `dir`, skipping
/// those whose folder name is excluded.
pub fn find_git_repos(dir: String, entries: &Vec<DirEntryInfo>, exclude: &Option<Vec<String>>) -> (r:
    FindGitRepos)
    requires
        entries.len() <= u32::MAX,
    ensures
        r.dir@ == dir@,
        r.well_formed(),
        string_views(r.repos_found@) == found_paths(entry_views(entries@), exclusion_view(*exclude)),
{
    let ghost views = entry_views(entries@);
    let ghost excl = exclusion_view(*exclude);
    let mut found = FindGitRepos::new(dir);
    let mut i: usize = 0;
    while i < entries.len()
        invariant
            i <= entries.len(),
            entries.len() <= u32::MAX,
            views == entry_views(entries@),
            excl == exclusion_view(*exclude),
            found.dir@ == dir@,
            found.well_formed(),
            string_views(found.repos_found@) == found_paths(views.take(i as int), excl),
        decreases entries.len() - i,
    {
        proof {
            assert(views.take(i + 1).drop_last() == views.take(i as int));
            assert(views.take(i + 1).last() == entries@[i as int]@);
            lemma_found_paths_len(views.take(i as int), excl);
        }
        found.record(&entries[i], exclude);
        i = i + 1;
    }
    proof {
        assert(views.take(entries.len() as int) == views);
    }
    found
}

/// The path of the marker that makes a directory a Git repository.
pub fn git_marker_path(path: &str) -> (r: String)
    ensures
        r@ == path@ + "/.git"@,
{
    let mut marker = String::from_str(path);
    marker.append("/.git");
    marker
}

/// Excluding more folder names never reports more repositories: when every
/// name that `fewer` excludes is excluded by `more` too, `more` reports at
/// most as many paths.
pub proof fn lemma_more_exclusions_report_no_more(
    entries: Seq<DirEntryView>,
    fewer: Option<Seq<Seq<char>>>,
    more: Option<Seq<Seq<char>>>,
)
    requires
        forall|name: Seq<char>| #[trigger] is_excluded(fewer, name) ==> is_excluded(more, name),
    ensures
        found_paths(entries, more).len() <= found_paths(entries, fewer).len(),
    decreases entries.len(),
{
    if entries.len() > 0 {
        lemma_more_exclusions_report_no_more(entries.drop_last(), fewer, more);
        let _ = is_excluded(fewer, entries.last().folder_name);
    }
}

/// `path` is the path of one of the entries that is reported.
pub open spec fn is_path_of_reported_entry(
    entries: Seq<DirEntryView>,
    exclude: Option<Seq<Seq<char>>>,
    path: Seq<char>,
) -> bool {
    exists|i: int|
        0 <= i < entries.len() && is_reported(#[trigger] entries[i], exclude) && entries[i].path
            == path
}

/// Every reported path is that of an entry which is a Git repository and
/// whose folder name is not excluded, and every such entry's path is
/// reported.
pub proof fn lemma_reported_paths_are_unexcluded_repos(
    entries: Seq<DirEntryView>,
    exclude: Option<Seq<Seq<char>>>,
)
    ensures
        forall|k: int|
            0 <= k < found_paths(entries, exclude).len() ==> is_path_of_reported_entry(
                entries,
                exclude,
                #[trigger] found_paths(entries, exclude)[k],
            ),
        forall|i: int|
            0 <= i < entries.len() && is_reported(#[trigger] entries[i], exclude)
                ==> found_paths(entries, exclude).contains(entries[i].path),
    decreases entries.len(),
{
    if entries.len() > 0 {
        let front = entries.drop_last();
        let rest = found_paths(front, exclude);
        let found = found_paths(entries, exclude);
        lemma_reported_paths_are_unexcluded_repos(front, exclude);
        assert forall|k: int| 0 <= k < found.len() implies is_path_of_reported_entry(
            entries,
            exclude,
            #[trigger] found[k],
        ) by {
            if k < rest.len() {
                assert(found[k] == rest[k]);
                assert(is_path_of_reported_entry(front, exclude, rest[k]));
                let i = choose|i: int|
                    0 <= i < front.len() && is_reported(#[trigger] front[i], exclude)
                        && front[i].path == rest[k];
                assert(entries[i] == front[i]);
            } else {
                assert(found == rest.push(entries.last().path));
                assert(entries[entries.len() - 1] == entries.last());
            }
        }
        assert forall|i: int|
            0 <= i < entries.len() && is_reported(#[trigger] entries[i], exclude) implies found.contains(
            entries[i].path,
        ) by {
            if i < front.len() {
                assert(front[i] == entries[i]);
                let k = choose|k: int| 0 <= k < rest.len() && rest[k] == entries[i].path;
                assert(found[k] == rest[k]);
            } else {
                assert(found[found.len() - 1] == entries[i].path);
            }
        }
    } else {
        assert(found_paths(entries, exclude).len() == 0);
    }
}

/// An empty exclusion list reports the same paths as no list.
pub proof fn lemma_empty_exclusion_list_is_none(entries: Seq<DirEntryView>)
    ensures
        found_paths(entries, Some(Seq::empty())) == found_paths(entries, None),
    decreases entries.len(),
{
    if entries.len() > 0 {
        lemma_empty_exclusion_list_is_none(entries.drop_last());
        assert(!Seq::<Seq<char>>::empty().contains(entries.last().folder_name));
    }
}

/// The entries whose folder name is not `name`, in order.
pub open spec fn without_folder(entries: Seq<DirEntryView>, name: Seq<char>) -> Seq<DirEntryView>
    decreases entries.len(),
{
    if entries.len() == 0 {
        Seq::empty()
    } else {
        let rest = without_folder(entries.drop_last(), name);
        if entries.last().folder_name == name {
            rest
        } else {
            rest.push(entries.last())
        }
    }
}

/// Adding one name to an exclusion list removes exactly the entries whose
/// folder name is that whole name, compared character by character: the
/// paths reported are those that the shorter list reports for the other
/// entries.
pub proof fn lemma_excluding_one_more_name(
    entries: Seq<DirEntryView>,
    names: Seq<Seq<char>>,
    name: Seq<char>,
)
    ensures
        found_paths(entries, Some(names.push(name))) == found_paths(
            without_folder(entries, name),
            Some(names),
        ),
    decreases entries.len(),
{
    if entries.len() > 0 {
        let front = entries.drop_last();
        let last = entries.last();
        let longer = names.push(name);
        lemma_excluding_one_more_name(front, names, name);
        if last.folder_name == name {
            assert(longer[names.len() as int] == name);
            assert(longer.contains(name));
        } else {
            assert(longer.contains(last.folder_name) == names.contains(last.folder_name)) by {
                if longer.contains(last.folder_name) {
                    let k = choose|k: int| 0 <= k < longer.len() && longer[k] == last.folder_name;
                    assert(k < names.len());
                    assert(names[k] == longer[k]);
                }
                if names.contains(last.folder_name) {
                    let k = choose|k: int| 0 <= k < names.len() && names[k] == last.folder_name;
                    assert(longer[k] == names[k]);
                }
            }
            let kept = without_folder(front, name).push(last);
            assert(kept.drop_last() == without_folder(front, name));
            assert(kept.last() == last);
        }
    }
}

/// Exclusion is exact membership: with no list nothing is excluded, and
/// with a list a name is excluded exactly when it equals, character for
/// character, one of the names on it.
pub proof fn lemma_exclusion_is_exact_membership(names: Seq<Seq<char>>, name: Seq<char>)
    ensures
        !is_excluded(None, name),
        is_excluded(Some(names), name) <==> exists|i: int|
            0 <= i < names.len() && #[trigger] names[i] == name,
{
}

/// `path` is the path of one of the entries that holds a Git repository.
pub open spec fn is_path_of_git_entry(entries: Seq<DirEntryView>, path: Seq<char>) -> bool {
    exists|i: int|
        0 <= i < entries.len() && (#[trigger] entries[i]).has_git_dir && entries[i].path == path
}

/// With no exclusion list, every entry holding a Git repository is
/// reported, and every reported path is that of such an entry.
pub proof fn lemma_no_exclusions_report_every_repository(entries: Seq<DirEntryView>)
    ensures
        forall|i: int|
            0 <= i < entries.len() && (#[trigger] entries[i]).has_git_dir ==> found_paths(
                entries,
                None,
            ).contains(entries[i].path),
        forall|k: int|
            0 <= k < found_paths(entries, None).len() ==> is_path_of_git_entry(
                entries,
                #[trigger] found_paths(entries, None)[k],
            ),
{
    lemma_reported_paths_are_unexcluded_repos(entries, None);
    assert forall|i: int|
        0 <= i < entries.len() && (#[trigger] entries[i]).has_git_dir implies found_paths(
        entries,
        None,
    ).contains(entries[i].path) by {
        assert(is_reported(entries[i], None));
    }
    assert forall|k: int| 0 <= k < found_paths(entries, None).len() implies is_path_of_git_entry(
        entries,
        #[trigger] found_paths(entries, None)[k],
    ) by {
        assert(is_path_of_reported_entry(entries, None, found_paths(entries, None)[k]));
        let i = choose|i: int|
            0 <= i < entries.len() && is_reported(#[trigger] entries[i], None) && entries[i].path
                == found_paths(entries, None)[k];
        assert(entries[i].has_git_dir);
    }
}

proof fn lemma_found_paths_len(entries: Seq<DirEntryView>, exclude: Option<Seq<Seq<char>>>)
    ensures
        found_paths(entries, exclude).len() <= entries.len(),
    decreases entries.len(),
{
    if entries.len() > 0 {
        lemma_found_paths_len(entries.drop_last(), exclude);
    }
}

} // verus!
