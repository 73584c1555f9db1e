//! Protected metadata on Windows: what is denied, what is watched for, and what is removed
//! again.

use vstd::prelude::*;

use crate::text;
use crate::windows_paths;

verus! {

// ---- paths listed once ----

/// Whether a path is listed, compared by its key.
pub open spec fn is_listed(list: Seq<Seq<char>>, path: Seq<char>) -> bool {
    exists|i: int|
        0 <= i < list.len() && windows_paths::text_key(#[trigger] list[i])
            == windows_paths::text_key(path)
}

/// The first `n` paths, each listed where it comes first.
pub open spec fn listed_once(list: Seq<Seq<char>>, n: int) -> Seq<Seq<char>>
    decreases n,
{
    if n <= 0 {
        Seq::empty()
    } else if is_listed(listed_once(list, n - 1), list[n - 1]) {
        listed_once(list, n - 1)
    } else {
        listed_once(list, n - 1).push(list[n - 1])
    }
}

fn lists(list: &Vec<String>, path: &str) -> (r: bool)
    ensures
        r == is_listed(text::string_views(list@), path@),
{
    let ghost all = text::string_views(list@);
    let key = windows_paths::path_text_key(path);
    let mut i: usize = 0;
    while i < list.len()
        invariant
            i <= list.len(),
            all == text::string_views(list@),
            key@ == windows_paths::text_key(path@),
            forall|j: int|
                0 <= j < i ==> windows_paths::text_key(#[trigger] all[j])
                    != windows_paths::text_key(path@),
        decreases list.len() - i,
    {
        assert(all[i as int] == list@[i as int]@);
        let other = windows_paths::path_text_key(list[i].as_str());
        if text::same_str(other.as_str(), key.as_str()) {
            return true;
        }
        i = i + 1;
    }
    false
}

/// The paths, each listed where it comes first.
pub fn unique_paths(paths: &[String]) -> (r: Vec<String>)
    ensures
        text::string_views(r@) == listed_once(
            text::string_views(paths@),
            paths@.len() as int,
        ),
{
    let ghost all = text::string_views(paths@);
    let mut r: Vec<String> = Vec::new();
    let mut i: usize = 0;
    assert(text::string_views(r@) =~= listed_once(all, 0));
    while i < paths.len()
        invariant
            i <= paths.len(),
            all == text::string_views(paths@),
            text::string_views(r@) == listed_once(all, i as int),
        decreases paths.len() - i,
    {
        assert(all[i as int] == paths@[i as int]@);
        if !lists(&r, paths[i].as_str()) {
            let ghost before = r@;
            r.push(paths[i].clone());
            assert(text::string_views(r@) =~= text::string_views(before).push(all[i as int]));
        }
        i = i + 1;
    }
    r
}

/// No two of the listed paths have the same key, and every path is listed.
pub proof fn paths_are_listed_once(list: Seq<Seq<char>>, n: int)
    requires
        0 <= n <= list.len(),
    ensures
        forall|i: int, j: int|
            0 <= i < j < listed_once(list, n).len() ==> windows_paths::text_key(
                #[trigger] listed_once(list, n)[i],
            ) != windows_paths::text_key(#[trigger] listed_once(list, n)[j]),
        forall|i: int| 0 <= i < n ==> is_listed(listed_once(list, n), #[trigger] list[i]),
    decreases n,
{
    if n > 0 {
        paths_are_listed_once(list, n - 1);
        let before = listed_once(list, n - 1);
        let after = listed_once(list, n);
        assert forall|i: int, j: int| 0 <= i < j < after.len() implies windows_paths::text_key(
            #[trigger] after[i],
        ) != windows_paths::text_key(#[trigger] after[j]) by {
            assert(before[i] == after[i]);
            if j < before.len() {
                assert(before[j] == after[j]);
            }
        }
        assert forall|i: int| 0 <= i < n implies is_listed(after, #[trigger] list[i]) by {
            if i < n - 1 {
                assert(is_listed(before, list[i]));
                let k = choose|k: int|
                    0 <= k < before.len() && windows_paths::text_key(#[trigger] before[k])
                        == windows_paths::text_key(list[i]);
                assert(after[k] == before[k]);
            } else if !is_listed(before, list[i]) {
                assert(after[after.len() - 1] == list[i]);
            }
        }
    }
}

// ---- what is denied ----

/// The paths that are denied where metadata exists: itself and, for a link, where it leads.
pub open spec fn deny_paths(path: Seq<char>, is_link: Option<bool>, target: Option<Seq<char>>)
    -> Seq<Seq<char>> {
    match is_link {
        None => Seq::empty(),
        Some(is_link) => match target {
            Some(target) => if is_link && windows_paths::text_key(target)
                != windows_paths::text_key(path) {
                seq![path, target]
            } else {
                seq![path]
            },
            None => seq![path],
        },
    }
}

/// The paths that are denied where metadata exists. `is_link` is `None` where there is no
/// metadata; `target` is where a link leads, as far as it can be told.
pub fn protected_metadata_existing_deny_paths(
    path: &str,
    is_link: Option<bool>,
    target: Option<&str>,
) -> (r: Vec<String>)
    ensures
        text::string_views(r@) == deny_paths(path@, is_link, windows_paths::str_view(target)),
{
    let mut r: Vec<String> = Vec::new();
    match is_link {
        None => {
            assert(text::string_views(r@) =~= Seq::<Seq<char>>::empty());
        },
        Some(is_link) => {
            r.push(path.to_owned());
            assert(text::string_views(r@) =~= seq![path@]);
            if is_link {
                if let Some(target) = target {
                    if !lists(&r, target) {
                        r.push(target.to_owned());
                        assert(text::string_views(r@) =~= seq![path@, target@]);
                        assert(windows_paths::text_key(target@) != windows_paths::text_key(
                            seq![path@][0],
                        ));
                    }
                }
            }
        },
    }
    r
}

/// How protected metadata is dealt with.
#[derive(Clone, Copy, Debug, PartialEq, Eq, Structural)]
pub enum ProtectedMetadataMode {
    /// Deny what exists.
    ExistingDeny,
    /// Watch for what does not exist.
    MissingCreationMonitor,
    /// Put a directory in the place of what does not exist, and deny it.
    MissingDenySentinel,
}

/// What protects metadata while a command runs.
#[derive(Debug)]
pub struct ProtectedMetadataGuard {
    pub deny_paths: Vec<String>,
    pub monitored_paths: Vec<String>,
    /// The directories that were made for the command, and are removed after it.
    pub sentinel_paths: Vec<String>,
}

impl ProtectedMetadataGuard {
    /// A guard of nothing.
    pub fn new() -> (r: Self)
        ensures
            r.deny_paths@.len() == 0,
            r.monitored_paths@.len() == 0,
            r.sentinel_paths@.len() == 0,
    {
        ProtectedMetadataGuard {
            deny_paths: Vec::new(),
            monitored_paths: Vec::new(),
            sentinel_paths: Vec::new(),
        }
    }

    /// Guards a path. `existing` is what is denied where there is metadata; `created` says
    /// whether a directory was put in the place of missing metadata.
    pub fn add_target(
        &mut self,
        path: &str,
        mode: ProtectedMetadataMode,
        existing: &[String],
        created: bool,
    )
        ensures
            ({
                let denied = text::string_views(old(self).deny_paths@);
                let monitored = text::string_views(old(self).monitored_paths@);
                let sentinels = text::string_views(old(self).sentinel_paths@);
                let found = text::string_views(existing@);
                &&& text::string_views(final(self).deny_paths@) == match mode {
                    ProtectedMetadataMode::ExistingDeny => denied + found,
                    ProtectedMetadataMode::MissingCreationMonitor => denied,
                    ProtectedMetadataMode::MissingDenySentinel => if found.len() == 0 {
                        denied.push(path@)
                    } else {
                        denied + found
                    },
                }
                &&& text::string_views(final(self).monitored_paths@) == if mode
                    == ProtectedMetadataMode::MissingCreationMonitor {
                    monitored.push(path@)
                } else {
                    monitored
                }
                &&& text::string_views(final(self).sentinel_paths@) == if mode
                    == ProtectedMetadataMode::MissingDenySentinel && created {
                    sentinels.push(path@)
                } else {
                    sentinels
                }
            }),
    {
        let ghost before = *self;
        match mode {
            ProtectedMetadataMode::ExistingDeny => {
                let mut found = text::clone_strings(existing);
                self.deny_paths.append(&mut found);
                assert(text::string_views(self.deny_paths@) =~= text::string_views(
                    before.deny_paths@,
                ) + text::string_views(existing@));
            },
            ProtectedMetadataMode::MissingCreationMonitor => {
                self.monitored_paths.push(path.to_owned());
                assert(text::string_views(self.monitored_paths@) =~= text::string_views(
                    before.monitored_paths@,
                ).push(path@));
            },
            ProtectedMetadataMode::MissingDenySentinel => {
                if existing.len() == 0 {
                    self.deny_paths.push(path.to_owned());
                    assert(text::string_views(self.deny_paths@) =~= text::string_views(
                        before.deny_paths@,
                    ).push(path@));
                } else {
                    let mut found = text::clone_strings(existing);
                    self.deny_paths.append(&mut found);
                    assert(text::string_views(self.deny_paths@) =~= text::string_views(
                        before.deny_paths@,
                    ) + text::string_views(existing@));
                }
                if created {
                    self.sentinel_paths.push(path.to_owned());
                    assert(text::string_views(self.sentinel_paths@) =~= text::string_views(
                        before.sentinel_paths@,
                    ).push(path@));
                }
            },
        }
    }

    /// The paths that are looked for after the command: what was watched for, then what was
    /// put in place for it. What was there before is not among them.
    pub fn cleanup_paths(&self) -> (r: Vec<String>)
        ensures
            text::string_views(r@) == text::string_views(self.monitored_paths@)
                + text::string_views(self.sentinel_paths@),
    {
        let mut r = text::clone_strings(self.monitored_paths.as_slice());
        let mut more = text::clone_strings(self.sentinel_paths.as_slice());
        let ghost first = r@;
        let ghost second = more@;
        r.append(&mut more);
        assert(text::string_views(r@) =~= text::string_views(first) + text::string_views(second));
        r
    }
}

// ---- looking for metadata ----

/// The first name from `i` on that is `name` without regard to ASCII case, or their number.
pub open spec fn name_position(names: Seq<Seq<char>>, name: Seq<char>, i: int) -> int
    decreases names.len() - i,
{
    if i < 0 || i >= names.len() {
        names.len() as int
    } else if text::ascii_lower(names[i]) == text::ascii_lower(name) {
        i
    } else {
        name_position(names, name, i + 1)
    }
}

/// The entry of a directory that a path leads to, as the directory writes its name.
pub open spec fn matching_child(path: Seq<char>, names: Seq<Seq<char>>) -> Option<Seq<char>> {
    match (windows_paths::parent(path), windows_paths::file_name(path)) {
        (Some(dir), Some(name)) => {
            let i = name_position(names, name, 0);
            if i < names.len() {
                Some(windows_paths::pushed(dir, names[i]))
            } else {
                None
            }
        },
        _ => None,
    }
}

/// The entry of a directory that a path leads to, as the directory writes its name. `names`
/// are the entries of the path's directory.
pub fn matching_metadata_child(path: &str, names: &[String]) -> (r: Option<String>)
    ensures
        text::option_view(r) == matching_child(path@, text::string_views(names@)),
{
    let ghost all = text::string_views(names@);
    let dir = match windows_paths::parent_of(path) {
        Some(dir) => dir,
        None => return None,
    };
    let name = match windows_paths::file_name_of(path) {
        Some(name) => name,
        None => return None,
    };
    let wanted_chars = text::chars_of(name.as_str());
    let wanted = text::to_ascii_lower(wanted_chars.as_slice());
    let mut i: usize = 0;
    while i < names.len()
        invariant
            i <= names.len(),
            all == text::string_views(names@),
            wanted@ == text::ascii_lower(name@),
            windows_paths::parent(path@) == Some(dir@),
            windows_paths::file_name(path@) == Some(name@),
            name_position(all, name@, 0) == name_position(all, name@, i as int),
        decreases names.len() - i,
    {
        assert(all[i as int] == names@[i as int]@);
        let chars = text::chars_of(names[i].as_str());
        let lower = text::to_ascii_lower(chars.as_slice());
        if text::eq_chars(lower.as_slice(), wanted.as_slice()) {
            return Some(windows_paths::push_path(dir.as_str(), names[i].as_str()));
        }
        i = i + 1;
    }
    None
}

/// Where metadata is, in whatever case its name is written.
pub fn existing_metadata_path(path: &str, is_there: bool, names: &[String]) -> (r: Option<String>)
    ensures
        text::option_view(r) == match matching_child(path@, text::string_views(names@)) {
            Some(child) => Some(child),
            None => if is_there {
                Some(path@)
            } else {
                None
            },
        },
{
    match matching_metadata_child(path, names) {
        Some(child) => Some(child),
        None => if is_there {
            Some(path.to_owned())
        } else {
            None
        },
    }
}

// ---- removing metadata ----

/// The attribute of a directory that leads elsewhere.
pub const REPARSE_POINT: u32 = 1024;

/// What is known of a path.
#[derive(Clone, Copy, Debug, PartialEq, Eq, Structural)]
pub struct PathFacts {
    pub is_dir: bool,
    pub attributes: u32,
    pub is_symlink_dir: bool,
    pub is_symlink_file: bool,
}

/// How a path is removed.
#[derive(Clone, Copy, Debug, PartialEq, Eq, Structural)]
pub enum Removal {
    /// The directory alone: a link is removed, not what it leads to.
    Directory,
    File,
    /// The directory with all that is in it.
    Tree,
}

/// Whether a directory leads elsewhere.
pub fn is_directory_reparse_point(facts: PathFacts) -> (r: bool)
    ensures
        r == (facts.is_dir && facts.attributes & REPARSE_POINT != 0),
{
    facts.is_dir && facts.attributes & REPARSE_POINT != 0
}

/// How a path is removed.
pub fn removal_of(facts: PathFacts) -> (r: Removal)
    ensures
        r == if (facts.is_dir && facts.attributes & REPARSE_POINT != 0) || facts.is_symlink_dir {
            Removal::Directory
        } else if facts.is_symlink_file {
            Removal::File
        } else if facts.is_dir {
            Removal::Tree
        } else {
            Removal::File
        },
{
    if is_directory_reparse_point(facts) || facts.is_symlink_dir {
        Removal::Directory
    } else if facts.is_symlink_file {
        Removal::File
    } else if facts.is_dir {
        Removal::Tree
    } else {
        Removal::File
    }
}

/// What became of the attempt to put a directory in the place of missing metadata.
#[derive(Debug)]
pub enum CreateOutcome {
    Created,
    AlreadyThere,
    Failed(String),
}

/// Whether a directory was put in the place of missing metadata. What was there already is
/// not claimed.
pub fn sentinel_created(path: &str, outcome: CreateOutcome) -> (r: Result<bool, String>)
    ensures
        match outcome {
            CreateOutcome::Created => r == Ok::<bool, String>(true),
            CreateOutcome::AlreadyThere => r == Ok::<bool, String>(false),
            CreateOutcome::Failed(e) => r is Err && r->Err_0@
                == "failed to create protected metadata sentinel "@ + path@ + ": "@ + e@,
        },
{
    match outcome {
        CreateOutcome::Created => Ok(true),
        CreateOutcome::AlreadyThere => Ok(false),
        CreateOutcome::Failed(e) => Err(
            with_cause("failed to create protected metadata sentinel ", path, e.as_str()),
        ),
    }
}

fn with_cause(what: &str, path: &str, cause: &str) -> (r: String)
    ensures
        r@ == what@ + path@ + ": "@ + cause@,
{
    let mut r = what.to_owned();
    r.push_str(path);
    r.push_str(": ");
    r.push_str(cause);
    r
}

/// What became of a path that was looked for.
#[derive(Debug)]
pub enum PathOutcome {
    Absent,
    /// It was removed, under this name.
    Removed(String),
    InspectFailed(String),
    RemoveFailed(String),
}

/// The names of the first `n` paths that were removed.
pub open spec fn removed_names(outcomes: Seq<PathOutcome>, n: int) -> Seq<Seq<char>>
    decreases n,
{
    if n <= 0 {
        Seq::empty()
    } else {
        match outcomes[n - 1] {
            PathOutcome::Removed(name) => removed_names(outcomes, n - 1).push(name@),
            _ => removed_names(outcomes, n - 1),
        }
    }
}

/// Whether a path could not be dealt with.
pub open spec fn has_failed(outcome: PathOutcome) -> bool {
    outcome is InspectFailed || outcome is RemoveFailed
}

/// The first failure from `i` on, or the end.
pub open spec fn failure_from(outcomes: Seq<PathOutcome>, i: int) -> int
    decreases outcomes.len() - i,
{
    if i < 0 || i >= outcomes.len() {
        outcomes.len() as int
    } else if has_failed(outcomes[i]) {
        i
    } else {
        failure_from(outcomes, i + 1)
    }
}

/// What is said of a path that could not be dealt with.
pub open spec fn failure_text(path: Seq<char>, outcome: PathOutcome) -> Seq<char> {
    match outcome {
        PathOutcome::RemoveFailed(e) => "failed to remove protected metadata "@ + path + ": "@ + e@,
        PathOutcome::InspectFailed(e) => e@,
        _ => Seq::empty(),
    }
}

/// What was removed, unless something could not be dealt with.
pub fn cleanup_created_paths(paths: &[String], outcomes: &[PathOutcome]) -> (r: Result<
    Vec<String>,
    String,
>)
    requires
        outcomes@.len() <= paths@.len(),
    ensures
        ({
            let f = failure_from(outcomes@, 0);
            match r {
                Ok(names) => f == outcomes@.len() && text::string_views(names@) == removed_names(
                    outcomes@,
                    outcomes@.len() as int,
                ),
                Err(e) => f < outcomes@.len() && e@ == failure_text(paths@[f]@, outcomes@[f]),
            }
        }),
{
    let mut names: Vec<String> = Vec::new();
    let mut i: usize = 0;
    assert(text::string_views(names@) =~= removed_names(outcomes@, 0));
    while i < outcomes.len()
        invariant
            i <= outcomes.len(),
            outcomes@.len() <= paths@.len(),
            failure_from(outcomes@, 0) == failure_from(outcomes@, i as int),
            text::string_views(names@) == removed_names(outcomes@, i as int),
        decreases outcomes.len() - i,
    {
        match &outcomes[i] {
            PathOutcome::Absent => {},
            PathOutcome::Removed(name) => {
                let ghost before = names@;
                names.push(name.clone());
                assert(text::string_views(names@) =~= text::string_views(before).push(name@));
            },
            PathOutcome::InspectFailed(e) => {
                return Err(e.clone());
            },
            PathOutcome::RemoveFailed(e) => {
                return Err(
                    with_cause(
                        "failed to remove protected metadata ",
                        paths[i].as_str(),
                        e.as_str(),
                    ),
                );
            },
        }
        i = i + 1;
    }
    Ok(names)
}

// ---- watching for metadata ----

/// Paths in one directory.
#[derive(Debug)]
pub struct PathGroup {
    pub parent: String,
    pub paths: Vec<String>,
}

/// Paths in one directory, as mathematical values.
#[verifier::ext_equal]
pub ghost struct GroupView {
    pub parent: Seq<char>,
    pub paths: Seq<Seq<char>>,
}

impl View for PathGroup {
    type V = GroupView;

    open spec fn view(&self) -> GroupView {
        GroupView { parent: self.parent@, paths: text::string_views(self.paths@) }
    }
}

/// Groups, as mathematical values.
pub open spec fn group_views(groups: Seq<PathGroup>) -> Seq<GroupView> {
    Seq::new(groups.len(), |i: int| groups[i]@)
}

/// The first group from `i` on of a directory, or their number.
pub open spec fn group_position(groups: Seq<GroupView>, parent: Seq<char>, i: int) -> int
    decreases groups.len() - i,
{
    if i < 0 || i >= groups.len() {
        groups.len() as int
    } else if windows_paths::text_key(groups[i].parent) == windows_paths::text_key(parent) {
        i
    } else {
        group_position(groups, parent, i + 1)
    }
}

/// The groups with a path added to the one of its directory.
pub open spec fn with_path(groups: Seq<GroupView>, parent: Seq<char>, path: Seq<char>) -> Seq<
    GroupView,
> {
    let i = group_position(groups, parent, 0);
    if i < groups.len() {
        groups.update(i, (GroupView { paths: groups[i].paths.push(path), ..groups[i] }))
    } else {
        groups.push((GroupView { parent, paths: seq![path] }))
    }
}

/// The first `n` paths by directory.
pub open spec fn grouped(paths: Seq<Seq<char>>, n: int) -> Seq<GroupView>
    decreases n,
{
    if n <= 0 {
        Seq::empty()
    } else {
        match windows_paths::parent(paths[n - 1]) {
            Some(parent) => with_path(grouped(paths, n - 1), parent, paths[n - 1]),
            None => grouped(paths, n - 1),
        }
    }
}

fn add_to_groups(groups: &mut Vec<PathGroup>, parent: String, path: String)
    ensures
        group_views(final(groups)@) == with_path(group_views(old(groups)@), parent@, path@),
{
    let ghost before = group_views(groups@);
    let key = windows_paths::path_text_key(parent.as_str());
    let mut i: usize = 0;
    while i < groups.len()
        invariant
            i <= groups.len(),
            *groups == *old(groups),
            before == group_views(groups@),
            key@ == windows_paths::text_key(parent@),
            group_position(before, parent@, 0) == group_position(before, parent@, i as int),
        decreases groups.len() - i,
    {
        assert(before[i as int] == groups@[i as int]@);
        let other = windows_paths::path_text_key(groups[i].parent.as_str());
        if text::same_str(other.as_str(), key.as_str()) {
            let ghost was = groups@[i as int];
            let mut paths = text::clone_strings(groups[i].paths.as_slice());
            let ghost had = paths@;
            paths.push(path);
            assert(text::string_views(paths@) =~= text::string_views(had).push(path@));
            let group = PathGroup { parent: groups[i].parent.clone(), paths };
            assert(group@ =~= (GroupView { paths: was@.paths.push(path@), ..was@ }));
            groups.set(i, group);
            assert(group_views(groups@) =~= with_path(before, parent@, path@));
            return ;
        }
        i = i + 1;
    }
    let mut paths: Vec<String> = Vec::new();
    paths.push(path);
    assert(text::string_views(paths@) =~= seq![path@]);
    let group = PathGroup { parent, paths };
    groups.push(group);
    assert(group_views(groups@) =~= before.push(group@));
}

/// The paths by directory, each directory once. Paths without a directory are left out.
pub fn monitored_paths_by_parent(paths: &[String]) -> (r: Vec<PathGroup>)
    ensures
        group_views(r@) == grouped(text::string_views(paths@), paths@.len() as int),
{
    let ghost all = text::string_views(paths@);
    let mut r: Vec<PathGroup> = Vec::new();
    let mut i: usize = 0;
    assert(group_views(r@) =~= grouped(all, 0));
    while i < paths.len()
        invariant
            i <= paths.len(),
            all == text::string_views(paths@),
            group_views(r@) == grouped(all, i as int),
        decreases paths.len() - i,
    {
        assert(all[i as int] == paths@[i as int]@);
        if let Some(parent) = windows_paths::parent_of(paths[i].as_str()) {
            add_to_groups(&mut r, parent, paths[i].clone());
        }
        i = i + 1;
    }
    r
}

proof fn lemma_group_position(groups: Seq<GroupView>, parent: Seq<char>, i: int)
    requires
        0 <= i <= groups.len(),
    ensures
        ({
            let p = group_position(groups, parent, i);
            &&& i <= p <= groups.len()
            &&& p < groups.len() ==> windows_paths::text_key(groups[p].parent)
                == windows_paths::text_key(parent)
            &&& forall|k: int|
                i <= k < p ==> windows_paths::text_key((#[trigger] groups[k]).parent)
                    != windows_paths::text_key(parent)
        }),
    decreases groups.len() - i,
{
    if i < groups.len() && windows_paths::text_key(groups[i].parent) != windows_paths::text_key(
        parent,
    ) {
        lemma_group_position(groups, parent, i + 1);
    }
}

/// Each directory is watched once.
pub proof fn directories_are_watched_once(paths: Seq<Seq<char>>, n: int)
    requires
        0 <= n <= paths.len(),
    ensures
        forall|i: int, j: int|
            0 <= i < j < grouped(paths, n).len() ==> windows_paths::text_key(
                (#[trigger] grouped(paths, n)[i]).parent,
            ) != windows_paths::text_key((#[trigger] grouped(paths, n)[j]).parent),
    decreases n,
{
    if n > 0 {
        directories_are_watched_once(paths, n - 1);
        let before = grouped(paths, n - 1);
        let after = grouped(paths, n);
        match windows_paths::parent(paths[n - 1]) {
            Some(parent) => {
                lemma_group_position(before, parent, 0);
                assert forall|i: int, j: int| 0 <= i < j < after.len() implies windows_paths::text_key(
                    (#[trigger] after[i]).parent,
                ) != windows_paths::text_key((#[trigger] after[j]).parent) by {
                    assert(after[i].parent == before[i].parent);
                    if j < before.len() {
                        assert(after[j].parent == before[j].parent);
                    }
                }
            },
            None => {},
        }
    }
}

/// What is recorded of a watched path that could not be dealt with. `path` is the name under
/// which it was to be removed, or else the path that was looked for.
pub fn enforcement_error(path: &str, outcome: &PathOutcome) -> (r: Option<String>)
    ensures
        text::option_view(r) == match *outcome {
            PathOutcome::RemoveFailed(e) => Some(
                "failed to remove protected metadata "@ + path@ + ": "@ + e@,
            ),
            PathOutcome::InspectFailed(e) => Some(
                "failed to inspect protected metadata "@ + path@ + ": "@ + e@,
            ),
            _ => None,
        },
{
    match outcome {
        PathOutcome::RemoveFailed(e) => Some(
            with_cause("failed to remove protected metadata ", path, e.as_str()),
        ),
        PathOutcome::InspectFailed(e) => Some(
            with_cause("failed to inspect protected metadata ", path, e.as_str()),
        ),
        PathOutcome::Absent => None,
        PathOutcome::Removed(_) => None,
    }
}

/// What a listener does next.
#[derive(Debug)]
pub enum ListenerStep {
    /// Remove what was created, and ask for further changes.
    Enforce,
    /// Wait again.
    Listen,
    Stop,
    /// Record the message, and stop.
    Fail(String),
}

/// The code of a wait that was ended by the first handle, here by a change.
pub const WAIT_CHANGED: u32 = 0;

/// The code of a wait that was ended by the second handle, here by the end of the command.
pub const WAIT_STOPPED: u32 = 1;

/// The code of a wait that failed.
pub const WAIT_FAILED: u32 = 0xFFFF_FFFF;

/// What a listener does after a wait.
pub fn after_wait(result: u32, parent: &str, last_error: &str) -> (r: ListenerStep)
    ensures
        match r {
            ListenerStep::Enforce => result == WAIT_CHANGED,
            ListenerStep::Listen => false,
            ListenerStep::Stop => result == WAIT_STOPPED,
            ListenerStep::Fail(message) => result != WAIT_CHANGED && result != WAIT_STOPPED
                && message@ == if result == WAIT_FAILED {
                "failed while waiting for protected metadata changes under "@ + parent@ + ": "@
                    + last_error@
            } else {
                "unexpected protected metadata wait result "@ + text::decimal(result as nat)
                    + " for "@ + parent@
            },
        },
{
    if result == WAIT_CHANGED {
        ListenerStep::Enforce
    } else if result == WAIT_STOPPED {
        ListenerStep::Stop
    } else if result == WAIT_FAILED {
        ListenerStep::Fail(
            with_cause(
                "failed while waiting for protected metadata changes under ",
                parent,
                last_error,
            ),
        )
    } else {
        let mut message = "unexpected protected metadata wait result ".to_owned();
        message.push_str(text::decimal_u64(result as u64).as_str());
        message.push_str(" for ");
        message.push_str(parent);
        ListenerStep::Fail(message)
    }
}

/// What a listener does after it removed what was created: it waits again, unless it cannot be
/// told of further changes.
pub fn after_enforcement(resumed: bool, parent: &str, last_error: &str) -> (r: ListenerStep)
    ensures
        match r {
            ListenerStep::Listen => resumed,
            ListenerStep::Fail(message) => !resumed && message@
                == "failed to resume protected metadata monitor for "@ + parent@ + ": "@
                + last_error@,
            _ => false,
        },
{
    if resumed {
        ListenerStep::Listen
    } else {
        ListenerStep::Fail(
            with_cause("failed to resume protected metadata monitor for ", parent, last_error),
        )
    }
}

/// What a listener is reported as that cannot be told of changes under a directory.
pub fn watch_failure(parent: &str, problem: &str) -> (r: String)
    ensures
        r@ == "failed to monitor protected metadata parent "@ + parent@ + ": "@ + problem@,
{
    with_cause("failed to monitor protected metadata parent ", parent, problem)
}

/// What a listener is reported as that cannot be started.
pub fn start_failure(parent: &str, problem: &str) -> (r: String)
    ensures
        r@ == "failed to start protected metadata monitor for "@ + parent@ + ": "@ + problem@,
{
    with_cause("failed to start protected metadata monitor for ", parent, problem)
}

/// What a directory is reported as whose removal at the end cannot be arranged.
pub fn arm_failure(path: &str, problem: &str) -> (r: String)
    ensures
        r@ == "failed to arm protected metadata sentinel cleanup for "@ + path@ + ": "@ + problem@,
{
    with_cause("failed to arm protected metadata sentinel cleanup for ", path, problem)
}

/// What listeners are reported as that cannot be told to stop.
pub fn stop_failure(problem: &str) -> (r: String)
    ensures
        r@ == "failed to stop protected metadata monitor: "@ + problem@,
{
    let mut r = "failed to stop protected metadata monitor: ".to_owned();
    r.push_str(problem);
    r
}

// ---- the end ----

/// What the listeners removed, unless one of them failed.
pub fn monitor_result(removed: &[String], errors: &[String]) -> (r: Result<Vec<String>, String>)
    ensures
        match r {
            Ok(names) => errors@.len() == 0 && text::string_views(names@) == listed_once(
                text::string_views(removed@),
                removed@.len() as int,
            ),
            Err(e) => errors@.len() > 0 && e@ == "protected metadata monitor failed: "@
                + text::join(text::string_views(errors@), "; "@),
        },
{
    if errors.len() > 0 {
        let mut message = "protected metadata monitor failed: ".to_owned();
        message.push_str(text::join_strings(errors, "; ").as_str());
        return Err(message);
    }
    Ok(unique_paths(removed))
}

/// What was removed while and after the command ran, each path once; or what failed.
pub fn finish(monitor: Result<Vec<String>, String>, cleanup: Result<Vec<String>, String>) -> (r:
    Result<Vec<String>, String>)
    ensures
        match (monitor, cleanup) {
            (Ok(watched), Ok(cleaned)) => {
                let all = text::string_views(watched@) + text::string_views(cleaned@);
                r is Ok && text::string_views(r->Ok_0@) == listed_once(all, all.len() as int)
            },
            (Err(e), Ok(_)) => r == Err::<Vec<String>, String>(e),
            (Ok(_), Err(e)) => r == Err::<Vec<String>, String>(e),
            (Err(m), Err(c)) => r is Err && r->Err_0@ == "protected metadata monitor failed: "@
                + m@ + "; cleanup also failed: "@ + c@,
        },
{
    match (monitor, cleanup) {
        (Ok(watched), Ok(cleaned)) => {
            let mut all = watched;
            let mut more = cleaned;
            let ghost first = all@;
            let ghost second = more@;
            all.append(&mut more);
            assert(text::string_views(all@) =~= text::string_views(first) + text::string_views(
                second,
            ));
            assert(text::string_views(all@).len() == all@.len());
            Ok(unique_paths(all.as_slice()))
        },
        (Err(e), Ok(_)) => Err(e),
        (Ok(_), Err(e)) => Err(e),
        (Err(m), Err(c)) => {
            let mut message = "protected metadata monitor failed: ".to_owned();
            message.push_str(m.as_str());
            message.push_str("; cleanup also failed: ");
            message.push_str(c.as_str());
            Err(message)
        },
    }
}

// ---- what is watched, denied and removed ----

/// Of paths that mean the same the first stays, and nothing else is dropped: paths that mean
/// different things all stay, in their order.
pub proof fn only_repeated_paths_are_dropped(list: Seq<Seq<char>>, n: int, i: int)
    requires
        0 <= i < n <= list.len(),
    ensures
        (forall|j: int|
            0 <= j < i ==> windows_paths::text_key(#[trigger] list[j]) != windows_paths::text_key(
                list[i],
            )) ==> listed_once(list, n).contains(list[i]),
        (forall|k: int|
            0 <= k < listed_once(list, n).len() ==> list.contains(
                #[trigger] listed_once(list, n)[k],
            )),
        listed_once(list, n).len() <= n,
    decreases n,
{
    let before = listed_once(list, n - 1);
    let after = listed_once(list, n);
    if n > 1 {
        only_repeated_paths_are_dropped(list, n - 1, if i < n - 1 {
            i
        } else {
            0
        });
    }
    if i < n - 1 {
        if before.contains(list[i]) {
            assert(after[before.index_of(list[i])] == list[i]);
        }
    } else if forall|j: int|
        0 <= j < i ==> windows_paths::text_key(#[trigger] list[j]) != windows_paths::text_key(
            list[i],
        ) {
        lemma_from_before(list, n - 1);
        if is_listed(before, list[n - 1]) {
            let k = choose|k: int|
                0 <= k < before.len() && windows_paths::text_key(#[trigger] before[k])
                    == windows_paths::text_key(list[n - 1]);
            let j = choose|j: int| 0 <= j < n - 1 && #[trigger] list[j] == before[k];
            assert(windows_paths::text_key(list[j]) == windows_paths::text_key(list[i]));
        }
        assert(after.last() == list[i]);
        assert(after[before.len() as int] == list[i]);
    }
    assert forall|k: int| 0 <= k < after.len() implies list.contains(#[trigger] after[k]) by {
        if k < before.len() {
            assert(after[k] == before[k]);
        } else {
            assert(after[k] == list[n - 1]);
        }
    }
}

proof fn lemma_from_before(list: Seq<Seq<char>>, n: int)
    requires
        0 <= n <= list.len(),
    ensures
        forall|k: int|
            0 <= k < listed_once(list, n).len() ==> exists|j: int|
                0 <= j < n && #[trigger] list[j] == #[trigger] listed_once(list, n)[k],
    decreases n,
{
    if n > 0 {
        lemma_from_before(list, n - 1);
        let before = listed_once(list, n - 1);
        let after = listed_once(list, n);
        assert forall|k: int| 0 <= k < after.len() implies exists|j: int|
            0 <= j < n && #[trigger] list[j] == #[trigger] after[k] by {
            if k < before.len() {
                assert(after[k] == before[k]);
                let j = choose|j: int| 0 <= j < n - 1 && #[trigger] list[j] == before[k];
                assert(list[j] == after[k]);
            } else {
                assert(list[n - 1] == after[k]);
            }
        }
    }
}

/// What exists is denied under its own path; of a link that leads elsewhere also the target is; and
/// what does not exist is not.
pub proof fn links_are_denied_with_their_target(
    path: Seq<char>,
    is_link: Option<bool>,
    target: Option<Seq<char>>,
)
    ensures
        is_link is None <==> deny_paths(path, is_link, target).len() == 0,
        is_link is Some ==> deny_paths(path, is_link, target)[0] == path,
        target matches Some(t) ==> (deny_paths(path, is_link, target).len() == 2 <==> is_link
            == Some(true) && windows_paths::text_key(t) != windows_paths::text_key(path)),
        deny_paths(path, is_link, target).len() == 2 ==> target == Some(
            deny_paths(path, is_link, target)[1],
        ),
        deny_paths(path, is_link, target).len() <= 2,
{
}

proof fn lemma_name_position(names: Seq<Seq<char>>, name: Seq<char>, i: int)
    requires
        0 <= i <= names.len(),
    ensures
        ({
            let k = name_position(names, name, i);
            &&& i <= k <= names.len()
            &&& k < names.len() ==> text::ascii_lower(names[k]) == text::ascii_lower(name)
            &&& forall|j: int|
                i <= j < k ==> text::ascii_lower(#[trigger] names[j]) != text::ascii_lower(name)
        }),
    decreases names.len() - i,
{
    if i < names.len() && text::ascii_lower(names[i]) != text::ascii_lower(name) {
        lemma_name_position(names, name, i + 1);
    }
}

/// A path is found in its directory under the name that the directory has it by, whatever the case
/// of its letters, and only if the directory has it.
pub proof fn names_are_found_in_any_case(path: Seq<char>, names: Seq<Seq<char>>)
    ensures
        match matching_child(path, names) {
            Some(found) => exists|k: int|
                0 <= k < names.len() && windows_paths::file_name(path) is Some
                    && windows_paths::parent(path) is Some && text::ascii_lower(#[trigger] names[k])
                    == text::ascii_lower(windows_paths::file_name(path)->0) && found
                    == windows_paths::pushed(windows_paths::parent(path)->0, names[k]),
            None => windows_paths::file_name(path) is None || windows_paths::parent(path) is None
                || forall|k: int|
                0 <= k < names.len() ==> text::ascii_lower(#[trigger] names[k])
                    != text::ascii_lower(windows_paths::file_name(path)->0),
        },
{
    if windows_paths::file_name(path) is Some && windows_paths::parent(path) is Some {
        let name = windows_paths::file_name(path)->0;
        lemma_name_position(names, name, 0);
        let k = name_position(names, name, 0);
        if k < names.len() {
            assert(text::ascii_lower(names[k]) == text::ascii_lower(name));
        }
    }
}

/// What was removed is told in full, in order; nothing else is.
pub proof fn every_removed_name_is_told(outcomes: Seq<PathOutcome>, n: int, i: int)
    requires
        0 <= i < n <= outcomes.len(),
    ensures
        outcomes[i] matches PathOutcome::Removed(name) ==> removed_names(outcomes, n).contains(
            name@,
        ),
        removed_names(outcomes, n).len() <= n,
        (forall|k: int| 0 <= k < n ==> !((#[trigger] outcomes[k]) is Removed)) ==> removed_names(
            outcomes,
            n,
        ).len() == 0,
    decreases n,
{
    let before = removed_names(outcomes, n - 1);
    let after = removed_names(outcomes, n);
    if n > 1 {
        every_removed_name_is_told(outcomes, n - 1, if i < n - 1 {
            i
        } else {
            0
        });
    }
    if outcomes[i] is Removed {
        let name = outcomes[i]->Removed_0@;
        if i < n - 1 {
            assert(after[before.index_of(name)] == name);
        } else {
            assert(after[before.len() as int] == name);
        }
    }
}

/// The cleanup fails with the first path that could not be looked at or removed, and only if there
/// is one.
pub proof fn cleanup_fails_with_the_first_failure(outcomes: Seq<PathOutcome>, i: int)
    requires
        0 <= i <= outcomes.len(),
    ensures
        ({
            let k = failure_from(outcomes, i);
            &&& i <= k <= outcomes.len()
            &&& k < outcomes.len() ==> outcomes[k] is InspectFailed || outcomes[k] is RemoveFailed
            &&& forall|j: int|
                i <= j < k ==> (#[trigger] outcomes[j]) is Absent || outcomes[j] is Removed
        }),
    decreases outcomes.len() - i,
{
    if i < outcomes.len() && !has_failed(outcomes[i]) {
        cleanup_fails_with_the_first_failure(outcomes, i + 1);
    }
}

/// Whether a path is watched in its directory.
pub open spec fn is_watched(groups: Seq<GroupView>, path: Seq<char>) -> bool {
    exists|g: int|
        0 <= g < groups.len() && (#[trigger] groups[g]).paths.contains(path) && (
        windows_paths::parent(path) matches Some(parent) && windows_paths::text_key(parent)
            == windows_paths::text_key(groups[g].parent))
}

/// Every path that lies in a directory is watched there, and no directory is watched for a path
/// that does not lie in it.
pub proof fn every_path_is_watched_in_its_directory(paths: Seq<Seq<char>>, n: int, i: int)
    requires
        0 <= i < n <= paths.len(),
    ensures
        windows_paths::parent(paths[i]) is Some ==> is_watched(grouped(paths, n), paths[i]),
        forall|g: int, k: int|
            0 <= g < grouped(paths, n).len() && 0 <= k < grouped(paths, n)[g].paths.len() ==> (
            windows_paths::parent(#[trigger] grouped(paths, n)[g].paths[k]) matches Some(parent)
                && windows_paths::text_key(parent) == windows_paths::text_key(
                grouped(paths, n)[g].parent,
            )),
    decreases n,
{
    let before = grouped(paths, n - 1);
    let after = grouped(paths, n);
    if n > 1 {
        every_path_is_watched_in_its_directory(paths, n - 1, if i < n - 1 {
            i
        } else {
            0
        });
    }
    if windows_paths::parent(paths[n - 1]) is Some {
        let parent = windows_paths::parent(paths[n - 1])->0;
        let path = paths[n - 1];
        lemma_group_position(before, parent, 0);
        let p = group_position(before, parent, 0);
        if p < before.len() {
            let wider = before[p].paths.push(path);
            assert(after[p].paths == wider);
            assert(wider[before[p].paths.len() as int] == path);
            assert(wider.contains(path));
        } else {
            assert(after[p].paths == seq![path]);
            assert(after[p].paths[0] == path);
            assert(after[p].paths.contains(path));
        }
        assert(after[p].paths.contains(path) && windows_paths::text_key(parent)
            == windows_paths::text_key(after[p].parent));
        assert(is_watched(after, path));
        if i < n - 1 && windows_paths::parent(paths[i]) is Some {
            let g = choose|g: int|
                0 <= g < before.len() && (#[trigger] before[g]).paths.contains(paths[i]) && (
                windows_paths::parent(paths[i]) matches Some(parent) && windows_paths::text_key(
                    parent,
                ) == windows_paths::text_key(before[g].parent));
            let k = before[g].paths.index_of(paths[i]);
            assert(after[g].paths[k] == paths[i]);
            assert(after[g].paths.contains(paths[i]));
        }
        assert forall|g: int, k: int|
            0 <= g < after.len() && 0 <= k < after[g].paths.len() implies (windows_paths::parent(
            #[trigger] after[g].paths[k],
        ) matches Some(own) && windows_paths::text_key(own) == windows_paths::text_key(
            after[g].parent,
        )) by {
            if g < before.len() {
                if k < before[g].paths.len() {
                    assert(after[g].paths[k] == before[g].paths[k]);
                } else {
                    assert(after[g].paths[k] == path);
                }
            } else {
                assert(after[g].paths[k] == path);
            }
        }
    }
}

} // verus!
