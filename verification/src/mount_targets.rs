//! Metadata paths that a sandboxed command may not create: what stands in for them while
//! the command runs, and what is cleaned up afterwards.

use vstd::prelude::*;

use crate::paths;
use crate::text;

verus! {

// ---- what is on disk ----

/// Which file a path leads to.
#[derive(Clone, Copy, Debug, PartialEq, Eq, Structural)]
pub struct FileIdentity {
    pub dev: u64,
    pub ino: u64,
}

/// What kind of file stands at a path, symbolic links not followed.
#[derive(Clone, Copy, Debug, PartialEq, Eq, Structural)]
pub enum FileKind {
    File,
    Directory,
    Other,
}

/// What stands at a path.
#[derive(Clone, Copy, Debug, PartialEq, Eq, Structural)]
pub struct FileFacts {
    pub kind: FileKind,
    pub len: u64,
    pub identity: FileIdentity,
}

// ---- targets ----

/// An empty file or directory that the sandbox mounts at a path.
#[derive(Debug)]
pub struct SyntheticMountTarget {
    pub path: String,
    pub is_directory: bool,
    /// What stood there before the sandbox did, which must stay.
    pub pre_existing_path: Option<FileIdentity>,
}

/// A path that does not exist and may not be created.
#[derive(Debug)]
pub struct ProtectedCreateTarget {
    pub path: String,
}

/// What has to be cleaned up after a command.
#[derive(Debug)]
pub struct FileSystemPermissionsEnforcement {
    pub synthetic_mount_targets: Vec<SyntheticMountTarget>,
    pub protected_create_targets: Vec<ProtectedCreateTarget>,
}

impl ProtectedCreateTarget {
    /// A path that does not exist.
    pub fn missing(path: &str) -> (r: Self)
        ensures
            r.path@ == path@,
    {
        ProtectedCreateTarget { path: path.to_owned() }
    }
}

impl SyntheticMountTarget {
    /// A file at a path where nothing stands.
    pub fn missing(path: &str) -> (r: Self)
        ensures
            r.path@ == path@ && !r.is_directory && r.pre_existing_path is None,
    {
        SyntheticMountTarget {
            path: path.to_owned(),
            is_directory: false,
            pre_existing_path: None,
        }
    }

    /// A directory at a path where nothing stands.
    pub fn missing_empty_directory(path: &str) -> (r: Self)
        ensures
            r.path@ == path@ && r.is_directory && r.pre_existing_path is None,
    {
        SyntheticMountTarget { path: path.to_owned(), is_directory: true, pre_existing_path: None }
    }

    /// A file at a path where an empty file stands.
    pub fn existing_empty_file(path: &str, facts: &FileFacts) -> (r: Self)
        ensures
            r.path@ == path@ && !r.is_directory && r.pre_existing_path == Some(facts.identity),
    {
        SyntheticMountTarget {
            path: path.to_owned(),
            is_directory: false,
            pre_existing_path: Some(facts.identity),
        }
    }

    /// A directory at a path where an empty directory stands.
    pub fn existing_empty_directory(path: &str, facts: &FileFacts) -> (r: Self)
        ensures
            r.path@ == path@ && r.is_directory && r.pre_existing_path == Some(facts.identity),
    {
        SyntheticMountTarget {
            path: path.to_owned(),
            is_directory: true,
            pre_existing_path: Some(facts.identity),
        }
    }

    /// Whether something stood at the path that must stay.
    pub fn preserves_pre_existing_path(&self) -> (r: bool)
        ensures
            r == self.pre_existing_path is Some,
    {
        self.pre_existing_path.is_some()
    }

    /// The same target, with nothing to stay.
    pub fn without_pre_existing_path(&self) -> (r: Self)
        ensures
            r.path@ == self.path@ && r.is_directory == self.is_directory && r.pre_existing_path
                is None,
    {
        SyntheticMountTarget {
            path: self.path.clone(),
            is_directory: self.is_directory,
            pre_existing_path: None,
        }
    }

    /// Whether what stands at the path is what the sandbox left there.
    pub open spec fn left_behind(&self, facts: FileFacts) -> bool {
        &&& if self.is_directory {
            facts.kind == FileKind::Directory
        } else {
            facts.kind == FileKind::File && facts.len == 0
        }
        &&& self.pre_existing_path != Some(facts.identity)
    }

    /// Whether what stands at the path is to be removed.
    pub fn should_remove_after_bwrap(&self, facts: &FileFacts) -> (r: bool)
        ensures
            r == self.left_behind(*facts),
    {
        if self.is_directory {
            if facts.kind != FileKind::Directory {
                return false;
            }
        } else if facts.kind != FileKind::File || facts.len != 0 {
            return false;
        }
        match self.pre_existing_path {
            Some(identity) => identity != facts.identity,
            None => true,
        }
    }
}

impl FileSystemPermissionsEnforcement {
    /// Whether there is nothing to clean up, so that the sandbox can replace this process.
    pub fn is_empty(&self) -> (r: bool)
        ensures
            r == (self.synthetic_mount_targets@.len() == 0 && self.protected_create_targets@.len()
                == 0),
    {
        self.synthetic_mount_targets.len() == 0 && self.protected_create_targets.len() == 0
    }
}

// ---- which paths are protected ----

/// Whether a text is the name of one entry of a directory.
pub open spec fn is_entry_name(name: Seq<char>) -> bool {
    &&& name.len() > 0
    &&& !name.contains('/')
    &&& name != seq!['.']
}

/// The paths of protected targets.
pub open spec fn target_paths(targets: Seq<ProtectedCreateTarget>) -> Seq<Seq<char>> {
    Seq::new(targets.len(), |i: int| targets[i].path@)
}

/// Of the first `n` names under a root, the paths that are neither read-only nor exist.
pub open spec fn creatable(
    names: Seq<Seq<char>>,
    root: Seq<char>,
    read_only: Seq<Seq<char>>,
    exists_on_disk: Seq<bool>,
    n: int,
) -> Seq<Seq<char>>
    decreases n,
{
    if n <= 0 {
        Seq::empty()
    } else {
        let before = creatable(names, root, read_only, exists_on_disk, n - 1);
        let path = paths::joined(root, names[n - 1]);
        if paths::among(read_only, path) || exists_on_disk[n - 1] {
            before
        } else {
            before.push(path)
        }
    }
}

/// The path of a protected name: under the root, or under what the root links to. Under a link
/// only the name of an entry is looked for.
pub fn protected_metadata_path(root: &str, symlink_target: Option<&str>, name: &str) -> (r: String)
    requires
        symlink_target is Some ==> is_entry_name(name@),
    ensures
        r@ == paths::joined(
            match symlink_target {
                Some(t) => t@,
                None => root@,
            },
            name@,
        ),
{
    match symlink_target {
        Some(t) => paths::join_path(t, name),
        None => paths::join_path(root, name),
    }
}

/// Adds the protected names under a writable root that a command could still create: those
/// that are not read-only and do not exist. `exists_on_disk` says of each name's path
/// whether it exists.
pub fn append_protected_create_targets_for_writable_root(
    enforcement: &mut FileSystemPermissionsEnforcement,
    protected_metadata_names: &[String],
    root: &str,
    symlink_target: Option<&str>,
    read_only_subpaths: &[String],
    exists_on_disk: &[bool],
)
    requires
        exists_on_disk@.len() == protected_metadata_names@.len(),
        symlink_target is Some ==> forall|i: int|
            0 <= i < protected_metadata_names@.len() ==> is_entry_name(
                #[trigger] protected_metadata_names@[i]@,
            ),
    ensures
        final(enforcement).synthetic_mount_targets == old(enforcement).synthetic_mount_targets,
        target_paths(final(enforcement).protected_create_targets@) == target_paths(
            old(enforcement).protected_create_targets@,
        ) + creatable(
            text::string_views(protected_metadata_names@),
            match symlink_target {
                Some(t) => t@,
                None => root@,
            },
            text::string_views(read_only_subpaths@),
            exists_on_disk@,
            protected_metadata_names@.len() as int,
        ),
{
    let ghost names = text::string_views(protected_metadata_names@);
    let ghost base = match symlink_target {
        Some(t) => t@,
        None => root@,
    };
    let ghost read_only = text::string_views(read_only_subpaths@);
    let ghost start = target_paths(enforcement.protected_create_targets@);
    let mut i: usize = 0;
    assert(start + creatable(names, base, read_only, exists_on_disk@, 0) =~= start);
    while i < protected_metadata_names.len()
        invariant
            i <= protected_metadata_names.len(),
            exists_on_disk@.len() == protected_metadata_names@.len(),
            symlink_target is Some ==> forall|i: int|
                0 <= i < protected_metadata_names@.len() ==> is_entry_name(
                    #[trigger] protected_metadata_names@[i]@,
                ),
            names == text::string_views(protected_metadata_names@),
            read_only == text::string_views(read_only_subpaths@),
            base == (match symlink_target {
                Some(t) => t@,
                None => root@,
            }),
            enforcement.synthetic_mount_targets == old(enforcement).synthetic_mount_targets,
            target_paths(enforcement.protected_create_targets@) == start + creatable(
                names,
                base,
                read_only,
                exists_on_disk@,
                i as int,
            ),
        decreases protected_metadata_names.len() - i,
    {
        let path = protected_metadata_path(
            root,
            symlink_target,
            protected_metadata_names[i].as_str(),
        );
        assert(names[i as int] == protected_metadata_names@[i as int]@);
        if !paths::is_among(read_only_subpaths, path.as_str()) && !exists_on_disk[i] {
            let ghost before = enforcement.protected_create_targets@;
            enforcement.protected_create_targets.push(ProtectedCreateTarget::missing(path.as_str()));
            assert(target_paths(enforcement.protected_create_targets@) =~= target_paths(
                before,
            ).push(path@));
            assert(start + creatable(names, base, read_only, exists_on_disk@, i + 1) =~= (start
                + creatable(names, base, read_only, exists_on_disk@, i as int)).push(path@));
        }
        i = i + 1;
    }
}

/// The read-only paths with the masks of the first `n` names under a root.
pub open spec fn masked(
    read_only: Seq<Seq<char>>,
    root: Seq<char>,
    names: Seq<Seq<char>>,
    leave_git: bool,
    n: int,
) -> Seq<Seq<char>>
    decreases n,
{
    if n <= 0 {
        read_only
    } else {
        let before = masked(read_only, root, names, leave_git, n - 1);
        let path = paths::joined(root, names[n - 1]);
        if (leave_git && names[n - 1] == ".git"@) || paths::among(before, path) {
            before
        } else {
            before.push(path)
        }
    }
}

/// Makes the protected names under a writable root read-only, each path once.
/// `leave_missing_git` says that a missing `.git` must stay visible as missing.
pub fn append_metadata_path_masks_for_writable_root(
    read_only_subpaths: &mut Vec<String>,
    root: &str,
    protected_metadata_names: &[String],
    leave_missing_git: bool,
)
    ensures
        text::string_views(final(read_only_subpaths)@) == masked(
            text::string_views(old(read_only_subpaths)@),
            root@,
            text::string_views(protected_metadata_names@),
            leave_missing_git,
            protected_metadata_names@.len() as int,
        ),
{
    let ghost names = text::string_views(protected_metadata_names@);
    let ghost start = text::string_views(read_only_subpaths@);
    let mut i: usize = 0;
    while i < protected_metadata_names.len()
        invariant
            i <= protected_metadata_names.len(),
            names == text::string_views(protected_metadata_names@),
            text::string_views(read_only_subpaths@) == masked(
                start,
                root@,
                names,
                leave_missing_git,
                i as int,
            ),
        decreases protected_metadata_names.len() - i,
    {
        let name = protected_metadata_names[i].as_str();
        assert(names[i as int] == name@);
        if !(leave_missing_git && text::same_str(name, ".git")) {
            let path = paths::join_path(root, name);
            if !paths::is_among(read_only_subpaths.as_slice(), path.as_str()) {
                let ghost before = read_only_subpaths@;
                read_only_subpaths.push(path);
                assert(text::string_views(read_only_subpaths@) =~= text::string_views(before).push(
                    path@,
                ));
            }
        }
        i = i + 1;
    }
}

/// Whether no path stands in a list twice.
pub open spec fn each_once(list: Seq<Seq<char>>) -> bool {
    forall|i: int, j: int|
        0 <= i < j < list.len() ==> !paths::same_path(#[trigger] list[i], #[trigger] list[j])
}

/// Masking names keeps every read-only path where it is, adds no path twice, and masks each
/// name that is not left alone.
pub proof fn masking_covers_each_name_once(
    read_only: Seq<Seq<char>>,
    root: Seq<char>,
    names: Seq<Seq<char>>,
    leave_git: bool,
    n: int,
)
    requires
        each_once(read_only),
        0 <= n <= names.len(),
    ensures
        each_once(masked(read_only, root, names, leave_git, n)),
        masked(read_only, root, names, leave_git, n).len() >= read_only.len(),
        masked(read_only, root, names, leave_git, n).take(read_only.len() as int) == read_only,
        forall|i: int|
            0 <= i < n && !(leave_git && #[trigger] names[i] == ".git"@) ==> paths::among(
                masked(read_only, root, names, leave_git, n),
                paths::joined(root, names[i]),
            ),
    decreases n,
{
    if n > 0 {
        masking_covers_each_name_once(read_only, root, names, leave_git, n - 1);
        let before = masked(read_only, root, names, leave_git, n - 1);
        let after = masked(read_only, root, names, leave_git, n);
        let path = paths::joined(root, names[n - 1]);
        assert(after.take(read_only.len() as int) =~= before.take(read_only.len() as int));
        if after != before {
            assert(after.last() == path);
            assert(paths::same_path(after[after.len() - 1], path));
        }
        assert forall|i: int|
            0 <= i < n && !(leave_git && #[trigger] names[i] == ".git"@) implies paths::among(
            after,
            paths::joined(root, names[i]),
        ) by {
            if i < n - 1 {
                let k = choose|k: int|
                    0 <= k < before.len() && paths::same_path(
                        #[trigger] before[k],
                        paths::joined(root, names[i]),
                    );
                assert(after[k] == before[k]);
            }
        }
    } else {
        assert(read_only.take(read_only.len() as int) =~= read_only);
    }
}

/// Whether a directory holds the metadata of a repository, from what stands at its `.git`:
/// a directory with a `HEAD`, or a file that points to one.
pub fn ancestor_has_git_metadata(
    git: Option<FileKind>,
    head_exists: bool,
    contents: Option<&str>,
) -> (r: bool)
    ensures
        r == match git {
            Some(FileKind::Directory) => head_exists,
            Some(FileKind::File) => match contents {
                Some(c) => text::has_prefix(text::trim_start(c@), "gitdir:"@),
                None => false,
            },
            _ => false,
        },
{
    match git {
        Some(FileKind::Directory) => head_exists,
        Some(FileKind::File) => match contents {
            Some(c) => {
                let chars = text::chars_of(c);
                let mut i: usize = 0;
                assert(chars@.skip(0) =~= chars@);
                while i < chars.len() && text::white_space(chars[i])
                    invariant
                        i <= chars.len(),
                        text::trim_start(chars@) == text::trim_start(chars@.skip(i as int)),
                    decreases chars.len() - i,
                {
                    assert(chars@.skip(i as int).drop_first() =~= chars@.skip(i + 1));
                    i = i + 1;
                }
                let rest = vstd::slice::slice_subrange(chars.as_slice(), i, chars.len());
                assert(rest@ =~= chars@.skip(i as int));
                text::starts_with(rest, "gitdir:")
            },
            None => false,
        },
        _ => false,
    }
}

/// Whether a name is left alone, because masking a missing `.git` would hide the repository
/// that the root is part of.
pub fn should_leave_missing_git_for_parent_repo_discovery(
    name: &str,
    missing: bool,
    an_ancestor_has_git: bool,
) -> (r: bool)
    ensures
        r == (name@ == ".git"@ && missing && an_ancestor_has_git),
{
    text::same_str(name, ".git") && missing && an_ancestor_has_git
}

// ---- markers of the processes that use a target ----

/// Marks a target that the sandbox made.
pub const SYNTHETIC_MOUNT_MARKER_SYNTHETIC: &'static str = "synthetic\n";

/// Marks a target that was there before.
pub const SYNTHETIC_MOUNT_MARKER_EXISTING: &'static str = "existing\n";

/// Marks a path that may not be created.
pub const PROTECTED_CREATE_MARKER: &'static str = "protected-create\n";

/// What a target's marker holds.
pub fn synthetic_mount_marker_contents(target: &SyntheticMountTarget) -> (r: &'static str)
    ensures
        r@ == if target.pre_existing_path is Some {
            SYNTHETIC_MOUNT_MARKER_EXISTING@
        } else {
            SYNTHETIC_MOUNT_MARKER_SYNTHETIC@
        },
{
    if target.preserves_pre_existing_path() {
        SYNTHETIC_MOUNT_MARKER_EXISTING
    } else {
        SYNTHETIC_MOUNT_MARKER_SYNTHETIC
    }
}

/// The hash of the first `n` bytes of a path.
pub open spec fn path_hash(bytes: Seq<u8>, n: int) -> u64
    decreases n,
{
    if n <= 0 {
        0xcbf29ce484222325
    } else {
        (path_hash(bytes, n - 1) ^ (bytes[n - 1] as u64)).wrapping_mul(0x100000001b3)
    }
}

/// The hash of a path, the same in every process.
pub fn hash_path(bytes: &[u8]) -> (r: u64)
    ensures
        r == path_hash(bytes@, bytes@.len() as int),
{
    let mut hash: u64 = 0xcbf29ce484222325;
    let mut i: usize = 0;
    while i < bytes.len()
        invariant
            i <= bytes.len(),
            hash == path_hash(bytes@, i as int),
        decreases bytes.len() - i,
    {
        hash = hash ^ (bytes[i] as u64);
        hash = hash.wrapping_mul(0x100000001b3);
        i = i + 1;
    }
    hash
}

/// The name of the directory that holds a path's markers.
pub fn metadata_runtime_marker_dir(path_bytes: &[u8]) -> (r: String)
    ensures
        r@ == text::hex_digits(path_hash(path_bytes@, path_bytes@.len() as int) as nat, 16),
{
    let digits = text::chars_of("0123456789abcdef");
    proof {
        reveal_strlit("0123456789abcdef");
    }
    let n = hash_path(path_bytes);
    let mut rest: u64 = n;
    let mut reversed: Vec<char> = Vec::new();
    while reversed.len() < 16
        invariant
            reversed.len() <= 16,
            digits@ == "0123456789abcdef"@,
            digits@.len() == 16,
            text::hex_digits(n as nat, 16) == text::hex_digits(rest as nat, (16 - reversed.len()) as nat)
                + reversed@.reverse(),
        decreases 16 - reversed.len(),
    {
        let ghost before = reversed@;
        let ghost was = rest;
        reversed.push(digits[(rest % 16) as usize]);
        rest = rest / 16;
        assert(text::hex_digits(rest as nat, (16 - reversed.len()) as nat) + reversed@.reverse()
            =~= text::hex_digits(was as nat, (16 - before.len()) as nat) + before.reverse());
    }
    assert(text::hex_digits(rest as nat, 0) + reversed@.reverse() =~= reversed@.reverse());
    let mut r = String::new();
    let mut i: usize = 16;
    while i > 0
        invariant
            i <= 16,
            reversed.len() == 16,
            r@ == reversed@.reverse().take(16 - i),
        decreases i,
    {
        i = i - 1;
        r.push(reversed[i]);
        assert(r@ =~= reversed@.reverse().take(16 - i));
    }
    assert(r@ =~= reversed@.reverse());
    r
}

/// A process's marker in a directory of markers.
#[derive(Debug)]
pub struct Marker {
    pub name: String,
    /// Whether the process that the name names is running.
    pub process_active: bool,
    /// What the marker holds; nothing if it is gone.
    pub contents: Option<Vec<u8>>,
}

/// The process that a marker's name names: a signed number of four bytes.
pub open spec fn named_process(name: Seq<char>) -> Option<i32> {
    if name.len() > 0 && name[0] == '-' {
        let digits = name.drop_first();
        if digits.len() > 0 && text::all_digits(digits) && text::decimal_value(digits)
            <= 0x80000000 {
            Some((-(text::decimal_value(digits) as int)) as i32)
        } else {
            None
        }
    } else {
        match text::parsed_u64(name) {
            Some(v) => if v <= i32::MAX {
                Some(v as i32)
            } else {
                None
            },
            None => None,
        }
    }
}

/// The process that a marker's name names.
pub fn marker_process(name: &str) -> (r: Option<i32>)
    ensures
        r == named_process(name@),
{
    let c = text::chars_of(name);
    if c.len() > 0 && c[0] == '-' {
        let rest = text::string_of_range(c.as_slice(), 1, c.len());
        assert(rest@ =~= name@.drop_first());
        if c.len() > 1 && c[1] == '+' {
            assert(!text::is_ascii_digit(rest@[0]));
            return None;
        }
        assert(text::without_plus(rest@) == rest@);
        return match text::parse_u64(rest.as_str()) {
            Some(v) => if v <= 0x80000000 {
                Some((-(v as i64)) as i32)
            } else {
                None
            },
            None => None,
        };
    }
    match text::parse_u64(name) {
        Some(v) => if v <= 0x7fffffff {
            Some(v as i32)
        } else {
            None
        },
        None => None,
    }
}

/// Whether bytes are those of an ASCII text.
pub open spec fn holds_text(bytes: Seq<u8>, t: Seq<char>) -> bool {
    bytes.len() == t.len() && forall|i: int|
        0 <= i < t.len() ==> #[trigger] bytes[i] as char == t[i]
}

/// Whether a marker is that of a running process, and, where asked, of one that made the
/// target.
pub open spec fn is_in_use(m: Marker, synthetic_only: bool) -> bool {
    &&& named_process(m.name@) is Some
    &&& m.process_active
    &&& synthetic_only ==> (m.contents is Some && holds_text(
        m.contents->0@,
        SYNTHETIC_MOUNT_MARKER_SYNTHETIC@,
    ))
}

/// Whether a marker is that of a process that has ended.
pub open spec fn is_stale(m: Marker) -> bool {
    named_process(m.name@) is Some && !m.process_active
}

/// The positions of the stale ones among the first `n` markers.
pub open spec fn stale_among(markers: Seq<Marker>, n: int) -> Seq<usize>
    decreases n,
{
    if n <= 0 {
        Seq::empty()
    } else if is_stale(markers[n - 1]) {
        stale_among(markers, n - 1).push((n - 1) as usize)
    } else {
        stale_among(markers, n - 1)
    }
}

/// The position of the first marker in use from `i` on, or the number of markers.
pub open spec fn first_in_use(markers: Seq<Marker>, synthetic_only: bool, i: int) -> int
    decreases markers.len() - i,
{
    if i < 0 || i >= markers.len() {
        markers.len() as int
    } else if is_in_use(markers[i], synthetic_only) {
        i
    } else {
        first_in_use(markers, synthetic_only, i + 1)
    }
}

/// What a look at a directory of markers gives.
#[derive(Debug)]
pub struct MarkerScan {
    /// Whether a process uses the target.
    pub active: bool,
    /// The positions of the markers to remove.
    pub stale: Vec<usize>,
}

fn bytes_are(bytes: &[u8], t: &str) -> (r: bool)
    ensures
        r == holds_text(bytes@, t@),
{
    let c = text::chars_of(t);
    if bytes.len() != c.len() {
        return false;
    }
    let mut i: usize = 0;
    while i < c.len()
        invariant
            i <= c.len(),
            c@ == t@,
            bytes@.len() == c@.len(),
            forall|j: int| 0 <= j < i ==> #[trigger] bytes@[j] as char == t@[j],
        decreases c.len() - i,
    {
        let x: char = c[i];
        let y: u8 = bytes[i];
        assert(x == t@[i as int] && y == bytes@[i as int]);
        if y as char != x {
            return false;
        }
        i = i + 1;
    }
    true
}

/// Whether a process uses a target, looking at its markers in order up to the first that
/// decides it; with the stale markers that were met on the way.
pub fn scan_markers(markers: &[Marker], synthetic_only: bool) -> (r: MarkerScan)
    ensures
        r.active == (first_in_use(markers@, synthetic_only, 0) < markers@.len()),
        r.stale@ == stale_among(markers@, first_in_use(markers@, synthetic_only, 0)),
{
    let mut stale: Vec<usize> = Vec::new();
    let mut i: usize = 0;
    while i < markers.len()
        invariant
            i <= markers.len(),
            stale@ == stale_among(markers@, i as int),
            first_in_use(markers@, synthetic_only, 0) == first_in_use(
                markers@,
                synthetic_only,
                i as int,
            ),
        decreases markers.len() - i,
    {
        let m = &markers[i];
        if marker_process(m.name.as_str()).is_some() {
            if !m.process_active {
                stale.push(i);
            } else {
                let matching = if synthetic_only {
                    match &m.contents {
                        Some(c) => bytes_are(c.as_slice(), SYNTHETIC_MOUNT_MARKER_SYNTHETIC),
                        None => false,
                    }
                } else {
                    true
                };
                if matching {
                    return MarkerScan { active: true, stale };
                }
            }
        }
        i = i + 1;
    }
    MarkerScan { active: false, stale }
}

/// A target as it is registered: where a running process made what stands at the path,
/// nothing was there before.
pub fn register_synthetic_mount_target(target: &SyntheticMountTarget, markers: &[Marker]) -> (r:
    SyntheticMountTarget)
    ensures
        r.path@ == target.path@,
        r.is_directory == target.is_directory,
        r.pre_existing_path == if first_in_use(markers@, true, 0) < markers@.len() {
            None
        } else {
            target.pre_existing_path
        },
{
    if target.preserves_pre_existing_path() && scan_markers(markers, true).active {
        target.without_pre_existing_path()
    } else {
        SyntheticMountTarget {
            path: target.path.clone(),
            is_directory: target.is_directory,
            pre_existing_path: target.pre_existing_path,
        }
    }
}

// ---- cleaning up ----

/// What to remove at a target's path.
#[derive(Clone, Copy, Debug, PartialEq, Eq, Structural)]
pub enum Removal {
    Nothing,
    File,
    Directory,
}

/// What to remove at a target's path after a command, given the markers of other processes
/// and what stands there.
pub open spec fn cleanup(
    target: SyntheticMountTarget,
    markers: Seq<Marker>,
    facts: Option<FileFacts>,
) -> Removal {
    if first_in_use(markers, false, 0) < markers.len() {
        Removal::Nothing
    } else {
        match facts {
            Some(f) => if !target.left_behind(f) {
                Removal::Nothing
            } else if target.is_directory {
                Removal::Directory
            } else {
                Removal::File
            },
            None => Removal::Nothing,
        }
    }
}

/// What to remove at a target's path after a command.
pub fn cleanup_synthetic_mount_target(
    target: &SyntheticMountTarget,
    markers: &[Marker],
    facts: Option<FileFacts>,
) -> (r: Removal)
    ensures
        r == cleanup(*target, markers@, facts),
{
    if scan_markers(markers, false).active {
        return Removal::Nothing;
    }
    match facts {
        Some(f) => if !target.should_remove_after_bwrap(&f) {
            Removal::Nothing
        } else if target.is_directory {
            Removal::Directory
        } else {
            Removal::File
        },
        None => Removal::Nothing,
    }
}

/// How an attempt to remove something went.
#[derive(Clone, Copy, Debug, PartialEq, Eq, Structural)]
pub enum RemovalOutcome {
    Removed,
    /// Nothing was there when it was looked at.
    NotFound,
    /// It was gone when it was to be removed.
    Vanished,
    DirectoryNotEmpty,
    Failed,
}

/// Whether a clean-up goes on after an attempt: what is gone is gone, and a directory that
/// is no longer empty stays.
pub fn removal_is_settled(removal: Removal, outcome: RemovalOutcome) -> (r: bool)
    ensures
        r == match outcome {
            RemovalOutcome::Removed => true,
            RemovalOutcome::NotFound => true,
            RemovalOutcome::Vanished => true,
            RemovalOutcome::DirectoryNotEmpty => removal == Removal::Directory,
            RemovalOutcome::Failed => false,
        },
{
    match outcome {
        RemovalOutcome::Removed => true,
        RemovalOutcome::NotFound => true,
        RemovalOutcome::Vanished => true,
        RemovalOutcome::DirectoryNotEmpty => removal == Removal::Directory,
        RemovalOutcome::Failed => false,
    }
}

/// What follows an attempt to remove a protected path that was created.
#[derive(Clone, Copy, Debug, PartialEq, Eq, Structural)]
pub enum ProtectedStep {
    /// It was removed: report a violation.
    Report,
    /// It was not there: no violation.
    Clean,
    /// Try again after a moment.
    Retry,
    /// Take it for a violation, without a report.
    AssumeViolation,
    /// Give up.
    Fail,
}

/// The number of attempts to remove a protected path.
pub const PROTECTED_REMOVAL_ATTEMPTS: u32 = 100;

/// How hard the removal of a protected path is tried.
#[derive(Clone, Copy, Debug, PartialEq, Eq, Structural)]
pub enum RemovalRule {
    /// By the clean-up at the end: a directory that is not empty yet is tried again, and the
    /// removal is insisted on.
    Insist,
    /// While the command runs: tried again, and not insisted on.
    BestEffort,
    /// By the launcher itself: tried once, and insisted on.
    Once,
}

/// What follows attempt number `attempt`, counted from zero.
pub open spec fn protected_step(attempt: u32, outcome: RemovalOutcome, rule: RemovalRule)
    -> ProtectedStep {
    match outcome {
        RemovalOutcome::Removed => ProtectedStep::Report,
        RemovalOutcome::NotFound => ProtectedStep::Clean,
        RemovalOutcome::Vanished => if rule == RemovalRule::Once {
            ProtectedStep::Fail
        } else {
            ProtectedStep::Clean
        },
        RemovalOutcome::DirectoryNotEmpty => if rule == RemovalRule::Once {
            ProtectedStep::Fail
        } else if attempt < 99 {
            ProtectedStep::Retry
        } else if rule == RemovalRule::BestEffort {
            ProtectedStep::AssumeViolation
        } else {
            ProtectedStep::Fail
        },
        RemovalOutcome::Failed => if rule == RemovalRule::BestEffort {
            ProtectedStep::AssumeViolation
        } else {
            ProtectedStep::Fail
        },
    }
}

/// What follows an attempt to remove a protected path.
pub fn after_protected_removal(attempt: u32, outcome: RemovalOutcome, rule: RemovalRule) -> (r:
    ProtectedStep)
    ensures
        r == protected_step(attempt, outcome, rule),
{
    match outcome {
        RemovalOutcome::Removed => ProtectedStep::Report,
        RemovalOutcome::NotFound => ProtectedStep::Clean,
        RemovalOutcome::Vanished => if rule == RemovalRule::Once {
            ProtectedStep::Fail
        } else {
            ProtectedStep::Clean
        },
        RemovalOutcome::DirectoryNotEmpty => if rule == RemovalRule::Once {
            ProtectedStep::Fail
        } else if attempt < 99 {
            ProtectedStep::Retry
        } else if rule == RemovalRule::BestEffort {
            ProtectedStep::AssumeViolation
        } else {
            ProtectedStep::Fail
        },
        RemovalOutcome::Failed => if rule == RemovalRule::BestEffort {
            ProtectedStep::AssumeViolation
        } else {
            ProtectedStep::Fail
        },
    }
}

/// How the clean-up of one protected path ended.
#[derive(Clone, Copy, Debug, PartialEq, Eq, Structural)]
pub enum ProtectedCleanup {
    /// Another process uses the path, which may exist.
    InUse { exists_on_disk: bool },
    /// The removal ended with this step.
    Ended(ProtectedStep),
}

/// Whether the clean-up of one protected path showed a violation.
pub open spec fn shows_violation(c: ProtectedCleanup) -> bool {
    match c {
        ProtectedCleanup::InUse { exists_on_disk } => exists_on_disk,
        ProtectedCleanup::Ended(step) => step == ProtectedStep::Report || step
            == ProtectedStep::AssumeViolation,
    }
}

/// Whether the clean-up of protected paths showed a violation.
pub fn cleanup_protected_create_targets(results: &[ProtectedCleanup]) -> (r: bool)
    ensures
        r == exists|i: int| 0 <= i < results@.len() && shows_violation(#[trigger] results@[i]),
{
    let mut violation = false;
    let mut i: usize = 0;
    while i < results.len()
        invariant
            i <= results.len(),
            violation == exists|j: int|
                0 <= j < i && shows_violation(#[trigger] results@[j]),
        decreases results.len() - i,
    {
        let shows = match results[i] {
            ProtectedCleanup::InUse { exists_on_disk } => exists_on_disk,
            ProtectedCleanup::Ended(step) => step == ProtectedStep::Report || step
                == ProtectedStep::AssumeViolation,
        };
        assert(shows == shows_violation(results@[i as int]));
        violation = violation || shows;
        i = i + 1;
    }
    violation
}

/// What a violation is reported as. The launcher itself calls the path a preserved one.
pub fn violation_message(path: &str, rule: RemovalRule) -> (r: String)
    ensures
        r@ == (if rule == RemovalRule::Once {
            "sandbox blocked creation of preserved workspace metadata path "@
        } else {
            "sandbox blocked creation of protected workspace metadata path "@
        }) + path@,
{
    let mut r = if rule == RemovalRule::Once {
        "sandbox blocked creation of preserved workspace metadata path ".to_owned()
    } else {
        "sandbox blocked creation of protected workspace metadata path ".to_owned()
    };
    r.push_str(path);
    r
}

// ---- a whole clean-up of protected paths ----

/// A protected path when its clean-up begins.
#[verifier::ext_equal]
pub ghost struct ProtectedPath {
    pub path: Seq<char>,
    /// The markers of the path, that of this process among them.
    pub markers: Seq<Marker>,
    pub exists_on_disk: bool,
}

/// Whether a marker is that of a process of another name than `own`, which is running.
pub open spec fn is_other_in_use(m: Marker, own: Seq<char>) -> bool {
    m.name@ != own && is_in_use(m, false)
}

/// Whether another running process uses a path.
pub open spec fn is_shared(p: ProtectedPath, own: Seq<char>) -> bool {
    exists|i: int| 0 <= i < p.markers.len() && is_other_in_use(#[trigger] p.markers[i], own)
}

/// The first `n` markers without those of the process called `own`.
pub open spec fn unregistered(markers: Seq<Marker>, own: Seq<char>, n: int) -> Seq<Marker>
    decreases n,
{
    if n <= 0 {
        Seq::empty()
    } else if markers[n - 1].name@ == own {
        unregistered(markers, own, n - 1)
    } else {
        unregistered(markers, own, n - 1).push(markers[n - 1])
    }
}

/// How the clean-up of a path ends that nothing else touches meanwhile: this process's marker is
/// removed, then the others are looked at, and only where none is in use the path is removed.
pub open spec fn cleaned(p: ProtectedPath, own: Seq<char>) -> ProtectedCleanup {
    let markers = unregistered(p.markers, own, p.markers.len() as int);
    match protected_decision(markers, p.exists_on_disk) {
        Some(kept) => kept,
        None => ProtectedCleanup::Ended(
            protected_step(
                0,
                if p.exists_on_disk {
                    RemovalOutcome::Removed
                } else {
                    RemovalOutcome::NotFound
                },
                RemovalRule::Insist,
            ),
        ),
    }
}

/// Whether a path exists after its clean-up: what is in use stays, what is not is gone.
pub open spec fn remains(p: ProtectedPath, own: Seq<char>) -> bool {
    cleaned(p, own) is InUse && p.exists_on_disk
}

/// The paths that are reported by the clean-up of the last `targets.len() - n` ones, in the
/// order in which they are: the last one first.
pub open spec fn reports(targets: Seq<ProtectedPath>, own: Seq<char>, n: int) -> Seq<Seq<char>>
    decreases targets.len() - n,
{
    if n < 0 || n >= targets.len() {
        Seq::empty()
    } else {
        let before = reports(targets, own, n + 1);
        if cleaned(targets[n], own) == ProtectedCleanup::Ended(ProtectedStep::Report) {
            before.push(targets[n].path)
        } else {
            before
        }
    }
}

/// What is decided of a path once this process's marker is gone: where another process uses it,
/// it is kept; otherwise nothing is decided yet, and it is to be removed.
pub open spec fn protected_decision(markers: Seq<Marker>, exists_on_disk: bool) -> Option<
    ProtectedCleanup,
> {
    if first_in_use(markers, false, 0) < markers.len() {
        Some(ProtectedCleanup::InUse { exists_on_disk })
    } else {
        None
    }
}

/// What is decided of a path before it is touched.
pub fn decide_protected_cleanup(markers: &[Marker], exists_on_disk: bool) -> (r: Option<
    ProtectedCleanup,
>)
    ensures
        r == protected_decision(markers@, exists_on_disk),
{
    if scan_markers(markers, false).active {
        Some(ProtectedCleanup::InUse { exists_on_disk })
    } else {
        None
    }
}

proof fn lemma_unregistered(markers: Seq<Marker>, own: Seq<char>, n: int)
    requires
        0 <= n <= markers.len(),
    ensures
        (exists|i: int|
            0 <= i < unregistered(markers, own, n).len() && is_in_use(
                #[trigger] unregistered(markers, own, n)[i],
                false,
            )) <==> (exists|i: int| 0 <= i < n && is_other_in_use(#[trigger] markers[i], own)),
    decreases n,
{
    if n > 0 {
        lemma_unregistered(markers, own, n - 1);
        let before = unregistered(markers, own, n - 1);
        let now = unregistered(markers, own, n);
        if exists|i: int| 0 <= i < now.len() && is_in_use(#[trigger] now[i], false) {
            let i = choose|i: int| 0 <= i < now.len() && is_in_use(#[trigger] now[i], false);
            if i < before.len() {
                assert(is_in_use(before[i], false));
            } else {
                assert(is_other_in_use(markers[n - 1], own));
            }
        }
        if exists|i: int| 0 <= i < n && is_other_in_use(#[trigger] markers[i], own) {
            let i = choose|i: int| 0 <= i < n && is_other_in_use(#[trigger] markers[i], own);
            if i < n - 1 {
                let j = choose|j: int| 0 <= j < before.len() && is_in_use(#[trigger] before[j], false);
                assert(now[j] == before[j]);
            } else {
                assert(now[before.len() as int] == markers[n - 1]);
            }
        }
    }
}

proof fn lemma_no_first(markers: Seq<Marker>, from: int)
    requires
        0 <= from <= markers.len(),
        forall|i: int| 0 <= i < markers.len() ==> !is_in_use(#[trigger] markers[i], false),
    ensures
        first_in_use(markers, false, from) == markers.len(),
    decreases markers.len() - from,
{
    if from < markers.len() {
        lemma_no_first(markers, from + 1);
    }
}

proof fn lemma_cleaned(p: ProtectedPath, own: Seq<char>)
    ensures
        cleaned(p, own) == (if is_shared(p, own) {
            ProtectedCleanup::InUse { exists_on_disk: p.exists_on_disk }
        } else if p.exists_on_disk {
            ProtectedCleanup::Ended(ProtectedStep::Report)
        } else {
            ProtectedCleanup::Ended(ProtectedStep::Clean)
        }),
{
    let markers = unregistered(p.markers, own, p.markers.len() as int);
    lemma_unregistered(p.markers, own, p.markers.len() as int);
    if is_shared(p, own) {
        let i = choose|i: int| 0 <= i < markers.len() && is_in_use(#[trigger] markers[i], false);
        lemma_first_in_use(markers, false, 0, i);
    } else {
        lemma_no_first(markers, 0);
    }
}

/// Whether a path is that of a target from `n` on that is removed.
spec fn is_removed_from(targets: Seq<ProtectedPath>, own: Seq<char>, n: int, path: Seq<char>) -> bool {
    exists|i: int|
        n <= i < targets.len() && (#[trigger] targets[i]).path == path && cleaned(targets[i], own)
            == ProtectedCleanup::Ended(ProtectedStep::Report)
}

proof fn lemma_reports(targets: Seq<ProtectedPath>, own: Seq<char>, n: int)
    requires
        0 <= n <= targets.len(),
    ensures
        forall|i: int|
            n <= i < targets.len() && #[trigger] cleaned(targets[i], own)
                == ProtectedCleanup::Ended(ProtectedStep::Report) ==> reports(
                targets,
                own,
                n,
            ).contains(targets[i].path),
        forall|k: int|
            0 <= k < reports(targets, own, n).len() ==> is_removed_from(
                targets,
                own,
                n,
                #[trigger] reports(targets, own, n)[k],
            ),
        (forall|i: int, j: int|
            0 <= i < j < targets.len() ==> #[trigger] targets[i].path != #[trigger] targets[j].path)
            ==> reports(targets, own, n).no_duplicates(),
    decreases targets.len() - n,
{
    if n < targets.len() {
        lemma_reports(targets, own, n + 1);
        let before = reports(targets, own, n + 1);
        let now = reports(targets, own, n);
        let reported = ProtectedCleanup::Ended(ProtectedStep::Report);
        assert forall|i: int|
            n <= i < targets.len() && #[trigger] cleaned(targets[i], own)
                == reported implies now.contains(targets[i].path) by {
            if i == n {
                assert(now[before.len() as int] == targets[n].path);
            } else {
                assert(before.contains(targets[i].path));
                let k = choose|k: int| 0 <= k < before.len() && before[k] == targets[i].path;
                assert(now[k] == before[k]);
            }
        }
        assert forall|k: int| 0 <= k < now.len() implies is_removed_from(
            targets,
            own,
            n,
            #[trigger] now[k],
        ) by {
            if k < before.len() {
                assert(now[k] == before[k]);
                let i = choose|i: int|
                    n + 1 <= i < targets.len() && (#[trigger] targets[i]).path == before[k]
                        && cleaned(targets[i], own) == reported;
                assert(targets[i].path == now[k]);
            } else {
                assert(targets[n].path == now[k]);
            }
        }
        if forall|i: int, j: int|
            0 <= i < j < targets.len() ==> #[trigger] targets[i].path != #[trigger] targets[j].path {
            if cleaned(targets[n], own) == reported {
                assert forall|a: int, b: int|
                    0 <= a < now.len() && 0 <= b < now.len() && a != b implies now[a] != now[b] by {
                    let k = if a < b {
                        a
                    } else {
                        b
                    };
                    assert(now[k] == before[k]);
                    assert(is_removed_from(targets, own, n + 1, before[k]));
                    let i = choose|i: int|
                        n + 1 <= i < targets.len() && (#[trigger] targets[i]).path == before[k]
                            && cleaned(targets[i], own) == reported;
                    assert(targets[n].path != targets[i].path);
                    if a < before.len() && b < before.len() {
                        assert(before[a] != before[b]);
                    }
                }
            }
        }
    }
}

/// A whole clean-up of protected paths that nothing else touches meanwhile: it shows a violation
/// exactly if one of them existed. A path that no other running process uses is gone, and is
/// reported once if it existed; one that another uses stays as it was, and is not reported.
pub proof fn whole_cleanup_of_protected_paths(targets: Seq<ProtectedPath>, own: Seq<char>)
    requires
        forall|i: int, j: int|
            0 <= i < j < targets.len() ==> #[trigger] targets[i].path != #[trigger] targets[j].path,
    ensures
        (exists|i: int| 0 <= i < targets.len() && shows_violation(#[trigger] cleaned(targets[i], own)))
            <==> (exists|i: int| 0 <= i < targets.len() && (#[trigger] targets[i]).exists_on_disk),
        forall|i: int|
            0 <= i < targets.len() && !is_shared(targets[i], own) ==> !remains(
                #[trigger] targets[i],
                own,
            ) && (reports(targets, own, 0).contains(targets[i].path) <==> targets[i].exists_on_disk),
        forall|i: int|
            0 <= i < targets.len() && is_shared(targets[i], own) ==> remains(
                #[trigger] targets[i],
                own,
            ) == targets[i].exists_on_disk && !reports(targets, own, 0).contains(targets[i].path),
        reports(targets, own, 0).no_duplicates(),
{
    let told = reports(targets, own, 0);
    lemma_reports(targets, own, 0);
    assert forall|i: int| 0 <= i < targets.len() implies shows_violation(
        #[trigger] cleaned(targets[i], own),
    ) == targets[i].exists_on_disk by {
        lemma_cleaned(targets[i], own);
    }
    if exists|i: int| 0 <= i < targets.len() && (#[trigger] targets[i]).exists_on_disk {
        let i = choose|i: int| 0 <= i < targets.len() && (#[trigger] targets[i]).exists_on_disk;
        assert(shows_violation(cleaned(targets[i], own)));
    }
    assert forall|i: int| 0 <= i < targets.len() implies told.contains(
        (#[trigger] targets[i]).path,
    ) == (!is_shared(targets[i], own) && targets[i].exists_on_disk) by {
        lemma_cleaned(targets[i], own);
        if told.contains(targets[i].path) {
            let k = choose|k: int| 0 <= k < told.len() && told[k] == targets[i].path;
            assert(is_removed_from(targets, own, 0, told[k]));
            let j = choose|j: int|
                0 <= j < targets.len() && (#[trigger] targets[j]).path == told[k] && cleaned(
                    targets[j],
                    own,
                ) == ProtectedCleanup::Ended(ProtectedStep::Report);
            assert(i == j);
        }
    }
    assert forall|i: int| 0 <= i < targets.len() implies remains(#[trigger] targets[i], own) == (
    is_shared(targets[i], own) && targets[i].exists_on_disk) by {
        lemma_cleaned(targets[i], own);
    }
}

// ---- watching ----

/// The parents of the first `n` targets, each once.
pub open spec fn parents(targets: Seq<ProtectedCreateTarget>, n: int) -> Seq<Seq<char>>
    decreases n,
{
    if n <= 0 {
        Seq::empty()
    } else {
        let before = parents(targets, n - 1);
        match paths::parent(targets[n - 1].path@) {
            Some(p) => if paths::among(before, p) {
                before
            } else {
                before.push(p)
            },
            None => before,
        }
    }
}

/// The directories to watch for the creation of protected paths.
pub fn watched_parents(targets: &[ProtectedCreateTarget]) -> (r: Vec<String>)
    ensures
        text::string_views(r@) == parents(targets@, targets@.len() as int),
{
    let mut r: Vec<String> = Vec::new();
    let mut i: usize = 0;
    assert(text::string_views(r@) =~= Seq::<Seq<char>>::empty());
    while i < targets.len()
        invariant
            i <= targets.len(),
            text::string_views(r@) == parents(targets@, i as int),
        decreases targets.len() - i,
    {
        if let Some(parent) = paths::parent_of(targets[i].path.as_str()) {
            if !paths::is_among(r.as_slice(), parent.as_str()) {
                let ghost before = r@;
                r.push(parent);
                assert(text::string_views(r@) =~= text::string_views(before).push(parent@));
            }
        }
        i = i + 1;
    }
    r
}

// ---- laws ----

/// What stood at a path before the sandbox did is never removed, nor is a file that holds
/// something, nor anything that another running process uses.
pub proof fn cleanup_keeps_what_is_not_left_behind(
    target: SyntheticMountTarget,
    markers: Seq<Marker>,
    facts: FileFacts,
)
    ensures
        target.pre_existing_path == Some(facts.identity) ==> cleanup(target, markers, Some(facts))
            == Removal::Nothing,
        facts.kind == FileKind::File && facts.len > 0 ==> cleanup(target, markers, Some(facts))
            == Removal::Nothing,
        (exists|i: int| 0 <= i < markers.len() && is_in_use(#[trigger] markers[i], false))
            ==> cleanup(target, markers, Some(facts)) == Removal::Nothing,
{
    if exists|i: int| 0 <= i < markers.len() && is_in_use(#[trigger] markers[i], false) {
        let i = choose|i: int| 0 <= i < markers.len() && is_in_use(#[trigger] markers[i], false);
        lemma_first_in_use(markers, false, 0, i);
    }
}

proof fn lemma_first_in_use(markers: Seq<Marker>, synthetic_only: bool, from: int, i: int)
    requires
        0 <= from <= i < markers.len(),
        is_in_use(markers[i], synthetic_only),
    ensures
        first_in_use(markers, synthetic_only, from) <= i,
    decreases i - from,
{
    if from < i {
        lemma_first_in_use(markers, synthetic_only, from + 1, i);
    }
}

/// An attempt to remove a protected path is not repeated for ever.
pub proof fn protected_removal_ends(attempt: u32, outcome: RemovalOutcome, rule: RemovalRule)
    requires
        attempt + 1 >= PROTECTED_REMOVAL_ATTEMPTS,
    ensures
        protected_step(attempt, outcome, rule) != ProtectedStep::Retry,
{
}

/// No directory is watched twice.
pub proof fn parents_are_watched_once(targets: Seq<ProtectedCreateTarget>, n: int)
    requires
        0 <= n <= targets.len(),
    ensures
        each_once(parents(targets, n)),
        forall|i: int|
            0 <= i < n && paths::parent((#[trigger] targets[i]).path@) is Some ==> paths::among(
                parents(targets, n),
                paths::parent(targets[i].path@)->0,
            ),
    decreases n,
{
    if n > 0 {
        parents_are_watched_once(targets, n - 1);
        let before = parents(targets, n - 1);
        let after = parents(targets, n);
        if after != before {
            let p = paths::parent(targets[n - 1].path@)->0;
            assert(paths::same_path(after[after.len() - 1], p));
        }
        assert forall|i: int|
            0 <= i < n && paths::parent((#[trigger] targets[i]).path@)
                is Some implies paths::among(after, paths::parent(targets[i].path@)->0) by {
            if i < n - 1 {
                let k = choose|k: int|
                    0 <= k < before.len() && paths::same_path(
                        #[trigger] before[k],
                        paths::parent(targets[i].path@)->0,
                    );
                assert(after[k] == before[k]);
            }
        }
    }
}

/// The creation of every protected name is watched for that is not there and not masked already,
/// and of no other.
pub proof fn missing_names_are_watched_for(
    names: Seq<Seq<char>>,
    root: Seq<char>,
    read_only: Seq<Seq<char>>,
    exists_on_disk: Seq<bool>,
    n: int,
    i: int,
)
    requires
        0 <= i < n <= names.len(),
        exists_on_disk.len() == names.len(),
    ensures
        ({
            let path = paths::joined(root, names[i]);
            let found = creatable(names, root, read_only, exists_on_disk, n);
            &&& !exists_on_disk[i] && !paths::among(read_only, path) ==> found.contains(path)
            &&& forall|k: int|
                0 <= k < found.len() ==> !paths::among(read_only, #[trigger] found[k])
            &&& found.len() <= n
            &&& (forall|k: int| 0 <= k < n ==> #[trigger] exists_on_disk[k]) ==> found.len() == 0
        }),
    decreases n,
{
    let before = creatable(names, root, read_only, exists_on_disk, n - 1);
    let found = creatable(names, root, read_only, exists_on_disk, n);
    let path = paths::joined(root, names[i]);
    if n > 1 {
        missing_names_are_watched_for(
            names,
            root,
            read_only,
            exists_on_disk,
            n - 1,
            if i < n - 1 {
                i
            } else {
                0
            },
        );
    }
    if i < n - 1 && before.contains(path) {
        assert(found[before.index_of(path)] == path);
    }
    if found.len() > before.len() {
        assert(found[before.len() as int] == paths::joined(root, names[n - 1]));
    }
    assert forall|k: int| 0 <= k < found.len() implies !paths::among(
        read_only,
        #[trigger] found[k],
    ) by {
        if k < before.len() {
            assert(found[k] == before[k]);
        }
    }
    if forall|k: int| 0 <= k < n ==> #[trigger] exists_on_disk[k] {
        assert(exists_on_disk[n - 1]);
    }
}

/// A target is in use if a process that runs has a marker for it, and the scan stops at the first
/// such marker.
pub proof fn targets_are_in_use_by_running_processes(
    markers: Seq<Marker>,
    synthetic_only: bool,
    i: int,
)
    requires
        0 <= i <= markers.len(),
    ensures
        ({
            let k = first_in_use(markers, synthetic_only, i);
            &&& i <= k <= markers.len()
            &&& k < markers.len() ==> markers[k].process_active && named_process(
                markers[k].name@,
            ) is Some && (synthetic_only ==> markers[k].contents is Some && holds_text(
                markers[k].contents->0@,
                SYNTHETIC_MOUNT_MARKER_SYNTHETIC@,
            ))
            &&& forall|j: int| i <= j < k ==> !is_in_use(#[trigger] markers[j], synthetic_only)
        }),
    decreases markers.len() - i,
{
    if i < markers.len() && !is_in_use(markers[i], synthetic_only) {
        targets_are_in_use_by_running_processes(markers, synthetic_only, i + 1);
    }
}

/// The markers of processes that run no more are removed, all that were met and no other.
pub proof fn stale_markers_are_removed(markers: Seq<Marker>, n: int, i: usize)
    requires
        0 <= n <= markers.len() <= usize::MAX,
    ensures
        stale_among(markers, n).contains(i) <==> i < n && named_process(
            markers[i as int].name@,
        ) is Some && !markers[i as int].process_active,
    decreases n,
{
    if n > 0 {
        stale_markers_are_removed(markers, n - 1, i);
        let before = stale_among(markers, n - 1);
        let after = stale_among(markers, n);
        if before.contains(i) {
            assert(after[before.index_of(i)] == i);
        }
        if after.len() > before.len() {
            assert(after[before.len() as int] == (n - 1) as usize);
            if after.contains(i) && i != n - 1 {
                assert(before[after.index_of(i)] == i);
            }
        }
    }
}

/// The name of a marker is the number of its process, which is read back from it.
pub proof fn markers_name_their_process(process: i32)
    requires
        process >= 0,
    ensures
        named_process(text::decimal(process as nat)) == Some(process),
        named_process(Seq::empty()) is None,
{
    text::decimal_round_trip(process as nat);
    text::lemma_decimal_is_digits(process as nat);
    let s = text::decimal(process as nat);
    assert(text::is_ascii_digit(s[0]));
}

/// Only a removal that succeeds is reported, and only what is not there is clean; what the launcher
/// itself cannot remove at once fails, and what cannot be removed while the command runs is taken for
/// a violation.
pub proof fn removals_end_as_they_went(attempt: u32, outcome: RemovalOutcome, rule: RemovalRule)
    ensures
        ({
            let step = protected_step(attempt, outcome, rule);
            &&& step is Report <==> outcome is Removed
            &&& step is Clean <==> outcome is NotFound || outcome is Vanished && rule !is Once
            &&& step is Retry <==> outcome is DirectoryNotEmpty && rule !is Once && attempt + 1
                < PROTECTED_REMOVAL_ATTEMPTS
            &&& step is AssumeViolation ==> rule is BestEffort
            &&& step is Fail ==> rule !is BestEffort
            &&& rule is Once ==> step !is Retry
        }),
{
}

/// To leave a target takes a process's own marker away and keeps all others, in their order.
pub proof fn other_markers_are_kept(markers: Seq<Marker>, own: Seq<char>, n: int, i: int)
    requires
        0 <= i < n <= markers.len(),
    ensures
        markers[i].name@ != own ==> unregistered(markers, own, n).contains(markers[i]),
        forall|k: int|
            0 <= k < unregistered(markers, own, n).len() ==> (#[trigger] unregistered(
                markers,
                own,
                n,
            )[k]).name@ != own,
        unregistered(markers, own, n).len() <= n,
    decreases n,
{
    let before = unregistered(markers, own, n - 1);
    let after = unregistered(markers, own, n);
    if n > 1 {
        other_markers_are_kept(markers, own, n - 1, if i < n - 1 {
            i
        } else {
            0
        });
    }
    if i < n - 1 && before.contains(markers[i]) {
        assert(after[before.index_of(markers[i])] == markers[i]);
    }
    if after.len() > before.len() {
        assert(after[before.len() as int] == markers[n - 1]);
    }
    assert forall|k: int| 0 <= k < after.len() implies (#[trigger] after[k]).name@ != own by {
        if k < before.len() {
            assert(after[k] == before[k]);
        }
    }
}

/// What the sandbox left behind is removed as what it is, once nobody uses it.
pub proof fn leftovers_are_removed(
    target: SyntheticMountTarget,
    markers: Seq<Marker>,
    facts: FileFacts,
)
    requires
        forall|i: int| 0 <= i < markers.len() ==> !is_in_use(#[trigger] markers[i], false),
        target.pre_existing_path != Some(facts.identity),
    ensures
        target.is_directory && facts.kind is Directory ==> cleanup(target, markers, Some(facts))
            is Directory,
        !target.is_directory && facts.kind is File && facts.len == 0 ==> cleanup(
            target,
            markers,
            Some(facts),
        ) is File,
        cleanup(target, markers, None) is Nothing,
{
    targets_are_in_use_by_running_processes(markers, false, 0);
}

} // verus!
