//! How permissions are summed up in one line.

use vstd::prelude::*;

use crate::paths;
use crate::text;

verus! {

/// What a managed policy allows on the file system.
#[derive(Debug)]
pub struct ManagedFileSystem {
    pub full_disk_write: bool,
    pub full_disk_read: bool,
    pub writable_roots: Vec<String>,
}

/// What a session may do.
#[derive(Debug)]
pub enum PermissionProfile {
    Disabled,
    External { network_enabled: bool },
    Managed { file_system: ManagedFileSystem, network_enabled: bool },
}

/// A summary that says where the network can be used.
pub open spec fn with_network(base: Seq<char>, network_enabled: bool) -> Seq<char> {
    if network_enabled {
        base + " (network access enabled)"@
    } else {
        base
    }
}

/// How a writable root is shown: by what it is for, where that is known.
pub open spec fn root_display(root: Seq<char>, cwd: Seq<char>, temp_dir: Seq<char>) -> Seq<char> {
    if paths::same_path(root, cwd) {
        "workdir"@
    } else if paths::same_path(root, "/tmp"@) {
        "/tmp"@
    } else if paths::same_path(root, temp_dir) {
        "$TMPDIR"@
    } else {
        root
    }
}

/// How writable roots are shown.
pub open spec fn root_displays(roots: Seq<Seq<char>>, cwd: Seq<char>, temp_dir: Seq<char>) -> Seq<
    Seq<char>,
> {
    Seq::new(roots.len(), |i: int| root_display(roots[i], cwd, temp_dir))
}

/// The summary of what a managed policy allows.
pub open spec fn managed_summary(
    file_system: ManagedFileSystem,
    network_enabled: bool,
    cwd: Seq<char>,
    temp_dir: Seq<char>,
) -> Seq<char> {
    let roots = text::string_views(file_system.writable_roots@);
    if file_system.full_disk_write {
        if network_enabled {
            "danger-full-access"@
        } else {
            "custom permissions"@
        }
    } else if roots.len() == 0 {
        with_network(
            if file_system.full_disk_read {
                "read-only"@
            } else {
                "custom permissions"@
            },
            network_enabled,
        )
    } else {
        with_network(
            ("workspace-write ["@ + text::join(
                root_displays(roots, cwd, temp_dir),
                ", "@,
            )).push(']'),
            network_enabled,
        )
    }
}

fn summary_with_network(base: &str, network_enabled: bool) -> (r: String)
    ensures
        r@ == with_network(base@, network_enabled),
{
    let mut r = base.to_owned();
    if network_enabled {
        r.push_str(" (network access enabled)");
    }
    r
}

fn writable_root_display(root: &str, cwd: &str, temp_dir: &str) -> (r: String)
    ensures
        r@ == root_display(root@, cwd@, temp_dir@),
{
    if paths::is_same_path(root, cwd) {
        "workdir".to_owned()
    } else if paths::is_same_path(root, "/tmp") {
        "/tmp".to_owned()
    } else if paths::is_same_path(root, temp_dir) {
        "$TMPDIR".to_owned()
    } else {
        root.to_owned()
    }
}

fn summarize_managed_profile(
    file_system: &ManagedFileSystem,
    network_enabled: bool,
    cwd: &str,
    temp_dir: &str,
) -> (r: String)
    ensures
        r@ == managed_summary(*file_system, network_enabled, cwd@, temp_dir@),
{
    if file_system.full_disk_write {
        return if network_enabled {
            "danger-full-access".to_owned()
        } else {
            "custom permissions".to_owned()
        };
    }
    let roots = &file_system.writable_roots;
    let ghost all = text::string_views(roots@);
    assert(all.len() == roots@.len());
    if roots.len() == 0 {
        return if file_system.full_disk_read {
            summary_with_network("read-only", network_enabled)
        } else {
            summary_with_network("custom permissions", network_enabled)
        };
    }
    let mut shown: Vec<String> = Vec::new();
    let mut i: usize = 0;
    assert(text::string_views(shown@) =~= root_displays(all, cwd@, temp_dir@).take(0));
    while i < roots.len()
        invariant
            i <= roots.len(),
            all == text::string_views(roots@),
            text::string_views(shown@) == root_displays(all, cwd@, temp_dir@).take(i as int),
        decreases roots.len() - i,
    {
        assert(all[i as int] == roots@[i as int]@);
        let ghost before = shown@;
        let display = writable_root_display(roots[i].as_str(), cwd, temp_dir);
        shown.push(display);
        assert(text::string_views(shown@) =~= text::string_views(before).push(display@));
        assert(root_displays(all, cwd@, temp_dir@).take(i + 1) =~= root_displays(
            all,
            cwd@,
            temp_dir@,
        ).take(i as int).push(display@));
        i = i + 1;
    }
    assert(root_displays(all, cwd@, temp_dir@).take(i as int) =~= root_displays(
        all,
        cwd@,
        temp_dir@,
    ));
    let mut base = "workspace-write [".to_owned();
    base.push_str(text::join_strings(shown.as_slice(), ", ").as_str());
    base.push(']');
    summary_with_network(base.as_str(), network_enabled)
}

/// The summary of what a session may do. `temp_dir` is the directory for temporary files.
pub fn summarize_permission_profile(profile: &PermissionProfile, cwd: &str, temp_dir: &str) -> (r:
    String)
    ensures
        r@ == match *profile {
            PermissionProfile::Disabled => "danger-full-access"@,
            PermissionProfile::External { network_enabled } => with_network(
                "external-sandbox"@,
                network_enabled,
            ),
            PermissionProfile::Managed { file_system, network_enabled } => managed_summary(
                file_system,
                network_enabled,
                cwd@,
                temp_dir@,
            ),
        },
{
    match profile {
        PermissionProfile::Disabled => "danger-full-access".to_owned(),
        PermissionProfile::External { network_enabled } => summary_with_network(
            "external-sandbox",
            *network_enabled,
        ),
        PermissionProfile::Managed { file_system, network_enabled } => summarize_managed_profile(
            file_system,
            *network_enabled,
            cwd,
            temp_dir,
        ),
    }
}

proof fn lemma_join_holds(parts: Seq<Seq<char>>, sep: Seq<char>, i: int)
    requires
        0 <= i < parts.len(),
    ensures
        text::has_sub(text::join(parts, sep), parts[i]),
    decreases parts.len(),
{
    let whole = text::join(parts, sep);
    let part = parts[i];
    if parts.len() == 1 {
        text::texts_hold_their_parts(Seq::empty(), part, Seq::empty());
        assert(Seq::<char>::empty() + part + Seq::<char>::empty() =~= part);
    } else if i == parts.len() - 1 {
        let head = text::join(parts.drop_last(), sep) + sep;
        text::texts_hold_their_parts(head, part, Seq::empty());
        assert(head + part + Seq::<char>::empty() =~= whole);
    } else {
        let head = text::join(parts.drop_last(), sep);
        lemma_join_holds(parts.drop_last(), sep, i);
        assert(parts.drop_last()[i] == part);
        text::held_parts_divide_a_text(head, part);
        let k = choose|k: int|
            0 <= k <= head.len() - part.len() && head == #[trigger] head.take(k) + part + head.skip(
                k + part.len(),
            );
        let tail = head.skip(k + part.len()) + sep + parts.last();
        text::texts_hold_their_parts(head.take(k), part, tail);
        assert(head.take(k) + part + tail =~= whole);
    }
}

/// The summary of a workspace that may be written names every root of it, each as what it is: the
/// working directory, a directory for temporary files, or its path.
pub proof fn summaries_name_every_root(
    file_system: ManagedFileSystem,
    network_enabled: bool,
    cwd: Seq<char>,
    temp_dir: Seq<char>,
    i: int,
)
    requires
        !file_system.full_disk_write,
        0 <= i < file_system.writable_roots@.len(),
    ensures
        ({
            let summary = managed_summary(file_system, network_enabled, cwd, temp_dir);
            let root = file_system.writable_roots@[i]@;
            &&& paths::same_path(root, cwd) ==> text::has_sub(summary, "workdir"@)
            &&& !paths::same_path(root, cwd) && paths::same_path(root, "/tmp"@) ==> text::has_sub(
                summary,
                "/tmp"@,
            )
            &&& !paths::same_path(root, cwd) && !paths::same_path(root, "/tmp"@)
                && paths::same_path(root, temp_dir) ==> text::has_sub(summary, "$TMPDIR"@)
            &&& !paths::same_path(root, cwd) && !paths::same_path(root, "/tmp"@)
                && !paths::same_path(root, temp_dir) ==> text::has_sub(summary, root)
            &&& text::has_prefix(summary, "workspace-write ["@)
            &&& network_enabled ==> text::has_suffix(summary, " (network access enabled)"@)
            &&& !network_enabled ==> summary.last() == ']'
        }),
{
    let roots = text::string_views(file_system.writable_roots@);
    let root = file_system.writable_roots@[i]@;
    let shown = root_displays(roots, cwd, temp_dir);
    let list = text::join(shown, ", "@);
    let summary = managed_summary(file_system, network_enabled, cwd, temp_dir);
    let head = "workspace-write ["@;
    let end = " (network access enabled)"@;
    let tail = seq![']'] + if network_enabled {
        end
    } else {
        Seq::empty()
    };
    assert(roots[i] == root);
    assert(summary =~= head + list + tail);
    lemma_list_holds(head, shown, ", "@, tail, i);
    assert(shown[i] == root_display(root, cwd, temp_dir));
    lemma_begins(head, list, tail);
    if network_enabled {
        text::texts_hold_their_parts((head + list).push(']'), end, Seq::empty());
        assert(summary =~= (head + list).push(']') + end);
    } else {
        assert(summary.last() == ']');
    }
}

proof fn lemma_begins(head: Seq<char>, list: Seq<char>, tail: Seq<char>)
    ensures
        text::has_prefix(head + list + tail, head),
{
    text::texts_hold_their_parts(Seq::empty(), head, list + tail);
    assert(head + (list + tail) =~= head + list + tail);
}

proof fn lemma_list_holds(
    head: Seq<char>,
    shown: Seq<Seq<char>>,
    sep: Seq<char>,
    tail: Seq<char>,
    i: int,
)
    requires
        0 <= i < shown.len(),
    ensures
        text::has_sub(head + text::join(shown, sep) + tail, shown[i]),
{
    let list = text::join(shown, sep);
    let part = shown[i];
    lemma_join_holds(shown, sep, i);
    text::held_parts_divide_a_text(list, part);
    let k = choose|k: int|
        0 <= k <= list.len() - part.len() && list == #[trigger] list.take(k) + part + list.skip(
            k + part.len(),
        );
    let before = head + list.take(k);
    let behind = list.skip(k + part.len()) + tail;
    text::texts_hold_their_parts(before, part, behind);
    assert(before + part + behind =~= head + list + tail);
}

} // verus!
