//! Finding the POSIX root of a mounted volume by its name.
use vstd::prelude::*;

use crate::error::Error;

verus! {

/// The directory in which the system lists the mounted volumes.
pub const MOUNT_DIR: &'static str = "/Volumes";

/// One entry of the mount directory, as read from the file system.
pub struct MountEntry {
    /// The entry's file name.
    pub name: String,
    /// Where the entry points, when it is a symbolic link.
    pub link_target: Option<String>,
}

/// `comp` appended to `base` as one more path component: a `/` is put
/// between them unless `base` is empty or already ends in `/`.
pub open spec fn join_path(base: Seq<char>, comp: Seq<char>) -> Seq<char> {
    if base.len() > 0 && base.last() != '/' {
        base + seq!['/'] + comp
    } else {
        base + comp
    }
}

/// The root of the volume that `e` stands for: the link's own target for a
/// symbolic link (followed one level only), else the entry's path inside the
/// mount directory.
pub open spec fn entry_root(e: MountEntry) -> Seq<char> {
    match e.link_target {
        Some(t) => t@,
        None => join_path(MOUNT_DIR@, e.name@),
    }
}

/// The root given by the first entry named exactly `name`, if any.
pub open spec fn resolve_volume(registry: Seq<MountEntry>, name: Seq<char>) -> Option<Seq<char>>
    decreases registry.len(),
{
    if registry.len() == 0 {
        None
    } else if registry[0].name@ == name {
        Some(entry_root(registry[0]))
    } else {
        resolve_volume(registry.drop_first(), name)
    }
}

/// Where `e` points, as characters, when it is a symbolic link.
pub open spec fn link_view(e: MountEntry) -> Option<Seq<char>> {
    match e.link_target {
        Some(t) => Some(t@),
        None => None,
    }
}

/// Two listings of the mount directory that hold the same names and link
/// targets, in the same order.
pub open spec fn same_entries(a: Seq<MountEntry>, b: Seq<MountEntry>) -> bool {
    &&& a.len() == b.len()
    &&& forall|i: int|
        0 <= i < a.len() ==> a[i].name@ == b[i].name@ && link_view(a[i]) == link_view(b[i])
}

/// The first entry named `name` decides the root, whatever follows it.
pub proof fn lemma_first_match(registry: Seq<MountEntry>, name: Seq<char>, i: int)
    requires
        0 <= i < registry.len(),
        registry[i].name@ == name,
        forall|j: int| 0 <= j < i ==> registry[j].name@ != name,
    ensures
        resolve_volume(registry, name) == Some(entry_root(registry[i])),
    decreases i,
{
    if i > 0 {
        let rest = registry.drop_first();
        assert forall|j: int| 0 <= j < i - 1 implies rest[j].name@ != name by {
            assert(rest[j] == registry[j + 1]);
        }
        lemma_first_match(rest, name, i - 1);
    }
}

/// When the first entry named `name` is a symbolic link, the volume's root is
/// the link's immediate target, taken as it is, even if that is itself a link.
pub proof fn lemma_symlink_root(registry: Seq<MountEntry>, name: Seq<char>, i: int)
    requires
        0 <= i < registry.len(),
        registry[i].name@ == name,
        registry[i].link_target is Some,
        forall|j: int| 0 <= j < i ==> registry[j].name@ != name,
    ensures
        resolve_volume(registry, name) == Some(registry[i].link_target->0@),
{
    lemma_first_match(registry, name, i);
}

/// A name that no entry bears is never resolved.
pub proof fn lemma_absent_volume(registry: Seq<MountEntry>, name: Seq<char>)
    requires
        forall|i: int| 0 <= i < registry.len() ==> registry[i].name@ != name,
    ensures
        resolve_volume(registry, name) is None,
    decreases registry.len(),
{
    if registry.len() > 0 {
        let rest = registry.drop_first();
        assert forall|i: int| 0 <= i < rest.len() implies rest[i].name@ != name by {
            assert(rest[i] == registry[i + 1]);
        }
        lemma_absent_volume(rest, name);
    }
}

/// Entries of other names, however many and wherever they stand, do not
/// change how `name` resolves.
pub proof fn lemma_other_entries_irrelevant(
    registry: Seq<MountEntry>,
    others: Seq<MountEntry>,
    name: Seq<char>,
)
    requires
        forall|i: int| 0 <= i < others.len() ==> others[i].name@ != name,
    ensures
        resolve_volume(registry + others, name) == resolve_volume(registry, name),
        resolve_volume(others + registry, name) == resolve_volume(registry, name),
    decreases registry.len() + others.len(),
{
    if registry.len() > 0 {
        let rest = registry.drop_first();
        assert((registry + others).drop_first() =~= rest + others);
        assert((registry + others)[0] == registry[0]);
        lemma_other_entries_irrelevant(rest, others, name);
    } else {
        assert(registry + others =~= others);
        lemma_absent_volume(others, name);
    }
    if others.len() > 0 {
        let rest = others.drop_first();
        assert((others + registry).drop_first() =~= rest + registry);
        assert((others + registry)[0] == others[0]);
        assert forall|i: int| 0 <= i < rest.len() implies rest[i].name@ != name by {
            assert(rest[i] == others[i + 1]);
        }
        lemma_other_entries_irrelevant(registry, rest, name);
    } else {
        assert(others + registry =~= registry);
    }
}

/// The root found depends only on the names and link targets listed.
pub proof fn lemma_resolve_same_entries(a: Seq<MountEntry>, b: Seq<MountEntry>, name: Seq<char>)
    requires
        same_entries(a, b),
    ensures
        resolve_volume(a, name) == resolve_volume(b, name),
    decreases a.len(),
{
    if a.len() > 0 {
        assert(a[0].name@ == b[0].name@ && link_view(a[0]) == link_view(b[0]));
        assert(entry_root(a[0]) == entry_root(b[0]));
        let (ra, rb) = (a.drop_first(), b.drop_first());
        assert forall|i: int| 0 <= i < ra.len() implies ra[i].name@ == rb[i].name@ && link_view(
            ra[i],
        ) == link_view(rb[i]) by {
            assert(ra[i] == a[i + 1] && rb[i] == b[i + 1]);
        }
        lemma_resolve_same_entries(ra, rb, name);
    }
}

/// Appends `comp` to `base` as one more path component.
pub fn join_component(base: String, comp: &str) -> (r: String)
    ensures
        r@ == join_path(base@, comp@),
{
    let mut base = base;
    let n = base.as_str().unicode_len();
    if n > 0 && base.as_str().get_char(n - 1) != '/' {
        base.append("/");
        proof {
            reveal_strlit("/");
        }
    }
    base.append(comp);
    base
}

/// The path of the mount-directory entry called `name`.
fn mount_entry_path(name: &str) -> (r: String)
    ensures
        r@ == join_path(MOUNT_DIR@, name@),
{
    join_component(String::from_str(MOUNT_DIR), name)
}

/// Looks for the volume called `name` among the entries of the mount
/// directory and returns the path of its root.
pub fn find_volume(name: &str, registry: &Vec<MountEntry>) -> (r: Result<String, Error>)
    ensures
        match resolve_volume(registry@, name@) {
            Some(root) => r is Ok && r->Ok_0@ == root,
            None => r is Err && r->Err_0 is VolumeNotFound && r->Err_0->VolumeNotFound_0@
                == name@,
        },
{
    let wanted = String::from_str(name);
    let mut i: usize = 0;
    assert(registry@.skip(0) =~= registry@);
    while i < registry.len()
        invariant
            wanted@ == name@,
            i <= registry@.len(),
            resolve_volume(registry@, name@) == resolve_volume(registry@.skip(i as int), name@),
        decreases registry.len() - i,
    {
        let entry = &registry[i];
        assert(registry@.skip(i as int)[0] == registry@[i as int]);
        if entry.name == wanted {
            let root = match &entry.link_target {
                Some(target) => target.clone(),
                None => mount_entry_path(name),
            };
            return Ok(root);
        }
        assert(registry@.skip(i as int).drop_first() =~= registry@.skip(i + 1));
        i = i + 1;
    }
    assert(registry@.skip(i as int) =~= Seq::<MountEntry>::empty());
    Err(Error::VolumeNotFound(wanted))
}

} // verus!
