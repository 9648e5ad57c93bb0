//! Conversion of HFS paths into POSIX paths.
//!
//! Some Mac OS APIs use HFS paths, which use `:` as a directory separator and
//! start with a volume name. [`convert_path`] turns them into standard paths
//! that start with `/` and use `/` as the separator, given the entries of the
//! mount directory that the caller has read.
use vstd::prelude::*;

pub mod error;
pub mod segment;
pub mod volume;

pub use error::Error;
pub use volume::{MountEntry, MOUNT_DIR};

use segment::{escape, escape_segment, split_hfs, split_segments, string_views};
use volume::{find_volume, join_component, join_path, resolve_volume};

verus! {

/// The name that the volume of `path` is looked up by: its first segment,
/// with `/` escaped as in every other segment.
pub open spec fn volume_name(path: Seq<char>) -> Seq<char> {
    escape(split_hfs(path)[0])
}

/// `root` with each of `segs`, escaped, appended as one more component.
pub open spec fn compose(root: Seq<char>, segs: Seq<Seq<char>>) -> Seq<char>
    decreases segs.len(),
{
    if segs.len() == 0 {
        root
    } else {
        join_path(compose(root, segs.drop_last()), escape(segs.last()))
    }
}

/// The POSIX form of `path` under the mount directory `registry`, or `None`
/// when no entry there bears the volume's name.
pub open spec fn converted(path: Seq<char>, registry: Seq<MountEntry>) -> Option<Seq<char>> {
    match resolve_volume(registry, volume_name(path)) {
        Some(root) => Some(compose(root, split_hfs(path).drop_first())),
        None => None,
    }
}

/// A path without `:` names a volume only: that volume is looked up by the
/// whole path, escaped, and the result is its root with nothing appended.
pub proof fn lemma_volume_only(path: Seq<char>, registry: Seq<MountEntry>)
    requires
        !path.contains(':'),
    ensures
        volume_name(path) == escape(path),
        converted(path, registry) == resolve_volume(registry, escape(path)),
{
    segment::lemma_split_without_separator(path);
    assert(split_hfs(path).drop_first() =~= Seq::<Seq<char>>::empty());
}

/// The outcome depends only on the characters of the path and on the names
/// and link targets listed in the mount directory: two conversions of the
/// same path under the same listing agree.
pub proof fn lemma_deterministic(
    path1: Seq<char>,
    path2: Seq<char>,
    registry1: Seq<MountEntry>,
    registry2: Seq<MountEntry>,
)
    requires
        path1 == path2,
        volume::same_entries(registry1, registry2),
    ensures
        converted(path1, registry1) == converted(path2, registry2),
{
    volume::lemma_resolve_same_entries(registry1, registry2, volume_name(path1));
}

/// When no entry bears the volume's name the conversion fails, whatever other
/// entries the mount directory holds; [`convert_path`] then reports
/// `VolumeNotFound` with that name.
pub proof fn lemma_volume_not_found(path: Seq<char>, registry: Seq<MountEntry>)
    requires
        forall|i: int| 0 <= i < registry.len() ==> registry[i].name@ != volume_name(path),
    ensures
        converted(path, registry) is None,
{
    volume::lemma_absent_volume(registry, volume_name(path));
}

/// Converts the HFS path `path` into a POSIX path, resolving its volume
/// among the entries `registry` of the mount directory.
pub fn convert_path(path: &str, registry: &Vec<MountEntry>) -> (r: Result<String, Error>)
    ensures
        match converted(path@, registry@) {
            Some(p) => r is Ok && r->Ok_0@ == p,
            None => r is Err && r->Err_0 is VolumeNotFound && r->Err_0->VolumeNotFound_0@
                == volume_name(path@),
        },
{
    let segs = split_segments(path);
    proof {
        segment::lemma_split_nonempty(path@);
    }
    if segs.len() == 0 {
        return Err(Error::InvalidHfsPath);
    }
    let ghost parts = split_hfs(path@);
    assert(segs@[0]@ == parts[0]);
    let volume = escape_segment(segs[0].as_str());
    let root = match find_volume(volume.as_str(), registry) {
        Ok(root) => root,
        Err(e) => return Err(e),
    };
    let ghost root0 = root@;
    let mut out = root;
    let mut i: usize = 1;
    assert(parts.subrange(1, 1) =~= Seq::<Seq<char>>::empty());
    while i < segs.len()
        invariant
            1 <= i <= segs@.len(),
            string_views(segs@) == parts,
            out@ == compose(root0, parts.subrange(1, i as int)),
        decreases segs.len() - i,
    {
        assert(segs@[i as int]@ == parts[i as int]);
        let comp = escape_segment(segs[i].as_str());
        out = join_component(out, comp.as_str());
        assert(parts.subrange(1, i + 1).drop_last() =~= parts.subrange(1, i as int));
        i = i + 1;
    }
    assert(parts.subrange(1, i as int) =~= parts.drop_first());
    Ok(out)
}

} // verus!
