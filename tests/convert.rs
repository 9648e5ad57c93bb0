use hfs_paths::volume::{find_volume, join_component};
use hfs_paths::segment::{escape_segment, split_segments};
use hfs_paths::{convert_path, Error, MountEntry, MOUNT_DIR};

fn link(name: &str, target: &str) -> MountEntry {
    MountEntry { name: name.to_string(), link_target: Some(target.to_string()) }
}

fn dir(name: &str) -> MountEntry {
    MountEntry { name: name.to_string(), link_target: None }
}

/// A mount directory laid out as on a typical Mac with a Boot Camp partition.
fn mac_volumes() -> Vec<MountEntry> {
    vec![link("Macintosh SSD", "/"), dir("BOOTCAMP")]
}

#[test]
fn test_paths() {
    let volumes = mac_volumes();
    let tests = [
        ("Macintosh SSD:folder1:file", "/folder1/file"),
        ("Macintosh SSD", "/"),
        ("Macintosh SSD:folder/with/slashes:file.txt", "/folder:with:slashes/file.txt"),
        ("BOOTCAMP:Intel:Logs:IntelGFX.log", "/Volumes/BOOTCAMP/Intel/Logs/IntelGFX.log"),
    ];
    for &(hfs, expected) in tests.iter() {
        let actual = convert_path(hfs, &volumes).unwrap();
        assert_eq!(expected, &actual);
    }
}

#[test]
fn root_volume_with_components() {
    assert_eq!(convert_path("Macintosh SSD:folder1:file", &mac_volumes()).unwrap(), "/folder1/file");
}

#[test]
fn volume_name_alone_is_its_root() {
    assert_eq!(convert_path("Macintosh SSD", &mac_volumes()).unwrap(), "/");
    assert_eq!(convert_path("BOOTCAMP", &mac_volumes()).unwrap(), "/Volumes/BOOTCAMP");
}

#[test]
fn slashes_inside_names_become_colons() {
    let out = convert_path("Macintosh SSD:folder/with/slashes:file.txt", &mac_volumes()).unwrap();
    assert_eq!(out, "/folder:with:slashes/file.txt");
}

#[test]
fn plain_entry_lies_under_mount_dir() {
    let out = convert_path("BOOTCAMP:Intel:Logs:IntelGFX.log", &mac_volumes()).unwrap();
    assert_eq!(out, "/Volumes/BOOTCAMP/Intel/Logs/IntelGFX.log");
    assert_eq!(MOUNT_DIR, "/Volumes");
}

#[test]
fn missing_volume_is_reported_by_name() {
    match convert_path("Ghost:file", &mac_volumes()) {
        Err(Error::VolumeNotFound(name)) => assert_eq!(name, "Ghost"),
        other => panic!("unexpected result: {:?}", other),
    }
}

#[test]
fn missing_volume_among_many_entries() {
    let mut volumes = Vec::new();
    for k in 0..50 {
        volumes.push(dir(&format!("Disk {}", k)));
    }
    match convert_path("Ghost:file", &volumes) {
        Err(Error::VolumeNotFound(name)) => assert_eq!(name, "Ghost"),
        other => panic!("unexpected result: {:?}", other),
    }
}

#[test]
fn empty_path_looks_up_empty_name() {
    match convert_path("", &mac_volumes()) {
        Err(Error::VolumeNotFound(name)) => assert_eq!(name, ""),
        other => panic!("unexpected result: {:?}", other),
    }
}

#[test]
fn volume_name_is_escaped_before_lookup() {
    let volumes = vec![dir("A:B")];
    assert_eq!(convert_path("A/B:x", &volumes).unwrap(), "/Volumes/A:B/x");
    match convert_path("A:B", &volumes) {
        Err(Error::VolumeNotFound(name)) => assert_eq!(name, "A"),
        other => panic!("unexpected result: {:?}", other),
    }
}

#[test]
fn lookup_is_exact_and_case_sensitive() {
    match convert_path("bootcamp:x", &mac_volumes()) {
        Err(Error::VolumeNotFound(name)) => assert_eq!(name, "bootcamp"),
        other => panic!("unexpected result: {:?}", other),
    }
}

#[test]
fn symlink_followed_one_level_only() {
    // The target is itself the name of a link; it is returned as it is.
    let volumes = vec![link("Data", "/Volumes/Other"), link("Other", "/mnt/real")];
    assert_eq!(convert_path("Data:f", &volumes).unwrap(), "/Volumes/Other/f");
}

#[test]
fn first_matching_entry_wins() {
    let volumes = vec![dir("Skip"), link("Vol", "/first"), link("Vol", "/second")];
    assert_eq!(find_volume("Vol", &volumes).unwrap(), "/first");
}

#[test]
fn repeated_conversion_gives_same_result() {
    let a = convert_path("BOOTCAMP:x:y", &mac_volumes()).unwrap();
    let b = convert_path("BOOTCAMP:x:y", &mac_volumes()).unwrap();
    assert_eq!(a, b);
}

#[test]
fn empty_segments_become_empty_components() {
    assert_eq!(convert_path("BOOTCAMP::x", &mac_volumes()).unwrap(), "/Volumes/BOOTCAMP/x");
    assert_eq!(convert_path("BOOTCAMP:x:", &mac_volumes()).unwrap(), "/Volumes/BOOTCAMP/x/");
}

#[test]
fn split_keeps_empty_segments() {
    assert_eq!(split_segments("a::b"), vec!["a", "", "b"]);
    assert_eq!(split_segments(""), vec![""]);
    assert_eq!(split_segments(":"), vec!["", ""]);
    assert_eq!(split_segments("Vol"), vec!["Vol"]);
}

#[test]
fn escape_replaces_every_slash() {
    assert_eq!(escape_segment("folder/with/slashes"), "folder:with:slashes");
    assert_eq!(escape_segment("/"), ":");
    assert_eq!(escape_segment("plain"), "plain");
    assert_eq!(escape_segment("é/ü"), "é:ü");
}

#[test]
fn join_adds_separator_only_when_needed() {
    assert_eq!(join_component("/".to_string(), "a"), "/a");
    assert_eq!(join_component("/x".to_string(), "a"), "/x/a");
    assert_eq!(join_component("".to_string(), "a"), "a");
    assert_eq!(join_component("/x".to_string(), ""), "/x/");
}

#[test]
fn error_messages() {
    assert_eq!(Error::InvalidHfsPath.message(), "Invalid HFS path format");
    assert_eq!(Error::VolumeNotFound("Ghost".to_string()).message(), "Volume Ghost not found");
    let io = Error::Io(std::io::Error::new(std::io::ErrorKind::Other, "x"));
    assert_eq!(io.message(), "I/O error");
}
