use colcon_scan::manifest::{ExportFields, ManifestFields, ManifestProbe};
use colcon_scan::package::Entry;
use colcon_scan::scan::DirFacts;
use colcon_scan::walk::{find_packages, find_wrapper, UnreadableRoot};
use std::collections::HashMap;

/// A disk made up for a test: the facts about each path, and for each
/// directory that can be read the paths of its children in listing order.
struct FakeDisk {
    facts: HashMap<String, DirFacts>,
    children: HashMap<String, Vec<String>>,
    listed: Vec<String>,
}

impl FakeDisk {
    fn new() -> FakeDisk {
        FakeDisk { facts: HashMap::new(), children: HashMap::new(), listed: Vec::new() }
    }

    fn base_name(path: &str) -> Option<String> {
        if path == "." || path == "/" {
            None
        } else {
            path.rsplit('/').next().map(|s| s.to_string())
        }
    }

    fn add(&mut self, path: &str, is_dir: bool, markers: &[&str], manifest: ManifestProbe) {
        self.facts.insert(
            path.to_string(),
            DirFacts {
                path: path.to_string(),
                is_dir,
                base_name: FakeDisk::base_name(path),
                markers: markers.iter().map(|m| m.to_string()).collect(),
                manifest,
            },
        );
    }

    fn dir(&mut self, path: &str, children: &[&str]) {
        self.add(path, true, &[], ManifestProbe::Missing);
        self.children
            .insert(path.to_string(), children.iter().map(|c| c.to_string()).collect());
    }

    fn unreadable_dir(&mut self, path: &str) {
        self.add(path, true, &[], ManifestProbe::Missing);
    }

    fn marked_dir(&mut self, path: &str, marker: &str, children: &[&str]) {
        self.add(path, true, &[marker], ManifestProbe::Missing);
        self.children
            .insert(path.to_string(), children.iter().map(|c| c.to_string()).collect());
    }

    fn package(&mut self, path: &str, name: &str, build_type: Option<&str>, children: &[&str]) {
        let export = build_type.map(|b| ExportFields { build_type: Some(b.to_string()) });
        let manifest = ManifestProbe::Parsed(ManifestFields { name: name.to_string(), export });
        self.add(path, true, &[], manifest);
        self.children
            .insert(path.to_string(), children.iter().map(|c| c.to_string()).collect());
    }

    fn broken_package(&mut self, path: &str, children: &[&str]) {
        self.add(path, true, &[], ManifestProbe::Rejected("not well-formed".to_string()));
        self.children
            .insert(path.to_string(), children.iter().map(|c| c.to_string()).collect());
    }

    fn file(&mut self, path: &str) {
        self.add(path, false, &[], ManifestProbe::Missing);
    }

    fn inspect(&self, path: &str) -> DirFacts {
        match self.facts.get(path) {
            Some(facts) => facts.clone(),
            None => DirFacts {
                path: path.to_string(),
                is_dir: false,
                base_name: FakeDisk::base_name(path),
                markers: vec![],
                manifest: ManifestProbe::Missing,
            },
        }
    }

    fn list(&mut self, path: &str) -> Option<Vec<DirFacts>> {
        self.listed.push(path.to_string());
        let children = self.children.get(path)?.clone();
        Some(children.iter().map(|c| self.inspect(c)).collect())
    }

    fn walk(&mut self, root: &str, recurse: bool) -> Result<Vec<Entry>, UnreadableRoot> {
        let mut results = Vec::new();
        let mut walk = find_wrapper(&self.inspect(root), &mut results, recurse);
        let mut steps = 0;
        while let Some(dir) = walk.pending_dir() {
            let listing = self.list(&dir);
            find_packages(&mut walk, listing, &mut results)?;
            steps += 1;
            assert!(steps < 1000, "the walk does not end");
        }
        Ok(results)
    }
}

fn found(entries: &[Entry]) -> Vec<(String, String)> {
    entries.iter().map(|e| (e.pkg.name.clone(), e.path.clone())).collect()
}

fn pair(name: &str, path: &str) -> (String, String) {
    (name.to_string(), path.to_string())
}

fn sample_workspace() -> FakeDisk {
    let mut disk = FakeDisk::new();
    disk.dir("/ws", &["/ws/readme.md", "/ws/src", "/ws/top", "/ws/.git", "/ws/skip", "/ws/last"]);
    disk.file("/ws/readme.md");
    disk.dir("/ws/src", &["/ws/src/b", "/ws/src/deep", "/ws/src/a"]);
    disk.package("/ws/src/b", "b", Some("cmake"), &["/ws/src/b/nested"]);
    disk.package("/ws/src/b/nested", "nested", None, &[]);
    disk.dir("/ws/src/deep", &["/ws/src/deep/er"]);
    disk.dir("/ws/src/deep/er", &["/ws/src/deep/er/c"]);
    disk.package("/ws/src/deep/er/c", "c", None, &[]);
    disk.package("/ws/src/a", "a", None, &[]);
    disk.package("/ws/top", "top", Some("ament_cmake"), &[]);
    disk.package("/ws/.git", "hidden", None, &[]);
    disk.marked_dir("/ws/skip", "CATKIN_IGNORE", &["/ws/skip/inner"]);
    disk.package("/ws/skip/inner", "inner", None, &[]);
    disk.package("/ws/last", "last", None, &[]);
    disk
}

#[test]
fn recursive_walk_finds_packages_depth_first_in_listing_order() {
    let mut disk = sample_workspace();
    let entries = disk.walk("/ws", true).unwrap();
    assert_eq!(
        found(&entries),
        vec![
            pair("b", "/ws/src/b"),
            pair("c", "/ws/src/deep/er/c"),
            pair("a", "/ws/src/a"),
            pair("top", "/ws/top"),
            pair("last", "/ws/last"),
        ]
    );
}

#[test]
fn walk_lists_only_directories_that_are_searched_further() {
    let mut disk = sample_workspace();
    disk.walk("/ws", true).unwrap();
    assert_eq!(disk.listed, vec!["/ws", "/ws/src", "/ws/src/deep", "/ws/src/deep/er"]);
}

#[test]
fn flat_walk_looks_at_the_children_of_the_root_only() {
    let mut disk = sample_workspace();
    let entries = disk.walk("/ws", false).unwrap();
    assert_eq!(found(&entries), vec![pair("top", "/ws/top"), pair("last", "/ws/last")]);
    assert_eq!(disk.listed, vec!["/ws"]);
}

#[test]
fn package_directory_named_as_root_is_found_itself() {
    let mut disk = sample_workspace();
    let entries = disk.walk("/ws/src/b", false).unwrap();
    // The root is reported, and its children are looked at as well.
    assert_eq!(found(&entries), vec![pair("b", "/ws/src/b"), pair("nested", "/ws/src/b/nested")]);
    assert_eq!(entries[0].pkg.export.build_type, "cmake");
    assert_eq!(entries[1].pkg.export.build_type, "ros.catkin");
}

#[test]
fn ignored_root_still_has_its_children_looked_at() {
    let mut disk = sample_workspace();
    let entries = disk.walk("/ws/skip", true).unwrap();
    assert_eq!(found(&entries), vec![pair("inner", "/ws/skip/inner")]);
}

#[test]
fn root_that_is_no_directory_gives_nothing() {
    let mut disk = sample_workspace();
    assert!(disk.walk("/ws/readme.md", true).unwrap().is_empty());
    assert!(disk.walk("/nowhere", true).unwrap().is_empty());
    assert!(disk.listed.is_empty());
}

#[test]
fn unreadable_root_is_an_error() {
    let mut disk = FakeDisk::new();
    disk.unreadable_dir("/locked");
    let failure = disk.walk("/locked", true).unwrap_err();
    assert_eq!(failure.path, "/locked");
}

#[test]
fn unreadable_directory_below_the_root_is_passed_over() {
    let mut disk = FakeDisk::new();
    disk.dir("/ws", &["/ws/a", "/ws/locked", "/ws/z"]);
    disk.package("/ws/a", "a", None, &[]);
    disk.unreadable_dir("/ws/locked");
    disk.package("/ws/z", "z", None, &[]);
    let entries = disk.walk("/ws", true).unwrap();
    assert_eq!(found(&entries), vec![pair("a", "/ws/a"), pair("z", "/ws/z")]);
    assert_eq!(disk.listed, vec!["/ws", "/ws/locked"]);
}

#[test]
fn directory_with_rejected_manifest_is_searched_further() {
    let mut disk = FakeDisk::new();
    disk.dir("/ws", &["/ws/broken"]);
    disk.broken_package("/ws/broken", &["/ws/broken/inner"]);
    disk.package("/ws/broken/inner", "inner", None, &[]);
    let entries = disk.walk("/ws", true).unwrap();
    assert_eq!(found(&entries), vec![pair("inner", "/ws/broken/inner")]);
    let mut flat = FakeDisk::new();
    flat.dir("/ws", &["/ws/broken"]);
    flat.broken_package("/ws/broken", &["/ws/broken/inner"]);
    flat.package("/ws/broken/inner", "inner", None, &[]);
    assert!(flat.walk("/ws", false).unwrap().is_empty());
}

#[test]
fn listing_without_a_pending_directory_changes_nothing() {
    let mut disk = sample_workspace();
    let mut results = Vec::new();
    let mut walk = find_wrapper(&disk.inspect("/ws/readme.md"), &mut results, true);
    assert_eq!(walk.pending_dir(), None);
    let listing = disk.list("/ws");
    assert!(find_packages(&mut walk, listing, &mut results).is_ok());
    assert_eq!(walk.pending_dir(), None);
    assert!(results.is_empty());
    assert!(find_packages(&mut walk, None, &mut results).is_ok());
}

#[test]
fn results_are_added_behind_what_was_found_before() {
    let mut disk = sample_workspace();
    let mut results = disk.walk("/ws/top", false).unwrap();
    let mut walk = find_wrapper(&disk.inspect("/ws/last"), &mut results, false);
    while let Some(dir) = walk.pending_dir() {
        let listing = disk.list(&dir);
        find_packages(&mut walk, listing, &mut results).unwrap();
    }
    assert_eq!(found(&results), vec![pair("top", "/ws/top"), pair("last", "/ws/last")]);
}
