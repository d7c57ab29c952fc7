use colcon_scan::aggregate::aggregate;
use colcon_scan::collect::{collect_packages_from_args, Collector, ScanRequest};
use colcon_scan::listing::{list_lines, ListOptions};
use colcon_scan::manifest::{ExportFields, ManifestFields, ManifestProbe};
use colcon_scan::normalize::{unique_neighbours, NamedPaths};
use colcon_scan::package::Entry;
use colcon_scan::scan::DirFacts;
use colcon_scan::walk::UnreadableRoot;
use std::collections::HashMap;

/// A workspace made up for a test.
struct Workspace {
    facts: HashMap<String, DirFacts>,
    children: HashMap<String, Vec<String>>,
    aliases: HashMap<String, String>,
    working_dir: Option<String>,
    asked: Vec<String>,
}

impl Workspace {
    fn new() -> Workspace {
        Workspace {
            facts: HashMap::new(),
            children: HashMap::new(),
            aliases: HashMap::new(),
            working_dir: None,
            asked: Vec::new(),
        }
    }

    fn put(&mut self, path: &str, markers: &[&str], manifest: ManifestProbe, children: &[&str]) {
        let base_name = if path == "." { None } else { path.rsplit('/').next().map(|s| s.to_string()) };
        self.facts.insert(
            path.to_string(),
            DirFacts {
                path: path.to_string(),
                is_dir: true,
                base_name,
                markers: markers.iter().map(|m| m.to_string()).collect(),
                manifest,
            },
        );
        self.children
            .insert(path.to_string(), children.iter().map(|c| c.to_string()).collect());
    }

    fn dir(&mut self, path: &str, children: &[&str]) {
        self.put(path, &[], ManifestProbe::Missing, children);
    }

    fn package(&mut self, path: &str, name: &str, build_type: Option<&str>, markers: &[&str], children: &[&str]) {
        let export = build_type.map(|b| ExportFields { build_type: Some(b.to_string()) });
        let manifest = ManifestProbe::Parsed(ManifestFields { name: name.to_string(), export });
        self.put(path, markers, manifest, children);
    }

    fn alias(&mut self, name: &str, canonical: &str) {
        self.aliases.insert(name.to_string(), canonical.to_string());
    }

    fn canonical(&self, path: &str) -> Option<String> {
        if let Some(target) = self.aliases.get(path) {
            return Some(target.clone());
        }
        if self.facts.contains_key(path) && path.starts_with('/') {
            return Some(path.to_string());
        }
        None
    }

    fn named(&self, raw: &[&str]) -> NamedPaths {
        let raw: Vec<String> = raw.iter().map(|s| s.to_string()).collect();
        let canonical = unique_neighbours(&raw).iter().map(|p| self.canonical(p)).collect();
        NamedPaths { raw, canonical }
    }

    fn inspect(&self, path: &str) -> DirFacts {
        match self.facts.get(path) {
            Some(facts) => facts.clone(),
            None => DirFacts {
                path: path.to_string(),
                is_dir: false,
                base_name: path.rsplit('/').next().map(|s| s.to_string()),
                markers: vec![],
                manifest: ManifestProbe::Missing,
            },
        }
    }

    fn run(&mut self, mut collector: Collector) -> Result<Vec<Entry>, UnreadableRoot> {
        let mut steps = 0;
        loop {
            match collector.request() {
                ScanRequest::Inspect(path) => {
                    self.asked.push(format!("inspect {}", path));
                    collector.inspected(&self.inspect(&path));
                }
                ScanRequest::List(path) => {
                    self.asked.push(format!("list {}", path));
                    let listing = self
                        .children
                        .get(&path)
                        .map(|children| children.iter().map(|c| self.inspect(c)).collect());
                    collector.listed(listing);
                }
                ScanRequest::Done => break,
            }
            steps += 1;
            assert!(steps < 1000, "the collection does not end");
        }
        assert!(collector.is_done());
        collector.finish()
    }

    fn collect(&mut self, paths: &[&str], bases: &[&str]) -> Result<Vec<Entry>, UnreadableRoot> {
        let collector =
            collect_packages_from_args(&self.named(paths), &self.named(bases), &self.working_dir);
        self.run(collector)
    }
}

fn full_lines(entries: &Vec<Entry>) -> Vec<String> {
    list_lines(&aggregate(entries), &ListOptions { names_only: false, paths_only: false })
}

fn names_and_paths(entries: &[Entry]) -> Vec<(String, String)> {
    entries.iter().map(|e| (e.pkg.name.clone(), e.path.clone())).collect()
}

fn name_at(name: &str, path: &str) -> (String, String) {
    (name.to_string(), path.to_string())
}

#[test]
fn package_with_dot_directory_is_listed_once() {
    let mut ws = Workspace::new();
    ws.dir("/ws", &["/ws/pkgA"]);
    ws.package("/ws/pkgA", "a", None, &[], &["/ws/pkgA/.git", "/ws/pkgA/package.xml"]);
    ws.dir("/ws/pkgA/.git", &[]);
    let entries = ws.collect(&[], &["/ws"]).unwrap();
    assert_eq!(full_lines(&entries), vec!["a\t/ws/pkgA\t(ros.catkin)"]);
    assert_eq!(ws.asked, vec!["inspect /ws", "list /ws"]);
}

#[test]
fn package_with_ignore_marker_is_not_listed() {
    let mut ws = Workspace::new();
    ws.dir("/ws", &["/ws/pkgB"]);
    ws.package("/ws/pkgB", "b", None, &["COLCON_IGNORE"], &["/ws/pkgB/inner"]);
    ws.package("/ws/pkgB/inner", "inner", None, &[], &[]);
    let entries = ws.collect(&[], &["/ws"]).unwrap();
    assert!(full_lines(&entries).is_empty());
    assert_eq!(ws.asked, vec!["inspect /ws", "list /ws"]);
}

#[test]
fn two_names_for_one_root_give_one_entry() {
    let mut ws = Workspace::new();
    ws.dir("/ws", &["/ws/pkgC"]);
    ws.package("/ws/pkgC", "c", Some("cmake"), &[], &[]);
    ws.alias("ws", "/ws");
    ws.alias("./ws", "/ws");
    // Neighbours that resolve to one directory are searched once.
    let entries = ws.collect(&[], &["ws", "./ws"]).unwrap();
    assert_eq!(names_and_paths(&entries), vec![name_at("c", "/ws/pkgC")]);
    assert_eq!(full_lines(&entries), vec!["c\t/ws/pkgC\t(cmake)"]);
}

#[test]
fn one_root_named_twice_apart_is_merged_by_the_listing() {
    let mut ws = Workspace::new();
    ws.dir("/ws", &["/ws/pkgC"]);
    ws.package("/ws/pkgC", "c", None, &[], &[]);
    ws.dir("/other", &["/other/pkgD"]);
    ws.package("/other/pkgD", "d", None, &[], &[]);
    ws.alias("ws", "/ws");
    let entries = ws.collect(&[], &["ws", "/other", "/ws"]).unwrap();
    assert_eq!(
        names_and_paths(&entries),
        vec![name_at("c", "/ws/pkgC"), name_at("d", "/other/pkgD"), name_at("c", "/ws/pkgC")]
    );
    assert_eq!(
        full_lines(&entries),
        vec!["c\t/ws/pkgC\t(ros.catkin)", "d\t/other/pkgD\t(ros.catkin)"]
    );
}

#[test]
fn nothing_named_lists_the_working_directory_with_absolute_paths() {
    let mut ws = Workspace::new();
    ws.working_dir = Some("/ws".to_string());
    ws.dir("/ws", &["/ws/pkgA"]);
    ws.package("/ws/pkgA", "a", None, &[], &["/ws/pkgA/.git", "/ws/pkgA/package.xml"]);
    ws.dir("/ws/pkgA/.git", &[]);
    let entries = ws.collect(&[], &[]).unwrap();
    assert_eq!(entries.len(), 1);
    assert_eq!(entries[0].pkg.name, "a");
    assert_eq!(entries[0].pkg.export.build_type, "ros.catkin");
    assert_eq!(entries[0].path, "/ws/pkgA");
    assert_eq!(full_lines(&entries), vec!["a\t/ws/pkgA\t(ros.catkin)"]);
    assert_eq!(ws.asked, vec!["inspect /ws", "list /ws"]);
}

#[test]
fn nothing_named_means_the_working_directory_searched_to_any_depth() {
    let mut ws = Workspace::new();
    ws.working_dir = Some("/home/me/ws".to_string());
    ws.dir("/home/me/ws", &["/home/me/ws/src"]);
    ws.dir("/home/me/ws/src", &["/home/me/ws/src/pkg"]);
    ws.package("/home/me/ws/src/pkg", "pkg", None, &[], &[]);
    let entries = ws.collect(&[], &[]).unwrap();
    assert_eq!(names_and_paths(&entries), vec![name_at("pkg", "/home/me/ws/src/pkg")]);
    assert_eq!(
        ws.asked,
        vec!["inspect /home/me/ws", "list /home/me/ws", "list /home/me/ws/src"]
    );
}

#[test]
fn working_directory_without_canonical_form_is_searched_as_dot() {
    let mut ws = Workspace::new();
    ws.dir(".", &["./src"]);
    ws.dir("./src", &["./src/pkg"]);
    ws.package("./src/pkg", "pkg", None, &[], &[]);
    let entries = ws.collect(&[], &[]).unwrap();
    assert_eq!(names_and_paths(&entries), vec![name_at("pkg", "./src/pkg")]);
    assert_eq!(ws.asked, vec!["inspect .", "list .", "list ./src"]);
}

#[test]
fn working_directory_is_not_searched_where_a_path_was_named() {
    let mut ws = Workspace::new();
    ws.working_dir = Some("/ws".to_string());
    ws.dir("/ws", &["/ws/x"]);
    ws.package("/ws/x", "x", None, &[], &[]);
    ws.dir("/other", &["/other/y"]);
    ws.package("/other/y", "y", None, &[], &[]);
    let entries = ws.collect(&[], &["/other"]).unwrap();
    assert_eq!(names_and_paths(&entries), vec![name_at("y", "/other/y")]);
    // A path that was named and does not exist still counts as named.
    let mut again = Workspace::new();
    again.working_dir = Some("/ws".to_string());
    again.dir("/ws", &["/ws/x"]);
    again.package("/ws/x", "x", None, &[], &[]);
    assert!(again.collect(&["missing"], &[]).unwrap().is_empty());
}

#[test]
fn package_paths_are_searched_one_level_deep_and_before_the_base_paths() {
    let mut ws = Workspace::new();
    ws.dir("/ws", &["/ws/src"]);
    ws.dir("/ws/src", &["/ws/src/a", "/ws/src/group"]);
    ws.package("/ws/src/a", "a", None, &[], &[]);
    ws.dir("/ws/src/group", &["/ws/src/group/b"]);
    ws.package("/ws/src/group/b", "b", None, &[], &[]);
    let entries = ws.collect(&["/ws/src"], &[]).unwrap();
    assert_eq!(names_and_paths(&entries), vec![name_at("a", "/ws/src/a")]);
    let mut again = Workspace::new();
    again.dir("/ws/src", &["/ws/src/a", "/ws/src/group"]);
    again.package("/ws/src/a", "a", None, &[], &[]);
    again.dir("/ws/src/group", &["/ws/src/group/b"]);
    again.package("/ws/src/group/b", "b", None, &[], &[]);
    let entries = again.collect(&["/ws/src/group/b"], &["/ws/src"]).unwrap();
    assert_eq!(
        names_and_paths(&entries),
        vec![name_at("b", "/ws/src/group/b"), name_at("a", "/ws/src/a"), name_at("b", "/ws/src/group/b")]
    );
}

#[test]
fn package_path_alone_does_not_bring_in_the_current_directory() {
    let mut ws = Workspace::new();
    ws.dir(".", &["./x"]);
    ws.package("./x", "x", None, &[], &[]);
    ws.package("/pkg", "p", None, &[], &[]);
    let entries = ws.collect(&["/pkg"], &[]).unwrap();
    assert_eq!(names_and_paths(&entries), vec![name_at("p", "/pkg")]);
}

#[test]
fn path_that_does_not_exist_is_kept_and_gives_nothing() {
    let mut ws = Workspace::new();
    let entries = ws.collect(&["missing"], &["also/missing"]).unwrap();
    assert!(entries.is_empty());
    assert_eq!(ws.asked, vec!["inspect missing", "inspect also/missing"]);
}

#[test]
fn unreadable_root_fails_the_collection_and_stops_it() {
    let mut ws = Workspace::new();
    ws.dir("/first", &["/first/a"]);
    ws.package("/first/a", "a", None, &[], &[]);
    ws.dir("/locked", &[]);
    ws.children.remove("/locked");
    ws.dir("/third", &[]);
    let failure = ws.collect(&[], &["/first", "/locked", "/third"]).unwrap_err();
    assert_eq!(failure.path, "/locked");
    assert_eq!(
        ws.asked,
        vec!["inspect /first", "list /first", "inspect /locked", "list /locked"]
    );
}

#[test]
fn replies_that_were_not_asked_for_change_nothing() {
    let mut ws = Workspace::new();
    ws.dir("/ws", &["/ws/a"]);
    ws.package("/ws/a", "a", None, &[], &[]);
    let mut collector = collect_packages_from_args(&ws.named(&[]), &ws.named(&["/ws"]), &None);
    // A listing before anything was inspected.
    collector.listed(Some(vec![ws.inspect("/ws/a")]));
    assert!(matches!(collector.request(), ScanRequest::Inspect(ref p) if p == "/ws"));
    collector.inspected(&ws.inspect("/ws"));
    // Facts while a listing is waited for.
    collector.inspected(&ws.inspect("/ws/a"));
    assert!(matches!(collector.request(), ScanRequest::List(ref p) if p == "/ws"));
    collector.listed(Some(vec![ws.inspect("/ws/a")]));
    assert!(collector.is_done());
    collector.inspected(&ws.inspect("/ws/a"));
    collector.listed(None);
    let entries = collector.finish().unwrap();
    assert_eq!(names_and_paths(&entries), vec![name_at("a", "/ws/a")]);
}

fn two_roots_workspace() -> Workspace {
    let mut ws = Workspace::new();
    ws.working_dir = Some("/ws".to_string());
    ws.dir("/ws", &["/ws/b", "/ws/a"]);
    ws.package("/ws/b", "b", None, &[], &[]);
    ws.package("/ws/a", "a", Some("cmake"), &[], &[]);
    ws.dir("/overlay", &["/overlay/a", "/overlay/deep"]);
    ws.package("/overlay/a", "a", None, &[], &[]);
    ws.dir("/overlay/deep", &["/overlay/deep/c"]);
    ws.package("/overlay/deep/c", "c", None, &[], &[]);
    ws.alias("ws", "/ws");
    ws
}

#[test]
fn listing_does_not_depend_on_the_order_in_which_paths_were_named() {
    let expected = vec![
        "a\t/overlay/a\t(ros.catkin)",
        "a\t/ws/a\t(cmake)",
        "b\t/ws/b\t(ros.catkin)",
        "c\t/overlay/deep/c\t(ros.catkin)",
    ];
    let one = two_roots_workspace().collect(&["/ws/a"], &["/ws", "/overlay", "ws"]).unwrap();
    assert_eq!(full_lines(&one), expected);
    let other = two_roots_workspace().collect(&["/ws/a"], &["ws", "/ws", "/overlay"]).unwrap();
    assert_eq!(full_lines(&other), expected);
    let third = two_roots_workspace().collect(&["/ws/a"], &["/overlay", "ws", "/ws"]).unwrap();
    assert_eq!(full_lines(&third), expected);
    // The order of discovery differs, the listing does not.
    assert_ne!(names_and_paths(&one), names_and_paths(&third));
}
