use colcon_scan::normalize::{preprocess_paths, unique_neighbours, NamedPaths};
use colcon_scan::path::join;
use colcon_scan::provision::{rel_to_cwd, resolve_build_base};
use colcon_scan::text::starts_with_char;

fn texts(items: &[&str]) -> Vec<String> {
    items.iter().map(|s| s.to_string()).collect()
}

fn answers(items: &[Option<&str>]) -> Vec<Option<String>> {
    items.iter().map(|s| s.map(|t| t.to_string())).collect()
}

fn normalize_with(raw: &[&str], canonical_form: fn(&str) -> Option<String>) -> Vec<String> {
    let raw = texts(raw);
    let canonical = unique_neighbours(&raw).iter().map(|p| canonical_form(p)).collect();
    preprocess_paths(&NamedPaths { raw, canonical })
}

fn strip_dot_slash(path: &str) -> Option<String> {
    if path == "gone" {
        None
    } else {
        Some(format!("/abs/{}", path.trim_start_matches("./").trim_start_matches("/abs/")))
    }
}

#[test]
fn starts_with_char_looks_at_the_first_character_only() {
    assert!(starts_with_char(".git", '.'));
    assert!(starts_with_char(".", '.'));
    assert!(!starts_with_char("a.b", '.'));
    assert!(!starts_with_char("", '.'));
    assert!(starts_with_char("éa", 'é'));
}

#[test]
fn join_puts_one_separator_between_base_and_child() {
    assert_eq!(join("/ws/pkg", "CMakeLists.txt"), "/ws/pkg/CMakeLists.txt");
    assert_eq!(join("/ws/pkg/", "CMakeLists.txt"), "/ws/pkg/CMakeLists.txt");
    assert_eq!(join("rel", "x"), "rel/x");
}

#[test]
fn join_with_empty_base_or_root() {
    assert_eq!(join("", "x"), "x");
    assert_eq!(join("/", "x"), "/x");
    assert_eq!(join("a", ""), "a/");
    assert_eq!(join("", ""), "");
}

#[test]
fn join_with_absolute_child_gives_the_child() {
    assert_eq!(join("/build", "/elsewhere"), "/elsewhere");
    assert_eq!(join("", "/"), "/");
}

#[test]
fn unique_neighbours_drops_only_adjacent_repeats() {
    assert_eq!(unique_neighbours(&texts(&["a", "a", "b", "a", "a", "a"])), texts(&["a", "b", "a"]));
    assert_eq!(unique_neighbours(&texts(&[])), texts(&[]));
    assert_eq!(unique_neighbours(&texts(&["x"])), texts(&["x"]));
}

#[test]
fn preprocess_replaces_each_path_by_its_canonical_form() {
    let named = NamedPaths {
        raw: texts(&["src", "src", "lib"]),
        canonical: answers(&[Some("/ws/src"), Some("/ws/lib")]),
    };
    assert_eq!(preprocess_paths(&named), texts(&["/ws/src", "/ws/lib"]));
}

#[test]
fn preprocess_keeps_a_path_that_has_no_canonical_form() {
    let named = NamedPaths {
        raw: texts(&["missing", "src"]),
        canonical: answers(&[None, Some("/ws/src")]),
    };
    assert_eq!(preprocess_paths(&named), texts(&["missing", "/ws/src"]));
}

#[test]
fn preprocess_takes_a_path_without_answer_as_it_was_named() {
    let named = NamedPaths { raw: texts(&["a", "b", "c"]), canonical: answers(&[Some("/a")]) };
    assert_eq!(preprocess_paths(&named), texts(&["/a", "b", "c"]));
    let more = NamedPaths {
        raw: texts(&["a"]),
        canonical: answers(&[Some("/a"), Some("/b"), None]),
    };
    assert_eq!(preprocess_paths(&more), texts(&["/a"]));
}

#[test]
fn preprocess_drops_neighbours_that_become_equal() {
    let named = NamedPaths {
        raw: texts(&["src", "./src", "/ws/src", "lib", "src"]),
        canonical: answers(&[
            Some("/ws/src"),
            Some("/ws/src"),
            Some("/ws/src"),
            Some("/ws/lib"),
            Some("/ws/src"),
        ]),
    };
    assert_eq!(preprocess_paths(&named), texts(&["/ws/src", "/ws/lib", "/ws/src"]));
}

#[test]
fn preprocess_of_nothing_is_nothing() {
    let named = NamedPaths { raw: vec![], canonical: vec![] };
    assert_eq!(preprocess_paths(&named), Vec::<String>::new());
}

#[test]
fn normalizing_twice_is_normalizing_once() {
    let raw = ["a", "./a", "a", "gone", "gone", "b", "/abs/b", "a"];
    let once = normalize_with(&raw, strip_dot_slash);
    assert_eq!(once, texts(&["/abs/a", "gone", "/abs/b", "/abs/a"]));
    let as_strs: Vec<&str> = once.iter().map(|s| s.as_str()).collect();
    let twice = normalize_with(&as_strs, strip_dot_slash);
    assert_eq!(twice, once);
}

#[test]
fn build_base_is_taken_from_the_working_directory() {
    assert_eq!(rel_to_cwd(Some("/home/me/ws".to_string()), "build".to_string()), "/home/me/ws/build");
    assert_eq!(rel_to_cwd(Some("/home/me/ws".to_string()), "/tmp/build".to_string()), "/tmp/build");
    assert_eq!(rel_to_cwd(None, "build".to_string()), "build");
}

#[test]
fn build_base_prefers_its_canonical_form() {
    assert_eq!(
        resolve_build_base("build".to_string(), Some("/real/build".to_string()), Some("/cwd".to_string())),
        "/real/build"
    );
    assert_eq!(resolve_build_base("build".to_string(), None, Some("/cwd".to_string())), "/cwd/build");
    assert_eq!(resolve_build_base("build".to_string(), None, None), "build");
}
