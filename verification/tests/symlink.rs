use colcon_scan::package::{Entry, Export, Package};
use colcon_scan::provision::Provisioner;
use colcon_scan::symlink::{try_symlink, LinkReply, LinkRequest, Stage};

fn package_at(name: &str, path: &str) -> Entry {
    Entry {
        pkg: Package { name: name.to_string(), export: Export { build_type: "cmake".to_string() } },
        path: path.to_string(),
    }
}

fn asks_exists(request: &LinkRequest, path: &str) -> bool {
    matches!(request, LinkRequest::Exists(p) if p == path)
}

fn asks_is_symlink(request: &LinkRequest, path: &str) -> bool {
    matches!(request, LinkRequest::IsSymlink(p) if p == path)
}

fn asks_remove(request: &LinkRequest, path: &str) -> bool {
    matches!(request, LinkRequest::Remove(p) if p == path)
}

fn asks_symlink(request: &LinkRequest, target_path: &str, link_path: &str) -> bool {
    matches!(request, LinkRequest::Symlink { target, link } if target == target_path && link == link_path)
}

#[test]
fn job_computes_its_three_paths() {
    let job = try_symlink(&package_at("a", "/ws/src/a"), "/ws/build".to_string(), false, false);
    assert_eq!(job.name, "a");
    assert_eq!(job.build_description, "/ws/src/a/CMakeLists.txt");
    assert_eq!(job.link_path, "/ws/src/a/compile_commands.json");
    assert_eq!(job.target_path, "/ws/build/a/compile_commands.json");
    assert_eq!(job.stage, Stage::BuildDescription);
    assert!(!job.is_finished());
}

#[test]
fn link_is_created_where_none_was() {
    let mut job = try_symlink(&package_at("a", "/ws/src/a"), "/ws/build".to_string(), false, false);
    assert!(asks_exists(&job.request(), "/ws/src/a/CMakeLists.txt"));
    assert_eq!(job.reply(LinkReply::Exists(true)), None);
    assert!(asks_is_symlink(&job.request(), "/ws/src/a/compile_commands.json"));
    assert_eq!(job.reply(LinkReply::IsSymlink(false)), None);
    assert!(asks_symlink(
        &job.request(),
        "/ws/build/a/compile_commands.json",
        "/ws/src/a/compile_commands.json"
    ));
    assert_eq!(
        job.reply(LinkReply::Linked),
        Some(
            "[INFO] Created link for a from /ws/src/a/compile_commands.json -> /ws/build/a/compile_commands.json"
                .to_string()
        )
    );
    assert!(job.is_finished());
    assert!(matches!(job.request(), LinkRequest::Done));
}

#[test]
fn existing_link_without_force_fails_and_the_batch_goes_on() {
    let entries = vec![package_at("a", "/ws/src/a"), package_at("b", "/ws/src/b")];
    let mut batch = Provisioner::new(entries, "/ws/build".to_string(), false, false);
    assert!(asks_exists(&batch.request(), "/ws/src/a/CMakeLists.txt"));
    assert_eq!(batch.reply(LinkReply::Exists(true)), None);
    assert_eq!(batch.reply(LinkReply::IsSymlink(true)), None);
    // Nothing is removed: the creation is tried over the existing link.
    assert!(asks_symlink(
        &batch.request(),
        "/ws/build/a/compile_commands.json",
        "/ws/src/a/compile_commands.json"
    ));
    assert_eq!(
        batch.reply(LinkReply::LinkFailed("File exists (os error 17)".to_string())),
        Some("[ERROR] Couldn't create symlink: File exists (os error 17)".to_string())
    );
    // The next package is taken up.
    assert!(asks_exists(&batch.request(), "/ws/src/b/CMakeLists.txt"));
    assert_eq!(batch.reply(LinkReply::Exists(true)), None);
    assert_eq!(batch.reply(LinkReply::IsSymlink(false)), None);
    assert_eq!(
        batch.reply(LinkReply::Linked),
        Some(
            "[INFO] Created link for b from /ws/src/b/compile_commands.json -> /ws/build/b/compile_commands.json"
                .to_string()
        )
    );
    assert!(matches!(batch.request(), LinkRequest::Done));
}

#[test]
fn existing_link_is_replaced_under_force() {
    let mut job = try_symlink(&package_at("a", "/ws/src/a"), "/ws/build".to_string(), false, true);
    assert_eq!(job.reply(LinkReply::Exists(true)), None);
    assert_eq!(
        job.reply(LinkReply::IsSymlink(true)),
        Some("[WARNING] Removing existing symlink in /ws/src/a/compile_commands.json".to_string())
    );
    assert!(asks_remove(&job.request(), "/ws/src/a/compile_commands.json"));
    assert_eq!(job.reply(LinkReply::Removed), None);
    assert!(asks_symlink(
        &job.request(),
        "/ws/build/a/compile_commands.json",
        "/ws/src/a/compile_commands.json"
    ));
    assert!(job.reply(LinkReply::Linked).is_some());
    assert!(job.is_finished());
}

#[test]
fn force_removes_nothing_where_no_link_is() {
    let mut job = try_symlink(&package_at("a", "/ws/src/a"), "/ws/build".to_string(), false, true);
    job.reply(LinkReply::Exists(true));
    assert_eq!(job.reply(LinkReply::IsSymlink(false)), None);
    assert_eq!(job.stage, Stage::Creation);
}

#[test]
fn failed_removal_ends_the_work_on_the_package() {
    let mut job = try_symlink(&package_at("a", "/ws/src/a"), "/ws/build".to_string(), false, true);
    job.reply(LinkReply::Exists(true));
    job.reply(LinkReply::IsSymlink(true));
    assert_eq!(
        job.reply(LinkReply::RemoveFailed("Permission denied".to_string())),
        Some("[ERROR] Couldn't remove symlink: Permission denied".to_string())
    );
    assert!(job.is_finished());
    assert!(matches!(job.request(), LinkRequest::Done));
}

#[test]
fn package_without_build_description_is_passed_over() {
    let mut job = try_symlink(&package_at("py", "/ws/src/py"), "/ws/build".to_string(), false, false);
    assert_eq!(
        job.reply(LinkReply::Exists(false)),
        Some(
            "[INFO] Skipping py because no CMakeLists.txt was found @ /ws/src/py/CMakeLists.txt."
                .to_string()
        )
    );
    assert!(job.is_finished());
}

#[test]
fn quiet_job_says_nothing_and_does_the_same() {
    let mut job = try_symlink(&package_at("a", "/ws/src/a"), "/ws/build".to_string(), true, true);
    assert_eq!(job.reply(LinkReply::Exists(true)), None);
    assert_eq!(job.reply(LinkReply::IsSymlink(true)), None);
    assert!(asks_remove(&job.request(), "/ws/src/a/compile_commands.json"));
    assert_eq!(job.reply(LinkReply::Removed), None);
    assert_eq!(job.reply(LinkReply::LinkFailed("no".to_string())), None);
    assert!(job.is_finished());
    let mut skipped = try_symlink(&package_at("a", "/ws/src/a"), "/ws/build".to_string(), true, false);
    assert_eq!(skipped.reply(LinkReply::Exists(false)), None);
    assert!(skipped.is_finished());
    let mut failing = try_symlink(&package_at("a", "/ws/src/a"), "/ws/build".to_string(), true, true);
    failing.reply(LinkReply::Exists(true));
    failing.reply(LinkReply::IsSymlink(true));
    assert_eq!(failing.reply(LinkReply::RemoveFailed("no".to_string())), None);
    assert!(failing.is_finished());
}

#[test]
fn reply_that_does_not_answer_the_request_changes_nothing() {
    let mut job = try_symlink(&package_at("a", "/ws/src/a"), "/ws/build".to_string(), false, true);
    assert_eq!(job.reply(LinkReply::Linked), None);
    assert_eq!(job.reply(LinkReply::IsSymlink(true)), None);
    assert_eq!(job.reply(LinkReply::RemoveFailed("x".to_string())), None);
    assert_eq!(job.stage, Stage::BuildDescription);
    job.reply(LinkReply::Exists(false));
    assert_eq!(job.reply(LinkReply::Exists(true)), None);
    assert_eq!(job.reply(LinkReply::Linked), None);
    assert_eq!(job.stage, Stage::Finished);
}

#[test]
fn batch_of_nothing_asks_for_nothing() {
    let mut batch = Provisioner::new(vec![], "/ws/build".to_string(), false, false);
    assert!(matches!(batch.request(), LinkRequest::Done));
    assert_eq!(batch.reply(LinkReply::Exists(true)), None);
    assert!(matches!(batch.request(), LinkRequest::Done));
}

#[test]
fn batch_takes_the_packages_in_order_whatever_becomes_of_each() {
    let entries = vec![
        package_at("skipped", "/s/skipped"),
        package_at("stuck", "/s/stuck"),
        package_at("fine", "/s/fine"),
    ];
    let mut batch = Provisioner::new(entries, "/b".to_string(), false, true);
    assert!(asks_exists(&batch.request(), "/s/skipped/CMakeLists.txt"));
    assert!(batch.reply(LinkReply::Exists(false)).is_some());
    assert!(asks_exists(&batch.request(), "/s/stuck/CMakeLists.txt"));
    batch.reply(LinkReply::Exists(true));
    batch.reply(LinkReply::IsSymlink(true));
    assert!(asks_remove(&batch.request(), "/s/stuck/compile_commands.json"));
    assert!(batch.reply(LinkReply::RemoveFailed("busy".to_string())).is_some());
    assert!(asks_exists(&batch.request(), "/s/fine/CMakeLists.txt"));
    batch.reply(LinkReply::Exists(true));
    batch.reply(LinkReply::IsSymlink(false));
    assert!(asks_symlink(&batch.request(), "/b/fine/compile_commands.json", "/s/fine/compile_commands.json"));
    assert!(batch.reply(LinkReply::Linked).is_some());
    assert!(matches!(batch.request(), LinkRequest::Done));
}
