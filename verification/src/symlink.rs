//! Linking a package's compile-command database into its source directory.
//!
//! The work on one package is a short dialogue. The library asks for one
//! look at the disk or one change to it, the caller reports what came of
//! it, and the library decides what follows and what is to be said about
//! it. No failure leaves the dialogue in a state from which the next
//! package could not be taken up.

use crate::package::{Entry, EntryView};
use crate::path::{join, joined};
use crate::text::optional_text_view;
use vstd::prelude::*;
use vstd::string::*;

verus! {

/// The name of the file that describes how a package is built.
pub open spec fn build_description_name() -> Seq<char> {
    "CMakeLists.txt"@
}

/// The name of the compile-command database, in the source directory and
/// in the build directory alike.
pub open spec fn compile_commands_name() -> Seq<char> {
    "compile_commands.json"@
}

/// How far the work on one package has come.
#[derive(Clone, Copy, Debug, PartialEq, Eq, Structural)]
pub enum Stage {
    /// Waiting to hear whether the build description exists.
    BuildDescription,
    /// Waiting to hear whether a symbolic link is already in place.
    ExistingLink,
    /// Waiting to hear whether the old link could be removed.
    Removal,
    /// Waiting to hear whether the new link could be created.
    Creation,
    /// Nothing more to do for this package.
    Finished,
}

/// The work on one package: the paths it is about, the options it runs
/// under, and the stage it has reached.
#[derive(Clone, Debug)]
pub struct LinkJob {
    pub name: String,
    pub build_description: String,
    pub link_path: String,
    pub target_path: String,
    pub quiet: bool,
    pub force: bool,
    pub stage: Stage,
}

/// The mathematical content of a [`LinkJob`].
pub struct JobView {
    pub name: Seq<char>,
    pub build_description: Seq<char>,
    pub link_path: Seq<char>,
    pub target_path: Seq<char>,
    pub quiet: bool,
    pub force: bool,
    pub stage: Stage,
}

impl View for LinkJob {
    type V = JobView;

    open spec fn view(&self) -> JobView {
        JobView {
            name: self.name@,
            build_description: self.build_description@,
            link_path: self.link_path@,
            target_path: self.target_path@,
            quiet: self.quiet,
            force: self.force,
            stage: self.stage,
        }
    }
}

/// What the caller is asked to do next.
#[derive(Clone, Debug)]
pub enum LinkRequest {
    /// Report whether anything exists at this path.
    Exists(String),
    /// Report whether a symbolic link sits at this path.
    IsSymlink(String),
    /// Remove the file at this path.
    Remove(String),
    /// Create a symbolic link at `link` that points to `target`.
    Symlink { target: String, link: String },
    /// Nothing: the work on this package is over.
    Done,
}

/// The mathematical content of a [`LinkRequest`].
pub enum RequestView {
    Exists(Seq<char>),
    IsSymlink(Seq<char>),
    Remove(Seq<char>),
    Symlink { target: Seq<char>, link: Seq<char> },
    Done,
}

impl View for LinkRequest {
    type V = RequestView;

    open spec fn view(&self) -> RequestView {
        match self {
            LinkRequest::Exists(path) => RequestView::Exists(path@),
            LinkRequest::IsSymlink(path) => RequestView::IsSymlink(path@),
            LinkRequest::Remove(path) => RequestView::Remove(path@),
            LinkRequest::Symlink { target, link } => RequestView::Symlink {
                target: target@,
                link: link@,
            },
            LinkRequest::Done => RequestView::Done,
        }
    }
}

/// What came of a request. A failure carries the reason in words.
#[derive(Clone, Debug)]
pub enum LinkReply {
    Exists(bool),
    IsSymlink(bool),
    Removed,
    RemoveFailed(String),
    Linked,
    LinkFailed(String),
}

/// The mathematical content of a [`LinkReply`].
pub enum ReplyView {
    Exists(bool),
    IsSymlink(bool),
    Removed,
    RemoveFailed(Seq<char>),
    Linked,
    LinkFailed(Seq<char>),
}

impl View for LinkReply {
    type V = ReplyView;

    open spec fn view(&self) -> ReplyView {
        match self {
            LinkReply::Exists(found) => ReplyView::Exists(*found),
            LinkReply::IsSymlink(found) => ReplyView::IsSymlink(*found),
            LinkReply::Removed => ReplyView::Removed,
            LinkReply::RemoveFailed(reason) => ReplyView::RemoveFailed(reason@),
            LinkReply::Linked => ReplyView::Linked,
            LinkReply::LinkFailed(reason) => ReplyView::LinkFailed(reason@),
        }
    }
}

/// Said of a package that has no build description and is passed over.
pub open spec fn skipped_message(name: Seq<char>, build_description: Seq<char>) -> Seq<char> {
    "[INFO] Skipping "@ + name + " because no CMakeLists.txt was found @ "@ + build_description
        + "."@
}

/// Said before an existing link is removed.
pub open spec fn removing_message(link_path: Seq<char>) -> Seq<char> {
    "[WARNING] Removing existing symlink in "@ + link_path
}

/// Said when the existing link could not be removed.
pub open spec fn remove_failed_message(reason: Seq<char>) -> Seq<char> {
    "[ERROR] Couldn't remove symlink: "@ + reason
}

/// Said when the new link could not be created.
pub open spec fn link_failed_message(reason: Seq<char>) -> Seq<char> {
    "[ERROR] Couldn't create symlink: "@ + reason
}

/// Said when the new link is in place.
pub open spec fn created_message(name: Seq<char>, link_path: Seq<char>, target_path: Seq<char>)
    -> Seq<char> {
    "[INFO] Created link for "@ + name + " from "@ + link_path + " -> "@ + target_path
}

/// The job as it stands before anything is known of the disk: the build
/// description and the link lie in the package's directory, the link's
/// target under the build base in a directory named after the package.
pub open spec fn started(entry: EntryView, build_base: Seq<char>, quiet: bool, force: bool)
    -> JobView {
    JobView {
        name: entry.name,
        build_description: joined(entry.path, build_description_name()),
        link_path: joined(entry.path, compile_commands_name()),
        target_path: joined(joined(build_base, entry.name), compile_commands_name()),
        quiet,
        force,
        stage: Stage::BuildDescription,
    }
}

/// The same job at another stage.
pub open spec fn at_stage(job: JobView, stage: Stage) -> JobView {
    JobView { stage, ..job }
}

/// A message as the job passes it on: none at all when it runs quietly.
pub open spec fn said(job: JobView, text: Seq<char>) -> Option<Seq<char>> {
    if job.quiet {
        None
    } else {
        Some(text)
    }
}

/// What a job asks for at its stage.
pub open spec fn request_of(job: JobView) -> RequestView {
    match job.stage {
        Stage::BuildDescription => RequestView::Exists(job.build_description),
        Stage::ExistingLink => RequestView::IsSymlink(job.link_path),
        Stage::Removal => RequestView::Remove(job.link_path),
        Stage::Creation => RequestView::Symlink { target: job.target_path, link: job.link_path },
        Stage::Finished => RequestView::Done,
    }
}

/// Whether `reply` is an answer to what the job asks for at `stage`.
pub open spec fn answers(stage: Stage, reply: ReplyView) -> bool {
    match stage {
        Stage::BuildDescription => reply is Exists,
        Stage::ExistingLink => reply is IsSymlink,
        Stage::Removal => reply is Removed || reply is RemoveFailed,
        Stage::Creation => reply is Linked || reply is LinkFailed,
        Stage::Finished => false,
    }
}

/// The stage that follows when `reply` answers the request of `job`.
///
/// A package without a build description is passed over. An existing link
/// is removed only under `force`; without it the creation is attempted
/// over the existing link and left to fail. A failed removal ends the work
/// on this package, and so does the creation, whatever came of it.
pub open spec fn next_stage(job: JobView, reply: ReplyView) -> Stage {
    match (job.stage, reply) {
        (Stage::BuildDescription, ReplyView::Exists(found)) => if found {
            Stage::ExistingLink
        } else {
            Stage::Finished
        },
        (Stage::ExistingLink, ReplyView::IsSymlink(found)) => if found && job.force {
            Stage::Removal
        } else {
            Stage::Creation
        },
        (Stage::Removal, ReplyView::Removed) => Stage::Creation,
        (Stage::Removal, ReplyView::RemoveFailed(_)) => Stage::Finished,
        (Stage::Creation, ReplyView::Linked) => Stage::Finished,
        (Stage::Creation, ReplyView::LinkFailed(_)) => Stage::Finished,
        _ => job.stage,
    }
}

/// What there is to say when `reply` answers the request of `job`,
/// before the job's quietness is taken into account.
pub open spec fn remark(job: JobView, reply: ReplyView) -> Option<Seq<char>> {
    match (job.stage, reply) {
        (Stage::BuildDescription, ReplyView::Exists(found)) => if found {
            None
        } else {
            Some(skipped_message(job.name, job.build_description))
        },
        (Stage::ExistingLink, ReplyView::IsSymlink(found)) => if found && job.force {
            Some(removing_message(job.link_path))
        } else {
            None
        },
        (Stage::Removal, ReplyView::RemoveFailed(reason)) => Some(remove_failed_message(reason)),
        (Stage::Creation, ReplyView::Linked) => Some(
            created_message(job.name, job.link_path, job.target_path),
        ),
        (Stage::Creation, ReplyView::LinkFailed(reason)) => Some(link_failed_message(reason)),
        _ => None,
    }
}

/// The message that the caller is to print for `reply`, if any.
pub open spec fn message_for(job: JobView, reply: ReplyView) -> Option<Seq<char>> {
    match remark(job, reply) {
        Some(text) => said(job, text),
        None => None,
    }
}

/// How many replies a job at `stage` can still take before it is finished.
pub open spec fn replies_left(stage: Stage) -> nat {
    match stage {
        Stage::BuildDescription => 4,
        Stage::ExistingLink => 3,
        Stage::Removal => 2,
        Stage::Creation => 1,
        Stage::Finished => 0,
    }
}

/// Begins the work on one package. Nothing has been looked at yet: the
/// job's first request asks for the build description.
pub fn try_symlink(entry: &Entry, build_base: String, quiet: bool, force: bool) -> (job: LinkJob)
    ensures
        job@ == started(entry@, build_base@, quiet, force),
{
    let build_description = join(entry.path.as_str(), "CMakeLists.txt");
    let link_path = join(entry.path.as_str(), "compile_commands.json");
    let package_dir = join(build_base.as_str(), entry.pkg.name.as_str());
    let target_path = join(package_dir.as_str(), "compile_commands.json");
    LinkJob {
        name: entry.pkg.name.clone(),
        build_description,
        link_path,
        target_path,
        quiet,
        force,
        stage: Stage::BuildDescription,
    }
}

impl LinkJob {
    /// Whether the work on this package is over.
    pub fn is_finished(&self) -> (finished: bool)
        ensures
            finished == (self.stage == Stage::Finished),
    {
        self.stage == Stage::Finished
    }

    /// What the caller is to do next.
    pub fn request(&self) -> (request: LinkRequest)
        ensures
            request@ == request_of(self@),
    {
        match self.stage {
            Stage::BuildDescription => LinkRequest::Exists(self.build_description.clone()),
            Stage::ExistingLink => LinkRequest::IsSymlink(self.link_path.clone()),
            Stage::Removal => LinkRequest::Remove(self.link_path.clone()),
            Stage::Creation => LinkRequest::Symlink {
                target: self.target_path.clone(),
                link: self.link_path.clone(),
            },
            Stage::Finished => LinkRequest::Done,
        }
    }

    /// Takes the outcome of the last request, moves on to the stage that
    /// follows from it and returns what the caller is to print. A reply
    /// that does not answer the job's request changes nothing.
    pub fn reply(&mut self, reply: LinkReply) -> (message: Option<String>)
        ensures
            final(self)@ == at_stage(old(self)@, next_stage(old(self)@, reply@)),
            optional_text_view(message) == message_for(old(self)@, reply@),
            answers(old(self).stage, reply@) ==> replies_left(final(self).stage) < replies_left(
                old(self).stage,
            ),
    {
        match (self.stage, reply) {
            (Stage::BuildDescription, LinkReply::Exists(found)) => {
                if found {
                    self.stage = Stage::ExistingLink;
                    None
                } else {
                    self.stage = Stage::Finished;
                    let mut text = String::from_str("[INFO] Skipping ");
                    text.append(self.name.as_str());
                    text.append(" because no CMakeLists.txt was found @ ");
                    text.append(self.build_description.as_str());
                    text.append(".");
                    self.say(text)
                }
            },
            (Stage::ExistingLink, LinkReply::IsSymlink(found)) => {
                if found && self.force {
                    self.stage = Stage::Removal;
                    let mut text = String::from_str("[WARNING] Removing existing symlink in ");
                    text.append(self.link_path.as_str());
                    self.say(text)
                } else {
                    self.stage = Stage::Creation;
                    None
                }
            },
            (Stage::Removal, LinkReply::Removed) => {
                self.stage = Stage::Creation;
                None
            },
            (Stage::Removal, LinkReply::RemoveFailed(reason)) => {
                self.stage = Stage::Finished;
                let mut text = String::from_str("[ERROR] Couldn't remove symlink: ");
                text.append(reason.as_str());
                self.say(text)
            },
            (Stage::Creation, LinkReply::Linked) => {
                self.stage = Stage::Finished;
                let mut text = String::from_str("[INFO] Created link for ");
                text.append(self.name.as_str());
                text.append(" from ");
                text.append(self.link_path.as_str());
                text.append(" -> ");
                text.append(self.target_path.as_str());
                self.say(text)
            },
            (Stage::Creation, LinkReply::LinkFailed(reason)) => {
                self.stage = Stage::Finished;
                let mut text = String::from_str("[ERROR] Couldn't create symlink: ");
                text.append(reason.as_str());
                self.say(text)
            },
            _ => None,
        }
    }

    /// Passes a message on, unless the job runs quietly.
    fn say(&self, text: String) -> (message: Option<String>)
        ensures
            optional_text_view(message) == said(self@, text@),
    {
        if self.quiet {
            None
        } else {
            Some(text)
        }
    }
}

} // verus!
