//! Linking the compile-command databases of a whole batch of packages.
//!
//! The packages are taken in the order in which they were handed over.
//! Whatever becomes of one of them, the next one is taken up: no reply
//! ends the batch before its last package.

use crate::package::{entry_views, Entry, EntryView};
use crate::path::{join, joined};
use crate::symlink::{
    answers, at_stage, message_for, next_stage, replies_left, request_of, started, try_symlink,
    JobView, LinkJob, LinkReply, LinkRequest, ReplyView, RequestView, Stage,
};
use crate::text::optional_text_view;
use vstd::prelude::*;

verus! {

/// The path that stands for `path` when it is taken from the working
/// directory `cwd`; `path` itself where the working directory is unknown.
pub open spec fn relative_to(cwd: Option<Seq<char>>, path: Seq<char>) -> Seq<char> {
    match cwd {
        Some(dir) => joined(dir, path),
        None => path,
    }
}

/// The absolute form of a build base: its canonical form where the disk
/// gave one, and else the path taken from the working directory, as a
/// build directory that does not exist yet has no canonical form.
pub open spec fn resolved_build_base(
    build_base: Seq<char>,
    canonical: Option<Seq<char>>,
    cwd: Option<Seq<char>>,
) -> Seq<char> {
    match canonical {
        Some(form) => form,
        None => relative_to(cwd, build_base),
    }
}

/// `build_base` taken from the working directory `cwd`.
pub fn rel_to_cwd(cwd: Option<String>, build_base: String) -> (path: String)
    ensures
        path@ == relative_to(optional_text_view(cwd), build_base@),
{
    match cwd {
        Some(dir) => join(dir.as_str(), build_base.as_str()),
        None => build_base,
    }
}

/// The build base under which the links' targets lie.
pub fn resolve_build_base(build_base: String, canonical: Option<String>, cwd: Option<String>) -> (path:
    String)
    ensures
        path@ == resolved_build_base(
            build_base@,
            optional_text_view(canonical),
            optional_text_view(cwd),
        ),
{
    match canonical {
        Some(form) => form,
        None => rel_to_cwd(cwd, build_base),
    }
}

/// The state of a batch between two requests.
#[derive(Clone, Debug)]
pub struct Provisioner {
    /// The packages of the batch, in the order in which they are taken.
    pub entries: Vec<Entry>,
    /// How many of them have been taken up.
    pub taken: usize,
    /// The work on the package that was taken up last.
    pub job: Option<LinkJob>,
    pub build_base: String,
    pub quiet: bool,
    pub force: bool,
}

/// The mathematical content of a [`Provisioner`].
pub struct ProvisionerView {
    /// The packages that have not been taken up.
    pub waiting: Seq<EntryView>,
    pub job: Option<JobView>,
    pub build_base: Seq<char>,
    pub quiet: bool,
    pub force: bool,
}

impl View for Provisioner {
    type V = ProvisionerView;

    open spec fn view(&self) -> ProvisionerView {
        ProvisionerView {
            waiting: if self.taken <= self.entries@.len() {
                entry_views(self.entries@).skip(self.taken as int)
            } else {
                Seq::empty()
            },
            job: match self.job {
                Some(job) => Some(job@),
                None => None,
            },
            build_base: self.build_base@,
            quiet: self.quiet,
            force: self.force,
        }
    }
}

/// Whether there is work in progress on a package.
pub open spec fn in_progress(job: Option<JobView>) -> bool {
    match job {
        Some(job) => job.stage != Stage::Finished,
        None => false,
    }
}

/// The batch with the next package taken up, where the work on the last
/// one is over and another one waits.
pub open spec fn settled(batch: ProvisionerView) -> ProvisionerView {
    if !in_progress(batch.job) && batch.waiting.len() > 0 {
        ProvisionerView {
            waiting: batch.waiting.drop_first(),
            job: Some(started(batch.waiting[0], batch.build_base, batch.quiet, batch.force)),
            ..batch
        }
    } else {
        batch
    }
}

/// The batch as it begins, with its first package taken up.
pub open spec fn opened(entries: Seq<EntryView>, build_base: Seq<char>, quiet: bool, force: bool)
    -> ProvisionerView {
    settled(ProvisionerView { waiting: entries, job: None, build_base, quiet, force })
}

/// What a batch asks for: what the work in progress asks for, and nothing
/// once the last package is done.
pub open spec fn batch_request(batch: ProvisionerView) -> RequestView {
    match batch.job {
        Some(job) => request_of(job),
        None => RequestView::Done,
    }
}

/// The batch after a reply: the work in progress moves on as the reply
/// says, and where that ends it the next package is taken up.
pub open spec fn replied(batch: ProvisionerView, reply: ReplyView) -> ProvisionerView {
    match batch.job {
        Some(job) => settled(
            ProvisionerView { job: Some(at_stage(job, next_stage(job, reply))), ..batch },
        ),
        None => batch,
    }
}

/// The message that the caller is to print for a reply, if any.
pub open spec fn batch_message(batch: ProvisionerView, reply: ReplyView) -> Option<Seq<char>> {
    match batch.job {
        Some(job) => message_for(job, reply),
        None => None,
    }
}

/// How many replies a batch can still take before it asks for nothing
/// more: what the work in progress can take, and four for each package
/// that waits.
pub open spec fn batch_replies_left(batch: ProvisionerView) -> nat {
    4 * batch.waiting.len() + match batch.job {
        Some(job) => replies_left(job.stage),
        None => 0,
    }
}

/// Whether `reply` answers what the batch asks for.
pub open spec fn batch_answers(batch: ProvisionerView, reply: ReplyView) -> bool {
    match batch.job {
        Some(job) => answers(job.stage, reply),
        None => false,
    }
}

impl Provisioner {
    /// Begins a batch: links for `entries`, with targets under `build_base`.
    pub fn new(entries: Vec<Entry>, build_base: String, quiet: bool, force: bool) -> (batch:
        Provisioner)
        ensures
            batch@ == opened(entry_views(entries@), build_base@, quiet, force),
    {
        let mut batch = Provisioner { entries, taken: 0, job: None, build_base, quiet, force };
        assert(batch@.waiting =~= entry_views(entries@));
        batch.settle();
        batch
    }

    /// Takes up the next package where no work is in progress.
    fn settle(&mut self)
        ensures
            final(self)@ == settled(old(self)@),
    {
        let idle = match &self.job {
            Some(job) => job.is_finished(),
            None => true,
        };
        if idle && self.taken < self.entries.len() {
            let job = try_symlink(
                &self.entries[self.taken],
                self.build_base.clone(),
                self.quiet,
                self.force,
            );
            assert(entry_views(self.entries@).skip(self.taken as int + 1) =~= entry_views(
                self.entries@,
            ).skip(self.taken as int).drop_first());
            self.job = Some(job);
            self.taken = self.taken + 1;
        }
    }

    /// What the caller is to do next.
    pub fn request(&self) -> (request: LinkRequest)
        ensures
            request@ == batch_request(self@),
    {
        match &self.job {
            Some(job) => job.request(),
            None => LinkRequest::Done,
        }
    }

    /// Takes the outcome of the last request and returns what the caller
    /// is to print. Every reply that answers the request brings the batch
    /// nearer to its end.
    pub fn reply(&mut self, reply: LinkReply) -> (message: Option<String>)
        ensures
            final(self)@ == replied(old(self)@, reply@),
            optional_text_view(message) == batch_message(old(self)@, reply@),
            batch_answers(old(self)@, reply@) ==> batch_replies_left(final(self)@)
                < batch_replies_left(old(self)@),
    {
        match self.job.take() {
            Some(job) => {
                let mut job = job;
                let message = job.reply(reply);
                self.job = Some(job);
                self.settle();
                message
            },
            None => None,
        }
    }
}

/// Whatever ends the work on one package, the batch goes on: while another
/// package waits, the next request is the first one of that package.
pub proof fn lemma_batch_goes_on(batch: ProvisionerView, reply: ReplyView)
    requires
        batch.job is Some,
        next_stage(batch.job->0, reply) == Stage::Finished,
        batch.waiting.len() > 0,
    ensures
        batch_request(replied(batch, reply)) == RequestView::Exists(
            started(batch.waiting[0], batch.build_base, batch.quiet, batch.force).build_description,
        ),
        replied(batch, reply).waiting == batch.waiting.drop_first(),
{
}

} // verus!
