//! Commit details and diffs: the texts shown for them, and the channel to the
//! background worker that fetches diffs.
use std::sync::mpsc::{Receiver, Sender};
use vstd::prelude::*;

verus! {

pub struct DiffJob {
    pub seq: u64,
    pub hash: String,
}

pub struct DiffResult {
    pub seq: u64,
    pub text: String,
}

/// `std::sync::mpsc::Sender`, carried through opaque.
#[verifier::external_type_specification]
#[verifier::external_body]
#[verifier::reject_recursive_types(T)]
pub struct ExSender<T>(Sender<T>);

/// `std::sync::mpsc::Receiver`, carried through opaque.
#[verifier::external_type_specification]
#[verifier::external_body]
#[verifier::reject_recursive_types(T)]
pub struct ExReceiver<T>(Receiver<T>);

/// `Receiver::try_recv`: a finished diff if the worker has one ready. What
/// comes back depends on the worker's timing, so nothing is stated of it.
#[verifier::external_body]
fn try_recv_result(receiver: &Receiver<DiffResult>) -> Option<DiffResult> {
    match receiver.try_recv() {
        Ok(r) => Some(r),
        Err(_) => None,
    }
}

/// A job or a result as plain values: its number and its text.
pub open spec fn job_view(j: DiffJob) -> (u64, Seq<char>) {
    (j.seq, j.hash@)
}

pub open spec fn result_view(r: DiffResult) -> (u64, Seq<char>) {
    (r.seq, r.text@)
}

/// The two ends of the channel pair to a diff worker thread, with a record of
/// the jobs sent on the one and the results taken from the other.
pub struct DiffWorker {
    sender: Sender<DiffJob>,
    receiver: Receiver<DiffResult>,
    sent_log: Ghost<Seq<(u64, Seq<char>)>>,
    received_log: Ghost<Seq<(u64, Seq<char>)>>,
}

impl DiffWorker {
    /// The end on which jobs go to the worker.
    pub closed spec fn job_sender(&self) -> Sender<DiffJob> {
        self.sender
    }

    /// The end on which finished diffs come back.
    pub closed spec fn result_receiver(&self) -> Receiver<DiffResult> {
        self.receiver
    }

    /// The jobs handed to the sender so far, in order, as (number, hash).
    pub closed spec fn sent(&self) -> Seq<(u64, Seq<char>)> {
        self.sent_log@
    }

    /// The results taken from the receiver so far, in order, as (number, text).
    pub closed spec fn received(&self) -> Seq<(u64, Seq<char>)> {
        self.received_log@
    }

    /// Wraps the job sender and result receiver of a running worker; nothing
    /// has been sent or received through it yet.
    pub fn from_channels(sender: Sender<DiffJob>, receiver: Receiver<DiffResult>) -> (res: Self)
        ensures
            res.job_sender() == sender,
            res.result_receiver() == receiver,
            res.sent() == Seq::<(u64, Seq<char>)>::empty(),
            res.received() == Seq::<(u64, Seq<char>)>::empty(),
    {
        DiffWorker { sender, receiver, sent_log: Ghost(Seq::empty()), received_log: Ghost(Seq::empty()) }
    }

    /// `Sender::send` on the job sender: hands `job` to the channel, and the
    /// contract records it, as it was handed over, at the end of `sent`.
    /// Whether the worker is still there to take it is not stated: the send
    /// fails only when the worker is gone, and that failure is ignored.
    #[verifier::external_body]
    fn send_job(&mut self, job: DiffJob)
        ensures
            final(self).sent() == old(self).sent().push(job_view(job)),
            final(self).received() == old(self).received(),
            final(self).job_sender() == old(self).job_sender(),
            final(self).result_receiver() == old(self).result_receiver(),
    {
        let _ = self.sender.send(job);
    }

    /// Asks the worker for the diff of `hash`, tagged with `seq`: exactly that
    /// job is handed to the sender.
    pub fn dispatch(&mut self, seq: u64, hash: &str)
        ensures
            final(self).sent() == old(self).sent().push((seq, hash@)),
            final(self).received() == old(self).received(),
            final(self).job_sender() == old(self).job_sender(),
            final(self).result_receiver() == old(self).result_receiver(),
    {
        self.send_job(DiffJob { seq, hash: String::from_str(hash) });
    }

    /// A finished diff, if one is ready; a result taken is recorded as received.
    pub fn poll(&mut self) -> (res: Option<DiffResult>)
        ensures
            final(self).received() == match res {
                Some(r) => old(self).received().push(result_view(r)),
                None => old(self).received(),
            },
            final(self).sent() == old(self).sent(),
            final(self).job_sender() == old(self).job_sender(),
            final(self).result_receiver() == old(self).result_receiver(),
    {
        let res = try_recv_result(&self.receiver);
        match &res {
            Some(r) => {
                self.received_log = Ghost(self.received_log@.push(result_view(*r)));
            },
            None => {},
        }
        res
    }
}

/// The text shown when git has no patch for a commit.
pub open spec fn no_diff_notice() -> Seq<char> {
    "(no diff available — root commit or binary-only change)"@
}

/// The patch git printed, or the notice when it printed none.
pub fn patch_text(shown: Option<String>) -> (res: String)
    ensures
        res@ == match shown {
            Some(s) => s@,
            None => no_diff_notice(),
        },
{
    match shown {
        Some(s) => s,
        None => String::from_str("(no diff available — root commit or binary-only change)"),
    }
}

/// The diff text: the pager's styled output when it produced one, else the patch.
pub fn fetch_diff(patch: String, styled: Option<String>) -> (res: String)
    ensures
        res@ == match styled {
            Some(s) => s@,
            None => patch@,
        },
{
    match styled {
        Some(s) => s,
        None => patch,
    }
}

/// The details text of commit `hash`: what `git show` printed, or a
/// placeholder naming the commit when it failed.
pub fn format_commit_details(hash: &str, shown: Option<String>) -> (res: String)
    ensures
        res@ == match shown {
            Some(s) => s@,
            None => "commit "@ + hash@ + "\n(no details)"@,
        },
{
    match shown {
        Some(s) => s,
        None => {
            let mut t = String::from_str("commit ");
            t.append(hash);
            t.append("\n(no details)");
            t
        },
    }
}

} // verus!
