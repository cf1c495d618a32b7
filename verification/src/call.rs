//! A call on a device as a dialogue: the call asks for one thing after another, and goes on with
//! the reply.

use vstd::prelude::*;

use crate::report::report_bytes;

verus! {

/// What a call does to a device once its last report is written.
#[derive(Debug, Clone, Copy, PartialEq, Eq, Structural)]
pub enum Completion {
    /// Nothing.
    Nothing,
    /// What was sent is visible now: the images that were queued first, as many as the call has
    /// sent, are forgotten, and no clear waits any more.
    Commit {
        /// How many images the call has sent.
        count: usize,
    },
    /// A clear waits to be made visible.
    LeaveClear,
    /// An image for this key is asked for and queued.
    StoreImage {
        /// The key.
        key: u8,
    },
}

/// A call on a device that is under way.
#[derive(Debug)]
pub struct Call {
    reports: Vec<Vec<u8>>,
    written: usize,
    completion: Completion,
    failed: bool,
}

/// The contents of a [`Call`].
#[verifier::ext_equal]
pub struct CallView {
    /// The reports that the call writes, in order.
    pub reports: Seq<Seq<u8>>,
    /// How many of them are written.
    pub written: nat,
    /// What is still to be done after the last of them.
    pub completion: Completion,
    /// Whether the call was given up because something that it asked for failed.
    pub failed: bool,
}

/// What a call asks for next.
#[derive(Debug, PartialEq, Eq)]
pub enum Request<'a> {
    /// This report is to be written.
    Write(&'a [u8]),
    /// The image is to be converted for the device.
    Convert,
    /// Nothing: the call has succeeded.
    Finished,
    /// Nothing: the call has failed.
    Failed,
}

/// The contents of a [`Request`].
pub enum RequestView {
    Write(Seq<u8>),
    Convert,
    Finished,
    Failed,
}

/// What came of a request.
#[derive(Debug)]
pub enum Reply {
    /// The report was written.
    Written,
    /// The image was converted to these bytes.
    Converted(Vec<u8>),
    /// The request failed.
    Failed,
}

/// The contents of a [`Reply`].
pub enum ReplyView {
    Written,
    Converted(Seq<u8>),
    Failed,
}

impl View for Call {
    type V = CallView;

    closed spec fn view(&self) -> CallView {
        CallView {
            reports: report_bytes(self.reports@),
            written: self.written as nat,
            completion: self.completion,
            failed: self.failed,
        }
    }
}

impl<'a> View for Request<'a> {
    type V = RequestView;

    open spec fn view(&self) -> RequestView {
        match self {
            Request::Write(report) => RequestView::Write(report@),
            Request::Convert => RequestView::Convert,
            Request::Finished => RequestView::Finished,
            Request::Failed => RequestView::Failed,
        }
    }
}

impl View for Reply {
    type V = ReplyView;

    open spec fn view(&self) -> ReplyView {
        match self {
            Reply::Written => ReplyView::Written,
            Reply::Converted(image_data) => ReplyView::Converted(image_data@),
            Reply::Failed => ReplyView::Failed,
        }
    }
}

/// A call that writes `reports` and is then completed as `completion` says, at its start.
pub open spec fn started(reports: Seq<Seq<u8>>, completion: Completion) -> CallView {
    CallView { reports, written: 0, completion, failed: false }
}

/// A call that writes `reports` and does nothing else, at its start.
pub open spec fn writing(reports: Seq<Seq<u8>>) -> CallView {
    started(reports, Completion::Nothing)
}

impl CallView {
    /// What the call asks for next: its reports in order, then the image that it is to store.
    pub open spec fn request(self) -> RequestView {
        if self.failed {
            RequestView::Failed
        } else if self.written < self.reports.len() {
            RequestView::Write(self.reports[self.written as int])
        } else if self.completion is StoreImage {
            RequestView::Convert
        } else {
            RequestView::Finished
        }
    }

    /// What takes effect when the report that the call asks for is written: where it is the last
    /// one, what the call does once all are written.
    pub open spec fn effect(self) -> Completion {
        if self.written + 1 == self.reports.len() && !(self.completion is StoreImage) {
            self.completion
        } else {
            Completion::Nothing
        }
    }

    /// The call after the report that it asked for was written. What has taken effect is not left
    /// to be done.
    pub open spec fn after_write(self) -> CallView {
        CallView {
            written: self.written + 1,
            completion: if self.effect() is Nothing {
                self.completion
            } else {
                Completion::Nothing
            },
            ..self
        }
    }
}

impl Call {
    /// A call at its start.
    pub(crate) fn start(reports: Vec<Vec<u8>>, completion: Completion) -> (call: Call)
        ensures
            call@ == started(report_bytes(reports@), completion),
    {
        Call { reports, written: 0, completion, failed: false }
    }

    /// What the call asks for next.
    pub fn request(&self) -> (request: Request<'_>)
        ensures
            request@ == self@.request(),
    {
        if self.failed {
            Request::Failed
        } else if self.written < self.reports.len() {
            Request::Write(self.reports[self.written].as_slice())
        } else if let Completion::StoreImage { .. } = self.completion {
            Request::Convert
        } else {
            Request::Finished
        }
    }

    /// Whether the call asks for a report to be written.
    pub(crate) fn asks_for_write(&self) -> (asks: bool)
        ensures
            asks == (self@.request() is Write),
    {
        !self.failed && self.written < self.reports.len()
    }

    /// Whether the call asks for an image.
    pub(crate) fn asks_for_image(&self) -> (asks: bool)
        ensures
            asks == (self@.request() is Convert),
    {
        if self.failed || self.written < self.reports.len() {
            return false;
        }
        match self.completion {
            Completion::StoreImage { .. } => true,
            _ => false,
        }
    }

    /// What is still to be done after the last report.
    pub(crate) fn completion(&self) -> (completion: Completion)
        ensures
            completion == self@.completion,
    {
        self.completion
    }

    /// Notes that the report that was asked for is written, and tells what takes effect now.
    pub(crate) fn note_written(&mut self) -> (effect: Completion)
        requires
            old(self)@.request() is Write,
        ensures
            final(self)@ == old(self)@.after_write(),
            effect == old(self)@.effect(),
    {
        let count: usize = self.reports.len();
        self.written = self.written + 1;
        if self.written < count {
            return Completion::Nothing;
        }
        match self.completion {
            Completion::StoreImage { .. } => Completion::Nothing,
            effect => {
                self.completion = Completion::Nothing;
                effect
            },
        }
    }

    /// Notes that the image that was asked for is stored.
    pub(crate) fn note_stored(&mut self)
        ensures
            final(self)@ == (CallView { completion: Completion::Nothing, ..old(self)@ }),
    {
        self.completion = Completion::Nothing;
    }

    /// Gives the call up.
    pub(crate) fn note_failed(&mut self)
        ensures
            final(self)@ == (CallView { failed: true, ..old(self)@ }),
    {
        self.failed = true;
    }
}

/// The contents of a call are its fields.
proof fn law_call_parts(call: Call)
    ensures
        call@.reports.len() == call.reports@.len(),
        forall|i: int|
            0 <= i < call.reports@.len() ==> #[trigger] call@.reports[i] == call.reports@[i]@,
        call@.written == call.written,
        call@.completion == call.completion,
        call@.failed == call.failed,
{
}

/// A request and a reply are seen as what they say.
pub proof fn law_dialogue_parts(report: &[u8], image_data: Vec<u8>)
    ensures
        Request::Write(report)@ == RequestView::Write(report@),
        Request::<'_>::Convert@ == RequestView::Convert,
        Request::<'_>::Finished@ == RequestView::Finished,
        Request::<'_>::Failed@ == RequestView::Failed,
        Reply::Written@ == ReplyView::Written,
        Reply::Converted(image_data)@ == ReplyView::Converted(image_data@),
        Reply::Failed@ == ReplyView::Failed,
{
}

/// A call at its start has all its reports before it, and none has failed.
pub proof fn law_started_parts(reports: Seq<Seq<u8>>, completion: Completion)
    ensures
        started(reports, completion).reports == reports,
        started(reports, completion).written == 0,
        started(reports, completion).completion == completion,
        !started(reports, completion).failed,
        writing(reports).reports == reports,
        writing(reports).written == 0,
        writing(reports).completion == Completion::Nothing,
        !writing(reports).failed,
{
}

/// A call that has failed asks for nothing. Any other asks for the first report that is not
/// written, then for the image that it is to store, and has succeeded when nothing is left.
pub proof fn law_request(call: CallView)
    ensures
        call.failed ==> call.request() == RequestView::Failed,
        !call.failed && call.written < call.reports.len() ==> call.request()
            == RequestView::Write(call.reports[call.written as int]),
        !call.failed && call.written >= call.reports.len() && call.completion is StoreImage
            ==> call.request() == RequestView::Convert,
        !call.failed && call.written >= call.reports.len() && !(call.completion is StoreImage)
            ==> call.request() == RequestView::Finished,
{
}

} // verus!
