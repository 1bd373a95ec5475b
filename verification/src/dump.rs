//! The conversion of one file, as a machine that is told what happened outside
//! and answers what to do next. Whoever drives it does the reading, probing,
//! opening and writing; the machine decides.

use vstd::prelude::*;

use crate::errors::{Error, Policy};
use crate::format::{
    codec_of, file_type_of, lemma_qmc_payload_is_recognised, Codec, FileType, PAYLOAD_HEAD_SIZE,
};
use crate::metadata::{finish_payload, settles, TrackMetadata};
use crate::qmcdump::transform;

verus! {

/// How the output file is opened.
#[derive(Clone, Copy, Debug, PartialEq, Eq, Structural)]
pub enum OpenMode {
    /// The file is not there yet and is created.
    Create,
    /// The file is there and is emptied.
    Truncate,
}

/// Where the conversion of one file stands.
#[derive(Clone, Copy, Debug, PartialEq, Eq, Structural)]
pub enum Stage {
    /// The first plain bytes of the payload are awaited.
    Sniffing,
    /// The codec is known; whether the output is already there is awaited.
    Probing(Codec),
    /// The output is open; the rest of the payload is awaited.
    Copying(Codec),
    /// The payload was handed out to be written.
    Done,
    /// The conversion was given up.
    Failed,
}

/// What happened outside.
#[derive(Clone, Debug, PartialEq, Eq)]
pub enum Event {
    /// The first plain bytes of the payload were read.
    Head(Vec<u8>),
    /// The output path was probed.
    Probed { exists: bool },
    /// More plain bytes of the payload were read; none, when it is at its end.
    Chunk(Vec<u8>),
    /// The outside work failed.
    Broken(Error),
}

/// What to do next.
#[derive(Clone, Debug, PartialEq, Eq)]
pub enum Action {
    /// Read the first plain bytes of the payload.
    ReadHead,
    /// Work out the output path for this codec and see whether it is there.
    Probe(Codec),
    /// Open the output so, and read on.
    Open(OpenMode),
    /// Count so many bytes as done, and read on.
    Read { done: usize },
    /// Write the payload, with the file's metadata put in if `tagged`, and end.
    Write { payload: Vec<u8>, tagged: bool },
    /// Give the file up for this reason.
    Fail(Error),
    /// Nothing is left to do.
    Stop,
}

/// What happened outside, as a plain value.
pub enum EventView {
    Head(Seq<u8>),
    Probed { exists: bool },
    Chunk(Seq<u8>),
    Broken(Error),
}

/// What to do next, as a plain value.
pub enum ActionView {
    ReadHead,
    Probe(Codec),
    Open(OpenMode),
    Read { done: usize },
    Write { payload: Seq<u8>, tagged: bool },
    Fail(Error),
    Stop,
}

impl View for Event {
    type V = EventView;

    open spec fn view(&self) -> EventView {
        match self {
            Event::Head(bytes) => EventView::Head(bytes@),
            Event::Probed { exists } => EventView::Probed { exists: *exists },
            Event::Chunk(bytes) => EventView::Chunk(bytes@),
            Event::Broken(error) => EventView::Broken(*error),
        }
    }
}

impl View for Action {
    type V = ActionView;

    open spec fn view(&self) -> ActionView {
        match self {
            Action::ReadHead => ActionView::ReadHead,
            Action::Probe(codec) => ActionView::Probe(*codec),
            Action::Open(mode) => ActionView::Open(*mode),
            Action::Read { done } => ActionView::Read { done: *done },
            Action::Write { payload, tagged } => ActionView::Write {
                payload: payload@,
                tagged: *tagged,
            },
            Action::Fail(error) => ActionView::Fail(*error),
            Action::Stop => ActionView::Stop,
        }
    }
}

/// The state of a conversion as the laws speak of it: the stage, and the plain
/// bytes gathered so far.
pub struct DumpView {
    pub format: FileType,
    pub overwrite: bool,
    pub stage: Stage,
    pub data: Seq<u8>,
}

/// How the output is opened, or why it is not.
pub open spec fn open_mode_spec(exists: bool, overwrite: bool) -> Result<OpenMode, Error> {
    if !exists {
        Ok(OpenMode::Create)
    } else if overwrite {
        Ok(OpenMode::Truncate)
    } else {
        Err(Error::Exists)
    }
}

/// Decides how the output is opened: a file that is not there is created, one
/// that is there is emptied if it may be overwritten, and refused otherwise.
pub fn open_mode(exists: bool, overwrite: bool) -> (mode: Result<OpenMode, Error>)
    ensures
        mode == open_mode_spec(exists, overwrite),
{
    if !exists {
        Ok(OpenMode::Create)
    } else if overwrite {
        Ok(OpenMode::Truncate)
    } else {
        Err(Error::Exists)
    }
}

impl DumpView {
    /// The state that a conversion starts in.
    pub open spec fn start(format: FileType, overwrite: bool) -> DumpView {
        DumpView {
            format,
            overwrite,
            stage: if format == FileType::Other {
                Stage::Failed
            } else {
                Stage::Sniffing
            },
            data: Seq::empty(),
        }
    }

    /// The first thing to do.
    pub open spec fn first_action(format: FileType) -> ActionView {
        if format == FileType::Other {
            ActionView::Fail(Error::Format)
        } else {
            ActionView::ReadHead
        }
    }

    /// The state with another stage and other bytes.
    pub open spec fn at(self, stage: Stage, data: Seq<u8>) -> DumpView {
        DumpView { format: self.format, overwrite: self.overwrite, stage, data }
    }

    /// The state given up.
    pub open spec fn failed(self) -> DumpView {
        self.at(Stage::Failed, Seq::empty())
    }

    /// The state after `event`, and what to do then.
    pub open spec fn step(self, event: EventView) -> (DumpView, ActionView) {
        match (self.stage, event) {
            (Stage::Done, _) | (Stage::Failed, _) => (self, ActionView::Stop),
            (_, EventView::Broken(error)) => (self.failed(), ActionView::Fail(error)),
            (Stage::Sniffing, EventView::Head(bytes)) => match codec_of(bytes) {
                Some(codec) => (self.at(Stage::Probing(codec), bytes), ActionView::Probe(codec)),
                None => (self.failed(), ActionView::Fail(Error::Format)),
            },
            (Stage::Probing(codec), EventView::Probed { exists }) => match open_mode_spec(
                exists,
                self.overwrite,
            ) {
                Ok(mode) => (self.at(Stage::Copying(codec), self.data), ActionView::Open(mode)),
                Err(error) => (self.failed(), ActionView::Fail(error)),
            },
            (Stage::Copying(codec), EventView::Chunk(bytes)) => if bytes.len() == 0 {
                (
                    self.at(Stage::Done, Seq::empty()),
                    ActionView::Write {
                        payload: self.data,
                        tagged: self.format == FileType::Ncm,
                    },
                )
            } else {
                (
                    self.at(Stage::Copying(codec), self.data + bytes),
                    ActionView::Read { done: bytes.len() as usize },
                )
            },
            _ => (self.failed(), ActionView::Fail(Error::Unknow)),
        }
    }

    /// The state after a run of events.
    pub open spec fn after(self, events: Seq<EventView>) -> DumpView
        decreases events.len(),
    {
        if events.len() == 0 {
            self
        } else {
            self.after(events.drop_last()).step(events.last()).0
        }
    }

    /// What was answered to each of a run of events.
    pub open spec fn answers(self, events: Seq<EventView>) -> Seq<ActionView>
        decreases events.len(),
    {
        if events.len() == 0 {
            Seq::empty()
        } else {
            self.answers(events.drop_last()).push(
                self.after(events.drop_last()).step(events.last()).1,
            )
        }
    }
}

/// Whether an answer touches the output file.
pub open spec fn touches_output(action: ActionView) -> bool {
    action is Open || action is Write
}

/// The events of a payload read in the given chunks.
pub open spec fn chunk_events(chunks: Seq<Seq<u8>>) -> Seq<EventView> {
    Seq::new(chunks.len(), |i: int| EventView::Chunk(chunks[i]))
}

proof fn lemma_after_push(view: DumpView, events: Seq<EventView>, event: EventView)
    ensures
        view.after(events.push(event)) == view.after(events).step(event).0,
        view.answers(events.push(event)) == view.answers(events).push(
            view.after(events).step(event).1,
        ),
        view.answers(events).len() == events.len(),
    decreases events.len(),
{
    assert(events.push(event).drop_last() =~= events);
    if events.len() > 0 {
        lemma_after_push(view, events.drop_last(), events.last());
        assert(events.drop_last().push(events.last()) =~= events);
    }
}

proof fn lemma_after_prepend(view: DumpView, event: EventView, events: Seq<EventView>)
    ensures
        view.after(seq![event] + events) == view.step(event).0.after(events),
        view.answers(seq![event] + events) == seq![view.step(event).1] + view.step(
            event,
        ).0.answers(events),
    decreases events.len(),
{
    let next = view.step(event).0;
    if events.len() == 0 {
        assert(seq![event] + events =~= Seq::<EventView>::empty().push(event));
        lemma_after_push(view, Seq::empty(), event);
        assert(view.answers(Seq::empty().push(event)) =~= seq![view.step(event).1]
            + next.answers(events));
    } else {
        lemma_after_prepend(view, event, events.drop_last());
        assert((seq![event] + events).drop_last() =~= seq![event] + events.drop_last());
        assert((seq![event] + events).last() == events.last());
        assert(view.answers(seq![event] + events) =~= seq![view.step(event).1] + next.answers(
            events,
        ));
    }
}

/// A conversion that has ended, well or not, stays as it is and asks for nothing
/// more, whatever it is told.
pub proof fn lemma_ended_stays_ended(view: DumpView, events: Seq<EventView>)
    requires
        view.stage == Stage::Done || view.stage == Stage::Failed,
    ensures
        view.after(events) == view,
        view.answers(events).len() == events.len(),
        forall|i: int| 0 <= i < events.len() ==> view.answers(events)[i] == ActionView::Stop,
    decreases events.len(),
{
    if events.len() > 0 {
        lemma_ended_stays_ended(view, events.drop_last());
    }
}

/// A payload whose first plain bytes are those of no known codec is refused as
/// an unknown format, and nothing that is answered then or later touches the
/// output file.
pub proof fn lemma_unknown_payload_is_refused(
    format: FileType,
    overwrite: bool,
    head: Seq<u8>,
    rest: Seq<EventView>,
)
    requires
        format != FileType::Other,
        codec_of(head) is None,
    ensures
        ({
            let answers = DumpView::start(format, overwrite).answers(
                seq![EventView::Head(head)] + rest,
            );
            &&& answers.len() == 1 + rest.len()
            &&& answers[0] == ActionView::Fail(Error::Format)
            &&& forall|i: int| 0 <= i < answers.len() ==> !touches_output(answers[i])
        }),
{
    let start = DumpView::start(format, overwrite);
    lemma_after_prepend(start, EventView::Head(head), rest);
    lemma_ended_stays_ended(start.step(EventView::Head(head)).0, rest);
}

/// An output that is already there and may not be overwritten is reported as
/// existing, and nothing that is answered then or later touches it.
pub proof fn lemma_existing_output_is_kept(view: DumpView, rest: Seq<EventView>)
    requires
        view.stage is Probing,
        !view.overwrite,
    ensures
        ({
            let answers = view.answers(seq![EventView::Probed { exists: true }] + rest);
            &&& answers.len() == 1 + rest.len()
            &&& answers[0] == ActionView::Fail(Error::Exists)
            &&& forall|i: int| 0 <= i < answers.len() ==> !touches_output(answers[i])
        }),
{
    let probed = EventView::Probed { exists: true };
    lemma_after_prepend(view, probed, rest);
    lemma_ended_stays_ended(view.step(probed).0, rest);
}

/// An output that is already there and may be overwritten is emptied, and one
/// that is not there is created.
pub proof fn lemma_output_is_opened(view: DumpView, exists: bool)
    requires
        view.stage is Probing,
        view.overwrite || !exists,
    ensures
        view.step(EventView::Probed { exists }).1 == ActionView::Open(
            if exists {
                OpenMode::Truncate
            } else {
                OpenMode::Create
            },
        ),
{
}

proof fn lemma_chunks_are_gathered(view: DumpView, chunks: Seq<Seq<u8>>)
    requires
        view.stage is Copying,
        forall|i: int| 0 <= i < chunks.len() ==> chunks[i].len() > 0,
    ensures
        view.after(chunk_events(chunks)) == view.at(view.stage, view.data + chunks.flatten()),
    decreases chunks.len(),
{
    let events = chunk_events(chunks);
    if chunks.len() == 0 {
        assert(chunks.flatten() =~= Seq::<u8>::empty());
        assert(view.data + chunks.flatten() =~= view.data);
    } else {
        let front = chunks.drop_last();
        lemma_chunks_are_gathered(view, front);
        assert(events.drop_last() =~= chunk_events(front));
        assert(events.last() == EventView::Chunk(chunks.last()));
        assert(chunks =~= front.push(chunks.last()));
        front.lemma_flatten_push(chunks.last());
        assert(view.data + front.flatten() + chunks.last() =~= view.data + chunks.flatten());
    }
}

/// What is written is what was read, in the order in which it was read: the
/// first bytes, then each chunk. It is tagged exactly when the file is of the
/// container that carries metadata.
pub proof fn lemma_payload_is_what_was_read(
    format: FileType,
    overwrite: bool,
    head: Seq<u8>,
    exists: bool,
    chunks: Seq<Seq<u8>>,
)
    requires
        format != FileType::Other,
        codec_of(head) is Some,
        overwrite || !exists,
        forall|i: int| 0 <= i < chunks.len() ==> chunks[i].len() > 0,
    ensures
        ({
            let events = seq![EventView::Head(head), EventView::Probed { exists }] + chunk_events(
                chunks,
            );
            let close = EventView::Chunk(Seq::empty());
            &&& DumpView::start(format, overwrite).after(events).step(close).0.stage == Stage::Done
            &&& DumpView::start(format, overwrite).after(events).step(close).1
                == ActionView::Write {
                payload: head + chunks.flatten(),
                tagged: format == FileType::Ncm,
            }
        }),
{
    let start = DumpView::start(format, overwrite);
    let sniffed = start.step(EventView::Head(head)).0;
    let opened = sniffed.step(EventView::Probed { exists }).0;
    let events = seq![EventView::Head(head), EventView::Probed { exists }] + chunk_events(chunks);
    let tail = seq![EventView::Probed { exists }] + chunk_events(chunks);
    assert(events =~= seq![EventView::Head(head)] + tail);
    lemma_after_prepend(start, EventView::Head(head), tail);
    lemma_after_prepend(sniffed, EventView::Probed { exists }, chunk_events(chunks));
    lemma_chunks_are_gathered(opened, chunks);
}

/// A file of no known container is refused as an unknown format before
/// anything is read, and nothing that is answered later touches the output
/// file.
pub proof fn lemma_unknown_container_is_refused(overwrite: bool, events: Seq<EventView>)
    ensures
        DumpView::first_action(FileType::Other) == ActionView::Fail(Error::Format),
        DumpView::start(FileType::Other, overwrite).stage == Stage::Failed,
        forall|i: int|
            0 <= i < events.len() ==> !touches_output(
                #[trigger] DumpView::start(FileType::Other, overwrite).answers(events)[i],
            ),
{
    lemma_ended_stays_ended(DumpView::start(FileType::Other, overwrite), events);
}

/// A stream of the raw-offset-keyed container comes out whole: if it is read
/// to its end, in whatever chunks, what is written is the stream in plain
/// text from its first byte to its last, and it is not tagged.
pub proof fn lemma_qmc_stream_is_written_whole(
    stream: Seq<u8>,
    overwrite: bool,
    exists: bool,
    chunks: Seq<Seq<u8>>,
)
    requires
        file_type_of(stream) == FileType::Qmc,
        overwrite || !exists,
        forall|i: int| 0 <= i < chunks.len() ==> chunks[i].len() > 0,
        transform(0, stream).skip(PAYLOAD_HEAD_SIZE as int) == chunks.flatten(),
    ensures
        ({
            let plain = transform(0, stream);
            let events = seq![
                EventView::Head(plain.take(PAYLOAD_HEAD_SIZE as int)),
                EventView::Probed { exists },
            ] + chunk_events(chunks);
            DumpView::start(FileType::Qmc, overwrite).after(events).step(
                EventView::Chunk(Seq::empty()),
            ).1 == ActionView::Write { payload: plain, tagged: false }
        }),
{
    let plain = transform(0, stream);
    let head = plain.take(PAYLOAD_HEAD_SIZE as int);
    lemma_qmc_payload_is_recognised(stream);
    assert(head.subrange(0, 4) =~= plain.subrange(0, 4));
    assert(head.subrange(0, 3) =~= plain.subrange(0, 3));
    assert(codec_of(head) == codec_of(plain));
    lemma_payload_is_what_was_read(FileType::Qmc, overwrite, head, exists, chunks);
    assert(head + chunks.flatten() =~= plain);
}

/// No failure that the machine itself finds stops the run: each costs the one
/// file it was found on.
pub proof fn lemma_own_failures_cost_one_file(view: DumpView, event: EventView)
    requires
        !(event is Broken),
    ensures
        view.step(event).1 matches ActionView::Fail(error) ==> error.policy_spec()
            == Policy::SkipItem,
{
}

/// The bytes to write at the end of a conversion, and why the metadata was
/// left out, if it was. A payload that is not to be tagged, or that comes
/// without metadata, goes through unchanged. A payload that is to be tagged
/// goes through with its metadata in it wherever that is owed; where the
/// metadata is refused, the payload goes through unchanged all the same, and
/// the reason comes with it.
pub fn bytes_to_write(payload: Vec<u8>, tagged: bool, metadata: Option<&TrackMetadata>) -> (out: (
    Vec<u8>,
    Option<Error>,
))
    ensures
        codec_of(out.0@) == codec_of(payload@),
        !tagged || metadata is None ==> out.0@ == payload@ && out.1 is None,
        out.1 is Some ==> out.0@ == payload@,
        tagged ==> (metadata matches Some(given) ==> settles(
            payload@,
            *given,
            match out.1 {
                None => Ok(out.0@),
                Some(error) => Err(error),
            },
        )),
{
    if tagged {
        finish_payload(payload, metadata)
    } else {
        (payload, None)
    }
}

/// The conversion of one file.
pub struct Dump {
    format: FileType,
    overwrite: bool,
    stage: Stage,
    data: Vec<u8>,
}

impl View for Dump {
    type V = DumpView;

    closed spec fn view(&self) -> DumpView {
        DumpView {
            format: self.format,
            overwrite: self.overwrite,
            stage: self.stage,
            data: self.data@,
        }
    }
}

impl Dump {
    /// Starts the conversion of a file of the given container, and says what to
    /// do first. A file of no known container is given up at once.
    pub fn new(format: FileType, overwrite: bool) -> (start: (Dump, Action))
        ensures
            start.0@ == DumpView::start(format, overwrite),
            start.1@ == DumpView::first_action(format),
    {
        match format {
            FileType::Other => (
                Dump { format, overwrite, stage: Stage::Failed, data: Vec::new() },
                Action::Fail(Error::Format),
            ),
            _ => (
                Dump { format, overwrite, stage: Stage::Sniffing, data: Vec::new() },
                Action::ReadHead,
            ),
        }
    }

    /// Where the conversion stands.
    pub fn stage(&self) -> (stage: Stage)
        ensures
            stage == self@.stage,
    {
        self.stage
    }

    /// Takes note of what happened outside and says what to do next.
    pub fn step(&mut self, event: Event) -> (action: Action)
        ensures
            final(self)@ == old(self)@.step(event@).0,
            action@ == old(self)@.step(event@).1,
    {
        match self.stage {
            Stage::Done | Stage::Failed => {
                return Action::Stop;
            },
            _ => {},
        }
        let mut gathered: Vec<u8> = Vec::new();
        std::mem::swap(&mut gathered, &mut self.data);
        let (stage, action) = match (self.stage, event) {
            (_, Event::Broken(error)) => (Stage::Failed, Action::Fail(error)),
            (Stage::Sniffing, Event::Head(bytes)) => match Codec::detect(bytes.as_slice()) {
                Ok(codec) => {
                    gathered = bytes;
                    (Stage::Probing(codec), Action::Probe(codec))
                },
                Err(error) => (Stage::Failed, Action::Fail(Error::Format)),
            },
            (Stage::Probing(codec), Event::Probed { exists }) => match open_mode(
                exists,
                self.overwrite,
            ) {
                Ok(mode) => (Stage::Copying(codec), Action::Open(mode)),
                Err(error) => (Stage::Failed, Action::Fail(error)),
            },
            (Stage::Copying(codec), Event::Chunk(mut bytes)) => {
                if bytes.len() == 0 {
                    let payload = gathered;
                    gathered = Vec::new();
                    let tagged = match self.format {
                        FileType::Ncm => true,
                        _ => false,
                    };
                    (Stage::Done, Action::Write { payload, tagged })
                } else {
                    let done = bytes.len();
                    gathered.append(&mut bytes);
                    (Stage::Copying(codec), Action::Read { done })
                }
            },
            _ => (Stage::Failed, Action::Fail(Error::Unknow)),
        };
        match stage {
            Stage::Failed => {
                gathered = Vec::new();
            },
            _ => {},
        }
        self.stage = stage;
        self.data = gathered;
        action
    }
}

} // verus!
