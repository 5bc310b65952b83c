//! The steps from a media playlist to the output file.

use crate::error::{Error, ErrorView};
use crate::options::{FinalizeBackend, OutputFormat, TransmuxOptions};
use crate::outside::{
    file_name_of, is_ordinary, parent_of, path_file_name, path_set_file_name, renamed_path,
    separates, text_view,
};
use crate::types::{report_outcome, ReportView, TransmuxReport};
use vstd::prelude::*;

verus! {

/// The place of the last dot in a file name, or -1.
pub open spec fn last_dot(name: Seq<char>) -> int
    decreases name.len(),
{
    if name.len() == 0 {
        -1
    } else if name.last() == '.' {
        name.len() - 1
    } else {
        last_dot(name.drop_last())
    }
}

/// A file name up to its last dot. A name without a dot, or with none but at its
/// beginning, is a stem as it is.
pub open spec fn name_stem(name: Seq<char>) -> Seq<char> {
    if last_dot(name) <= 0 {
        name
    } else {
        name.subrange(0, last_dot(name))
    }
}

/// A file name from behind its last dot on. A name without a dot, or with none but
/// at its beginning, has no extension.
pub open spec fn name_extension(name: Seq<char>) -> Option<Seq<char>> {
    if last_dot(name) <= 0 {
        None
    } else {
        Some(name.subrange(last_dot(name) + 1, name.len() as int))
    }
}

/// The name of the temporary file, given that of the output, if it has one:
/// `.partial` stands between the stem and the extension.
pub open spec fn partial_name(name: Option<Seq<char>>) -> Seq<char> {
    match name {
        None => ".partial"@,
        Some(name) => match name_extension(name) {
            Some(extension) => if extension.len() == 0 {
                name_stem(name) + ".partial"@
            } else {
                name_stem(name) + ".partial"@ + "."@ + extension
            },
            None => name_stem(name) + ".partial"@,
        },
    }
}

/// The path of the temporary file: that of the output with `.partial` before the
/// extension.
pub open spec fn partial_path(output: Seq<char>) -> Seq<char> {
    renamed_path(output, partial_name(file_name_of(output)))
}

/// The last dot is a dot, and there is none behind it.
pub proof fn lemma_last_dot(name: Seq<char>)
    ensures
        -1 <= last_dot(name) < name.len(),
        last_dot(name) >= 0 ==> name[last_dot(name)] == '.',
        forall|k: int| last_dot(name) < k < name.len() ==> #[trigger] name[k] != '.',
    decreases name.len(),
{
    if name.len() > 0 && name.last() != '.' {
        let before = name.drop_last();
        lemma_last_dot(before);
        assert forall|k: int| last_dot(name) < k < name.len() implies #[trigger] name[k] != '.' by {
            if k < before.len() {
                assert(before[k] == name[k]);
            }
        }
    }
}

/// Finds the last dot in a file name.
fn find_last_dot(name: &str) -> (place: Option<usize>)
    ensures
        place is None <==> last_dot(name@) < 0,
        place matches Some(place) ==> place == last_dot(name@),
{
    let mut end: usize = name.unicode_len();
    assert(name@.take(end as int) =~= name@);
    while end > 0
        invariant
            end <= name@.len(),
            last_dot(name@) == last_dot(name@.take(end as int)),
        decreases end,
    {
        assert(name@.take(end as int).drop_last() =~= name@.take(end - 1));
        if name.get_char(end - 1) == '.' {
            return Some(end - 1);
        }
        end = end - 1;
    }
    None
}

/// Names the temporary file, given the name of the output, if it has one.
pub fn temp_file_name(name: Option<String>) -> (temp: String)
    ensures
        temp@ == partial_name(text_view(name)),
{
    let name: String = match name {
        Some(name) => name,
        None => {
            return ".partial".to_owned();
        },
    };
    proof {
        lemma_last_dot(name@);
    }
    let dot: usize = match find_last_dot(name.as_str()) {
        Some(place) => place,
        None => 0,
    };
    if dot == 0 {
        let mut temp: String = name;
        temp.append(".partial");
        return temp;
    }
    let length: usize = name.as_str().unicode_len();
    let mut temp: String = name.as_str().substring_char(0, dot).to_owned();
    temp.append(".partial");
    let extension: &str = name.as_str().substring_char(dot + 1, length);
    if !extension.is_empty() {
        temp.append(".");
        temp.append(extension);
    }
    temp
}

/// The path of the temporary file of [`OutputFormat::StreamingMp4`]. It keeps the
/// extension of the output, because it is a playable MP4 itself. The file is not the
/// output but stands beside it, unless the name of the output has characters that
/// make a path of it on some platform; then that is said only where the name of the
/// temporary file is a file name by itself.
pub fn temp_fmp4_path(output: &str) -> (path: String)
    ensures
        path@ == partial_path(output@),
        ({
            let name = partial_name(file_name_of(output@));
            ordinary_or_none(file_name_of(output@)) || file_name_of(name) == Some(name) ==> {
                &&& file_name_of(path@) == Some(name)
                &&& path@ != output@
                &&& file_name_of(output@) is Some ==> parent_of(path@) == parent_of(output@)
            }
        }),
{
    let name: String = temp_file_name(path_file_name(output));
    proof {
        if let Some(named) = file_name_of(output@) {
            lemma_temp_name_differs(named);
        }
        if ordinary_or_none(file_name_of(output@)) {
            lemma_temp_name_ordinary(file_name_of(output@));
        }
    }
    path_set_file_name(output, name.as_str())
}

/// Whether a file name, if there is one, is an ordinary one.
pub open spec fn ordinary_or_none(name: Option<Seq<char>>) -> bool {
    name matches Some(name) ==> is_ordinary(name)
}

/// The temporary file of an output with an ordinary name, or with none, has an
/// ordinary name.
pub proof fn lemma_temp_name_ordinary(name: Option<Seq<char>>)
    requires
        ordinary_or_none(name),
    ensures
        is_ordinary(partial_name(name)),
{
    reveal_strlit(".partial");
    reveal_strlit(".");
    reveal_strlit("..");
    let temp = partial_name(name);
    assert(".partial"@.len() == 8);
    match name {
        None => {},
        Some(named) => {
            lemma_last_dot(named);
            let stem = name_stem(named);
            assert forall|k: int| 0 <= k < temp.len() implies !separates(#[trigger] temp[k]) by {
                if k < stem.len() {
                    assert(temp[k] == named[k]);
                } else if k < stem.len() + 8 {
                    assert(temp[k] == ".partial"@[k - stem.len()]);
                } else if k > stem.len() + 8 {
                    assert(temp[k] == named[last_dot(named) + k - stem.len() - 8]);
                }
            }
        },
    }
}

/// The name of the temporary file is not that of the output.
pub proof fn lemma_temp_name_differs(name: Seq<char>)
    ensures
        partial_name(Some(name)) != name,
{
    lemma_last_dot(name);
    reveal_strlit(".partial");
    reveal_strlit(".");
    assert(".partial"@.len() == 8);
}

/// The temporary file has the extension of the output, and its stem with
/// `.partial` behind it.
pub proof fn lemma_temp_keeps_extension(name: Seq<char>)
    requires
        name_extension(name) matches Some(extension) && extension.len() > 0,
    ensures
        name_extension(partial_name(Some(name))) == name_extension(name),
        name_stem(partial_name(Some(name))) == name_stem(name) + ".partial"@,
{
    lemma_last_dot(name);
    reveal_strlit(".partial");
    reveal_strlit(".");
    let temp = partial_name(Some(name));
    let front = name_stem(name) + ".partial"@;
    let extension = name_extension(name)->0;
    lemma_last_dot(temp);
    assert(temp == front + "."@ + extension);
    assert(temp[front.len() as int] == '.');
    assert forall|k: int| front.len() < k < temp.len() implies #[trigger] temp[k] != '.' by {
        assert(temp[k] == extension[k - front.len() - 1]);
        assert(temp[k] == name[last_dot(name) + k - front.len()]);
    }
    assert(last_dot(temp) == front.len());
    assert(name_extension(temp)->0 =~= extension);
    assert(name_stem(temp) =~= front);
}

/// What has to be done next.
#[derive(Debug, PartialEq, Eq)]
pub enum OutputStep {
    /// Demux all segments and write a standard MP4 to `path`.
    WriteMp4 { path: String },
    /// Write a fragmented MP4 to `path`, segment by segment.
    WriteFragments { path: String },
    /// Turn the fragmented MP4 in `temp` into a standard one in `path`.
    Finalize { backend: FinalizeBackend, temp: String, path: String, segment_count: usize },
    /// Remove the temporary file. Whether that works does not matter.
    RemoveTemp { temp: String },
    /// Nothing: this is how the run ended.
    Finished { result: Result<TransmuxReport, Error> },
}

/// The value of an [`OutputStep`] in contracts.
pub enum StepView {
    WriteMp4 { path: Seq<char> },
    WriteFragments { path: Seq<char> },
    Finalize {
        backend: FinalizeBackend,
        temp: Seq<char>,
        path: Seq<char>,
        segment_count: usize,
    },
    RemoveTemp { temp: Seq<char> },
    Finished { result: Result<ReportView, ErrorView> },
}

impl View for OutputStep {
    type V = StepView;

    open spec fn view(&self) -> StepView {
        match self {
            OutputStep::WriteMp4 { path } => StepView::WriteMp4 { path: path@ },
            OutputStep::WriteFragments { path } => StepView::WriteFragments { path: path@ },
            OutputStep::Finalize { backend, temp, path, segment_count } => StepView::Finalize {
                backend: *backend,
                temp: temp@,
                path: path@,
                segment_count: *segment_count,
            },
            OutputStep::RemoveTemp { temp } => StepView::RemoveTemp { temp: temp@ },
            OutputStep::Finished { result } => StepView::Finished {
                result: report_outcome(*result),
            },
        }
    }
}

/// How far a run is.
#[derive(Debug, PartialEq, Eq)]
pub enum OutputState {
    /// The first file is being written.
    Writing,
    /// The output is being made of the temporary file, or in its place.
    Finalizing,
    /// The temporary file is being removed; the run ends with this result.
    Removing(Result<TransmuxReport, Error>),
    /// The run has ended.
    Done,
}

/// The value of an [`OutputState`] in contracts.
pub enum StateView {
    Writing,
    Finalizing,
    Removing(Result<ReportView, ErrorView>),
    Done,
}

impl View for OutputState {
    type V = StateView;

    open spec fn view(&self) -> StateView {
        match self {
            OutputState::Writing => StateView::Writing,
            OutputState::Finalizing => StateView::Finalizing,
            OutputState::Removing(result) => StateView::Removing(report_outcome(*result)),
            OutputState::Done => StateView::Done,
        }
    }
}

/// What came of a step.
#[derive(Debug, PartialEq, Eq)]
pub enum OutputEvent {
    /// A standard MP4 was written, or could not be.
    Wrote(Result<TransmuxReport, Error>),
    /// A fragmented MP4 was written, or could not be, and whether the same segments
    /// can be laid out as a standard MP4 that has other samples.
    Fragmented(Result<TransmuxReport, Error>, bool),
    /// The temporary file is gone, as far as it could be removed.
    Removed,
}

/// The value of an [`OutputEvent`] in contracts.
pub enum EventView {
    Wrote(Result<ReportView, ErrorView>),
    Fragmented(Result<ReportView, ErrorView>, bool),
    Removed,
}

impl View for OutputEvent {
    type V = EventView;

    open spec fn view(&self) -> EventView {
        match self {
            OutputEvent::Wrote(result) => EventView::Wrote(report_outcome(*result)),
            OutputEvent::Fragmented(result, differs) => EventView::Fragmented(
                report_outcome(*result),
                *differs,
            ),
            OutputEvent::Removed => EventView::Removed,
        }
    }
}

/// A run that writes the segments of a media playlist to an output file.
#[derive(Debug, PartialEq, Eq)]
pub struct OutputPipeline {
    pub format: OutputFormat,
    pub backend: FinalizeBackend,
    pub output: String,
    pub segment_count: usize,
    pub state: OutputState,
}

/// The value of an [`OutputPipeline`] in contracts.
pub struct PipelineView {
    pub format: OutputFormat,
    pub backend: FinalizeBackend,
    pub output: Seq<char>,
    pub segment_count: usize,
    pub state: StateView,
}

impl View for OutputPipeline {
    type V = PipelineView;

    open spec fn view(&self) -> PipelineView {
        PipelineView {
            format: self.format,
            backend: self.backend,
            output: self.output@,
            segment_count: self.segment_count,
            state: self.state@,
        }
    }
}

/// The first step of a run.
pub open spec fn first_step_of(run: PipelineView) -> StepView {
    match run.format {
        OutputFormat::Mp4 => StepView::WriteMp4 { path: run.output },
        OutputFormat::FragmentedMp4 => StepView::WriteFragments { path: run.output },
        OutputFormat::StreamingMp4 => StepView::WriteFragments { path: partial_path(run.output) },
    }
}

/// Whether an event answers the step that a run is at.
pub open spec fn answers(run: PipelineView, event: EventView) -> bool {
    match run.state {
        StateView::Writing => if run.format == OutputFormat::Mp4 {
            event is Wrote
        } else {
            event is Fragmented
        },
        StateView::Finalizing => event is Wrote,
        StateView::Removing(_) => event is Removed,
        StateView::Done => false,
    }
}

/// The state of a run after an event.
pub open spec fn next_state(run: PipelineView, event: EventView) -> StateView {
    match (run.state, event) {
        (StateView::Writing, EventView::Fragmented(result, _)) => if run.format
            != OutputFormat::StreamingMp4 {
            StateView::Done
        } else if result is Ok {
            StateView::Finalizing
        } else {
            StateView::Removing(result)
        },
        (StateView::Finalizing, EventView::Wrote(result)) => StateView::Removing(result),
        _ => StateView::Done,
    }
}

/// The step that makes the output, once the temporary file is there. Finalizing
/// natively gives what writing all segments at once gives, so where the fragments do
/// not hold the samples for that, all segments are written at once.
pub open spec fn finalizing_step(run: PipelineView, differs: bool) -> StepView {
    if differs && run.backend == FinalizeBackend::Native {
        StepView::WriteMp4 { path: run.output }
    } else {
        StepView::Finalize {
            backend: run.backend,
            temp: partial_path(run.output),
            path: run.output,
            segment_count: run.segment_count,
        }
    }
}

/// The step that a run takes after an event that answers the one it is at.
pub open spec fn next_step_of(run: PipelineView, event: EventView) -> StepView {
    match (run.state, event) {
        (StateView::Writing, EventView::Fragmented(result, differs)) => if run.format
            != OutputFormat::StreamingMp4 {
            StepView::Finished { result }
        } else if result is Ok {
            finalizing_step(run, differs)
        } else {
            StepView::RemoveTemp { temp: partial_path(run.output) }
        },
        (StateView::Finalizing, EventView::Wrote(_)) => StepView::RemoveTemp {
            temp: partial_path(run.output),
        },
        (StateView::Removing(result), _) => StepView::Finished { result },
        (_, EventView::Wrote(result)) => StepView::Finished { result },
        (_, EventView::Fragmented(result, _)) => StepView::Finished { result },
        (_, EventView::Removed) => StepView::RemoveTemp { temp: partial_path(run.output) },
    }
}

impl OutputPipeline {
    /// A run that is about to take its first step.
    pub fn new(options: &TransmuxOptions, output: String, segment_count: usize) -> (run:
        OutputPipeline)
        ensures
            run@ == (PipelineView {
                format: options.output_format,
                backend: options.finalize_backend,
                output: output@,
                segment_count,
                state: StateView::Writing,
            }),
    {
        OutputPipeline {
            format: options.output_format,
            backend: options.finalize_backend,
            output,
            segment_count,
            state: OutputState::Writing,
        }
    }

    /// The first step of the run.
    pub fn first_step(&self) -> (step: OutputStep)
        ensures
            step@ == first_step_of(self@),
    {
        match self.format {
            OutputFormat::Mp4 => OutputStep::WriteMp4 { path: self.output.clone() },
            OutputFormat::FragmentedMp4 => OutputStep::WriteFragments {
                path: self.output.clone(),
            },
            OutputFormat::StreamingMp4 => OutputStep::WriteFragments {
                path: temp_fmp4_path(self.output.as_str()),
            },
        }
    }

    /// The step that makes the output, once the temporary file is there.
    fn finalizing(&self, differs: bool) -> (step: OutputStep)
        ensures
            step@ == finalizing_step(self@, differs),
    {
        match (differs, self.backend) {
            (true, FinalizeBackend::Native) => OutputStep::WriteMp4 { path: self.output.clone() },
            _ => OutputStep::Finalize {
                backend: self.backend,
                temp: temp_fmp4_path(self.output.as_str()),
                path: self.output.clone(),
                segment_count: self.segment_count,
            },
        }
    }

    /// The step after the one that `event` answers.
    pub fn next_step(&mut self, event: OutputEvent) -> (step: OutputStep)
        requires
            answers(old(self)@, event@),
        ensures
            step@ == next_step_of(old(self)@, event@),
            final(self)@ == (PipelineView { state: next_state(old(self)@, event@), ..old(self)@ }),
    {
        let mut state: OutputState = OutputState::Done;
        std::mem::swap(&mut state, &mut self.state);
        let step: OutputStep = match event {
            OutputEvent::Removed => match state {
                OutputState::Removing(result) => OutputStep::Finished { result },
                _ => OutputStep::RemoveTemp { temp: temp_fmp4_path(self.output.as_str()) },
            },
            OutputEvent::Fragmented(result, differs) => match self.format {
                OutputFormat::StreamingMp4 => match result {
                    Ok(_) => {
                        self.state = OutputState::Finalizing;
                        self.finalizing(differs)
                    },
                    Err(error) => {
                        self.state = OutputState::Removing(Err(error));
                        OutputStep::RemoveTemp { temp: temp_fmp4_path(self.output.as_str()) }
                    },
                },
                _ => OutputStep::Finished { result },
            },
            OutputEvent::Wrote(result) => match state {
                OutputState::Finalizing => {
                    self.state = OutputState::Removing(result);
                    OutputStep::RemoveTemp { temp: temp_fmp4_path(self.output.as_str()) }
                },
                _ => OutputStep::Finished { result },
            },
        };
        step
    }
}

/// The run after an event.
pub open spec fn advanced(run: PipelineView, event: EventView) -> PipelineView {
    PipelineView { state: next_state(run, event), ..run }
}

/// The event that answers the first step of a run.
pub open spec fn first_event(
    run: PipelineView,
    result: Result<ReportView, ErrorView>,
    differs: bool,
) -> EventView {
    if run.format == OutputFormat::Mp4 {
        EventView::Wrote(result)
    } else {
        EventView::Fragmented(result, differs)
    }
}

/// A run that writes its output directly takes one step and ends with what came
/// of it.
pub proof fn lemma_direct_run(
    run: PipelineView,
    wrote: Result<ReportView, ErrorView>,
    differs: bool,
)
    requires
        run.state is Writing,
        run.format != OutputFormat::StreamingMp4,
    ensures
        ({
            let event = first_event(run, wrote, differs);
            &&& answers(run, event)
            &&& next_step_of(run, event) == (StepView::Finished { result: wrote })
            &&& advanced(run, event).state is Done
        }),
{
}

/// A streaming run whose temporary file cannot be written removes it and ends
/// with that error. Nothing is finalized.
pub proof fn lemma_streaming_run_fails(run: PipelineView, failure: ErrorView, differs: bool)
    requires
        run.state is Writing,
        run.format == OutputFormat::StreamingMp4,
    ensures
        ({
            let temp = partial_path(run.output);
            let wrote = EventView::Fragmented(Err(failure), differs);
            let removing = advanced(run, wrote);
            &&& first_step_of(run) == (StepView::WriteFragments { path: temp })
            &&& answers(run, wrote)
            &&& next_step_of(run, wrote) == (StepView::RemoveTemp { temp })
            &&& answers(removing, EventView::Removed)
            &&& next_step_of(removing, EventView::Removed) == (StepView::Finished {
                result: Err(failure),
            })
        }),
{
}

/// A streaming run whose temporary file was written finalizes it with the chosen
/// backend, or writes all segments at once in place of that, where the backend is
/// the native one and the standard MP4 has other samples than the fragments. It
/// removes the temporary file whether that worked or not, and ends with what came of
/// it.
pub proof fn lemma_streaming_run_finalizes(
    run: PipelineView,
    report: ReportView,
    differs: bool,
    finalized: Result<ReportView, ErrorView>,
)
    requires
        run.state is Writing,
        run.format == OutputFormat::StreamingMp4,
    ensures
        ({
            let temp = partial_path(run.output);
            let wrote = EventView::Fragmented(Ok(report), differs);
            let finalizing = advanced(run, wrote);
            let removing = advanced(finalizing, EventView::Wrote(finalized));
            let batch = PipelineView { format: OutputFormat::Mp4, ..run };
            &&& first_step_of(run) == (StepView::WriteFragments { path: temp })
            &&& answers(run, wrote)
            &&& next_step_of(run, wrote) == (if differs && run.backend == FinalizeBackend::Native {
                first_step_of(batch)
            } else {
                StepView::Finalize {
                    backend: run.backend,
                    temp,
                    path: run.output,
                    segment_count: run.segment_count,
                }
            })
            &&& answers(finalizing, EventView::Wrote(finalized))
            &&& next_step_of(finalizing, EventView::Wrote(finalized)) == (StepView::RemoveTemp {
                temp,
            })
            &&& answers(removing, EventView::Removed)
            &&& next_step_of(removing, EventView::Removed) == (StepView::Finished {
                result: finalized,
            })
        }),
{
}

} // verus!
