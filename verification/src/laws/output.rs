//! Which file is written when, and how the temporary file is named.

use crate::error::{Error, ErrorView};
use crate::options::{FinalizeBackend, OutputFormat};
use crate::outside::{file_name_of, is_ordinary, renamed_path, separates};
use crate::pipeline::{
    advanced, answers, first_step_of, last_dot, lemma_last_dot, name_extension, name_stem,
    next_step_of, ordinary_or_none, partial_name, partial_path, EventView, OutputEvent,
    OutputPipeline, OutputState, OutputStep, PipelineView, StateView, StepView,
};
use crate::types::{report_outcome, ReportView, TransmuxReport};
use vstd::prelude::*;

verus! {

/// A file name with an extension is its stem, a dot and its extension, in which there
/// is no dot. Without one it is a stem as it is, with no dot but at its beginning.
pub proof fn lemma_name_parts(name: Seq<char>)
    ensures
        match name_extension(name) {
            Some(extension) => {
                &&& name == name_stem(name) + seq!['.'] + extension
                &&& name_stem(name).len() > 0
                &&& forall|k: int| 0 <= k < extension.len() ==> #[trigger] extension[k] != '.'
            },
            None => {
                &&& name_stem(name) == name
                &&& forall|k: int| 0 < k < name.len() ==> #[trigger] name[k] != '.'
            },
        },
{
    lemma_last_dot(name);
    if let Some(extension) = name_extension(name) {
        assert(name =~= name_stem(name) + seq!['.'] + extension);
        assert forall|k: int| 0 <= k < extension.len() implies #[trigger] extension[k] != '.' by {
            assert(extension[k] == name[last_dot(name) + 1 + k]);
        }
    }
}

/// `.partial` goes between the stem and the extension of the output.
pub proof fn lemma_partial_goes_between(stem: Seq<char>, extension: Seq<char>)
    requires
        stem.len() > 0,
        forall|k: int| 0 <= k < extension.len() ==> #[trigger] extension[k] != '.',
    ensures
        extension.len() > 0 ==> partial_name(Some(stem + seq!['.'] + extension)) == stem
            + ".partial"@ + seq!['.'] + extension,
        extension.len() == 0 ==> partial_name(Some(stem + seq!['.'] + extension)) == stem
            + ".partial"@,
{
    let name = stem + seq!['.'] + extension;
    reveal_strlit(".");
    lemma_last_dot(name);
    assert(name[stem.len() as int] == '.');
    assert forall|k: int| stem.len() < k < name.len() implies #[trigger] name[k] != '.' by {
        assert(name[k] == extension[k - stem.len() - 1]);
    }
    assert(last_dot(name) == stem.len());
    assert(name_stem(name) =~= stem);
    assert(name_extension(name)->0 =~= extension);
    assert("."@ =~= seq!['.']);
}

/// `.partial` goes behind a name without an extension, and stands alone without a name.
pub proof fn lemma_partial_goes_behind(name: Seq<char>)
    requires
        forall|k: int| 0 < k < name.len() ==> #[trigger] name[k] != '.',
    ensures
        partial_name(Some(name)) == name + ".partial"@,
        partial_name(None) == ".partial"@,
{
    lemma_last_dot(name);
}

/// Every name that is not empty, is not made of one or two dots alone and has no slash,
/// backslash or colon is an ordinary one.
pub proof fn lemma_ordinary_names(name: Seq<char>)
    ensures
        is_ordinary(name) <==> {
            &&& name.len() > 0
            &&& !name.contains('/')
            &&& !name.contains('\\')
            &&& !name.contains(':')
            &&& name != seq!['.']
            &&& name != seq!['.', '.']
        },
        ordinary_or_none(None),
        ordinary_or_none(Some(name)) <==> is_ordinary(name),
{
    reveal_strlit(".");
    reveal_strlit("..");
    assert("."@ =~= seq!['.']);
    assert(".."@ =~= seq!['.', '.']);
    if is_ordinary(name) {
        assert forall|k: int| 0 <= k < name.len() implies name[k] != '/' && name[k] != '\\'
            && name[k] != ':' by {
            assert(!separates(name[k]));
        }
    }
    if !name.contains('/') && !name.contains('\\') && !name.contains(':') {
        assert forall|k: int| 0 <= k < name.len() implies !separates(#[trigger] name[k]) by {
            assert(name.contains(name[k]));
        }
    }
}

/// The temporary file has the path of the output with that name.
pub proof fn lemma_partial_path(output: Seq<char>)
    ensures
        partial_path(output) == renamed_path(output, partial_name(file_name_of(output))),
{
}

/// Each format begins with the file that it is about.
pub proof fn lemma_first_steps(run: PipelineView)
    ensures
        match run.format {
            OutputFormat::Mp4 => first_step_of(run) == (StepView::WriteMp4 { path: run.output }),
            OutputFormat::FragmentedMp4 => first_step_of(run) == (StepView::WriteFragments {
                path: run.output,
            }),
            OutputFormat::StreamingMp4 => first_step_of(run) == (StepView::WriteFragments {
                path: partial_path(run.output),
            }),
        },
{
}

/// What comes of a standard MP4 that was written directly is how its run ends.
pub proof fn lemma_standard_ends(run: PipelineView, result: Result<ReportView, ErrorView>)
    requires
        run.state is Writing,
        run.format == OutputFormat::Mp4,
    ensures
        answers(run, EventView::Wrote(result)),
        next_step_of(run, EventView::Wrote(result)) == (StepView::Finished { result }),
        advanced(run, EventView::Wrote(result)).state is Done,
{
}

/// What comes of a fragmented MP4 is how its run ends, if it is the output.
pub proof fn lemma_fragmented_ends(
    run: PipelineView,
    result: Result<ReportView, ErrorView>,
    differs: bool,
)
    requires
        run.state is Writing,
        run.format == OutputFormat::FragmentedMp4,
    ensures
        answers(run, EventView::Fragmented(result, differs)),
        next_step_of(run, EventView::Fragmented(result, differs)) == (StepView::Finished {
            result,
        }),
        advanced(run, EventView::Fragmented(result, differs)).state is Done,
{
}

/// A temporary file that was written is finalized into the output. The native backend
/// writes all segments at once instead, where the output would not be the same.
pub proof fn lemma_streaming_goes_on(run: PipelineView, report: ReportView, differs: bool)
    requires
        run.state is Writing,
        run.format == OutputFormat::StreamingMp4,
    ensures
        ({
            let event = EventView::Fragmented(Ok(report), differs);
            let step = next_step_of(run, event);
            &&& answers(run, event)
            &&& advanced(run, event).state is Finalizing
            &&& advanced(run, event).output == run.output
            &&& !differs || run.backend == FinalizeBackend::Ffmpeg ==> step == (
            StepView::Finalize {
                backend: run.backend,
                temp: partial_path(run.output),
                path: run.output,
                segment_count: run.segment_count,
            })
            &&& differs && run.backend == FinalizeBackend::Native ==> step == (
            StepView::WriteMp4 { path: run.output })
        }),
{
}

/// After that, or after a temporary file that could not be written, the temporary file
/// is removed, and the run ends with what came before.
pub proof fn lemma_streaming_cleans_up(run: PipelineView, result: Result<ReportView, ErrorView>)
    requires
        run.format == OutputFormat::StreamingMp4,
        run.state is Finalizing || (run.state is Writing && result is Err),
    ensures
        ({
            let event = if run.state is Finalizing {
                EventView::Wrote(result)
            } else {
                EventView::Fragmented(result, false)
            };
            let removing = advanced(run, event);
            &&& answers(run, event)
            &&& next_step_of(run, event) == (StepView::RemoveTemp {
                temp: partial_path(run.output),
            })
            &&& answers(removing, EventView::Removed)
            &&& next_step_of(removing, EventView::Removed) == (StepView::Finished { result })
            &&& advanced(removing, EventView::Removed).state is Done
        }),
{
}

/// Nothing answers a run that has ended, and no event answers two kinds of steps.
pub proof fn lemma_answers(run: PipelineView, event: EventView)
    ensures
        run.state is Done ==> !answers(run, event),
        run.state is Removing ==> (answers(run, event) <==> event is Removed),
        run.state is Finalizing ==> (answers(run, event) <==> event is Wrote),
        run.state is Writing && run.format == OutputFormat::Mp4 ==> (answers(run, event)
            <==> event is Wrote),
        run.state is Writing && run.format != OutputFormat::Mp4 ==> (answers(run, event)
            <==> event is Fragmented),
{
}

/// The values of steps, events, states and runs have all of them.
pub proof fn lemma_output_values(
    path: String,
    temp: String,
    backend: FinalizeBackend,
    segment_count: usize,
    result: Result<TransmuxReport, Error>,
    differs: bool,
    run: OutputPipeline,
)
    ensures
        (OutputStep::WriteMp4 { path })@ == (StepView::WriteMp4 { path: path@ }),
        (OutputStep::WriteFragments { path })@ == (StepView::WriteFragments { path: path@ }),
        (OutputStep::Finalize { backend, temp, path, segment_count })@ == (StepView::Finalize {
            backend,
            temp: temp@,
            path: path@,
            segment_count,
        }),
        (OutputStep::RemoveTemp { temp })@ == (StepView::RemoveTemp { temp: temp@ }),
        (OutputStep::Finished { result })@ == (StepView::Finished {
            result: report_outcome(result),
        }),
        OutputEvent::Wrote(result)@ == EventView::Wrote(report_outcome(result)),
        OutputEvent::Fragmented(result, differs)@ == EventView::Fragmented(
            report_outcome(result),
            differs,
        ),
        OutputEvent::Removed@ == EventView::Removed,
        OutputState::Writing@ == StateView::Writing,
        OutputState::Finalizing@ == StateView::Finalizing,
        OutputState::Removing(result)@ == StateView::Removing(report_outcome(result)),
        OutputState::Done@ == StateView::Done,
        run@.format == run.format,
        run@.backend == run.backend,
        run@.output == run.output@,
        run@.segment_count == run.segment_count,
        run@.state == run.state@,
{
}

} // verus!
