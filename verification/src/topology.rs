//! Export tasks: the verdict on a broker's health and the descriptions of the pipelines
//! that move files into a sink.

use crate::description::{ComponentView, DescriptionView, PipelineDescription};
use crate::text::push_text;
use vstd::prelude::*;

verus! {

/// What a metadata request told of one topic.
#[derive(Debug, Clone, Copy, PartialEq)]
pub struct TopicMetadata {
    /// The broker reported an error for the topic.
    pub has_error: bool,
}

/// Whether a sink's broker can be used, and if not, why: the verdict on the `metadata` that
/// a request for the one topic of the sink brought (`None`: the request failed).
pub open spec fn kafka_health(metadata: Option<Seq<TopicMetadata>>) -> (bool, Seq<char>) {
    match metadata {
        None => (false, "Failed to connect to kafka server"@),
        Some(topics) => if topics.len() != 1 || topics[0].has_error {
            (false, "topic not exist"@)
        } else {
            (true, ""@)
        },
    }
}

/// Judges the answer to a metadata request for a sink's topic: the broker must have
/// answered, with exactly one topic, and without an error for it.
pub fn kafka_healthcheck(metadata: Option<Vec<TopicMetadata>>) -> (verdict: (bool, String))
    ensures
        verdict.0 == kafka_health(
            match metadata {
                Some(topics) => Some(topics@),
                None => None,
            },
        ).0,
        verdict.1@ == kafka_health(
            match metadata {
                Some(topics) => Some(topics@),
                None => None,
            },
        ).1,
{
    match metadata {
        None => (false, "Failed to connect to kafka server".to_owned()),
        Some(topics) => {
            if topics.len() != 1 {
                (false, "topic not exist".to_owned())
            } else if topics[0].has_error {
                (false, "topic not exist".to_owned())
            } else {
                (true, "".to_owned())
            }
        },
    }
}

/// The names of the three components of an export task.
#[derive(Debug, PartialEq)]
pub struct ExportNames {
    pub source: String,
    pub remap: String,
    pub sink: String,
}

/// The name of an export task's source: `<task>_source_for_<sink type>`.
pub open spec fn export_source_name(task_id: Seq<char>, sink_type: Seq<char>) -> Seq<char> {
    task_id + "_source_for_"@ + sink_type
}

/// The name of an export task's transform: `<task>_remap`.
pub open spec fn export_remap_name(task_id: Seq<char>) -> Seq<char> {
    task_id + "_remap"@
}

/// The name of an export task's sink: `<task>_sink_to_<sink type>`.
pub open spec fn export_sink_name(task_id: Seq<char>, sink_type: Seq<char>) -> Seq<char> {
    task_id + "_sink_to_"@ + sink_type
}

/// The names of the components of the export task `task_id` into a sink of the type
/// `sink_type`.
pub fn export_names(task_id: &str, sink_type: &str) -> (names: ExportNames)
    ensures
        names.source@ == export_source_name(task_id@, sink_type@),
        names.remap@ == export_remap_name(task_id@),
        names.sink@ == export_sink_name(task_id@, sink_type@),
{
    let mut source = task_id.to_owned();
    push_text(&mut source, "_source_for_");
    push_text(&mut source, sink_type);
    let mut remap = task_id.to_owned();
    push_text(&mut remap, "_remap");
    let mut sink = task_id.to_owned();
    push_text(&mut sink, "_sink_to_");
    push_text(&mut sink, sink_type);
    ExportNames { source, remap, sink }
}

/// The description of an export task: one source, one transform that reads it and one
/// sink that reads the transform, each under its task name and with the definition given.
pub open spec fn export_description(
    task_id: Seq<char>,
    sink_type: Seq<char>,
    source: Seq<char>,
    remap: Seq<char>,
    sink: Seq<char>,
) -> DescriptionView {
    DescriptionView {
        sources: seq![
            ComponentView { id: export_source_name(task_id, sink_type), definition: source },
        ],
        transforms: seq![ComponentView { id: export_remap_name(task_id), definition: remap }],
        sinks: seq![ComponentView { id: export_sink_name(task_id, sink_type), definition: sink }],
    }
}

/// The source and the transform of an export task never share a name.
pub proof fn export_names_differ(task_id: Seq<char>, sink_type: Seq<char>)
    ensures
        export_source_name(task_id, sink_type) != export_remap_name(task_id),
{
    reveal_strlit("_source_for_");
    reveal_strlit("_remap");
    let at: int = task_id.len() as int + 1;
    assert(export_source_name(task_id, sink_type)[at] == 's');
    assert(export_remap_name(task_id)[at] == 'r');
}

/// Puts the description of an export task together from the definitions of its three
/// components.
pub fn export_json_result_to_sink(
    task_id: &str,
    sink_type: &str,
    source: &str,
    remap: &str,
    sink: &str,
) -> (description: PipelineDescription)
    ensures
        description.wf(),
        description@ == export_description(task_id@, sink_type@, source@, remap@, sink@),
{
    let names = export_names(task_id, sink_type);
    let ghost expected = export_description(task_id@, sink_type@, source@, remap@, sink@);
    let mut d = PipelineDescription::new();
    d.add_sink(names.sink.as_str(), sink);
    let with_remap = d.add_transform(names.remap.as_str(), remap);
    assert(with_remap) by {
        assert(!crate::description::has_id(Seq::<ComponentView>::empty(), names.remap@));
    }
    assert(d@.transforms =~= expected.transforms);
    assert(!crate::description::has_id(d@.transforms, names.source@)) by {
        export_names_differ(task_id@, sink_type@);
    }
    let with_source = d.add_source(names.source.as_str(), source);
    assert(d@.sources =~= expected.sources);
    assert(d@.sinks =~= expected.sinks);
    d
}

/// The description of the pipeline that prints files: the source `in` and the sink
/// `console_sink_1`.
pub open spec fn print_description(source: Seq<char>, sink: Seq<char>) -> DescriptionView {
    DescriptionView {
        sources: seq![ComponentView { id: "in"@, definition: source }],
        transforms: Seq::empty(),
        sinks: seq![ComponentView { id: "console_sink_1"@, definition: sink }],
    }
}

/// Puts together the description of the pipeline that reads files with the source that
/// `source` defines and prints them with the sink that `sink` defines.
pub fn start(source: &str, sink: &str) -> (description: PipelineDescription)
    ensures
        description.wf(),
        description@ == print_description(source@, sink@),
{
    let mut d = PipelineDescription::new();
    let added = d.add_source("in", source);
    assert(added) by {
        assert(!crate::description::has_id(Seq::<ComponentView>::empty(), "in"@));
    }
    d.add_sink("console_sink_1", sink);
    assert(d@.sources =~= print_description(source@, sink@).sources);
    assert(d@.transforms =~= print_description(source@, sink@).transforms);
    assert(d@.sinks =~= print_description(source@, sink@).sinks);
    d
}

/// Puts together the description of an export task into a broker's topic, if the broker is
/// healthy by [`kafka_health`] on the `metadata` of the topic; else hands on the verdict.
pub fn export_json_result_to_kafka(
    task_id: &str,
    metadata: Option<Vec<TopicMetadata>>,
    source: &str,
    remap: &str,
    sink: &str,
) -> (task: Result<PipelineDescription, (bool, String)>)
    ensures
        ({
            let health = kafka_health(
                match metadata {
                    Some(topics) => Some(topics@),
                    None => None,
                },
            );
            match task {
                Ok(d) => health.0 && d.wf() && d@ == export_description(
                    task_id@,
                    "kafka"@,
                    source@,
                    remap@,
                    sink@,
                ),
                Err(verdict) => !health.0 && !verdict.0 && verdict.1@ == health.1,
            }
        }),
{
    let healthy = kafka_healthcheck(metadata);
    if !healthy.0 {
        return Err(healthy);
    }
    Ok(export_json_result_to_sink(task_id, "kafka", source, remap, sink))
}

/// Puts together the description of an export task into a file.
pub fn export_json_result_to_file(task_id: &str, source: &str, remap: &str, sink: &str) -> (description:
    PipelineDescription)
    ensures
        description.wf(),
        description@ == export_description(task_id@, "file"@, source@, remap@, sink@),
{
    export_json_result_to_sink(task_id, "file", source, remap, sink)
}

} // verus!
