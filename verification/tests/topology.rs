use vectorcxx::topology::{
    export_json_result_to_sink, export_names, kafka_healthcheck, TopicMetadata,
};

#[test]
fn kafka_is_unhealthy_without_an_answer() {
    assert_eq!(
        kafka_healthcheck(None),
        (false, "Failed to connect to kafka server".to_string())
    );
}

#[test]
fn kafka_needs_exactly_one_topic_without_error() {
    let ok = TopicMetadata { has_error: false };
    let bad = TopicMetadata { has_error: true };
    assert_eq!(kafka_healthcheck(Some(vec![])), (false, "topic not exist".to_string()));
    assert_eq!(kafka_healthcheck(Some(vec![ok, ok])), (false, "topic not exist".to_string()));
    assert_eq!(kafka_healthcheck(Some(vec![bad])), (false, "topic not exist".to_string()));
    assert_eq!(kafka_healthcheck(Some(vec![ok])), (true, String::new()));
}

#[test]
fn export_names_follow_the_task() {
    let names = export_names("job7", "kafka");
    assert_eq!(names.source, "job7_source_for_kafka");
    assert_eq!(names.remap, "job7_remap");
    assert_eq!(names.sink, "job7_sink_to_kafka");
    let empty = export_names("", "");
    assert_eq!(empty.source, "_source_for_");
    assert_eq!(empty.remap, "_remap");
    assert_eq!(empty.sink, "_sink_to_");
}

#[test]
fn export_description_has_one_component_of_each_kind() {
    let d = export_json_result_to_sink("job7", "file", "SRC", "MAP", "SNK");
    assert_eq!(d.source_ids(), vec!["job7_source_for_file"]);
    assert_eq!(d.transform_ids(), vec!["job7_remap"]);
    assert_eq!(d.sink_ids(), vec!["job7_sink_to_file"]);
    assert_eq!(d.source("job7_source_for_file").map(|s| s.as_str()), Some("SRC"));
    assert_eq!(d.transform("job7_remap").map(|s| s.as_str()), Some("MAP"));
    assert_eq!(d.sink("job7_sink_to_file").map(|s| s.as_str()), Some("SNK"));
}

#[test]
fn print_pipeline_has_its_fixed_names() {
    let d = vectorcxx::topology::start("SRC", "SNK");
    assert_eq!(d.source_ids(), vec!["in"]);
    assert!(d.transform_ids().is_empty());
    assert_eq!(d.sink_ids(), vec!["console_sink_1"]);
    assert_eq!(d.source("in").map(|s| s.as_str()), Some("SRC"));
    assert_eq!(d.sink("console_sink_1").map(|s| s.as_str()), Some("SNK"));
}

#[test]
fn export_to_kafka_needs_a_healthy_broker() {
    let ok = TopicMetadata { has_error: false };
    let bad = TopicMetadata { has_error: true };
    let export = |metadata| {
        vectorcxx::topology::export_json_result_to_kafka("t", metadata, "SRC", "MAP", "SNK")
    };
    assert_eq!(export(None), Err((false, "Failed to connect to kafka server".to_string())));
    assert_eq!(export(Some(vec![])), Err((false, "topic not exist".to_string())));
    assert_eq!(export(Some(vec![bad])), Err((false, "topic not exist".to_string())));
    let d = export(Some(vec![ok])).unwrap();
    assert_eq!(d.source_ids(), vec!["t_source_for_kafka"]);
    assert_eq!(d.transform_ids(), vec!["t_remap"]);
    assert_eq!(d.sink_ids(), vec!["t_sink_to_kafka"]);
}

#[test]
fn export_to_file() {
    let d = vectorcxx::topology::export_json_result_to_file("t", "SRC", "MAP", "SNK");
    assert_eq!(d, export_json_result_to_sink("t", "file", "SRC", "MAP", "SNK"));
    assert_eq!(d.sink_ids(), vec!["t_sink_to_file"]);
}
