use vectorcxx::description::{
    find, has_unique_ids, no_shared_id, put, put_all, take_out, Component, PipelineDescription,
};

fn definition<'a>(found: Option<&'a String>) -> Option<&'a str> {
    found.map(|s| s.as_str())
}

#[test]
fn new_description_is_empty() {
    let d = PipelineDescription::new();
    assert!(d.source_ids().is_empty());
    assert!(d.transform_ids().is_empty());
    assert!(d.sink_ids().is_empty());
    assert!(d.source("a").is_none());
}

#[test]
fn components_keep_the_order_of_their_first_definition() {
    let mut d = PipelineDescription::new();
    assert!(d.add_source("b", "1"));
    assert!(d.add_source("a", "2"));
    assert!(d.add_source("b", "3"));
    assert!(d.add_transform("t", "4"));
    d.add_sink("z", "5");
    d.add_sink("y", "6");
    d.add_sink("z", "7");
    assert_eq!(d.source_ids(), vec!["b", "a"]);
    assert_eq!(d.transform_ids(), vec!["t"]);
    assert_eq!(d.sink_ids(), vec!["z", "y"]);
    assert_eq!(definition(d.source("b")), Some("3"));
    assert_eq!(definition(d.source("a")), Some("2"));
    assert_eq!(definition(d.transform("t")), Some("4"));
    assert_eq!(definition(d.sink("z")), Some("7"));
    assert_eq!(definition(d.sink("y")), Some("6"));
    assert_eq!(definition(d.sink("t")), None);
}

#[test]
fn a_source_and_a_transform_never_share_a_name() {
    let mut d = PipelineDescription::new();
    assert!(d.add_source("x", "source"));
    assert!(!d.add_transform("x", "transform"));
    assert!(d.add_transform("y", "transform"));
    assert!(!d.add_source("y", "source"));
    // A sink may have the name of either.
    d.add_sink("x", "sink");
    assert_eq!(d.source_ids(), vec!["x"]);
    assert_eq!(d.transform_ids(), vec!["y"]);
    assert_eq!(d.sink_ids(), vec!["x"]);
    assert_eq!(definition(d.source("x")), Some("source"));
    assert_eq!(definition(d.transform("y")), Some("transform"));
}

#[test]
fn merge_is_a_union_where_the_fragment_wins() {
    let mut d = PipelineDescription::new();
    assert!(d.add_source("s1", "a"));
    assert!(d.add_source("s2", "b"));
    assert!(d.add_transform("t1", "c"));
    d.add_sink("k1", "d");
    let mut fragment = PipelineDescription::new();
    assert!(fragment.add_source("s2", "B"));
    assert!(fragment.add_source("s3", "E"));
    assert!(fragment.add_transform("t2", "F"));
    fragment.add_sink("k1", "D");
    fragment.add_sink("k2", "G");

    let merged = d.merge(&fragment).unwrap();
    assert_eq!(merged.source_ids(), vec!["s1", "s2", "s3"]);
    assert_eq!(merged.transform_ids(), vec!["t1", "t2"]);
    assert_eq!(merged.sink_ids(), vec!["k1", "k2"]);
    assert_eq!(definition(merged.source("s1")), Some("a"));
    assert_eq!(definition(merged.source("s2")), Some("B"));
    assert_eq!(definition(merged.source("s3")), Some("E"));
    assert_eq!(definition(merged.transform("t1")), Some("c"));
    assert_eq!(definition(merged.transform("t2")), Some("F"));
    assert_eq!(definition(merged.sink("k1")), Some("D"));
    assert_eq!(definition(merged.sink("k2")), Some("G"));
    // The two that were merged are as they were.
    assert_eq!(d.source_ids(), vec!["s1", "s2"]);
    assert_eq!(definition(d.source("s2")), Some("b"));
    assert_eq!(fragment.source_ids(), vec!["s2", "s3"]);
}

#[test]
fn merge_with_nothing_changes_nothing() {
    let mut d = PipelineDescription::new();
    assert!(d.add_source("s1", "a"));
    let same = d.merge(&PipelineDescription::new()).unwrap();
    assert_eq!(same, d);
    let copy = PipelineDescription::new().merge(&d).unwrap();
    assert_eq!(copy, d);
}

#[test]
fn merge_refuses_a_name_shared_by_source_and_transform() {
    let mut d = PipelineDescription::new();
    assert!(d.add_source("x", "a"));
    let mut as_transform = PipelineDescription::new();
    assert!(as_transform.add_transform("x", "b"));
    assert!(d.merge(&as_transform).is_none());
    assert!(as_transform.merge(&d).is_none());
}

#[test]
fn remove_all_takes_sources_and_transforms_out() {
    let mut d = PipelineDescription::new();
    assert!(d.add_source("s1", "a"));
    assert!(d.add_source("s2", "b"));
    assert!(d.add_transform("t1", "c"));
    assert!(d.add_transform("t2", "d"));
    d.add_sink("k1", "e");

    let ids: Vec<String> = ["t1", "nope", "s2", "k1", "t1"].iter().map(|s| s.to_string()).collect();
    let (reduced, changed) = d.remove_all(&ids);
    assert!(changed);
    assert_eq!(reduced.source_ids(), vec!["s1"]);
    assert_eq!(reduced.transform_ids(), vec!["t2"]);
    assert_eq!(reduced.sink_ids(), vec!["k1"]);
    assert_eq!(d.source_ids(), vec!["s1", "s2"]);

    let unknown: Vec<String> = vec!["k1".to_string(), "zz".to_string()];
    let (same, changed) = d.remove_all(&unknown);
    assert!(!changed);
    assert_eq!(same, d);
    let (same, changed) = d.remove_all(&Vec::new());
    assert!(!changed);
    assert_eq!(same, d);
}

#[test]
fn copy_is_equal() {
    let mut d = PipelineDescription::new();
    assert!(d.add_source("s1", "a"));
    d.add_sink("k1", "e");
    assert_eq!(d.copy(), d);
}

fn component(id: &str, definition: &str) -> Component {
    Component { id: id.to_string(), definition: definition.to_string() }
}

#[test]
fn description_from_components() {
    let d = PipelineDescription::from_components(
        vec![component("s2", "a"), component("s1", "b")],
        vec![component("t1", "c")],
        vec![component("s1", "d")],
    )
    .unwrap();
    assert_eq!(d.source_ids(), vec!["s2", "s1"]);
    assert_eq!(d.transform_ids(), vec!["t1"]);
    assert_eq!(d.sink_ids(), vec!["s1"]);
    assert_eq!(definition(d.source("s1")), Some("b"));
    assert_eq!(definition(d.sink("s1")), Some("d"));
    assert_eq!(PipelineDescription::from_components(vec![], vec![], vec![]), Some(PipelineDescription::new()));
}

#[test]
fn components_that_make_no_description() {
    // A name twice in one category.
    assert!(PipelineDescription::from_components(
        vec![component("a", "1"), component("b", "2"), component("a", "3")],
        vec![],
        vec![]
    )
    .is_none());
    assert!(PipelineDescription::from_components(
        vec![],
        vec![component("a", "1"), component("a", "1")],
        vec![]
    )
    .is_none());
    assert!(PipelineDescription::from_components(
        vec![],
        vec![],
        vec![component("k", "1"), component("x", "2"), component("y", "3"), component("x", "4")]
    )
    .is_none());
    // A source and a transform alike.
    assert!(PipelineDescription::from_components(
        vec![component("a", "1")],
        vec![component("b", "2"), component("a", "3")],
        vec![]
    )
    .is_none());
}

#[test]
fn list_helpers() {
    let mut list = vec![component("a", "1"), component("b", "2")];
    assert_eq!(find(&list, &"a".to_string()), 0);
    assert_eq!(find(&list, &"b".to_string()), 1);
    assert_eq!(find(&list, &"c".to_string()), 2);
    put(&mut list, component("a", "3"));
    put(&mut list, component("c", "4"));
    assert_eq!(list, vec![component("a", "3"), component("b", "2"), component("c", "4")]);
    put_all(&mut list, &vec![component("d", "5"), component("b", "6"), component("d", "7")]);
    assert_eq!(
        list,
        vec![component("a", "3"), component("b", "6"), component("c", "4"), component("d", "7")]
    );
    assert!(take_out(&mut list, &"b".to_string()));
    assert!(!take_out(&mut list, &"b".to_string()));
    assert_eq!(list, vec![component("a", "3"), component("c", "4"), component("d", "7")]);
    assert!(has_unique_ids(&list));
    assert!(has_unique_ids(&Vec::new()));
    assert!(!has_unique_ids(&vec![component("a", "1"), component("a", "1")]));
    assert!(no_shared_id(&list, &vec![component("b", "1")]));
    assert!(!no_shared_id(&list, &vec![component("b", "1"), component("d", "1")]));
}
