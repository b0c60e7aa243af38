use dozer::dag_metadata::{
    check_consistency, find_commit, find_metadata, find_watermark, get_checkpoint_consistency, load_or_init_schema,
    resolve_startup, source_consistency, start_from_zero, validate_schemas, Consistency, DagMetadata, SchemaDecision,
};
use dozer::dag_schemas::{find_schema, NodeSchemas, PortSchema};
use dozer::errors::ExecutionError;
use dozer::node::NodeHandle;
use dozer::types::{FieldDefinition, FieldType, Schema};

fn handle(id: &str) -> NodeHandle {
    NodeHandle::new(None, id.to_string())
}

fn schema(columns: &[(&str, FieldType)]) -> Schema {
    Schema {
        identifier: None,
        fields: columns.iter().map(|(name, typ)| FieldDefinition::new(name.to_string(), *typ, false)).collect(),
        primary_index: vec![0],
    }
}

fn users() -> Schema {
    schema(&[("id", FieldType::Int), ("name", FieldType::String)])
}

fn node_schemas(inputs: Vec<(u16, Schema)>, outputs: Vec<(u16, Schema)>) -> NodeSchemas {
    NodeSchemas::from(
        inputs.into_iter().map(|(p, s)| PortSchema::new(p, s)).collect(),
        outputs.into_iter().map(|(p, s)| PortSchema::new(p, s)).collect(),
    )
}

fn kept(inputs: Vec<(u16, Schema)>, outputs: Vec<(u16, Schema)>) -> DagMetadata {
    DagMetadata {
        commits: vec![],
        input_schemas: inputs.into_iter().map(|(p, s)| PortSchema::new(p, s)).collect(),
        output_schemas: outputs.into_iter().map(|(p, s)| PortSchema::new(p, s)).collect(),
    }
}

#[test]
fn same_schemas_are_compatible() {
    let current = node_schemas(vec![(1, users())], vec![(2, users()), (3, users())]);
    let existing = kept(vec![(1, users())], vec![(3, users()), (2, users())]);
    assert_eq!(validate_schemas(&current, &existing), Ok(()));
}

#[test]
fn differing_schemas_are_incompatible() {
    let current = node_schemas(vec![], vec![(2, users())]);
    let incompatible = Err(ExecutionError::IncompatibleSchemas);
    // another type of a column
    let retyped = schema(&[("id", FieldType::UInt), ("name", FieldType::String)]);
    assert_eq!(validate_schemas(&current, &kept(vec![], vec![(2, retyped)])), incompatible);
    // another order of the columns
    let reordered = schema(&[("name", FieldType::String), ("id", FieldType::Int)]);
    assert_eq!(validate_schemas(&current, &kept(vec![], vec![(2, reordered)])), incompatible);
    // another number of columns
    let shorter = schema(&[("id", FieldType::Int)]);
    assert_eq!(validate_schemas(&current, &kept(vec![], vec![(2, shorter)])), incompatible);
    // another port
    assert_eq!(validate_schemas(&current, &kept(vec![], vec![(5, users())])), incompatible);
    // more or fewer output ports
    assert_eq!(validate_schemas(&current, &kept(vec![], vec![(2, users()), (3, users())])), incompatible);
    assert_eq!(validate_schemas(&current, &kept(vec![], vec![])), incompatible);
    // another number of input ports
    assert_eq!(validate_schemas(&current, &kept(vec![(1, users())], vec![(2, users())])), incompatible);
    // another schema at an input port
    let fed = node_schemas(vec![(1, users())], vec![(2, users())]);
    let shorter = schema(&[("id", FieldType::Int)]);
    assert_eq!(validate_schemas(&fed, &kept(vec![(1, shorter)], vec![(2, users())])), incompatible);
    assert_eq!(validate_schemas(&fed, &kept(vec![(3, users())], vec![(2, users())])), incompatible);
    assert_eq!(validate_schemas(&fed, &kept(vec![(1, users())], vec![(2, users())])), Ok(()));
}

#[test]
fn schema_lookup_takes_the_first_entry_of_a_port() {
    let ports = vec![
        PortSchema::new(1, users()),
        PortSchema::new(2, schema(&[("a", FieldType::Int)])),
        PortSchema::new(1, Schema::empty()),
    ];
    assert_eq!(find_schema(&ports, 1), Some(&users()));
    assert_eq!(find_schema(&ports, 2), Some(&schema(&[("a", FieldType::Int)])));
    assert_eq!(find_schema(&ports, 3), None);
    assert_eq!(ports[0].clone(), ports[0]);
    let none = NodeSchemas::new();
    assert!(none.input_schemas.is_empty() && none.output_schemas.is_empty());
}

#[test]
fn kept_schemas_are_reused_only_if_all_fit() {
    let current = vec![
        (handle("a"), node_schemas(vec![], vec![(1, users())])),
        (handle("b"), node_schemas(vec![(1, users())], vec![])),
    ];
    let fitting = vec![
        (handle("b"), kept(vec![(1, users())], vec![])),
        (handle("a"), kept(vec![], vec![(1, users())])),
    ];
    assert_eq!(load_or_init_schema(&current, Some(&fitting)), SchemaDecision::Reuse);
    assert_eq!(load_or_init_schema(&current, None), SchemaDecision::Reinitialize);
    let missing = vec![(handle("a"), kept(vec![], vec![(1, users())]))];
    assert_eq!(load_or_init_schema(&current, Some(&missing)), SchemaDecision::Reinitialize);
    let changed = vec![
        (handle("a"), kept(vec![], vec![(1, schema(&[("id", FieldType::Int)]))])),
        (handle("b"), kept(vec![(1, users())], vec![])),
    ];
    assert_eq!(load_or_init_schema(&current, Some(&changed)), SchemaDecision::Reinitialize);
    assert_eq!(find_metadata(&fitting, &handle("a")), Some(&fitting[1].1));
    assert_eq!(find_metadata(&fitting, &handle("c")), None);
}

#[test]
fn consistency_of_the_checkpoint() {
    let sources = vec![handle("s1"), handle("s2")];
    let chk = vec![
        (handle("s2"), Consistency::FullyConsistent((3, 40))),
        (handle("s1"), Consistency::FullyConsistent((1, 20))),
    ];
    assert_eq!(check_consistency(&sources, &chk), Ok(vec![(handle("s1"), (1, 20)), (handle("s2"), (3, 40))]));
    assert_eq!(find_watermark(&chk, &handle("s2")), Some((3, 40)));
    assert_eq!(find_watermark(&chk, &handle("s3")), None);
    let partial = vec![
        (handle("s1"), Consistency::FullyConsistent((1, 20))),
        (handle("s2"), Consistency::PartiallyConsistent(vec![((3, 40), vec![handle("a")]), ((3, 39), vec![handle("b")])])),
    ];
    assert_eq!(check_consistency(&sources, &partial), Err(ExecutionError::InconsistentCheckpointMetadata));
    let missing = vec![(handle("s1"), Consistency::FullyConsistent((1, 20)))];
    assert_eq!(check_consistency(&sources, &missing), Err(ExecutionError::InconsistentCheckpointMetadata));
    assert_eq!(check_consistency(&vec![], &missing), Ok(vec![]));
    assert_eq!(start_from_zero(&sources), vec![(handle("s1"), (0, 0)), (handle("s2"), (0, 0))]);
}

#[test]
fn schema_compatibility_gate() {
    let sources = vec![handle("A")];
    let chk = vec![(handle("A"), Consistency::FullyConsistent((7, 70)))];
    let current = vec![(handle("A"), node_schemas(vec![], vec![(1, users())]))];
    // what was kept fits: the source goes on where it was
    let same = vec![(handle("A"), kept(vec![], vec![(1, users())]))];
    let startup = resolve_startup(&sources, &chk, &current, Some(&same));
    assert!(!startup.reinitialize);
    assert_eq!(startup.consistency_metadata, vec![(handle("A"), (7, 70))]);
    // a structurally different schema was kept: everything is discarded
    let different = vec![(handle("A"), kept(vec![], vec![(1, schema(&[("id", FieldType::Int)]))]))];
    let startup = resolve_startup(&sources, &chk, &current, Some(&different));
    assert!(startup.reinitialize);
    assert_eq!(startup.consistency_metadata, vec![(handle("A"), (0, 0))]);
    // nothing was kept
    let startup = resolve_startup(&sources, &chk, &current, None);
    assert!(startup.reinitialize);
    assert_eq!(startup.consistency_metadata, vec![(handle("A"), (0, 0))]);
    // the checkpoint does not cover the source
    let startup = resolve_startup(&sources, &vec![], &current, Some(&same));
    assert!(startup.reinitialize);
    assert_eq!(startup.consistency_metadata, vec![(handle("A"), (0, 0))]);
}

fn commits(list: &[(&str, (u64, u64))]) -> DagMetadata {
    DagMetadata {
        commits: list.iter().map(|(source, position)| (handle(source), *position)).collect(),
        input_schemas: vec![],
        output_schemas: vec![],
    }
}

#[test]
fn nodes_agree_or_disagree_on_a_position() {
    let agreeing = vec![
        (handle("s1"), commits(&[("s1", (1, 10))])),
        (handle("p"), commits(&[("s2", (2, 20)), ("s1", (1, 10))])),
        (handle("k"), commits(&[])),
    ];
    assert_eq!(source_consistency(&handle("s1"), &agreeing), Consistency::FullyConsistent((1, 10)));
    assert_eq!(source_consistency(&handle("s2"), &agreeing), Consistency::FullyConsistent((2, 20)));
    // no node kept a position for the source
    assert_eq!(source_consistency(&handle("s3"), &agreeing), Consistency::PartiallyConsistent(vec![]));
    let disagreeing = vec![
        (handle("s1"), commits(&[("s1", (1, 10))])),
        (handle("p"), commits(&[("s1", (1, 9))])),
    ];
    assert_eq!(
        source_consistency(&handle("s1"), &disagreeing),
        Consistency::PartiallyConsistent(vec![((1, 10), vec![handle("s1")]), ((1, 9), vec![handle("p")])])
    );
    assert_eq!(
        get_checkpoint_consistency(&vec![handle("s1"), handle("s2")], &agreeing),
        vec![
            (handle("s1"), Consistency::FullyConsistent((1, 10))),
            (handle("s2"), Consistency::FullyConsistent((2, 20))),
        ]
    );
    assert_eq!(find_commit(&agreeing[1].1.commits, &handle("s1")), Some((1, 10)));
    assert_eq!(find_commit(&agreeing[1].1.commits, &handle("s9")), None);
    // what the nodes kept decides how the pipeline starts
    let sources = vec![handle("s1")];
    let chk = get_checkpoint_consistency(&sources, &disagreeing);
    assert_eq!(check_consistency(&sources, &chk), Err(ExecutionError::InconsistentCheckpointMetadata));
}
