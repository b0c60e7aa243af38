//! What a pipeline keeps between runs: the schemas of its nodes and, for each
//! source, the position up to which its rows were committed. At startup the
//! kept schemas are held against the schemas of the graph; where they do not
//! fit, or where the kept positions do not cover every source, everything
//! kept is discarded and the sources start from zero.

use crate::dag_schemas::{find_schema, schema_at, NodeSchemas, PortSchema};
use crate::errors::ExecutionError;
use crate::node::{NodeHandle, NodeHandleView};
use vstd::prelude::*;

verus! {

/// A position in the rows of a source: a request and a sequence number in it.
pub type Watermark = (u64, u64);

/// What is kept of one node.
#[derive(Debug, PartialEq, Eq)]
pub struct DagMetadata {
    /// The committed position of each source, as this node saw it.
    pub commits: Vec<(NodeHandle, Watermark)>,
    pub input_schemas: Vec<PortSchema>,
    pub output_schemas: Vec<PortSchema>,
}

/// How the nodes agree on the committed position of a source.
#[derive(Debug, PartialEq, Eq)]
pub enum Consistency {
    /// Every node that saw the source kept this position.
    FullyConsistent(Watermark),
    /// The nodes kept different positions: each position with the nodes that kept it.
    PartiallyConsistent(Vec<(Watermark, Vec<NodeHandle>)>),
}

/// Every port of `current` has a kept schema that is the same field for
/// field, and as many schemas were kept as there are ports.
pub open spec fn same_schemas(current: Seq<PortSchema>, existing: Seq<PortSchema>) -> bool {
    &&& existing.len() == current.len()
    &&& forall|i: int|
        0 <= i < current.len() ==> schema_at(existing, (#[trigger] current[i]).port) == Some(current[i].schema@)
}

/// The schemas of a node fit what was kept of it: at every port, output and
/// input, the kept schema is the same, and no other port was kept.
pub open spec fn compatible(current: &NodeSchemas, existing: &DagMetadata) -> bool {
    &&& same_schemas(current.output_schemas@, existing.output_schemas@)
    &&& same_schemas(current.input_schemas@, existing.input_schemas@)
}

/// Holds the schemas of the ports against the kept ones.
fn check_ports(current: &Vec<PortSchema>, existing: &Vec<PortSchema>) -> (same: bool)
    ensures
        same == same_schemas(current@, existing@),
{
    if existing.len() != current.len() {
        return false;
    }
    let mut i: usize = 0;
    while i < current.len()
        invariant
            i <= current@.len(),
            existing@.len() == current@.len(),
            forall|k: int| 0 <= k < i ==> schema_at(existing@, (#[trigger] current@[k]).port) == Some(current@[k].schema@),
        decreases current@.len() - i,
    {
        let entry = &current[i];
        match find_schema(existing, entry.port) {
            None => {
                return false;
            },
            Some(other_schema) => {
                if !entry.schema.same_as(other_schema) {
                    return false;
                }
            },
        }
        i = i + 1;
    }
    true
}

/// Holds the schemas of a node against what was kept of it.
pub fn validate_schemas(current: &NodeSchemas, existing: &DagMetadata) -> (valid: Result<(), ExecutionError>)
    ensures
        compatible(current, existing) ==> valid is Ok,
        !compatible(current, existing) ==> valid == Err::<(), ExecutionError>(ExecutionError::IncompatibleSchemas),
{
    if !check_ports(&current.output_schemas, &existing.output_schemas) {
        return Err(ExecutionError::IncompatibleSchemas);
    }
    if !check_ports(&current.input_schemas, &existing.input_schemas) {
        return Err(ExecutionError::IncompatibleSchemas);
    }
    Ok(())
}

/// What was kept of the node `handle`: the first entry of the node.
pub open spec fn metadata_at(kept: Seq<(NodeHandle, DagMetadata)>, handle: NodeHandleView) -> Option<DagMetadata>
    decreases kept.len(),
{
    if kept.len() == 0 {
        None
    } else if kept[0].0@ == handle {
        Some(kept[0].1)
    } else {
        metadata_at(kept.skip(1), handle)
    }
}

/// What was kept of the node `handle`.
pub fn find_metadata<'a>(kept: &'a Vec<(NodeHandle, DagMetadata)>, handle: &NodeHandle) -> (found: Option<
    &'a DagMetadata,
>)
    ensures
        match found {
            Some(metadata) => metadata_at(kept@, handle@) == Some(*metadata),
            None => metadata_at(kept@, handle@) is None,
        },
{
    let mut i: usize = 0;
    proof {
        assert(kept@.skip(0) =~= kept@);
    }
    while i < kept.len()
        invariant
            i <= kept@.len(),
            metadata_at(kept@, handle@) == metadata_at(kept@.skip(i as int), handle@),
        decreases kept@.len() - i,
    {
        proof {
            assert(kept@.skip(i as int)[0] == kept@[i as int]);
            assert(kept@.skip(i as int).skip(1) =~= kept@.skip(i + 1));
        }
        if kept[i].0.same_as(handle) {
            return Some(&kept[i].1);
        }
        i = i + 1;
    }
    None
}

/// Something was kept, and it fits: of every node of the graph something was
/// kept that its schemas fit.
pub open spec fn all_compatible(
    current: Seq<(NodeHandle, NodeSchemas)>,
    existing: Option<&Vec<(NodeHandle, DagMetadata)>>,
) -> bool {
    match existing {
        None => false,
        Some(kept) => forall|i: int|
            0 <= i < current.len() ==> (metadata_at(kept@, (#[trigger] current[i]).0@) matches Some(metadata)
                && compatible(&current[i].1, &metadata)),
    }
}

/// What to do with the kept schemas.
#[derive(Clone, Copy, Debug, PartialEq, Eq, Structural)]
pub enum SchemaDecision {
    /// They fit the graph: go on with what is kept.
    Reuse,
    /// Nothing was kept or it does not fit: discard everything kept and keep
    /// the schemas of the graph.
    Reinitialize,
}

/// Decides whether what was kept fits the schemas of the graph.
pub fn load_or_init_schema(
    current: &Vec<(NodeHandle, NodeSchemas)>,
    existing: Option<&Vec<(NodeHandle, DagMetadata)>>,
) -> (decision: SchemaDecision)
    ensures
        decision == SchemaDecision::Reuse <==> all_compatible(current@, existing),
{
    let kept = match existing {
        None => {
            return SchemaDecision::Reinitialize;
        },
        Some(kept) => kept,
    };
    let mut i: usize = 0;
    while i < current.len()
        invariant
            i <= current@.len(),
            existing == Some(kept),
            forall|k: int|
                0 <= k < i ==> (metadata_at(kept@, (#[trigger] current@[k]).0@) matches Some(metadata)
                    && compatible(&current@[k].1, &metadata)),
        decreases current@.len() - i,
    {
        match find_metadata(kept, &current[i].0) {
            None => {
                return SchemaDecision::Reinitialize;
            },
            Some(metadata) => {
                if validate_schemas(&current[i].1, metadata).is_err() {
                    return SchemaDecision::Reinitialize;
                }
            },
        }
        i = i + 1;
    }
    SchemaDecision::Reuse
}

/// The position that the nodes agree on for the source `handle`: that of the
/// first entry of the source, where it is a fully consistent one.
pub open spec fn agreed_watermark(chk: Seq<(NodeHandle, Consistency)>, handle: NodeHandleView) -> Option<Watermark>
    decreases chk.len(),
{
    if chk.len() == 0 {
        None
    } else if chk[0].0@ == handle {
        match chk[0].1 {
            Consistency::FullyConsistent(c) => Some(c),
            Consistency::PartiallyConsistent(_) => None,
        }
    } else {
        agreed_watermark(chk.skip(1), handle)
    }
}

/// The position that the nodes agree on for the source `handle`.
pub fn find_watermark(chk: &Vec<(NodeHandle, Consistency)>, handle: &NodeHandle) -> (found: Option<Watermark>)
    ensures
        found == agreed_watermark(chk@, handle@),
{
    let mut i: usize = 0;
    proof {
        assert(chk@.skip(0) =~= chk@);
    }
    while i < chk.len()
        invariant
            i <= chk@.len(),
            agreed_watermark(chk@, handle@) == agreed_watermark(chk@.skip(i as int), handle@),
        decreases chk@.len() - i,
    {
        proof {
            assert(chk@.skip(i as int)[0] == chk@[i as int]);
            assert(chk@.skip(i as int).skip(1) =~= chk@.skip(i + 1));
        }
        if chk[i].0.same_as(handle) {
            return match &chk[i].1 {
                Consistency::FullyConsistent(c) => Some(*c),
                Consistency::PartiallyConsistent(_) => None,
            };
        }
        i = i + 1;
    }
    None
}

/// The position that the node kept for the source `source`: that of its first entry.
pub open spec fn commit_of(commits: Seq<(NodeHandle, Watermark)>, source: NodeHandleView) -> Option<Watermark>
    decreases commits.len(),
{
    if commits.len() == 0 {
        None
    } else if commits[0].0@ == source {
        Some(commits[0].1)
    } else {
        commit_of(commits.skip(1), source)
    }
}

/// The position that the node kept for the source `source`.
pub fn find_commit(commits: &Vec<(NodeHandle, Watermark)>, source: &NodeHandle) -> (found: Option<Watermark>)
    ensures
        found == commit_of(commits@, source@),
{
    let mut i: usize = 0;
    proof {
        assert(commits@.skip(0) =~= commits@);
    }
    while i < commits.len()
        invariant
            i <= commits@.len(),
            commit_of(commits@, source@) == commit_of(commits@.skip(i as int), source@),
        decreases commits@.len() - i,
    {
        proof {
            assert(commits@.skip(i as int)[0] == commits@[i as int]);
            assert(commits@.skip(i as int).skip(1) =~= commits@.skip(i + 1));
        }
        if commits[i].0.same_as(source) {
            return Some(commits[i].1);
        }
        i = i + 1;
    }
    None
}

/// Some node kept a position for the source, and every node that kept one
/// kept `position`.
pub open spec fn all_agree_on(kept: Seq<(NodeHandle, DagMetadata)>, source: NodeHandleView, position: Watermark) -> bool {
    &&& exists|i: int| 0 <= i < kept.len() && commit_of((#[trigger] kept[i]).1.commits@, source) is Some
    &&& forall|i: int|
        0 <= i < kept.len() && commit_of((#[trigger] kept[i]).1.commits@, source) is Some ==> commit_of(
            kept[i].1.commits@,
            source,
        ) == Some(position)
}

/// The group names one node, and that node kept the position of the group
/// for the source.
pub open spec fn witnessed(
    kept: Seq<(NodeHandle, DagMetadata)>,
    source: NodeHandleView,
    group: (Watermark, Vec<NodeHandle>),
) -> bool {
    &&& group.1@.len() == 1
    &&& exists|i: int|
        0 <= i < kept.len() && (#[trigger] kept[i]).0@ == group.1@[0]@ && commit_of(kept[i].1.commits@, source)
            == Some(group.0)
}

/// The groups are none, where no node kept a position for the source, or
/// two with different positions, each with one node that kept its position.
pub open spec fn disagreement(
    kept: Seq<(NodeHandle, DagMetadata)>,
    source: NodeHandleView,
    groups: Seq<(Watermark, Vec<NodeHandle>)>,
) -> bool {
    if groups.len() == 0 {
        forall|i: int| 0 <= i < kept.len() ==> commit_of((#[trigger] kept[i]).1.commits@, source) is None
    } else {
        &&& groups.len() == 2
        &&& groups[0].0 != groups[1].0
        &&& witnessed(kept, source, groups[0])
        &&& witnessed(kept, source, groups[1])
    }
}

/// `consistency` says how the nodes agree on the committed position of `source`.
pub open spec fn consistency_of(kept: Seq<(NodeHandle, DagMetadata)>, source: NodeHandleView, consistency: Consistency) -> bool {
    match consistency {
        Consistency::FullyConsistent(position) => all_agree_on(kept, source, position),
        Consistency::PartiallyConsistent(groups) => {
            &&& forall|position: Watermark| !all_agree_on(kept, source, position)
            &&& disagreement(kept, source, groups@)
        },
    }
}

/// How the nodes agree on the committed position of `source`: fully, where
/// some node kept a position and all that kept one kept the same; else
/// partially, with the first two positions that differ and a node that kept
/// each, or with nothing where no node kept a position.
pub fn source_consistency(source: &NodeHandle, kept: &Vec<(NodeHandle, DagMetadata)>) -> (consistency: Consistency)
    ensures
        consistency_of(kept@, source@, consistency),
{
    let mut first: Option<(Watermark, usize)> = None;
    let mut i: usize = 0;
    while i < kept.len()
        invariant
            i <= kept@.len(),
            match first {
                Some((position, at)) => {
                    &&& at < i
                    &&& commit_of(kept@[at as int].1.commits@, source@) == Some(position)
                    &&& forall|k: int|
                        0 <= k < i && commit_of((#[trigger] kept@[k]).1.commits@, source@) is Some ==> commit_of(
                            kept@[k].1.commits@,
                            source@,
                        ) == Some(position)
                },
                None => forall|k: int| 0 <= k < i ==> commit_of((#[trigger] kept@[k]).1.commits@, source@) is None,
            },
        decreases kept@.len() - i,
    {
        match find_commit(&kept[i].1.commits, source) {
            None => {},
            Some(position) => match first {
                None => {
                    first = Some((position, i));
                },
                Some((agreed, at)) => {
                    if agreed.0 != position.0 || agreed.1 != position.1 {
                        let mut groups: Vec<(Watermark, Vec<NodeHandle>)> = Vec::new();
                        let mut one: Vec<NodeHandle> = Vec::new();
                        one.push(kept[at].0.clone());
                        let mut other: Vec<NodeHandle> = Vec::new();
                        other.push(kept[i].0.clone());
                        groups.push((agreed, one));
                        groups.push((position, other));
                        proof {
                            assert forall|p: Watermark| !all_agree_on(kept@, source@, p) by {
                                if all_agree_on(kept@, source@, p) {
                                    assert(commit_of(kept@[at as int].1.commits@, source@) == Some(p));
                                    assert(commit_of(kept@[i as int].1.commits@, source@) == Some(p));
                                }
                            }
                            assert(kept@[at as int].0@ == groups@[0].1@[0]@);
                            assert(kept@[i as int].0@ == groups@[1].1@[0]@);
                            assert(witnessed(kept@, source@, groups@[0]));
                            assert(witnessed(kept@, source@, groups@[1]));
                        }
                        return Consistency::PartiallyConsistent(groups);
                    }
                },
            },
        }
        i = i + 1;
    }
    match first {
        Some((position, at)) => {
            proof {
                assert(commit_of(kept@[at as int].1.commits@, source@) is Some);
            }
            Consistency::FullyConsistent(position)
        },
        None => {
            let groups: Vec<(Watermark, Vec<NodeHandle>)> = Vec::new();
            proof {
                assert forall|p: Watermark| !all_agree_on(kept@, source@, p) by {
                    if all_agree_on(kept@, source@, p) {
                        let k = choose|k: int|
                            0 <= k < kept@.len() && commit_of((#[trigger] kept@[k]).1.commits@, source@) is Some;
                        assert(commit_of(kept@[k].1.commits@, source@) is None);
                    }
                }
            }
            Consistency::PartiallyConsistent(groups)
        },
    }
}

/// How the nodes agree on the committed position of each source.
pub fn get_checkpoint_consistency(sources: &Vec<NodeHandle>, kept: &Vec<(NodeHandle, DagMetadata)>) -> (chk: Vec<
    (NodeHandle, Consistency),
>)
    ensures
        chk@.len() == sources@.len(),
        forall|i: int|
            0 <= i < sources@.len() ==> (#[trigger] chk@[i]).0@ == sources@[i]@ && consistency_of(
                kept@,
                sources@[i]@,
                chk@[i].1,
            ),
{
    let mut chk: Vec<(NodeHandle, Consistency)> = Vec::new();
    let mut i: usize = 0;
    while i < sources.len()
        invariant
            i <= sources@.len(),
            chk@.len() == i,
            forall|k: int|
                0 <= k < i ==> (#[trigger] chk@[k]).0@ == sources@[k]@ && consistency_of(
                    kept@,
                    sources@[k]@,
                    chk@[k].1,
                ),
        decreases sources@.len() - i,
    {
        let consistency = source_consistency(&sources[i], kept);
        chk.push((sources[i].clone(), consistency));
        i = i + 1;
    }
    chk
}

/// The nodes agree on a position for every source.
pub open spec fn fully_consistent(sources: Seq<NodeHandle>, chk: Seq<(NodeHandle, Consistency)>) -> bool {
    forall|i: int| 0 <= i < sources.len() ==> agreed_watermark(chk, (#[trigger] sources[i])@) is Some
}

/// `positions` gives each source its position, in the order of the sources.
pub open spec fn positions_of(
    positions: Seq<(NodeHandle, Watermark)>,
    sources: Seq<NodeHandle>,
    position: spec_fn(NodeHandleView) -> Watermark,
) -> bool {
    &&& positions.len() == sources.len()
    &&& forall|i: int|
        0 <= i < sources.len() ==> (#[trigger] positions[i]).0@ == sources[i]@ && positions[i].1 == position(
            sources[i]@,
        )
}

/// The committed position of every source, or `InconsistentCheckpointMetadata`
/// where the nodes do not agree on one for every source.
pub fn check_consistency(sources: &Vec<NodeHandle>, chk: &Vec<(NodeHandle, Consistency)>) -> (positions: Result<
    Vec<(NodeHandle, Watermark)>,
    ExecutionError,
>)
    ensures
        fully_consistent(sources@, chk@) ==> (positions matches Ok(found) && positions_of(
            found@,
            sources@,
            |handle: NodeHandleView| agreed_watermark(chk@, handle)->Some_0,
        )),
        !fully_consistent(sources@, chk@) ==> positions == Err::<Vec<(NodeHandle, Watermark)>, ExecutionError>(
            ExecutionError::InconsistentCheckpointMetadata,
        ),
{
    let mut r: Vec<(NodeHandle, Watermark)> = Vec::new();
    let mut i: usize = 0;
    while i < sources.len()
        invariant
            i <= sources@.len(),
            r@.len() == i,
            forall|k: int| 0 <= k < i ==> agreed_watermark(chk@, (#[trigger] sources@[k])@) is Some,
            forall|k: int|
                0 <= k < i ==> (#[trigger] r@[k]).0@ == sources@[k]@ && r@[k].1 == agreed_watermark(
                    chk@,
                    sources@[k]@,
                )->Some_0,
        decreases sources@.len() - i,
    {
        match find_watermark(chk, &sources[i]) {
            Some(c) => {
                r.push((sources[i].clone(), c));
            },
            None => {
                return Err(ExecutionError::InconsistentCheckpointMetadata);
            },
        }
        i = i + 1;
    }
    Ok(r)
}

/// Every source at position zero.
pub fn start_from_zero(sources: &Vec<NodeHandle>) -> (positions: Vec<(NodeHandle, Watermark)>)
    ensures
        positions_of(positions@, sources@, |handle: NodeHandleView| (0u64, 0u64)),
{
    let mut r: Vec<(NodeHandle, Watermark)> = Vec::new();
    let mut i: usize = 0;
    while i < sources.len()
        invariant
            i <= sources@.len(),
            r@.len() == i,
            forall|k: int| 0 <= k < i ==> (#[trigger] r@[k]).0@ == sources@[k]@ && r@[k].1 == (0u64, 0u64),
        decreases sources@.len() - i,
    {
        r.push((sources[i].clone(), (0u64, 0u64)));
        i = i + 1;
    }
    r
}

/// How a pipeline starts.
#[derive(Debug)]
pub struct Startup {
    /// Whether everything kept is to be discarded and written anew.
    pub reinitialize: bool,
    /// The position from which each source starts.
    pub consistency_metadata: Vec<(NodeHandle, Watermark)>,
}

/// Decides how a pipeline starts: with what was kept, where the kept schemas
/// fit the graph and the kept positions cover every source; else from zero,
/// with everything kept discarded.
pub fn resolve_startup(
    sources: &Vec<NodeHandle>,
    chk: &Vec<(NodeHandle, Consistency)>,
    current: &Vec<(NodeHandle, NodeSchemas)>,
    existing: Option<&Vec<(NodeHandle, DagMetadata)>>,
) -> (startup: Startup)
    ensures
        startup.reinitialize <==> !(fully_consistent(sources@, chk@) && all_compatible(current@, existing)),
        startup.reinitialize ==> positions_of(
            startup.consistency_metadata@,
            sources@,
            |handle: NodeHandleView| (0u64, 0u64),
        ),
        !startup.reinitialize ==> positions_of(
            startup.consistency_metadata@,
            sources@,
            |handle: NodeHandleView| agreed_watermark(chk@, handle)->Some_0,
        ),
{
    let decision = load_or_init_schema(current, existing);
    match check_consistency(sources, chk) {
        Ok(positions) => {
            if decision == SchemaDecision::Reuse {
                return Startup { reinitialize: false, consistency_metadata: positions };
            }
        },
        Err(_) => {},
    }
    Startup { reinitialize: true, consistency_metadata: start_from_zero(sources) }
}

/// Schema compatibility gate: where something was kept of a node and the
/// schemas of the node do not fit it, the pipeline starts anew, with every
/// source at position zero, whatever else was kept.
pub proof fn lemma_incompatible_schemas_reset(
    sources: Seq<NodeHandle>,
    chk: Seq<(NodeHandle, Consistency)>,
    current: Seq<(NodeHandle, NodeSchemas)>,
    existing: Option<&Vec<(NodeHandle, DagMetadata)>>,
    node: int,
    startup: Startup,
)
    requires
        0 <= node < current.len(),
        existing matches Some(kept) && (metadata_at(kept@, current[node].0@) matches Some(metadata) && !compatible(
            &current[node].1,
            &metadata,
        )),
        startup.reinitialize <==> !(fully_consistent(sources, chk) && all_compatible(current, existing)),
        startup.reinitialize ==> positions_of(
            startup.consistency_metadata@,
            sources,
            |handle: NodeHandleView| (0u64, 0u64),
        ),
    ensures
        startup.reinitialize,
        forall|i: int|
            0 <= i < startup.consistency_metadata@.len() ==> (#[trigger] startup.consistency_metadata@[i]).1 == (
                0u64,
                0u64,
            ),
{
    assert(!all_compatible(current, existing));
}

} // verus!
