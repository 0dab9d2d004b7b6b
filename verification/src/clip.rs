use vstd::prelude::*;

verus! {

/// What kind of object a relation member points at.
#[derive(Clone, Copy, PartialEq, Eq, Structural, Debug)]
pub enum OsmMemberType {
    Node,
    Way,
    Relation,
}

/// One object of a map extract, in stream order, with the only geometry
/// fact the clip needs already settled: whether a node's coordinates fall
/// inside the clipping boundary.
#[derive(Clone, Debug)]
pub enum ClipObj {
    Node { id: i64, has_coords: bool, inside: bool },
    Way { id: i64, refs: Vec<i64> },
    Relation { id: i64, members: Vec<(OsmMemberType, i64)> },
}

/// Everything the clip has decided after some prefix of the stream: the
/// nodes seen with coordinates, the ways and relations kept, and the node
/// ids the kept ways use, first occurrence first.
pub ghost struct ClipState {
    pub nodes: Seq<(i64, bool)>,
    pub way_ids: Seq<i64>,
    pub relation_ids: Seq<i64>,
    pub used_nodes: Seq<i64>,
}

/// Some node with this id and coordinates has been seen.
pub open spec fn spec_node_present(nodes: Seq<(i64, bool)>, id: i64) -> bool {
    exists|k: int| 0 <= k < nodes.len() && (#[trigger] nodes[k]).0 == id
}

/// Some node with this id lies inside the boundary.
pub open spec fn spec_node_inside(nodes: Seq<(i64, bool)>, id: i64) -> bool {
    exists|k: int| 0 <= k < nodes.len() && (#[trigger] nodes[k]).0 == id && nodes[k].1
}

/// A way is kept when any node it references lies inside the boundary.
pub open spec fn spec_way_kept(nodes: Seq<(i64, bool)>, refs: Seq<i64>) -> bool {
    exists|j: int| 0 <= j < refs.len() && spec_node_inside(nodes, #[trigger] refs[j])
}

/// A relation is kept when any member refers to a seen node, a kept way, or
/// an earlier kept relation.
pub open spec fn spec_relation_kept(st: ClipState, members: Seq<(OsmMemberType, i64)>) -> bool {
    exists|j: int|
        0 <= j < members.len() && (match (#[trigger] members[j]).0 {
            OsmMemberType::Node => spec_node_present(st.nodes, members[j].1),
            OsmMemberType::Way => st.way_ids.contains(members[j].1),
            OsmMemberType::Relation => st.relation_ids.contains(members[j].1),
        })
}

/// The used-node list extended by a kept way's references: each referenced
/// node that was seen with coordinates joins the list once.
pub open spec fn spec_add_used(used: Seq<i64>, nodes: Seq<(i64, bool)>, refs: Seq<i64>) -> Seq<
    i64,
>
    decreases refs.len(),
{
    if refs.len() == 0 {
        used
    } else {
        let prev = spec_add_used(used, nodes, refs.drop_last());
        let id = refs.last();
        if spec_node_present(nodes, id) && !prev.contains(id) {
            prev.push(id)
        } else {
            prev
        }
    }
}

/// How one object advances the clip.
pub open spec fn spec_clip_step(st: ClipState, obj: ClipObj) -> ClipState {
    match obj {
        ClipObj::Node { id, has_coords, inside } => if has_coords {
            ClipState { nodes: st.nodes.push((id, inside)), ..st }
        } else {
            st
        },
        ClipObj::Way { id, refs } => if spec_way_kept(st.nodes, refs@) {
            ClipState {
                way_ids: st.way_ids.push(id),
                used_nodes: spec_add_used(st.used_nodes, st.nodes, refs@),
                ..st
            }
        } else {
            st
        },
        ClipObj::Relation { id, members } => if spec_relation_kept(st, members@) {
            ClipState { relation_ids: st.relation_ids.push(id), ..st }
        } else {
            st
        },
    }
}

pub open spec fn spec_clip(objs: Seq<ClipObj>) -> ClipState
    decreases objs.len(),
{
    if objs.len() == 0 {
        ClipState {
            nodes: Seq::empty(),
            way_ids: Seq::empty(),
            relation_ids: Seq::empty(),
            used_nodes: Seq::empty(),
        }
    } else {
        spec_clip_step(spec_clip(objs.drop_last()), objs.last())
    }
}

/// What of the stream survives the clip, by id: the ways and relations to
/// write, and the node ids the kept ways use, each once, in first-use order.
#[derive(Clone, Debug)]
pub struct ClipResult {
    pub used_nodes: Vec<i64>,
    pub way_ids: Vec<i64>,
    pub relation_ids: Vec<i64>,
}

fn node_present(nodes: &Vec<(i64, bool)>, id: i64) -> (r: bool)
    ensures
        r == spec_node_present(nodes@, id),
{
    let mut k: usize = 0;
    while k < nodes.len()
        invariant
            0 <= k <= nodes@.len(),
            forall|j: int| 0 <= j < k ==> (#[trigger] nodes@[j]).0 != id,
        decreases nodes@.len() - k,
    {
        if nodes[k].0 == id {
            return true;
        }
        k = k + 1;
    }
    false
}

fn node_inside(nodes: &Vec<(i64, bool)>, id: i64) -> (r: bool)
    ensures
        r == spec_node_inside(nodes@, id),
{
    let mut k: usize = 0;
    while k < nodes.len()
        invariant
            0 <= k <= nodes@.len(),
            forall|j: int| 0 <= j < k ==> !((#[trigger] nodes@[j]).0 == id && nodes@[j].1),
        decreases nodes@.len() - k,
    {
        if nodes[k].0 == id && nodes[k].1 {
            return true;
        }
        k = k + 1;
    }
    false
}

fn id_listed(v: &Vec<i64>, id: i64) -> (r: bool)
    ensures
        r == v@.contains(id),
{
    let mut k: usize = 0;
    while k < v.len()
        invariant
            0 <= k <= v@.len(),
            forall|j: int| 0 <= j < k ==> v@[j] != id,
        decreases v@.len() - k,
    {
        if v[k] == id {
            return true;
        }
        k = k + 1;
    }
    false
}

fn way_kept(nodes: &Vec<(i64, bool)>, refs: &Vec<i64>) -> (r: bool)
    ensures
        r == spec_way_kept(nodes@, refs@),
{
    let mut j: usize = 0;
    while j < refs.len()
        invariant
            0 <= j <= refs@.len(),
            forall|i: int| 0 <= i < j ==> !spec_node_inside(nodes@, #[trigger] refs@[i]),
        decreases refs@.len() - j,
    {
        if node_inside(nodes, refs[j]) {
            return true;
        }
        j = j + 1;
    }
    false
}

/// Run the clip over a whole stream of objects. A way survives when any of
/// its nodes lies inside the boundary; a relation survives when any member
/// was already kept or seen; the used-node list names every node a kept way
/// needs, once each, in first-use order.
pub fn clip_objects(objs: &Vec<ClipObj>) -> (r: ClipResult)
    ensures
        r.used_nodes@ == spec_clip(objs@).used_nodes,
        r.way_ids@ == spec_clip(objs@).way_ids,
        r.relation_ids@ == spec_clip(objs@).relation_ids,
{
    let mut nodes: Vec<(i64, bool)> = Vec::new();
    let mut way_ids: Vec<i64> = Vec::new();
    let mut relation_ids: Vec<i64> = Vec::new();
    let mut used_nodes: Vec<i64> = Vec::new();
    let mut i: usize = 0;
    while i < objs.len()
        invariant
            0 <= i <= objs@.len(),
            ({
                let st = spec_clip(objs@.subrange(0, i as int));
                &&& nodes@ == st.nodes
                &&& way_ids@ == st.way_ids
                &&& relation_ids@ == st.relation_ids
                &&& used_nodes@ == st.used_nodes
            }),
        decreases objs@.len() - i,
    {
        proof {
            assert(objs@.subrange(0, i as int + 1).drop_last() =~= objs@.subrange(0, i as int));
            assert(objs@.subrange(0, i as int + 1).last() == objs@[i as int]);
        }
        match &objs[i] {
            ClipObj::Node { id, has_coords, inside } => {
                if *has_coords {
                    nodes.push((*id, *inside));
                }
            },
            ClipObj::Way { id, refs } => {
                if way_kept(&nodes, refs) {
                    way_ids.push(*id);
                    let ghost used0 = used_nodes@;
                    let mut j: usize = 0;
                    while j < refs.len()
                        invariant
                            0 <= j <= refs@.len(),
                            used_nodes@ == spec_add_used(
                                used0,
                                nodes@,
                                refs@.subrange(0, j as int),
                            ),
                        decreases refs@.len() - j,
                    {
                        proof {
                            assert(refs@.subrange(0, j as int + 1).drop_last() =~= refs@.subrange(
                                0,
                                j as int,
                            ));
                            assert(refs@.subrange(0, j as int + 1).last() == refs@[j as int]);
                        }
                        let id2 = refs[j];
                        if node_present(&nodes, id2) && !id_listed(&used_nodes, id2) {
                            used_nodes.push(id2);
                        }
                        j = j + 1;
                    }
                    proof {
                        assert(refs@.subrange(0, refs@.len() as int) =~= refs@);
                    }
                }
            },
            ClipObj::Relation { id, members } => {
                let ghost st = spec_clip(objs@.subrange(0, i as int));
                let mut kept = false;
                let mut j: usize = 0;
                while j < members.len()
                    invariant
                        0 <= j <= members@.len(),
                        nodes@ == st.nodes,
                        way_ids@ == st.way_ids,
                        relation_ids@ == st.relation_ids,
                        !kept ==> forall|m: int|
                            0 <= m < j ==> !(match (#[trigger] members@[m]).0 {
                                OsmMemberType::Node => spec_node_present(st.nodes, members@[m].1),
                                OsmMemberType::Way => st.way_ids.contains(members@[m].1),
                                OsmMemberType::Relation => st.relation_ids.contains(
                                    members@[m].1,
                                ),
                            }),
                        kept ==> spec_relation_kept(st, members@),
                    decreases members@.len() - j,
                {
                    if !kept {
                        let (mtype, mid) = members[j];
                        let hit = match mtype {
                            OsmMemberType::Node => node_present(&nodes, mid),
                            OsmMemberType::Way => id_listed(&way_ids, mid),
                            OsmMemberType::Relation => id_listed(&relation_ids, mid),
                        };
                        if hit {
                            kept = true;
                        }
                    }
                    j = j + 1;
                }
                if kept {
                    relation_ids.push(*id);
                }
            },
        }
        i = i + 1;
    }
    proof {
        assert(objs@.subrange(0, objs@.len() as int) =~= objs@);
    }
    ClipResult { used_nodes, way_ids, relation_ids }
}

} // verus!
