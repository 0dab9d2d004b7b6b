use scenario::clip::{clip_objects, ClipObj, OsmMemberType};

fn node(id: i64, inside: bool) -> ClipObj {
    ClipObj::Node { id, has_coords: true, inside }
}

#[test]
fn way_survives_when_any_node_is_inside() {
    let objs = vec![
        node(1, false),
        node(2, true),
        node(3, false),
        ClipObj::Way { id: 10, refs: vec![1, 2] },
        ClipObj::Way { id: 11, refs: vec![3] },
    ];
    let r = clip_objects(&objs);
    assert_eq!(r.way_ids, vec![10]);
    assert_eq!(r.relation_ids, Vec::<i64>::new());
    // Every node a kept way uses is written, inside the boundary or not.
    assert_eq!(r.used_nodes, vec![1, 2]);
}

#[test]
fn nodes_without_coordinates_never_count() {
    let objs = vec![
        ClipObj::Node { id: 1, has_coords: false, inside: true },
        ClipObj::Way { id: 10, refs: vec![1] },
    ];
    let r = clip_objects(&objs);
    assert_eq!(r.way_ids, Vec::<i64>::new());
    assert_eq!(r.used_nodes, Vec::<i64>::new());
}

#[test]
fn used_nodes_are_deduplicated_in_first_use_order() {
    let objs = vec![
        node(1, true),
        node(2, true),
        node(3, false),
        ClipObj::Way { id: 10, refs: vec![2, 1] },
        ClipObj::Way { id: 11, refs: vec![1, 3] },
    ];
    let r = clip_objects(&objs);
    assert_eq!(r.way_ids, vec![10, 11]);
    assert_eq!(r.used_nodes, vec![2, 1, 3]);
}

#[test]
fn relations_survive_through_members() {
    let objs = vec![
        node(1, true),
        node(2, false),
        ClipObj::Way { id: 10, refs: vec![1] },
        // Kept: references a kept way.
        ClipObj::Relation { id: 20, members: vec![(OsmMemberType::Way, 10)] },
        // Kept: references a seen node, even one outside the boundary.
        ClipObj::Relation { id: 21, members: vec![(OsmMemberType::Node, 2)] },
        // Kept: references an earlier kept relation.
        ClipObj::Relation { id: 22, members: vec![(OsmMemberType::Relation, 20)] },
        // Dropped: nothing it mentions was kept.
        ClipObj::Relation { id: 23, members: vec![(OsmMemberType::Way, 99)] },
    ];
    let r = clip_objects(&objs);
    assert_eq!(r.relation_ids, vec![20, 21, 22]);
}

#[test]
fn empty_stream_keeps_nothing() {
    let r = clip_objects(&vec![]);
    assert!(r.used_nodes.is_empty());
    assert!(r.way_ids.is_empty());
    assert!(r.relation_ids.is_empty());
}
