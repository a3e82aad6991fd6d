//! Deduplication of a mesh: vertices that fall into the same grid cell with
//! the same colour and radius become one vertex, and the triangles follow.

use vstd::prelude::*;
use crate::buckets::Buckets;
use crate::object::{Face, Node, Object};
use crate::pos::{Cell, Quantize};

verus! {

/// Two vertices are the same vertex when their positions fall into the same
/// grid cell and their colours and radii are equal.
pub open spec fn same_vertex<T: Quantize>(a: Node<T>, b: Node<T>) -> bool {
    a.pos.cell() == b.pos.cell() && a.color == b.color && a.r == b.r
}

/// The index of the first vertex of `list` that is the same vertex as `node`,
/// or the length of `list` if there is none.
pub open spec fn position<T: Quantize>(list: Seq<Node<T>>, node: Node<T>) -> int
    decreases list.len(),
{
    if list.len() == 0 {
        0
    } else {
        let before = position(list.drop_last(), node);
        if before < list.len() - 1 {
            before
        } else if same_vertex(list.last(), node) {
            list.len() - 1
        } else {
            list.len() as int
        }
    }
}

/// The vertices of `nodes` without repetition: of the vertices that are the
/// same vertex only the first stays, and those that stay keep their order.
pub open spec fn unique<T: Quantize>(nodes: Seq<Node<T>>) -> Seq<Node<T>>
    decreases nodes.len(),
{
    if nodes.len() == 0 {
        Seq::empty()
    } else {
        let before = unique(nodes.drop_last());
        if position(before, nodes.last()) < before.len() {
            before
        } else {
            before.push(nodes.last())
        }
    }
}

/// The index that the vertex `i` of `nodes` has among the unique vertices.
pub open spec fn remap<T: Quantize>(nodes: Seq<Node<T>>, i: int) -> int {
    position(unique(nodes), nodes[i])
}

/// Whether all three corners of the triangle are indices below `count`.
pub open spec fn in_range(face: Face, count: int) -> bool {
    face.node_a_index < count && face.node_b_index < count && face.node_c_index < count
}

/// The triangle with its corners renamed to the unique vertices.
pub open spec fn remap_face<T: Quantize>(nodes: Seq<Node<T>>, face: Face) -> Face {
    Face {
        node_a_index: remap(nodes, face.node_a_index as int) as usize,
        node_b_index: remap(nodes, face.node_b_index as int) as usize,
        node_c_index: remap(nodes, face.node_c_index as int) as usize,
        r: face.r,
    }
}

/// The triangles of the deduplicated mesh: the triangles whose corners are all
/// vertices of the mesh, renamed to the unique vertices, each kept once, in
/// the order in which they first occur. A triangle with a corner that is no
/// vertex of the mesh is dropped.
pub open spec fn merged_faces<T: Quantize>(nodes: Seq<Node<T>>, faces: Seq<Face>) -> Seq<Face>
    decreases faces.len(),
{
    if faces.len() == 0 {
        Seq::empty()
    } else {
        let before = merged_faces(nodes, faces.drop_last());
        let face = faces.last();
        if in_range(face, nodes.len() as int) && !before.contains(remap_face(nodes, face)) {
            before.push(remap_face(nodes, face))
        } else {
            before
        }
    }
}

/// The triangle with those of its corners renamed that are vertices of the
/// mesh; a corner that is no vertex of the mesh stays as it is.
pub open spec fn rename_valid<T: Quantize>(nodes: Seq<Node<T>>, face: Face) -> Face {
    Face {
        node_a_index: if face.node_a_index < nodes.len() {
            remap(nodes, face.node_a_index as int) as usize
        } else {
            face.node_a_index
        },
        node_b_index: if face.node_b_index < nodes.len() {
            remap(nodes, face.node_b_index as int) as usize
        } else {
            face.node_b_index
        },
        node_c_index: if face.node_c_index < nodes.len() {
            remap(nodes, face.node_c_index as int) as usize
        } else {
            face.node_c_index
        },
        r: face.r,
    }
}

/// The triangles that deduplication drops: those with a corner that is no
/// vertex of the mesh, in their order, each with its other corners renamed.
pub open spec fn dropped_faces<T: Quantize>(nodes: Seq<Node<T>>, faces: Seq<Face>) -> Seq<Face>
    decreases faces.len(),
{
    if faces.len() == 0 {
        Seq::empty()
    } else {
        let before = dropped_faces(nodes, faces.drop_last());
        if in_range(faces.last(), nodes.len() as int) {
            before
        } else {
            before.push(rename_valid(nodes, faces.last()))
        }
    }
}

/// No two vertices of the list are the same vertex.
pub open spec fn all_distinct<T: Quantize>(list: Seq<Node<T>>) -> bool {
    forall|j: int, k: int| 0 <= j < k < list.len() ==> !same_vertex(#[trigger] list[j], #[trigger] list[k])
}

/// What `position` returns is the first match, if there is one.
pub proof fn lemma_position<T: Quantize>(list: Seq<Node<T>>, node: Node<T>)
    ensures
        0 <= position(list, node) <= list.len(),
        position(list, node) < list.len() ==> same_vertex(list[position(list, node)], node),
        forall|k: int| 0 <= k < position(list, node) ==> !same_vertex(#[trigger] list[k], node),
    decreases list.len(),
{
    if list.len() > 0 {
        lemma_position(list.drop_last(), node);
        assert forall|k: int| 0 <= k < list.len() - 1 implies list.drop_last()[k] == list[k] by {}
    }
}

/// An index whose vertex matches, and before which none does, is the position.
pub proof fn lemma_position_is_first<T: Quantize>(list: Seq<Node<T>>, node: Node<T>, p: int)
    requires
        0 <= p <= list.len(),
        p < list.len() ==> same_vertex(list[p], node),
        forall|k: int| 0 <= k < p ==> !same_vertex(#[trigger] list[k], node),
    ensures
        position(list, node) == p,
{
    lemma_position(list, node);
}

/// A vertex that is found in a list stays where it is when the list grows.
pub proof fn lemma_position_push<T: Quantize>(list: Seq<Node<T>>, extra: Node<T>, node: Node<T>)
    requires
        position(list, node) < list.len(),
    ensures
        position(list.push(extra), node) == position(list, node),
{
    assert(list.push(extra).drop_last() =~= list);
}

/// The unique vertices are no more than the vertices, and no two of them are
/// the same vertex.
pub proof fn lemma_unique_distinct<T: Quantize>(nodes: Seq<Node<T>>)
    ensures
        unique(nodes).len() <= nodes.len(),
        all_distinct(unique(nodes)),
    decreases nodes.len(),
{
    if nodes.len() > 0 {
        let before = unique(nodes.drop_last());
        lemma_unique_distinct(nodes.drop_last());
        lemma_position(before, nodes.last());
    }
}

/// A list without repetition is its own list of unique vertices.
pub proof fn lemma_unique_of_distinct<T: Quantize>(list: Seq<Node<T>>)
    requires
        all_distinct(list),
    ensures
        unique(list) == list,
    decreases list.len(),
{
    if list.len() > 0 {
        let front = list.drop_last();
        assert forall|j: int, k: int| 0 <= j < k < front.len() implies !same_vertex(
            #[trigger] front[j],
            #[trigger] front[k],
        ) by {
            assert(front[j] == list[j]);
            assert(front[k] == list[k]);
        }
        lemma_unique_of_distinct(front);
        lemma_position(front, list.last());
        if position(front, list.last()) < front.len() {
            let p = position(front, list.last());
            assert(front[p] == list[p]);
            assert(list[list.len() - 1] == list.last());
            assert(false);
        }
        assert(front.push(list.last()) =~= list);
    }
}

/// In a list without repetition every vertex is found at its own index.
pub proof fn lemma_position_of_member<T: Quantize>(list: Seq<Node<T>>, k: int)
    requires
        all_distinct(list),
        0 <= k < list.len(),
    ensures
        position(list, list[k]) == k,
{
    lemma_position_is_first(list, list[k], k);
}

/// Every vertex of a mesh has a place among the unique vertices, no later
/// than its own, and the unique vertex at that place is the same vertex.
pub proof fn lemma_remap_valid<T: Quantize>(nodes: Seq<Node<T>>, i: int)
    requires
        0 <= i < nodes.len(),
    ensures
        0 <= remap(nodes, i) < unique(nodes).len(),
        remap(nodes, i) <= i,
        same_vertex(unique(nodes)[remap(nodes, i)], nodes[i]),
    decreases nodes.len(),
{
    lemma_unique_distinct(nodes);
    let front = nodes.drop_last();
    let before = unique(front);
    let last = nodes.last();
    lemma_position(unique(nodes), nodes[i]);
    if i < nodes.len() - 1 {
        lemma_remap_valid(front, i);
        assert(front[i] == nodes[i]);
        if !(position(before, last) < before.len()) {
            lemma_position_push(before, last, nodes[i]);
        }
    } else {
        lemma_position(before, last);
        if !(position(before, last) < before.len()) {
            assert(before.push(last).drop_last() =~= before);
        }
    }
}

/// Whether `moved` is one of the triangles of `faces` whose corners are all
/// vertices of the mesh, renamed.
pub open spec fn renamed_from<T: Quantize>(nodes: Seq<Node<T>>, faces: Seq<Face>, moved: Face) -> bool {
    exists|j: int|
        0 <= j < faces.len() && in_range(#[trigger] faces[j], nodes.len() as int) && moved
            == remap_face(nodes, faces[j])
}

/// The triangles of the deduplicated mesh name unique vertices only, none of
/// them occurs twice, and each of them is a triangle of the mesh, renamed.
pub proof fn lemma_merged_faces_valid<T: Quantize>(nodes: Seq<Node<T>>, faces: Seq<Face>)
    ensures
        merged_faces(nodes, faces).len() <= faces.len(),
        merged_faces(nodes, faces).no_duplicates(),
        forall|k: int|
            0 <= k < merged_faces(nodes, faces).len() ==> in_range(
                #[trigger] merged_faces(nodes, faces)[k],
                unique(nodes).len() as int,
            ),
        forall|k: int|
            0 <= k < merged_faces(nodes, faces).len() ==> renamed_from(
                nodes,
                faces,
                #[trigger] merged_faces(nodes, faces)[k],
            ),
    decreases faces.len(),
{
    if faces.len() > 0 {
        let front = faces.drop_last();
        let before = merged_faces(nodes, front);
        let after = merged_faces(nodes, faces);
        let face = faces.last();
        lemma_merged_faces_valid(nodes, front);
        if in_range(face, nodes.len() as int) {
            lemma_remap_valid(nodes, face.node_a_index as int);
            lemma_remap_valid(nodes, face.node_b_index as int);
            lemma_remap_valid(nodes, face.node_c_index as int);
            lemma_unique_distinct(nodes);
        }
        assert forall|k: int| 0 <= k < after.len() implies renamed_from(
            nodes,
            faces,
            #[trigger] after[k],
        ) by {
            if k < before.len() {
                assert(renamed_from(nodes, front, before[k]));
                let j = choose|j: int|
                    0 <= j < front.len() && in_range(#[trigger] front[j], nodes.len() as int)
                        && before[k] == remap_face(nodes, front[j]);
                assert(faces[j] == front[j]);
            } else {
                assert(faces[faces.len() - 1] == face);
            }
        }
    }
}

/// Deduplication keeps the connectivity of a mesh: a triangle whose corners
/// are all vertices of the mesh is found, renamed, among the triangles of the
/// deduplicated mesh, and each of its renamed corners is the same vertex as
/// the corner that it stands for.
pub proof fn lemma_connectivity_kept<T: Quantize>(nodes: Seq<Node<T>>, faces: Seq<Face>, k: int)
    requires
        0 <= k < faces.len(),
        in_range(faces[k], nodes.len() as int),
    ensures
        merged_faces(nodes, faces).contains(remap_face(nodes, faces[k])),
        in_range(remap_face(nodes, faces[k]), unique(nodes).len() as int),
        same_vertex(
            unique(nodes)[remap_face(nodes, faces[k]).node_a_index as int],
            nodes[faces[k].node_a_index as int],
        ),
        same_vertex(
            unique(nodes)[remap_face(nodes, faces[k]).node_b_index as int],
            nodes[faces[k].node_b_index as int],
        ),
        same_vertex(
            unique(nodes)[remap_face(nodes, faces[k]).node_c_index as int],
            nodes[faces[k].node_c_index as int],
        ),
        remap_face(nodes, faces[k]).r == faces[k].r,
    decreases faces.len(),
{
    lemma_remap_valid(nodes, faces[k].node_a_index as int);
    lemma_remap_valid(nodes, faces[k].node_b_index as int);
    lemma_remap_valid(nodes, faces[k].node_c_index as int);
    lemma_unique_distinct(nodes);
    let before = merged_faces(nodes, faces.drop_last());
    let moved = remap_face(nodes, faces[k]);
    if k < faces.len() - 1 {
        assert(faces.drop_last()[k] == faces[k]);
        lemma_connectivity_kept(nodes, faces.drop_last(), k);
        let at = choose|at: int| 0 <= at < before.len() && before[at] == moved;
        if merged_faces(nodes, faces) != before {
            assert(before.push(remap_face(nodes, faces.last()))[at] == moved);
        }
    } else {
        if before.contains(moved) {
        } else {
            assert(before.push(moved)[before.len() as int] == moved);
        }
    }
}

/// A list of triangles without repetition that names vertices of a list
/// without repetition is left as it is.
pub proof fn lemma_merged_faces_fixed<T: Quantize>(nodes: Seq<Node<T>>, faces: Seq<Face>)
    requires
        all_distinct(nodes),
        faces.no_duplicates(),
        forall|k: int| 0 <= k < faces.len() ==> in_range(#[trigger] faces[k], nodes.len() as int),
    ensures
        merged_faces(nodes, faces) == faces,
    decreases faces.len(),
{
    if faces.len() > 0 {
        let front = faces.drop_last();
        let face = faces.last();
        assert forall|k: int| 0 <= k < front.len() implies in_range(
            #[trigger] front[k],
            nodes.len() as int,
        ) by {
            assert(front[k] == faces[k]);
        }
        lemma_merged_faces_fixed(nodes, front);
        assert(in_range(faces[faces.len() - 1], nodes.len() as int));
        lemma_unique_of_distinct(nodes);
        lemma_position_of_member(nodes, face.node_a_index as int);
        lemma_position_of_member(nodes, face.node_b_index as int);
        lemma_position_of_member(nodes, face.node_c_index as int);
        assert(remap_face(nodes, face) == face);
        if front.contains(face) {
            let at = choose|at: int| 0 <= at < front.len() && front[at] == face;
            assert(faces[at] == faces[faces.len() - 1]);
            assert(false);
        }
        assert(front.push(face) =~= faces);
    }
}

/// Deduplication is idempotent: a deduplicated mesh is left as it is, in its
/// vertices and in its triangles, and each of its vertices keeps its index.
pub proof fn lemma_dedup_idempotent<T: Quantize>(nodes: Seq<Node<T>>, faces: Seq<Face>)
    ensures
        unique(unique(nodes)) == unique(nodes),
        merged_faces(unique(nodes), merged_faces(nodes, faces)) == merged_faces(nodes, faces),
        forall|k: int| 0 <= k < unique(nodes).len() ==> #[trigger] remap(unique(nodes), k) == k,
{
    lemma_unique_distinct(nodes);
    lemma_unique_of_distinct(unique(nodes));
    lemma_merged_faces_valid(nodes, faces);
    lemma_merged_faces_fixed(unique(nodes), merged_faces(nodes, faces));
    assert forall|k: int| 0 <= k < unique(nodes).len() implies #[trigger] remap(unique(nodes), k)
        == k by {
        lemma_position_of_member(unique(nodes), k);
    }
}

/// Whether two vertices are the same vertex.
fn same_node<T: Quantize>(a: &Node<T>, b: &Node<T>) -> (same: bool)
    ensures
        same == same_vertex(*a, *b),
{
    a.pos.quantize() == b.pos.quantize() && a.color == b.color && a.r == b.r
}

/// A number folded into the range of bucket keys.
spec fn folded(c: int) -> int {
    if c >= 0 {
        c % 1_000_003
    } else {
        (-(c + 1)) % 1_000_003
    }
}

/// The bucket key of a grid cell. Vertices that are the same vertex share it.
spec fn cell_key(cell: Cell) -> u64 {
    (folded(cell.x as int) * 73856093 + folded(cell.y as int) * 19349663 + folded(cell.z as int)
        * 83492791 + folded(cell.w as int)) as u64
}

/// The bucket key of a triangle.
spec fn face_key(face: Face) -> u64 {
    (folded(face.node_a_index as int) * 73856093 + folded(face.node_b_index as int) * 19349663
        + folded(face.node_c_index as int) * 83492791 + folded(face.r as int)) as u64
}

/// The bucket keys of the vertices of a list, in order.
spec fn node_keys<T: Quantize>(list: Seq<Node<T>>) -> Seq<u64> {
    Seq::new(list.len(), |k: int| cell_key(list[k].pos.cell()))
}

/// The bucket keys of the triangles of a list, in order.
spec fn face_keys(list: Seq<Face>) -> Seq<u64> {
    Seq::new(list.len(), |k: int| face_key(list[k]))
}

fn fold_coordinate(c: i64) -> (out: u64)
    ensures
        out == folded(c as int),
        out < 1_000_003,
{
    if c >= 0 {
        (c as u64) % 1_000_003
    } else {
        ((-(c + 1)) as u64) % 1_000_003
    }
}

fn fold_index(i: usize) -> (out: u64)
    ensures
        out == folded(i as int),
        out < 1_000_003,
{
    (i as u64) % 1_000_003
}

fn key_of_cell(cell: Cell) -> (key: u64)
    ensures
        key == cell_key(cell),
{
    fold_coordinate(cell.x) * 73856093 + fold_coordinate(cell.y) * 19349663 + fold_coordinate(
        cell.z,
    ) * 83492791 + fold_coordinate(cell.w)
}

fn key_of_face(face: &Face) -> (key: u64)
    ensures
        key == face_key(*face),
{
    fold_index(face.node_a_index) * 73856093 + fold_index(face.node_b_index) * 19349663
        + fold_index(face.node_c_index) * 83492791 + fold_index(face.r)
}

/// Looks for the first vertex of `list` that is the same vertex as `node`,
/// among the vertices that share its bucket key.
fn find<T: Quantize>(list: &Vec<Node<T>>, buckets: &Buckets, node: &Node<T>) -> (p: usize)
    requires
        all_distinct(list@),
        buckets.groups(node_keys(list@)),
    ensures
        p == position(list@, *node),
{
    let key: u64 = key_of_cell(node.pos.quantize());
    let ghost keys = node_keys(list@);
    let mut seen: usize = 0;
    match buckets.candidates(key) {
        Some(candidates) => {
            while seen < candidates.len()
                invariant
                    seen <= candidates.len(),
                    candidates@ == buckets.bucket(key),
                    buckets.groups(keys),
                    keys == node_keys(list@),
                    all_distinct(list@),
                    forall|j: int|
                        0 <= j < seen ==> !same_vertex(list@[#[trigger] candidates@[j] as int], *node),
                decreases candidates.len() - seen,
            {
                let index: usize = candidates[seen];
                assert(0 <= buckets.bucket(key)[seen as int] < keys.len());
                if same_node(&list[index], node) {
                    proof {
                        assert forall|k: int| 0 <= k < index implies !same_vertex(
                            #[trigger] list@[k],
                            *node,
                        ) by {
                            if same_vertex(list@[k], *node) {
                                assert(same_vertex(list@[k], list@[index as int]));
                            }
                        }
                        lemma_position_is_first(list@, *node, index as int);
                    }
                    return index;
                }
                seen = seen + 1;
            }
            assert(forall|j: int|
                0 <= j < buckets.bucket(key).len() ==> !same_vertex(
                    list@[#[trigger] buckets.bucket(key)[j] as int],
                    *node,
                ));
        },
        None => {},
    }
    proof {
        assert forall|k: int| 0 <= k < list.len() implies !same_vertex(
            #[trigger] list@[k],
            *node,
        ) by {
            if same_vertex(list@[k], *node) {
                assert(keys[k] == key);
                assert(buckets.bucket(keys[k]).contains(k as usize));
                let j = choose|j: int|
                    0 <= j < buckets.bucket(key).len() && buckets.bucket(key)[j] == k as usize;
                assert(!same_vertex(list@[buckets.bucket(key)[j] as int], *node));
            }
        }
        lemma_position_is_first(list@, *node, list.len() as int);
    }
    list.len()
}

/// Whether `face` occurs in `list`, looked up among the triangles that share
/// its bucket key.
fn contains_face(list: &Vec<Face>, buckets: &Buckets, face: &Face) -> (found: bool)
    requires
        buckets.groups(face_keys(list@)),
    ensures
        found == list@.contains(*face),
{
    let key: u64 = key_of_face(face);
    let ghost keys = face_keys(list@);
    let mut seen: usize = 0;
    match buckets.candidates(key) {
        Some(candidates) => {
            while seen < candidates.len()
                invariant
                    seen <= candidates.len(),
                    candidates@ == buckets.bucket(key),
                    buckets.groups(keys),
                    keys == face_keys(list@),
                    forall|j: int| 0 <= j < seen ==> list@[#[trigger] candidates@[j] as int] != *face,
                decreases candidates.len() - seen,
            {
                let index: usize = candidates[seen];
                assert(0 <= buckets.bucket(key)[seen as int] < keys.len());
                let other = &list[index];
                if other.node_a_index == face.node_a_index && other.node_b_index
                    == face.node_b_index && other.node_c_index == face.node_c_index && other.r
                    == face.r {
                    return true;
                }
                seen = seen + 1;
            }
            assert(forall|j: int|
                0 <= j < buckets.bucket(key).len() ==> list@[#[trigger] buckets.bucket(key)[j] as int]
                    != *face);
        },
        None => {},
    }
    proof {
        if list@.contains(*face) {
            let k = choose|k: int| 0 <= k < list.len() && list@[k] == *face;
            assert(keys[k] == key);
            assert(buckets.bucket(keys[k]).contains(k as usize));
            let j = choose|j: int|
                0 <= j < buckets.bucket(key).len() && buckets.bucket(key)[j] == k as usize;
            assert(list@[buckets.bucket(key)[j] as int] != *face);
        }
    }
    false
}

/// Removes the repeated vertices of a mesh.
///
/// Of the vertices that are the same vertex the first stays, and the vertices
/// that stay keep their order. Each triangle has its corners renamed to the
/// vertices that stay. A triangle that was given twice, or that has become
/// equal to an earlier one, is kept once; a triangle with a corner that is no
/// vertex of the mesh is dropped.
pub fn remove_duplicates<T: Quantize + Copy>(object: Object<T>) -> (out: Object<T>)
    ensures
        out.nodes@ == unique(object.nodes@),
        out.faces@ == merged_faces(object.nodes@, object.faces@),
        out.nodes.len() <= object.nodes.len(),
{
    let (out, _) = remove_duplicates_reporting(object);
    out
}

/// Removes the repeated vertices of a mesh, as `remove_duplicates` does, and
/// hands back beside the mesh the triangles that were dropped, for the caller
/// to report.
pub fn remove_duplicates_reporting<T: Quantize + Copy>(object: Object<T>) -> (out: (
    Object<T>,
    Vec<Face>,
))
    ensures
        out.0.nodes@ == unique(object.nodes@),
        out.0.faces@ == merged_faces(object.nodes@, object.faces@),
        out.0.nodes.len() <= object.nodes.len(),
        out.1@ == dropped_faces(object.nodes@, object.faces@),
{
    proof {
        lemma_unique_distinct(object.nodes@);
    }
    let count: usize = object.nodes.len();
    let mut nodes: Vec<Node<T>> = Vec::new();
    let mut node_buckets = Buckets::new();
    let mut renamed: Vec<usize> = Vec::new();
    let mut i: usize = 0;
    proof {
        assert(node_keys(nodes@) =~= Seq::<u64>::empty());
    }
    while i < count
        invariant
            i <= count == object.nodes.len(),
            nodes@ == unique(object.nodes@.take(i as int)),
            node_buckets.groups(node_keys(nodes@)),
            renamed.len() == i,
            forall|j: int|
                0 <= j < i ==> #[trigger] renamed@[j] == position(nodes@, object.nodes@[j])
                    && renamed@[j] < nodes.len(),
        decreases count - i,
    {
        let node: Node<T> = object.nodes[i];
        proof {
            lemma_unique_distinct(object.nodes@.take(i as int));
        }
        let place: usize = find(&nodes, &node_buckets, &node);
        proof {
            assert(object.nodes@.take(i + 1).drop_last() =~= object.nodes@.take(i as int));
            lemma_position(nodes@, node);
        }
        if place == nodes.len() {
            let key: u64 = key_of_cell(node.pos.quantize());
            node_buckets.add(key, place, Ghost(node_keys(nodes@)));
            proof {
                assert(node_keys(nodes@.push(node)) =~= node_keys(nodes@).push(key));
            }
            proof {
                assert forall|j: int| 0 <= j < i implies position(
                    nodes@.push(node),
                    object.nodes@[j],
                ) == #[trigger] renamed@[j] by {
                    assert(renamed@[j] == position(nodes@, object.nodes@[j]));
                    lemma_position_push(nodes@, node, object.nodes@[j]);
                }
                assert(nodes@.push(node).drop_last() =~= nodes@);
            }
            nodes.push(node);
        }
        renamed.push(place);
        i = i + 1;
    }
    proof {
        assert(object.nodes@.take(count as int) =~= object.nodes@);
    }
    let mut faces: Vec<Face> = Vec::new();
    let mut face_buckets = Buckets::new();
    let mut dropped: Vec<Face> = Vec::new();
    let mut k: usize = 0;
    proof {
        assert(face_keys(faces@) =~= Seq::<u64>::empty());
    }
    while k < object.faces.len()
        invariant
            k <= object.faces.len(),
            face_buckets.groups(face_keys(faces@)),
            count == object.nodes.len(),
            nodes@ == unique(object.nodes@),
            renamed.len() == count,
            forall|j: int|
                0 <= j < count ==> #[trigger] renamed@[j] == remap(object.nodes@, j) && renamed@[j]
                    < nodes.len(),
            faces@ == merged_faces(object.nodes@, object.faces@.take(k as int)),
            dropped@ == dropped_faces(object.nodes@, object.faces@.take(k as int)),
        decreases object.faces.len() - k,
    {
        let face: Face = object.faces[k];
        proof {
            assert(object.faces@.take(k + 1).drop_last() =~= object.faces@.take(k as int));
        }
        let a: usize = if face.node_a_index < count {
            renamed[face.node_a_index]
        } else {
            face.node_a_index
        };
        let b: usize = if face.node_b_index < count {
            renamed[face.node_b_index]
        } else {
            face.node_b_index
        };
        let c: usize = if face.node_c_index < count {
            renamed[face.node_c_index]
        } else {
            face.node_c_index
        };
        let moved = Face { node_a_index: a, node_b_index: b, node_c_index: c, r: face.r };
        assert(moved == rename_valid(object.nodes@, face));
        if face.node_a_index < count && face.node_b_index < count && face.node_c_index < count {
            assert(moved == remap_face(object.nodes@, face));
            if !contains_face(&faces, &face_buckets, &moved) {
                let key: u64 = key_of_face(&moved);
                face_buckets.add(key, faces.len(), Ghost(face_keys(faces@)));
                proof {
                    assert(face_keys(faces@.push(moved)) =~= face_keys(faces@).push(key));
                }
                faces.push(moved);
            }
        } else {
            dropped.push(moved);
        }
        k = k + 1;
    }
    proof {
        assert(object.faces@.take(k as int) =~= object.faces@);
    }
    (Object { nodes, faces }, dropped)
}

} // verus!
