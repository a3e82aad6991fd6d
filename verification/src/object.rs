//! Meshes: vertices with a colour and a size, and triangles that name their
//! corners by vertex index.

use vstd::prelude::*;
use crate::pos::Empty;
use crate::render::color::Color;

verus! {

/// A vertex: a position, a display colour, and a radius that sets how large
/// the vertex is drawn. A vertex of radius zero is not drawn as a point.
#[derive(Clone, Copy, Debug, Hash, PartialEq, Eq)]
pub struct Node<T> {
    pub pos: T,
    pub color: Color,
    pub r: usize,
}

/// A triangle: the indices of its three corners among the vertices of its
/// mesh, and a radius that sets how densely it is filled.
#[derive(Clone, Copy, Debug, Hash, PartialEq, Eq, Structural)]
pub struct Face {
    pub node_a_index: usize,
    pub node_b_index: usize,
    pub node_c_index: usize,
    pub r: usize,
}

/// A mesh: its vertices and its triangles.
#[derive(Debug, Clone)]
pub struct Object<T> {
    pub nodes: Vec<Node<T>>,
    pub faces: Vec<Face>,
}

impl<T> Object<T> {
    /// A mesh of the given vertices and triangles.
    pub fn new(nodes: Vec<Node<T>>, faces: Vec<Face>) -> (object: Self)
        ensures
            object.nodes == nodes,
            object.faces == faces,
    {
        Self { nodes, faces }
    }
}

impl<T: Empty> Node<T> {
    /// A vertex at the empty position, transparent black and of radius zero.
    pub fn empty() -> (node: Node<T>)
        ensures
            node == (Node::<T> { pos: T::empty_value(), color: Color::RGBA(0, 0, 0, 0), r: 0 }),
    {
        Node { pos: T::empty(), color: Color::RGBA(0, 0, 0, 0), r: 0 }
    }
}

impl<T> Node<T> {
    /// The vertex moved to `pos`: its colour and its radius stay.
    pub fn with_pos<U>(&self, pos: U) -> (node: Node<U>)
        ensures
            node == (Node::<U> { pos, color: self.color, r: self.r }),
    {
        Node { pos, color: self.color, r: self.r }
    }
}

/// The vertices of `nodes`, each moved to the position of the same index.
pub open spec fn moved_nodes<T, U>(nodes: Seq<Node<T>>, positions: Seq<U>) -> Seq<Node<U>> {
    Seq::new(
        nodes.len(),
        |i: int| Node::<U> { pos: positions[i], color: nodes[i].color, r: nodes[i].r },
    )
}

impl<T> Object<T> {
    /// The mesh with its vertices moved to the given positions, one for each
    /// vertex in order. Colours, radii and triangles stay as they are, so the
    /// mesh keeps its connectivity. Without exactly one position for each
    /// vertex there is no such mesh.
    pub fn with_positions<U: Copy>(&self, positions: &Vec<U>) -> (moved: Option<Object<U>>)
        ensures
            moved is Some <==> positions.len() == self.nodes.len(),
            moved matches Some(object) ==> object.nodes@ == moved_nodes(self.nodes@, positions@)
                && object.faces@ == self.faces@,
    {
        if positions.len() != self.nodes.len() {
            return None;
        }
        let mut nodes: Vec<Node<U>> = Vec::new();
        let mut i: usize = 0;
        while i < self.nodes.len()
            invariant
                i <= self.nodes.len() == positions.len(),
                nodes@ == moved_nodes(self.nodes@.take(i as int), positions@),
            decreases self.nodes.len() - i,
        {
            nodes.push(self.nodes[i].with_pos(positions[i]));
            proof {
                assert(nodes@ =~= moved_nodes(self.nodes@.take(i + 1), positions@));
            }
            i = i + 1;
        }
        let mut faces: Vec<Face> = Vec::new();
        let mut k: usize = 0;
        while k < self.faces.len()
            invariant
                k <= self.faces.len(),
                faces@ == self.faces@.take(k as int),
            decreases self.faces.len() - k,
        {
            faces.push(self.faces[k]);
            proof {
                assert(faces@ =~= self.faces@.take(k + 1));
            }
            k = k + 1;
        }
        proof {
            assert(self.nodes@.take(i as int) =~= self.nodes@);
            assert(self.faces@.take(k as int) =~= self.faces@);
        }
        Some(Object { nodes, faces })
    }
}

} // verus!
