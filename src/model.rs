//! The format-neutral model of a factor graph description.
use vstd::prelude::*;
use crate::text::views;

verus! {

/// A variable of the graph: its identifier, its kind, and its estimate as the
/// decimal text of its position and rotation components.
pub struct Vertex {
    pub id: usize,
    pub vertex_type: String,
    pub position: Vec<String>,
    pub rotation: Vec<String>,
}

pub struct VertexView {
    pub id: usize,
    pub vertex_type: Seq<char>,
    pub position: Seq<Seq<char>>,
    pub rotation: Seq<Seq<char>>,
}

impl View for Vertex {
    type V = VertexView;

    open spec fn view(&self) -> VertexView {
        VertexView {
            id: self.id,
            vertex_type: self.vertex_type@,
            position: views(self.position@),
            rotation: views(self.rotation@),
        }
    }
}

/// A factor of the graph: its kind, the identifiers of the vertices it connects
/// in order, its measurement, and its information matrix in row-major order.
pub struct Edge {
    pub edge_type: String,
    pub vertices: Vec<usize>,
    pub restriction: Vec<String>,
    pub information_matrix: Vec<String>,
}

pub struct EdgeView {
    pub edge_type: Seq<char>,
    pub vertices: Seq<usize>,
    pub restriction: Seq<Seq<char>>,
    pub information_matrix: Seq<Seq<char>>,
}

impl View for Edge {
    type V = EdgeView;

    open spec fn view(&self) -> EdgeView {
        EdgeView {
            edge_type: self.edge_type@,
            vertices: self.vertices@,
            restriction: views(self.restriction@),
            information_matrix: views(self.information_matrix@),
        }
    }
}

/// The vertices and the edges of a graph, each in the order of its description.
pub struct FactorGraphModel {
    pub vertices: Vec<Vertex>,
    pub edges: Vec<Edge>,
}

pub struct ModelView {
    pub vertices: Seq<VertexView>,
    pub edges: Seq<EdgeView>,
}

impl View for FactorGraphModel {
    type V = ModelView;

    open spec fn view(&self) -> ModelView {
        ModelView {
            vertices: self.vertices@.map_values(|v: Vertex| v@),
            edges: self.edges@.map_values(|e: Edge| e@),
        }
    }
}

} // verus!
