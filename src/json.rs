//! The JSON interchange text of a model.
//!
//! An object with `vertices`, an array of `{id, type, position, rotation}`, and
//! `edges`, an array of `{type, vertices, restriction, informationMatrix}`, the
//! information matrix in row-major order. Kinds and values are written as
//! they stand in the model.
use vstd::prelude::*;
use vstd::string::StringExecFns;
use crate::g2o::{id_texts, G2oParser, ParseError, parse_spec};
use crate::model::{Edge, EdgeView, FactorGraphModel, ModelView, Vertex, VertexView};
use crate::numbers::{decimal_of, decimal_string};
use crate::text::{join_text, join_text_spec, views};

verus! {

/// The elements of a JSON array, separated by a comma and a space.
pub open spec fn list_json(items: Seq<Seq<char>>) -> Seq<char> {
    "["@ + join_text_spec(items, ", "@) + "]"@
}

/// The JSON object of a vertex, on one indented line.
pub open spec fn vertex_json(v: VertexView) -> Seq<char> {
    "    { \"id\": "@ + decimal_of(v.id as nat) + ", \"type\": \""@ + v.vertex_type
        + "\", \"position\": "@ + list_json(v.position) + ", \"rotation\": "@
        + list_json(v.rotation) + " }"@
}

/// The JSON object of an edge, on one indented line.
pub open spec fn edge_json(e: EdgeView) -> Seq<char> {
    "    { \"type\": \""@ + e.edge_type + "\", \"vertices\": "@ + list_json(id_texts(e.vertices))
        + ", \"restriction\": "@ + list_json(e.restriction) + ", \"informationMatrix\": "@
        + list_json(e.information_matrix) + " }"@
}

/// The JSON text of a model.
pub open spec fn model_json(m: ModelView) -> Seq<char> {
    "{\n  \"vertices\":\n  [\n"@
        + join_text_spec(m.vertices.map_values(|v: VertexView| vertex_json(v)), ",\n"@)
        + "\n  ],\n  \"edges\":\n  [\n"@
        + join_text_spec(m.edges.map_values(|e: EdgeView| edge_json(e)), ",\n"@)
        + "\n  ]\n}"@
}

fn list_to_json(items: &Vec<String>) -> (r: String)
    ensures
        r@ == list_json(views(items@)),
{
    let mut r = String::from_str("[");
    let inner = join_text(items, ", ");
    r.append(inner.as_str());
    r.append("]");
    r
}

fn ids_to_strings(ids: &Vec<usize>) -> (r: Vec<String>)
    ensures
        views(r@) == id_texts(ids@),
{
    let mut r: Vec<String> = Vec::new();
    G2oParser::append_usize_slice_to_string_vec(&mut r, ids.as_slice());
    assert(views(Seq::<String>::empty()) + id_texts(ids@) =~= id_texts(ids@));
    r
}

/// The JSON object of the vertex `v`.
pub fn vertex_to_json(v: &Vertex) -> (r: String)
    ensures
        r@ == vertex_json(v@),
{
    let mut r = String::from_str("    { \"id\": ");
    r.append(decimal_string(v.id).as_str());
    r.append(", \"type\": \"");
    r.append(v.vertex_type.as_str());
    r.append("\", \"position\": ");
    r.append(list_to_json(&v.position).as_str());
    r.append(", \"rotation\": ");
    r.append(list_to_json(&v.rotation).as_str());
    r.append(" }");
    r
}

/// The JSON object of the edge `e`.
pub fn edge_to_json(e: &Edge) -> (r: String)
    ensures
        r@ == edge_json(e@),
{
    let mut r = String::from_str("    { \"type\": \"");
    r.append(e.edge_type.as_str());
    r.append("\", \"vertices\": ");
    r.append(list_to_json(&ids_to_strings(&e.vertices)).as_str());
    r.append(", \"restriction\": ");
    r.append(list_to_json(&e.restriction).as_str());
    r.append(", \"informationMatrix\": ");
    r.append(list_to_json(&e.information_matrix).as_str());
    r.append(" }");
    r
}

/// The JSON text of the model `m`.
pub fn model_to_json(m: &FactorGraphModel) -> (r: String)
    ensures
        r@ == model_json(m@),
{
    let mut vs: Vec<String> = Vec::new();
    let mut i: usize = 0;
    while i < m.vertices.len()
        invariant
            i <= m.vertices.len(),
            views(vs@) == m@.vertices.take(i as int).map_values(|v: VertexView| vertex_json(v)),
        decreases m.vertices.len() - i,
    {
        let ghost before = vs@;
        vs.push(vertex_to_json(&m.vertices[i]));
        assert(m@.vertices[i as int] == m.vertices@[i as int]@);
        assert(views(vs@) =~= views(before).push(vertex_json(m@.vertices[i as int])));
        assert(m@.vertices.take(i as int + 1) =~= m@.vertices.take(i as int).push(m@.vertices[i as int]));
        assert(views(vs@) =~= m@.vertices.take(i as int + 1).map_values(|v: VertexView| vertex_json(v)));
        i = i + 1;
    }
    assert(m@.vertices.take(i as int) =~= m@.vertices);
    let mut es: Vec<String> = Vec::new();
    let mut k: usize = 0;
    while k < m.edges.len()
        invariant
            k <= m.edges.len(),
            views(es@) == m@.edges.take(k as int).map_values(|e: EdgeView| edge_json(e)),
        decreases m.edges.len() - k,
    {
        let ghost before = es@;
        es.push(edge_to_json(&m.edges[k]));
        assert(m@.edges[k as int] == m.edges@[k as int]@);
        assert(views(es@) =~= views(before).push(edge_json(m@.edges[k as int])));
        assert(m@.edges.take(k as int + 1) =~= m@.edges.take(k as int).push(m@.edges[k as int]));
        assert(views(es@) =~= m@.edges.take(k as int + 1).map_values(|e: EdgeView| edge_json(e)));
        k = k + 1;
    }
    assert(m@.edges.take(k as int) =~= m@.edges);
    let mut r = String::from_str("{\n  \"vertices\":\n  [\n");
    r.append(join_text(&vs, ",\n").as_str());
    r.append("\n  ],\n  \"edges\":\n  [\n");
    r.append(join_text(&es, ",\n").as_str());
    r.append("\n  ]\n}");
    r
}

impl G2oParser {
    /// The JSON text of the model that the G2O description `s` reads as, or
    /// why it cannot be read.
    pub fn g2o_to_json(s: &str) -> (r: Result<String, ParseError>)
        ensures
            r is Ok <==> parse_spec(s@) is Ok,
            r is Ok ==> r->Ok_0@ == model_json(parse_spec(s@)->Ok_0),
            r is Err ==> parse_spec(s@) == Err::<ModelView, ParseError>(r->Err_0),
    {
        match G2oParser::parse_string_to_model(s) {
            Ok(m) => Ok(model_to_json(&m)),
            Err(e) => Err(e),
        }
    }
}

} // verus!
