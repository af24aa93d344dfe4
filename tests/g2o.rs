use gs_rs::json::{model_to_json, vertex_to_json};
use gs_rs::{ComposeError, Edge, FactorGraphModel, G2oParser, ParseError, Vertex};

const MINIMAL: &str = "VERTEX_SE2 0 0.0 0.0 0.0\n\
VERTEX_SE2 1 1.0 0.5 -0.25\n\
FIX 0\n\
EDGE_SE2 0 1 1.0 0.5 -0.25 10.0 0.1 0.2 20.0 0.3 30.0\n";

fn strings(v: &[&str]) -> Vec<String> {
    v.iter().map(|s| s.to_string()).collect()
}

fn pose(id: usize, x: &str, y: &str, t: &str) -> Vertex {
    Vertex {
        id,
        vertex_type: "POSE2D_ANGLE".to_string(),
        position: strings(&[x, y]),
        rotation: strings(&[t]),
    }
}

fn odometry(from: usize, to: usize, r: [&str; 3], info: [&str; 9]) -> Edge {
    Edge {
        edge_type: "ODOMETRY2D_ANGLE".to_string(),
        vertices: vec![from, to],
        restriction: strings(&r),
        information_matrix: strings(&info),
    }
}

#[test]
fn test_parse_minimal_file() {
    let m = G2oParser::parse_string_to_model(MINIMAL).unwrap();
    assert_eq!(m.vertices.len(), 2);
    assert_eq!(m.edges.len(), 1);
    assert_eq!(m.vertices[1].id, 1);
    assert_eq!(m.vertices[1].vertex_type, "POSE2D_ANGLE");
    assert_eq!(m.vertices[1].position, strings(&["1.0", "0.5"]));
    assert_eq!(m.vertices[1].rotation, strings(&["-0.25"]));
    let e = &m.edges[0];
    assert_eq!(e.edge_type, "ODOMETRY2D_ANGLE");
    assert_eq!(e.vertices, vec![0, 1]);
    assert_eq!(e.restriction, strings(&["1.0", "0.5", "-0.25"]));
    assert_eq!(
        e.information_matrix,
        strings(&["10.0", "0.1", "0.2", "0.1", "20.0", "0.3", "0.2", "0.3", "30.0"])
    );
}

#[test]
fn test_minimal_g2o_to_json() {
    let json = G2oParser::g2o_to_json(MINIMAL).unwrap();
    let expected = [
        "{\n  \"vertices\":\n  [\n",
        "    { \"id\": 0, \"type\": \"POSE2D_ANGLE\", \"position\": [0.0, 0.0], \"rotation\": [0.0] },\n",
        "    { \"id\": 1, \"type\": \"POSE2D_ANGLE\", \"position\": [1.0, 0.5], \"rotation\": [-0.25] }\n",
        "  ],\n  \"edges\":\n  [\n",
        "    { \"type\": \"ODOMETRY2D_ANGLE\", \"vertices\": [0, 1], \"restriction\": [1.0, 0.5, -0.25], ",
        "\"informationMatrix\": [10.0, 0.1, 0.2, 0.1, 20.0, 0.3, 0.2, 0.3, 30.0] }\n",
        "  ]\n}",
    ]
    .concat();
    assert_eq!(json, expected);
}

#[test]
fn test_dumb_compose_model_to_string() {
    let model = FactorGraphModel {
        vertices: vec![pose(0, "0.0", "0.0", "0.0"), pose(1, "1.5", "-2.0", "3.14")],
        edges: vec![odometry(
            0,
            1,
            ["1.5", "-2.0", "3.14"],
            ["1.0", "0.0", "0.0", "0.0", "1.0", "0.0", "0.0", "0.0", "1.0"],
        )],
    };
    let s = G2oParser::compose_model_to_string(model).unwrap();
    assert_eq!(
        s,
        "VERTEX_SE2 0 0.0 0.0 0.0\nVERTEX_SE2 1 1.5 -2.0 3.14\n\
EDGE_SE2 0 1 1.5 -2.0 3.14 1.0 0.0 0.0 1.0 0.0 1.0"
    );
}

#[test]
fn current_test() {
    let text = "VERTEX_SE2 0 0 0 0\nVERTEX_SE2 1 1 0 0\nVERTEX_SE2 2 2 0 1.5707963\nFIX 0\n\
EDGE_SE2 0 1 1 0 0 1 0 0 1 0 1\nEDGE_SE2 1 2 1 0 1.5707963 1 0 0 1 0 1\n";
    let m = G2oParser::parse_string_to_model(text).unwrap();
    assert_eq!(m.vertices.len(), 3);
    assert_eq!(m.edges.len(), 2);
    let out = G2oParser::compose_model_to_string(m).unwrap();
    assert_eq!(
        out,
        "VERTEX_SE2 0 0 0 0\nVERTEX_SE2 1 1 0 0\nVERTEX_SE2 2 2 0 1.5707963\n\
EDGE_SE2 0 1 1 0 0 1 0 0 1 0 1\nEDGE_SE2 1 2 1 0 1.5707963 1 0 0 1 0 1"
    );
}

#[test]
fn round_trip_reads_the_same_model() {
    let m = G2oParser::parse_string_to_model(MINIMAL).unwrap();
    let text = G2oParser::compose_model_to_string(m).unwrap();
    let again = G2oParser::parse_string_to_model(&text).unwrap();
    let text_again = G2oParser::compose_model_to_string(again).unwrap();
    assert_eq!(text, text_again);
    assert!(!text.contains("FIX"));
}

#[test]
fn upper_triangle_is_written_in_row_order() {
    let e = odometry(
        3,
        4,
        ["1", "2", "3"],
        ["11", "12", "13", "12", "22", "23", "13", "23", "33"],
    );
    assert_eq!(
        G2oParser::edge_to_string(&e).unwrap(),
        "EDGE_SE2 3 4 1 2 3 11 12 13 22 23 33"
    );
}

#[test]
fn vertex_line_exact() {
    let v = pose(42, "1e-3", "-7", ".5");
    assert_eq!(G2oParser::vertex_to_string(&v).unwrap(), "VERTEX_SE2 42 1e-3 -7 .5");
}

#[test]
fn unsupported_vertex_kind_is_refused() {
    let mut v = pose(0, "0", "0", "0");
    v.vertex_type = "LANDMARK2D".to_string();
    assert_eq!(G2oParser::vertex_to_string(&v), None);
    let model = FactorGraphModel {
        vertices: vec![pose(0, "0", "0", "0"), v],
        edges: vec![],
    };
    assert_eq!(
        G2oParser::compose_model_to_string(model),
        Err(ComposeError::UnsupportedVertex(1))
    );
}

#[test]
fn unsupported_edge_is_refused() {
    let asym = odometry(0, 1, ["1", "0", "0"], ["1", "2", "0", "3", "1", "0", "0", "0", "1"]);
    assert_eq!(G2oParser::edge_to_string(&asym), None);
    let bad_value = odometry(0, 1, ["1", "x", "0"], ["1", "0", "0", "0", "1", "0", "0", "0", "1"]);
    assert_eq!(G2oParser::edge_to_string(&bad_value), None);
    let model = FactorGraphModel {
        vertices: vec![pose(0, "0", "0", "0")],
        edges: vec![
            odometry(0, 1, ["1", "0", "0"], ["1", "0", "0", "0", "1", "0", "0", "0", "1"]),
            asym,
        ],
    };
    assert_eq!(
        G2oParser::compose_model_to_string(model),
        Err(ComposeError::UnsupportedEdge(1))
    );
}

#[test]
fn malformed_line_is_reported_with_its_index() {
    let text = "VERTEX_SE2 0 0 0 0\nVERTEX_SE2 1 a 0 0\nEDGE_SE2 0 1 1 0 0 1 0 0 1 0 1";
    assert_eq!(
        G2oParser::parse_string_to_model(text).err(),
        Some(ParseError::MalformedLine(1))
    );
    let unknown = "VERTEX_SE2 0 0 0 0\nVERTEX_XYZ 1 0 0 0\n";
    assert_eq!(
        G2oParser::parse_string_to_model(unknown).err(),
        Some(ParseError::MalformedLine(1))
    );
    let short_edge = "VERTEX_SE2 0 0 0 0\nEDGE_SE2 0 1 1 0 0 1 0 0 1 0";
    assert_eq!(
        G2oParser::parse_string_to_model(short_edge).err(),
        Some(ParseError::MalformedLine(1))
    );
}

#[test]
fn vertex_after_edge_is_refused() {
    let text = "VERTEX_SE2 0 0 0 0\nEDGE_SE2 0 1 1 0 0 1 0 0 1 0 1\nVERTEX_SE2 1 0 0 0";
    assert_eq!(
        G2oParser::parse_string_to_model(text).err(),
        Some(ParseError::VertexAfterEdge(2))
    );
}

#[test]
fn missing_sections_are_refused() {
    assert_eq!(
        G2oParser::parse_string_to_model("").err(),
        Some(ParseError::NoVertex)
    );
    assert_eq!(
        G2oParser::parse_string_to_model("VERTEX_SE2 0 0 0 0\nFIX 0\n").err(),
        Some(ParseError::NoEdge)
    );
    assert_eq!(
        G2oParser::g2o_to_json("EDGE_SE2 0 1 1 0 0 1 0 0 1 0 1").err(),
        Some(ParseError::NoVertex)
    );
}

#[test]
fn identifier_overflow_is_malformed() {
    let text = "VERTEX_SE2 99999999999999999999999 0 0 0\nEDGE_SE2 0 1 1 0 0 1 0 0 1 0 1";
    assert_eq!(
        G2oParser::parse_string_to_model(text).err(),
        Some(ParseError::MalformedLine(0))
    );
    let largest = format!(
        "VERTEX_SE2 {} 0 0 0\nEDGE_SE2 0 1 1 0 0 1 0 0 1 0 1",
        usize::MAX
    );
    let m = G2oParser::parse_string_to_model(&largest).unwrap();
    assert_eq!(m.vertices[0].id, usize::MAX);
}

#[test]
fn append_ids_as_decimal_text() {
    let mut tokens = vec!["A".to_string()];
    G2oParser::append_usize_slice_to_string_vec(&mut tokens, &[0, 7, 1234567890]);
    assert_eq!(tokens, strings(&["A", "0", "7", "1234567890"]));
}

#[test]
fn json_of_vertex_and_empty_model() {
    let v = pose(5, "1", "2", "3");
    assert_eq!(
        vertex_to_json(&v),
        "    { \"id\": 5, \"type\": \"POSE2D_ANGLE\", \"position\": [1, 2], \"rotation\": [3] }"
    );
    let empty = FactorGraphModel { vertices: vec![], edges: vec![] };
    assert_eq!(
        model_to_json(&empty),
        "{\n  \"vertices\":\n  [\n\n  ],\n  \"edges\":\n  [\n\n  ]\n}"
    );
}
