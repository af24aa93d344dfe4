//! The G2O text format.
//!
//! A description is a sequence of lines separated by `\n`, each a sequence of
//! tokens separated by single spaces:
//! `VERTEX_SE2 <id> <x> <y> <theta>` for a 2-D pose,
//! `EDGE_SE2 <from> <to> <dx> <dy> <dtheta> <I00> <I01> <I02> <I11> <I12> <I22>`
//! for a relative-pose factor with the upper triangle of its information
//! matrix, and `FIX <id>`, which is accepted and dropped. Empty lines are
//! skipped. All vertex lines precede all edge lines, and a description holds
//! at least one of each.
use vstd::prelude::*;
use vstd::string::{StrSliceExecFns, StringExecFns};
use crate::model::{Edge, EdgeView, FactorGraphModel, ModelView, Vertex, VertexView};
use crate::numbers::{
    decimal_of, decimal_string, decimal_value, is_id_token, is_number, is_number_token, parse_id,
};
use crate::text::{join_str, join_with, split_on, split_str, views};

verus! {

pub open spec fn vertex_tag() -> Seq<char> {
    "VERTEX_SE2"@
}

pub open spec fn edge_tag() -> Seq<char> {
    "EDGE_SE2"@
}

pub open spec fn fix_tag() -> Seq<char> {
    "FIX"@
}

/// The model's name for a 2-D pose with an angle.
pub open spec fn pose_type() -> Seq<char> {
    "POSE2D_ANGLE"@
}

/// The model's name for a 2-D relative-pose factor with an angle.
pub open spec fn odometry_type() -> Seq<char> {
    "ODOMETRY2D_ANGLE"@
}

/// Whether every token of `t` from `lo` up to `hi` is real-number text.
pub open spec fn all_numbers(t: Seq<Seq<char>>, lo: int, hi: int) -> bool {
    forall|k: int| lo <= k < hi ==> is_number_token(#[trigger] t[k])
}

/// What one line of a description stands for.
pub enum LineKind {
    Blank,
    Fix,
    Vertex(VertexView),
    Edge(EdgeView),
    Malformed,
}

/// The full information matrix, row-major, of its upper triangle
/// `I00 I01 I02 I11 I12 I22` held in `t` from index `k`.
pub open spec fn full_information(t: Seq<Seq<char>>, k: int) -> Seq<Seq<char>> {
    seq![
        t[k], t[k + 1], t[k + 2],
        t[k + 1], t[k + 3], t[k + 4],
        t[k + 2], t[k + 4], t[k + 5],
    ]
}

pub open spec fn vertex_of_tokens(t: Seq<Seq<char>>) -> VertexView {
    VertexView {
        id: decimal_value(t[1]) as usize,
        vertex_type: pose_type(),
        position: seq![t[2], t[3]],
        rotation: seq![t[4]],
    }
}

pub open spec fn edge_of_tokens(t: Seq<Seq<char>>) -> EdgeView {
    EdgeView {
        edge_type: odometry_type(),
        vertices: seq![decimal_value(t[1]) as usize, decimal_value(t[2]) as usize],
        restriction: seq![t[3], t[4], t[5]],
        information_matrix: full_information(t, 6),
    }
}

/// What the line `line` stands for.
pub open spec fn classify(line: Seq<char>) -> LineKind {
    let t = split_on(line, ' ');
    if line.len() == 0 {
        LineKind::Blank
    } else if t[0] == fix_tag() {
        if t.len() == 2 && is_id_token(t[1]) { LineKind::Fix } else { LineKind::Malformed }
    } else if t[0] == vertex_tag() {
        if t.len() == 5 && is_id_token(t[1]) && all_numbers(t, 2, 5) {
            LineKind::Vertex(vertex_of_tokens(t))
        } else {
            LineKind::Malformed
        }
    } else if t[0] == edge_tag() {
        if t.len() == 12 && is_id_token(t[1]) && is_id_token(t[2]) && all_numbers(t, 3, 12) {
            LineKind::Edge(edge_of_tokens(t))
        } else {
            LineKind::Malformed
        }
    } else {
        LineKind::Malformed
    }
}

/// Why a description cannot be read.
#[derive(PartialEq, Eq, Structural, Debug, Clone, Copy)]
pub enum ParseError {
    /// The line of this index (from 0) is no line of the format.
    MalformedLine(usize),
    /// The line of this index holds a vertex that follows an edge.
    VertexAfterEdge(usize),
    /// The description holds no vertex.
    NoVertex,
    /// The description holds no edge.
    NoEdge,
}

pub open spec fn empty_model() -> ModelView {
    ModelView { vertices: Seq::empty(), edges: Seq::empty() }
}

/// The model of the lines `lines`, read in order, before the checks that
/// apply to a whole description.
pub open spec fn parse_lines(lines: Seq<Seq<char>>) -> Result<ModelView, ParseError>
    decreases lines.len(),
{
    if lines.len() == 0 {
        Ok(empty_model())
    } else {
        match parse_lines(lines.drop_last()) {
            Err(e) => Err(e),
            Ok(m) => {
                let i = (lines.len() - 1) as usize;
                match classify(lines.last()) {
                    LineKind::Blank => Ok(m),
                    LineKind::Fix => Ok(m),
                    LineKind::Vertex(v) => if m.edges.len() > 0 {
                        Err(ParseError::VertexAfterEdge(i))
                    } else {
                        Ok(ModelView { vertices: m.vertices.push(v), edges: m.edges })
                    },
                    LineKind::Edge(e) => Ok(ModelView { vertices: m.vertices, edges: m.edges.push(e) }),
                    LineKind::Malformed => Err(ParseError::MalformedLine(i)),
                }
            },
        }
    }
}

/// The model that the description `s` stands for, or why it cannot be read.
pub open spec fn parse_spec(s: Seq<char>) -> Result<ModelView, ParseError> {
    match parse_lines(split_on(s, '\n')) {
        Err(e) => Err(e),
        Ok(m) => if m.vertices.len() == 0 {
            Err(ParseError::NoVertex)
        } else if m.edges.len() == 0 {
            Err(ParseError::NoEdge)
        } else {
            Ok(m)
        },
    }
}

/// An error on a prefix of the lines is the error of all of them.
proof fn lemma_parse_lines_err(lines: Seq<Seq<char>>, k: int)
    requires
        0 <= k <= lines.len(),
        parse_lines(lines.take(k)) is Err,
    ensures
        parse_lines(lines) == parse_lines(lines.take(k)),
    decreases lines.len() - k,
{
    if k == lines.len() {
        assert(lines.take(k) =~= lines);
    } else {
        assert(lines.take(k + 1).drop_last() =~= lines.take(k));
        lemma_parse_lines_err(lines, k + 1);
    }
}

/// Whether two texts are equal.
fn text_eq(a: &str, b: &str) -> (r: bool)
    ensures
        r == (a@ == b@),
{
    let n = a.unicode_len();
    if n != b.unicode_len() {
        return false;
    }
    let mut i: usize = 0;
    while i < n
        invariant
            n == a@.len() == b@.len(),
            i <= n,
            forall|k: int| 0 <= k < i ==> a@[k] == b@[k],
        decreases n - i,
    {
        if a.get_char(i) != b.get_char(i) {
            return false;
        }
        i = i + 1;
    }
    assert(a@ =~= b@);
    true
}

/// What one line stands for, with the values it holds.
pub enum ParsedLine {
    Blank,
    Fix,
    Vertex(Vertex),
    Edge(Edge),
    Malformed,
}

pub open spec fn parsed_line_view(l: ParsedLine) -> LineKind {
    match l {
        ParsedLine::Blank => LineKind::Blank,
        ParsedLine::Fix => LineKind::Fix,
        ParsedLine::Vertex(v) => LineKind::Vertex(v@),
        ParsedLine::Edge(e) => LineKind::Edge(e@),
        ParsedLine::Malformed => LineKind::Malformed,
    }
}

/// Whether the tokens of `t` from `lo` up to `hi` are all real-number text.
fn numbers_in(t: &Vec<String>, lo: usize, hi: usize) -> (r: bool)
    requires
        lo <= hi <= t.len(),
    ensures
        r == all_numbers(views(t@), lo as int, hi as int),
{
    let mut k = lo;
    while k < hi
        invariant
            lo <= k <= hi <= t.len(),
            forall|j: int| lo <= j < k ==> is_number_token(#[trigger] views(t@)[j]),
        decreases hi - k,
    {
        if !is_number(t[k].as_str()) {
            assert(views(t@)[k as int] == t@[k as int]@);
            return false;
        }
        k = k + 1;
    }
    true
}

/// Copies of the tokens of `t` at the indices `idx`, in that order.
fn pick(t: &Vec<String>, idx: &[usize]) -> (r: Vec<String>)
    requires
        forall|j: int| 0 <= j < idx@.len() ==> idx@[j] < t.len(),
    ensures
        views(r@) == idx@.map_values(|i: usize| views(t@)[i as int]),
{
    let mut r: Vec<String> = Vec::new();
    let mut j: usize = 0;
    while j < idx.len()
        invariant
            j <= idx@.len(),
            forall|q: int| 0 <= q < idx@.len() ==> idx@[q] < t.len(),
            views(r@) == idx@.take(j as int).map_values(|i: usize| views(t@)[i as int]),
        decreases idx@.len() - j,
    {
        let ghost before = r@;
        r.push(t[idx[j]].clone());
        assert(idx@.take(j as int + 1) =~= idx@.take(j as int).push(idx@[j as int]));
        assert(views(r@) =~= views(before).push(views(t@)[idx@[j as int] as int]));
        assert(views(r@) =~= idx@.take(j as int + 1).map_values(|i: usize| views(t@)[i as int]));
        j = j + 1;
    }
    assert(idx@.take(j as int) =~= idx@);
    r
}

/// Reads one line of a description.
pub fn classify_line(line: &str) -> (r: ParsedLine)
    ensures
        parsed_line_view(r) == classify(line@),
{
    if line.unicode_len() == 0 {
        return ParsedLine::Blank;
    }
    let t = split_str(line, ' ');
    let ghost tv = views(t@);
    proof {
        crate::text::lemma_split_len(line@, ' ');
    }
    if text_eq(t[0].as_str(), "FIX") {
        if t.len() == 2 && parse_id(t[1].as_str()).is_some() {
            return ParsedLine::Fix;
        }
        return ParsedLine::Malformed;
    }
    if text_eq(t[0].as_str(), "VERTEX_SE2") {
        if t.len() != 5 {
            return ParsedLine::Malformed;
        }
        let id = match parse_id(t[1].as_str()) {
            Some(id) => id,
            None => { return ParsedLine::Malformed; },
        };
        if !numbers_in(&t, 2, 5) {
            return ParsedLine::Malformed;
        }
        let v = Vertex {
            id,
            vertex_type: String::from_str("POSE2D_ANGLE"),
            position: pick(&t, &[2, 3]),
            rotation: pick(&t, &[4]),
        };
        assert(v@.position =~= seq![tv[2], tv[3]]);
        assert(v@.rotation =~= seq![tv[4]]);
        return ParsedLine::Vertex(v);
    }
    if text_eq(t[0].as_str(), "EDGE_SE2") {
        if t.len() != 12 {
            return ParsedLine::Malformed;
        }
        let from = match parse_id(t[1].as_str()) {
            Some(id) => id,
            None => { return ParsedLine::Malformed; },
        };
        let to = match parse_id(t[2].as_str()) {
            Some(id) => id,
            None => { return ParsedLine::Malformed; },
        };
        if !numbers_in(&t, 3, 12) {
            return ParsedLine::Malformed;
        }
        let mut vertices: Vec<usize> = Vec::new();
        vertices.push(from);
        vertices.push(to);
        let e = Edge {
            edge_type: String::from_str("ODOMETRY2D_ANGLE"),
            vertices,
            restriction: pick(&t, &[3, 4, 5]),
            information_matrix: pick(&t, &[6, 7, 8, 7, 9, 10, 8, 10, 11]),
        };
        assert(e@.vertices =~= seq![from, to]);
        assert(e@.restriction =~= seq![tv[3], tv[4], tv[5]]);
        assert(e@.information_matrix =~= full_information(tv, 6));
        return ParsedLine::Edge(e);
    }
    ParsedLine::Malformed
}

/// Whether a vertex can be written as a line: a 2-D pose whose position has
/// two components and whose rotation has one, all real-number text.
pub open spec fn vertex_composable(v: VertexView) -> bool {
    &&& v.vertex_type == pose_type()
    &&& v.position.len() == 2
    &&& v.rotation.len() == 1
    &&& all_numbers(v.position, 0, 2)
    &&& all_numbers(v.rotation, 0, 1)
}

pub open spec fn vertex_tokens(v: VertexView) -> Seq<Seq<char>> {
    seq![vertex_tag(), decimal_of(v.id as nat)] + v.position + v.rotation
}

/// The line of a vertex.
pub open spec fn vertex_line(v: VertexView) -> Seq<char> {
    join_with(vertex_tokens(v), ' ')
}

/// Whether a 3x3 matrix, row-major, is symmetric.
pub open spec fn is_symmetric3(m: Seq<Seq<char>>) -> bool {
    m[1] == m[3] && m[2] == m[6] && m[5] == m[7]
}

/// The upper triangle `I00 I01 I02 I11 I12 I22` of a 3x3 matrix, row-major.
pub open spec fn upper_triangle(m: Seq<Seq<char>>) -> Seq<Seq<char>> {
    seq![m[0], m[1], m[2], m[4], m[5], m[8]]
}

/// Whether an edge can be written as a line: a 2-D relative-pose factor
/// between two vertices, with three measured components and a symmetric 3x3
/// information matrix, all real-number text.
pub open spec fn edge_composable(e: EdgeView) -> bool {
    &&& e.edge_type == odometry_type()
    &&& e.vertices.len() == 2
    &&& e.restriction.len() == 3
    &&& e.information_matrix.len() == 9
    &&& all_numbers(e.restriction, 0, 3)
    &&& all_numbers(e.information_matrix, 0, 9)
    &&& is_symmetric3(e.information_matrix)
}

pub open spec fn id_texts(ids: Seq<usize>) -> Seq<Seq<char>> {
    ids.map_values(|i: usize| decimal_of(i as nat))
}

pub open spec fn edge_tokens(e: EdgeView) -> Seq<Seq<char>> {
    seq![edge_tag()] + id_texts(e.vertices) + e.restriction + upper_triangle(e.information_matrix)
}

/// The line of an edge.
pub open spec fn edge_line(e: EdgeView) -> Seq<char> {
    join_with(edge_tokens(e), ' ')
}

pub open spec fn model_composable(m: ModelView) -> bool {
    &&& forall|i: int| 0 <= i < m.vertices.len() ==> vertex_composable(#[trigger] m.vertices[i])
    &&& forall|i: int| 0 <= i < m.edges.len() ==> edge_composable(#[trigger] m.edges[i])
}

/// The lines of a model: one per vertex, then one per edge.
pub open spec fn model_lines(m: ModelView) -> Seq<Seq<char>> {
    m.vertices.map_values(|v: VertexView| vertex_line(v)) + m.edges.map_values(|e: EdgeView| edge_line(e))
}

/// The description of a model.
pub open spec fn compose_spec(m: ModelView) -> Seq<char> {
    join_with(model_lines(m), '\n')
}

/// Why a model cannot be written in the format.
#[derive(PartialEq, Eq, Structural, Debug, Clone, Copy)]
pub enum ComposeError {
    /// The vertex of this index is of a kind, or holds values, that the
    /// format cannot hold.
    UnsupportedVertex(usize),
    /// The edge of this index is of a kind, or holds values, that the format
    /// cannot hold.
    UnsupportedEdge(usize),
}

/// Reads and writes factor graph descriptions in the G2O text format.
pub struct G2oParser;

impl G2oParser {
    /// Reads the description `s` into a model.
    pub fn parse_string_to_model(s: &str) -> (r: Result<FactorGraphModel, ParseError>)
        ensures
            r is Ok ==> parse_spec(s@) == Ok::<ModelView, ParseError>(r->Ok_0@),
            r is Err ==> parse_spec(s@) == Err::<ModelView, ParseError>(r->Err_0),
    {
        let lines = split_str(s, '\n');
        let ghost lv = views(lines@);
        let mut vertices: Vec<Vertex> = Vec::new();
        let mut edges: Vec<Edge> = Vec::new();
        let mut i: usize = 0;
        assert(lv.take(0) =~= Seq::<Seq<char>>::empty());
        assert(vertices@.map_values(|v: Vertex| v@) =~= Seq::<VertexView>::empty());
        assert(edges@.map_values(|e: Edge| e@) =~= Seq::<EdgeView>::empty());
        while i < lines.len()
            invariant
                lv == views(lines@),
                lv == split_on(s@, '\n'),
                i <= lines.len(),
                parse_lines(lv.take(i as int)) == Ok::<ModelView, ParseError>(ModelView {
                    vertices: vertices@.map_values(|v: Vertex| v@),
                    edges: edges@.map_values(|e: Edge| e@),
                }),
            decreases lines.len() - i,
        {
            proof {
                let t = lv.take(i as int + 1);
                assert(t.drop_last() =~= lv.take(i as int));
                assert(t.last() == lines@[i as int]@);
            }
            match classify_line(lines[i].as_str()) {
                ParsedLine::Blank => {},
                ParsedLine::Fix => {},
                ParsedLine::Vertex(v) => {
                    if edges.len() > 0 {
                        proof {
                            assert(edges@.map_values(|e: Edge| e@).len() > 0);
                            assert(parse_lines(lv.take(i as int + 1))
                                == Err::<ModelView, ParseError>(ParseError::VertexAfterEdge(i)));
                            lemma_parse_lines_err(lv, i as int + 1);
                        }
                        return Err(ParseError::VertexAfterEdge(i));
                    }
                    let ghost before = vertices@;
                    vertices.push(v);
                    assert(vertices@.map_values(|v: Vertex| v@) =~= before.map_values(|v: Vertex| v@).push(v@));
                },
                ParsedLine::Edge(e) => {
                    let ghost before = edges@;
                    edges.push(e);
                    assert(edges@.map_values(|e: Edge| e@) =~= before.map_values(|e: Edge| e@).push(e@));
                },
                ParsedLine::Malformed => {
                    proof {
                        assert(parse_lines(lv.take(i as int + 1))
                            == Err::<ModelView, ParseError>(ParseError::MalformedLine(i)));
                        lemma_parse_lines_err(lv, i as int + 1);
                    }
                    return Err(ParseError::MalformedLine(i));
                },
            }
            i = i + 1;
        }
        assert(lv.take(i as int) =~= lv);
        if vertices.len() == 0 {
            return Err(ParseError::NoVertex);
        }
        if edges.len() == 0 {
            return Err(ParseError::NoEdge);
        }
        Ok(FactorGraphModel { vertices, edges })
    }

    /// Writes the model `model` as a description: one line per vertex, then
    /// one line per edge, separated by `\n`. Fails on the first vertex, or
    /// else on the first edge, that the format cannot hold.
    pub fn compose_model_to_string(model: FactorGraphModel) -> (r: Result<String, ComposeError>)
        ensures
            r is Ok <==> model_composable(model@),
            r is Ok ==> r->Ok_0@ == compose_spec(model@),
            r matches Err(ComposeError::UnsupportedVertex(i)) ==> {
                &&& i < model@.vertices.len()
                &&& !vertex_composable(model@.vertices[i as int])
                &&& forall|j: int| 0 <= j < i ==> vertex_composable(#[trigger] model@.vertices[j])
            },
            r matches Err(ComposeError::UnsupportedEdge(i)) ==> {
                &&& forall|j: int| 0 <= j < model@.vertices.len() ==> vertex_composable(#[trigger] model@.vertices[j])
                &&& i < model@.edges.len()
                &&& !edge_composable(model@.edges[i as int])
                &&& forall|j: int| 0 <= j < i ==> edge_composable(#[trigger] model@.edges[j])
            },
    {
        let ghost m = model@;
        let mut lines: Vec<String> = Vec::new();
        let mut i: usize = 0;
        while i < model.vertices.len()
            invariant
                m == model@,
                i <= model.vertices.len(),
                forall|j: int| 0 <= j < i ==> vertex_composable(#[trigger] m.vertices[j]),
                views(lines@) == m.vertices.take(i as int).map_values(|v: VertexView| vertex_line(v)),
            decreases model.vertices.len() - i,
        {
            assert(m.vertices[i as int] == model.vertices@[i as int]@);
            match Self::vertex_to_string(&model.vertices[i]) {
                Some(line) => {
                    let ghost before = lines@;
                    lines.push(line);
                    assert(views(lines@) =~= views(before).push(line@));
                    assert(m.vertices.take(i as int + 1) =~= m.vertices.take(i as int).push(m.vertices[i as int]));
                    assert(views(lines@) =~= m.vertices.take(i as int + 1).map_values(|v: VertexView| vertex_line(v)));
                },
                None => {
                    return Err(ComposeError::UnsupportedVertex(i));
                },
            }
            i = i + 1;
        }
        assert(m.vertices.take(i as int) =~= m.vertices);
        let ghost vlines = views(lines@);
        let mut k: usize = 0;
        assert(vlines + m.edges.take(0).map_values(|e: EdgeView| edge_line(e)) =~= vlines);
        while k < model.edges.len()
            invariant
                m == model@,
                vlines == m.vertices.map_values(|v: VertexView| vertex_line(v)),
                forall|j: int| 0 <= j < m.vertices.len() ==> vertex_composable(#[trigger] m.vertices[j]),
                k <= model.edges.len(),
                forall|j: int| 0 <= j < k ==> edge_composable(#[trigger] m.edges[j]),
                views(lines@) == vlines + m.edges.take(k as int).map_values(|e: EdgeView| edge_line(e)),
            decreases model.edges.len() - k,
        {
            assert(m.edges[k as int] == model.edges@[k as int]@);
            match Self::edge_to_string(&model.edges[k]) {
                Some(line) => {
                    let ghost before = lines@;
                    lines.push(line);
                    assert(views(lines@) =~= views(before).push(line@));
                    assert(m.edges.take(k as int + 1) =~= m.edges.take(k as int).push(m.edges[k as int]));
                    assert(views(lines@) =~= vlines + m.edges.take(k as int + 1).map_values(|e: EdgeView| edge_line(e)));
                },
                None => {
                    return Err(ComposeError::UnsupportedEdge(k));
                },
            }
            k = k + 1;
        }
        assert(m.edges.take(k as int) =~= m.edges);
        proof {
            reveal_strlit("\n");
        }
        Ok(join_str(&lines, "\n"))
    }

    /// Appends copies of `values` to `tokens`.
    fn append_f64_slice_to_string_vec(tokens: &mut Vec<String>, values: &[String])
        ensures
            views(final(tokens)@) == views(old(tokens)@) + views(values@),
    {
        let mut j: usize = 0;
        let ghost start = views(tokens@);
        assert(views(values@).take(0) =~= Seq::<Seq<char>>::empty());
        assert(start + views(values@).take(0) =~= start);
        while j < values.len()
            invariant
                j <= values.len(),
                views(tokens@) == start + views(values@).take(j as int),
            decreases values.len() - j,
        {
            let ghost before = tokens@;
            tokens.push(values[j].clone());
            assert(views(tokens@) =~= views(before).push(values@[j as int]@));
            assert(views(values@).take(j as int + 1) =~= views(values@).take(j as int).push(values@[j as int]@));
            j = j + 1;
        }
        assert(views(values@).take(j as int) =~= views(values@));
    }

    /// Appends the shortest decimal text of each of `values` to `tokens`.
    pub fn append_usize_slice_to_string_vec(tokens: &mut Vec<String>, values: &[usize])
        ensures
            views(final(tokens)@) == views(old(tokens)@) + id_texts(values@),
    {
        let mut j: usize = 0;
        let ghost start = views(tokens@);
        assert(id_texts(values@).take(0) =~= Seq::<Seq<char>>::empty());
        assert(start + id_texts(values@).take(0) =~= start);
        while j < values.len()
            invariant
                j <= values.len(),
                views(tokens@) == start + id_texts(values@).take(j as int),
            decreases values.len() - j,
        {
            let ghost before = tokens@;
            tokens.push(decimal_string(values[j]));
            assert(views(tokens@) =~= views(before).push(decimal_of(values@[j as int] as nat)));
            assert(id_texts(values@).take(j as int + 1) =~= id_texts(values@).take(j as int).push(decimal_of(values@[j as int] as nat)));
            j = j + 1;
        }
        assert(id_texts(values@).take(j as int) =~= id_texts(values@));
    }

    /// Appends copies of the elements of `values` at `indices`, in that order.
    fn append_f64_slice_elements_to_string_vec(tokens: &mut Vec<String>, values: &Vec<String>, indices: &[usize])
        requires
            forall|j: int| 0 <= j < indices@.len() ==> indices@[j] < values.len(),
        ensures
            views(final(tokens)@) == views(old(tokens)@) + indices@.map_values(|i: usize| views(values@)[i as int]),
    {
        let picked = pick(values, indices);
        Self::append_f64_slice_to_string_vec(tokens, picked.as_slice());
    }

    /// The line of the vertex `v`; `None` where the format cannot hold it.
    pub fn vertex_to_string(v: &Vertex) -> (r: Option<String>)
        ensures
            r.is_some() == vertex_composable(v@),
            r.is_some() ==> r.unwrap()@ == vertex_line(v@),
    {
        if !text_eq(v.vertex_type.as_str(), "POSE2D_ANGLE") || v.position.len() != 2 || v.rotation.len() != 1 {
            return None;
        }
        if !numbers_in(&v.position, 0, 2) || !numbers_in(&v.rotation, 0, 1) {
            return None;
        }
        let mut tokens: Vec<String> = Vec::new();
        tokens.push(String::from_str("VERTEX_SE2"));
        tokens.push(decimal_string(v.id));
        assert(views(tokens@) =~= seq![vertex_tag(), decimal_of(v.id as nat)]);
        Self::append_f64_slice_to_string_vec(&mut tokens, v.position.as_slice());
        Self::append_f64_slice_to_string_vec(&mut tokens, v.rotation.as_slice());
        proof {
            reveal_strlit(" ");
        }
        Some(join_str(&tokens, " "))
    }

    /// The line of the edge `e`; `None` where the format cannot hold it.
    pub fn edge_to_string(e: &Edge) -> (r: Option<String>)
        ensures
            r.is_some() == edge_composable(e@),
            r.is_some() ==> r.unwrap()@ == edge_line(e@),
    {
        if !text_eq(e.edge_type.as_str(), "ODOMETRY2D_ANGLE") || e.vertices.len() != 2
            || e.restriction.len() != 3 || e.information_matrix.len() != 9 {
            return None;
        }
        if !numbers_in(&e.restriction, 0, 3) || !numbers_in(&e.information_matrix, 0, 9) {
            return None;
        }
        let m = &e.information_matrix;
        if !text_eq(m[1].as_str(), m[3].as_str()) || !text_eq(m[2].as_str(), m[6].as_str())
            || !text_eq(m[5].as_str(), m[7].as_str()) {
            return None;
        }
        let mut tokens: Vec<String> = Vec::new();
        tokens.push(String::from_str("EDGE_SE2"));
        assert(views(tokens@) =~= seq![edge_tag()]);
        Self::append_usize_slice_to_string_vec(&mut tokens, e.vertices.as_slice());
        Self::append_f64_slice_to_string_vec(&mut tokens, e.restriction.as_slice());
        Self::append_f64_slice_elements_to_string_vec(&mut tokens, m, &[0, 1, 2, 4, 5, 8]);
        proof {
            let idx = seq![0usize, 1, 2, 4, 5, 8];
            assert(idx.map_values(|i: usize| views(m@)[i as int]) =~= upper_triangle(views(m@)));
            reveal_strlit(" ");
        }
        Some(join_str(&tokens, " "))
    }
}

} // verus!
