//! Reading a description and writing it back.
use vstd::prelude::*;
use crate::g2o::{
    all_numbers, classify, compose_spec, edge_composable, edge_line, edge_of_tokens, edge_tag,
    edge_tokens, empty_model, fix_tag, id_texts, model_composable, model_lines, parse_lines,
    parse_spec, vertex_composable, vertex_line, vertex_of_tokens, vertex_tag, vertex_tokens,
    LineKind, ParseError,
};
use crate::model::{EdgeView, ModelView, VertexView};
use crate::numbers::{
    decimal_of, is_decimal, is_digit, is_id_token, is_number_token, lemma_decimal_of,
    number_state, number_step,
};
use crate::text::{join_with, lemma_split_join, split_on};

verus! {

/// Real-number text holds no space and no line break.
proof fn lemma_number_plain(t: Seq<char>)
    requires
        number_state(t) != 9,
    ensures
        !t.contains(' '),
        !t.contains('\n'),
    decreases t.len(),
{
    if t.len() > 0 {
        let p = t.drop_last();
        assert(number_state(p) != 9) by {
            if number_state(p) == 9 {
                assert(number_step(9, t.last()) == 9);
            }
        }
        lemma_number_plain(p);
        assert(t.last() != ' ' && t.last() != '\n');
        assert forall|k: int| 0 <= k < t.len() implies t[k] != ' ' && t[k] != '\n' by {
            if k < t.len() - 1 {
                assert(t[k] == p[k]);
            }
        }
    }
}

/// Decimal text holds no space and no line break.
proof fn lemma_decimal_plain(t: Seq<char>)
    requires
        is_decimal(t),
    ensures
        !t.contains(' '),
        !t.contains('\n'),
{
    assert forall|k: int| 0 <= k < t.len() implies t[k] != ' ' && t[k] != '\n' by {
        assert(is_digit(t[k]));
    }
}

/// Joined pieces hold a character only where a piece does or the separator is it.
proof fn lemma_join_lacks(parts: Seq<Seq<char>>, sep: char, c: char)
    requires
        sep != c,
        forall|i: int| 0 <= i < parts.len() ==> !(#[trigger] parts[i]).contains(c),
    ensures
        !join_with(parts, sep).contains(c),
    decreases parts.len(),
{
    if parts.len() > 1 {
        let init = parts.drop_last();
        assert forall|i: int| 0 <= i < init.len() implies !(#[trigger] init[i]).contains(c) by {
            assert(init[i] == parts[i]);
        }
        lemma_join_lacks(init, sep, c);
        let a = join_with(init, sep).push(sep);
        let b = parts.last();
        assert(!b.contains(c));
        assert forall|k: int| 0 <= k < (a + b).len() implies (a + b)[k] != c by {
            if k < a.len() - 1 {
                assert((a + b)[k] == join_with(init, sep)[k]);
            } else if k >= a.len() {
                assert((a + b)[k] == b[k - a.len()]);
            }
        }
    } else if parts.len() == 1 {
        assert(!parts[0].contains(c));
    }
}

proof fn lemma_tags()
    ensures
        vertex_tag() != fix_tag(),
        edge_tag() != fix_tag(),
        edge_tag() != vertex_tag(),
        vertex_tag().len() > 0,
        edge_tag().len() > 0,
        !vertex_tag().contains(' '),
        !vertex_tag().contains('\n'),
        !edge_tag().contains(' '),
        !edge_tag().contains('\n'),
{
    reveal_strlit("VERTEX_SE2");
    reveal_strlit("EDGE_SE2");
    reveal_strlit("FIX");
    assert(vertex_tag().len() != fix_tag().len());
    assert(edge_tag().len() != fix_tag().len());
    assert(edge_tag().len() != vertex_tag().len());
}

/// Tokens of a line hold no space and no line break.
pub open spec fn plain_tokens(t: Seq<Seq<char>>) -> bool {
    forall|i: int| 0 <= i < t.len() ==> !(#[trigger] t[i]).contains(' ') && !t[i].contains('\n')
}

proof fn lemma_line_of_tokens(t: Seq<Seq<char>>)
    requires
        t.len() >= 1,
        t[0].len() > 0,
        plain_tokens(t),
    ensures
        split_on(join_with(t, ' '), ' ') == t,
        join_with(t, ' ').len() > 0,
        !join_with(t, ' ').contains('\n'),
{
    lemma_split_join(t, ' ');
    lemma_join_lacks(t, ' ', '\n');
    if join_with(t, ' ').len() == 0 {
        assert(join_with(t, ' ') =~= Seq::<char>::empty());
        assert(split_on(Seq::<char>::empty(), ' ')[0].len() == 0);
    }
}

proof fn lemma_vertex_line(v: VertexView)
    requires
        vertex_composable(v),
    ensures
        classify(vertex_line(v)) == LineKind::Vertex(v),
        !vertex_line(v).contains('\n'),
{
    let t = vertex_tokens(v);
    lemma_tags();
    lemma_decimal_of(v.id as nat);
    lemma_decimal_plain(decimal_of(v.id as nat));
    assert(t[0] == vertex_tag());
    assert(t[1] == decimal_of(v.id as nat));
    assert(t[2] == v.position[0] && t[3] == v.position[1] && t[4] == v.rotation[0]);
    assert(is_number_token(v.position[0]) && is_number_token(v.position[1]));
    assert(is_number_token(v.rotation[0]));
    lemma_number_plain(v.position[0]);
    lemma_number_plain(v.position[1]);
    lemma_number_plain(v.rotation[0]);
    assert(plain_tokens(t));
    lemma_line_of_tokens(t);
    assert(all_numbers(t, 2, 5));
    let w = vertex_of_tokens(t);
    assert(w.position =~= v.position);
    assert(w.rotation =~= v.rotation);
    assert(w == v);
}

proof fn lemma_edge_tokens(e: EdgeView)
    requires
        edge_composable(e),
    ensures
        edge_tokens(e) == seq![
            edge_tag(), decimal_of(e.vertices[0] as nat), decimal_of(e.vertices[1] as nat),
            e.restriction[0], e.restriction[1], e.restriction[2],
            e.information_matrix[0], e.information_matrix[1], e.information_matrix[2],
            e.information_matrix[4], e.information_matrix[5], e.information_matrix[8],
        ],
{
    assert(id_texts(e.vertices) =~= seq![decimal_of(e.vertices[0] as nat), decimal_of(e.vertices[1] as nat)]);
    assert(e.restriction =~= seq![e.restriction[0], e.restriction[1], e.restriction[2]]);
    assert(edge_tokens(e) =~= seq![
        edge_tag(), decimal_of(e.vertices[0] as nat), decimal_of(e.vertices[1] as nat),
        e.restriction[0], e.restriction[1], e.restriction[2],
        e.information_matrix[0], e.information_matrix[1], e.information_matrix[2],
        e.information_matrix[4], e.information_matrix[5], e.information_matrix[8],
    ]);
}

proof fn lemma_edge_plain(e: EdgeView)
    requires
        edge_composable(e),
    ensures
        plain_tokens(edge_tokens(e)),
        all_numbers(edge_tokens(e), 3, 12),
        edge_tokens(e).len() == 12,
{
    let t = edge_tokens(e);
    let m = e.information_matrix;
    lemma_edge_tokens(e);
    lemma_tags();
    lemma_decimal_of(e.vertices[0] as nat);
    lemma_decimal_of(e.vertices[1] as nat);
    lemma_decimal_plain(decimal_of(e.vertices[0] as nat));
    lemma_decimal_plain(decimal_of(e.vertices[1] as nat));
    assert(is_number_token(e.restriction[0]) && is_number_token(e.restriction[1]));
    assert(is_number_token(e.restriction[2]));
    assert(is_number_token(m[0]) && is_number_token(m[1]) && is_number_token(m[2]));
    assert(is_number_token(m[4]) && is_number_token(m[5]) && is_number_token(m[8]));
    assert forall|k: int| 3 <= k < 12 implies is_number_token(#[trigger] t[k]) by {}
    assert forall|k: int| 3 <= k < 12 implies !(#[trigger] t[k]).contains(' ') && !t[k].contains('\n') by {
        lemma_number_plain(t[k]);
    }
}

#[verifier::rlimit(50)]
proof fn lemma_edge_line(e: EdgeView)
    requires
        edge_composable(e),
    ensures
        classify(edge_line(e)) == LineKind::Edge(e),
        !edge_line(e).contains('\n'),
{
    let t = edge_tokens(e);
    let m = e.information_matrix;
    lemma_edge_tokens(e);
    lemma_edge_plain(e);
    lemma_tags();
    lemma_decimal_of(e.vertices[0] as nat);
    lemma_decimal_of(e.vertices[1] as nat);
    lemma_line_of_tokens(t);
    let line = edge_line(e);
    assert(split_on(line, ' ') == t);
    assert(line.len() > 0);
    assert(t[0] == edge_tag());
    assert(t[0] != fix_tag() && t[0] != vertex_tag());
    assert(is_id_token(t[1]) && is_id_token(t[2]));
    let f = edge_of_tokens(t);
    assert(f.vertices =~= e.vertices);
    assert(f.restriction =~= e.restriction);
    assert(f.information_matrix =~= m);
    assert(f == e);
}

/// The lines of the vertices of `m`, read in order, give its vertices.
proof fn lemma_parse_vertex_lines(m: ModelView, k: int)
    requires
        model_composable(m),
        0 <= k <= m.vertices.len(),
    ensures
        parse_lines(model_lines(m).take(k)) == Ok::<ModelView, ParseError>(
            ModelView { vertices: m.vertices.take(k), edges: Seq::empty() },
        ),
    decreases k,
{
    let l = model_lines(m);
    if k == 0 {
        assert(l.take(0) =~= Seq::<Seq<char>>::empty());
        assert(m.vertices.take(0) =~= Seq::<VertexView>::empty());
        assert(empty_model() == ModelView { vertices: m.vertices.take(0), edges: Seq::<EdgeView>::empty() });
    } else {
        lemma_parse_vertex_lines(m, k - 1);
        assert(l.take(k).drop_last() =~= l.take(k - 1));
        assert(l.take(k).last() == vertex_line(m.vertices[k - 1]));
        assert(vertex_composable(m.vertices[k - 1]));
        lemma_vertex_line(m.vertices[k - 1]);
        assert(m.vertices.take(k - 1).push(m.vertices[k - 1]) =~= m.vertices.take(k));
    }
}

/// The lines of `m`, read in order, give `m`.
proof fn lemma_parse_model_lines(m: ModelView, k: int)
    requires
        model_composable(m),
        0 <= k <= m.edges.len(),
    ensures
        parse_lines(model_lines(m).take(m.vertices.len() + k)) == Ok::<ModelView, ParseError>(
            ModelView { vertices: m.vertices, edges: m.edges.take(k) },
        ),
    decreases k,
{
    let l = model_lines(m);
    let n = m.vertices.len() as int;
    if k == 0 {
        lemma_parse_vertex_lines(m, n);
        assert(m.vertices.take(n) =~= m.vertices);
        assert(m.edges.take(0) =~= Seq::<EdgeView>::empty());
    } else {
        lemma_parse_model_lines(m, k - 1);
        assert(l.take(n + k).drop_last() =~= l.take(n + k - 1));
        assert(l.take(n + k).last() == edge_line(m.edges[k - 1]));
        assert(edge_composable(m.edges[k - 1]));
        lemma_edge_line(m.edges[k - 1]);
        assert(m.edges.take(k - 1).push(m.edges[k - 1]) =~= m.edges.take(k));
    }
}

/// A model that the format can hold, with at least one vertex and one edge,
/// is read back from its description unchanged.
pub proof fn lemma_compose_then_parse(m: ModelView)
    requires
        model_composable(m),
        m.vertices.len() >= 1,
        m.edges.len() >= 1,
    ensures
        parse_spec(compose_spec(m)) == Ok::<ModelView, ParseError>(m),
{
    let l = model_lines(m);
    assert forall|i: int| 0 <= i < l.len() implies !(#[trigger] l[i]).contains('\n') by {
        if i < m.vertices.len() {
            assert(vertex_composable(m.vertices[i]));
            lemma_vertex_line(m.vertices[i]);
        } else {
            assert(edge_composable(m.edges[i - m.vertices.len()]));
            lemma_edge_line(m.edges[i - m.vertices.len()]);
        }
    }
    lemma_split_join(l, '\n');
    lemma_parse_model_lines(m, m.edges.len() as int);
    assert(l.take(l.len() as int) =~= l);
    assert(m.edges.take(m.edges.len() as int) =~= m.edges);
}

/// What a line reads as, the format can hold.
proof fn lemma_classify_composable(line: Seq<char>)
    ensures
        classify(line) matches LineKind::Vertex(v) ==> vertex_composable(v),
        classify(line) matches LineKind::Edge(e) ==> edge_composable(e),
{
    let t = split_on(line, ' ');
    match classify(line) {
        LineKind::Vertex(v) => {
            assert(is_number_token(t[2]) && is_number_token(t[3]) && is_number_token(t[4]));
            assert(v.position[0] == t[2] && v.position[1] == t[3] && v.rotation[0] == t[4]);
        },
        LineKind::Edge(e) => {
            assert forall|k: int| 0 <= k < 3 implies is_number_token(#[trigger] e.restriction[k]) by {
                assert(e.restriction[k] == t[k + 3]);
            }
            let m = e.information_matrix;
            assert forall|k: int| 0 <= k < 9 implies is_number_token(#[trigger] m[k]) by {
                assert(is_number_token(t[6]) && is_number_token(t[7]) && is_number_token(t[8]));
                assert(is_number_token(t[9]) && is_number_token(t[10]) && is_number_token(t[11]));
            }
        },
        _ => {},
    }
}

/// Every model read from lines is one the format can hold.
proof fn lemma_parse_lines_composable(lines: Seq<Seq<char>>)
    requires
        parse_lines(lines) is Ok,
    ensures
        model_composable(parse_lines(lines)->Ok_0),
    decreases lines.len(),
{
    if lines.len() > 0 {
        lemma_parse_lines_composable(lines.drop_last());
        lemma_classify_composable(lines.last());
        let m = parse_lines(lines.drop_last())->Ok_0;
        let r = parse_lines(lines)->Ok_0;
        assert forall|i: int| 0 <= i < r.vertices.len() implies vertex_composable(#[trigger] r.vertices[i]) by {
            if i < m.vertices.len() {
                assert(vertex_composable(m.vertices[i]));
            }
        }
        assert forall|i: int| 0 <= i < r.edges.len() implies edge_composable(#[trigger] r.edges[i]) by {
            if i < m.edges.len() {
                assert(edge_composable(m.edges[i]));
            }
        }
    }
}

/// A description that reads as a model is written back as a description that
/// reads as the same model: the same vertices and edges, in the same order,
/// with the same kinds and values.
pub proof fn lemma_round_trip(s: Seq<char>)
    requires
        parse_spec(s) is Ok,
    ensures
        model_composable(parse_spec(s)->Ok_0),
        parse_spec(compose_spec(parse_spec(s)->Ok_0)) == parse_spec(s),
{
    lemma_parse_lines_composable(split_on(s, '\n'));
    lemma_compose_then_parse(parse_spec(s)->Ok_0);
}

} // verus!
