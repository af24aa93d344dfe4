use gs_rs::layout::{
    declarations_of, Block, FactorDecl, FactorKind, GraphConstructionError, GraphLayout, KindError,
    VariableDecl, VariableKind,
};
use gs_rs::G2oParser;

fn var(id: usize, kind: VariableKind) -> VariableDecl {
    VariableDecl { id, kind }
}

fn factor(kind: FactorKind, variables: Vec<usize>) -> FactorDecl {
    FactorDecl { kind, variables }
}

fn sample() -> GraphLayout {
    let vars = vec![
        var(10, VariableKind::Pose2D),
        var(20, VariableKind::Landmark2D),
        var(30, VariableKind::Pose2D),
    ];
    let factors = vec![
        factor(FactorKind::UnaryPosition, vec![10]),
        factor(FactorKind::Odometry, vec![10, 30]),
        factor(FactorKind::Observation, vec![30, 20]),
    ];
    GraphLayout::build(&vars, &factors).unwrap()
}

#[test]
fn offsets_are_prefix_sums_of_dimensions() {
    let l = sample();
    assert_eq!(l.offsets, vec![0, 3, 5]);
    assert_eq!(l.size, 8);
    assert_eq!(l.connections, vec![vec![0], vec![0, 2], vec![2, 1]]);
    assert_eq!(
        l.factor_kinds,
        vec![FactorKind::UnaryPosition, FactorKind::Odometry, FactorKind::Observation]
    );
}

#[test]
fn jacobian_shapes_follow_residual_and_variable_dimensions() {
    let l = sample();
    assert_eq!(l.jacobian_shapes(0), vec![(3, 3)]);
    assert_eq!(l.jacobian_shapes(1), vec![(3, 3), (3, 3)]);
    assert_eq!(l.jacobian_shapes(2), vec![(2, 3), (2, 2)]);
    assert_eq!(l.residual_dimension(2), 2);
}

#[test]
fn hessian_blocks_of_a_pair() {
    let l = sample();
    assert_eq!(
        l.hessian_blocks(2),
        vec![
            Block { row: 5, col: 5, rows: 3, cols: 3 },
            Block { row: 5, col: 3, rows: 3, cols: 2 },
            Block { row: 3, col: 5, rows: 2, cols: 3 },
            Block { row: 3, col: 3, rows: 2, cols: 2 },
        ]
    );
    assert_eq!(l.hessian_blocks(0), vec![Block { row: 0, col: 0, rows: 3, cols: 3 }]);
}

#[test]
fn adjacency_lists_incident_factors() {
    let l = sample();
    assert_eq!(l.adjacency(), vec![vec![0, 1], vec![2], vec![1, 2]]);
}

#[test]
fn empty_graph_is_refused() {
    let vars = vec![var(0, VariableKind::Pose2D)];
    assert_eq!(
        GraphLayout::build(&vars, &vec![]).err(),
        Some(GraphConstructionError::EmptyGraph)
    );
    assert_eq!(
        GraphLayout::build(&vec![], &vec![factor(FactorKind::UnaryPosition, vec![0])]).err(),
        Some(GraphConstructionError::EmptyGraph)
    );
}

#[test]
fn duplicate_identifier_is_refused() {
    let vars = vec![
        var(1, VariableKind::Pose2D),
        var(2, VariableKind::Pose2D),
        var(1, VariableKind::Landmark2D),
    ];
    let factors = vec![factor(FactorKind::UnaryPosition, vec![1])];
    assert_eq!(
        GraphLayout::build(&vars, &factors).err(),
        Some(GraphConstructionError::DuplicateId(2))
    );
}

#[test]
fn unknown_variable_is_refused() {
    let vars = vec![var(0, VariableKind::Pose2D), var(1, VariableKind::Pose2D)];
    let factors = vec![
        factor(FactorKind::UnaryPosition, vec![0]),
        factor(FactorKind::Odometry, vec![0, 7]),
    ];
    assert_eq!(
        GraphLayout::build(&vars, &factors).err(),
        Some(GraphConstructionError::UnknownVariable(1))
    );
}

#[test]
fn kind_mismatch_is_refused() {
    let vars = vec![var(0, VariableKind::Pose2D), var(1, VariableKind::Landmark2D)];
    let odometry_to_landmark = vec![factor(FactorKind::Odometry, vec![0, 1])];
    assert_eq!(
        GraphLayout::build(&vars, &odometry_to_landmark).err(),
        Some(GraphConstructionError::KindMismatch(0))
    );
    let reversed_observation = vec![
        factor(FactorKind::UnaryPosition, vec![0]),
        factor(FactorKind::Observation, vec![1, 0]),
    ];
    assert_eq!(
        GraphLayout::build(&vars, &reversed_observation).err(),
        Some(GraphConstructionError::KindMismatch(1))
    );
    let unary_of_two = vec![factor(FactorKind::UnaryPosition, vec![0, 1])];
    assert_eq!(
        GraphLayout::build(&vars, &unary_of_two).err(),
        Some(GraphConstructionError::KindMismatch(0))
    );
}

#[test]
fn dimensions_of_kinds() {
    assert_eq!(VariableKind::Pose2D.dimension(), 3);
    assert_eq!(VariableKind::Landmark2D.dimension(), 2);
}

#[test]
fn parsed_description_declares_a_graph() {
    let text = "VERTEX_SE2 4 0 0 0\nVERTEX_SE2 9 1 0 0\nFIX 4\nEDGE_SE2 4 9 1 0 0 1 0 0 1 0 1\n";
    let m = G2oParser::parse_string_to_model(text).unwrap();
    let (vars, factors) = declarations_of(&m).unwrap();
    assert_eq!(vars, vec![var(4, VariableKind::Pose2D), var(9, VariableKind::Pose2D)]);
    assert_eq!(factors.len(), 1);
    assert_eq!(factors[0].kind, FactorKind::Odometry);
    assert_eq!(factors[0].variables, vec![4, 9]);
    let l = GraphLayout::build(&vars, &factors).unwrap();
    assert_eq!(l.offsets, vec![0, 3]);
    assert_eq!(l.size, 6);
    assert_eq!(l.connections, vec![vec![0, 1]]);

    let mut other = m;
    other.edges[0].edge_type = "OBSERVATION".to_string();
    assert_eq!(declarations_of(&other).err(), Some(KindError::UnknownEdgeType(0)));
    other.vertices[1].vertex_type = "LANDMARK".to_string();
    assert_eq!(declarations_of(&other).err(), Some(KindError::UnknownVertexType(1)));
}
