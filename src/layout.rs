//! The structure of a factor graph: which variables it holds, where each one's
//! slice lies in the global state vector, and which variables each factor
//! connects. The real-valued estimates and measurements are not part of it.
use vstd::prelude::*;
use crate::g2o::{odometry_type, pose_type};
use crate::model::FactorGraphModel;

verus! {

/// The kind of a variable; it fixes the variable's number of degrees of freedom.
#[derive(PartialEq, Eq, Structural, Debug, Clone, Copy)]
pub enum VariableKind {
    /// A 2-D pose: x, y and an angle.
    Pose2D,
    /// A 2-D landmark: x and y.
    Landmark2D,
}

impl VariableKind {
    pub open spec fn dim(self) -> nat {
        match self {
            VariableKind::Pose2D => 3,
            VariableKind::Landmark2D => 2,
        }
    }

    /// The number of degrees of freedom of a variable of this kind.
    pub fn dimension(&self) -> (r: usize)
        ensures
            r as nat == self.dim(),
    {
        match self {
            VariableKind::Pose2D => 3,
            VariableKind::Landmark2D => 2,
        }
    }
}

/// The kind of a factor.
#[derive(PartialEq, Eq, Structural, Debug, Clone, Copy)]
pub enum FactorKind {
    /// An absolute constraint on one variable.
    UnaryPosition,
    /// A relative pose from one 2-D pose to another.
    Odometry,
    /// The position of a 2-D landmark as seen from a 2-D pose.
    Observation,
}

/// Whether a factor of kind `k` can connect variables of kinds `v`, in order.
pub open spec fn factor_fits(k: FactorKind, v: Seq<VariableKind>) -> bool {
    match k {
        FactorKind::UnaryPosition => v.len() == 1,
        FactorKind::Odometry => v.len() == 2 && v[0] == VariableKind::Pose2D && v[1] == VariableKind::Pose2D,
        FactorKind::Observation => v.len() == 2 && v[0] == VariableKind::Pose2D && v[1] == VariableKind::Landmark2D,
    }
}

/// The length of the residual of a factor of kind `k` over variables of kinds `v`.
pub open spec fn residual_dim(k: FactorKind, v: Seq<VariableKind>) -> nat {
    match k {
        FactorKind::UnaryPosition => v[0].dim(),
        FactorKind::Odometry => 3,
        FactorKind::Observation => 2,
    }
}

/// The sum of the dimensions of variables of kinds `kinds`.
pub open spec fn dim_sum(kinds: Seq<VariableKind>) -> nat
    decreases kinds.len(),
{
    if kinds.len() == 0 {
        0
    } else {
        dim_sum(kinds.drop_last()) + kinds.last().dim()
    }
}

proof fn lemma_dim_sum_bound(kinds: Seq<VariableKind>)
    ensures
        dim_sum(kinds) <= 3 * kinds.len(),
    decreases kinds.len(),
{
    if kinds.len() > 0 {
        lemma_dim_sum_bound(kinds.drop_last());
    }
}

/// Sums of dimensions grow with the prefix taken.
pub proof fn lemma_dim_sum_prefix(kinds: Seq<VariableKind>, i: int, j: int)
    requires
        0 <= i <= j <= kinds.len(),
    ensures
        dim_sum(kinds.take(i)) <= dim_sum(kinds.take(j)),
    decreases j - i,
{
    if i < j {
        lemma_dim_sum_prefix(kinds, i, j - 1);
        assert(kinds.take(j).drop_last() =~= kinds.take(j - 1));
    }
}

/// A variable as declared: its identifier and its kind.
#[derive(PartialEq, Eq, Structural, Debug, Clone, Copy)]
pub struct VariableDecl {
    pub id: usize,
    pub kind: VariableKind,
}

/// A factor as declared: its kind and the identifiers of the variables it
/// connects, in order.
pub struct FactorDecl {
    pub kind: FactorKind,
    pub variables: Vec<usize>,
}

/// Why declarations do not make a factor graph.
#[derive(PartialEq, Eq, Structural, Debug, Clone, Copy)]
pub enum GraphConstructionError {
    /// There is no variable or no factor.
    EmptyGraph,
    /// The variable of this index has the identifier of an earlier one.
    DuplicateId(usize),
    /// The factor of this index names an identifier that no variable has.
    UnknownVariable(usize),
    /// The factor of this index connects variables of kinds it cannot connect.
    KindMismatch(usize),
}

pub open spec fn kinds_of(vars: Seq<VariableDecl>) -> Seq<VariableKind> {
    vars.map_values(|v: VariableDecl| v.kind)
}

pub open spec fn has_id(vars: Seq<VariableDecl>, id: usize) -> bool {
    exists|i: int| 0 <= i < vars.len() && vars[i].id == id
}

/// Whether the variable of index `j` repeats the identifier of an earlier one.
pub open spec fn repeats_id(vars: Seq<VariableDecl>, j: int) -> bool {
    exists|i: int| 0 <= i < j && vars[i].id == vars[j].id
}

pub open spec fn ids_unique(vars: Seq<VariableDecl>) -> bool {
    forall|j: int| 0 <= j < vars.len() ==> !repeats_id(vars, j)
}

/// Whether every identifier that `ids` names is that of a variable.
pub open spec fn ids_known(vars: Seq<VariableDecl>, ids: Seq<usize>) -> bool {
    forall|k: int| 0 <= k < ids.len() ==> has_id(vars, #[trigger] ids[k])
}

/// The index of the variable with identifier `id`, where there is one.
pub open spec fn index_of(vars: Seq<VariableDecl>, id: usize) -> int {
    choose|i: int| 0 <= i < vars.len() && vars[i].id == id
}

/// The kinds of the variables that `ids` names.
pub open spec fn kinds_named(vars: Seq<VariableDecl>, ids: Seq<usize>) -> Seq<VariableKind> {
    ids.map_values(|id: usize| vars[index_of(vars, id)].kind)
}

/// Whether the factor `f` names known variables of kinds it can connect.
pub open spec fn factor_valid(vars: Seq<VariableDecl>, f: FactorDecl) -> bool {
    ids_known(vars, f.variables@) && factor_fits(f.kind, kinds_named(vars, f.variables@))
}

/// The structure of a valid factor graph.
pub struct GraphLayout {
    /// The kind of each variable, by index.
    pub kinds: Vec<VariableKind>,
    /// The start of each variable's slice in the state vector, by index.
    pub offsets: Vec<usize>,
    /// The length of the state vector: the sum of all variable dimensions.
    pub size: usize,
    /// The kind of each factor, by index.
    pub factor_kinds: Vec<FactorKind>,
    /// The indices of the variables that each factor connects, in order.
    pub connections: Vec<Vec<usize>>,
}

impl GraphLayout {
    /// Offsets are the sums of the dimensions before each variable, the size
    /// is the sum of all, and every factor connects variables it can connect.
    pub open spec fn wf(&self) -> bool {
        &&& self.offsets@.len() == self.kinds@.len()
        &&& forall|i: int| 0 <= i < self.kinds@.len() ==>
            #[trigger] self.offsets@[i] as nat == dim_sum(self.kinds@.take(i))
        &&& self.size as nat == dim_sum(self.kinds@)
        &&& self.connections@.len() == self.factor_kinds@.len()
        &&& forall|f: int| 0 <= f < self.connections@.len() ==> self.factor_ok(f)
    }

    pub open spec fn factor_ok(&self, f: int) -> bool {
        let c = self.connections@[f]@;
        &&& forall|k: int| 0 <= k < c.len() ==> #[trigger] c[k] < self.kinds@.len()
        &&& factor_fits(self.factor_kinds@[f], self.connected_kinds(f))
    }

    /// The kinds of the variables that factor `f` connects.
    pub open spec fn connected_kinds(&self, f: int) -> Seq<VariableKind> {
        self.connections@[f]@.map_values(|i: usize| self.kinds@[i as int])
    }
}

/// A rectangular block of a matrix: its first row and column and its extent.
#[derive(PartialEq, Eq, Structural, Debug, Clone, Copy)]
pub struct Block {
    pub row: usize,
    pub col: usize,
    pub rows: usize,
    pub cols: usize,
}

/// Each variable's slice of the state vector ends within it, and the slices
/// of two variables are disjoint, in the order of the variables: the sum of
/// all variable dimensions is the size of the system.
pub proof fn lemma_slices_in_bounds(l: GraphLayout, i: int, j: int)
    requires
        l.wf(),
        0 <= i < j < l.kinds@.len(),
    ensures
        l.offsets@[i] + l.kinds@[i].dim() <= l.offsets@[j],
        l.offsets@[j] + l.kinds@[j].dim() <= l.size,
        l.size as nat == dim_sum(l.kinds@),
{
    let k = l.kinds@;
    assert(k.take(i + 1).drop_last() =~= k.take(i));
    assert(k.take(j + 1).drop_last() =~= k.take(j));
    lemma_dim_sum_prefix(k, i + 1, j);
    lemma_dim_sum_prefix(k, j + 1, k.len() as int);
    assert(k.take(k.len() as int) =~= k);
    assert(l.offsets@[i] as nat == dim_sum(k.take(i)));
    assert(l.offsets@[j] as nat == dim_sum(k.take(j)));
}

/// Where identifiers are unique, the index of an identifier is the one
/// variable that has it.
proof fn lemma_index_of_unique(vars: Seq<VariableDecl>, i: int)
    requires
        ids_unique(vars),
        0 <= i < vars.len(),
    ensures
        index_of(vars, vars[i].id) == i,
{
    let id = vars[i].id;
    let c = index_of(vars, id);
    assert(0 <= c < vars.len() && vars[c].id == id);
    if c < i {
        assert(repeats_id(vars, i));
    } else if c > i {
        assert(repeats_id(vars, c));
    }
}

fn fits(k: FactorKind, v: &Vec<VariableKind>) -> (r: bool)
    ensures
        r == factor_fits(k, v@),
{
    match k {
        FactorKind::UnaryPosition => v.len() == 1,
        FactorKind::Odometry => v.len() == 2 && v[0] == VariableKind::Pose2D && v[1] == VariableKind::Pose2D,
        FactorKind::Observation => v.len() == 2 && v[0] == VariableKind::Pose2D && v[1] == VariableKind::Landmark2D,
    }
}

/// The index of the first variable with identifier `id`.
fn find_index(vars: &Vec<VariableDecl>, id: usize) -> (r: Option<usize>)
    ensures
        r is None <==> !has_id(vars@, id),
        r matches Some(i) ==> i < vars.len() && vars@[i as int].id == id,
{
    let mut i: usize = 0;
    while i < vars.len()
        invariant
            i <= vars.len(),
            forall|q: int| 0 <= q < i ==> vars@[q].id != id,
        decreases vars.len() - i,
    {
        if vars[i].id == id {
            return Some(i);
        }
        i = i + 1;
    }
    None
}

/// The first variable index that repeats an earlier identifier.
fn first_repeat(vars: &Vec<VariableDecl>) -> (r: Option<usize>)
    ensures
        r is None <==> ids_unique(vars@),
        r matches Some(j) ==> j < vars.len() && repeats_id(vars@, j as int)
            && forall|q: int| 0 <= q < j ==> !repeats_id(vars@, q),
{
    let mut j: usize = 0;
    while j < vars.len()
        invariant
            j <= vars.len(),
            forall|q: int| 0 <= q < j ==> !repeats_id(vars@, q),
        decreases vars.len() - j,
    {
        let mut i: usize = 0;
        while i < j
            invariant
                i <= j < vars.len(),
                forall|q: int| 0 <= q < j ==> !repeats_id(vars@, q),
                forall|q: int| 0 <= q < i ==> vars@[q].id != vars@[j as int].id,
            decreases j - i,
        {
            if vars[i].id == vars[j].id {
                assert(repeats_id(vars@, j as int));
                return Some(j);
            }
            i = i + 1;
        }
        j = j + 1;
    }
    None
}

impl GraphLayout {
    /// Builds the structure of the graph that `vars` and `factors` declare.
    ///
    /// Fails on an empty graph; else on the first variable that repeats an
    /// identifier; else on the first factor that names an unknown identifier
    /// or connects variables of kinds it cannot connect.
    pub fn build(vars: &Vec<VariableDecl>, factors: &Vec<FactorDecl>) -> (r: Result<GraphLayout, GraphConstructionError>)
        requires
            vars.len() <= usize::MAX / 3,
        ensures
            r is Ok <==> {
                &&& vars.len() > 0 && factors.len() > 0
                &&& ids_unique(vars@)
                &&& forall|f: int| 0 <= f < factors.len() ==> factor_valid(vars@, #[trigger] factors@[f])
            },
            r matches Ok(l) ==> {
                &&& l.wf()
                &&& l.kinds@ == kinds_of(vars@)
                &&& l.factor_kinds@ == factors@.map_values(|f: FactorDecl| f.kind)
                &&& forall|f: int, k: int| 0 <= f < factors.len() && 0 <= k < factors@[f].variables.len() ==>
                    l.connections@[f]@.len() == factors@[f].variables.len()
                    && #[trigger] l.connections@[f]@[k] == index_of(vars@, factors@[f].variables@[k])
            },
            r matches Err(GraphConstructionError::EmptyGraph) <==> vars.len() == 0 || factors.len() == 0,
            r matches Err(GraphConstructionError::DuplicateId(j)) ==> {
                &&& vars.len() > 0 && factors.len() > 0
                &&& j < vars.len() && repeats_id(vars@, j as int)
                &&& forall|q: int| 0 <= q < j ==> !repeats_id(vars@, q)
            },
            r matches Err(GraphConstructionError::UnknownVariable(f)) ==> {
                &&& vars.len() > 0 && factors.len() > 0 && ids_unique(vars@)
                &&& f < factors.len() && !ids_known(vars@, factors@[f as int].variables@)
                &&& forall|q: int| 0 <= q < f ==> factor_valid(vars@, #[trigger] factors@[q])
            },
            r matches Err(GraphConstructionError::KindMismatch(f)) ==> {
                &&& vars.len() > 0 && factors.len() > 0 && ids_unique(vars@)
                &&& f < factors.len() && ids_known(vars@, factors@[f as int].variables@)
                &&& !factor_valid(vars@, factors@[f as int])
                &&& forall|q: int| 0 <= q < f ==> factor_valid(vars@, #[trigger] factors@[q])
            },
    {
        if vars.len() == 0 || factors.len() == 0 {
            return Err(GraphConstructionError::EmptyGraph);
        }
        if let Some(j) = first_repeat(vars) {
            return Err(GraphConstructionError::DuplicateId(j));
        }
        let mut kinds: Vec<VariableKind> = Vec::new();
        let mut offsets: Vec<usize> = Vec::new();
        let mut size: usize = 0;
        let mut i: usize = 0;
        while i < vars.len()
            invariant
                i <= vars.len() <= usize::MAX / 3,
                kinds@ == kinds_of(vars@).take(i as int),
                offsets@.len() == i,
                forall|q: int| 0 <= q < i ==> #[trigger] offsets@[q] as nat == dim_sum(kinds@.take(q)),
                size as nat == dim_sum(kinds@),
            decreases vars.len() - i,
        {
            proof {
                lemma_dim_sum_bound(kinds@);
            }
            let ghost old_kinds = kinds@;
            offsets.push(size);
            let k = vars[i].kind;
            kinds.push(k);
            size = size + k.dimension();
            proof {
                assert(kinds@.drop_last() =~= old_kinds);
                assert(kinds_of(vars@).take(i as int + 1) =~= kinds_of(vars@).take(i as int).push(vars@[i as int].kind));
                assert forall|q: int| 0 <= q < i + 1 implies #[trigger] offsets@[q] as nat == dim_sum(kinds@.take(q)) by {
                    assert(kinds@.take(q) =~= old_kinds.take(q) || q == i);
                    if q == i {
                        assert(kinds@.take(q) =~= old_kinds);
                    }
                }
            }
            i = i + 1;
        }
        assert(kinds_of(vars@).take(i as int) =~= kinds_of(vars@));
        let mut factor_kinds: Vec<FactorKind> = Vec::new();
        let mut connections: Vec<Vec<usize>> = Vec::new();
        let mut f: usize = 0;
        while f < factors.len()
            invariant
                f <= factors.len(),
                vars.len() > 0 && factors.len() > 0,
                ids_unique(vars@),
                kinds@ == kinds_of(vars@),
                factor_kinds@ == factors@.take(f as int).map_values(|d: FactorDecl| d.kind),
                connections@.len() == f,
                forall|q: int| 0 <= q < f ==> factor_valid(vars@, #[trigger] factors@[q]),
                forall|q: int| 0 <= q < f ==> (#[trigger] connections@[q])@.len() == factors@[q].variables.len(),
                forall|q: int, k: int| 0 <= q < f && 0 <= k < factors@[q].variables.len() ==>
                    #[trigger] connections@[q]@[k] == index_of(vars@, factors@[q].variables@[k]),
            decreases factors.len() - f,
        {
            let ids = &factors[f].variables;
            let mut idx: Vec<usize> = Vec::new();
            let mut named: Vec<VariableKind> = Vec::new();
            let mut k: usize = 0;
            while k < ids.len()
                invariant
                    k <= ids.len(),
                    f < factors.len(),
                    ids == factors@[f as int].variables,
                    vars.len() > 0 && factors.len() > 0,
                    ids_unique(vars@),
                    forall|q: int| 0 <= q < f ==> factor_valid(vars@, #[trigger] factors@[q]),
                    kinds@ == kinds_of(vars@),
                    idx@.len() == k,
                    named@ == kinds_named(vars@, ids@).take(k as int),
                    forall|q: int| 0 <= q < k ==> has_id(vars@, #[trigger] ids@[q]),
                    forall|q: int| 0 <= q < k ==> #[trigger] idx@[q] == index_of(vars@, ids@[q]),
                    forall|q: int| 0 <= q < k ==> #[trigger] idx@[q] < vars.len(),
                decreases ids.len() - k,
            {
                match find_index(vars, ids[k]) {
                    None => {
                        assert(!has_id(vars@, ids@[k as int]));
                        assert(!factor_valid(vars@, factors@[f as int]));
                        return Err(GraphConstructionError::UnknownVariable(f));
                    },
                    Some(v) => {
                        proof {
                            lemma_index_of_unique(vars@, v as int);
                        }
                        idx.push(v);
                        named.push(kinds[v]);
                        assert(kinds_named(vars@, ids@).take(k as int + 1)
                            =~= kinds_named(vars@, ids@).take(k as int).push(vars@[v as int].kind));
                    },
                }
                k = k + 1;
            }
            assert(kinds_named(vars@, ids@).take(k as int) =~= kinds_named(vars@, ids@));
            if !fits(factors[f].kind, &named) {
                assert(!factor_valid(vars@, factors@[f as int]));
                return Err(GraphConstructionError::KindMismatch(f));
            }
            let ghost old_conn = connections@;
            factor_kinds.push(factors[f].kind);
            connections.push(idx);
            assert(factors@.take(f as int + 1) =~= factors@.take(f as int).push(factors@[f as int]));
            assert(factor_kinds@ =~= factors@.take(f as int + 1).map_values(|d: FactorDecl| d.kind));
            assert forall|q: int, k2: int| 0 <= q < f + 1 && 0 <= k2 < factors@[q].variables.len() implies
                #[trigger] connections@[q]@[k2] == index_of(vars@, factors@[q].variables@[k2]) by {
                if q < f {
                    assert(connections@[q] == old_conn[q]);
                }
            }
            f = f + 1;
        }
        assert(factors@.take(f as int) =~= factors@);
        let l = GraphLayout { kinds, offsets, size, factor_kinds, connections };
        assert forall|q: int| 0 <= q < l.connections@.len() implies l.factor_ok(q) by {
            let c = l.connections@[q]@;
            let ids = factors@[q].variables@;
            assert(factor_valid(vars@, factors@[q]));
            assert forall|k: int| 0 <= k < c.len() implies #[trigger] c[k] < l.kinds@.len() by {
                assert(has_id(vars@, ids[k]));
                assert(c[k] == index_of(vars@, ids[k]));
            }
            assert forall|k: int| 0 <= k < c.len() implies
                #[trigger] l.connected_kinds(q)[k] == kinds_named(vars@, ids)[k] by {
                assert(has_id(vars@, ids[k]));
                assert(c[k] == index_of(vars@, ids[k]));
            }
            assert(l.connected_kinds(q) =~= kinds_named(vars@, ids));
            assert(l.factor_kinds@[q] == factors@[q].kind);
        }
        Ok(l)
    }
}

/// The indices, ascending, of the connection lists in `conns` that hold `v`.
pub open spec fn incident(conns: Seq<Seq<usize>>, v: usize) -> Seq<usize>
    decreases conns.len(),
{
    if conns.len() == 0 {
        Seq::empty()
    } else {
        let p = incident(conns.drop_last(), v);
        if conns.last().contains(v) { p.push((conns.len() - 1) as usize) } else { p }
    }
}

proof fn lemma_slice_end(l: GraphLayout, i: int)
    requires
        l.wf(),
        0 <= i < l.kinds@.len(),
    ensures
        l.offsets@[i] + l.kinds@[i].dim() <= l.size,
{
    let k = l.kinds@;
    assert(k.take(i + 1).drop_last() =~= k.take(i));
    assert(l.offsets@[i] as nat == dim_sum(k.take(i)));
    lemma_dim_sum_prefix(k, i + 1, k.len() as int);
    assert(k.take(k.len() as int) =~= k);
}

impl GraphLayout {
    /// The residual length of factor `f`.
    pub fn residual_dimension(&self, f: usize) -> (r: usize)
        requires
            self.wf(),
            f < self.factor_kinds.len(),
        ensures
            r as nat == residual_dim(self.factor_kinds@[f as int], self.connected_kinds(f as int)),
    {
        proof {
            assert(self.factor_ok(f as int));
        }
        match self.factor_kinds[f] {
            FactorKind::UnaryPosition => {
                let c = &self.connections[f];
                assert(c@[0] < self.kinds@.len());
                self.kinds[c[0]].dimension()
            },
            FactorKind::Odometry => 3,
            FactorKind::Observation => 2,
        }
    }

    /// The shape of each Jacobian block of factor `f`, one per connected
    /// variable in order: rows for the residual, columns for the variable.
    pub fn jacobian_shapes(&self, f: usize) -> (r: Vec<(usize, usize)>)
        requires
            self.wf(),
            f < self.factor_kinds.len(),
        ensures
            r@.len() == self.connections@[f as int]@.len(),
            forall|k: int| 0 <= k < r@.len() ==> {
                &&& (#[trigger] r@[k]).0 as nat == residual_dim(self.factor_kinds@[f as int], self.connected_kinds(f as int))
                &&& r@[k].1 as nat == self.kinds@[self.connections@[f as int]@[k] as int].dim()
            },
    {
        proof {
            assert(self.factor_ok(f as int));
        }
        let rows = self.residual_dimension(f);
        let c = &self.connections[f];
        let mut r: Vec<(usize, usize)> = Vec::new();
        let mut k: usize = 0;
        while k < c.len()
            invariant
                self.wf(),
                f < self.factor_kinds.len(),
                c == self.connections@[f as int],
                rows as nat == residual_dim(self.factor_kinds@[f as int], self.connected_kinds(f as int)),
                k <= c.len(),
                r@.len() == k,
                forall|q: int| 0 <= q < k ==> {
                    &&& (#[trigger] r@[q]).0 == rows
                    &&& r@[q].1 as nat == self.kinds@[c@[q] as int].dim()
                },
            decreases c.len() - k,
        {
            proof {
                assert(self.factor_ok(f as int));
                assert(c@[k as int] < self.kinds@.len());
            }
            r.push((rows, self.kinds[c[k]].dimension()));
            k = k + 1;
        }
        r
    }

    pub open spec fn connection_views(&self) -> Seq<Seq<usize>> {
        self.connections@.map_values(|c: Vec<usize>| c@)
    }

    /// For each variable, by index, the indices in ascending order of the
    /// factors that connect it.
    pub fn adjacency(&self) -> (r: Vec<Vec<usize>>)
        ensures
            r@.len() == self.kinds@.len(),
            forall|v: int| 0 <= v < r@.len() ==> (#[trigger] r@[v])@ == incident(self.connection_views(), v as usize),
    {
        let ghost cv = self.connection_views();
        let mut r: Vec<Vec<usize>> = Vec::new();
        let mut v: usize = 0;
        while v < self.kinds.len()
            invariant
                cv == self.connection_views(),
                v <= self.kinds@.len(),
                r@.len() == v,
                forall|q: int| 0 <= q < v ==> (#[trigger] r@[q])@ == incident(cv, q as usize),
            decreases self.kinds@.len() - v,
        {
            let mut list: Vec<usize> = Vec::new();
            let mut f: usize = 0;
            assert(cv.take(0) =~= Seq::<Seq<usize>>::empty());
            while f < self.connections.len()
                invariant
                    cv == self.connection_views(),
                    f <= self.connections@.len(),
                    list@ == incident(cv.take(f as int), v),
                decreases self.connections@.len() - f,
            {
                let c = &self.connections[f];
                let mut k: usize = 0;
                let mut found = false;
                while k < c.len()
                    invariant
                        k <= c@.len(),
                        found == (exists|q: int| 0 <= q < k && c@[q] == v),
                    decreases c@.len() - k,
                {
                    if c[k] == v {
                        found = true;
                    }
                    k = k + 1;
                }
                proof {
                    let t = cv.take(f as int + 1);
                    assert(t.drop_last() =~= cv.take(f as int));
                    assert(t.last() == c@);
                    assert(found == c@.contains(v));
                }
                if found {
                    list.push(f);
                }
                f = f + 1;
            }
            assert(cv.take(f as int) =~= cv);
            r.push(list);
            v = v + 1;
        }
        r
    }

    /// Whether `blk` spans the slice of the variable of index `c[a]` in rows
    /// and that of `c[b]` in columns, within the system.
    pub open spec fn places(&self, c: Seq<usize>, a: int, b: int, blk: Block) -> bool {
        &&& blk.row == self.offsets@[c[a] as int]
        &&& blk.col == self.offsets@[c[b] as int]
        &&& blk.rows as nat == self.kinds@[c[a] as int].dim()
        &&& blk.cols as nat == self.kinds@[c[b] as int].dim()
        &&& blk.row + blk.rows <= self.size
        &&& blk.col + blk.cols <= self.size
    }

    /// The blocks of the system matrix that factor `f` adds to: one for each
    /// ordered pair of its connected variables `(a, b)`, in row-major order of
    /// the pair, spanning `a`'s slice in rows and `b`'s in columns. Each lies
    /// within the system.
    pub fn hessian_blocks(&self, f: usize) -> (r: Vec<Block>)
        requires
            self.wf(),
            f < self.factor_kinds.len(),
        ensures
            r@.len() == self.connections@[f as int]@.len() * self.connections@[f as int]@.len(),
            forall|a: int, b: int|
                0 <= a < self.connections@[f as int]@.len() && 0 <= b < self.connections@[f as int]@.len()
                ==> self.places(self.connections@[f as int]@, a, b,
                    #[trigger] r@[a * self.connections@[f as int]@.len() + b]),
    {
        let c = &self.connections[f];
        let n = c.len();
        proof {
            assert(self.factor_ok(f as int));
            assert(n <= 2) by {
                assert(factor_fits(self.factor_kinds@[f as int], self.connected_kinds(f as int)));
            }
        }
        let mut r: Vec<Block> = Vec::new();
        let mut a: usize = 0;
        while a < n
            invariant
                self.wf(),
                f < self.factor_kinds.len(),
                c == self.connections@[f as int],
                n == c@.len() <= 2,
                a <= n,
                r@.len() == a * n,
                forall|p: int, q: int| 0 <= p < a && 0 <= q < n ==> self.places(c@, p, q, #[trigger] r@[p * n + q]),
            decreases n - a,
        {
            let mut b: usize = 0;
            assert(a * n + 0 == a * n);
            while b < n
                invariant
                    self.wf(),
                    f < self.factor_kinds.len(),
                    c == self.connections@[f as int],
                    n == c@.len() <= 2,
                    a < n,
                    b <= n,
                    r@.len() == a * n + b,
                    forall|p: int, q: int| 0 <= p < a && 0 <= q < n ==> self.places(c@, p, q, #[trigger] r@[p * n + q]),
                    forall|q: int| 0 <= q < b ==> self.places(c@, a as int, q, #[trigger] r@[a * n + q]),
                decreases n - b,
            {
                let ia = c[a];
                let ib = c[b];
                proof {
                    assert(self.factor_ok(f as int));
                    assert(c@[a as int] < self.kinds@.len());
                    assert(c@[b as int] < self.kinds@.len());
                    lemma_slice_end(*self, ia as int);
                    lemma_slice_end(*self, ib as int);
                }
                let blk = Block {
                    row: self.offsets[ia],
                    col: self.offsets[ib],
                    rows: self.kinds[ia].dimension(),
                    cols: self.kinds[ib].dimension(),
                };
                let ghost before = r@;
                r.push(blk);
                proof {
                    assert forall|p: int, q: int| 0 <= p < a && 0 <= q < n implies
                        self.places(c@, p, q, #[trigger] r@[p * n + q]) by {
                        assert(p * n + q < a * n) by (nonlinear_arith)
                            requires 0 <= p < a, 0 <= q < n;
                        assert(0 <= p * n + q) by (nonlinear_arith)
                            requires 0 <= p, 0 <= q, 0 <= n;
                        assert(r@[p * n + q] == before[p * n + q]);
                    }
                    assert forall|q: int| 0 <= q < b + 1 implies self.places(c@, a as int, q, #[trigger] r@[a * n + q]) by {
                        if q < b {
                            assert(r@[a * n + q] == before[a * n + q]);
                        }
                    }
                }
                b = b + 1;
            }
            proof {
                assert forall|p: int, q: int| 0 <= p < a + 1 && 0 <= q < n implies
                    self.places(c@, p, q, #[trigger] r@[p * n + q]) by {
                    if p == a {
                    }
                }
                assert(a * n + n == (a + 1) * n) by (nonlinear_arith);
            }
            a = a + 1;
        }
        r
    }
}

/// The kind of variable that a model's vertex type names, where it names one.
pub open spec fn variable_kind_of(t: Seq<char>) -> Option<VariableKind> {
    if t == pose_type() { Some(VariableKind::Pose2D) } else { None }
}

/// The kind of factor that a model's edge type names, where it names one.
pub open spec fn factor_kind_of(t: Seq<char>) -> Option<FactorKind> {
    if t == odometry_type() { Some(FactorKind::Odometry) } else { None }
}

/// Why a model's vertices or edges do not declare variables or factors.
#[derive(PartialEq, Eq, Structural, Debug, Clone, Copy)]
pub enum KindError {
    /// The vertex of this index has a type that names no variable kind.
    UnknownVertexType(usize),
    /// The edge of this index has a type that names no factor kind.
    UnknownEdgeType(usize),
}

fn text_is(a: &String, b: &str) -> (r: bool)
    ensures
        r == (a@ == b@),
{
    let other = String::from_str(b);
    *a == other
}

/// The declarations of the variables and factors that the model `m` stands
/// for: one variable per vertex and one factor per edge, in order, with the
/// kinds that their types name. Fails on the first vertex, or else the first
/// edge, whose type names no kind.
pub fn declarations_of(m: &FactorGraphModel) -> (r: Result<(Vec<VariableDecl>, Vec<FactorDecl>), KindError>)
    ensures
        r is Ok <==> (forall|i: int| 0 <= i < m@.vertices.len() ==> variable_kind_of((#[trigger] m@.vertices[i]).vertex_type) is Some)
            && (forall|i: int| 0 <= i < m@.edges.len() ==> factor_kind_of((#[trigger] m@.edges[i]).edge_type) is Some),
        r matches Ok((vars, factors)) ==> {
            &&& vars@.len() == m@.vertices.len()
            &&& forall|i: int| 0 <= i < vars@.len() ==> (#[trigger] vars@[i]) == (VariableDecl {
                id: m@.vertices[i].id,
                kind: variable_kind_of(m@.vertices[i].vertex_type)->Some_0,
            })
            &&& factors@.len() == m@.edges.len()
            &&& forall|i: int| 0 <= i < factors@.len() ==> {
                &&& (#[trigger] factors@[i]).kind == factor_kind_of(m@.edges[i].edge_type)->Some_0
                &&& factors@[i].variables@ == m@.edges[i].vertices
            }
        },
        r matches Err(KindError::UnknownVertexType(i)) ==> i < m@.vertices.len()
            && variable_kind_of(m@.vertices[i as int].vertex_type) is None
            && forall|q: int| 0 <= q < i ==> variable_kind_of((#[trigger] m@.vertices[q]).vertex_type) is Some,
        r matches Err(KindError::UnknownEdgeType(i)) ==> i < m@.edges.len()
            && (forall|q: int| 0 <= q < m@.vertices.len() ==> variable_kind_of((#[trigger] m@.vertices[q]).vertex_type) is Some)
            && factor_kind_of(m@.edges[i as int].edge_type) is None
            && forall|q: int| 0 <= q < i ==> factor_kind_of((#[trigger] m@.edges[q]).edge_type) is Some,
{
    let mut vars: Vec<VariableDecl> = Vec::new();
    let mut i: usize = 0;
    while i < m.vertices.len()
        invariant
            i <= m.vertices.len(),
            vars@.len() == i,
            forall|q: int| 0 <= q < i ==> variable_kind_of((#[trigger] m@.vertices[q]).vertex_type) is Some,
            forall|q: int| 0 <= q < i ==> (#[trigger] vars@[q]) == (VariableDecl {
                id: m@.vertices[q].id,
                kind: variable_kind_of(m@.vertices[q].vertex_type)->Some_0,
            }),
        decreases m.vertices.len() - i,
    {
        let v = &m.vertices[i];
        assert(m@.vertices[i as int] == v@);
        if !text_is(&v.vertex_type, "POSE2D_ANGLE") {
            return Err(KindError::UnknownVertexType(i));
        }
        vars.push(VariableDecl { id: v.id, kind: VariableKind::Pose2D });
        i = i + 1;
    }
    let mut factors: Vec<FactorDecl> = Vec::new();
    let mut k: usize = 0;
    while k < m.edges.len()
        invariant
            k <= m.edges.len(),
            forall|q: int| 0 <= q < m@.vertices.len() ==> variable_kind_of((#[trigger] m@.vertices[q]).vertex_type) is Some,
            factors@.len() == k,
            forall|q: int| 0 <= q < k ==> factor_kind_of((#[trigger] m@.edges[q]).edge_type) is Some,
            forall|q: int| 0 <= q < k ==> {
                &&& (#[trigger] factors@[q]).kind == factor_kind_of(m@.edges[q].edge_type)->Some_0
                &&& factors@[q].variables@ == m@.edges[q].vertices
            },
        decreases m.edges.len() - k,
    {
        let e = &m.edges[k];
        assert(m@.edges[k as int] == e@);
        if !text_is(&e.edge_type, "ODOMETRY2D_ANGLE") {
            return Err(KindError::UnknownEdgeType(k));
        }
        factors.push(FactorDecl { kind: FactorKind::Odometry, variables: e.vertices.clone() });
        k = k + 1;
    }
    Ok((vars, factors))
}

} // verus!
