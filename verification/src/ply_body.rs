//! The body of a binary little-endian PLY file: vertex positions, normals
//! and texture coordinates, and faces fan-triangulated into index triples.

use vstd::prelude::*;
use vstd::arithmetic::mul::*;
use crate::scalar::{
    Scalar, PropType, type_size, scalar_at, read_scalar, size_of_type, count_of, index_of,
};
use crate::ply_header::{
    ElementProp, PropDef, ElementDef, PropSpec, ElementSpec, props_view, elements_view,
};
use crate::text::chars_eq;

verus! {

/// What a vertex property holds.
#[derive(Clone, Copy, Debug, PartialEq, Eq, Structural)]
pub enum Role {
    X,
    Y,
    Z,
    Nx,
    Ny,
    Nz,
    U,
    V,
    Other,
}

/// The role of a vertex property, by its name.
pub open spec fn role_of(name: Seq<char>) -> Role {
    if name == "x"@ {
        Role::X
    } else if name == "y"@ {
        Role::Y
    } else if name == "z"@ {
        Role::Z
    } else if name == "nx"@ {
        Role::Nx
    } else if name == "ny"@ {
        Role::Ny
    } else if name == "nz"@ {
        Role::Nz
    } else if name == "u"@ || name == "s"@ || name == "texture_u"@ {
        Role::U
    } else if name == "v"@ || name == "t"@ || name == "texture_v"@ {
        Role::V
    } else {
        Role::Other
    }
}

/// Whether a property name is the face index list.
pub open spec fn is_index_name(name: Seq<char>) -> bool {
    name == "vertex_indices"@ || name == "vertex_index"@
}

/// The first element called `name`.
pub open spec fn first_named(els: Seq<ElementSpec>, name: Seq<char>) -> Option<ElementSpec>
    decreases els.len(),
{
    if els.len() == 0 {
        None
    } else if els[0].name == name {
        Some(els[0])
    } else {
        first_named(els.drop_first(), name)
    }
}

/// Types and roles of the scalar properties among `props` (list properties
/// are left out).
pub open spec fn scalar_roles(props: Seq<PropSpec>) -> Seq<(PropType, Role)>
    decreases props.len(),
{
    if props.len() == 0 {
        seq![]
    } else {
        let rest = scalar_roles(props.drop_last());
        match props.last().kind {
            ElementProp::Scalar(t) => rest.push((t, role_of(props.last().name))),
            ElementProp::List { .. } => rest,
        }
    }
}

/// Count and value types of the first list property named as the face
/// index list.
pub open spec fn index_list(props: Seq<PropSpec>) -> Option<(PropType, PropType)>
    decreases props.len(),
{
    if props.len() == 0 {
        None
    } else {
        match props[0].kind {
            ElementProp::List { count_type, val_type } => if is_index_name(props[0].name) {
                Some((count_type, val_type))
            } else {
                index_list(props.drop_first())
            },
            ElementProp::Scalar(_) => index_list(props.drop_first()),
        }
    }
}

/// The layouts of the properties not named as the face index list.
pub open spec fn extra_props(props: Seq<PropSpec>) -> Seq<ElementProp>
    decreases props.len(),
{
    if props.len() == 0 {
        seq![]
    } else {
        let rest = extra_props(props.drop_last());
        if is_index_name(props.last().name) {
            rest
        } else {
            rest.push(props.last().kind)
        }
    }
}

/// The layouts of all of `props`.
pub open spec fn kinds_of(props: Seq<PropSpec>) -> Seq<ElementProp> {
    props.map_values(|p: PropSpec| p.kind)
}

/// How the body is read: from the first `vertex` element, the types and
/// roles of its scalar properties; from the first `face` element, the index
/// list types (`uchar` count and `int` values when none is declared) and
/// the layouts of its other properties.
pub struct Plan {
    pub vprops: Seq<(PropType, Role)>,
    pub index_types: (PropType, PropType),
    pub extras: Seq<ElementProp>,
}

pub open spec fn plan_of(els: Seq<ElementSpec>) -> Plan {
    let vertex = first_named(els, "vertex"@);
    let face = first_named(els, "face"@);
    Plan {
        vprops: match vertex {
            Some(e) => scalar_roles(e.props),
            None => seq![],
        },
        index_types: match face {
            Some(e) => match index_list(e.props) {
                Some(t) => t,
                None => (PropType::Uchar, PropType::Int),
            },
            None => (PropType::Uchar, PropType::Int),
        },
        extras: match face {
            Some(e) => extra_props(e.props),
            None => seq![],
        },
    }
}

/// The mesh that a body describes; coordinates are the stored values.
pub struct MeshSpec {
    pub vertices: Seq<Scalar>,
    pub normals: Seq<Scalar>,
    pub texcoords: Seq<Scalar>,
    pub indices: Seq<i32>,
}

/// Reading position and the mesh read so far.
pub struct Cursor {
    pub pos: int,
    pub mesh: MeshSpec,
}

pub open spec fn empty_mesh() -> MeshSpec {
    MeshSpec { vertices: seq![], normals: seq![], texcoords: seq![], indices: seq![] }
}

/// `m` with a vertex property value added according to its role.
pub open spec fn with_value(m: MeshSpec, role: Role, v: Scalar) -> MeshSpec {
    match role {
        Role::X | Role::Y | Role::Z => MeshSpec { vertices: m.vertices.push(v), ..m },
        Role::Nx | Role::Ny | Role::Nz => MeshSpec { normals: m.normals.push(v), ..m },
        Role::U | Role::V => MeshSpec { texcoords: m.texcoords.push(v), ..m },
        Role::Other => m,
    }
}

/// Reads the first `k` vertex properties.
pub open spec fn vertex_props_read(
    b: Seq<u8>,
    c: Cursor,
    vprops: Seq<(PropType, Role)>,
    k: nat,
) -> Option<Cursor>
    decreases k,
{
    if k == 0 {
        Some(c)
    } else {
        match vertex_props_read(b, c, vprops, (k - 1) as nat) {
            Some(d) => {
                let (t, role) = vprops[k - 1];
                if d.pos + type_size(t) <= b.len() {
                    Some(
                        Cursor {
                            pos: d.pos + type_size(t),
                            mesh: with_value(d.mesh, role, scalar_at(b, d.pos, t)),
                        },
                    )
                } else {
                    None
                }
            },
            None => None,
        }
    }
}

/// `n` consecutive values of type `t` from `pos`, and the position after them.
pub open spec fn values_read(b: Seq<u8>, pos: int, t: PropType, n: nat) -> Option<
    (Seq<Scalar>, int),
> {
    if pos + n * type_size(t) <= b.len() {
        Some(
            (
                Seq::new(n, |i: int| scalar_at(b, pos + i * type_size(t), t)),
                pos + n * type_size(t),
            ),
        )
    } else {
        None
    }
}

/// Reads past one property.
pub open spec fn prop_skipped(b: Seq<u8>, pos: int, p: ElementProp) -> Option<int> {
    match p {
        ElementProp::Scalar(t) => if pos + type_size(t) <= b.len() {
            Some(pos + type_size(t))
        } else {
            None
        },
        ElementProp::List { count_type, val_type } => if pos + type_size(count_type) <= b.len() {
            let n = count_of(scalar_at(b, pos, count_type));
            let p = pos + type_size(count_type);
            if p + n * type_size(val_type) <= b.len() {
                Some(p + n * type_size(val_type))
            } else {
                None
            }
        } else {
            None
        },
    }
}

/// Reads past the first `k` of `props`.
pub open spec fn props_skipped(b: Seq<u8>, pos: int, props: Seq<ElementProp>, k: nat) -> Option<
    int,
>
    decreases k,
{
    if k == 0 {
        Some(pos)
    } else {
        match props_skipped(b, pos, props, (k - 1) as nat) {
            Some(p) => prop_skipped(b, p, props[k - 1]),
            None => None,
        }
    }
}

/// Fan triangulation of a polygon: `(f0, fi, fi+1)` for `i` in `1..n-1`.
pub open spec fn fan(f: Seq<i32>) -> Seq<i32> {
    if f.len() < 3 {
        seq![]
    } else {
        Seq::new(
            (3 * (f.len() - 2)) as nat,
            |k: int|
                if k % 3 == 0 {
                    f[0]
                } else if k % 3 == 1 {
                    f[k / 3 + 1]
                } else {
                    f[k / 3 + 2]
                },
        )
    }
}

/// The vertex indices that index values stand for.
pub open spec fn indices_of(vals: Seq<Scalar>) -> Seq<i32> {
    Seq::new(vals.len(), |i: int| index_of(vals[i]))
}

/// Reads one face: the index list, then the other face properties.
pub open spec fn face_read(b: Seq<u8>, c: Cursor, plan: Plan) -> Option<Cursor> {
    let (ct, vt) = plan.index_types;
    if c.pos + type_size(ct) > b.len() {
        None
    } else {
        let n = count_of(scalar_at(b, c.pos, ct));
        match values_read(b, c.pos + type_size(ct), vt, n as nat) {
            None => None,
            Some((vals, p)) => match props_skipped(b, p, plan.extras, plan.extras.len()) {
                None => None,
                Some(q) => Some(
                    Cursor {
                        pos: q,
                        mesh: MeshSpec {
                            indices: c.mesh.indices + fan(indices_of(vals)),
                            ..c.mesh
                        },
                    },
                ),
            },
        }
    }
}

/// How the records of an element are read.
pub enum RecordKind {
    Vertex,
    Face,
    Other(Seq<ElementProp>),
}

pub open spec fn kind_of(e: ElementSpec) -> RecordKind {
    if e.name == "vertex"@ {
        RecordKind::Vertex
    } else if e.name == "face"@ {
        RecordKind::Face
    } else {
        RecordKind::Other(kinds_of(e.props))
    }
}

/// Reads one record.
pub open spec fn record_read(b: Seq<u8>, c: Cursor, plan: Plan, kind: RecordKind) -> Option<
    Cursor,
> {
    match kind {
        RecordKind::Vertex => vertex_props_read(b, c, plan.vprops, plan.vprops.len()),
        RecordKind::Face => face_read(b, c, plan),
        RecordKind::Other(props) => match props_skipped(b, c.pos, props, props.len()) {
            Some(p) => Some(Cursor { pos: p, mesh: c.mesh }),
            None => None,
        },
    }
}

/// Reads `n` records.
pub open spec fn records_read(b: Seq<u8>, c: Cursor, plan: Plan, kind: RecordKind, n: nat) -> Option<
    Cursor,
>
    decreases n,
{
    if n == 0 {
        Some(c)
    } else {
        match records_read(b, c, plan, kind, (n - 1) as nat) {
            Some(d) => record_read(b, d, plan, kind),
            None => None,
        }
    }
}

/// Reads the records of the first `k` elements, in declaration order.
pub open spec fn elements_read(
    b: Seq<u8>,
    c: Cursor,
    plan: Plan,
    els: Seq<ElementSpec>,
    k: nat,
) -> Option<Cursor>
    decreases k,
{
    if k == 0 {
        Some(c)
    } else {
        match elements_read(b, c, plan, els, (k - 1) as nat) {
            Some(d) => records_read(b, d, plan, kind_of(els[k - 1]), els[k - 1].count as nat),
            None => None,
        }
    }
}

/// Reads the body that starts at `start`; `None` when the bytes run out.
pub open spec fn body_of(b: Seq<u8>, start: int, els: Seq<ElementSpec>) -> Option<MeshSpec> {
    match elements_read(b, Cursor { pos: start, mesh: empty_mesh() }, plan_of(els), els, els.len()) {
        Some(c) => Some(c.mesh),
        None => None,
    }
}

/// Once reading fails, reading more properties fails too.
proof fn lemma_vertex_props_fail(b: Seq<u8>, c: Cursor, vprops: Seq<(PropType, Role)>, k: nat, m: nat)
    requires
        k <= m,
        vertex_props_read(b, c, vprops, k) is None,
    ensures
        vertex_props_read(b, c, vprops, m) is None,
    decreases m,
{
    if k < m {
        lemma_vertex_props_fail(b, c, vprops, k, (m - 1) as nat);
    }
}

proof fn lemma_props_skipped_fail(b: Seq<u8>, pos: int, props: Seq<ElementProp>, k: nat, m: nat)
    requires
        k <= m,
        props_skipped(b, pos, props, k) is None,
    ensures
        props_skipped(b, pos, props, m) is None,
    decreases m,
{
    if k < m {
        lemma_props_skipped_fail(b, pos, props, k, (m - 1) as nat);
    }
}

proof fn lemma_records_fail(b: Seq<u8>, c: Cursor, plan: Plan, kind: RecordKind, k: nat, m: nat)
    requires
        k <= m,
        records_read(b, c, plan, kind, k) is None,
    ensures
        records_read(b, c, plan, kind, m) is None,
    decreases m,
{
    if k < m {
        lemma_records_fail(b, c, plan, kind, k, (m - 1) as nat);
    }
}

proof fn lemma_elements_fail(b: Seq<u8>, c: Cursor, plan: Plan, els: Seq<ElementSpec>, k: nat, m: nat)
    requires
        k <= m,
        elements_read(b, c, plan, els, k) is None,
    ensures
        elements_read(b, c, plan, els, m) is None,
    decreases m,
{
    if k < m {
        lemma_elements_fail(b, c, plan, els, k, (m - 1) as nat);
    }
}

/// The mesh read from a PLY body; coordinates are the stored values.
#[derive(Debug)]
pub struct PlyMesh {
    pub vertices: Vec<Scalar>,
    pub normals: Vec<Scalar>,
    pub texcoords: Vec<Scalar>,
    pub indices: Vec<i32>,
}

impl View for PlyMesh {
    type V = MeshSpec;

    open spec fn view(&self) -> MeshSpec {
        MeshSpec {
            vertices: self.vertices@,
            normals: self.normals@,
            texcoords: self.texcoords@,
            indices: self.indices@,
        }
    }
}

/// The exec form of a body `Plan`.
pub struct ExecPlan {
    pub vprops: Vec<(PropType, Role)>,
    pub index_types: (PropType, PropType),
    pub extras: Vec<ElementProp>,
}

impl View for ExecPlan {
    type V = Plan;

    open spec fn view(&self) -> Plan {
        Plan { vprops: self.vprops@, index_types: self.index_types, extras: self.extras@ }
    }
}

/// The role of a vertex property, by its name.
pub fn role_for(name: &[char]) -> (r: Role)
    ensures
        r == role_of(name@),
{
    if chars_eq(name, "x") {
        Role::X
    } else if chars_eq(name, "y") {
        Role::Y
    } else if chars_eq(name, "z") {
        Role::Z
    } else if chars_eq(name, "nx") {
        Role::Nx
    } else if chars_eq(name, "ny") {
        Role::Ny
    } else if chars_eq(name, "nz") {
        Role::Nz
    } else if chars_eq(name, "u") || chars_eq(name, "s") || chars_eq(name, "texture_u") {
        Role::U
    } else if chars_eq(name, "v") || chars_eq(name, "t") || chars_eq(name, "texture_v") {
        Role::V
    } else {
        Role::Other
    }
}

fn is_index_prop_name(name: &[char]) -> (b: bool)
    ensures
        b == is_index_name(name@),
{
    chars_eq(name, "vertex_indices") || chars_eq(name, "vertex_index")
}

/// Index of the first element called `lit`.
pub fn find_element(els: &Vec<ElementDef>, lit: &str) -> (r: Option<usize>)
    ensures
        match first_named(elements_view(els@), lit@) {
            Some(e) => r matches Some(i) && i < els@.len() && els@[i as int]@ == e,
            None => r is None,
        },
{
    let ghost v = elements_view(els@);
    let mut i: usize = 0;
    assert(v.subrange(0, v.len() as int) =~= v);
    while i < els.len()
        invariant
            v == elements_view(els@),
            i <= els@.len(),
            first_named(v, lit@) == first_named(v.subrange(i as int, v.len() as int), lit@),
        decreases els@.len() - i,
    {
        assert(v[i as int] == els@[i as int]@);
        if chars_eq(els[i].name.as_slice(), lit) {
            return Some(i);
        }
        assert(v.subrange(i as int, v.len() as int).drop_first() =~= v.subrange(
            i + 1,
            v.len() as int,
        ));
        i = i + 1;
    }
    None
}

fn vertex_roles(props: &Vec<PropDef>) -> (r: Vec<(PropType, Role)>)
    ensures
        r@ == scalar_roles(props_view(props@)),
{
    let ghost v = props_view(props@);
    let mut r: Vec<(PropType, Role)> = Vec::new();
    let mut i: usize = 0;
    assert(v.subrange(0, 0) =~= seq![]);
    while i < props.len()
        invariant
            v == props_view(props@),
            i <= props@.len(),
            r@ == scalar_roles(v.subrange(0, i as int)),
        decreases props@.len() - i,
    {
        assert(v.subrange(0, i + 1).drop_last() =~= v.subrange(0, i as int));
        assert(v.subrange(0, i + 1).last() == props@[i as int]@);
        match props[i].kind {
            ElementProp::Scalar(t) => {
                r.push((t, role_for(props[i].name.as_slice())));
            },
            ElementProp::List { .. } => {},
        }
        i = i + 1;
    }
    assert(v.subrange(0, v.len() as int) =~= v);
    r
}

fn face_index_types(props: &Vec<PropDef>) -> (r: Option<(PropType, PropType)>)
    ensures
        r == index_list(props_view(props@)),
{
    let ghost v = props_view(props@);
    let mut i: usize = 0;
    assert(v.subrange(0, v.len() as int) =~= v);
    while i < props.len()
        invariant
            v == props_view(props@),
            i <= props@.len(),
            index_list(v) == index_list(v.subrange(i as int, v.len() as int)),
        decreases props@.len() - i,
    {
        assert(v[i as int] == props@[i as int]@);
        assert(v.subrange(i as int, v.len() as int).drop_first() =~= v.subrange(
            i + 1,
            v.len() as int,
        ));
        match props[i].kind {
            ElementProp::List { count_type, val_type } => {
                if is_index_prop_name(props[i].name.as_slice()) {
                    return Some((count_type, val_type));
                }
            },
            ElementProp::Scalar(_) => {},
        }
        i = i + 1;
    }
    None
}

fn face_extras(props: &Vec<PropDef>) -> (r: Vec<ElementProp>)
    ensures
        r@ == extra_props(props_view(props@)),
{
    let ghost v = props_view(props@);
    let mut r: Vec<ElementProp> = Vec::new();
    let mut i: usize = 0;
    assert(v.subrange(0, 0) =~= seq![]);
    while i < props.len()
        invariant
            v == props_view(props@),
            i <= props@.len(),
            r@ == extra_props(v.subrange(0, i as int)),
        decreases props@.len() - i,
    {
        assert(v.subrange(0, i + 1).drop_last() =~= v.subrange(0, i as int));
        assert(v.subrange(0, i + 1).last() == props@[i as int]@);
        if !is_index_prop_name(props[i].name.as_slice()) {
            r.push(props[i].kind);
        }
        i = i + 1;
    }
    assert(v.subrange(0, v.len() as int) =~= v);
    r
}

fn prop_kinds(props: &Vec<PropDef>) -> (r: Vec<ElementProp>)
    ensures
        r@ == kinds_of(props_view(props@)),
{
    let mut r: Vec<ElementProp> = Vec::new();
    let mut i: usize = 0;
    while i < props.len()
        invariant
            i <= props@.len(),
            r@ == kinds_of(props_view(props@)).subrange(0, i as int),
        decreases props@.len() - i,
    {
        r.push(props[i].kind);
        assert(r@ =~= kinds_of(props_view(props@)).subrange(0, i + 1));
        i = i + 1;
    }
    assert(r@ =~= kinds_of(props_view(props@)));
    r
}

/// Works out how the body is read from the element declarations.
pub fn make_plan(els: &Vec<ElementDef>) -> (p: ExecPlan)
    ensures
        p@ == plan_of(elements_view(els@)),
{
    let vprops = match find_element(els, "vertex") {
        Some(i) => vertex_roles(&els[i].props),
        None => Vec::new(),
    };
    let (index_types, extras) = match find_element(els, "face") {
        Some(i) => {
            let t = match face_index_types(&els[i].props) {
                Some(t) => t,
                None => (PropType::Uchar, PropType::Int),
            };
            (t, face_extras(&els[i].props))
        },
        None => ((PropType::Uchar, PropType::Int), Vec::new()),
    };
    let p = ExecPlan { vprops, index_types, extras };
    assert(p@.vprops =~= plan_of(elements_view(els@)).vprops);
    assert(p@.extras =~= plan_of(elements_view(els@)).extras);
    p
}

/// The position after `n` values of type `t` from `pos`, when they fit.
fn skip_values(b: &[u8], pos: usize, t: PropType, n: usize) -> (r: Option<usize>)
    requires
        pos <= b@.len(),
    ensures
        pos + n * type_size(t) <= b@.len() ==> r == Some((pos + n * type_size(t)) as usize),
        pos + n * type_size(t) > b@.len() ==> r is None,
{
    let sz = size_of_type(t);
    let blen = b.len();
    let rem = blen - pos;
    let q = rem / sz;
    proof {
        vstd::arithmetic::div_mod::lemma_fundamental_div_mod(rem as int, sz as int);
    }
    if n <= q {
        proof {
            lemma_mul_inequality(n as int, q as int, sz as int);
            assert(q * sz <= rem) by (nonlinear_arith)
                requires
                    rem == sz * q + rem % sz,
                    rem % sz >= 0,
            ;
        }
        Some(pos + n * sz)
    } else {
        proof {
            lemma_mul_inequality((q + 1) as int, n as int, sz as int);
            assert((q + 1) * sz > rem) by (nonlinear_arith)
                requires
                    rem == sz * q + rem % sz,
                    rem % sz < sz,
            ;
        }
        None
    }
}

/// Reads `n` values of type `t` from `pos`.
fn read_values(b: &[u8], pos: usize, t: PropType, n: usize) -> (r: Option<(Vec<Scalar>, usize)>)
    requires
        pos <= b@.len(),
    ensures
        match values_read(b@, pos as int, t, n as nat) {
            Some((vals, p)) => r matches Some((v, q)) && v@ == vals && q == p,
            None => r is None,
        },
{
    let blen = b.len();
    let end = match skip_values(b, pos, t, n) {
        Some(e) => e,
        None => {
            return None;
        },
    };
    let sz = size_of_type(t);
    let mut vals: Vec<Scalar> = Vec::new();
    let mut i: usize = 0;
    let mut p = pos;
    while i < n
        invariant
            sz == type_size(t),
            blen == b@.len(),
            pos + n * sz <= b@.len(),
            end == pos + n * sz,
            i <= n,
            p == pos + i * sz,
            vals@ == Seq::new(i as nat, |k: int| scalar_at(b@, pos + k * type_size(t), t)),
        decreases n - i,
    {
        proof {
            lemma_mul_inequality((i + 1) as int, n as int, sz as int);
            assert((i + 1) * sz == i * sz + sz) by (nonlinear_arith);
        }
        let v = read_scalar(b, p, t);
        vals.push(v);
        assert(vals@ =~= Seq::new((i + 1) as nat, |k: int| scalar_at(b@, pos + k * type_size(t), t)));
        p = p + sz;
        i = i + 1;
    }
    Some((vals, end))
}

/// Reads past one property.
fn skip_prop(b: &[u8], pos: usize, prop: ElementProp) -> (r: Option<usize>)
    requires
        pos <= b@.len(),
    ensures
        match prop_skipped(b@, pos as int, prop) {
            Some(p) => r matches Some(q) && q == p && p <= b@.len(),
            None => r is None,
        },
{
    let blen = b.len();
    match prop {
        ElementProp::Scalar(t) => skip_values(b, pos, t, 1),
        ElementProp::List { count_type, val_type } => {
            if blen - pos < size_of_type(count_type) {
                return None;
            }
            let c = read_scalar(b, pos, count_type);
            let n = c.as_count();
            let p = pos + size_of_type(count_type);
            skip_values(b, p, val_type, n)
        },
    }
}

/// Reads past all of `props`.
fn skip_props(b: &[u8], pos: usize, props: &Vec<ElementProp>) -> (r: Option<usize>)
    requires
        pos <= b@.len(),
    ensures
        match props_skipped(b@, pos as int, props@, props@.len()) {
            Some(p) => r matches Some(q) && q == p && p <= b@.len(),
            None => r is None,
        },
{
    let blen = b.len();
    let mut p = pos;
    let mut i: usize = 0;
    while i < props.len()
        invariant
            blen == b@.len(),
            i <= props@.len(),
            p <= b@.len(),
            props_skipped(b@, pos as int, props@, i as nat) == Some(p as int),
        decreases props@.len() - i,
    {
        match skip_prop(b, p, props[i]) {
            Some(q) => {
                p = q;
            },
            None => {
                proof {
                    lemma_props_skipped_fail(b@, pos as int, props@, (i + 1) as nat, props@.len());
                }
                return None;
            }
        }
        i = i + 1;
    }
    Some(p)
}

/// Reads one vertex record.
fn read_vertex(b: &[u8], pos: usize, mesh: &mut PlyMesh, vprops: &Vec<(PropType, Role)>) -> (r:
    Option<usize>)
    requires
        pos <= b@.len(),
    ensures
        match vertex_props_read(
            b@,
            Cursor { pos: pos as int, mesh: old(mesh)@ },
            vprops@,
            vprops@.len(),
        ) {
            Some(c) => r matches Some(q) && q == c.pos && final(mesh)@ == c.mesh && c.pos <= b@.len(),
            None => r is None,
        },
{
    let ghost c0 = Cursor { pos: pos as int, mesh: mesh@ };
    let blen = b.len();
    let mut p = pos;
    let mut i: usize = 0;
    while i < vprops.len()
        invariant
            c0 == (Cursor { pos: pos as int, mesh: old(mesh)@ }),
            blen == b@.len(),
            i <= vprops@.len(),
            p <= b@.len(),
            vertex_props_read(b@, c0, vprops@, i as nat) == Some(
                Cursor { pos: p as int, mesh: mesh@ },
            ),
        decreases vprops@.len() - i,
    {
        let (t, role) = vprops[i];
        if blen - p >= size_of_type(t) {
            let v = read_scalar(b, p, t);
            let ghost before = mesh@;
            match role {
                Role::X | Role::Y | Role::Z => mesh.vertices.push(v),
                Role::Nx | Role::Ny | Role::Nz => mesh.normals.push(v),
                Role::U | Role::V => mesh.texcoords.push(v),
                Role::Other => {},
            }
            assert(mesh@ == with_value(before, role, v));
            p = p + size_of_type(t);
        } else {
            proof {
                assert(vertex_props_read(b@, c0, vprops@, (i + 1) as nat) is None);
                lemma_vertex_props_fail(b@, c0, vprops@, (i + 1) as nat, vprops@.len());
            }
            return None;
        }
        i = i + 1;
    }
    Some(p)
}

/// Reads one face record: its index list, fan-triangulated, then its other
/// properties.
fn read_face(b: &[u8], pos: usize, mesh: &mut PlyMesh, plan: &ExecPlan) -> (r: Option<usize>)
    requires
        pos <= b@.len(),
    ensures
        match face_read(b@, Cursor { pos: pos as int, mesh: old(mesh)@ }, plan@) {
            Some(c) => r matches Some(q) && q == c.pos && final(mesh)@ == c.mesh && c.pos <= b@.len(),
            None => r is None,
        },
{
    let blen = b.len();
    let (ct, vt) = plan.index_types;
    if blen - pos < size_of_type(ct) {
        return None;
    }
    let c = read_scalar(b, pos, ct);
    let n = c.as_count();
    let (vals, p) = match read_values(b, pos + size_of_type(ct), vt, n) {
        Some(x) => x,
        None => {
            return None;
        },
    };
    let ghost start = Cursor { pos: pos as int, mesh: mesh@ };
    assert(values_read(b@, pos + type_size(ct), vt, n as nat) == Some((vals@, p as int)));
    let mut idx: Vec<i32> = Vec::new();
    let mut k: usize = 0;
    while k < vals.len()
        invariant
            k <= vals@.len(),
            idx@ == indices_of(vals@.subrange(0, k as int)),
        decreases vals@.len() - k,
    {
        idx.push(vals[k].as_index());
        assert(idx@ =~= indices_of(vals@.subrange(0, k + 1)));
        k = k + 1;
    }
    assert(vals@.subrange(0, vals@.len() as int) =~= vals@);
    let ghost tri = fan(idx@);
    if idx.len() >= 3 {
        let mut i: usize = 1;
        while i < idx.len() - 1
            invariant
                idx@.len() >= 3,
                1 <= i <= idx@.len() - 1,
                tri == fan(idx@),
                mesh.indices@ == start.mesh.indices + tri.subrange(0, 3 * (i - 1)),
                mesh.vertices@ == start.mesh.vertices,
                mesh.normals@ == start.mesh.normals,
                mesh.texcoords@ == start.mesh.texcoords,
            decreases idx@.len() - i,
        {
            mesh.indices.push(idx[0]);
            mesh.indices.push(idx[i]);
            mesh.indices.push(idx[i + 1]);
            proof {
                let j = 3 * (i - 1);
                assert(j % 3 == 0 && j / 3 == i - 1) by (nonlinear_arith)
                    requires
                        j == 3 * (i - 1),
                        i >= 1,
                ;
                assert((j + 1) % 3 == 1 && (j + 1) / 3 == i - 1) by (nonlinear_arith)
                    requires
                        j == 3 * (i - 1),
                        i >= 1,
                ;
                assert((j + 2) % 3 == 2 && (j + 2) / 3 == i - 1) by (nonlinear_arith)
                    requires
                        j == 3 * (i - 1),
                        i >= 1,
                ;
                assert(mesh.indices@ =~= start.mesh.indices + tri.subrange(0, 3 * i));
            }
            i = i + 1;
        }
        assert(tri.subrange(0, 3 * (i - 1)) =~= tri);
    } else {
        assert(tri =~= seq![]);
        assert(mesh.indices@ =~= start.mesh.indices + tri);
    }
    assert(mesh@ == MeshSpec { indices: start.mesh.indices + fan(indices_of(vals@)), ..start.mesh });
    match skip_props(b, p, &plan.extras) {
        Some(q) => Some(q),
        None => None,
    }
}

/// The exec form of a `RecordKind`.
pub enum ExecKind {
    Vertex,
    Face,
    Other(Vec<ElementProp>),
}

impl View for ExecKind {
    type V = RecordKind;

    open spec fn view(&self) -> RecordKind {
        match self {
            ExecKind::Vertex => RecordKind::Vertex,
            ExecKind::Face => RecordKind::Face,
            ExecKind::Other(p) => RecordKind::Other(p@),
        }
    }
}

fn read_record(b: &[u8], pos: usize, mesh: &mut PlyMesh, plan: &ExecPlan, kind: &ExecKind) -> (r:
    Option<usize>)
    requires
        pos <= b@.len(),
    ensures
        match record_read(b@, Cursor { pos: pos as int, mesh: old(mesh)@ }, plan@, kind@) {
            Some(c) => r matches Some(q) && q == c.pos && final(mesh)@ == c.mesh && c.pos <= b@.len(),
            None => r is None,
        },
{
    match kind {
        ExecKind::Vertex => read_vertex(b, pos, mesh, &plan.vprops),
        ExecKind::Face => read_face(b, pos, mesh, plan),
        ExecKind::Other(props) => skip_props(b, pos, props),
    }
}

fn read_records(
    b: &[u8],
    pos: usize,
    mesh: &mut PlyMesh,
    plan: &ExecPlan,
    kind: &ExecKind,
    count: usize,
) -> (r: Option<usize>)
    requires
        pos <= b@.len(),
    ensures
        match records_read(
            b@,
            Cursor { pos: pos as int, mesh: old(mesh)@ },
            plan@,
            kind@,
            count as nat,
        ) {
            Some(c) => r matches Some(q) && q == c.pos && final(mesh)@ == c.mesh && c.pos <= b@.len(),
            None => r is None,
        },
{
    let ghost d = Cursor { pos: pos as int, mesh: mesh@ };
    let mut p = pos;
    let mut j: usize = 0;
    while j < count
        invariant
            d == (Cursor { pos: pos as int, mesh: old(mesh)@ }),
            p <= b@.len(),
            j <= count,
            records_read(b@, d, plan@, kind@, j as nat) == Some(Cursor { pos: p as int, mesh: mesh@ }),
        decreases count - j,
    {
        match read_record(b, p, mesh, plan, kind) {
            Some(q) => {
                p = q;
            },
            None => {
                proof {
                    lemma_records_fail(b@, d, plan@, kind@, (j + 1) as nat, count as nat);
                }
                return None;
            },
        }
        j = j + 1;
    }
    Some(p)
}

fn kind_for(e: &ElementDef) -> (k: ExecKind)
    ensures
        k@ == kind_of(e@),
{
    if chars_eq(e.name.as_slice(), "vertex") {
        ExecKind::Vertex
    } else if chars_eq(e.name.as_slice(), "face") {
        ExecKind::Face
    } else {
        ExecKind::Other(prop_kinds(&e.props))
    }
}

/// Reads the body that starts at byte offset `start`; `None` when the bytes
/// run out before every declared record has been read.
pub fn read_body(b: &[u8], start: usize, els: &Vec<ElementDef>) -> (r: Option<PlyMesh>)
    requires
        start <= b@.len(),
    ensures
        match body_of(b@, start as int, elements_view(els@)) {
            Some(m) => r matches Some(x) && x@ == m,
            None => r is None,
        },
{
    let blen = b.len();
    let plan = make_plan(els);
    let ghost v = elements_view(els@);
    let mut mesh = PlyMesh {
        vertices: Vec::new(),
        normals: Vec::new(),
        texcoords: Vec::new(),
        indices: Vec::new(),
    };
    let ghost c0 = Cursor { pos: start as int, mesh: mesh@ };
    assert(mesh@ == empty_mesh()) by {
        assert(mesh@.vertices =~= seq![]);
        assert(mesh@.normals =~= seq![]);
        assert(mesh@.texcoords =~= seq![]);
        assert(mesh@.indices =~= seq![]);
    }
    let mut pos = start;
    let mut k: usize = 0;
    while k < els.len()
        invariant
            v == elements_view(els@),
            plan@ == plan_of(v),
            c0 == (Cursor { pos: start as int, mesh: empty_mesh() }),
            k <= els@.len(),
            blen == b@.len(),
            pos <= b@.len(),
            elements_read(b@, c0, plan@, v, k as nat) == Some(Cursor { pos: pos as int, mesh: mesh@ }),
        decreases els@.len() - k,
    {
        let kind = kind_for(&els[k]);
        assert(v[k as int] == els@[k as int]@);
        let count = els[k].count;
        match read_records(b, pos, &mut mesh, &plan, &kind, count) {
            Some(q) => {
                pos = q;
            },
            None => {
                proof {
                    lemma_elements_fail(b@, c0, plan@, v, (k + 1) as nat, v.len());
                }
                return None;
            },
        }
        k = k + 1;
    }
    Some(mesh)
}

} // verus!
