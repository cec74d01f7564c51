//! Laws of the PLY reader: what holds of every mesh that it produces.

use vstd::prelude::*;
use vstd::utf8::decode_utf8;
use crate::ply::{ply_of, PlyFailure};
use crate::ply_header::{
    HeaderEnd, HeaderState, LineStep, ElementSpec, header_of, header_from, header_step,
    initial_header, prop_type_of,
};
use crate::ply_body::{
    MeshSpec, Cursor, Plan, RecordKind, Role, record_read, records_read, elements_read,
    vertex_props_read, face_read, fan, empty_mesh, plan_of, values_read, indices_of, kind_of,
    role_of, first_named, is_index_name, index_list,
};
use crate::scalar::{PropType, Scalar, type_size, count_of, scalar_at, le_u16, le_u32, le_u64};
use crate::ply_body::{prop_skipped, props_skipped, body_of};
use crate::ply_header::ElementProp;
use vstd::arithmetic::mul::lemma_mul_inequality;
use crate::text::{lemma_line_end, line_end};

verus! {

proof fn lemma_header_binary(b: Seq<u8>, pos: int, st: HeaderState, failed: bool)
    ensures
        header_from(b, pos, st, failed) matches HeaderEnd::Body(s, _) ==> s.binary_le,
    decreases b.len() - pos,
{
    if 0 <= pos < b.len() {
        lemma_line_end(b, pos);
        let e = line_end(b, pos);
        match header_step(st, decode_utf8(b.subrange(pos, e))) {
            LineStep::Next(next) => {
                lemma_header_binary(b, e, next, failed);
            },
            _ => {},
        }
    }
}

/// Only a header that declares `format binary_little_endian` yields a mesh.
pub proof fn law_mesh_needs_binary_le(b: Seq<u8>, failed: bool)
    ensures
        ply_of(b, failed) is Ok ==> (header_of(b, failed) matches HeaderEnd::Body(st, _)
            && st.binary_le),
{
    lemma_header_binary(b, 0, initial_header(), failed);
}

proof fn lemma_vertex_props_keep_indices(b: Seq<u8>, c: Cursor, vprops: Seq<(PropType, Role)>, k: nat)
    ensures
        vertex_props_read(b, c, vprops, k) matches Some(d) ==> d.mesh.indices == c.mesh.indices,
    decreases k,
{
    if k > 0 {
        lemma_vertex_props_keep_indices(b, c, vprops, (k - 1) as nat);
    }
}

proof fn lemma_fan_len(f: Seq<i32>)
    ensures
        fan(f).len() % 3 == 0,
{
    if f.len() >= 3 {
        assert((3 * (f.len() - 2)) % 3 == 0) by (nonlinear_arith)
            requires
                f.len() >= 3,
        ;
    }
}

proof fn lemma_face_triples(b: Seq<u8>, c: Cursor, plan: Plan)
    requires
        c.mesh.indices.len() % 3 == 0,
    ensures
        face_read(b, c, plan) matches Some(d) ==> d.mesh.indices.len() % 3 == 0,
{
    let (ct, vt) = plan.index_types;
    if c.pos + type_size(ct) <= b.len() {
        let n = count_of(scalar_at(b, c.pos, ct));
        let vr = values_read(b, c.pos + type_size(ct), vt, n as nat);
        if let Some((vals, p)) = vr {
            let f = fan(indices_of(vals));
            lemma_fan_len(indices_of(vals));
            let a = c.mesh.indices.len();
            assert((a + f.len()) % 3 == 0) by (nonlinear_arith)
                requires
                    a % 3 == 0,
                    f.len() % 3 == 0,
            ;
            assert((c.mesh.indices + f).len() == a + f.len());
        }
    }
}

proof fn lemma_record_triples(b: Seq<u8>, c: Cursor, plan: Plan, kind: RecordKind)
    requires
        c.mesh.indices.len() % 3 == 0,
    ensures
        record_read(b, c, plan, kind) matches Some(d) ==> d.mesh.indices.len() % 3 == 0,
{
    match kind {
        RecordKind::Vertex => {
            lemma_vertex_props_keep_indices(b, c, plan.vprops, plan.vprops.len());
        },
        RecordKind::Face => {
            lemma_face_triples(b, c, plan);
        },
        RecordKind::Other(_) => {},
    }
}

proof fn lemma_records_triples(b: Seq<u8>, c: Cursor, plan: Plan, kind: RecordKind, n: nat)
    requires
        c.mesh.indices.len() % 3 == 0,
    ensures
        records_read(b, c, plan, kind, n) matches Some(d) ==> d.mesh.indices.len() % 3 == 0,
    decreases n,
{
    if n > 0 {
        lemma_records_triples(b, c, plan, kind, (n - 1) as nat);
        match records_read(b, c, plan, kind, (n - 1) as nat) {
            Some(d) => {
                lemma_record_triples(b, d, plan, kind);
            },
            None => {},
        }
    }
}

proof fn lemma_elements_triples(b: Seq<u8>, c: Cursor, plan: Plan, els: Seq<ElementSpec>, k: nat)
    requires
        c.mesh.indices.len() % 3 == 0,
    ensures
        elements_read(b, c, plan, els, k) matches Some(d) ==> d.mesh.indices.len() % 3 == 0,
    decreases k,
{
    if k > 0 {
        lemma_elements_triples(b, c, plan, els, (k - 1) as nat);
        match elements_read(b, c, plan, els, (k - 1) as nat) {
            Some(d) => {
                lemma_records_triples(
                    b,
                    d,
                    plan,
                    kind_of(els[k - 1]),
                    els[k - 1].count as nat,
                );
            },
            None => {},
        }
    }
}

/// Faces are fan-triangulated: the indices of a mesh come in whole
/// triangles.
pub proof fn law_indices_are_triangles(b: Seq<u8>, failed: bool)
    ensures
        ply_of(b, failed) matches Ok(m) ==> m.indices.len() % 3 == 0,
{
    match header_of(b, failed) {
        HeaderEnd::Body(st, start) => {
            lemma_elements_triples(
                b,
                Cursor { pos: start, mesh: empty_mesh() },
                plan_of(st.elements),
                st.elements,
                st.elements.len(),
            );
        },
        _ => {},
    }
}

/// The three lists of vertex data in a mesh.
pub enum Channel {
    Positions,
    Normals,
    Texcoords,
}

/// Whether a vertex property with role `r` goes into channel `ch`.
pub open spec fn feeds(ch: Channel, r: Role) -> bool {
    match ch {
        Channel::Positions => r is X || r is Y || r is Z,
        Channel::Normals => r is Nx || r is Ny || r is Nz,
        Channel::Texcoords => r is U || r is V,
    }
}

/// The values of channel `ch` in `m`.
pub open spec fn channel(m: MeshSpec, ch: Channel) -> Seq<Scalar> {
    match ch {
        Channel::Positions => m.vertices,
        Channel::Normals => m.normals,
        Channel::Texcoords => m.texcoords,
    }
}

/// How many of the vertex properties go into channel `ch`.
pub open spec fn feeding(vprops: Seq<(PropType, Role)>, ch: Channel) -> nat
    decreases vprops.len(),
{
    if vprops.len() == 0 {
        0
    } else {
        feeding(vprops.drop_last(), ch) + if feeds(ch, vprops.last().1) {
            1nat
        } else {
            0nat
        }
    }
}

/// The number of vertex records: the counts of all elements called
/// `vertex`.
pub open spec fn vertex_records(els: Seq<ElementSpec>) -> nat
    decreases els.len(),
{
    if els.len() == 0 {
        0
    } else {
        vertex_records(els.drop_last()) + if els.last().name == "vertex"@ {
            els.last().count as nat
        } else {
            0nat
        }
    }
}

proof fn lemma_vertex_props_channel(
    b: Seq<u8>,
    c: Cursor,
    vprops: Seq<(PropType, Role)>,
    k: nat,
    ch: Channel,
)
    requires
        k <= vprops.len(),
    ensures
        vertex_props_read(b, c, vprops, k) matches Some(d) ==> channel(d.mesh, ch).len() == channel(
            c.mesh,
            ch,
        ).len() + feeding(vprops.subrange(0, k as int), ch),
    decreases k,
{
    if k > 0 {
        lemma_vertex_props_channel(b, c, vprops, (k - 1) as nat, ch);
        assert(vprops.subrange(0, k as int).drop_last() =~= vprops.subrange(0, k - 1));
    } else {
        assert(vprops.subrange(0, 0).len() == 0);
    }
}

proof fn lemma_record_channel(b: Seq<u8>, c: Cursor, plan: Plan, kind: RecordKind, ch: Channel)
    ensures
        record_read(b, c, plan, kind) matches Some(d) ==> channel(d.mesh, ch).len() == channel(
            c.mesh,
            ch,
        ).len() + if kind is Vertex {
            feeding(plan.vprops, ch)
        } else {
            0nat
        },
{
    match kind {
        RecordKind::Vertex => {
            lemma_vertex_props_channel(b, c, plan.vprops, plan.vprops.len(), ch);
            assert(plan.vprops.subrange(0, plan.vprops.len() as int) =~= plan.vprops);
        },
        _ => {},
    }
}

proof fn lemma_records_channel(b: Seq<u8>, c: Cursor, plan: Plan, kind: RecordKind, n: nat, ch: Channel)
    ensures
        records_read(b, c, plan, kind, n) matches Some(d) ==> channel(d.mesh, ch).len() == channel(
            c.mesh,
            ch,
        ).len() + n * if kind is Vertex {
            feeding(plan.vprops, ch)
        } else {
            0nat
        },
    decreases n,
{
    if n > 0 {
        lemma_records_channel(b, c, plan, kind, (n - 1) as nat, ch);
        match records_read(b, c, plan, kind, (n - 1) as nat) {
            Some(d) => {
                lemma_record_channel(b, d, plan, kind, ch);
                let f: nat = if kind is Vertex {
                    feeding(plan.vprops, ch)
                } else {
                    0nat
                };
                assert(n * f == (n - 1) * f + f) by (nonlinear_arith)
                    requires
                        n > 0,
                ;
            },
            None => {},
        }
    } else {
        let f: nat = if kind is Vertex {
            feeding(plan.vprops, ch)
        } else {
            0nat
        };
        assert(0 * f == 0);
    }
}

proof fn lemma_elements_channel(
    b: Seq<u8>,
    c: Cursor,
    plan: Plan,
    els: Seq<ElementSpec>,
    k: nat,
    ch: Channel,
)
    requires
        k <= els.len(),
    ensures
        elements_read(b, c, plan, els, k) matches Some(d) ==> channel(d.mesh, ch).len() == channel(
            c.mesh,
            ch,
        ).len() + vertex_records(els.subrange(0, k as int)) * feeding(plan.vprops, ch),
    decreases k,
{
    if k > 0 {
        lemma_elements_channel(b, c, plan, els, (k - 1) as nat, ch);
        let prefix = els.subrange(0, k as int);
        assert(prefix.drop_last() =~= els.subrange(0, k - 1));
        match elements_read(b, c, plan, els, (k - 1) as nat) {
            Some(d) => {
                let kind = kind_of(els[k - 1]);
                lemma_records_channel(b, d, plan, kind, els[k - 1].count as nat, ch);
                let f = feeding(plan.vprops, ch);
                let v0 = vertex_records(els.subrange(0, k - 1));
                let cnt = els[k - 1].count as nat;
                assert(vertex_records(prefix) == v0 + if els[k - 1].name == "vertex"@ {
                    cnt
                } else {
                    0nat
                });
                if els[k - 1].name == "vertex"@ {
                    assert(kind is Vertex);
                    assert((v0 + cnt) * f == v0 * f + cnt * f) by (nonlinear_arith);
                } else {
                    assert(!(kind is Vertex));
                    assert(cnt * 0nat == 0);
                }
                assert(elements_read(b, c, plan, els, k) == records_read(b, d, plan, kind, cnt));
            },
            None => {},
        }
    } else {
        assert(els.subrange(0, 0).len() == 0);
        assert(vertex_records(els.subrange(0, 0)) == 0);
        assert(0 * feeding(plan.vprops, ch) == 0);
    }
}

/// Every vertex record gives one value to a channel for each of its
/// properties that feeds the channel: the positions hold the `x`, `y`, `z`
/// values of all vertex records, and likewise the normals and the texture
/// coordinates.
pub proof fn law_channel_sizes(b: Seq<u8>, failed: bool, ch: Channel)
    ensures
        ply_of(b, failed) matches Ok(m) ==> (header_of(b, failed) matches HeaderEnd::Body(st, _)
            && channel(m, ch).len() == vertex_records(st.elements) * feeding(
            plan_of(st.elements).vprops,
            ch,
        )),
{
    match header_of(b, failed) {
        HeaderEnd::Body(st, start) => {
            lemma_elements_channel(
                b,
                Cursor { pos: start, mesh: empty_mesh() },
                plan_of(st.elements),
                st.elements,
                st.elements.len(),
                ch,
            );
            assert(st.elements.subrange(0, st.elements.len() as int) =~= st.elements);
        },
        _ => {},
    }
}

/* Bytes after the body */

pub(crate) proof fn lemma_scalar_ext(b: Seq<u8>, x: Seq<u8>, p: int, t: PropType)
    requires
        0 <= p,
        p + type_size(t) <= b.len(),
    ensures
        scalar_at(b + x, p, t) == scalar_at(b, p, t),
{
    let c = b + x;
    assert(c[p] == b[p]);
    if type_size(t) >= 2 {
        assert(c[p + 1] == b[p + 1]);
        assert(le_u16(c, p) == le_u16(b, p));
    }
    if type_size(t) >= 4 {
        assert(c[p + 2] == b[p + 2]);
        assert(c[p + 3] == b[p + 3]);
        assert(le_u32(c, p) == le_u32(b, p));
    }
    if type_size(t) >= 8 {
        assert(c[p + 4] == b[p + 4]);
        assert(c[p + 5] == b[p + 5]);
        assert(c[p + 6] == b[p + 6]);
        assert(c[p + 7] == b[p + 7]);
        assert(le_u32(c, p + 4) == le_u32(b, p + 4));
        assert(le_u64(c, p) == le_u64(b, p));
    }
}

proof fn lemma_vertex_props_ext(
    b: Seq<u8>,
    x: Seq<u8>,
    c: Cursor,
    vprops: Seq<(PropType, Role)>,
    k: nat,
)
    requires
        c.pos >= 0,
        vertex_props_read(b, c, vprops, k) is Some,
    ensures
        vertex_props_read(b + x, c, vprops, k) == vertex_props_read(b, c, vprops, k),
        vertex_props_read(b, c, vprops, k)->0.pos >= c.pos,
    decreases k,
{
    if k > 0 {
        lemma_vertex_props_ext(b, x, c, vprops, (k - 1) as nat);
        let d = vertex_props_read(b, c, vprops, (k - 1) as nat)->0;
        let (t, role) = vprops[k - 1];
        lemma_scalar_ext(b, x, d.pos, t);
    }
}

pub(crate) proof fn lemma_values_ext(b: Seq<u8>, x: Seq<u8>, pos: int, t: PropType, n: nat)
    requires
        pos >= 0,
        values_read(b, pos, t, n) is Some,
    ensures
        values_read(b + x, pos, t, n) == values_read(b, pos, t, n),
{
    let sz = type_size(t);
    let v1 = Seq::new(n, |i: int| scalar_at(b + x, pos + i * sz, t));
    let v2 = Seq::new(n, |i: int| scalar_at(b, pos + i * sz, t));
    assert forall|i: int| 0 <= i < n implies v1[i] == v2[i] by {
        lemma_mul_inequality(i + 1, n as int, sz as int);
        assert((i + 1) * sz == i * sz + sz) by (nonlinear_arith);
        assert(i * sz >= 0) by (nonlinear_arith)
            requires
                i >= 0,
        ;
        lemma_scalar_ext(b, x, pos + i * sz, t);
    }
    assert(v1 =~= v2);
}

proof fn lemma_prop_skipped_ext(b: Seq<u8>, x: Seq<u8>, pos: int, p: ElementProp)
    requires
        pos >= 0,
        prop_skipped(b, pos, p) is Some,
    ensures
        prop_skipped(b + x, pos, p) == prop_skipped(b, pos, p),
        prop_skipped(b, pos, p)->0 >= pos,
{
    match p {
        ElementProp::Scalar(t) => {},
        ElementProp::List { count_type, val_type } => {
            lemma_scalar_ext(b, x, pos, count_type);
            let n = count_of(scalar_at(b, pos, count_type));
            assert(n * type_size(val_type) >= 0) by (nonlinear_arith);
        },
    }
}

pub(crate) proof fn lemma_props_skipped_ext(b: Seq<u8>, x: Seq<u8>, pos: int, props: Seq<ElementProp>, k: nat)
    requires
        pos >= 0,
        props_skipped(b, pos, props, k) is Some,
    ensures
        props_skipped(b + x, pos, props, k) == props_skipped(b, pos, props, k),
        props_skipped(b, pos, props, k)->0 >= pos,
    decreases k,
{
    if k > 0 {
        lemma_props_skipped_ext(b, x, pos, props, (k - 1) as nat);
        let p = props_skipped(b, pos, props, (k - 1) as nat)->0;
        lemma_prop_skipped_ext(b, x, p, props[k - 1]);
    }
}

proof fn lemma_face_ext(b: Seq<u8>, x: Seq<u8>, c: Cursor, plan: Plan)
    requires
        c.pos >= 0,
        face_read(b, c, plan) is Some,
    ensures
        face_read(b + x, c, plan) == face_read(b, c, plan),
        face_read(b, c, plan)->0.pos >= c.pos,
{
    let (ct, vt) = plan.index_types;
    lemma_scalar_ext(b, x, c.pos, ct);
    let n = count_of(scalar_at(b, c.pos, ct));
    let start = c.pos + type_size(ct);
    lemma_values_ext(b, x, start, vt, n as nat);
    let (vals, p) = values_read(b, start, vt, n as nat)->0;
    assert(n * type_size(vt) >= 0) by (nonlinear_arith);
    lemma_props_skipped_ext(b, x, p, plan.extras, plan.extras.len());
}

proof fn lemma_record_ext(b: Seq<u8>, x: Seq<u8>, c: Cursor, plan: Plan, kind: RecordKind)
    requires
        c.pos >= 0,
        record_read(b, c, plan, kind) is Some,
    ensures
        record_read(b + x, c, plan, kind) == record_read(b, c, plan, kind),
        record_read(b, c, plan, kind)->0.pos >= c.pos,
{
    match kind {
        RecordKind::Vertex => {
            lemma_vertex_props_ext(b, x, c, plan.vprops, plan.vprops.len());
        },
        RecordKind::Face => {
            lemma_face_ext(b, x, c, plan);
        },
        RecordKind::Other(props) => {
            lemma_props_skipped_ext(b, x, c.pos, props, props.len());
        },
    }
}

pub(crate) proof fn lemma_records_ext(b: Seq<u8>, x: Seq<u8>, c: Cursor, plan: Plan, kind: RecordKind, n: nat)
    requires
        c.pos >= 0,
        records_read(b, c, plan, kind, n) is Some,
    ensures
        records_read(b + x, c, plan, kind, n) == records_read(b, c, plan, kind, n),
        records_read(b, c, plan, kind, n)->0.pos >= c.pos,
    decreases n,
{
    if n > 0 {
        lemma_records_ext(b, x, c, plan, kind, (n - 1) as nat);
        let d = records_read(b, c, plan, kind, (n - 1) as nat)->0;
        lemma_record_ext(b, x, d, plan, kind);
    }
}

pub(crate) proof fn lemma_elements_ext(
    b: Seq<u8>,
    x: Seq<u8>,
    c: Cursor,
    plan: Plan,
    els: Seq<ElementSpec>,
    k: nat,
)
    requires
        c.pos >= 0,
        elements_read(b, c, plan, els, k) is Some,
    ensures
        elements_read(b + x, c, plan, els, k) == elements_read(b, c, plan, els, k),
        elements_read(b, c, plan, els, k)->0.pos >= c.pos,
    decreases k,
{
    if k > 0 {
        lemma_elements_ext(b, x, c, plan, els, (k - 1) as nat);
        let d = elements_read(b, c, plan, els, (k - 1) as nat)->0;
        lemma_records_ext(b, x, d, plan, kind_of(els[k - 1]), els[k - 1].count as nat);
    }
}

proof fn lemma_line_end_ext(b: Seq<u8>, x: Seq<u8>, pos: int)
    requires
        0 <= pos < b.len(),
        b[line_end(b, pos) - 1] == 10,
    ensures
        line_end(b + x, pos) == line_end(b, pos),
    decreases b.len() - pos,
{
    lemma_line_end(b, pos);
    assert((b + x)[pos] == b[pos]);
    if b[pos] != 10 {
        if pos + 1 == b.len() {
            assert(line_end(b, pos + 1) == b.len());
        } else {
            lemma_line_end_ext(b, x, pos + 1);
        }
    }
}

proof fn lemma_line_end_newline(b: Seq<u8>, pos: int)
    requires
        0 <= pos < b.len(),
        line_end(b, pos) < b.len(),
    ensures
        b[line_end(b, pos) - 1] == 10,
    decreases b.len() - pos,
{
    if b[pos] != 10 {
        if pos + 1 < b.len() {
            lemma_line_end_newline(b, pos + 1);
        } else {
            assert(line_end(b, pos + 1) == b.len());
        }
    }
}

pub(crate) proof fn lemma_header_ext(b: Seq<u8>, x: Seq<u8>, pos: int, st: HeaderState)
    requires
        0 <= pos,
        header_from(b, pos, st, false) matches HeaderEnd::Body(_, e) && b[e - 1] == 10,
    ensures
        header_from(b + x, pos, st, false) == header_from(b, pos, st, false),
    decreases b.len() - pos,
{
    lemma_line_end(b, pos);
    let e1 = line_end(b, pos);
    if e1 < b.len() {
        lemma_line_end_newline(b, pos);
    }
    lemma_line_end_ext(b, x, pos);
    assert((b + x).subrange(pos, e1) =~= b.subrange(pos, e1));
    assert((b + x)[e1 - 1] == b[e1 - 1]);
    match header_step(st, decode_utf8(b.subrange(pos, e1))) {
        LineStep::Next(next) => {
            lemma_header_ext(b, x, e1, next);
        },
        _ => {},
    }
}

/// A mesh does not depend on bytes after its body: appending bytes to a file
/// that yields a mesh (and whose `end_header` line ends with its `\n`)
/// yields the same mesh.
pub proof fn law_trailing_bytes_ignored(b: Seq<u8>, x: Seq<u8>)
    requires
        header_of(b, false) matches HeaderEnd::Body(_, e) && b[e - 1] == 10,
        ply_of(b, false) is Ok,
    ensures
        ply_of(b + x, false) == ply_of(b, false),
{
    lemma_header_ext(b, x, 0, initial_header());
    match header_of(b, false) {
        HeaderEnd::Body(st, start) => {
            crate::ply::lemma_body_within_bytes(b, false);
            lemma_elements_ext(
                b,
                x,
                Cursor { pos: start, mesh: empty_mesh() },
                plan_of(st.elements),
                st.elements,
                st.elements.len(),
            );
        },
        _ => {},
    }
}

/* Names and limits */

/// A vertex property's role is fixed by its name: `x`, `y`, `z` are the
/// position, `nx`, `ny`, `nz` the normal, `u`, `s`, `texture_u` the first
/// texture coordinate and `v`, `t`, `texture_v` the second; every other
/// name is read past.
pub proof fn law_vertex_property_roles(name: Seq<char>)
    ensures
        role_of(name) == Role::X <==> name == "x"@,
        role_of(name) == Role::Y <==> name == "y"@,
        role_of(name) == Role::Z <==> name == "z"@,
        role_of(name) == Role::Nx <==> name == "nx"@,
        role_of(name) == Role::Ny <==> name == "ny"@,
        role_of(name) == Role::Nz <==> name == "nz"@,
        role_of(name) == Role::U <==> (name == "u"@ || name == "s"@ || name == "texture_u"@),
        role_of(name) == Role::V <==> (name == "v"@ || name == "t"@ || name == "texture_v"@),
        role_of(name) == Role::Other <==> !(name == "x"@ || name == "y"@ || name == "z"@ || name
            == "nx"@ || name == "ny"@ || name == "nz"@ || name == "u"@ || name == "s"@ || name
            == "texture_u"@ || name == "v"@ || name == "t"@ || name == "texture_v"@),
{
    reveal_strlit("x");
    reveal_strlit("y");
    reveal_strlit("z");
    reveal_strlit("nx");
    reveal_strlit("ny");
    reveal_strlit("nz");
    reveal_strlit("u");
    reveal_strlit("s");
    reveal_strlit("texture_u");
    reveal_strlit("v");
    reveal_strlit("t");
    reveal_strlit("texture_v");
    assert("x"@.len() == 1);
    assert("y"@.len() == 1);
    assert("z"@.len() == 1);
    assert("nx"@.len() == 2);
    assert("ny"@.len() == 2);
    assert("nz"@.len() == 2);
    assert("u"@.len() == 1);
    assert("s"@.len() == 1);
    assert("texture_u"@.len() == 9);
    assert("v"@.len() == 1);
    assert("t"@.len() == 1);
    assert("texture_v"@.len() == 9);
    assert("x"@ != "y"@) by {
        assert("x"@[0] != "y"@[0]);
    }
    assert("x"@ != "z"@) by {
        assert("x"@[0] != "z"@[0]);
    }
    assert("x"@ != "u"@) by {
        assert("x"@[0] != "u"@[0]);
    }
    assert("x"@ != "s"@) by {
        assert("x"@[0] != "s"@[0]);
    }
    assert("x"@ != "v"@) by {
        assert("x"@[0] != "v"@[0]);
    }
    assert("x"@ != "t"@) by {
        assert("x"@[0] != "t"@[0]);
    }
    assert("y"@ != "z"@) by {
        assert("y"@[0] != "z"@[0]);
    }
    assert("y"@ != "u"@) by {
        assert("y"@[0] != "u"@[0]);
    }
    assert("y"@ != "s"@) by {
        assert("y"@[0] != "s"@[0]);
    }
    assert("y"@ != "v"@) by {
        assert("y"@[0] != "v"@[0]);
    }
    assert("y"@ != "t"@) by {
        assert("y"@[0] != "t"@[0]);
    }
    assert("z"@ != "u"@) by {
        assert("z"@[0] != "u"@[0]);
    }
    assert("z"@ != "s"@) by {
        assert("z"@[0] != "s"@[0]);
    }
    assert("z"@ != "v"@) by {
        assert("z"@[0] != "v"@[0]);
    }
    assert("z"@ != "t"@) by {
        assert("z"@[0] != "t"@[0]);
    }
    assert("nx"@ != "ny"@) by {
        assert("nx"@[1] != "ny"@[1]);
    }
    assert("nx"@ != "nz"@) by {
        assert("nx"@[1] != "nz"@[1]);
    }
    assert("ny"@ != "nz"@) by {
        assert("ny"@[1] != "nz"@[1]);
    }
    assert("u"@ != "s"@) by {
        assert("u"@[0] != "s"@[0]);
    }
    assert("u"@ != "v"@) by {
        assert("u"@[0] != "v"@[0]);
    }
    assert("u"@ != "t"@) by {
        assert("u"@[0] != "t"@[0]);
    }
    assert("s"@ != "v"@) by {
        assert("s"@[0] != "v"@[0]);
    }
    assert("s"@ != "t"@) by {
        assert("s"@[0] != "t"@[0]);
    }
    assert("texture_u"@ != "texture_v"@) by {
        assert("texture_u"@[8] != "texture_v"@[8]);
    }
    assert("v"@ != "t"@) by {
        assert("v"@[0] != "t"@[0]);
    }
}

/// A file is refused as too large exactly when its header is read and its
/// first `vertex` or `face` element declares more records than a vector of
/// three 4-byte values per record can hold: `count * 12 > isize::MAX`.
/// Any smaller count is read.
pub proof fn law_too_large_only_past_isize(b: Seq<u8>, failed: bool)
    ensures
        ply_of(b, failed) == Err::<MeshSpec, PlyFailure>(PlyFailure::TooLarge) <==> (match header_of(
            b,
            failed,
        ) {
            HeaderEnd::Body(st, _) => (match first_named(st.elements, "vertex"@) {
                Some(e) => e.count * 12 > isize::MAX,
                None => false,
            }) || (match first_named(st.elements, "face"@) {
                Some(e) => e.count * 12 > isize::MAX,
                None => false,
            }),
            _ => false,
        }),
{
}

/// A property type name means the type the PLY format gives it: `double`
/// or `float64` eight-byte floats, `uchar` or `uint8` bytes, `int` or
/// `int32` and `uint` or `uint32` four-byte integers, `short` or `int16`
/// and `ushort` or `uint16` two-byte integers; `float`, `float32` and every
/// unknown name read as four-byte floats.
pub proof fn law_property_type_names(w: Seq<char>)
    ensures
        prop_type_of(w) == PropType::Double <==> (w == "double"@ || w == "float64"@),
        prop_type_of(w) == PropType::Uchar <==> (w == "uchar"@ || w == "uint8"@),
        prop_type_of(w) == PropType::Int <==> (w == "int"@ || w == "int32"@),
        prop_type_of(w) == PropType::UInt <==> (w == "uint"@ || w == "uint32"@),
        prop_type_of(w) == PropType::Short <==> (w == "short"@ || w == "int16"@),
        prop_type_of(w) == PropType::UShort <==> (w == "ushort"@ || w == "uint16"@),
        prop_type_of(w) == PropType::Float <==> !(w == "double"@ || w == "float64"@ || w == "uchar"@ || w == "uint8"@ || w == "int"@ || w == "int32"@ || w == "uint"@ || w == "uint32"@ || w == "short"@ || w == "int16"@ || w == "ushort"@ || w == "uint16"@),
{
    reveal_strlit("float");
    reveal_strlit("float32");
    reveal_strlit("double");
    reveal_strlit("float64");
    reveal_strlit("uchar");
    reveal_strlit("uint8");
    reveal_strlit("int");
    reveal_strlit("int32");
    reveal_strlit("uint");
    reveal_strlit("uint32");
    reveal_strlit("short");
    reveal_strlit("int16");
    reveal_strlit("ushort");
    reveal_strlit("uint16");
    assert("float"@.len() == 5);
    assert("float32"@.len() == 7);
    assert("double"@.len() == 6);
    assert("float64"@.len() == 7);
    assert("uchar"@.len() == 5);
    assert("uint8"@.len() == 5);
    assert("int"@.len() == 3);
    assert("int32"@.len() == 5);
    assert("uint"@.len() == 4);
    assert("uint32"@.len() == 6);
    assert("short"@.len() == 5);
    assert("int16"@.len() == 5);
    assert("ushort"@.len() == 6);
    assert("uint16"@.len() == 6);
    assert("float"@ != "uchar"@) by {
        assert("float"@[0] != "uchar"@[0]);
    }
    assert("float"@ != "uint8"@) by {
        assert("float"@[0] != "uint8"@[0]);
    }
    assert("float"@ != "int32"@) by {
        assert("float"@[0] != "int32"@[0]);
    }
    assert("float"@ != "short"@) by {
        assert("float"@[0] != "short"@[0]);
    }
    assert("float"@ != "int16"@) by {
        assert("float"@[0] != "int16"@[0]);
    }
    assert("float32"@ != "float64"@) by {
        assert("float32"@[5] != "float64"@[5]);
    }
    assert("double"@ != "uint32"@) by {
        assert("double"@[0] != "uint32"@[0]);
    }
    assert("double"@ != "ushort"@) by {
        assert("double"@[0] != "ushort"@[0]);
    }
    assert("double"@ != "uint16"@) by {
        assert("double"@[0] != "uint16"@[0]);
    }
    assert("uchar"@ != "uint8"@) by {
        assert("uchar"@[1] != "uint8"@[1]);
    }
    assert("uchar"@ != "int32"@) by {
        assert("uchar"@[0] != "int32"@[0]);
    }
    assert("uchar"@ != "short"@) by {
        assert("uchar"@[0] != "short"@[0]);
    }
    assert("uchar"@ != "int16"@) by {
        assert("uchar"@[0] != "int16"@[0]);
    }
    assert("uint8"@ != "int32"@) by {
        assert("uint8"@[0] != "int32"@[0]);
    }
    assert("uint8"@ != "short"@) by {
        assert("uint8"@[0] != "short"@[0]);
    }
    assert("uint8"@ != "int16"@) by {
        assert("uint8"@[0] != "int16"@[0]);
    }
    assert("int32"@ != "short"@) by {
        assert("int32"@[0] != "short"@[0]);
    }
    assert("int32"@ != "int16"@) by {
        assert("int32"@[3] != "int16"@[3]);
    }
    assert("uint32"@ != "ushort"@) by {
        assert("uint32"@[1] != "ushort"@[1]);
    }
    assert("uint32"@ != "uint16"@) by {
        assert("uint32"@[4] != "uint16"@[4]);
    }
    assert("short"@ != "int16"@) by {
        assert("short"@[0] != "int16"@[0]);
    }
    assert("ushort"@ != "uint16"@) by {
        assert("ushort"@[1] != "uint16"@[1]);
    }
}

/// The byte widths of the PLY property types: `uchar` one byte, `short`
/// and `ushort` two, `int`, `uint` and `float` four, `double` eight.
pub proof fn law_property_type_widths(t: PropType)
    ensures
        type_size(t) == 1 <==> t == PropType::Uchar,
        type_size(t) == 2 <==> (t == PropType::Short || t == PropType::UShort),
        type_size(t) == 4 <==> (t == PropType::Int || t == PropType::UInt || t == PropType::Float),
        type_size(t) == 8 <==> t == PropType::Double,
{
}

/// The face index list is the property named `vertex_indices` or
/// `vertex_index`; where the face element declares none, or there is no
/// face element, indices are read as a `uchar` count of `int` values.
pub proof fn law_face_index_list(els: Seq<ElementSpec>, name: Seq<char>)
    ensures
        is_index_name(name) <==> (name == "vertex_indices"@ || name == "vertex_index"@),
        (match first_named(els, "face"@) {
            Some(e) => index_list(e.props) is None,
            None => true,
        }) ==> plan_of(els).index_types == (PropType::Uchar, PropType::Int),
{
}

} // verus!
