//! What edits to a PLY file leave its mesh unchanged: comment lines in the
//! header, records of elements that are neither `vertex` nor `face`, and
//! extra face properties. Also: the body reads the same wherever it stands
//! in the file.

use vstd::prelude::*;
use vstd::utf8::*;
use vstd::arithmetic::mul::lemma_mul_inequality;
use crate::ply::{ply_of, capacity_ok};
use crate::ply_body::{
    Cursor, Plan, RecordKind, Role, vertex_props_read, values_read, prop_skipped,
    props_skipped, face_read, record_read, records_read, elements_read, body_of, kind_of, plan_of,
    empty_mesh, first_named,
};
use crate::ply_header::{
    HeaderEnd, HeaderState, ElementSpec, ElementProp, LineStep, header_from, header_of, header_step,
    initial_header,
};
use crate::scalar::{PropType, type_size, count_of, scalar_at, le_u16, le_u32, le_u64};
use crate::text::{lemma_line_end, line_end, trim};

verus! {

/* Where the body stands */

/// `c` moved by `d` bytes.
pub open spec fn moved(c: Cursor, d: int) -> Cursor {
    Cursor { pos: c.pos + d, mesh: c.mesh }
}

pub open spec fn moved_opt(o: Option<Cursor>, d: int) -> Option<Cursor> {
    match o {
        Some(c) => Some(moved(c, d)),
        None => None,
    }
}

pub open spec fn moved_pos(o: Option<int>, d: int) -> Option<int> {
    match o {
        Some(p) => Some(p + d),
        None => None,
    }
}

proof fn lemma_scalar_shift(y: Seq<u8>, s: Seq<u8>, j: int, t: PropType)
    requires
        0 <= j,
        j + type_size(t) <= s.len(),
    ensures
        scalar_at(y + s, y.len() + j, t) == scalar_at(s, j, t),
{
    let b = y + s;
    let p = y.len() + j;
    assert(b[p] == s[j]);
    if type_size(t) >= 2 {
        assert(b[p + 1] == s[j + 1]);
        assert(le_u16(b, p) == le_u16(s, j));
    }
    if type_size(t) >= 4 {
        assert(b[p + 2] == s[j + 2]);
        assert(b[p + 3] == s[j + 3]);
        assert(le_u32(b, p) == le_u32(s, j));
    }
    if type_size(t) >= 8 {
        assert(b[p + 4] == s[j + 4]);
        assert(b[p + 5] == s[j + 5]);
        assert(b[p + 6] == s[j + 6]);
        assert(b[p + 7] == s[j + 7]);
        assert(le_u32(b, p + 4) == le_u32(s, j + 4));
        assert(le_u64(b, p) == le_u64(s, j));
    }
}

proof fn lemma_vertex_props_shift(
    y: Seq<u8>,
    s: Seq<u8>,
    c: Cursor,
    vprops: Seq<(PropType, Role)>,
    k: nat,
)
    requires
        c.pos >= 0,
    ensures
        vertex_props_read(y + s, moved(c, y.len() as int), vprops, k) == moved_opt(
            vertex_props_read(s, c, vprops, k),
            y.len() as int,
        ),
        vertex_props_read(s, c, vprops, k) matches Some(d) ==> d.pos >= c.pos,
    decreases k,
{
    if k > 0 {
        lemma_vertex_props_shift(y, s, c, vprops, (k - 1) as nat);
        match vertex_props_read(s, c, vprops, (k - 1) as nat) {
            Some(d) => {
                let (t, role) = vprops[k - 1];
                if d.pos + type_size(t) <= s.len() {
                    lemma_scalar_shift(y, s, d.pos, t);
                }
            },
            None => {},
        }
    }
}

proof fn lemma_values_shift(y: Seq<u8>, s: Seq<u8>, j: int, t: PropType, n: nat)
    requires
        j >= 0,
    ensures
        values_read(y + s, y.len() + j, t, n) == (match values_read(s, j, t, n) {
            Some((v, p)) => Some((v, p + y.len())),
            None => None,
        }),
        values_read(s, j, t, n) matches Some((_, p)) ==> p >= j,
{
    let sz = type_size(t);
    assert(n * sz >= 0) by (nonlinear_arith);
    if j + n * sz <= s.len() {
        let v1 = Seq::new(n, |i: int| scalar_at(y + s, y.len() + j + i * sz, t));
        let v2 = Seq::new(n, |i: int| scalar_at(s, j + i * sz, t));
        assert forall|i: int| 0 <= i < n implies v1[i] == v2[i] by {
            lemma_mul_inequality(i + 1, n as int, sz as int);
            assert((i + 1) * sz == i * sz + sz) by (nonlinear_arith);
            assert(i * sz >= 0) by (nonlinear_arith)
                requires
                    i >= 0,
            ;
            lemma_scalar_shift(y, s, j + i * sz, t);
        }
        assert(v1 =~= v2);
    }
}

proof fn lemma_prop_skipped_shift(y: Seq<u8>, s: Seq<u8>, j: int, p: ElementProp)
    requires
        j >= 0,
    ensures
        prop_skipped(y + s, y.len() + j, p) == moved_pos(prop_skipped(s, j, p), y.len() as int),
        prop_skipped(s, j, p) matches Some(q) ==> q >= j,
{
    match p {
        ElementProp::Scalar(t) => {},
        ElementProp::List { count_type, val_type } => {
            if j + type_size(count_type) <= s.len() {
                lemma_scalar_shift(y, s, j, count_type);
                let n = count_of(scalar_at(s, j, count_type));
                assert(n * type_size(val_type) >= 0) by (nonlinear_arith);
            }
        },
    }
}

proof fn lemma_props_skipped_shift(y: Seq<u8>, s: Seq<u8>, j: int, props: Seq<ElementProp>, k: nat)
    requires
        j >= 0,
    ensures
        props_skipped(y + s, y.len() + j, props, k) == moved_pos(
            props_skipped(s, j, props, k),
            y.len() as int,
        ),
        props_skipped(s, j, props, k) matches Some(q) ==> q >= j,
    decreases k,
{
    if k > 0 {
        lemma_props_skipped_shift(y, s, j, props, (k - 1) as nat);
        match props_skipped(s, j, props, (k - 1) as nat) {
            Some(p) => {
                lemma_prop_skipped_shift(y, s, p, props[k - 1]);
            },
            None => {},
        }
    }
}

proof fn lemma_face_shift(y: Seq<u8>, s: Seq<u8>, c: Cursor, plan: Plan)
    requires
        c.pos >= 0,
    ensures
        face_read(y + s, moved(c, y.len() as int), plan) == moved_opt(
            face_read(s, c, plan),
            y.len() as int,
        ),
        face_read(s, c, plan) matches Some(d) ==> d.pos >= c.pos,
{
    let (ct, vt) = plan.index_types;
    if c.pos + type_size(ct) <= s.len() {
        lemma_scalar_shift(y, s, c.pos, ct);
        let n = count_of(scalar_at(s, c.pos, ct));
        let start = c.pos + type_size(ct);
        lemma_values_shift(y, s, start, vt, n as nat);
        assert(y.len() + c.pos + type_size(ct) == y.len() + start);
        match values_read(s, start, vt, n as nat) {
            Some((vals, p)) => {
                lemma_props_skipped_shift(y, s, p, plan.extras, plan.extras.len());
            },
            None => {},
        }
    }
}

proof fn lemma_record_shift(y: Seq<u8>, s: Seq<u8>, c: Cursor, plan: Plan, kind: RecordKind)
    requires
        c.pos >= 0,
    ensures
        record_read(y + s, moved(c, y.len() as int), plan, kind) == moved_opt(
            record_read(s, c, plan, kind),
            y.len() as int,
        ),
        record_read(s, c, plan, kind) matches Some(d) ==> d.pos >= c.pos,
{
    match kind {
        RecordKind::Vertex => {
            lemma_vertex_props_shift(y, s, c, plan.vprops, plan.vprops.len());
        },
        RecordKind::Face => {
            lemma_face_shift(y, s, c, plan);
        },
        RecordKind::Other(props) => {
            lemma_props_skipped_shift(y, s, c.pos, props, props.len());
        },
    }
}

pub(crate) proof fn lemma_records_shift(
    y: Seq<u8>,
    s: Seq<u8>,
    c: Cursor,
    plan: Plan,
    kind: RecordKind,
    n: nat,
)
    requires
        c.pos >= 0,
    ensures
        records_read(y + s, moved(c, y.len() as int), plan, kind, n) == moved_opt(
            records_read(s, c, plan, kind, n),
            y.len() as int,
        ),
        records_read(s, c, plan, kind, n) matches Some(d) ==> d.pos >= c.pos,
    decreases n,
{
    if n > 0 {
        lemma_records_shift(y, s, c, plan, kind, (n - 1) as nat);
        match records_read(s, c, plan, kind, (n - 1) as nat) {
            Some(d) => {
                lemma_record_shift(y, s, d, plan, kind);
            },
            None => {},
        }
    }
}

pub(crate) proof fn lemma_elements_shift(
    y: Seq<u8>,
    s: Seq<u8>,
    c: Cursor,
    plan: Plan,
    els: Seq<ElementSpec>,
    k: nat,
)
    requires
        c.pos >= 0,
    ensures
        elements_read(y + s, moved(c, y.len() as int), plan, els, k) == moved_opt(
            elements_read(s, c, plan, els, k),
            y.len() as int,
        ),
        elements_read(s, c, plan, els, k) matches Some(d) ==> d.pos >= c.pos,
    decreases k,
{
    if k > 0 {
        lemma_elements_shift(y, s, c, plan, els, (k - 1) as nat);
        match elements_read(s, c, plan, els, (k - 1) as nat) {
            Some(d) => {
                lemma_records_shift(y, s, d, plan, kind_of(els[k - 1]), els[k - 1].count as nat);
            },
            None => {},
        }
    }
}

/// A body reads the same wherever it stands: the mesh that the bytes `s`
/// give from offset `j` on is the mesh that `y + s` gives from offset
/// `y.len() + j` on.
pub proof fn law_body_is_position_independent(y: Seq<u8>, s: Seq<u8>, j: int, els: Seq<ElementSpec>)
    requires
        j >= 0,
    ensures
        body_of(y + s, y.len() + j, els) == body_of(s, j, els),
{
    let c = Cursor { pos: j, mesh: empty_mesh() };
    assert(moved(c, y.len() as int) == Cursor { pos: y.len() + j, mesh: empty_mesh() });
    lemma_elements_shift(y, s, c, plan_of(els), els, els.len());
}

/* Comment lines */

/// `h` with its body start moved by `d` bytes.
pub open spec fn moved_end(h: HeaderEnd, d: int) -> HeaderEnd {
    match h {
        HeaderEnd::Body(st, e) => HeaderEnd::Body(st, e + d),
        _ => h,
    }
}

proof fn lemma_line_end_shift(y: Seq<u8>, s: Seq<u8>, i: int)
    requires
        0 <= i <= s.len(),
    ensures
        line_end(y + s, y.len() + i) == y.len() + line_end(s, i),
    decreases s.len() - i,
{
    if i < s.len() {
        assert((y + s)[y.len() + i] == s[i]);
        if s[i] != 10 {
            lemma_line_end_shift(y, s, i + 1);
        }
    }
}

pub(crate) proof fn lemma_header_shift(y: Seq<u8>, s: Seq<u8>, i: int, st: HeaderState, failed: bool)
    requires
        0 <= i,
    ensures
        header_from(y + s, y.len() + i, st, failed) == moved_end(
            header_from(s, i, st, failed),
            y.len() as int,
        ),
    decreases s.len() - i,
{
    if i < s.len() {
        lemma_line_end(s, i);
        lemma_line_end_shift(y, s, i);
        let e = line_end(s, i);
        assert((y + s).subrange(y.len() + i, y.len() + e) =~= s.subrange(i, e));
        assert((y + s)[y.len() + e - 1] == s[e - 1]);
        match header_step(st, decode_utf8(s.subrange(i, e))) {
            LineStep::Next(next) => {
                lemma_header_shift(y, s, e, next, failed);
            },
            _ => {},
        }
    }
}

/// The state after reading the complete header lines of `y` from offset
/// `i` on, in state `st`; `None` if one of them is cut off, is not valid
/// UTF-8, or ends the reading.
pub open spec fn lines_read(y: Seq<u8>, i: int, st: HeaderState) -> Option<HeaderState>
    decreases y.len() - i,
{
    if i < 0 || i > y.len() {
        None
    } else if i == y.len() {
        Some(st)
    } else {
        let e = line_end(y, i);
        proof {
            lemma_line_end(y, i);
        }
        let raw = y.subrange(i, e);
        if y[e - 1] != 10 || !valid_utf8(raw) {
            None
        } else {
            match header_step(st, decode_utf8(raw)) {
                LineStep::Next(next) => lines_read(y, e, next),
                _ => None,
            }
        }
    }
}

proof fn lemma_line_end_prefix(y: Seq<u8>, s: Seq<u8>, i: int)
    requires
        0 <= i < y.len(),
        y[line_end(y, i) - 1] == 10,
    ensures
        line_end(y + s, i) == line_end(y, i),
    decreases y.len() - i,
{
    lemma_line_end(y, i);
    assert((y + s)[i] == y[i]);
    if y[i] != 10 {
        if i + 1 == y.len() {
            assert(line_end(y, i + 1) == y.len());
        } else {
            lemma_line_end_prefix(y, s, i + 1);
        }
    }
}

pub(crate) proof fn lemma_lines_read_prefix(
    y: Seq<u8>,
    s: Seq<u8>,
    i: int,
    st: HeaderState,
    failed: bool,
)
    requires
        lines_read(y, i, st) is Some,
    ensures
        header_from(y + s, i, st, failed) == header_from(
            y + s,
            y.len() as int,
            lines_read(y, i, st)->0,
            failed,
        ),
    decreases y.len() - i,
{
    if i < y.len() {
        lemma_line_end(y, i);
        let e = line_end(y, i);
        lemma_line_end_prefix(y, s, i);
        assert((y + s).subrange(i, e) =~= y.subrange(i, e));
        assert((y + s)[e - 1] == y[e - 1]);
        match header_step(st, decode_utf8(y.subrange(i, e))) {
            LineStep::Next(next) => {
                lemma_lines_read_prefix(y, s, e, next, failed);
            },
            _ => {},
        }
    }
}

/// A header comment line: one line, ended by `\n`, valid UTF-8, that
/// starts with `comment` or `obj_info` once trimmed.
pub open spec fn is_comment_line(c: Seq<u8>) -> bool {
    &&& c.len() > 0
    &&& c.last() == 10
    &&& forall|k: int| 0 <= k < c.len() - 1 ==> c[k] != 10
    &&& valid_utf8(c)
    &&& ("comment"@.is_prefix_of(trim(decode_utf8(c))) || "obj_info"@.is_prefix_of(
        trim(decode_utf8(c)),
    ))
}

proof fn lemma_comment_line_end(c: Seq<u8>, s: Seq<u8>, i: int)
    requires
        is_comment_line(c),
        0 <= i < c.len(),
    ensures
        line_end(c + s, i) == c.len(),
    decreases c.len() - i,
{
    assert((c + s)[i] == c[i]);
    if i < c.len() - 1 {
        lemma_comment_line_end(c, s, i + 1);
    }
}

/// A comment line is read past in any state.
pub proof fn law_comment_line_is_skipped(st: HeaderState, c: Seq<u8>)
    requires
        is_comment_line(c),
    ensures
        header_step(st, decode_utf8(c)) == LineStep::Next(st),
{
    reveal_strlit("end_header");
    reveal_strlit("comment");
    reveal_strlit("obj_info");
    let line = trim(decode_utf8(c));
    if line == "end_header"@ {
        assert(line[0] == "end_header"@[0]);
        if "comment"@.is_prefix_of(line) {
            assert(line[0] == "comment"@[0]);
        } else {
            assert(line[0] == "obj_info"@[0]);
        }
    }
}

proof fn lemma_comment_line_read(c: Seq<u8>, s: Seq<u8>, st: HeaderState, failed: bool)
    requires
        is_comment_line(c),
    ensures
        header_from(c + s, 0, st, failed) == moved_end(header_from(s, 0, st, failed), c.len() as int),
{
    let cs = c + s;
    lemma_comment_line_end(c, s, 0);
    assert(cs.subrange(0, c.len() as int) =~= c);
    assert(cs[c.len() - 1] == c[c.len() - 1]);
    law_comment_line_is_skipped(st, c);
    assert(header_from(cs, 0, st, failed) == header_from(cs, c.len() as int, st, failed));
    lemma_header_shift(c, s, 0, st, failed);
    assert(c.len() + 0 == c.len());
}

proof fn lemma_comment_header(y: Seq<u8>, c: Seq<u8>, s: Seq<u8>, failed: bool)
    requires
        lines_read(y, 0, initial_header()) is Some,
        is_comment_line(c),
    ensures
        header_of(y + c + s, failed) == moved_end(header_of(y + s, failed), c.len() as int),
        header_of(y + s, failed) == moved_end(
            header_from(s, 0, lines_read(y, 0, initial_header())->0, failed),
            y.len() as int,
        ),
{
    let st = lines_read(y, 0, initial_header())->0;
    let cs = c + s;
    assert(y + c + s =~= y + cs);
    lemma_lines_read_prefix(y, cs, 0, initial_header(), failed);
    lemma_lines_read_prefix(y, s, 0, initial_header(), failed);
    lemma_header_shift(y, cs, 0, st, failed);
    lemma_header_shift(y, s, 0, st, failed);
    assert(y.len() + 0 == y.len());
    lemma_comment_line_read(c, s, st, failed);
}

/// Inserting a comment line into a header, after complete header lines
/// that are read past, changes nothing of the mesh nor of the failure:
/// the file reads as it did without the line.
#[verifier::spinoff_prover]
#[verifier::rlimit(40)]
pub proof fn law_comment_line_ignored(y: Seq<u8>, c: Seq<u8>, s: Seq<u8>, failed: bool)
    requires
        lines_read(y, 0, initial_header()) is Some,
        is_comment_line(c),
    ensures
        header_of(y + c + s, failed) == moved_end(header_of(y + s, failed), c.len() as int),
        ply_of(y + c + s, failed) == ply_of(y + s, failed),
{
    let st = lines_read(y, 0, initial_header())->0;
    lemma_comment_header(y, c, s, failed);
    match header_from(s, 0, st, failed) {
        HeaderEnd::Body(st2, j) => {
            lemma_body_start_after(s, 0, st, failed);
            assert(y + c + s =~= (y + c) + s);
            law_body_is_position_independent(y + c, s, j, st2.elements);
            law_body_is_position_independent(y, s, j, st2.elements);
        },
        _ => {},
    }
}

proof fn lemma_body_start_after(b: Seq<u8>, pos: int, st: HeaderState, failed: bool)
    requires
        pos >= 0,
    ensures
        header_from(b, pos, st, failed) matches HeaderEnd::Body(_, e) ==> e > pos,
    decreases b.len() - pos,
{
    if pos < b.len() {
        lemma_line_end(b, pos);
        let e = line_end(b, pos);
        match header_step(st, decode_utf8(b.subrange(pos, e))) {
            LineStep::Next(next) => {
                lemma_body_start_after(b, e, next, failed);
            },
            _ => {},
        }
    }
}

/* Records that add nothing */

/// The records of an element named neither `vertex` nor `face` are read
/// past: reading them leaves the mesh as it was.
pub proof fn law_other_records_keep_mesh(b: Seq<u8>, c: Cursor, plan: Plan, e: ElementSpec, n: nat)
    requires
        e.name != "vertex"@,
        e.name != "face"@,
    ensures
        records_read(b, c, plan, kind_of(e), n) matches Some(d) ==> d.mesh == c.mesh,
    decreases n,
{
    if n > 0 {
        law_other_records_keep_mesh(b, c, plan, e, (n - 1) as nat);
    }
}

/// The face properties after the index list are read past: a face adds
/// the same triangles to the mesh as it would without them.
pub proof fn law_face_extras_keep_mesh(b: Seq<u8>, c: Cursor, plan: Plan)
    ensures
        face_read(b, c, plan) matches Some(d) ==> (face_read(
            b,
            c,
            Plan { extras: seq![], ..plan },
        ) matches Some(d0) && d0.mesh == d.mesh && d0.pos <= d.pos),
{
    let (ct, vt) = plan.index_types;
    if c.pos + type_size(ct) <= b.len() {
        let n = count_of(scalar_at(b, c.pos, ct));
        match values_read(b, c.pos + type_size(ct), vt, n as nat) {
            Some((vals, p)) => {
                lemma_props_skipped_past(b, p, plan.extras, plan.extras.len());
            },
            None => {},
        }
    }
}

proof fn lemma_props_skipped_past(b: Seq<u8>, pos: int, props: Seq<ElementProp>, k: nat)
    ensures
        props_skipped(b, pos, props, k) matches Some(q) ==> q >= pos,
    decreases k,
{
    if k > 0 {
        lemma_props_skipped_past(b, pos, props, (k - 1) as nat);
        match props_skipped(b, pos, props, (k - 1) as nat) {
            Some(p) => {
                match props[k - 1] {
                    ElementProp::Scalar(_) => {},
                    ElementProp::List { count_type, val_type } => {
                        let n = count_of(scalar_at(b, p, count_type));
                        assert(n * type_size(val_type) >= 0) by (nonlinear_arith);
                    },
                }
            },
            None => {},
        }
    }
}

/* Elements named neither `vertex` nor `face` */

proof fn lemma_first_named_insert(els: Seq<ElementSpec>, k: int, e: ElementSpec, name: Seq<char>)
    requires
        0 <= k <= els.len(),
        e.name != name,
    ensures
        first_named(els.insert(k, e), name) == first_named(els, name),
    decreases k,
{
    let ins = els.insert(k, e);
    if k == 0 {
        assert(ins[0] == e);
        assert(ins.drop_first() =~= els);
    } else {
        assert(ins[0] == els[0]);
        assert(ins.drop_first() =~= els.drop_first().insert(k - 1, e));
        lemma_first_named_insert(els.drop_first(), k - 1, e, name);
    }
}

proof fn lemma_elements_prefix_only(
    b: Seq<u8>,
    c: Cursor,
    plan: Plan,
    els: Seq<ElementSpec>,
    els2: Seq<ElementSpec>,
    k: nat,
)
    requires
        k <= els.len(),
        k <= els2.len(),
        forall|i: int| 0 <= i < k ==> els[i] == els2[i],
    ensures
        elements_read(b, c, plan, els2, k) == elements_read(b, c, plan, els, k),
    decreases k,
{
    if k > 0 {
        lemma_elements_prefix_only(b, c, plan, els, els2, (k - 1) as nat);
        assert(els[k - 1] == els2[k - 1]);
    }
}

pub(crate) proof fn lemma_elements_split(b: Seq<u8>, c: Cursor, plan: Plan, els: Seq<ElementSpec>, k: nat, n: nat)
    requires
        k <= n <= els.len(),
    ensures
        elements_read(b, c, plan, els, n) == (match elements_read(b, c, plan, els, k) {
            Some(d) => elements_read(b, d, plan, els.skip(k as int), (n - k) as nat),
            None => None,
        }),
    decreases n,
{
    if n > k {
        lemma_elements_split(b, c, plan, els, k, (n - 1) as nat);
        assert(els.skip(k as int)[n - k - 1] == els[n - 1]);
    }
}

proof fn lemma_other_records_from(b: Seq<u8>, c: Cursor, plan: Plan, e: ElementSpec, n: nat)
    requires
        e.name != "vertex"@,
        e.name != "face"@,
    ensures
        records_read(b, c, plan, kind_of(e), n) == (match records_read(
            b,
            Cursor { pos: c.pos, mesh: empty_mesh() },
            plan,
            kind_of(e),
            n,
        ) {
            Some(d) => Some(Cursor { pos: d.pos, mesh: c.mesh }),
            None => None,
        }),
    decreases n,
{
    if n > 0 {
        lemma_other_records_from(b, c, plan, e, (n - 1) as nat);
    }
}

proof fn lemma_without_element(
    p: Seq<u8>,
    q: Seq<u8>,
    plan: Plan,
    els: Seq<ElementSpec>,
    k: nat,
    d: Cursor,
)
    requires
        k <= els.len(),
        elements_read(p, Cursor { pos: 0, mesh: empty_mesh() }, plan, els, k) == Some(d),
        d.pos == p.len(),
    ensures
        elements_read(p + q, Cursor { pos: 0, mesh: empty_mesh() }, plan, els, els.len())
            == moved_opt(
            elements_read(
                q,
                Cursor { pos: 0, mesh: d.mesh },
                plan,
                els.skip(k as int),
                (els.len() - k) as nat,
            ),
            p.len() as int,
        ),
{
    let c0 = Cursor { pos: 0, mesh: empty_mesh() };
    let dz = Cursor { pos: 0, mesh: d.mesh };
    assert(d == moved(dz, p.len() as int));
    lemma_elements_split(p + q, c0, plan, els, k, els.len());
    crate::ply_laws::lemma_elements_ext(p, q, c0, plan, els, k);
    lemma_elements_shift(p, q, dz, plan, els.skip(k as int), (els.len() - k) as nat);
}

proof fn lemma_element_records_in_place(
    p: Seq<u8>,
    r: Seq<u8>,
    q: Seq<u8>,
    plan: Plan,
    e: ElementSpec,
    d: Cursor,
)
    requires
        e.name != "vertex"@,
        e.name != "face"@,
        d.pos == p.len(),
        records_read(r, Cursor { pos: 0, mesh: empty_mesh() }, plan, kind_of(e), e.count as nat) matches Some(
            f,
        ) && f.pos == r.len(),
    ensures
        records_read(p + (r + q), d, plan, kind_of(e), e.count as nat) == Some(
            Cursor { pos: (p.len() + r.len()) as int, mesh: d.mesh },
        ),
{
    let dz = Cursor { pos: 0, mesh: d.mesh };
    assert(d == moved(dz, p.len() as int));
    lemma_records_shift(p, r + q, dz, plan, kind_of(e), e.count as nat);
    lemma_other_records_from(r, dz, plan, e, e.count as nat);
    crate::ply_laws::lemma_records_ext(r, q, dz, plan, kind_of(e), e.count as nat);
}

pub(crate) proof fn lemma_first_element(b: Seq<u8>, d: Cursor, plan: Plan, t: Seq<ElementSpec>)
    requires
        t.len() >= 1,
    ensures
        elements_read(b, d, plan, t, 1) == records_read(b, d, plan, kind_of(t[0]), t[0].count as nat),
{
    assert(elements_read(b, d, plan, t, 0) == Some(d));
}

#[verifier::spinoff_prover]
#[verifier::rlimit(40)]
proof fn lemma_records_then_rest(
    p: Seq<u8>,
    r: Seq<u8>,
    q: Seq<u8>,
    plan: Plan,
    e: ElementSpec,
    rest: Seq<ElementSpec>,
    d: Cursor,
)
    requires
        e.name != "vertex"@,
        e.name != "face"@,
        d.pos == p.len(),
        records_read(r, Cursor { pos: 0, mesh: empty_mesh() }, plan, kind_of(e), e.count as nat) matches Some(
            f,
        ) && f.pos == r.len(),
    ensures
        elements_read(p + (r + q), d, plan, seq![e] + rest, rest.len() + 1) == moved_opt(
            elements_read(q, Cursor { pos: 0, mesh: d.mesh }, plan, rest, rest.len()),
            (p.len() + r.len()) as int,
        ),
{
    let b = p + (r + q);
    let t = seq![e] + rest;
    let dz = Cursor { pos: 0, mesh: d.mesh };
    let d1 = Cursor { pos: (p.len() + r.len()) as int, mesh: d.mesh };
    assert(t.skip(1) =~= rest);
    assert(t[0] == e);
    lemma_first_element(b, d, plan, t);
    lemma_element_records_in_place(p, r, q, plan, e, d);
    lemma_elements_split(b, d, plan, t, 1, rest.len() + 1);
    assert(elements_read(b, d1, plan, rest, rest.len()) == moved_opt(
        elements_read(q, dz, plan, rest, rest.len()),
        (p.len() + r.len()) as int,
    )) by {
        assert(b =~= (p + r) + q);
        assert(d1 == moved(dz, (p + r).len() as int));
        lemma_elements_shift(p + r, q, dz, plan, rest, rest.len());
    }
}

proof fn lemma_prefix_kept(
    p: Seq<u8>,
    x: Seq<u8>,
    plan: Plan,
    els: Seq<ElementSpec>,
    els2: Seq<ElementSpec>,
    k: nat,
    d: Cursor,
)
    requires
        k <= els.len(),
        k <= els2.len(),
        forall|i: int| 0 <= i < k ==> els[i] == els2[i],
        elements_read(p, Cursor { pos: 0, mesh: empty_mesh() }, plan, els, k) == Some(d),
    ensures
        elements_read(p + x, Cursor { pos: 0, mesh: empty_mesh() }, plan, els2, k) == Some(d),
{
    let c0 = Cursor { pos: 0, mesh: empty_mesh() };
    lemma_elements_prefix_only(p + x, c0, plan, els, els2, k);
    crate::ply_laws::lemma_elements_ext(p, x, c0, plan, els, k);
}

#[verifier::spinoff_prover]
#[verifier::rlimit(40)]
proof fn lemma_with_element(
    p: Seq<u8>,
    r: Seq<u8>,
    q: Seq<u8>,
    plan: Plan,
    els: Seq<ElementSpec>,
    k: nat,
    e: ElementSpec,
    d: Cursor,
)
    requires
        k <= els.len(),
        e.name != "vertex"@,
        e.name != "face"@,
        elements_read(p, Cursor { pos: 0, mesh: empty_mesh() }, plan, els, k) == Some(d),
        d.pos == p.len(),
        records_read(r, Cursor { pos: 0, mesh: empty_mesh() }, plan, kind_of(e), e.count as nat) matches Some(
            f,
        ) && f.pos == r.len(),
    ensures
        elements_read(
            p + r + q,
            Cursor { pos: 0, mesh: empty_mesh() },
            plan,
            els.insert(k as int, e),
            els.len() + 1,
        ) == moved_opt(
            elements_read(
                q,
                Cursor { pos: 0, mesh: d.mesh },
                plan,
                els.skip(k as int),
                (els.len() - k) as nat,
            ),
            (p.len() + r.len()) as int,
        ),
{
    let c0 = Cursor { pos: 0, mesh: empty_mesh() };
    let rest = els.skip(k as int);
    let els2 = els.insert(k as int, e);
    let b2 = p + r + q;
    assert(b2 =~= p + (r + q));
    assert(b2 =~= (p + r) + q);
    assert(els2.len() == els.len() + 1);
    assert forall|i: int| 0 <= i < k implies els[i] == els2[i] by {}
    lemma_prefix_kept(p, r + q, plan, els, els2, k, d);
    lemma_elements_split(b2, c0, plan, els2, k, els.len() + 1);
    assert(els2.skip(k as int) =~= seq![e] + rest);
    lemma_records_then_rest(p, r, q, plan, e, rest, d);
}

/// Declaring an element named neither `vertex` nor `face`, with its
/// records at its place in the body, changes nothing of the mesh: `p`
/// holds the records of the first `k` elements, `r` those of `e`, and `q`
/// the rest.
pub proof fn law_other_element_inserted(
    p: Seq<u8>,
    r: Seq<u8>,
    q: Seq<u8>,
    els: Seq<ElementSpec>,
    k: nat,
    e: ElementSpec,
)
    requires
        k <= els.len(),
        e.name != "vertex"@,
        e.name != "face"@,
        elements_read(p, Cursor { pos: 0, mesh: empty_mesh() }, plan_of(els), els, k) matches Some(
            d,
        ) && d.pos == p.len(),
        records_read(
            r,
            Cursor { pos: 0, mesh: empty_mesh() },
            plan_of(els),
            kind_of(e),
            e.count as nat,
        ) matches Some(d) && d.pos == r.len(),
    ensures
        plan_of(els.insert(k as int, e)) == plan_of(els),
        body_of(p + r + q, 0, els.insert(k as int, e)) == body_of(p + q, 0, els),
{
    reveal_strlit("vertex");
    reveal_strlit("face");
    lemma_first_named_insert(els, k as int, e, "vertex"@);
    lemma_first_named_insert(els, k as int, e, "face"@);
    let d = elements_read(p, Cursor { pos: 0, mesh: empty_mesh() }, plan_of(els), els, k)->0;
    lemma_without_element(p, q, plan_of(els), els, k, d);
    lemma_with_element(p, r, q, plan_of(els), els, k, e, d);
}

/* Declaring another element in the header */

/// `st2` is `st` with `e` declared as its `k`-th element.
pub open spec fn with_element(st: HeaderState, st2: HeaderState, k: int, e: ElementSpec) -> bool {
    &&& st2.binary_le == st.binary_le
    &&& 0 <= k <= st.elements.len()
    &&& st2.elements == st.elements.insert(k, e)
}

/// Two readings of a header that end alike, the second with `e` declared
/// as the `k`-th element.
pub open spec fn ends_related(h: HeaderEnd, h2: HeaderEnd, k: int, e: ElementSpec) -> bool {
    match h {
        HeaderEnd::Body(st, p) => h2 matches HeaderEnd::Body(st2, p2) && p2 == p && with_element(
            st,
            st2,
            k,
            e,
        ),
        _ => h2 == h,
    }
}

#[verifier::spinoff_prover]
#[verifier::rlimit(40)]
proof fn lemma_step_related(st: HeaderState, st2: HeaderState, k: int, e: ElementSpec, raw: Seq<char>)
    requires
        with_element(st, st2, k, e),
        k < st.elements.len(),
    ensures
        match header_step(st, raw) {
            LineStep::Next(n) => header_step(st2, raw) matches LineStep::Next(n2) && with_element(
                n,
                n2,
                k,
                e,
            ) && k < n.elements.len(),
            other => header_step(st2, raw) == other,
        },
{
    let els = st.elements;
    let els2 = st2.elements;
    assert(els2.len() == els.len() + 1);
    assert(els2.last() == els.last());
    let line = trim(raw);
    let p = crate::text::split_ws(line);
    if p.len() >= 3 && p[0] == "element"@ {
        let ne = ElementSpec {
            name: p[1],
            count: match crate::text::parse_usize_spec(p[2]) {
                Some(n) => n,
                None => 0,
            },
            props: seq![],
        };
        assert(els2.push(ne) =~= els.push(ne).insert(k, e));
    }
    if p.len() >= 3 {
        let last = els.last();
        let pr = if p.len() >= 5 && p[1] == "list"@ {
            crate::ply_header::PropSpec {
                name: p[4],
                kind: ElementProp::List {
                    count_type: crate::ply_header::prop_type_of(p[2]),
                    val_type: crate::ply_header::prop_type_of(p[3]),
                },
            }
        } else {
            crate::ply_header::PropSpec {
                name: p[2],
                kind: ElementProp::Scalar(crate::ply_header::prop_type_of(p[1])),
            }
        };
        let nl = ElementSpec { name: last.name, count: last.count, props: last.props.push(pr) };
        assert(els2.update(els2.len() - 1, nl) =~= els.update(els.len() - 1, nl).insert(k, e));
    }
}

proof fn lemma_walk_related(
    b: Seq<u8>,
    i: int,
    st: HeaderState,
    st2: HeaderState,
    k: int,
    e: ElementSpec,
    failed: bool,
)
    requires
        with_element(st, st2, k, e),
        k < st.elements.len(),
    ensures
        ends_related(header_from(b, i, st, failed), header_from(b, i, st2, failed), k, e),
    decreases b.len() - i,
{
    if 0 <= i < b.len() {
        lemma_line_end(b, i);
        let e1 = line_end(b, i);
        let raw = decode_utf8(b.subrange(i, e1));
        lemma_step_related(st, st2, k, e, raw);
        match header_step(st, raw) {
            LineStep::Next(n) => {
                match header_step(st2, raw) {
                    LineStep::Next(n2) => {
                        lemma_walk_related(b, e1, n, n2, k, e, failed);
                    },
                    _ => {},
                }
            },
            _ => {},
        }
    }
}

/// A header line that declares an element: `element`, a name and a count.
pub open spec fn is_element_line(l: Seq<char>) -> bool {
    let t = trim(l);
    let p = crate::text::split_ws(t);
    &&& t.len() > 0
    &&& t != "end_header"@
    &&& !"comment"@.is_prefix_of(t)
    &&& !"obj_info"@.is_prefix_of(t)
    &&& p.len() >= 3
    &&& p[0] == "element"@
}

/// The first line of `s` declares an element or ends the header.
pub open spec fn opens_element_or_ends(s: Seq<u8>) -> bool {
    let l = decode_utf8(s.subrange(0, line_end(s, 0)));
    &&& s.len() > 0
    &&& s[line_end(s, 0) - 1] == 10
    &&& (is_element_line(l) || trim(l) == "end_header"@)
}

#[verifier::spinoff_prover]
#[verifier::rlimit(40)]
proof fn lemma_first_line_related(
    s: Seq<u8>,
    st: HeaderState,
    st2: HeaderState,
    e: ElementSpec,
    failed: bool,
)
    requires
        with_element(st, st2, st.elements.len() as int, e),
        opens_element_or_ends(s),
    ensures
        ends_related(
            header_from(s, 0, st, failed),
            header_from(s, 0, st2, failed),
            st.elements.len() as int,
            e,
        ),
{
    reveal_strlit("end_header");
    reveal_strlit("element");
    reveal_strlit("ply");
    reveal_strlit("format");
    lemma_line_end(s, 0);
    let e1 = line_end(s, 0);
    let l = decode_utf8(s.subrange(0, e1));
    let k = st.elements.len() as int;
    if is_element_line(l) {
        let p = crate::text::split_ws(trim(l));
        let ne = ElementSpec {
            name: p[1],
            count: match crate::text::parse_usize_spec(p[2]) {
                Some(n) => n,
                None => 0,
            },
            props: seq![],
        };
        let n = HeaderState { binary_le: st.binary_le, elements: st.elements.push(ne) };
        let n2 = HeaderState { binary_le: st2.binary_le, elements: st2.elements.push(ne) };
        assert(p[0] == "element"@);
        assert("element"@.len() == 7);
        assert("ply"@.len() == 3);
        assert(p[0] != "ply"@);
        assert(p[0] != "format"@);
        assert(trim(l) != "end_header"@);
        assert(header_step(st, l) == LineStep::Next(n));
        assert(header_step(st2, l) == LineStep::Next(n2));
        assert(n2.elements =~= n.elements.insert(k, e));
        lemma_walk_related(s, e1, n, n2, k, e, failed);
    }
}

proof fn lemma_declared_header(y: Seq<u8>, dcl: Seq<u8>, s: Seq<u8>, e: ElementSpec, failed: bool)
    requires
        lines_read(y, 0, initial_header()) is Some,
        lines_read(dcl, 0, lines_read(y, 0, initial_header())->0) matches Some(std) && with_element(
            lines_read(y, 0, initial_header())->0,
            std,
            lines_read(y, 0, initial_header())->0.elements.len() as int,
            e,
        ),
    ensures
        header_of(y + dcl + s, failed) == moved_end(
            header_from(s, 0, lines_read(dcl, 0, lines_read(y, 0, initial_header())->0)->0, failed),
            (y.len() + dcl.len()) as int,
        ),
        header_of(y + s, failed) == moved_end(
            header_from(s, 0, lines_read(y, 0, initial_header())->0, failed),
            y.len() as int,
        ),
{
    let st = lines_read(y, 0, initial_header())->0;
    let std = lines_read(dcl, 0, st)->0;
    let ds = dcl + s;
    assert(y + dcl + s =~= y + ds);
    lemma_lines_read_prefix(y, ds, 0, initial_header(), failed);
    lemma_lines_read_prefix(y, s, 0, initial_header(), failed);
    lemma_header_shift(y, ds, 0, st, failed);
    lemma_header_shift(y, s, 0, st, failed);
    assert(y.len() + 0 == y.len());
    lemma_lines_read_prefix(dcl, s, 0, st, failed);
    lemma_header_shift(dcl, s, 0, std, failed);
    assert(dcl.len() + 0 == dcl.len());
}

/// `p` holds exactly the records of the first `k` of `els`.
pub open spec fn holds_records(p: Seq<u8>, els: Seq<ElementSpec>, k: nat) -> bool {
    elements_read(p, Cursor { pos: 0, mesh: empty_mesh() }, plan_of(els), els, k) matches Some(d)
        && d.pos == p.len()
}

/// `r` holds exactly the records of `e`, an element among `els`.
pub open spec fn holds_element_records(r: Seq<u8>, els: Seq<ElementSpec>, e: ElementSpec) -> bool {
    records_read(r, Cursor { pos: 0, mesh: empty_mesh() }, plan_of(els), kind_of(e), e.count as nat) matches Some(
        f,
    ) && f.pos == r.len()
}

pub(crate) proof fn lemma_elements_grow(b: Seq<u8>, i: int, st: HeaderState, failed: bool)
    ensures
        header_from(b, i, st, failed) matches HeaderEnd::Body(st2, _) ==> st2.elements.len()
            >= st.elements.len(),
    decreases b.len() - i,
{
    if 0 <= i < b.len() {
        lemma_line_end(b, i);
        let e1 = line_end(b, i);
        match header_step(st, decode_utf8(b.subrange(i, e1))) {
            LineStep::Next(n) => {
                lemma_elements_grow(b, e1, n, failed);
            },
            _ => {},
        }
    }
}

pub(crate) proof fn lemma_opens_prefix(h: Seq<u8>, x: Seq<u8>)
    requires
        opens_element_or_ends(h),
    ensures
        opens_element_or_ends(h + x),
{
    lemma_line_end(h, 0);
    lemma_line_end_prefix(h, x, 0);
    let e1 = line_end(h, 0);
    assert((h + x).subrange(0, e1) =~= h.subrange(0, e1));
    assert((h + x)[e1 - 1] == h[e1 - 1]);
}

/// The state in which a header reading that reaches the body ends.
pub open spec fn final_state(h: HeaderEnd) -> HeaderState {
    match h {
        HeaderEnd::Body(st, _) => st,
        _ => initial_header(),
    }
}

#[verifier::spinoff_prover]
#[verifier::rlimit(40)]
proof fn lemma_header_with_declaration(
    y: Seq<u8>,
    dcl: Seq<u8>,
    h: Seq<u8>,
    x: Seq<u8>,
    e: ElementSpec,
)
    requires
        lines_read(y, 0, initial_header()) is Some,
        lines_read(dcl, 0, lines_read(y, 0, initial_header())->0) matches Some(std) && with_element(
            lines_read(y, 0, initial_header())->0,
            std,
            lines_read(y, 0, initial_header())->0.elements.len() as int,
            e,
        ),
        opens_element_or_ends(h),
        header_from(h, 0, lines_read(y, 0, initial_header())->0, false) matches HeaderEnd::Body(
            _,
            j,
        ) && j == h.len() && h[j - 1] == 10,
    ensures
        header_of(y + dcl + (h + x), false) matches HeaderEnd::Body(st2, j2) && j2 == y.len()
            + dcl.len() + h.len() && with_element(
            final_state(header_from(h, 0, lines_read(y, 0, initial_header())->0, false)),
            st2,
            lines_read(y, 0, initial_header())->0.elements.len() as int,
            e,
        ),
{
    let st = lines_read(y, 0, initial_header())->0;
    let std = lines_read(dcl, 0, st)->0;
    let s2 = h + x;
    lemma_declared_header(y, dcl, s2, e, false);
    crate::ply_laws::lemma_header_ext(h, x, 0, st);
    lemma_opens_prefix(h, x);
    lemma_first_line_related(s2, st, std, e, false);
}

proof fn lemma_header_without_declaration(y: Seq<u8>, h: Seq<u8>, x: Seq<u8>)
    requires
        lines_read(y, 0, initial_header()) is Some,
        header_from(h, 0, lines_read(y, 0, initial_header())->0, false) matches HeaderEnd::Body(
            _,
            j,
        ) && j == h.len() && h[j - 1] == 10,
    ensures
        header_of(y + (h + x), false) == HeaderEnd::Body(
            final_state(header_from(h, 0, lines_read(y, 0, initial_header())->0, false)),
            (y.len() + h.len()) as int,
        ),
{
    let st = lines_read(y, 0, initial_header())->0;
    lemma_lines_read_prefix(y, h + x, 0, initial_header(), false);
    lemma_header_shift(y, h + x, 0, st, false);
    assert(y.len() + 0 == y.len());
    crate::ply_laws::lemma_header_ext(h, x, 0, st);
}

/// Declaring, in the header, an element named neither `vertex` nor `face`
/// (the lines `dcl`, read after the complete header lines `y`, add `e` as
/// the last element so far, and the next line declares an element or ends
/// the header), with its records `r` at its place in the body, changes
/// nothing of the mesh: `h` is the rest of the header, `p` holds the
/// records of the elements declared before `e`, and `q` the rest.
#[verifier::spinoff_prover]
#[verifier::rlimit(40)]
pub proof fn law_other_element_declared(
    y: Seq<u8>,
    dcl: Seq<u8>,
    h: Seq<u8>,
    p: Seq<u8>,
    r: Seq<u8>,
    q: Seq<u8>,
    e: ElementSpec,
)
    requires
        lines_read(y, 0, initial_header()) is Some,
        lines_read(dcl, 0, lines_read(y, 0, initial_header())->0) matches Some(std) && with_element(
            lines_read(y, 0, initial_header())->0,
            std,
            lines_read(y, 0, initial_header())->0.elements.len() as int,
            e,
        ),
        e.name != "vertex"@,
        e.name != "face"@,
        opens_element_or_ends(h),
        header_from(h, 0, lines_read(y, 0, initial_header())->0, false) matches HeaderEnd::Body(
            sth,
            j,
        ) && j == h.len() && h[j - 1] == 10 && holds_records(
            p,
            sth.elements,
            lines_read(y, 0, initial_header())->0.elements.len(),
        ) && holds_element_records(r, sth.elements, e),
    ensures
        ply_of(y + dcl + h + p + r + q, false) == ply_of(y + h + p + q, false),
{
    let st = lines_read(y, 0, initial_header())->0;
    let k = st.elements.len();
    let els = final_state(header_from(h, 0, st, false)).elements;
    let a1 = y + dcl + h;
    let a2 = y + h;
    lemma_regroup(y, dcl, h, p, r, q);
    lemma_header_with_declaration(y, dcl, h, p + r + q, e);
    lemma_header_without_declaration(y, h, p + q);
    lemma_elements_grow(h, 0, st, false);
    lemma_capacity_kept(els, k, e);
    lemma_bodies_agree(a1, a2, p, r, q, els, k, e);
}

proof fn lemma_regroup(y: Seq<u8>, dcl: Seq<u8>, h: Seq<u8>, p: Seq<u8>, r: Seq<u8>, q: Seq<u8>)
    ensures
        y + dcl + h + p + r + q == (y + dcl + h) + (p + r + q),
        y + h + p + q == (y + h) + (p + q),
        y + dcl + h + p + r + q == y + dcl + (h + (p + r + q)),
        y + h + p + q == y + (h + (p + q)),
{
    assert(y + dcl + h + p + r + q =~= (y + dcl + h) + (p + r + q));
    assert(y + h + p + q =~= (y + h) + (p + q));
    assert(y + dcl + h + p + r + q =~= y + dcl + (h + (p + r + q)));
    assert(y + h + p + q =~= y + (h + (p + q)));
}

proof fn lemma_capacity_kept(els: Seq<ElementSpec>, k: nat, e: ElementSpec)
    requires
        k <= els.len(),
        e.name != "vertex"@,
        e.name != "face"@,
    ensures
        capacity_ok(els.insert(k as int, e)) == capacity_ok(els),
        plan_of(els.insert(k as int, e)) == plan_of(els),
{
    lemma_first_named_insert(els, k as int, e, "vertex"@);
    lemma_first_named_insert(els, k as int, e, "face"@);
}

proof fn lemma_bodies_agree(
    a1: Seq<u8>,
    a2: Seq<u8>,
    p: Seq<u8>,
    r: Seq<u8>,
    q: Seq<u8>,
    els: Seq<ElementSpec>,
    k: nat,
    e: ElementSpec,
)
    requires
        k <= els.len(),
        e.name != "vertex"@,
        e.name != "face"@,
        holds_records(p, els, k),
        holds_element_records(r, els, e),
    ensures
        body_of(a1 + (p + r + q), a1.len() as int, els.insert(k as int, e)) == body_of(
            a2 + (p + q),
            a2.len() as int,
            els,
        ),
{
    law_other_element_inserted(p, r, q, els, k, e);
    law_body_is_position_independent(a1, p + r + q, 0, els.insert(k as int, e));
    law_body_is_position_independent(a2, p + q, 0, els);
    assert(a1.len() + 0 == a1.len());
    assert(a2.len() + 0 == a2.len());
}
/* Extra face properties */

/// The records `rs`, one after another.
pub open spec fn joined(rs: Seq<Seq<u8>>) -> Seq<u8>
    decreases rs.len(),
{
    if rs.len() == 0 {
        seq![]
    } else {
        joined(rs.drop_last()) + rs.last()
    }
}

/// `f` is exactly one face record read with `plan`.
pub open spec fn is_face_record(f: Seq<u8>, plan: Plan) -> bool {
    face_read(f, Cursor { pos: 0, mesh: empty_mesh() }, plan) matches Some(d) && d.pos == f.len()
}

/// `x` holds exactly one value of each of `props`.
pub open spec fn holds_values(x: Seq<u8>, props: Seq<ElementProp>) -> bool {
    props_skipped(x, 0, props, props.len()) == Some(x.len() as int)
}

/// `plan` with the face properties `more` declared after its own.
pub open spec fn with_extras(plan: Plan, more: Seq<ElementProp>) -> Plan {
    Plan { extras: plan.extras + more, ..plan }
}

proof fn lemma_props_prefix_only(
    b: Seq<u8>,
    pos: int,
    props: Seq<ElementProp>,
    props2: Seq<ElementProp>,
    k: nat,
)
    requires
        k <= props.len(),
        k <= props2.len(),
        forall|i: int| 0 <= i < k ==> props[i] == props2[i],
    ensures
        props_skipped(b, pos, props2, k) == props_skipped(b, pos, props, k),
    decreases k,
{
    if k > 0 {
        lemma_props_prefix_only(b, pos, props, props2, (k - 1) as nat);
        assert(props[k - 1] == props2[k - 1]);
    }
}

proof fn lemma_props_split(b: Seq<u8>, pos: int, e1: Seq<ElementProp>, e2: Seq<ElementProp>, n: nat)
    requires
        n <= e2.len(),
    ensures
        props_skipped(b, pos, e1 + e2, e1.len() + n) == (match props_skipped(b, pos, e1, e1.len()) {
            Some(p) => props_skipped(b, p, e2, n),
            None => None,
        }),
    decreases n,
{
    if n == 0 {
        assert forall|i: int| 0 <= i < e1.len() implies e1[i] == (e1 + e2)[i] by {}
        lemma_props_prefix_only(b, pos, e1, e1 + e2, e1.len());
    } else {
        lemma_props_split(b, pos, e1, e2, (n - 1) as nat);
        assert((e1 + e2)[e1.len() + n - 1] == e2[n - 1]);
    }
}

proof fn lemma_face_mesh_free(b: Seq<u8>, c: Cursor, plan: Plan)
    ensures
        face_read(b, c, plan) == (match face_read(b, Cursor { pos: c.pos, mesh: empty_mesh() }, plan) {
            Some(d) => Some(
                Cursor {
                    pos: d.pos,
                    mesh: crate::ply_body::MeshSpec {
                        indices: c.mesh.indices + d.mesh.indices,
                        ..c.mesh
                    },
                },
            ),
            None => None,
        }),
{
    let (ct, vt) = plan.index_types;
    if c.pos + type_size(ct) <= b.len() {
        let n = count_of(scalar_at(b, c.pos, ct));
        match values_read(b, c.pos + type_size(ct), vt, n as nat) {
            Some((vals, p)) => {
                let f = crate::ply_body::fan(crate::ply_body::indices_of(vals));
                assert(Seq::<i32>::empty() + f =~= f);
            },
            None => {},
        }
    }
}

/// One face record followed by the values of more face properties reads
/// to the same mesh as the record alone, with the plan that declares them.
proof fn lemma_face_with_extras(f: Seq<u8>, x: Seq<u8>, m: crate::ply_body::MeshSpec, plan: Plan, more: Seq<ElementProp>)
    requires
        is_face_record(f, plan),
        holds_values(x, more),
    ensures
        face_read(f, Cursor { pos: 0, mesh: m }, plan) matches Some(d) && d.pos == f.len() && face_read(
            f + x,
            Cursor { pos: 0, mesh: m },
            with_extras(plan, more),
        ) == Some(Cursor { pos: (f.len() + x.len()) as int, mesh: d.mesh }),
{
    let plan1 = with_extras(plan, more);
    let c = Cursor { pos: 0, mesh: m };
    lemma_face_mesh_free(f, c, plan);
    lemma_face_mesh_free(f + x, c, plan1);
    let (ct, vt) = plan.index_types;
    crate::ply_laws::lemma_scalar_ext(f, x, 0, ct);
    let n = count_of(scalar_at(f, 0, ct));
    crate::ply_laws::lemma_values_ext(f, x, type_size(ct) as int, vt, n as nat);
    let (vals, p) = values_read(f, type_size(ct) as int, vt, n as nat)->0;
    assert(n * type_size(vt) >= 0) by (nonlinear_arith);
    lemma_props_split(f + x, p, plan.extras, more, more.len());
    crate::ply_laws::lemma_props_skipped_ext(f, x, p, plan.extras, plan.extras.len());
    lemma_props_skipped_shift(f, x, 0, more, more.len());
    assert(f.len() + 0 == f.len());
}

#[verifier::spinoff_prover]
#[verifier::rlimit(40)]
pub(crate) proof fn lemma_face_records_extras(
    fs: Seq<Seq<u8>>,
    xs: Seq<Seq<u8>>,
    m: crate::ply_body::MeshSpec,
    plan: Plan,
    more: Seq<ElementProp>,
)
    requires
        fs.len() == xs.len(),
        forall|i: int| 0 <= i < fs.len() ==> is_face_record(#[trigger] fs[i], plan),
        forall|i: int| 0 <= i < xs.len() ==> holds_values(#[trigger] xs[i], more),
    ensures
        records_read(joined(fs), Cursor { pos: 0, mesh: m }, plan, RecordKind::Face, fs.len())
            matches Some(d) && d.pos == joined(fs).len() && records_read(
            joined(Seq::new(fs.len(), |i: int| fs[i] + xs[i])),
            Cursor { pos: 0, mesh: m },
            with_extras(plan, more),
            RecordKind::Face,
            fs.len(),
        ) == Some(
            Cursor {
                pos: joined(Seq::new(fs.len(), |i: int| fs[i] + xs[i])).len() as int,
                mesh: d.mesh,
            },
        ),
    decreases fs.len(),
{
    let n = fs.len();
    let c = Cursor { pos: 0, mesh: m };
    let plan1 = with_extras(plan, more);
    let ys = Seq::new(n, |i: int| fs[i] + xs[i]);
    if n > 0 {
        let fs0 = fs.drop_last();
        let xs0 = xs.drop_last();
        let ys0 = Seq::new(fs0.len(), |i: int| fs0[i] + xs0[i]);
        assert(ys.drop_last() =~= ys0);
        assert(forall|i: int| 0 <= i < fs0.len() ==> fs0[i] == fs[i]);
        assert(forall|i: int| 0 <= i < xs0.len() ==> xs0[i] == xs[i]);
        lemma_face_records_extras(fs0, xs0, m, plan, more);
        let d0 = records_read(joined(fs0), c, plan, RecordKind::Face, fs0.len())->0;
        let a0 = joined(fs0);
        let b0 = joined(ys0);
        crate::ply_laws::lemma_records_ext(a0, fs.last(), c, plan, RecordKind::Face, fs0.len());
        crate::ply_laws::lemma_records_ext(b0, ys.last(), c, plan1, RecordKind::Face, fs0.len());
        let dz = Cursor { pos: 0, mesh: d0.mesh };
        assert(is_face_record(fs[n - 1], plan));
        assert(holds_values(xs[n - 1], more));
        lemma_face_with_extras(fs.last(), xs.last(), d0.mesh, plan, more);
        assert(ys.last() == fs.last() + xs.last());
        lemma_face_shift(a0, fs.last(), dz, plan);
        lemma_face_shift(b0, ys.last(), dz, plan1);
        assert(moved(dz, a0.len() as int) == records_read(joined(fs), c, plan, RecordKind::Face, fs0.len())->0);
        assert(moved(dz, b0.len() as int) == records_read(joined(ys), c, plan1, RecordKind::Face, fs0.len())->0);
    }
}

/// Face records followed by the values of more face properties, declared
/// after the face's own, read to the same mesh as the records alone.
pub proof fn law_face_extras_in_records(
    fs: Seq<Seq<u8>>,
    xs: Seq<Seq<u8>>,
    plan: Plan,
    more: Seq<ElementProp>,
)
    requires
        fs.len() == xs.len(),
        forall|i: int| 0 <= i < fs.len() ==> is_face_record(#[trigger] fs[i], plan),
        forall|i: int| 0 <= i < xs.len() ==> holds_values(#[trigger] xs[i], more),
    ensures
        records_read(joined(fs), Cursor { pos: 0, mesh: empty_mesh() }, plan, RecordKind::Face, fs.len())
            matches Some(d) && records_read(
            joined(Seq::new(fs.len(), |i: int| fs[i] + xs[i])),
            Cursor { pos: 0, mesh: empty_mesh() },
            with_extras(plan, more),
            RecordKind::Face,
            fs.len(),
        ) matches Some(d1) && d1.mesh == d.mesh,
{
    lemma_face_records_extras(fs, xs, empty_mesh(), plan, more);
}

} // verus!
