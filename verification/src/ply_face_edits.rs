//! More properties declared for the face element, with their values in
//! each face record, leave the mesh unchanged.

use vstd::prelude::*;
use vstd::utf8::*;
use crate::ply::{ply_of, capacity_ok};
use crate::ply_body::{
    Cursor, Plan, RecordKind, records_read, elements_read, body_of, kind_of, plan_of, empty_mesh,
    first_named, index_list, extra_props, kinds_of, is_index_name,
};
use crate::ply_edits::{
    lines_read, opens_element_or_ends, is_element_line, joined, is_face_record, holds_values,
    with_extras, moved, moved_opt, law_body_is_position_independent,
};
use crate::ply_header::{
    HeaderEnd, HeaderState, ElementSpec, PropSpec, LineStep, header_from, header_of, header_step,
    initial_header,
};
use crate::text::{lemma_line_end, line_end, trim, split_ws, parse_usize_spec};

verus! {

/// `e` with the properties `more` declared after its own.
pub open spec fn with_props(e: ElementSpec, more: Seq<PropSpec>) -> ElementSpec {
    ElementSpec { name: e.name, count: e.count, props: e.props + more }
}

/// `st2` is `st` with the properties `more` declared after those of its
/// `k`-th element.
pub open spec fn with_more_props(st: HeaderState, st2: HeaderState, k: int, more: Seq<PropSpec>) -> bool {
    &&& st2.binary_le == st.binary_le
    &&& 0 <= k < st.elements.len()
    &&& st2.elements == st.elements.update(k, with_props(st.elements[k], more))
}

/// Two readings of a header that end alike, the second with the
/// properties `more` declared for the `k`-th element.
pub open spec fn ends_with_more(h: HeaderEnd, h2: HeaderEnd, k: int, more: Seq<PropSpec>) -> bool {
    match h {
        HeaderEnd::Body(st, p) => h2 matches HeaderEnd::Body(st2, p2) && p2 == p && with_more_props(
            st,
            st2,
            k,
            more,
        ),
        _ => h2 == h,
    }
}

#[verifier::spinoff_prover]
#[verifier::rlimit(40)]
proof fn lemma_step_more(st: HeaderState, st2: HeaderState, k: int, more: Seq<PropSpec>, raw: Seq<char>)
    requires
        with_more_props(st, st2, k, more),
        k < st.elements.len() - 1,
    ensures
        match header_step(st, raw) {
            LineStep::Next(n) => header_step(st2, raw) matches LineStep::Next(n2) && with_more_props(
                n,
                n2,
                k,
                more,
            ) && k < n.elements.len() - 1,
            other => header_step(st2, raw) == other,
        },
{
    let els = st.elements;
    let els2 = st2.elements;
    let ek = with_props(els[k], more);
    assert(els2.len() == els.len());
    assert(els2.last() == els.last());
    let line = trim(raw);
    let p = split_ws(line);
    if p.len() >= 3 && p[0] == "element"@ {
        let ne = ElementSpec {
            name: p[1],
            count: match parse_usize_spec(p[2]) {
                Some(n) => n,
                None => 0,
            },
            props: seq![],
        };
        assert(els2.push(ne) =~= els.push(ne).update(k, ek));
        assert(els.push(ne)[k] == els[k]);
    }
    if p.len() >= 3 {
        let last = els.last();
        let pr = if p.len() >= 5 && p[1] == "list"@ {
            PropSpec {
                name: p[4],
                kind: crate::ply_header::ElementProp::List {
                    count_type: crate::ply_header::prop_type_of(p[2]),
                    val_type: crate::ply_header::prop_type_of(p[3]),
                },
            }
        } else {
            PropSpec {
                name: p[2],
                kind: crate::ply_header::ElementProp::Scalar(crate::ply_header::prop_type_of(p[1])),
            }
        };
        let nl = ElementSpec { name: last.name, count: last.count, props: last.props.push(pr) };
        assert(els2.update(els2.len() - 1, nl) =~= els.update(els.len() - 1, nl).update(k, ek));
        assert(els.update(els.len() - 1, nl)[k] == els[k]);
    }
}

proof fn lemma_walk_more(
    b: Seq<u8>,
    i: int,
    st: HeaderState,
    st2: HeaderState,
    k: int,
    more: Seq<PropSpec>,
    failed: bool,
)
    requires
        with_more_props(st, st2, k, more),
        k < st.elements.len() - 1,
    ensures
        ends_with_more(header_from(b, i, st, failed), header_from(b, i, st2, failed), k, more),
    decreases b.len() - i,
{
    if 0 <= i < b.len() {
        lemma_line_end(b, i);
        let e1 = line_end(b, i);
        let raw = decode_utf8(b.subrange(i, e1));
        lemma_step_more(st, st2, k, more, raw);
        match header_step(st, raw) {
            LineStep::Next(n) => {
                match header_step(st2, raw) {
                    LineStep::Next(n2) => {
                        lemma_walk_more(b, e1, n, n2, k, more, failed);
                    },
                    _ => {},
                }
            },
            _ => {},
        }
    }
}

#[verifier::spinoff_prover]
#[verifier::rlimit(40)]
proof fn lemma_first_line_more(
    s: Seq<u8>,
    st: HeaderState,
    st2: HeaderState,
    more: Seq<PropSpec>,
    failed: bool,
)
    requires
        st.elements.len() > 0,
        with_more_props(st, st2, st.elements.len() - 1, more),
        opens_element_or_ends(s),
    ensures
        ends_with_more(
            header_from(s, 0, st, failed),
            header_from(s, 0, st2, failed),
            st.elements.len() - 1,
            more,
        ),
{
    reveal_strlit("end_header");
    reveal_strlit("element");
    reveal_strlit("ply");
    reveal_strlit("format");
    lemma_line_end(s, 0);
    let e1 = line_end(s, 0);
    let l = decode_utf8(s.subrange(0, e1));
    let k = st.elements.len() - 1;
    if is_element_line(l) {
        let p = split_ws(trim(l));
        let ne = ElementSpec {
            name: p[1],
            count: match parse_usize_spec(p[2]) {
                Some(n) => n,
                None => 0,
            },
            props: seq![],
        };
        let n = HeaderState { binary_le: st.binary_le, elements: st.elements.push(ne) };
        let n2 = HeaderState { binary_le: st2.binary_le, elements: st2.elements.push(ne) };
        assert(p[0] == "element"@);
        assert("element"@.len() == 7);
        assert("ply"@.len() == 3);
        assert(p[0] != "ply"@);
        assert(p[0] != "format"@);
        assert(trim(l) != "end_header"@);
        assert(header_step(st, l) == LineStep::Next(n));
        assert(header_step(st2, l) == LineStep::Next(n2));
        assert(n2.elements =~= n.elements.update(k, with_props(n.elements[k], more)));
        lemma_walk_more(s, e1, n, n2, k, more, failed);
    }
}

/* The plan */

/// No property of `more` is named as the face index list.
pub open spec fn no_index_names(more: Seq<PropSpec>) -> bool {
    forall|j: int| 0 <= j < more.len() ==> !is_index_name(#[trigger] more[j].name)
}

proof fn lemma_first_named_update_other(els: Seq<ElementSpec>, k: int, e2: ElementSpec, name: Seq<char>)
    requires
        0 <= k < els.len(),
        e2.name == els[k].name,
        els[k].name != name,
    ensures
        first_named(els.update(k, e2), name) == first_named(els, name),
    decreases k,
{
    let u = els.update(k, e2);
    if k > 0 {
        assert(u[0] == els[0]);
        assert(u.drop_first() =~= els.drop_first().update(k - 1, e2));
        lemma_first_named_update_other(els.drop_first(), k - 1, e2, name);
    } else {
        assert(u.drop_first() =~= els.drop_first());
    }
}

proof fn lemma_first_named_update_first(els: Seq<ElementSpec>, k: int, e2: ElementSpec, name: Seq<char>)
    requires
        0 <= k < els.len(),
        e2.name == name,
        els[k].name == name,
        forall|i: int| 0 <= i < k ==> (#[trigger] els[i]).name != name,
    ensures
        first_named(els.update(k, e2), name) == Some(e2),
    decreases k,
{
    let u = els.update(k, e2);
    if k > 0 {
        assert(u[0] == els[0]);
        assert(els[0].name != name);
        assert(u.drop_first() =~= els.drop_first().update(k - 1, e2));
        assert forall|i: int| 0 <= i < k - 1 implies (#[trigger] els.drop_first()[i]).name != name by {
            assert(els.drop_first()[i] == els[i + 1]);
        }
        lemma_first_named_update_first(els.drop_first(), k - 1, e2, name);
    }
}

proof fn lemma_index_list_none(more: Seq<PropSpec>)
    requires
        no_index_names(more),
    ensures
        index_list(more) is None,
    decreases more.len(),
{
    if more.len() > 0 {
        assert(!is_index_name(more[0].name));
        assert forall|j: int| 0 <= j < more.drop_first().len() implies !is_index_name(
            #[trigger] more.drop_first()[j].name,
        ) by {
            assert(more.drop_first()[j] == more[j + 1]);
        }
        lemma_index_list_none(more.drop_first());
    }
}

proof fn lemma_index_list_append(props: Seq<PropSpec>, more: Seq<PropSpec>)
    requires
        no_index_names(more),
    ensures
        index_list(props + more) == index_list(props),
    decreases props.len(),
{
    if props.len() == 0 {
        assert(props + more =~= more);
        lemma_index_list_none(more);
    } else {
        assert((props + more)[0] == props[0]);
        assert((props + more).drop_first() =~= props.drop_first() + more);
        lemma_index_list_append(props.drop_first(), more);
    }
}

proof fn lemma_extra_props_append(props: Seq<PropSpec>, more: Seq<PropSpec>)
    requires
        no_index_names(more),
    ensures
        extra_props(props + more) == extra_props(props) + kinds_of(more),
    decreases more.len(),
{
    if more.len() == 0 {
        assert(props + more =~= props);
        assert(extra_props(props) + kinds_of(more) =~= extra_props(props));
    } else {
        let m0 = more.drop_last();
        assert forall|j: int| 0 <= j < m0.len() implies !is_index_name(#[trigger] m0[j].name) by {
            assert(m0[j] == more[j]);
        }
        lemma_extra_props_append(props, m0);
        assert((props + more).drop_last() =~= props + m0);
        assert((props + more).last() == more.last());
        assert(!is_index_name(more[more.len() - 1].name));
        assert(kinds_of(more) =~= kinds_of(m0).push(more.last().kind));
        assert(extra_props(props) + kinds_of(more) =~= (extra_props(props) + kinds_of(m0)).push(
            more.last().kind,
        ));
    }
}

/// The only element called `face`, at index `k`.
pub open spec fn only_face_at(els: Seq<ElementSpec>, k: int) -> bool {
    &&& 0 <= k < els.len()
    &&& els[k].name == "face"@
    &&& forall|i: int| 0 <= i < els.len() && i != k ==> (#[trigger] els[i]).name != "face"@
}

/// Declaring more properties for the face element, none of them named as
/// its index list, adds their layouts to the face properties that are
/// read past, and changes nothing else of how the body is read.
pub proof fn law_face_props_plan(els: Seq<ElementSpec>, k: int, more: Seq<PropSpec>)
    requires
        only_face_at(els, k),
        no_index_names(more),
    ensures
        plan_of(els.update(k, with_props(els[k], more))) == with_extras(plan_of(els), kinds_of(more)),
{
    reveal_strlit("vertex");
    reveal_strlit("face");
    let e2 = with_props(els[k], more);
    assert forall|i: int| 0 <= i < k implies (#[trigger] els[i]).name != "face"@ by {}
    assert("face"@.len() == 4 && "vertex"@.len() == 6);
    lemma_first_named_update_other(els, k, e2, "vertex"@);
    lemma_first_named_update_first(els, k, e2, "face"@);
    lemma_first_named_update_first(els, k, els[k], "face"@);
    assert(els.update(k, els[k]) =~= els);
    lemma_index_list_append(els[k].props, more);
    lemma_extra_props_append(els[k].props, more);
}

/* The body */

proof fn lemma_records_plan_free(b: Seq<u8>, c: Cursor, plan: Plan, plan2: Plan, kind: RecordKind, n: nat)
    requires
        plan2.vprops == plan.vprops,
        !(kind is Face),
    ensures
        records_read(b, c, plan2, kind, n) == records_read(b, c, plan, kind, n),
    decreases n,
{
    if n > 0 {
        lemma_records_plan_free(b, c, plan, plan2, kind, (n - 1) as nat);
    }
}

proof fn lemma_elements_plan_free(
    b: Seq<u8>,
    c: Cursor,
    plan: Plan,
    plan2: Plan,
    els: Seq<ElementSpec>,
    els2: Seq<ElementSpec>,
    m: nat,
)
    requires
        plan2.vprops == plan.vprops,
        m <= els.len(),
        m <= els2.len(),
        forall|i: int| 0 <= i < m ==> els2[i] == els[i] && (#[trigger] els[i]).name != "face"@,
    ensures
        elements_read(b, c, plan2, els2, m) == elements_read(b, c, plan, els, m),
    decreases m,
{
    reveal_strlit("face");
    reveal_strlit("vertex");
    if m > 0 {
        lemma_elements_plan_free(b, c, plan, plan2, els, els2, (m - 1) as nat);
        let e = els[m - 1];
        assert(e.name != "face"@);
        assert(!(kind_of(e) is Face));
        match elements_read(b, c, plan, els, (m - 1) as nat) {
            Some(d) => {
                lemma_records_plan_free(b, d, plan, plan2, kind_of(e), e.count as nat);
            },
            None => {},
        }
    }
}

proof fn lemma_face_kind(e: ElementSpec)
    requires
        e.name == "face"@,
    ensures
        kind_of(e) == RecordKind::Face,
{
    reveal_strlit("face");
    reveal_strlit("vertex");
    assert("face"@.len() == 4 && "vertex"@.len() == 6);
}

proof fn lemma_face_block(
    p: Seq<u8>,
    j: Seq<u8>,
    q: Seq<u8>,
    plan: Plan,
    n: nat,
    d: Cursor,
    mj: crate::ply_body::MeshSpec,
)
    requires
        d.pos == p.len(),
        records_read(j, Cursor { pos: 0, mesh: d.mesh }, plan, RecordKind::Face, n) == Some(
            Cursor { pos: j.len() as int, mesh: mj },
        ),
    ensures
        records_read(p + (j + q), d, plan, RecordKind::Face, n) == Some(
            Cursor { pos: (p.len() + j.len()) as int, mesh: mj },
        ),
{
    let dz = Cursor { pos: 0, mesh: d.mesh };
    assert(d == moved(dz, p.len() as int));
    crate::ply_edits::lemma_records_shift(p, j + q, dz, plan, RecordKind::Face, n);
    crate::ply_laws::lemma_records_ext(j, q, dz, plan, RecordKind::Face, n);
}

proof fn lemma_rest_moved(
    p: Seq<u8>,
    j: Seq<u8>,
    q: Seq<u8>,
    plan: Plan,
    rest: Seq<ElementSpec>,
    m: nat,
    mj: crate::ply_body::MeshSpec,
)
    ensures
        elements_read(
            (p + j) + q,
            Cursor { pos: (p.len() + j.len()) as int, mesh: mj },
            plan,
            rest,
            m,
        ) == moved_opt(
            elements_read(q, Cursor { pos: 0, mesh: mj }, plan, rest, m),
            (p.len() + j.len()) as int,
        ),
{
    let mz = Cursor { pos: 0, mesh: mj };
    assert(Cursor { pos: (p.len() + j.len()) as int, mesh: mj } == moved(mz, (p + j).len() as int));
    crate::ply_edits::lemma_elements_shift(p + j, q, mz, plan, rest, m);
}

proof fn lemma_regroup3(p: Seq<u8>, j: Seq<u8>, q: Seq<u8>)
    ensures
        p + j + q == p + (j + q),
{
    assert(p + j + q =~= p + (j + q));
}

#[verifier::spinoff_prover]
#[verifier::rlimit(60)]
proof fn lemma_face_side(
    p: Seq<u8>,
    j: Seq<u8>,
    q: Seq<u8>,
    plan: Plan,
    els: Seq<ElementSpec>,
    k: nat,
    d: Cursor,
    mj: crate::ply_body::MeshSpec,
)
    requires
        k < els.len(),
        els[k as int].name == "face"@,
        elements_read(p + j + q, Cursor { pos: 0, mesh: empty_mesh() }, plan, els, k) == Some(d),
        d.pos == p.len(),
        records_read(j, Cursor { pos: 0, mesh: d.mesh }, plan, RecordKind::Face, els[k as int].count as nat)
            == Some(Cursor { pos: j.len() as int, mesh: mj }),
    ensures
        elements_read(p + j + q, Cursor { pos: 0, mesh: empty_mesh() }, plan, els, els.len())
            == moved_opt(
            elements_read(
                q,
                Cursor { pos: 0, mesh: mj },
                plan,
                els.skip(k + 1int),
                (els.len() - k - 1) as nat,
            ),
            (p.len() + j.len()) as int,
        ),
{
    let b = p + j + q;
    let c0 = Cursor { pos: 0, mesh: empty_mesh() };
    let n = els[k as int].count as nat;
    let t = els.skip(k as int);
    lemma_regroup3(p, j, q);
    crate::ply_edits::lemma_elements_split(b, c0, plan, els, k, els.len());
    assert(t[0] == els[k as int]);
    lemma_face_kind(els[k as int]);
    crate::ply_edits::lemma_first_element(b, d, plan, t);
    lemma_face_block(p, j, q, plan, n, d, mj);
    let d1 = Cursor { pos: (p.len() + j.len()) as int, mesh: mj };
    assert(elements_read(b, d, plan, t, 1) == Some(d1));
    crate::ply_edits::lemma_elements_split(b, d, plan, t, 1, (els.len() - k) as nat);
    assert(t.skip(1) =~= els.skip(k + 1int));
    lemma_rest_moved(p, j, q, plan, els.skip(k + 1int), (els.len() - k - 1) as nat, mj);
}

proof fn lemma_prefix_records(
    p: Seq<u8>,
    x: Seq<u8>,
    plan: Plan,
    plan2: Plan,
    els: Seq<ElementSpec>,
    els2: Seq<ElementSpec>,
    k: nat,
    d: Cursor,
)
    requires
        plan2.vprops == plan.vprops,
        k <= els.len(),
        k <= els2.len(),
        forall|i: int| 0 <= i < k ==> els2[i] == els[i] && (#[trigger] els[i]).name != "face"@,
        elements_read(p, Cursor { pos: 0, mesh: empty_mesh() }, plan, els, k) == Some(d),
    ensures
        elements_read(p + x, Cursor { pos: 0, mesh: empty_mesh() }, plan2, els2, k) == Some(d),
{
    let c0 = Cursor { pos: 0, mesh: empty_mesh() };
    lemma_elements_plan_free(p + x, c0, plan, plan2, els, els2, k);
    crate::ply_laws::lemma_elements_ext(p, x, c0, plan, els, k);
}

/// Face records each followed by the values of more face properties, read
/// with those properties declared for the only face element, give the
/// same mesh as the records alone: `p` holds the records of the elements
/// before the face element, and `q` those after it.
#[verifier::spinoff_prover]
#[verifier::rlimit(60)]
pub proof fn law_face_props_in_body(
    p: Seq<u8>,
    fs: Seq<Seq<u8>>,
    xs: Seq<Seq<u8>>,
    q: Seq<u8>,
    els: Seq<ElementSpec>,
    k: nat,
    more: Seq<PropSpec>,
)
    requires
        only_face_at(els, k as int),
        no_index_names(more),
        crate::ply_edits::holds_records(p, els, k),
        fs.len() == els[k as int].count,
        xs.len() == fs.len(),
        forall|i: int| 0 <= i < fs.len() ==> is_face_record(#[trigger] fs[i], plan_of(els)),
        forall|i: int| 0 <= i < xs.len() ==> holds_values(#[trigger] xs[i], kinds_of(more)),
    ensures
        body_of(
            p + joined(Seq::new(fs.len(), |i: int| fs[i] + xs[i])) + q,
            0,
            els.update(k as int, with_props(els[k as int], more)),
        ) == body_of(p + joined(fs) + q, 0, els),
{
    let plan = plan_of(els);
    let els2 = els.update(k as int, with_props(els[k as int], more));
    law_face_props_plan(els, k as int, more);
    let c0 = Cursor { pos: 0, mesh: empty_mesh() };
    let d = elements_read(p, c0, plan, els, k)->0;
    let jf = joined(fs);
    let jy = joined(Seq::new(fs.len(), |i: int| fs[i] + xs[i]));
    crate::ply_edits::lemma_face_records_extras(fs, xs, d.mesh, plan, kinds_of(more));
    let dj = records_read(jf, Cursor { pos: 0, mesh: d.mesh }, plan, RecordKind::Face, fs.len())->0;
    lemma_without_props(p, jf, q, els, k, d, dj.mesh);
    lemma_with_props(p, jy, q, els, k, more, d, dj.mesh);
}

proof fn lemma_without_props(
    p: Seq<u8>,
    j: Seq<u8>,
    q: Seq<u8>,
    els: Seq<ElementSpec>,
    k: nat,
    d: Cursor,
    mj: crate::ply_body::MeshSpec,
)
    requires
        only_face_at(els, k as int),
        elements_read(p, Cursor { pos: 0, mesh: empty_mesh() }, plan_of(els), els, k) == Some(d),
        d.pos == p.len(),
        records_read(j, Cursor { pos: 0, mesh: d.mesh }, plan_of(els), RecordKind::Face, els[k as int].count as nat)
            == Some(Cursor { pos: j.len() as int, mesh: mj }),
    ensures
        elements_read(p + j + q, Cursor { pos: 0, mesh: empty_mesh() }, plan_of(els), els, els.len())
            == moved_opt(
            elements_read(
                q,
                Cursor { pos: 0, mesh: mj },
                plan_of(els),
                els.skip(k + 1int),
                (els.len() - k - 1) as nat,
            ),
            (p.len() + j.len()) as int,
        ),
{
    let plan = plan_of(els);
    assert forall|i: int| 0 <= i < k implies els[i] == els[i] && (#[trigger] els[i]).name != "face"@ by {}
    lemma_prefix_records(p, j + q, plan, plan, els, els, k, d);
    assert(p + j + q =~= p + (j + q));
    lemma_face_side(p, j, q, plan, els, k, d, mj);
}

#[verifier::spinoff_prover]
#[verifier::rlimit(40)]
proof fn lemma_with_props(
    p: Seq<u8>,
    j: Seq<u8>,
    q: Seq<u8>,
    els: Seq<ElementSpec>,
    k: nat,
    more: Seq<PropSpec>,
    d: Cursor,
    mj: crate::ply_body::MeshSpec,
)
    requires
        only_face_at(els, k as int),
        elements_read(p, Cursor { pos: 0, mesh: empty_mesh() }, plan_of(els), els, k) == Some(d),
        d.pos == p.len(),
        plan_of(els.update(k as int, with_props(els[k as int], more))) == with_extras(
            plan_of(els),
            kinds_of(more),
        ),
        records_read(
            j,
            Cursor { pos: 0, mesh: d.mesh },
            with_extras(plan_of(els), kinds_of(more)),
            RecordKind::Face,
            els[k as int].count as nat,
        ) == Some(Cursor { pos: j.len() as int, mesh: mj }),
    ensures
        elements_read(
            p + j + q,
            Cursor { pos: 0, mesh: empty_mesh() },
            plan_of(els.update(k as int, with_props(els[k as int], more))),
            els.update(k as int, with_props(els[k as int], more)),
            els.len(),
        ) == moved_opt(
            elements_read(
                q,
                Cursor { pos: 0, mesh: mj },
                plan_of(els),
                els.skip(k + 1int),
                (els.len() - k - 1) as nat,
            ),
            (p.len() + j.len()) as int,
        ),
{
    let plan = plan_of(els);
    let els2 = els.update(k as int, with_props(els[k as int], more));
    let plan2 = with_extras(plan, kinds_of(more));
    assert forall|i: int| 0 <= i < k implies els2[i] == els[i] && (#[trigger] els[i]).name != "face"@ by {}
    lemma_prefix_records(p, j + q, plan, plan2, els, els2, k, d);
    assert(p + j + q =~= p + (j + q));
    assert(els2[k as int].name == "face"@);
    assert(els2.len() == els.len());
    lemma_face_side(p, j, q, plan2, els2, k, d, mj);
    let rest = els.skip(k + 1int);
    assert(els2.skip(k + 1int) =~= rest);
    assert forall|i: int| 0 <= i < rest.len() implies rest[i] == rest[i] && (#[trigger] rest[i]).name
        != "face"@ by {
        assert(rest[i] == els[k + 1 + i]);
    }
    lemma_elements_plan_free(q, Cursor { pos: 0, mesh: mj }, plan, plan2, rest, rest, rest.len());
}

/* The whole file */

/// The state in which a header reading that reaches the body ends.
spec fn body_state(h: HeaderEnd) -> HeaderState {
    match h {
        HeaderEnd::Body(st, _) => st,
        _ => initial_header(),
    }
}

#[verifier::spinoff_prover]
#[verifier::rlimit(40)]
proof fn lemma_header_with_props(y: Seq<u8>, dcl: Seq<u8>, h: Seq<u8>, x: Seq<u8>, more: Seq<PropSpec>)
    requires
        lines_read(y, 0, initial_header()) is Some,
        lines_read(y, 0, initial_header())->0.elements.len() > 0,
        lines_read(dcl, 0, lines_read(y, 0, initial_header())->0) matches Some(std) && with_more_props(
            lines_read(y, 0, initial_header())->0,
            std,
            lines_read(y, 0, initial_header())->0.elements.len() - 1,
            more,
        ),
        opens_element_or_ends(h),
        header_from(h, 0, lines_read(y, 0, initial_header())->0, false) matches HeaderEnd::Body(
            _,
            j,
        ) && j == h.len() && h[j - 1] == 10,
    ensures
        header_of(y + dcl + (h + x), false) matches HeaderEnd::Body(st2, j2) && j2 == y.len()
            + dcl.len() + h.len() && with_more_props(
            body_state(header_from(h, 0, lines_read(y, 0, initial_header())->0, false)),
            st2,
            lines_read(y, 0, initial_header())->0.elements.len() - 1,
            more,
        ),
{
    let st = lines_read(y, 0, initial_header())->0;
    let std = lines_read(dcl, 0, st)->0;
    let s2 = h + x;
    let ds = dcl + s2;
    assert(y + dcl + s2 =~= y + ds);
    crate::ply_edits::lemma_lines_read_prefix(y, ds, 0, initial_header(), false);
    crate::ply_edits::lemma_header_shift(y, ds, 0, st, false);
    assert(y.len() + 0 == y.len());
    crate::ply_edits::lemma_lines_read_prefix(dcl, s2, 0, st, false);
    crate::ply_edits::lemma_header_shift(dcl, s2, 0, std, false);
    assert(dcl.len() + 0 == dcl.len());
    crate::ply_laws::lemma_header_ext(h, x, 0, st);
    crate::ply_edits::lemma_opens_prefix(h, x);
    lemma_first_line_more(s2, st, std, more, false);
}

proof fn lemma_header_plain(y: Seq<u8>, h: Seq<u8>, x: Seq<u8>)
    requires
        lines_read(y, 0, initial_header()) is Some,
        header_from(h, 0, lines_read(y, 0, initial_header())->0, false) matches HeaderEnd::Body(
            _,
            j,
        ) && j == h.len() && h[j - 1] == 10,
    ensures
        header_of(y + (h + x), false) == HeaderEnd::Body(
            body_state(header_from(h, 0, lines_read(y, 0, initial_header())->0, false)),
            (y.len() + h.len()) as int,
        ),
{
    let st = lines_read(y, 0, initial_header())->0;
    crate::ply_edits::lemma_lines_read_prefix(y, h + x, 0, initial_header(), false);
    crate::ply_edits::lemma_header_shift(y, h + x, 0, st, false);
    assert(y.len() + 0 == y.len());
    crate::ply_laws::lemma_header_ext(h, x, 0, st);
}

proof fn lemma_face_capacity(els: Seq<ElementSpec>, k: int, more: Seq<PropSpec>)
    requires
        only_face_at(els, k),
    ensures
        capacity_ok(els.update(k, with_props(els[k], more))) == capacity_ok(els),
{
    reveal_strlit("vertex");
    reveal_strlit("face");
    let e2 = with_props(els[k], more);
    assert forall|i: int| 0 <= i < k implies (#[trigger] els[i]).name != "face"@ by {}
    assert("face"@.len() == 4 && "vertex"@.len() == 6);
    lemma_first_named_update_other(els, k, e2, "vertex"@);
    lemma_first_named_update_first(els, k, e2, "face"@);
    lemma_first_named_update_first(els, k, els[k], "face"@);
    assert(els.update(k, els[k]) =~= els);
}

proof fn lemma_face_bodies_agree(
    a1: Seq<u8>,
    a2: Seq<u8>,
    p: Seq<u8>,
    fs: Seq<Seq<u8>>,
    xs: Seq<Seq<u8>>,
    q: Seq<u8>,
    els: Seq<ElementSpec>,
    k: nat,
    more: Seq<PropSpec>,
)
    requires
        only_face_at(els, k as int),
        no_index_names(more),
        crate::ply_edits::holds_records(p, els, k),
        fs.len() == els[k as int].count,
        xs.len() == fs.len(),
        forall|i: int| 0 <= i < fs.len() ==> is_face_record(#[trigger] fs[i], plan_of(els)),
        forall|i: int| 0 <= i < xs.len() ==> holds_values(#[trigger] xs[i], kinds_of(more)),
    ensures
        body_of(
            a1 + (p + joined(Seq::new(fs.len(), |i: int| fs[i] + xs[i])) + q),
            a1.len() as int,
            els.update(k as int, with_props(els[k as int], more)),
        ) == body_of(a2 + (p + joined(fs) + q), a2.len() as int, els),
{
    law_face_props_in_body(p, fs, xs, q, els, k, more);
    law_body_is_position_independent(
        a1,
        p + joined(Seq::new(fs.len(), |i: int| fs[i] + xs[i])) + q,
        0,
        els.update(k as int, with_props(els[k as int], more)),
    );
    law_body_is_position_independent(a2, p + joined(fs) + q, 0, els);
    assert(a1.len() + 0 == a1.len());
    assert(a2.len() + 0 == a2.len());
}

proof fn lemma_regroup_face(y: Seq<u8>, dcl: Seq<u8>, h: Seq<u8>, p: Seq<u8>, j: Seq<u8>, q: Seq<u8>)
    ensures
        y + dcl + h + p + j + q == (y + dcl + h) + (p + j + q),
        y + dcl + h + p + j + q == y + dcl + (h + (p + j + q)),
        y + h + p + j + q == (y + h) + (p + j + q),
        y + h + p + j + q == y + (h + (p + j + q)),
{
    assert(y + dcl + h + p + j + q =~= (y + dcl + h) + (p + j + q));
    assert(y + dcl + h + p + j + q =~= y + dcl + (h + (p + j + q)));
    assert(y + h + p + j + q =~= (y + h) + (p + j + q));
    assert(y + h + p + j + q =~= y + (h + (p + j + q)));
}

/// Declaring more properties for the face element, after its own (the
/// lines `dcl`, read after the complete header lines `y` that end with the
/// face element's declaration, none of them named as the index list; the
/// next line declares an element or ends the header), with their values
/// after each face record, changes nothing of the mesh. `h` is the rest of
/// the header, the face element is the only one, `p` holds the records of
/// the elements before it, `fs` its records, `xs` the values of the new
/// properties for each of them, and `q` the records after it.
#[verifier::spinoff_prover]
#[verifier::rlimit(40)]
pub proof fn law_face_props_declared(
    y: Seq<u8>,
    dcl: Seq<u8>,
    h: Seq<u8>,
    p: Seq<u8>,
    fs: Seq<Seq<u8>>,
    xs: Seq<Seq<u8>>,
    q: Seq<u8>,
    more: Seq<PropSpec>,
)
    requires
        lines_read(y, 0, initial_header()) is Some,
        lines_read(y, 0, initial_header())->0.elements.len() > 0,
        lines_read(dcl, 0, lines_read(y, 0, initial_header())->0) matches Some(std) && with_more_props(
            lines_read(y, 0, initial_header())->0,
            std,
            lines_read(y, 0, initial_header())->0.elements.len() - 1,
            more,
        ),
        no_index_names(more),
        opens_element_or_ends(h),
        header_from(h, 0, lines_read(y, 0, initial_header())->0, false) matches HeaderEnd::Body(
            sth,
            j,
        ) && j == h.len() && h[j - 1] == 10 && only_face_at(
            sth.elements,
            lines_read(y, 0, initial_header())->0.elements.len() - 1,
        ) && crate::ply_edits::holds_records(
            p,
            sth.elements,
            (lines_read(y, 0, initial_header())->0.elements.len() - 1) as nat,
        ) && fs.len() == sth.elements[lines_read(y, 0, initial_header())->0.elements.len() - 1].count
            && (forall|i: int| 0 <= i < fs.len() ==> is_face_record(#[trigger] fs[i], plan_of(sth.elements))),
        xs.len() == fs.len(),
        forall|i: int| 0 <= i < xs.len() ==> holds_values(#[trigger] xs[i], kinds_of(more)),
    ensures
        ply_of(y + dcl + h + p + joined(Seq::new(fs.len(), |i: int| fs[i] + xs[i])) + q, false)
            == ply_of(y + h + p + joined(fs) + q, false),
{
    let st = lines_read(y, 0, initial_header())->0;
    let k = (st.elements.len() - 1) as nat;
    let els = body_state(header_from(h, 0, st, false)).elements;
    let jy = joined(Seq::new(fs.len(), |i: int| fs[i] + xs[i]));
    let jf = joined(fs);
    lemma_regroup_face(y, dcl, h, p, jy, q);
    lemma_regroup_face(y, dcl, h, p, jf, q);
    lemma_header_with_props(y, dcl, h, p + jy + q, more);
    lemma_header_plain(y, h, p + jf + q);
    lemma_face_capacity(els, k as int, more);
    lemma_face_bodies_agree(y + dcl + h, y + h, p, fs, xs, q, els, k, more);
}

} // verus!
