//! Any sequence of the edits that leave a mesh unchanged leaves it
//! unchanged: comment lines, elements named neither `vertex` nor `face`
//! with their records, and more face properties with their values.

use vstd::prelude::*;
use crate::ply::ply_of;
use crate::ply_body::{plan_of, kinds_of};
use crate::ply_edits::{
    lines_read, is_comment_line, with_element, opens_element_or_ends, holds_records,
    holds_element_records, joined, is_face_record, holds_values, law_comment_line_ignored,
    law_other_element_declared,
};
use crate::ply_face_edits::{with_more_props, no_index_names, only_face_at, law_face_props_declared};
use crate::ply_header::{HeaderEnd, ElementSpec, PropSpec, header_from, initial_header};

verus! {

/// One edit of a PLY file.
pub enum Edit {
    /// The header line `line` inserted at byte offset `at`.
    Comment { at: nat, line: Seq<u8> },
    /// The declaration lines `dcl` of the element `element` inserted after
    /// the first `y_len` bytes, and its records `records` inserted in the
    /// body after the next `h_len` bytes (the rest of the header) and
    /// `p_len` bytes (the records of the elements declared before it).
    Element { y_len: nat, dcl: Seq<u8>, h_len: nat, p_len: nat, records: Seq<u8>, element: ElementSpec },
    /// The property lines `dcl` of the properties `props` inserted after the
    /// first `y_len` bytes, which end with the face element's declaration;
    /// after the next `h_len` bytes (the rest of the header) and `p_len`
    /// bytes (the records before the face records), the face records
    /// `faces` are each followed by the corresponding `values`.
    FaceProps {
        y_len: nat,
        dcl: Seq<u8>,
        h_len: nat,
        p_len: nat,
        faces: Seq<Seq<u8>>,
        values: Seq<Seq<u8>>,
        props: Seq<PropSpec>,
    },
}

/// The file `b` with the edit `ed` made.
pub open spec fn apply(b: Seq<u8>, ed: Edit) -> Seq<u8> {
    match ed {
        Edit::Comment { at, line } => b.take(at as int) + line + b.skip(at as int),
        Edit::Element { y_len, dcl, h_len, p_len, records, element } => {
            let y = b.take(y_len as int);
            let h = b.subrange(y_len as int, (y_len + h_len) as int);
            let p = b.subrange((y_len + h_len) as int, (y_len + h_len + p_len) as int);
            let q = b.skip((y_len + h_len + p_len) as int);
            y + dcl + h + p + records + q
        },
        Edit::FaceProps { y_len, dcl, h_len, p_len, faces, values, props } => {
            let y = b.take(y_len as int);
            let h = b.subrange(y_len as int, (y_len + h_len) as int);
            let p = b.subrange((y_len + h_len) as int, (y_len + h_len + p_len) as int);
            let q = b.skip((y_len + h_len + p_len + joined(faces).len()) as int);
            y + dcl + h + p + joined(Seq::new(faces.len(), |i: int| faces[i] + values[i])) + q
        },
    }
}

/// The element declared by `dcl` after the complete header lines `y`, with
/// its records `r` after the rest of the header `h` and the records `p` of
/// the elements declared before it, is named neither `vertex` nor `face`,
/// and the line after `dcl` declares another element or ends the header.
pub open spec fn element_edit_ok(
    y: Seq<u8>,
    dcl: Seq<u8>,
    h: Seq<u8>,
    p: Seq<u8>,
    r: Seq<u8>,
    e: ElementSpec,
) -> bool {
    &&& lines_read(y, 0, initial_header()) is Some
    &&& match lines_read(dcl, 0, lines_read(y, 0, initial_header())->0) {
        Some(std) => with_element(
            lines_read(y, 0, initial_header())->0,
            std,
            lines_read(y, 0, initial_header())->0.elements.len() as int,
            e,
        ),
        None => false,
    }
    &&& e.name != "vertex"@
    &&& e.name != "face"@
    &&& opens_element_or_ends(h)
    &&& match header_from(h, 0, lines_read(y, 0, initial_header())->0, false) {
        HeaderEnd::Body(sth, j) => j == h.len() && h[j - 1] == 10 && holds_records(
            p,
            sth.elements,
            lines_read(y, 0, initial_header())->0.elements.len(),
        ) && holds_element_records(r, sth.elements, e),
        _ => false,
    }
}

/// The properties `more` declared by `dcl` for the only face element, whose
/// declaration ends the complete header lines `y`, are not named as its
/// index list; the line after `dcl` declares another element or ends the
/// header `h`; `p` holds the records before the face records `fs`, and
/// `xs` one value of each new property per face record.
pub open spec fn face_edit_ok(
    y: Seq<u8>,
    dcl: Seq<u8>,
    h: Seq<u8>,
    p: Seq<u8>,
    fs: Seq<Seq<u8>>,
    xs: Seq<Seq<u8>>,
    more: Seq<PropSpec>,
) -> bool {
    &&& lines_read(y, 0, initial_header()) is Some
    &&& lines_read(y, 0, initial_header())->0.elements.len() > 0
    &&& match lines_read(dcl, 0, lines_read(y, 0, initial_header())->0) {
        Some(std) => with_more_props(
            lines_read(y, 0, initial_header())->0,
            std,
            lines_read(y, 0, initial_header())->0.elements.len() - 1,
            more,
        ),
        None => false,
    }
    &&& no_index_names(more)
    &&& opens_element_or_ends(h)
    &&& match header_from(h, 0, lines_read(y, 0, initial_header())->0, false) {
        HeaderEnd::Body(sth, j) => j == h.len() && h[j - 1] == 10 && only_face_at(
            sth.elements,
            lines_read(y, 0, initial_header())->0.elements.len() - 1,
        ) && holds_records(
            p,
            sth.elements,
            (lines_read(y, 0, initial_header())->0.elements.len() - 1) as nat,
        ) && fs.len() == sth.elements[lines_read(y, 0, initial_header())->0.elements.len() - 1].count
            && (forall|i: int| 0 <= i < fs.len() ==> is_face_record(#[trigger] fs[i], plan_of(sth.elements))),
        _ => false,
    }
    &&& xs.len() == fs.len()
    &&& forall|i: int| 0 <= i < xs.len() ==> holds_values(#[trigger] xs[i], kinds_of(more))
}

/// The edit `ed` is one that leaves the mesh of `b` unchanged: it stands at
/// a place where the file allows it and adds what the header declares.
pub open spec fn edit_ok(b: Seq<u8>, ed: Edit) -> bool {
    match ed {
        Edit::Comment { at, line } => {
            &&& at <= b.len()
            &&& lines_read(b.take(at as int), 0, initial_header()) is Some
            &&& is_comment_line(line)
        },
        Edit::Element { y_len, dcl, h_len, p_len, records, element } => {
            &&& y_len + h_len + p_len <= b.len()
            &&& element_edit_ok(
                b.take(y_len as int),
                dcl,
                b.subrange(y_len as int, (y_len + h_len) as int),
                b.subrange((y_len + h_len) as int, (y_len + h_len + p_len) as int),
                records,
                element,
            )
        },
        Edit::FaceProps { y_len, dcl, h_len, p_len, faces, values, props } => {
            &&& y_len + h_len + p_len + joined(faces).len() <= b.len()
            &&& b.subrange((y_len + h_len + p_len) as int, (y_len + h_len + p_len + joined(faces).len()) as int)
                == joined(faces)
            &&& face_edit_ok(
                b.take(y_len as int),
                dcl,
                b.subrange(y_len as int, (y_len + h_len) as int),
                b.subrange((y_len + h_len) as int, (y_len + h_len + p_len) as int),
                faces,
                values,
                props,
            )
        },
    }
}

/// `b` with the edits `eds` made one after another.
pub open spec fn apply_all(b: Seq<u8>, eds: Seq<Edit>) -> Seq<u8>
    decreases eds.len(),
{
    if eds.len() == 0 {
        b
    } else {
        apply(apply_all(b, eds.drop_last()), eds.last())
    }
}

/// Each of the edits `eds` is allowed on the file that the edits before it
/// make of `b`.
pub open spec fn edits_ok(b: Seq<u8>, eds: Seq<Edit>) -> bool
    decreases eds.len(),
{
    if eds.len() == 0 {
        true
    } else {
        edits_ok(b, eds.drop_last()) && edit_ok(apply_all(b, eds.drop_last()), eds.last())
    }
}

proof fn lemma_comment_edit(b: Seq<u8>, at: nat, line: Seq<u8>)
    requires
        edit_ok(b, Edit::Comment { at, line }),
    ensures
        ply_of(apply(b, Edit::Comment { at, line }), false) == ply_of(b, false),
{
    let y = b.take(at as int);
    let s = b.skip(at as int);
    assert(b =~= y + s);
    law_comment_line_ignored(y, line, s, false);
}

#[verifier::spinoff_prover]
#[verifier::rlimit(40)]
proof fn lemma_element_edit(
    b: Seq<u8>,
    y_len: nat,
    dcl: Seq<u8>,
    h_len: nat,
    p_len: nat,
    records: Seq<u8>,
    element: ElementSpec,
)
    requires
        y_len + h_len + p_len <= b.len(),
        element_edit_ok(
            b.take(y_len as int),
            dcl,
            b.subrange(y_len as int, (y_len + h_len) as int),
            b.subrange((y_len + h_len) as int, (y_len + h_len + p_len) as int),
            records,
            element,
        ),
    ensures
        ply_of(apply(b, Edit::Element { y_len, dcl, h_len, p_len, records, element }), false)
            == ply_of(b, false),
{
    let y = b.take(y_len as int);
    let h = b.subrange(y_len as int, (y_len + h_len) as int);
    let p = b.subrange((y_len + h_len) as int, (y_len + h_len + p_len) as int);
    let q = b.skip((y_len + h_len + p_len) as int);
    assert(b =~= y + h + p + q);
    law_other_element_declared(y, dcl, h, p, records, q, element);
}

#[verifier::spinoff_prover]
#[verifier::rlimit(40)]
proof fn lemma_face_edit(
    b: Seq<u8>,
    y_len: nat,
    dcl: Seq<u8>,
    h_len: nat,
    p_len: nat,
    faces: Seq<Seq<u8>>,
    values: Seq<Seq<u8>>,
    props: Seq<PropSpec>,
)
    requires
        y_len + h_len + p_len + joined(faces).len() <= b.len(),
        b.subrange((y_len + h_len + p_len) as int, (y_len + h_len + p_len + joined(faces).len()) as int)
            == joined(faces),
        face_edit_ok(
            b.take(y_len as int),
            dcl,
            b.subrange(y_len as int, (y_len + h_len) as int),
            b.subrange((y_len + h_len) as int, (y_len + h_len + p_len) as int),
            faces,
            values,
            props,
        ),
    ensures
        ply_of(apply(b, Edit::FaceProps { y_len, dcl, h_len, p_len, faces, values, props }), false)
            == ply_of(b, false),
{
    let y = b.take(y_len as int);
    let h = b.subrange(y_len as int, (y_len + h_len) as int);
    let p = b.subrange((y_len + h_len) as int, (y_len + h_len + p_len) as int);
    let n0 = y_len + h_len + p_len;
    let q = b.skip((n0 + joined(faces).len()) as int);
    assert(b =~= y + h + p + joined(faces) + q);
    law_face_props_declared(y, dcl, h, p, faces, values, q, props);
}

proof fn lemma_edit_keeps_mesh(b: Seq<u8>, ed: Edit)
    requires
        edit_ok(b, ed),
    ensures
        ply_of(apply(b, ed), false) == ply_of(b, false),
{
    match ed {
        Edit::Comment { at, line } => {
            lemma_comment_edit(b, at, line);
        },
        Edit::Element { y_len, dcl, h_len, p_len, records, element } => {
            lemma_element_edit(b, y_len, dcl, h_len, p_len, records, element);
        },
        Edit::FaceProps { y_len, dcl, h_len, p_len, faces, values, props } => {
            lemma_face_edit(b, y_len, dcl, h_len, p_len, faces, values, props);
        },
    }
}

/// Comment lines, elements named neither `vertex` nor `face` with their
/// records, and more face properties with their values, added in any
/// number and order where the file allows them, leave its mesh, or the
/// reason it has none, unchanged.
pub proof fn law_edits_keep_mesh(b: Seq<u8>, eds: Seq<Edit>)
    requires
        edits_ok(b, eds),
    ensures
        ply_of(apply_all(b, eds), false) == ply_of(b, false),
    decreases eds.len(),
{
    if eds.len() > 0 {
        law_edits_keep_mesh(b, eds.drop_last());
        lemma_edit_keeps_mesh(apply_all(b, eds.drop_last()), eds.last());
    }
}

} // verus!
