//! The header of a PLY file: its line-by-line reading into element and
//! property declarations.

use vstd::prelude::*;
use vstd::utf8::*;
use crate::scalar::PropType;
use crate::text::{
    chars_eq, lemma_line_end, line_end, parse_usize, parse_usize_spec, split_whitespace, split_ws,
    starts_with, trim, trim_chars, utf8_chars, words_view, find_line_end,
};

verus! {

/// How a declared property is stored in the body.
#[derive(Clone, Copy, Debug, PartialEq, Eq, Structural)]
pub enum ElementProp {
    Scalar(PropType),
    List { count_type: PropType, val_type: PropType },
}

/// A `property` line: its name and layout.
#[derive(Debug)]
pub struct PropDef {
    pub name: Vec<char>,
    pub kind: ElementProp,
}

/// An `element` line with the properties declared under it.
#[derive(Debug)]
pub struct ElementDef {
    pub name: Vec<char>,
    pub count: usize,
    pub props: Vec<PropDef>,
}

/// The mathematical value of a property declaration.
pub struct PropSpec {
    pub name: Seq<char>,
    pub kind: ElementProp,
}

/// The mathematical value of an element declaration.
pub struct ElementSpec {
    pub name: Seq<char>,
    pub count: usize,
    pub props: Seq<PropSpec>,
}

impl View for PropDef {
    type V = PropSpec;

    open spec fn view(&self) -> PropSpec {
        PropSpec { name: self.name@, kind: self.kind }
    }
}

pub open spec fn props_view(v: Seq<PropDef>) -> Seq<PropSpec> {
    v.map_values(|p: PropDef| p@)
}

impl View for ElementDef {
    type V = ElementSpec;

    open spec fn view(&self) -> ElementSpec {
        ElementSpec { name: self.name@, count: self.count, props: props_view(self.props@) }
    }
}

pub open spec fn elements_view(v: Seq<ElementDef>) -> Seq<ElementSpec> {
    v.map_values(|e: ElementDef| e@)
}

/// What has been read of a header so far.
pub struct HeaderState {
    pub binary_le: bool,
    pub elements: Seq<ElementSpec>,
}

/// The state before the first header line.
pub open spec fn initial_header() -> HeaderState {
    HeaderState { binary_le: false, elements: seq![] }
}

/// The outcome of one header line.
pub enum LineStep {
    /// Go on with the next line in this state.
    Next(HeaderState),
    /// The line is `end_header`.
    End,
    /// The line declares a format other than binary little-endian; the
    /// word after `format`, if any.
    Reject(Option<Seq<char>>),
}

/// Whether `w` names one of the property types of the PLY format.
pub open spec fn known_type(w: Seq<char>) -> bool {
    ||| w == "float"@ || w == "float32"@
    ||| w == "double"@ || w == "float64"@
    ||| w == "uchar"@ || w == "uint8"@
    ||| w == "int"@ || w == "int32"@
    ||| w == "uint"@ || w == "uint32"@
    ||| w == "short"@ || w == "int16"@
    ||| w == "ushort"@ || w == "uint16"@
}

/// `w` if it names no property type: what a warning reports.
pub open spec fn unknown_type(w: Seq<char>) -> Seq<Seq<char>> {
    if known_type(w) {
        seq![]
    } else {
        seq![w]
    }
}

/// The property type that a type name denotes; unknown names read as `Float`.
pub open spec fn prop_type_of(w: Seq<char>) -> PropType {
    if w == "float"@ || w == "float32"@ {
        PropType::Float
    } else if w == "double"@ || w == "float64"@ {
        PropType::Double
    } else if w == "uchar"@ || w == "uint8"@ {
        PropType::Uchar
    } else if w == "int"@ || w == "int32"@ {
        PropType::Int
    } else if w == "uint"@ || w == "uint32"@ {
        PropType::UInt
    } else if w == "short"@ || w == "int16"@ {
        PropType::Short
    } else if w == "ushort"@ || w == "uint16"@ {
        PropType::UShort
    } else {
        PropType::Float
    }
}

/// `st` with `p` added to the properties of its last element.
pub open spec fn add_prop(st: HeaderState, p: PropSpec) -> HeaderState {
    let last = st.elements.last();
    HeaderState {
        binary_le: st.binary_le,
        elements: st.elements.update(
            st.elements.len() - 1,
            ElementSpec { name: last.name, count: last.count, props: last.props.push(p) },
        ),
    }
}

/// The effect of the header line `raw` (with its line break) in state `st`.
pub open spec fn header_step(st: HeaderState, raw: Seq<char>) -> LineStep {
    let line = trim(raw);
    if line == "end_header"@ {
        LineStep::End
    } else if line.len() == 0 || "comment"@.is_prefix_of(line) || "obj_info"@.is_prefix_of(line) {
        LineStep::Next(st)
    } else {
        let p = split_ws(line);
        if p.len() == 0 || p[0] == "ply"@ {
            LineStep::Next(st)
        } else if p[0] == "format"@ {
            if p.len() > 1 && p[1] == "binary_little_endian"@ {
                LineStep::Next(HeaderState { binary_le: true, elements: st.elements })
            } else {
                LineStep::Reject(if p.len() > 1 { Some(p[1]) } else { None })
            }
        } else if p[0] == "element"@ && p.len() >= 3 {
            let count = match parse_usize_spec(p[2]) {
                Some(n) => n,
                None => 0,
            };
            LineStep::Next(
                HeaderState {
                    binary_le: st.binary_le,
                    elements: st.elements.push(
                        ElementSpec { name: p[1], count: count, props: seq![] },
                    ),
                },
            )
        } else if p[0] == "property"@ && st.elements.len() > 0 {
            if p.len() >= 5 && p[1] == "list"@ {
                LineStep::Next(
                    add_prop(
                        st,
                        PropSpec {
                            name: p[4],
                            kind: ElementProp::List {
                                count_type: prop_type_of(p[2]),
                                val_type: prop_type_of(p[3]),
                            },
                        },
                    ),
                )
            } else if p.len() >= 3 {
                LineStep::Next(
                    add_prop(st, PropSpec { name: p[2], kind: ElementProp::Scalar(prop_type_of(p[1])) }),
                )
            } else {
                LineStep::Next(st)
            }
        } else {
            LineStep::Next(st)
        }
    }
}

/// The unknown type names that the header line `raw` declares a property
/// with, in state `st`, in the order they are read (each reads as `Float`).
pub open spec fn line_warnings(st: HeaderState, raw: Seq<char>) -> Seq<Seq<char>> {
    let line = trim(raw);
    let p = split_ws(line);
    if line == "end_header"@ || line.len() == 0 || "comment"@.is_prefix_of(line)
        || "obj_info"@.is_prefix_of(line) {
        seq![]
    } else if p.len() > 0 && p[0] == "property"@ && st.elements.len() > 0 {
        if p.len() >= 5 && p[1] == "list"@ {
            unknown_type(p[2]) + unknown_type(p[3])
        } else if p.len() >= 3 {
            unknown_type(p[1])
        } else {
            seq![]
        }
    } else {
        seq![]
    }
}

/// How the reading of a header ends.
pub enum HeaderEnd {
    /// `end_header` was read in a binary little-endian header; the body
    /// starts at the given byte offset.
    Body(HeaderState, int),
    /// The bytes ran out before `end_header`.
    Eof,
    /// `end_header` was read and no `format` line came before it.
    NoFormat,
    /// A `format` line declares another format; the word after `format`,
    /// if any.
    WrongFormat(Option<Seq<char>>),
    /// A header line is not valid UTF-8.
    BadText,
    /// Reading stopped on an error while a header line was still being read.
    ReadFailed,
}

/// Reads header lines from byte offset `pos` on, in state `st`. `b` holds
/// the bytes that could be read; `failed` tells whether reading them stopped
/// on an error, which then surfaces as soon as a line needs more bytes: a
/// last line without its `\n`, or a line after the last one.
pub open spec fn header_from(b: Seq<u8>, pos: int, st: HeaderState, failed: bool) -> HeaderEnd
    decreases b.len() - pos,
{
    if pos < 0 || pos >= b.len() {
        if failed {
            HeaderEnd::ReadFailed
        } else {
            HeaderEnd::Eof
        }
    } else {
        let e = line_end(b, pos);
        proof {
            lemma_line_end(b, pos);
        }
        let raw = b.subrange(pos, e);
        if failed && b[e - 1] != 10 {
            HeaderEnd::ReadFailed
        } else if !valid_utf8(raw) {
            HeaderEnd::BadText
        } else {
            match header_step(st, decode_utf8(raw)) {
                LineStep::End => if st.binary_le {
                    HeaderEnd::Body(st, e)
                } else {
                    HeaderEnd::NoFormat
                },
                LineStep::Reject(w) => HeaderEnd::WrongFormat(w),
                LineStep::Next(next) => header_from(b, e, next, failed),
            }
        }
    }
}

/// The reading of the header at the start of `b`.
pub open spec fn header_of(b: Seq<u8>, failed: bool) -> HeaderEnd {
    header_from(b, 0, initial_header(), failed)
}

/// The unknown type names met while reading header lines from `pos` on,
/// in state `st`, line by line, up to the line where reading stops.
pub open spec fn warnings_from(b: Seq<u8>, pos: int, st: HeaderState, failed: bool) -> Seq<Seq<char>>
    decreases b.len() - pos,
{
    if pos < 0 || pos >= b.len() {
        seq![]
    } else {
        let e = line_end(b, pos);
        proof {
            lemma_line_end(b, pos);
        }
        let raw = b.subrange(pos, e);
        if failed && b[e - 1] != 10 {
            seq![]
        } else if !valid_utf8(raw) {
            seq![]
        } else {
            let w = line_warnings(st, decode_utf8(raw));
            match header_step(st, decode_utf8(raw)) {
                LineStep::Next(next) => w + warnings_from(b, e, next, failed),
                _ => w,
            }
        }
    }
}

/// The unknown type names met in the header at the start of `b`.
pub open spec fn header_warnings(b: Seq<u8>, failed: bool) -> Seq<Seq<char>> {
    warnings_from(b, 0, initial_header(), failed)
}

/// Whether `s` names one of the property types of the PLY format.
pub fn is_known_prop_type(s: &[char]) -> (r: bool)
    ensures
        r == known_type(s@),
{
    chars_eq(s, "float") || chars_eq(s, "float32") || chars_eq(s, "double") || chars_eq(
        s,
        "float64",
    ) || chars_eq(s, "uchar") || chars_eq(s, "uint8") || chars_eq(s, "int") || chars_eq(s, "int32")
        || chars_eq(s, "uint") || chars_eq(s, "uint32") || chars_eq(s, "short") || chars_eq(
        s,
        "int16",
    ) || chars_eq(s, "ushort") || chars_eq(s, "uint16")
}

/// Appends `w` to `warnings` if it names no property type.
fn note_type(w: &Vec<char>, warnings: &mut Vec<Vec<char>>)
    ensures
        words_view(final(warnings)@) == words_view(old(warnings)@) + unknown_type(w@),
{
    let ghost before = warnings@;
    if !is_known_prop_type(w.as_slice()) {
        warnings.push(copy_chars(w));
        assert(words_view(warnings@) =~= words_view(before) + unknown_type(w@));
    } else {
        assert(words_view(warnings@) =~= words_view(before) + unknown_type(w@));
    }
}

/// Maps a PLY type name to its property type (unknown names read as `Float`).
pub fn parse_prop_type(s: &[char]) -> (t: PropType)
    ensures
        t == prop_type_of(s@),
{
    if chars_eq(s, "float") || chars_eq(s, "float32") {
        PropType::Float
    } else if chars_eq(s, "double") || chars_eq(s, "float64") {
        PropType::Double
    } else if chars_eq(s, "uchar") || chars_eq(s, "uint8") {
        PropType::Uchar
    } else if chars_eq(s, "int") || chars_eq(s, "int32") {
        PropType::Int
    } else if chars_eq(s, "uint") || chars_eq(s, "uint32") {
        PropType::UInt
    } else if chars_eq(s, "short") || chars_eq(s, "int16") {
        PropType::Short
    } else if chars_eq(s, "ushort") || chars_eq(s, "uint16") {
        PropType::UShort
    } else {
        PropType::Float
    }
}

fn copy_chars(s: &Vec<char>) -> (t: Vec<char>)
    ensures
        t@ == s@,
{
    let mut t: Vec<char> = Vec::new();
    let mut i: usize = 0;
    while i < s.len()
        invariant
            i <= s@.len(),
            t@ == s@.subrange(0, i as int),
        decreases s@.len() - i,
    {
        t.push(s[i]);
        assert(t@ =~= s@.subrange(0, i + 1));
        i = i + 1;
    }
    assert(t@ =~= s@);
    t
}

/// The exec outcome of one header line.
pub enum LineOutcome {
    Next,
    End,
    Reject(Option<Vec<char>>),
}

/// The characters of an optional word.
pub open spec fn word_opt(w: Option<Vec<char>>) -> Option<Seq<char>> {
    match w {
        Some(v) => Some(v@),
        None => None,
    }
}

/// Header reading state: the `format` seen so far and the declared elements.
pub struct HeaderReader {
    pub binary_le: bool,
    pub elements: Vec<ElementDef>,
}

impl View for HeaderReader {
    type V = HeaderState;

    open spec fn view(&self) -> HeaderState {
        HeaderState { binary_le: self.binary_le, elements: elements_view(self.elements@) }
    }
}

impl HeaderReader {
    /// Adds a property to the last declared element.
    fn push_prop(&mut self, p: PropDef)
        requires
            old(self).elements@.len() > 0,
        ensures
            final(self)@ == add_prop(old(self)@, p@),
    {
        let ghost old_els = self.elements@;
        match self.elements.pop() {
            Some(mut last) => {
                let ghost old_props = last.props@;
                last.props.push(p);
                assert(props_view(last.props@) =~= props_view(old_props).push(p@));
                self.elements.push(last);
                assert(elements_view(self.elements@) =~= elements_view(old_els).update(
                    old_els.len() - 1,
                    ElementSpec {
                        name: old_els.last().name@,
                        count: old_els.last().count,
                        props: props_view(old_els.last().props@).push(p@),
                    },
                ));
            },
            None => {},
        }
    }

    /// Applies one header line (its characters, line break included), and
    /// appends to `warnings` the unknown type names that it declares.
    pub fn step(&mut self, raw: &Vec<char>, warnings: &mut Vec<Vec<char>>) -> (r: LineOutcome)
        ensures
            match header_step(old(self)@, raw@) {
                LineStep::Next(st) => r is Next && final(self)@ == st,
                LineStep::End => r is End && final(self)@ == old(self)@,
                LineStep::Reject(w) => r matches LineOutcome::Reject(v) && word_opt(v) == w,
            },
            words_view(final(warnings)@) == words_view(old(warnings)@) + line_warnings(
                old(self)@,
                raw@,
            ),
    {
        let ghost w0 = warnings@;
        proof {
            reveal_strlit("ply");
            reveal_strlit("format");
            reveal_strlit("element");
            reveal_strlit("property");
        }
        let line = trim_chars(raw);
        if chars_eq(line.as_slice(), "end_header") {
            assert(words_view(w0) + line_warnings(old(self)@, raw@) =~= words_view(w0));
            return LineOutcome::End;
        }
        if line.len() == 0 || starts_with(line.as_slice(), "comment") || starts_with(
            line.as_slice(),
            "obj_info",
        ) {
            assert(words_view(w0) + line_warnings(old(self)@, raw@) =~= words_view(w0));
            return LineOutcome::Next;
        }
        let p = split_whitespace(&line);
        proof {
            assert(forall|i: int| 0 <= i < p@.len() ==> words_view(p@)[i] == #[trigger] p@[i]@);
        }
        if p.len() == 0 || chars_eq(p[0].as_slice(), "ply") {
            assert(words_view(w0) + line_warnings(old(self)@, raw@) =~= words_view(w0));
            return LineOutcome::Next;
        }
        if chars_eq(p[0].as_slice(), "format") {
            assert(words_view(w0) + line_warnings(old(self)@, raw@) =~= words_view(w0));
            if p.len() > 1 && chars_eq(p[1].as_slice(), "binary_little_endian") {
                self.binary_le = true;
                return LineOutcome::Next;
            }
            let word = if p.len() > 1 {
                Some(copy_chars(&p[1]))
            } else {
                None
            };
            return LineOutcome::Reject(word);
        }
        if chars_eq(p[0].as_slice(), "element") && p.len() >= 3 {
            assert(words_view(w0) + line_warnings(old(self)@, raw@) =~= words_view(w0));
            let count = match parse_usize(p[2].as_slice()) {
                Some(n) => n,
                None => 0,
            };
            let ghost old_els = self.elements@;
            let e = ElementDef { name: copy_chars(&p[1]), count, props: Vec::new() };
            assert(props_view(e.props@) =~= seq![]);
            self.elements.push(e);
            assert(elements_view(self.elements@) =~= elements_view(old_els).push(e@));
            return LineOutcome::Next;
        }
        if chars_eq(p[0].as_slice(), "property") && self.elements.len() > 0 {
            if p.len() >= 5 && chars_eq(p[1].as_slice(), "list") {
                note_type(&p[2], warnings);
                note_type(&p[3], warnings);
                assert(words_view(w0) + line_warnings(old(self)@, raw@) =~= words_view(w0)
                    + unknown_type(p@[2]@) + unknown_type(p@[3]@));
                let kind = ElementProp::List {
                    count_type: parse_prop_type(p[2].as_slice()),
                    val_type: parse_prop_type(p[3].as_slice()),
                };
                self.push_prop(PropDef { name: copy_chars(&p[4]), kind });
            } else if p.len() >= 3 {
                note_type(&p[1], warnings);
                let kind = ElementProp::Scalar(parse_prop_type(p[1].as_slice()));
                self.push_prop(PropDef { name: copy_chars(&p[2]), kind });
            } else {
                assert(words_view(w0) + line_warnings(old(self)@, raw@) =~= words_view(w0));
            }
            return LineOutcome::Next;
        }
        assert(words_view(w0) + line_warnings(old(self)@, raw@) =~= words_view(w0));
        LineOutcome::Next
    }
}

/// The outcome of reading a header.
#[derive(Debug)]
pub enum HeaderResult {
    /// The declared elements, and the byte offset at which the body starts.
    Body(Vec<ElementDef>, usize),
    Eof,
    NoFormat,
    WrongFormat(Option<Vec<char>>),
    BadText,
    ReadFailed,
}

/// Reads the header at the start of `b`; `failed` tells whether reading the
/// bytes stopped on an error. The unknown type names met on the way are
/// appended to `warnings`.
pub fn read_header(b: &[u8], failed: bool, warnings: &mut Vec<Vec<char>>) -> (r: HeaderResult)
    ensures
        match header_of(b@, failed) {
            HeaderEnd::Body(st, start) => r matches HeaderResult::Body(els, p) && elements_view(
                els@,
            ) == st.elements && p == start,
            HeaderEnd::Eof => r is Eof,
            HeaderEnd::NoFormat => r is NoFormat,
            HeaderEnd::WrongFormat(w) => r matches HeaderResult::WrongFormat(v) && word_opt(v) == w,
            HeaderEnd::BadText => r is BadText,
            HeaderEnd::ReadFailed => r is ReadFailed,
        },
        words_view(final(warnings)@) == words_view(old(warnings)@) + header_warnings(b@, failed),
{
    let len = b.len();
    let mut rd = HeaderReader { binary_le: false, elements: Vec::new() };
    let mut pos: usize = 0;
    assert(rd@ == initial_header()) by {
        assert(elements_view(rd.elements@) =~= seq![]);
    }
    loop
        invariant
            len == b@.len(),
            pos <= len,
            header_of(b@, failed) == header_from(b@, pos as int, rd@, failed),
            words_view(old(warnings)@) + header_warnings(b@, failed) == words_view(warnings@)
                + warnings_from(b@, pos as int, rd@, failed),
        decreases len - pos,
    {
        if pos >= len {
            assert(words_view(warnings@) + warnings_from(b@, pos as int, rd@, failed) =~= words_view(
                warnings@,
            ));
            if failed {
                return HeaderResult::ReadFailed;
            }
            return HeaderResult::Eof;
        }
        let e = find_line_end(b, pos);
        proof {
            lemma_line_end(b@, pos as int);
        }
        if failed && b[e - 1] != 10 {
            assert(words_view(warnings@) + warnings_from(b@, pos as int, rd@, failed) =~= words_view(
                warnings@,
            ));
            return HeaderResult::ReadFailed;
        }
        let raw = &b[pos..e];
        let chars = match utf8_chars(raw) {
            Some(c) => c,
            None => {
                assert(words_view(warnings@) + warnings_from(b@, pos as int, rd@, failed)
                    =~= words_view(warnings@));
                return HeaderResult::BadText;
            },
        };
        let ghost before = rd@;
        let ghost wbefore = words_view(warnings@);
        let ghost lw = line_warnings(before, chars@);
        match rd.step(&chars, warnings) {
            LineOutcome::End => {
                assert(wbefore + lw =~= words_view(warnings@));
                if rd.binary_le {
                    return HeaderResult::Body(rd.elements, e);
                } else {
                    return HeaderResult::NoFormat;
                }
            },
            LineOutcome::Reject(w) => {
                assert(wbefore + lw =~= words_view(warnings@));
                return HeaderResult::WrongFormat(w);
            },
            LineOutcome::Next => {
                assert(wbefore + (lw + warnings_from(b@, e as int, rd@, failed)) =~= words_view(
                    warnings@,
                ) + warnings_from(b@, e as int, rd@, failed));
                pos = e;
            },
        }
    }
}

} // verus!
