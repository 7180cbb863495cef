//! Meshes, their mathematical model, and the rules by which text becomes one.
use vstd::prelude::*;
use crate::number::{is_float_text, resolve_spec, IndexResolution};
use crate::text::{first_field, last_field, line_end, lemma_line_end_bounds, tokens};

verus! {

/// A point or direction as written in the source: the text of its three
/// coordinates, each a valid floating-point number. The consumer turns the
/// text into `f32` values.
#[derive(Debug, PartialEq, Eq)]
pub struct Point {
    pub x: Vec<u8>,
    pub y: Vec<u8>,
    pub z: Vec<u8>,
}

/// The coordinate texts of a point.
pub type PointText = (Seq<u8>, Seq<u8>, Seq<u8>);

impl View for Point {
    type V = PointText;

    open spec fn view(&self) -> PointText {
        (self.x@, self.y@, self.z@)
    }
}

impl Point {
    /// A copy of this point.
    pub fn duplicate(&self) -> (r: Point)
        ensures
            r@ == self@,
    {
        Point {
            x: vstd::slice::slice_to_vec(self.x.as_slice()),
            y: vstd::slice::slice_to_vec(self.y.as_slice()),
            z: vstd::slice::slice_to_vec(self.z.as_slice()),
        }
    }
}

pub open spec fn points_view(v: Seq<Point>) -> Seq<PointText> {
    v.map_values(|p: Point| p@)
}

/// A triangle mesh ready for drawing: one position and one normal for each
/// triangle corner, three corners per triangle, and the index list
/// `0, 1, ..., n - 1` over them.
#[derive(Debug, PartialEq, Eq)]
pub struct Mesh {
    pub positions: Vec<Point>,
    pub normals: Vec<Point>,
    pub indices: Vec<u32>,
}

/// The model of a mesh.
pub struct MeshModel {
    pub positions: Seq<PointText>,
    pub normals: Seq<PointText>,
    pub indices: Seq<u32>,
}

impl View for Mesh {
    type V = MeshModel;

    open spec fn view(&self) -> MeshModel {
        MeshModel {
            positions: points_view(self.positions@),
            normals: points_view(self.normals@),
            indices: self.indices@,
        }
    }
}

/// The index list `0, 1, ..., n - 1`.
pub open spec fn identity_indices(n: nat) -> Seq<u32> {
    Seq::new(n, |i: int| i as u32)
}

impl MeshModel {
    /// Positions and normals are aligned, and the indices count through them.
    pub open spec fn aligned(self) -> bool {
        &&& self.positions.len() == self.normals.len()
        &&& self.indices.len() == self.positions.len()
        &&& forall|i: int| 0 <= i < self.indices.len() ==> self.indices[i] as int == i
    }
}

impl Mesh {
    pub open spec fn wf(&self) -> bool {
        self@.aligned()
    }

    /// The number of triangles.
    pub fn triangle_count(&self) -> (r: usize)
        requires
            self.wf(),
        ensures
            r == self.indices@.len() / 3,
    {
        self.indices.len() / 3
    }
}

/// What is wrong with a line.
#[derive(Clone, Copy, Debug, PartialEq, Eq, Structural)]
pub enum ParseErrorKind {
    /// A point record has fewer than three coordinates.
    MissingField,
    /// A field is not a number of the kind the record needs.
    BadNumber,
    /// A face has fewer than three corners.
    TooFewCorners,
    /// An index names a record that is not defined before the face.
    IndexOutOfRange,
}

/// A line that cannot be read: its 1-based number, the 0-based position of
/// the offending token within it (the record keyword is token 0), and what is
/// wrong with it.
#[derive(Clone, Copy, Debug, PartialEq, Eq, Structural)]
pub struct ParseError {
    pub line: usize,
    pub field: usize,
    pub kind: ParseErrorKind,
}

/// What has been read after some lines: the vertex and normal records so far,
/// and the corners emitted so far.
pub struct LoadState {
    pub vertices: Seq<PointText>,
    pub vertex_normals: Seq<PointText>,
    pub positions: Seq<PointText>,
    pub normals: Seq<PointText>,
}

pub open spec fn empty_state() -> LoadState {
    LoadState {
        vertices: Seq::empty(),
        vertex_normals: Seq::empty(),
        positions: Seq::empty(),
        normals: Seq::empty(),
    }
}

pub open spec fn keyword_vertex() -> Seq<u8> {
    seq![0x76u8]
}

pub open spec fn keyword_normal() -> Seq<u8> {
    seq![0x76u8, 0x6eu8]
}

pub open spec fn keyword_face() -> Seq<u8> {
    seq![0x66u8]
}

pub open spec fn error_at(line: usize, field: int, kind: ParseErrorKind) -> ParseError {
    ParseError { line, field: field as usize, kind }
}

/// The point of a `v` or `vn` record: tokens 1 to 3 must be numbers; any
/// further tokens are ignored.
pub open spec fn point_record(toks: Seq<Seq<u8>>, line: usize) -> Result<PointText, ParseError> {
    if toks.len() < 4 {
        Err(error_at(line, toks.len() as int, ParseErrorKind::MissingField))
    } else if !is_float_text(toks[1]) {
        Err(error_at(line, 1, ParseErrorKind::BadNumber))
    } else if !is_float_text(toks[2]) {
        Err(error_at(line, 2, ParseErrorKind::BadNumber))
    } else if !is_float_text(toks[3]) {
        Err(error_at(line, 3, ParseErrorKind::BadNumber))
    } else {
        Ok((toks[1], toks[2], toks[3]))
    }
}

/// An index field resolved against `table`, for the corner in token `field`.
pub open spec fn resolve_in(
    table: Seq<PointText>,
    s: Seq<u8>,
    line: usize,
    field: int,
) -> Result<PointText, ParseError> {
    match resolve_spec(s, table.len()) {
        IndexResolution::At(k) => Ok(table[k as int]),
        IndexResolution::NotANumber => Err(error_at(line, field, ParseErrorKind::BadNumber)),
        IndexResolution::OutOfRange => Err(error_at(line, field, ParseErrorKind::IndexOutOfRange)),
    }
}

/// A corner descriptor `v/.../n`: the first field indexes the vertices, the
/// last field the normals, and any middle field is ignored. A descriptor
/// without a slash uses its one field for both, and in the two-field form
/// `v/t` the second field is read as the normal index.
pub open spec fn corner(
    vs: Seq<PointText>,
    ns: Seq<PointText>,
    tok: Seq<u8>,
    line: usize,
    field: int,
) -> Result<(PointText, PointText), ParseError> {
    match resolve_in(vs, first_field(tok), line, field) {
        Err(e) => Err(e),
        Ok(p) => match resolve_in(ns, last_field(tok), line, field) {
            Err(e) => Err(e),
            Ok(n) => Ok((p, n)),
        },
    }
}

/// The corners in tokens 1 to `n` of a face line, or the first that fails.
pub open spec fn corners(
    vs: Seq<PointText>,
    ns: Seq<PointText>,
    toks: Seq<Seq<u8>>,
    line: usize,
    n: int,
) -> Result<Seq<(PointText, PointText)>, ParseError>
    decreases n,
{
    if n <= 0 {
        Ok(Seq::empty())
    } else {
        match corners(vs, ns, toks, line, n - 1) {
            Err(e) => Err(e),
            Ok(cs) => match corner(vs, ns, toks[n], line, n) {
                Err(e) => Err(e),
                Ok(c) => Ok(cs.push(c)),
            },
        }
    }
}

/// Fan triangulation from the first corner: triangle `t` is corners
/// `0, t + 1, t + 2`, for `t` from 0 to `c.len() - 3`.
pub open spec fn fan<A>(c: Seq<A>) -> Seq<A> {
    Seq::new(
        (3 * (c.len() - 2)) as nat,
        |j: int|
            if j % 3 == 0 {
                c[0]
            } else if j % 3 == 1 {
                c[j / 3 + 1]
            } else {
                c[j / 3 + 2]
            },
    )
}

pub open spec fn positions_of(cs: Seq<(PointText, PointText)>) -> Seq<PointText> {
    cs.map_values(|c: (PointText, PointText)| c.0)
}

pub open spec fn normals_of(cs: Seq<(PointText, PointText)>) -> Seq<PointText> {
    cs.map_values(|c: (PointText, PointText)| c.1)
}

/// A face line: at least three corners, each resolved, then fan-triangulated.
pub open spec fn face(st: LoadState, toks: Seq<Seq<u8>>, line: usize) -> Result<LoadState, ParseError> {
    if toks.len() < 4 {
        Err(error_at(line, toks.len() as int, ParseErrorKind::TooFewCorners))
    } else {
        match corners(st.vertices, st.vertex_normals, toks, line, toks.len() - 1) {
            Err(e) => Err(e),
            Ok(cs) => Ok(
                LoadState {
                    positions: st.positions + fan(positions_of(cs)),
                    normals: st.normals + fan(normals_of(cs)),
                    ..st
                },
            ),
        }
    }
}

/// The effect of one line. Blank lines and lines of any other record kind
/// leave the state as it is.
pub open spec fn step(st: LoadState, s: Seq<u8>, line: usize) -> Result<LoadState, ParseError> {
    let toks = tokens(s);
    if toks.len() == 0 {
        Ok(st)
    } else if toks[0] == keyword_vertex() {
        match point_record(toks, line) {
            Err(e) => Err(e),
            Ok(p) => Ok(LoadState { vertices: st.vertices.push(p), ..st }),
        }
    } else if toks[0] == keyword_normal() {
        match point_record(toks, line) {
            Err(e) => Err(e),
            Ok(p) => Ok(LoadState { vertex_normals: st.vertex_normals.push(p), ..st }),
        }
    } else if toks[0] == keyword_face() {
        face(st, toks, line)
    } else {
        Ok(st)
    }
}

/// The lines of `s` from byte `start` on, line number `line` first, applied
/// in order to `st`; the first line that fails ends the run.
pub open spec fn run_from(s: Seq<u8>, start: int, st: LoadState, line: nat) -> Result<
    LoadState,
    ParseError,
>
    decreases s.len() - start,
    via run_from_decreases
{
    if start < 0 || start > s.len() {
        Ok(st)
    } else {
        let e = line_end(s, start);
        match step(st, s.subrange(start, e), line as usize) {
            Err(x) => Err(x),
            Ok(next) => if e >= s.len() {
                Ok(next)
            } else {
                run_from(s, e + 1, next, line + 1)
            },
        }
    }
}

#[via_fn]
proof fn run_from_decreases(s: Seq<u8>, start: int, st: LoadState, line: nat) {
    if 0 <= start <= s.len() {
        lemma_line_end_bounds(s, start);
    }
}

/// The mesh that the text `s` describes, or the first line that fails.
pub open spec fn parse_model(s: Seq<u8>) -> Result<MeshModel, ParseError> {
    match run_from(s, 0, empty_state(), 1) {
        Err(e) => Err(e),
        Ok(st) => Ok(
            MeshModel {
                positions: st.positions,
                normals: st.normals,
                indices: identity_indices(st.positions.len()),
            },
        ),
    }
}

} // verus!
