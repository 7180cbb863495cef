//! Reading mesh text into a `Mesh`, line by line.
use vstd::prelude::*;
use crate::mesh::{
    corners, empty_state, fan, identity_indices, keyword_face, keyword_normal, keyword_vertex,
    normals_of, parse_model, point_record, points_view, positions_of, run_from, step, LoadState,
    Mesh, MeshModel, ParseError, ParseErrorKind, Point, PointText,
};
use crate::laws::lemma_fan_triangle;
use crate::number::{is_float_token, resolve_index, IndexResolution};
use crate::text::{
    find_line_end, lemma_tokens_from_len, slice_views, split_first_field,
    split_last_field, split_tokens, tokens,
};

verus! {

/// The longest text that `parse_mesh` takes. A line of `n` bytes emits at
/// most `3 * n` corners, so every corner of such a text has a `u32` index.
pub const MAX_SOURCE_LEN: usize = 0x5555_5555;

/// The records and corners read so far.
struct Builder {
    vertices: Vec<Point>,
    vertex_normals: Vec<Point>,
    positions: Vec<Point>,
    normals: Vec<Point>,
}

impl View for Builder {
    type V = LoadState;

    closed spec fn view(&self) -> LoadState {
        LoadState {
            vertices: points_view(self.vertices@),
            vertex_normals: points_view(self.vertex_normals@),
            positions: points_view(self.positions@),
            normals: points_view(self.normals@),
        }
    }
}

/// The records of `table` that `idx` names, in order.
spec fn picked(table: Seq<PointText>, idx: Seq<usize>) -> Seq<PointText> {
    Seq::new(idx.len(), |k: int| table[idx[k] as int])
}

/// The corners named by the index pairs `vi[k]`, `ni[k]`.
spec fn resolved(vs: Seq<PointText>, ns: Seq<PointText>, vi: Seq<usize>, ni: Seq<usize>) -> Seq<
    (PointText, PointText),
> {
    Seq::new(vi.len(), |k: int| (vs[vi[k] as int], ns[ni[k] as int]))
}

fn is_keyword_vertex(t: &[u8]) -> (r: bool)
    ensures
        r == (t@ == keyword_vertex()),
{
    if t.len() == 1 && t[0] == 0x76u8 {
        assert(t@ =~= keyword_vertex());
        true
    } else {
        false
    }
}

fn is_keyword_normal(t: &[u8]) -> (r: bool)
    ensures
        r == (t@ == keyword_normal()),
{
    if t.len() == 2 && t[0] == 0x76u8 && t[1] == 0x6eu8 {
        assert(t@ =~= keyword_normal());
        true
    } else {
        false
    }
}

fn is_keyword_face(t: &[u8]) -> (r: bool)
    ensures
        r == (t@ == keyword_face()),
{
    if t.len() == 1 && t[0] == 0x66u8 {
        assert(t@ =~= keyword_face());
        true
    } else {
        false
    }
}

/// Reads the point of a `v` or `vn` line.
fn read_point(toks: &Vec<&[u8]>, line: usize) -> (r: Result<Point, ParseError>)
    ensures
        match r {
            Ok(p) => point_record(slice_views(toks@), line) == Ok::<PointText, ParseError>(p@),
            Err(e) => point_record(slice_views(toks@), line) == Err::<PointText, ParseError>(e),
        },
{
    let ghost ts = slice_views(toks@);
    if toks.len() < 4 {
        return Err(ParseError { line, field: toks.len(), kind: ParseErrorKind::MissingField });
    }
    assert(ts[1] == toks@[1]@ && ts[2] == toks@[2]@ && ts[3] == toks@[3]@);
    if !is_float_token(toks[1]) {
        return Err(ParseError { line, field: 1, kind: ParseErrorKind::BadNumber });
    }
    if !is_float_token(toks[2]) {
        return Err(ParseError { line, field: 2, kind: ParseErrorKind::BadNumber });
    }
    if !is_float_token(toks[3]) {
        return Err(ParseError { line, field: 3, kind: ParseErrorKind::BadNumber });
    }
    Ok(
        Point {
            x: vstd::slice::slice_to_vec(toks[1]),
            y: vstd::slice::slice_to_vec(toks[2]),
            z: vstd::slice::slice_to_vec(toks[3]),
        },
    )
}

/// Resolves every corner of a face line to a vertex index and a normal
/// index, or reports the first corner that fails.
fn read_corners(vs: &Vec<Point>, ns: &Vec<Point>, toks: &Vec<&[u8]>, line: usize) -> (r: Result<
    (Vec<usize>, Vec<usize>),
    ParseError,
>)
    requires
        toks@.len() >= 1,
        vs@.len() < usize::MAX / 2,
        ns@.len() < usize::MAX / 2,
    ensures
        match r {
            Ok((vi, ni)) => {
                &&& vi@.len() == toks@.len() - 1
                &&& ni@.len() == toks@.len() - 1
                &&& forall|k: int| 0 <= k < vi@.len() ==> vi@[k] < vs@.len() && ni@[k] < ns@.len()
                &&& corners(
                    points_view(vs@),
                    points_view(ns@),
                    slice_views(toks@),
                    line,
                    toks@.len() - 1,
                ) == Ok::<Seq<(PointText, PointText)>, ParseError>(
                    resolved(points_view(vs@), points_view(ns@), vi@, ni@),
                )
            },
            Err(e) => corners(
                points_view(vs@),
                points_view(ns@),
                slice_views(toks@),
                line,
                toks@.len() - 1,
            ) == Err::<Seq<(PointText, PointText)>, ParseError>(e),
        },
{
    let ghost pv = points_view(vs@);
    let ghost pn = points_view(ns@);
    let ghost ts = slice_views(toks@);
    let mut vi: Vec<usize> = Vec::new();
    let mut ni: Vec<usize> = Vec::new();
    let mut k: usize = 1;
    assert(resolved(pv, pn, vi@, ni@) =~= Seq::empty());
    while k < toks.len()
        invariant
            1 <= k <= toks@.len(),
            vs@.len() < usize::MAX / 2,
            ns@.len() < usize::MAX / 2,
            pv == points_view(vs@),
            pn == points_view(ns@),
            ts == slice_views(toks@),
            vi@.len() == k - 1,
            ni@.len() == k - 1,
            forall|j: int| 0 <= j < vi@.len() ==> vi@[j] < vs@.len() && ni@[j] < ns@.len(),
            corners(pv, pn, ts, line, k - 1) == Ok::<Seq<(PointText, PointText)>, ParseError>(
                resolved(pv, pn, vi@, ni@),
            ),
        decreases toks@.len() - k,
    {
        let tok = toks[k];
        assert(ts[k as int] == tok@);
        proof {
            lemma_corners_first_failure(pv, pn, ts, line, k as int, toks@.len() - 1);
        }
        let a = match resolve_index(split_first_field(tok), vs.len()) {
            IndexResolution::At(a) => a,
            IndexResolution::NotANumber => {
                return Err(ParseError { line, field: k, kind: ParseErrorKind::BadNumber });
            },
            IndexResolution::OutOfRange => {
                return Err(ParseError { line, field: k, kind: ParseErrorKind::IndexOutOfRange });
            },
        };
        let b = match resolve_index(split_last_field(tok), ns.len()) {
            IndexResolution::At(b) => b,
            IndexResolution::NotANumber => {
                return Err(ParseError { line, field: k, kind: ParseErrorKind::BadNumber });
            },
            IndexResolution::OutOfRange => {
                return Err(ParseError { line, field: k, kind: ParseErrorKind::IndexOutOfRange });
            },
        };
        let ghost prev = resolved(pv, pn, vi@, ni@);
        vi.push(a);
        ni.push(b);
        assert(resolved(pv, pn, vi@, ni@) =~= prev.push((pv[a as int], pn[b as int])));
        k = k + 1;
    }
    Ok((vi, ni))
}

/// Once a corner fails, the face fails with its error.
proof fn lemma_corners_first_failure(
    vs: Seq<PointText>,
    ns: Seq<PointText>,
    toks: Seq<Seq<u8>>,
    line: usize,
    k: int,
    n: int,
)
    requires
        1 <= k <= n,
    ensures
        corners(vs, ns, toks, line, k) is Err ==> corners(vs, ns, toks, line, n) == corners(
            vs,
            ns,
            toks,
            line,
            k,
        ),
    decreases n - k,
{
    if k < n {
        lemma_corners_first_failure(vs, ns, toks, line, k, n - 1);
    }
}

/// Appends the fan triangulation of the records that `idx` names.
fn append_fan(out: &mut Vec<Point>, table: &Vec<Point>, idx: &Vec<usize>)
    requires
        idx@.len() >= 3,
        forall|k: int| 0 <= k < idx@.len() ==> idx@[k] < table@.len(),
    ensures
        points_view(final(out)@) == points_view(old(out)@) + fan(
            picked(points_view(table@), idx@),
        ),
{
    let ghost c = picked(points_view(table@), idx@);
    let ghost base = points_view(out@);
    let n = idx.len() - 2;
    let mut t: usize = 0;
    while t < n
        invariant
            n + 2 == idx.len(),
            idx@.len() >= 3,
            forall|k: int| 0 <= k < idx@.len() ==> idx@[k] < table@.len(),
            c == picked(points_view(table@), idx@),
            0 <= t <= n,
            points_view(out@) == base + fan(c).subrange(0, 3 * t),
        decreases n - t,
    {
        let ghost before = points_view(out@);
        let p0 = table[idx[0]].duplicate();
        let p1 = table[idx[t + 1]].duplicate();
        let p2 = table[idx[t + 2]].duplicate();
        out.push(p0);
        out.push(p1);
        out.push(p2);
        proof {
            lemma_fan_triangle(c, t as int);
            assert(points_view(out@) =~= before.push(p0@).push(p1@).push(p2@));
            assert(fan(c).subrange(0, 3 * t + 3) =~= fan(c).subrange(0, 3 * t).push(
                fan(c)[3 * t],
            ).push(fan(c)[3 * t + 1]).push(fan(c)[3 * t + 2]));
            assert(points_view(out@) =~= base + fan(c).subrange(0, 3 * (t + 1)));
        }
        t = t + 1;
    }
    assert(fan(c).subrange(0, 3 * n) =~= fan(c));
}

impl Builder {
    /// Applies one line.
    fn apply_line(&mut self, l: &[u8], line: usize) -> (r: Result<(), ParseError>)
        requires
            old(self).vertices@.len() < usize::MAX / 2,
            old(self).vertex_normals@.len() < usize::MAX / 2,
            old(self).positions@.len() == old(self).normals@.len(),
        ensures
            match r {
                Ok(_) => step(old(self)@, l@, line) == Ok::<LoadState, ParseError>(final(self)@),
                Err(e) => step(old(self)@, l@, line) == Err::<LoadState, ParseError>(e),
            },
            final(self).vertices@.len() <= old(self).vertices@.len() + l@.len(),
            final(self).vertex_normals@.len() <= old(self).vertex_normals@.len() + l@.len(),
            final(self).positions@.len() == final(self).normals@.len(),
            final(self).positions@.len() <= old(self).positions@.len() + 3 * l@.len(),
    {
        let toks = split_tokens(l);
        proof {
            lemma_tokens_from_len(l@, 0);
        }
        let ghost ts = tokens(l@);
        if toks.len() == 0 {
            return Ok(());
        }
        let kw = toks[0];
        assert(ts[0] == kw@);
        if is_keyword_vertex(kw) {
            match read_point(&toks, line) {
                Ok(p) => {
                    let ghost before = points_view(self.vertices@);
                    self.vertices.push(p);
                    assert(points_view(self.vertices@) =~= before.push(p@));
                    Ok(())
                },
                Err(e) => Err(e),
            }
        } else if is_keyword_normal(kw) {
            match read_point(&toks, line) {
                Ok(p) => {
                    let ghost before = points_view(self.vertex_normals@);
                    self.vertex_normals.push(p);
                    assert(points_view(self.vertex_normals@) =~= before.push(p@));
                    Ok(())
                },
                Err(e) => Err(e),
            }
        } else if is_keyword_face(kw) {
            if toks.len() < 4 {
                return Err(
                    ParseError { line, field: toks.len(), kind: ParseErrorKind::TooFewCorners },
                );
            }
            match read_corners(&self.vertices, &self.vertex_normals, &toks, line) {
                Err(e) => Err(e),
                Ok((vi, ni)) => {
                    let ghost pv = points_view(self.vertices@);
                    let ghost pn = points_view(self.vertex_normals@);
                    append_fan(&mut self.positions, &self.vertices, &vi);
                    append_fan(&mut self.normals, &self.vertex_normals, &ni);
                    assert(positions_of(resolved(pv, pn, vi@, ni@)) =~= picked(pv, vi@));
                    assert(normals_of(resolved(pv, pn, vi@, ni@)) =~= picked(pn, ni@));
                    assert(3 * (vi@.len() - 2) <= 3 * l@.len());
                    Ok(())
                },
            }
        } else {
            Ok(())
        }
    }

    /// The mesh of the corners read.
    fn finish(self) -> (m: Mesh)
        requires
            self.positions@.len() == self.normals@.len(),
            self.positions@.len() <= 0xffff_ffff,
        ensures
            m@ == (MeshModel {
                positions: self@.positions,
                normals: self@.normals,
                indices: identity_indices(self@.positions.len()),
            }),
            m.wf(),
    {
        let n = self.positions.len();
        let mut indices: Vec<u32> = Vec::new();
        let mut i: usize = 0;
        while i < n
            invariant
                0 <= i <= n,
                n <= 0xffff_ffff,
                indices@ == identity_indices(i as nat),
            decreases n - i,
        {
            indices.push(i as u32);
            i = i + 1;
            assert(indices@ =~= identity_indices(i as nat));
        }
        Mesh { positions: self.positions, normals: self.normals, indices }
    }
}

/// Reads mesh text. `v` and `vn` lines add a vertex or a normal record; each
/// `f` line resolves its corners against the records defined before it and
/// emits the fan triangulation of the face, one position and one normal per
/// triangle corner; every other line is ignored. The first line that cannot
/// be read is reported, and no mesh is returned then.
pub fn parse_mesh(src: &[u8]) -> (r: Result<Mesh, ParseError>)
    requires
        src@.len() <= MAX_SOURCE_LEN,
    ensures
        match r {
            Ok(m) => m.wf() && parse_model(src@) == Ok::<MeshModel, ParseError>(m@),
            Err(e) => parse_model(src@) == Err::<MeshModel, ParseError>(e),
        },
{
    let mut b = Builder {
        vertices: Vec::new(),
        vertex_normals: Vec::new(),
        positions: Vec::new(),
        normals: Vec::new(),
    };
    assert(b@.vertices =~= Seq::empty());
    assert(b@.vertex_normals =~= Seq::empty());
    assert(b@.positions =~= Seq::empty());
    assert(b@.normals =~= Seq::empty());
    assert(b@ == empty_state());
    let mut start: usize = 0;
    let mut line: usize = 1;
    loop
        invariant
            start <= src@.len(),
            src@.len() <= MAX_SOURCE_LEN,
            line <= start + 1,
            run_from(src@, 0, empty_state(), 1) == run_from(src@, start as int, b@, line as nat),
            b.vertices@.len() <= start,
            b.vertex_normals@.len() <= start,
            b.positions@.len() == b.normals@.len(),
            b.positions@.len() <= 3 * start,
        decreases src@.len() - start,
    {
        let e = find_line_end(src, start);
        let l = &src[start..e];
        match b.apply_line(l, line) {
            Err(err) => {
                return Err(err);
            },
            Ok(()) => {},
        }
        if e >= src.len() {
            return Ok(b.finish());
        }
        start = e + 1;
        line = line + 1;
    }
}

} // verus!
