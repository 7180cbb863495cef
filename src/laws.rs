//! Properties of the loading rules, proved over the model.
use vstd::prelude::*;
use crate::mesh::{
    corners, empty_state, fan, keyword_face, keyword_normal, keyword_vertex, normals_of, parse_model,
    positions_of, run_from, step, LoadState, ParseErrorKind, PointText,
};
use crate::number::{index_value, is_index_text};
use crate::loader::MAX_SOURCE_LEN;
use crate::text::{
    first_field, last_field, lemma_line_end_bounds, lemma_tokens_from_len, line_end, tokens,
};

verus! {

/// Triangle `t` of a fan is corners `0, t + 1, t + 2`, and a fan of `k`
/// corners has `k - 2` triangles.
pub proof fn lemma_fan_triangle<A>(c: Seq<A>, t: int)
    requires
        c.len() >= 3,
        0 <= t < c.len() - 2,
    ensures
        fan(c).len() == 3 * (c.len() - 2),
        fan(c)[3 * t] == c[0],
        fan(c)[3 * t + 1] == c[t + 1],
        fan(c)[3 * t + 2] == c[t + 2],
{
    assert((3 * t) % 3 == 0 && (3 * t) / 3 == t) by (nonlinear_arith);
    assert((3 * t + 1) % 3 == 1 && (3 * t + 1) / 3 == t) by (nonlinear_arith);
    assert((3 * t + 2) % 3 == 2 && (3 * t + 2) / 3 == t) by (nonlinear_arith);
    assert(3 * t + 2 < 3 * (c.len() - 2)) by (nonlinear_arith)
        requires
            t < c.len() - 2,
    ;
}

/// A fan of three corners is the triangle itself, in the order given.
pub proof fn lemma_fan_of_triangle<A>(c: Seq<A>)
    requires
        c.len() == 3,
    ensures
        fan(c) == c,
{
    lemma_fan_triangle(c, 0);
    assert(fan(c) =~= c);
}

proof fn lemma_corners_len(
    vs: Seq<PointText>,
    ns: Seq<PointText>,
    toks: Seq<Seq<u8>>,
    line: usize,
    n: int,
)
    requires
        n >= 0,
        corners(vs, ns, toks, line, n) is Ok,
    ensures
        corners(vs, ns, toks, line, n)->Ok_0.len() == n,
    decreases n,
{
    if n > 0 {
        lemma_corners_len(vs, ns, toks, line, n - 1);
    }
}

/// A face line of exactly three corners that all resolve emits one
/// triangle: its corners, in the order given.
pub proof fn law_triangle_face(st: LoadState, s: Seq<u8>, line: usize)
    requires
        tokens(s).len() == 4,
        tokens(s)[0] == keyword_face(),
        corners(st.vertices, st.vertex_normals, tokens(s), line, 3) is Ok,
    ensures
        ({
            let cs = corners(st.vertices, st.vertex_normals, tokens(s), line, 3)->Ok_0;
            step(st, s, line) == Ok::<LoadState, crate::mesh::ParseError>(
                LoadState {
                    positions: st.positions + positions_of(cs),
                    normals: st.normals + normals_of(cs),
                    ..st
                },
            )
        }),
{
    let cs = corners(st.vertices, st.vertex_normals, tokens(s), line, 3)->Ok_0;
    lemma_corners_len(st.vertices, st.vertex_normals, tokens(s), line, 3);
    assert(keyword_face() != keyword_vertex()) by {
        assert(keyword_face()[0] != keyword_vertex()[0]);
    }
    assert(keyword_face() != keyword_normal()) by {
        assert(keyword_face().len() != keyword_normal().len());
    }
    lemma_fan_of_triangle(positions_of(cs));
    lemma_fan_of_triangle(normals_of(cs));
}

/// The positions and normals of triangle `t` among those emitted on the way
/// from `st` to `next`.
pub open spec fn emitted_triangle(st: LoadState, next: LoadState, t: int) -> (
    Seq<PointText>,
    Seq<PointText>,
) {
    let b = st.positions.len() + 3 * t;
    let c = st.normals.len() + 3 * t;
    (next.positions.subrange(b, b + 3), next.normals.subrange(c, c + 3))
}

/// Corners `0, t + 1, t + 2` of `cs`: their positions, and their normals.
pub open spec fn fan_triangle(cs: Seq<(PointText, PointText)>, t: int) -> (
    Seq<PointText>,
    Seq<PointText>,
) {
    (seq![cs[0].0, cs[t + 1].0, cs[t + 2].0], seq![cs[0].1, cs[t + 1].1, cs[t + 2].1])
}

/// A face line of `k > 3` corners that all resolve emits `k - 2` triangles
/// after what was emitted before; triangle `t` is corners `0, t + 1, t + 2`.
pub proof fn law_polygon_fan(st: LoadState, s: Seq<u8>, line: usize)
    requires
        tokens(s).len() > 4,
        tokens(s)[0] == keyword_face(),
        corners(st.vertices, st.vertex_normals, tokens(s), line, tokens(s).len() - 1) is Ok,
    ensures
        ({
            let k = tokens(s).len() - 1;
            let cs = corners(st.vertices, st.vertex_normals, tokens(s), line, k)->Ok_0;
            let next = step(st, s, line)->Ok_0;
            &&& step(st, s, line) is Ok
            &&& next.vertices == st.vertices
            &&& next.vertex_normals == st.vertex_normals
            &&& next.positions.len() == st.positions.len() + 3 * (k - 2)
            &&& next.normals.len() == st.normals.len() + 3 * (k - 2)
            &&& next.positions.subrange(0, st.positions.len() as int) == st.positions
            &&& next.normals.subrange(0, st.normals.len() as int) == st.normals
            &&& forall|t: int|
                0 <= t < k - 2 ==> #[trigger] emitted_triangle(st, next, t) == fan_triangle(cs, t)
        }),
{
    let k = tokens(s).len() - 1;
    let cs = corners(st.vertices, st.vertex_normals, tokens(s), line, k)->Ok_0;
    lemma_corners_len(st.vertices, st.vertex_normals, tokens(s), line, k);
    assert(keyword_face() != keyword_vertex()) by {
        assert(keyword_face()[0] != keyword_vertex()[0]);
    }
    assert(keyword_face() != keyword_normal()) by {
        assert(keyword_face().len() != keyword_normal().len());
    }
    let next = step(st, s, line)->Ok_0;
    lemma_fan_triangle(positions_of(cs), 0);
    lemma_fan_triangle(normals_of(cs), 0);
    assert(next.positions.subrange(0, st.positions.len() as int) =~= st.positions);
    assert(next.normals.subrange(0, st.normals.len() as int) =~= st.normals);
    assert forall|t: int| 0 <= t < k - 2 implies #[trigger] emitted_triangle(st, next, t)
        == fan_triangle(cs, t) by {
        lemma_fan_triangle(positions_of(cs), t);
        lemma_fan_triangle(normals_of(cs), t);
        let b = st.positions.len() + 3 * t;
        let c = st.normals.len() + 3 * t;
        assert(next.positions.subrange(b, b + 3) =~= fan_triangle(cs, t).0);
        assert(next.normals.subrange(c, c + 3) =~= fan_triangle(cs, t).1);
    }
}

/// A face line of two corners or fewer fails, whatever was read before it.
pub proof fn law_short_face_fails(st: LoadState, s: Seq<u8>, line: usize)
    requires
        1 <= tokens(s).len() <= 3,
        tokens(s)[0] == keyword_face(),
    ensures
        step(st, s, line) is Err,
        step(st, s, line)->Err_0.kind == ParseErrorKind::TooFewCorners,
        step(st, s, line)->Err_0.line == line,
{
    assert(keyword_face() != keyword_vertex()) by {
        assert(keyword_face()[0] != keyword_vertex()[0]);
    }
    assert(keyword_face() != keyword_normal()) by {
        assert(keyword_face().len() != keyword_normal().len());
    }
}

/// Both fields of a corner descriptor are index texts.
pub open spec fn well_formed_corner(tok: Seq<u8>) -> bool {
    is_index_text(first_field(tok)) && is_index_text(last_field(tok))
}

/// A corner names a vertex or a normal that is not among `vs` or `ns`.
pub open spec fn dangling_corner(vs: Seq<PointText>, ns: Seq<PointText>, tok: Seq<u8>) -> bool {
    let v = index_value(first_field(tok));
    let n = index_value(last_field(tok));
    v < 1 || v > vs.len() || n < 1 || n > ns.len()
}

proof fn lemma_dangling_fails(
    vs: Seq<PointText>,
    ns: Seq<PointText>,
    toks: Seq<Seq<u8>>,
    line: usize,
    n: int,
    d: int,
)
    requires
        1 <= d <= n,
        forall|k: int| 1 <= k <= n ==> well_formed_corner(#[trigger] toks[k]),
        dangling_corner(vs, ns, toks[d]),
    ensures
        corners(vs, ns, toks, line, n) is Err,
        corners(vs, ns, toks, line, n)->Err_0.kind == ParseErrorKind::IndexOutOfRange,
        corners(vs, ns, toks, line, n)->Err_0.line == line,
    decreases n,
{
    assert(well_formed_corner(toks[n]));
    if d < n {
        lemma_dangling_fails(vs, ns, toks, line, n - 1, d);
    } else if n > 1 {
        lemma_well_formed_errors(vs, ns, toks, line, n - 1);
    }
}

proof fn lemma_well_formed_errors(
    vs: Seq<PointText>,
    ns: Seq<PointText>,
    toks: Seq<Seq<u8>>,
    line: usize,
    n: int,
)
    requires
        n >= 0,
        forall|k: int| 1 <= k <= n ==> well_formed_corner(#[trigger] toks[k]),
    ensures
        corners(vs, ns, toks, line, n) is Err ==> corners(vs, ns, toks, line, n)->Err_0.kind
            == ParseErrorKind::IndexOutOfRange && corners(vs, ns, toks, line, n)->Err_0.line
            == line,
    decreases n,
{
    if n > 0 {
        assert(well_formed_corner(toks[n]));
        lemma_well_formed_errors(vs, ns, toks, line, n - 1);
    }
}

/// A face whose corners are all well-formed indices, one of which names a
/// vertex or normal not defined before the face, fails with an index error.
pub proof fn law_undefined_reference_fails(st: LoadState, s: Seq<u8>, line: usize, d: int)
    requires
        tokens(s).len() >= 4,
        tokens(s)[0] == keyword_face(),
        forall|k: int| 1 <= k < tokens(s).len() ==> well_formed_corner(#[trigger] tokens(s)[k]),
        1 <= d < tokens(s).len(),
        dangling_corner(st.vertices, st.vertex_normals, tokens(s)[d]),
    ensures
        step(st, s, line) is Err,
        step(st, s, line)->Err_0.kind == ParseErrorKind::IndexOutOfRange,
        step(st, s, line)->Err_0.line == line,
{
    assert(keyword_face() != keyword_vertex()) by {
        assert(keyword_face()[0] != keyword_vertex()[0]);
    }
    assert(keyword_face() != keyword_normal()) by {
        assert(keyword_face().len() != keyword_normal().len());
    }
    lemma_dangling_fails(
        st.vertices,
        st.vertex_normals,
        tokens(s),
        line,
        tokens(s).len() - 1,
        d,
    );
}

/// A blank line, or one whose first token is not `v`, `vn` or `f`, changes
/// nothing and never fails.
pub proof fn law_other_lines_ignored(st: LoadState, s: Seq<u8>, line: usize)
    requires
        tokens(s).len() == 0 || (tokens(s)[0] != keyword_vertex() && tokens(s)[0]
            != keyword_normal() && tokens(s)[0] != keyword_face()),
    ensures
        step(st, s, line) == Ok::<LoadState, crate::mesh::ParseError>(st),
{
}

/// Within a text, reading a blank line or a line of another record kind
/// just moves on to the next line with the state unchanged; at the end of
/// the text it ends the run with the state unchanged.
pub proof fn law_ignored_line_skipped(s: Seq<u8>, start: int, st: LoadState, line: nat)
    requires
        0 <= start <= s.len(),
        ({
            let toks = tokens(s.subrange(start, line_end(s, start)));
            toks.len() == 0 || (toks[0] != keyword_vertex() && toks[0] != keyword_normal()
                && toks[0] != keyword_face())
        }),
    ensures
        line_end(s, start) < s.len() ==> run_from(s, start, st, line) == run_from(
            s,
            line_end(s, start) + 1,
            st,
            line + 1,
        ),
        line_end(s, start) >= s.len() ==> run_from(s, start, st, line) == Ok::<
            LoadState,
            crate::mesh::ParseError,
        >(st),
{
    law_other_lines_ignored(st, s.subrange(start, line_end(s, start)), line as usize);
}

proof fn lemma_step_growth(st: LoadState, s: Seq<u8>, line: usize)
    requires
        step(st, s, line) is Ok,
    ensures
        ({
            let next = step(st, s, line)->Ok_0;
            &&& next.positions.len() - st.positions.len() == next.normals.len() - st.normals.len()
            &&& next.positions.len() <= st.positions.len() + 3 * s.len()
        }),
{
    lemma_tokens_from_len(s, 0);
    let toks = tokens(s);
    if toks.len() >= 4 && toks[0] == keyword_face() && toks[0] != keyword_vertex() && toks[0]
        != keyword_normal() {
        lemma_corners_len(st.vertices, st.vertex_normals, toks, line, toks.len() - 1);
    }
}

proof fn lemma_run_growth(s: Seq<u8>, start: int, st: LoadState, line: nat)
    requires
        0 <= start <= s.len(),
        run_from(s, start, st, line) is Ok,
    ensures
        ({
            let fin = run_from(s, start, st, line)->Ok_0;
            &&& fin.positions.len() - st.positions.len() == fin.normals.len() - st.normals.len()
            &&& fin.positions.len() <= st.positions.len() + 3 * (s.len() - start)
        }),
    decreases s.len() - start,
{
    let e = line_end(s, start);
    lemma_line_end_bounds(s, start);
    lemma_step_growth(st, s.subrange(start, e), line as usize);
    let next = step(st, s.subrange(start, e), line as usize)->Ok_0;
    if e < s.len() {
        lemma_run_growth(s, e + 1, next, line + 1);
    }
}

/// Every mesh read from a text that `parse_mesh` takes has as many normals
/// as positions, as many indices as positions, and the indices
/// `0, 1, ..., n - 1`.
pub proof fn law_mesh_aligned(s: Seq<u8>)
    requires
        s.len() <= MAX_SOURCE_LEN,
        parse_model(s) is Ok,
    ensures
        parse_model(s)->Ok_0.aligned(),
{
    lemma_run_growth(s, 0, empty_state(), 1);
}

/// Loading is a function of the text alone: the same text gives the same
/// mesh, or the same error.
pub proof fn law_load_deterministic(a: Seq<u8>, b: Seq<u8>)
    requires
        a == b,
    ensures
        parse_model(a) == parse_model(b),
{
}

} // verus!
