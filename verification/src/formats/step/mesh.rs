//! STEP entities for a triangle mesh: cartesian points, one planar face per
//! triangle, the closed shell, the solid and the product structure.
//!
//! Coordinates and plane frames arrive already formatted as text; this
//! module decides which triangles are written, numbers the entities and
//! writes every line.

use vstd::prelude::*;
use crate::text::{decimal, push_decimal};
use crate::formats::step::writer::{escape_step_string, step_escape};

verus! {

/// A reference to entity `id`: `#` and its decimal number.
pub open spec fn ref_text(id: nat) -> Seq<char> {
    "#"@ + decimal(id)
}

/// The triangles among the first `c` complete index triples whose three
/// vertices are all below `n`, in order.
pub open spec fn kept_prefix(n: nat, idx: Seq<u32>, c: int) -> Seq<(u32, u32, u32)>
    decreases c,
{
    if c <= 0 {
        Seq::empty()
    } else {
        let p = kept_prefix(n, idx, c - 1);
        let t = (idx[3 * c - 3], idx[3 * c - 2], idx[3 * c - 1]);
        if (t.0 as nat) < n && (t.1 as nat) < n && (t.2 as nat) < n {
            p.push(t)
        } else {
            p
        }
    }
}

/// The triangles written for a mesh of `n` points: every complete index
/// triple (a trailing partial triple is ignored) whose vertices all exist.
pub open spec fn triangles_kept(n: nat, idx: Seq<u32>) -> Seq<(u32, u32, u32)> {
    kept_prefix(n, idx, (idx.len() / 3) as int)
}

/// The kept triangles hold only vertex numbers below `n`, and there are no
/// more of them than complete triples.
pub proof fn lemma_kept_prefix(n: nat, idx: Seq<u32>, c: int)
    ensures
        kept_prefix(n, idx, c).len() <= if c < 0 { 0 } else { c },
        forall|j: int|
            0 <= j < kept_prefix(n, idx, c).len() ==> (#[trigger] kept_prefix(n, idx, c)[j]).0
                < n && kept_prefix(n, idx, c)[j].1 < n && kept_prefix(n, idx, c)[j].2 < n,
    decreases c,
{
    if c > 0 {
        lemma_kept_prefix(n, idx, c - 1);
    }
}

/// The triangles of `indices` that a mesh of `point_count` points writes.
pub fn kept_triangles(point_count: usize, indices: &[u32]) -> (r: Vec<(u32, u32, u32)>)
    ensures
        r@ == triangles_kept(point_count as nat, indices@),
{
    let len = indices.len();
    let total = len / 3;
    let mut r: Vec<(u32, u32, u32)> = Vec::new();
    let mut c: usize = 0;
    while c < total
        invariant
            c <= total,
            len == indices@.len(),
            total == indices@.len() / 3,
            3 * total <= indices@.len(),
            r@ == kept_prefix(point_count as nat, indices@, c as int),
        decreases total - c,
    {
        assert(3 * c + 2 < indices@.len());
        let a = indices[3 * c];
        let b = indices[3 * c + 1];
        let d = indices[3 * c + 2];
        if (a as usize) < point_count && (b as usize) < point_count && (d as usize)
            < point_count {
            r.push((a, b, d));
        }
        c += 1;
    }
    r
}

/// The references to the faces of `m` triangles whose entities start at
/// `start`, ten to a triangle with the face last, separated by commas.
pub open spec fn face_refs(start: nat, m: nat) -> Seq<char>
    decreases m,
{
    if m == 0 {
        Seq::empty()
    } else if m == 1 {
        ref_text(start + 9)
    } else {
        face_refs(start, (m - 1) as nat) + ","@ + ref_text((start + 10 * (m - 1) + 9) as nat)
    }
}

/// Append a reference to entity `id`.
pub(crate) fn push_ref(s: &mut String, id: u64)
    ensures
        final(s)@ == old(s)@ + ref_text(id as nat),
{
    s.append("#");
    push_decimal(s, id);
    proof {
        assert(final(s)@ =~= old(s)@ + ref_text(id as nat));
    }
}

/// The line head `#id` followed by `rest`.
pub(crate) fn line_head(id: u64, rest: &str) -> (r: String)
    ensures
        r@ == ref_text(id as nat) + rest@,
{
    let mut s = String::new();
    push_ref(&mut s, id);
    s.append(rest);
    proof {
        assert(s@ =~= ref_text(id as nat) + rest@);
    }
    s
}

/// The face references of `m` triangles whose entities start at `start`.
fn face_refs_text(start: u64, m: u64) -> (r: String)
    requires
        start + 10 * m <= u64::MAX,
    ensures
        r@ == face_refs(start as nat, m as nat),
{
    let mut s = String::new();
    let mut j: u64 = 0;
    while j < m
        invariant
            j <= m,
            start + 10 * m <= u64::MAX,
            s@ == face_refs(start as nat, j as nat),
        decreases m - j,
    {
        let ghost old_s = s@;
        if j > 0 {
            s.append(",");
        }
        push_ref(&mut s, start + 10 * j + 9);
        proof {
            if j == 0 {
                assert(s@ =~= face_refs(start as nat, 1));
            } else {
                assert(s@ =~= old_s + ","@ + ref_text((start + 10 * j + 9) as nat));
            }
        }
        j += 1;
    }
    s
}

/// A `DIRECTION` entity with the given formatted components.
pub open spec fn direction_line(id: nat, xyz: Seq<char>) -> Seq<char> {
    ref_text(id) + "=DIRECTION('',("@ + xyz + "));"@
}

/// A `CARTESIAN_POINT` entity with the given formatted coordinates.
pub open spec fn point_line(id: nat, xyz: Seq<char>) -> Seq<char> {
    ref_text(id) + "=CARTESIAN_POINT('',("@ + xyz + "));"@
}

/// The ten entities of one triangle, numbered from `base`: its three
/// vertices (on the points numbered from `first`), the plane's normal and
/// x direction (`frame`), the axis placement at the first vertex, the
/// plane, the poly loop, its outer bound and the face.
pub open spec fn triangle_lines(
    first: nat,
    base: nat,
    t: (u32, u32, u32),
    frame: (Seq<char>, Seq<char>),
) -> Seq<Seq<char>> {
    let a = ref_text(first + t.0 as nat);
    let b = ref_text(first + t.1 as nat);
    let c = ref_text(first + t.2 as nat);
    seq![
        ref_text(base) + "=VERTEX_POINT('',"@ + a + ");"@,
        ref_text(base + 1) + "=VERTEX_POINT('',"@ + b + ");"@,
        ref_text(base + 2) + "=VERTEX_POINT('',"@ + c + ");"@,
        direction_line(base + 3, frame.0),
        direction_line(base + 4, frame.1),
        ref_text(base + 5) + "=AXIS2_PLACEMENT_3D('',"@ + a + ","@ + ref_text(base + 3) + ","@
            + ref_text(base + 4) + ");"@,
        ref_text(base + 6) + "=PLANE('',"@ + ref_text(base + 5) + ");"@,
        ref_text(base + 7) + "=POLY_LOOP('',("@ + a + ","@ + b + ","@ + c + "));"@,
        ref_text(base + 8) + "=FACE_OUTER_BOUND('',"@ + ref_text(base + 7) + ",.T.);"@,
        ref_text(base + 9) + "=FACE_SURFACE('',("@ + ref_text(base + 8) + "),'',"@ + ref_text(
            base + 6,
        ) + ",.T.);"@,
    ]
}

/// The lines of a triangle's entities.
fn triangle_entities(first: u64, base: u64, t: (u32, u32, u32), frame: &(String, String)) -> (r:
    Vec<String>)
    requires
        base + 9 <= u64::MAX,
        first + t.0 <= u64::MAX,
        first + t.1 <= u64::MAX,
        first + t.2 <= u64::MAX,
    ensures
        r@.map_values(|l: String| l@) == triangle_lines(
            first as nat,
            base as nat,
            t,
            (frame.0@, frame.1@),
        ),
{
    let a = first + t.0 as u64;
    let b = first + t.1 as u64;
    let c = first + t.2 as u64;
    let mut r: Vec<String> = Vec::new();
    let mut l = line_head(base, "=VERTEX_POINT('',");
    push_ref(&mut l, a);
    l.append(");");
    r.push(l);
    let mut l = line_head(base + 1, "=VERTEX_POINT('',");
    push_ref(&mut l, b);
    l.append(");");
    r.push(l);
    let mut l = line_head(base + 2, "=VERTEX_POINT('',");
    push_ref(&mut l, c);
    l.append(");");
    r.push(l);
    let mut l = line_head(base + 3, "=DIRECTION('',(");
    l.append(frame.0.as_str());
    l.append("));");
    r.push(l);
    let mut l = line_head(base + 4, "=DIRECTION('',(");
    l.append(frame.1.as_str());
    l.append("));");
    r.push(l);
    let mut l = line_head(base + 5, "=AXIS2_PLACEMENT_3D('',");
    push_ref(&mut l, a);
    l.append(",");
    push_ref(&mut l, base + 3);
    l.append(",");
    push_ref(&mut l, base + 4);
    l.append(");");
    r.push(l);
    let mut l = line_head(base + 6, "=PLANE('',");
    push_ref(&mut l, base + 5);
    l.append(");");
    r.push(l);
    let mut l = line_head(base + 7, "=POLY_LOOP('',(");
    push_ref(&mut l, a);
    l.append(",");
    push_ref(&mut l, b);
    l.append(",");
    push_ref(&mut l, c);
    l.append("));");
    r.push(l);
    let mut l = line_head(base + 8, "=FACE_OUTER_BOUND('',");
    push_ref(&mut l, base + 7);
    l.append(",.T.);");
    r.push(l);
    let mut l = line_head(base + 9, "=FACE_SURFACE('',(");
    push_ref(&mut l, base + 8);
    l.append("),'',");
    push_ref(&mut l, base + 6);
    l.append(",.T.);");
    r.push(l);
    proof {
        let spec_lines = triangle_lines(first as nat, base as nat, t, (frame.0@, frame.1@));
        assert forall|k: int| 0 <= k < 10 implies #[trigger] r@[k]@ =~= spec_lines[k] by {}
        assert(r@.map_values(|l: String| l@) =~= spec_lines);
    }
    r
}

/// The thirteen entities that close a mesh, numbered from `s`: the closed
/// shell over `faces`, the solid named `name` (already escaped), its shape
/// representation (holding the solid and the origin placement, in the
/// context `geom`), the origin placement, and the product, its definition
/// and its shape, in the application context `app`.
pub open spec fn closing_lines(s: nat, name: Seq<char>, geom: nat, app: nat, faces: Seq<char>) -> Seq<
    Seq<char>,
> {
    seq![
        ref_text(s) + "=CLOSED_SHELL('',("@ + faces + "));"@,
        ref_text(s + 1) + "=MANIFOLD_SOLID_BREP('"@ + name + "',"@ + ref_text(s) + ");"@,
        ref_text(s + 2) + "=ADVANCED_BREP_SHAPE_REPRESENTATION('',("@ + ref_text(s + 1) + ","@
            + ref_text(s + 6) + "),"@ + ref_text(geom) + ");"@,
        ref_text(s + 3) + "=CARTESIAN_POINT('',(0.,0.,0.));"@,
        ref_text(s + 4) + "=DIRECTION('',(0.,0.,1.));"@,
        ref_text(s + 5) + "=DIRECTION('',(1.,0.,0.));"@,
        ref_text(s + 6) + "=AXIS2_PLACEMENT_3D('',"@ + ref_text(s + 3) + ","@ + ref_text(s + 4)
            + ","@ + ref_text(s + 5) + ");"@,
        ref_text(s + 7) + "=PRODUCT('"@ + name + "','"@ + name + "','',("@ + ref_text(app)
            + "));"@,
        ref_text(s + 8) + "=PRODUCT_DEFINITION_FORMATION('','',"@ + ref_text(s + 7) + ");"@,
        ref_text(s + 9) + "=PRODUCT_DEFINITION_CONTEXT('part definition',"@ + ref_text(app)
            + ",'design');"@,
        ref_text(s + 10) + "=PRODUCT_DEFINITION('design','',"@ + ref_text(s + 8) + ","@
            + ref_text(s + 9) + ");"@,
        ref_text(s + 11) + "=PRODUCT_DEFINITION_SHAPE('','Shape of "@ + name + "',"@ + ref_text(
            s + 10,
        ) + ");"@,
        ref_text(s + 12) + "=SHAPE_DEFINITION_REPRESENTATION("@ + ref_text(s + 11) + ","@
            + ref_text(s + 2) + ");"@,
    ]
}

/// The lines of the closing entities.
fn closing_entities(s: u64, name: &str, geom: u64, app: u64, faces: &str) -> (r: Vec<String>)
    requires
        s + 12 <= u64::MAX,
    ensures
        r@.map_values(|l: String| l@) == closing_lines(
            s as nat,
            name@,
            geom as nat,
            app as nat,
            faces@,
        ),
{
    let mut r: Vec<String> = Vec::new();
    let mut l = line_head(s, "=CLOSED_SHELL('',(");
    l.append(faces);
    l.append("));");
    r.push(l);
    let mut l = line_head(s + 1, "=MANIFOLD_SOLID_BREP('");
    l.append(name);
    l.append("',");
    push_ref(&mut l, s);
    l.append(");");
    r.push(l);
    let mut l = line_head(s + 2, "=ADVANCED_BREP_SHAPE_REPRESENTATION('',(");
    push_ref(&mut l, s + 1);
    l.append(",");
    push_ref(&mut l, s + 6);
    l.append("),");
    push_ref(&mut l, geom);
    l.append(");");
    r.push(l);
    r.push(line_head(s + 3, "=CARTESIAN_POINT('',(0.,0.,0.));"));
    r.push(line_head(s + 4, "=DIRECTION('',(0.,0.,1.));"));
    r.push(line_head(s + 5, "=DIRECTION('',(1.,0.,0.));"));
    let mut l = line_head(s + 6, "=AXIS2_PLACEMENT_3D('',");
    push_ref(&mut l, s + 3);
    l.append(",");
    push_ref(&mut l, s + 4);
    l.append(",");
    push_ref(&mut l, s + 5);
    l.append(");");
    r.push(l);
    let mut l = line_head(s + 7, "=PRODUCT('");
    l.append(name);
    l.append("','");
    l.append(name);
    l.append("','',(");
    push_ref(&mut l, app);
    l.append("));");
    r.push(l);
    let mut l = line_head(s + 8, "=PRODUCT_DEFINITION_FORMATION('','',");
    push_ref(&mut l, s + 7);
    l.append(");");
    r.push(l);
    let mut l = line_head(s + 9, "=PRODUCT_DEFINITION_CONTEXT('part definition',");
    push_ref(&mut l, app);
    l.append(",'design');");
    r.push(l);
    let mut l = line_head(s + 10, "=PRODUCT_DEFINITION('design','',");
    push_ref(&mut l, s + 8);
    l.append(",");
    push_ref(&mut l, s + 9);
    l.append(");");
    r.push(l);
    let mut l = line_head(s + 11, "=PRODUCT_DEFINITION_SHAPE('','Shape of ");
    l.append(name);
    l.append("',");
    push_ref(&mut l, s + 10);
    l.append(");");
    r.push(l);
    let mut l = line_head(s + 12, "=SHAPE_DEFINITION_REPRESENTATION(");
    push_ref(&mut l, s + 11);
    l.append(",");
    push_ref(&mut l, s + 2);
    l.append(");");
    r.push(l);
    proof {
        let spec_lines = closing_lines(s as nat, name@, geom as nat, app as nat, faces@);
        assert forall|k: int| 0 <= k < 13 implies #[trigger] r@[k]@ =~= spec_lines[k] by {}
        assert(r@.map_values(|l: String| l@) =~= spec_lines);
    }
    r
}

/// The point entities: one `CARTESIAN_POINT` per formatted coordinate
/// triple, numbered from `first`.
pub open spec fn point_lines(first: nat, pts: Seq<Seq<char>>) -> Seq<Seq<char>> {
    Seq::new(pts.len(), |k: int| point_line((first + k) as nat, pts[k]))
}

/// The entities of the first `j` kept triangles of a mesh whose `n` points
/// are numbered from `first`; the triangles' entities follow the points.
pub open spec fn face_lines(
    first: nat,
    n: nat,
    tris: Seq<(u32, u32, u32)>,
    frames: Seq<(Seq<char>, Seq<char>)>,
    j: int,
) -> Seq<Seq<char>>
    decreases j,
{
    if j <= 0 {
        Seq::empty()
    } else {
        face_lines(first, n, tris, frames, j - 1) + triangle_lines(
            first,
            (first + n + 10 * (j - 1)) as nat,
            tris[j - 1],
            frames[j - 1],
        )
    }
}

/// The name a mesh's product gets: its node's name, or `Part` for none.
pub open spec fn product_label(name: Seq<char>) -> Seq<char> {
    if name.len() == 0 {
        "Part"@
    } else {
        name
    }
}

/// How many entity numbers a mesh of `n` points and these indices uses:
/// none for a mesh without points or indices, the points alone when no
/// triangle is kept, else the points, ten per kept triangle and thirteen
/// closing entities.
pub open spec fn mesh_entity_count(n: nat, idx: Seq<u32>) -> nat {
    if n == 0 || idx.len() == 0 {
        0
    } else if triangles_kept(n, idx).len() == 0 {
        n
    } else {
        n + 10 * triangles_kept(n, idx).len() + 13
    }
}

/// The number of the solid written for the mesh, where one is written.
pub open spec fn mesh_solid(first: nat, n: nat, idx: Seq<u32>) -> Option<nat> {
    if n == 0 || idx.len() == 0 || triangles_kept(n, idx).len() == 0 {
        None
    } else {
        Some(first + n + 10 * triangles_kept(n, idx).len() + 1)
    }
}

/// The STEP entity lines of a triangle mesh whose entities are numbered
/// from `first`: `pts` are the formatted coordinates of its points,
/// `frames` the formatted normal and x direction of each kept triangle,
/// `idx` its vertex indices, `name` its node's name, `geom` and `app` the
/// geometric and application contexts. Nothing is written for a mesh
/// without points or indices; when no triangle is kept only the points
/// are written.
pub open spec fn mesh_entity_lines(
    first: nat,
    pts: Seq<Seq<char>>,
    frames: Seq<(Seq<char>, Seq<char>)>,
    idx: Seq<u32>,
    name: Seq<char>,
    geom: nat,
    app: nat,
) -> Seq<Seq<char>> {
    if pts.len() == 0 || idx.len() == 0 {
        Seq::empty()
    } else {
        let n = pts.len();
        let tris = triangles_kept(n, idx);
        let m = tris.len();
        let body = point_lines(first, pts) + face_lines(first, n, tris, frames, m as int);
        if m == 0 {
            body
        } else {
            body + closing_lines(
                first + n + 10 * m,
                step_escape(product_label(name)),
                geom,
                app,
                face_refs(first + n, m),
            )
        }
    }
}

/// Write the STEP entities of a triangle mesh, numbered from `first_id`.
/// `points[k]` is the formatted coordinate triple of point `k`, and
/// `frames[t]` the formatted normal and x direction of the plane of the
/// `t`-th triangle that `kept_triangles` keeps. Returns the lines, the next
/// free entity number, and the number of the solid where one is written.
pub fn mesh_entities(
    first_id: u64,
    points: &[String],
    frames: &[(String, String)],
    indices: &[u32],
    product_name: &str,
    geom_context: u64,
    app_context: u64,
) -> (r: (Vec<String>, u64, Option<u64>))
    requires
        frames@.len() == triangles_kept(points@.len(), indices@).len(),
        first_id + mesh_entity_count(points@.len(), indices@) <= u64::MAX,
    ensures
        r.0@.map_values(|l: String| l@) == mesh_entity_lines(
            first_id as nat,
            points@.map_values(|p: String| p@),
            frames@.map_values(|f: (String, String)| (f.0@, f.1@)),
            indices@,
            product_name@,
            geom_context as nat,
            app_context as nat,
        ),
        r.1 == first_id + mesh_entity_count(points@.len(), indices@),
        match mesh_solid(first_id as nat, points@.len(), indices@) {
            Some(b) => r.2 == Some(b as u64),
            None => r.2 is None,
        },
{
    let ghost pts = points@.map_values(|p: String| p@);
    let ghost frs = frames@.map_values(|f: (String, String)| (f.0@, f.1@));
    let mut lines: Vec<String> = Vec::new();
    if points.len() == 0 || indices.len() == 0 {
        proof {
            assert(lines@.map_values(|l: String| l@) =~= Seq::<Seq<char>>::empty());
        }
        return (lines, first_id, None);
    }
    let tris = kept_triangles(points.len(), indices);
    let ghost n = points@.len();
    proof {
        lemma_kept_prefix(n, indices@, (indices@.len() / 3) as int);
    }
    let np = points.len() as u64;
    let mut k: usize = 0;
    while k < points.len()
        invariant
            k <= points@.len(),
            n == points@.len(),
            pts == points@.map_values(|p: String| p@),
            first_id + n <= u64::MAX,
            lines@.map_values(|l: String| l@) =~= Seq::new(
                k as nat,
                |i: int| point_line((first_id + i) as nat, pts[i]),
            ),
        decreases points@.len() - k,
    {
        let mut l = line_head(first_id + k as u64, "=CARTESIAN_POINT('',(");
        l.append(points[k].as_str());
        l.append("));");
        let ghost old_lines = lines@;
        lines.push(l);
        proof {
            assert(pts[k as int] == points@[k as int]@);
            assert(lines@.map_values(|l: String| l@) =~= old_lines.map_values(|l: String| l@).push(
                point_line((first_id + k) as nat, pts[k as int]),
            ));
        }
        k += 1;
    }
    let m = tris.len();
    let mut j: usize = 0;
    while j < m
        invariant
            j <= m,
            m == tris@.len(),
            tris@ == triangles_kept(n, indices@),
            n == points@.len(),
            np == n,
            n > 0,
            indices@.len() > 0,
            frs == frames@.map_values(|f: (String, String)| (f.0@, f.1@)),
            frames@.len() == m,
            first_id + n <= u64::MAX,
            m > 0 ==> first_id + n + 10 * m + 13 <= u64::MAX,
            forall|t: int|
                0 <= t < tris@.len() ==> (#[trigger] tris@[t]).0 < n && tris@[t].1 < n
                    && tris@[t].2 < n,
            lines@.map_values(|l: String| l@) == point_lines(first_id as nat, pts) + face_lines(
                first_id as nat,
                n,
                tris@,
                frs,
                j as int,
            ),
        decreases m - j,
    {
        let base = first_id + np + 10 * (j as u64);
        let t = tris[j];
        let mut more = triangle_entities(first_id, base, t, &frames[j]);
        let ghost old_lines = lines@;
        let ghost more_lines = more@;
        lines.append(&mut more);
        proof {
            assert(frs[j as int] == (frames@[j as int].0@, frames@[j as int].1@));
            assert(lines@.map_values(|l: String| l@) =~= old_lines.map_values(|l: String| l@)
                + more_lines.map_values(|l: String| l@));
        }
        j += 1;
    }
    if m == 0 {
        return (lines, first_id + np, None);
    }
    let s = first_id + np + 10 * (m as u64);
    let label = if product_name.is_empty() {
        "Part"
    } else {
        product_name
    };
    let escaped = escape_step_string(label);
    let refs = face_refs_text(first_id + np, m as u64);
    let mut tail = closing_entities(s, escaped.as_str(), geom_context, app_context, refs.as_str());
    let ghost old_lines = lines@;
    let ghost tail_lines = tail@;
    lines.append(&mut tail);
    proof {
        assert(label@ == product_label(product_name@));
        assert(lines@.map_values(|l: String| l@) =~= old_lines.map_values(|l: String| l@)
            + tail_lines.map_values(|l: String| l@));
    }
    (lines, s + 13, Some(s + 1))
}

} // verus!
