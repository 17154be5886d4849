//! Boundary geometry: regions made of rings of vertices, and the closed
//! canvas paths that draw them.
//!
//! Every ring becomes one path. A vertex that could not be read is left out
//! of its ring; the ring itself is still drawn from the vertices that remain.

use vstd::prelude::*;
use vstd::string::StringExecFns;
use crate::text::{text_equal, texts};
use crate::projection::{
    pixel_text,
    project,
    projected,
    push_hundredths,
    Degrees,
    PixelPoint,
};

verus! {

/// A geographic position.
#[derive(Clone, Copy, Debug, PartialEq, Eq, Structural)]
pub struct LonLat {
    pub lon: Degrees,
    pub lat: Degrees,
}

/// One closed loop of vertices, an outer boundary or a hole. `None` stands
/// for a vertex whose coordinates could not be read. The loop is closed
/// whether or not its last vertex repeats the first.
#[derive(Clone, Debug)]
pub struct Ring {
    pub vertices: Vec<Option<LonLat>>,
}

impl View for Ring {
    type V = Seq<Option<LonLat>>;

    open spec fn view(&self) -> Seq<Option<LonLat>> {
        self.vertices@
    }
}

/// The outline of one region.
#[derive(Clone, Debug)]
pub enum Geometry {
    /// An outer ring followed by its holes.
    Polygon(Vec<Ring>),
    /// Several polygons, each an outer ring followed by its holes.
    MultiPolygon(Vec<Vec<Ring>>),
    /// A geometry of any other kind; it draws nothing.
    Unrecognized,
}

/// The mathematical model of a [`Geometry`].
pub enum GeometryView {
    Polygon(Seq<Seq<Option<LonLat>>>),
    MultiPolygon(Seq<Seq<Seq<Option<LonLat>>>>),
    Unrecognized,
}

/// The models of a sequence of rings.
pub open spec fn ring_views(rings: Seq<Ring>) -> Seq<Seq<Option<LonLat>>> {
    rings.map_values(|r: Ring| r@)
}

impl View for Geometry {
    type V = GeometryView;

    open spec fn view(&self) -> GeometryView {
        match self {
            Geometry::Polygon(rings) => GeometryView::Polygon(ring_views(rings@)),
            Geometry::MultiPolygon(polygons) => GeometryView::MultiPolygon(
                polygons@.map_values(|p: Vec<Ring>| ring_views(p@)),
            ),
            Geometry::Unrecognized => GeometryView::Unrecognized,
        }
    }
}

impl GeometryView {
    /// The rings in the order in which they are drawn: those of a polygon as
    /// they stand, those of a multi-polygon polygon by polygon.
    pub open spec fn rings(self) -> Seq<Seq<Option<LonLat>>> {
        match self {
            GeometryView::Polygon(rings) => rings,
            GeometryView::MultiPolygon(polygons) => polygons.flatten(),
            GeometryView::Unrecognized => Seq::empty(),
        }
    }
}

/// One drawing instruction of a path.
#[derive(Clone, Copy, Debug, PartialEq, Eq, Structural)]
pub enum PathStep {
    /// Start the outline at a point.
    MoveTo(PixelPoint),
    /// Draw a straight line to a point.
    LineTo(PixelPoint),
    /// Draw back to the start of the outline.
    Close,
}

/// The canvas position of a vertex, where it has one.
pub open spec fn vertex_point(v: Option<LonLat>) -> Option<PixelPoint> {
    match v {
        Some(p) => Some(projected(p.lon, p.lat)),
        None => None,
    }
}

/// The canvas positions of the vertices of a ring that could be read, in
/// the order of the ring.
pub open spec fn usable_points(ring: Seq<Option<LonLat>>) -> Seq<PixelPoint> {
    ring.filter_map(|v: Option<LonLat>| vertex_point(v))
}

/// The outline through `points`: a move to the first, a line to each of the
/// others, and one closing instruction, which is there also when there is no
/// point at all.
pub open spec fn outline(points: Seq<PixelPoint>) -> Seq<PathStep> {
    Seq::new(
        points.len() + 1,
        |i: int|
            if i == points.len() {
                PathStep::Close
            } else if i == 0 {
                PathStep::MoveTo(points[i])
            } else {
                PathStep::LineTo(points[i])
            },
    )
}

/// The drawing instructions of a ring.
pub open spec fn ring_steps(ring: Seq<Option<LonLat>>) -> Seq<PathStep> {
    outline(usable_points(ring))
}

/// How one instruction is written: its letter and, for a move or a line, the
/// two pixel coordinates with two digits after the point, a comma between
/// them.
pub open spec fn step_text(step: PathStep) -> Seq<char> {
    match step {
        PathStep::MoveTo(p) => "M"@ + pixel_text(p.x as int, 2) + ","@ + pixel_text(p.y as int, 2),
        PathStep::LineTo(p) => "L"@ + pixel_text(p.x as int, 2) + ","@ + pixel_text(p.y as int, 2),
        PathStep::Close => "Z"@,
    }
}

/// The instructions written one after the other, with nothing between them.
pub open spec fn path_text(steps: Seq<PathStep>) -> Seq<char> {
    steps.map_values(|s: PathStep| step_text(s)).flatten()
}

/// The path data of each ring of a geometry, in drawing order.
pub open spec fn geometry_path_texts(geometry: GeometryView) -> Seq<Seq<char>> {
    geometry.rings().map_values(|ring: Seq<Option<LonLat>>| path_text(ring_steps(ring)))
}

impl Ring {
    /// A ring of the given vertices.
    pub fn new(vertices: Vec<Option<LonLat>>) -> (ring: Ring)
        ensures
            ring@ == vertices@,
    {
        Ring { vertices }
    }

    /// The drawing instructions of the ring.
    pub fn steps(&self) -> (steps: Vec<PathStep>)
        ensures
            steps@ == ring_steps(self@),
    {
        let ghost to_point = |v: Option<LonLat>| vertex_point(v);
        let mut steps: Vec<PathStep> = Vec::new();
        let mut i: usize = 0;
        while i < self.vertices.len()
            invariant
                i <= self.vertices.len(),
                to_point == |v: Option<LonLat>| vertex_point(v),
                steps@.len() == self@.take(i as int).filter_map(to_point).len(),
                forall|k: int|
                    0 <= k < steps@.len() ==> #[trigger] steps@[k] == outline(
                        self@.take(i as int).filter_map(to_point),
                    )[k],
            decreases self.vertices.len() - i,
        {
            proof {
                self@.lemma_filter_map_take_succ(to_point, i as int);
            }
            match self.vertices[i] {
                Some(position) => {
                    let point = project(position.lon, position.lat);
                    if steps.len() == 0 {
                        steps.push(PathStep::MoveTo(point));
                    } else {
                        steps.push(PathStep::LineTo(point));
                    }
                },
                None => {},
            }
            i += 1;
        }
        assert(self@.take(i as int) =~= self@);
        steps.push(PathStep::Close);
        assert(steps@ =~= ring_steps(self@));
        steps
    }
}

/// Appends the text of one instruction.
fn push_step(buf: &mut String, step: PathStep)
    ensures
        final(buf)@ == old(buf)@ + step_text(step),
{
    match step {
        PathStep::MoveTo(p) => {
            buf.append("M");
            push_hundredths(buf, p.x);
            buf.append(",");
            push_hundredths(buf, p.y);
        },
        PathStep::LineTo(p) => {
            buf.append("L");
            push_hundredths(buf, p.x);
            buf.append(",");
            push_hundredths(buf, p.y);
        },
        PathStep::Close => {
            buf.append("Z");
        },
    }
    assert(buf@ =~= old(buf)@ + step_text(step));
}

/// Writes a sequence of drawing instructions as path data.
pub fn steps_to_path(steps: &Vec<PathStep>) -> (d: String)
    ensures
        d@ == path_text(steps@),
{
    let ghost write = |s: PathStep| step_text(s);
    let mut d = String::new();
    let mut i: usize = 0;
    while i < steps.len()
        invariant
            i <= steps.len(),
            write == |s: PathStep| step_text(s),
            d@ == steps@.take(i as int).map_values(write).flatten(),
        decreases steps.len() - i,
    {
        proof {
            let done = steps@.take(i as int).map_values(write);
            assert(steps@.take(i + 1).map_values(write) =~= done.push(step_text(steps@[i as int])));
            done.lemma_flatten_push(step_text(steps@[i as int]));
        }
        push_step(&mut d, steps[i]);
        i += 1;
    }
    assert(steps@.take(i as int) =~= steps@);
    d
}

/// The path data of one ring: its usable vertices, projected, the first
/// as a move and the others as lines, then the closing instruction.
pub fn ring_to_path(ring: &Ring) -> (d: String)
    ensures
        d@ == path_text(ring_steps(ring@)),
{
    let steps = ring.steps();
    steps_to_path(&steps)
}

/// Appends the path data of each of `rings`, in order.
fn push_ring_paths(paths: &mut Vec<String>, rings: &Vec<Ring>)
    ensures
        texts(final(paths)@) == texts(old(paths)@) + ring_views(rings@).map_values(
            |ring: Seq<Option<LonLat>>| path_text(ring_steps(ring)),
        ),
{
    let ghost draw = |ring: Seq<Option<LonLat>>| path_text(ring_steps(ring));
    let mut i: usize = 0;
    while i < rings.len()
        invariant
            i <= rings.len(),
            draw == |ring: Seq<Option<LonLat>>| path_text(ring_steps(ring)),
            texts(paths@) == texts(old(paths)@) + ring_views(rings@.take(i as int)).map_values(
                draw,
            ),
        decreases rings.len() - i,
    {
        let d = ring_to_path(&rings[i]);
        let ghost before = paths@;
        paths.push(d);
        proof {
            assert(texts(paths@) =~= texts(before).push(d@));
            assert(rings@.take(i + 1) =~= rings@.take(i as int).push(rings@[i as int]));
            assert(ring_views(rings@.take(i + 1)).map_values(draw) =~= ring_views(
                rings@.take(i as int),
            ).map_values(draw).push(d@));
        }
        i += 1;
    }
    assert(rings@.take(i as int) =~= rings@);
}

/// The path data of every ring of a geometry, one path per ring, in the
/// order in which the rings stand: for a polygon the outer ring and then its
/// holes, for a multi-polygon polygon by polygon. A geometry of another kind
/// has no path.
pub fn geometry_paths(geometry: &Geometry) -> (paths: Vec<String>)
    ensures
        texts(paths@) == geometry_path_texts(geometry@),
{
    let ghost draw = |ring: Seq<Option<LonLat>>| path_text(ring_steps(ring));
    let mut paths: Vec<String> = Vec::new();
    match geometry {
        Geometry::Polygon(rings) => {
            push_ring_paths(&mut paths, rings);
            assert(texts(paths@) =~= geometry_path_texts(geometry@));
        },
        Geometry::MultiPolygon(polygons) => {
            let ghost models = polygons@.map_values(|p: Vec<Ring>| ring_views(p@));
            let mut i: usize = 0;
            while i < polygons.len()
                invariant
                    i <= polygons.len(),
                    draw == |ring: Seq<Option<LonLat>>| path_text(ring_steps(ring)),
                    models == polygons@.map_values(|p: Vec<Ring>| ring_views(p@)),
                    texts(paths@) == models.take(i as int).flatten().map_values(draw),
                decreases polygons.len() - i,
            {
                push_ring_paths(&mut paths, &polygons[i]);
                proof {
                    let done = models.take(i as int);
                    assert(models.take(i + 1) =~= done.push(models[i as int]));
                    done.lemma_flatten_push(models[i as int]);
                    assert((done.flatten() + models[i as int]).map_values(draw)
                        =~= done.flatten().map_values(draw) + models[i as int].map_values(draw));
                }
                i += 1;
            }
            assert(models.take(i as int) =~= models);
        },
        Geometry::Unrecognized => {
            assert(texts(paths@) =~= geometry_path_texts(geometry@));
        },
    }
    paths
}

/// Coordinates as a boundary dataset holds them: numbers nested in lists to
/// any depth, and whatever else may stand in their place.
#[derive(Debug)]
pub enum RawCoordinates {
    /// A number, read as an angle.
    Number(Degrees),
    /// A list of further coordinates.
    List(Vec<RawCoordinates>),
    /// Anything that is neither a number nor a list.
    Other,
}

/// A vertex is a list that begins with two numbers, longitude first. What
/// follows them is ignored. Anything else is no usable vertex.
pub open spec fn decoded_vertex(node: RawCoordinates) -> Option<LonLat> {
    match node {
        RawCoordinates::List(items) => if items@.len() >= 2 {
            match (items@[0], items@[1]) {
                (RawCoordinates::Number(lon), RawCoordinates::Number(lat)) => Some(
                    LonLat { lon, lat },
                ),
                _ => None,
            }
        } else {
            None
        },
        _ => None,
    }
}

/// A ring is a list; each of its entries stands for one vertex, usable or
/// not.
pub open spec fn decoded_ring(node: RawCoordinates) -> Option<Seq<Option<LonLat>>> {
    match node {
        RawCoordinates::List(items) => Some(
            items@.map_values(|n: RawCoordinates| decoded_vertex(n)),
        ),
        _ => None,
    }
}

/// The rings of a polygon: the entries of its list that are rings, in order.
/// What is no list holds no ring.
pub open spec fn decoded_rings(node: RawCoordinates) -> Seq<Seq<Option<LonLat>>> {
    match node {
        RawCoordinates::List(items) => items@.filter_map(|n: RawCoordinates| decoded_ring(n)),
        _ => Seq::empty(),
    }
}

/// A polygon of a multi-polygon is a list of rings.
pub open spec fn decoded_polygon(node: RawCoordinates) -> Option<Seq<Seq<Option<LonLat>>>> {
    match node {
        RawCoordinates::List(_) => Some(decoded_rings(node)),
        _ => None,
    }
}

/// The polygons of a multi-polygon: the entries of its list that are lists,
/// in order.
pub open spec fn decoded_polygons(node: RawCoordinates) -> Seq<Seq<Seq<Option<LonLat>>>> {
    match node {
        RawCoordinates::List(items) => items@.filter_map(
            |n: RawCoordinates| decoded_polygon(n),
        ),
        _ => Seq::empty(),
    }
}

/// The geometry that a kind tag and raw coordinates stand for. Only the tags
/// `Polygon` and `MultiPolygon` are known, in exactly this spelling.
pub open spec fn decoded_geometry(tag: Seq<char>, coordinates: RawCoordinates) -> GeometryView {
    if tag == "Polygon"@ {
        GeometryView::Polygon(decoded_rings(coordinates))
    } else if tag == "MultiPolygon"@ {
        GeometryView::MultiPolygon(decoded_polygons(coordinates))
    } else {
        GeometryView::Unrecognized
    }
}

fn decode_vertex(node: &RawCoordinates) -> (v: Option<LonLat>)
    ensures
        v == decoded_vertex(*node),
{
    match node {
        RawCoordinates::List(items) => {
            if items.len() >= 2 {
                match (&items[0], &items[1]) {
                    (RawCoordinates::Number(lon), RawCoordinates::Number(lat)) => Some(
                        LonLat { lon: *lon, lat: *lat },
                    ),
                    _ => None,
                }
            } else {
                None
            }
        },
        _ => None,
    }
}

fn decode_ring(node: &RawCoordinates) -> (ring: Option<Ring>)
    ensures
        ring is Some <==> decoded_ring(*node) is Some,
        ring matches Some(r) ==> r@ == decoded_ring(*node).unwrap(),
{
    match node {
        RawCoordinates::List(items) => {
            let mut vertices: Vec<Option<LonLat>> = Vec::new();
            let mut i: usize = 0;
            while i < items.len()
                invariant
                    i <= items.len(),
                    vertices@ == items@.take(i as int).map_values(
                        |n: RawCoordinates| decoded_vertex(n),
                    ),
                decreases items.len() - i,
            {
                let v = decode_vertex(&items[i]);
                vertices.push(v);
                assert(vertices@ =~= items@.take(i + 1).map_values(
                    |n: RawCoordinates| decoded_vertex(n),
                ));
                i += 1;
            }
            assert(items@.take(i as int) =~= items@);
            Some(Ring { vertices })
        },
        _ => None,
    }
}

fn decode_rings(node: &RawCoordinates) -> (rings: Vec<Ring>)
    ensures
        ring_views(rings@) == decoded_rings(*node),
{
    let mut rings: Vec<Ring> = Vec::new();
    match node {
        RawCoordinates::List(items) => {
            let ghost read = |n: RawCoordinates| decoded_ring(n);
            let mut i: usize = 0;
            while i < items.len()
                invariant
                    i <= items.len(),
                    read == |n: RawCoordinates| decoded_ring(n),
                    ring_views(rings@) == items@.take(i as int).filter_map(read),
                decreases items.len() - i,
            {
                proof {
                    items@.lemma_filter_map_take_succ(read, i as int);
                }
                let ghost before = rings@;
                match decode_ring(&items[i]) {
                    Some(ring) => {
                        rings.push(ring);
                        assert(ring_views(rings@) =~= ring_views(before) + seq![ring@]);
                    },
                    None => {},
                }
                i += 1;
            }
            assert(items@.take(i as int) =~= items@);
        },
        _ => {
            assert(ring_views(rings@) =~= Seq::empty());
        },
    }
    rings
}

fn decode_polygons(node: &RawCoordinates) -> (polygons: Vec<Vec<Ring>>)
    ensures
        polygons@.map_values(|p: Vec<Ring>| ring_views(p@)) == decoded_polygons(*node),
{
    let ghost model = |p: Vec<Ring>| ring_views(p@);
    let mut polygons: Vec<Vec<Ring>> = Vec::new();
    match node {
        RawCoordinates::List(items) => {
            let ghost read = |n: RawCoordinates| decoded_polygon(n);
            let mut i: usize = 0;
            while i < items.len()
                invariant
                    i <= items.len(),
                    read == |n: RawCoordinates| decoded_polygon(n),
                    model == |p: Vec<Ring>| ring_views(p@),
                    polygons@.map_values(model) == items@.take(i as int).filter_map(read),
                decreases items.len() - i,
            {
                proof {
                    items@.lemma_filter_map_take_succ(read, i as int);
                }
                let ghost before = polygons@;
                match &items[i] {
                    RawCoordinates::List(_) => {
                        let rings = decode_rings(&items[i]);
                        polygons.push(rings);
                        assert(polygons@.map_values(model) =~= before.map_values(model)
                            + seq![ring_views(rings@)]);
                    },
                    _ => {},
                }
                i += 1;
            }
            assert(items@.take(i as int) =~= items@);
        },
        _ => {
            assert(polygons@.map_values(model) =~= Seq::empty());
        },
    }
    polygons
}

impl Geometry {
    /// Reads a geometry from its kind tag and its raw coordinates. An entry
    /// that does not have the shape its place asks for is left out: a vertex
    /// from its ring, a ring from its polygon, a polygon from its
    /// multi-polygon. An unknown tag gives [`Geometry::Unrecognized`].
    pub fn decode(tag: &str, coordinates: &RawCoordinates) -> (geometry: Geometry)
        ensures
            geometry@ == decoded_geometry(tag@, *coordinates),
    {
        if text_equal(tag, "Polygon") {
            Geometry::Polygon(decode_rings(coordinates))
        } else if text_equal(tag, "MultiPolygon") {
            Geometry::MultiPolygon(decode_polygons(coordinates))
        } else {
            Geometry::Unrecognized
        }
    }
}

/// The shape of an outline: as many instructions as points and one more;
/// the last one closes, and no other does; the first point is moved to and
/// every later point is reached by a line.
pub proof fn lemma_outline_shape(points: Seq<PixelPoint>)
    ensures
        outline(points).len() == points.len() + 1,
        outline(points).last() == PathStep::Close,
        points.len() > 0 ==> outline(points)[0] == PathStep::MoveTo(points[0]),
        forall|i: int|
            0 < i < points.len() ==> #[trigger] outline(points)[i] == PathStep::LineTo(points[i]),
{
}

/// Every ring closes, whatever its vertices: a ring with no vertex that
/// could be read is drawn as the closing instruction alone.
pub proof fn lemma_ring_closes(ring: Seq<Option<LonLat>>)
    ensures
        ring_steps(ring).len() == usable_points(ring).len() + 1,
        ring_steps(ring).last() == PathStep::Close,
        path_text(ring_steps(ring)) == path_text(ring_steps(ring).drop_last()) + step_text(
            PathStep::Close,
        ),
{
    let steps = ring_steps(ring);
    let write = |s: PathStep| step_text(s);
    assert(steps.map_values(write) =~= steps.drop_last().map_values(write).push(
        step_text(PathStep::Close),
    ));
    steps.drop_last().map_values(write).lemma_flatten_push(step_text(PathStep::Close));
}

/// Whether a vertex could be read.
pub open spec fn readable() -> spec_fn(Option<LonLat>) -> bool {
    |v: Option<LonLat>| v is Some
}

/// A vertex that could not be read is dropped and nothing else is: the ring
/// is drawn exactly as the ring of its readable vertices.
pub proof fn lemma_unreadable_vertices_are_dropped(ring: Seq<Option<LonLat>>)
    ensures
        usable_points(ring) == usable_points(ring.filter(readable())),
        ring_steps(ring) == ring_steps(ring.filter(readable())),
    decreases ring.len(),
{
    let to_point = |v: Option<LonLat>| vertex_point(v);
    reveal(Seq::filter);
    if ring.len() > 0 {
        let front = ring.drop_last();
        lemma_unreadable_vertices_are_dropped(front);
        assert(ring =~= front.push(ring.last()));
        front.lemma_filter_push(ring.last(), readable());
        if ring.last() is Some {
            let kept = front.filter(readable());
            assert(kept.push(ring.last()).drop_last() =~= kept);
        }
    }
}

} // verus!
