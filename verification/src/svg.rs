//! The map document: a vector drawing of the relay census over the country
//! boundaries, with a legend and a ranking of countries.
//!
//! The document is assembled from layers in a fixed order, each drawn over
//! the ones before it: background, graticule, boundaries, relay dots, legend,
//! country ranking. Every position in it comes from the projection and from
//! the canvas size.

use vstd::prelude::*;
use vstd::string::StringExecFns;
use crate::geometry::{geometry_path_texts, geometry_paths, Geometry, GeometryView};
use crate::projection::{
    pixel_text,
    project,
    projected,
    projected_x,
    projected_y,
    push_tenths,
    Degrees,
    CANVAS_HEIGHT,
    CANVAS_WIDTH,
    MICRO_PER_DEGREE,
    UNITS_PER_PIXEL,
};
use crate::relay::{
    classify,
    exit_marker,
    flags_hold,
    guard_marker,
    holds_flag,
    relay_views,
    role_color,
    role_label,
    role_of,
    role_radius,
    Relay,
    RelayView,
    Role,
};
use crate::tally::{country_counts, country_ranking, entry_views, Entry};
use crate::text::{decimal_text, push_all, push_decimal, texts};

verus! {

/// Degrees between two neighbouring lines of the graticule.
pub const GRATICULE_STEP: i32 = 30;

/// Left edge of the legend, in pixels.
pub const LEGEND_LEFT: i64 = 16;

/// Height of one legend row, in pixels.
pub const LEGEND_ROW: i64 = 18;

/// The most countries that the ranking shows.
pub const RANKING_ROWS: usize = 10;

/// Height of one row of the ranking, in pixels.
pub const RANKING_ROW: i64 = 12;

/// One named region of the boundary dataset.
#[derive(Clone, Debug)]
pub struct BoundaryFeature {
    pub name: String,
    pub geometry: Geometry,
}

/// The mathematical model of a [`BoundaryFeature`].
pub struct FeatureView {
    pub name: Seq<char>,
    pub geometry: GeometryView,
}

impl View for BoundaryFeature {
    type V = FeatureView;

    open spec fn view(&self) -> FeatureView {
        FeatureView { name: self.name@, geometry: self.geometry@ }
    }
}

/// The models of a sequence of features.
pub open spec fn feature_views(features: Seq<BoundaryFeature>) -> Seq<FeatureView> {
    features.map_values(|f: BoundaryFeature| f@)
}

/// A whole number of pixels written with one digit after the point.
pub open spec fn whole_pixels(px: int) -> Seq<char> {
    pixel_text(px * UNITS_PER_PIXEL, 1)
}

/// The opening of the document: declaration, root element of the size of
/// the canvas, title and description.
pub open spec fn header_text() -> Seq<char> {
    "<?xml version=\"1.0\" encoding=\"UTF-8\"?>\n<svg xmlns=\"http://www.w3.org/2000/svg\" width=\""@
        + decimal_text(CANVAS_WIDTH as nat) + "\" height=\""@ + decimal_text(CANVAS_HEIGHT as nat)
        + "\" viewBox=\"0 0 "@ + decimal_text(CANVAS_WIDTH as nat) + " "@ + decimal_text(
        CANVAS_HEIGHT as nat,
    )
        + "\">\n  <title>Tor Relay World Map</title>\n  <desc>Live Tor relay positions. Guards: purple, Exits: red, Middles: cyan.</desc>\n"@
}

/// The background: one dark rectangle over the whole canvas.
pub open spec fn background_text() -> Seq<char> {
    "  <rect width='"@ + decimal_text(CANVAS_WIDTH as nat) + "' height='"@ + decimal_text(
        CANVAS_HEIGHT as nat,
    ) + "' fill='#0f172a'/>\n"@
}

/// The vertical line of the graticule at a longitude of `lon` whole degrees,
/// from the top of the canvas to its bottom.
pub open spec fn meridian_text(lon: int) -> Seq<char> {
    let x = pixel_text(projected_x(lon * MICRO_PER_DEGREE), 1);
    "    <line x1='"@ + x + "' y1='0' x2='"@ + x + "' y2='"@ + decimal_text(CANVAS_HEIGHT as nat)
        + "'/>\n"@
}

/// The horizontal line of the graticule at a latitude of `lat` whole
/// degrees, from the left edge of the canvas to its right edge.
pub open spec fn parallel_text(lat: int) -> Seq<char> {
    let y = pixel_text(projected_y(lat * MICRO_PER_DEGREE), 1);
    "    <line x1='0' y1='"@ + y + "' x2='"@ + decimal_text(CANVAS_WIDTH as nat) + "' y2='"@ + y
        + "'/>\n"@
}

/// The meridians from 180 degrees west to 180 degrees east, one every
/// [`GRATICULE_STEP`] degrees, west first.
pub open spec fn meridians() -> Seq<Seq<char>> {
    Seq::new(13, |i: int| meridian_text(-180 + GRATICULE_STEP * i))
}

/// The parallels from 90 degrees south to 90 degrees north, one every
/// [`GRATICULE_STEP`] degrees, south first.
pub open spec fn parallels() -> Seq<Seq<char>> {
    Seq::new(7, |i: int| parallel_text(-90 + GRATICULE_STEP * i))
}

/// The graticule: all meridians, then all parallels, in one group with a
/// thin stroke of low contrast.
pub open spec fn graticule_text() -> Seq<char> {
    "  <g stroke='#1e293b' stroke-width='0.4'>\n"@ + meridians().flatten() + parallels().flatten()
        + "  </g>\n"@
}

/// One path element with the given path data.
pub open spec fn path_element(d: Seq<char>) -> Seq<char> {
    "    <path d='"@ + d + "'/>\n"@
}

/// The path elements of one feature, one per ring.
pub open spec fn feature_text(feature: FeatureView) -> Seq<char> {
    geometry_path_texts(feature.geometry).map_values(|d: Seq<char>| path_element(d)).flatten()
}

/// The boundaries: the paths of every feature, in the order of the features,
/// in one group with the land fill.
pub open spec fn boundaries_text(features: Seq<FeatureView>) -> Seq<char> {
    "  <g fill='#1e3a5f' stroke='#334155' stroke-width='0.4'>\n"@ + features.map_values(
        |f: FeatureView| feature_text(f),
    ).flatten() + "  </g>\n"@
}

/// Whether a relay is drawn in the second pass, over the middle relays: it
/// is a guard or an exit.
pub open spec fn is_notable(r: RelayView) -> bool {
    role_of(r.flags) != Role::Middle
}

/// The dot of a relay at longitude `lon` and latitude `lat`: a circle at the
/// projected position, with the radius and colour of the relay's role.
pub open spec fn circle_text(r: RelayView, lon: Degrees, lat: Degrees) -> Seq<char> {
    let p = projected(lon, lat);
    let role = role_of(r.flags);
    "    <circle cx='"@ + pixel_text(p.x as int, 1) + "' cy='"@ + pixel_text(p.y as int, 1)
        + "' r='"@ + pixel_text(role_radius(role), 1) + "' fill='"@ + role_color(role)
        + "' opacity='0.85'/>\n"@
}

/// The dot that a relay adds to a pass: none where the relay belongs to the
/// other pass, and none where its latitude or its longitude is missing.
pub open spec fn dot_in_pass(r: RelayView, notable: bool) -> Option<Seq<char>> {
    if is_notable(r) == notable && r.longitude is Some && r.latitude is Some {
        Some(circle_text(r, r.longitude.unwrap(), r.latitude.unwrap()))
    } else {
        None
    }
}

/// The dots of one pass, in the order of the relays.
pub open spec fn pass_dots(relays: Seq<RelayView>, notable: bool) -> Seq<Seq<char>> {
    relays.filter_map(|r: RelayView| dot_in_pass(r, notable))
}

/// The relay dots: the pass of the middle relays, then the pass of guards
/// and exits, so that these lie on top.
pub open spec fn dots_text(relays: Seq<RelayView>) -> Seq<char> {
    "  <g>\n"@ + pass_dots(relays, false).flatten() + pass_dots(relays, true).flatten()
        + "  </g>\n"@
}

/// The relays that carry `flag`.
pub open spec fn carries(flag: Seq<char>) -> spec_fn(RelayView) -> bool {
    |r: RelayView| holds_flag(r.flags, flag)
}

/// How many of `relays` carry `flag`.
pub open spec fn flag_count(relays: Seq<RelayView>, flag: Seq<char>) -> nat {
    relays.filter(carries(flag)).len()
}

/// The counts that the legend reports, each taken on its own.
#[derive(Clone, Copy, Debug, PartialEq, Eq, Structural)]
pub struct RoleCounts {
    /// All relays, with or without a position or a country.
    pub total: usize,
    /// Relays that carry the guard marker.
    pub guards: usize,
    /// Relays that carry the exit marker.
    pub exits: usize,
    /// Relays that carry neither marker.
    pub middles: usize,
}

/// The relays that are drawn under `role`.
pub open spec fn drawn_as(role: Role) -> spec_fn(RelayView) -> bool {
    |r: RelayView| role_of(r.flags) == role
}

/// How many of `relays` are drawn as middle relays: those with neither the
/// guard marker nor the exit marker.
pub open spec fn middle_count(relays: Seq<RelayView>) -> nat {
    relays.filter(drawn_as(Role::Middle)).len()
}

/// The counts of a census. Each is taken on its own: a relay with both
/// markers is in the guard count and in the exit count, though it is drawn
/// once, as a guard. The three counts together may therefore exceed the
/// total.
pub open spec fn census_counts(relays: Seq<RelayView>) -> RoleCounts {
    RoleCounts {
        total: relays.len() as usize,
        guards: flag_count(relays, guard_marker()) as usize,
        exits: flag_count(relays, exit_marker()) as usize,
        middles: middle_count(relays) as usize,
    }
}

/// Top of the legend rows, in pixels.
pub open spec fn legend_top() -> int {
    CANVAS_HEIGHT - 70
}

/// The legend row of a role, `row` rows below the first: a swatch in the
/// colour of the role and the name of the role.
pub open spec fn legend_row_text(role: Role, row: int) -> Seq<char> {
    let y = legend_top() + LEGEND_ROW * row;
    "    <circle cx='"@ + whole_pixels(LEGEND_LEFT + 5) + "' cy='"@ + whole_pixels(y)
        + "' r='5' fill='"@ + role_color(role) + "'/>\n    <text x='"@ + whole_pixels(
        LEGEND_LEFT + 14,
    ) + "' y='"@ + whole_pixels(y + 4) + "'>"@ + role_label(role) + "</text>\n"@
}

/// The summary line of the legend.
pub open spec fn summary_text(counts: RoleCounts) -> Seq<char> {
    "    <text x='"@ + whole_pixels(LEGEND_LEFT as int) + "' y='"@ + whole_pixels(
        CANVAS_HEIGHT - 10,
    ) + "' fill='#64748b'>total: "@ + decimal_text(counts.total as nat) + "  guards: "@
        + decimal_text(counts.guards as nat) + "  exits: "@ + decimal_text(counts.exits as nat)
        + "  middles: "@ + decimal_text(counts.middles as nat) + "</text>\n"@
}

/// The legend: a row for middle, guard and exit, in this order, and the
/// summary line.
pub open spec fn legend_text(counts: RoleCounts) -> Seq<char> {
    "  <g font-family='monospace' font-size='11' fill='#cbd5e1'>\n"@ + legend_row_text(
        Role::Middle,
        0,
    ) + legend_row_text(Role::Guard, 1) + legend_row_text(Role::Exit, 2) + summary_text(counts)
        + "  </g>\n"@
}

/// Left edge of the ranking, in pixels.
pub open spec fn ranking_left() -> int {
    CANVAS_WIDTH - 90
}

/// The line of the ranking for `entry`, `row` rows below the first.
pub open spec fn ranking_row_text(entry: Entry, row: int) -> Seq<char> {
    "    <text x='"@ + whole_pixels(ranking_left()) + "' y='"@ + whole_pixels(
        34 + RANKING_ROW * row,
    ) + "'>"@ + entry.0 + "  "@ + decimal_text(entry.1) + "</text>\n"@
}

/// The entries that the ranking shows: the first [`RANKING_ROWS`], or all
/// where there are fewer.
pub open spec fn shown_entries(ranking: Seq<Entry>) -> Seq<Entry> {
    if ranking.len() <= RANKING_ROWS {
        ranking
    } else {
        ranking.take(RANKING_ROWS as int)
    }
}

/// The lines of the ranking.
pub open spec fn ranking_rows(ranking: Seq<Entry>) -> Seq<Seq<char>> {
    Seq::new(shown_entries(ranking).len(), |i: int| ranking_row_text(shown_entries(ranking)[i], i))
}

/// The country ranking: a heading and the lines of the ranking, in rank
/// order.
pub open spec fn sidebar_text(ranking: Seq<Entry>) -> Seq<char> {
    "  <g font-family='monospace' font-size='10' fill='#94a3b8'>\n    <text x='"@ + whole_pixels(
        ranking_left(),
    ) + "' y='"@ + whole_pixels(20) + "' font-size='11' fill='#cbd5e1'>Top countries</text>\n"@
        + ranking_rows(ranking).flatten() + "  </g>\n"@
}

/// The document assembled from its layers, for given counts and a given
/// ranking.
pub open spec fn document_text(
    relays: Seq<RelayView>,
    counts: RoleCounts,
    ranking: Seq<Entry>,
    features: Seq<FeatureView>,
) -> Seq<char> {
    header_text() + background_text() + graticule_text() + boundaries_text(features) + dots_text(
        relays,
    ) + legend_text(counts) + sidebar_text(ranking) + "</svg>\n"@
}

/// The map of a census over the boundary features.
pub open spec fn svg_document(relays: Seq<RelayView>, features: Seq<FeatureView>) -> Seq<char> {
    document_text(relays, census_counts(relays), country_ranking(relays), features)
}

/// Appends a whole number of pixels with one digit after the point.
fn push_whole_pixels(buf: &mut String, px: i64)
    ensures
        final(buf)@ == old(buf)@ + whole_pixels(px as int),
{
    let wide: i128 = px as i128;
    let unit: i128 = UNITS_PER_PIXEL as i128;
    push_tenths(buf, wide * unit);
}

/// Appends the width of the canvas as a whole number.
fn push_width(buf: &mut String)
    ensures
        final(buf)@ == old(buf)@ + decimal_text(CANVAS_WIDTH as nat),
{
    push_decimal(buf, 1200);
}

/// Appends the height of the canvas as a whole number.
fn push_height(buf: &mut String)
    ensures
        final(buf)@ == old(buf)@ + decimal_text(CANVAS_HEIGHT as nat),
{
    push_decimal(buf, 600);
}

fn push_header(buf: &mut String)
    ensures
        final(buf)@ == old(buf)@ + header_text(),
{
    buf.append(
        "<?xml version=\"1.0\" encoding=\"UTF-8\"?>\n<svg xmlns=\"http://www.w3.org/2000/svg\" width=\"",
    );
    push_width(buf);
    buf.append("\" height=\"");
    push_height(buf);
    buf.append("\" viewBox=\"0 0 ");
    push_width(buf);
    buf.append(" ");
    push_height(buf);
    buf.append(
        "\">\n  <title>Tor Relay World Map</title>\n  <desc>Live Tor relay positions. Guards: purple, Exits: red, Middles: cyan.</desc>\n",
    );
    assert(buf@ =~= old(buf)@ + header_text());
}

fn push_background(buf: &mut String)
    ensures
        final(buf)@ == old(buf)@ + background_text(),
{
    buf.append("  <rect width='");
    push_width(buf);
    buf.append("' height='");
    push_height(buf);
    buf.append("' fill='#0f172a'/>\n");
    assert(buf@ =~= old(buf)@ + background_text());
}

fn push_meridian(buf: &mut String, lon: i32)
    ensures
        final(buf)@ == old(buf)@ + meridian_text(lon as int),
{
    let p = project(Degrees::from_whole(lon), Degrees::from_whole(0));
    buf.append("    <line x1='");
    push_tenths(buf, p.x);
    buf.append("' y1='0' x2='");
    push_tenths(buf, p.x);
    buf.append("' y2='");
    push_height(buf);
    buf.append("'/>\n");
    assert(buf@ =~= old(buf)@ + meridian_text(lon as int));
}

fn push_parallel(buf: &mut String, lat: i32)
    ensures
        final(buf)@ == old(buf)@ + parallel_text(lat as int),
{
    let p = project(Degrees::from_whole(0), Degrees::from_whole(lat));
    buf.append("    <line x1='0' y1='");
    push_tenths(buf, p.y);
    buf.append("' x2='");
    push_width(buf);
    buf.append("' y2='");
    push_tenths(buf, p.y);
    buf.append("'/>\n");
    assert(buf@ =~= old(buf)@ + parallel_text(lat as int));
}

fn push_graticule(buf: &mut String)
    ensures
        final(buf)@ == old(buf)@ + graticule_text(),
{
    buf.append("  <g stroke='#1e293b' stroke-width='0.4'>\n");
    let ghost opened = buf@;
    let ghost meridian = |i: int| meridian_text(-180 + GRATICULE_STEP * i);
    let mut i: i32 = 0;
    assert(buf@ =~= opened + Seq::new(0, meridian).flatten());
    while i < 13
        invariant
            0 <= i <= 13,
            meridian == |i: int| meridian_text(-180 + GRATICULE_STEP * i),
            buf@ == opened + Seq::new(i as nat, meridian).flatten(),
        decreases 13 - i,
    {
        proof {
            let done = Seq::new(i as nat, meridian);
            assert(Seq::new((i + 1) as nat, meridian) =~= done.push(meridian(i as int)));
            done.lemma_flatten_push(meridian(i as int));
        }
        push_meridian(buf, -180 + GRATICULE_STEP * i);
        assert(buf@ =~= opened + Seq::new((i + 1) as nat, meridian).flatten());
        i += 1;
    }
    assert(Seq::new(13, meridian) =~= meridians());
    let ghost middle = buf@;
    let ghost parallel = |i: int| parallel_text(-90 + GRATICULE_STEP * i);
    let mut j: i32 = 0;
    assert(buf@ =~= middle + Seq::new(0, parallel).flatten());
    while j < 7
        invariant
            0 <= j <= 7,
            parallel == |i: int| parallel_text(-90 + GRATICULE_STEP * i),
            buf@ == middle + Seq::new(j as nat, parallel).flatten(),
        decreases 7 - j,
    {
        proof {
            let done = Seq::new(j as nat, parallel);
            assert(Seq::new((j + 1) as nat, parallel) =~= done.push(parallel(j as int)));
            done.lemma_flatten_push(parallel(j as int));
        }
        push_parallel(buf, -90 + GRATICULE_STEP * j);
        assert(buf@ =~= middle + Seq::new((j + 1) as nat, parallel).flatten());
        j += 1;
    }
    assert(Seq::new(7, parallel) =~= parallels());
    buf.append("  </g>\n");
    assert(buf@ =~= old(buf)@ + graticule_text());
}

fn push_feature(buf: &mut String, feature: &BoundaryFeature)
    ensures
        final(buf)@ == old(buf)@ + feature_text(feature@),
{
    let ghost start = buf@;
    let ghost wrap = |d: Seq<char>| path_element(d);
    let paths = geometry_paths(&feature.geometry);
    let ghost data = texts(paths@);
    let mut i: usize = 0;
    assert(data.take(0).map_values(wrap) =~= Seq::<Seq<char>>::empty());
    assert(buf@ =~= start + data.take(0).map_values(wrap).flatten());
    while i < paths.len()
        invariant
            i <= paths.len(),
            wrap == |d: Seq<char>| path_element(d),
            data == texts(paths@),
            buf@ == start + data.take(i as int).map_values(wrap).flatten(),
        decreases paths.len() - i,
    {
        let ghost before = buf@;
        proof {
            let done = data.take(i as int).map_values(wrap);
            assert(data.take(i + 1).map_values(wrap) =~= done.push(path_element(paths@[i as int]@)));
            done.lemma_flatten_push(path_element(paths@[i as int]@));
        }
        buf.append("    <path d='");
        buf.append(paths[i].as_str());
        buf.append("'/>\n");
        assert(buf@ =~= before + path_element(paths@[i as int]@));
        assert(buf@ =~= start + data.take(i + 1).map_values(wrap).flatten());
        i += 1;
    }
    assert(data.take(i as int) =~= data);
}

fn push_boundaries(buf: &mut String, features: &Vec<BoundaryFeature>)
    ensures
        final(buf)@ == old(buf)@ + boundaries_text(feature_views(features@)),
{
    buf.append("  <g fill='#1e3a5f' stroke='#334155' stroke-width='0.4'>\n");
    let ghost opened = buf@;
    let ghost draw = |f: FeatureView| feature_text(f);
    let ghost all = feature_views(features@);
    let mut i: usize = 0;
    assert(all.take(0).map_values(draw) =~= Seq::<Seq<char>>::empty());
    assert(buf@ =~= opened + all.take(0).map_values(draw).flatten());
    while i < features.len()
        invariant
            i <= features.len(),
            draw == |f: FeatureView| feature_text(f),
            all == feature_views(features@),
            buf@ == opened + all.take(i as int).map_values(draw).flatten(),
        decreases features.len() - i,
    {
        proof {
            let done = all.take(i as int).map_values(draw);
            assert(all.take(i + 1).map_values(draw) =~= done.push(feature_text(features@[i as int]@)));
            done.lemma_flatten_push(feature_text(features@[i as int]@));
        }
        push_feature(buf, &features[i]);
        assert(buf@ =~= opened + all.take(i + 1).map_values(draw).flatten());
        i += 1;
    }
    assert(all.take(i as int) =~= all);
    buf.append("  </g>\n");
    assert(buf@ =~= old(buf)@ + boundaries_text(feature_views(features@)));
}

/// The dot of a relay at the given position.
fn circle(relay: &Relay, lon: Degrees, lat: Degrees) -> (dot: String)
    ensures
        dot@ == circle_text(relay@, lon, lat),
{
    let p = project(lon, lat);
    let class = classify(&relay.flags);
    let mut dot = String::new();
    dot.append("    <circle cx='");
    push_tenths(&mut dot, p.x);
    dot.append("' cy='");
    push_tenths(&mut dot, p.y);
    dot.append("' r='");
    push_tenths(&mut dot, class.radius);
    dot.append("' fill='");
    dot.append(class.color);
    dot.append("' opacity='0.85'/>\n");
    assert(dot@ =~= circle_text(relay@, lon, lat));
    dot
}

/// The dots of one pass over the census, in the order of the relays: the
/// pass of guards and exits where `notable` is set, else the pass of the
/// middle relays. A relay without a latitude or without a longitude has no
/// dot.
pub fn dots_of_pass(relays: &Vec<Relay>, notable: bool) -> (dots: Vec<String>)
    ensures
        texts(dots@) == pass_dots(relay_views(relays@), notable),
{
    let ghost all = relay_views(relays@);
    let ghost pick = |r: RelayView| dot_in_pass(r, notable);
    let mut dots: Vec<String> = Vec::new();
    let mut i: usize = 0;
    assert(texts(dots@) =~= all.take(0).filter_map(pick));
    while i < relays.len()
        invariant
            i <= relays.len(),
            all == relay_views(relays@),
            pick == |r: RelayView| dot_in_pass(r, notable),
            texts(dots@) == all.take(i as int).filter_map(pick),
        decreases relays.len() - i,
    {
        proof {
            all.lemma_filter_map_take_succ(pick, i as int);
            assert(all[i as int] == relays@[i as int]@);
        }
        let relay = &relays[i];
        let class = classify(&relay.flags);
        let drawn_now = match class.role {
            Role::Middle => !notable,
            _ => notable,
        };
        let ghost before = dots@;
        if drawn_now {
            match (relay.longitude, relay.latitude) {
                (Some(lon), Some(lat)) => {
                    let dot = circle(relay, lon, lat);
                    dots.push(dot);
                    assert(texts(dots@) =~= texts(before) + seq![dot@]);
                },
                _ => {},
            }
        }
        i += 1;
    }
    assert(all.take(i as int) =~= all);
    dots
}

fn push_dots(buf: &mut String, relays: &Vec<Relay>)
    ensures
        final(buf)@ == old(buf)@ + dots_text(relay_views(relays@)),
{
    buf.append("  <g>\n");
    let below = dots_of_pass(relays, false);
    push_all(buf, &below);
    let above = dots_of_pass(relays, true);
    push_all(buf, &above);
    buf.append("  </g>\n");
    assert(buf@ =~= old(buf)@ + dots_text(relay_views(relays@)));
}

/// Adding one relay to a census adds one to the count of each flag that it
/// carries; no count exceeds the number of relays.
pub proof fn lemma_flag_count_push(relays: Seq<RelayView>, r: RelayView, flag: Seq<char>)
    ensures
        flag_count(relays.push(r), flag) == flag_count(relays, flag) + (if holds_flag(
            r.flags,
            flag,
        ) {
            1nat
        } else {
            0nat
        }),
        flag_count(relays, flag) <= relays.len(),
{
    relays.lemma_filter_push(r, carries(flag));
    relays.lemma_filter_len(carries(flag));
}

/// Adding one relay to a census adds one to the middle count where it
/// carries neither marker; the count does not exceed the number of relays.
pub proof fn lemma_middle_count_push(relays: Seq<RelayView>, r: RelayView)
    ensures
        middle_count(relays.push(r)) == middle_count(relays) + (if holds_flag(
            r.flags,
            guard_marker(),
        ) || holds_flag(r.flags, exit_marker()) {
            0nat
        } else {
            1nat
        }),
        middle_count(relays) <= relays.len(),
{
    relays.lemma_filter_push(r, drawn_as(Role::Middle));
    relays.lemma_filter_len(drawn_as(Role::Middle));
}

/// Counts the census for the legend, each count on its own: all relays,
/// those with the guard marker, those with the exit marker, and those with
/// neither.
pub fn role_counts(relays: &Vec<Relay>) -> (counts: RoleCounts)
    ensures
        counts == census_counts(relay_views(relays@)),
{
    let ghost all = relay_views(relays@);
    let mut guards: usize = 0;
    let mut exits: usize = 0;
    let mut middles: usize = 0;
    let mut i: usize = 0;
    proof {
        all.take(0).lemma_filter_len(carries(guard_marker()));
        all.take(0).lemma_filter_len(carries(exit_marker()));
        all.take(0).lemma_filter_len(drawn_as(Role::Middle));
    }
    while i < relays.len()
        invariant
            i <= relays.len(),
            all == relay_views(relays@),
            guards == flag_count(all.take(i as int), guard_marker()),
            exits == flag_count(all.take(i as int), exit_marker()),
            middles == middle_count(all.take(i as int)),
            guards <= i,
            exits <= i,
            middles <= i,
        decreases relays.len() - i,
    {
        proof {
            assert(all.take(i + 1) =~= all.take(i as int).push(all[i as int]));
            assert(all[i as int] == relays@[i as int]@);
            lemma_flag_count_push(all.take(i as int), all[i as int], guard_marker());
            lemma_flag_count_push(all.take(i as int), all[i as int], exit_marker());
            lemma_middle_count_push(all.take(i as int), all[i as int]);
        }
        let is_guard = flags_hold(&relays[i].flags, "guard");
        let is_exit = flags_hold(&relays[i].flags, "exit");
        if is_guard {
            guards += 1;
        }
        if is_exit {
            exits += 1;
        }
        if !is_guard && !is_exit {
            middles += 1;
        }
        i += 1;
    }
    assert(all.take(i as int) =~= all);
    RoleCounts { total: relays.len(), guards, exits, middles }
}

fn push_legend_row(buf: &mut String, role: Role, row: i64)
    requires
        0 <= row <= 2,
    ensures
        final(buf)@ == old(buf)@ + legend_row_text(role, row as int),
{
    let y: i64 = CANVAS_HEIGHT - 70 + LEGEND_ROW * row;
    buf.append("    <circle cx='");
    push_whole_pixels(buf, LEGEND_LEFT + 5);
    buf.append("' cy='");
    push_whole_pixels(buf, y);
    buf.append("' r='5' fill='");
    buf.append(role.color());
    buf.append("'/>\n    <text x='");
    push_whole_pixels(buf, LEGEND_LEFT + 14);
    buf.append("' y='");
    push_whole_pixels(buf, y + 4);
    buf.append("'>");
    buf.append(role.label());
    buf.append("</text>\n");
    assert(buf@ =~= old(buf)@ + legend_row_text(role, row as int));
}

fn push_summary(buf: &mut String, counts: RoleCounts)
    ensures
        final(buf)@ == old(buf)@ + summary_text(counts),
{
    buf.append("    <text x='");
    push_whole_pixels(buf, LEGEND_LEFT);
    buf.append("' y='");
    push_whole_pixels(buf, CANVAS_HEIGHT - 10);
    buf.append("' fill='#64748b'>total: ");
    push_decimal(buf, counts.total as u128);
    buf.append("  guards: ");
    push_decimal(buf, counts.guards as u128);
    buf.append("  exits: ");
    push_decimal(buf, counts.exits as u128);
    buf.append("  middles: ");
    push_decimal(buf, counts.middles as u128);
    buf.append("</text>\n");
    assert(buf@ =~= old(buf)@ + summary_text(counts));
}

fn push_legend(buf: &mut String, counts: RoleCounts)
    ensures
        final(buf)@ == old(buf)@ + legend_text(counts),
{
    buf.append("  <g font-family='monospace' font-size='11' fill='#cbd5e1'>\n");
    push_legend_row(buf, Role::Middle, 0);
    push_legend_row(buf, Role::Guard, 1);
    push_legend_row(buf, Role::Exit, 2);
    push_summary(buf, counts);
    buf.append("  </g>\n");
    assert(buf@ =~= old(buf)@ + legend_text(counts));
}

fn push_ranking_row(buf: &mut String, code: &String, count: usize, row: usize)
    requires
        row < RANKING_ROWS,
    ensures
        final(buf)@ == old(buf)@ + ranking_row_text((code@, count as nat), row as int),
{
    let below: i64 = row as i64;
    buf.append("    <text x='");
    push_whole_pixels(buf, CANVAS_WIDTH - 90);
    buf.append("' y='");
    push_whole_pixels(buf, 34 + RANKING_ROW * below);
    buf.append("'>");
    buf.append(code.as_str());
    buf.append("  ");
    push_decimal(buf, count as u128);
    buf.append("</text>\n");
    assert(buf@ =~= old(buf)@ + ranking_row_text((code@, count as nat), row as int));
}

fn push_sidebar(buf: &mut String, ranking: &Vec<(String, usize)>)
    ensures
        final(buf)@ == old(buf)@ + sidebar_text(entry_views(ranking@)),
{
    let ghost entries = entry_views(ranking@);
    let ghost shown = shown_entries(entries);
    let ghost line = |i: int| ranking_row_text(shown[i], i);
    buf.append("  <g font-family='monospace' font-size='10' fill='#94a3b8'>\n    <text x='");
    push_whole_pixels(buf, CANVAS_WIDTH - 90);
    buf.append("' y='");
    push_whole_pixels(buf, 20);
    buf.append("' font-size='11' fill='#cbd5e1'>Top countries</text>\n");
    let ghost opened = buf@;
    let rows: usize = if ranking.len() <= RANKING_ROWS {
        ranking.len()
    } else {
        RANKING_ROWS
    };
    let mut i: usize = 0;
    assert(buf@ =~= opened + Seq::new(0, line).flatten());
    while i < rows
        invariant
            i <= rows,
            rows <= RANKING_ROWS,
            rows <= ranking.len(),
            rows == shown.len(),
            entries == entry_views(ranking@),
            shown == shown_entries(entries),
            line == |i: int| ranking_row_text(shown[i], i),
            buf@ == opened + Seq::new(i as nat, line).flatten(),
        decreases rows - i,
    {
        proof {
            let done = Seq::new(i as nat, line);
            assert(Seq::new((i + 1) as nat, line) =~= done.push(line(i as int)));
            done.lemma_flatten_push(line(i as int));
            assert(shown[i as int] == (ranking@[i as int].0@, ranking@[i as int].1 as nat));
        }
        push_ranking_row(buf, &ranking[i].0, ranking[i].1, i);
        assert(buf@ =~= opened + Seq::new((i + 1) as nat, line).flatten());
        i += 1;
    }
    assert(Seq::new(rows as nat, line) =~= ranking_rows(entries));
    buf.append("  </g>\n");
    assert(buf@ =~= old(buf)@ + sidebar_text(entries));
}

/// Draws the map of a census over the boundary features. Every input has a
/// map: a relay without a position has no dot and is still counted, a
/// vertex that could not be read is left out of its ring, and a geometry of
/// an unknown kind draws nothing.
pub fn render_svg(relays: &Vec<Relay>, features: &Vec<BoundaryFeature>) -> (doc: String)
    ensures
        doc@ == svg_document(relay_views(relays@), feature_views(features@)),
{
    let mut doc = String::new();
    push_header(&mut doc);
    push_background(&mut doc);
    push_graticule(&mut doc);
    push_boundaries(&mut doc, features);
    push_dots(&mut doc, relays);
    let counts = role_counts(relays);
    push_legend(&mut doc, counts);
    let ranking = country_counts(relays);
    push_sidebar(&mut doc, &ranking);
    doc.append("</svg>\n");
    assert(doc@ =~= svg_document(relay_views(relays@), feature_views(features@)));
    doc
}

/// The map is a function of the census and the features: two renders of the
/// same input are the same text, character for character.
pub proof fn lemma_render_is_deterministic(
    relays_a: Seq<Relay>,
    features_a: Seq<BoundaryFeature>,
    relays_b: Seq<Relay>,
    features_b: Seq<BoundaryFeature>,
)
    requires
        relay_views(relays_a) == relay_views(relays_b),
        feature_views(features_a) == feature_views(features_b),
    ensures
        svg_document(relay_views(relays_a), feature_views(features_a)) == svg_document(
            relay_views(relays_b),
            feature_views(features_b),
        ),
{
}

/// The relays that have both a longitude and a latitude.
pub open spec fn positioned() -> spec_fn(RelayView) -> bool {
    |r: RelayView| r.longitude is Some && r.latitude is Some
}

/// Every relay with a position has its dot in exactly one of the two passes,
/// and a relay without one has none: the passes together hold as many dots
/// as there are relays with a position.
pub proof fn lemma_one_dot_for_each_position(relays: Seq<RelayView>)
    ensures
        pass_dots(relays, false).len() + pass_dots(relays, true).len() == relays.filter(
            positioned(),
        ).len(),
    decreases relays.len(),
{
    reveal(Seq::filter);
    if relays.len() > 0 {
        lemma_one_dot_for_each_position(relays.drop_last());
    }
}

/// The relays that carry the guard marker and the exit marker.
pub open spec fn guard_and_exit() -> spec_fn(RelayView) -> bool {
    |r: RelayView| holds_flag(r.flags, guard_marker()) && holds_flag(r.flags, exit_marker())
}

/// How the counts of the legend stand to the roles that are drawn. The
/// guard count is the number of relays drawn as guards. The exit count is
/// the number drawn as exits and, on top of it, the number of relays with
/// both markers, which are drawn as guards. The middle count is the number
/// drawn as middle. So the three counts together exceed the total by the
/// number of relays with both markers.
pub proof fn lemma_counts_against_roles(relays: Seq<RelayView>)
    ensures
        flag_count(relays, guard_marker()) == relays.filter(drawn_as(Role::Guard)).len(),
        flag_count(relays, exit_marker()) == relays.filter(drawn_as(Role::Exit)).len()
            + relays.filter(guard_and_exit()).len(),
        relays.filter(drawn_as(Role::Guard)).len() + relays.filter(drawn_as(Role::Exit)).len()
            + middle_count(relays) == relays.len(),
        relays.filter(guard_and_exit()).len() <= relays.filter(drawn_as(Role::Guard)).len(),
        flag_count(relays, guard_marker()) + flag_count(relays, exit_marker()) + middle_count(
            relays,
        ) == relays.len() + relays.filter(guard_and_exit()).len(),
    decreases relays.len(),
{
    reveal(Seq::filter);
    if relays.len() > 0 {
        lemma_counts_against_roles(relays.drop_last());
    }
}

} // verus!
