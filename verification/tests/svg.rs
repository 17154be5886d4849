use relay_map::geometry::{Geometry, LonLat, Ring};
use relay_map::projection::Degrees;
use relay_map::relay::Relay;
use relay_map::svg::{dots_of_pass, render_svg, role_counts, BoundaryFeature, RoleCounts};

fn relay(flags: &[&str], position: Option<(i32, i32)>, country: Option<&str>) -> Relay {
    Relay {
        flags: flags.iter().map(|f| f.to_string()).collect(),
        latitude: position.map(|(lat, _)| Degrees::from_whole(lat)),
        longitude: position.map(|(_, lon)| Degrees::from_whole(lon)),
        country: country.map(|c| c.to_string()),
    }
}

fn at(lon: i32, lat: i32) -> Option<LonLat> {
    Some(LonLat { lon: Degrees::from_whole(lon), lat: Degrees::from_whole(lat) })
}

fn feature(name: &str, geometry: Geometry) -> BoundaryFeature {
    BoundaryFeature { name: name.to_string(), geometry }
}

fn three_relays() -> Vec<Relay> {
    vec![
        relay(&["Guard"], Some((10, 20)), Some("US")),
        relay(&["Exit"], Some((-10, -20)), Some("US")),
        relay(&[], Some((0, 0)), Some("DE")),
    ]
}

fn head() -> String {
    let mut s = String::new();
    s.push_str("<?xml version=\"1.0\" encoding=\"UTF-8\"?>\n");
    s.push_str("<svg xmlns=\"http://www.w3.org/2000/svg\" width=\"1200\" height=\"600\" viewBox=\"0 0 1200 600\">\n");
    s.push_str("  <title>Tor Relay World Map</title>\n");
    s.push_str("  <desc>Live Tor relay positions. Guards: purple, Exits: red, Middles: cyan.</desc>\n");
    s.push_str("  <rect width='1200' height='600' fill='#0f172a'/>\n");
    s.push_str("  <g stroke='#1e293b' stroke-width='0.4'>\n");
    for x in ["0.0", "100.0", "200.0", "300.0", "400.0", "500.0", "600.0", "700.0", "800.0",
        "900.0", "1000.0", "1100.0", "1200.0"]
    {
        s.push_str(&format!("    <line x1='{x}' y1='0' x2='{x}' y2='600'/>\n"));
    }
    for y in ["600.0", "500.0", "400.0", "300.0", "200.0", "100.0", "0.0"] {
        s.push_str(&format!("    <line x1='0' y1='{y}' x2='1200' y2='{y}'/>\n"));
    }
    s.push_str("  </g>\n");
    s.push_str("  <g fill='#1e3a5f' stroke='#334155' stroke-width='0.4'>\n");
    s
}

fn legend(total: usize, guards: usize, exits: usize, middles: usize) -> String {
    let mut s = String::new();
    s.push_str("  <g font-family='monospace' font-size='11' fill='#cbd5e1'>\n");
    s.push_str("    <circle cx='21.0' cy='530.0' r='5' fill='#22d3ee'/>\n");
    s.push_str("    <text x='30.0' y='534.0'>Middle</text>\n");
    s.push_str("    <circle cx='21.0' cy='548.0' r='5' fill='#a855f7'/>\n");
    s.push_str("    <text x='30.0' y='552.0'>Guard</text>\n");
    s.push_str("    <circle cx='21.0' cy='566.0' r='5' fill='#ef4444'/>\n");
    s.push_str("    <text x='30.0' y='570.0'>Exit</text>\n");
    s.push_str(&format!(
        "    <text x='16.0' y='590.0' fill='#64748b'>total: {total}  guards: {guards}  exits: {exits}  middles: {middles}</text>\n"
    ));
    s.push_str("  </g>\n");
    s.push_str("  <g font-family='monospace' font-size='10' fill='#94a3b8'>\n");
    s.push_str("    <text x='1110.0' y='20.0' font-size='11' fill='#cbd5e1'>Top countries</text>\n");
    s
}

const TAIL: &str = "  </g>\n</svg>\n";

#[test]
fn the_map_of_nothing() {
    let mut expected = head();
    expected.push_str("  </g>\n  <g>\n  </g>\n");
    expected.push_str(&legend(0, 0, 0, 0));
    expected.push_str(TAIL);
    assert_eq!(render_svg(&vec![], &vec![]), expected);
}

#[test]
fn three_relays_in_two_countries() {
    let relays = three_relays();
    assert_eq!(
        role_counts(&relays),
        RoleCounts { total: 3, guards: 1, exits: 1, middles: 1 }
    );
    assert_eq!(
        dots_of_pass(&relays, true),
        vec![
            "    <circle cx='666.7' cy='266.7' r='2.5' fill='#a855f7' opacity='0.85'/>\n",
            "    <circle cx='533.3' cy='333.3' r='2.5' fill='#ef4444' opacity='0.85'/>\n",
        ]
    );
    assert_eq!(
        dots_of_pass(&relays, false),
        vec!["    <circle cx='600.0' cy='300.0' r='1.5' fill='#22d3ee' opacity='0.85'/>\n"]
    );
    let mut expected = head();
    expected.push_str("  </g>\n  <g>\n");
    expected.push_str("    <circle cx='600.0' cy='300.0' r='1.5' fill='#22d3ee' opacity='0.85'/>\n");
    expected.push_str("    <circle cx='666.7' cy='266.7' r='2.5' fill='#a855f7' opacity='0.85'/>\n");
    expected.push_str("    <circle cx='533.3' cy='333.3' r='2.5' fill='#ef4444' opacity='0.85'/>\n");
    expected.push_str("  </g>\n");
    expected.push_str(&legend(3, 1, 1, 1));
    expected.push_str("    <text x='1110.0' y='34.0'>US  2</text>\n");
    expected.push_str("    <text x='1110.0' y='46.0'>DE  1</text>\n");
    expected.push_str(TAIL);
    assert_eq!(render_svg(&relays, &vec![]), expected);
}

#[test]
fn a_guard_that_is_also_an_exit_is_drawn_once_and_counted_twice() {
    let relays = vec![relay(&["Guard", "Exit"], Some((0, 0)), Some("FR"))];
    let counts = role_counts(&relays);
    assert_eq!(counts, RoleCounts { total: 1, guards: 1, exits: 1, middles: 0 });
    assert!(counts.guards + counts.exits > counts.total);
    assert_eq!(
        dots_of_pass(&relays, true),
        vec!["    <circle cx='600.0' cy='300.0' r='2.5' fill='#a855f7' opacity='0.85'/>\n"]
    );
    assert_eq!(dots_of_pass(&relays, false), Vec::<String>::new());
    let doc = render_svg(&relays, &vec![]);
    assert_eq!(doc.matches("opacity='0.85'").count(), 1);
    assert!(doc.contains("total: 1  guards: 1  exits: 1  middles: 0</text>\n"));
    assert!(doc.contains("    <text x='1110.0' y='34.0'>FR  1</text>\n"));
}

#[test]
fn two_renders_of_one_input_are_the_same_text() {
    let relays = three_relays();
    let features = vec![feature(
        "Triangle",
        Geometry::Polygon(vec![Ring::new(vec![at(0, 0), at(10, 10), at(20, 0)])]),
    )];
    assert_eq!(render_svg(&relays, &features), render_svg(&relays, &features));
    let again = relays.clone();
    assert_eq!(render_svg(&relays, &features), render_svg(&again, &features.clone()));
}

#[test]
fn boundaries_are_drawn_before_the_dots() {
    let features = vec![
        feature(
            "Triangle",
            Geometry::Polygon(vec![
                Ring::new(vec![at(0, 0), None, at(10, 10), at(20, 0)]),
                Ring::new(vec![]),
            ]),
        ),
        feature("Point", Geometry::Unrecognized),
        feature(
            "Islands",
            Geometry::MultiPolygon(vec![
                vec![Ring::new(vec![at(-180, 90)])],
                vec![],
                vec![Ring::new(vec![at(180, -90), at(0, 0)])],
            ]),
        ),
    ];
    let relays = vec![relay(&["exit"], Some((0, 0)), None)];
    let mut expected = head();
    expected.push_str("    <path d='M600.00,300.00L633.33,266.67L666.67,300.00Z'/>\n");
    expected.push_str("    <path d='Z'/>\n");
    expected.push_str("    <path d='M0.00,0.00Z'/>\n");
    expected.push_str("    <path d='M1200.00,600.00L600.00,300.00Z'/>\n");
    expected.push_str("  </g>\n  <g>\n");
    expected.push_str("    <circle cx='600.0' cy='300.0' r='2.5' fill='#ef4444' opacity='0.85'/>\n");
    expected.push_str("  </g>\n");
    expected.push_str(&legend(1, 0, 1, 0));
    expected.push_str(TAIL);
    assert_eq!(render_svg(&relays, &features), expected);
}

#[test]
fn the_name_of_a_feature_does_not_show() {
    let ring = || Ring::new(vec![at(1, 2), at(3, 4)]);
    let a = vec![feature("A", Geometry::Polygon(vec![ring()]))];
    let b = vec![feature("<B & C>", Geometry::Polygon(vec![ring()]))];
    assert_eq!(render_svg(&vec![], &a), render_svg(&vec![], &b));
}

#[test]
fn middle_dots_lie_under_guard_and_exit_dots() {
    let relays = vec![
        relay(&["Exit"], Some((1, 1)), None),
        relay(&[], Some((2, 2)), None),
        relay(&["Guard"], Some((3, 3)), None),
        relay(&["Running"], Some((4, 4)), None),
        relay(&["GUARD", "EXIT"], Some((5, 5)), None),
    ];
    let doc = render_svg(&relays, &vec![]);
    let order: Vec<&str> = doc
        .lines()
        .filter(|l| l.contains("opacity"))
        .map(|l| l.split("fill='").nth(1).unwrap().split('\'').next().unwrap())
        .collect();
    assert_eq!(order, vec!["#22d3ee", "#22d3ee", "#ef4444", "#a855f7", "#a855f7"]);
    let xs: Vec<&str> = doc
        .lines()
        .filter(|l| l.contains("opacity"))
        .map(|l| l.split("cx='").nth(1).unwrap().split('\'').next().unwrap())
        .collect();
    assert_eq!(xs, vec!["606.7", "613.3", "603.3", "610.0", "616.7"]);
}

#[test]
fn a_relay_without_a_full_position_has_no_dot_but_counts() {
    let mut only_latitude = relay(&["Guard"], None, Some("se"));
    only_latitude.latitude = Some(Degrees::from_whole(59));
    let mut only_longitude = relay(&["Exit"], None, Some("SE"));
    only_longitude.longitude = Some(Degrees::from_whole(18));
    let relays = vec![only_latitude, only_longitude, relay(&[], None, None)];
    assert_eq!(dots_of_pass(&relays, true), Vec::<String>::new());
    assert_eq!(dots_of_pass(&relays, false), Vec::<String>::new());
    assert_eq!(
        role_counts(&relays),
        RoleCounts { total: 3, guards: 1, exits: 1, middles: 1 }
    );
    let mut expected = head();
    expected.push_str("  </g>\n  <g>\n  </g>\n");
    expected.push_str(&legend(3, 1, 1, 1));
    expected.push_str("    <text x='1110.0' y='34.0'>SE  2</text>\n");
    expected.push_str(TAIL);
    assert_eq!(render_svg(&relays, &vec![]), expected);
}

#[test]
fn every_role_is_counted_on_its_own() {
    let both = || relay(&["Guard", "Exit"], None, None);
    let pair = vec![both(), relay(&[], None, None)];
    assert_eq!(
        role_counts(&pair),
        RoleCounts { total: 2, guards: 1, exits: 1, middles: 1 }
    );
    assert!(render_svg(&pair, &vec![])
        .contains("total: 2  guards: 1  exits: 1  middles: 1</text>\n"));
    let relays = vec![both(), both(), relay(&[], None, None)];
    assert_eq!(
        role_counts(&relays),
        RoleCounts { total: 3, guards: 2, exits: 2, middles: 1 }
    );
    assert_eq!(role_counts(&vec![]), RoleCounts { total: 0, guards: 0, exits: 0, middles: 0 });
    let mixed = vec![
        relay(&["guard"], None, None),
        relay(&["EXIT"], None, None),
        relay(&["Stable"], None, None),
        relay(&["Fast"], None, None),
        both(),
    ];
    assert_eq!(
        role_counts(&mixed),
        RoleCounts { total: 5, guards: 2, exits: 2, middles: 2 }
    );
    let counts = role_counts(&mixed);
    assert_eq!(counts.guards + counts.exits + counts.middles, counts.total + 1);
}

#[test]
fn the_ranking_shows_ten_countries_at_most() {
    let codes = ["a", "b", "c", "d", "e", "f", "g", "h", "i", "j", "k", "l"];
    let mut relays: Vec<Relay> = codes.iter().map(|c| relay(&[], None, Some(c))).collect();
    relays.push(relay(&[], None, Some("L")));
    let doc = render_svg(&relays, &vec![]);
    let rows: Vec<&str> = doc.lines().filter(|l| l.contains("<text x='1110.0'")).collect();
    assert_eq!(
        rows,
        vec![
            "    <text x='1110.0' y='20.0' font-size='11' fill='#cbd5e1'>Top countries</text>",
            "    <text x='1110.0' y='34.0'>L  2</text>",
            "    <text x='1110.0' y='46.0'>A  1</text>",
            "    <text x='1110.0' y='58.0'>B  1</text>",
            "    <text x='1110.0' y='70.0'>C  1</text>",
            "    <text x='1110.0' y='82.0'>D  1</text>",
            "    <text x='1110.0' y='94.0'>E  1</text>",
            "    <text x='1110.0' y='106.0'>F  1</text>",
            "    <text x='1110.0' y='118.0'>G  1</text>",
            "    <text x='1110.0' y='130.0'>H  1</text>",
            "    <text x='1110.0' y='142.0'>I  1</text>",
        ]
    );
    assert!(doc.contains("total: 13  guards: 0  exits: 0  middles: 13</text>"));
}

#[test]
fn dots_off_the_canvas_are_drawn_where_they_fall() {
    let relays = vec![relay(&[], Some((100, -200)), None)];
    assert_eq!(
        dots_of_pass(&relays, false),
        vec!["    <circle cx='-66.7' cy='-33.3' r='1.5' fill='#22d3ee' opacity='0.85'/>\n"]
    );
}
