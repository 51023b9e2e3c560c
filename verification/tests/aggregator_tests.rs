use transit_rust::aggregator::get_display_lines;
use transit_rust::stop_monitor::{
    group_journeys, LineStop, Location, MonitoredCall, MonitoredVehicleJourney,
};

fn journey(route: &str, dest: &str, arrival: &str, located: bool) -> MonitoredVehicleJourney {
    MonitoredVehicleJourney {
        line_ref: route.to_string(),
        line_name: format!("{route} line"),
        origin_name: "Origin".to_string(),
        destination_name: dest.to_string(),
        vehicle_location: if located {
            Location { longitude: "-122.4".to_string(), latitude: "37.7".to_string() }
        } else {
            Location { longitude: "".to_string(), latitude: "".to_string() }
        },
        monitored_call: MonitoredCall {
            stop_point_ref: "1234".to_string(),
            destination_display: dest.to_string(),
            expected_arrival_time: arrival.to_string(),
            stop_name: "Stop".to_string(),
        },
    }
}

fn line_stop(route: &str, dest: &str) -> LineStop {
    LineStop {
        line_ref: route.to_string(),
        line_name: format!("{route} line"),
        origin_name: "Origin".to_string(),
        destination_name: dest.to_string(),
        stop_name: "Stop".to_string(),
    }
}

#[test]
fn groups_one_key_sorted_by_minutes() {
    // minutes at now = 0: 7 and 2; they aggregate into one group ordered [2, 7]
    let stops = vec![(
        line_stop("5", "Downtown"),
        vec![
            journey("5", "Downtown", "1970-01-01T00:07:30Z", true),
            journey("5", "Downtown", "1970-01-01T00:02:30Z", false),
        ],
    )];
    let lines = get_display_lines(stops, &vec![], true, 0);
    assert_eq!(lines.len(), 1);
    assert_eq!(lines[0].0, "5 - Downtown");
    assert_eq!(lines[0].1.len(), 2);
    assert_eq!(lines[0].1[0].time_to_arrival_at(0), Some(2));
    assert_eq!(lines[0].1[1].time_to_arrival_at(0), Some(7));
    assert!(!lines[0].1[0].has_location());
    assert!(lines[0].1[1].has_location());
}

#[test]
fn empty_input_gives_empty_lines() {
    let lines = get_display_lines(vec![], &vec![], true, 0);
    assert_eq!(lines.len(), 0);
}

#[test]
fn drops_records_with_undefined_minutes() {
    let stops = vec![(
        line_stop("5", "Downtown"),
        vec![
            journey("5", "Downtown", "not a timestamp", true),
            journey("5", "Downtown", "1970-01-01T00:03:00Z", true),
        ],
    )];
    let lines = get_display_lines(stops, &vec![], true, 0);
    assert_eq!(lines.len(), 1);
    assert_eq!(lines[0].1.len(), 1);
    assert_eq!(lines[0].1[0].time_to_arrival_at(0), Some(3));
}

#[test]
fn group_of_only_undefined_minutes_never_appears() {
    let stops = vec![(
        line_stop("5", "Downtown"),
        vec![journey("5", "Downtown", "garbage", true)],
    )];
    let lines = get_display_lines(stops, &vec![], true, 0);
    assert_eq!(lines.len(), 0);
}

#[test]
fn alias_map_renames_route() {
    let alias = vec![("5R".to_string(), "5 - Downtown".to_string())];
    let stops = vec![(
        line_stop("5R", "Downtown"),
        vec![journey("5R", "Downtown", "1970-01-01T00:04:00Z", true)],
    )];
    let lines = get_display_lines(stops, &alias, true, 0);
    assert_eq!(lines.len(), 1);
    assert_eq!(lines[0].0, "5 - Downtown");
}

#[test]
fn alias_map_ignored_when_disabled() {
    let alias = vec![("5R".to_string(), "5 - Downtown".to_string())];
    let stops = vec![(
        line_stop("5R", "Downtown"),
        vec![journey("5R", "Downtown", "1970-01-01T00:04:00Z", true)],
    )];
    let lines = get_display_lines(stops, &alias, false, 0);
    assert_eq!(lines.len(), 1);
    assert_eq!(lines[0].0, "5R - Downtown");
}

#[test]
fn routes_without_alias_use_screen_display() {
    let alias = vec![("9R".to_string(), "9".to_string())];
    let stops = vec![(
        line_stop("5", "Downtown"),
        vec![journey("5", "Downtown", "1970-01-01T00:04:00Z", true)],
    )];
    let lines = get_display_lines(stops, &alias, true, 0);
    assert_eq!(lines[0].0, "5 - Downtown");
}

#[test]
fn two_stops_same_display_key_merge() {
    let s1 = line_stop("5", "Downtown");
    let mut s2 = line_stop("5", "Downtown");
    s2.stop_name = "Other stop".to_string();
    let stops = vec![
        (s1, vec![journey("5", "Downtown", "1970-01-01T00:09:00Z", true)]),
        (s2, vec![journey("5", "Downtown", "1970-01-01T00:01:00Z", true)]),
    ];
    let lines = get_display_lines(stops, &vec![], true, 0);
    assert_eq!(lines.len(), 1);
    assert_eq!(lines[0].1.len(), 2);
    assert_eq!(lines[0].1[0].time_to_arrival_at(0), Some(1));
    assert_eq!(lines[0].1[1].time_to_arrival_at(0), Some(9));
}

#[test]
fn identical_inputs_give_identical_lines() {
    let make = || {
        vec![(
            line_stop("5", "Downtown"),
            vec![
                journey("5", "Downtown", "1970-01-01T00:07:30Z", true),
                journey("5", "Downtown", "1970-01-01T00:02:30Z", false),
            ],
        )]
    };
    let a = get_display_lines(make(), &vec![], true, 0);
    let b = get_display_lines(make(), &vec![], true, 0);
    assert_eq!(a.len(), b.len());
    for (x, y) in a.iter().zip(b.iter()) {
        assert_eq!(x.0, y.0);
        assert_eq!(x.1.len(), y.1.len());
        for (p, q) in x.1.iter().zip(y.1.iter()) {
            assert_eq!(
                p.monitored_call.expected_arrival_time,
                q.monitored_call.expected_arrival_time
            );
        }
    }
}

#[test]
fn group_journeys_by_line_stop_identity() {
    let journeys = vec![
        journey("5", "Downtown", "1970-01-01T00:01:00Z", true),
        journey("9", "Uptown", "1970-01-01T00:02:00Z", true),
        journey("5", "Downtown", "1970-01-01T00:03:00Z", true),
    ];
    let grouped = group_journeys(journeys);
    assert_eq!(grouped.len(), 2);
    assert_eq!(grouped[0].0.line_ref, "5");
    assert_eq!(grouped[0].1.len(), 2);
    assert_eq!(grouped[1].0.line_ref, "9");
    assert_eq!(grouped[1].1.len(), 1);
}

#[test]
fn negative_minutes_sort_before_positive() {
    let stops = vec![(
        line_stop("5", "Downtown"),
        vec![
            journey("5", "Downtown", "1970-01-01T00:05:00Z", true),
            journey("5", "Downtown", "1969-12-31T23:57:30Z", true),
        ],
    )];
    let lines = get_display_lines(stops, &vec![], true, 0);
    assert_eq!(lines[0].1[0].time_to_arrival_at(0), Some(-2));
    assert_eq!(lines[0].1[1].time_to_arrival_at(0), Some(5));
}
