use transit_rust::aggregator::get_display_lines;
use transit_rust::config::{Color, ColorConfig, Config, ConfigError, DisplayBoardConfig};
use transit_rust::display_board::DisplayBoard;
use transit_rust::stop_monitor::{
    LineStop, Location, MonitoredCall, MonitoredVehicleJourney, stop_monitor_url,
};

fn journey(route: &str, dest: &str, arrival: &str, located: bool) -> MonitoredVehicleJourney {
    MonitoredVehicleJourney {
        line_ref: route.to_string(),
        line_name: format!("{route} line"),
        origin_name: "Origin".to_string(),
        destination_name: dest.to_string(),
        vehicle_location: if located {
            Location { longitude: "-122.4".to_string(), latitude: "37.7".to_string() }
        } else {
            Location { longitude: "".to_string(), latitude: "".to_string() }
        },
        monitored_call: MonitoredCall {
            stop_point_ref: "1234".to_string(),
            destination_display: dest.to_string(),
            expected_arrival_time: arrival.to_string(),
            stop_name: "Stop".to_string(),
        },
    }
}

fn line_stop(route: &str, dest: &str) -> LineStop {
    LineStop {
        line_ref: route.to_string(),
        line_name: format!("{route} line"),
        origin_name: "Origin".to_string(),
        destination_name: dest.to_string(),
        stop_name: "Stop".to_string(),
    }
}

fn board_with(lines: Option<Vec<(String, Vec<MonitoredVehicleJourney>)>>) -> DisplayBoard {
    let mut board = DisplayBoard::new(Vec::new()).unwrap();
    board.display_lines = lines;
    board
}

#[test]
fn scenario_two_records_one_row() {
    // records [7 min, located] and [2 min, unlocated] lay out as the label
    // "5   ", then " 2" with a missing-location dot, then " 7"
    let stops = vec![(
        line_stop("5", "Downtown"),
        vec![
            journey("5", "Downtown", "1970-01-01T00:07:30Z", true),
            journey("5", "Downtown", "1970-01-01T00:02:30Z", false),
        ],
    )];
    let lines = get_display_lines(stops, &vec![], true, 0);
    let board = board_with(Some(lines));
    let frags = board.write_times_at(1, 1, &"12:00:00".to_string(), 0);
    assert_eq!(frags.len(), 4);
    assert_eq!(frags[0].text, "Now 12:00:00");
    assert_eq!(frags[0].x, 2);
    assert_eq!(frags[0].y, 6);

    // default placement: panel column 1, row 2
    assert_eq!(frags[1].text, "5   ");
    assert!(frags[1].is_line_ref);
    assert_eq!(frags[1].x, 64 + 2);
    assert_eq!(frags[1].y, 7 * 4);
    assert!(!frags[1].no_loc_dot);

    assert_eq!(frags[2].text, " 2");
    assert!(!frags[2].is_line_ref);
    assert_eq!(frags[2].x, 66 + 22);
    assert!(frags[2].no_loc_dot);
    assert_eq!(frags[2].dot_x, 66 + 22 + 7);
    assert_eq!(frags[2].dot_y, 28 - 5);

    assert_eq!(frags[3].text, " 7");
    assert_eq!(frags[3].x, 66 + 22 + 14);
    assert!(!frags[3].no_loc_dot);
}

#[test]
fn scenario_empty_records_only_status_line() {
    let lines = get_display_lines(vec![], &vec![], true, 0);
    let board = board_with(Some(lines));
    let frags = board.write_times_at(3, 14, &"08:15:00".to_string(), 0);
    assert_eq!(frags.len(), 1);
    assert_eq!(frags[0].text, "Now 08:15:00");
}

#[test]
fn scenario_fetch_failure_keeps_lines_and_shortens_sleep() {
    let stops = vec![(
        line_stop("5", "Downtown"),
        vec![journey("5", "Downtown", "1970-01-01T00:04:00Z", true)],
    )];
    let mut board = board_with(None);
    board.on_fetch_result_at(Some(stops), &vec![], true, 0, "10:00:00".to_string());
    assert!(board.last_request_successful);
    assert_eq!(board.sleep_seconds(), 30);
    let frags_before = board.write_times_at(1, 1, &"10:00:05".to_string(), 0);

    // cycle N: the fetch fails; the state degrades but the lines stay
    board.on_fetch_result_at(None, &vec![], true, 5_000, "10:00:05".to_string());
    assert!(!board.last_request_successful);
    assert_eq!(board.sleep_seconds(), 2);
    let frags_after = board.write_times_at(1, 1, &"10:00:05".to_string(), 0);
    assert_eq!(frags_before.len(), frags_after.len());
    for (a, b) in frags_before.iter().zip(frags_after.iter()) {
        assert_eq!(a.text, b.text);
        assert_eq!(a.x, b.x);
        assert_eq!(a.y, b.y);
    }
}

#[test]
fn rows_come_out_in_lexicographic_key_order() {
    let stops = vec![
        (
            line_stop("9", "X"),
            vec![journey("9", "X", "1970-01-01T00:04:00Z", true)],
        ),
        (
            line_stop("14", "Y"),
            vec![journey("14", "Y", "1970-01-01T00:06:00Z", true)],
        ),
    ];
    let lines = get_display_lines(stops, &vec![], true, 0);
    let board = board_with(Some(lines));
    let frags = board.write_times_at(1, 1, &"12:00:00".to_string(), 0);
    let labels: Vec<&str> = frags
        .iter()
        .filter(|f| f.is_line_ref)
        .map(|f| f.text.as_str())
        .collect();
    // "14 - Y" sorts before "9 - X" by characters
    assert_eq!(labels, vec!["14  ", "9   "]);
}

#[test]
fn placement_table_positions_rows() {
    let mut board = DisplayBoard::new(vec![("9   ".to_string(), (0, 0))]).unwrap();
    let stops = vec![(
        line_stop("9", "X"),
        vec![journey("9", "X", "1970-01-01T00:04:00Z", true)],
    )];
    board.display_lines = Some(get_display_lines(stops, &vec![], true, 0));
    let frags = board.write_times_at(1, 1, &"12:00:00".to_string(), 0);
    // the placement table is keyed by the padded label
    assert_eq!(frags[1].text, "9   ");
    assert_eq!(frags[1].x, 2);
    assert_eq!(frags[1].y, 14);
}

#[test]
fn status_line_celebrates_one_date() {
    let board = board_with(None);
    let frags = board.write_times_at(2, 2, &"09:30:00".to_string(), 0);
    assert_eq!(frags.len(), 1);
    assert_eq!(frags[0].text, "Now YOUR BIRTHDAY!");
    let frags = board.write_times_at(2, 3, &"09:30:00".to_string(), 0);
    assert_eq!(frags[0].text, "Now 09:30:00");
}

#[test]
fn status_line_stamps_last_successful_fetch() {
    let mut board = board_with(None);
    board.last_successful_request_hms = Some("10:00:00".to_string());
    let frags = board.write_times_at(1, 1, &"10:05:00".to_string(), 0);
    assert_eq!(frags.len(), 2);
    assert_eq!(frags[1].text, "As of 10:00:00");
    assert_eq!(frags[1].x, 64 + 2);
    assert_eq!(frags[1].y, 6);
}

#[test]
fn fetch_success_replaces_lines_and_stamps_time() {
    let mut board = board_with(None);
    let stops = vec![(
        line_stop("5", "Downtown"),
        vec![journey("5", "Downtown", "1970-01-01T00:04:00Z", true)],
    )];
    board.on_fetch_result_at(Some(stops), &vec![], true, 0, "10:00:00".to_string());
    assert!(board.last_request_successful);
    assert_eq!(board.last_successful_request_hms.as_deref(), Some("10:00:00"));
    let lines = board.display_lines.as_ref().unwrap();
    assert_eq!(lines.len(), 1);
    assert_eq!(lines[0].0, "5 - Downtown");
}

#[test]
fn write_times_reads_the_clock() {
    let board = board_with(None);
    let frags = board.write_times();
    assert_eq!(frags.len(), 1);
    assert!(frags[0].text.starts_with("Now "));
    assert_eq!(frags[0].x, 2);
    assert_eq!(frags[0].y, 6);
}

#[test]
fn minutes_to_arrival_exact_values() {
    let j = journey("5", "Downtown", "1970-01-01T00:07:30Z", true);
    assert_eq!(j.time_to_arrival_at(0), Some(7));
    assert_eq!(j.time_to_arrival_at(30_000), Some(7));
    assert_eq!(j.time_to_arrival_at(450_000), Some(0));
    // overdue arrivals truncate towards zero
    assert_eq!(j.time_to_arrival_at(600_000), Some(-2));
    let bad = journey("5", "Downtown", "yesterday-ish", true);
    assert_eq!(bad.time_to_arrival_at(0), None);
    assert!(j.time_to_arrival().is_some());
    assert!(bad.time_to_arrival().is_none());
}

#[test]
fn offsets_shift_parsed_instants() {
    let j = journey("5", "Downtown", "1970-01-01T01:07:30-08:00", true);
    // 01:07:30 at UTC-8 is 09:07:30 UTC
    assert_eq!(j.time_to_arrival_at(0), Some(547));
}

#[test]
fn location_flags() {
    let j = journey("5", "Downtown", "1970-01-01T00:07:30Z", true);
    assert!(j.has_location());
    assert!(!j.vehicle_location.is_empty());
    let half = Location { longitude: "".to_string(), latitude: "37.7".to_string() };
    assert!(half.is_empty());
}

#[test]
fn screen_display_joins_route_and_destination() {
    assert_eq!(line_stop("5", "Downtown").screen_display(), "5 - Downtown");
}

#[test]
fn stop_monitor_url_shape() {
    assert_eq!(
        stop_monitor_url("TOKEN", "15553"),
        "https://api.511.org/transit/StopMonitoring?api_key=TOKEN&agency=SF&stopCode=15553"
    );
}

#[test]
fn long_route_labels_truncate_to_four() {
    let stops = vec![(
        line_stop("LONGROUTE", "X"),
        vec![journey("LONGROUTE", "X", "1970-01-01T00:04:00Z", true)],
    )];
    let lines = get_display_lines(stops, &vec![], true, 0);
    let board = board_with(Some(lines));
    let frags = board.write_times_at(1, 1, &"12:00:00".to_string(), 0);
    assert_eq!(frags[1].text, "LONG");
    assert_eq!(frags[1].text.len(), 4);
}

#[test]
fn three_digit_minutes_truncate_to_two() {
    let stops = vec![(
        line_stop("5", "X"),
        // 999.5 minutes out
        vec![journey("5", "X", "1970-01-01T16:39:30Z", true)],
    )];
    let lines = get_display_lines(stops, &vec![], true, 0);
    assert_eq!(lines[0].1[0].time_to_arrival_at(0), Some(999));
    let board = board_with(Some(lines));
    let frags = board.write_times_at(1, 1, &"12:00:00".to_string(), 0);
    assert_eq!(frags[2].text, "99");
}

#[test]
fn board_rejects_bad_placement() {
    let r = DisplayBoard::new(vec![("5   ".to_string(), (-1, 2))]);
    assert!(matches!(r, Err(ConfigError::PlacementOutOfRange)));
    let r = DisplayBoard::new(vec![("5   ".to_string(), (1, 2000))]);
    assert!(matches!(r, Err(ConfigError::PlacementOutOfRange)));
}

#[test]
fn config_construction_and_getters() {
    let colors = ColorConfig::new(
        Color { red: 0, green: 0, blue: 150 },
        Color { red: 255, green: 255, blue: 20 },
        Color { red: 255, green: 140, blue: 0 },
        Color { red: 0, green: 127, blue: 255 },
        Color { red: 255, green: 0, blue: 0 },
        Color { red: 255, green: 0, blue: 0 },
    );
    assert_eq!(*colors.tta_color(), Color { red: 255, green: 140, blue: 0 });
    assert_eq!(*colors.top_line_color(), Color { red: 0, green: 0, blue: 150 });
    assert_eq!(*colors.line_name_color(), Color { red: 255, green: 255, blue: 20 });
    assert_eq!(*colors.standard_color(), Color { red: 0, green: 127, blue: 255 });
    assert_eq!(*colors.rapid_line_color(), Color { red: 255, green: 0, blue: 0 });
    assert_eq!(*colors.no_location_color(), Color { red: 255, green: 0, blue: 0 });

    let dbc = DisplayBoardConfig::new(
        "./4x6.bdf".to_string(),
        32,
        64,
        2,
        vec![("5   ".to_string(), (0, 1))],
        colors.clone(),
    )
    .unwrap();
    assert_eq!(dbc.font_file(), "./4x6.bdf");
    assert_eq!(dbc.rows(), 32);
    assert_eq!(dbc.cols(), 64);
    assert_eq!(dbc.chained(), 2);
    assert_eq!(dbc.line_ref_to_display_position().len(), 1);
    let _ = dbc.color_config();

    let bad = DisplayBoardConfig::new(
        "./4x6.bdf".to_string(),
        32,
        64,
        2,
        vec![("5   ".to_string(), (5000, 1))],
        colors,
    );
    assert!(bad.is_err());

    let cfg = Config::new(
        dbc,
        vec![("5R".to_string(), "5 - Downtown".to_string())],
        vec!["15553".to_string()],
    );
    assert_eq!(cfg.rapid_line_to_parent_line_map().len(), 1);
    assert_eq!(cfg.stops_to_monitor()[0], "15553");
    assert_eq!(cfg.display_board_config().rows(), 32);
}
