//! Startup configuration as plain values: panel geometry, font resource path,
//! the per-route panel/row placement table, the route-alias table, the stops
//! to monitor and the named display colors. Validation happens here, before
//! the refresh loop starts, since the pixel-position arithmetic depends on it.

use vstd::prelude::*;

verus! {

/// An RGB color for the display.
#[derive(Clone, Copy, PartialEq, Eq, Structural, Debug)]
pub struct Color {
    pub red: u8,
    pub green: u8,
    pub blue: u8,
}

/// The named colors of the board.
#[derive(Clone)]
pub struct ColorConfig {
    pub top_line_color: Color,
    pub line_name_color: Color,
    pub tta_color: Color,
    pub standard_color: Color,
    pub rapid_line_color: Color,
    pub no_location_color: Color,
}

impl ColorConfig {
    pub fn new(
        top_line_color: Color,
        line_name_color: Color,
        tta_color: Color,
        standard_color: Color,
        rapid_line_color: Color,
        no_location_color: Color,
    ) -> (r: ColorConfig)
        ensures
            r.top_line_color == top_line_color,
            r.line_name_color == line_name_color,
            r.tta_color == tta_color,
            r.standard_color == standard_color,
            r.rapid_line_color == rapid_line_color,
            r.no_location_color == no_location_color,
    {
        ColorConfig {
            top_line_color,
            line_name_color,
            tta_color,
            standard_color,
            rapid_line_color,
            no_location_color,
        }
    }

    pub fn top_line_color(&self) -> (r: &Color)
        ensures
            r == self.top_line_color,
    {
        &self.top_line_color
    }

    pub fn line_name_color(&self) -> (r: &Color)
        ensures
            r == self.line_name_color,
    {
        &self.line_name_color
    }

    pub fn tta_color(&self) -> (r: &Color)
        ensures
            r == self.tta_color,
    {
        &self.tta_color
    }

    pub fn standard_color(&self) -> (r: &Color)
        ensures
            r == self.standard_color,
    {
        &self.standard_color
    }

    pub fn rapid_line_color(&self) -> (r: &Color)
        ensures
            r == self.rapid_line_color,
    {
        &self.rapid_line_color
    }

    pub fn no_location_color(&self) -> (r: &Color)
        ensures
            r == self.no_location_color,
    {
        &self.no_location_color
    }
}

/// A configuration field that fails validation.
#[derive(Debug)]
pub enum ConfigError {
    /// A placement entry's panel column or row index is negative or beyond
    /// what the position arithmetic supports.
    PlacementOutOfRange,
}

/// Placement indices the position arithmetic supports: panel columns and rows
/// up to 1000 keep every computed pixel coordinate well within `i32`.
pub open spec fn placement_entry_ok(pos: (i32, i32)) -> bool {
    0 <= pos.0 <= 1000 && 0 <= pos.1 <= 1000
}

pub open spec fn placement_wf(m: Seq<(String, (i32, i32))>) -> bool {
    forall|i: int| 0 <= i < m.len() ==> placement_entry_ok(#[trigger] m[i].1)
}

pub fn check_placement(m: &Vec<(String, (i32, i32))>) -> (r: bool)
    ensures
        r == placement_wf(m@),
{
    let mut i: usize = 0;
    while i < m.len()
        invariant
            i <= m@.len(),
            forall|k: int| 0 <= k < i ==> placement_entry_ok(#[trigger] m@[k].1),
        decreases m@.len() - i,
    {
        let pos = m[i].1;
        if !(pos.0 >= 0 && pos.0 <= 1000 && pos.1 >= 0 && pos.1 <= 1000) {
            return false;
        }
        i = i + 1;
    }
    true
}

/// Board geometry, font resource, placement table and colors.
pub struct DisplayBoardConfig {
    pub font_file: String,
    pub rows: u32,
    pub cols: u32,
    pub chained: u32,
    pub line_ref_to_display_position: Vec<(String, (i32, i32))>,
    pub color_config: ColorConfig,
}

impl DisplayBoardConfig {
    /// Validates the placement table; the configuration is rejected rather
    /// than carried into the layout arithmetic.
    pub fn new(
        font_file: String,
        rows: u32,
        cols: u32,
        chained: u32,
        line_ref_to_display_position: Vec<(String, (i32, i32))>,
        color_config: ColorConfig,
    ) -> (r: Result<DisplayBoardConfig, ConfigError>)
        ensures
            r is Ok <==> placement_wf(line_ref_to_display_position@),
            r is Ok ==> ({
                let c = r->Ok_0;
                &&& c.font_file == font_file
                &&& c.rows == rows
                &&& c.cols == cols
                &&& c.chained == chained
                &&& c.line_ref_to_display_position == line_ref_to_display_position
                &&& c.color_config == color_config
            }),
    {
        if !check_placement(&line_ref_to_display_position) {
            return Err(ConfigError::PlacementOutOfRange);
        }
        Ok(
            DisplayBoardConfig {
                font_file,
                rows,
                cols,
                chained,
                line_ref_to_display_position,
                color_config,
            },
        )
    }

    pub fn font_file(&self) -> (r: &String)
        ensures
            r == self.font_file,
    {
        &self.font_file
    }

    pub fn rows(&self) -> (r: u32)
        ensures
            r == self.rows,
    {
        self.rows
    }

    pub fn cols(&self) -> (r: u32)
        ensures
            r == self.cols,
    {
        self.cols
    }

    pub fn chained(&self) -> (r: u32)
        ensures
            r == self.chained,
    {
        self.chained
    }

    pub fn line_ref_to_display_position(&self) -> (r: &Vec<(String, (i32, i32))>)
        ensures
            r == self.line_ref_to_display_position,
    {
        &self.line_ref_to_display_position
    }

    pub fn color_config(&self) -> (r: &ColorConfig)
        ensures
            r == self.color_config,
    {
        &self.color_config
    }
}

/// The whole startup configuration.
pub struct Config {
    pub display_board_config: DisplayBoardConfig,
    pub rapid_line_to_parent_line_map: Vec<(String, String)>,
    pub stops_to_monitor: Vec<String>,
}

impl Config {
    pub fn new(
        display_board_config: DisplayBoardConfig,
        rapid_line_to_parent_line_map: Vec<(String, String)>,
        stops_to_monitor: Vec<String>,
    ) -> (r: Config)
        ensures
            r.display_board_config == display_board_config,
            r.rapid_line_to_parent_line_map == rapid_line_to_parent_line_map,
            r.stops_to_monitor == stops_to_monitor,
    {
        Config { display_board_config, rapid_line_to_parent_line_map, stops_to_monitor }
    }

    pub fn display_board_config(&self) -> (r: &DisplayBoardConfig)
        ensures
            r == self.display_board_config,
    {
        &self.display_board_config
    }

    pub fn rapid_line_to_parent_line_map(&self) -> (r: &Vec<(String, String)>)
        ensures
            r == self.rapid_line_to_parent_line_map,
    {
        &self.rapid_line_to_parent_line_map
    }

    pub fn stops_to_monitor(&self) -> (r: &Vec<String>)
        ensures
            r == self.stops_to_monitor,
    {
        &self.stops_to_monitor
    }
}

} // verus!
