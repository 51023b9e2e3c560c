//! The display board: refresh state, the styling of display lines into
//! colored text cells, and their layout as positioned fragments on the tiled
//! panels.

use vstd::prelude::*;
use crate::aggregator::LinesModel;
use crate::clock;
use crate::clock::MS_BOUND;
use crate::config::Color;
use crate::config::ConfigError;
use crate::config::placement_wf;
use crate::sorting;
use crate::stop_monitor::MonitoredVehicleJourney;
use crate::stop_monitor::arrival_minutes;
use crate::stop_monitor::location_empty;
use crate::text;
use crate::text::int_str;
use crate::text::label_of;
use crate::text::lex_le;
use crate::text::lex_lt;

verus! {

// Fixed layout geometry: four characters for a route label, two for a
// minutes-to-arrival cell, the pixel widths they advance the cursor by, the
// width of one panel, and the glyph height.
pub const LINE_REF_N_CHARS: usize = 4;

pub const LINE_REF_BUFFER_COLS: i32 = 6;

pub const TTA_N_CHARS: usize = 2;

pub const TTA_BUFFER_COLS: i32 = 4;

pub const COL_WIDTH: i32 = 64;

pub const FONT_HEIGHT: i32 = 6;

pub open spec fn top_line_color() -> Color {
    Color { red: 0, green: 0, blue: 150 }
}

pub open spec fn line_name_color() -> Color {
    Color { red: 255, green: 255, blue: 20 }
}

pub open spec fn tta_color() -> Color {
    Color { red: 255, green: 140, blue: 0 }
}

pub open spec fn standard_color() -> Color {
    Color { red: 0, green: 127, blue: 255 }
}

pub open spec fn white_color() -> Color {
    Color { red: 255, green: 255, blue: 255 }
}

/// One styled cell of a display row: its text, color, whether the source
/// record carried a vehicle location, and whether it is the route label.
pub struct LineString {
    pub string: String,
    pub color: Color,
    pub has_loc: bool,
    pub is_line_ref: bool,
}

/// A styled cell as plain data.
pub ghost struct LineStringModel {
    pub text: Seq<char>,
    pub color: Color,
    pub has_loc: bool,
    pub is_line_ref: bool,
}

pub open spec fn cell_model(l: &LineString) -> LineStringModel {
    LineStringModel { text: l.string@, color: l.color, has_loc: l.has_loc, is_line_ref: l.is_line_ref }
}

impl LineString {
    pub fn new() -> (r: LineString)
        ensures
            r.string@ == Seq::<char>::empty(),
            r.color == standard_color(),
            !r.has_loc,
            !r.is_line_ref,
    {
        LineString {
            string: String::new(),
            color: Color { red: 0, green: 127, blue: 255 },
            has_loc: false,
            is_line_ref: false,
        }
    }
}

/// One styled display row.
pub struct RGBDisplayLine {
    pub line: Vec<LineString>,
}

pub open spec fn row_model(l: &RGBDisplayLine) -> Seq<LineStringModel> {
    l.line@.map_values(|c: LineString| cell_model(&c))
}

pub open spec fn rows_model(v: Seq<RGBDisplayLine>) -> Seq<Seq<LineStringModel>> {
    v.map_values(|l: RGBDisplayLine| row_model(&l))
}

impl RGBDisplayLine {
    pub fn new() -> (r: RGBDisplayLine)
        ensures
            r.line@.len() == 0,
    {
        RGBDisplayLine { line: Vec::new() }
    }
}

// ---- ordering of display rows: lexicographic by group key ----

pub open spec fn insert_entry_by_key(
    s: LinesModel,
    e: (Seq<char>, Seq<MonitoredVehicleJourney>),
) -> LinesModel
    decreases s.len(),
{
    if s.len() == 0 {
        seq![e]
    } else if lex_le(s[0].0, e.0) {
        seq![s[0]] + insert_entry_by_key(s.skip(1), e)
    } else {
        seq![e] + s
    }
}

/// Display rows are emitted in lexicographic order of their group keys.
pub open spec fn sort_entries_by_key(s: LinesModel) -> LinesModel
    decreases s.len(),
{
    if s.len() == 0 {
        Seq::empty()
    } else {
        insert_entry_by_key(sort_entries_by_key(s.drop_last()), s.last())
    }
}

pub open spec fn keys_lex_sorted(s: LinesModel) -> bool {
    forall|i: int, j: int| 0 <= i < j < s.len() ==> lex_le(s[i].0, s[j].0)
}

pub proof fn lemma_insert_entry_at(
    s: LinesModel,
    e: (Seq<char>, Seq<MonitoredVehicleJourney>),
    idx: int,
)
    requires
        0 <= idx <= s.len(),
        forall|k: int| 0 <= k < idx ==> lex_le(#[trigger] s[k].0, e.0),
        idx < s.len() ==> !lex_le(s[idx].0, e.0),
    ensures
        insert_entry_by_key(s, e) == s.insert(idx, e),
    decreases s.len(),
{
    if s.len() == 0 {
        assert(insert_entry_by_key(s, e) =~~= s.insert(0, e));
    } else if lex_le(s[0].0, e.0) {
        assert(idx >= 1);
        lemma_insert_entry_at(s.skip(1), e, idx - 1);
        assert(insert_entry_by_key(s, e) =~~= s.insert(idx, e));
    } else {
        assert(idx == 0);
        assert(insert_entry_by_key(s, e) =~~= s.insert(0, e));
    }
}

pub proof fn lemma_insert_entry_sorted(s: LinesModel, e: (Seq<char>, Seq<MonitoredVehicleJourney>))
    requires
        keys_lex_sorted(s),
    ensures
        keys_lex_sorted(insert_entry_by_key(s, e)),
        insert_entry_by_key(s, e).len() == s.len() + 1,
    decreases s.len(),
{
    let r = insert_entry_by_key(s, e);
    if s.len() == 0 {
    } else if lex_le(s[0].0, e.0) {
        let tail = s.skip(1);
        assert(keys_lex_sorted(tail)) by {
            assert forall|i: int, j: int| 0 <= i < j < tail.len() implies lex_le(
                tail[i].0,
                tail[j].0,
            ) by {
                assert(tail[i] == s[i + 1]);
                assert(tail[j] == s[j + 1]);
            }
        }
        lemma_insert_entry_sorted(tail, e);
        lemma_insert_entry_members(tail, e);
        let rt = insert_entry_by_key(tail, e);
        assert forall|i: int, j: int| 0 <= i < j < r.len() implies lex_le(r[i].0, r[j].0) by {
            if i > 0 {
                assert(r[i] == rt[i - 1]);
                assert(r[j] == rt[j - 1]);
            } else {
                assert(r[0] == s[0]);
                assert(r[j] == rt[j - 1]);
                let x = rt[j - 1];
                assert(tail.contains(x) || x == e);
                if x == e {
                    assert(lex_le(s[0].0, e.0));
                } else {
                    let w = choose|w: int| 0 <= w < tail.len() && tail[w] == x;
                    assert(tail[w] == s[w + 1]);
                    assert(lex_le(s[0].0, s[w + 1].0));
                }
            }
        }
    } else {
        // e goes in front: its key is strictly below the head's
        text::lemma_lex_connected(s[0].0, e.0);
        assert(lex_lt(e.0, s[0].0));
        assert forall|i: int, j: int| 0 <= i < j < r.len() implies lex_le(r[i].0, r[j].0) by {
            if i > 0 {
                assert(r[i] == s[i - 1]);
                assert(r[j] == s[j - 1]);
            } else {
                assert(r[0] == e);
                assert(r[j] == s[j - 1]);
                if j - 1 > 0 {
                    assert(lex_le(s[0].0, s[j - 1].0));
                }
                text::lemma_lex_trans(e.0, s[0].0, s[j - 1].0);
                if s[j - 1].0 == s[0].0 {
                    assert(lex_lt(e.0, s[j - 1].0));
                }
            }
        }
    }
}

pub proof fn lemma_insert_entry_members(
    s: LinesModel,
    e: (Seq<char>, Seq<MonitoredVehicleJourney>),
)
    ensures
        forall|i: int|
            0 <= i < insert_entry_by_key(s, e).len() ==> s.contains(
                #[trigger] insert_entry_by_key(s, e)[i],
            ) || insert_entry_by_key(s, e)[i] == e,
    decreases s.len(),
{
    let r = insert_entry_by_key(s, e);
    if s.len() == 0 {
    } else if lex_le(s[0].0, e.0) {
        lemma_insert_entry_members(s.skip(1), e);
        let rt = insert_entry_by_key(s.skip(1), e);
        assert forall|i: int| 0 <= i < r.len() implies s.contains(#[trigger] r[i]) || r[i]
            == e by {
            if i == 0 {
                assert(s.contains(s[0]));
            } else {
                assert(r[i] == rt[i - 1]);
                if rt[i - 1] != e {
                    let w = choose|w: int| 0 <= w < s.skip(1).len() && s.skip(1)[w] == rt[i - 1];
                    assert(s.skip(1)[w] == s[w + 1]);
                    assert(s.contains(s[w + 1]));
                }
            }
        }
    } else {
        assert forall|i: int| 0 <= i < r.len() implies s.contains(#[trigger] r[i]) || r[i]
            == e by {
            if i > 0 {
                assert(r[i] == s[i - 1]);
                assert(s.contains(s[i - 1]));
            }
        }
    }
}

pub proof fn lemma_sort_entries_sorted(s: LinesModel)
    ensures
        keys_lex_sorted(sort_entries_by_key(s)),
        sort_entries_by_key(s).len() == s.len(),
        forall|i: int|
            0 <= i < s.len() ==> s.contains(#[trigger] sort_entries_by_key(s)[i]),
    decreases s.len(),
{
    if s.len() > 0 {
        lemma_sort_entries_sorted(s.drop_last());
        let prev = sort_entries_by_key(s.drop_last());
        lemma_insert_entry_sorted(prev, s.last());
        lemma_insert_entry_members(prev, s.last());
        let r = sort_entries_by_key(s);
        assert forall|i: int| 0 <= i < s.len() implies s.contains(#[trigger] r[i]) by {
            if r[i] == s.last() {
                assert(s.contains(s.last()));
            } else {
                assert(prev.contains(r[i]));
                let w = choose|w: int| 0 <= w < prev.len() && prev[w] == r[i];
                assert(s.drop_last().contains(prev[w]));
                let u = choose|u: int| 0 <= u < s.drop_last().len() && s.drop_last()[u] == prev[w];
                assert(s.drop_last()[u] == s[u]);
                assert(s.contains(s[u]));
            }
        }
    }
}

// ---- styling of one display row ----

/// The minutes-to-arrival cells of one group, in group order; records whose
/// timestamp does not parse contribute nothing.
pub open spec fn time_cells(group: Seq<MonitoredVehicleJourney>, now_ms: int) -> Seq<
    LineStringModel,
>
    decreases group.len(),
{
    if group.len() == 0 {
        Seq::empty()
    } else {
        time_cells(group.drop_last(), now_ms) + (match arrival_minutes(&group.last(), now_ms) {
            Some(m) => seq![
                (LineStringModel {
                    text: int_str(m),
                    color: tta_color(),
                    has_loc: !location_empty(&group.last().vehicle_location),
                    is_line_ref: false,
                }),
            ],
            None => Seq::empty(),
        })
    }
}

/// One styled display row: the four-character route label from the group's
/// first record, then one minutes cell per record.
pub open spec fn styled_line_of(group: Seq<MonitoredVehicleJourney>, now_ms: int) -> Seq<
    LineStringModel,
>
    recommends
        group.len() >= 1,
{
    seq![
        (LineStringModel {
            text: label_of(group[0].line_ref@),
            color: line_name_color(),
            has_loc: false,
            is_line_ref: true,
        }),
    ] + time_cells(group, now_ms)
}

/// All styled display rows: groups in lexicographic key order, each styled.
pub open spec fn styled_lines_spec(lines: LinesModel, now_ms: int) -> Seq<Seq<LineStringModel>> {
    sort_entries_by_key(lines).map_values(
        |p: (Seq<char>, Seq<MonitoredVehicleJourney>)| styled_line_of(p.1, now_ms),
    )
}

// ---- the board's refresh state ----

/// Display lines a board may carry: every group nonempty (its route label
/// comes from its first record) and small enough for the cursor arithmetic.
pub open spec fn lines_ok(lines: Seq<(String, Vec<MonitoredVehicleJourney>)>) -> bool {
    forall|i: int| 0 <= i < lines.len() ==> 1 <= #[trigger] lines[i].1@.len() <= 100_000
}

/// The refresh state of the board: the last-known display lines, the stamp of
/// the last successful fetch, whether the last fetch succeeded, and the
/// per-route placement table.
pub struct DisplayBoard {
    pub display_lines: Option<Vec<(String, Vec<MonitoredVehicleJourney>)>>,
    pub last_successful_request_hms: Option<String>,
    pub last_request_successful: bool,
    pub display_position_map: Vec<(String, (i32, i32))>,
}

/// First-match placement lookup; unknown routes default to panel column 1,
/// row 2.
pub open spec fn pos_lookup(m: Seq<(String, (i32, i32))>, k: Seq<char>) -> (i32, i32)
    decreases m.len(),
{
    if m.len() == 0 {
        (1i32, 2i32)
    } else if m[0].0@ == k {
        m[0].1
    } else {
        pos_lookup(m.skip(1), k)
    }
}

/// The pixel origin of a row: one panel width per panel column plus a small
/// buffer, and one glyph height plus one per row, two rows down to leave the
/// top band for the status line.
pub open spec fn start_of(m: Seq<(String, (i32, i32))>, k: Seq<char>) -> (int, int) {
    let p = pos_lookup(m, k);
    (64 * p.0 + 2, 7 * (p.1 + 2))
}

proof fn lemma_pos_lookup_at(m: Seq<(String, (i32, i32))>, k: Seq<char>, idx: int)
    requires
        0 <= idx <= m.len(),
        forall|w: int| 0 <= w < idx ==> m[w].0@ != k,
        idx < m.len() ==> m[idx].0@ == k,
    ensures
        idx < m.len() ==> pos_lookup(m, k) == m[idx].1,
        idx == m.len() ==> pos_lookup(m, k) == (1i32, 2i32),
    decreases m.len(),
{
    if m.len() > 0 && m[0].0@ != k {
        lemma_pos_lookup_at(m.skip(1), k, idx - 1);
        if idx < m.len() {
            assert(m.skip(1)[idx - 1] == m[idx]);
        }
    }
}

impl DisplayBoard {
    pub open spec fn wf(&self) -> bool {
        &&& placement_wf(self.display_position_map@)
        &&& (self.display_lines matches Some(dl) ==> lines_ok(dl@))
    }

    /// A fresh board: no lines yet, no successful fetch yet. The placement
    /// table is validated here, before any layout arithmetic can see it.
    pub fn new(display_position_map: Vec<(String, (i32, i32))>) -> (r: Result<
        DisplayBoard,
        ConfigError,
    >)
        ensures
            r is Ok <==> placement_wf(display_position_map@),
            r is Ok ==> ({
                let b = r->Ok_0;
                &&& b.display_lines is None
                &&& b.last_successful_request_hms is None
                &&& !b.last_request_successful
                &&& b.display_position_map == display_position_map
                &&& b.wf()
            }),
    {
        if !crate::config::check_placement(&display_position_map) {
            return Err(ConfigError::PlacementOutOfRange);
        }
        Ok(
            DisplayBoard {
                display_lines: None,
                last_successful_request_hms: None,
                last_request_successful: false,
                display_position_map,
            },
        )
    }

    /// The pixel origin of the row whose first cell reads `line_ref`.
    fn get_starting_position(&self, line_ref: &String) -> (r: (i32, i32))
        requires
            placement_wf(self.display_position_map@),
        ensures
            r.0 as int == start_of(self.display_position_map@, line_ref@).0,
            r.1 as int == start_of(self.display_position_map@, line_ref@).1,
            2 <= r.0 <= 64_002,
            14 <= r.1 <= 7_014,
    {
        let m = &self.display_position_map;
        let ghost mv = self.display_position_map@;
        let mut i: usize = 0;
        while i < m.len()
            invariant
                i <= mv.len(),
                m@ == mv,
                mv == self.display_position_map@,
                placement_wf(mv),
                forall|w: int| 0 <= w < i ==> mv[w].0@ != line_ref@,
            decreases mv.len() - i,
        {
            if m[i].0 == *line_ref {
                proof {
                    lemma_pos_lookup_at(mv, line_ref@, i as int);
                }
                let (col, row) = m[i].1;
                proof {
                    assert(crate::config::placement_entry_ok(mv[i as int].1));
                }
                return ((COL_WIDTH * col) + 2, (FONT_HEIGHT + 1) * (row + 2));
            }
            i = i + 1;
        }
        proof {
            lemma_pos_lookup_at(mv, line_ref@, mv.len() as int);
        }
        ((COL_WIDTH * 1) + 2, (FONT_HEIGHT + 1) * (2 + 2))
    }
}

pub open spec fn perm_model(perm: Seq<usize>, lm: LinesModel) -> LinesModel {
    perm.map_values(|i: usize| lm[i as int])
}

fn find_row_insert(
    dl: &Vec<(String, Vec<MonitoredVehicleJourney>)>,
    perm: &Vec<usize>,
    e: usize,
) -> (idx: usize)
    requires
        e < dl@.len(),
        forall|k: int| 0 <= k < perm@.len() ==> (#[trigger] perm@[k]) < dl@.len(),
    ensures
        idx <= perm@.len(),
        forall|k: int| 0 <= k < idx ==> lex_le(dl@[#[trigger] perm@[k] as int].0@, dl@[e as int].0@),
        idx < perm@.len() ==> !lex_le(dl@[perm@[idx as int] as int].0@, dl@[e as int].0@),
{
    let mut idx: usize = 0;
    while idx < perm.len()
        invariant
            idx <= perm@.len(),
            e < dl@.len(),
            forall|k: int| 0 <= k < perm@.len() ==> (#[trigger] perm@[k]) < dl@.len(),
            forall|k: int|
                0 <= k < idx ==> lex_le(dl@[#[trigger] perm@[k] as int].0@, dl@[e as int].0@),
        decreases perm@.len() - idx,
    {
        let gi = perm[idx];
        let below = text::str_lt(dl[gi].0.as_str(), dl[e].0.as_str()) || dl[gi].0 == dl[e].0;
        if !below {
            return idx;
        }
        idx = idx + 1;
    }
    idx
}

impl DisplayBoard {
    /// The styled display rows of the last-known lines: rows in lexicographic
    /// key order, each row its route label then one minutes cell per record,
    /// measured at `now_ms`. With no lines yet, no rows.
    pub fn get_bus_styled_lines(&self, now_ms: i64) -> (r: Vec<RGBDisplayLine>)
        requires
            self.wf(),
            -MS_BOUND < now_ms < MS_BOUND,
        ensures
            self.display_lines is None ==> r@.len() == 0,
            self.display_lines matches Some(dl) ==> rows_model(r@) == styled_lines_spec(
                crate::aggregator::lines_view(dl@),
                now_ms as int,
            ),
    {
        let dl = match &self.display_lines {
            Some(dl) => dl,
            None => {
                let r: Vec<RGBDisplayLine> = Vec::new();
                return r;
            },
        };
        let ghost lm = crate::aggregator::lines_view(dl@);
        // order the rows by group key
        let mut perm: Vec<usize> = Vec::new();
        let mut e: usize = 0;
        proof {
            assert(lm.take(0) =~= Seq::<(Seq<char>, Seq<MonitoredVehicleJourney>)>::empty());
            assert(perm_model(perm@, lm) =~~= sort_entries_by_key(lm.take(0)));
        }
        while e < dl.len()
            invariant
                e <= dl@.len(),
                lm == crate::aggregator::lines_view(dl@),
                perm@.len() == e,
                forall|k: int| 0 <= k < perm@.len() ==> (#[trigger] perm@[k]) < dl@.len(),
                perm_model(perm@, lm) == sort_entries_by_key(lm.take(e as int)),
            decreases dl@.len() - e,
        {
            let idx = find_row_insert(dl, &perm, e);
            let ghost pre = perm_model(perm@, lm);
            proof {
                assert forall|k: int| 0 <= k < idx implies lex_le(
                    #[trigger] pre[k].0,
                    lm[e as int].0,
                ) by {
                    assert(pre[k] == lm[perm@[k] as int]);
                }
                if idx < perm@.len() {
                    assert(pre[idx as int] == lm[perm@[idx as int] as int]);
                }
                lemma_insert_entry_at(pre, lm[e as int], idx as int);
            }
            perm.insert(idx, e);
            proof {
                assert(perm_model(perm@, lm) =~~= pre.insert(idx as int, lm[e as int]));
                assert(lm.take(e + 1).drop_last() =~= lm.take(e as int));
                assert(lm.take(e + 1).last() == lm[e as int]);
            }
            e = e + 1;
        }
        proof {
            assert(lm.take(lm.len() as int) =~= lm);
        }
        let ghost sorted = sort_entries_by_key(lm);
        // style each row
        let mut out: Vec<RGBDisplayLine> = Vec::new();
        let mut p: usize = 0;
        while p < perm.len()
            invariant
                -MS_BOUND < now_ms < MS_BOUND,
                p <= perm@.len(),
                lines_ok(dl@),
                lm == crate::aggregator::lines_view(dl@),
                perm@.len() == lm.len(),
                forall|k: int| 0 <= k < perm@.len() ==> (#[trigger] perm@[k]) < dl@.len(),
                perm_model(perm@, lm) == sorted,
                sorted == sort_entries_by_key(lm),
                out@.len() == p,
                forall|i: int|
                    0 <= i < p ==> #[trigger] rows_model(out@)[i] == styled_line_of(
                        sorted[i].1,
                        now_ms as int,
                    ),
            decreases perm@.len() - p,
        {
            let gi = perm[p];
            let entry = &dl[gi];
            let ghost group = entry.1@;
            proof {
                assert(perm_model(perm@, lm)[p as int] == lm[perm@[p as int] as int]);
                assert(sorted[p as int] == lm[gi as int]);
                assert(lm[gi as int] == (dl@[gi as int].0@, dl@[gi as int].1@));
                assert(1 <= dl@[gi as int].1@.len() <= 100_000);
            }
            let mut row: Vec<LineString> = Vec::new();
            let first = &entry.1[0];
            let label = text::pad_label(first.line_ref.as_str());
            row.push(
                LineString {
                    string: label,
                    color: Color { red: 255, green: 255, blue: 20 },
                    has_loc: false,
                    is_line_ref: true,
                },
            );
            proof {
                assert(group.take(0) =~= Seq::<MonitoredVehicleJourney>::empty());
                assert(row@.map_values(|c: LineString| cell_model(&c)) =~~= seq![
                    (LineStringModel {
                        text: label_of(group[0].line_ref@),
                        color: line_name_color(),
                        has_loc: false,
                        is_line_ref: true,
                    }),
                ] + time_cells(group.take(0), now_ms as int));
            }
            let mut k: usize = 0;
            while k < entry.1.len()
                invariant
                    -MS_BOUND < now_ms < MS_BOUND,
                    k <= group.len(),
                    group == entry.1@,
                    group.len() >= 1,
                    row@.map_values(|c: LineString| cell_model(&c)) == seq![
                        (LineStringModel {
                            text: label_of(group[0].line_ref@),
                            color: line_name_color(),
                            has_loc: false,
                            is_line_ref: true,
                        }),
                    ] + time_cells(group.take(k as int), now_ms as int),
                decreases group.len() - k,
            {
                let ghost prerow = row@.map_values(|c: LineString| cell_model(&c));
                match entry.1[k].time_to_arrival_at(now_ms) {
                    Some(tta) => {
                        let has = entry.1[k].has_location();
                        row.push(
                            LineString {
                                string: text::i64_to_string(tta),
                                color: Color { red: 255, green: 140, blue: 0 },
                                has_loc: has,
                                is_line_ref: false,
                            },
                        );
                        proof {
                            assert(row@.map_values(|c: LineString| cell_model(&c)) =~~= prerow
                                + seq![
                                (LineStringModel {
                                    text: int_str(arrival_minutes(&group[k as int], now_ms as int)->0),
                                    color: tta_color(),
                                    has_loc: !location_empty(&group[k as int].vehicle_location),
                                    is_line_ref: false,
                                }),
                            ]);
                        }
                    },
                    None => {},
                }
                proof {
                    assert(group.take(k + 1).drop_last() =~= group.take(k as int));
                    assert(group.take(k + 1).last() == group[k as int]);
                    assert(row@.map_values(|c: LineString| cell_model(&c)) =~~= seq![
                        (LineStringModel {
                            text: label_of(group[0].line_ref@),
                            color: line_name_color(),
                            has_loc: false,
                            is_line_ref: true,
                        }),
                    ] + time_cells(group.take(k + 1), now_ms as int));
                }
                k = k + 1;
            }
            let ghost preout = out@;
            out.push(RGBDisplayLine { line: row });
            proof {
                assert(group.take(group.len() as int) =~= group);
                assert(sorted[p as int].1 == group);
                assert forall|i: int| 0 <= i < p + 1 implies #[trigger] rows_model(out@)[i]
                    == styled_line_of(sorted[i].1, now_ms as int) by {
                    assert(rows_model(out@)[i] == row_model(&out@[i]));
                    if i < p {
                        assert(out@[i] == preout[i]);
                        assert(rows_model(preout)[i] == row_model(&preout[i]));
                    } else {
                        assert(out@[i].line == row);
                        assert(row_model(&out@[i]) == row@.map_values(
                            |c: LineString| cell_model(&c),
                        ));
                    }
                }
            }
            p = p + 1;
        }
        proof {
            assert(rows_model(out@) =~~= styled_lines_spec(lm, now_ms as int));
        }
        out
    }
}

// ---- positioned fragments: the layout of one frame ----

/// One piece of text queued for painting: its pixel origin, color, whether it
/// is a route label, and whether a missing-location indicator pixel follows
/// it (with that pixel's position).
pub struct PositionedFragment {
    pub text: String,
    pub color: Color,
    pub x: i32,
    pub y: i32,
    pub is_line_ref: bool,
    pub no_loc_dot: bool,
    pub dot_x: i32,
    pub dot_y: i32,
}

/// A fragment as plain data.
pub ghost struct FragmentModel {
    pub text: Seq<char>,
    pub color: Color,
    pub x: int,
    pub y: int,
    pub is_line_ref: bool,
    pub no_loc_dot: bool,
    pub dot_x: int,
    pub dot_y: int,
}

pub open spec fn frag_model(f: &PositionedFragment) -> FragmentModel {
    FragmentModel {
        text: f.text@,
        color: f.color,
        x: f.x as int,
        y: f.y as int,
        is_line_ref: f.is_line_ref,
        no_loc_dot: f.no_loc_dot,
        dot_x: f.dot_x as int,
        dot_y: f.dot_y as int,
    }
}

pub open spec fn frags_model(v: Seq<PositionedFragment>) -> Seq<FragmentModel> {
    v.map_values(|f: PositionedFragment| frag_model(&f))
}

/// How far a cell advances the cursor: a route label is four glyph widths
/// plus its buffer; a minutes cell is two glyph widths, a gap and its buffer.
pub open spec fn cell_advance(c: LineStringModel) -> int {
    if c.is_line_ref {
        22
    } else {
        14
    }
}

pub open spec fn advance_total(cells: Seq<LineStringModel>) -> int
    decreases cells.len(),
{
    if cells.len() == 0 {
        0
    } else {
        advance_total(cells.drop_last()) + cell_advance(cells.last())
    }
}

/// The fragment one cell paints at cursor position `x`: a route label as it
/// stands; a minutes cell truncated and right-justified to two characters,
/// with the missing-location pixel one left of the next cursor slot and one
/// below the row's top edge.
pub open spec fn frag_of_cell(c: LineStringModel, x: int, y: int) -> FragmentModel {
    if c.is_line_ref {
        FragmentModel {
            text: c.text,
            color: c.color,
            x: x,
            y: y,
            is_line_ref: true,
            no_loc_dot: false,
            dot_x: 0,
            dot_y: 0,
        }
    } else {
        FragmentModel {
            text: text::right_pad2(c.text),
            color: c.color,
            x: x,
            y: y,
            is_line_ref: false,
            no_loc_dot: !c.has_loc,
            dot_x: x + 7,
            dot_y: y - 5,
        }
    }
}

/// The fragments of one display row, left to right from its origin.
pub open spec fn row_fragments(cells: Seq<LineStringModel>, x0: int, y: int) -> Seq<FragmentModel>
    decreases cells.len(),
{
    if cells.len() == 0 {
        Seq::empty()
    } else {
        row_fragments(cells.drop_last(), x0, y) + seq![
            (frag_of_cell(cells.last(), x0 + advance_total(cells.drop_last()), y)),
        ]
    }
}

/// The fragments of all display rows, in emission order; each row starts at
/// the origin its first cell's text selects in the placement table.
pub open spec fn frame_fragments(
    styled: Seq<Seq<LineStringModel>>,
    pm: Seq<(String, (i32, i32))>,
) -> Seq<FragmentModel>
    decreases styled.len(),
{
    if styled.len() == 0 {
        Seq::empty()
    } else {
        frame_fragments(styled.drop_last(), pm) + (if styled.last().len() > 0 {
            row_fragments(
                styled.last(),
                start_of(pm, styled.last()[0].text).0,
                start_of(pm, styled.last()[0].text).1,
            )
        } else {
            Seq::empty()
        })
    }
}

/// The status line: the current local time (or the celebratory text on the
/// second of February), and, after a successful fetch, its "As of" stamp on
/// the second panel.
pub open spec fn status_text(month: u32, day: u32, hms: Seq<char>) -> Seq<char> {
    if month == 2 && day == 2 {
        "Now "@ + "YOUR BIRTHDAY!"@
    } else {
        "Now "@ + hms
    }
}

pub open spec fn status_fragments(
    month: u32,
    day: u32,
    hms: Seq<char>,
    last_hms: Option<Seq<char>>,
) -> Seq<FragmentModel> {
    seq![
        (FragmentModel {
            text: status_text(month, day, hms),
            color: white_color(),
            x: 2,
            y: 6,
            is_line_ref: false,
            no_loc_dot: false,
            dot_x: 0,
            dot_y: 0,
        }),
    ] + (match last_hms {
        Some(h) => seq![
            (FragmentModel {
                text: "As of "@ + h,
                color: top_line_color(),
                x: 66,
                y: 6,
                is_line_ref: false,
                no_loc_dot: false,
                dot_x: 0,
                dot_y: 0,
            }),
        ],
        None => Seq::empty(),
    })
}

/// Everything one refresh paints: the status line, then the display rows.
pub open spec fn board_frame(
    b: &DisplayBoard,
    month: u32,
    day: u32,
    hms: Seq<char>,
    now_ms: int,
) -> Seq<FragmentModel> {
    status_fragments(
        month,
        day,
        hms,
        if b.last_successful_request_hms is Some {
            Some(b.last_successful_request_hms->0@)
        } else {
            None
        },
    ) + (if b.display_lines is Some {
        frame_fragments(
            styled_lines_spec(crate::aggregator::lines_view(b.display_lines->0@), now_ms),
            b.display_position_map@,
        )
    } else {
        Seq::empty()
    })
}

pub proof fn lemma_time_cells_len(group: Seq<MonitoredVehicleJourney>, now_ms: int)
    ensures
        time_cells(group, now_ms).len() <= group.len(),
    decreases group.len(),
{
    if group.len() > 0 {
        lemma_time_cells_len(group.drop_last(), now_ms);
    }
}

impl DisplayBoard {
    /// The fragments one refresh paints, at the given clock reading: the
    /// status line first, then every display row, cells left to right.
    pub fn write_times_at(&self, month: u32, day: u32, hms: &String, now_ms: i64) -> (r: Vec<
        PositionedFragment,
    >)
        requires
            self.wf(),
            -MS_BOUND < now_ms < MS_BOUND,
        ensures
            frags_model(r@) == board_frame(self, month, day, hms@, now_ms as int),
    {
        let ghost now = now_ms as int;
        let mut frags: Vec<PositionedFragment> = Vec::new();
        let mut curr_time: String = "Now ".to_owned();
        if month == 2 && day == 2 {
            curr_time.append("YOUR BIRTHDAY!");
        } else {
            curr_time.append(hms.as_str());
        }
        frags.push(
            PositionedFragment {
                text: curr_time,
                color: Color { red: 255, green: 255, blue: 255 },
                x: 2,
                y: FONT_HEIGHT,
                is_line_ref: false,
                no_loc_dot: false,
                dot_x: 0,
                dot_y: 0,
            },
        );
        match &self.last_successful_request_hms {
            Some(last) => {
                let mut last_updated: String = "As of ".to_owned();
                last_updated.append(last.as_str());
                frags.push(
                    PositionedFragment {
                        text: last_updated,
                        color: Color { red: 0, green: 0, blue: 150 },
                        x: COL_WIDTH + 2,
                        y: FONT_HEIGHT,
                        is_line_ref: false,
                        no_loc_dot: false,
                        dot_x: 0,
                        dot_y: 0,
                    },
                );
            },
            None => {},
        }
        let ghost status = status_fragments(
            month,
            day,
            hms@,
            if self.last_successful_request_hms is Some {
                Some(self.last_successful_request_hms->0@)
            } else {
                None
            },
        );
        proof {
            assert(frags_model(frags@) =~~= status);
        }
        let styled = self.get_bus_styled_lines(now_ms);
        let ghost sm = rows_model(styled@);
        proof {
            if self.display_lines is None {
                assert(styled@.len() == 0);
                assert(sm.take(0) =~= sm);
                assert(frame_fragments(sm, self.display_position_map@) == Seq::<
                    FragmentModel,
                >::empty());
                assert(frags_model(frags@) =~~= board_frame(self, month, day, hms@, now));
            } else {
                let dlv = self.display_lines->0;
                let lm2 = crate::aggregator::lines_view(dlv@);
                lemma_sort_entries_sorted(lm2);
                let sorted = sort_entries_by_key(lm2);
                assert forall|i: int| 0 <= i < sm.len() implies #[trigger] sm[i].len()
                    <= 100_001 by {
                    assert(sm[i] == styled_line_of(sorted[i].1, now));
                    assert(lm2.contains(sorted[i]));
                    let w = choose|w: int| 0 <= w < lm2.len() && lm2[w] == sorted[i];
                    assert(lm2[w] == (dlv@[w].0@, dlv@[w].1@));
                    assert(lines_ok(dlv@));
                    assert(dlv@[w].1@.len() <= 100_000);
                    lemma_time_cells_len(sorted[i].1, now);
                }
            }
            assert(sm.take(0) =~= Seq::<Seq<LineStringModel>>::empty());
        }
        let mut li: usize = 0;
        while li < styled.len()
            invariant
                self.wf(),
                -MS_BOUND < now_ms < MS_BOUND,
                now == now_ms as int,
                li <= styled@.len(),
                sm == rows_model(styled@),
                forall|i: int| 0 <= i < sm.len() ==> #[trigger] sm[i].len() <= 100_001,
                frags_model(frags@) == status + frame_fragments(
                    sm.take(li as int),
                    self.display_position_map@,
                ),
            decreases styled@.len() - li,
        {
            let line = &styled[li];
            let ghost row = sm[li as int];
            proof {
                assert(row == row_model(&styled@[li as int]));
                assert(row.len() == line.line@.len());
            }
            let ghost base = frags_model(frags@);
            if line.line.len() > 0 {
                let startpos = self.get_starting_position(&line.line[0].string);
                let ghost x0 = startpos.0 as int;
                let y = startpos.1;
                proof {
                    assert(cell_model(&line.line@[0]) == row[0]);
                    assert(start_of(self.display_position_map@, row[0].text) == (
                        x0,
                        y as int,
                    ));
                    assert(row.take(0) =~= Seq::<LineStringModel>::empty());
                    assert(base + row_fragments(row.take(0), x0, y as int) =~~= base);
                }
                let mut x: i32 = startpos.0;
                let mut k: usize = 0;
                while k < line.line.len()
                    invariant
                        k <= row.len(),
                        row.len() <= 100_001,
                        row == row_model(&styled@[li as int]),
                        *line == styled@[li as int],
                        row.len() == line.line@.len(),
                        2 <= x0 <= 64_002,
                        14 <= y <= 7_014,
                        x as int == x0 + advance_total(row.take(k as int)),
                        2 <= x <= 64_002 + 22 * k,
                        frags_model(frags@) == base + row_fragments(row.take(k as int), x0, y as int),
                    decreases row.len() - k,
                {
                    let cell = &line.line[k];
                    proof {
                        assert(cell_model(&line.line@[k as int]) == row[k as int]);
                    }
                    let ghost prefrags = frags_model(frags@);
                    if cell.is_line_ref {
                        frags.push(
                            PositionedFragment {
                                text: cell.string.clone(),
                                color: cell.color,
                                x: x,
                                y: y,
                                is_line_ref: true,
                                no_loc_dot: false,
                                dot_x: 0,
                                dot_y: 0,
                            },
                        );
                        x = x + (LINE_REF_N_CHARS as i32) * 4 + LINE_REF_BUFFER_COLS;
                    } else {
                        let to_write = text::pad_tta(cell.string.as_str());
                        let dot_x = x + 4 * (TTA_N_CHARS as i32) - 1;
                        let dot_y = y - FONT_HEIGHT + 1;
                        frags.push(
                            PositionedFragment {
                                text: to_write,
                                color: cell.color,
                                x: x,
                                y: y,
                                is_line_ref: false,
                                no_loc_dot: !cell.has_loc,
                                dot_x: dot_x,
                                dot_y: dot_y,
                            },
                        );
                        x = x + 4 * (TTA_N_CHARS as i32) + 2 + TTA_BUFFER_COLS;
                    }
                    proof {
                        assert(row.take(k + 1).drop_last() =~= row.take(k as int));
                        assert(row.take(k + 1).last() == row[k as int]);
                        assert(frags_model(frags@) =~~= prefrags + seq![
                            (frag_of_cell(row[k as int], x0 + advance_total(row.take(k as int)), y as int)),
                        ]);
                        assert(frags_model(frags@) =~~= base + row_fragments(
                            row.take(k + 1),
                            x0,
                            y as int,
                        ));
                    }
                    k = k + 1;
                }
                proof {
                    assert(row.take(row.len() as int) =~= row);
                }
            }
            proof {
                assert(sm.take(li + 1).drop_last() =~= sm.take(li as int));
                assert(sm.take(li + 1).last() == sm[li as int]);
                if row.len() > 0 {
                    assert(frags_model(frags@) == base + row_fragments(
                        row,
                        start_of(self.display_position_map@, row[0].text).0,
                        start_of(self.display_position_map@, row[0].text).1,
                    ));
                }
                assert(frags_model(frags@) == status + frame_fragments(
                    sm.take(li + 1),
                    self.display_position_map@,
                ));
            }
            li = li + 1;
        }
        proof {
            assert(sm.take(sm.len() as int) =~= sm);
            if self.display_lines is Some {
                assert(frags_model(frags@) =~~= board_frame(self, month, day, hms@, now));
            }
        }
        frags
    }

    /// The fragments one refresh paints now. Which frame comes back depends
    /// on the wall clock; every outcome is the frame of some valid reading.
    pub fn write_times(&self) -> (r: Vec<PositionedFragment>)
        requires
            self.wf(),
        ensures
            exists|c: clock::ClockReading|
                clock::clock_wf(c) && frags_model(r@) == board_frame(
                    self,
                    c.month,
                    c.day,
                    c.hms@,
                    c.ms as int,
                ),
    {
        let c = clock::read_local_clock();
        let r = self.write_times_at(c.month, c.day, &c.hms, c.ms);
        proof {
            assert(clock::clock_wf(c) && frags_model(r@) == board_frame(
                self,
                c.month,
                c.day,
                c.hms@,
                c.ms as int,
            ));
        }
        r
    }
}

// ---- laws of the layout ----

/// Law: every display row's route label is exactly four characters — longer
/// route references are truncated, shorter ones right-padded with spaces.
pub proof fn lemma_row_label(group: Seq<MonitoredVehicleJourney>, now_ms: int)
    requires
        group.len() >= 1,
    ensures
        styled_line_of(group, now_ms)[0].is_line_ref,
        styled_line_of(group, now_ms)[0].text == label_of(group[0].line_ref@),
        styled_line_of(group, now_ms)[0].text.len() == 4,
{
    text::lemma_label_len(group[0].line_ref@);
}

/// The records of a group that have a defined minutes to arrival, in group
/// order: exactly those a row's minutes cells come from.
pub open spec fn qualifying_records(group: Seq<MonitoredVehicleJourney>, now_ms: int) -> Seq<
    MonitoredVehicleJourney,
>
    decreases group.len(),
{
    if group.len() == 0 {
        Seq::empty()
    } else {
        qualifying_records(group.drop_last(), now_ms) + (if arrival_minutes(
            &group.last(),
            now_ms,
        ) is Some {
            seq![group.last()]
        } else {
            Seq::empty()
        })
    }
}

pub proof fn lemma_qualifying_members(group: Seq<MonitoredVehicleJourney>, now_ms: int)
    ensures
        forall|i: int|
            0 <= i < qualifying_records(group, now_ms).len() ==> group.contains(
                #[trigger] qualifying_records(group, now_ms)[i],
            ) && arrival_minutes(&qualifying_records(group, now_ms)[i], now_ms) is Some,
    decreases group.len(),
{
    let q = qualifying_records(group, now_ms);
    if group.len() > 0 {
        lemma_qualifying_members(group.drop_last(), now_ms);
        let qp = qualifying_records(group.drop_last(), now_ms);
        assert forall|i: int| 0 <= i < q.len() implies group.contains(#[trigger] q[i])
            && arrival_minutes(&q[i], now_ms) is Some by {
            if i < qp.len() {
                assert(q[i] == qp[i]);
                let w = choose|w: int|
                    0 <= w < group.drop_last().len() && group.drop_last()[w] == qp[i];
                assert(group.drop_last()[w] == group[w]);
                assert(group.contains(group[w]));
            } else {
                assert(q[i] == group.last());
                assert(group.contains(group.last()));
            }
        }
    }
}

/// Law: the minutes cells of a row pair one-to-one, in order, with the
/// group's qualifying records; each cell carries its record's minutes text
/// and marks a missing location exactly when the record lacks one.
pub proof fn lemma_time_cells_pair(group: Seq<MonitoredVehicleJourney>, now_ms: int)
    ensures
        time_cells(group, now_ms).len() == qualifying_records(group, now_ms).len(),
        forall|i: int|
            0 <= i < time_cells(group, now_ms).len() ==> #[trigger] time_cells(group, now_ms)[i]
                == (LineStringModel {
                text: int_str(arrival_minutes(&qualifying_records(group, now_ms)[i], now_ms)->0),
                color: tta_color(),
                has_loc: !location_empty(&qualifying_records(group, now_ms)[i].vehicle_location),
                is_line_ref: false,
            }),
    decreases group.len(),
{
    if group.len() > 0 {
        lemma_time_cells_pair(group.drop_last(), now_ms);
        let tc = time_cells(group, now_ms);
        let tp = time_cells(group.drop_last(), now_ms);
        let q = qualifying_records(group, now_ms);
        let qp = qualifying_records(group.drop_last(), now_ms);
        assert forall|i: int| 0 <= i < tc.len() implies #[trigger] tc[i] == (LineStringModel {
            text: int_str(arrival_minutes(&q[i], now_ms)->0),
            color: tta_color(),
            has_loc: !location_empty(&q[i].vehicle_location),
            is_line_ref: false,
        }) by {
            if i < tp.len() {
                assert(tc[i] == tp[i]);
                assert(q[i] == qp[i]);
            } else {
                assert(q[i] == group.last());
            }
        }
    }
}

/// Law: in a time-sorted group, the qualifying records' minutes are
/// non-decreasing — the row's minutes cells come out oldest arrival first.
pub proof fn lemma_qualifying_minutes_sorted(group: Seq<MonitoredVehicleJourney>, now_ms: int)
    requires
        sorting::sorted_by_minutes(group, now_ms),
    ensures
        forall|i: int, j: int|
            0 <= i < j < qualifying_records(group, now_ms).len() ==> arrival_minutes(
                &qualifying_records(group, now_ms)[i],
                now_ms,
            )->0 <= arrival_minutes(&qualifying_records(group, now_ms)[j], now_ms)->0,
    decreases group.len(),
{
    let q = qualifying_records(group, now_ms);
    if group.len() > 0 {
        let prefix = group.drop_last();
        assert(sorting::sorted_by_minutes(prefix, now_ms)) by {
            assert forall|i: int, j: int| 0 <= i < j < prefix.len() implies sorting::sort_key(
                &prefix[i],
                now_ms,
            ) <= sorting::sort_key(&prefix[j], now_ms) by {
                assert(prefix[i] == group[i]);
                assert(prefix[j] == group[j]);
            }
        }
        lemma_qualifying_minutes_sorted(prefix, now_ms);
        lemma_qualifying_members(prefix, now_ms);
        let qp = qualifying_records(prefix, now_ms);
        assert forall|i: int, j: int| 0 <= i < j < q.len() implies arrival_minutes(
            &q[i],
            now_ms,
        )->0 <= arrival_minutes(&q[j], now_ms)->0 by {
            if j < qp.len() {
                assert(q[i] == qp[i]);
                assert(q[j] == qp[j]);
            } else {
                // j is the appended last record; q[i] sits somewhere in the
                // prefix, below it by sortedness
                assert(q[j] == group.last());
                assert(q[i] == qp[i]);
                assert(prefix.contains(qp[i]));
                let w = choose|w: int| 0 <= w < prefix.len() && prefix[w] == qp[i];
                assert(prefix[w] == group[w]);
                assert(sorting::sort_key(&group[w], now_ms) <= sorting::sort_key(
                    &group[group.len() - 1],
                    now_ms,
                ));
                assert(arrival_minutes(&qp[i], now_ms) is Some);
            }
        }
    }
}

/// Each fragment of a row, by index: the cell at the cursor position its
/// predecessors left.
pub proof fn lemma_row_fragments_elems(cells: Seq<LineStringModel>, x0: int, y: int)
    ensures
        row_fragments(cells, x0, y).len() == cells.len(),
        forall|k: int|
            0 <= k < cells.len() ==> #[trigger] row_fragments(cells, x0, y)[k] == frag_of_cell(
                cells[k],
                x0 + advance_total(cells.take(k)),
                y,
            ),
    decreases cells.len(),
{
    if cells.len() > 0 {
        lemma_row_fragments_elems(cells.drop_last(), x0, y);
        let r = row_fragments(cells, x0, y);
        assert forall|k: int| 0 <= k < cells.len() implies #[trigger] r[k] == frag_of_cell(
            cells[k],
            x0 + advance_total(cells.take(k)),
            y,
        ) by {
            if k < cells.len() - 1 {
                assert(r[k] == row_fragments(cells.drop_last(), x0, y)[k]);
                assert(cells.drop_last()[k] == cells[k]);
                assert(cells.drop_last().take(k) =~= cells.take(k));
            } else {
                assert(cells.take(k) =~= cells.drop_last());
            }
        }
    }
}

/// Law: a record without a vehicle location yields exactly one
/// missing-location indicator, on its own minutes fragment; a record with a
/// location yields none, and the route label never carries one.
pub proof fn lemma_missing_location_indicators(
    group: Seq<MonitoredVehicleJourney>,
    now_ms: int,
    x0: int,
    y: int,
)
    requires
        group.len() >= 1,
    ensures
        ({
            let frs = row_fragments(styled_line_of(group, now_ms), x0, y);
            let q = qualifying_records(group, now_ms);
            &&& frs.len() == 1 + q.len()
            &&& !frs[0].no_loc_dot
            &&& forall|i: int|
                0 <= i < q.len() ==> #[trigger] frs[i + 1].no_loc_dot == location_empty(
                    &q[i].vehicle_location,
                )
        }),
{
    let cells = styled_line_of(group, now_ms);
    let frs = row_fragments(cells, x0, y);
    let q = qualifying_records(group, now_ms);
    lemma_time_cells_pair(group, now_ms);
    lemma_row_fragments_elems(cells, x0, y);
    assert(cells.len() == 1 + q.len());
    assert(!frs[0].no_loc_dot);
    assert forall|i: int| 0 <= i < q.len() implies #[trigger] frs[i + 1].no_loc_dot
        == location_empty(&q[i].vehicle_location) by {
        assert(cells[i + 1] == time_cells(group, now_ms)[i]);
    }
}

/// Law: the display rows of a frame are emitted in lexicographic order of
/// their group keys, and row `i` is the styling of the group that sorts
/// there.
pub proof fn lemma_rows_in_key_order(lines: LinesModel, now_ms: int)
    ensures
        keys_lex_sorted(sort_entries_by_key(lines)),
        styled_lines_spec(lines, now_ms).len() == lines.len(),
        forall|i: int|
            0 <= i < lines.len() ==> #[trigger] styled_lines_spec(lines, now_ms)[i]
                == styled_line_of(sort_entries_by_key(lines)[i].1, now_ms),
{
    lemma_sort_entries_sorted(lines);
}

/// Law: over the whole pipeline — aggregation at an instant, then styling —
/// every row's minutes cells come out in non-decreasing minutes order.
pub proof fn lemma_pipeline_rows_time_sorted(
    stops: Seq<(crate::stop_monitor::LineStop, Vec<MonitoredVehicleJourney>)>,
    amap: Seq<(Seq<char>, Seq<char>)>,
    use_map: bool,
    now_ms: int,
)
    ensures
        ({
            let rows = sort_entries_by_key(
                crate::aggregator::aggregate_spec(stops, amap, use_map, now_ms),
            );
            forall|r: int, i: int, j: int|
                0 <= r < rows.len() && 0 <= i < j < qualifying_records(rows[r].1, now_ms).len()
                    ==> arrival_minutes(
                    &(#[trigger] qualifying_records(rows[r].1, now_ms)[i]),
                    now_ms,
                )->0 <= arrival_minutes(
                    &(#[trigger] qualifying_records(rows[r].1, now_ms)[j]),
                    now_ms,
                )->0
        }),
{
    let agg = crate::aggregator::aggregate_spec(stops, amap, use_map, now_ms);
    let rows = sort_entries_by_key(agg);
    crate::aggregator::lemma_aggregate_props(stops, amap, use_map, now_ms);
    lemma_sort_entries_sorted(agg);
    assert forall|r: int| 0 <= r < rows.len() implies sorting::sorted_by_minutes(
        #[trigger] rows[r].1,
        now_ms,
    ) by {
        assert(agg.contains(rows[r]));
        let w = choose|w: int| 0 <= w < agg.len() && agg[w] == rows[r];
        assert(sorting::sorted_by_minutes(agg[w].1, now_ms));
    }
    assert forall|r: int| 0 <= r < rows.len() implies forall|i: int, j: int|
        0 <= i < j < qualifying_records(#[trigger] rows[r].1, now_ms).len() ==> arrival_minutes(
            &qualifying_records(rows[r].1, now_ms)[i],
            now_ms,
        )->0 <= arrival_minutes(&qualifying_records(rows[r].1, now_ms)[j], now_ms)->0 by {
        lemma_qualifying_minutes_sorted(rows[r].1, now_ms);
    }
}

/// Law: one frame is a function of the board state and the clock reading
/// alone — two fragment lists laid out from the same state and reading are
/// identical.
pub proof fn lemma_frame_deterministic(
    a: Seq<PositionedFragment>,
    b: Seq<PositionedFragment>,
    board: &DisplayBoard,
    month: u32,
    day: u32,
    hms: Seq<char>,
    now_ms: int,
)
    requires
        frags_model(a) == board_frame(board, month, day, hms, now_ms),
        frags_model(b) == board_frame(board, month, day, hms, now_ms),
    ensures
        frags_model(a) == frags_model(b),
{
}

// ---- the refresh cycle's state transitions ----

impl DisplayBoard {
    /// One refresh cycle's state update, at a given clock reading. A
    /// successful fetch replaces the display lines with the fresh aggregation
    /// and stamps the reading; a failed one only clears the success flag —
    /// the previous lines and stamp stay, so the display ages rather than
    /// blanks.
    pub fn on_fetch_result_at(
        &mut self,
        fetched: Option<Vec<(crate::stop_monitor::LineStop, Vec<MonitoredVehicleJourney>)>>,
        rapid_line_to_parent_map: &Vec<(String, String)>,
        use_line_to_parent_map: bool,
        now_ms: i64,
        now_hms: String,
    )
        requires
            old(self).wf(),
            -MS_BOUND < now_ms < MS_BOUND,
            fetched matches Some(stops) ==> crate::aggregator::total_journeys(stops@) <= 100_000,
        ensures
            final(self).wf(),
            final(self).display_position_map == old(self).display_position_map,
            fetched is None ==> final(self).display_lines == old(self).display_lines
                && final(self).last_successful_request_hms == old(
                self,
            ).last_successful_request_hms && !final(self).last_request_successful,
            fetched matches Some(stops) ==> ({
                &&& final(self).last_request_successful
                &&& final(self).last_successful_request_hms == Some(now_hms)
                &&& final(self).display_lines is Some
                &&& crate::aggregator::lines_view(final(self).display_lines->0@)
                    == crate::aggregator::aggregate_spec(
                    stops@,
                    crate::aggregator::alias_map_view(rapid_line_to_parent_map@),
                    use_line_to_parent_map,
                    now_ms as int,
                )
            }),
    {
        match fetched {
            Some(stops) => {
                let ghost stopsv = stops@;
                let ghost amap = crate::aggregator::alias_map_view(rapid_line_to_parent_map@);
                let display_lines = crate::aggregator::get_display_lines(
                    stops,
                    rapid_line_to_parent_map,
                    use_line_to_parent_map,
                    now_ms,
                );
                proof {
                    crate::aggregator::lemma_aggregate_props(
                        stopsv,
                        amap,
                        use_line_to_parent_map,
                        now_ms as int,
                    );
                    let agg = crate::aggregator::aggregate_spec(
                        stopsv,
                        amap,
                        use_line_to_parent_map,
                        now_ms as int,
                    );
                    assert(lines_ok(display_lines@)) by {
                        assert forall|i: int| 0 <= i < display_lines@.len() implies 1 <= (
                        #[trigger] display_lines@[i].1@.len()) <= 100_000 by {
                            assert(crate::aggregator::lines_view(display_lines@)[i] == (
                                display_lines@[i].0@,
                                display_lines@[i].1@,
                            ));
                            assert(agg[i].1.len() <= crate::aggregator::total_journeys(stopsv));
                        }
                    }
                }
                self.display_lines = Some(display_lines);
                self.last_successful_request_hms = Some(now_hms);
                self.last_request_successful = true;
            },
            None => {
                self.last_request_successful = false;
            },
        }
    }

    /// One refresh cycle's state update at the current wall clock.
    pub fn on_fetch_result(
        &mut self,
        fetched: Option<Vec<(crate::stop_monitor::LineStop, Vec<MonitoredVehicleJourney>)>>,
        rapid_line_to_parent_map: &Vec<(String, String)>,
        use_line_to_parent_map: bool,
    )
        requires
            old(self).wf(),
            fetched matches Some(stops) ==> crate::aggregator::total_journeys(stops@) <= 100_000,
        ensures
            final(self).wf(),
            final(self).display_position_map == old(self).display_position_map,
            fetched is None ==> final(self).display_lines == old(self).display_lines
                && final(self).last_successful_request_hms == old(
                self,
            ).last_successful_request_hms && !final(self).last_request_successful,
            fetched matches Some(stops) ==> ({
                &&& final(self).last_request_successful
                &&& final(self).display_lines is Some
                &&& exists|now_ms: int|
                    -MS_BOUND < now_ms < MS_BOUND && crate::aggregator::lines_view(
                        final(self).display_lines->0@,
                    ) == crate::aggregator::aggregate_spec(
                        stops@,
                        crate::aggregator::alias_map_view(rapid_line_to_parent_map@),
                        use_line_to_parent_map,
                        now_ms,
                    )
            }),
    {
        let c = clock::read_local_clock();
        let ghost cms = c.ms as int;
        self.on_fetch_result_at(
            fetched,
            rapid_line_to_parent_map,
            use_line_to_parent_map,
            c.ms,
            c.hms,
        );
        proof {
            if fetched is Some {
                assert(-MS_BOUND < cms < MS_BOUND);
            }
        }
    }

    /// The pause before the next cycle: a long period after a successful
    /// fetch, a short one to retry promptly after a failure.
    pub fn sleep_seconds(&self) -> (r: u64)
        ensures
            r == if self.last_request_successful {
                30u64
            } else {
                2u64
            },
    {
        if self.last_request_successful {
            30
        } else {
            2
        }
    }
}

} // verus!
