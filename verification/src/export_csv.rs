//! Parse the game's fight export (tab-separated, multi-section) for comparison with the
//! simulator: summary rows, fleet stat rows and per-round event rows. Numeric cells are kept
//! as their text; converting them to numbers is the caller's business.

use vstd::prelude::*;
use crate::text::{
    parse_u32, parse_u32_spec,
    chars_contain, chars_eq, contains_seq, split_and_trim, eq_ignore_ascii_case_seq, split_seq, str_chars, str_eq,
    str_eq_ignore_ascii_case, to_uppercase, trim_all, trim_seq, trim_str, unicode_uppercase, views,
};
use crate::types::ShipType;

verus! {

/// Split a tab-separated row into trimmed cells.
pub fn parse_tsv_row(line: &str) -> (r: Vec<String>)
    ensures
        views(r@) == trim_all(split_seq(line@, '\t')),
{
    split_and_trim(line, '\t')
}

/// Cells keyed by column name, in insertion order; a later entry for a key hides earlier ones.
#[derive(Debug, Clone, PartialEq, Eq)]
pub struct RowMap {
    pub entries: Vec<(String, String)>,
}

/// The views of a list of string pairs.
pub open spec fn pair_views(e: Seq<(String, String)>) -> Seq<(Seq<char>, Seq<char>)> {
    e.map_values(|p: (String, String)| (p.0@, p.1@))
}

/// The map that inserting the pairs in order builds.
pub open spec fn pairs_map(e: Seq<(Seq<char>, Seq<char>)>) -> Map<Seq<char>, Seq<char>>
    decreases e.len(),
{
    if e.len() == 0 {
        Map::empty()
    } else {
        pairs_map(e.drop_last()).insert(e.last().0, e.last().1)
    }
}

impl View for RowMap {
    type V = Map<Seq<char>, Seq<char>>;

    open spec fn view(&self) -> Map<Seq<char>, Seq<char>> {
        pairs_map(pair_views(self.entries@))
    }
}

/// The value under `key`, if any.
pub open spec fn lookup(m: Map<Seq<char>, Seq<char>>, key: Seq<char>) -> Option<Seq<char>> {
    if m.dom().contains(key) {
        Some(m[key])
    } else {
        None
    }
}

proof fn lemma_pairs_map_last_wins(e: Seq<(Seq<char>, Seq<char>)>, n: int, key: Seq<char>)
    requires
        0 <= n <= e.len(),
        forall|t: int| n <= t < e.len() ==> (#[trigger] e[t]).0 != key,
    ensures
        lookup(pairs_map(e), key) == lookup(pairs_map(e.take(n)), key),
    decreases e.len() - n,
{
    if n < e.len() {
        lemma_pairs_map_last_wins(e.drop_last(), n, key);
        assert(e.drop_last().take(n) =~= e.take(n));
    } else {
        assert(e.take(n) =~= e);
    }
}

impl RowMap {
    pub fn new() -> (r: RowMap)
        ensures
            r@ == Map::<Seq<char>, Seq<char>>::empty(),
    {
        RowMap { entries: Vec::new() }
    }

    /// The cell under `key`, if the row has that column.
    pub fn get(&self, key: &str) -> (r: Option<&String>)
        ensures
            match r {
                Some(v) => lookup(self@, key@) == Some(v@),
                None => lookup(self@, key@) is None,
            },
    {
        let ghost e = pair_views(self.entries@);
        let mut k: usize = self.entries.len();
        while k > 0
            invariant
                e == pair_views(self.entries@),
                k <= e.len(),
                forall|t: int| k <= t < e.len() ==> (#[trigger] e[t]).0 != key@,
            decreases k,
        {
            if str_eq(self.entries[k - 1].0.as_str(), key) {
                proof {
                    lemma_pairs_map_last_wins(e, k as int, key@);
                    assert(e.take(k as int).drop_last() =~= e.take(k - 1));
                    assert(e.take(k as int).last() == e[k - 1]);
                }
                return Some(&self.entries[k - 1].1);
            }
            k -= 1;
        }
        proof {
            lemma_pairs_map_last_wins(e, 0, key@);
            assert(e.take(0) =~= Seq::<(Seq<char>, Seq<char>)>::empty());
        }
        None
    }

    pub fn is_empty(&self) -> (r: bool)
        ensures
            r == (self@.dom() =~= Set::<Seq<char>>::empty()),
    {
        proof {
            let e = pair_views(self.entries@);
            if e.len() > 0 {
                assert(self@.dom().contains(e.last().0));
            }
        }
        self.entries.len() == 0
    }
}

/// The pairs of header and value cells, up to the shorter row.
pub open spec fn zip_cells(header: Seq<Seq<char>>, values: Seq<Seq<char>>) -> Seq<(Seq<char>, Seq<char>)> {
    Seq::new(
        if header.len() <= values.len() {
            header.len()
        } else {
            values.len()
        },
        |i: int| (header[i], values[i]),
    )
}

/// Key each value cell by the header cell of its column (up to the shorter row).
pub fn row_to_map(header: &[String], values: &[String]) -> (r: RowMap)
    ensures
        pair_views(r.entries@) == zip_cells(views(header@), views(values@)),
        r@ == pairs_map(zip_cells(views(header@), views(values@))),
{
    let n = if header.len() <= values.len() {
        header.len()
    } else {
        values.len()
    };
    let mut entries: Vec<(String, String)> = Vec::new();
    let mut i: usize = 0;
    while i < n
        invariant
            n <= header@.len(),
            n <= values@.len(),
            n == zip_cells(views(header@), views(values@)).len(),
            i <= n,
            pair_views(entries@) == zip_cells(views(header@), views(values@)).take(i as int),
        decreases n - i,
    {
        let ghost prev = entries@;
        let h = header[i].clone();
        let v = values[i].clone();
        entries.push((h, v));
        proof {
            let z = zip_cells(views(header@), views(values@));
            assert(z[i as int] == (header@[i as int]@, values@[i as int]@));
            assert(pair_views(entries@) =~= pair_views(prev).push((h@, v@)));
            assert(z.take(i + 1) =~= z.take(i as int).push(z[i as int]));
        }
        i += 1;
    }
    proof {
        assert(zip_cells(views(header@), views(values@)).take(n as int) =~= zip_cells(
            views(header@),
            views(values@),
        ));
    }
    RowMap { entries }
}

/// A summary cell that holds a value: trimmed, not empty and not the `--` placeholder.
pub open spec fn optional_cell_of(value: Option<Seq<char>>) -> Option<Seq<char>> {
    match value {
        Some(s) => {
            let t = trim_seq(s);
            if t.len() == 0 || eq_ignore_ascii_case_seq(t, "--"@) {
                None
            } else {
                Some(t)
            }
        },
        None => None,
    }
}

/// Return `None` for an absent, empty or `--` cell, else the trimmed cell.
pub fn optional_cell(value: Option<&String>) -> (r: Option<String>)
    ensures
        match r {
            Some(s) => optional_cell_of(
                match value {
                    Some(v) => Some(v@),
                    None => None,
                },
            ) == Some(s@),
            None => optional_cell_of(
                match value {
                    Some(v) => Some(v@),
                    None => None,
                },
            ) is None,
        },
{
    match value {
        None => None,
        Some(s) => {
            let t = trim_str(s.as_str());
            if t.unicode_len() == 0 || str_eq_ignore_ascii_case(t, "--") {
                None
            } else {
                Some(t.to_owned())
            }
        },
    }
}

/// Column positions of the events section.
#[derive(Debug, Clone, Copy, PartialEq, Eq, Structural)]
pub struct EventColumns {
    pub round: usize,
    pub event_type: usize,
    pub critical_hit: Option<usize>,
    pub hull_damage: Option<usize>,
    pub shield_damage: Option<usize>,
    pub total_damage: Option<usize>,
}

/// Position of the first header cell (from `i` on) that equals `name` after trimming, up to
/// ASCII case.
pub open spec fn find_column_from(header: Seq<Seq<char>>, name: Seq<char>, i: int) -> Option<usize>
    decreases header.len() - i,
{
    if i < 0 || i >= header.len() {
        None
    } else if eq_ignore_ascii_case_seq(trim_seq(header[i]), name) {
        Some(i as usize)
    } else {
        find_column_from(header, name, i + 1)
    }
}

pub open spec fn find_column(header: Seq<Seq<char>>, name: Seq<char>) -> Option<usize> {
    find_column_from(header, name, 0)
}

fn find_column_exec(header: &[String], name: &str) -> (r: Option<usize>)
    ensures
        r == find_column(views(header@), name@),
{
    let mut i: usize = 0;
    while i < header.len()
        invariant
            i <= header@.len(),
            find_column(views(header@), name@) == find_column_from(views(header@), name@, i as int),
        decreases header@.len() - i,
    {
        if str_eq_ignore_ascii_case(trim_str(header[i].as_str()), name) {
            return Some(i);
        }
        i += 1;
    }
    None
}

/// The event columns that a header row names; `Round` defaults to column 0 and `Type` to 2.
pub open spec fn event_columns_of(header: Seq<Seq<char>>) -> EventColumns {
    EventColumns {
        round: match find_column(header, "Round"@) {
            Some(i) => i,
            None => 0,
        },
        event_type: match find_column(header, "Type"@) {
            Some(i) => i,
            None => 2,
        },
        critical_hit: find_column(header, "Critical Hit?"@),
        hull_damage: find_column(header, "Hull Damage"@),
        shield_damage: find_column(header, "Shield Damage"@),
        total_damage: find_column(header, "Total Damage"@),
    }
}

pub fn find_event_columns(header: &[String]) -> (c: EventColumns)
    ensures
        c == event_columns_of(views(header@)),
{
    EventColumns {
        round: match find_column_exec(header, "Round") {
            Some(i) => i,
            None => 0,
        },
        event_type: match find_column_exec(header, "Type") {
            Some(i) => i,
            None => 2,
        },
        critical_hit: find_column_exec(header, "Critical Hit?"),
        hull_damage: find_column_exec(header, "Hull Damage"),
        shield_damage: find_column_exec(header, "Shield Damage"),
        total_damage: find_column_exec(header, "Total Damage"),
    }
}

/// The trimmed cell in column `col`, when the column is known and the row has it.
pub open spec fn event_cell_of(row: Seq<Seq<char>>, col: Option<usize>) -> Option<Seq<char>> {
    match col {
        Some(i) => if i < row.len() {
            Some(trim_seq(row[i as int]))
        } else {
            None
        },
        None => None,
    }
}

pub fn get_event_cell(row: &[String], col: Option<usize>) -> (r: Option<&str>)
    ensures
        match r {
            Some(s) => event_cell_of(views(row@), col) == Some(s@),
            None => event_cell_of(views(row@), col) is None,
        },
{
    match col {
        Some(i) => if i < row.len() {
            Some(trim_str(row[i].as_str()))
        } else {
            None
        },
        None => None,
    }
}

/// The cell in column `col` says `YES` (any ASCII case).
pub open spec fn event_yes_of(row: Seq<Seq<char>>, col: Option<usize>) -> bool {
    match event_cell_of(row, col) {
        Some(s) => eq_ignore_ascii_case_seq(s, "YES"@),
        None => false,
    }
}

pub fn get_event_bool_yes(row: &[String], col: Option<usize>) -> (r: bool)
    ensures
        r == event_yes_of(views(row@), col),
{
    match get_event_cell(row, col) {
        Some(s) => str_eq_ignore_ascii_case(s, "YES"),
        None => false,
    }
}

/// The hull class a ship or fleet name suggests: the player ship REALTA is an explorer;
/// otherwise the first class keyword found (battleship, explorer, interceptor, survey,
/// armada, in that order) in the upper-cased trimmed name; battleship when none is.
pub open spec fn ship_type_of_name(name: Seq<char>) -> ShipType {
    let n = unicode_uppercase(trim_seq(name));
    if n == "REALTA"@ {
        ShipType::Explorer
    } else if contains_seq(n, "BATTLESHIP"@) {
        ShipType::Battleship
    } else if contains_seq(n, "EXPLORER"@) {
        ShipType::Explorer
    } else if contains_seq(n, "INTERCEPTOR"@) {
        ShipType::Interceptor
    } else if contains_seq(n, "SURVEY"@) {
        ShipType::Survey
    } else if contains_seq(n, "ARMADA"@) {
        ShipType::Armada
    } else {
        ShipType::Battleship
    }
}

/// Infer ship type from a fleet or ship name.
pub fn ship_type_from_name(name: &str) -> (t: ShipType)
    ensures
        t == ship_type_of_name(name@),
{
    let upper = to_uppercase(trim_str(name));
    let n = str_chars(upper.as_str());
    if chars_eq(&n, &str_chars("REALTA")) {
        ShipType::Explorer
    } else if chars_contain(&n, &str_chars("BATTLESHIP")) {
        ShipType::Battleship
    } else if chars_contain(&n, &str_chars("EXPLORER")) {
        ShipType::Explorer
    } else if chars_contain(&n, &str_chars("INTERCEPTOR")) {
        ShipType::Interceptor
    } else if chars_contain(&n, &str_chars("SURVEY")) {
        ShipType::Survey
    } else if chars_contain(&n, &str_chars("ARMADA")) {
        ShipType::Armada
    } else {
        ShipType::Battleship
    }
}

/// The non-empty pieces, in order.
pub open spec fn nonempty_pieces(v: Seq<Seq<char>>) -> Seq<Seq<char>>
    decreases v.len(),
{
    if v.len() == 0 {
        Seq::empty()
    } else {
        nonempty_pieces(v.drop_last()) + if v.last().len() > 0 {
            seq![v.last()]
        } else {
            Seq::empty()
        }
    }
}

/// The lines of an export: trimmed, empty ones dropped.
pub open spec fn export_lines(input: Seq<char>) -> Seq<Seq<char>> {
    nonempty_pieces(trim_all(split_seq(input, '\n')))
}

/// The trimmed cells of a line.
pub open spec fn cells(line: Seq<char>) -> Seq<Seq<char>> {
    trim_all(split_seq(line, '\t'))
}

/// One row of the events section, numeric cells as text.
#[derive(Debug, Clone, PartialEq, Eq)]
pub struct FightExportEvent {
    pub round: u32,
    pub event_type: String,
    pub hull_damage: Option<String>,
    pub shield_damage: Option<String>,
    pub total_damage: Option<String>,
    pub critical_hit: bool,
}

/// A parsed fight export (the player is the attacker); numeric cells are kept as text.
#[derive(Debug, Clone, PartialEq, Eq)]
pub struct FightExport {
    /// The player won (summary outcome `VICTORY`).
    pub attacker_won: bool,
    /// Largest round index among the events.
    pub rounds: u32,
    /// The enemy's `Hull Health Remaining` summary cell.
    pub defender_hull_remaining: Option<String>,
    /// The enemy's `Shield Health Remaining` summary cell.
    pub defender_shield_remaining: Option<String>,
    /// Fleet stats of the player (attacker), keyed by column name.
    pub player_fleet: RowMap,
    /// Fleet stats of the enemy (defender).
    pub enemy_fleet: RowMap,
    pub events: Vec<FightExportEvent>,
    /// Player ship name from the summary.
    pub player_ship_name: Option<String>,
    /// Officer One (captain slot); `--` or empty is `None`.
    pub player_officer_one: Option<String>,
    /// Officer Two (first bridge slot).
    pub player_officer_two: Option<String>,
    /// Officer Three (second bridge slot).
    pub player_officer_three: Option<String>,
    /// Attacker ship type inferred from the player ship name.
    pub attacker_ship_type: ShipType,
}

pub open spec fn opt_view(o: Option<String>) -> Option<Seq<char>> {
    match o {
        Some(s) => Some(s@),
        None => None,
    }
}

/// Abstract value of an event row.
#[verifier::ext_equal]
pub struct ExportEventView {
    pub round: u32,
    pub event_type: Seq<char>,
    pub hull_damage: Option<Seq<char>>,
    pub shield_damage: Option<Seq<char>>,
    pub total_damage: Option<Seq<char>>,
    pub critical_hit: bool,
}

/// Abstract value of a fight export.
#[verifier::ext_equal]
pub struct FightExportView {
    pub attacker_won: bool,
    pub rounds: u32,
    pub defender_hull_remaining: Option<Seq<char>>,
    pub defender_shield_remaining: Option<Seq<char>>,
    pub player_fleet: Map<Seq<char>, Seq<char>>,
    pub enemy_fleet: Map<Seq<char>, Seq<char>>,
    pub events: Seq<ExportEventView>,
    pub player_ship_name: Option<Seq<char>>,
    pub player_officer_one: Option<Seq<char>>,
    pub player_officer_two: Option<Seq<char>>,
    pub player_officer_three: Option<Seq<char>>,
    pub attacker_ship_type: ShipType,
}

pub open spec fn event_view(e: FightExportEvent) -> ExportEventView {
    ExportEventView {
        round: e.round,
        event_type: e.event_type@,
        hull_damage: opt_view(e.hull_damage),
        shield_damage: opt_view(e.shield_damage),
        total_damage: opt_view(e.total_damage),
        critical_hit: e.critical_hit,
    }
}

pub open spec fn export_view(x: FightExport) -> FightExportView {
    FightExportView {
        attacker_won: x.attacker_won,
        rounds: x.rounds,
        defender_hull_remaining: opt_view(x.defender_hull_remaining),
        defender_shield_remaining: opt_view(x.defender_shield_remaining),
        player_fleet: x.player_fleet@,
        enemy_fleet: x.enemy_fleet@,
        events: x.events@.map_values(|e: FightExportEvent| event_view(e)),
        player_ship_name: opt_view(x.player_ship_name),
        player_officer_one: opt_view(x.player_officer_one),
        player_officer_two: opt_view(x.player_officer_two),
        player_officer_three: opt_view(x.player_officer_three),
        attacker_ship_type: x.attacker_ship_type,
    }
}

/// The state before any line is read.
pub open spec fn initial_export() -> FightExportView {
    FightExportView {
        attacker_won: false,
        rounds: 0,
        defender_hull_remaining: None,
        defender_shield_remaining: None,
        player_fleet: Map::empty(),
        enemy_fleet: Map::empty(),
        events: Seq::empty(),
        player_ship_name: None,
        player_officer_one: None,
        player_officer_two: None,
        player_officer_three: None,
        attacker_ship_type: ShipType::Battleship,
    }
}

/// The summary section: the player row and the enemy row keyed by the header row.
pub open spec fn with_summary(
    st: FightExportView,
    header: Seq<Seq<char>>,
    player_row: Seq<Seq<char>>,
    enemy_row: Seq<Seq<char>>,
) -> FightExportView {
    let pm = pairs_map(zip_cells(header, player_row));
    let em = pairs_map(zip_cells(header, enemy_row));
    let name = optional_cell_of(lookup(pm, "Ship Name"@));
    FightExportView {
        attacker_won: lookup(pm, "Outcome"@) == Some("VICTORY"@),
        defender_hull_remaining: lookup(em, "Hull Health Remaining"@),
        defender_shield_remaining: lookup(em, "Shield Health Remaining"@),
        player_ship_name: name,
        player_officer_one: optional_cell_of(lookup(pm, "Officer One"@)),
        player_officer_two: optional_cell_of(lookup(pm, "Officer Two"@)),
        player_officer_three: optional_cell_of(lookup(pm, "Officer Three"@)),
        attacker_ship_type: ship_type_of_name(
            match name {
                Some(n) => n,
                None => Seq::empty(),
            },
        ),
        ..st
    }
}

/// The fleet section: the row whose `Fleet Type` is `Player Fleet 1` is the player's, the other
/// the enemy's (the second row is the player's when neither says so).
pub open spec fn with_fleets(
    st: FightExportView,
    header: Seq<Seq<char>>,
    row1: Seq<Seq<char>>,
    row2: Seq<Seq<char>>,
) -> FightExportView {
    let m1 = pairs_map(zip_cells(header, row1));
    let m2 = pairs_map(zip_cells(header, row2));
    if lookup(m1, "Fleet Type"@) == Some("Player Fleet 1"@) {
        FightExportView { player_fleet: m1, enemy_fleet: m2, ..st }
    } else {
        FightExportView { player_fleet: m2, enemy_fleet: m1, ..st }
    }
}

/// The round cell of an event row (empty when the row lacks the column).
pub open spec fn round_cell(row: Seq<Seq<char>>, cols: EventColumns) -> Seq<char> {
    match event_cell_of(row, Some(cols.round)) {
        Some(s) => s,
        None => Seq::empty(),
    }
}

/// The round number of an event row; `0` when the cell is not a number.
pub open spec fn round_number(row: Seq<Seq<char>>, cols: EventColumns) -> u32 {
    match parse_u32_spec(round_cell(row, cols)) {
        Some(v) => v,
        None => 0,
    }
}

/// A row belongs to the events section: its round cell is a number other than `0`, or is
/// exactly `0`.
pub open spec fn is_event_row(row: Seq<Seq<char>>, cols: EventColumns) -> bool {
    !(round_number(row, cols) == 0 && round_cell(row, cols) != "0"@)
}

pub open spec fn event_of_row(row: Seq<Seq<char>>, cols: EventColumns) -> ExportEventView {
    ExportEventView {
        round: round_number(row, cols),
        event_type: match event_cell_of(row, Some(cols.event_type)) {
            Some(s) => s,
            None => Seq::empty(),
        },
        hull_damage: event_cell_of(row, cols.hull_damage),
        shield_damage: event_cell_of(row, cols.shield_damage),
        total_damage: event_cell_of(row, cols.total_damage),
        critical_hit: event_yes_of(row, cols.critical_hit),
    }
}

/// Event rows from line `i` on: each adds an event and raises the round count; the first row
/// that is not an event row ends the section. Gives the line where reading resumes.
pub open spec fn events_from(
    lines: Seq<Seq<char>>,
    i: int,
    cols: EventColumns,
    st: FightExportView,
) -> (int, FightExportView)
    decreases lines.len() - i,
{
    if i < 0 || i >= lines.len() {
        (i, st)
    } else {
        let row = cells(lines[i]);
        if !is_event_row(row, cols) {
            (i, st)
        } else {
            let r = round_number(row, cols);
            events_from(
                lines,
                i + 1,
                cols,
                FightExportView {
                    rounds: if st.rounds >= r {
                        st.rounds
                    } else {
                        r
                    },
                    events: st.events.push(event_of_row(row, cols)),
                    ..st
                },
            )
        }
    }
}

/// Reading events from a line in range resumes at a line no earlier and not past the end.
pub proof fn lemma_events_from_bounds(
    lines: Seq<Seq<char>>,
    i: int,
    cols: EventColumns,
    st: FightExportView,
)
    requires
        0 <= i <= lines.len(),
    ensures
        i <= events_from(lines, i, cols, st).0 <= lines.len(),
    decreases lines.len() - i,
{
    if i < lines.len() {
        let row = cells(lines[i]);
        if is_event_row(row, cols) {
            let r = round_number(row, cols);
            lemma_events_from_bounds(
                lines,
                i + 1,
                cols,
                FightExportView {
                    rounds: if st.rounds >= r {
                        st.rounds
                    } else {
                        r
                    },
                    events: st.events.push(event_of_row(row, cols)),
                    ..st
                },
            );
        }
    }
}

/// The first cell of a row (empty for a row without cells).
pub open spec fn first_cell(row: Seq<Seq<char>>) -> Seq<char> {
    if row.len() > 0 {
        row[0]
    } else {
        Seq::empty()
    }
}

/// Read the sections from line `i` on. A `Player Name` header (more than 12 cells) starts the
/// summary, a `Fleet Type` header (more than 20 cells) the fleet stats, each followed by two
/// data rows; a `Round` header (more than 2 cells) starts the events; other lines are skipped.
pub open spec fn parse_from(lines: Seq<Seq<char>>, i: int, st: FightExportView) -> Result<
    FightExportView,
    Seq<char>,
>
    decreases lines.len() - i,
{
    if i < 0 || i >= lines.len() {
        Ok(st)
    } else {
        let row = cells(lines[i]);
        let first = first_cell(row);
        if first == "Player Name"@ && row.len() > 12 {
            if i + 3 > lines.len() {
                Err("summary section: expected 2 data rows"@)
            } else {
                parse_from(
                    lines,
                    i + 3,
                    with_summary(st, row, cells(lines[i + 1]), cells(lines[i + 2])),
                )
            }
        } else if first == "Fleet Type"@ && row.len() > 20 {
            if i + 3 > lines.len() {
                Err("fleet section: expected 2 data rows"@)
            } else {
                parse_from(
                    lines,
                    i + 3,
                    with_fleets(st, row, cells(lines[i + 1]), cells(lines[i + 2])),
                )
            }
        } else if first == "Round"@ && row.len() > 2 {
            let (j, st2) = events_from(lines, i + 1, event_columns_of(row), st);
            proof {
                lemma_events_from_bounds(lines, i + 1, event_columns_of(row), st);
            }
            parse_from(lines, j, st2)
        } else {
            parse_from(lines, i + 1, st)
        }
    }
}

/// The result of parsing an export.
pub open spec fn parse_export_spec(input: Seq<char>) -> Result<FightExportView, Seq<char>> {
    let lines = export_lines(input);
    if lines.len() == 0 {
        Err("empty input"@)
    } else {
        parse_from(lines, 0, initial_export())
    }
}


/// The trimmed non-empty lines of `input`.
fn export_lines_exec(input: &str) -> (r: Vec<String>)
    ensures
        views(r@) == export_lines(input@),
{
    let pieces = split_and_trim(input, '\n');
    let ghost p = views(pieces@);
    let mut out: Vec<String> = Vec::new();
    let mut k: usize = 0;
    while k < pieces.len()
        invariant
            p == views(pieces@),
            p == trim_all(split_seq(input@, '\n')),
            k <= pieces@.len(),
            views(out@) == nonempty_pieces(p.take(k as int)),
        decreases pieces@.len() - k,
    {
        let ghost before = out@;
        proof {
            assert(p.take(k + 1).drop_last() =~= p.take(k as int));
            assert(p.take(k + 1).last() == pieces@[k as int]@);
        }
        if pieces[k].as_str().unicode_len() > 0 {
            out.push(pieces[k].clone());
            proof {
                assert(views(out@) =~= views(before).push(pieces@[k as int]@));
            }
        } else {
            proof {
                assert(nonempty_pieces(p.take(k + 1)) =~= nonempty_pieces(p.take(k as int)));
            }
        }
        k += 1;
    }
    proof {
        assert(p.take(pieces@.len() as int) =~= p);
    }
    out
}

/// An owned copy of an optional cell.
fn owned_cell(c: Option<&str>) -> (r: Option<String>)
    ensures
        opt_view(r) == match c {
            Some(s) => Some(s@),
            None => None::<Seq<char>>,
        },
{
    match c {
        Some(s) => Some(s.to_owned()),
        None => None,
    }
}

/// An owned copy of an optional map value.
fn cloned_cell(c: Option<&String>) -> (r: Option<String>)
    ensures
        opt_view(r) == match c {
            Some(s) => Some(s@),
            None => None::<Seq<char>>,
        },
{
    match c {
        Some(s) => Some(s.clone()),
        None => None,
    }
}

/// The event a row of the events section describes, or `None` when the row ends the section.
pub fn event_of_row_exec(row: &[String], cols: EventColumns) -> (r: Option<FightExportEvent>)
    ensures
        match r {
            Some(e) => is_event_row(views(row@), cols) && event_view(e) == event_of_row(
                views(row@),
                cols,
            ),
            None => !is_event_row(views(row@), cols),
        },
{
    proof {
        reveal_strlit("");
        assert(""@ =~= Seq::<char>::empty());
    }
    let round_str: &str = match get_event_cell(row, Some(cols.round)) {
        Some(s) => s,
        None => "",
    };
    assert(round_str@ == round_cell(views(row@), cols));
    let round: u32 = match parse_u32(round_str) {
        Some(v) => v,
        None => 0,
    };
    if round == 0 && !str_eq(round_str, "0") {
        return None;
    }
    let event_type = match get_event_cell(row, Some(cols.event_type)) {
        Some(s) => s.to_owned(),
        None => "".to_owned(),
    };
    let e = FightExportEvent {
        round,
        event_type,
        hull_damage: owned_cell(get_event_cell(row, cols.hull_damage)),
        shield_damage: owned_cell(get_event_cell(row, cols.shield_damage)),
        total_damage: owned_cell(get_event_cell(row, cols.total_damage)),
        critical_hit: get_event_bool_yes(row, cols.critical_hit),
    };
    proof {
        assert(event_view(e) =~= event_of_row(views(row@), cols));
    }
    Some(e)
}

/// Record the summary section.
fn apply_summary(
    st: &mut FightExport,
    header: &[String],
    player_row: &[String],
    enemy_row: &[String],
)
    ensures
        export_view(*final(st)) == with_summary(
            export_view(*old(st)),
            views(header@),
            views(player_row@),
            views(enemy_row@),
        ),
{
    proof {
        reveal_strlit("");
        assert(""@ =~= Seq::<char>::empty());
    }
    let pm = row_to_map(header, player_row);
    let em = row_to_map(header, enemy_row);
    st.attacker_won = match pm.get("Outcome") {
        Some(s) => str_eq(s.as_str(), "VICTORY"),
        None => false,
    };
    st.defender_hull_remaining = cloned_cell(em.get("Hull Health Remaining"));
    st.defender_shield_remaining = cloned_cell(em.get("Shield Health Remaining"));
    let name = optional_cell(pm.get("Ship Name"));
    st.player_officer_one = optional_cell(pm.get("Officer One"));
    st.player_officer_two = optional_cell(pm.get("Officer Two"));
    st.player_officer_three = optional_cell(pm.get("Officer Three"));
    st.attacker_ship_type = match &name {
        Some(n) => ship_type_from_name(n.as_str()),
        None => ship_type_from_name(""),
    };
    st.player_ship_name = name;
    proof {
        assert(export_view(*st) =~= with_summary(
            export_view(*old(st)),
            views(header@),
            views(player_row@),
            views(enemy_row@),
        ));
    }
}

/// Record the fleet section.
fn apply_fleets(st: &mut FightExport, header: &[String], row1: &[String], row2: &[String])
    ensures
        export_view(*final(st)) == with_fleets(
            export_view(*old(st)),
            views(header@),
            views(row1@),
            views(row2@),
        ),
{
    let m1 = row_to_map(header, row1);
    let m2 = row_to_map(header, row2);
    let first_is_player = match m1.get("Fleet Type") {
        Some(s) => str_eq(s.as_str(), "Player Fleet 1"),
        None => false,
    };
    if first_is_player {
        st.player_fleet = m1;
        st.enemy_fleet = m2;
    } else {
        st.player_fleet = m2;
        st.enemy_fleet = m1;
    }
    proof {
        assert(export_view(*st) =~= with_fleets(
            export_view(*old(st)),
            views(header@),
            views(row1@),
            views(row2@),
        ));
    }
}

/// Read event rows from line `start` on; gives the line where reading resumes.
fn read_events(lines: &Vec<String>, start: usize, cols: EventColumns, st: &mut FightExport) -> (j:
    usize)
    requires
        start <= lines@.len(),
    ensures
        (j as int, export_view(*final(st))) == events_from(
            views(lines@),
            start as int,
            cols,
            export_view(*old(st)),
        ),
{
    let ghost l = views(lines@);
    let mut i: usize = start;
    while i < lines.len()
        invariant
            l == views(lines@),
            start <= i <= lines@.len(),
            events_from(l, start as int, cols, export_view(*old(st))) == events_from(
                l,
                i as int,
                cols,
                export_view(*st),
            ),
        decreases lines@.len() - i,
    {
        let row = parse_tsv_row(lines[i].as_str());
        assert(views(row@) == cells(l[i as int]));
        match event_of_row_exec(row.as_slice(), cols) {
            None => {
                return i;
            },
            Some(e) => {
                let ghost before = export_view(*st);
                let ghost ev = event_view(e);
                if st.rounds < e.round {
                    st.rounds = e.round;
                }
                let ghost old_events = st.events@;
                st.events.push(e);
                proof {
                    assert(st.events@.map_values(|x: FightExportEvent| event_view(x))
                        =~= old_events.map_values(|x: FightExportEvent| event_view(x)).push(ev));
                    assert(export_view(*st) =~= FightExportView {
                        rounds: if before.rounds >= ev.round {
                            before.rounds
                        } else {
                            ev.round
                        },
                        events: before.events.push(ev),
                        ..before
                    });
                }
                i += 1;
            },
        }
    }
    i
}

/// Parse a full fight export (tab-separated, multi-section).
pub fn parse_fight_export(input: &str) -> (r: Result<FightExport, String>)
    ensures
        match r {
            Ok(x) => parse_export_spec(input@) == Ok::<FightExportView, Seq<char>>(export_view(x)),
            Err(e) => parse_export_spec(input@) == Err::<FightExportView, Seq<char>>(e@),
        },
{
    proof {
        reveal_strlit("");
        assert(""@ =~= Seq::<char>::empty());
    }
    let lines = export_lines_exec(input);
    let ghost l = views(lines@);
    if lines.len() == 0 {
        return Err("empty input".to_owned());
    }
    let mut st = FightExport {
        attacker_won: false,
        rounds: 0,
        defender_hull_remaining: None,
        defender_shield_remaining: None,
        player_fleet: RowMap::new(),
        enemy_fleet: RowMap::new(),
        events: Vec::new(),
        player_ship_name: None,
        player_officer_one: None,
        player_officer_two: None,
        player_officer_three: None,
        attacker_ship_type: ShipType::Battleship,
    };
    proof {
        assert(export_view(st) =~= initial_export());
    }
    let mut i: usize = 0;
    while i < lines.len()
        invariant
            l == views(lines@),
            l.len() > 0,
            l == export_lines(input@),
            i <= lines@.len(),
            parse_export_spec(input@) == parse_from(l, i as int, export_view(st)),
        decreases lines@.len() - i,
    {
        let row = parse_tsv_row(lines[i].as_str());
        assert(views(row@) == cells(l[i as int]));
        let first: &str = if row.len() > 0 {
            assert(views(row@)[0] == row@[0]@);
            row[0].as_str()
        } else {
            proof {
                reveal_strlit("");
                assert(""@ =~= Seq::<char>::empty());
            }
            ""
        };
        assert(first@ == first_cell(cells(l[i as int])));
        if str_eq(first, "Player Name") && row.len() > 12 {
            if lines.len() - i < 3 {
                return Err("summary section: expected 2 data rows".to_owned());
            }
            let p = parse_tsv_row(lines[i + 1].as_str());
            let e = parse_tsv_row(lines[i + 2].as_str());
            apply_summary(&mut st, row.as_slice(), p.as_slice(), e.as_slice());
            i += 3;
        } else if str_eq(first, "Fleet Type") && row.len() > 20 {
            if lines.len() - i < 3 {
                return Err("fleet section: expected 2 data rows".to_owned());
            }
            let r1 = parse_tsv_row(lines[i + 1].as_str());
            let r2 = parse_tsv_row(lines[i + 2].as_str());
            apply_fleets(&mut st, row.as_slice(), r1.as_slice(), r2.as_slice());
            i += 3;
        } else if str_eq(first, "Round") && row.len() > 2 {
            let cols = find_event_columns(row.as_slice());
            let ghost v0 = export_view(st);
            let j = read_events(&lines, i + 1, cols, &mut st);
            proof {
                lemma_events_from_bounds(l, i + 1, cols, v0);
            }
            i = j;
        } else {
            i += 1;
        }
    }
    Ok(st)
}


/// `rounds` is the largest round among the events (0 when there are none).
pub open spec fn rounds_is_max_event_round(v: FightExportView) -> bool {
    &&& forall|k: int| 0 <= k < v.events.len() ==> (#[trigger] v.events[k]).round <= v.rounds
    &&& (v.rounds == 0 || exists|k: int|
        0 <= k < v.events.len() && (#[trigger] v.events[k]).round == v.rounds)
}

proof fn lemma_events_from_keeps_max(
    lines: Seq<Seq<char>>,
    i: int,
    cols: EventColumns,
    st: FightExportView,
)
    requires
        rounds_is_max_event_round(st),
    ensures
        rounds_is_max_event_round(events_from(lines, i, cols, st).1),
    decreases lines.len() - i,
{
    if 0 <= i < lines.len() {
        let row = cells(lines[i]);
        if is_event_row(row, cols) {
            let r = round_number(row, cols);
            let next = FightExportView {
                rounds: if st.rounds >= r {
                    st.rounds
                } else {
                    r
                },
                events: st.events.push(event_of_row(row, cols)),
                ..st
            };
            assert(next.events[st.events.len() as int].round == r);
            assert forall|k: int| 0 <= k < next.events.len() implies (
            #[trigger] next.events[k]).round <= next.rounds by {
                if k < st.events.len() {
                    assert(next.events[k] == st.events[k]);
                }
            }
            if next.rounds != 0 {
                if st.rounds >= r {
                    let k = choose|k: int|
                        0 <= k < st.events.len() && (#[trigger] st.events[k]).round == st.rounds;
                    assert(next.events[k] == st.events[k]);
                }
            }
            lemma_events_from_keeps_max(lines, i + 1, cols, next);
        }
    }
}

proof fn lemma_parse_from_keeps_max(lines: Seq<Seq<char>>, i: int, st: FightExportView)
    requires
        rounds_is_max_event_round(st),
    ensures
        parse_from(lines, i, st) matches Ok(v) ==> rounds_is_max_event_round(v),
    decreases lines.len() - i,
{
    if 0 <= i < lines.len() {
        let row = cells(lines[i]);
        let first = first_cell(row);
        if first == "Player Name"@ && row.len() > 12 {
            if i + 3 <= lines.len() {
                lemma_parse_from_keeps_max(
                    lines,
                    i + 3,
                    with_summary(st, row, cells(lines[i + 1]), cells(lines[i + 2])),
                );
            }
        } else if first == "Fleet Type"@ && row.len() > 20 {
            if i + 3 <= lines.len() {
                lemma_parse_from_keeps_max(
                    lines,
                    i + 3,
                    with_fleets(st, row, cells(lines[i + 1]), cells(lines[i + 2])),
                );
            }
        } else if first == "Round"@ && row.len() > 2 {
            let (j, st2) = events_from(lines, i + 1, event_columns_of(row), st);
            lemma_events_from_bounds(lines, i + 1, event_columns_of(row), st);
            lemma_events_from_keeps_max(lines, i + 1, event_columns_of(row), st);
            lemma_parse_from_keeps_max(lines, j, st2);
        } else {
            lemma_parse_from_keeps_max(lines, i + 1, st);
        }
    }
}

/// The round count of a parsed export is the largest round index among its events: no event
/// lies beyond it, and unless it is 0 some event lies in it.
pub proof fn lemma_parsed_rounds_is_max_event_round(input: Seq<char>)
    ensures
        parse_export_spec(input) matches Ok(v) ==> rounds_is_max_event_round(v),
{
    lemma_parse_from_keeps_max(export_lines(input), 0, initial_export());
}

/// `name` first names a header cell at position `k`: the trimmed cell equals `name` up to
/// ASCII case there and at no earlier position.
pub open spec fn first_header_named(h: Seq<Seq<char>>, name: Seq<char>, k: int) -> bool {
    &&& 0 <= k < h.len()
    &&& eq_ignore_ascii_case_seq(trim_seq(h[k]), name)
    &&& forall|t: int| 0 <= t < k ==> !eq_ignore_ascii_case_seq(trim_seq(#[trigger] h[t]), name)
}

proof fn lemma_find_column_first(h: Seq<Seq<char>>, name: Seq<char>, i: int, k: int)
    requires
        h.len() <= usize::MAX,
        0 <= i <= k,
        first_header_named(h, name, k),
    ensures
        find_column_from(h, name, i) == Some(k as usize),
    decreases k - i,
{
    if i < k {
        lemma_find_column_first(h, name, i + 1, k);
    }
}

proof fn lemma_find_column_absent(h: Seq<Seq<char>>, name: Seq<char>, i: int)
    requires
        0 <= i,
        forall|t: int| 0 <= t < h.len() ==> !eq_ignore_ascii_case_seq(trim_seq(#[trigger] h[t]), name),
    ensures
        find_column_from(h, name, i) is None,
    decreases h.len() - i,
{
    if i < h.len() {
        lemma_find_column_absent(h, name, i + 1);
    }
}

/// The damage cells of an event row are read under their own headers: when the header row
/// first names `Hull Damage` at column `k`, an event's hull damage is the trimmed cell of that
/// column (none when the row is shorter); likewise `Shield Damage` for the shield damage and
/// `Total Damage` for the total.
pub proof fn lemma_event_damage_cells_follow_headers(
    h: Seq<Seq<char>>,
    r: Seq<Seq<char>>,
    k: int,
)
    requires
        h.len() <= usize::MAX,
    ensures
        first_header_named(h, "Hull Damage"@, k) ==> event_of_row(r, event_columns_of(h)).hull_damage
            == if k < r.len() {
            Some(trim_seq(r[k]))
        } else {
            None
        },
        first_header_named(h, "Shield Damage"@, k) ==> event_of_row(
            r,
            event_columns_of(h),
        ).shield_damage == if k < r.len() {
            Some(trim_seq(r[k]))
        } else {
            None
        },
        first_header_named(h, "Total Damage"@, k) ==> event_of_row(
            r,
            event_columns_of(h),
        ).total_damage == if k < r.len() {
            Some(trim_seq(r[k]))
        } else {
            None
        },
        first_header_named(h, "Critical Hit?"@, k) ==> event_of_row(
            r,
            event_columns_of(h),
        ).critical_hit == (k < r.len() && eq_ignore_ascii_case_seq(trim_seq(r[k]), "YES"@)),
{
    if first_header_named(h, "Hull Damage"@, k) {
        lemma_find_column_first(h, "Hull Damage"@, 0, k);
    }
    if first_header_named(h, "Shield Damage"@, k) {
        lemma_find_column_first(h, "Shield Damage"@, 0, k);
    }
    if first_header_named(h, "Total Damage"@, k) {
        lemma_find_column_first(h, "Total Damage"@, 0, k);
    }
    if first_header_named(h, "Critical Hit?"@, k) {
        lemma_find_column_first(h, "Critical Hit?"@, 0, k);
    }
}

/// Without a `Hull Damage` header no event has a hull damage cell (and likewise for the
/// shield and total damage).
pub proof fn lemma_event_damage_cells_absent_without_header(h: Seq<Seq<char>>, r: Seq<Seq<char>>)
    ensures
        (forall|t: int| 0 <= t < h.len() ==> !eq_ignore_ascii_case_seq(trim_seq(#[trigger] h[t]), "Hull Damage"@))
            ==> event_of_row(r, event_columns_of(h)).hull_damage is None,
        (forall|t: int| 0 <= t < h.len() ==> !eq_ignore_ascii_case_seq(trim_seq(#[trigger] h[t]), "Shield Damage"@))
            ==> event_of_row(r, event_columns_of(h)).shield_damage is None,
        (forall|t: int| 0 <= t < h.len() ==> !eq_ignore_ascii_case_seq(trim_seq(#[trigger] h[t]), "Total Damage"@))
            ==> event_of_row(r, event_columns_of(h)).total_damage is None,
{
    if forall|t: int| 0 <= t < h.len() ==> !eq_ignore_ascii_case_seq(trim_seq(#[trigger] h[t]), "Hull Damage"@) {
        lemma_find_column_absent(h, "Hull Damage"@, 0);
    }
    if forall|t: int| 0 <= t < h.len() ==> !eq_ignore_ascii_case_seq(trim_seq(#[trigger] h[t]), "Shield Damage"@) {
        lemma_find_column_absent(h, "Shield Damage"@, 0);
    }
    if forall|t: int| 0 <= t < h.len() ==> !eq_ignore_ascii_case_seq(trim_seq(#[trigger] h[t]), "Total Damage"@) {
        lemma_find_column_absent(h, "Total Damage"@, 0);
    }
}

/// `word` stands somewhere in `n`.
pub open spec fn has_word(n: Seq<char>, word: Seq<char>) -> bool {
    exists|p: int| 0 <= p && p + word.len() <= n.len() && #[trigger] n.subrange(p, p + word.len()) == word
}

/// The hull class a name gives follows its upper-cased trimmed form `n`: `REALTA` is an
/// explorer; otherwise a class keyword found anywhere in `n` decides, battleship first, then
/// explorer, interceptor, survey and armada; with no keyword the class is battleship.
pub proof fn lemma_ship_type_keywords(name: Seq<char>)
    ensures
        ({
            let n = unicode_uppercase(trim_seq(name));
            let t = ship_type_of_name(name);
            &&& n == "REALTA"@ ==> t == ShipType::Explorer
            &&& n != "REALTA"@ && has_word(n, "BATTLESHIP"@) ==> t == ShipType::Battleship
            &&& n != "REALTA"@ && !has_word(n, "BATTLESHIP"@) && has_word(n, "EXPLORER"@) ==> t
                == ShipType::Explorer
            &&& n != "REALTA"@ && !has_word(n, "BATTLESHIP"@) && !has_word(n, "EXPLORER"@) && has_word(
                n,
                "INTERCEPTOR"@,
            ) ==> t == ShipType::Interceptor
            &&& n != "REALTA"@ && !has_word(n, "BATTLESHIP"@) && !has_word(n, "EXPLORER"@) && !has_word(
                n,
                "INTERCEPTOR"@,
            ) && has_word(n, "SURVEY"@) ==> t == ShipType::Survey
            &&& n != "REALTA"@ && !has_word(n, "BATTLESHIP"@) && !has_word(n, "EXPLORER"@) && !has_word(
                n,
                "INTERCEPTOR"@,
            ) && !has_word(n, "SURVEY"@) && has_word(n, "ARMADA"@) ==> t == ShipType::Armada
            &&& n != "REALTA"@ && !has_word(n, "BATTLESHIP"@) && !has_word(n, "EXPLORER"@) && !has_word(
                n,
                "INTERCEPTOR"@,
            ) && !has_word(n, "SURVEY"@) && !has_word(n, "ARMADA"@) ==> t == ShipType::Battleship
        }),
{
    let n = unicode_uppercase(trim_seq(name));
    assert forall|w: Seq<char>| has_word(n, w) <==> contains_seq(n, w) by {
        if has_word(n, w) {
            let p = choose|p: int| 0 <= p && p + w.len() <= n.len() && #[trigger] n.subrange(p, p + w.len()) == w;
            assert(crate::text::occurs_at(n, w, p));
        }
        if contains_seq(n, w) {
            let p = choose|p: int| crate::text::occurs_at(n, w, p);
            assert(n.subrange(p, p + w.len()) == w);
        }
    }
}

/// Header cell `k` is `name`, and no other header cell is.
pub open spec fn header_only_at(h: Seq<Seq<char>>, name: Seq<char>, k: int) -> bool {
    &&& 0 <= k < h.len()
    &&& h[k] == name
    &&& forall|t: int| 0 <= t < h.len() && t != k ==> #[trigger] h[t] != name
}

proof fn lemma_row_cell_under_header(h: Seq<Seq<char>>, r: Seq<Seq<char>>, name: Seq<char>, k: int)
    requires
        header_only_at(h, name, k),
        k < r.len(),
    ensures
        lookup(pairs_map(zip_cells(h, r)), name) == Some(r[k]),
{
    let z = zip_cells(h, r);
    assert forall|t: int| k + 1 <= t < z.len() implies (#[trigger] z[t]).0 != name by {
        assert(z[t].0 == h[t]);
    }
    lemma_pairs_map_last_wins(z, k + 1, name);
    let zk = z.take(k + 1);
    assert(zk.drop_last() =~= z.take(k));
    assert(zk.last() == (h[k], r[k]));
}

/// The summary is read by column name: with the header naming `Outcome` (once) at column
/// `k`, the player won exactly when the player row's cell there is `VICTORY`; with
/// `Hull Health Remaining` or `Shield Health Remaining` there, the defender's remaining hull or
/// shield is the enemy row's cell in that column.
pub proof fn lemma_summary_reads_named_columns(
    st: FightExportView,
    h: Seq<Seq<char>>,
    p: Seq<Seq<char>>,
    e: Seq<Seq<char>>,
    k: int,
)
    ensures
        header_only_at(h, "Outcome"@, k) && k < p.len() ==> (with_summary(st, h, p, e).attacker_won
            <==> p[k] == "VICTORY"@),
        header_only_at(h, "Hull Health Remaining"@, k) && k < e.len() ==> with_summary(
            st,
            h,
            p,
            e,
        ).defender_hull_remaining == Some(e[k]),
        header_only_at(h, "Shield Health Remaining"@, k) && k < e.len() ==> with_summary(
            st,
            h,
            p,
            e,
        ).defender_shield_remaining == Some(e[k]),
        with_summary(st, h, p, e).events == st.events && with_summary(st, h, p, e).rounds
            == st.rounds,
{
    if header_only_at(h, "Outcome"@, k) && k < p.len() {
        lemma_row_cell_under_header(h, p, "Outcome"@, k);
    }
    if header_only_at(h, "Hull Health Remaining"@, k) && k < e.len() {
        lemma_row_cell_under_header(h, e, "Hull Health Remaining"@, k);
    }
    if header_only_at(h, "Shield Health Remaining"@, k) && k < e.len() {
        lemma_row_cell_under_header(h, e, "Shield Health Remaining"@, k);
    }
}

/// The fleet rows are told apart by their `Fleet Type` cell: with the header naming
/// `Fleet Type` (once) at column `k`, when the first row says `Player Fleet 1` it is the
/// player's fleet and the second the enemy's; otherwise the other way round.
pub proof fn lemma_fleets_by_fleet_type(
    st: FightExportView,
    h: Seq<Seq<char>>,
    r1: Seq<Seq<char>>,
    r2: Seq<Seq<char>>,
    k: int,
)
    requires
        header_only_at(h, "Fleet Type"@, k),
        k < r1.len(),
    ensures
        r1[k] == "Player Fleet 1"@ ==> with_fleets(st, h, r1, r2).player_fleet == pairs_map(
            zip_cells(h, r1),
        ) && with_fleets(st, h, r1, r2).enemy_fleet == pairs_map(zip_cells(h, r2)),
        r1[k] != "Player Fleet 1"@ ==> with_fleets(st, h, r1, r2).player_fleet == pairs_map(
            zip_cells(h, r2),
        ) && with_fleets(st, h, r1, r2).enemy_fleet == pairs_map(zip_cells(h, r1)),
{
    lemma_row_cell_under_header(h, r1, "Fleet Type"@, k);
}

} // verus!
