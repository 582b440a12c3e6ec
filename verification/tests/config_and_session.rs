//! Configuration data, target naming and solver-session bookkeeping.

use puzzlemoredays::config::area::{AreaConfig, AreaValueFormatter};
use puzzlemoredays::config::collection::PuzzleConfigCollection;
use puzzlemoredays::config::target::{Target, TargetIndex, TargetTemplate, TextGrid};
use puzzlemoredays::config::tile::from_predefined_tile;
use puzzlemoredays::grid::Grid;
use puzzlemoredays::puzzle::config::{default_board_display_values, get_default_config, get_year_config};
use puzzlemoredays::puzzle::names::{
    construct_day_name, construct_month_name, DefaultTargetName, MeaningSelection,
    TargetSelection, YearTargetName,
};
use puzzlemoredays::session::{
    create_solver_call_id, create_board, handle_on_complete, interrupt_solver_call, is_solved,
    SolverStatus,
};
use puzzlemoredays::text::str_eq;
use tokio_util::sync::CancellationToken;

#[test]
fn predefined_tiles_cover_the_catalog() {
    let names = [
        "D2", "I3", "L3", "I4", "O4", "T4", "J4", "L4", "S4", "Z4", "F5", "I5", "L5", "N5",
        "P5", "T5", "U5", "V5", "W5", "X5", "Y5", "Z5",
    ];
    for name in names {
        assert!(from_predefined_tile(name).is_some(), "missing {name}");
    }
    assert!(from_predefined_tile("Q9").is_none());
    assert!(from_predefined_tile("").is_none());

    let domino = from_predefined_tile("D2").unwrap();
    assert_eq!(domino.base().rows(), 1);
    assert_eq!(domino.base().cols(), 2);
    assert!(domino.base().get(0, 0));
    assert!(domino.base().get(0, 1));

    let t4 = from_predefined_tile("T4").unwrap();
    assert_eq!(t4.base().rows(), 2);
    assert_eq!(t4.base().cols(), 3);
    assert!(!t4.base().get(0, 0));
    assert!(t4.base().get(0, 1));
}

#[test]
fn area_config_exposes_its_fields() {
    let area = AreaConfig::new(
        "Day".to_string(),
        AreaValueFormatter::Nth,
        "1".to_string(),
    );
    assert_eq!(area.name(), "Day");
    assert_eq!(area.default_value(), "1");
    assert!(matches!(area.formatter(), AreaValueFormatter::Nth));
}

#[test]
fn format_value_applies_the_area_formatter() {
    let template = TargetTemplate::new("{0}");
    let plain = AreaConfig::new("A".to_string(), AreaValueFormatter::Plain, "".to_string());
    assert_eq!(template.format_value("7", &plain), "7");

    let nth = AreaConfig::new("A".to_string(), AreaValueFormatter::Nth, "".to_string());
    assert_eq!(template.format_value("1", &nth), "1st");
    assert_eq!(template.format_value("2", &nth), "2nd");
    assert_eq!(template.format_value("3", &nth), "3rd");
    assert_eq!(template.format_value("4", &nth), "4th");
    assert_eq!(template.format_value("21", &nth), "21st");
    assert_eq!(template.format_value("22", &nth), "22nd");
    assert_eq!(template.format_value("23", &nth), "23rd");
    assert_eq!(template.format_value("31", &nth), "31st");
    assert_eq!(template.format_value("11", &nth), "11th");

    let wrapped = AreaConfig::new(
        "A".to_string(),
        AreaValueFormatter::PrefixSuffix { prefix: "<".to_string(), suffix: ">".to_string() },
        "".to_string(),
    );
    assert_eq!(template.format_value("x", &wrapped), "<x>");
}

#[test]
fn format_substitutes_target_values() {
    let template = TargetTemplate::new("{0} of {1}.");
    let values = TextGrid::from_cells(
        2,
        2,
        vec!["1".to_string(), "2".to_string(), "Jan".to_string(), "Feb".to_string()],
    );
    let target = Target { indices: vec![TargetIndex(0, 1), TargetIndex(1, 0)] };
    let areas = vec![
        AreaConfig::new("Day".to_string(), AreaValueFormatter::Nth, "".to_string()),
        AreaConfig::new("Month".to_string(), AreaValueFormatter::Plain, "".to_string()),
    ];
    assert_eq!(template.format(&target, &values, &areas), "2nd of Jan.");
}

#[test]
fn format_leaves_unmatched_placeholders() {
    let template = TargetTemplate::new("{0}{1}{9}x");
    let values = TextGrid::from_cells(1, 2, vec!["a".to_string(), "b".to_string()]);
    let target = Target { indices: vec![TargetIndex(0, 0), TargetIndex(0, 1)] };
    let areas: Vec<AreaConfig> = vec![];
    assert_eq!(template.format(&target, &values, &areas), "ab{9}x");
}

#[test]
fn format_shows_missing_cells_as_unknown() {
    let template = TargetTemplate::new("{0}");
    let values = TextGrid::from_cells(1, 1, vec!["a".to_string()]);
    let target = Target { indices: vec![TargetIndex(5, 5)] };
    let areas: Vec<AreaConfig> = vec![];
    assert_eq!(template.format(&target, &values, &areas), "???");
}

#[test]
fn day_names_cover_the_month() {
    assert_eq!(construct_day_name(1), Ok("1st".to_string()));
    assert_eq!(construct_day_name(2), Ok("2nd".to_string()));
    assert_eq!(construct_day_name(3), Ok("3rd".to_string()));
    assert_eq!(construct_day_name(4), Ok("04th".to_string()));
    assert_eq!(construct_day_name(20), Ok("20th".to_string()));
    assert_eq!(construct_day_name(21), Ok("21st".to_string()));
    assert_eq!(construct_day_name(22), Ok("22nd".to_string()));
    assert_eq!(construct_day_name(23), Ok("23rd".to_string()));
    assert_eq!(construct_day_name(30), Ok("30th".to_string()));
    assert_eq!(construct_day_name(31), Ok("31st".to_string()));
    assert_eq!(construct_day_name(0), Err("Day value out of range".to_string()));
    assert_eq!(construct_day_name(32), Err("Day value out of range".to_string()));
}

#[test]
fn month_names_cover_the_year() {
    assert_eq!(construct_month_name(1), Ok("Jan".to_string()));
    assert_eq!(construct_month_name(12), Ok("Dec".to_string()));
    assert_eq!(construct_month_name(0), Err("Month value out of range".to_string()));
    assert_eq!(construct_month_name(13), Err("Month value out of range".to_string()));
}

#[test]
fn default_target_name_formats_a_date() {
    let namer = DefaultTargetName;
    let selection = TargetSelection {
        meaning_selections: vec![
            MeaningSelection { selected_value: 1 },
            MeaningSelection { selected_value: 1 },
        ],
    };
    assert_eq!(namer.create_target_name(&selection), Ok("1st of Jan.".to_string()));

    let short = TargetSelection { meaning_selections: vec![] };
    assert!(namer.create_target_name(&short).is_err());
}

#[test]
fn year_target_name_appends_the_digits() {
    let namer = YearTargetName;
    let selection = TargetSelection {
        meaning_selections: vec![
            MeaningSelection { selected_value: 4 },
            MeaningSelection { selected_value: 7 },
            MeaningSelection { selected_value: 2 },
            MeaningSelection { selected_value: 6 },
        ],
    };
    assert_eq!(namer.create_target_name(&selection), Ok("04th of Jul. 26".to_string()));
}

#[test]
fn built_in_configs_are_consistent() {
    let date = get_default_config();
    assert_eq!(date.board_layout.rows(), 7);
    assert_eq!(date.board_layout.cols(), 7);
    assert_eq!(date.tiles.len(), 8);
    assert!(date.board_layout.get(0, 0));
    assert!(!date.board_layout.get(0, 6));
    assert_eq!(date.meaning_values.get(2, 0), 1);
    assert_eq!(date.meaning_values.get(0, 0), 1);
    assert_eq!(date.meaning_areas.get(0, 0), 1);

    let year = get_year_config();
    assert_eq!(year.board_layout.rows(), 7);
    assert_eq!(year.board_layout.cols(), 11);
    assert_eq!(year.tiles.len(), 12);
}

#[test]
fn session_accepts_only_the_current_call() {
    let id1 = create_solver_call_id(1);
    let id2 = create_solver_call_id(2);
    assert_eq!(
        handle_on_complete(Some(id1), id1, true),
        (None, Some(SolverStatus::Done { solvable: true }))
    );
    assert_eq!(handle_on_complete(Some(id2), id1, true), (Some(id2), None));
    assert_eq!(handle_on_complete(None, id1, false), (None, None));
}

#[test]
fn interrupt_cancels_only_the_current_call() {
    let id1 = create_solver_call_id(1);
    let id2 = create_solver_call_id(2);
    let token = CancellationToken::new();
    assert!(!interrupt_solver_call(&id1, &Some(id2), &Some(token.clone())));
    assert!(!token.is_cancelled());
    assert!(interrupt_solver_call(&id1, &Some(id1), &Some(token.clone())));
    assert!(token.is_cancelled());
    assert!(!interrupt_solver_call(&id1, &Some(id1), &None));
}

#[test]
fn created_board_blocks_layout_occupancy_and_target() {
    let layout = Grid::from_cells(2, 2, vec![true, true, true, false]);
    let occupied = Grid::from_cells(2, 2, vec![false, true, false, false]);
    let target = Target { indices: vec![TargetIndex(1, 0)] };
    let board = create_board(&layout, &occupied, &target);
    assert!(!board.get(0, 0));
    assert!(board.get(0, 1));
    assert!(board.get(1, 0));
    assert!(board.get(1, 1));
    assert!(!is_solved(&layout, &occupied, &target));

    let all_occupied = Grid::from_cells(2, 2, vec![true, true, true, true]);
    assert!(is_solved(&layout, &all_occupied, &target));
}

#[test]
fn string_equality_is_structural() {
    assert!(str_eq("", ""));
    assert!(str_eq("abc", "abc"));
    assert!(!str_eq("abc", "abd"));
    assert!(!str_eq("abc", "ab"));
}

#[test]
fn collection_exposes_its_metadata() {
    let date = get_default_config();
    let collection = PuzzleConfigCollection::new(
        "Calendar".to_string(),
        Some("Cover every day".to_string()),
        "someone".to_string(),
        vec![date],
    );
    assert_eq!(collection.name(), "Calendar");
    assert_eq!(collection.author(), "someone");
    assert_eq!(collection.description().as_deref(), Some("Cover every day"));
    assert_eq!(collection.puzzles().len(), 1);
}

#[test]
fn display_values_label_a_real_target() {
    let template = TargetTemplate::new("{0} of {1}");
    let values = default_board_display_values();
    // Day 2 sits at (2, 1), Feb at (0, 1).
    let target = Target { indices: vec![TargetIndex(2, 1), TargetIndex(0, 1)] };
    let areas = vec![
        AreaConfig::new("Day".to_string(), AreaValueFormatter::Nth, "1".to_string()),
        AreaConfig::new("Month".to_string(), AreaValueFormatter::Plain, "Jan".to_string()),
    ];
    assert_eq!(template.format(&target, &values, &areas), "2nd of Feb");
}
