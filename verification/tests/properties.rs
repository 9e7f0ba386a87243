//! Scenario tests of the decoder's stated properties: the blank-grid
//! and missing-line-break outcomes, the sentinel substitution, the
//! 6-row fixed-width close, the documentation sample, exact identifier
//! values, and catalogue construction failures.

use ascii_ocr::catalogue::populate_letter_map;
use ascii_ocr::segment::map_to_id;
use ascii_ocr::{ocr, Catalogue, Scannable};

const LETTERS6: &str = "ABCEFGHIJKLOPRSUYZ";
const LETTERS10: &str = "ABCEFGHJKLNPRXZ";

const FORMS6: &str = r"
.##..###...##..####.####..##..#..#.###...##.#..#.#.....##..###..###...###.#..#.#...#.####
#..#.#..#.#..#.#....#....#..#.#..#..#.....#.#.#..#....#..#.#..#.#..#.#....#..#.#...#....#
#..#.###..#....###..###..#....####..#.....#.##...#....#..#.#..#.#..#.#....#..#..#.#....#.
####.#..#.#....#....#....#.##.#..#..#.....#.#.#..#....#..#.###..###...##..#..#...#....#..
#..#.#..#.#..#.#....#....#..#.#..#..#..#..#.#.#..#....#..#.#....#.#.....#.#..#...#...#...
#..#.###...##..####.#.....###.#..#.###..##..#..#.####..##..#....#..#.###...##....#...####        
        ";

const FORMS10: &str = r"
..##...#####...####..######.######..####..#....#....###.#....#.#......#....#.#####..#####..#....#.######
.#..#..#....#.#....#.#......#......#....#.#....#.....#..#...#..#......##...#.#....#.#....#.#....#......#
#....#.#....#.#......#......#......#......#....#.....#..#..#...#......##...#.#....#.#....#..#..#.......#
#....#.#....#.#......#......#......#......#....#.....#..#.#....#......#.#..#.#....#.#....#..#..#......#.
#....#.#####..#......#####..#####..#......######.....#..##.....#......#.#..#.#####..#####....##......#..
######.#....#.#......#......#......#..###.#....#.....#..##.....#......#..#.#.#......#..#.....##.....#...
#....#.#....#.#......#......#......#....#.#....#.....#..#.#....#......#..#.#.#......#...#...#..#...#....
#....#.#....#.#......#......#......#....#.#....#.#...#..#..#...#......#...##.#......#...#...#..#..#.....
#....#.#....#.#....#.#......#......#...##.#....#.#...#..#...#..#......#...##.#......#....#.#....#.#.....
#....#.#####...####..######.#.......###.#.#....#..###...#....#.######.#....#.#......#....#.#....#.######
        ";

fn build_catalogue() -> Catalogue {
    let mut cat = Catalogue::new();
    assert!(populate_letter_map(&mut cat, FORMS6, LETTERS6));
    assert!(populate_letter_map(&mut cat, FORMS10, LETTERS10));
    cat
}

#[test]
fn blank_grid_decodes_empty() {
    let cat = build_catalogue();
    let image = Scannable::Text("....\n....".to_string());
    assert_eq!(ocr(&image, &cat), Some(String::new()));
}

#[test]
fn all_off_bools_decode_empty() {
    let cat = build_catalogue();
    let image = Scannable::FlatBools(vec![false; 12], 4);
    assert_eq!(ocr(&image, &cat), Some(String::new()));
}

#[test]
fn no_line_break_fails() {
    let cat = build_catalogue();
    let image = Scannable::Text("####".to_string());
    assert_eq!(ocr(&image, &cat), None);
}

#[test]
fn empty_text_fails() {
    let cat = build_catalogue();
    let image = Scannable::Text(String::new());
    assert_eq!(ocr(&image, &cat), None);
}

#[test]
fn width_zero_flat_fails() {
    let cat = build_catalogue();
    let image = Scannable::FlatBools(vec![true, false], 0);
    assert_eq!(ocr(&image, &cat), None);
}

#[test]
fn unknown_glyph_becomes_sentinel_in_place() {
    let cat = build_catalogue();
    let a = [".##.", "#..#", "#..#", "####", "#..#", "#..#"];
    let mut text = String::new();
    for row in a.iter() {
        text.push_str(row);
        text.push('.');
        text.push_str("##");
        text.push('.');
        text.push_str(row);
        text.push('\n');
    }
    let image = Scannable::Text(text);
    assert_eq!(ocr(&image, &cat), Some("A?A".to_string()));
}

#[test]
fn ten_filled_columns_split_in_two() {
    let cat = build_catalogue();
    let mut text = String::new();
    for _ in 0..6 {
        text.push_str("##########\n");
    }
    let image = Scannable::Text(text);
    assert_eq!(ocr(&image, &cat), Some("??".to_string()));
}

#[test]
fn abc_sample() {
    let cat = build_catalogue();
    let image = r"
.##..###...##.
#..#.#..#.#..#
#..#.###..#...
####.#..#.#...
#..#.#..#.#..#
#..#.###...##.
    ";
    assert_eq!(ocr(&Scannable::Text(image.to_string()), &cat), Some("ABC".to_string()));
}

#[test]
fn map_to_id_exact_value() {
    assert_eq!(map_to_id("#.\n#."), Some(vec![3]));
}

#[test]
fn map_to_id_no_line_break_fails() {
    assert_eq!(map_to_id("###"), None);
}

#[test]
fn map_to_id_ragged_grid_fails() {
    assert_eq!(map_to_id("##\n#"), None);
}

#[test]
fn partial_trailing_row_is_dropped() {
    let cat = build_catalogue();
    let image = Scannable::FlatChars("....#".chars().collect(), 2);
    assert_eq!(ocr(&image, &cat), Some(String::new()));
}

#[test]
fn from_sheets_round_trip() {
    let asset6 = format!("{}\n\n{}", LETTERS6, FORMS6);
    let asset10 = format!("{}\n\n{}", LETTERS10, FORMS10);
    let cat = Catalogue::from_sheets(&asset6, &asset10).unwrap();
    let sheet6 = Scannable::Text(FORMS6.to_string());
    let sheet10 = Scannable::Text(FORMS10.to_string());
    assert_eq!(ocr(&sheet6, &cat), Some(LETTERS6.to_string()));
    assert_eq!(ocr(&sheet10, &cat), Some(LETTERS10.to_string()));
}

#[test]
fn from_sheets_rejects_missing_blank_line() {
    let asset6 = format!("{}\n\n{}", LETTERS6, FORMS6);
    assert!(Catalogue::from_sheets("ABC #..#", &asset6).is_none());
    assert!(Catalogue::from_sheets(&asset6, "ABC #..#").is_none());
}

#[test]
fn from_sheets_rejects_count_mismatch() {
    let asset6 = format!("{}\n\n{}", LETTERS6, FORMS6);
    let bad = "AB\n\n##\n##";
    assert!(Catalogue::from_sheets(bad, &asset6).is_none());
    assert!(Catalogue::from_sheets(&asset6, bad).is_none());
}

#[test]
fn representations_agree_on_one_grid() {
    let cat = build_catalogue();
    let text = FORMS6.trim();
    let width = text.find('\n').unwrap();
    let flat_chars: Vec<char> = text.chars().filter(|&c| c != '\n').collect();
    let flat_bools: Vec<bool> = flat_chars.iter().map(|&c| c == '#').collect();
    let row_chars: Vec<Vec<char>> = text.lines().map(|l| l.chars().collect()).collect();
    let row_bools: Vec<Vec<bool>> =
        text.lines().map(|l| l.chars().map(|c| c == '#').collect()).collect();
    let expected = ocr(&Scannable::Text(text.to_string()), &cat);
    assert_eq!(expected, Some(LETTERS6.to_string()));
    assert_eq!(ocr(&Scannable::FlatChars(flat_chars, width), &cat), expected);
    assert_eq!(ocr(&Scannable::FlatBools(flat_bools, width), &cat), expected);
    assert_eq!(ocr(&Scannable::RowChars(row_chars), &cat), expected);
    assert_eq!(ocr(&Scannable::RowBools(row_bools), &cat), expected);
}
