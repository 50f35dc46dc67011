use tutor_convert::dedup::push_if_new;
use tutor_convert::float::trunc_float_bits;
use tutor_convert::pipeline::{convert_rows, first_sheet, ConvertError};
use tutor_convert::record::{map_row, split_subjects, Cell, Tutor};
use tutor_convert::text::{contains_str, decimal_string, is_whitespace, split_trim_str, trim_str};

fn text(s: &str) -> Cell {
    Cell::Text(s.to_string())
}

fn float(f: f64) -> Cell {
    Cell::Float(f.to_bits())
}

fn strings(v: &[&str]) -> Vec<String> {
    v.iter().map(|s| s.to_string()).collect()
}

fn row(id: Cell, name: Cell, grade: Cell, subjects: Vec<Cell>) -> Vec<Cell> {
    let mut r = vec![Cell::Other, Cell::Other, id, name, grade];
    r.extend(subjects);
    r
}

#[test]
fn split_on_double_space() {
    assert_eq!(split_subjects("Math  Science"), strings(&["Math", "Science"]));
}

#[test]
fn split_on_comma() {
    assert_eq!(split_subjects("Math,Science"), strings(&["Math", "Science"]));
}

#[test]
fn double_space_takes_precedence_over_comma() {
    assert_eq!(
        split_subjects("Math  Physics, Chemistry"),
        strings(&["Math", "Physics, Chemistry"])
    );
}

#[test]
fn single_subject() {
    assert_eq!(split_subjects("Math"), strings(&["Math"]));
    assert_eq!(split_subjects("  Math \t"), strings(&["Math"]));
}

#[test]
fn empty_or_blank_cell_gives_no_subjects() {
    assert!(split_subjects("").is_empty());
    assert!(split_subjects("   \t ").is_empty());
}

#[test]
fn split_pieces_are_trimmed_and_empty_pieces_kept() {
    assert_eq!(split_subjects(" a , b ,, c "), strings(&["a", "b", "", "c"]));
    assert_eq!(split_subjects("a   b"), strings(&["a", "b"]));
    assert_eq!(split_subjects("a    b"), strings(&["a", "", "b"]));
}

#[test]
fn split_trim_on_separator() {
    assert_eq!(split_trim_str("x;y", ";"), strings(&["x", "y"]));
    assert_eq!(split_trim_str("", ";"), strings(&[""]));
    assert_eq!(split_trim_str(";", ";"), strings(&["", ""]));
}

#[test]
fn trims_unicode_whitespace() {
    assert_eq!(trim_str("\u{a0} Alice Smith\u{3000}\n"), "Alice Smith");
    assert_eq!(trim_str("   "), "");
    assert_eq!(trim_str("a b"), "a b");
}

#[test]
fn finds_separators() {
    assert!(contains_str("Math  Science", "  "));
    assert!(!contains_str("Math Science", "  "));
    assert!(contains_str("a,b", ","));
    assert!(contains_str("", ""));
}

#[test]
fn writes_decimal_numerals() {
    assert_eq!(decimal_string(0), "0");
    assert_eq!(decimal_string(101), "101");
    assert_eq!(decimal_string(-45), "-45");
    assert_eq!(decimal_string(i64::MAX), i64::MAX.to_string());
    assert_eq!(decimal_string(i64::MIN), i64::MIN.to_string());
}

#[test]
fn float_cells_are_truncated() {
    let r = map_row(&row(float(7.0), text("A"), float(7.9), vec![]));
    assert_eq!(r.id, "7");
    assert_eq!(r.grade, "7");
    let r = map_row(&row(float(-3.7), text("A"), Cell::Int(12), vec![]));
    assert_eq!(r.id, "-3");
    assert_eq!(r.grade, "12");
}

#[test]
fn string_id_and_grade_are_trimmed() {
    let r = map_row(&row(text("  A-17 "), text(" Bob "), text(" 10\n"), vec![]));
    assert_eq!(r.id, "A-17");
    assert_eq!(r.name, "Bob");
    assert_eq!(r.photo, "Bob.jpeg");
    assert_eq!(r.grade, "10");
}

#[test]
fn other_cells_give_sentinels() {
    let r = map_row(&row(Cell::Bool(true), Cell::Int(5), Cell::Other, vec![Cell::Int(3)]));
    assert_eq!(r.id, "Unknown_ID");
    assert_eq!(r.name, "Unknown Name");
    assert_eq!(r.photo, "Unknown Name.jpeg");
    assert_eq!(r.grade, "Unknown Grade");
    assert!(r.subjects.is_empty());
    assert!(!r.available);
}

#[test]
fn short_row_gives_sentinels() {
    let r = map_row(&vec![Cell::Int(1), Cell::Int(2)]);
    assert_eq!(r.id, "Unknown_ID");
    assert_eq!(r.name, "Unknown Name");
    assert_eq!(r.grade, "Unknown Grade");
    assert_eq!(r.photo, "Unknown Name.jpeg");
    assert!(r.subjects.is_empty());
    let r = map_row(&vec![]);
    assert_eq!(r.id, "Unknown_ID");
}

#[test]
fn photo_keeps_name_verbatim() {
    let r = map_row(&row(Cell::Int(1), text("a/b c"), Cell::Int(1), vec![]));
    assert_eq!(r.photo, "a/b c.jpeg");
}

#[test]
fn subjects_come_from_seven_cells_in_order() {
    let subjects = vec![
        text("Math  Physics"),
        text(""),
        Cell::Int(4),
        text("Art"),
        text("Math"),
        text("x,y"),
        text("Music"),
        text("Ignored"),
    ];
    let r = map_row(&row(Cell::Int(1), text("A"), Cell::Int(1), subjects));
    assert_eq!(r.subjects, strings(&["Math", "Physics", "Art", "Math", "x", "y", "Music"]));
}

#[test]
fn mapping_twice_gives_the_same_record() {
    let r = row(float(3.0), text(" Eve "), text("11"), vec![text("Bio, Chem")]);
    assert_eq!(map_row(&r), map_row(&r));
}

#[test]
fn header_row_is_skipped() {
    let header = vec![text("a"), text("b"), text("ID"), text("Name"), text("Grade")];
    assert!(convert_rows(&vec![header.clone()]).is_empty());
    assert!(convert_rows(&vec![]).is_empty());
    let out = convert_rows(&vec![header, row(Cell::Int(5), text("N"), Cell::Int(1), vec![])]);
    assert_eq!(out.len(), 1);
    assert_eq!(out[0].id, "5");
}

#[test]
fn first_record_of_an_id_wins() {
    let rows = vec![
        vec![],
        row(Cell::Int(1), text("First"), Cell::Int(1), vec![]),
        row(Cell::Int(2), text("Other"), Cell::Int(2), vec![]),
        row(text("1"), text("Second"), Cell::Int(3), vec![text("Math")]),
        row(float(1.0), text("Third"), Cell::Int(4), vec![]),
        row(Cell::Int(3), text("Last"), Cell::Int(5), vec![]),
    ];
    let out = convert_rows(&rows);
    let ids: Vec<&str> = out.iter().map(|t| t.id.as_str()).collect();
    assert_eq!(ids, vec!["1", "2", "3"]);
    assert_eq!(out[0], map_row(&rows[1]));
    assert_eq!(out[1], map_row(&rows[2]));
    assert_eq!(out[2], map_row(&rows[5]));
}

#[test]
fn worksheet_end_to_end() {
    let rows = vec![
        vec![text("h0"), text("h1"), text("ID"), text("Name"), text("Grade")],
        row(Cell::Int(101), text("Alice Smith"), Cell::Int(9), vec![text("Math  Physics"), text("")]),
        row(Cell::Int(101), text("Alice Dup"), Cell::Int(9), vec![text("Chemistry")]),
        row(Cell::Int(202), text("Bob Lee"), text("10"), vec![text("Algebra,Geometry")]),
    ];
    let out = convert_rows(&rows);
    let expected = vec![
        Tutor {
            id: "101".to_string(),
            name: "Alice Smith".to_string(),
            available: false,
            photo: "Alice Smith.jpeg".to_string(),
            grade: "9".to_string(),
            subjects: strings(&["Math", "Physics"]),
        },
        Tutor {
            id: "202".to_string(),
            name: "Bob Lee".to_string(),
            available: false,
            photo: "Bob Lee.jpeg".to_string(),
            grade: "10".to_string(),
            subjects: strings(&["Algebra", "Geometry"]),
        },
    ];
    assert_eq!(out, expected);
}

#[test]
fn push_if_new_keeps_existing_id() {
    let a = map_row(&row(Cell::Int(1), text("A"), Cell::Int(1), vec![]));
    let b = map_row(&row(Cell::Int(1), text("B"), Cell::Int(2), vec![]));
    let c = map_row(&row(Cell::Int(2), text("C"), Cell::Int(3), vec![]));
    let mut out = Vec::new();
    push_if_new(&mut out, a.clone());
    push_if_new(&mut out, b);
    push_if_new(&mut out, c.clone());
    assert_eq!(out, vec![a, c]);
}

#[test]
fn first_sheet_by_position() {
    assert_eq!(first_sheet(&vec![]), Err(ConvertError::NoWorksheet));
    let names = strings(&["Tutors", "Archive"]);
    assert_eq!(first_sheet(&names), Ok("Tutors".to_string()));
}

#[test]
fn float_bits_truncate_toward_zero() {
    let t = |f: f64| trunc_float_bits(f.to_bits());
    assert_eq!(t(7.0), 7);
    assert_eq!(t(7.9), 7);
    assert_eq!(t(-7.9), -7);
    assert_eq!(t(0.5), 0);
    assert_eq!(t(-0.0), 0);
    assert_eq!(t(1e-310), 0);
    assert_eq!(t(101.0), 101);
    assert_eq!(t(4503599627370497.0), 4503599627370497);
    assert_eq!(t(9007199254740993.0), 9007199254740992);
    assert_eq!(t(-9223372036854775808.0), i64::MIN);
    assert_eq!(t(9.3e18), i64::MAX);
    assert_eq!(t(-1e300), i64::MIN);
    assert_eq!(t(f64::INFINITY), i64::MAX);
    assert_eq!(t(f64::NEG_INFINITY), i64::MIN);
    assert_eq!(t(f64::NAN), 0);
}

#[test]
fn float_bits_agree_with_the_cast() {
    let samples: [f64; 16] = [
        0.0, 1.0, -1.0, 2.5, -2.5, 123456.789, -98765.4321, 1e15, -1e15, 3.0e17, -4.6e18,
        9.2e18, 1e19, 0.999999, 6.02e23, 1.5e-5,
    ];
    for f in samples {
        assert_eq!(trunc_float_bits(f.to_bits()), f as i64, "{}", f);
    }
}

fn std_tokens(cell: &str) -> Vec<String> {
    let val = cell.trim();
    if val.contains("  ") {
        val.split("  ").map(|s| s.trim().to_string()).collect()
    } else if val.contains(',') {
        val.split(',').map(|s| s.trim().to_string()).collect()
    } else if !val.is_empty() {
        vec![val.to_string()]
    } else {
        vec![]
    }
}

#[test]
fn whitespace_matches_char_is_whitespace() {
    for u in 0u32..0x3100 {
        if let Some(c) = char::from_u32(u) {
            assert_eq!(is_whitespace(c), c.is_whitespace(), "{:x}", u);
            let s = format!("{}x{}y{}", c, c, c);
            assert_eq!(trim_str(&s), s.trim(), "{:x}", u);
        }
    }
}

#[test]
fn subject_tokens_match_str_split() {
    let cells = [
        "Math  Science",
        " Math   Science  Art ",
        "a,b , c,,",
        ",",
        "  ,  ",
        "x  y,z",
        "\u{2003}Bio\u{a0},\tChem\n",
        "one",
        "a  ,  b",
        "     ",
        "a    b     c",
        "Éco  Ünï,x",
    ];
    for c in cells {
        assert_eq!(split_subjects(c), std_tokens(c), "{:?}", c);
    }
}
