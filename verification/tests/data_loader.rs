use incubator::argument::Mode;
use incubator::data_loader::{
    dedupboards, findfiles, kifu_path, load_mates, loadkifu_for_mate, read_mate_file,
    snapshot_fields, Board, Entry, Source,
};
use incubator::record::{compare_positions, sort_records, Position, Record};
use std::cmp::Ordering;

fn rec(code: &str, plies_left: u32, fb: i8, fw: i8, score: i8) -> Record {
    Record::new(Position::new(code, plies_left), fb, fw, score)
}

fn flat(records: &[Record]) -> Vec<(String, u32, i8, i8, i8)> {
    records
        .iter()
        .map(|r| {
            (r.position.code.clone(), r.position.plies_left, r.fixed_black, r.fixed_white, r.score)
        })
        .collect()
}

fn sample() -> Vec<Record> {
    vec![
        rec("8/8/8/3aA3/3C2/8/8/8 w", 4, 0, 0, 2),
        rec("8/8/3A4/3B3/3Aa3/8/8/8 w", 4, 1, 0, -3),
        rec("8/8/8/3aA3/3C2/8/8/8 w", 4, 0, 0, 2),
        rec("8/8/8/2C3/3Aa3/8/8/8 w", 4, 0, 2, 7),
        rec("8/8/3A4/3B3/3Aa3/8/8/8 w", 4, 1, 0, -3),
        rec("8/8/8/3aA3/3C2/8/8/8 b", 4, 0, 0, 2),
    ]
}

#[test]
fn dedupboards_sorts_and_collapses() {
    let mut boards = sample();
    let summary = dedupboards(&mut boards);
    assert_eq!(
        flat(&boards),
        vec![
            ("8/8/3A4/3B3/3Aa3/8/8/8 w".to_string(), 4, 1, 0, -3),
            ("8/8/8/2C3/3Aa3/8/8/8 w".to_string(), 4, 0, 2, 7),
            ("8/8/8/3aA3/3C2/8/8/8 b".to_string(), 4, 0, 0, 2),
            ("8/8/8/3aA3/3C2/8/8/8 w".to_string(), 4, 0, 0, 2),
        ]
    );
    assert_eq!(summary, "board: 4 boards\n");
}

#[test]
fn dedupboards_twice_changes_nothing_more() {
    let mut boards = sample();
    dedupboards(&mut boards);
    let once = flat(&boards);
    let summary = dedupboards(&mut boards);
    assert_eq!(flat(&boards), once);
    assert_eq!(summary, "board: 4 boards\n");
}

#[test]
fn dedupboards_keeps_the_set_of_records() {
    let before = flat(&sample());
    let mut boards = sample();
    dedupboards(&mut boards);
    let after = flat(&boards);
    assert!(after.len() <= before.len());
    for r in &before {
        assert!(after.contains(r));
    }
    for r in &after {
        assert!(before.contains(r));
    }
}

#[test]
fn dedupboards_does_not_depend_on_the_order() {
    let mut a = sample();
    let mut b = sample();
    b.reverse();
    b.swap(1, 4);
    dedupboards(&mut a);
    dedupboards(&mut b);
    assert_eq!(flat(&a), flat(&b));
}

#[test]
fn dedupboards_of_nothing() {
    let mut boards: Vec<Record> = Vec::new();
    assert_eq!(dedupboards(&mut boards), "board: 0 boards\n");
    assert!(boards.is_empty());
}

#[test]
fn dedupboards_compares_every_field() {
    let mut boards = vec![rec("p", 3, 0, 0, 1), rec("p", 3, 1, 0, 1), rec("p", 3, 0, 0, 1)];
    dedupboards(&mut boards);
    assert_eq!(
        flat(&boards),
        vec![
            ("p".to_string(), 3, 0, 0, 1),
            ("p".to_string(), 3, 1, 0, 1),
            ("p".to_string(), 3, 0, 0, 1),
        ]
    );
}

#[test]
fn sort_records_keeps_the_order_of_equal_positions() {
    let mut boards = vec![
        rec("b", 3, 0, 0, 1),
        rec("a", 3, 0, 0, 9),
        rec("b", 3, 0, 0, 2),
        rec("a", 3, 0, 0, 8),
        rec("a", 2, 0, 0, 7),
    ];
    sort_records(&mut boards);
    assert_eq!(
        flat(&boards),
        vec![
            ("a".to_string(), 2, 0, 0, 7),
            ("a".to_string(), 3, 0, 0, 9),
            ("a".to_string(), 3, 0, 0, 8),
            ("b".to_string(), 3, 0, 0, 1),
            ("b".to_string(), 3, 0, 0, 2),
        ]
    );
}

#[test]
fn compare_positions_orders_by_text_then_depth() {
    let p = |c: &str, n: u32| Position::new(c, n);
    assert_eq!(compare_positions(&p("8/8 b", 3), &p("8/8 w", 3)), Ordering::Less);
    assert_eq!(compare_positions(&p("8/8 w", 3), &p("8/8 b", 3)), Ordering::Greater);
    assert_eq!(compare_positions(&p("8/8 w", 3), &p("8/8 w", 3)), Ordering::Equal);
    assert_eq!(compare_positions(&p("8/8", 3), &p("8/8 w", 3)), Ordering::Less);
    assert_eq!(compare_positions(&p("", 3), &p("", 3)), Ordering::Equal);
    assert_eq!(compare_positions(&p("A", 3), &p("a", 3)), Ordering::Less);
    assert_eq!(compare_positions(&p("z", 3), &p("\u{e9}", 3)), Ordering::Less);
    assert_eq!(compare_positions(&p("x", 2), &p("x", 3)), Ordering::Less);
    assert_eq!(compare_positions(&p("x", 4), &p("x", 3)), Ordering::Greater);
    assert_eq!(compare_positions(&p("w", 9), &p("x", 3)), Ordering::Less);
}

#[test]
fn findfiles_takes_the_txt_names_in_order() {
    let names: Vec<String> =
        ["k3.txt", "readme.md", "k1.txt", "k10.txt", "notes.txt.bak", "txt", "K2.txt", ".txt"]
            .iter()
            .map(|s| s.to_string())
            .collect();
    assert_eq!(
        findfiles(&names, Mode::Kifu),
        vec![".txt", "K2.txt", "k1.txt", "k10.txt", "k3.txt"]
    );
    assert_eq!(
        findfiles(&names, Mode::Mate),
        vec![".txt", "K2.txt", "k1.txt", "k10.txt", "k3.txt", "notes.txt.bak"]
    );
    assert!(findfiles(&Vec::new(), Mode::Kifu).is_empty());
    assert!(findfiles(&Vec::new(), Mode::Mate).is_empty());
}

#[test]
fn findfiles_takes_compressed_snapshots() {
    let names: Vec<String> =
        ["mate5.txt.zst", "mate4.txt", "mate6.txt.zstd", "mate.zst", "mate7.text"]
            .iter()
            .map(|s| s.to_string())
            .collect();
    assert_eq!(
        findfiles(&names, Mode::Mate),
        vec!["mate4.txt", "mate5.txt.zst", "mate6.txt.zstd"]
    );
    assert_eq!(findfiles(&names, Mode::Kifu), vec!["mate4.txt"]);
}

#[test]
fn kifu_path_joins_with_a_slash() {
    assert_eq!(kifu_path("kifu", "k1.txt"), "kifu/k1.txt");
    assert_eq!(kifu_path("", ""), "/");
}

fn board(code: &str, plies_left: u32, fb: i8, fw: i8, count: i8) -> Board {
    Board::new(Position::new(code, plies_left), fb, fw, count)
}

#[test]
fn loadkifu_for_mate_takes_exactly_the_depth() {
    let visited = vec![
        board("far", 5, 0, 0, 1),
        board("mid-a", 4, 1, 2, -6),
        board("near", 3, 3, 3, 4),
        board("mid-b", 4, 0, 0, 64),
        board("mid-a", 4, 1, 2, -6),
    ];
    let got = loadkifu_for_mate(&visited, 4);
    assert_eq!(
        flat(&got),
        vec![
            ("mid-a".to_string(), 4, 1, 2, -6),
            ("mid-b".to_string(), 4, 0, 0, 64),
            ("mid-a".to_string(), 4, 1, 2, -6),
        ]
    );
    assert!(loadkifu_for_mate(&visited, 6).is_empty());
    assert_eq!(loadkifu_for_mate(&visited, 3).len(), 1);
    assert_eq!(loadkifu_for_mate(&visited, 5).len(), 1);
}

#[test]
fn snapshot_fields_skips_comments_and_short_lines() {
    assert!(snapshot_fields("").is_none());
    assert!(snapshot_fields("# kifu/2024").is_none());
    assert!(snapshot_fields("#8/8/8/8/8/8/8/8 b,5").is_none());
    assert!(snapshot_fields("8/8/8 b,5").is_none());
    assert!(snapshot_fields("0123456789").is_none());
    assert!(snapshot_fields("0123456789a").is_some());
}

#[test]
fn snapshot_fields_takes_position_and_score() {
    let f = snapshot_fields("8/8/8/3aA3/3C2/8/8/8 w,5").unwrap();
    assert_eq!(f.position, "8/8/8/3aA3/3C2/8/8/8 w");
    assert_eq!(f.score, "5");
    let f = snapshot_fields("8/8/8/3aA3/3C2/8/8/8 w,-12,rest,more").unwrap();
    assert_eq!(f.position, "8/8/8/3aA3/3C2/8/8/8 w");
    assert_eq!(f.score, "-12");
    let f = snapshot_fields("8/8/8/3aA3/3C2/8/8/8 w").unwrap();
    assert_eq!(f.position, "8/8/8/3aA3/3C2/8/8/8 w");
    assert_eq!(f.score, "");
    let f = snapshot_fields(",,,,,,,,,,,").unwrap();
    assert_eq!(f.position, "");
    assert_eq!(f.score, "");
}

fn entry(code: &str, plies_left: u32, score: &str) -> Entry {
    Entry { board: Ok(board(code, plies_left, 1, 2, 0)), score: score.to_string() }
}

#[test]
fn read_mate_file_gives_one_record_with_the_score() {
    let f = snapshot_fields("8/8/8/3aA3/3C2/8/8/8 w,5").unwrap();
    let entries =
        vec![Entry { board: Ok(board(&f.position, 3, 1, 2, 0)), score: f.score.clone() }];
    let got = read_mate_file(&entries, 3).unwrap();
    assert_eq!(flat(&got), vec![("8/8/8/3aA3/3C2/8/8/8 w".to_string(), 3, 1, 2, 5)]);
}

#[test]
fn read_mate_file_takes_the_depth_asked_for() {
    let entries = vec![
        entry("a", 3, "5"),
        entry("b", 4, "-7"),
        entry("c", 2, "0"),
        entry("d", 3, "+64"),
        entry("e", 3, "-64"),
    ];
    let got = read_mate_file(&entries, 3).unwrap();
    assert_eq!(
        flat(&got),
        vec![
            ("a".to_string(), 3, 1, 2, 5),
            ("d".to_string(), 3, 1, 2, 64),
            ("e".to_string(), 3, 1, 2, -64),
        ]
    );
    assert!(read_mate_file(&Vec::new(), 3).unwrap().is_empty());
}

#[test]
fn read_mate_file_reads_every_score_strictly() {
    let entries = vec![entry("a", 3, "5"), entry("c", 2, "bad"), entry("d", 3, "1")];
    assert_eq!(
        read_mate_file(&entries, 3).err(),
        Some("error: parse score : invalid digit found in string".to_string())
    );
}

#[test]
fn read_mate_file_fails_on_a_malformed_position() {
    let entries = vec![
        entry("a", 3, "5"),
        Entry { board: Err("invalid rfen".to_string()), score: "5".to_string() },
        entry("b", 3, "x"),
    ];
    assert_eq!(read_mate_file(&entries, 3).err(), Some("invalid rfen".to_string()));
}

#[test]
fn read_mate_file_fails_on_a_malformed_score() {
    let cases = [
        ("", "error: parse score : cannot parse integer from empty string"),
        ("5 ", "error: parse score : invalid digit found in string"),
        ("-", "error: parse score : invalid digit found in string"),
        ("1.5", "error: parse score : invalid digit found in string"),
        ("128", "error: parse score : number too large to fit in target type"),
        ("-129", "error: parse score : number too small to fit in target type"),
    ];
    for (score, words) in cases {
        let entries = vec![entry("a", 3, "1"), entry("b", 3, score), entry("c", 3, "zz")];
        assert_eq!(read_mate_file(&entries, 3).err(), Some(words.to_string()));
        let std_words = format!("error: parse score : {}", score.parse::<i8>().unwrap_err());
        assert_eq!(words, std_words);
    }
}

#[test]
fn load_mates_decides_how_to_read() {
    assert_eq!(load_mates("mate4.txt", true), Ok(Source::Plain));
    assert_eq!(load_mates("mate4.txt.zst", true), Ok(Source::Compressed));
    assert_eq!(load_mates("mate4.zstd", true), Ok(Source::Compressed));
    assert_eq!(load_mates(".zst", true), Ok(Source::Compressed));
    assert_eq!(load_mates("zst", true), Ok(Source::Plain));
    assert_eq!(load_mates("mate4.zst.txt", true), Ok(Source::Plain));
    assert_eq!(load_mates("", true), Ok(Source::Plain));
}

#[test]
fn load_mates_reports_a_missing_file() {
    assert_eq!(
        load_mates("kifu/mate4.txt", false),
        Err("kifu/mate4.txt does NOT exist!".to_string())
    );
    assert_eq!(load_mates("a.zst", false), Err("a.zst does NOT exist!".to_string()));
}
