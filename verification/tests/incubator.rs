use incubator::argument::{Arg, Mode};
use incubator::data_loader::dedupboards;
use incubator::incubator::{
    augment, corpus_for, dest_file, every_at_depth, expand_log_path, format_log_path, Action,
    Event, Fatal, Incubator, Member, Stage,
};
use incubator::record::{Position, Record};

fn rec(code: &str, plies_left: u32, fb: i8, fw: i8, score: i8) -> Record {
    Record::new(Position::new(code, plies_left), fb, fw, score)
}

fn flat(records: &[Record]) -> Vec<(String, u32, i8, i8, i8)> {
    records
        .iter()
        .map(|r| {
            (r.position.code.clone(), r.position.plies_left, r.fixed_black, r.fixed_white, r.score)
        })
        .collect()
}

fn arg(md: Mode, dirs: &[&str], mate: u32) -> Arg {
    Arg {
        md,
        kifudir: dirs.iter().map(|d| d.to_string()).collect(),
        progressbar: false,
        log: None,
        mate,
        ru_config: None,
        verbose: false,
    }
}

#[test]
fn from_arg_copies_the_options() {
    let a = Arg {
        md: Mode::Mate,
        kifudir: vec!["a".to_string(), "b".to_string()],
        progressbar: true,
        log: Some("log<DATETIME>.txt".to_string()),
        mate: 7,
        ru_config: Some("ruversi.conf".to_string()),
        verbose: true,
    };
    let inc = Incubator::from(a);
    assert_eq!(inc.kifudir, vec!["a", "b"]);
    assert_eq!(inc.log, Some("log<DATETIME>.txt".to_string()));
    assert_eq!(inc.mate, 7);
    assert_eq!(inc.mode, Mode::Mate);
    assert_eq!(inc.ruversi_config, Some("ruversi.conf".to_string()));
    assert_eq!(inc.config_path(), "ruversi.conf");
    assert!(inc.show_progressbar);
    assert!(inc.verbose);
    assert_eq!(inc.stage, Stage::Idle);
    assert_eq!(inc.group, 0);
    let plain = Incubator::from(arg(Mode::Kifu, &[], 3));
    assert_eq!(plain.config_path(), "");
}

#[test]
fn dest_file_names_the_depth_below() {
    assert_eq!(dest_file(4), "mate3.txt");
    assert_eq!(dest_file(3), "mate2.txt");
    assert_eq!(dest_file(59), "mate58.txt");
    assert_eq!(dest_file(1), "mate0.txt");
    assert_eq!(dest_file(0), "mate0.txt");
    assert_eq!(dest_file(u32::MAX), "mate4294967294.txt");
    assert_eq!(dest_file(11), "mate10.txt");
}

#[test]
fn expand_log_path_puts_the_time_in() {
    let txt = Some("log/<DATETIME>/run<DATETIME>.log".to_string());
    assert_eq!(
        expand_log_path(&txt, "20240102030405", false),
        "log/20240102030405/run20240102030405.log"
    );
    assert_eq!(expand_log_path(&Some("plain.log".to_string()), "2024", true), "plain.log");
    assert_eq!(expand_log_path(&Some("<DATETIME".to_string()), "2024", true), "<DATETIME");
    assert_eq!(expand_log_path(&Some("<<DATETIME>>".to_string()), "7", true), "<7>");
    assert_eq!(expand_log_path(&Some(String::new()), "7", true), "");
    assert_eq!(expand_log_path(&None, "2024", false), "/dev/null");
    assert_eq!(expand_log_path(&None, "2024", true), "nul");
}

#[test]
fn format_log_path_writes_fourteen_digits() {
    let got = format_log_path(&Some("run-<DATETIME>.log".to_string()), false);
    assert!(got.starts_with("run-"));
    assert!(got.ends_with(".log"));
    let stamp = &got[4..got.len() - 4];
    assert_eq!(stamp.len(), 14);
    assert!(stamp.chars().all(|c| c.is_ascii_digit()));
    assert!(stamp.starts_with("20"));
    assert_eq!(format_log_path(&None, false), "/dev/null");
    assert_eq!(format_log_path(&None, true), "nul");
}

#[test]
fn putlog_ends_the_line() {
    let mut inc = Incubator::from(arg(Mode::Kifu, &[], 3));
    assert_eq!(inc.putlog("loading"), ("loading\n".to_string(), true));
    assert_eq!(inc.putlog("loading\n"), ("loading\n".to_string(), true));
    assert_eq!(inc.putlog(""), ("\n".to_string(), true));
    assert_eq!(inc.putlog("a\nb"), ("a\nb\n".to_string(), true));
    inc.show_progressbar = true;
    assert_eq!(inc.putlog("x"), ("x\n".to_string(), false));
}

fn member(code: &str, fb: i8, fw: i8) -> Member {
    Member { position: Position::new(code, 3), fixed_black: fb, fixed_white: fw }
}

#[test]
fn augment_without_symmetry_gives_eight_records() {
    let orbit: Vec<Member> = (0..8).map(|i| member(&format!("orbit{i}"), i, 7 - i)).collect();
    let mut got = augment(-5, &orbit);
    assert_eq!(got.len(), 8);
    for (i, r) in got.iter().enumerate() {
        assert_eq!(r.position.code, format!("orbit{i}"));
        assert_eq!(r.fixed_black, i as i8);
        assert_eq!(r.fixed_white, 7 - i as i8);
        assert_eq!(r.score, -5);
    }
    dedupboards(&mut got);
    assert_eq!(got.len(), 8);
    assert!(got.iter().all(|r| r.score == -5));
}

#[test]
fn augment_of_a_symmetric_position_collapses_to_one() {
    let orbit: Vec<Member> = (0..8).map(|_| member("same", 2, 2)).collect();
    let mut got = augment(12, &orbit);
    assert_eq!(got.len(), 8);
    dedupboards(&mut got);
    assert_eq!(flat(&got), vec![("same".to_string(), 3, 2, 2, 12)]);
    assert!(augment(1, &Vec::new()).is_empty());
}

#[test]
fn corpus_for_writes_header_and_lines() {
    let records = vec![
        rec("8/8/8/3aA3/3C2/8/8/8 w", 3, 0, 0, 5),
        rec("8/8/3A4/3B3/3Aa3/8/8/8 w", 4, 0, 0, 1),
        rec("8/8/8/2C3/3Aa3/8/8/8 b", 3, 1, 1, -64),
        rec("8/8/8/8/8/8/8/8 b", 3, 0, 0, 0),
        rec("x", 3, 0, 0, -128),
        rec("y", 3, 0, 0, 127),
    ];
    assert_eq!(
        corpus_for("kifu/2024", &records, 3),
        "# kifu/2024\n8/8/8/3aA3/3C2/8/8/8 w,5\n8/8/8/2C3/3Aa3/8/8/8 b,-64\n\
         8/8/8/8/8/8/8/8 b,0\nx,-128\ny,127\n"
    );
    assert_eq!(corpus_for("d", &records, 9), "# d\n");
    assert_eq!(corpus_for("", &Vec::new(), 3), "# \n");
}

#[test]
fn every_at_depth_checks_all() {
    let records = vec![rec("a", 4, 0, 0, 1), rec("b", 4, 0, 0, 1)];
    assert!(every_at_depth(&records, 4));
    assert!(!every_at_depth(&records, 3));
    assert!(every_at_depth(&Vec::new(), 3));
    let mixed = vec![rec("a", 4, 0, 0, 1), rec("b", 3, 0, 0, 1)];
    assert!(!every_at_depth(&mixed, 4));
}

#[test]
fn run_refuses_a_depth_out_of_range() {
    for mate in [0, 1, 2, 60, 61, u32::MAX] {
        let mut inc = Incubator::from(arg(Mode::Kifu, &["k"], mate));
        let r = inc.run(Event::Start { destination_exists: false });
        assert_eq!(r.err(), Some(Fatal::DepthOutOfRange));
        assert_eq!(inc.stage, Stage::Idle);
    }
    for mate in [3, 59] {
        let mut inc = Incubator::from(arg(Mode::Kifu, &["k"], mate));
        assert!(inc.run(Event::Start { destination_exists: false }).is_ok());
    }
}

#[test]
fn run_stops_before_anything_when_the_destination_exists() {
    for md in [Mode::Kifu, Mode::Mate] {
        let mut inc = Incubator::from(arg(md, &["k"], 4));
        let r = inc.run(Event::Start { destination_exists: true });
        assert_eq!(r.err(), Some(Fatal::DestinationExists));
        assert_eq!(inc.stage, Stage::Idle);
        assert_eq!(inc.group, 0);
        assert_eq!(Fatal::DestinationExists.message(4), "mate3.txt exists!");
    }
}

#[test]
fn run_checks_the_depth_before_the_destination() {
    let mut inc = Incubator::from(arg(Mode::Kifu, &["k"], 2));
    let r = inc.run(Event::Start { destination_exists: true });
    assert_eq!(r.err(), Some(Fatal::DepthOutOfRange));
}

#[test]
fn run_without_groups_is_done_at_once() {
    let mut inc = Incubator::from(arg(Mode::Kifu, &[], 4));
    let r = inc.run(Event::Start { destination_exists: false });
    assert!(matches!(r, Ok(Action::Finish)));
    assert_eq!(inc.stage, Stage::Done);
    assert_eq!(inc.run(Event::Written).err(), Some(Fatal::OutOfOrder));
}

fn load(action: Result<Action, Fatal>) -> (String, u32) {
    match action {
        Ok(Action::Load { dir, depth }) => (dir, depth),
        _ => panic!("no load"),
    }
}

#[test]
fn run_on_game_records_goes_through_every_stage() {
    let mut inc = Incubator::from(arg(Mode::Kifu, &["k1", "k2"], 4));
    let first = inc.run(Event::Start { destination_exists: false });
    assert_eq!(load(first), ("k1".to_string(), 4));
    assert_eq!(inc.stage, Stage::Loading);

    // two game files that end in overlapping positions
    let loaded = vec![
        rec("q2", 4, 1, 0, 2),
        rec("q1", 4, 0, 0, 6),
        rec("q2", 4, 1, 0, 2),
        rec("q1", 4, 0, 0, 6),
    ];
    let boards = match inc.run(Event::Loaded(loaded)) {
        Ok(Action::Expand { boards, summary }) => {
            assert_eq!(summary, "board: 2 boards\n");
            boards
        },
        _ => panic!("no expansion"),
    };
    assert_eq!(
        flat(&boards),
        vec![("q1".to_string(), 4, 0, 0, 6), ("q2".to_string(), 4, 1, 0, 2)]
    );
    assert_eq!(inc.stage, Stage::Expanding);

    // q1 and q2 share the successor c1; c3 is a pass and stays at depth 4
    let expanded = vec![
        rec("c2", 3, 0, 0, -2),
        rec("c1", 3, 0, 0, 5),
        rec("c3", 4, 0, 0, 1),
        rec("c1", 3, 0, 0, 5),
    ];
    let records = match inc.run(Event::Expanded(expanded)) {
        Ok(Action::Augment { records, summary }) => {
            assert_eq!(summary, "board: 3 boards\n");
            records
        },
        _ => panic!("no augmentation"),
    };
    assert_eq!(
        flat(&records),
        vec![
            ("c1".to_string(), 3, 0, 0, 5),
            ("c2".to_string(), 3, 0, 0, -2),
            ("c3".to_string(), 4, 0, 0, 1),
        ]
    );
    assert_eq!(inc.stage, Stage::Augmenting);

    // c1 is symmetric under half of the symmetries, c2 under none of two
    let mut orbits = Vec::new();
    for r in &records {
        let orbit: Vec<Member> = match r.position.code.as_str() {
            "c1" => vec![
                Member { position: Position::new("c1", 3), fixed_black: 0, fixed_white: 0 },
                Member { position: Position::new("c1", 3), fixed_black: 0, fixed_white: 0 },
                Member { position: Position::new("c1'", 3), fixed_black: 0, fixed_white: 0 },
            ],
            "c2" => vec![
                Member { position: Position::new("c2", 3), fixed_black: 0, fixed_white: 0 },
                Member { position: Position::new("c2'", 3), fixed_black: 0, fixed_white: 0 },
            ],
            _ => vec![Member { position: Position::new("c3", 4), fixed_black: 0, fixed_white: 0 }],
        };
        orbits.extend(augment(r.score, &orbit));
    }
    match inc.run(Event::Augmented(orbits)) {
        Ok(Action::Append { file, text, summary }) => {
            assert_eq!(file, "mate3.txt");
            assert_eq!(text, "# k1\nc1,5\nc1',5\nc2,-2\nc2',-2\n");
            assert_eq!(summary, "board: 5 boards\n");
            let lines: Vec<&str> = text.lines().skip(1).collect();
            let mut distinct = lines.clone();
            distinct.dedup();
            assert_eq!(lines.len(), 4);
            assert_eq!(distinct.len(), 4);
        },
        _ => panic!("nothing to append"),
    }
    assert_eq!(inc.stage, Stage::Writing);

    let second = inc.run(Event::Written);
    assert_eq!(load(second), ("k2".to_string(), 4));
    assert_eq!(inc.stage, Stage::Loading);
    assert_eq!(inc.group, 1);

    let boards = match inc.run(Event::Loaded(Vec::new())) {
        Ok(Action::Expand { boards, summary }) => {
            assert_eq!(summary, "board: 0 boards\n");
            boards
        },
        _ => panic!("no expansion"),
    };
    assert!(boards.is_empty());
    assert_eq!(inc.run(Event::Expanded(Vec::new())).err(), Some(Fatal::EmptyExpansion));
    assert_eq!(inc.stage, Stage::Expanding);
}

#[test]
fn run_finishes_after_the_last_group() {
    let mut inc = Incubator::from(arg(Mode::Kifu, &["k"], 3));
    inc.run(Event::Start { destination_exists: false }).unwrap();
    inc.run(Event::Loaded(vec![rec("a", 3, 0, 0, 1)])).unwrap();
    inc.run(Event::Expanded(vec![rec("b", 2, 0, 0, 1)])).unwrap();
    match inc.run(Event::Augmented(vec![rec("b", 2, 0, 0, 1)])) {
        Ok(Action::Append { file, text, .. }) => {
            assert_eq!(file, "mate2.txt");
            assert_eq!(text, "# k\nb,1\n");
        },
        _ => panic!("nothing to append"),
    }
    assert!(matches!(inc.run(Event::Written), Ok(Action::Finish)));
    assert_eq!(inc.stage, Stage::Done);
    assert_eq!(inc.group, 1);
}

#[test]
fn run_refuses_a_position_at_another_depth() {
    let mut inc = Incubator::from(arg(Mode::Kifu, &["k"], 4));
    inc.run(Event::Start { destination_exists: false }).unwrap();
    let r = inc.run(Event::Loaded(vec![rec("a", 4, 0, 0, 1), rec("b", 5, 0, 0, 1)]));
    assert_eq!(r.err(), Some(Fatal::DepthMismatch));
    assert_eq!(inc.stage, Stage::Loading);
}

#[test]
fn run_refuses_an_empty_augmentation() {
    let mut inc = Incubator::from(arg(Mode::Mate, &["m"], 4));
    inc.run(Event::Start { destination_exists: false }).unwrap();
    inc.run(Event::Loaded(Vec::new())).unwrap();
    assert_eq!(inc.run(Event::Augmented(Vec::new())).err(), Some(Fatal::EmptyAugmentation));
    assert_eq!(inc.stage, Stage::Augmenting);
}

#[test]
fn run_refuses_an_event_out_of_order() {
    let mut inc = Incubator::from(arg(Mode::Kifu, &["k"], 4));
    assert_eq!(inc.run(Event::Written).err(), Some(Fatal::OutOfOrder));
    assert_eq!(inc.run(Event::Loaded(Vec::new())).err(), Some(Fatal::OutOfOrder));
    assert_eq!(inc.stage, Stage::Idle);
    inc.run(Event::Start { destination_exists: false }).unwrap();
    assert_eq!(
        inc.run(Event::Start { destination_exists: false }).err(),
        Some(Fatal::OutOfOrder)
    );
    assert_eq!(inc.run(Event::Expanded(vec![rec("a", 3, 0, 0, 1)])).err(), Some(Fatal::OutOfOrder));
    assert_eq!(inc.run(Event::Augmented(vec![rec("a", 3, 0, 0, 1)])).err(), Some(Fatal::OutOfOrder));
    assert_eq!(inc.stage, Stage::Loading);
}

#[test]
fn run_on_snapshots_bypasses_the_solver() {
    let mut inc = Incubator::from(arg(Mode::Mate, &["m"], 4));
    let first = inc.run(Event::Start { destination_exists: false });
    assert_eq!(load(first), ("m".to_string(), 3));
    let loaded = vec![rec("s2", 3, 0, 0, 4), rec("s1", 3, 0, 0, -4), rec("s2", 3, 0, 0, 4)];
    let records = match inc.run(Event::Loaded(loaded)) {
        Ok(Action::Augment { records, summary }) => {
            assert_eq!(summary, "board: 2 boards\n");
            records
        },
        _ => panic!("no augmentation"),
    };
    assert_eq!(inc.stage, Stage::Augmenting);
    assert_eq!(inc.run(Event::Expanded(vec![rec("a", 3, 0, 0, 1)])).err(), Some(Fatal::OutOfOrder));
    match inc.run(Event::Augmented(records)) {
        Ok(Action::Append { file, text, .. }) => {
            assert_eq!(file, "mate3.txt");
            assert_eq!(text, "# m\ns1,-4\ns2,4\n");
        },
        _ => panic!("nothing to append"),
    }
    assert!(matches!(inc.run(Event::Written), Ok(Action::Finish)));
}

#[test]
fn extract_mate3_writes_the_positions_two_plies_from_the_end() {
    let inc = Incubator::from(arg(Mode::Kifu, &["k"], 3));
    let boards = vec![
        rec("b", 2, 0, 0, 3),
        rec("a", 3, 0, 0, 1),
        rec("b", 2, 0, 0, 3),
        rec("0", 2, 0, 0, -1),
    ];
    match inc.extract_mate3(boards) {
        Action::Append { file, text, summary } => {
            assert_eq!(file, "mate2.txt");
            assert_eq!(text, "0,-1\nb,3\n");
            assert_eq!(summary, "board: 3 boards\n");
        },
        _ => panic!("nothing to append"),
    }
}

#[test]
fn fatal_messages() {
    assert_eq!(Fatal::DepthOutOfRange.message(2), "self.mate < 3 || 60 <= self.mate");
    assert_eq!(Fatal::DestinationExists.message(10), "mate9.txt exists!");
    assert_eq!(Fatal::DepthMismatch.message(4), "!ban.is_last_n(4)");
    assert_eq!(Fatal::EmptyExpansion.message(4), "mates: 0");
    assert_eq!(Fatal::EmptyAugmentation.message(4), "mates: 0");
    assert_eq!(Fatal::OutOfOrder.message(4), "event out of order");
}

#[test]
fn run_kifu_and_run_mate_stop_on_an_existing_destination() {
    let mut inc = Incubator::from(arg(Mode::Kifu, &["k"], 4));
    let r = inc.run_kifu(Event::Start { destination_exists: true });
    assert_eq!(r.err(), Some(Fatal::DestinationExists));
    assert_eq!(inc.stage, Stage::Idle);
    let mut inc = Incubator::from(arg(Mode::Mate, &["m"], 4));
    let r = inc.run_mate(Event::Start { destination_exists: true });
    assert_eq!(r.err(), Some(Fatal::DestinationExists));
    assert_eq!(inc.stage, Stage::Idle);
}

#[test]
fn run_kifu_and_run_mate_load_at_their_depths() {
    let mut inc = Incubator::from(arg(Mode::Kifu, &["k"], 4));
    assert_eq!(load(inc.run_kifu(Event::Start { destination_exists: false })), ("k".to_string(), 4));
    assert!(matches!(inc.run_kifu(Event::Loaded(Vec::new())), Ok(Action::Expand { .. })));
    let mut inc = Incubator::from(arg(Mode::Kifu, &["m"], 4));
    assert_eq!(load(inc.run_mate(Event::Start { destination_exists: false })), ("m".to_string(), 3));
    assert!(matches!(inc.run_mate(Event::Loaded(Vec::new())), Ok(Action::Augment { .. })));
}

#[test]
fn every_position_is_written_once() {
    let mut inc = Incubator::from(arg(Mode::Kifu, &["k"], 4));
    inc.run_kifu(Event::Start { destination_exists: false }).unwrap();
    inc.run_kifu(Event::Loaded(vec![rec("q", 4, 0, 0, 1)])).unwrap();
    inc.run_kifu(Event::Expanded(vec![rec("c", 3, 0, 0, 1)])).unwrap();
    let orbits = vec![
        rec("b", 3, 0, 0, 2),
        rec("a", 3, 1, 0, -1),
        rec("b", 3, 0, 0, 2),
        rec("pass", 4, 0, 0, 0),
        rec("a", 3, 1, 0, -1),
        rec("c", 3, 0, 0, 7),
        rec("b", 3, 0, 0, 2),
    ];
    match inc.run_kifu(Event::Augmented(orbits)) {
        Ok(Action::Append { file, text, .. }) => {
            assert_eq!(file, "mate3.txt");
            assert_eq!(text, "# k\na,-1\nb,2\nc,7\n");
        },
        _ => panic!("nothing to append"),
    }
}
