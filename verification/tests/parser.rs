use escacs::parser::{parse_bestmove, parse_info, search, Field, ParseError};
use escacs::records::{BestMove, Info, Score, Search};

fn blank() -> Info {
    Info::default()
}

#[test]
fn test_name() {
    assert_eq!(1, 1);
}

#[test]
fn default_info_is_all_zero() {
    let info = blank();
    assert_eq!(info.depth, 0);
    assert_eq!(info.seldepth, 0);
    assert_eq!(info.multipv, 0);
    assert_eq!(info.score, Score::Cp(0));
    assert_eq!(info.wdl, (0, 0, 0));
    assert_eq!(info.nodes, 0);
    assert_eq!(info.nps, 0);
    assert_eq!(info.hashfull, 0);
    assert_eq!(info.tbhits, 0);
    assert_eq!(info.time, 0);
    assert!(info.pv.is_empty());
    assert_eq!(Score::default(), Score::Cp(0));
}

#[test]
fn mate_scores_are_checkmate() {
    assert!(Score::Mate(3).is_checkmate());
    assert!(Score::Mate(-3).is_checkmate());
    assert!(!Score::Cp(3).is_checkmate());
}

#[test]
fn full_info_line() {
    let line = "info depth 24 seldepth 31 multipv 2 score cp 34 wdl 120 850 30 nodes 1234567 \
                nps 987654 hashfull 412 tbhits 7 time 1250 pv e2e4 e7e5 g1f3";
    let info = parse_info(line).unwrap();
    assert_eq!(
        info,
        Info {
            depth: 24,
            seldepth: 31,
            multipv: 2,
            score: Score::Cp(34),
            wdl: (120, 850, 30),
            nodes: 1234567,
            nps: 987654,
            hashfull: 412,
            tbhits: 7,
            time: 1250,
            pv: vec!["e2e4".to_string(), "e7e5".to_string(), "g1f3".to_string()],
        }
    );
}

#[test]
fn keys_in_any_order_and_left_out() {
    let info = parse_info("info time 5 depth 3").unwrap();
    assert_eq!(info, Info { time: 5, depth: 3, ..blank() });
    assert_eq!(parse_info("info").unwrap(), blank());
    assert_eq!(parse_info("").unwrap(), blank());
    assert_eq!(parse_info("   \t ").unwrap(), blank());
}

#[test]
fn whitespace_runs_separate_words() {
    let info = parse_info("  info \t depth   7\u{a0}nodes\u{3000}9  ").unwrap();
    assert_eq!(info, Info { depth: 7, nodes: 9, ..blank() });
}

#[test]
fn pv_takes_every_word_that_is_left() {
    let info = parse_info("info depth 2 pv e2e4 depth 9 score cp 1").unwrap();
    assert_eq!(info.depth, 2);
    assert_eq!(info.score, Score::Cp(0));
    assert_eq!(info.pv, vec!["e2e4", "depth", "9", "score", "cp", "1"]);
}

#[test]
fn pv_length_is_the_number_of_moves_after_it() {
    for k in 0..6usize {
        let moves: Vec<String> = (0..k).map(|i| format!("a{}a{}", i + 1, i + 2)).collect();
        let mut line = String::from("info nodes 5 score mate 2 depth 3 pv");
        for m in &moves {
            line.push(' ');
            line.push_str(m);
        }
        let info = parse_info(&line).unwrap();
        assert_eq!(info.pv.len(), k);
        assert_eq!(info.pv, moves);
        assert_eq!(info.nodes, 5);
        assert_eq!(info.depth, 3);
        assert_eq!(info.score, Score::Mate(2));
    }
}

#[test]
fn empty_pv() {
    let info = parse_info("info depth 1 pv").unwrap();
    assert_eq!(info, Info { depth: 1, ..blank() });
}

#[test]
fn unknown_key_with_value_leaves_fields_intact() {
    let info = parse_info("info depth 12 currmove e2e4 currmovenumber 3 nodes 77 pv d2d4").unwrap();
    assert_eq!(
        info,
        Info { depth: 12, nodes: 77, pv: vec!["d2d4".to_string()], ..blank() }
    );
}

#[test]
fn known_key_after_unknown_key_is_read() {
    let info = parse_info("info string depth 4").unwrap();
    assert_eq!(info, Info { depth: 4, ..blank() });
}

#[test]
fn score_mate_and_cp() {
    assert_eq!(parse_info("info score mate -3").unwrap().score, Score::Mate(-3));
    assert_eq!(parse_info("info score cp -125").unwrap().score, Score::Cp(-125));
    assert_eq!(parse_info("info score cp +7").unwrap().score, Score::Cp(7));
    assert_eq!(
        parse_info("info score cp -2147483648").unwrap().score,
        Score::Cp(i32::MIN)
    );
    assert_eq!(
        parse_info("info score mate 2147483647").unwrap().score,
        Score::Mate(i32::MAX)
    );
}

#[test]
fn unknown_score_kind_fails() {
    assert_eq!(
        parse_info("info depth 1 score weird 0 pv e2e4"),
        Err(ParseError::UnknownScore)
    );
    assert_eq!(
        parse_info("info score lowerbound 3"),
        Err(ParseError::UnknownScore)
    );
}

#[test]
fn missing_values_fail() {
    let cases = [
        ("info depth", Field::Depth),
        ("info seldepth", Field::Seldepth),
        ("info multipv", Field::Multipv),
        ("info score", Field::Score),
        ("info score cp", Field::Cp),
        ("info score mate", Field::Mate),
        ("info wdl", Field::Win),
        ("info wdl 1", Field::Draw),
        ("info wdl 1 2", Field::Loss),
        ("info nodes", Field::Nodes),
        ("info nps", Field::Nps),
        ("info hashfull", Field::Hashfull),
        ("info tbhits", Field::Tbhits),
        ("info time", Field::Time),
    ];
    for (line, field) in cases {
        assert_eq!(parse_info(line), Err(ParseError::Missing(field)), "{line}");
    }
}

#[test]
fn unreadable_values_fail() {
    let cases = [
        ("info depth x", Field::Depth),
        ("info depth -1", Field::Depth),
        ("info depth 4294967296", Field::Depth),
        ("info depth 1.5", Field::Depth),
        ("info depth +", Field::Depth),
        ("info seldepth nodes 5", Field::Seldepth),
        ("info multipv 1x", Field::Multipv),
        ("info score cp 2147483648", Field::Cp),
        ("info score cp -2147483649", Field::Cp),
        ("info score cp -", Field::Cp),
        ("info score cp --1", Field::Cp),
        ("info score mate +-1", Field::Mate),
        ("info wdl a 2 3", Field::Win),
        ("info wdl 1 b 3", Field::Draw),
        ("info wdl 1 2 c", Field::Loss),
        ("info nodes 18446744073709551616", Field::Nodes),
        ("info nodes 99999999999999999999999999", Field::Nodes),
        ("info nps ?", Field::Nps),
        ("info hashfull 4294967296", Field::Hashfull),
        ("info tbhits -0", Field::Tbhits),
        ("info time pv", Field::Time),
    ];
    for (line, field) in cases {
        assert_eq!(parse_info(line), Err(ParseError::Invalid(field)), "{line}");
    }
}

#[test]
fn numbers_at_their_limits() {
    let info = parse_info(
        "info depth 4294967295 nodes 18446744073709551615 hashfull 0004 nps +12 time 00",
    )
    .unwrap();
    assert_eq!(info.depth, u32::MAX);
    assert_eq!(info.nodes, u64::MAX);
    assert_eq!(info.hashfull, 4);
    assert_eq!(info.nps, 12);
    assert_eq!(info.time, 0);
}

#[test]
fn later_value_replaces_earlier_one() {
    let info = parse_info("info depth 1 depth 2").unwrap();
    assert_eq!(info.depth, 2);
}

#[test]
fn bestmove_without_ponder() {
    let best = parse_bestmove("bestmove e2e4").unwrap();
    assert_eq!(best, BestMove { best: "e2e4".to_string(), ponder: None });
}

#[test]
fn bestmove_with_ponder() {
    let best = parse_bestmove("bestmove e2e4 ponder e7e5").unwrap();
    assert_eq!(
        best,
        BestMove { best: "e2e4".to_string(), ponder: Some("e7e5".to_string()) }
    );
    let more = parse_bestmove("bestmove e2e4 ponder e7e5 trailing").unwrap();
    assert_eq!(more.ponder, Some("e7e5".to_string()));
}

#[test]
fn bestmove_with_ponder_word_but_no_reply() {
    let best = parse_bestmove("bestmove e2e4 ponder").unwrap();
    assert_eq!(best, BestMove { best: "e2e4".to_string(), ponder: None });
}

#[test]
fn bestmove_with_other_third_word() {
    let best = parse_bestmove("bestmove e2e4 wonder e7e5").unwrap();
    assert_eq!(best.ponder, None);
}

#[test]
fn bestmove_without_move_fails() {
    assert_eq!(parse_bestmove("bestmove"), Err(ParseError::Missing(Field::BestMove)));
    assert_eq!(parse_bestmove(""), Err(ParseError::Missing(Field::BestMove)));
    assert_eq!(search("bestmove  "), Err(ParseError::Missing(Field::BestMove)));
}

#[test]
fn default_bestmove_is_empty() {
    assert_eq!(BestMove::default(), BestMove { best: String::new(), ponder: None });
}

#[test]
fn search_tells_lines_apart() {
    match search("info depth 1 score cp 34 pv e2e4").unwrap() {
        Some(Search::Info(info)) => {
            assert_eq!(
                info,
                Info {
                    depth: 1,
                    score: Score::Cp(34),
                    pv: vec!["e2e4".to_string()],
                    ..blank()
                }
            );
        }
        other => panic!("{other:?}"),
    }
    match search("bestmove e2e4").unwrap() {
        Some(Search::BestMove(best)) => assert_eq!(best.best, "e2e4"),
        other => panic!("{other:?}"),
    }
    for line in [
        "",
        "uciok",
        "readyok",
        "id name Stockfish 17",
        "option name Threads type spin default 1 min 1 max 1024",
        "information depth 3",
        "bestmoves e2e4",
        "Info depth 3",
    ] {
        assert_eq!(search(line), Ok(None), "{line}");
    }
}

#[test]
fn search_reads_by_first_word() {
    assert!(matches!(search("  info nodes 3"), Ok(Some(Search::Info(_)))));
    assert!(matches!(search("info"), Ok(Some(Search::Info(_)))));
    assert!(matches!(search("\tbestmove a1a2"), Ok(Some(Search::BestMove(_)))));
    assert_eq!(search("info depth"), Err(ParseError::Missing(Field::Depth)));
    assert_eq!(
        search("info depth 1 score weird 0 pv e2e4"),
        Err(ParseError::UnknownScore)
    );
}

#[test]
fn errors_in_words() {
    assert_eq!(ParseError::Missing(Field::Depth).message(), "no depth");
    assert_eq!(ParseError::Missing(Field::Win).message(), "no win %");
    assert_eq!(ParseError::Missing(Field::Draw).message(), "no draw %");
    assert_eq!(ParseError::Missing(Field::Loss).message(), "no lose %");
    assert_eq!(ParseError::Missing(Field::Score).message(), "no score");
    assert_eq!(ParseError::Missing(Field::BestMove).message(), "no best move");
    assert_eq!(ParseError::Invalid(Field::Cp).message(), "invalid cp");
    assert_eq!(ParseError::Invalid(Field::Hashfull).message(), "invalid hashfull");
    assert_eq!(ParseError::UnknownScore.message(), "unknown score");
    let names: Vec<&str> = [
        Field::Depth,
        Field::Seldepth,
        Field::Multipv,
        Field::Score,
        Field::Cp,
        Field::Mate,
        Field::Win,
        Field::Draw,
        Field::Loss,
        Field::Nodes,
        Field::Nps,
        Field::Hashfull,
        Field::Tbhits,
        Field::Time,
        Field::BestMove,
    ]
    .iter()
    .map(|f| f.name())
    .collect();
    assert_eq!(
        names,
        vec![
            "depth", "seldepth", "multipv", "score", "cp", "mate", "win %", "draw %", "lose %",
            "nodes", "nps", "hashfull", "tbhits", "time", "best move"
        ]
    );
}
