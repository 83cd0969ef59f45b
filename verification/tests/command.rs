use escacs::command::{frame, opts, prepare, Go};

#[test]
fn startpos_without_moves() {
    assert_eq!(prepare(&Go::new()), "position startpos\ngo depth 10\n");
    assert_eq!(prepare(&Go::new().depth(1)), "position startpos\ngo depth 1\n");
}

#[test]
fn default_job_has_depth_zero() {
    assert_eq!(prepare(&Go::default()), "position startpos\ngo depth 0\n");
}

#[test]
fn fen_takes_the_place_of_startpos() {
    let fen = "rnbqkb1r/pppp1ppp/4pn2/8/2PP4/5N2/PP2PPPP/RNBQKB1R b KQkq - 1 3";
    let job = Go::new().fen(fen).depth(26);
    assert_eq!(
        prepare(&job),
        "position fen rnbqkb1r/pppp1ppp/4pn2/8/2PP4/5N2/PP2PPPP/RNBQKB1R b KQkq - 1 3\ngo depth 26\n"
    );
}

#[test]
fn moves_follow_the_position() {
    let job = Go::new().moves(&["d2d4", "g8f6"]).depth(26);
    assert_eq!(prepare(&job), "position startpos moves d2d4 g8f6\ngo depth 26\n");
    let one = Go::new().moves(&["e2e4"]);
    assert_eq!(prepare(&one), "position startpos moves e2e4\ngo depth 10\n");
}

#[test]
fn moves_add_up() {
    let job = Go::new().moves(&["e2e4"]).moves(&[]).moves(&["e7e5", "g1f3"]);
    assert_eq!(
        prepare(&job),
        "position startpos moves e2e4 e7e5 g1f3\ngo depth 10\n"
    );
}

#[test]
fn fen_and_moves() {
    let job = Go::new().fen("8/8/8/8/8/8/8/K1k5 w - - 0 1").moves(&["a1a2"]).depth(4294967295);
    assert_eq!(
        prepare(&job),
        "position fen 8/8/8/8/8/8/8/K1k5 w - - 0 1 moves a1a2\ngo depth 4294967295\n"
    );
}

#[test]
fn later_fen_and_depth_win() {
    let job = Go::new().fen("a").fen("b").depth(3).depth(120);
    assert_eq!(prepare(&job), "position fen b\ngo depth 120\n");
}

#[test]
fn payload_ends_with_one_line_feed() {
    let text = prepare(&Go::new().moves(&["e2e4"]).depth(7));
    assert!(text.ends_with("go depth 7\n"));
    assert!(!text.ends_with("\n\n"));
    assert_eq!(text.matches('\n').count(), 2);
}

#[test]
fn options_are_joined_by_line_feeds() {
    assert_eq!(opts(&[]), "");
    assert_eq!(opts(&[("Hash", "64")]), "setoption name Hash value 64");
    assert_eq!(
        opts(&[("Threads", "8"), ("UCI_ShowWDL", "true"), ("MultiPV", "3")]),
        "setoption name Threads value 8\nsetoption name UCI_ShowWDL value true\nsetoption name MultiPV value 3"
    );
}

#[test]
fn frame_adds_a_line_feed() {
    assert_eq!(frame("uci".to_string()), "uci\n");
    assert_eq!(frame("stop\nisready".to_string()), "stop\nisready\n");
    assert_eq!(frame(String::new()), "\n");
}
