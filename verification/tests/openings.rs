use escacs::openings::{find_opening, gather_openings, Opening, START_FEN};
use escacs::table::{chars_of, split_at, split_lines};
use shakmaty::fen::Fen;
use shakmaty::{Chess, EnPassantMode};

const TABLE: &str = "eco\tname\tpgn\n\
A00\tAmar Opening\t1. Nh3\n\
B00\tKing's Pawn\t1. e4\n\
C20\tKing's Pawn Game\t1. e4 e5\n\
C60\tRuy Lopez\t1. e4 e5 2. Nf3 Nc6 3. Bb5\n\
D00\tQueen's Pawn Game\t1. d4 d5\n\
E00\tCatalan Opening\t1. d4 Nf6 2. c4 e6 3. g3\n\
E04\tCatalan Opening: Open Defense\t1. d4 Nf6 2. c4 e6 3. g3 d5 4. Bg2 dxc4 5. Nf3\n\
E10\tIndian Defense: Anti-Nimzo-Indian\t1. d4 Nf6 2. c4 e6 3. Nf3\n";

#[test]
fn generic() {
    let book = gather_openings(TABLE).unwrap();

    let anti_nimzo = "rnbqkb1r/pppp1ppp/4pn2/8/2PP4/5N2/PP2PPPP/RNBQKB1R b KQkq - 1 3";
    assert_eq!(
        Some("Indian Defense: Anti-Nimzo-Indian"),
        find_opening(&book, anti_nimzo).map(|o| o.name.as_str())
    );

    let catalan = "rnbqkb1r/pppp1ppp/4pn2/8/2PP4/6P1/PP2PP1P/RNBQKBNR b KQkq - 0 3";
    assert_eq!(
        Some("Catalan Opening"),
        find_opening(&book, catalan).map(|o| o.name.as_str())
    );

    let open_catalan = "rnbqkb1r/ppp2ppp/4pn2/8/2pP4/5NP1/PP2PPBP/RNBQK2R b KQkq - 1 5";
    assert_eq!(
        Some("Catalan Opening: Open Defense"),
        find_opening(&book, open_catalan).map(|o| o.name.as_str())
    );
}

#[test]
fn start_position_is_the_one_of_chess() {
    let fen = Fen::from_position(&Chess::new(), EnPassantMode::Legal).to_string();
    assert_eq!(START_FEN, fen);
}

#[test]
fn row_becomes_an_opening() {
    let opening = Opening::from_tsv("C60\tRuy Lopez\t1. e4 e5 2. Nf3 Nc6 3. Bb5").unwrap();
    assert_eq!(
        opening,
        Opening {
            eco: "C60".to_string(),
            name: "Ruy Lopez".to_string(),
            pgn: "1. e4 e5 2. Nf3 Nc6 3. Bb5".to_string(),
            fen: "r1bqkbnr/pppp1ppp/2n5/1B2p3/4P3/5N2/PPPP1PPP/RNBQK2R b KQkq - 3 3".to_string(),
        }
    );
}

#[test]
fn row_without_moves_leads_to_the_start() {
    let opening = Opening::from_tsv("X\tNothing\t").unwrap();
    assert_eq!(opening.fen, START_FEN);
    assert_eq!(opening.pgn, "");
    let numbers = Opening::from_tsv("X\tNumbers only\t1. 2. ...").unwrap();
    assert_eq!(numbers.fen, START_FEN);
}

#[test]
fn fields_after_the_third_are_passed_over() {
    let opening = Opening::from_tsv("B00\tKing's Pawn\t1. e4\tmore\tand more").unwrap();
    assert_eq!(opening.pgn, "1. e4");
    assert_eq!(
        opening.fen,
        "rnbqkbnr/pppppppp/8/8/4P3/8/PPPP1PPP/RNBQKBNR b KQkq - 0 1"
    );
}

#[test]
fn row_with_too_few_fields() {
    assert_eq!(Opening::from_tsv(""), None);
    assert_eq!(Opening::from_tsv("A00"), None);
    assert_eq!(Opening::from_tsv("A00\tAmar Opening"), None);
    assert_eq!(Opening::from_tsv("A00 Amar Opening 1. Nh3"), None);
}

#[test]
fn row_with_a_move_that_cannot_be_played() {
    assert_eq!(Opening::from_tsv("X\tBad\t1. e5"), None);
    assert_eq!(Opening::from_tsv("X\tBad\t1. e4 e5 2. Ke3"), None);
    assert_eq!(Opening::from_tsv("X\tBad\t1. Nf3 Nf6 2. Nd4 Nd5 3. Nb3 Nb6 4. Nd2"), None);
}

#[test]
fn book_keeps_the_order_of_the_rows() {
    let book = gather_openings(TABLE).unwrap();
    let codes: Vec<&str> = book.iter().map(|o| o.eco.as_str()).collect();
    assert_eq!(codes, vec!["A00", "B00", "C20", "C60", "D00", "E00", "E04", "E10"]);
}

#[test]
fn headings_are_not_read() {
    let book = gather_openings("this line\tis\tnot even looked at, e5\nB00\tKing's Pawn\t1. e4").unwrap();
    assert_eq!(book.len(), 1);
    assert_eq!(book[0].name, "King's Pawn");
    assert_eq!(gather_openings("eco\tname\tpgn"), Some(vec![]));
    assert_eq!(gather_openings("eco\tname\tpgn\n"), Some(vec![]));
    assert_eq!(gather_openings(""), Some(vec![]));
}

#[test]
fn carriage_returns_end_lines_too() {
    let book = gather_openings("eco\tname\tpgn\r\nB00\tKing's Pawn\t1. e4\r\nD00\tQueen's Pawn Game\t1. d4 d5\r\n").unwrap();
    assert_eq!(book.len(), 2);
    assert_eq!(book[0].pgn, "1. e4");
    assert_eq!(book[1].pgn, "1. d4 d5");
}

#[test]
fn one_bad_row_spoils_the_book() {
    assert_eq!(gather_openings("eco\tname\tpgn\nB00\tKing's Pawn\t1. e4\nbroken\n"), None);
    assert_eq!(gather_openings("eco\tname\tpgn\n\nB00\tKing's Pawn\t1. e4\n"), None);
    assert_eq!(gather_openings("eco\tname\tpgn\nX\tBad\t1. e5\nB00\tKing's Pawn\t1. e4\n"), None);
}

#[test]
fn first_opening_with_the_position_is_found() {
    let table = "eco\tname\tpgn\nA\tfirst\t1. e4 e5\nB\tsecond\t1. e4 e5\nC\tthird\t1. d4";
    let book = gather_openings(table).unwrap();
    let fen = "rnbqkbnr/pppp1ppp/8/4p3/4P3/8/PPPP1PPP/RNBQKBNR w KQkq - 0 2";
    assert_eq!(find_opening(&book, fen).map(|o| o.name.as_str()), Some("first"));
    assert_eq!(find_opening(&book, START_FEN), None);
    assert_eq!(find_opening(&book, ""), None);
    assert_eq!(find_opening(&Vec::new(), fen), None);
}

#[test]
fn lines_are_what_the_standard_library_gives() {
    for text in [
        "", "\n", "\r\n", "a", "a\n", "a\r\n", "a\nb", "a\r\nb\r\n", "a\n\nb", "\n\n", "a\r",
        "a\r\nb\r", "\r", "\r\r\n", "a\rb\nc", "x\n\r\ny", "ż\nó\r\nł",
    ] {
        let expected: Vec<String> = text.lines().map(|l| l.to_string()).collect();
        assert_eq!(split_lines(text), expected, "{text:?}");
    }
}

#[test]
fn pieces_are_what_the_standard_library_gives() {
    for text in ["", "\t", "a", "a\tb", "\ta\t\tb\t", "a b\tc", "\t\t"] {
        let expected: Vec<String> = text.split('\t').map(|p| p.to_string()).collect();
        let pieces: Vec<String> =
            split_at(&chars_of(text), '\t').iter().map(|p| p.iter().collect()).collect();
        assert_eq!(pieces, expected, "{text:?}");
    }
}
