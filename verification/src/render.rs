//! Writing a report as the line that an engine would emit for it, and the
//! proof that reading the line gives the report back.

use crate::command::push_joined;
use crate::decimal::{
    decimal, lemma_decimal_reads_back, lemma_signed_decimal_reads_back, push_decimal,
    push_signed_decimal, read_i32, signed_decimal,
};
use crate::parser::{
    lemma_read_key_within, parse_fields, parse_info_spec, read_key, search_spec, take_score,
    take_wdl, ParseError,
};
use crate::records::{blank_info, Info, InfoView, Score, SearchView};
use crate::text::{
    is_word, join, lemma_tokens_are_words, lemma_tokens_of_joined, texts, tokens,
};
use vstd::prelude::*;

verus! {

/// The word that names the kind of a score.
pub open spec fn score_kind(score: Score) -> Seq<char> {
    match score {
        Score::Cp(_) => "cp"@,
        Score::Mate(_) => "mate"@,
    }
}

/// The number that a score holds.
pub open spec fn score_value(score: Score) -> int {
    match score {
        Score::Cp(v) => v as int,
        Score::Mate(v) => v as int,
    }
}

/// The words that stand for a line of play: `pv` and the moves, or nothing
/// where there is no move.
pub open spec fn pv_words(pv: Seq<Seq<char>>) -> Seq<Seq<char>> {
    if pv.len() > 0 {
        seq!["pv"@] + pv
    } else {
        Seq::empty()
    }
}

/// The words that stand for everything in a report but its line of play:
/// `info`, then every key with its value.
pub open spec fn info_head(i: InfoView) -> Seq<Seq<char>> {
    seq![
        "info"@,
        "depth"@,
        decimal(i.depth as nat),
        "seldepth"@,
        decimal(i.seldepth as nat),
        "multipv"@,
        decimal(i.multipv as nat),
        "score"@,
        score_kind(i.score),
        signed_decimal(score_value(i.score)),
        "wdl"@,
        decimal(i.wdl.0 as nat),
        decimal(i.wdl.1 as nat),
        decimal(i.wdl.2 as nat),
        "nodes"@,
        decimal(i.nodes as nat),
        "nps"@,
        decimal(i.nps as nat),
        "hashfull"@,
        decimal(i.hashfull as nat),
        "tbhits"@,
        decimal(i.tbhits as nat),
        "time"@,
        decimal(i.time as nat),
    ]
}

/// The words of the line that stands for a report: every key with its
/// value, the line of play last.
pub open spec fn info_words(i: InfoView) -> Seq<Seq<char>> {
    info_head(i) + pv_words(i.pv)
}

/// The line that stands for a report: its words with one space between
/// each two.
pub open spec fn info_line(i: InfoView) -> Seq<char> {
    join(info_words(i), " "@)
}

/// What the protocol's words are made of.
proof fn lemma_keywords()
    ensures
        "info"@.len() == 4 && "info"@[0] == 'i' && is_word("info"@),
        "depth"@.len() == 5 && "depth"@[0] == 'd' && is_word("depth"@),
        "seldepth"@.len() == 8 && "seldepth"@[0] == 's' && is_word("seldepth"@),
        "multipv"@.len() == 7 && "multipv"@[0] == 'm' && is_word("multipv"@),
        "score"@.len() == 5 && "score"@[0] == 's' && is_word("score"@),
        "cp"@.len() == 2 && "cp"@[0] == 'c' && is_word("cp"@),
        "mate"@.len() == 4 && "mate"@[0] == 'm' && is_word("mate"@),
        "wdl"@.len() == 3 && "wdl"@[0] == 'w' && is_word("wdl"@),
        "nodes"@.len() == 5 && "nodes"@[0] == 'n' && is_word("nodes"@),
        "nps"@.len() == 3 && "nps"@[0] == 'n' && is_word("nps"@),
        "hashfull"@.len() == 8 && "hashfull"@[0] == 'h' && is_word("hashfull"@),
        "tbhits"@.len() == 6 && "tbhits"@[0] == 't' && is_word("tbhits"@),
        "time"@.len() == 4 && "time"@[0] == 't' && is_word("time"@),
        "pv"@.len() == 2 && "pv"@[0] == 'p' && is_word("pv"@),
        "bestmove"@.len() == 8 && "bestmove"@[0] == 'b' && is_word("bestmove"@),
{
    reveal_strlit("info");
    reveal_strlit("depth");
    reveal_strlit("seldepth");
    reveal_strlit("multipv");
    reveal_strlit("score");
    reveal_strlit("cp");
    reveal_strlit("mate");
    reveal_strlit("wdl");
    reveal_strlit("nodes");
    reveal_strlit("nps");
    reveal_strlit("hashfull");
    reveal_strlit("tbhits");
    reveal_strlit("time");
    reveal_strlit("pv");
    reveal_strlit("bestmove");
}

/// A word that is no key is passed over.
proof fn lemma_info_word(r: Seq<Seq<char>>, acc: InfoView)
    ensures
        parse_fields(seq!["info"@] + r, acc) == parse_fields(r, acc),
{
    lemma_keywords();
    let toks = seq!["info"@] + r;
    assert(toks[0] == "info"@);
    assert(toks.skip(1) =~= r);
    assert(read_key("info"@, r, acc) == Ok::<(InfoView, nat), ParseError>((acc, 0)));
}

proof fn lemma_depth(v: u32, r: Seq<Seq<char>>, acc: InfoView)
    ensures
        parse_fields(seq!["depth"@, decimal(v as nat)] + r, acc) == parse_fields(
            r,
            InfoView { depth: v, ..acc },
        ),
{
    lemma_keywords();
    lemma_decimal_reads_back(v as nat);
    let toks = seq!["depth"@, decimal(v as nat)] + r;
    assert(toks[0] == "depth"@);
    assert(toks.skip(1)[0] == decimal(v as nat));
    assert(toks.skip(2) =~= r);
}

proof fn lemma_seldepth(v: u32, r: Seq<Seq<char>>, acc: InfoView)
    ensures
        parse_fields(seq!["seldepth"@, decimal(v as nat)] + r, acc) == parse_fields(
            r,
            InfoView { seldepth: v, ..acc },
        ),
{
    lemma_keywords();
    lemma_decimal_reads_back(v as nat);
    let toks = seq!["seldepth"@, decimal(v as nat)] + r;
    assert(toks[0] == "seldepth"@);
    assert(toks.skip(1)[0] == decimal(v as nat));
    assert(toks.skip(2) =~= r);
}

proof fn lemma_multipv(v: u32, r: Seq<Seq<char>>, acc: InfoView)
    ensures
        parse_fields(seq!["multipv"@, decimal(v as nat)] + r, acc) == parse_fields(
            r,
            InfoView { multipv: v, ..acc },
        ),
{
    lemma_keywords();
    lemma_decimal_reads_back(v as nat);
    let toks = seq!["multipv"@, decimal(v as nat)] + r;
    assert(toks[0] == "multipv"@);
    assert(toks.skip(1)[0] == decimal(v as nat));
    assert(toks.skip(2) =~= r);
}

proof fn lemma_score(score: Score, r: Seq<Seq<char>>, acc: InfoView)
    ensures
        parse_fields(
            seq!["score"@, score_kind(score), signed_decimal(score_value(score))] + r,
            acc,
        ) == parse_fields(r, InfoView { score: score, ..acc }),
{
    lemma_keywords();
    lemma_signed_decimal_reads_back(score_value(score));
    let toks = seq!["score"@, score_kind(score), signed_decimal(score_value(score))] + r;
    let rest = toks.skip(1);
    assert(toks[0] == "score"@);
    assert(rest[0] == score_kind(score));
    assert(rest.skip(1)[0] == signed_decimal(score_value(score)));
    match score {
        Score::Cp(v) => {
            assert(read_i32(signed_decimal(v as int)) == Some(v));
        },
        Score::Mate(v) => {
            assert(read_i32(signed_decimal(v as int)) == Some(v));
        },
    }
    assert(take_score(rest) == Ok::<Score, ParseError>(score));
    assert(toks.skip(3) =~= r);
}

proof fn lemma_wdl(v: (u64, u64, u64), r: Seq<Seq<char>>, acc: InfoView)
    ensures
        parse_fields(
            seq!["wdl"@, decimal(v.0 as nat), decimal(v.1 as nat), decimal(v.2 as nat)] + r,
            acc,
        ) == parse_fields(r, InfoView { wdl: v, ..acc }),
{
    lemma_keywords();
    lemma_decimal_reads_back(v.0 as nat);
    lemma_decimal_reads_back(v.1 as nat);
    lemma_decimal_reads_back(v.2 as nat);
    let toks = seq!["wdl"@, decimal(v.0 as nat), decimal(v.1 as nat), decimal(v.2 as nat)] + r;
    let rest = toks.skip(1);
    assert(toks[0] == "wdl"@);
    assert(rest[0] == decimal(v.0 as nat));
    assert(rest.skip(1)[0] == decimal(v.1 as nat));
    assert(rest.skip(2)[0] == decimal(v.2 as nat));
    assert(take_wdl(rest) == Ok::<(u64, u64, u64), ParseError>(v));
    assert(toks.skip(4) =~= r);
}

proof fn lemma_nodes(v: u64, r: Seq<Seq<char>>, acc: InfoView)
    ensures
        parse_fields(seq!["nodes"@, decimal(v as nat)] + r, acc) == parse_fields(
            r,
            InfoView { nodes: v, ..acc },
        ),
{
    lemma_keywords();
    lemma_decimal_reads_back(v as nat);
    let toks = seq!["nodes"@, decimal(v as nat)] + r;
    assert(toks[0] == "nodes"@);
    assert(toks.skip(1)[0] == decimal(v as nat));
    assert(toks.skip(2) =~= r);
}

proof fn lemma_nps(v: u64, r: Seq<Seq<char>>, acc: InfoView)
    ensures
        parse_fields(seq!["nps"@, decimal(v as nat)] + r, acc) == parse_fields(
            r,
            InfoView { nps: v, ..acc },
        ),
{
    lemma_keywords();
    lemma_decimal_reads_back(v as nat);
    let toks = seq!["nps"@, decimal(v as nat)] + r;
    assert(toks[0] == "nps"@);
    assert(toks.skip(1)[0] == decimal(v as nat));
    assert(toks.skip(2) =~= r);
}

proof fn lemma_hashfull(v: u32, r: Seq<Seq<char>>, acc: InfoView)
    ensures
        parse_fields(seq!["hashfull"@, decimal(v as nat)] + r, acc) == parse_fields(
            r,
            InfoView { hashfull: v, ..acc },
        ),
{
    lemma_keywords();
    lemma_decimal_reads_back(v as nat);
    let toks = seq!["hashfull"@, decimal(v as nat)] + r;
    assert(toks[0] == "hashfull"@);
    assert(toks.skip(1)[0] == decimal(v as nat));
    assert(toks.skip(2) =~= r);
}

proof fn lemma_tbhits(v: u64, r: Seq<Seq<char>>, acc: InfoView)
    ensures
        parse_fields(seq!["tbhits"@, decimal(v as nat)] + r, acc) == parse_fields(
            r,
            InfoView { tbhits: v, ..acc },
        ),
{
    lemma_keywords();
    lemma_decimal_reads_back(v as nat);
    let toks = seq!["tbhits"@, decimal(v as nat)] + r;
    assert(toks[0] == "tbhits"@);
    assert(toks.skip(1)[0] == decimal(v as nat));
    assert(toks.skip(2) =~= r);
}

proof fn lemma_time(v: u64, r: Seq<Seq<char>>, acc: InfoView)
    ensures
        parse_fields(seq!["time"@, decimal(v as nat)] + r, acc) == parse_fields(
            r,
            InfoView { time: v, ..acc },
        ),
{
    lemma_keywords();
    lemma_decimal_reads_back(v as nat);
    let toks = seq!["time"@, decimal(v as nat)] + r;
    assert(toks[0] == "time"@);
    assert(toks.skip(1)[0] == decimal(v as nat));
    assert(toks.skip(2) =~= r);
}

proof fn lemma_pv(pv: Seq<Seq<char>>, acc: InfoView)
    requires
        acc.pv == Seq::<Seq<char>>::empty(),
    ensures
        parse_fields(pv_words(pv), acc) == Ok::<InfoView, ParseError>(InfoView { pv: pv, ..acc }),
{
    let toks = pv_words(pv);
    if pv.len() > 0 {
        assert(toks[0] == "pv"@);
        assert(toks.skip(1) =~= pv);
    } else {
        assert(pv =~= Seq::<Seq<char>>::empty());
    }
}

/// Every word of the line that stands for a report is a word.
proof fn lemma_info_words_are_words(i: InfoView)
    requires
        forall|k: int| 0 <= k < i.pv.len() ==> is_word(#[trigger] i.pv[k]),
    ensures
        forall|k: int| 0 <= k < info_words(i).len() ==> is_word(#[trigger] info_words(i)[k]),
{
    lemma_keywords();
    lemma_decimal_reads_back(i.depth as nat);
    lemma_decimal_reads_back(i.seldepth as nat);
    lemma_decimal_reads_back(i.multipv as nat);
    lemma_decimal_reads_back(i.wdl.0 as nat);
    lemma_decimal_reads_back(i.wdl.1 as nat);
    lemma_decimal_reads_back(i.wdl.2 as nat);
    lemma_decimal_reads_back(i.nodes as nat);
    lemma_decimal_reads_back(i.nps as nat);
    lemma_decimal_reads_back(i.hashfull as nat);
    lemma_decimal_reads_back(i.tbhits as nat);
    lemma_decimal_reads_back(i.time as nat);
    lemma_signed_decimal_reads_back(score_value(i.score));
    let ws = info_words(i);
    let head = info_head(i);
    assert(head.len() == 24);
    assert(is_word(score_kind(i.score)));
    assert forall|k: int| 0 <= k < head.len() implies is_word(#[trigger] head[k]) by {}
    assert forall|k: int| 0 <= k < ws.len() implies is_word(#[trigger] ws[k]) by {
        if k < 24 {
            assert(ws[k] == head[k]);
        } else {
            assert(i.pv.len() > 0);
            assert(ws[k] == pv_words(i.pv)[k - 24]);
            if k == 24 {
                assert(ws[k] == "pv"@);
            } else {
                assert(ws[k] == i.pv[k - 25]);
            }
        }
    }
}

/// Reading the words that stand for a report gives the report.
proof fn lemma_info_words_read_back(i: InfoView)
    ensures
        parse_fields(info_words(i), blank_info()) == Ok::<InfoView, ParseError>(i),
{
    let a0 = blank_info();
    let a1 = InfoView { depth: i.depth, ..a0 };
    let a2 = InfoView { seldepth: i.seldepth, ..a1 };
    let a3 = InfoView { multipv: i.multipv, ..a2 };
    let a4 = InfoView { score: i.score, ..a3 };
    let a5 = InfoView { wdl: i.wdl, ..a4 };
    let a6 = InfoView { nodes: i.nodes, ..a5 };
    let a7 = InfoView { nps: i.nps, ..a6 };
    let a8 = InfoView { hashfull: i.hashfull, ..a7 };
    let a9 = InfoView { tbhits: i.tbhits, ..a8 };
    let a10 = InfoView { time: i.time, ..a9 };
    let g1 = seq!["depth"@, decimal(i.depth as nat)];
    let g2 = seq!["seldepth"@, decimal(i.seldepth as nat)];
    let g3 = seq!["multipv"@, decimal(i.multipv as nat)];
    let g4 = seq!["score"@, score_kind(i.score), signed_decimal(score_value(i.score))];
    let g5 = seq![
        "wdl"@,
        decimal(i.wdl.0 as nat),
        decimal(i.wdl.1 as nat),
        decimal(i.wdl.2 as nat),
    ];
    let g6 = seq!["nodes"@, decimal(i.nodes as nat)];
    let g7 = seq!["nps"@, decimal(i.nps as nat)];
    let g8 = seq!["hashfull"@, decimal(i.hashfull as nat)];
    let g9 = seq!["tbhits"@, decimal(i.tbhits as nat)];
    let g10 = seq!["time"@, decimal(i.time as nat)];
    let r10 = pv_words(i.pv);
    let r9 = g10 + r10;
    let r8 = g9 + r9;
    let r7 = g8 + r8;
    let r6 = g7 + r7;
    let r5 = g6 + r6;
    let r4 = g5 + r5;
    let r3 = g4 + r4;
    let r2 = g3 + r3;
    let r1 = g2 + r2;
    let r0 = g1 + r1;
    assert(info_head(i).len() == 24);
    assert(r0.len() == 23 + r10.len());
    assert(info_words(i) =~= seq!["info"@] + r0);
    lemma_info_word(r0, a0);
    lemma_depth(i.depth, r1, a0);
    lemma_seldepth(i.seldepth, r2, a1);
    lemma_multipv(i.multipv, r3, a2);
    lemma_score(i.score, r4, a3);
    lemma_wdl(i.wdl, r5, a4);
    lemma_nodes(i.nodes, r6, a5);
    lemma_nps(i.nps, r7, a6);
    lemma_hashfull(i.hashfull, r8, a7);
    lemma_tbhits(i.tbhits, r9, a8);
    lemma_time(i.time, r10, a9);
    lemma_pv(i.pv, a10);
    assert(InfoView { pv: i.pv, ..a10 } == i);
}

/// Writing a report as a line and reading the line gives the report back,
/// for every report whose moves are words.
pub proof fn lemma_info_round_trip(i: InfoView)
    requires
        forall|k: int| 0 <= k < i.pv.len() ==> is_word(#[trigger] i.pv[k]),
    ensures
        tokens(info_line(i)) == info_words(i),
        parse_info_spec(info_line(i)) == Ok::<InfoView, ParseError>(i),
        search_spec(info_line(i)) == Ok::<Option<SearchView>, ParseError>(
            Some(SearchView::Info(i)),
        ),
{
    lemma_info_words_are_words(i);
    lemma_tokens_of_joined(info_words(i));
    lemma_info_words_read_back(i);
    assert(info_words(i)[0] == "info"@);
}

/// The moves of a report that was read from words are words.
proof fn lemma_read_moves_are_words(toks: Seq<Seq<char>>, acc: InfoView)
    requires
        forall|k: int| 0 <= k < toks.len() ==> is_word(#[trigger] toks[k]),
        forall|k: int| 0 <= k < acc.pv.len() ==> is_word(#[trigger] acc.pv[k]),
    ensures
        parse_fields(toks, acc) matches Ok(i) ==> forall|k: int|
            0 <= k < i.pv.len() ==> is_word(#[trigger] i.pv[k]),
    decreases toks.len(),
{
    if toks.len() == 0 {
    } else if toks[0] == "pv"@ {
        let rest = toks.skip(1);
        assert forall|k: int| 0 <= k < rest.len() implies is_word(#[trigger] rest[k]) by {
            assert(rest[k] == toks[k + 1]);
        }
    } else {
        match read_key(toks[0], toks.skip(1), acc) {
            Ok((next, used)) => {
                lemma_read_key_within(toks[0], toks.skip(1), acc);
                let rest = toks.skip(1 + used as int);
                assert forall|k: int| 0 <= k < rest.len() implies is_word(#[trigger] rest[k]) by {
                    assert(rest[k] == toks[k + 1 + used]);
                }
                assert(next.pv == acc.pv);
                lemma_read_moves_are_words(rest, next);
            },
            Err(_) => {},
        }
    }
}

/// A report that was read from a line survives being written and read
/// again: whatever line it came from, the line written for it gives the
/// same report.
pub proof fn lemma_reading_is_stable(line: Seq<char>)
    ensures
        parse_info_spec(line) matches Ok(i) ==> parse_info_spec(info_line(i)) == Ok::<
            InfoView,
            ParseError,
        >(i),
{
    lemma_tokens_are_words(line);
    lemma_read_moves_are_words(tokens(line), blank_info());
    match parse_info_spec(line) {
        Ok(i) => {
            lemma_info_round_trip(i);
        },
        Err(_) => {},
    }
}

fn put(words: &mut Vec<String>, w: &str)
    ensures
        texts(final(words)@) == texts(old(words)@).push(w@),
{
    let ghost before = texts(words@);
    words.push(w.to_owned());
    assert(texts(words@) =~= before.push(w@));
}

fn put_number(words: &mut Vec<String>, n: u64)
    ensures
        texts(final(words)@) == texts(old(words)@).push(decimal(n as nat)),
{
    let ghost before = texts(words@);
    let mut s = String::new();
    push_decimal(&mut s, n);
    assert(s@ =~= decimal(n as nat));
    words.push(s);
    assert(texts(words@) =~= before.push(decimal(n as nat)));
}

fn put_signed(words: &mut Vec<String>, n: i32)
    ensures
        texts(final(words)@) == texts(old(words)@).push(signed_decimal(n as int)),
{
    let ghost before = texts(words@);
    let mut s = String::new();
    push_signed_decimal(&mut s, n);
    assert(s@ =~= signed_decimal(n as int));
    words.push(s);
    assert(texts(words@) =~= before.push(signed_decimal(n as int)));
}

/// Adds `pv` and the moves of a line of play, or nothing where there is no
/// move.
fn put_line(words: &mut Vec<String>, pv: &Vec<String>)
    ensures
        texts(final(words)@) == texts(old(words)@) + pv_words(texts(pv@)),
{
    let ghost head = texts(words@);
    let ghost line = texts(pv@);
    if pv.len() > 0 {
        put(words, "pv");
        let mut k: usize = 0;
        assert(line.take(0) =~= Seq::<Seq<char>>::empty());
        assert(texts(words@) =~= head + (seq!["pv"@] + line.take(0)));
        while k < pv.len()
            invariant
                k <= pv.len(),
                line == texts(pv@),
                texts(words@) == head + (seq!["pv"@] + line.take(k as int)),
            decreases pv.len() - k,
        {
            assert(line[k as int] == pv@[k as int]@);
            put(words, pv[k].as_str());
            assert(line.take(k + 1) =~= line.take(k as int).push(line[k as int]));
            assert(texts(words@) =~= head + (seq!["pv"@] + line.take(k + 1)));
            k = k + 1;
        }
        assert(line.take(k as int) =~= line);
    } else {
        assert(head + pv_words(line) =~= head);
    }
}

/// Writes a report as one line: `info`, then every key with its value, then
/// `pv` and the moves if there are any; one space between each two words.
///
/// [`parse_info`](crate::parser::parse_info) reads the line back into the
/// same report, provided that every move is a word.
pub fn format_info(info: &Info) -> (line: String)
    ensures
        line@ == info_line(info@),
{
    let ghost i = info@;
    let mut words: Vec<String> = Vec::new();
    assert(texts(words@) =~= Seq::<Seq<char>>::empty());
    assert(texts(info.pv@) == i.pv);
    put(&mut words, "info");
    put(&mut words, "depth");
    put_number(&mut words, info.depth as u64);
    put(&mut words, "seldepth");
    put_number(&mut words, info.seldepth as u64);
    put(&mut words, "multipv");
    put_number(&mut words, info.multipv as u64);
    put(&mut words, "score");
    match info.score {
        Score::Cp(v) => {
            put(&mut words, "cp");
            put_signed(&mut words, v);
        },
        Score::Mate(v) => {
            put(&mut words, "mate");
            put_signed(&mut words, v);
        },
    }
    put(&mut words, "wdl");
    put_number(&mut words, info.wdl.0);
    put_number(&mut words, info.wdl.1);
    put_number(&mut words, info.wdl.2);
    put(&mut words, "nodes");
    put_number(&mut words, info.nodes);
    put(&mut words, "nps");
    put_number(&mut words, info.nps);
    put(&mut words, "hashfull");
    put_number(&mut words, info.hashfull as u64);
    put(&mut words, "tbhits");
    put_number(&mut words, info.tbhits);
    put(&mut words, "time");
    put_number(&mut words, info.time);
    let ghost head = info_head(i);
    assert(texts(words@) == head);
    put_line(&mut words, &info.pv);
    assert(texts(words@) == info_words(i));
    let mut line = String::new();
    push_joined(&mut line, &words, " ");
    assert(line@ =~= info_line(i));
    line
}

} // verus!
