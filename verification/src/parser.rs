//! Reading the engine's output: a line becomes a progress report, the final
//! answer of a search, or nothing.

use crate::decimal::{parse_i32, parse_u32, parse_u64, read_i32, read_u32, read_u64};
use crate::records::{blank_info, BestMove, BestMoveView, Info, InfoView, Score, Search, SearchView};
use crate::text::{split_words, texts, tokens, word_is, word_string, word_views};
use vstd::prelude::*;
use vstd::string::StringExecFns;

verus! {

/// The values that a line can owe or spoil.
#[derive(Debug, Clone, Copy, PartialEq, Eq, Structural)]
pub enum Field {
    Depth,
    Seldepth,
    Multipv,
    /// The word after `score` that says which kind of score follows.
    Score,
    Cp,
    Mate,
    Win,
    Draw,
    Loss,
    Nodes,
    Nps,
    Hashfull,
    Tbhits,
    Time,
    /// The move after `bestmove`.
    BestMove,
}

/// Why a line could not be read.
#[derive(Debug, Clone, Copy, PartialEq, Eq, Structural)]
pub enum ParseError {
    /// The line ends where the value of a key is due.
    Missing(Field),
    /// The word in the place of a value is not a number of the field's type.
    Invalid(Field),
    /// The word after `score` is neither `cp` nor `mate`.
    UnknownScore,
}

/// What a field is called in messages.
pub open spec fn field_name(field: Field) -> Seq<char> {
    match field {
        Field::Depth => "depth"@,
        Field::Seldepth => "seldepth"@,
        Field::Multipv => "multipv"@,
        Field::Score => "score"@,
        Field::Cp => "cp"@,
        Field::Mate => "mate"@,
        Field::Win => "win %"@,
        Field::Draw => "draw %"@,
        Field::Loss => "lose %"@,
        Field::Nodes => "nodes"@,
        Field::Nps => "nps"@,
        Field::Hashfull => "hashfull"@,
        Field::Tbhits => "tbhits"@,
        Field::Time => "time"@,
        Field::BestMove => "best move"@,
    }
}

/// What an error says of itself.
pub open spec fn message_spec(e: ParseError) -> Seq<char> {
    match e {
        ParseError::Missing(field) => "no "@ + field_name(field),
        ParseError::Invalid(field) => "invalid "@ + field_name(field),
        ParseError::UnknownScore => "unknown score"@,
    }
}

impl Field {
    /// What the field is called in messages.
    pub fn name(&self) -> (name: &'static str)
        ensures
            name@ == field_name(*self),
    {
        match self {
            Field::Depth => "depth",
            Field::Seldepth => "seldepth",
            Field::Multipv => "multipv",
            Field::Score => "score",
            Field::Cp => "cp",
            Field::Mate => "mate",
            Field::Win => "win %",
            Field::Draw => "draw %",
            Field::Loss => "lose %",
            Field::Nodes => "nodes",
            Field::Nps => "nps",
            Field::Hashfull => "hashfull",
            Field::Tbhits => "tbhits",
            Field::Time => "time",
            Field::BestMove => "best move",
        }
    }
}

impl ParseError {
    /// The error in words.
    pub fn message(&self) -> (text: String)
        ensures
            text@ == message_spec(*self),
    {
        match self {
            ParseError::Missing(field) => {
                let mut text = "no ".to_owned();
                text.append(field.name());
                text
            },
            ParseError::Invalid(field) => {
                let mut text = "invalid ".to_owned();
                text.append(field.name());
                text
            },
            ParseError::UnknownScore => "unknown score".to_owned(),
        }
    }
}

/// The `u32` owed by the first word of `rest`.
pub open spec fn take_u32(rest: Seq<Seq<char>>, field: Field) -> Result<u32, ParseError> {
    if rest.len() == 0 {
        Err(ParseError::Missing(field))
    } else {
        match read_u32(rest[0]) {
            Some(v) => Ok(v),
            None => Err(ParseError::Invalid(field)),
        }
    }
}

/// The `u64` owed by the first word of `rest`.
pub open spec fn take_u64(rest: Seq<Seq<char>>, field: Field) -> Result<u64, ParseError> {
    if rest.len() == 0 {
        Err(ParseError::Missing(field))
    } else {
        match read_u64(rest[0]) {
            Some(v) => Ok(v),
            None => Err(ParseError::Invalid(field)),
        }
    }
}

/// The `i32` owed by the first word of `rest`.
pub open spec fn take_i32(rest: Seq<Seq<char>>, field: Field) -> Result<i32, ParseError> {
    if rest.len() == 0 {
        Err(ParseError::Missing(field))
    } else {
        match read_i32(rest[0]) {
            Some(v) => Ok(v),
            None => Err(ParseError::Invalid(field)),
        }
    }
}

/// The score owed by the words after `score`: a kind, then its value.
pub open spec fn take_score(rest: Seq<Seq<char>>) -> Result<Score, ParseError> {
    if rest.len() == 0 {
        Err(ParseError::Missing(Field::Score))
    } else if rest[0] == "cp"@ {
        match take_i32(rest.skip(1), Field::Cp) {
            Ok(v) => Ok(Score::Cp(v)),
            Err(e) => Err(e),
        }
    } else if rest[0] == "mate"@ {
        match take_i32(rest.skip(1), Field::Mate) {
            Ok(v) => Ok(Score::Mate(v)),
            Err(e) => Err(e),
        }
    } else {
        Err(ParseError::UnknownScore)
    }
}

/// The three chances owed by the words after `wdl`.
pub open spec fn take_wdl(rest: Seq<Seq<char>>) -> Result<(u64, u64, u64), ParseError> {
    match take_u64(rest, Field::Win) {
        Ok(w) => match take_u64(rest.skip(1), Field::Draw) {
            Ok(d) => match take_u64(rest.skip(2), Field::Loss) {
                Ok(l) => Ok((w, d, l)),
                Err(e) => Err(e),
            },
            Err(e) => Err(e),
        },
        Err(e) => Err(e),
    }
}

/// What one key other than `pv` does to the report: the report with the
/// key's value filled in, and the number of words after the key that made up
/// the value. A word that is no key changes nothing and takes no value.
pub open spec fn read_key(key: Seq<char>, rest: Seq<Seq<char>>, acc: InfoView) -> Result<
    (InfoView, nat),
    ParseError,
> {
    if key == "depth"@ {
        match take_u32(rest, Field::Depth) {
            Ok(v) => Ok((InfoView { depth: v, ..acc }, 1)),
            Err(e) => Err(e),
        }
    } else if key == "seldepth"@ {
        match take_u32(rest, Field::Seldepth) {
            Ok(v) => Ok((InfoView { seldepth: v, ..acc }, 1)),
            Err(e) => Err(e),
        }
    } else if key == "multipv"@ {
        match take_u32(rest, Field::Multipv) {
            Ok(v) => Ok((InfoView { multipv: v, ..acc }, 1)),
            Err(e) => Err(e),
        }
    } else if key == "score"@ {
        match take_score(rest) {
            Ok(v) => Ok((InfoView { score: v, ..acc }, 2)),
            Err(e) => Err(e),
        }
    } else if key == "wdl"@ {
        match take_wdl(rest) {
            Ok(v) => Ok((InfoView { wdl: v, ..acc }, 3)),
            Err(e) => Err(e),
        }
    } else if key == "nodes"@ {
        match take_u64(rest, Field::Nodes) {
            Ok(v) => Ok((InfoView { nodes: v, ..acc }, 1)),
            Err(e) => Err(e),
        }
    } else if key == "nps"@ {
        match take_u64(rest, Field::Nps) {
            Ok(v) => Ok((InfoView { nps: v, ..acc }, 1)),
            Err(e) => Err(e),
        }
    } else if key == "hashfull"@ {
        match take_u32(rest, Field::Hashfull) {
            Ok(v) => Ok((InfoView { hashfull: v, ..acc }, 1)),
            Err(e) => Err(e),
        }
    } else if key == "tbhits"@ {
        match take_u64(rest, Field::Tbhits) {
            Ok(v) => Ok((InfoView { tbhits: v, ..acc }, 1)),
            Err(e) => Err(e),
        }
    } else if key == "time"@ {
        match take_u64(rest, Field::Time) {
            Ok(v) => Ok((InfoView { time: v, ..acc }, 1)),
            Err(e) => Err(e),
        }
    } else {
        Ok((acc, 0))
    }
}

/// A key never takes more words than follow it.
pub proof fn lemma_read_key_within(key: Seq<char>, rest: Seq<Seq<char>>, acc: InfoView)
    ensures
        read_key(key, rest, acc) matches Ok((_, used)) ==> used <= rest.len(),
{
}

/// The report that a sequence of words gives, starting from `acc`: keys are
/// read from left to right, each with its value; `pv` takes all the words
/// that are left as the moves of the line; the first value that is missing
/// or unreadable fails the whole.
pub open spec fn parse_fields(toks: Seq<Seq<char>>, acc: InfoView) -> Result<InfoView, ParseError>
    decreases toks.len(),
{
    if toks.len() == 0 {
        Ok(acc)
    } else if toks[0] == "pv"@ {
        Ok(InfoView { pv: toks.skip(1), ..acc })
    } else {
        match read_key(toks[0], toks.skip(1), acc) {
            Ok((next, used)) => {
                proof {
                    lemma_read_key_within(toks[0], toks.skip(1), acc);
                }
                parse_fields(toks.skip(1 + used as int), next)
            },
            Err(e) => Err(e),
        }
    }
}

/// The report that a line gives. Its first word, `info`, is no key and is
/// passed over like any other word that is none.
pub open spec fn parse_info_spec(line: Seq<char>) -> Result<InfoView, ParseError> {
    parse_fields(tokens(line), blank_info())
}

/// The answer that the words of a `bestmove` line give: the second word is
/// the move; the fourth is the expected reply, if the third is `ponder`.
pub open spec fn best_move_of(toks: Seq<Seq<char>>) -> Result<BestMoveView, ParseError> {
    if toks.len() < 2 {
        Err(ParseError::Missing(Field::BestMove))
    } else {
        Ok(
            BestMoveView {
                best: toks[1],
                ponder: if toks.len() >= 4 && toks[2] == "ponder"@ {
                    Some(toks[3])
                } else {
                    None
                },
            },
        )
    }
}

/// The answer that a line gives.
pub open spec fn parse_bestmove_spec(line: Seq<char>) -> Result<BestMoveView, ParseError> {
    best_move_of(tokens(line))
}

/// The record that a line gives: a report if its first word is `info`, an
/// answer if it is `bestmove`, and none for any other line.
pub open spec fn search_spec(line: Seq<char>) -> Result<Option<SearchView>, ParseError> {
    let toks = tokens(line);
    if toks.len() == 0 {
        Ok(None)
    } else if toks[0] == "info"@ {
        match parse_info_spec(line) {
            Ok(info) => Ok(Some(SearchView::Info(info))),
            Err(e) => Err(e),
        }
    } else if toks[0] == "bestmove"@ {
        match parse_bestmove_spec(line) {
            Ok(best) => Ok(Some(SearchView::BestMove(best))),
            Err(e) => Err(e),
        }
    } else {
        Ok(None)
    }
}

/// What the result of [`parse_info`] holds.
pub open spec fn info_outcome(r: Result<Info, ParseError>) -> Result<InfoView, ParseError> {
    match r {
        Ok(info) => Ok(info@),
        Err(e) => Err(e),
    }
}

/// What the result of [`parse_bestmove`] holds.
pub open spec fn best_outcome(r: Result<BestMove, ParseError>) -> Result<BestMoveView, ParseError> {
    match r {
        Ok(best) => Ok(best@),
        Err(e) => Err(e),
    }
}

/// What the result of [`search`] holds.
pub open spec fn search_outcome(r: Result<Option<Search>, ParseError>) -> Result<
    Option<SearchView>,
    ParseError,
> {
    match r {
        Ok(Some(record)) => Ok(Some(record@)),
        Ok(None) => Ok(None),
        Err(e) => Err(e),
    }
}

/// Whether a word is one of the keys of an `info` line.
pub open spec fn is_key(word: Seq<char>) -> bool {
    ||| word == "depth"@
    ||| word == "seldepth"@
    ||| word == "multipv"@
    ||| word == "score"@
    ||| word == "wdl"@
    ||| word == "nodes"@
    ||| word == "nps"@
    ||| word == "hashfull"@
    ||| word == "tbhits"@
    ||| word == "time"@
    ||| word == "pv"@
}

/// Words that are no keys leave the report as it is: a line reads the same
/// with such a word, or with such a word and a value behind it that is no
/// key either, as without.
pub proof fn lemma_unknown_key_is_passed_over(
    key: Seq<char>,
    value: Seq<char>,
    rest: Seq<Seq<char>>,
    acc: InfoView,
)
    requires
        !is_key(key),
    ensures
        parse_fields(seq![key] + rest, acc) == parse_fields(rest, acc),
        !is_key(value) ==> parse_fields(seq![key, value] + rest, acc) == parse_fields(rest, acc),
{
    let one = seq![key] + rest;
    assert(one[0] == key);
    assert(one.skip(1) =~= rest);
    if !is_key(value) {
        let two = seq![key, value] + rest;
        let tail = seq![value] + rest;
        assert(two[0] == key);
        assert(two.skip(1) =~= tail);
        assert(tail[0] == value);
        assert(tail.skip(1) =~= rest);
        assert(parse_fields(tail, acc) == parse_fields(rest, acc));
        assert(parse_fields(two, acc) == parse_fields(tail, acc));
    }
}

/// The word `pv` is no number and names no kind of score.
pub proof fn lemma_pv_is_no_value()
    ensures
        read_u32("pv"@) is None,
        read_u64("pv"@) is None,
        read_i32("pv"@) is None,
        "pv"@ != "cp"@,
        "pv"@ != "mate"@,
{
    reveal_strlit("pv");
    reveal_strlit("cp");
    reveal_strlit("mate");
    let w = "pv"@;
    assert(w[0] == 'p');
    assert(!crate::decimal::is_digit(w[0]));
    assert(w[0] != "cp"@[0]);
}

/// What a key reads does not change when words are added behind those that
/// follow it, as long as the first word added is `pv`: a value that was
/// there is still there, and a value that was missing is still not there.
pub proof fn lemma_read_key_extends(
    key: Seq<char>,
    rest: Seq<Seq<char>>,
    ext: Seq<Seq<char>>,
    acc: InfoView,
)
    requires
        ext.len() > 0,
        ext[0] == "pv"@,
    ensures
        match read_key(key, rest, acc) {
            Ok(r) => read_key(key, rest + ext, acc) == Ok::<(InfoView, nat), ParseError>(r),
            Err(_) => read_key(key, rest + ext, acc) is Err,
        },
{
    lemma_pv_is_no_value();
    let full = rest + ext;
    assert forall|j: int| 0 <= j <= 2 && j <= rest.len() implies (#[trigger] full.skip(j)).len() > 0
        && full.skip(j)[0] == (if j < rest.len() {
        rest.skip(j)[0]
    } else {
        "pv"@
    }) && (j == rest.len() ==> rest.skip(j).len() == 0) by {
        if j < rest.len() {
            assert(full.skip(j)[0] == full[j]);
            assert(rest.skip(j)[0] == rest[j]);
        } else {
            assert(full.skip(j)[0] == ext[0]);
        }
    }
    assert(full.skip(0) =~= full);
    assert(rest.skip(0) =~= rest);
    assert(full.skip(1).len() > 0 || rest.len() == 0);
    if rest.len() >= 1 {
        assert(full.skip(1).len() > 0);
        assert(rest.skip(1).len() == rest.len() - 1);
    }
    if rest.len() >= 2 {
        assert(full.skip(2).len() > 0);
        assert(rest.skip(2).len() == rest.len() - 2);
    }
}

/// `pv` takes the rest of the line. Where `pv` follows words among which
/// there is none, the words behind it are the moves of the line, all of
/// them and in their order, however many keys stand before it and in
/// whatever order; the keys before it are read as if the line ended there.
/// A line whose keys before `pv` cannot be read fails with `pv` as without.
pub proof fn lemma_pv_takes_the_rest(pre: Seq<Seq<char>>, moves: Seq<Seq<char>>, acc: InfoView)
    requires
        forall|i: int| 0 <= i < pre.len() ==> pre[i] != "pv"@,
    ensures
        match parse_fields(pre, acc) {
            Ok(mid) => parse_fields(pre + seq!["pv"@] + moves, acc) == Ok::<InfoView, ParseError>(
                InfoView { pv: moves, ..mid },
            ),
            Err(_) => parse_fields(pre + seq!["pv"@] + moves, acc) is Err,
        },
    decreases pre.len(),
{
    let ext = seq!["pv"@] + moves;
    let full = pre + seq!["pv"@] + moves;
    assert(full =~= pre + ext);
    if pre.len() == 0 {
        assert(full[0] == "pv"@);
        assert(full.skip(1) =~= moves);
    } else {
        let key = pre[0];
        let rest = pre.skip(1);
        assert(full[0] == key);
        assert(full.skip(1) =~= rest + ext);
        lemma_read_key_extends(key, rest, ext, acc);
        lemma_read_key_within(key, rest, acc);
        match read_key(key, rest, acc) {
            Ok((next, used)) => {
                let tail = rest.skip(used as int);
                assert(pre.skip(1 + used as int) =~= tail);
                assert(full.skip(1 + used as int) =~= tail + seq!["pv"@] + moves);
                assert forall|i: int| 0 <= i < tail.len() implies tail[i] != "pv"@ by {
                    assert(tail[i] == pre[i + 1 + used]);
                }
                lemma_pv_takes_the_rest(tail, moves, next);
            },
            Err(_) => {},
        }
    }
}

/// The strings that hold the words from index `from` on.
fn word_strings(words: &Vec<Vec<char>>, from: usize) -> (out: Vec<String>)
    requires
        from <= words.len(),
    ensures
        texts(out@) == word_views(words@).skip(from as int),
{
    let ghost toks = word_views(words@);
    let mut out: Vec<String> = Vec::new();
    let mut j: usize = from;
    while j < words.len()
        invariant
            from <= j <= words.len(),
            toks == word_views(words@),
            texts(out@) == toks.subrange(from as int, j as int),
        decreases words.len() - j,
    {
        let s = word_string(&words[j]);
        let ghost before = texts(out@);
        out.push(s);
        assert(texts(out@) =~= before.push(toks[j as int]));
        assert(toks.subrange(from as int, j + 1) =~= toks.subrange(from as int, j as int).push(
            toks[j as int],
        ));
        j = j + 1;
    }
    assert(toks.subrange(from as int, j as int) =~= toks.skip(from as int));
    out
}

fn number_u32(words: &Vec<Vec<char>>, j: usize, field: Field) -> (r: Result<u32, ParseError>)
    requires
        j <= words.len(),
    ensures
        r == take_u32(word_views(words@).skip(j as int), field),
{
    if j >= words.len() {
        Err(ParseError::Missing(field))
    } else {
        assert(word_views(words@).skip(j as int)[0] == words@[j as int]@);
        match parse_u32(&words[j]) {
            Some(v) => Ok(v),
            None => Err(ParseError::Invalid(field)),
        }
    }
}

fn number_u64(words: &Vec<Vec<char>>, j: usize, field: Field) -> (r: Result<u64, ParseError>)
    requires
        j <= words.len(),
    ensures
        r == take_u64(word_views(words@).skip(j as int), field),
{
    if j >= words.len() {
        Err(ParseError::Missing(field))
    } else {
        assert(word_views(words@).skip(j as int)[0] == words@[j as int]@);
        match parse_u64(&words[j]) {
            Some(v) => Ok(v),
            None => Err(ParseError::Invalid(field)),
        }
    }
}

fn number_i32(words: &Vec<Vec<char>>, j: usize, field: Field) -> (r: Result<i32, ParseError>)
    requires
        j <= words.len(),
    ensures
        r == take_i32(word_views(words@).skip(j as int), field),
{
    if j >= words.len() {
        Err(ParseError::Missing(field))
    } else {
        assert(word_views(words@).skip(j as int)[0] == words@[j as int]@);
        match parse_i32(&words[j]) {
            Some(v) => Ok(v),
            None => Err(ParseError::Invalid(field)),
        }
    }
}

fn score_at(words: &Vec<Vec<char>>, j: usize) -> (r: Result<Score, ParseError>)
    requires
        j <= words.len(),
    ensures
        r == take_score(word_views(words@).skip(j as int)),
{
    let ghost rest = word_views(words@).skip(j as int);
    if j >= words.len() {
        return Err(ParseError::Missing(Field::Score));
    }
    assert(rest[0] == words@[j as int]@);
    assert(rest.skip(1) =~= word_views(words@).skip(j + 1));
    if word_is(&words[j], "cp") {
        match number_i32(words, j + 1, Field::Cp) {
            Ok(v) => Ok(Score::Cp(v)),
            Err(e) => Err(e),
        }
    } else if word_is(&words[j], "mate") {
        match number_i32(words, j + 1, Field::Mate) {
            Ok(v) => Ok(Score::Mate(v)),
            Err(e) => Err(e),
        }
    } else {
        Err(ParseError::UnknownScore)
    }
}

fn wdl_at(words: &Vec<Vec<char>>, j: usize) -> (r: Result<(u64, u64, u64), ParseError>)
    requires
        j <= words.len(),
    ensures
        r == take_wdl(word_views(words@).skip(j as int)),
{
    let ghost rest = word_views(words@).skip(j as int);
    let w = match number_u64(words, j, Field::Win) {
        Ok(v) => v,
        Err(e) => { return Err(e); },
    };
    assert(rest.skip(1) =~= word_views(words@).skip(j + 1));
    let d = match number_u64(words, j + 1, Field::Draw) {
        Ok(v) => v,
        Err(e) => { return Err(e); },
    };
    assert(rest.skip(2) =~= word_views(words@).skip(j + 2));
    let l = match number_u64(words, j + 2, Field::Loss) {
        Ok(v) => v,
        Err(e) => { return Err(e); },
    };
    Ok((w, d, l))
}

/// Reads the key at index `i`, which is not `pv`, into `info`, and returns
/// the number of words that its value took.
fn key_at(words: &Vec<Vec<char>>, i: usize, info: &mut Info) -> (r: Result<usize, ParseError>)
    requires
        i < words.len(),
    ensures
        match read_key(words@[i as int]@, word_views(words@).skip(i + 1), old(info)@) {
            Ok((next, used)) => r == Ok::<usize, ParseError>(used as usize) && final(info)@ == next,
            Err(e) => r == Err::<usize, ParseError>(e),
        },
{
    let key = &words[i];
    if word_is(key, "depth") {
        info.depth = number_u32(words, i + 1, Field::Depth)?;
        Ok(1)
    } else if word_is(key, "seldepth") {
        info.seldepth = number_u32(words, i + 1, Field::Seldepth)?;
        Ok(1)
    } else if word_is(key, "multipv") {
        info.multipv = number_u32(words, i + 1, Field::Multipv)?;
        Ok(1)
    } else if word_is(key, "score") {
        info.score = score_at(words, i + 1)?;
        Ok(2)
    } else if word_is(key, "wdl") {
        info.wdl = wdl_at(words, i + 1)?;
        Ok(3)
    } else if word_is(key, "nodes") {
        info.nodes = number_u64(words, i + 1, Field::Nodes)?;
        Ok(1)
    } else if word_is(key, "nps") {
        info.nps = number_u64(words, i + 1, Field::Nps)?;
        Ok(1)
    } else if word_is(key, "hashfull") {
        info.hashfull = number_u32(words, i + 1, Field::Hashfull)?;
        Ok(1)
    } else if word_is(key, "tbhits") {
        info.tbhits = number_u64(words, i + 1, Field::Tbhits)?;
        Ok(1)
    } else if word_is(key, "time") {
        info.time = number_u64(words, i + 1, Field::Time)?;
        Ok(1)
    } else {
        Ok(0)
    }
}

/// Reads the words of a line into a report.
fn parse_words(words: &Vec<Vec<char>>) -> (r: Result<Info, ParseError>)
    ensures
        info_outcome(r) == parse_fields(word_views(words@), blank_info()),
{
    let ghost toks = word_views(words@);
    let mut info = Info::default();
    let mut i: usize = 0;
    assert(toks.skip(0) =~= toks);
    while i < words.len()
        invariant
            i <= words.len(),
            toks == word_views(words@),
            parse_fields(toks, blank_info()) == parse_fields(toks.skip(i as int), info@),
        decreases words.len() - i,
    {
        let ghost cur = toks.skip(i as int);
        assert(cur[0] == words@[i as int]@);
        assert(cur.skip(1) =~= toks.skip(i + 1));
        if word_is(&words[i], "pv") {
            let ghost before = info@;
            info.pv = word_strings(words, i + 1);
            assert(info@ == InfoView { pv: toks.skip(i + 1), ..before });
            return Ok(info);
        }
        let ghost before = info@;
        match key_at(words, i, &mut info) {
            Ok(used) => {
                proof {
                    lemma_read_key_within(cur[0], cur.skip(1), before);
                    assert(cur.skip(1 + used) =~= toks.skip(i + 1 + used));
                }
                i = i + 1 + used;
            },
            Err(e) => {
                return Err(e);
            },
        }
    }
    assert(toks.skip(i as int) =~= Seq::<Seq<char>>::empty());
    Ok(info)
}

/// Reads an `info` line into a progress report.
///
/// Keys may come in any order and any of them may be left out. A word that
/// is no key is passed over. The line fails where a key is not followed by
/// its value, or by a value that does not read as a number of its type, and
/// where `score` is followed by anything but `cp` or `mate`.
pub fn parse_info(line: &str) -> (r: Result<Info, ParseError>)
    ensures
        info_outcome(r) == parse_info_spec(line@),
{
    let words = split_words(line);
    parse_words(&words)
}

fn best_of_words(words: &Vec<Vec<char>>) -> (r: Result<BestMove, ParseError>)
    ensures
        best_outcome(r) == best_move_of(word_views(words@)),
{
    if words.len() < 2 {
        return Err(ParseError::Missing(Field::BestMove));
    }
    let best = word_string(&words[1]);
    let ponder = if words.len() >= 4 && word_is(&words[2], "ponder") {
        Some(word_string(&words[3]))
    } else {
        None
    };
    Ok(BestMove { best, ponder })
}

/// Reads a `bestmove` line into the engine's answer.
///
/// The line fails if no move follows its first word. A reply is recorded
/// only where the word `ponder` and a fourth word are there.
pub fn parse_bestmove(line: &str) -> (r: Result<BestMove, ParseError>)
    ensures
        best_outcome(r) == parse_bestmove_spec(line@),
{
    let words = split_words(line);
    best_of_words(&words)
}

/// Reads one line of engine output.
///
/// Returns the report of an `info` line, the answer of a `bestmove` line,
/// and `None` for every other line, the empty one included.
pub fn search(line: &str) -> (r: Result<Option<Search>, ParseError>)
    ensures
        search_outcome(r) == search_spec(line@),
{
    let words = split_words(line);
    if words.len() == 0 {
        return Ok(None);
    }
    assert(word_views(words@)[0] == words@[0]@);
    if word_is(&words[0], "info") {
        match parse_words(&words) {
            Ok(info) => Ok(Some(Search::Info(info))),
            Err(e) => Err(e),
        }
    } else if word_is(&words[0], "bestmove") {
        match best_of_words(&words) {
            Ok(best) => Ok(Some(Search::BestMove(best))),
            Err(e) => Err(e),
        }
    } else {
        Ok(None)
    }
}

} // verus!
