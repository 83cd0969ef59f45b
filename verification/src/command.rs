//! Writing to the engine: a search job and the fixed commands, as the text
//! that goes onto the engine's input.

use crate::decimal::{decimal, push_decimal};
use crate::text::{join, opt_text, texts};
use vstd::prelude::*;
use vstd::string::StringExecFns;

verus! {

/// The texts held by a slice of string slices.
pub open spec fn str_texts(v: Seq<&str>) -> Seq<Seq<char>> {
    Seq::new(v.len(), |i: int| v[i]@)
}

/// One search request: where to start, which moves were played from there,
/// and how deep to look.
#[derive(Debug, Clone)]
pub struct Go {
    fen: Option<String>,
    moves: Vec<String>,
    depth: u32,
}

/// What a [`Go`] holds, as plain values.
pub struct GoView {
    /// The starting position in Forsyth-Edwards notation; the initial
    /// position of chess where there is none.
    pub fen: Option<Seq<char>>,
    /// The moves played from the starting position, in long algebraic
    /// notation.
    pub moves: Seq<Seq<char>>,
    /// The depth to search to, in half-moves.
    pub depth: u32,
}

impl View for Go {
    type V = GoView;

    closed spec fn view(&self) -> GoView {
        GoView {
            fen: opt_text(self.fen),
            moves: texts(self.moves@),
            depth: self.depth,
        }
    }
}

impl Default for Go {
    fn default() -> (job: Self)
        ensures
            job@ == (GoView { fen: None, moves: Seq::empty(), depth: 0 }),
    {
        let job = Go { fen: None, moves: Vec::new(), depth: 0 };
        assert(texts(job.moves@) =~= Seq::<Seq<char>>::empty());
        job
    }
}

impl Go {
    /// A search of the initial position to depth 10.
    pub fn new() -> (job: Self)
        ensures
            job@ == (GoView { fen: None, moves: Seq::empty(), depth: 10 }),
    {
        let job = Go { fen: None, moves: Vec::new(), depth: 10 };
        assert(texts(job.moves@) =~= Seq::<Seq<char>>::empty());
        job
    }

    /// Starts the search from the given position.
    pub fn fen(self, fen: &str) -> (job: Self)
        ensures
            job@ == (GoView { fen: Some(fen@), ..self@ }),
    {
        Go { fen: Some(fen.to_owned()), moves: self.moves, depth: self.depth }
    }

    /// Adds moves to those played from the starting position.
    pub fn moves(self, moves: &[&str]) -> (job: Self)
        ensures
            job@ == (GoView { moves: self@.moves + str_texts(moves@), ..self@ }),
    {
        let ghost added = str_texts(moves@);
        let ghost start = texts(self.moves@);
        let mut job = self;
        let mut k: usize = 0;
        assert(added.take(0) =~= Seq::<Seq<char>>::empty());
        assert(start + added.take(0) =~= start);
        while k < moves.len()
            invariant
                k <= moves.len(),
                added == str_texts(moves@),
                job.fen == self.fen,
                job.depth == self.depth,
                texts(job.moves@) == start + added.take(k as int),
            decreases moves.len() - k,
        {
            let ghost before = texts(job.moves@);
            job.moves.push(moves[k].to_owned());
            assert(texts(job.moves@) =~= before.push(added[k as int]));
            assert(added.take(k + 1) =~= added.take(k as int).push(added[k as int]));
            assert(start + added.take(k + 1) =~= (start + added.take(k as int)).push(
                added[k as int],
            ));
            k = k + 1;
        }
        assert(added.take(k as int) =~= added);
        job
    }

    /// Sets the depth to search to.
    pub fn depth(self, depth: u32) -> (job: Self)
        ensures
            job@ == (GoView { depth: depth, ..self@ }),
    {
        Go { fen: self.fen, moves: self.moves, depth }
    }

    /// Gives up the job for its starting position, where it names one.
    pub fn into_origin(self) -> (fen: Option<String>)
        ensures
            opt_text(fen) == self@.fen,
    {
        self.fen
    }
}

/// The `position` line of a job: the starting position, then the moves
/// played, if there are any.
pub open spec fn position_line(job: GoView) -> Seq<char> {
    "position"@ + (match job.fen {
        Some(f) => " fen "@ + f,
        None => " startpos"@,
    }) + (if job.moves.len() > 0 {
        " moves "@ + join(job.moves, " "@)
    } else {
        Seq::empty()
    })
}

/// The `go` line of a job.
pub open spec fn go_line(job: GoView) -> Seq<char> {
    "go depth "@ + decimal(job.depth as nat)
}

/// The text that submits a job: its two lines, each ended by a line feed.
pub open spec fn payload(job: GoView) -> Seq<char> {
    position_line(job) + "\n"@ + go_line(job) + "\n"@
}

/// The line that sets one engine option.
pub open spec fn option_line(key: Seq<char>, value: Seq<char>) -> Seq<char> {
    "setoption name "@ + key + " value "@ + value
}

/// The lines that set the given options.
pub open spec fn option_lines(options: Seq<(&str, &str)>) -> Seq<Seq<char>> {
    Seq::new(options.len(), |i: int| option_line(options[i].0@, options[i].1@))
}

/// The text that sets the given options: one line each, with a line feed
/// between each two lines.
pub open spec fn options_text(options: Seq<(&str, &str)>) -> Seq<char> {
    join(option_lines(options), "\n"@)
}

/// Appends the strings of `words` to `out`, with `sep` between each two.
pub fn push_joined(out: &mut String, words: &Vec<String>, sep: &str)
    ensures
        final(out)@ == old(out)@ + join(texts(words@), sep@),
{
    let ghost all = texts(words@);
    let ghost start = out@;
    let mut k: usize = 0;
    assert(all.take(0) =~= Seq::<Seq<char>>::empty());
    assert(start + join(all.take(0), sep@) =~= start);
    while k < words.len()
        invariant
            k <= words.len(),
            all == texts(words@),
            out@ == start + join(all.take(k as int), sep@),
        decreases words.len() - k,
    {
        let ghost head = all.take(k as int);
        let ghost next = all.take(k + 1);
        assert(next.drop_last() =~= head);
        assert(next.last() == words@[k as int]@);
        if k > 0 {
            out.append(sep);
        }
        out.append(words[k].as_str());
        proof {
            if k == 0 {
                assert(head =~= Seq::<Seq<char>>::empty());
                assert(join(next, sep@) == next[0]);
                assert(out@ =~= start + join(next, sep@));
            } else {
                assert(join(next, sep@) == join(head, sep@) + sep@ + next.last());
                assert(out@ =~= start + join(next, sep@));
            }
        }
        k = k + 1;
    }
    assert(all.take(k as int) =~= all);
}

/// The text that submits `job` to the engine: the `position` line and the
/// `go` line, each ended by a line feed.
pub fn prepare(job: &Go) -> (cmd: String)
    ensures
        cmd@ == payload(job@),
{
    let mut cmd = String::new();
    cmd.append("position");
    match &job.fen {
        Some(fen) => {
            cmd.append(" fen ");
            cmd.append(fen.as_str());
            assert(cmd@ =~= "position"@ + (" fen "@ + fen@));
        },
        None => {
            cmd.append(" startpos");
            assert(cmd@ =~= "position"@ + " startpos"@);
        },
    }
    let ghost head = cmd@;
    if job.moves.len() > 0 {
        cmd.append(" moves ");
        push_joined(&mut cmd, &job.moves, " ");
        assert(cmd@ =~= head + (" moves "@ + join(job@.moves, " "@)));
    } else {
        assert(cmd@ =~= head + Seq::<char>::empty());
    }
    assert(cmd@ == position_line(job@));
    cmd.append("\n");
    cmd.append("go depth ");
    push_decimal(&mut cmd, job.depth as u64);
    cmd.append("\n");
    assert(cmd@ =~= payload(job@));
    cmd
}

/// The text that sets the given options, each a pair of name and value.
pub fn opts(options: &[(&str, &str)]) -> (cmd: String)
    ensures
        cmd@ == options_text(options@),
{
    let ghost lines = option_lines(options@);
    let mut cmd = String::new();
    let mut k: usize = 0;
    assert(lines.take(0) =~= Seq::<Seq<char>>::empty());
    while k < options.len()
        invariant
            k <= options.len(),
            lines == option_lines(options@),
            cmd@ == join(lines.take(k as int), "\n"@),
        decreases options.len() - k,
    {
        let ghost head = lines.take(k as int);
        let ghost next = lines.take(k + 1);
        let ghost before = cmd@;
        assert(next.drop_last() =~= head);
        assert(next.last() == option_line(options@[k as int].0@, options@[k as int].1@));
        if k > 0 {
            cmd.append("\n");
        }
        let ghost mid = cmd@;
        cmd.append("setoption name ");
        cmd.append(options[k].0);
        cmd.append(" value ");
        cmd.append(options[k].1);
        proof {
            assert(cmd@ =~= mid + next.last());
            if k == 0 {
                assert(head =~= Seq::<Seq<char>>::empty());
                assert(join(next, "\n"@) == next[0]);
                assert(cmd@ =~= join(next, "\n"@));
            } else {
                assert(join(next, "\n"@) == join(head, "\n"@) + "\n"@ + next.last());
                assert(cmd@ =~= join(next, "\n"@));
            }
        }
        k = k + 1;
    }
    assert(lines.take(k as int) =~= lines);
    cmd
}

/// What goes onto the engine's input for one command: the command, ended by
/// a line feed.
pub fn frame(cmd: String) -> (bytes: String)
    ensures
        bytes@ == cmd@.push('\n'),
{
    let mut bytes = cmd;
    bytes.push('\n');
    bytes
}

} // verus!
