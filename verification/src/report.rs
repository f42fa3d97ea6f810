//! What is printed of a search.
use vstd::prelude::*;
use vstd::string::*;

use crate::board::Move;
use crate::pv::line_slice;
use crate::score::Score;
use crate::thread::ThreadCtx;

verus! {

/// The facts of an info line, but for the speed.
pub struct Info {
    pub depth: u16,
    pub sel_depth: u16,
    pub score: Score,
    pub time_ms: u128,
    pub nodes: u64,
    pub hashfull: u64,
    pub pv: Vec<Move>,
}

/// Gathers the facts of an info line.
pub fn print_info(
    score: Score,
    depth: u16,
    thread: &ThreadCtx,
    nodes: u64,
    time_us: u128,
    hashfull: u64,
) -> (info: Info)
    ensures
        info.depth == depth,
        info.sel_depth == thread@.sel_depth,
        info.score == score,
        info.time_ms == time_us / 1000,
        info.nodes == nodes,
        info.hashfull == hashfull,
        info.pv@ == thread@.root_pv,
{
    let line = line_slice(&thread.root_pv);
    let mut pv: Vec<Move> = Vec::new();
    let mut i: usize = 0;
    while i < line.len()
        invariant
            i <= line@.len(),
            pv@ == line@.take(i as int),
        decreases line.len() - i,
    {
        pv.push(line[i]);
        assert(line@.take(i + 1) =~= line@.take(i as int).push(line@[i as int]));
        i += 1;
    }
    assert(line@.take(line@.len() as int) =~= line@);
    Info { depth, sel_depth: thread.sel_depth, score, time_ms: time_us / 1000, nodes, hashfull, pv }
}

/// Words with a space between each two.
pub open spec fn spaced(words: Seq<Seq<char>>) -> Seq<char>
    decreases words.len(),
{
    if words.len() == 0 {
        Seq::empty()
    } else if words.len() == 1 {
        words[0]
    } else {
        spaced(words.drop_last()) + seq![' '] + words.last()
    }
}

/// Puts the moves of a line, already in words, on one line.
pub fn join_words(words: &Vec<String>) -> (text: String)
    ensures
        text@ == spaced(words@.map_values(|w: String| w@)),
{
    let ghost all = words@.map_values(|w: String| w@);
    let mut text = String::new();
    let mut i: usize = 0;
    proof {
        reveal_strlit(" ");
        assert(all.take(0) =~= Seq::empty());
    }
    while i < words.len()
        invariant
            i <= words@.len(),
            all == words@.map_values(|w: String| w@),
            " "@ == seq![' '],
            text@ == spaced(all.take(i as int)),
        decreases words.len() - i,
    {
        assert(all.take(i + 1).drop_last() =~= all.take(i as int));
        if i > 0 {
            text.append(" ");
        }
        text.append(words[i].as_str());
        assert(text@ =~= spaced(all.take(i + 1)));
        i += 1;
    }
    assert(all.take(all.len() as int) =~= all);
    text
}

pub open spec fn digit(d: nat) -> char {
    if d == 0 {
        '0'
    } else if d == 1 {
        '1'
    } else if d == 2 {
        '2'
    } else if d == 3 {
        '3'
    } else if d == 4 {
        '4'
    } else if d == 5 {
        '5'
    } else if d == 6 {
        '6'
    } else if d == 7 {
        '7'
    } else if d == 8 {
        '8'
    } else {
        '9'
    }
}

/// A number in decimal digits, without leading zeros.
pub open spec fn decimal(n: nat) -> Seq<char>
    decreases n,
{
    if n < 10 {
        seq![digit(n)]
    } else {
        decimal(n / 10).push(digit(n % 10))
    }
}

fn digit_word(d: u128) -> (word: &'static str)
    requires
        d < 10,
    ensures
        word@ == seq![digit(d as nat)],
{
    proof {
        reveal_strlit("0");
        reveal_strlit("1");
        reveal_strlit("2");
        reveal_strlit("3");
        reveal_strlit("4");
        reveal_strlit("5");
        reveal_strlit("6");
        reveal_strlit("7");
        reveal_strlit("8");
        reveal_strlit("9");
    }
    let word = match d {
        0 => "0",
        1 => "1",
        2 => "2",
        3 => "3",
        4 => "4",
        5 => "5",
        6 => "6",
        7 => "7",
        8 => "8",
        _ => "9",
    };
    assert(word@ =~= seq![digit(d as nat)]);
    word
}

fn append_number(text: &mut String, n: u128)
    ensures
        final(text)@ == old(text)@ + decimal(n as nat),
    decreases n,
{
    if n >= 10 {
        append_number(text, n / 10);
    }
    text.append(digit_word(n % 10));
    assert(text@ =~= old(text)@ + decimal(n as nat));
}

/// The text of an info line.
pub open spec fn spec_info_line(info: Info, nps: u64, score: Seq<char>, moves: Seq<Seq<char>>) -> Seq<char> {
    "info depth "@ + decimal(info.depth as nat) + " seldepth "@ + decimal(info.sel_depth as nat) + " score "@
        + score + " time "@ + decimal(info.time_ms as nat) + " nodes "@ + decimal(info.nodes as nat) + " nps "@
        + decimal(nps as nat) + " hashfull "@ + decimal(info.hashfull as nat) + " pv "@ + spaced(moves)
}

/// Writes an info line. `nps` is the speed in nodes per second, `score` the score of the
/// search in words, and `moves` are the moves of its line in words.
pub fn info_line(info: &Info, nps: u64, score: &str, moves: &Vec<String>) -> (text: String)
    ensures
        text@ == spec_info_line(*info, nps, score@, moves@.map_values(|w: String| w@)),
{
    let mut text = "info depth ".to_owned();
    append_number(&mut text, info.depth as u128);
    text.append(" seldepth ");
    append_number(&mut text, info.sel_depth as u128);
    text.append(" score ");
    text.append(score);
    text.append(" time ");
    append_number(&mut text, info.time_ms);
    text.append(" nodes ");
    append_number(&mut text, info.nodes as u128);
    text.append(" nps ");
    append_number(&mut text, nps as u128);
    text.append(" hashfull ");
    append_number(&mut text, info.hashfull as u128);
    text.append(" pv ");
    let pv = join_words(moves);
    text.append(pv.as_str());
    text
}

/// Writes the line that names the move to play, given in words.
pub fn best_move_line(best_move: &str) -> (text: String)
    ensures
        text@ == "bestmove "@ + best_move@,
{
    let mut text = "bestmove ".to_owned();
    text.append(best_move);
    text
}

} // verus!
