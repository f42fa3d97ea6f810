//! The rules of what is printed.
use vstd::prelude::*;

use crate::report;
use crate::report::Info;

verus! {

/// What a digit stands for.
pub open spec fn digit_value(c: char) -> int {
    c as int - '0' as int
}

/// What a word of digits stands for.
pub open spec fn value(word: Seq<char>) -> int
    decreases word.len(),
{
    if word.len() == 0 {
        0
    } else {
        10 * value(word.drop_last()) + digit_value(word.last())
    }
}

/// A number in digits reads back as the number, holds nothing but digits, and starts with a
/// zero only if it is one.
pub proof fn law_numbers_read_back(n: nat)
    ensures
        report::decimal(n).len() > 0,
        value(report::decimal(n)) == n,
        forall|i: int| 0 <= i < report::decimal(n).len() ==> 0 <= digit_value(#[trigger] report::decimal(n)[i]) <= 9,
        n > 0 ==> digit_value(report::decimal(n)[0]) > 0,
        n == 0 ==> report::decimal(n).len() == 1,
    decreases n,
{
    let word = report::decimal(n);
    if n < 10 {
        assert(word.drop_last() =~= Seq::<char>::empty());
        assert(value(word.drop_last()) == 0);
    } else {
        law_numbers_read_back(n / 10);
        assert(word.drop_last() =~= report::decimal(n / 10));
        assert(word[0] == report::decimal(n / 10)[0]);
        assert forall|i: int| 0 <= i < word.len() implies 0 <= digit_value(#[trigger] word[i]) <= 9 by {
            if i < word.len() - 1 {
                assert(word[i] == report::decimal(n / 10)[i]);
            }
        }
    }
}

/// Words are joined by single spaces: none gives nothing, one gives itself, and one more adds a
/// space and itself.
pub proof fn law_words_are_spaced(words: Seq<Seq<char>>, more: Seq<char>)
    ensures
        report::spaced(Seq::empty()).len() == 0,
        report::spaced(seq![more]) == more,
        words.len() > 0 ==> report::spaced(words.push(more)) == report::spaced(words).push(' ') + more,
{
    assert(words.push(more).drop_last() =~= words);
    if words.len() > 0 {
        assert(report::spaced(words.push(more)) =~= report::spaced(words).push(' ') + more);
    }
}

/// An info line says, in this order and each behind its word: the depth, the deepest ply, the
/// score, the time, the nodes, the speed, how full the table is, and the line of moves.
pub proof fn law_info_line(info: Info, nps: u64, score: Seq<char>, moves: Seq<Seq<char>>)
    ensures
        ({
            let depth = "info depth "@ + report::decimal(info.depth as nat);
            let plies = depth + " seldepth "@ + report::decimal(info.sel_depth as nat);
            let scored = plies + " score "@ + score;
            let timed = scored + " time "@ + report::decimal(info.time_ms as nat);
            let counted = timed + " nodes "@ + report::decimal(info.nodes as nat);
            let speed = counted + " nps "@ + report::decimal(nps as nat);
            let full = speed + " hashfull "@ + report::decimal(info.hashfull as nat);
            report::spec_info_line(info, nps, score, moves) == full + " pv "@ + report::spaced(moves)
        }),
{
}

} // verus!
