//! The regular expressions that stand for what a solver knows. A word is
//! still possible when every one of them matches it.

use crate::solver::{views, Knowledge, State};
use crate::text::{decimal, join_chars, joined, push_all, push_decimal};
use vstd::prelude::*;

verus! {

/// The pattern for the whole word: exactly `len` characters, none of them a
/// dead letter. `^.{5}$` without dead letters, `^[^ace]{5}$` with some.
pub open spec fn word_wide(dead: Seq<char>, len: nat) -> Seq<char> {
    if dead.len() == 0 {
        seq!['^', '.', '{'] + decimal(len) + seq!['}', '$']
    } else {
        seq!['^', '[', '^'] + dead + seq![']', '{'] + decimal(len) + seq!['}', '$']
    }
}

/// One pattern for each position that excludes letters, in the order of the
/// positions: the word holds one of those letters somewhere. `r|s` for the
/// letters r and s.
pub open spec fn elsewhere(positions: Seq<Knowledge>) -> Seq<Seq<char>>
    decreases positions.len(),
{
    if positions.len() == 0 {
        Seq::empty()
    } else {
        let before = elsewhere(positions.drop_last());
        match positions.last() {
            Knowledge::Excluded(here) => before.push(joined(here, seq!['|'])),
            _ => before,
        }
    }
}

/// What one position adds to the positional pattern: its letter, a class
/// without the letters it excludes, or a dot.
pub open spec fn cell(known: Knowledge) -> Seq<char> {
    match known {
        Knowledge::Ensured(letter) => seq![letter],
        Knowledge::Excluded(here) => seq!['[', '^'] + here + seq![']'],
        Knowledge::Unknown => seq!['.'],
    }
}

/// The pattern that holds every position's constraint, one cell after
/// another. `.[^r].t.` for a word with r excluded second and t fourth.
pub open spec fn positional(positions: Seq<Knowledge>) -> Seq<char>
    decreases positions.len(),
{
    if positions.len() == 0 {
        Seq::empty()
    } else {
        positional(positions.drop_last()) + cell(positions.last())
    }
}

/// All patterns in order: the word-wide one, those for letters that are
/// elsewhere, the positional one.
pub open spec fn pattern_set(dead: Seq<char>, positions: Seq<Knowledge>) -> Seq<Seq<char>> {
    seq![word_wide(dead, positions.len())] + elsewhere(positions) + seq![positional(positions)]
}

/// The number of positions that exclude letters.
pub open spec fn excluding(positions: Seq<Knowledge>) -> nat
    decreases positions.len(),
{
    if positions.len() == 0 {
        0
    } else {
        excluding(positions.drop_last()) + if positions.last() is Excluded {
            1nat
        } else {
            0nat
        }
    }
}

/// The positions of a word of which nothing is known.
pub open spec fn unknowns(len: nat) -> Seq<Knowledge> {
    Seq::new(len, |i: int| Knowledge::Unknown)
}

/// The patterns of a word of which nothing is known: any `len` characters,
/// once counted, `^.{5}$`, and once as a row of dots, `.....`.
pub open spec fn open_patterns(len: nat) -> Seq<Seq<char>> {
    seq![seq!['^', '.', '{'] + decimal(len) + seq!['}', '$'], Seq::new(len, |i: int| '.')]
}

/// There is one pattern for a letter that is elsewhere for each position
/// that excludes letters.
pub proof fn lemma_elsewhere_len(positions: Seq<Knowledge>)
    ensures
        elsewhere(positions).len() == excluding(positions),
    decreases positions.len(),
{
    if positions.len() > 0 {
        lemma_elsewhere_len(positions.drop_last());
    }
}

/// The patterns are two more than the positions that exclude letters: the
/// word-wide pattern and the positional one are always there.
pub proof fn lemma_pattern_count(dead: Seq<char>, positions: Seq<Knowledge>)
    ensures
        pattern_set(dead, positions).len() == 2 + excluding(positions),
        pattern_set(dead, positions)[0] == word_wide(dead, positions.len()),
        pattern_set(dead, positions).last() == positional(positions),
{
    lemma_elsewhere_len(positions);
}

/// Where nothing is known and no letter is dead, the patterns are the two
/// that admit any word of the length.
pub proof fn law_open_patterns(len: nat)
    ensures
        pattern_set(Seq::empty(), unknowns(len)) == open_patterns(len),
        excluding(unknowns(len)) == 0,
    decreases len,
{
    let all = unknowns(len);
    if len == 0 {
        assert(positional(all) == Seq::<char>::empty());
        assert(Seq::new(0, |i: int| '.') == Seq::<char>::empty());
        assert(elsewhere(all) == Seq::<Seq<char>>::empty());
    } else {
        law_open_patterns((len - 1) as nat);
        let fewer = unknowns((len - 1) as nat);
        assert(all.drop_last() == fewer);
        assert(elsewhere(fewer) == Seq::<Seq<char>>::empty()) by {
            lemma_elsewhere_len(fewer);
        }
        assert(pattern_set(Seq::empty(), fewer).last() == positional(fewer));
        assert(positional(fewer) == Seq::new((len - 1) as nat, |i: int| '.'));
        assert(positional(all) == Seq::new(len, |i: int| '.'));
        assert(elsewhere(all) == Seq::<Seq<char>>::empty());
    }
    assert(pattern_set(Seq::empty(), all) == open_patterns(len));
}

/// The characters of each string, in order.
pub open spec fn texts(strings: Seq<String>) -> Seq<Seq<char>> {
    Seq::new(strings.len(), |i: int| strings[i]@)
}

/// Builds the word-wide pattern.
pub fn word_wide_text(dead: &Vec<char>, len: usize) -> (text: Vec<char>)
    ensures
        text@ == word_wide(dead@, len as nat),
{
    let mut text: Vec<char> = Vec::new();
    text.push('^');
    if dead.len() == 0 {
        text.push('.');
        text.push('{');
        assert(text@ == seq!['^', '.', '{']);
    } else {
        text.push('[');
        text.push('^');
        assert(text@ == seq!['^', '[', '^']);
        push_all(&mut text, dead);
        text.push(']');
        text.push('{');
        assert(text@ == seq!['^', '[', '^'] + dead@ + seq![']', '{']);
    }
    let ghost head = text@;
    push_decimal(&mut text, len);
    text.push('}');
    text.push('$');
    assert(text@ == head + decimal(len as nat) + seq!['}', '$']);
    text
}

/// Builds the positional pattern.
pub fn positional_text(states: &Vec<State>) -> (text: Vec<char>)
    ensures
        text@ == positional(views(states@)),
{
    let ghost all = views(states@);
    let mut text: Vec<char> = Vec::new();
    let mut i: usize = 0;
    while i < states.len()
        invariant
            i <= states.len(),
            all == views(states@),
            text@ == positional(all.take(i as int)),
        decreases states.len() - i,
    {
        let ghost before = text@;
        match &states[i] {
            State::Ensured(letter) => {
                text.push(*letter);
                assert(text@ == before + seq![*letter]);
            },
            State::Excluded(here) => {
                text.push('[');
                text.push('^');
                push_all(&mut text, here);
                text.push(']');
                assert(text@ == before + (seq!['[', '^'] + here@ + seq![']']));
            },
            State::Unknown => {
                text.push('.');
                assert(text@ == before + seq!['.']);
            },
        }
        i += 1;
        proof {
            let now = all.take(i as int);
            assert(now.drop_last() == all.take(i - 1));
            assert(now.last() == states@[i - 1]@);
        }
    }
    assert(all.take(states.len() as int) == all);
    text
}

/// Builds the patterns for letters that are elsewhere.
pub fn elsewhere_texts(states: &Vec<State>) -> (out: Vec<String>)
    ensures
        texts(out@) == elsewhere(views(states@)),
{
    let ghost all = views(states@);
    let mut out: Vec<String> = Vec::new();
    let mut i: usize = 0;
    while i < states.len()
        invariant
            i <= states.len(),
            all == views(states@),
            texts(out@) == elsewhere(all.take(i as int)),
        decreases states.len() - i,
    {
        let ghost before = texts(out@);
        match &states[i] {
            State::Excluded(here) => {
                proof {
                    reveal_strlit("|");
                }
                let text = join_chars(here, "|");
                assert("|"@ == seq!['|']);
                out.push(text);
                assert(texts(out@) == before.push(joined(here@, seq!['|'])));
            },
            _ => {},
        }
        i += 1;
        proof {
            let now = all.take(i as int);
            assert(now.drop_last() == all.take(i - 1));
            assert(now.last() == states@[i - 1]@);
        }
    }
    assert(all.take(states.len() as int) == all);
    out
}

} // verus!
