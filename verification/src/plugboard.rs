//! The plugboard: a few disjoint pairs of symbols that are swapped.
use vstd::prelude::*;
use vstd::string::StrSliceExecFns;
use crate::alphabet::{
    is_capital, is_capital_letter, letter_at, ASCII_LETTER_A, NUMBER_LETTERS_IN_ALPHABET,
};
use crate::error::EnigmaError;
use crate::text::{lines, lines_of, piece_views, to_chars, to_text};

verus! {

/// Two different symbols of the alphabet.
pub open spec fn is_pair(pair: (char, char)) -> bool {
    is_capital(pair.0) && is_capital(pair.1) && pair.0 != pair.1
}

/// The symbol is one of the two of the pair.
pub open spec fn pair_has(pair: (char, char), c: char) -> bool {
    c == pair.0 || c == pair.1
}

/// The other symbol of a pair that holds `c`.
pub open spec fn partner(pair: (char, char), c: char) -> char {
    if c == pair.0 {
        pair.1
    } else {
        pair.0
    }
}

/// No symbol sits in two pairs.
pub open spec fn disjoint_pairs(pairs: Seq<(char, char)>) -> bool {
    forall|i: int, j: int|
        #![trigger pairs[i], pairs[j]]
        0 <= i < j < pairs.len() ==> !pair_has(pairs[j], pairs[i].0) && !pair_has(
            pairs[j],
            pairs[i].1,
        )
}

/// A plugboard: at most ten pairs of symbols, no symbol in two of them.
pub open spec fn is_plugboard(pairs: Seq<(char, char)>) -> bool {
    &&& pairs.len() <= 10
    &&& forall|i: int| 0 <= i < pairs.len() ==> is_pair(#[trigger] pairs[i])
    &&& disjoint_pairs(pairs)
}

/// Some pair holds the symbol.
pub open spec fn is_plugged(pairs: Seq<(char, char)>, c: char) -> bool {
    exists|i: int| 0 <= i < pairs.len() && pair_has(#[trigger] pairs[i], c)
}

/// What the plugboard makes of a symbol: its partner if it is paired, the
/// symbol itself if not.
pub open spec fn plug(pairs: Seq<(char, char)>, c: char) -> char {
    if is_plugged(pairs, c) {
        partner(pairs[choose|i: int| 0 <= i < pairs.len() && pair_has(#[trigger] pairs[i], c)], c)
    } else {
        c
    }
}

/// On a plugboard the pair that holds a symbol decides what becomes of it.
pub proof fn lemma_plug_by_pair(pairs: Seq<(char, char)>, i: int, c: char)
    requires
        is_plugboard(pairs),
        0 <= i < pairs.len(),
        pair_has(pairs[i], c),
    ensures
        plug(pairs, c) == partner(pairs[i], c),
{
    let k = choose|k: int| 0 <= k < pairs.len() && pair_has(#[trigger] pairs[k], c);
    if k < i {
        assert(!pair_has(pairs[i], pairs[k].0) && !pair_has(pairs[i], pairs[k].1));
    } else if i < k {
        assert(!pair_has(pairs[k], pairs[i].0) && !pair_has(pairs[k], pairs[i].1));
    }
}

/// Plugging twice gives the symbol back; a symbol that no pair holds is
/// left as it is; symbols of the alphabet stay in the alphabet.
pub proof fn lemma_plug_involution(pairs: Seq<(char, char)>, c: char)
    requires
        is_plugboard(pairs),
    ensures
        plug(pairs, plug(pairs, c)) == c,
        !is_plugged(pairs, c) ==> plug(pairs, c) == c,
        is_capital(c) ==> is_capital(plug(pairs, c)),
{
    if is_plugged(pairs, c) {
        let i = choose|i: int| 0 <= i < pairs.len() && pair_has(#[trigger] pairs[i], c);
        assert(is_pair(pairs[i]));
        lemma_plug_by_pair(pairs, i, partner(pairs[i], c));
    }
}

/// The pair that two symbols make. Two equal symbols are refused with
/// `IdenticalPair`, a character outside the alphabet with `InvalidSymbol`.
pub open spec fn pair_of(char0: char, char1: char) -> Result<(char, char), EnigmaError> {
    if char0 == char1 {
        Err(EnigmaError::IdenticalPair)
    } else if !(is_capital(char0) && is_capital(char1)) {
        Err(EnigmaError::InvalidSymbol)
    } else {
        Ok((char0, char1))
    }
}

/// The pair that a line of a plugboard source stands for. The line must
/// hold exactly two symbols, else `MalformedRecord`.
pub open spec fn pair_from_line(line: Seq<char>) -> Result<(char, char), EnigmaError> {
    if line.len() != 2 {
        Err(EnigmaError::MalformedRecord)
    } else {
        pair_of(line[0], line[1])
    }
}

/// The pairs that the lines of a plugboard source stand for, or what is
/// wrong with the first line that stands for none.
pub open spec fn pairs_from_lines(lines: Seq<Seq<char>>) -> Result<Seq<(char, char)>, EnigmaError>
    decreases lines.len(),
{
    if lines.len() == 0 {
        Ok(Seq::empty())
    } else {
        match pairs_from_lines(lines.drop_last()) {
            Err(e) => Err(e),
            Ok(pairs) => match pair_from_line(lines.last()) {
                Err(e) => Err(e),
                Ok(pair) => Ok(pairs.push(pair)),
            },
        }
    }
}

/// The plugboard that a list of pairs makes. More than ten pairs are
/// refused with `TooManyPairs`, a symbol in two pairs with
/// `DuplicateSymbol`.
pub open spec fn plugboard_of(pairs: Seq<(char, char)>) -> Result<Seq<(char, char)>, EnigmaError> {
    if pairs.len() > 10 {
        Err(EnigmaError::TooManyPairs)
    } else if !disjoint_pairs(pairs) {
        Err(EnigmaError::DuplicateSymbol)
    } else {
        Ok(pairs)
    }
}

/// The plugboard that a plugboard source stands for: one pair to a line.
pub open spec fn plugboard_from_source(content: Seq<char>) -> Result<
    Seq<(char, char)>,
    EnigmaError,
> {
    match pairs_from_lines(lines_of(content)) {
        Err(e) => Err(e),
        Ok(pairs) => plugboard_of(pairs),
    }
}

/// What is wrong with the first lines of a source is wrong with the source.
pub proof fn lemma_pairs_from_lines_error(lines: Seq<Seq<char>>, n: int)
    requires
        0 <= n <= lines.len(),
        pairs_from_lines(lines.take(n)) is Err,
    ensures
        pairs_from_lines(lines) == pairs_from_lines(lines.take(n)),
    decreases lines.len() - n,
{
    if n < lines.len() {
        assert(lines.take(n + 1).drop_last() =~= lines.take(n));
        lemma_pairs_from_lines_error(lines, n + 1);
    } else {
        assert(lines.take(n) =~= lines);
    }
}

/// Two symbols that the plugboard swaps.
pub struct Pair {
    char0: char,
    char1: char,
}

impl View for Pair {
    type V = (char, char);

    closed spec fn view(&self) -> (char, char) {
        (self.char0, self.char1)
    }
}

impl Pair {
    #[verifier::type_invariant]
    spec fn inv(&self) -> bool {
        is_pair(self@)
    }

    /// Whether the symbol is one of the two.
    pub fn contains(&self, input: char) -> (result: bool)
        ensures
            result == pair_has(self@, input),
    {
        input == self.char0 || input == self.char1
    }

    /// The other symbol of the pair, if `input` is one of the two.
    pub fn swap(&self, input: char) -> (result: Option<char>)
        ensures
            pair_has(self@, input) ==> result == Some(partner(self@, input)),
            !pair_has(self@, input) ==> result.is_none(),
    {
        if input == self.char0 {
            Some(self.char1)
        } else if input == self.char1 {
            Some(self.char0)
        } else {
            None
        }
    }

    /// A pair of two different symbols of the alphabet. Two equal symbols
    /// are refused with `IdenticalPair`, a character outside the alphabet
    /// with `InvalidSymbol`.
    pub fn new(char0: char, char1: char) -> (result: Result<Pair, EnigmaError>)
        ensures
            pair_of(char0, char1) matches Ok(symbols) ==> (result matches Ok(pair) && pair@
                == symbols && is_pair(pair@)),
            pair_of(char0, char1) matches Err(error) ==> (result matches Err(e) && e == error),
    {
        if char0 == char1 {
            return Err(EnigmaError::IdenticalPair);
        }
        match Self::assert_capital_letter(char0) {
            Ok(()) => {},
            Err(e) => { return Err(e); },
        }
        match Self::assert_capital_letter(char1) {
            Ok(()) => {},
            Err(e) => { return Err(e); },
        }
        Ok(Pair { char0, char1 })
    }

    /// Accepts a symbol of the alphabet, refuses anything else with
    /// `InvalidSymbol`.
    pub fn assert_capital_letter(input: char) -> (result: Result<(), EnigmaError>)
        ensures
            is_capital(input) ==> result is Ok,
            !is_capital(input) ==> result == Err::<(), EnigmaError>(EnigmaError::InvalidSymbol),
    {
        if is_capital_letter(input) {
            Ok(())
        } else {
            Err(EnigmaError::InvalidSymbol)
        }
    }
}

/// The pairs of a list, as plain values.
pub open spec fn pair_views(pairs: Seq<Pair>) -> Seq<(char, char)> {
    Seq::new(pairs.len(), |i: int| pairs[i]@)
}

/// A plugboard: a few pairs of symbols that are swapped on the way into the
/// rotors and on the way out.
pub struct Plugboard {
    pairs: Vec<Pair>,
}

impl View for Plugboard {
    type V = Seq<(char, char)>;

    closed spec fn view(&self) -> Seq<(char, char)> {
        pair_views(self.pairs@)
    }
}

impl Plugboard {
    /// What holds of every plugboard: its pairs make a plugboard.
    #[verifier::type_invariant]
    pub closed spec fn well_formed(&self) -> bool {
        is_plugboard(self@)
    }

    /// The pairs of a plugboard make a plugboard.
    pub proof fn lemma_well_formed(&self)
        requires
            self.well_formed(),
        ensures
            is_plugboard(self@),
    {
    }

    /// Builds the plugboard that a plugboard source stands for. Each line
    /// of the source holds the two symbols of one pair; the pairs are held
    /// to what `new` asks.
    pub fn from_source(content: &str) -> (result: Result<Plugboard, EnigmaError>)
        ensures
            plugboard_from_source(content@) matches Ok(swapped) ==> (result matches Ok(plugboard)
                && plugboard@ == swapped && is_plugboard(plugboard@)),
            plugboard_from_source(content@) matches Err(error) ==> (result matches Err(e) && e
                == error),
    {
        let mut pairs: Vec<Pair> = Vec::new();
        let all = lines(&to_chars(content));
        let ghost records = piece_views(all@);
        assert(records.take(0).len() == 0);
        assert(pair_views(pairs@) =~= Seq::<(char, char)>::empty());
        for i in 0..all.len()
            invariant
                records == piece_views(all@),
                records == lines_of(content@),
                pairs_from_lines(records.take(i as int)) == Ok::<Seq<(char, char)>, EnigmaError>(
                    pair_views(pairs@),
                ),
        {
            proof {
                assert(records.take(i + 1).drop_last() =~= records.take(i as int));
                assert(records.take(i + 1).last() == all@[i as int]@);
            }
            let ghost before = pair_views(pairs@);
            let line = to_text(&all[i]);
            match Self::get_pair_from_line(line.as_str()) {
                Ok(pair) => {
                    pairs.push(pair);
                    assert(pair_views(pairs@) =~= before.push(pair@));
                },
                Err(e) => {
                    proof {
                        lemma_pairs_from_lines_error(records, i + 1);
                    }
                    return Err(e);
                },
            }
        }
        assert(records.take(records.len() as int) =~= records);
        Self::new(pairs)
    }

    /// Reads one pair from a line of a plugboard source: the line must hold
    /// exactly two symbols, else `MalformedRecord`, and the two must make a
    /// pair.
    pub fn get_pair_from_line(line: &str) -> (result: Result<Pair, EnigmaError>)
        ensures
            pair_from_line(line@) matches Ok(symbols) ==> (result matches Ok(pair) && pair@
                == symbols),
            pair_from_line(line@) matches Err(error) ==> (result matches Err(e) && e == error),
    {
        if line.unicode_len() != 2 {
            return Err(EnigmaError::MalformedRecord);
        }
        let char0 = line.get_char(0);
        let char1 = line.get_char(1);
        Pair::new(char0, char1)
    }

    /// A plugboard of the given pairs. More than ten pairs are refused with
    /// `TooManyPairs`, a symbol in two pairs with `DuplicateSymbol`. A
    /// plugboard without pairs is in order: it swaps nothing.
    pub fn new(pairs: Vec<Pair>) -> (result: Result<Plugboard, EnigmaError>)
        ensures
            plugboard_of(pair_views(pairs@)) matches Ok(swapped) ==> (result matches Ok(plugboard)
                && plugboard@ == swapped && is_plugboard(plugboard@)),
            plugboard_of(pair_views(pairs@)) matches Err(error) ==> (result matches Err(e) && e
                == error),
    {
        match Self::sanity_check(pairs.as_slice()) {
            Ok(()) => {},
            Err(e) => { return Err(e); },
        }
        Ok(Plugboard { pairs })
    }

    /// Checks that the pairs make a plugboard: at most ten of them (else
    /// `TooManyPairs`), and no symbol in two of them (else
    /// `DuplicateSymbol`).
    pub fn sanity_check(items: &[Pair]) -> (result: Result<(), EnigmaError>)
        ensures
            items@.len() > 10 ==> result == Err::<(), EnigmaError>(EnigmaError::TooManyPairs),
            items@.len() <= 10 && !disjoint_pairs(pair_views(items@)) ==> result == Err::<
                (),
                EnigmaError,
            >(EnigmaError::DuplicateSymbol),
            items@.len() <= 10 && disjoint_pairs(pair_views(items@)) ==> result is Ok,
            result is Ok ==> is_plugboard(pair_views(items@)),
    {
        if items.len() > 10 {
            return Err(EnigmaError::TooManyPairs);
        }
        let ghost views = pair_views(items@);
        let mut seen: Vec<bool> = Vec::new();
        for _place in 0..NUMBER_LETTERS_IN_ALPHABET
            invariant
                seen@.len() == _place,
                forall|j: int| 0 <= j < seen@.len() ==> !seen@[j],
        {
            seen.push(false);
        }
        for i in 0..items.len()
            invariant
                items@.len() <= 10,
                views == pair_views(items@),
                seen@.len() == 26,
                forall|k: int| 0 <= k < i ==> is_pair(#[trigger] views[k]),
                disjoint_pairs(views.take(i as int)),
                forall|j: int|
                    0 <= j < 26 ==> (#[trigger] seen@[j] <==> is_plugged(
                        views.take(i as int),
                        letter_at(j),
                    )),
        {
            let pair = &items[i];
            proof {
                use_type_invariant(pair);
                assert(pair@ == views[i as int]);
            }
            let place0 = pair.char0 as usize - ASCII_LETTER_A;
            let place1 = pair.char1 as usize - ASCII_LETTER_A;
            if seen[place0] || seen[place1] {
                proof {
                    let c = if seen@[place0 as int] {
                        pair.char0
                    } else {
                        pair.char1
                    };
                    assert(is_plugged(views.take(i as int), c));
                    let k = choose|k: int|
                        0 <= k < views.take(i as int).len() && pair_has(
                            #[trigger] views.take(i as int)[k],
                            c,
                        );
                    assert(views.take(i as int)[k] == views[k]);
                    assert(pair_has(views[i as int], views[k].0) || pair_has(
                        views[i as int],
                        views[k].1,
                    ));
                }
                return Err(EnigmaError::DuplicateSymbol);
            }
            let ghost before = seen@;
            seen.set(place0, true);
            seen.set(place1, true);
            proof {
                let done = views.take(i as int);
                let next = views.take(i + 1);
                assert(next.len() == i + 1);
                assert(next[i as int] == views[i as int]);
                assert forall|k: int| 0 <= k < i implies #[trigger] next[k] == done[k] by {}
                assert(disjoint_pairs(next)) by {
                    assert forall|a: int, b: int|
                        #![trigger next[a], next[b]]
                        0 <= a < b < next.len() implies !pair_has(next[b], next[a].0)
                        && !pair_has(next[b], next[a].1) by {
                        if b < i {
                            assert(next[a] == done[a] && next[b] == done[b]);
                            assert(!pair_has(done[b], done[a].0) && !pair_has(done[b], done[a].1));
                        } else {
                            assert(next[a] == done[a]);
                            assert(is_pair(views[a]));
                            if pair_has(next[b], next[a].0) {
                                assert(pair_has(done[a], next[a].0));
                                assert(is_plugged(done, next[a].0));
                                assert(next[a].0 == letter_at(place0 as int) || next[a].0
                                    == letter_at(place1 as int));
                            }
                            if pair_has(next[b], next[a].1) {
                                assert(pair_has(done[a], next[a].1));
                                assert(is_plugged(done, next[a].1));
                                assert(next[a].1 == letter_at(place0 as int) || next[a].1
                                    == letter_at(place1 as int));
                            }
                        }
                    }
                }
                assert forall|j: int| 0 <= j < 26 implies (#[trigger] seen@[j] <==> is_plugged(
                    next,
                    letter_at(j),
                )) by {
                    let c = letter_at(j);
                    if j == place0 || j == place1 {
                        assert(pair_has(next[i as int], c));
                    } else if before[j] {
                        let k = choose|k: int|
                            0 <= k < done.len() && pair_has(#[trigger] done[k], c);
                        assert(pair_has(next[k], c));
                    } else if is_plugged(next, c) {
                        let k = choose|k: int|
                            0 <= k < next.len() && pair_has(#[trigger] next[k], c);
                        if k < i {
                            assert(pair_has(done[k], c));
                            assert(is_plugged(done, c));
                        }
                    }
                }
            }
        }
        assert(views.take(items@.len() as int) =~= views);
        Ok(())
    }

    /// What the plugboard makes of a symbol: its partner if it is paired,
    /// the symbol itself if not.
    pub fn encode_char(&self, input: char) -> (output: char)
        ensures
            output == plug(self@, input),
            is_capital(input) ==> is_capital(output),
    {
        proof {
            use_type_invariant(self);
            lemma_plug_involution(self@, input);
        }
        for i in 0..self.pairs.len()
            invariant
                is_plugboard(self@),
                forall|k: int| 0 <= k < i ==> !pair_has(#[trigger] self@[k], input),
        {
            let pair = &self.pairs[i];
            assert(pair@ == self@[i as int]);
            if pair.contains(input) {
                proof {
                    lemma_plug_by_pair(self@, i as int, input);
                }
                return if input == pair.char0 {
                    pair.char1
                } else {
                    pair.char0
                };
            }
        }
        input
    }
}

} // verus!
