//! Rotors and reflectors: wirings, substitution in both directions, stepping.
use vstd::prelude::*;
use vstd::seq_lib::seq_to_set_is_finite;
use vstd::set_lib::{lemma_int_range, lemma_subset_equality, set_int_range};
use crate::alphabet::{
    all_capital, get_position_in_alphabet, is_capital, is_capital_letter, lemma_wrap, letter_at,
    letter_index, ALPHABET, ASCII_LETTER_A, NUMBER_LETTERS_IN_ALPHABET,
};
use crate::error::EnigmaError;
use crate::source::{get_items_for_id, items_for_id};

verus! {

/// A wiring: the 26 symbols of the alphabet, each exactly once. The symbol
/// at place `i` is what the contact at place `i` is wired to.
pub open spec fn is_wiring(w: Seq<char>) -> bool {
    w.len() == 26 && all_capital(w) && w.no_duplicates()
}

/// The place at which a wiring holds a symbol.
pub open spec fn wiring_place(w: Seq<char>, c: char) -> int {
    choose|i: int| 0 <= i < 26 && w[i] == c
}

/// Every symbol of the alphabet occurs in a wiring.
pub proof fn lemma_wiring_onto(w: Seq<char>, c: char)
    requires
        is_wiring(w),
        is_capital(c),
    ensures
        0 <= wiring_place(w, c) < 26,
        w[wiring_place(w, c)] == c,
{
    let places = Seq::new(26, |i: int| letter_index(w[i]));
    assert(places.no_duplicates()) by {
        assert forall|i: int, j: int|
            0 <= i < places.len() && 0 <= j < places.len() && i != j implies places[i]
            != places[j] by {
            assert(w[i] != w[j]);
        }
    }
    places.unique_seq_to_set();
    seq_to_set_is_finite(places);
    lemma_int_range(0, 26);
    assert(places.to_set().subset_of(set_int_range(0, 26))) by {
        assert forall|v: int| places.to_set().contains(v) implies set_int_range(0, 26).contains(
            v,
        ) by {
            let i = choose|i: int| 0 <= i < places.len() && places[i] == v;
            assert(is_capital(w[i]));
        }
    }
    lemma_subset_equality(places.to_set(), set_int_range(0, 26));
    assert(set_int_range(0, 26).contains(letter_index(c)));
    assert(places.contains(letter_index(c)));
    let i = choose|i: int| 0 <= i < places.len() && places[i] == letter_index(c);
    assert(w[i] == c);
}

/// A symbol occurs in a wiring at one place only.
pub proof fn lemma_wiring_place_unique(w: Seq<char>, i: int)
    requires
        is_wiring(w),
        0 <= i < 26,
    ensures
        wiring_place(w, w[i]) == i,
{
    lemma_wiring_onto(w, w[i]);
}

/// What a rotor is, as plain values: its wiring, the place of its notch, its
/// rotational offset and whether it has stepped onto the notch since the
/// flag was last cleared.
pub struct RotorModel {
    pub wiring: Seq<char>,
    pub notch: int,
    pub position: int,
    pub turnover: bool,
}

impl RotorModel {
    /// The wiring is a permutation of the alphabet; notch and offset are
    /// places of the alphabet.
    pub open spec fn wf(self) -> bool {
        &&& is_wiring(self.wiring)
        &&& 0 <= self.notch < 26
        &&& 0 <= self.position < 26
    }

    /// The symbol that the wiring holds at place `p` shifted by the offset.
    pub open spec fn wired(self, p: int) -> char {
        self.wiring[(p + self.position) % 26]
    }

    /// Forward substitution: the symbol's place is shifted by the offset,
    /// and the wiring is read there.
    pub open spec fn forward(self, c: char) -> char {
        self.wired(letter_index(c))
    }

    /// Reverse substitution: the symbol at the place `p` for which the
    /// wiring, read at `p` shifted by the offset, holds the input.
    pub open spec fn reverse(self, c: char) -> char {
        letter_at(choose|p: int| 0 <= p < 26 && #[trigger] self.wired(p) == c)
    }

    /// The rotor one step on: the offset grows by one, modulo 26, and the
    /// turnover flag is raised where the new offset is the notch.
    pub open spec fn advanced(self) -> RotorModel {
        let position = (self.position + 1) % 26;
        RotorModel { position, turnover: self.turnover || position == self.notch, ..self }
    }

    /// The rotor with its turnover flag cleared.
    pub open spec fn cleared(self) -> RotorModel {
        RotorModel { turnover: false, ..self }
    }

    /// The rotor turned to the given offset; the turnover flag stays.
    pub open spec fn at(self, position: int) -> RotorModel {
        RotorModel { position, ..self }
    }
}

/// The symbol whose place is that of `c` moved by `by` places, modulo 26.
pub open spec fn shifted(c: char, by: int) -> char {
    letter_at((letter_index(c) + by) % 26)
}

/// Counting round the alphabet: moving `position` places back and then
/// `position` places on leads to the same place, and only from there.
proof fn lemma_shift_back(place: int, position: int, other: int)
    requires
        0 <= place < 26,
        0 <= position < 26,
        0 <= other < 26,
    ensures
        0 <= (place - position) % 26 < 26,
        ((place - position) % 26 + position) % 26 == place,
        (other + position) % 26 == place ==> other == (place - position) % 26,
        0 <= (other + position) % 26 < 26,
        ((other + position) % 26 - position) % 26 == other,
{
    lemma_wrap(place - position);
    lemma_wrap((place - position) % 26 + position);
    lemma_wrap(other + position);
    lemma_wrap((other + position) % 26 - position);
}

/// Reverse substitution reads the wiring backwards and takes the offset off
/// again.
pub proof fn lemma_reverse_by_place(r: RotorModel, c: char)
    requires
        r.wf(),
        is_capital(c),
    ensures
        r.reverse(c) == letter_at((wiring_place(r.wiring, c) - r.position) % 26),
        is_capital(r.reverse(c)),
        r.forward(r.reverse(c)) == c,
{
    lemma_wiring_onto(r.wiring, c);
    let k = wiring_place(r.wiring, c);
    let p = (k - r.position) % 26;
    lemma_shift_back(k, r.position, 0);
    assert(r.wired(p) == c);
    let q = choose|q: int| 0 <= q < 26 && #[trigger] r.wired(q) == c;
    assert(0 <= q < 26 && r.wired(q) == c);
    lemma_shift_back(k, r.position, q);
    let at = (q + r.position) % 26;
    lemma_wiring_place_unique(r.wiring, at);
    assert(at == k);
    assert(q == p);
    assert(letter_index(letter_at(p)) == p);
}

/// A rotor maps the alphabet onto itself, and its reverse substitution
/// undoes its forward substitution at the same offset, in both orders.
pub proof fn lemma_rotor_inverse(r: RotorModel, c: char)
    requires
        r.wf(),
        is_capital(c),
    ensures
        is_capital(r.forward(c)),
        is_capital(r.reverse(c)),
        r.reverse(r.forward(c)) == c,
        r.forward(r.reverse(c)) == c,
{
    lemma_reverse_by_place(r, c);
    let i = letter_index(c);
    lemma_shift_back(0, r.position, i);
    let k = (i + r.position) % 26;
    let image = r.wiring[k];
    assert(is_capital(image));
    assert(r.forward(c) == image);
    lemma_reverse_by_place(r, image);
    lemma_wiring_place_unique(r.wiring, k);
    assert(wiring_place(r.wiring, image) == k);
    assert((k - r.position) % 26 == i);
    assert(letter_at(i) == c);
}

/// The rotor that a wiring and a notch symbol make: at offset 0, with the
/// turnover flag down. The wiring must be a permutation of the alphabet
/// (else `MalformedWiring`) and the notch a symbol of it (else
/// `InvalidNotch`).
pub open spec fn rotor_model(mapping: Seq<char>, notch: char) -> Result<RotorModel, EnigmaError> {
    if !is_wiring(mapping) {
        Err(EnigmaError::MalformedWiring)
    } else if !is_capital(notch) {
        Err(EnigmaError::InvalidNotch)
    } else {
        Ok(RotorModel { wiring: mapping, notch: letter_index(notch), position: 0, turnover: false })
    }
}

/// The rotor that a wiring source holds under an identifier.
pub open spec fn rotor_from_source(content: Seq<char>, id: Seq<char>) -> Result<
    RotorModel,
    EnigmaError,
> {
    match items_for_id(content, id) {
        Err(e) => Err(e),
        Ok(data) => rotor_model(data.0, data.1),
    }
}

/// Which way a symbol is moved round the alphabet.
#[derive(Debug, Clone, Copy, PartialEq, Eq, Structural)]
pub enum ShiftDirection {
    Forward,
    Reverse,
}

/// A substitution of one symbol for another.
pub trait Encode: Sized {
    /// The symbol that stands for `input` in the present state.
    spec fn encoded(&self, input: char) -> char;

    /// Substitutes a symbol of the alphabet. Anything else is refused with
    /// `InvalidSymbol`.
    fn encode_char(&self, input: char) -> (output: Result<char, EnigmaError>)
        ensures
            is_capital(input) ==> output == Ok::<char, EnigmaError>(self.encoded(input)),
            !is_capital(input) ==> output == Err::<char, EnigmaError>(EnigmaError::InvalidSymbol),
            output matches Ok(c) ==> is_capital(c),
    ;
}

/// A rotor: a wiring with a turnover notch, turned to an offset.
pub struct Rotor {
    mapping: Vec<char>,
    reverse: Vec<usize>,
    turnover_position: usize,
    position: usize,
    turnover_has_occurred: bool,
}

impl View for Rotor {
    type V = RotorModel;

    closed spec fn view(&self) -> RotorModel {
        RotorModel {
            wiring: self.mapping@,
            notch: self.turnover_position as int,
            position: self.position as int,
            turnover: self.turnover_has_occurred,
        }
    }
}

/// The table that reads a wiring backwards: at the place of each symbol,
/// the place at which the wiring holds it.
pub open spec fn is_reverse_table(wiring: Seq<char>, table: Seq<usize>) -> bool {
    &&& table.len() == 26
    &&& forall|i: int| 0 <= i < 26 ==> #[trigger] table[letter_index(wiring[i])] == i
}

/// A table that reads a wiring backwards holds, at the place of a symbol,
/// the place at which the wiring holds that symbol.
pub proof fn lemma_reverse_table_reads(wiring: Seq<char>, table: Seq<usize>, c: char)
    requires
        is_wiring(wiring),
        is_reverse_table(wiring, table),
        is_capital(c),
    ensures
        table[letter_index(c)] == wiring_place(wiring, c),
        0 <= wiring_place(wiring, c) < 26,
{
    lemma_wiring_onto(wiring, c);
    let k = wiring_place(wiring, c);
    assert(table[letter_index(wiring[k])] == k);
}

/// Reads a wiring string: the 26 symbols of the alphabet, each exactly once.
/// Anything else is refused with `MalformedWiring`.
pub fn mapping_to_vector(mapping: &str) -> (result: Result<Vec<char>, EnigmaError>)
    ensures
        is_wiring(mapping@) ==> (result matches Ok(vec) && vec@ == mapping@),
        !is_wiring(mapping@) ==> (result matches Err(e) && e == EnigmaError::MalformedWiring),
{
    let mut vec: Vec<char> = Vec::new();
    let mut seen: Vec<bool> = Vec::new();
    for _place in 0..NUMBER_LETTERS_IN_ALPHABET
        invariant
            seen@.len() == _place,
            forall|j: int| 0 <= j < seen@.len() ==> !seen@[j],
    {
        seen.push(false);
    }
    for symbol in chars: mapping.chars()
        invariant
            chars.seq() == mapping@,
            vec@ == mapping@.take(chars.index() as int),
            all_capital(vec@),
            vec@.no_duplicates(),
            seen@.len() == 26,
            forall|j: int| 0 <= j < 26 ==> (#[trigger] seen@[j] <==> vec@.contains(letter_at(j))),
    {
        if !is_capital_letter(symbol) {
            assert(!is_capital(mapping@[chars.index() as int]));
            return Err(EnigmaError::MalformedWiring);
        }
        let place = symbol as usize - ASCII_LETTER_A;
        if seen[place] {
            proof {
                assert(vec@.contains(letter_at(place as int)));
                let earlier = choose|k: int| 0 <= k < vec@.len() && vec@[k] == symbol;
                assert(mapping@[earlier] == mapping@[chars.index() as int]);
            }
            return Err(EnigmaError::MalformedWiring);
        }
        let ghost before = vec@;
        seen.set(place, true);
        vec.push(symbol);
        proof {
            assert(vec@ =~= mapping@.take(chars.index() + 1));
            assert forall|j: int| 0 <= j < 26 implies (#[trigger] seen@[j] <==> vec@.contains(
                letter_at(j),
            )) by {
                if j == place {
                    assert(vec@[before.len() as int] == letter_at(j));
                } else if before.contains(letter_at(j)) {
                    let k = choose|k: int| 0 <= k < before.len() && before[k] == letter_at(j);
                    assert(vec@[k] == letter_at(j));
                } else if vec@.contains(letter_at(j)) {
                    let k = choose|k: int| 0 <= k < vec@.len() && vec@[k] == letter_at(j);
                    assert(before[k] == letter_at(j));
                }
            }
            assert(vec@.no_duplicates()) by {
                assert forall|a: int, b: int|
                    0 <= a < vec@.len() && 0 <= b < vec@.len() && a != b implies vec@[a]
                    != vec@[b] by {
                    if a < before.len() && b < before.len() {
                        assert(before[a] != before[b]);
                    } else if a < before.len() {
                        assert(before.contains(before[a]));
                    } else {
                        assert(before.contains(before[b]));
                    }
                }
            }
        }
    }
    assert(vec@ =~= mapping@);
    if vec.len() != NUMBER_LETTERS_IN_ALPHABET {
        return Err(EnigmaError::MalformedWiring);
    }
    Ok(vec)
}

impl Rotor {
    /// What holds of every rotor: its model is in order, and its table for
    /// the reverse substitution fits its wiring.
    #[verifier::type_invariant]
    pub closed spec fn well_formed(&self) -> bool {
        &&& self@.wf()
        &&& is_reverse_table(self.mapping@, self.reverse@)
    }

    /// The model of a rotor is in order.
    pub proof fn lemma_well_formed(&self)
        requires
            self.well_formed(),
        ensures
            self@.wf(),
    {
    }

    /// Builds a rotor at offset 0 with the turnover flag clear.
    ///
    /// The wiring must be a permutation of the alphabet (else
    /// `MalformedWiring`) and the notch a symbol of it (else `InvalidNotch`).
    pub fn new(mapping: &str, turnover_char: char) -> (result: Result<Rotor, EnigmaError>)
        ensures
            rotor_model(mapping@, turnover_char) matches Ok(model) ==> (result matches Ok(rotor)
                && rotor@ == model && rotor@.wf()),
            rotor_model(mapping@, turnover_char) matches Err(error) ==> (result matches Err(e)
                && e == error),
    {
        let chars: Vec<char> = match mapping_to_vector(mapping) {
            Ok(chars) => chars,
            Err(e) => { return Err(e); },
        };
        let turnover_position = match Self::find_turnover_position(turnover_char) {
            Ok(place) => place,
            Err(e) => { return Err(e); },
        };
        let reverse = Self::generate_reverse_map(&chars);
        Ok(
            Rotor {
                mapping: chars,
                reverse,
                turnover_position,
                position: 0,
                turnover_has_occurred: false,
            },
        )
    }

    /// The rotor's offset.
    pub fn get_position(&self) -> (position: usize)
        ensures
            position == self@.position,
            position < 26,
    {
        proof {
            use_type_invariant(self);
        }
        self.position
    }

    /// The offset at which the rotor raises its turnover flag.
    pub fn get_turnover_position(&self) -> (position: usize)
        ensures
            position == self@.notch,
            position < 26,
    {
        proof {
            use_type_invariant(self);
        }
        self.turnover_position
    }

    /// The table that reads the wiring backwards.
    fn generate_reverse_map(vec: &Vec<char>) -> (result: Vec<usize>)
        requires
            is_wiring(vec@),
        ensures
            is_reverse_table(vec@, result@),
    {
        let mut result: Vec<usize> = Vec::new();
        for _place in 0..NUMBER_LETTERS_IN_ALPHABET
            invariant
                result@.len() == _place,
        {
            result.push(0);
        }
        for i in 0..NUMBER_LETTERS_IN_ALPHABET
            invariant
                is_wiring(vec@),
                result@.len() == 26,
                forall|k: int| 0 <= k < i ==> #[trigger] result@[letter_index(vec@[k])] == k,
        {
            let output = vec[i];
            assert(is_capital(output));
            let ghost before = result@;
            result.set(output as usize - ASCII_LETTER_A, i);
            assert forall|k: int| 0 <= k < i + 1 implies #[trigger] result@[letter_index(
                vec@[k],
            )] == k by {
                if k < i {
                    assert(vec@[k] != vec@[i as int]);
                    assert(before[letter_index(vec@[k])] == k);
                }
            }
        }
        result
    }

    /// Whether the rotor has stepped onto its notch since the flag was last
    /// cleared.
    pub fn turnover_has_occurred(&self) -> (flag: bool)
        ensures
            flag == self@.turnover,
    {
        self.turnover_has_occurred
    }

    /// The place of the notch symbol in the alphabet; `InvalidNotch` if it
    /// is no symbol of the alphabet.
    pub fn find_turnover_position(turnover_char: char) -> (result: Result<usize, EnigmaError>)
        ensures
            is_capital(turnover_char) ==> result == Ok::<usize, EnigmaError>(
                letter_index(turnover_char) as usize,
            ),
            !is_capital(turnover_char) ==> result == Err::<usize, EnigmaError>(
                EnigmaError::InvalidNotch,
            ),
    {
        for i in 0..NUMBER_LETTERS_IN_ALPHABET
            invariant
                forall|k: int| 0 <= k < i ==> letter_at(k) != turnover_char,
        {
            if ALPHABET[i] == turnover_char {
                return Ok(i);
            }
        }
        assert(!is_capital(turnover_char)) by {
            if is_capital(turnover_char) {
                assert(letter_at(letter_index(turnover_char)) == turnover_char);
            }
        }
        Err(EnigmaError::InvalidNotch)
    }

    /// Turns the rotor one step on. The turnover flag is raised if the new
    /// offset is the notch, and stays as it was otherwise.
    pub fn increment_position(&mut self)
        ensures
            final(self)@ == old(self)@.advanced(),
            final(self)@.wf(),
    {
        proof {
            use_type_invariant(&*self);
        }
        self.position = (self.position + 1) % NUMBER_LETTERS_IN_ALPHABET;
        if self.position == self.turnover_position {
            self.turnover_has_occurred = true
        }
    }

    /// Turns the rotor to the given offset, which must be below 26 (else
    /// `PositionOutOfRange`, and nothing changes). The turnover flag stays.
    pub fn set_position(&mut self, position: usize) -> (result: Result<(), EnigmaError>)
        ensures
            position < 26 ==> result is Ok && final(self)@ == old(self)@.at(position as int),
            position >= 26 ==> result == Err::<(), EnigmaError>(EnigmaError::PositionOutOfRange)
                && final(self)@ == old(self)@,
            final(self)@.wf(),
    {
        proof {
            use_type_invariant(&*self);
        }
        if position >= NUMBER_LETTERS_IN_ALPHABET {
            return Err(EnigmaError::PositionOutOfRange);
        }
        self.position = position;
        Ok(())
    }

    /// Moves a symbol round the alphabet by the rotor's offset: onwards for
    /// `Forward`, back for `Reverse`. `InvalidSymbol` for anything that is
    /// not a symbol of the alphabet.
    pub fn shift_char_by_position(&self, input: char, direction: ShiftDirection) -> (result:
        Result<char, EnigmaError>)
        ensures
            !is_capital(input) ==> result == Err::<char, EnigmaError>(EnigmaError::InvalidSymbol),
            is_capital(input) && direction == ShiftDirection::Forward ==> result == Ok::<
                char,
                EnigmaError,
            >(shifted(input, self@.position)),
            is_capital(input) && direction == ShiftDirection::Reverse ==> result == Ok::<
                char,
                EnigmaError,
            >(shifted(input, -self@.position)),
            result matches Ok(c) ==> is_capital(c),
    {
        let position = self.get_position();
        if !is_capital_letter(input) {
            return Err(EnigmaError::InvalidSymbol);
        }
        let mut ascii = input as usize - ASCII_LETTER_A;
        match direction {
            ShiftDirection::Forward => ascii += position,
            ShiftDirection::Reverse => ascii += NUMBER_LETTERS_IN_ALPHABET - position,
        }
        assert(direction == ShiftDirection::Forward ==> ascii % 26 == (letter_index(input)
            + position) % 26);
        assert(direction == ShiftDirection::Reverse ==> ascii % 26 == (letter_index(input)
            - position) % 26);
        ascii = ascii % NUMBER_LETTERS_IN_ALPHABET + ASCII_LETTER_A;
        Ok(ascii as u8 as char)
    }

    /// Clears the turnover flag.
    pub fn reset_turnover_state(&mut self)
        ensures
            final(self)@ == old(self)@.cleared(),
            final(self)@.wf(),
    {
        proof {
            use_type_invariant(&*self);
        }
        self.turnover_has_occurred = false;
    }

    /// Builds the rotor that a wiring source holds under an identifier.
    ///
    /// The source is a text of records `ID:WIRING:NOTCH`, one to a line;
    /// lines that begin with `#` are comments. `NotFound` where no record
    /// has the identifier, `MalformedRecord` where the record does not
    /// hold exactly a wiring field and a notch field of one symbol; the
    /// wiring and the notch are held to what `new` asks.
    pub fn from_source(content: &str, id: &str) -> (result: Result<Rotor, EnigmaError>)
        ensures
            rotor_from_source(content@, id@) matches Ok(model) ==> (result matches Ok(rotor)
                && rotor@ == model && rotor@.wf()),
            rotor_from_source(content@, id@) matches Err(error) ==> (result matches Err(e) && e
                == error),
    {
        let items = match get_items_for_id(content, id) {
            Ok(items) => items,
            Err(e) => { return Err(e); },
        };
        let mapping = items.0;
        let turnover_char = items.1;
        Rotor::new(mapping.as_str(), turnover_char)
    }

    /// Reverse substitution at the present offset: the symbol that
    /// `encode_char` maps to `input`. `InvalidSymbol` for anything that is
    /// not a symbol of the alphabet.
    pub fn encode_char_reverse(&self, input: char) -> (output: Result<char, EnigmaError>)
        ensures
            is_capital(input) ==> output == Ok::<char, EnigmaError>(self@.reverse(input)),
            !is_capital(input) ==> output == Err::<char, EnigmaError>(EnigmaError::InvalidSymbol),
            output matches Ok(c) ==> is_capital(c) && self@.forward(c) == input,
    {
        proof {
            use_type_invariant(self);
        }
        if !is_capital_letter(input) {
            return Err(EnigmaError::InvalidSymbol);
        }
        let wired = self.reverse[input as usize - ASCII_LETTER_A];
        proof {
            lemma_reverse_table_reads(self.mapping@, self.reverse@, input);
            lemma_reverse_by_place(self@, input);
        }
        let position = (wired + NUMBER_LETTERS_IN_ALPHABET - self.position)
            % NUMBER_LETTERS_IN_ALPHABET;
        assert(position == (wired - self.position) % 26);
        Ok((position + ASCII_LETTER_A) as u8 as char)
    }
}

impl Encode for Rotor {
    open spec fn encoded(&self, input: char) -> char {
        self@.forward(input)
    }

    /// Forward substitution at the present offset.
    fn encode_char(&self, input: char) -> (output: Result<char, EnigmaError>) {
        proof {
            use_type_invariant(self);
        }
        if !is_capital_letter(input) {
            return Err(EnigmaError::InvalidSymbol);
        }
        let place = (input as usize - ASCII_LETTER_A + self.position) % NUMBER_LETTERS_IN_ALPHABET;
        assert(is_capital(self.mapping@[place as int]));
        Ok(self.mapping[place])
    }
}

/// Some symbol is wired to itself.
pub open spec fn has_fixed_point(w: Seq<char>) -> bool {
    exists|i: int| 0 <= i < 26 && #[trigger] w[i] == letter_at(i)
}

/// The wiring is its own inverse: what a symbol is wired to is wired back
/// to that symbol.
pub open spec fn is_involution(w: Seq<char>) -> bool {
    forall|i: int| 0 <= i < 26 ==> w[letter_index(#[trigger] w[i])] == letter_at(i)
}

/// A reflector wiring: a permutation of the alphabet that is its own
/// inverse and wires no symbol to itself.
pub open spec fn is_reflector_wiring(w: Seq<char>) -> bool {
    is_wiring(w) && !has_fixed_point(w) && is_involution(w)
}

/// The symbol that a reflector wiring answers with.
pub open spec fn reflect(w: Seq<char>, c: char) -> char {
    w[letter_index(c)]
}

/// Reflecting twice gives the symbol back, and no symbol is reflected onto
/// itself.
pub proof fn lemma_reflector_involution(w: Seq<char>, c: char)
    requires
        is_reflector_wiring(w),
        is_capital(c),
    ensures
        is_capital(reflect(w, c)),
        reflect(w, reflect(w, c)) == c,
        reflect(w, c) != c,
{
    let i = letter_index(c);
    assert(is_capital(w[i]));
    assert(w[letter_index(w[i])] == letter_at(i));
    assert(w[i] != letter_at(i));
}

/// The reflector wiring that a wiring string makes. It must be a
/// permutation of the alphabet (else `MalformedWiring`), wire no symbol to
/// itself (else `ReflectorFixedPoint`) and be its own inverse (else
/// `ReflectorNotInvolution`).
pub open spec fn reflector_wiring(mapping: Seq<char>) -> Result<Seq<char>, EnigmaError> {
    if !is_wiring(mapping) {
        Err(EnigmaError::MalformedWiring)
    } else if has_fixed_point(mapping) {
        Err(EnigmaError::ReflectorFixedPoint)
    } else if !is_involution(mapping) {
        Err(EnigmaError::ReflectorNotInvolution)
    } else {
        Ok(mapping)
    }
}

/// The reflector wiring that a wiring source holds under an identifier. A
/// reflector has no notch: its record must hold `_` in place of one, else
/// `InvalidNotch`.
pub open spec fn reflector_from_source(content: Seq<char>, id: Seq<char>) -> Result<
    Seq<char>,
    EnigmaError,
> {
    match items_for_id(content, id) {
        Err(e) => Err(e),
        Ok(data) => if data.1 != '_' {
            Err(EnigmaError::InvalidNotch)
        } else {
            reflector_wiring(data.0)
        },
    }
}

/// A reflector: a fixed wiring without an offset, which is its own inverse
/// and maps no symbol to itself.
pub struct Reflector {
    chars: Vec<char>,
}

impl View for Reflector {
    type V = Seq<char>;

    closed spec fn view(&self) -> Seq<char> {
        self.chars@
    }
}

impl Reflector {
    /// What holds of every reflector: its wiring is a reflector wiring.
    #[verifier::type_invariant]
    pub closed spec fn well_formed(&self) -> bool {
        is_reflector_wiring(self.chars@)
    }

    /// The wiring of a reflector is a reflector wiring.
    pub proof fn lemma_well_formed(&self)
        requires
            self.well_formed(),
        ensures
            is_reflector_wiring(self@),
    {
    }

    /// Builds a reflector from its wiring.
    ///
    /// The wiring must be a permutation of the alphabet (else
    /// `MalformedWiring`), wire no symbol to itself (else
    /// `ReflectorFixedPoint`) and be its own inverse (else
    /// `ReflectorNotInvolution`).
    pub fn new(mapping: &str) -> (result: Result<Reflector, EnigmaError>)
        ensures
            reflector_wiring(mapping@) matches Ok(wiring) ==> (result matches Ok(reflector)
                && reflector@ == wiring && is_reflector_wiring(reflector@)),
            reflector_wiring(mapping@) matches Err(error) ==> (result matches Err(e) && e
                == error),
    {
        let chars: Vec<char> = match mapping_to_vector(mapping) {
            Ok(chars) => chars,
            Err(e) => { return Err(e); },
        };
        for i in 0..NUMBER_LETTERS_IN_ALPHABET
            invariant
                is_wiring(chars@),
                chars@ == mapping@,
                forall|k: int| 0 <= k < i ==> #[trigger] chars@[k] != letter_at(k),
        {
            if chars[i] == ALPHABET[i] {
                return Err(EnigmaError::ReflectorFixedPoint);
            }
        }
        for i in 0..NUMBER_LETTERS_IN_ALPHABET
            invariant
                is_wiring(chars@),
                chars@ == mapping@,
                !has_fixed_point(chars@),
                forall|k: int|
                    0 <= k < i ==> chars@[letter_index(#[trigger] chars@[k])] == letter_at(k),
        {
            let image = chars[i];
            assert(is_capital(image));
            if chars[image as usize - ASCII_LETTER_A] != ALPHABET[i] {
                return Err(EnigmaError::ReflectorNotInvolution);
            }
        }
        Ok(Reflector { chars })
    }

    /// Builds the reflector that a wiring source holds under an identifier.
    ///
    /// The record is looked up as for a rotor. A reflector has no notch:
    /// the record must hold `_` in place of one, else `InvalidNotch`. The
    /// wiring is held to what `new` asks.
    pub fn from_source(content: &str, id: &str) -> (result: Result<Reflector, EnigmaError>)
        ensures
            reflector_from_source(content@, id@) matches Ok(wiring) ==> (result matches Ok(
                reflector,
            ) && reflector@ == wiring && is_reflector_wiring(reflector@)),
            reflector_from_source(content@, id@) matches Err(error) ==> (result matches Err(e)
                && e == error),
    {
        let items = match get_items_for_id(content, id) {
            Ok(items) => items,
            Err(e) => { return Err(e); },
        };
        if items.1 != '_' {
            return Err(EnigmaError::InvalidNotch);
        }
        Reflector::new(items.0.as_str())
    }
}

impl Encode for Reflector {
    open spec fn encoded(&self, input: char) -> char {
        reflect(self@, input)
    }

    /// The symbol that the reflector answers with.
    fn encode_char(&self, input: char) -> (output: Result<char, EnigmaError>) {
        proof {
            use_type_invariant(self);
        }
        let position_in_alphabet = match get_position_in_alphabet(input) {
            Ok(position) => position,
            Err(e) => { return Err(e); },
        };
        assert(is_capital(self.chars@[position_in_alphabet as int]));
        Ok(self.chars[position_in_alphabet])
    }
}

} // verus!
