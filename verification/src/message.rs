//! Messages, their indicators, and the text that goes into the machine.
use vstd::prelude::*;
use vstd::string::{StrSliceExecFns, StringExecFns};
use crate::alphabet::{
    all_capital, is_capital, is_capital_letter, is_small, is_small_letter, to_capital,
};
use crate::error::EnigmaError;
use crate::mode::Mode;

verus! {

/// A sample message.
pub const TEXT: &'static str =
    "Wetterbericht null sechs null null. Wind null drei null, Staerke vier. Leichter Regen. \
    Bedeckt. Gelegentlicher Nebel. Drei Liter.";

/// A message: its indicator and its body.
pub struct Message {
    pub indicator: Indicator,
    pub text: String,
}

/// The indicator of a message: the three-symbol message key, or the six
/// symbols in which the key is transmitted.
pub struct Indicator {
    value: String,
}

impl View for Indicator {
    type V = Seq<char>;

    closed spec fn view(&self) -> Seq<char> {
        self.value@
    }
}

impl Indicator {
    /// Checks the length of the indicator against the direction: three
    /// symbols to encrypt, six to decrypt, else `IndicatorLength`.
    pub fn sanity_check(&self, mode: &Mode) -> (result: Result<(), EnigmaError>)
        ensures
            self@.len() == mode.indicator_length() ==> result is Ok,
            self@.len() != mode.indicator_length() ==> result == Err::<(), EnigmaError>(
                EnigmaError::IndicatorLength,
            ),
    {
        let length = self.value.as_str().unicode_len();
        match mode {
            Mode::Decrypt => Self::check_length(length, 6),
            Mode::Encrypt => Self::check_length(length, 3),
        }
    }

    /// An indicator of the given symbols. Nothing is checked here: see
    /// `sanity_check`.
    pub fn new(value: String) -> (indicator: Self)
        ensures
            indicator@ == value@,
    {
        Self { value }
    }

    /// Accepts a length that is the required one, else `IndicatorLength`.
    pub fn check_length(length: usize, required_length: usize) -> (result: Result<
        (),
        EnigmaError,
    >)
        ensures
            length == required_length ==> result is Ok,
            length != required_length ==> result == Err::<(), EnigmaError>(
                EnigmaError::IndicatorLength,
            ),
    {
        if length == required_length {
            Ok(())
        } else {
            Err(EnigmaError::IndicatorLength)
        }
    }

    /// The symbols of the indicator.
    pub fn as_str(&self) -> (value: &str)
        ensures
            value@ == self@,
    {
        self.value.as_str()
    }

    /// The first three symbols. An indicator of fewer than three symbols
    /// has none: `IndicatorLength`.
    pub fn get_first_triplet(&self) -> (result: Result<&str, EnigmaError>)
        ensures
            self@.len() >= 3 ==> (result matches Ok(triplet) && triplet@ == self@.subrange(0, 3)),
            self@.len() < 3 ==> (result matches Err(e) && e == EnigmaError::IndicatorLength),
    {
        let value = self.value.as_str();
        if value.unicode_len() < 3 {
            return Err(EnigmaError::IndicatorLength);
        }
        Ok(value.substring_char(0, 3))
    }

    /// The last three symbols of a six-symbol indicator. An indicator of
    /// any other length has none: `IndicatorLength`.
    pub fn get_second_triplet(&self) -> (result: Result<&str, EnigmaError>)
        ensures
            self@.len() == 6 ==> (result matches Ok(triplet) && triplet@ == self@.subrange(3, 6)),
            self@.len() != 6 ==> (result matches Err(e) && e == EnigmaError::IndicatorLength),
    {
        let value = self.value.as_str();
        if value.unicode_len() != 6 {
            return Err(EnigmaError::IndicatorLength);
        }
        Ok(value.substring_char(3, 6))
    }
}

impl Message {
    /// A message of the given indicator and body.
    pub fn new(indicator: Indicator, text: String) -> (message: Self)
        ensures
            message.indicator == indicator,
            message.text == text,
    {
        Message { indicator, text }
    }

    /// The message as it is shown: the indicator on one line, the body on
    /// the next.
    pub open spec fn spec_to_text(&self) -> Seq<char> {
        "indicator: "@ + self.indicator@ + "  \ntext: "@ + self.text@
    }

    /// The message as it is shown: the indicator on one line, the body on
    /// the next.
    pub fn to_text(&self) -> (shown: String)
        ensures
            shown@ == self.spec_to_text(),
    {
        let mut shown = String::from_str("indicator: ");
        shown.append(self.indicator.as_str());
        shown.append("  \ntext: ");
        shown.append(self.text.as_str());
        shown
    }
}

/// What becomes of one character on the way into the machine: a capital
/// letter stays, a small letter becomes its capital, anything else is
/// dropped.
pub open spec fn preprocessed_char(c: char) -> Option<char> {
    if is_small(c) {
        Some(to_capital(c))
    } else if is_capital(c) {
        Some(c)
    } else {
        None
    }
}

/// What becomes of a text on the way into the machine: each character in
/// turn, as `preprocessed_char` says.
pub open spec fn preprocessed(s: Seq<char>) -> Seq<char>
    decreases s.len(),
{
    if s.len() == 0 {
        Seq::empty()
    } else {
        match preprocessed_char(s.last()) {
            Some(c) => preprocessed(s.drop_last()).push(c),
            None => preprocessed(s.drop_last()),
        }
    }
}

/// A text made ready for the machine holds capital letters only.
pub proof fn lemma_preprocessed_capital(s: Seq<char>)
    ensures
        all_capital(preprocessed(s)),
        preprocessed(s).len() <= s.len(),
        all_capital(s) ==> preprocessed(s) == s,
    decreases s.len(),
{
    if s.len() > 0 {
        lemma_preprocessed_capital(s.drop_last());
        if all_capital(s) {
            assert(is_capital(s[s.len() - 1]));
            assert forall|i: int| 0 <= i < s.drop_last().len() implies is_capital(
                #[trigger] s.drop_last()[i],
            ) by {
                assert(is_capital(s[i]));
            }
            assert(s.drop_last().push(s.last()) =~= s);
        }
    }
}

/// Makes a text ready for the machine: small letters become capitals,
/// capital letters stay, everything else is dropped.
pub fn preprocess_for_enigma(message: &str) -> (result: String)
    ensures
        result@ == preprocessed(message@),
        all_capital(result@),
{
    let mut result = String::new();
    for symbol in chars: message.chars()
        invariant
            chars.seq() == message@,
            result@ == preprocessed(message@.take(chars.index() as int)),
    {
        proof {
            let next = message@.take(chars.index() + 1);
            assert(next.drop_last() =~= message@.take(chars.index() as int));
            assert(next.last() == symbol);
        }
        match preprocess_char(symbol) {
            Some(letter) => result.push(letter),
            None => {},
        }
    }
    proof {
        assert(message@.take(message@.len() as int) =~= message@);
        lemma_preprocessed_capital(message@);
    }
    result
}

/// What becomes of one character on the way into the machine.
pub fn preprocess_char(input: char) -> (result: Option<char>)
    ensures
        result == preprocessed_char(input),
{
    if is_small_letter(input) {
        return Some((input as u8 - 32) as char);
    } else if is_capital_letter(input) {
        return Some(input);
    }
    None
}

} // verus!
