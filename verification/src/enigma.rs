//! The machine: plugboard and rotor assembly, messages and the indicator
//! protocol that carries the message key.
use vstd::prelude::*;
use vstd::string::{StrSliceExecFns, StringExecFns};
use crate::alphabet::{
    all_capital, get_position_in_alphabet, is_capital, is_capital_letter, letter_index,
};
use crate::error::EnigmaError;
use crate::message::{Indicator, Message};
use crate::mode::Mode;
use crate::plugboard::{
    is_plugboard, lemma_plug_involution, plug, plugboard_from_source, Plugboard,
};
use crate::rotorassembly::{
    default_assembly, lemma_after, lemma_substitute_involution, AssemblyModel, RotorAssembly,
};
use crate::text::is_all_capital;

verus! {

/// What a machine is, as plain values: its rotor assembly and the pairs of
/// its plugboard.
pub struct MachineModel {
    pub assembly: AssemblyModel,
    pub plugboard: Seq<(char, char)>,
}

/// The rotor offsets that a message key stands for: the places of its first
/// three symbols in the alphabet, fastest rotor first.
pub open spec fn key_positions(key: Seq<char>) -> Seq<int> {
    Seq::new(3, |i: int| letter_index(key[i]))
}

impl MachineModel {
    /// The assembly is in order and the pairs make a plugboard.
    pub open spec fn wf(self) -> bool {
        self.assembly.wf() && is_plugboard(self.plugboard)
    }

    /// The machine after `n` steps of its assembly.
    pub open spec fn after(self, n: nat) -> MachineModel {
        MachineModel { assembly: self.assembly.after(n), ..self }
    }

    /// The machine with its rotors turned to the given offsets.
    pub open spec fn with_positions(self, positions: Seq<int>) -> MachineModel {
        MachineModel { assembly: self.assembly.with_positions(positions), ..self }
    }

    /// The substitution at the present offsets: through the plugboard,
    /// through the assembly, and through the plugboard again.
    pub open spec fn substitute(self, c: char) -> char {
        plug(self.plugboard, self.assembly.substitute(plug(self.plugboard, c)))
    }

    /// The text that the machine makes of a text. The machine steps before
    /// each symbol, so symbol `i` is substituted after `i + 1` steps.
    pub open spec fn encode_message(self, text: Seq<char>) -> Seq<char> {
        Seq::new(text.len(), |i: int| self.after((i + 1) as nat).substitute(text[i]))
    }

    /// The indicator that is transmitted for a message key: the key
    /// enciphered twice in succession.
    pub open spec fn encrypted_indicator(self, key: Seq<char>) -> Seq<char> {
        self.encode_message(key + key)
    }

    /// The machine as it stands when the body of a message begins: the six
    /// symbols of the indicator have passed, and the rotors are turned to
    /// the message key.
    pub open spec fn keyed(self, key: Seq<char>) -> MachineModel {
        self.after(6).with_positions(key_positions(key))
    }
}

/// Steps add up.
pub proof fn lemma_after_after(a: AssemblyModel, n: nat, k: nat)
    ensures
        a.after(n).after(k) == a.after(n + k),
    decreases k,
{
    if k > 0 {
        lemma_after_after(a, n, (k - 1) as nat);
    }
}

/// Any number of steps keeps a machine in order.
pub proof fn lemma_machine_after(m: MachineModel, n: nat)
    requires
        m.wf(),
    ensures
        m.after(n).wf(),
{
    lemma_after(m.assembly, n);
}

/// Turning the rotors to offsets below 26 keeps a machine in order.
pub proof fn lemma_machine_with_positions(m: MachineModel, positions: Seq<int>)
    requires
        m.wf(),
        forall|i: int| 0 <= i < 3 ==> 0 <= #[trigger] positions[i] < 26,
    ensures
        m.with_positions(positions).wf(),
{
    assert forall|i: int| 0 <= i < 3 implies (#[trigger] m.with_positions(
        positions,
    ).assembly.rotors[i]).wf() by {
        assert(m.assembly.rotors[i].wf());
    }
}

/// At fixed offsets the substitution of a machine is its own inverse, and
/// no symbol is ever enciphered to itself.
pub proof fn lemma_no_self_mapping(m: MachineModel, c: char)
    requires
        m.wf(),
        is_capital(c),
    ensures
        is_capital(m.substitute(c)),
        m.substitute(m.substitute(c)) == c,
        m.substitute(c) != c,
{
    let plugged = plug(m.plugboard, c);
    lemma_plug_involution(m.plugboard, c);
    lemma_substitute_involution(m.assembly, plugged);
    let turned = m.assembly.substitute(plugged);
    lemma_plug_involution(m.plugboard, turned);
}

/// The machine makes a text of capital letters of a text of capital
/// letters, symbol for symbol.
pub proof fn lemma_encode_message_capital(m: MachineModel, text: Seq<char>)
    requires
        m.wf(),
        all_capital(text),
    ensures
        m.encode_message(text).len() == text.len(),
        all_capital(m.encode_message(text)),
{
    assert forall|i: int| 0 <= i < text.len() implies is_capital(
        #[trigger] m.encode_message(text)[i],
    ) by {
        lemma_machine_after(m, (i + 1) as nat);
        lemma_no_self_mapping(m.after((i + 1) as nat), text[i]);
    }
}

/// Round trip: a machine in the state in which a text was enciphered makes
/// the text again of what came out.
pub proof fn lemma_round_trip(m: MachineModel, text: Seq<char>)
    requires
        m.wf(),
        all_capital(text),
    ensures
        m.encode_message(m.encode_message(text)) == text,
{
    assert forall|i: int| 0 <= i < text.len() implies #[trigger] m.encode_message(
        m.encode_message(text),
    )[i] == text[i] by {
        lemma_machine_after(m, (i + 1) as nat);
        lemma_no_self_mapping(m.after((i + 1) as nat), text[i]);
    }
    assert(m.encode_message(m.encode_message(text)) =~= text);
}

/// No symbol of a text comes out as itself.
pub proof fn lemma_encode_message_differs(m: MachineModel, text: Seq<char>, i: int)
    requires
        m.wf(),
        all_capital(text),
        0 <= i < text.len(),
    ensures
        m.encode_message(text)[i] != text[i],
{
    lemma_machine_after(m, (i + 1) as nat);
    lemma_no_self_mapping(m.after((i + 1) as nat), text[i]);
}

/// A text enciphered in two parts is the text enciphered in one.
pub proof fn lemma_encode_message_split(m: MachineModel, first: Seq<char>, second: Seq<char>)
    ensures
        m.encode_message(first + second) == m.encode_message(first) + m.after(
            first.len(),
        ).encode_message(second),
{
    let whole = m.encode_message(first + second);
    let parts = m.encode_message(first) + m.after(first.len()).encode_message(second);
    assert forall|i: int| 0 <= i < whole.len() implies whole[i] == parts[i] by {
        if i >= first.len() {
            lemma_after_after(m.assembly, first.len(), (i - first.len() + 1) as nat);
        }
    }
    assert(whole =~= parts);
}

/// The indicator protocol: deciphering the transmitted indicator from the
/// same ground state gives the message key twice.
pub proof fn lemma_indicator_round_trip(m: MachineModel, key: Seq<char>)
    requires
        m.wf(),
        key.len() == 3,
        all_capital(key),
    ensures
        m.encrypted_indicator(key).len() == 6,
        all_capital(m.encrypted_indicator(key)),
        m.encode_message(m.encrypted_indicator(key)) == key + key,
        m.encode_message(m.encrypted_indicator(key)).subrange(0, 3) == key,
        m.encode_message(m.encrypted_indicator(key)).subrange(3, 6) == key,
{
    let twice = key + key;
    assert(all_capital(twice));
    lemma_encode_message_capital(m, twice);
    lemma_round_trip(m, twice);
    assert(twice.subrange(0, 3) =~= key);
    assert(twice.subrange(3, 6) =~= key);
}

/// What the check of an indicator against a direction comes to. To
/// encrypt, the indicator must hold three symbols. To decrypt, it is the
/// deciphered form of a transmitted indicator: it must hold six symbols, and
/// its two halves must be equal.
pub open spec fn checked_indicator(indicator: Seq<char>, mode: Mode) -> Result<(), EnigmaError> {
    if indicator.len() != mode.indicator_length() {
        Err(EnigmaError::IndicatorLength)
    } else if mode == Mode::Decrypt && indicator.subrange(0, 3) != indicator.subrange(3, 6) {
        Err(EnigmaError::IndicatorMismatch)
    } else {
        Ok(())
    }
}

/// The machine that is ready for the body of a message is in order.
pub proof fn lemma_keyed(m: MachineModel, key: Seq<char>)
    requires
        m.wf(),
        key.len() >= 3,
        all_capital(key),
    ensures
        m.keyed(key).wf(),
{
    lemma_machine_after(m, 6);
    assert forall|i: int| 0 <= i < 3 implies 0 <= #[trigger] key_positions(key)[i] < 26 by {
        assert(is_capital(key[i]));
    }
    lemma_machine_with_positions(m.after(6), key_positions(key));
}

/// A whole message makes the round trip: the receiver, starting from the
/// ground state from which the sender started, recovers the message key
/// from the transmitted indicator, and with it the body.
pub proof fn lemma_message_round_trip(m: MachineModel, key: Seq<char>, body: Seq<char>)
    requires
        m.wf(),
        key.len() == 3,
        all_capital(key),
        all_capital(body),
    ensures
        ({
            let decoded = m.encode_message(m.encrypted_indicator(key));
            let sent = m.keyed(key).encode_message(body);
            &&& decoded.subrange(0, 3) == decoded.subrange(3, 6)
            &&& decoded.subrange(0, 3) == key
            &&& all_capital(sent)
            &&& m.keyed(decoded.subrange(0, 3)).encode_message(sent) == body
        }),
{
    lemma_indicator_round_trip(m, key);
    lemma_keyed(m, key);
    lemma_encode_message_capital(m.keyed(key), body);
    lemma_round_trip(m.keyed(key), body);
}

/// The machine: a rotor assembly between the two passes through a
/// plugboard.
pub struct Enigma {
    assembly: RotorAssembly,
    plugboard: Plugboard,
}

impl View for Enigma {
    type V = MachineModel;

    closed spec fn view(&self) -> MachineModel {
        MachineModel { assembly: self.assembly@, plugboard: self.plugboard@ }
    }
}

impl Enigma {
    /// Looks at each part once: what holds of every assembly and of every
    /// plugboard then holds of the parts of this machine.
    fn parts_in_order(&self)
        ensures
            self@.wf(),
    {
        self.assembly.parts_in_order();
        proof {
            use_type_invariant(&self.plugboard);
            self.plugboard.lemma_well_formed();
        }
    }

    /// Turns the three rotors to the given offsets, fastest first. Each
    /// offset must be below 26, else `PositionOutOfRange` and nothing
    /// changes.
    pub fn set_positions(&mut self, positions: [usize; 3]) -> (result: Result<(), EnigmaError>)
        ensures
            (forall|i: int| 0 <= i < 3 ==> positions@[i] < 26) ==> result is Ok && final(self)@
                == old(self)@.with_positions(Seq::new(3, |i: int| positions@[i] as int)),
            !(forall|i: int| 0 <= i < 3 ==> positions@[i] < 26) ==> result == Err::<
                (),
                EnigmaError,
            >(EnigmaError::PositionOutOfRange) && final(self)@ == old(self)@,
            final(self)@.wf(),
    {
        self.parts_in_order();
        self.assembly.set_positions(positions)
    }

    /// The offsets of the three rotors, fastest first.
    pub fn get_positions(&self) -> (positions: [usize; 3])
        ensures
            forall|i: int|
                0 <= i < 3 ==> positions@[i] == (#[trigger] self@.assembly.rotors[i]).position,
            forall|i: int| 0 <= i < 3 ==> positions@[i] < 26,
    {
        self.assembly.get_positions()
    }

    /// A machine of the given assembly and plugboard.
    pub fn new(assembly: RotorAssembly, plugboard: Plugboard) -> (machine: Self)
        ensures
            machine@ == (MachineModel { assembly: assembly@, plugboard: plugboard@ }),
            machine@.wf(),
    {
        let machine = Enigma { assembly, plugboard };
        machine.parts_in_order();
        machine
    }

    /// Enciphers one symbol: the machine steps, then the symbol passes the
    /// plugboard, the assembly and the plugboard again.
    ///
    /// Anything that is not a symbol of the alphabet is refused with
    /// `InvalidSymbol`, and the machine does not step. No symbol is ever
    /// enciphered to itself.
    pub fn encode_char(&mut self, input: char) -> (output: Result<char, EnigmaError>)
        ensures
            is_capital(input) ==> output == Ok::<char, EnigmaError>(
                old(self)@.after(1).substitute(input),
            ) && final(self)@ == old(self)@.after(1),
            !is_capital(input) ==> output == Err::<char, EnigmaError>(EnigmaError::InvalidSymbol)
                && final(self)@ == old(self)@,
            output matches Ok(c) ==> is_capital(c) && c != input,
            final(self)@.wf(),
    {
        self.parts_in_order();
        if !is_capital_letter(input) {
            return Err(EnigmaError::InvalidSymbol);
        }
        proof {
            assert(self@.assembly.after(1) == self@.assembly.stepped()) by {
                assert(self@.assembly.after(0) == self@.assembly);
            }
            lemma_machine_after(self@, 1);
            lemma_no_self_mapping(self@.after(1), input);
        }
        let plugged = self.plugboard.encode_char(input);
        let turned = match self.assembly.encode_char(plugged) {
            Ok(symbol) => symbol,
            Err(e) => { return Err(e); },
        };
        Ok(self.plugboard.encode_char(turned))
    }

    /// Enciphers a text, symbol by symbol.
    ///
    /// A text that holds anything but symbols of the alphabet is refused
    /// with `InvalidSymbol`, and the machine does not step.
    pub fn encode_message(&mut self, input: &str) -> (output: Result<String, EnigmaError>)
        ensures
            all_capital(input@) ==> (output matches Ok(text) && text@ == old(
                self,
            )@.encode_message(input@)) && final(self)@ == old(self)@.after(input@.len()),
            !all_capital(input@) ==> (output matches Err(e) && e == EnigmaError::InvalidSymbol)
                && final(self)@ == old(self)@,
            final(self)@.wf(),
    {
        self.parts_in_order();
        if !is_all_capital(input) {
            return Err(EnigmaError::InvalidSymbol);
        }
        let ghost start = self@;
        let mut output = String::new();
        proof {
            assert(start.assembly.after(0) == start.assembly);
            assert(start.after(0) == start);
            assert(start.encode_message(input@.take(0)) =~= output@);
        }
        for symbol in chars: input.chars()
            invariant
                chars.seq() == input@,
                all_capital(input@),
                start.wf(),
                self@.wf(),
                self@ == start.after(chars.index() as nat),
                output@ == start.encode_message(input@.take(chars.index() as int)),
        {
            let ghost done = chars.index();
            assert(is_capital(input@[done as int]));
            proof {
                lemma_after_after(start.assembly, done as nat, 1);
                assert(start.after(done as nat).after(1) == start.after((done + 1) as nat));
            }
            let checked = match sanity_check(symbol) {
                Ok(checked) => checked,
                Err(e) => { return Err(e); },
            };
            match self.encode_char(checked) {
                Ok(encoded) => output.push(encoded),
                Err(e) => { return Err(e); },
            }
            assert(output@ =~= start.encode_message(input@.take(done + 1)));
        }
        assert(input@.take(input@.len() as int) =~= input@);
        Ok(output)
    }

    /// Checks an indicator against the direction. To encrypt, it must hold
    /// three symbols. To decrypt, it is the deciphered form of a
    /// transmitted indicator: it must hold six symbols (either way else
    /// `IndicatorLength`), and its two halves must be equal, else
    /// `IndicatorMismatch`.
    pub fn sanity_check_indicator(indicator: &str, mode: Mode) -> (result: Result<
        (),
        EnigmaError,
    >)
        ensures
            result == checked_indicator(indicator@, mode),
    {
        let length = indicator.unicode_len();
        match mode {
            Mode::Decrypt => {
                if length != 6 {
                    return Err(EnigmaError::IndicatorLength);
                }
                for i in 0..3
                    invariant
                        mode == Mode::Decrypt,
                        indicator@.len() == 6,
                        forall|k: int|
                            0 <= k < i ==> #[trigger] indicator@.subrange(0, 3)[k]
                                == indicator@.subrange(3, 6)[k],
                {
                    if indicator.get_char(i) != indicator.get_char(i + 3) {
                        assert(indicator@.subrange(0, 3)[i as int] != indicator@.subrange(
                            3,
                            6,
                        )[i as int]);
                        return Err(EnigmaError::IndicatorMismatch);
                    }
                }
                assert(indicator@.subrange(0, 3) =~= indicator@.subrange(3, 6));
                Ok(())
            },
            Mode::Encrypt => {
                if length != 3 {
                    return Err(EnigmaError::IndicatorLength);
                }
                Ok(())
            },
        }
    }

    /// Turns the rotors to the message key that an indicator stands for:
    /// its first three symbols, fastest rotor first.
    ///
    /// The indicator must pass `sanity_check_indicator` for the direction,
    /// and its first three symbols must be symbols of the alphabet (else
    /// `InvalidSymbol`). Where it is refused nothing changes.
    pub fn set_indicator(&mut self, indicator: &str, mode: Mode) -> (result: Result<
        (),
        EnigmaError,
    >)
        ensures
            checked_indicator(indicator@, mode) is Err ==> result == checked_indicator(
                indicator@,
                mode,
            ),
            checked_indicator(indicator@, mode) is Ok && !all_capital(indicator@.subrange(0, 3))
                ==> result == Err::<(), EnigmaError>(EnigmaError::InvalidSymbol),
            checked_indicator(indicator@, mode) is Ok && all_capital(indicator@.subrange(0, 3))
                ==> result is Ok && final(self)@ == old(self)@.with_positions(
                key_positions(indicator@),
            ),
            result is Err ==> final(self)@ == old(self)@,
            final(self)@.wf(),
    {
        self.parts_in_order();
        match Self::sanity_check_indicator(indicator, mode) {
            Ok(()) => {},
            Err(e) => { return Err(e); },
        }
        let mut places: Vec<usize> = Vec::new();
        for i in 0..3
            invariant
                checked_indicator(indicator@, mode) is Ok,
                indicator@.len() >= 3,
                *self == *old(self),
                self@.wf(),
                places@.len() == i,
                forall|k: int| 0 <= k < i ==> is_capital(#[trigger] indicator@[k]),
                forall|k: int| 0 <= k < i ==> #[trigger] places@[k] == letter_index(indicator@[k]),
        {
            let place = match get_position_in_alphabet(indicator.get_char(i)) {
                Ok(place) => place,
                Err(e) => {
                    assert(!is_capital(indicator@.subrange(0, 3)[i as int]));
                    return Err(e);
                },
            };
            assert(is_capital(indicator@[i as int]));
            assert(place == letter_index(indicator@[i as int]));
            let ghost before = places@;
            places.push(place);
            assert(forall|k: int| 0 <= k < i ==> places@[k] == before[k]);
        }
        let positions: [usize; 3] = [places[0], places[1], places[2]];
        assert(Seq::new(3, |i: int| positions@[i] as int) =~= key_positions(indicator@));
        assert(all_capital(indicator@.subrange(0, 3))) by {
            assert forall|k: int| 0 <= k < 3 implies is_capital(
                #[trigger] indicator@.subrange(0, 3)[k],
            ) by {
                assert(is_capital(indicator@[k]));
            }
        }
        self.set_positions(positions)
    }

    /// Deciphers a transmitted indicator of six symbols (else
    /// `IndicatorLength`) of the alphabet (else `InvalidSymbol`), starting
    /// from the ground offsets at which the machine stands, and gives the
    /// three-symbol message key.
    ///
    /// The two halves must decipher to the same key. If they do not, the
    /// indicator was corrupted or the ground offsets are wrong:
    /// `IndicatorMismatch`. The machine steps six times, unless the
    /// indicator is refused for its length or its symbols.
    pub fn get_decrypted_indicator(&mut self, vec: &str) -> (result: Result<String, EnigmaError>)
        ensures
            vec@.len() != 6 ==> (result matches Err(e) && e == EnigmaError::IndicatorLength)
                && final(self)@ == old(self)@,
            vec@.len() == 6 && !all_capital(vec@) ==> (result matches Err(e) && e
                == EnigmaError::InvalidSymbol) && final(self)@ == old(self)@,
            vec@.len() == 6 && all_capital(vec@) ==> final(self)@ == old(self)@.after(6) && ({
                let decoded = old(self)@.encode_message(vec@);
                if decoded.subrange(0, 3) == decoded.subrange(3, 6) {
                    result matches Ok(key) && key@ == decoded.subrange(0, 3)
                } else {
                    result matches Err(e) && e == EnigmaError::IndicatorMismatch
                }
            }),
            final(self)@.wf(),
    {
        let decoded = match self.decode_indicator(vec) {
            Ok(decoded) => decoded,
            Err(e) => { return Err(e); },
        };
        match Self::sanity_check_indicator(decoded.as_str(), Mode::Decrypt) {
            Ok(()) => {},
            Err(e) => { return Err(e); },
        }
        Ok(String::from_str(decoded.as_str().substring_char(0, 3)))
    }

    /// Deciphers the six symbols of a transmitted indicator in succession.
    fn decode_indicator(&mut self, vec: &str) -> (result: Result<String, EnigmaError>)
        ensures
            vec@.len() != 6 ==> (result matches Err(e) && e == EnigmaError::IndicatorLength)
                && final(self)@ == old(self)@,
            vec@.len() == 6 && !all_capital(vec@) ==> (result matches Err(e) && e
                == EnigmaError::InvalidSymbol) && final(self)@ == old(self)@,
            vec@.len() == 6 && all_capital(vec@) ==> (result matches Ok(decoded) && decoded@
                == old(self)@.encode_message(vec@) && decoded@.len() == 6 && all_capital(
                decoded@,
            )) && final(self)@ == old(self)@.after(6),
            final(self)@.wf(),
    {
        self.parts_in_order();
        if vec.unicode_len() != 6 {
            return Err(EnigmaError::IndicatorLength);
        }
        proof {
            if all_capital(vec@) {
                lemma_encode_message_capital(self@, vec@);
            }
        }
        self.encode_message(vec)
    }

    /// Enciphers a message key of three symbols (else `IndicatorLength`) of
    /// the alphabet (else `InvalidSymbol`) for transmission: the key is
    /// enciphered twice in succession, starting from the ground offsets at
    /// which the machine stands, and the two results are joined.
    ///
    /// The machine steps six times, unless the key is refused.
    pub fn get_encrypted_indicator(&mut self, vec: &str) -> (result: Result<String, EnigmaError>)
        ensures
            vec@.len() != 3 ==> (result matches Err(e) && e == EnigmaError::IndicatorLength)
                && final(self)@ == old(self)@,
            vec@.len() == 3 && !all_capital(vec@) ==> (result matches Err(e) && e
                == EnigmaError::InvalidSymbol) && final(self)@ == old(self)@,
            vec@.len() == 3 && all_capital(vec@) ==> (result matches Ok(indicator) && indicator@
                == old(self)@.encrypted_indicator(vec@)) && final(self)@ == old(self)@.after(6),
            final(self)@.wf(),
    {
        self.parts_in_order();
        if vec.unicode_len() != 3 {
            return Err(EnigmaError::IndicatorLength);
        }
        let ghost start = self@;
        let mut result1 = match self.encode_message(vec) {
            Ok(text) => text,
            Err(e) => { return Err(e); },
        };
        let result2 = match self.encode_message(vec) {
            Ok(text) => text,
            Err(e) => { return Err(e); },
        };
        result1.append(result2.as_str());
        proof {
            lemma_encode_message_split(start, vec@, vec@);
            lemma_after_after(start.assembly, 3, 3);
        }
        Ok(result1)
    }

    /// Enciphers a message. Its indicator is the message key: three
    /// symbols (else `IndicatorLength`) of the alphabet, and its body holds
    /// symbols of the alphabet only (else `InvalidSymbol`, for either).
    ///
    /// The machine must stand at the ground offsets. The key is enciphered
    /// twice for transmission, the rotors are turned to the key, and the
    /// body is enciphered from there. A message that is refused leaves the
    /// machine as it was.
    pub fn encrypt(&mut self, message: Message) -> (result: Result<Message, EnigmaError>)
        ensures
            message.indicator@.len() != 3 ==> (result matches Err(e) && e
                == EnigmaError::IndicatorLength),
            message.indicator@.len() == 3 && !(all_capital(message.indicator@) && all_capital(
                message.text@,
            )) ==> (result matches Err(e) && e == EnigmaError::InvalidSymbol),
            message.indicator@.len() == 3 && all_capital(message.indicator@) && all_capital(
                message.text@,
            ) ==> (result matches Ok(sent) && sent.indicator@ == old(self)@.encrypted_indicator(
                message.indicator@,
            ) && sent.text@ == old(self)@.keyed(message.indicator@).encode_message(message.text@))
                && final(self)@ == old(self)@.keyed(message.indicator@).after(
                message.text@.len(),
            ),
            result is Err ==> final(self)@ == old(self)@,
            final(self)@.wf(),
    {
        self.parts_in_order();
        match message.indicator.sanity_check(&Mode::Encrypt) {
            Ok(()) => {},
            Err(e) => { return Err(e); },
        }
        if !is_all_capital(message.indicator.as_str()) || !is_all_capital(
            message.text.as_str(),
        ) {
            return Err(EnigmaError::InvalidSymbol);
        }
        proof {
            assert(message.indicator@.subrange(0, 3) =~= message.indicator@);
        }
        let encrypted_indicator = match self.get_encrypted_indicator(message.indicator.as_str()) {
            Ok(indicator) => indicator,
            Err(e) => { return Err(e); },
        };
        match self.set_indicator(message.indicator.as_str(), Mode::Encrypt) {
            Ok(()) => {},
            Err(e) => { return Err(e); },
        }
        let text = match self.encode_message(message.text.as_str()) {
            Ok(text) => text,
            Err(e) => { return Err(e); },
        };
        Ok(Message::new(Indicator::new(encrypted_indicator), text))
    }

    /// Deciphers a message. Its indicator is the transmitted form of the
    /// message key: six symbols (else `IndicatorLength`) of the alphabet,
    /// and its body holds symbols of the alphabet only (else
    /// `InvalidSymbol`, for either). A message refused for one of these
    /// leaves the machine as it was.
    ///
    /// The machine must stand at the ground offsets. The indicator is
    /// deciphered; its two halves must give the same key, else
    /// `IndicatorMismatch`, with the machine six steps on. The rotors are
    /// turned to the key and the body is deciphered from there. The message
    /// that comes back carries the key as its indicator.
    pub fn decrypt(&mut self, message: Message) -> (result: Result<Message, EnigmaError>)
        ensures
            message.indicator@.len() != 6 ==> (result matches Err(e) && e
                == EnigmaError::IndicatorLength) && final(self)@ == old(self)@,
            message.indicator@.len() == 6 && !(all_capital(message.indicator@) && all_capital(
                message.text@,
            )) ==> (result matches Err(e) && e == EnigmaError::InvalidSymbol) && final(self)@
                == old(self)@,
            message.indicator@.len() == 6 && all_capital(message.indicator@) && all_capital(
                message.text@,
            ) ==> ({
                let decoded = old(self)@.encode_message(message.indicator@);
                let key = decoded.subrange(0, 3);
                if key == decoded.subrange(3, 6) {
                    &&& result matches Ok(read)
                    &&& read.indicator@ == key
                    &&& read.text@ == old(self)@.keyed(key).encode_message(message.text@)
                    &&& final(self)@ == old(self)@.keyed(key).after(message.text@.len())
                } else {
                    &&& result matches Err(e)
                    &&& e == EnigmaError::IndicatorMismatch
                    &&& final(self)@ == old(self)@.after(6)
                }
            }),
            final(self)@.wf(),
    {
        self.parts_in_order();
        match message.indicator.sanity_check(&Mode::Decrypt) {
            Ok(()) => {},
            Err(e) => { return Err(e); },
        }
        if !is_all_capital(message.indicator.as_str()) || !is_all_capital(
            message.text.as_str(),
        ) {
            return Err(EnigmaError::InvalidSymbol);
        }
        let decrypted_indicator = match self.decode_indicator(message.indicator.as_str()) {
            Ok(decoded) => decoded,
            Err(e) => { return Err(e); },
        };
        proof {
            assert(all_capital(decrypted_indicator@.subrange(0, 3))) by {
                assert forall|i: int| 0 <= i < 3 implies is_capital(
                    #[trigger] decrypted_indicator@.subrange(0, 3)[i],
                ) by {
                    assert(is_capital(decrypted_indicator@[i]));
                }
            }
            assert(key_positions(decrypted_indicator@) =~= key_positions(
                decrypted_indicator@.subrange(0, 3),
            ));
        }
        match self.set_indicator(decrypted_indicator.as_str(), Mode::Decrypt) {
            Ok(()) => {},
            Err(e) => { return Err(e); },
        }
        let text = match self.encode_message(message.text.as_str()) {
            Ok(text) => text,
            Err(e) => { return Err(e); },
        };
        let key = String::from_str(decrypted_indicator.as_str().substring_char(0, 3));
        Ok(Message::new(Indicator::new(key), text))
    }
}

/// The machine that two sources and three offsets make: the plugboard of
/// the plugboard source, rotors `I`, `II` and `III` and reflector `B` of the
/// wiring source, and the rotors turned to the offsets, fastest first. What
/// is wrong with the plugboard source comes first, then what is wrong with
/// the wiring source, then an offset that is not below 26.
pub open spec fn built_machine(wirings: Seq<char>, pairs: Seq<char>, settings: Seq<usize>) -> Result<
    MachineModel,
    EnigmaError,
> {
    match plugboard_from_source(pairs) {
        Err(e) => Err(e),
        Ok(plugboard) => match default_assembly(wirings) {
            Err(e) => Err(e),
            Ok(assembly) => if forall|i: int| 0 <= i < 3 ==> settings[i] < 26 {
                Ok(
                    MachineModel {
                        assembly: assembly.with_positions(Seq::new(3, |i: int| settings[i] as int)),
                        plugboard,
                    },
                )
            } else {
                Err(EnigmaError::PositionOutOfRange)
            },
        },
    }
}

/// Builds a machine from a wiring source and a plugboard source, with its
/// rotors turned to the given offsets.
pub fn build_enigma(wirings: &str, pairs: &str, settings: [usize; 3]) -> (result: Result<
    Enigma,
    EnigmaError,
>)
    ensures
        built_machine(wirings@, pairs@, settings@) matches Ok(model) ==> (result matches Ok(
            machine,
        ) && machine@ == model && machine@.wf()),
        built_machine(wirings@, pairs@, settings@) matches Err(error) ==> (result matches Err(e)
            && e == error),
{
    let plugboard = match Plugboard::from_source(pairs) {
        Ok(plugboard) => plugboard,
        Err(e) => { return Err(e); },
    };
    let mut assembly = match RotorAssembly::new_default(wirings) {
        Ok(assembly) => assembly,
        Err(e) => { return Err(e); },
    };
    match assembly.set_positions(settings) {
        Ok(()) => {},
        Err(e) => { return Err(e); },
    }
    Ok(Enigma::new(assembly, plugboard))
}

/// Accepts a symbol of the alphabet and hands it back; anything else is
/// refused with `InvalidSymbol`.
pub fn sanity_check(input: char) -> (result: Result<char, EnigmaError>)
    ensures
        is_capital(input) ==> result == Ok::<char, EnigmaError>(input),
        !is_capital(input) ==> result == Err::<char, EnigmaError>(EnigmaError::InvalidSymbol),
{
    if !is_capital_letter(input) {
        return Err(EnigmaError::InvalidSymbol);
    }
    Ok(input)
}

} // verus!
