use enigma::alphabet::{ALPHABET, NUMBER_LETTERS_IN_ALPHABET};
use enigma::error::EnigmaError;
use enigma::rotor::{Encode, Reflector, Rotor, ShiftDirection};

const WIRINGS: &str = "# machine I\n\
I:EKMFLGDQVZNTOWYHXUSPAIBRCJ:R\n\
II:AJDKSIRUXBLHWTMCQGZNPYFVOE:F\n\
III:BDFHJLCPRTXVZNYEIWGAKMUSQO:W\n\
# reflectors\n\
B:YRUHQSLDPXNGOKMIEBFZCWVJAT:_\n";

fn get_reflector_rotor_instance() -> Reflector {
    Reflector::from_source(WIRINGS, "B").unwrap()
}

fn get_cypher_rotor_instance() -> Rotor {
    Rotor::from_source(WIRINGS, "I").unwrap()
}

#[test]
fn are_mappings_valid() {
    let vec = vec!["I", "II", "III"];
    for id in vec {
        assert!(Rotor::from_source(WIRINGS, id).is_ok());
    }
    assert!(Reflector::from_source(WIRINGS, "B").is_ok());
}

#[test]
#[allow(unused_assignments)]
fn increment_position() {
    let mut rotor = get_cypher_rotor_instance();

    let start_position = 0;
    rotor.set_position(start_position).unwrap();
    let mut old_position = start_position;
    let mut new_position = start_position;

    assert!(!rotor.turnover_has_occurred());

    for _ in 0..NUMBER_LETTERS_IN_ALPHABET {
        rotor.increment_position();

        new_position = rotor.get_position();
        assert_eq!(
            (old_position + 1) % NUMBER_LETTERS_IN_ALPHABET,
            new_position
        );

        if new_position == rotor.get_turnover_position() {
            assert!(rotor.turnover_has_occurred());
            rotor.reset_turnover_state();
        } else {
            assert!(!rotor.turnover_has_occurred())
        }

        old_position = new_position;
    }
    assert_eq!(rotor.get_position(), start_position);
}

#[test]
fn pass_turnover_char() {
    let mut rotor = get_cypher_rotor_instance();
    rotor.set_position(16).unwrap(); // letter Q
    rotor.increment_position(); // letter R
    assert!(rotor.turnover_has_occurred())
}

#[test]
fn reflector_is_reversible() {
    for input in 'A'..='Z' {
        let reflector = get_reflector_rotor_instance();

        let cypher = reflector.encode_char(input).unwrap();
        let output = reflector.encode_char(cypher).unwrap();

        assert_ne!(input, cypher);
        assert_eq!(input, output);
    }
}

#[test]
fn cypher_rotor_is_reversible() {
    let mut rotor = get_cypher_rotor_instance();
    for input in ALPHABET {
        for pos in 0..NUMBER_LETTERS_IN_ALPHABET {
            rotor.set_position(pos).unwrap();
            let cypher = rotor.encode_char(input).unwrap();
            rotor.set_position(pos).unwrap();
            let decoded = rotor.encode_char_reverse(cypher).unwrap();
            assert_eq!(input, decoded);
        }
    }
}

#[test]
fn test_shift_char_by_position_forward() {
    let mut rotor = get_cypher_rotor_instance();
    rotor.set_position(0).unwrap();
    for i in 0..NUMBER_LETTERS_IN_ALPHABET {
        let output = rotor
            .shift_char_by_position('A', ShiftDirection::Forward)
            .unwrap();
        assert_eq!(&output, ALPHABET.get(i).unwrap());
        rotor.increment_position();
    }
    let output = rotor
        .shift_char_by_position('A', ShiftDirection::Forward)
        .unwrap();
    assert_eq!(output, 'A');
}

#[test]
fn test_shift_char_by_position_reverse() {
    let mut rotor = get_cypher_rotor_instance();
    rotor.set_position(0).unwrap();
    for i in 0..NUMBER_LETTERS_IN_ALPHABET {
        let input = ALPHABET.get(i).unwrap();
        let output = rotor
            .shift_char_by_position(*input, ShiftDirection::Reverse)
            .unwrap();
        assert_eq!(output, 'A');
        rotor.increment_position();
    }
    let output = rotor
        .shift_char_by_position('A', ShiftDirection::Reverse)
        .unwrap();
    assert_eq!(output, 'A');
}

#[test]
fn shift_reverse_wraps_round_the_alphabet() {
    let mut rotor = get_cypher_rotor_instance();
    rotor.set_position(3).unwrap();
    assert_eq!(
        rotor.shift_char_by_position('A', ShiftDirection::Reverse),
        Ok('X')
    );
    assert_eq!(
        rotor.shift_char_by_position('Y', ShiftDirection::Forward),
        Ok('B')
    );
    assert_eq!(
        rotor.shift_char_by_position('a', ShiftDirection::Forward),
        Err(EnigmaError::InvalidSymbol)
    );
}

#[test]
fn rotor_substitutes_in_its_rotational_frame() {
    let mut rotor = get_cypher_rotor_instance();
    assert_eq!(rotor.encode_char('A'), Ok('E'));
    assert_eq!(rotor.encode_char('B'), Ok('K'));
    assert_eq!(rotor.encode_char_reverse('E'), Ok('A'));
    rotor.set_position(3).unwrap();
    assert_eq!(rotor.encode_char('A'), Ok('F'));
    assert_eq!(rotor.encode_char_reverse('A'), Ok('R'));
    assert_eq!(rotor.encode_char_reverse('F'), Ok('A'));
}

#[test]
fn rotor_refuses_a_character_outside_the_alphabet() {
    let rotor = get_cypher_rotor_instance();
    assert_eq!(rotor.encode_char('a'), Err(EnigmaError::InvalidSymbol));
    assert_eq!(rotor.encode_char('1'), Err(EnigmaError::InvalidSymbol));
    assert_eq!(
        rotor.encode_char_reverse('['),
        Err(EnigmaError::InvalidSymbol)
    );
    let reflector = get_reflector_rotor_instance();
    assert_eq!(reflector.encode_char('z'), Err(EnigmaError::InvalidSymbol));
}

#[test]
fn new_rotor_stands_at_zero_with_its_flag_down() {
    let rotor = Rotor::new("EKMFLGDQVZNTOWYHXUSPAIBRCJ", 'R').unwrap();
    assert_eq!(rotor.get_position(), 0);
    assert_eq!(rotor.get_turnover_position(), 17);
    assert!(!rotor.turnover_has_occurred());
    assert_eq!(Rotor::find_turnover_position('A'), Ok(0));
    assert_eq!(Rotor::find_turnover_position('Z'), Ok(25));
}

#[test]
fn wiring_with_a_repeated_symbol_is_rejected() {
    assert_eq!(
        Rotor::new("EKMFLGDQVZNTOWYHXUSPAIBRCE", 'R').err(),
        Some(EnigmaError::MalformedWiring)
    );
}

#[test]
fn wiring_of_wrong_length_or_alphabet_is_rejected() {
    assert_eq!(
        Rotor::new("EKMFLGDQVZNTOWYHXUSPAIBRC", 'R').err(),
        Some(EnigmaError::MalformedWiring)
    );
    assert_eq!(
        Rotor::new("EKMFLGDQVZNTOWYHXUSPAIBRCJA", 'R').err(),
        Some(EnigmaError::MalformedWiring)
    );
    assert_eq!(
        Rotor::new("", 'R').err(),
        Some(EnigmaError::MalformedWiring)
    );
    assert_eq!(
        Rotor::new("ekmflgdqvzntowyhxuspaibrcj", 'R').err(),
        Some(EnigmaError::MalformedWiring)
    );
}

#[test]
fn notch_outside_the_alphabet_is_rejected() {
    assert_eq!(
        Rotor::new("EKMFLGDQVZNTOWYHXUSPAIBRCJ", '_').err(),
        Some(EnigmaError::InvalidNotch)
    );
    assert_eq!(
        Rotor::find_turnover_position('r'),
        Err(EnigmaError::InvalidNotch)
    );
    assert_eq!(
        Rotor::from_source(WIRINGS, "B").err(),
        Some(EnigmaError::InvalidNotch)
    );
}

#[test]
fn position_out_of_range_is_rejected_and_changes_nothing() {
    let mut rotor = get_cypher_rotor_instance();
    rotor.set_position(25).unwrap();
    assert_eq!(rotor.set_position(26), Err(EnigmaError::PositionOutOfRange));
    assert_eq!(rotor.get_position(), 25);
    rotor.increment_position();
    assert_eq!(rotor.get_position(), 0);
}

#[test]
fn set_position_keeps_the_turnover_flag() {
    let mut rotor = get_cypher_rotor_instance();
    rotor.set_position(16).unwrap();
    rotor.increment_position();
    rotor.set_position(3).unwrap();
    assert!(rotor.turnover_has_occurred());
    rotor.reset_turnover_state();
    assert!(!rotor.turnover_has_occurred());
    assert_eq!(rotor.get_position(), 3);
}

#[test]
fn reflector_with_a_fixed_point_is_rejected() {
    assert_eq!(
        Reflector::new("ABCDEFGHIJKLMNOPQRSTUVWXYZ").err(),
        Some(EnigmaError::ReflectorFixedPoint)
    );
    // swaps every pair of neighbours but leaves Y and Z in place
    assert_eq!(
        Reflector::new("BADCFEHGJILKNMPORQTSVUXWYZ").err(),
        Some(EnigmaError::ReflectorFixedPoint)
    );
}

#[test]
fn reflector_that_is_not_its_own_inverse_is_rejected() {
    assert_eq!(
        Reflector::new("BCDEFGHIJKLMNOPQRSTUVWXYZA").err(),
        Some(EnigmaError::ReflectorNotInvolution)
    );
}

#[test]
fn reflector_wiring_must_be_a_permutation() {
    assert_eq!(
        Reflector::new("YRUHQSLDPXNGOKMIEBFZCWVJA").err(),
        Some(EnigmaError::MalformedWiring)
    );
    assert_eq!(
        Reflector::new("YYUHQSLDPXNGOKMIEBFZCWVJAT").err(),
        Some(EnigmaError::MalformedWiring)
    );
}

#[test]
fn reflector_record_must_not_name_a_notch() {
    let source = "B:YRUHQSLDPXNGOKMIEBFZCWVJAT:R\n";
    assert_eq!(
        Reflector::from_source(source, "B").err(),
        Some(EnigmaError::InvalidNotch)
    );
    assert!(Reflector::new("YRUHQSLDPXNGOKMIEBFZCWVJAT").is_ok());
}

#[test]
fn reflector_answers_with_its_wiring() {
    let reflector = get_reflector_rotor_instance();
    assert_eq!(reflector.encode_char('A'), Ok('Y'));
    assert_eq!(reflector.encode_char('Y'), Ok('A'));
    assert_eq!(reflector.encode_char('Z'), Ok('T'));
}
