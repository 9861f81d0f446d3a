use enigma::alphabet::{ALPHABET, NUMBER_LETTERS_IN_ALPHABET};
use enigma::error::EnigmaError;
use enigma::rotor::{Reflector, Rotor};
use enigma::rotorassembly::RotorAssembly;

const WIRINGS: &str = "I:EKMFLGDQVZNTOWYHXUSPAIBRCJ:R\n\
II:AJDKSIRUXBLHWTMCQGZNPYFVOE:F\n\
III:BDFHJLCPRTXVZNYEIWGAKMUSQO:W\n\
B:YRUHQSLDPXNGOKMIEBFZCWVJAT:_\n";

fn new_default() -> RotorAssembly {
    RotorAssembly::new_default(WIRINGS).unwrap()
}

fn encode(assembly: &mut RotorAssembly, text: &str) -> String {
    text.chars()
        .map(|symbol| assembly.encode_char(symbol).unwrap())
        .collect()
}

#[test]
fn can_init() {
    assert!(RotorAssembly::new_default(WIRINGS).is_ok());
}

#[test]
fn rotorassembly_encode_char() {
    let mut assembly = new_default();
    let old_position = assembly.get_positions()[0];
    assert_eq!(assembly.encode_char('A'), Ok('E'));
    let new_position = assembly.get_positions()[0];
    assert_eq!(
        (old_position + 1) % NUMBER_LETTERS_IN_ALPHABET,
        new_position
    );
}

#[test]
fn reversible() {
    for char in ALPHABET {
        let input = char;
        let mut assembly = new_default();
        let cypher = assembly.encode_char(input).unwrap();

        let mut assembly = new_default();
        let output = assembly.encode_char(cypher).unwrap();

        assert_eq!(input, output);
        assert_ne!(input, cypher);
    }
}

#[test]
fn assembly_steps_before_each_symbol() {
    let mut assembly = new_default();
    assert_eq!(encode(&mut assembly, "AAAAA"), "EVRDW");
    let mut assembly = new_default();
    assert_eq!(
        encode(&mut assembly, "AAAAAAAAAAAAAAAAAAAAAAAAAAAAAA"),
        "EVRDWDXJXEEKNWWCUNIQBZQQEJSOWD"
    );
}

#[test]
fn fastest_rotor_has_a_period_of_26_steps() {
    for start in [0, 5, 17, 25] {
        let mut assembly = new_default();
        assembly.set_positions([start, 0, 0]).unwrap();
        let mut carries = 0;
        for _ in 0..26 {
            let middle = assembly.get_positions()[1];
            assembly.encode_char('A').unwrap();
            if assembly.get_positions()[1] != middle {
                carries += 1;
                // the carry comes with the step onto the notch R
                assert_eq!(assembly.get_positions()[0], 17);
            }
        }
        assert_eq!(assembly.get_positions()[0], start);
        assert_eq!(carries, 1);
        assert_eq!(assembly.get_positions(), [start, 1, 0]);
    }
}

#[test]
fn carry_passes_once_from_fast_to_slow() {
    // rotor I turns over onto R, rotor II onto F, in one and the same step
    let mut assembly = new_default();
    assembly.set_positions([16, 4, 0]).unwrap();
    assembly.increment_cypher_rotor_positions();
    assert_eq!(assembly.get_positions(), [17, 5, 1]);

    // rotor III turns over onto W; there is no rotor to carry to
    let mut assembly = new_default();
    assembly.set_positions([16, 4, 21]).unwrap();
    assembly.increment_cypher_rotor_positions();
    assert_eq!(assembly.get_positions(), [17, 5, 22]);
    assembly.increment_cypher_rotor_positions();
    assert_eq!(assembly.get_positions(), [18, 5, 22]);

    // without a turnover only the fastest rotor moves
    let mut assembly = new_default();
    assembly.set_positions([3, 4, 0]).unwrap();
    assembly.increment_cypher_rotor_positions();
    assert_eq!(assembly.get_positions(), [4, 4, 0]);
}

#[test]
fn turnover_flag_that_was_left_up_carries_at_the_next_step() {
    let mut fast = Rotor::from_source(WIRINGS, "I").unwrap();
    fast.set_position(16).unwrap();
    fast.increment_position();
    assert!(fast.turnover_has_occurred());
    fast.set_position(2).unwrap();
    let rotors = vec![
        fast,
        Rotor::from_source(WIRINGS, "II").unwrap(),
        Rotor::from_source(WIRINGS, "III").unwrap(),
    ];
    let reflector = Reflector::from_source(WIRINGS, "B").unwrap();
    let mut assembly = RotorAssembly::new(rotors, reflector).unwrap();
    assembly.increment_cypher_rotor_positions();
    assert_eq!(assembly.get_positions(), [3, 1, 0]);
    assembly.increment_cypher_rotor_positions();
    assert_eq!(assembly.get_positions(), [4, 1, 0]);
}

#[test]
fn assembly_refuses_a_character_outside_the_alphabet_without_stepping() {
    let mut assembly = new_default();
    assert_eq!(assembly.encode_char('a'), Err(EnigmaError::InvalidSymbol));
    assert_eq!(assembly.encode_char(' '), Err(EnigmaError::InvalidSymbol));
    assert_eq!(assembly.get_positions(), [0, 0, 0]);
    assert_eq!(assembly.encode_char('A'), Ok('E'));
}

#[test]
fn assembly_takes_three_rotors() {
    let reflector = Reflector::from_source(WIRINGS, "B").unwrap();
    let rotors = vec![
        Rotor::from_source(WIRINGS, "I").unwrap(),
        Rotor::from_source(WIRINGS, "II").unwrap(),
    ];
    assert_eq!(
        RotorAssembly::new(rotors, reflector).err(),
        Some(EnigmaError::WrongRotorCount)
    );
    let reflector = Reflector::from_source(WIRINGS, "B").unwrap();
    assert_eq!(
        RotorAssembly::new(vec![], reflector).err(),
        Some(EnigmaError::WrongRotorCount)
    );
}

#[test]
fn positions_out_of_range_are_rejected_and_change_nothing() {
    let mut assembly = new_default();
    assembly.set_positions([1, 2, 3]).unwrap();
    assert_eq!(
        assembly.set_positions([0, 0, 26]),
        Err(EnigmaError::PositionOutOfRange)
    );
    assert_eq!(
        assembly.set_positions([26, 0, 0]),
        Err(EnigmaError::PositionOutOfRange)
    );
    assert_eq!(assembly.get_positions(), [1, 2, 3]);
}

#[test]
fn default_assembly_needs_every_record() {
    let without_third = "I:EKMFLGDQVZNTOWYHXUSPAIBRCJ:R\n\
II:AJDKSIRUXBLHWTMCQGZNPYFVOE:F\n\
B:YRUHQSLDPXNGOKMIEBFZCWVJAT:_\n";
    assert_eq!(
        RotorAssembly::new_default(without_third).err(),
        Some(EnigmaError::NotFound)
    );
    let bad_second = "I:EKMFLGDQVZNTOWYHXUSPAIBRCJ:R\n\
II:AJDKSIRUXBLHWTMCQGZNPYFVOA:F\n\
III:BDFHJLCPRTXVZNYEIWGAKMUSQO:W\n";
    assert_eq!(
        RotorAssembly::new_default(bad_second).err(),
        Some(EnigmaError::MalformedWiring)
    );
}
