use enigma::cryptoattack::find_possible_positions;
use enigma::enigma::{build_enigma, sanity_check, Enigma};
use enigma::error::EnigmaError;
use enigma::message::{preprocess_for_enigma, Indicator, Message, TEXT};
use enigma::mode::Mode;
use enigma::plugboard::Plugboard;
use enigma::rotorassembly::RotorAssembly;

const MESSAGE: &str = "DIESISTEINTESTTESTTEST";

const WIRINGS: &str = "I:EKMFLGDQVZNTOWYHXUSPAIBRCJ:R\n\
II:AJDKSIRUXBLHWTMCQGZNPYFVOE:F\n\
III:BDFHJLCPRTXVZNYEIWGAKMUSQO:W\n\
B:YRUHQSLDPXNGOKMIEBFZCWVJAT:_\n";

const PAIRS: &str = "AS\nBT\nCU\n";

const GROUND: [usize; 3] = [7, 8, 21];

fn new_default() -> Enigma {
    let assembly = RotorAssembly::new_default(WIRINGS).unwrap();
    let plugboard = Plugboard::from_source(PAIRS).unwrap();
    Enigma::new(assembly, plugboard)
}

fn without_plugs() -> Enigma {
    let assembly = RotorAssembly::new_default(WIRINGS).unwrap();
    Enigma::new(assembly, Plugboard::new(vec![]).unwrap())
}

fn at_ground() -> Enigma {
    let mut enigma = new_default();
    enigma.set_positions(GROUND).unwrap();
    enigma
}

#[test]
fn can_encrypt_and_decrypt_char() {
    let input = 'A';

    let mut enigma = new_default();
    let cypher = enigma.encode_char(input).unwrap();

    let mut enigma = new_default();
    let output = enigma.encode_char(cypher).unwrap();

    assert_eq!(input, output);
}

#[test]
fn can_encrypt_and_decrypt_message_with_default_settings() {
    let mut enigma = new_default();
    let cypher = enigma.encode_message(MESSAGE).unwrap();

    let mut enigma = new_default();
    let output = enigma.encode_message(cypher.as_str()).unwrap();

    assert_eq!(MESSAGE, output);
}

#[test]
fn test_sanity_check() {
    assert_eq!(sanity_check('A'), Ok('A'));
    assert_eq!(sanity_check('B'), Ok('B'));
    assert_eq!(sanity_check('Z'), Ok('Z'));
}

#[test]
fn test_sanity_check_invalid() {
    assert_eq!(sanity_check('a'), Err(EnigmaError::InvalidSymbol));
}

#[test]
fn machine_enciphers_a_known_message() {
    let mut enigma = new_default();
    assert_eq!(
        enigma.encode_message(MESSAGE),
        Ok("GMTDVDKOZALGNXDNCJRCTR".to_string())
    );
    assert_eq!(enigma.get_positions(), [22, 1, 0]);
}

#[test]
fn first_symbol_from_the_zero_offsets() {
    let mut enigma = without_plugs();
    assert_eq!(enigma.encode_char('A'), Ok('E'));
    let mut enigma = without_plugs();
    assert_eq!(enigma.encode_char('E'), Ok('A'));
    // with A and S plugged, A goes in as S and comes out through the plugboard again
    let mut enigma = new_default();
    let mut bare = without_plugs();
    let inner = bare.encode_char('S').unwrap();
    let plugboard = Plugboard::from_source(PAIRS).unwrap();
    assert_eq!(enigma.encode_char('A'), Ok(plugboard.encode_char(inner)));
}

#[test]
fn round_trip_from_any_offsets() {
    let text = preprocess_for_enigma(TEXT);
    for offsets in [[0, 0, 0], [7, 8, 21], [25, 25, 25], [16, 4, 21], [3, 17, 9]] {
        let mut sender = new_default();
        sender.set_positions(offsets).unwrap();
        let cypher = sender.encode_message(&text).unwrap();
        assert_ne!(cypher, text);

        let mut receiver = new_default();
        receiver.set_positions(offsets).unwrap();
        assert_eq!(receiver.encode_message(&cypher), Ok(text.clone()));
        assert_eq!(receiver.get_positions(), sender.get_positions());
    }
}

#[test]
fn no_symbol_is_enciphered_to_itself() {
    let mut enigma = new_default();
    for _ in 0..40 {
        for symbol in 'A'..='Z' {
            assert_ne!(enigma.encode_char(symbol), Ok(symbol));
        }
    }
    // 1040 steps: the fastest rotor has gone round 40 times
    assert_eq!(enigma.get_positions()[0], 0);
}

#[test]
fn machine_refuses_a_character_outside_the_alphabet_without_stepping() {
    let mut enigma = new_default();
    assert_eq!(enigma.encode_char('a'), Err(EnigmaError::InvalidSymbol));
    assert_eq!(enigma.encode_char('!'), Err(EnigmaError::InvalidSymbol));
    assert_eq!(
        enigma.encode_message("DIES IST"),
        Err(EnigmaError::InvalidSymbol)
    );
    assert_eq!(
        enigma.encode_message("DIESISTx"),
        Err(EnigmaError::InvalidSymbol)
    );
    assert_eq!(enigma.get_positions(), [0, 0, 0]);
    assert_eq!(enigma.encode_message(""), Ok(String::new()));
    assert_eq!(enigma.get_positions(), [0, 0, 0]);
}

#[test]
fn encoding_again_without_a_reset_gives_another_text() {
    let mut enigma = new_default();
    let first = enigma.encode_message(MESSAGE).unwrap();
    let second = enigma.encode_message(MESSAGE).unwrap();
    assert_ne!(first, second);
}

#[test]
fn positions_out_of_range_are_refused() {
    let mut enigma = at_ground();
    assert_eq!(
        enigma.set_positions([0, 26, 0]),
        Err(EnigmaError::PositionOutOfRange)
    );
    assert_eq!(
        enigma.set_positions([usize::MAX, 0, 0]),
        Err(EnigmaError::PositionOutOfRange)
    );
    assert_eq!(enigma.get_positions(), GROUND);
}

#[test]
fn indicator_is_the_key_enciphered_twice() {
    let mut enigma = at_ground();
    assert_eq!(
        enigma.get_encrypted_indicator("QRS"),
        Ok("OMBUYO".to_string())
    );
    assert_eq!(enigma.get_positions(), [13, 8, 21]);

    let mut twice = at_ground();
    assert_eq!(twice.encode_message("QRSQRS"), Ok("OMBUYO".to_string()));
}

#[test]
fn indicator_protocol_gives_the_key_back() {
    for key in ["QRS", "AAA", "ZZZ", "ENI"] {
        let mut sender = at_ground();
        let sent = sender.get_encrypted_indicator(key).unwrap();
        assert_eq!(sent.chars().count(), 6);

        let mut receiver = at_ground();
        assert_eq!(receiver.get_decrypted_indicator(&sent), Ok(key.to_string()));
        assert_eq!(receiver.get_positions(), sender.get_positions());
    }
}

#[test]
fn indicator_with_unequal_halves_is_rejected() {
    // OMBUYO is what QRS is sent as; here its last symbol has been changed
    let mut receiver = at_ground();
    assert_eq!(
        receiver.get_decrypted_indicator("OMBUYA"),
        Err(EnigmaError::IndicatorMismatch)
    );
    assert_eq!(receiver.get_positions(), [13, 8, 21]);

    // wrong ground offsets on the receiving side
    let mut receiver = new_default();
    assert_eq!(
        receiver.get_decrypted_indicator("OMBUYO"),
        Err(EnigmaError::IndicatorMismatch)
    );
    assert_eq!(
        Enigma::sanity_check_indicator("QRSQRT", Mode::Decrypt),
        Err(EnigmaError::IndicatorMismatch)
    );
    assert_eq!(Enigma::sanity_check_indicator("QRSQRS", Mode::Decrypt), Ok(()));
}

#[test]
fn indicator_of_wrong_length_is_rejected() {
    let mut enigma = at_ground();
    assert_eq!(
        enigma.get_encrypted_indicator("QR"),
        Err(EnigmaError::IndicatorLength)
    );
    assert_eq!(
        enigma.get_encrypted_indicator("QRST"),
        Err(EnigmaError::IndicatorLength)
    );
    assert_eq!(
        enigma.get_decrypted_indicator("OMBUY"),
        Err(EnigmaError::IndicatorLength)
    );
    assert_eq!(
        enigma.get_decrypted_indicator("OMB"),
        Err(EnigmaError::IndicatorLength)
    );
    assert_eq!(
        Enigma::sanity_check_indicator("QRSQRS", Mode::Encrypt),
        Err(EnigmaError::IndicatorLength)
    );
    assert_eq!(
        Enigma::sanity_check_indicator("QRS", Mode::Decrypt),
        Err(EnigmaError::IndicatorLength)
    );
    assert_eq!(Enigma::sanity_check_indicator("QRS", Mode::Encrypt), Ok(()));
    assert_eq!(
        enigma.set_indicator("QRSQ", Mode::Encrypt),
        Err(EnigmaError::IndicatorLength)
    );
    assert_eq!(enigma.get_positions(), GROUND);
}

#[test]
fn indicator_of_other_characters_is_rejected() {
    let mut enigma = at_ground();
    assert_eq!(
        enigma.get_encrypted_indicator("qrs"),
        Err(EnigmaError::InvalidSymbol)
    );
    assert_eq!(
        enigma.get_decrypted_indicator("OMB YO"),
        Err(EnigmaError::InvalidSymbol)
    );
    assert_eq!(
        enigma.set_indicator("Q-S", Mode::Encrypt),
        Err(EnigmaError::InvalidSymbol)
    );
    assert_eq!(enigma.get_positions(), GROUND);
}

#[test]
fn indicator_sets_the_rotors_to_the_key() {
    let mut enigma = at_ground();
    assert_eq!(enigma.set_indicator("QRS", Mode::Encrypt), Ok(()));
    assert_eq!(enigma.get_positions(), [16, 17, 18]);
    assert_eq!(enigma.set_indicator("ABZABZ", Mode::Decrypt), Ok(()));
    assert_eq!(enigma.get_positions(), [0, 1, 25]);
    assert_eq!(
        enigma.set_indicator("ABZABY", Mode::Decrypt),
        Err(EnigmaError::IndicatorMismatch)
    );
    assert_eq!(enigma.get_positions(), [0, 1, 25]);
}

#[test]
fn message_is_enciphered_from_the_message_key() {
    let text = preprocess_for_enigma(TEXT);
    let mut enigma = at_ground();
    let sent = enigma
        .encrypt(Message::new(Indicator::new("QRS".to_string()), text.clone()))
        .unwrap();
    assert_eq!(sent.indicator.as_str(), "OMBUYO");
    assert_eq!(
        sent.text,
        "LDPUXGGPECVFXBERAMBQOHRPPVRXPJOMPILQJYYBMNIEGNWOQLMXGMYFVBCKBPJGBBSKHPTTSSULXEFWBMQYCW\
QJSYGCPFAXOYWXEHDBL"
    );

    // the body is what a machine at the key makes of the text
    let mut keyed = new_default();
    keyed.set_positions([16, 17, 18]).unwrap();
    assert_eq!(keyed.encode_message(&text), Ok(sent.text.clone()));
    assert_eq!(enigma.get_positions(), keyed.get_positions());
}

#[test]
fn message_makes_the_round_trip() {
    let text = preprocess_for_enigma(TEXT);
    let mut sender = at_ground();
    let sent = sender
        .encrypt(Message::new(Indicator::new("QRS".to_string()), text.clone()))
        .unwrap();

    let mut receiver = at_ground();
    let read = receiver.decrypt(sent).unwrap();
    assert_eq!(read.indicator.as_str(), "QRS");
    assert_eq!(read.text, text);
}

#[test]
fn message_that_is_refused_leaves_the_machine_as_it_was() {
    let mut enigma = at_ground();
    let key = |value: &str| Indicator::new(value.to_string());
    assert_eq!(
        enigma
            .encrypt(Message::new(key("QRSQRS"), "TEXT".to_string()))
            .err(),
        Some(EnigmaError::IndicatorLength)
    );
    assert_eq!(
        enigma
            .encrypt(Message::new(key("QR1"), "TEXT".to_string()))
            .err(),
        Some(EnigmaError::InvalidSymbol)
    );
    assert_eq!(
        enigma
            .encrypt(Message::new(key("QRS"), "Text".to_string()))
            .err(),
        Some(EnigmaError::InvalidSymbol)
    );
    assert_eq!(
        enigma
            .decrypt(Message::new(key("QRS"), "TEXT".to_string()))
            .err(),
        Some(EnigmaError::IndicatorLength)
    );
    assert_eq!(
        enigma
            .decrypt(Message::new(key("OMBUYO"), "text".to_string()))
            .err(),
        Some(EnigmaError::InvalidSymbol)
    );
    assert_eq!(enigma.get_positions(), GROUND);
}

#[test]
fn corrupted_message_is_not_deciphered() {
    let mut receiver = at_ground();
    assert_eq!(
        receiver
            .decrypt(Message::new(
                Indicator::new("OMBUYA".to_string()),
                "LDPUXGG".to_string()
            ))
            .err(),
        Some(EnigmaError::IndicatorMismatch)
    );
    assert_eq!(receiver.get_positions(), [13, 8, 21]);
}

#[test]
fn crib_lies_where_it_truly_lies() {
    let text = preprocess_for_enigma(TEXT);
    let mut enigma = at_ground();
    let sent = enigma
        .encrypt(Message::new(Indicator::new("QRS".to_string()), text.clone()))
        .unwrap();

    let positions = find_possible_positions(&sent.text, "WETTERBERICHT").unwrap();
    assert_eq!(text.find("WETTERBERICHT"), Some(0));
    assert!(positions.contains(&0));
    assert_eq!(
        positions,
        vec![
            0, 2, 3, 5, 6, 8, 9, 11, 15, 16, 19, 20, 22, 23, 25, 26, 27, 28, 29, 30, 31, 32, 34,
            35, 37, 38, 40, 41, 43, 44, 45, 47, 49, 50, 52, 53, 55, 56, 60, 61, 62, 63, 64, 65,
            66, 71, 72, 75, 77, 78, 80, 82, 83, 84, 86, 87, 88, 89, 91, 92
        ]
    );

    // every fragment of the text can lie where it was taken from, the one at its end too
    for fragment in ["NULL", "WIND", "REGEN", "NEBEL", "LITER", "DREILITER"] {
        let positions = find_possible_positions(&sent.text, fragment).unwrap();
        for (offset, _) in text.match_indices(fragment) {
            assert!(positions.contains(&offset));
        }
    }
    assert_eq!(text.find("LITER"), Some(100));
    assert_eq!(text.len(), 105);
    assert_eq!(
        find_possible_positions(&sent.text, "LITER").unwrap().last(),
        Some(&100)
    );

    // the whole text as a fragment lies at the first offset, and nowhere else
    assert_eq!(find_possible_positions(&sent.text, &text), Ok(vec![0]));
}

#[test]
fn machine_is_built_from_its_sources() {
    let mut built = build_enigma(WIRINGS, PAIRS, GROUND).unwrap();
    assert_eq!(built.get_positions(), GROUND);
    let mut expected = at_ground();
    assert_eq!(
        built.encode_message(MESSAGE),
        expected.encode_message(MESSAGE)
    );
    assert_eq!(
        build_enigma(WIRINGS, "AB\nBC\n", GROUND).err(),
        Some(EnigmaError::DuplicateSymbol)
    );
    assert_eq!(
        build_enigma("", "AB\nBC\n", GROUND).err(),
        Some(EnigmaError::DuplicateSymbol)
    );
    assert_eq!(
        build_enigma("", PAIRS, GROUND).err(),
        Some(EnigmaError::NotFound)
    );
    assert_eq!(
        build_enigma(WIRINGS, PAIRS, [7, 8, 26]).err(),
        Some(EnigmaError::PositionOutOfRange)
    );
}

#[test]
fn can_encrypt_and_decrypt_message_with_random_settings() {
    let mut state: usize = 12345;
    let mut next = move || {
        state = (state * 1103515245 + 12345) % 2147483648;
        (state / 65536) % 26
    };
    for _ in 0..50 {
        let settings = [next(), next(), next()];
        let mut enigma = new_default();
        enigma.set_positions(settings).unwrap();
        let cypher = enigma.encode_message(MESSAGE).unwrap();

        let mut enigma = new_default();
        enigma.set_positions(settings).unwrap();
        let output = enigma.encode_message(cypher.as_str()).unwrap();

        assert_eq!(MESSAGE.to_string(), output);
    }
}
