use enigma::error::EnigmaError;
use enigma::message::{preprocess_char, preprocess_for_enigma, Indicator, Message, TEXT};
use enigma::mode::Mode;

#[test]
fn test_preprocess_for_enigma() {
    assert_eq!(preprocess_for_enigma("aBc D*\nyz"), "ABCDYZ");
    assert_eq!(preprocess_for_enigma(""), "");
}

#[test]
fn preprocess_keeps_letters_only() {
    assert_eq!(preprocess_char('a'), Some('A'));
    assert_eq!(preprocess_char('z'), Some('Z'));
    assert_eq!(preprocess_char('Z'), Some('Z'));
    assert_eq!(preprocess_char('1'), None);
    assert_eq!(preprocess_char('`'), None);
    assert_eq!(preprocess_char('{'), None);
    assert_eq!(preprocess_char('ä'), None);
    assert_eq!(
        preprocess_for_enigma(TEXT),
        "WETTERBERICHTNULLSECHSNULLNULLWINDNULLDREINULLSTAERKEVIERLEICHTERREGENBEDECKT\
GELEGENTLICHERNEBELDREILITER"
    );
    assert_eq!(preprocess_for_enigma("ALREADY"), "ALREADY");
}

#[test]
fn indicator_length_goes_with_the_direction() {
    let key = Indicator::new("QRS".to_string());
    assert_eq!(key.sanity_check(&Mode::Encrypt), Ok(()));
    assert_eq!(
        key.sanity_check(&Mode::Decrypt),
        Err(EnigmaError::IndicatorLength)
    );
    let sent = Indicator::new("OMBUYO".to_string());
    assert_eq!(sent.sanity_check(&Mode::Decrypt), Ok(()));
    assert_eq!(
        sent.sanity_check(&Mode::Encrypt),
        Err(EnigmaError::IndicatorLength)
    );
    assert_eq!(Mode::Encrypt.indicator_length(), 3);
    assert_eq!(Mode::Decrypt.indicator_length(), 6);
    assert_eq!(Indicator::check_length(3, 3), Ok(()));
    assert_eq!(
        Indicator::check_length(4, 3),
        Err(EnigmaError::IndicatorLength)
    );
}

#[test]
fn indicator_gives_its_triplets() {
    let sent = Indicator::new("OMBUYO".to_string());
    assert_eq!(sent.as_str(), "OMBUYO");
    assert_eq!(sent.get_first_triplet(), Ok("OMB"));
    assert_eq!(sent.get_second_triplet(), Ok("UYO"));
    let key = Indicator::new("QRS".to_string());
    assert_eq!(key.get_first_triplet(), Ok("QRS"));
    assert_eq!(
        key.get_second_triplet(),
        Err(EnigmaError::IndicatorLength)
    );
    let short = Indicator::new("QR".to_string());
    assert_eq!(short.get_first_triplet(), Err(EnigmaError::IndicatorLength));
}

#[test]
fn message_holds_what_it_was_given() {
    let message = Message::new(Indicator::new("QRS".to_string()), "TEXT".to_string());
    assert_eq!(message.indicator.as_str(), "QRS");
    assert_eq!(message.text, "TEXT");
    assert_eq!(message.to_text(), "indicator: QRS  \ntext: TEXT");
}
