use iactive::auth::get_mac_address;
use iactive::encryption::build_quiz;
use iactive::encryption::decrypt_content;
use iactive::encryption::parse_xml_quiz;
use iactive::encryption::QuizEvent;

fn from_hex(s: &str) -> Vec<u8> {
    let b = s.as_bytes();
    let mut out = Vec::new();
    let mut i = 0;
    while i + 1 < b.len() {
        let hi = (b[i] as char).to_digit(16).unwrap() as u8;
        let lo = (b[i + 1] as char).to_digit(16).unwrap() as u8;
        out.push(hi * 16 + lo);
        i += 2;
    }
    out
}

#[test]
fn decrypts_whole_blocks() {
    // AES-256-CBC of a 32-byte text under the digest of the product
    // passphrase, initialization vector 00..0f prepended.
    let data = from_hex(
        "000102030405060708090a0b0c0d0e0fd13654656737528c0361217bc1ceae9d1cec04789dda692078869d753362be3c",
    );
    let plain = decrypt_content(&data).unwrap();
    assert_eq!(plain, b"The quick brown fox jumps over..".to_vec());
}

#[test]
fn decrypts_a_zero_padded_tail() {
    let data = from_hex(
        "000102030405060708090a0b0c0d0e0fd13654656737528c0361217bc1ceae9d1cec04789dda692078869d753362be3caabbccddee",
    );
    let plain = decrypt_content(&data).unwrap();
    let expected = from_hex(
        "54686520717569636b2062726f776e20666f78206a756d7073206f7665722e2ea9b647032b",
    );
    assert_eq!(plain, expected);
}

#[test]
fn rejects_inputs_shorter_than_the_vector() {
    let r = decrypt_content(&vec![0u8; 15]);
    assert!(r.is_err());
    let iv_only = decrypt_content(&vec![0u8; 16]).unwrap();
    assert!(iv_only.is_empty());
}

#[test]
fn parses_a_quiz_document() {
    let xml = "<quiz><question><text>What is two plus two?</text><options><option>three</option><option>-</option><option>four</option></options><correctAnswer>four</correctAnswer><description>-</description></question><question><text>Pick one</text><options><option>a</option></options><correctAnswer>a</correctAnswer><description>easy</description></question></quiz>";
    let quiz = parse_xml_quiz(xml).unwrap();
    assert_eq!(quiz.questions.len(), 2);
    let q1 = &quiz.questions[0];
    assert_eq!(q1.text, "What is two plus two?");
    assert_eq!(q1.options, vec!["three".to_string(), "four".to_string()]);
    assert_eq!(q1.correct_answer, "four");
    assert!(q1.description.is_none());
    let q2 = &quiz.questions[1];
    assert_eq!(q2.description.as_deref(), Some("easy"));
}

#[test]
fn reports_xml_faults() {
    let r = parse_xml_quiz("<quiz><question>");
    let e = r.unwrap_err();
    assert!(e.starts_with("Error parsing XML: "), "got: {e}");
}

#[test]
fn folds_an_event_stream_directly() {
    let events = vec![
        QuizEvent::Other,
        QuizEvent::Start("quiz".to_string()),
        QuizEvent::Start("question".to_string()),
        QuizEvent::Start("text".to_string()),
        QuizEvent::Text("T".to_string()),
        QuizEvent::End("text".to_string()),
        QuizEvent::Start("correctAnswer".to_string()),
        QuizEvent::Text("C".to_string()),
        QuizEvent::End("correctAnswer".to_string()),
        QuizEvent::End("question".to_string()),
        QuizEvent::End("quiz".to_string()),
        QuizEvent::Finished,
    ];
    let quiz = build_quiz(&events).unwrap();
    assert_eq!(quiz.questions.len(), 1);
    assert_eq!(quiz.questions[0].text, "T");
    assert_eq!(quiz.questions[0].correct_answer, "C");
    assert!(quiz.questions[0].options.is_empty());
}

#[test]
fn device_identifier_has_the_canonical_shape() {
    match get_mac_address() {
        Ok(mac) => {
            assert_eq!(mac.len(), 17);
            assert_eq!(mac.as_bytes()[2], b':');
        },
        Err(e) => {
            // A machine without a network adapter answers with an error;
            // the taxonomy still gives it a readable text.
            assert!(!e.message().is_empty());
        },
    }
}
