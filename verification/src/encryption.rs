//! Decryption of bundled content files and quiz extraction.
//!
//! A content file carries a 16-byte initialization vector followed by the
//! ciphertext, enciphered block-wise in cipher-block-chaining mode; the key
//! is the digest of a fixed product passphrase.  The chaining, the
//! zero-padded trailing block, and the length bookkeeping are verified
//! here; the block cipher and the digest themselves are called in the
//! underlying crates and trusted, each behind one named result.
//!
//! A quiz file is an XML document of `question` elements; the pull parser
//! of the XML crate hands events through a trusted classifier, and the
//! verified fold below turns the event stream into quiz data exactly as
//! its specification states.

use vstd::prelude::*;
use vstd::string::StrSliceExecFns;
use vstd::string::StringExecFns;

use crate::strutil::str_eq;

verus! {

// ------------------------------------------------------------------
// Content decryption
// ------------------------------------------------------------------
/// The digest of a byte string, as the underlying hash crate computes it.
pub uninterp spec fn sha256_of(data: Seq<u8>) -> Seq<u8>;

/// Relies on `sha2::Sha256`: the digest depends on the input bytes alone
/// and is 32 bytes long.
#[verifier::external_body]
fn sha256(data: &[u8]) -> (r: Vec<u8>)
    ensures
        r@ == sha256_of(data@),
        r@.len() == 32,
{
    <sha2::Sha256 as sha2::Digest>::digest(data).to_vec()
}

/// What the block cipher's decryption of one block yields, as the
/// underlying crate computes it.
pub uninterp spec fn aes256_decrypt_block(key: Seq<u8>, block: Seq<u8>) -> Seq<u8>;

/// Relies on `aes::Aes256`: constructing the cipher from a 32-byte key
/// cannot fail, and decrypting one 16-byte block yields 16 bytes that
/// depend on key and block alone.
#[verifier::external_body]
fn aes256_block(key: &Vec<u8>, block: &Vec<u8>) -> (r: Vec<u8>)
    requires
        key@.len() == 32,
        block@.len() == 16,
    ensures
        r@ == aes256_decrypt_block(key@, block@),
        r@.len() == 16,
{
    let cipher = <aes::Aes256 as aes::cipher::KeyInit>::new_from_slice(key).unwrap();
    let mut b = aes::cipher::generic_array::GenericArray::clone_from_slice(block);
    aes::cipher::BlockDecrypt::decrypt_block(&cipher, &mut b);
    b.to_vec()
}

/// The content key: the digest of the fixed product passphrase's bytes.
pub open spec fn content_key() -> Seq<u8> {
    sha256_of(vstd::utf8::encode_utf8("iactive@2024"@))
}

/// Bytewise exclusive-or of two 16-byte blocks.
pub open spec fn xor_block(a: Seq<u8>, b: Seq<u8>) -> Seq<u8> {
    Seq::new(16, |i: int| a[i] ^ b[i])
}

/// Deciphered block `j` of a content file: the block cipher applied to
/// ciphertext block `j`, chained with the previous ciphertext block (the
/// initialization vector for the first).
pub open spec fn plain_block(key: Seq<u8>, data: Seq<u8>, j: int) -> Seq<u8> {
    xor_block(
        aes256_decrypt_block(key, data.subrange(16 * (j + 1), 16 * (j + 1) + 16)),
        data.subrange(16 * j, 16 * j + 16),
    )
}

/// The first `nb` deciphered blocks, concatenated.
pub open spec fn plain_blocks(key: Seq<u8>, data: Seq<u8>, nb: int) -> Seq<u8>
    decreases nb,
{
    if nb <= 0 {
        Seq::empty()
    } else {
        plain_blocks(key, data, nb - 1) + plain_block(key, data, nb - 1)
    }
}

/// A short tail, zero-padded to one block.
pub open spec fn zero_pad16(s: Seq<u8>) -> Seq<u8> {
    s + Seq::new((16 - s.len()) as nat, |i: int| 0u8)
}

/// The whole deciphered content of `data` (initialization vector followed
/// by ciphertext): every full block chained as usual, and a trailing
/// partial block zero-padded, deciphered against the last full ciphertext
/// block, and truncated to the tail's length.
pub open spec fn cbc_decrypt_spec(key: Seq<u8>, data: Seq<u8>) -> Seq<u8> {
    let ct_len = data.len() - 16;
    let nb = ct_len / 16;
    let rem = ct_len % 16;
    let full = plain_blocks(key, data, nb as int);
    if rem == 0 {
        full
    } else {
        let tail = data.subrange(data.len() - rem, data.len() as int);
        let prev = data.subrange(16 * nb as int, 16 * nb as int + 16);
        full + xor_block(aes256_decrypt_block(key, zero_pad16(tail)), prev).subrange(0, rem as int)
    }
}

/// Copies `v[a .. b]` into a fresh vector.
fn sub_bytes(v: &Vec<u8>, a: usize, b: usize) -> (r: Vec<u8>)
    requires
        a <= b <= v@.len(),
    ensures
        r@ == v@.subrange(a as int, b as int),
{
    let mut r: Vec<u8> = Vec::new();
    let mut i: usize = a;
    while i < b
        invariant
            a <= i <= b <= v@.len(),
            r@ == v@.subrange(a as int, i as int),
        decreases b - i,
    {
        r.push(v[i]);
        proof {
            assert(r@ =~= v@.subrange(a as int, i + 1));
        }
        i = i + 1;
    }
    r
}

/// Bytewise exclusive-or of two 16-byte vectors.
fn xor16(a: &Vec<u8>, b: &Vec<u8>) -> (r: Vec<u8>)
    requires
        a@.len() == 16,
        b@.len() == 16,
    ensures
        r@ == xor_block(a@, b@),
{
    let mut r: Vec<u8> = Vec::new();
    let mut i: usize = 0;
    while i < 16
        invariant
            a@.len() == 16,
            b@.len() == 16,
            i <= 16,
            r@.len() == i,
            forall|k: int| 0 <= k < i ==> r@[k] == (a@[k] ^ b@[k]),
        decreases 16 - i,
    {
        r.push(a[i] ^ b[i]);
        i = i + 1;
    }
    proof {
        assert(r@ =~= xor_block(a@, b@));
    }
    r
}

/// Deciphers a content file held in memory: the leading 16 bytes are the
/// initialization vector, the rest the ciphertext.  Fails exactly when the
/// input is too short to carry the vector.
pub fn decrypt_content(data: &Vec<u8>) -> (r: Result<Vec<u8>, String>)
    ensures
        (r is Ok) == (data@.len() >= 16),
        r matches Ok(p) ==> p@ == cbc_decrypt_spec(content_key(), data@),
{
    let n = data.len();
    if n < 16 {
        return Err("Invalid encrypted file format: file too small".to_owned());
    }
    let key = derive_content_key();
    let ct_len = n - 16;
    let nb = ct_len / 16;
    let rem = ct_len % 16;
    let mut out: Vec<u8> = Vec::new();
    let mut j: usize = 0;
    while j < nb
        invariant
            n == data@.len(),
            n >= 16,
            ct_len == n - 16,
            nb == ct_len / 16,
            key@ == content_key(),
            key@.len() == 32,
            j <= nb,
            16 * nb <= ct_len,
            out@ == plain_blocks(key@, data@, j as int),
        decreases nb - j,
    {
        let cstart = 16 * (j + 1);
        let prev = sub_bytes(data, cstart - 16, cstart);
        let cblk = sub_bytes(data, cstart, cstart + 16);
        let d = aes256_block(&key, &cblk);
        let mut p = xor16(&d, &prev);
        out.append(&mut p);
        proof {
            assert(out@ =~= plain_blocks(key@, data@, j + 1));
        }
        j = j + 1;
    }
    if rem != 0 {
        let tail = sub_bytes(data, n - rem, n);
        let mut padded = tail;
        proof {
            assert(padded@.subrange(0, rem as int) =~= data@.subrange((n - rem) as int, n as int));
        }
        while padded.len() < 16
            invariant
                n == data@.len(),
                rem < 16,
                rem <= padded@.len() <= 16,
                n >= 16 + rem,
                padded@.subrange(0, rem as int) == data@.subrange((n - rem) as int, n as int),
                forall|k: int| rem <= k < padded@.len() ==> padded@[k] == 0u8,
            decreases 16 - padded.len(),
        {
            padded.push(0u8);
            proof {
                assert(padded@.subrange(0, rem as int) =~= padded@.drop_last().subrange(
                    0,
                    rem as int,
                ));
            }
        }
        proof {
            assert(padded@ =~= zero_pad16(data@.subrange((n - rem) as int, n as int)));
        }
        let prev = sub_bytes(data, 16 * nb, 16 * nb + 16);
        let d = aes256_block(&key, &padded);
        let x = xor16(&d, &prev);
        let mut t = sub_bytes(&x, 0, rem);
        out.append(&mut t);
        proof {
            assert(out@ =~= cbc_decrypt_spec(content_key(), data@));
        }
    }
    Ok(out)
}

/// Derives the content key from the fixed product passphrase.
fn derive_content_key() -> (r: Vec<u8>)
    ensures
        r@ == content_key(),
        r@.len() == 32,
{
    let phrase = "iactive@2024";
    sha256(phrase.as_bytes())
}

// ------------------------------------------------------------------
// Quiz extraction
// ------------------------------------------------------------------
/// One quiz question as the application's front end consumes it.
#[derive(Debug, Clone)]
pub struct Question {
    pub text: String,
    pub options: Vec<String>,
    pub correct_answer: String,
    pub description: Option<String>,
}

/// A parsed quiz: its questions in document order.
#[derive(Debug)]
pub struct QuizData {
    pub questions: Vec<Question>,
}

/// Spec-level twin of [`Question`].
#[verifier::ext_equal]
pub struct QuestionV {
    pub text: Seq<char>,
    pub options: Seq<Seq<char>>,
    pub correct_answer: Seq<char>,
    pub description: Option<Seq<char>>,
}

impl View for Question {
    type V = QuestionV;

    open spec fn view(&self) -> QuestionV {
        QuestionV {
            text: self.text@,
            options: Seq::new(self.options@.len(), |i: int| self.options@[i]@),
            correct_answer: self.correct_answer@,
            description: match self.description {
                Some(d) => Some(d@),
                None => None,
            },
        }
    }
}

impl View for QuizData {
    type V = Seq<QuestionV>;

    open spec fn view(&self) -> Seq<QuestionV> {
        Seq::new(self.questions@.len(), |i: int| self.questions@[i]@)
    }
}

/// A question with every field still blank.
pub open spec fn blank_question() -> QuestionV {
    QuestionV {
        text: Seq::empty(),
        options: Seq::empty(),
        correct_answer: Seq::empty(),
        description: None,
    }
}

/// One event of the XML pull parser, reduced to what the quiz format
/// reads: element boundaries by local name, character data, the end of
/// the document, and the parser's own failure.
#[derive(Debug, Clone)]
pub enum QuizEvent {
    Start(String),
    Text(String),
    End(String),
    Finished,
    Fault(String),
    Other,
}

/// The extraction state while the events stream by: the questions closed
/// so far, the question being filled, whether an `options` list is open,
/// and the name of the innermost element whose content is being read.
#[verifier::ext_equal]
pub struct QuizStateV {
    pub questions: Seq<QuestionV>,
    pub cur: QuestionV,
    pub parsing_options: bool,
    pub cur_elem: Seq<char>,
}

/// The state before any event.
pub open spec fn quiz_initial_state() -> QuizStateV {
    QuizStateV {
        questions: Seq::empty(),
        cur: blank_question(),
        parsing_options: false,
        cur_elem: Seq::empty(),
    }
}

/// One extraction step: how a single event changes the state.
pub open spec fn quiz_step(st: QuizStateV, ev: QuizEvent) -> QuizStateV {
    match ev {
        QuizEvent::Start(name) => {
            if name@ == "question"@ {
                QuizStateV { cur: blank_question(), cur_elem: name@, ..st }
            } else if name@ == "options"@ {
                QuizStateV { parsing_options: true, cur_elem: name@, ..st }
            } else {
                QuizStateV { cur_elem: name@, ..st }
            }
        },
        QuizEvent::Text(t) => {
            if st.cur_elem == "text"@ {
                QuizStateV { cur: QuestionV { text: t@, ..st.cur }, ..st }
            } else if st.cur_elem == "option"@ && st.parsing_options && t@ != "-"@ {
                QuizStateV { cur: QuestionV { options: st.cur.options.push(t@), ..st.cur }, ..st }
            } else if st.cur_elem == "correctAnswer"@ {
                QuizStateV { cur: QuestionV { correct_answer: t@, ..st.cur }, ..st }
            } else if st.cur_elem == "description"@ && t@ != "-"@ {
                QuizStateV { cur: QuestionV { description: Some(t@), ..st.cur }, ..st }
            } else {
                st
            }
        },
        QuizEvent::End(name) => {
            if name@ == "question"@ {
                QuizStateV { questions: st.questions.push(st.cur), ..st }
            } else if name@ == "options"@ {
                QuizStateV { parsing_options: false, ..st }
            } else {
                st
            }
        },
        _ => st,
    }
}

/// What running the extraction over the events from position `i` in state
/// `st` yields: the closed questions at the end of the document, or the
/// parser's failure dressed in the error text.
pub open spec fn quiz_run(events: Seq<QuizEvent>, i: int, st: QuizStateV) -> Result<
    Seq<QuestionV>,
    Seq<char>,
>
    decreases events.len() - i,
{
    if i < 0 || i >= events.len() {
        Ok(st.questions)
    } else {
        match events[i] {
            QuizEvent::Fault(m) => Err("Error parsing XML: "@ + m@),
            QuizEvent::Finished => Ok(st.questions),
            _ => quiz_run(events, i + 1, quiz_step(st, events[i])),
        }
    }
}

/// What a whole event stream denotes.
pub open spec fn quiz_of_events(events: Seq<QuizEvent>) -> Result<Seq<QuestionV>, Seq<char>> {
    quiz_run(events, 0, quiz_initial_state())
}

/// A deep copy of a question.
fn clone_question(q: &Question) -> (r: Question)
    ensures
        r@ == q@,
{
    let n = q.options.len();
    let mut options: Vec<String> = Vec::new();
    let mut i: usize = 0;
    while i < n
        invariant
            n == q.options@.len(),
            i <= n,
            options@.len() == i,
            forall|k: int| 0 <= k < i ==> options@[k] == q.options@[k],
        decreases n - i,
    {
        options.push(q.options[i].clone());
        i = i + 1;
    }
    let r = Question {
        text: q.text.clone(),
        options,
        correct_answer: q.correct_answer.clone(),
        description: match &q.description {
            Some(d) => Some(d.clone()),
            None => None,
        },
    };
    proof {
        assert(r@.options =~= q@.options);
        assert(r@ == q@);
    }
    r
}

/// Folds an event stream into quiz data, exactly as [`quiz_of_events`]
/// states: the verified half of quiz parsing, usable on any stream.
pub fn build_quiz(events: &Vec<QuizEvent>) -> (r: Result<QuizData, String>)
    ensures
        match quiz_of_events(events@) {
            Ok(qs) => r matches Ok(q) && q@ == qs,
            Err(m) => r matches Err(e) && e@ == m,
        },
{
    let n = events.len();
    let mut questions: Vec<Question> = Vec::new();
    let mut cur = Question {
        text: String::new(),
        options: Vec::new(),
        correct_answer: String::new(),
        description: None,
    };
    let mut parsing_options = false;
    let mut cur_elem = String::new();
    let ghost mut st = quiz_initial_state();
    proof {
        assert(cur@ =~= blank_question());
        assert(st.questions =~= Seq::new(questions@.len(), |i: int| questions@[i]@));
    }
    let mut i: usize = 0;
    while i < n
        invariant
            n == events@.len(),
            i <= n,
            st.questions == Seq::new(questions@.len(), |k: int| questions@[k]@),
            st.cur == cur@,
            st.parsing_options == parsing_options,
            st.cur_elem == cur_elem@,
            quiz_of_events(events@) == quiz_run(events@, i as int, st),
        decreases n - i,
    {
        match &events[i] {
            QuizEvent::Fault(m) => {
                return Err("Error parsing XML: ".to_owned().concat(m.as_str()));
            },
            QuizEvent::Finished => {
                let r = QuizData { questions };
                proof {
                    assert(r@ =~= st.questions);
                }
                return Ok(r);
            },
            QuizEvent::Start(name) => {
                if str_eq(name.as_str(), "question") {
                    cur = Question {
                        text: String::new(),
                        options: Vec::new(),
                        correct_answer: String::new(),
                        description: None,
                    };
                } else if str_eq(name.as_str(), "options") {
                    parsing_options = true;
                }
                cur_elem = name.clone();
            },
            QuizEvent::Text(t) => {
                if str_eq(cur_elem.as_str(), "text") {
                    cur.text = t.clone();
                } else if str_eq(cur_elem.as_str(), "option") && parsing_options && !str_eq(
                    t.as_str(),
                    "-",
                ) {
                    cur.options.push(t.clone());
                    proof {
                        assert(cur@.options =~= quiz_step(st, events@[i as int]).cur.options);
                    }
                } else if str_eq(cur_elem.as_str(), "correctAnswer") {
                    cur.correct_answer = t.clone();
                } else if str_eq(cur_elem.as_str(), "description") && !str_eq(t.as_str(), "-") {
                    cur.description = Some(t.clone());
                }
            },
            QuizEvent::End(name) => {
                if str_eq(name.as_str(), "question") {
                    questions.push(clone_question(&cur));
                    proof {
                        assert(Seq::new(questions@.len(), |k: int| questions@[k]@)
                            =~= quiz_step(st, events@[i as int]).questions);
                    }
                } else if str_eq(name.as_str(), "options") {
                    parsing_options = false;
                }
            },
            QuizEvent::Other => {},
        }
        proof {
            st = quiz_step(st, events@[i as int]);
            assert(cur@ =~= st.cur);
        }
        i = i + 1;
    }
    let r = QuizData { questions };
    proof {
        assert(r@ =~= st.questions);
    }
    Ok(r)
}

/// Carries the XML crate's pull parser.  Its type cannot be declared to
/// the verifier (the generic parameter carries an outside trait bound),
/// so the reader lives inside this opaque holder.
#[verifier::external_body]
struct QuizReader<'a> {
    inner: xml::reader::EventReader<&'a [u8]>,
}

/// Relies on `xml::reader::EventReader::new`: opens a pull parser over the
/// in-memory document text.
#[verifier::external_body]
fn open_xml_reader<'a>(content: &'a str) -> (r: QuizReader<'a>) {
    QuizReader { inner: xml::reader::EventReader::new(content.as_bytes()) }
}

/// Relies on `xml::reader::EventReader::next`: pulls the next event and
/// keeps what the quiz format reads (local element names, character data,
/// end of document, the parser's failure text).  Which event comes depends
/// on the reader's internal position, so nothing is stated of the result;
/// the fold is verified for every possible stream.
#[verifier::external_body]
fn next_quiz_event(r: &mut QuizReader) -> (e: QuizEvent) {
    match r.inner.next() {
        Ok(xml::reader::XmlEvent::StartElement { name, .. }) => QuizEvent::Start(name.local_name),
        Ok(xml::reader::XmlEvent::Characters(t)) => QuizEvent::Text(t),
        Ok(xml::reader::XmlEvent::EndElement { name }) => QuizEvent::End(name.local_name),
        Ok(xml::reader::XmlEvent::EndDocument) => QuizEvent::Finished,
        Ok(_) => QuizEvent::Other,
        Err(e) => QuizEvent::Fault(e.to_string()),
    }
}

/// Parses the XML text of a quiz file into quiz data.
///
/// The XML crate pulls the events; the verified fold of [`build_quiz`]
/// decides everything afterwards.  The pull loop is bounded by the length
/// of the document plus a small margin, which no well-formed document
/// exceeds, since the parser ends every stream with an end-of-document or
/// failure event; a stream still unfinished at the bound is reported as a
/// parse failure.
pub fn parse_xml_quiz(content: &str) -> (r: Result<QuizData, String>) {
    let mut reader = open_xml_reader(content);
    let mut events: Vec<QuizEvent> = Vec::new();
    let mut fuel = content.unicode_len();
    if fuel < usize::MAX - 8 {
        fuel = fuel + 8;
    }
    let mut done = false;
    while !done && fuel > 0
        invariant
            true,
        decreases fuel,
    {
        let e = next_quiz_event(&mut reader);
        let stop = match &e {
            QuizEvent::Finished => true,
            QuizEvent::Fault(_) => true,
            _ => false,
        };
        events.push(e);
        if stop {
            done = true;
        }
        fuel = fuel - 1;
    }
    if !done {
        events.push(QuizEvent::Fault("document does not end".to_owned()));
    }
    build_quiz(&events)
}

} // verus!
