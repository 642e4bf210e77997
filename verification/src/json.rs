//! The JSON subset the licensing protocol speaks, as a verified codec.
//!
//! Request and response bodies of the remote authority are objects whose
//! values are strings or one level of nested objects of strings:
//! `{"message": m, "productKey": {"expiry_date": e}, ...}`.  This module
//! defines that grammar over character sequences, a serializer for request
//! bodies, and a parser for response bodies, each with an exact contract
//! against the spec-level grammar.  Tokens may be separated by blanks,
//! string literals know the common escapes and `\u00XX`-style codes below
//! `0x80`; any other construct (arrays, numbers, booleans) is outside the
//! protocol and rejected.

use vstd::prelude::*;
use vstd::string::StrSliceExecFns;
use vstd::string::StringExecFns;

use crate::strutil::digit_char;
use crate::strutil::digit_val;
use crate::strutil::is_digit;
use crate::strutil::push_char;

verus! {

// ------------------------------------------------------------------
// Document model
// ------------------------------------------------------------------
/// One `"key": "value"` pair of a nested object.
#[derive(Debug, Clone)]
pub struct JsonStrEntry {
    pub key: String,
    pub value: String,
}

/// A value of the protocol grammar: a string, or a flat object of strings.
#[derive(Debug, Clone)]
pub enum JsonValue {
    Str(String),
    Obj(Vec<JsonStrEntry>),
}

/// One top-level `"key": value` pair.
#[derive(Debug, Clone)]
pub struct JsonEntry {
    pub key: String,
    pub value: JsonValue,
}

/// A protocol body: a top-level object.
#[derive(Debug, Clone)]
pub struct JsonDoc {
    pub entries: Vec<JsonEntry>,
}

/// Spec-level twin of [`JsonValue`].
pub enum JsonValueV {
    Str(Seq<char>),
    Obj(Seq<(Seq<char>, Seq<char>)>),
}

/// Spec-level contents of a nested object.
pub open spec fn str_entries_view(v: Seq<JsonStrEntry>) -> Seq<(Seq<char>, Seq<char>)> {
    Seq::new(v.len(), |k: int| (v[k].key@, v[k].value@))
}

impl View for JsonValue {
    type V = JsonValueV;

    open spec fn view(&self) -> JsonValueV {
        match self {
            JsonValue::Str(s) => JsonValueV::Str(s@),
            JsonValue::Obj(m) => JsonValueV::Obj(str_entries_view(m@)),
        }
    }
}

/// Spec-level contents of a top-level object.
pub open spec fn entries_view(v: Seq<JsonEntry>) -> Seq<(Seq<char>, JsonValueV)> {
    Seq::new(v.len(), |k: int| (v[k].key@, v[k].value@))
}

impl View for JsonDoc {
    type V = Seq<(Seq<char>, JsonValueV)>;

    open spec fn view(&self) -> Seq<(Seq<char>, JsonValueV)> {
        entries_view(self.entries@)
    }
}

impl JsonDoc {
    /// An object with no members yet.
    pub fn new() -> (r: JsonDoc)
        ensures
            r@ == Seq::<(Seq<char>, JsonValueV)>::empty(),
    {
        let r = JsonDoc { entries: Vec::new() };
        proof {
            assert(r@ =~= Seq::<(Seq<char>, JsonValueV)>::empty());
        }
        r
    }

    /// Appends a string-valued member.
    pub fn push_str_field(&mut self, key: &str, value: &str)
        ensures
            final(self)@ == old(self)@.push((key@, JsonValueV::Str(value@))),
    {
        self.entries.push(JsonEntry { key: key.to_owned(), value: JsonValue::Str(value.to_owned()) });
        proof {
            assert(self@ =~= old(self)@.push((key@, JsonValueV::Str(value@))));
        }
    }
}

/// First binding of `key` in a top-level object.
pub open spec fn doc_lookup(d: Seq<(Seq<char>, JsonValueV)>, key: Seq<char>) -> Option<JsonValueV>
    decreases d.len(),
{
    if d.len() == 0 {
        None
    } else if d[0].0 == key {
        Some(d[0].1)
    } else {
        doc_lookup(d.drop_first(), key)
    }
}

/// First binding of `key` in a nested object.
pub open spec fn obj_lookup(m: Seq<(Seq<char>, Seq<char>)>, key: Seq<char>) -> Option<Seq<char>>
    decreases m.len(),
{
    if m.len() == 0 {
        None
    } else if m[0].0 == key {
        Some(m[0].1)
    } else {
        obj_lookup(m.drop_first(), key)
    }
}

// ------------------------------------------------------------------
// Grammar: characters
// ------------------------------------------------------------------
/// Blank characters allowed between tokens.
pub open spec fn is_ws(c: char) -> bool {
    c == ' ' || c == '\n' || c == '\r' || c == '\t'
}

/// `c` is a hexadecimal digit.
pub open spec fn is_hex(c: char) -> bool {
    is_digit(c) || (97 <= c as u32 && c as u32 <= 102) || (65 <= c as u32 && c as u32 <= 70)
}

/// Numeric value of a hexadecimal digit.
pub open spec fn hex_val(c: char) -> int {
    if is_digit(c) {
        digit_val(c)
    } else if 97 <= c as u32 && c as u32 <= 102 {
        c as u32 - 87
    } else {
        c as u32 - 55
    }
}

/// Lower-case hexadecimal digit with value `d < 16`.
pub open spec fn hex_digit_char(d: int) -> char {
    if d <= 9 {
        digit_char(d)
    } else if d == 10 {
        'a'
    } else if d == 11 {
        'b'
    } else if d == 12 {
        'c'
    } else if d == 13 {
        'd'
    } else if d == 14 {
        'e'
    } else {
        'f'
    }
}

/// The character a one-letter escape stands for.
pub open spec fn unescape_char(c: char) -> Option<char> {
    if c == '"' {
        Some('"')
    } else if c == '\\' {
        Some('\\')
    } else if c == '/' {
        Some('/')
    } else if c == 'n' {
        Some('\n')
    } else if c == 't' {
        Some('\t')
    } else if c == 'r' {
        Some('\r')
    } else if c == 'b' {
        Some(8u8 as char)
    } else if c == 'f' {
        Some(12u8 as char)
    } else {
        None
    }
}

// ------------------------------------------------------------------
// Grammar: spec-level parser
// ------------------------------------------------------------------
/// First index at or after `i` that does not hold a blank.
pub open spec fn skip_ws(s: Seq<char>, i: int) -> int
    decreases s.len() - i,
{
    if 0 <= i && i < s.len() && is_ws(s[i]) {
        skip_ws(s, i + 1)
    } else {
        i
    }
}

pub proof fn lemma_skip_ws_bounds(s: Seq<char>, i: int)
    ensures
        i <= skip_ws(s, i),
        i <= s.len() ==> skip_ws(s, i) <= s.len(),
        0 <= skip_ws(s, i) < s.len() ==> !is_ws(s[skip_ws(s, i)]),
    decreases s.len() - i,
{
    if 0 <= i && i < s.len() && is_ws(s[i]) {
        lemma_skip_ws_bounds(s, i + 1);
    }
}

/// The characters of a string literal read from after its opening quote,
/// with the index just past the closing quote.
pub open spec fn parse_string_body(s: Seq<char>, i: int) -> Option<(Seq<char>, int)>
    decreases s.len() - i,
{
    if i < 0 || i >= s.len() {
        None
    } else if s[i] == '"' {
        Some((Seq::empty(), i + 1))
    } else if s[i] == '\\' {
        if i + 1 >= s.len() {
            None
        } else if s[i + 1] == 'u' {
            if i + 5 >= s.len() {
                None
            } else if is_hex(s[i + 2]) && is_hex(s[i + 3]) && is_hex(s[i + 4]) && is_hex(s[i + 5]) {
                let code = hex_val(s[i + 2]) * 4096 + hex_val(s[i + 3]) * 256 + hex_val(s[i + 4])
                    * 16 + hex_val(s[i + 5]);
                if code < 128 {
                    match parse_string_body(s, i + 6) {
                        Some((t, j)) => Some((seq![(code as u8) as char] + t, j)),
                        None => None,
                    }
                } else {
                    None
                }
            } else {
                None
            }
        } else {
            match unescape_char(s[i + 1]) {
                Some(c) => match parse_string_body(s, i + 2) {
                    Some((t, j)) => Some((seq![c] + t, j)),
                    None => None,
                },
                None => None,
            }
        }
    } else {
        match parse_string_body(s, i + 1) {
            Some((t, j)) => Some((seq![s[i]] + t, j)),
            None => None,
        }
    }
}

pub proof fn lemma_string_body_bounds(s: Seq<char>, i: int)
    ensures
        parse_string_body(s, i) matches Some(p) ==> i < p.1 <= s.len(),
    decreases s.len() - i,
{
    if 0 <= i && i < s.len() {
        lemma_string_body_bounds(s, i + 1);
        if i + 2 <= s.len() {
            lemma_string_body_bounds(s, i + 2);
        }
        if i + 6 <= s.len() {
            lemma_string_body_bounds(s, i + 6);
        }
    }
}

/// A string literal starting at `i` with its opening quote.
pub open spec fn parse_string(s: Seq<char>, i: int) -> Option<(Seq<char>, int)> {
    if 0 <= i && i < s.len() && s[i] == '"' {
        parse_string_body(s, i + 1)
    } else {
        None
    }
}

pub proof fn lemma_string_bounds(s: Seq<char>, i: int)
    ensures
        parse_string(s, i) matches Some(p) ==> 0 <= i < p.1 <= s.len(),
{
    lemma_string_body_bounds(s, i + 1);
}

/// The members of a nested object of strings, read from the first key's
/// quote, with the index just past the closing brace.
pub open spec fn parse_flat_members(s: Seq<char>, i: int) -> Option<
    (Seq<(Seq<char>, Seq<char>)>, int),
>
    decreases s.len() - i,
    via parse_flat_members_dec
{
    match parse_string(s, i) {
        None => None,
        Some((key, j)) => {
            let j2 = skip_ws(s, j);
            if j2 < s.len() && s[j2] == ':' {
                let j3 = skip_ws(s, j2 + 1);
                match parse_string(s, j3) {
                    None => None,
                    Some((val, j4)) => {
                        let j5 = skip_ws(s, j4);
                        if j5 < s.len() && s[j5] == ',' {
                            let j6 = skip_ws(s, j5 + 1);
                            match parse_flat_members(s, j6) {
                                None => None,
                                Some((rest, j7)) => Some((seq![(key, val)] + rest, j7)),
                            }
                        } else if j5 < s.len() && s[j5] == '}' {
                            Some((seq![(key, val)], j5 + 1))
                        } else {
                            None
                        }
                    },
                }
            } else {
                None
            }
        },
    }
}

#[via_fn]
proof fn parse_flat_members_dec(s: Seq<char>, i: int) {
    assert forall|k: int|
        match #[trigger] parse_string(s, k) {
            Some(p) => 0 <= k < p.1 <= s.len(),
            None => true,
        } by {
        lemma_string_bounds(s, k);
    }
    assert forall|k: int| k <= s.len() implies k <= #[trigger] skip_ws(s, k) <= s.len() by {
        lemma_skip_ws_bounds(s, k);
    }
}

pub proof fn lemma_flat_members_bounds(s: Seq<char>, i: int)
    ensures
        parse_flat_members(s, i) matches Some(p) ==> 0 <= i < p.1 <= s.len(),
    decreases s.len() - i,
{
    if parse_flat_members(s, i) is Some {
        lemma_string_bounds(s, i);
        let (key, j) = parse_string(s, i).unwrap();
        lemma_skip_ws_bounds(s, j);
        let j2 = skip_ws(s, j);
        if j2 < s.len() && s[j2] == ':' {
            lemma_skip_ws_bounds(s, j2 + 1);
            let j3 = skip_ws(s, j2 + 1);
            lemma_string_bounds(s, j3);
            if parse_string(s, j3) is Some {
                let (val, j4) = parse_string(s, j3).unwrap();
                lemma_skip_ws_bounds(s, j4);
                let j5 = skip_ws(s, j4);
                if j5 < s.len() && s[j5] == ',' {
                    lemma_skip_ws_bounds(s, j5 + 1);
                    lemma_flat_members_bounds(s, skip_ws(s, j5 + 1));
                }
            }
        }
    }
}

/// A protocol value starting at `i`: a string, or a flat object.
pub open spec fn parse_value(s: Seq<char>, i: int) -> Option<(JsonValueV, int)> {
    if 0 <= i && i < s.len() && s[i] == '"' {
        match parse_string(s, i) {
            Some((t, j)) => Some((JsonValueV::Str(t), j)),
            None => None,
        }
    } else if 0 <= i && i < s.len() && s[i] == '{' {
        let j = skip_ws(s, i + 1);
        if j < s.len() && s[j] == '}' {
            Some((JsonValueV::Obj(Seq::empty()), j + 1))
        } else {
            match parse_flat_members(s, j) {
                Some((m, k)) => Some((JsonValueV::Obj(m), k)),
                None => None,
            }
        }
    } else {
        None
    }
}

pub proof fn lemma_value_bounds(s: Seq<char>, i: int)
    ensures
        parse_value(s, i) matches Some(p) ==> 0 <= i < p.1 <= s.len(),
{
    lemma_string_bounds(s, i);
    if 0 <= i && i < s.len() && s[i] == '{' {
        lemma_skip_ws_bounds(s, i + 1);
        lemma_flat_members_bounds(s, skip_ws(s, i + 1));
    }
}

/// The members of the top-level object, read from the first key's quote,
/// with the index just past the closing brace.
pub open spec fn parse_members(s: Seq<char>, i: int) -> Option<(Seq<(Seq<char>, JsonValueV)>, int)>
    decreases s.len() - i,
    via parse_members_dec
{
    match parse_string(s, i) {
        None => None,
        Some((key, j)) => {
            let j2 = skip_ws(s, j);
            if j2 < s.len() && s[j2] == ':' {
                let j3 = skip_ws(s, j2 + 1);
                match parse_value(s, j3) {
                    None => None,
                    Some((val, j4)) => {
                        let j5 = skip_ws(s, j4);
                        if j5 < s.len() && s[j5] == ',' {
                            let j6 = skip_ws(s, j5 + 1);
                            match parse_members(s, j6) {
                                None => None,
                                Some((rest, j7)) => Some((seq![(key, val)] + rest, j7)),
                            }
                        } else if j5 < s.len() && s[j5] == '}' {
                            Some((seq![(key, val)], j5 + 1))
                        } else {
                            None
                        }
                    },
                }
            } else {
                None
            }
        },
    }
}

#[via_fn]
proof fn parse_members_dec(s: Seq<char>, i: int) {
    assert forall|k: int|
        match #[trigger] parse_string(s, k) {
            Some(p) => 0 <= k < p.1 <= s.len(),
            None => true,
        } by {
        lemma_string_bounds(s, k);
    }
    assert forall|k: int|
        match #[trigger] parse_value(s, k) {
            Some(p) => 0 <= k < p.1 <= s.len(),
            None => true,
        } by {
        lemma_value_bounds(s, k);
    }
    assert forall|k: int| k <= s.len() implies k <= #[trigger] skip_ws(s, k) <= s.len() by {
        lemma_skip_ws_bounds(s, k);
    }
}

pub proof fn lemma_members_bounds(s: Seq<char>, i: int)
    ensures
        parse_members(s, i) matches Some(p) ==> 0 <= i < p.1 <= s.len(),
    decreases s.len() - i,
{
    if parse_members(s, i) is Some {
        lemma_string_bounds(s, i);
        let (key, j) = parse_string(s, i).unwrap();
        lemma_skip_ws_bounds(s, j);
        let j2 = skip_ws(s, j);
        if j2 < s.len() && s[j2] == ':' {
            lemma_skip_ws_bounds(s, j2 + 1);
            let j3 = skip_ws(s, j2 + 1);
            lemma_value_bounds(s, j3);
            if parse_value(s, j3) is Some {
                let (val, j4) = parse_value(s, j3).unwrap();
                lemma_skip_ws_bounds(s, j4);
                let j5 = skip_ws(s, j4);
                if j5 < s.len() && s[j5] == ',' {
                    lemma_skip_ws_bounds(s, j5 + 1);
                    lemma_members_bounds(s, skip_ws(s, j5 + 1));
                }
            }
        }
    }
}

/// What a whole protocol body denotes: the top-level members, when the text
/// is one object with nothing but blanks around it.
pub open spec fn parse_doc_text(s: Seq<char>) -> Option<Seq<(Seq<char>, JsonValueV)>> {
    let i = skip_ws(s, 0);
    if i < s.len() && s[i] == '{' {
        let j = skip_ws(s, i + 1);
        if j < s.len() && s[j] == '}' {
            if skip_ws(s, j + 1) == s.len() {
                Some(Seq::empty())
            } else {
                None
            }
        } else {
            match parse_members(s, j) {
                Some((m, k)) => {
                    if skip_ws(s, k) == s.len() {
                        Some(m)
                    } else {
                        None
                    }
                },
                None => None,
            }
        }
    } else {
        None
    }
}

// ------------------------------------------------------------------
// Executable parser
// ------------------------------------------------------------------
/// Executable twin of [`is_ws`].
fn is_ws_char(c: char) -> (r: bool)
    ensures
        r == is_ws(c),
{
    c == ' ' || c == '\n' || c == '\r' || c == '\t'
}

/// Executable twin of [`is_hex`].
fn is_hex_char(c: char) -> (r: bool)
    ensures
        r == is_hex(c),
{
    let v = c as u32;
    (48 <= v && v <= 57) || (97 <= v && v <= 102) || (65 <= v && v <= 70)
}

/// Executable twin of [`hex_val`].
fn hex_of_char(c: char) -> (d: u32)
    requires
        is_hex(c),
    ensures
        d == hex_val(c),
        d <= 15,
{
    let v = c as u32;
    if 48 <= v && v <= 57 {
        v - 48
    } else if 97 <= v {
        v - 87
    } else {
        v - 55
    }
}

/// Executable twin of [`unescape_char`].
fn unescape_of(c: char) -> (r: Option<char>)
    ensures
        r == unescape_char(c),
{
    if c == '"' {
        Some('"')
    } else if c == '\\' {
        Some('\\')
    } else if c == '/' {
        Some('/')
    } else if c == 'n' {
        Some('\n')
    } else if c == 't' {
        Some('\t')
    } else if c == 'r' {
        Some('\r')
    } else if c == 'b' {
        Some(8u8 as char)
    } else if c == 'f' {
        Some(12u8 as char)
    } else {
        None
    }
}

/// Advances past blanks.
fn skip_blanks(v: &Vec<char>, i: usize) -> (r: usize)
    requires
        i <= v@.len(),
    ensures
        r as int == skip_ws(v@, i as int),
        i <= r <= v@.len(),
{
    let mut j = i;
    while j < v.len() && is_ws_char(v[j])
        invariant
            i <= j <= v@.len(),
            skip_ws(v@, i as int) == skip_ws(v@, j as int),
        decreases v@.len() - j,
    {
        proof {
            assert(skip_ws(v@, j as int) == skip_ws(v@, j + 1));
        }
        j = j + 1;
    }
    proof {
        assert(skip_ws(v@, j as int) == j);
    }
    j
}

/// A fresh string holding `c` followed by `t`.
fn prepend_char(c: char, t: String) -> (r: String)
    ensures
        r@ == seq![c] + t@,
{
    let mut out = String::new();
    push_char(&mut out, c);
    let r = out.concat(t.as_str());
    proof {
        assert(r@ =~= seq![c] + t@);
    }
    r
}

/// Reads a string literal body, mirroring [`parse_string_body`].
fn parse_string_body_at(v: &Vec<char>, i: usize) -> (r: Option<(String, usize)>)
    ensures
        (r is Some) == (parse_string_body(v@, i as int) is Some),
        r matches Some(p) ==> parse_string_body(v@, i as int) == Some((p.0@, p.1 as int)),
    decreases v@.len() - i,
{
    if i >= v.len() {
        return None;
    }
    let c = v[i];
    if c == '"' {
        Some((String::new(), i + 1))
    } else if c == '\\' {
        if i + 1 >= v.len() {
            return None;
        }
        let e = v[i + 1];
        if e == 'u' {
            if v.len() - i <= 5 {
                return None;
            }
            let h2 = v[i + 2];
            let h3 = v[i + 3];
            let h4 = v[i + 4];
            let h5 = v[i + 5];
            if !(is_hex_char(h2) && is_hex_char(h3) && is_hex_char(h4) && is_hex_char(h5)) {
                return None;
            }
            let code: u32 = hex_of_char(h2) * 4096 + hex_of_char(h3) * 256 + hex_of_char(h4) * 16
                + hex_of_char(h5);
            if code >= 128 {
                return None;
            }
            match parse_string_body_at(v, i + 6) {
                None => None,
                Some((t, j)) => Some((prepend_char((code as u8) as char, t), j)),
            }
        } else {
            match unescape_of(e) {
                None => None,
                Some(c2) => match parse_string_body_at(v, i + 2) {
                    None => None,
                    Some((t, j)) => Some((prepend_char(c2, t), j)),
                },
            }
        }
    } else {
        match parse_string_body_at(v, i + 1) {
            None => None,
            Some((t, j)) => Some((prepend_char(c, t), j)),
        }
    }
}

/// Reads a string literal, mirroring [`parse_string`].
fn parse_string_at(v: &Vec<char>, i: usize) -> (r: Option<(String, usize)>)
    ensures
        (r is Some) == (parse_string(v@, i as int) is Some),
        r matches Some(p) ==> parse_string(v@, i as int) == Some((p.0@, p.1 as int)),
{
    if i < v.len() && v[i] == '"' {
        parse_string_body_at(v, i + 1)
    } else {
        None
    }
}

/// Reads the members of a nested object, mirroring [`parse_flat_members`].
fn parse_flat_members_at(v: &Vec<char>, i: usize) -> (r: Option<(Vec<JsonStrEntry>, usize)>)
    ensures
        (r is Some) == (parse_flat_members(v@, i as int) is Some),
        r matches Some(p) ==> parse_flat_members(v@, i as int) == Some(
            (str_entries_view(p.0@), p.1 as int),
        ),
    decreases v@.len() - i,
{
    proof {
        lemma_string_bounds(v@, i as int);
    }
    let (key, j) = match parse_string_at(v, i) {
        None => {
            return None;
        },
        Some(p) => p,
    };
    let j2 = skip_blanks(v, j);
    if !(j2 < v.len() && v[j2] == ':') {
        return None;
    }
    let j3 = skip_blanks(v, j2 + 1);
    proof {
        lemma_string_bounds(v@, j3 as int);
    }
    let (val, j4) = match parse_string_at(v, j3) {
        None => {
            return None;
        },
        Some(p) => p,
    };
    let j5 = skip_blanks(v, j4);
    if j5 < v.len() && v[j5] == ',' {
        let j6 = skip_blanks(v, j5 + 1);
        match parse_flat_members_at(v, j6) {
            None => None,
            Some((rest, j7)) => {
                let ghost rest_view = rest@;
                let mut items = rest;
                items.insert(0, JsonStrEntry { key, value: val });
                proof {
                    assert(items@.drop_first() =~= rest_view);
                    assert(str_entries_view(items@) =~= seq![(key@, val@)] + str_entries_view(
                        rest_view,
                    ));
                }
                Some((items, j7))
            },
        }
    } else if j5 < v.len() && v[j5] == '}' {
        let mut items: Vec<JsonStrEntry> = Vec::new();
        items.push(JsonStrEntry { key, value: val });
        proof {
            assert(str_entries_view(items@) =~= seq![(key@, val@)]);
        }
        Some((items, j5 + 1))
    } else {
        None
    }
}

/// Reads one protocol value, mirroring [`parse_value`].
fn parse_value_at(v: &Vec<char>, i: usize) -> (r: Option<(JsonValue, usize)>)
    ensures
        (r is Some) == (parse_value(v@, i as int) is Some),
        r matches Some(p) ==> parse_value(v@, i as int) == Some((p.0@, p.1 as int)),
{
    if i < v.len() && v[i] == '"' {
        match parse_string_at(v, i) {
            None => None,
            Some((t, j)) => Some((JsonValue::Str(t), j)),
        }
    } else if i < v.len() && v[i] == '{' {
        let j = skip_blanks(v, i + 1);
        if j < v.len() && v[j] == '}' {
            let empty: Vec<JsonStrEntry> = Vec::new();
            proof {
                assert(str_entries_view(empty@) =~= Seq::<(Seq<char>, Seq<char>)>::empty());
            }
            Some((JsonValue::Obj(empty), j + 1))
        } else {
            match parse_flat_members_at(v, j) {
                None => None,
                Some((m, k)) => Some((JsonValue::Obj(m), k)),
            }
        }
    } else {
        None
    }
}

/// Reads the members of the top-level object, mirroring [`parse_members`].
fn parse_members_at(v: &Vec<char>, i: usize) -> (r: Option<(Vec<JsonEntry>, usize)>)
    ensures
        (r is Some) == (parse_members(v@, i as int) is Some),
        r matches Some(p) ==> parse_members(v@, i as int) == Some(
            (entries_view(p.0@), p.1 as int),
        ),
    decreases v@.len() - i,
{
    proof {
        lemma_string_bounds(v@, i as int);
    }
    let (key, j) = match parse_string_at(v, i) {
        None => {
            return None;
        },
        Some(p) => p,
    };
    let j2 = skip_blanks(v, j);
    if !(j2 < v.len() && v[j2] == ':') {
        return None;
    }
    let j3 = skip_blanks(v, j2 + 1);
    proof {
        lemma_value_bounds(v@, j3 as int);
    }
    let (val, j4) = match parse_value_at(v, j3) {
        None => {
            return None;
        },
        Some(p) => p,
    };
    let j5 = skip_blanks(v, j4);
    if j5 < v.len() && v[j5] == ',' {
        let j6 = skip_blanks(v, j5 + 1);
        match parse_members_at(v, j6) {
            None => None,
            Some((rest, j7)) => {
                let ghost rest_view = rest@;
                let mut items = rest;
                items.insert(0, JsonEntry { key, value: val });
                proof {
                    assert(items@.drop_first() =~= rest_view);
                    assert(entries_view(items@) =~= seq![(key@, val@)] + entries_view(rest_view));
                }
                Some((items, j7))
            },
        }
    } else if j5 < v.len() && v[j5] == '}' {
        let mut items: Vec<JsonEntry> = Vec::new();
        items.push(JsonEntry { key, value: val });
        proof {
            assert(entries_view(items@) =~= seq![(key@, val@)]);
        }
        Some((items, j5 + 1))
    } else {
        None
    }
}

/// Parses a whole protocol body.
pub fn parse_json(s: &str) -> (r: Option<JsonDoc>)
    ensures
        (r is Some) == (parse_doc_text(s@) is Some),
        r matches Some(d) ==> parse_doc_text(s@) == Some(d@),
{
    let v = crate::strutil::str_to_chars(s);
    let i = skip_blanks(&v, 0);
    if !(i < v.len() && v[i] == '{') {
        return None;
    }
    let j = skip_blanks(&v, i + 1);
    if j < v.len() && v[j] == '}' {
        if skip_blanks(&v, j + 1) == v.len() {
            let d = JsonDoc { entries: Vec::new() };
            proof {
                assert(d@ =~= Seq::<(Seq<char>, JsonValueV)>::empty());
            }
            Some(d)
        } else {
            None
        }
    } else {
        match parse_members_at(&v, j) {
            None => None,
            Some((m, k)) => {
                proof {
                    lemma_members_bounds(v@, j as int);
                }
                if skip_blanks(&v, k) == v.len() {
                    Some(JsonDoc { entries: m })
                } else {
                    None
                }
            },
        }
    }
}

/// First value bound to `key` at the top level.
pub fn doc_get<'a>(d: &'a JsonDoc, key: &str) -> (r: Option<&'a JsonValue>)
    ensures
        match r {
            Some(v) => doc_lookup(d@, key@) == Some(v@),
            None => doc_lookup(d@, key@) is None,
        },
{
    let n = d.entries.len();
    let mut i: usize = 0;
    proof {
        assert(d@.skip(0) =~= d@);
    }
    while i < n
        invariant
            n == d.entries@.len(),
            i <= n,
            doc_lookup(d@, key@) == doc_lookup(d@.skip(i as int), key@),
        decreases n - i,
    {
        if crate::strutil::str_eq(d.entries[i].key.as_str(), key) {
            proof {
                assert(d@.skip(i as int)[0] == (d.entries@[i as int].key@,
                d.entries@[i as int].value@));
            }
            return Some(&d.entries[i].value);
        }
        proof {
            assert(d@.skip(i as int).drop_first() =~= d@.skip(i + 1));
            assert(d@.skip(i as int)[0].0 == d.entries@[i as int].key@);
        }
        i = i + 1;
    }
    proof {
        assert(d@.skip(i as int) =~= Seq::<(Seq<char>, JsonValueV)>::empty());
    }
    None
}

/// First value bound to `key` in a nested object, as a fresh string.
pub fn obj_get(m: &Vec<JsonStrEntry>, key: &str) -> (r: Option<String>)
    ensures
        match r {
            Some(v) => obj_lookup(str_entries_view(m@), key@) == Some(v@),
            None => obj_lookup(str_entries_view(m@), key@) is None,
        },
{
    let n = m.len();
    let mut i: usize = 0;
    proof {
        assert(str_entries_view(m@).skip(0) =~= str_entries_view(m@));
    }
    while i < n
        invariant
            n == m@.len(),
            i <= n,
            obj_lookup(str_entries_view(m@), key@) == obj_lookup(
                str_entries_view(m@).skip(i as int),
                key@,
            ),
        decreases n - i,
    {
        if crate::strutil::str_eq(m[i].key.as_str(), key) {
            proof {
                assert(str_entries_view(m@).skip(i as int)[0] == (m@[i as int].key@,
                m@[i as int].value@));
            }
            return Some(m[i].value.clone());
        }
        proof {
            assert(str_entries_view(m@).skip(i as int).drop_first() =~= str_entries_view(m@).skip(
                i + 1,
            ));
            assert(str_entries_view(m@).skip(i as int)[0].0 == m@[i as int].key@);
        }
        i = i + 1;
    }
    proof {
        assert(str_entries_view(m@).skip(i as int) =~= Seq::<(Seq<char>, Seq<char>)>::empty());
    }
    None
}

// ------------------------------------------------------------------
// Serializer
// ------------------------------------------------------------------
/// How one character of a string member is written: itself, a one-letter
/// escape, or a `\u00XX` code for the remaining control characters.
pub open spec fn escape_char_seq(c: char) -> Seq<char> {
    if c == '"' {
        seq!['\\', '"']
    } else if c == '\\' {
        seq!['\\', '\\']
    } else if c == '\n' {
        seq!['\\', 'n']
    } else if c == '\r' {
        seq!['\\', 'r']
    } else if c == '\t' {
        seq!['\\', 't']
    } else if (c as u32) < 32 {
        seq!['\\', 'u', '0', '0', hex_digit_char(c as u32 as int / 16), hex_digit_char(c as u32 as int % 16)]
    } else {
        seq![c]
    }
}

/// A whole string member, escaped.
pub open spec fn escape_seq(s: Seq<char>) -> Seq<char>
    decreases s.len(),
{
    if s.len() == 0 {
        Seq::empty()
    } else {
        escape_seq(s.drop_last()) + escape_char_seq(s.last())
    }
}

/// A string literal: quotes around the escaped characters.
pub open spec fn quoted(s: Seq<char>) -> Seq<char> {
    seq!['"'] + escape_seq(s) + seq!['"']
}

/// The members of a nested object, comma-separated.
pub open spec fn ser_str_members(m: Seq<(Seq<char>, Seq<char>)>) -> Seq<char>
    decreases m.len(),
{
    if m.len() == 0 {
        Seq::empty()
    } else if m.len() == 1 {
        quoted(m[0].0) + seq![':'] + quoted(m[0].1)
    } else {
        ser_str_members(m.drop_last()) + seq![','] + quoted(m.last().0) + seq![':'] + quoted(
            m.last().1,
        )
    }
}

/// One serialized value.
pub open spec fn ser_value(v: JsonValueV) -> Seq<char> {
    match v {
        JsonValueV::Str(t) => quoted(t),
        JsonValueV::Obj(m) => seq!['{'] + ser_str_members(m) + seq!['}'],
    }
}

/// The members of the top-level object, comma-separated.
pub open spec fn ser_members(d: Seq<(Seq<char>, JsonValueV)>) -> Seq<char>
    decreases d.len(),
{
    if d.len() == 0 {
        Seq::empty()
    } else if d.len() == 1 {
        quoted(d[0].0) + seq![':'] + ser_value(d[0].1)
    } else {
        ser_members(d.drop_last()) + seq![','] + quoted(d.last().0) + seq![':'] + ser_value(
            d.last().1,
        )
    }
}

/// A whole serialized body.
pub open spec fn ser_doc(d: Seq<(Seq<char>, JsonValueV)>) -> Seq<char> {
    seq!['{'] + ser_members(d) + seq!['}']
}

/// Executable twin of [`hex_digit_char`].
fn char_of_hex(d: u32) -> (c: char)
    requires
        d <= 15,
    ensures
        c == hex_digit_char(d as int),
{
    if d <= 9 {
        crate::strutil::char_of_digit(d)
    } else if d == 10 {
        'a'
    } else if d == 11 {
        'b'
    } else if d == 12 {
        'c'
    } else if d == 13 {
        'd'
    } else if d == 14 {
        'e'
    } else {
        'f'
    }
}

/// Appends the escaped spelling of the characters of `s`.
fn push_escaped(out: &mut String, s: &str)
    ensures
        final(out)@ == old(out)@ + escape_seq(s@),
{
    let n = s.unicode_len();
    let mut i: usize = 0;
    proof {
        assert(s@.subrange(0, 0) =~= Seq::<char>::empty());
    }
    while i < n
        invariant
            n == s@.len(),
            i <= n,
            out@ == old(out)@ + escape_seq(s@.subrange(0, i as int)),
        decreases n - i,
    {
        let c = s.get_char(i);
        if c == '"' {
            push_char(out, '\\');
            push_char(out, '"');
        } else if c == '\\' {
            push_char(out, '\\');
            push_char(out, '\\');
        } else if c == '\n' {
            push_char(out, '\\');
            push_char(out, 'n');
        } else if c == '\r' {
            push_char(out, '\\');
            push_char(out, 'r');
        } else if c == '\t' {
            push_char(out, '\\');
            push_char(out, 't');
        } else if (c as u32) < 32 {
            push_char(out, '\\');
            push_char(out, 'u');
            push_char(out, '0');
            push_char(out, '0');
            push_char(out, char_of_hex((c as u32) / 16));
            push_char(out, char_of_hex((c as u32) % 16));
        } else {
            push_char(out, c);
        }
        proof {
            assert(s@.subrange(0, i + 1).drop_last() =~= s@.subrange(0, i as int));
            assert(s@.subrange(0, i + 1).last() == s@[i as int]);
            assert(out@ =~= old(out)@ + escape_seq(s@.subrange(0, i + 1)));
        }
        i = i + 1;
    }
    proof {
        assert(s@.subrange(0, n as int) =~= s@);
    }
}

/// Appends a quoted, escaped string literal.
fn push_quoted(out: &mut String, s: &str)
    ensures
        final(out)@ == old(out)@ + quoted(s@),
{
    push_char(out, '"');
    push_escaped(out, s);
    push_char(out, '"');
    proof {
        assert(out@ =~= old(out)@ + quoted(s@));
    }
}

/// Appends one serialized value.
fn push_value(out: &mut String, v: &JsonValue)
    ensures
        final(out)@ == old(out)@ + ser_value(v@),
{
    match v {
        JsonValue::Str(t) => {
            push_quoted(out, t.as_str());
        },
        JsonValue::Obj(m) => {
            let ghost start = out@;
            let ghost mv = str_entries_view(m@);
            push_char(out, '{');
            let n = m.len();
            let mut i: usize = 0;
            proof {
                assert(mv.subrange(0, 0) =~= Seq::<(Seq<char>, Seq<char>)>::empty());
            }
            while i < n
                invariant
                    n == m@.len(),
                    i <= n,
                    mv == str_entries_view(m@),
                    out@ == start + seq!['{'] + ser_str_members(mv.subrange(0, i as int)),
                decreases n - i,
            {
                if i > 0 {
                    push_char(out, ',');
                }
                push_quoted(out, m[i].key.as_str());
                push_char(out, ':');
                push_quoted(out, m[i].value.as_str());
                proof {
                    assert(mv.subrange(0, i + 1).drop_last() =~= mv.subrange(0, i as int));
                    assert(mv.subrange(0, i + 1).last() == mv[i as int]);
                    assert(mv[i as int] == (m@[i as int].key@, m@[i as int].value@));
                    assert(out@ =~= start + seq!['{'] + ser_str_members(mv.subrange(0, i + 1)));
                }
                i = i + 1;
            }
            push_char(out, '}');
            proof {
                assert(mv.subrange(0, n as int) =~= mv);
                assert(out@ =~= start + ser_value(v@));
            }
        },
    }
}

/// Serializes a whole protocol body.
pub fn to_json(d: &JsonDoc) -> (r: String)
    ensures
        r@ == ser_doc(d@),
{
    let mut out = String::new();
    push_char(&mut out, '{');
    let n = d.entries.len();
    let mut i: usize = 0;
    proof {
        assert(d@.subrange(0, 0) =~= Seq::<(Seq<char>, JsonValueV)>::empty());
    }
    while i < n
        invariant
            n == d.entries@.len(),
            i <= n,
            out@ == seq!['{'] + ser_members(d@.subrange(0, i as int)),
        decreases n - i,
    {
        if i > 0 {
            push_char(&mut out, ',');
        }
        push_quoted(&mut out, d.entries[i].key.as_str());
        push_char(&mut out, ':');
        push_value(&mut out, &d.entries[i].value);
        proof {
            assert(d@.subrange(0, i + 1).drop_last() =~= d@.subrange(0, i as int));
            assert(d@.subrange(0, i + 1).last() == d@[i as int]);
            assert(d@[i as int] == (d.entries@[i as int].key@, d.entries@[i as int].value@));
            assert(out@ =~= seq!['{'] + ser_members(d@.subrange(0, i + 1)));
        }
        i = i + 1;
    }
    push_char(&mut out, '}');
    proof {
        assert(d@.subrange(0, n as int) =~= d@);
        assert(out@ =~= ser_doc(d@));
    }
    out
}

// ------------------------------------------------------------------
// The codec round trip
// ------------------------------------------------------------------
proof fn lemma_char_of_low_code(c: char)
    requires
        (c as u32) < 128,
    ensures
        (((c as u32) as u8) as char) == c,
{
}

proof fn lemma_hex_digit_char_val(d: int)
    requires
        0 <= d <= 15,
    ensures
        is_hex(hex_digit_char(d)),
        hex_val(hex_digit_char(d)) == d,
{
    if d <= 9 {
        crate::strutil::lemma_digit_char_val(d);
    }
}

/// The escaped spelling can be peeled from the left as well as from the
/// right.
proof fn lemma_escape_cons(s: Seq<char>)
    requires
        s.len() > 0,
    ensures
        escape_seq(s) == escape_char_seq(s[0]) + escape_seq(s.drop_first()),
    decreases s.len(),
{
    if s.len() == 1 {
        assert(s.drop_last() =~= Seq::<char>::empty());
        assert(s.drop_first() =~= Seq::<char>::empty());
        assert(escape_seq(s) =~= escape_char_seq(s[0]) + escape_seq(s.drop_first()));
    } else {
        let t = s.drop_last();
        lemma_escape_cons(t);
        assert(t[0] == s[0]);
        assert(t.drop_first() =~= s.drop_first().drop_last());
        assert(s.drop_first().len() > 0);
        assert(s.drop_first().last() == s.last());
        assert(escape_seq(s) == escape_seq(t) + escape_char_seq(s.last()));
        assert(escape_seq(s.drop_first()) == escape_seq(s.drop_first().drop_last())
            + escape_char_seq(s.drop_first().last()));
        assert(escape_seq(s) =~= escape_char_seq(s[0]) + escape_seq(s.drop_first()));
    }
}

/// Reading the escaped spelling of `s` up to a closing quote recovers `s`.
proof fn lemma_parse_escaped(w: Seq<char>, i: int, s: Seq<char>)
    requires
        0 <= i,
        i + escape_seq(s).len() < w.len(),
        w.subrange(i, i + escape_seq(s).len()) == escape_seq(s),
        w[i + escape_seq(s).len()] == '"',
    ensures
        parse_string_body(w, i) == Some((s, i + escape_seq(s).len() + 1)),
    decreases s.len(),
{
    let ls = escape_seq(s);
    assert forall|k: int| 0 <= k < ls.len() implies w[i + k] == ls[k] by {
        assert(w.subrange(i, i + ls.len())[k] == w[i + k]);
    }
    if s.len() == 0 {
        assert(w[i] == '"');
    } else {
        let c = s[0];
        let s2 = s.drop_first();
        let e = escape_char_seq(c);
        lemma_escape_cons(s);
        assert forall|k: int| 0 <= k < e.len() implies ls[k] == e[k] by {
            assert(ls == e + escape_seq(s2));
        }
        assert(w.subrange(i + e.len(), i + ls.len()) =~= escape_seq(s2)) by {
            assert forall|k: int|
                0 <= k < ls.len() - e.len() implies w.subrange(i + e.len(), i + ls.len())[k]
                == escape_seq(s2)[k] by {
                assert(w.subrange(i + e.len(), i + ls.len())[k] == w[i + e.len() + k]);
                assert(ls[e.len() + k] == (e + escape_seq(s2))[e.len() + k]);
            }
        }
        lemma_parse_escaped(w, i + e.len(), s2);
        if c == '"' || c == '\\' || c == '\n' || c == '\r' || c == '\t' {
            assert(w[i] == '\\');
            assert(w[i + 1] == e[1]);
            assert(unescape_char(e[1]) == Some(c));
            assert(parse_string_body(w, i + 2) == Some((s2, i + ls.len() + 1)));
            assert(seq![c] + s2 =~= s);
        } else if (c as u32) < 32 {
            assert(w[i] == '\\');
            assert(w[i + 1] == 'u');
            assert(w[i + 2] == '0' && w[i + 3] == '0');
            assert(w[i + 4] == hex_digit_char(c as u32 as int / 16));
            assert(w[i + 5] == hex_digit_char(c as u32 as int % 16));
            lemma_hex_digit_char_val(c as u32 as int / 16);
            lemma_hex_digit_char_val(c as u32 as int % 16);
            crate::strutil::lemma_digit_char_val(0);
            let code = hex_val(w[i + 2]) * 4096 + hex_val(w[i + 3]) * 256 + hex_val(w[i + 4]) * 16
                + hex_val(w[i + 5]);
            assert(code == c as u32);
            assert(code < 128);
            assert(code as u8 == (c as u32) as u8);
            lemma_char_of_low_code(c);
            assert(((code as u8) as char) == c);
            assert(parse_string_body(w, i + 6) == Some((s2, i + ls.len() + 1)));
            assert(seq![c] + s2 =~= s);
        } else {
            assert(e =~= seq![c]);
            assert(w[i] == ls[0]) by {
                assert(w.subrange(i, i + ls.len())[0] == w[i]);
            }
            assert(ls[0] == e[0]);
            assert(w[i] == c);
            assert(w[i] != '"' && w[i] != '\\');
            assert(parse_string_body(w, i + 1) == Some((s2, i + ls.len() + 1)));
            assert(seq![c] + s2 =~= s);
        }
    }
}

/// Reading a quoted literal recovers the string it spells.
proof fn lemma_parse_quoted(w: Seq<char>, i: int, s: Seq<char>)
    requires
        0 <= i,
        i + quoted(s).len() <= w.len(),
        w.subrange(i, i + quoted(s).len()) == quoted(s),
    ensures
        parse_string(w, i) == Some((s, i + quoted(s).len())),
{
    let q = quoted(s);
    assert forall|k: int| 0 <= k < q.len() implies w[i + k] == q[k] by {
        assert(w.subrange(i, i + q.len())[k] == w[i + k]);
    }
    assert(w[i] == q[0]) by {
        assert(w.subrange(i, i + q.len())[0] == w[i]);
    }
    assert(w[i] == '"');
    assert(w.subrange(i + 1, i + 1 + escape_seq(s).len()) =~= escape_seq(s)) by {
        assert forall|k: int|
            0 <= k < escape_seq(s).len() implies w.subrange(
            i + 1,
            i + 1 + escape_seq(s).len(),
        )[k] == escape_seq(s)[k] by {
            assert(w.subrange(i + 1, i + 1 + escape_seq(s).len())[k] == w[i + 1 + k]);
            assert(q[1 + k] == escape_seq(s)[k]);
        }
    }
    assert(w[i + 1 + escape_seq(s).len()] == '"') by {
        assert(q[1 + escape_seq(s).len() as int] == '"');
    }
    lemma_parse_escaped(w, i + 1, s);
}

/// A window inside a known stretch of `w` is the matching window of the
/// stretch itself.
proof fn lemma_subrange_within(w: Seq<char>, i: int, p: Seq<char>, a: int, b: int)
    requires
        0 <= i,
        i + p.len() <= w.len(),
        w.subrange(i, i + p.len()) == p,
        0 <= a <= b <= p.len(),
    ensures
        w.subrange(i + a, i + b) == p.subrange(a, b),
{
    assert forall|k: int|
        0 <= k < b - a implies w.subrange(i + a, i + b)[k] == p.subrange(a, b)[k] by {
        assert(w.subrange(i, i + p.len())[a + k] == w[i + a + k]);
        assert(w.subrange(i + a, i + b)[k] == w[i + a + k]);
    }
    assert(w.subrange(i + a, i + b) =~= p.subrange(a, b));
}

/// One character inside a known stretch of `w`.
proof fn lemma_char_within(w: Seq<char>, i: int, p: Seq<char>, k: int)
    requires
        0 <= i,
        i + p.len() <= w.len(),
        w.subrange(i, i + p.len()) == p,
        0 <= k < p.len(),
    ensures
        w[i + k] == p[k],
{
    assert(w.subrange(i, i + p.len())[k] == w[i + k]);
}

/// The serialized members of a nested object can be peeled from the left.
proof fn lemma_ser_str_members_cons(m: Seq<(Seq<char>, Seq<char>)>)
    requires
        m.len() >= 2,
    ensures
        ser_str_members(m) == quoted(m[0].0) + seq![':'] + quoted(m[0].1) + seq![',']
            + ser_str_members(m.drop_first()),
    decreases m.len(),
{
    let t = m.drop_last();
    if m.len() == 2 {
        assert(t =~= seq![m[0]]);
        assert(m.drop_first() =~= seq![m[1]]);
        assert(ser_str_members(t) =~= quoted(m[0].0) + seq![':'] + quoted(m[0].1));
        assert(ser_str_members(m.drop_first()) =~= quoted(m[1].0) + seq![':'] + quoted(m[1].1));
        assert(ser_str_members(m) == ser_str_members(t) + seq![','] + quoted(m.last().0)
            + seq![':'] + quoted(m.last().1));
        assert(ser_str_members(m) =~= quoted(m[0].0) + seq![':'] + quoted(m[0].1) + seq![',']
            + ser_str_members(m.drop_first()));
    } else {
        lemma_ser_str_members_cons(t);
        assert(t[0] == m[0]);
        assert(t.drop_first() =~= m.drop_first().drop_last());
        assert(m.drop_first().len() >= 2);
        assert(m.drop_first().last() == m.last());
        assert(ser_str_members(m.drop_first()) == ser_str_members(m.drop_first().drop_last())
            + seq![','] + quoted(m.drop_first().last().0) + seq![':'] + quoted(
            m.drop_first().last().1,
        ));
        assert(ser_str_members(m) =~= quoted(m[0].0) + seq![':'] + quoted(m[0].1) + seq![',']
            + ser_str_members(m.drop_first()));
    }
}

/// The serialized members of the top-level object can be peeled from the
/// left.
proof fn lemma_ser_members_cons(d: Seq<(Seq<char>, JsonValueV)>)
    requires
        d.len() >= 2,
    ensures
        ser_members(d) == quoted(d[0].0) + seq![':'] + ser_value(d[0].1) + seq![','] + ser_members(
            d.drop_first(),
        ),
    decreases d.len(),
{
    let t = d.drop_last();
    if d.len() == 2 {
        assert(t =~= seq![d[0]]);
        assert(d.drop_first() =~= seq![d[1]]);
        assert(ser_members(t) =~= quoted(d[0].0) + seq![':'] + ser_value(d[0].1));
        assert(ser_members(d.drop_first()) =~= quoted(d[1].0) + seq![':'] + ser_value(d[1].1));
        assert(ser_members(d) == ser_members(t) + seq![','] + quoted(d.last().0) + seq![':']
            + ser_value(d.last().1));
        assert(ser_members(d) =~= quoted(d[0].0) + seq![':'] + ser_value(d[0].1) + seq![',']
            + ser_members(d.drop_first()));
    } else {
        lemma_ser_members_cons(t);
        assert(t[0] == d[0]);
        assert(t.drop_first() =~= d.drop_first().drop_last());
        assert(d.drop_first().len() >= 2);
        assert(d.drop_first().last() == d.last());
        assert(ser_members(d.drop_first()) == ser_members(d.drop_first().drop_last()) + seq![',']
            + quoted(d.drop_first().last().0) + seq![':'] + ser_value(d.drop_first().last().1));
        assert(ser_members(d) =~= quoted(d[0].0) + seq![':'] + ser_value(d[0].1) + seq![',']
            + ser_members(d.drop_first()));
    }
}

/// Reading serialized nested members up to the closing brace recovers
/// them.
proof fn lemma_parse_flat_of_ser(w: Seq<char>, i: int, m: Seq<(Seq<char>, Seq<char>)>)
    requires
        m.len() >= 1,
        0 <= i,
        i + ser_str_members(m).len() < w.len(),
        w.subrange(i, i + ser_str_members(m).len()) == ser_str_members(m),
        w[i + ser_str_members(m).len()] == '}',
    ensures
        parse_flat_members(w, i) == Some((m, i + ser_str_members(m).len() + 1)),
    decreases m.len(),
{
    let s = ser_str_members(m);
    let qk = quoted(m[0].0);
    let qv = quoted(m[0].1);
    if m.len() == 1 {
        assert(s == qk + seq![':'] + qv);
        lemma_subrange_within(w, i, s, 0, qk.len() as int);
        assert(s.subrange(0, qk.len() as int) =~= qk);
        lemma_parse_quoted(w, i, m[0].0);
        let j = i + qk.len();
        lemma_char_within(w, i, s, qk.len() as int);
        assert(w[j] == ':');
        assert(skip_ws(w, j) == j);
        lemma_subrange_within(w, i, s, qk.len() as int + 1, s.len() as int);
        assert(s.subrange(qk.len() as int + 1, s.len() as int) =~= qv);
        lemma_parse_quoted(w, j + 1, m[0].1);
        let j4 = j + 1 + qv.len();
        assert(j4 == i + s.len());
        assert(skip_ws(w, j + 1) == j + 1) by {
            lemma_char_within(w, i, s, qk.len() as int + 1);
            assert(qv[0] == '"');
        }
        assert(w[j4] == '}');
        assert(skip_ws(w, j4) == j4);
        assert(seq![(m[0].0, m[0].1)] =~= m);
    } else {
        lemma_ser_str_members_cons(m);
        let m2 = m.drop_first();
        let s2 = ser_str_members(m2);
        assert(s == qk + seq![':'] + qv + seq![','] + s2);
        lemma_subrange_within(w, i, s, 0, qk.len() as int);
        assert(s.subrange(0, qk.len() as int) =~= qk);
        lemma_parse_quoted(w, i, m[0].0);
        let j = i + qk.len();
        lemma_char_within(w, i, s, qk.len() as int);
        assert(w[j] == ':');
        assert(skip_ws(w, j) == j);
        lemma_subrange_within(w, i, s, qk.len() as int + 1, qk.len() as int + 1 + qv.len() as int);
        assert(s.subrange(qk.len() as int + 1, qk.len() as int + 1 + qv.len() as int) =~= qv);
        lemma_parse_quoted(w, j + 1, m[0].1);
        let j4 = j + 1 + qv.len();
        assert(skip_ws(w, j + 1) == j + 1) by {
            lemma_char_within(w, i, s, qk.len() as int + 1);
            assert(qv[0] == '"');
        }
        lemma_char_within(w, i, s, qk.len() as int + 1 + qv.len() as int);
        assert(w[j4] == ',');
        assert(skip_ws(w, j4) == j4);
        let j6 = j4 + 1;
        lemma_subrange_within(w, i, s, qk.len() as int + 2 + qv.len() as int, s.len() as int);
        assert(s.subrange(qk.len() as int + 2 + qv.len() as int, s.len() as int) =~= s2);
        assert(skip_ws(w, j6) == j6) by {
            lemma_char_within(w, i, s, qk.len() as int + 2 + qv.len() as int);
            assert(s2[0] == '"') by {
                if m2.len() == 1 {
                    assert(s2 =~= quoted(m2[0].0) + seq![':'] + quoted(m2[0].1));
                    assert(s2[0] == quoted(m2[0].0)[0]);
                } else {
                    lemma_ser_str_members_cons(m2);
                    assert(s2[0] == quoted(m2[0].0)[0]);
                }
            }
        }
        lemma_parse_flat_of_ser(w, j6, m2);
        assert(seq![(m[0].0, m[0].1)] + m2 =~= m);
    }
}

/// Reading one serialized value recovers it.
proof fn lemma_parse_value_of_ser(w: Seq<char>, i: int, v: JsonValueV)
    requires
        0 <= i,
        i + ser_value(v).len() <= w.len(),
        w.subrange(i, i + ser_value(v).len()) == ser_value(v),
    ensures
        parse_value(w, i) == Some((v, i + ser_value(v).len())),
{
    let s = ser_value(v);
    match v {
        JsonValueV::Str(t) => {
            lemma_char_within(w, i, s, 0);
            assert(w[i] == '"');
            lemma_parse_quoted(w, i, t);
        },
        JsonValueV::Obj(m) => {
            lemma_char_within(w, i, s, 0);
            assert(w[i] == '{');
            if m.len() == 0 {
                assert(ser_str_members(m) =~= Seq::<char>::empty());
                assert(s =~= seq!['{', '}']);
                lemma_char_within(w, i, s, 1);
                assert(w[i + 1] == '}');
                assert(skip_ws(w, i + 1) == i + 1);
                assert(m =~= Seq::<(Seq<char>, Seq<char>)>::empty());
                assert(JsonValueV::Obj(Seq::empty()) == v);
            } else {
                let sm = ser_str_members(m);
                assert(s == seq!['{'] + sm + seq!['}']);
                lemma_char_within(w, i, s, 1);
                assert(s[1] == sm[0]);
                assert(sm[0] == '"') by {
                    if m.len() == 1 {
                        assert(sm =~= quoted(m[0].0) + seq![':'] + quoted(m[0].1));
                        assert(sm[0] == quoted(m[0].0)[0]);
                    } else {
                        lemma_ser_str_members_cons(m);
                        assert(sm[0] == quoted(m[0].0)[0]);
                    }
                }
                assert(w[i + 1] == '"');
                assert(skip_ws(w, i + 1) == i + 1);
                lemma_subrange_within(w, i, s, 1, 1 + sm.len() as int);
                assert(s.subrange(1, 1 + sm.len() as int) =~= sm);
                lemma_char_within(w, i, s, 1 + sm.len() as int);
                assert(w[i + 1 + sm.len() as int] == '}');
                lemma_parse_flat_of_ser(w, i + 1, m);
            }
        },
    }
}

/// Reading serialized top-level members up to the closing brace recovers
/// them.
proof fn lemma_parse_members_of_ser(w: Seq<char>, i: int, d: Seq<(Seq<char>, JsonValueV)>)
    requires
        d.len() >= 1,
        0 <= i,
        i + ser_members(d).len() < w.len(),
        w.subrange(i, i + ser_members(d).len()) == ser_members(d),
        w[i + ser_members(d).len()] == '}',
    ensures
        parse_members(w, i) == Some((d, i + ser_members(d).len() + 1)),
    decreases d.len(),
{
    let s = ser_members(d);
    let qk = quoted(d[0].0);
    let sv = ser_value(d[0].1);
    if d.len() == 1 {
        assert(s == qk + seq![':'] + sv);
        lemma_subrange_within(w, i, s, 0, qk.len() as int);
        assert(s.subrange(0, qk.len() as int) =~= qk);
        lemma_parse_quoted(w, i, d[0].0);
        let j = i + qk.len();
        lemma_char_within(w, i, s, qk.len() as int);
        assert(w[j] == ':');
        assert(skip_ws(w, j) == j);
        lemma_subrange_within(w, i, s, qk.len() as int + 1, s.len() as int);
        assert(s.subrange(qk.len() as int + 1, s.len() as int) =~= sv);
        assert(skip_ws(w, j + 1) == j + 1) by {
            lemma_char_within(w, i, s, qk.len() as int + 1);
            assert(sv[0] == '"' || sv[0] == '{') by {
                lemma_ser_value_head(d[0].1);
            }
        }
        lemma_parse_value_of_ser(w, j + 1, d[0].1);
        let j4 = j + 1 + sv.len();
        assert(j4 == i + s.len());
        assert(w[j4] == '}');
        assert(skip_ws(w, j4) == j4);
        assert(seq![(d[0].0, d[0].1)] =~= d);
    } else {
        lemma_ser_members_cons(d);
        let d2 = d.drop_first();
        let s2 = ser_members(d2);
        assert(s == qk + seq![':'] + sv + seq![','] + s2);
        lemma_subrange_within(w, i, s, 0, qk.len() as int);
        assert(s.subrange(0, qk.len() as int) =~= qk);
        lemma_parse_quoted(w, i, d[0].0);
        let j = i + qk.len();
        lemma_char_within(w, i, s, qk.len() as int);
        assert(w[j] == ':');
        assert(skip_ws(w, j) == j);
        lemma_subrange_within(w, i, s, qk.len() as int + 1, qk.len() as int + 1 + sv.len() as int);
        assert(s.subrange(qk.len() as int + 1, qk.len() as int + 1 + sv.len() as int) =~= sv);
        assert(skip_ws(w, j + 1) == j + 1) by {
            lemma_char_within(w, i, s, qk.len() as int + 1);
            assert(sv[0] == '"' || sv[0] == '{') by {
                lemma_ser_value_head(d[0].1);
            }
        }
        lemma_parse_value_of_ser(w, j + 1, d[0].1);
        let j4 = j + 1 + sv.len();
        lemma_char_within(w, i, s, qk.len() as int + 1 + sv.len() as int);
        assert(w[j4] == ',');
        assert(skip_ws(w, j4) == j4);
        let j6 = j4 + 1;
        lemma_subrange_within(w, i, s, qk.len() as int + 2 + sv.len() as int, s.len() as int);
        assert(s.subrange(qk.len() as int + 2 + sv.len() as int, s.len() as int) =~= s2);
        assert(skip_ws(w, j6) == j6) by {
            lemma_char_within(w, i, s, qk.len() as int + 2 + sv.len() as int);
            assert(s2[0] == '"') by {
                lemma_ser_members_head(d2);
            }
        }
        lemma_parse_members_of_ser(w, j6, d2);
        assert(seq![(d[0].0, d[0].1)] + d2 =~= d);
    }
}

/// A serialized value starts with its quote or its opening brace.
proof fn lemma_ser_value_head(v: JsonValueV)
    ensures
        ser_value(v).len() >= 2,
        ser_value(v)[0] == '"' || ser_value(v)[0] == '{',
{
    match v {
        JsonValueV::Str(t) => {
            assert(ser_value(v)[0] == quoted(t)[0]);
        },
        JsonValueV::Obj(m) => {
            assert(ser_value(v)[0] == (seq!['{'] + ser_str_members(m) + seq!['}'])[0]);
        },
    }
}

/// Serialized top-level members start with the first key's quote.
proof fn lemma_ser_members_head(d: Seq<(Seq<char>, JsonValueV)>)
    requires
        d.len() >= 1,
    ensures
        ser_members(d)[0] == '"',
{
    if d.len() == 1 {
        assert(ser_members(d) =~= quoted(d[0].0) + seq![':'] + ser_value(d[0].1));
        assert(ser_members(d)[0] == quoted(d[0].0)[0]);
    } else {
        lemma_ser_members_cons(d);
        assert(ser_members(d)[0] == quoted(d[0].0)[0]);
    }
}

/// The codec round trip: any body the serializer writes, the parser reads
/// back as the very same document.  Writer and reader of the protocol
/// agree on one grammar.
pub proof fn lemma_codec_round_trip(d: Seq<(Seq<char>, JsonValueV)>)
    ensures
        parse_doc_text(ser_doc(d)) == Some(d),
{
    let w = ser_doc(d);
    let sm = ser_members(d);
    assert(w == seq!['{'] + sm + seq!['}']);
    assert(w[0] == '{');
    assert(skip_ws(w, 0) == 0);
    if d.len() == 0 {
        assert(sm =~= Seq::<char>::empty());
        assert(w =~= seq!['{', '}']);
        assert(w[1] == '}');
        assert(skip_ws(w, 1) == 1);
        assert(skip_ws(w, 2) == 2);
    } else {
        assert(w[1] == sm[0]);
        assert(sm[0] == '"') by {
            lemma_ser_members_head(d);
        }
        assert(skip_ws(w, 1) == 1);
        assert(w.subrange(1, 1 + sm.len() as int) =~= sm);
        assert(w[1 + sm.len() as int] == '}');
        lemma_parse_members_of_ser(w, 1, d);
        assert(skip_ws(w, 2 + sm.len() as int) == 2 + sm.len() as int);
        assert(2 + sm.len() as int == w.len() as int);
    }
}

} // verus!
