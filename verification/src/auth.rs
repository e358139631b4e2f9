//! D-Bus SASL authentication, server side.
//!
//! The server offers the EXTERNAL mechanism: the client names its UID as the
//! hex encoding of its decimal text, either on the AUTH line or in answer to
//! an empty DATA challenge. The conversation is a state machine over the
//! client's lines; reading lines and writing replies is left to the caller.

use vstd::prelude::*;

use crate::error::AuthError;
use crate::text::{
    chars_of, concat, decimal, decimal_chars, digit_char, digits_value, is_digit, is_prefix, lemma_decimal,
    lemma_digit_char, lemma_parse_decimal, parse_unsigned, starts_with, str_eq, substring,
    unsigned_body,
};

verus! {

broadcast use vstd::seq_lib::group_seq_properties;

// ---------------------------------------------------------------------------
// Hexadecimal text

/// Whether `c` is a hexadecimal digit, in either case.
pub open spec fn is_hex_digit(c: char) -> bool {
    ||| ('0' <= c && c <= '9')
    ||| ('a' <= c && c <= 'f')
    ||| ('A' <= c && c <= 'F')
}

/// The value of the hexadecimal digit `c`.
pub open spec fn hex_value(c: char) -> nat {
    if '0' <= c && c <= '9' {
        ((c as int) - ('0' as int)) as nat
    } else if 'a' <= c && c <= 'f' {
        ((c as int) - ('a' as int) + 10) as nat
    } else {
        ((c as int) - ('A' as int) + 10) as nat
    }
}

/// The lowercase hexadecimal digit for `d` (below sixteen).
pub open spec fn hex_char(d: nat) -> char {
    if d < 10 { ((d + 48) as u8) as char } else { ((d + 87) as u8) as char }
}

/// The bytes written by the hexadecimal text `s`, two digits per byte, high
/// digit first; `None` when `s` has an odd length or a character that is
/// not a hexadecimal digit.
pub open spec fn spec_hex_decode(s: Seq<char>) -> Option<Seq<u8>> {
    if s.len() % 2 == 0 && forall|i: int| 0 <= i < s.len() ==> is_hex_digit(#[trigger] s[i]) {
        Some(Seq::new(s.len() / 2, |i: int| (hex_value(s[2 * i]) * 16 + hex_value(s[2 * i + 1])) as u8))
    } else {
        None
    }
}

/// The lowercase hexadecimal text of `b`, two digits per byte, high digit
/// first.
pub open spec fn spec_hex_encode(b: Seq<u8>) -> Seq<char> {
    Seq::new(2 * b.len(), |i: int| if i % 2 == 0 { hex_char(b[i / 2] as nat / 16) } else { hex_char(b[i / 2] as nat % 16) })
}

/// `hex::decode`: the bytes written by `s`. Both cases of digits are read;
/// an odd length or a character other than a hexadecimal digit (every byte
/// of a non-ASCII character is one) is an error, returned as its text.
#[verifier::external_body]
fn hex_decode(s: &str) -> (r: Result<Vec<u8>, String>)
    ensures
        match r {
            Ok(v) => spec_hex_decode(s@) == Some(v@),
            Err(_) => spec_hex_decode(s@) is None,
        },
{
    hex::decode(s).map_err(|e| e.to_string())
}

/// `hex::encode`: the lowercase hexadecimal text of `b`.
#[verifier::external_body]
fn hex_encode(b: &Vec<u8>) -> (r: String)
    ensures
        r@ == spec_hex_encode(b@),
{
    hex::encode(b)
}

/// The characters of ASCII bytes.
pub open spec fn bytes_as_chars(b: Seq<u8>) -> Seq<char> {
    b.map_values(|x: u8| x as char)
}

/// The bytes of ASCII characters.
pub open spec fn chars_as_bytes(s: Seq<char>) -> Seq<u8> {
    s.map_values(|c: char| c as u8)
}

/// Whether every byte of `b` is ASCII.
pub open spec fn all_ascii_bytes(b: Seq<u8>) -> bool {
    forall|i: int| 0 <= i < b.len() ==> #[trigger] b[i] < 128
}

/// Whether every character of `s` is ASCII.
pub open spec fn all_ascii_chars(s: Seq<char>) -> bool {
    forall|i: int| 0 <= i < s.len() ==> (#[trigger] s[i] as int) < 128
}

/// `String::from_utf8`: the text whose UTF-8 encoding is `bytes`. ASCII
/// bytes are always valid and stand for the characters of the same codes;
/// a text read back is ASCII exactly when its bytes are. Which non-ASCII
/// byte sequences are valid, and what they decode to, is not stated.
#[verifier::external_body]
fn utf8_string(bytes: Vec<u8>) -> (r: Result<String, String>)
    ensures
        match r {
            Ok(s) => (all_ascii_chars(s@) <==> all_ascii_bytes(bytes@))
                && (all_ascii_bytes(bytes@) ==> s@ == bytes_as_chars(bytes@)),
            Err(_) => !all_ascii_bytes(bytes@),
        },
{
    String::from_utf8(bytes).map_err(|e| e.to_string())
}

/// `str::parse::<u32>`: an optional '+' followed by decimal digits, with a
/// value that fits; anything else is an error, returned as its text.
#[verifier::external_body]
fn parse_u32(s: &str) -> (r: Result<u32, String>)
    ensures
        match r {
            Ok(v) => parse_unsigned(s@, u32::MAX as nat) == Some(v as nat),
            Err(_) => parse_unsigned(s@, u32::MAX as nat) is None,
        },
{
    s.parse::<u32>().map_err(|e| e.to_string())
}

/// A text with a non-ASCII character does not read as a number.
proof fn lemma_non_ascii_not_number(s: Seq<char>, max: nat)
    requires
        !all_ascii_chars(s),
    ensures
        parse_unsigned(s, max) is None,
{
    let j = choose|j: int| 0 <= j < s.len() && !((#[trigger] s[j] as int) < 128);
    let b = unsigned_body(s);
    if s.len() > 1 && s[0] == '+' {
        assert(j > 0);
        assert(b[j - 1] == s[j]);
        assert(!is_digit(b[j - 1]));
    } else {
        assert(!is_digit(b[j]));
    }
}

// ---------------------------------------------------------------------------
// UIDs in hexadecimal

/// The UID named by the hexadecimal text `h`: the bytes it writes, read as
/// ASCII decimal text.
pub open spec fn spec_uid_of_hex(h: Seq<char>) -> Option<nat> {
    match spec_hex_decode(h) {
        Some(b) => if all_ascii_bytes(b) { parse_unsigned(bytes_as_chars(b), u32::MAX as nat) } else { None },
        None => None,
    }
}

/// The hexadecimal text of the decimal text of `uid`.
pub open spec fn spec_encode_uid(uid: u32) -> Seq<char> {
    spec_hex_encode(chars_as_bytes(decimal(uid as nat)))
}

/// Parse a hex-encoded UID: the hex text writes the bytes of the UID's
/// decimal text. Malformed hex, bytes that are not text and text that is
/// not a `u32` are all `InvalidData`.
pub fn parse_hex_uid(hex: &str) -> (r: Result<u32, AuthError>)
    ensures
        match r {
            Ok(u) => spec_uid_of_hex(hex@) == Some(u as nat),
            Err(e) => spec_uid_of_hex(hex@) is None && e is InvalidData,
        },
{
    let bytes = match hex_decode(hex) {
        Ok(b) => b,
        Err(e) => return Err(AuthError::InvalidData(concat("Invalid hex: ", e.as_str()))),
    };
    let ghost b = bytes@;
    let text = match utf8_string(bytes) {
        Ok(s) => s,
        Err(e) => return Err(AuthError::InvalidData(concat("Invalid UTF-8: ", e.as_str()))),
    };
    proof {
        if !all_ascii_bytes(b) {
            lemma_non_ascii_not_number(text@, u32::MAX as nat);
        }
    }
    match parse_u32(text.as_str()) {
        Ok(u) => Ok(u),
        Err(e) => Err(AuthError::InvalidData(concat("Invalid UID: ", e.as_str()))),
    }
}

/// Encode a UID as hex for D-Bus auth: the hex text of its decimal text.
pub fn encode_uid(uid: u32) -> (r: String)
    ensures
        r@ == spec_encode_uid(uid),
{
    let digits = decimal_chars(uid as u64);
    let mut bytes: Vec<u8> = Vec::new();
    for i in 0..digits.len()
        invariant
            bytes@ == chars_as_bytes(digits@.take(i as int)),
    {
        let c = digits[i];
        bytes.push(c as u8);
        assert(chars_as_bytes(digits@.take(i + 1)) =~= chars_as_bytes(digits@.take(i as int)).push(c as u8));
    }
    assert(digits@.take(digits@.len() as int) =~= digits@);
    hex_encode(&bytes)
}

/// The value of a hexadecimal digit written for `d` is `d`.
proof fn lemma_hex_char(d: nat)
    requires
        d < 16,
    ensures
        is_hex_digit(hex_char(d)),
        hex_value(hex_char(d)) == d,
{
    if d < 10 {
        let b: u8 = (d + 48) as u8;
        assert((b as char) as int == b as int);
    } else {
        let b: u8 = (d + 87) as u8;
        assert((b as char) as int == b as int);
    }
}

/// Decoding the hexadecimal text of `b` gives `b` back.
pub proof fn lemma_hex_roundtrip(b: Seq<u8>)
    ensures
        spec_hex_decode(spec_hex_encode(b)) == Some(b),
{
    let e = spec_hex_encode(b);
    assert forall|i: int| 0 <= i < e.len() implies is_hex_digit(#[trigger] e[i]) by {
        lemma_hex_char(b[i / 2] as nat / 16);
        lemma_hex_char(b[i / 2] as nat % 16);
    }
    assert(e.len() % 2 == 0);
    let d = Seq::new(e.len() / 2, |i: int| (hex_value(e[2 * i]) * 16 + hex_value(e[2 * i + 1])) as u8);
    assert forall|i: int| 0 <= i < b.len() implies d[i] == b[i] by {
        assert((2 * i) % 2 == 0 && (2 * i) / 2 == i);
        assert((2 * i + 1) % 2 == 1 && (2 * i + 1) / 2 == i);
        lemma_hex_char(b[i] as nat / 16);
        lemma_hex_char(b[i] as nat % 16);
        assert((b[i] as nat / 16) * 16 + b[i] as nat % 16 == b[i]) by (nonlinear_arith);
    }
    assert(d =~= b);
}

/// Reading back the hex encoding of a UID gives the UID.
pub proof fn lemma_uid_roundtrip(uid: u32)
    ensures
        spec_uid_of_hex(spec_encode_uid(uid)) == Some(uid as nat),
{
    let digits = decimal(uid as nat);
    let b = chars_as_bytes(digits);
    lemma_decimal(uid as nat);
    lemma_hex_roundtrip(b);
    assert forall|i: int| 0 <= i < b.len() implies #[trigger] b[i] < 128 by {
        assert(is_digit(digits[i]));
    }
    assert(bytes_as_chars(b) =~= digits) by {
        assert forall|i: int| 0 <= i < digits.len() implies bytes_as_chars(b)[i] == digits[i] by {
            assert(is_digit(digits[i]));
            let c = digits[i];
            assert(((c as u8) as char) == c);
        }
    }
    lemma_parse_decimal(uid as nat, u32::MAX as nat);
}

// ---------------------------------------------------------------------------
// The conversation

/// Where the conversation with a client stands.
#[derive(Debug, Clone, Copy, PartialEq, Eq, Structural)]
pub enum SaslState {
    /// Waiting for an AUTH command.
    WaitingForAuth,
    /// A DATA challenge was sent; waiting for the client's DATA.
    WaitingForData,
    /// OK was sent for `uid`; waiting for BEGIN or NEGOTIATE_UNIX_FD.
    WaitingForBegin { uid: u32 },
    /// Unix FD passing was agreed for `uid`; waiting for BEGIN.
    WaitingForBeginAfterFd { uid: u32 },
    /// The client authenticated as `uid` and began the message stream.
    Authenticated { uid: u32 },
    /// The conversation failed.
    Failed,
}

/// What one line of the client brings.
#[derive(Debug, Clone, PartialEq, Eq)]
pub enum SaslOutcome {
    /// The conversation goes on.
    Continue,
    /// The client authenticated as this UID; the message stream starts.
    Authenticated(u32),
    /// The conversation failed with this error.
    Failed(AuthError),
}

/// The result of one line: the new state, the line to send back (with its
/// line end), and the outcome.
pub struct SaslStep {
    pub state: SaslState,
    pub reply: Option<String>,
    pub outcome: SaslOutcome,
}

/// Why a conversation failed.
pub enum FailReason {
    /// The UID text could not be read.
    BadUid,
    /// A line that is not a command of the protocol.
    UnexpectedLine,
    /// Something other than DATA answered the challenge.
    ExpectedData,
    /// Something other than BEGIN followed OK.
    ExpectedBegin,
}

/// What a step amounts to.
pub enum StepKind {
    Continue,
    Done(u32),
    Fail(FailReason),
}

/// The reply that offers the EXTERNAL mechanism.
pub open spec fn rejected_reply() -> Seq<char> {
    "REJECTED EXTERNAL\r\n"@
}

/// The reply that accepts the client, naming the server's GUID.
pub open spec fn ok_reply(guid: Seq<char>) -> Seq<char> {
    "OK "@ + guid + "\r\n"@
}

/// The step after the client named a UID (`None`: unreadable).
pub open spec fn spec_after_uid(guid: Seq<char>, uid: Option<nat>) -> (SaslState, Option<Seq<char>>, StepKind) {
    match uid {
        Some(u) => (SaslState::WaitingForBegin { uid: u as u32 }, Some(ok_reply(guid)), StepKind::Continue),
        None => (SaslState::Failed, None, StepKind::Fail(FailReason::BadUid)),
    }
}

/// Whether `line` is a command that is answered by offering EXTERNAL again:
/// AUTH without or with another mechanism, CANCEL, or ERROR.
pub open spec fn is_reject_line(line: Seq<char>) -> bool {
    ||| line == "AUTH"@
    ||| is_prefix("AUTH "@, line)
    ||| line == "CANCEL"@
    ||| line == "ERROR"@
    ||| is_prefix("ERROR "@, line)
}

/// One step of the conversation: the client sent `line` in `state`;
/// `process_uid` is the UID that an empty DATA answer stands for.
pub open spec fn spec_step(guid: Seq<char>, state: SaslState, line: Seq<char>, process_uid: u32) -> (SaslState, Option<Seq<char>>, StepKind) {
    match state {
        SaslState::WaitingForAuth => if is_prefix("AUTH EXTERNAL "@, line) {
            spec_after_uid(guid, spec_uid_of_hex(line.skip("AUTH EXTERNAL "@.len() as int)))
        } else if line == "AUTH EXTERNAL"@ {
            (SaslState::WaitingForData, Some("DATA\r\n"@), StepKind::Continue)
        } else if is_reject_line(line) {
            (SaslState::WaitingForAuth, Some(rejected_reply()), StepKind::Continue)
        } else {
            (SaslState::Failed, None, StepKind::Fail(FailReason::UnexpectedLine))
        },
        SaslState::WaitingForData => if is_prefix("DATA "@, line) {
            spec_after_uid(guid, spec_uid_of_hex(line.skip("DATA "@.len() as int)))
        } else if line == "DATA"@ {
            (SaslState::WaitingForBegin { uid: process_uid }, Some(ok_reply(guid)), StepKind::Continue)
        } else {
            (SaslState::Failed, None, StepKind::Fail(FailReason::ExpectedData))
        },
        SaslState::WaitingForBegin { uid } => if line == "NEGOTIATE_UNIX_FD"@ {
            (SaslState::WaitingForBeginAfterFd { uid }, Some("AGREE_UNIX_FD\r\n"@), StepKind::Continue)
        } else if line == "BEGIN"@ {
            (SaslState::Authenticated { uid }, None, StepKind::Done(uid))
        } else {
            (SaslState::Failed, None, StepKind::Fail(FailReason::ExpectedBegin))
        },
        SaslState::WaitingForBeginAfterFd { uid } => if line == "BEGIN"@ {
            (SaslState::Authenticated { uid }, None, StepKind::Done(uid))
        } else {
            (SaslState::Failed, None, StepKind::Fail(FailReason::ExpectedBegin))
        },
        SaslState::Authenticated { .. } => (state, None, StepKind::Continue),
        SaslState::Failed => (state, None, StepKind::Continue),
    }
}

/// Whether `o` is the outcome that `k` describes for `line`, with the
/// error texts that the protocol's failures carry.
pub open spec fn outcome_fits(o: SaslOutcome, k: StepKind, line: Seq<char>) -> bool {
    match k {
        StepKind::Continue => o is Continue,
        StepKind::Done(u) => o == SaslOutcome::Authenticated(u),
        StepKind::Fail(FailReason::BadUid) => o matches SaslOutcome::Failed(AuthError::InvalidData(_)),
        StepKind::Fail(FailReason::UnexpectedLine) => o matches SaslOutcome::Failed(AuthError::InvalidData(t))
            && t@ == "Unexpected line: "@ + line,
        StepKind::Fail(FailReason::ExpectedData) => o matches SaslOutcome::Failed(AuthError::InvalidData(t))
            && t@ == "Expected DATA response, got: "@ + line,
        StepKind::Fail(FailReason::ExpectedBegin) => o matches SaslOutcome::Failed(AuthError::ExpectedBegin),
    }
}

/// Whether `s` is the step that `m` describes for `line`.
pub open spec fn step_fits(s: SaslStep, m: (SaslState, Option<Seq<char>>, StepKind), line: Seq<char>) -> bool {
    &&& s.state == m.0
    &&& (match s.reply {
        Some(t) => m.1 == Some(t@),
        None => m.1 is None,
    })
    &&& outcome_fits(s.outcome, m.2, line)
}

/// `s` without the prefix `p`, if it starts with it.
fn strip_prefix(s: &str, p: &str) -> (r: Option<String>)
    ensures
        match r {
            Some(t) => is_prefix(p@, s@) && t@ == s@.skip(p@.len() as int),
            None => !is_prefix(p@, s@),
        },
{
    if starts_with(s, p) {
        let n = chars_of(p).len();
        let m = chars_of(s).len();
        Some(substring(s, n, m))
    } else {
        None
    }
}

/// A line read from the client with its line end (`\n`, then `\r`) taken
/// off; an empty line means the client is gone.
pub open spec fn spec_trim_line(raw: Seq<char>) -> Option<Seq<char>> {
    let a = if raw.len() > 0 && raw.last() == '\n' { raw.drop_last() } else { raw };
    let b = if a.len() > 0 && a.last() == '\r' { a.drop_last() } else { a };
    if b.len() == 0 { None } else { Some(b) }
}

/// Take the line end off a line read from the client; `None` when nothing
/// is left (the stream ended).
pub fn trim_line(raw: &str) -> (r: Option<String>)
    ensures
        match r {
            Some(t) => spec_trim_line(raw@) == Some(t@),
            None => spec_trim_line(raw@) is None,
        },
{
    let cs = chars_of(raw);
    let mut end = cs.len();
    if end > 0 && cs[end - 1] == '\n' {
        end = end - 1;
    }
    if end > 0 && cs[end - 1] == '\r' {
        end = end - 1;
    }
    proof {
        let a = if raw@.len() > 0 && raw@.last() == '\n' { raw@.drop_last() } else { raw@ };
        assert(a =~= raw@.take(if raw@.len() > 0 && raw@.last() == '\n' { raw@.len() - 1 } else { raw@.len() as int }));
    }
    if end == 0 {
        None
    } else {
        let t = substring(raw, 0, end);
        assert(t@ =~= spec_trim_line(raw@).unwrap());
        Some(t)
    }
}

/// The first byte of the conversation must be NUL.
pub fn check_null_byte(b: u8) -> (r: Result<(), AuthError>)
    ensures
        r is Ok <==> b == 0,
        r matches Err(e) ==> e is ExpectedNullByte,
{
    if b == 0 { Ok(()) } else { Err(AuthError::ExpectedNullByte) }
}

/// Result of successful authentication.
pub struct AuthResult {
    /// The authenticated UID.
    pub uid: u32,
    /// Any data that was buffered during auth but belongs to the D-Bus message stream.
    pub buffered_data: Vec<u8>,
}

/// `Uuid::new_v4().as_simple()` as text: a random UUID written as 32
/// lowercase hexadecimal digits. Which digits is left to chance.
#[verifier::external_body]
fn random_guid() -> (r: String)
    ensures
        r@.len() == 32,
        forall|i: int| 0 <= i < 32 ==> #[trigger] is_hex_digit(r@[i]) && !('A' <= r@[i] && r@[i] <= 'F'),
{
    uuid::Uuid::new_v4().as_simple().to_string()
}

/// Whether `g` is a server GUID: 32 lowercase hexadecimal digits.
pub open spec fn is_guid(g: Seq<char>) -> bool {
    &&& g.len() == 32
    &&& forall|i: int| 0 <= i < 32 ==> #[trigger] is_hex_digit(g[i]) && !('A' <= g[i] && g[i] <= 'F')
}

/// Generate a random GUID for the D-Bus server: 32 lowercase hex digits.
pub fn generate_guid() -> (r: String)
    ensures
        is_guid(r@),
{
    random_guid()
}

/// SASL authentication handler for D-Bus connections.
pub struct SaslAuth {
    server_guid: String,
}

impl View for SaslAuth {
    type V = Seq<char>;

    /// The server GUID.
    closed spec fn view(&self) -> Seq<char> {
        self.server_guid@
    }
}

impl Default for SaslAuth {
    fn default() -> (r: Self)
        ensures
            is_guid(r@),
    {
        Self::new()
    }
}

impl SaslAuth {
    /// Create a new SASL auth handler with a random GUID.
    pub fn new() -> (r: Self)
        ensures
            is_guid(r@),
    {
        SaslAuth { server_guid: generate_guid() }
    }

    /// Create a new SASL auth handler with a specific GUID.
    pub fn with_guid(guid: String) -> (r: Self)
        ensures
            r@ == guid@,
    {
        SaslAuth { server_guid: guid }
    }

    /// Get the server GUID.
    pub fn guid(&self) -> (r: &str)
        ensures
            r@ == self@,
    {
        self.server_guid.as_str()
    }

    /// The step after the client named the UID text `hex`.
    fn after_uid_text(&self, hex: &str) -> (r: SaslStep)
        ensures
            step_fits(r, spec_after_uid(self@, spec_uid_of_hex(hex@)), hex@),
    {
        match parse_hex_uid(hex) {
            Ok(uid) => SaslStep { state: SaslState::WaitingForBegin { uid }, reply: Some(self.ok_line()), outcome: SaslOutcome::Continue },
            Err(e) => SaslStep { state: SaslState::Failed, reply: None, outcome: SaslOutcome::Failed(e) },
        }
    }

    /// The OK line that names the server GUID.
    fn ok_line(&self) -> (r: String)
        ensures
            r@ == ok_reply(self@),
    {
        let a = concat("OK ", self.server_guid.as_str());
        let r = concat(a.as_str(), "\r\n");
        assert(r@ =~= ok_reply(self@));
        r
    }

    /// Handle one line `line` of the client (line end taken off) in `state`.
    /// `process_uid` is the UID that an empty DATA answer stands for.
    pub fn step(&self, state: SaslState, line: &str, process_uid: u32) -> (r: SaslStep)
        ensures
            step_fits(r, spec_step(self@, state, line@, process_uid), line@),
    {
        let cont = SaslOutcome::Continue;
        match state {
            SaslState::WaitingForAuth => {
                if let Some(hex) = strip_prefix(line, "AUTH EXTERNAL ") {
                    let r = self.after_uid_text(hex.as_str());
                    proof {
                        if r.outcome is Failed {
                            assert(outcome_fits(r.outcome, spec_step(self@, state, line@, process_uid).2, line@));
                        }
                    }
                    r
                } else if str_eq(line, "AUTH EXTERNAL") {
                    SaslStep { state: SaslState::WaitingForData, reply: Some("DATA\r\n".to_owned()), outcome: cont }
                } else if str_eq(line, "AUTH") || starts_with(line, "AUTH ") || str_eq(line, "CANCEL")
                    || str_eq(line, "ERROR") || starts_with(line, "ERROR ") {
                    SaslStep {
                        state: SaslState::WaitingForAuth,
                        reply: Some("REJECTED EXTERNAL\r\n".to_owned()),
                        outcome: cont,
                    }
                } else {
                    SaslStep {
                        state: SaslState::Failed,
                        reply: None,
                        outcome: SaslOutcome::Failed(AuthError::InvalidData(concat("Unexpected line: ", line))),
                    }
                }
            },
            SaslState::WaitingForData => {
                if let Some(hex) = strip_prefix(line, "DATA ") {
                    let r = self.after_uid_text(hex.as_str());
                    proof {
                        if r.outcome is Failed {
                            assert(outcome_fits(r.outcome, spec_step(self@, state, line@, process_uid).2, line@));
                        }
                    }
                    r
                } else if str_eq(line, "DATA") {
                    SaslStep { state: SaslState::WaitingForBegin { uid: process_uid }, reply: Some(self.ok_line()), outcome: cont }
                } else {
                    SaslStep {
                        state: SaslState::Failed,
                        reply: None,
                        outcome: SaslOutcome::Failed(AuthError::InvalidData(concat("Expected DATA response, got: ", line))),
                    }
                }
            },
            SaslState::WaitingForBegin { uid } => {
                if str_eq(line, "NEGOTIATE_UNIX_FD") {
                    SaslStep {
                        state: SaslState::WaitingForBeginAfterFd { uid },
                        reply: Some("AGREE_UNIX_FD\r\n".to_owned()),
                        outcome: cont,
                    }
                } else if str_eq(line, "BEGIN") {
                    SaslStep { state: SaslState::Authenticated { uid }, reply: None, outcome: SaslOutcome::Authenticated(uid) }
                } else {
                    SaslStep { state: SaslState::Failed, reply: None, outcome: SaslOutcome::Failed(AuthError::ExpectedBegin) }
                }
            },
            SaslState::WaitingForBeginAfterFd { uid } => {
                if str_eq(line, "BEGIN") {
                    SaslStep { state: SaslState::Authenticated { uid }, reply: None, outcome: SaslOutcome::Authenticated(uid) }
                } else {
                    SaslStep { state: SaslState::Failed, reply: None, outcome: SaslOutcome::Failed(AuthError::ExpectedBegin) }
                }
            },
            SaslState::Authenticated { uid } => SaslStep { state: SaslState::Authenticated { uid }, reply: None, outcome: cont },
            SaslState::Failed => SaslStep { state: SaslState::Failed, reply: None, outcome: cont },
        }
    }
}


/// A client that names its UID on the AUTH line and then begins is
/// authenticated as that UID: the server answers the AUTH line with OK and
/// its GUID, and BEGIN completes the conversation.
pub proof fn lemma_direct_handshake(guid: Seq<char>, uid: u32, process_uid: u32)
    ensures
        spec_step(guid, SaslState::WaitingForAuth, "AUTH EXTERNAL "@ + spec_encode_uid(uid), process_uid)
            == (SaslState::WaitingForBegin { uid }, Some(ok_reply(guid)), StepKind::Continue),
        spec_step(guid, SaslState::WaitingForBegin { uid }, "BEGIN"@, process_uid)
            == (SaslState::Authenticated { uid }, Option::<Seq<char>>::None, StepKind::Done(uid)),
{
    reveal_strlit("NEGOTIATE_UNIX_FD");
    reveal_strlit("BEGIN");
    let line = "AUTH EXTERNAL "@ + spec_encode_uid(uid);
    assert(line.take("AUTH EXTERNAL "@.len() as int) =~= "AUTH EXTERNAL "@);
    assert(line.skip("AUTH EXTERNAL "@.len() as int) =~= spec_encode_uid(uid));
    lemma_uid_roundtrip(uid);
}

/// A client that answers the DATA challenge with its UID, agrees on Unix FD
/// passing and then begins is authenticated as that UID.
pub proof fn lemma_challenge_handshake(guid: Seq<char>, uid: u32, process_uid: u32)
    ensures
        spec_step(guid, SaslState::WaitingForAuth, "AUTH EXTERNAL"@, process_uid)
            == (SaslState::WaitingForData, Some("DATA\r\n"@), StepKind::Continue),
        spec_step(guid, SaslState::WaitingForData, "DATA "@ + spec_encode_uid(uid), process_uid)
            == (SaslState::WaitingForBegin { uid }, Some(ok_reply(guid)), StepKind::Continue),
        spec_step(guid, SaslState::WaitingForBegin { uid }, "NEGOTIATE_UNIX_FD"@, process_uid)
            == (SaslState::WaitingForBeginAfterFd { uid }, Some("AGREE_UNIX_FD\r\n"@), StepKind::Continue),
        spec_step(guid, SaslState::WaitingForBeginAfterFd { uid }, "BEGIN"@, process_uid)
            == (SaslState::Authenticated { uid }, Option::<Seq<char>>::None, StepKind::Done(uid)),
{
    reveal_strlit("AUTH EXTERNAL");
    reveal_strlit("AUTH EXTERNAL ");
    reveal_strlit("NEGOTIATE_UNIX_FD");
    reveal_strlit("BEGIN");
    let line = "DATA "@ + spec_encode_uid(uid);
    assert(line.take("DATA "@.len() as int) =~= "DATA "@);
    assert(line.skip("DATA "@.len() as int) =~= spec_encode_uid(uid));
    lemma_uid_roundtrip(uid);
}

/// The conversation completes only on a BEGIN line after OK was sent, and
/// with the UID that OK was sent for.
pub proof fn lemma_done_only_on_begin(guid: Seq<char>, state: SaslState, line: Seq<char>, process_uid: u32, uid: u32)
    requires
        spec_step(guid, state, line, process_uid).2 == StepKind::Done(uid),
    ensures
        line == "BEGIN"@,
        state == (SaslState::WaitingForBegin { uid }) || state == (SaslState::WaitingForBeginAfterFd { uid }),
{
}

} // verus!
