//! The envelope codec: a deterministic, line-oriented text encoding of
//! [`SystemMessage`]. Each envelope is one self-describing unit of five
//! `name=value` lines; text fields are escaped byte-wise so that a line feed
//! never appears inside a value. Decoding is total: every byte buffer either
//! yields the one envelope it encodes or is rejected.

use crate::error::{RuntimeError, RuntimeErrorType, RuntimeResult};
use crate::model::{EnvelopeModel, MessageType, SystemCommand, SystemMessage};
use vstd::prelude::*;
use vstd::utf8::{
    decode_utf8, encode_utf8, encode_utf8_decode_utf8, encode_utf8_valid_utf8,
    is_ascii_chars_encode_utf8, valid_utf8,
};

verus! {

/// The byte code of the backslash.
pub const ESCAPE_BYTE: u8 = 92;

/// The byte code of the line feed.
pub const NEWLINE_BYTE: u8 = 10;

/// The byte code of the letter that stands for an escaped line feed.
pub const ESCAPED_NEWLINE: u8 = 110;

/// The byte code of the dash marking an absent optional field.
pub const ABSENT_BYTE: u8 = 45;

/// The byte code of the plus sign marking a present optional field.
pub const PRESENT_BYTE: u8 = 43;

/// The escaped form of one byte.
pub open spec fn esc_byte(b: u8) -> Seq<u8> {
    if b == ESCAPE_BYTE {
        seq![ESCAPE_BYTE, ESCAPE_BYTE]
    } else if b == NEWLINE_BYTE {
        seq![ESCAPE_BYTE, ESCAPED_NEWLINE]
    } else {
        seq![b]
    }
}

/// The escaped form of a byte sequence: backslashes and line feeds are
/// written as two-byte escapes, every other byte stands for itself.
pub open spec fn esc(s: Seq<u8>) -> Seq<u8>
    decreases s.len(),
{
    if s.len() == 0 {
        Seq::empty()
    } else {
        esc_byte(s[0]) + esc(s.drop_first())
    }
}

/// The byte sequence that an escaped sequence denotes, if it is well formed.
pub open spec fn unesc(s: Seq<u8>) -> Option<Seq<u8>>
    decreases s.len(),
{
    if s.len() == 0 {
        Some(Seq::empty())
    } else if s[0] == ESCAPE_BYTE {
        if s.len() < 2 {
            None
        } else if s[1] == ESCAPE_BYTE || s[1] == ESCAPED_NEWLINE {
            match unesc(s.skip(2)) {
                Some(rest) => Some(
                    seq![if s[1] == ESCAPE_BYTE { ESCAPE_BYTE } else { NEWLINE_BYTE }] + rest,
                ),
                None => None,
            }
        } else {
            None
        }
    } else {
        match unesc(s.drop_first()) {
            Some(rest) => Some(seq![s[0]] + rest),
            None => None,
        }
    }
}

/// Escaping distributes over concatenation.
pub proof fn lemma_esc_concat(a: Seq<u8>, b: Seq<u8>)
    ensures
        esc(a + b) == esc(a) + esc(b),
    decreases a.len(),
{
    if a.len() == 0 {
        assert(a + b =~= b);
        assert(esc(a) + esc(b) =~= esc(b));
    } else {
        assert((a + b).drop_first() =~= a.drop_first() + b);
        lemma_esc_concat(a.drop_first(), b);
        assert(esc_byte(a[0]) + (esc(a.drop_first()) + esc(b)) =~= (esc_byte(a[0]) + esc(
            a.drop_first(),
        )) + esc(b));
    }
}

/// An escaped sequence never holds a bare line feed.
pub proof fn lemma_esc_no_newline(s: Seq<u8>)
    ensures
        forall|i: int| 0 <= i < esc(s).len() ==> esc(s)[i] != NEWLINE_BYTE,
    decreases s.len(),
{
    if s.len() == 0 {
    } else {
        lemma_esc_no_newline(s.drop_first());
        let e0 = esc_byte(s[0]);
        assert forall|i: int| 0 <= i < esc(s).len() implies esc(s)[i] != NEWLINE_BYTE by {
            if i < e0.len() {
                assert(esc(s)[i] == e0[i]);
            } else {
                assert(esc(s)[i] == esc(s.drop_first())[i - e0.len()]);
            }
        }
    }
}

/// Unescaping recovers exactly what was escaped.
pub proof fn lemma_unesc_esc(s: Seq<u8>)
    ensures
        unesc(esc(s)) == Some(s),
    decreases s.len(),
{
    if s.len() == 0 {
    } else {
        let e = esc(s);
        lemma_unesc_esc(s.drop_first());
        if s[0] == ESCAPE_BYTE || s[0] == NEWLINE_BYTE {
            assert(e.skip(2) =~= esc(s.drop_first()));
            assert(seq![s[0]] + s.drop_first() =~= s);
        } else {
            assert(e.drop_first() =~= esc(s.drop_first()));
            assert(seq![s[0]] + s.drop_first() =~= s);
        }
    }
}

/// The position of the first occurrence of byte `b` in `s`, if any.
pub open spec fn find_byte(s: Seq<u8>, b: u8) -> Option<int>
    decreases s.len(),
{
    if s.len() == 0 {
        None
    } else if s[0] == b {
        Some(0)
    } else {
        match find_byte(s.drop_first(), b) {
            Some(i) => Some(i + 1),
            None => None,
        }
    }
}

/// What the first occurrence returned by [`find_byte`] satisfies.
pub proof fn lemma_find_byte(s: Seq<u8>, b: u8)
    ensures
        match find_byte(s, b) {
            Some(i) => 0 <= i < s.len() && s[i] == b && (forall|j: int| 0 <= j < i ==> s[j] != b),
            None => forall|j: int| 0 <= j < s.len() ==> s[j] != b,
        },
    decreases s.len(),
{
    if s.len() == 0 {
    } else if s[0] == b {
    } else {
        let t = s.drop_first();
        lemma_find_byte(t, b);
        match find_byte(t, b) {
            Some(i) => {
                assert(s[i + 1] == t[i]);
                assert forall|j: int| 0 <= j < i + 1 implies s[j] != b by {
                    if j > 0 {
                        assert(s[j] == t[j - 1]);
                    }
                }
            },
            None => {
                assert forall|j: int| 0 <= j < s.len() implies s[j] != b by {
                    if j > 0 {
                        assert(s[j] == t[j - 1]);
                    }
                }
            },
        }
    }
}

/// The first line of `s` and what follows it, split at the first line feed.
pub open spec fn split_line(s: Seq<u8>) -> Option<(Seq<u8>, Seq<u8>)> {
    match find_byte(s, NEWLINE_BYTE) {
        Some(i) => Some((s.take(i), s.skip(i + 1))),
        None => None,
    }
}

/// The first occurrence of `b` in a buffer made of `b`-free content, `b`
/// itself, and a remainder is right after the content.
proof fn lemma_find_byte_concat(a: Seq<u8>, rest: Seq<u8>, b: u8)
    requires
        forall|i: int| 0 <= i < a.len() ==> a[i] != b,
    ensures
        find_byte(a + seq![b] + rest, b) == Some(a.len() as int),
    decreases a.len(),
{
    let s = a + seq![b] + rest;
    if a.len() == 0 {
        assert(s[0] == b);
    } else {
        assert(s[0] == a[0]);
        assert(s.drop_first() =~= a.drop_first() + seq![b] + rest);
        lemma_find_byte_concat(a.drop_first(), rest, b);
    }
}

/// Splitting a terminated line off a buffer recovers its content when the
/// content holds no line feed.
pub proof fn lemma_split_line_concat(a: Seq<u8>, rest: Seq<u8>)
    requires
        forall|i: int| 0 <= i < a.len() ==> a[i] != NEWLINE_BYTE,
    ensures
        split_line(a + seq![NEWLINE_BYTE] + rest) == Some((a, rest)),
{
    let s = a + seq![NEWLINE_BYTE] + rest;
    lemma_find_byte_concat(a, rest, NEWLINE_BYTE);
    let i = a.len() as int;
    assert(s.take(i) =~= a);
    assert(s.skip(i + 1) =~= rest);
}

/// The canonical decimal digits of `n`, most significant first.
pub open spec fn dec_digits(n: nat) -> Seq<u8>
    decreases n,
{
    if n < 10 {
        seq![(48 + n) as u8]
    } else {
        dec_digits(n / 10).push((48 + n % 10) as u8)
    }
}

/// Whether every byte of `s` is a decimal digit.
pub open spec fn all_digits(s: Seq<u8>) -> bool {
    forall|i: int| 0 <= i < s.len() ==> 48 <= #[trigger] s[i] <= 57
}

/// The number that the digits of `s` denote, read most significant first.
pub open spec fn dec_value(s: Seq<u8>) -> int
    decreases s.len(),
{
    if s.len() == 0 {
        0
    } else {
        10 * dec_value(s.drop_last()) + (s.last() - 48)
    }
}

/// Ten to the power `k`.
pub open spec fn pow10(k: nat) -> int
    decreases k,
{
    if k == 0 {
        1
    } else {
        10 * pow10((k - 1) as nat)
    }
}

/// The value that a digit buffer denotes, if it is a plausible `u32`: one to
/// ten digits whose value fits.
pub open spec fn parse_dec(s: Seq<u8>) -> Option<u32> {
    if s.len() == 0 || s.len() > 10 || !all_digits(s) {
        None
    } else if dec_value(s) > u32::MAX {
        None
    } else {
        Some(dec_value(s) as u32)
    }
}

/// The canonical digits of `n` are digits.
pub proof fn lemma_dec_digits_are_digits(n: nat)
    ensures
        all_digits(dec_digits(n)),
        dec_digits(n).len() >= 1,
    decreases n,
{
    if n < 10 {
    } else {
        lemma_dec_digits_are_digits(n / 10);
    }
}

/// Reading back the canonical digits of `n` yields `n`.
pub proof fn lemma_dec_value_of_digits(n: nat)
    ensures
        dec_value(dec_digits(n)) == n,
    decreases n,
{
    if n < 10 {
        let d = dec_digits(n);
        assert(dec_value(d.drop_last()) == 0);
        assert((48 + n) as u8 == 48 + n);
    } else {
        lemma_dec_value_of_digits(n / 10);
        let d = dec_digits(n);
        assert(d.drop_last() =~= dec_digits(n / 10));
        assert(d.last() == (48 + n % 10) as u8);
        assert((48 + n % 10) as u8 == 48 + n % 10);
        assert(dec_value(d) == 10 * (n / 10) + n % 10);
        vstd::arithmetic::div_mod::lemma_fundamental_div_mod(n as int, 10);
    }
}

/// `n` below `pow10(k)` takes at most `k` digits.
pub proof fn lemma_dec_digits_len(n: nat, k: nat)
    requires
        k >= 1,
        n < pow10(k),
    ensures
        dec_digits(n).len() <= k,
    decreases n,
{
    if n < 10 {
    } else {
        assert(pow10(k) == 10 * pow10((k - 1) as nat));
        lemma_dec_digits_len(n / 10, (k - 1) as nat);
    }
}

/// Parsing the canonical digits of a `u32` yields it back.
pub proof fn lemma_parse_dec_digits(n: u32)
    ensures
        parse_dec(dec_digits(n as nat)) == Some(n),
{
    lemma_dec_digits_are_digits(n as nat);
    lemma_dec_value_of_digits(n as nat);
    assert(pow10(10) == 10000000000) by {
        reveal_with_fuel(pow10, 11);
    }
    lemma_dec_digits_len(n as nat, 10);
}

/// The bytes of the text `type=`.
pub open spec fn kw_type_prefix() -> Seq<u8> {
    encode_utf8("type="@)
}

/// The bytes of the text `from=`.
pub open spec fn kw_from_prefix() -> Seq<u8> {
    encode_utf8("from="@)
}

/// The bytes of the text `corr=`.
pub open spec fn kw_corr_prefix() -> Seq<u8> {
    encode_utf8("corr="@)
}

/// The bytes of the text `cmd=`.
pub open spec fn kw_cmd_prefix() -> Seq<u8> {
    encode_utf8("cmd="@)
}

/// The bytes of the text `payload=`.
pub open spec fn kw_payload_prefix() -> Seq<u8> {
    encode_utf8("payload="@)
}

/// The bytes of the text `request`.
pub open spec fn kw_request() -> Seq<u8> {
    encode_utf8("request"@)
}

/// The bytes of the text `response`.
pub open spec fn kw_response() -> Seq<u8> {
    encode_utf8("response"@)
}

/// The bytes of the text `command`.
pub open spec fn kw_command() -> Seq<u8> {
    encode_utf8("command"@)
}

/// The bytes of the text `ping`.
pub open spec fn kw_ping() -> Seq<u8> {
    encode_utf8("ping"@)
}

/// The bytes of the text `pong`.
pub open spec fn kw_pong() -> Seq<u8> {
    encode_utf8("pong"@)
}

/// The bytes of the text `ack`.
pub open spec fn kw_ack() -> Seq<u8> {
    encode_utf8("ack"@)
}

/// The bytes of the text `noack`.
pub open spec fn kw_noack() -> Seq<u8> {
    encode_utf8("noack"@)
}

/// The bytes of the text `healthcheck`.
pub open spec fn kw_healthcheck() -> Seq<u8> {
    encode_utf8("healthcheck"@)
}

/// The bytes of the text `ok`.
pub open spec fn kw_ok() -> Seq<u8> {
    encode_utf8("ok"@)
}

/// The bytes of the text `err`.
pub open spec fn kw_err() -> Seq<u8> {
    encode_utf8("err"@)
}

/// The bytes of the text `seq:`.
pub open spec fn kw_seq_prefix() -> Seq<u8> {
    encode_utf8("seq:"@)
}

/// The concrete bytes of every keyword of the wire format.
pub proof fn lemma_keyword_bytes()
    ensures
        kw_type_prefix() == seq![116u8, 121, 112, 101, 61],
        kw_from_prefix() == seq![102u8, 114, 111, 109, 61],
        kw_corr_prefix() == seq![99u8, 111, 114, 114, 61],
        kw_cmd_prefix() == seq![99u8, 109, 100, 61],
        kw_payload_prefix() == seq![112u8, 97, 121, 108, 111, 97, 100, 61],
        kw_request() == seq![114u8, 101, 113, 117, 101, 115, 116],
        kw_response() == seq![114u8, 101, 115, 112, 111, 110, 115, 101],
        kw_command() == seq![99u8, 111, 109, 109, 97, 110, 100],
        kw_ping() == seq![112u8, 105, 110, 103],
        kw_pong() == seq![112u8, 111, 110, 103],
        kw_ack() == seq![97u8, 99, 107],
        kw_noack() == seq![110u8, 111, 97, 99, 107],
        kw_healthcheck() == seq![104u8, 101, 97, 108, 116, 104, 99, 104, 101, 99, 107],
        kw_ok() == seq![111u8, 107],
        kw_err() == seq![101u8, 114, 114],
        kw_seq_prefix() == seq![115u8, 101, 113, 58],
{
    reveal_strlit("type=");
    is_ascii_chars_encode_utf8("type="@);
    assert(kw_type_prefix() =~= seq![116u8, 121, 112, 101, 61]);
    reveal_strlit("from=");
    is_ascii_chars_encode_utf8("from="@);
    assert(kw_from_prefix() =~= seq![102u8, 114, 111, 109, 61]);
    reveal_strlit("corr=");
    is_ascii_chars_encode_utf8("corr="@);
    assert(kw_corr_prefix() =~= seq![99u8, 111, 114, 114, 61]);
    reveal_strlit("cmd=");
    is_ascii_chars_encode_utf8("cmd="@);
    assert(kw_cmd_prefix() =~= seq![99u8, 109, 100, 61]);
    reveal_strlit("payload=");
    is_ascii_chars_encode_utf8("payload="@);
    assert(kw_payload_prefix() =~= seq![112u8, 97, 121, 108, 111, 97, 100, 61]);
    reveal_strlit("request");
    is_ascii_chars_encode_utf8("request"@);
    assert(kw_request() =~= seq![114u8, 101, 113, 117, 101, 115, 116]);
    reveal_strlit("response");
    is_ascii_chars_encode_utf8("response"@);
    assert(kw_response() =~= seq![114u8, 101, 115, 112, 111, 110, 115, 101]);
    reveal_strlit("command");
    is_ascii_chars_encode_utf8("command"@);
    assert(kw_command() =~= seq![99u8, 111, 109, 109, 97, 110, 100]);
    reveal_strlit("ping");
    is_ascii_chars_encode_utf8("ping"@);
    assert(kw_ping() =~= seq![112u8, 105, 110, 103]);
    reveal_strlit("pong");
    is_ascii_chars_encode_utf8("pong"@);
    assert(kw_pong() =~= seq![112u8, 111, 110, 103]);
    reveal_strlit("ack");
    is_ascii_chars_encode_utf8("ack"@);
    assert(kw_ack() =~= seq![97u8, 99, 107]);
    reveal_strlit("noack");
    is_ascii_chars_encode_utf8("noack"@);
    assert(kw_noack() =~= seq![110u8, 111, 97, 99, 107]);
    reveal_strlit("healthcheck");
    is_ascii_chars_encode_utf8("healthcheck"@);
    assert(kw_healthcheck() =~= seq![104u8, 101, 97, 108, 116, 104, 99, 104, 101, 99, 107]);
    reveal_strlit("ok");
    is_ascii_chars_encode_utf8("ok"@);
    assert(kw_ok() =~= seq![111u8, 107]);
    reveal_strlit("err");
    is_ascii_chars_encode_utf8("err"@);
    assert(kw_err() =~= seq![101u8, 114, 114]);
    reveal_strlit("seq:");
    is_ascii_chars_encode_utf8("seq:"@);
    assert(kw_seq_prefix() =~= seq![115u8, 101, 113, 58]);
}

/// The word that encodes a message type tag.
pub open spec fn message_type_word(t: MessageType) -> Seq<u8> {
    match t {
        MessageType::Request => kw_request(),
        MessageType::Response => kw_response(),
        MessageType::Command => kw_command(),
    }
}

/// The word that encodes a command; a sequence command carries its number in
/// decimal.
pub open spec fn command_word(c: SystemCommand) -> Seq<u8> {
    match c {
        SystemCommand::Ping => kw_ping(),
        SystemCommand::Pong => kw_pong(),
        SystemCommand::Ack => kw_ack(),
        SystemCommand::NoAck => kw_noack(),
        SystemCommand::HealthCheck => kw_healthcheck(),
        SystemCommand::Okay => kw_ok(),
        SystemCommand::Failed => kw_err(),
        SystemCommand::Sequence(n) => kw_seq_prefix() + dec_digits(n as nat),
    }
}

/// The value of an optional text field: a dash when absent, a plus sign and
/// the escaped text when present.
pub open spec fn opt_text_field(o: Option<Seq<char>>) -> Seq<u8> {
    match o {
        None => seq![ABSENT_BYTE],
        Some(s) => seq![PRESENT_BYTE] + esc(encode_utf8(s)),
    }
}

/// The value of the optional payload field.
pub open spec fn opt_payload_field(o: Option<Seq<u8>>) -> Seq<u8> {
    match o {
        None => seq![ABSENT_BYTE],
        Some(p) => seq![PRESENT_BYTE] + esc(p),
    }
}

/// The value of the optional command field.
pub open spec fn opt_command_field(o: Option<SystemCommand>) -> Seq<u8> {
    match o {
        None => seq![ABSENT_BYTE],
        Some(c) => command_word(c),
    }
}

/// One `name=value` line of the encoding, with its terminating line feed.
pub open spec fn field_line(tag: Seq<u8>, value: Seq<u8>) -> Seq<u8> {
    tag + value + seq![NEWLINE_BYTE]
}

/// The encoding of an envelope: five tagged lines.
pub open spec fn spec_encode(m: EnvelopeModel) -> Seq<u8> {
    field_line(kw_type_prefix(), message_type_word(m.message_type)) + (field_line(
        kw_from_prefix(),
        esc(encode_utf8(m.from)),
    ) + (field_line(kw_corr_prefix(), opt_text_field(m.correlation_id)) + (field_line(
        kw_cmd_prefix(),
        opt_command_field(m.command),
    ) + field_line(kw_payload_prefix(), opt_payload_field(m.payload)))))
}

/// What follows `p` in `s`, when `s` begins with `p`.
pub open spec fn strip_prefix(s: Seq<u8>, p: Seq<u8>) -> Option<Seq<u8>> {
    if p.len() <= s.len() && s.take(p.len() as int) == p {
        Some(s.skip(p.len() as int))
    } else {
        None
    }
}

/// The message type tag that a value word denotes, if any.
pub open spec fn parse_message_type(v: Seq<u8>) -> Option<MessageType> {
    if v == kw_request() {
        Some(MessageType::Request)
    } else if v == kw_response() {
        Some(MessageType::Response)
    } else if v == kw_command() {
        Some(MessageType::Command)
    } else {
        None
    }
}

/// The command that a value word denotes, if any.
pub open spec fn parse_command_word(v: Seq<u8>) -> Option<SystemCommand> {
    if v == kw_ping() {
        Some(SystemCommand::Ping)
    } else if v == kw_pong() {
        Some(SystemCommand::Pong)
    } else if v == kw_ack() {
        Some(SystemCommand::Ack)
    } else if v == kw_noack() {
        Some(SystemCommand::NoAck)
    } else if v == kw_healthcheck() {
        Some(SystemCommand::HealthCheck)
    } else if v == kw_ok() {
        Some(SystemCommand::Okay)
    } else if v == kw_err() {
        Some(SystemCommand::Failed)
    } else {
        match strip_prefix(v, kw_seq_prefix()) {
            Some(digits) => match parse_dec(digits) {
                Some(n) => Some(SystemCommand::Sequence(n)),
                None => None,
            },
            None => None,
        }
    }
}

/// The text that an escaped field value denotes, if it is well formed UTF-8.
pub open spec fn parse_text_field(v: Seq<u8>) -> Option<Seq<char>> {
    match unesc(v) {
        Some(bytes) => if valid_utf8(bytes) {
            Some(decode_utf8(bytes))
        } else {
            None
        },
        None => None,
    }
}

/// The optional text that a field value denotes, if it is well formed.
pub open spec fn parse_opt_text(v: Seq<u8>) -> Option<Option<Seq<char>>> {
    if v == seq![ABSENT_BYTE] {
        Some(None)
    } else if v.len() >= 1 && v[0] == PRESENT_BYTE {
        match parse_text_field(v.skip(1)) {
            Some(s) => Some(Some(s)),
            None => None,
        }
    } else {
        None
    }
}

/// The optional payload that a field value denotes, if it is well formed.
pub open spec fn parse_opt_payload(v: Seq<u8>) -> Option<Option<Seq<u8>>> {
    if v == seq![ABSENT_BYTE] {
        Some(None)
    } else if v.len() >= 1 && v[0] == PRESENT_BYTE {
        match unesc(v.skip(1)) {
            Some(bytes) => Some(Some(bytes)),
            None => None,
        }
    } else {
        None
    }
}

/// The optional command that a field value denotes, if it is well formed.
pub open spec fn parse_opt_command(v: Seq<u8>) -> Option<Option<SystemCommand>> {
    if v == seq![ABSENT_BYTE] {
        Some(None)
    } else {
        match parse_command_word(v) {
            Some(c) => Some(Some(c)),
            None => None,
        }
    }
}

/// The envelope that a byte buffer encodes, if any: five tagged lines in
/// fixed order and nothing after them.
pub open spec fn spec_decode(b: Seq<u8>) -> Option<EnvelopeModel> {
    match split_line(b) {
        None => None,
        Some((l1, r1)) => match strip_prefix(l1, kw_type_prefix()) {
            None => None,
            Some(v1) => match parse_message_type(v1) {
                None => None,
                Some(mt) => match split_line(r1) {
                    None => None,
                    Some((l2, r2)) => match strip_prefix(l2, kw_from_prefix()) {
                        None => None,
                        Some(v2) => match parse_text_field(v2) {
                            None => None,
                            Some(from) => match split_line(r2) {
                                None => None,
                                Some((l3, r3)) => match strip_prefix(l3, kw_corr_prefix()) {
                                    None => None,
                                    Some(v3) => match parse_opt_text(v3) {
                                        None => None,
                                        Some(corr) => match split_line(r3) {
                                            None => None,
                                            Some((l4, r4)) => match strip_prefix(
                                                l4,
                                                kw_cmd_prefix(),
                                            ) {
                                                None => None,
                                                Some(v4) => match parse_opt_command(v4) {
                                                    None => None,
                                                    Some(cmd) => match split_line(r4) {
                                                        None => None,
                                                        Some((l5, r5)) => match strip_prefix(
                                                            l5,
                                                            kw_payload_prefix(),
                                                        ) {
                                                            None => None,
                                                            Some(v5) => match parse_opt_payload(
                                                                v5,
                                                            ) {
                                                                None => None,
                                                                Some(payload) => if r5.len()
                                                                    == 0 {
                                                                    Some(
                                                                        EnvelopeModel {
                                                                            from: from,
                                                                            payload: payload,
                                                                            correlation_id: corr,
                                                                            command: cmd,
                                                                            message_type: mt,
                                                                        },
                                                                    )
                                                                } else {
                                                                    None
                                                                },
                                                            },
                                                        },
                                                    },
                                                },
                                            },
                                        },
                                    },
                                },
                            },
                        },
                    },
                },
            },
        },
    }
}

/// Freedom from line feeds is preserved by concatenation.
proof fn lemma_no_newline_concat(a: Seq<u8>, b: Seq<u8>)
    requires
        forall|i: int| 0 <= i < a.len() ==> a[i] != NEWLINE_BYTE,
        forall|i: int| 0 <= i < b.len() ==> b[i] != NEWLINE_BYTE,
    ensures
        forall|i: int| 0 <= i < (a + b).len() ==> (a + b)[i] != NEWLINE_BYTE,
{
    assert forall|i: int| 0 <= i < (a + b).len() implies (a + b)[i] != NEWLINE_BYTE by {
        if i < a.len() {
            assert((a + b)[i] == a[i]);
        } else {
            assert((a + b)[i] == b[i - a.len()]);
        }
    }
}

/// No keyword of the wire format holds a line feed.
proof fn lemma_keywords_no_newline()
    ensures
        forall|i: int| 0 <= i < kw_type_prefix().len() ==> kw_type_prefix()[i] != NEWLINE_BYTE,
        forall|i: int| 0 <= i < kw_from_prefix().len() ==> kw_from_prefix()[i] != NEWLINE_BYTE,
        forall|i: int| 0 <= i < kw_corr_prefix().len() ==> kw_corr_prefix()[i] != NEWLINE_BYTE,
        forall|i: int| 0 <= i < kw_cmd_prefix().len() ==> kw_cmd_prefix()[i] != NEWLINE_BYTE,
        forall|i: int| 0 <= i < kw_payload_prefix().len() ==> kw_payload_prefix()[i]
            != NEWLINE_BYTE,
        forall|i: int| 0 <= i < kw_request().len() ==> kw_request()[i] != NEWLINE_BYTE,
        forall|i: int| 0 <= i < kw_response().len() ==> kw_response()[i] != NEWLINE_BYTE,
        forall|i: int| 0 <= i < kw_command().len() ==> kw_command()[i] != NEWLINE_BYTE,
        forall|i: int| 0 <= i < kw_ping().len() ==> kw_ping()[i] != NEWLINE_BYTE,
        forall|i: int| 0 <= i < kw_pong().len() ==> kw_pong()[i] != NEWLINE_BYTE,
        forall|i: int| 0 <= i < kw_ack().len() ==> kw_ack()[i] != NEWLINE_BYTE,
        forall|i: int| 0 <= i < kw_noack().len() ==> kw_noack()[i] != NEWLINE_BYTE,
        forall|i: int| 0 <= i < kw_healthcheck().len() ==> kw_healthcheck()[i] != NEWLINE_BYTE,
        forall|i: int| 0 <= i < kw_ok().len() ==> kw_ok()[i] != NEWLINE_BYTE,
        forall|i: int| 0 <= i < kw_err().len() ==> kw_err()[i] != NEWLINE_BYTE,
        forall|i: int| 0 <= i < kw_seq_prefix().len() ==> kw_seq_prefix()[i] != NEWLINE_BYTE,
{
    lemma_keyword_bytes();
}

/// An encoded message type word holds no line feed.
proof fn lemma_message_type_word_no_newline(t: MessageType)
    ensures
        forall|i: int| 0 <= i < message_type_word(t).len() ==> message_type_word(t)[i]
            != NEWLINE_BYTE,
{
    lemma_keywords_no_newline();
}

/// An encoded command word holds no line feed.
proof fn lemma_command_word_no_newline(c: SystemCommand)
    ensures
        forall|i: int| 0 <= i < command_word(c).len() ==> command_word(c)[i] != NEWLINE_BYTE,
{
    lemma_keywords_no_newline();
    if let SystemCommand::Sequence(n) = c {
        lemma_dec_digits_are_digits(n as nat);
        lemma_no_newline_concat(kw_seq_prefix(), dec_digits(n as nat));
    }
}

/// An encoded optional text field holds no line feed.
proof fn lemma_opt_text_field_no_newline(o: Option<Seq<char>>)
    ensures
        forall|i: int| 0 <= i < opt_text_field(o).len() ==> opt_text_field(o)[i] != NEWLINE_BYTE,
{
    if let Some(s) = o {
        lemma_esc_no_newline(encode_utf8(s));
        lemma_no_newline_concat(seq![PRESENT_BYTE], esc(encode_utf8(s)));
    }
}

/// An encoded optional payload field holds no line feed.
proof fn lemma_opt_payload_field_no_newline(o: Option<Seq<u8>>)
    ensures
        forall|i: int| 0 <= i < opt_payload_field(o).len() ==> opt_payload_field(o)[i]
            != NEWLINE_BYTE,
{
    if let Some(p) = o {
        lemma_esc_no_newline(p);
        lemma_no_newline_concat(seq![PRESENT_BYTE], esc(p));
    }
}

/// An encoded optional command field holds no line feed.
proof fn lemma_opt_command_field_no_newline(o: Option<SystemCommand>)
    ensures
        forall|i: int| 0 <= i < opt_command_field(o).len() ==> opt_command_field(o)[i]
            != NEWLINE_BYTE,
{
    if let Some(c) = o {
        lemma_command_word_no_newline(c);
    }
}

/// Reading back an encoded message type word yields the tag.
proof fn lemma_parse_message_type_word(t: MessageType)
    ensures
        parse_message_type(message_type_word(t)) == Some(t),
{
    lemma_keyword_bytes();
}

/// Reading back an encoded command word yields the command.
proof fn lemma_parse_command_word(c: SystemCommand)
    ensures
        parse_command_word(command_word(c)) == Some(c),
{
    lemma_keyword_bytes();
    if let SystemCommand::Sequence(n) = c {
        let v = command_word(c);
        let k = kw_seq_prefix();
        lemma_dec_digits_are_digits(n as nat);
        assert(v[0] == k[0]);
        assert(v.take(k.len() as int) =~= k);
        assert(v.skip(k.len() as int) =~= dec_digits(n as nat));
        lemma_parse_dec_digits(n);
    }
}

/// Reading back an encoded optional text field yields the option.
proof fn lemma_parse_opt_text_field(o: Option<Seq<char>>)
    ensures
        parse_opt_text(opt_text_field(o)) == Some(o),
{
    if let Some(s) = o {
        let v = opt_text_field(o);
        assert(v[0] == PRESENT_BYTE);
        assert(v.skip(1) =~= esc(encode_utf8(s)));
        lemma_unesc_esc(encode_utf8(s));
        encode_utf8_valid_utf8(s);
        encode_utf8_decode_utf8(s);
    }
}

/// Reading back an encoded optional payload field yields the option.
proof fn lemma_parse_opt_payload_field(o: Option<Seq<u8>>)
    ensures
        parse_opt_payload(opt_payload_field(o)) == Some(o),
{
    if let Some(p) = o {
        let v = opt_payload_field(o);
        assert(v[0] == PRESENT_BYTE);
        assert(v.skip(1) =~= esc(p));
        lemma_unesc_esc(p);
    }
}

/// Reading back an encoded optional command field yields the option.
proof fn lemma_parse_opt_command_field(o: Option<SystemCommand>)
    ensures
        parse_opt_command(opt_command_field(o)) == Some(o),
{
    lemma_keyword_bytes();
    if let Some(c) = o {
        lemma_parse_command_word(c);
        match c {
            SystemCommand::Sequence(n) => {
                lemma_dec_digits_are_digits(n as nat);
                assert(command_word(c)[0] == kw_seq_prefix()[0]);
            },
            _ => {},
        }
    }
}

/// Round trip: decoding an encoded envelope yields that envelope, for every
/// constructible envelope.
pub proof fn lemma_codec_round_trip(m: EnvelopeModel)
    ensures
        spec_decode(spec_encode(m)) == Some(m),
{
    lemma_keyword_bytes();
    lemma_keywords_no_newline();
    let w1 = message_type_word(m.message_type);
    let w2 = esc(encode_utf8(m.from));
    let w3 = opt_text_field(m.correlation_id);
    let w4 = opt_command_field(m.command);
    let w5 = opt_payload_field(m.payload);
    let c1 = kw_type_prefix() + w1;
    let c2 = kw_from_prefix() + w2;
    let c3 = kw_corr_prefix() + w3;
    let c4 = kw_cmd_prefix() + w4;
    let c5 = kw_payload_prefix() + w5;
    lemma_message_type_word_no_newline(m.message_type);
    lemma_esc_no_newline(encode_utf8(m.from));
    lemma_opt_text_field_no_newline(m.correlation_id);
    lemma_opt_command_field_no_newline(m.command);
    lemma_opt_payload_field_no_newline(m.payload);
    lemma_no_newline_concat(kw_type_prefix(), w1);
    lemma_no_newline_concat(kw_from_prefix(), w2);
    lemma_no_newline_concat(kw_corr_prefix(), w3);
    lemma_no_newline_concat(kw_cmd_prefix(), w4);
    lemma_no_newline_concat(kw_payload_prefix(), w5);
    let t5 = c5 + seq![NEWLINE_BYTE] + Seq::<u8>::empty();
    let t4 = c4 + seq![NEWLINE_BYTE] + t5;
    let t3 = c3 + seq![NEWLINE_BYTE] + t4;
    let t2 = c2 + seq![NEWLINE_BYTE] + t3;
    let t1 = c1 + seq![NEWLINE_BYTE] + t2;
    assert(spec_encode(m) =~= t1);
    lemma_split_line_concat(c1, t2);
    lemma_split_line_concat(c2, t3);
    lemma_split_line_concat(c3, t4);
    lemma_split_line_concat(c4, t5);
    lemma_split_line_concat(c5, Seq::<u8>::empty());
    assert(c1.take(kw_type_prefix().len() as int) =~= kw_type_prefix());
    assert(c1.skip(kw_type_prefix().len() as int) =~= w1);
    assert(c2.take(kw_from_prefix().len() as int) =~= kw_from_prefix());
    assert(c2.skip(kw_from_prefix().len() as int) =~= w2);
    assert(c3.take(kw_corr_prefix().len() as int) =~= kw_corr_prefix());
    assert(c3.skip(kw_corr_prefix().len() as int) =~= w3);
    assert(c4.take(kw_cmd_prefix().len() as int) =~= kw_cmd_prefix());
    assert(c4.skip(kw_cmd_prefix().len() as int) =~= w4);
    assert(c5.take(kw_payload_prefix().len() as int) =~= kw_payload_prefix());
    assert(c5.skip(kw_payload_prefix().len() as int) =~= w5);
    lemma_parse_message_type_word(m.message_type);
    lemma_unesc_esc(encode_utf8(m.from));
    encode_utf8_valid_utf8(m.from);
    encode_utf8_decode_utf8(m.from);
    lemma_parse_opt_text_field(m.correlation_id);
    lemma_parse_opt_command_field(m.command);
    lemma_parse_opt_payload_field(m.payload);
    match spec_decode(t1) {
        Some(d) => {
            assert(d =~= m);
        },
        None => {
            assert(false);
        },
    }
}

/// Relies on String::from_utf8: it succeeds exactly on valid UTF-8 input and
/// yields the text those bytes encode.
#[verifier::external_body]
fn string_from_utf8(bytes: Vec<u8>) -> (r: Option<String>)
    ensures
        r is Some <==> valid_utf8(bytes@),
        r matches Some(s) ==> s@ == decode_utf8(bytes@),
{
    match String::from_utf8(bytes) {
        Ok(s) => Some(s),
        Err(_) => None,
    }
}

/// The bytes of an ASCII keyword of the wire format.
fn keyword_bytes(s: &str) -> (r: Vec<u8>)
    ensures
        r@ == encode_utf8(s@),
{
    s.as_bytes_vec()
}

/// Appends all bytes of `src` to `dst`.
fn append_bytes(dst: &mut Vec<u8>, src: &Vec<u8>)
    ensures
        final(dst)@ == old(dst)@ + src@,
{
    let mut j: usize = 0;
    while j < src.len()
        invariant
            j <= src@.len(),
            dst@ == old(dst)@ + src@.take(j as int),
        decreases src@.len() - j,
    {
        dst.push(src[j]);
        proof {
            assert(old(dst)@ + src@.take(j as int) + seq![src@[j as int]] =~= old(dst)@
                + src@.take(j + 1));
        }
        j = j + 1;
    }
    proof {
        assert(old(dst)@ + src@.take(src@.len() as int) =~= old(dst)@ + src@);
    }
}

/// A copy of the bytes of `s` from `a` (inclusive) to `b` (exclusive).
fn subrange_bytes(s: &Vec<u8>, a: usize, b: usize) -> (r: Vec<u8>)
    requires
        a <= b <= s@.len(),
    ensures
        r@ == s@.subrange(a as int, b as int),
{
    let mut r: Vec<u8> = Vec::new();
    let mut j: usize = a;
    while j < b
        invariant
            a <= j <= b <= s@.len(),
            r@ == s@.subrange(a as int, j as int),
        decreases b - j,
    {
        r.push(s[j]);
        proof {
            assert(s@.subrange(a as int, j as int).push(s@[j as int]) =~= s@.subrange(
                a as int,
                j + 1,
            ));
        }
        j = j + 1;
    }
    r
}

/// Whether two byte vectors hold the same bytes.
fn eq_bytes(a: &Vec<u8>, b: &Vec<u8>) -> (r: bool)
    ensures
        r == (a@ == b@),
{
    if a.len() != b.len() {
        return false;
    }
    let mut j: usize = 0;
    while j < a.len()
        invariant
            j <= a@.len(),
            a@.len() == b@.len(),
            forall|k: int| 0 <= k < j ==> a@[k] == b@[k],
        decreases a@.len() - j,
    {
        if a[j] != b[j] {
            return false;
        }
        j = j + 1;
    }
    proof {
        assert(a@ =~= b@);
    }
    true
}

/// Appends the escaped form of `s` to `out`.
fn esc_push(out: &mut Vec<u8>, s: &Vec<u8>)
    ensures
        final(out)@ == old(out)@ + esc(s@),
{
    let mut i: usize = 0;
    proof {
        assert(esc(s@.take(0)) =~= Seq::<u8>::empty());
        assert(old(out)@ + Seq::<u8>::empty() =~= old(out)@);
    }
    while i < s.len()
        invariant
            i <= s@.len(),
            out@ == old(out)@ + esc(s@.take(i as int)),
        decreases s@.len() - i,
    {
        let b = s[i];
        proof {
            lemma_esc_concat(s@.take(i as int), seq![s@[i as int]]);
            assert(s@.take(i as int) + seq![s@[i as int]] =~= s@.take(i + 1));
            assert(seq![b].drop_first() =~= Seq::<u8>::empty());
            assert(esc(Seq::<u8>::empty()) =~= Seq::<u8>::empty());
            assert(esc(seq![b]) == esc_byte(b) + esc(Seq::<u8>::empty()));
            assert(esc(seq![b]) =~= esc_byte(b));
        }
        if b == ESCAPE_BYTE {
            out.push(ESCAPE_BYTE);
            out.push(ESCAPE_BYTE);
        } else if b == NEWLINE_BYTE {
            out.push(ESCAPE_BYTE);
            out.push(ESCAPED_NEWLINE);
        } else {
            out.push(b);
        }
        proof {
            assert(out@ =~= old(out)@ + esc(s@.take(i + 1)));
        }
        i = i + 1;
    }
    proof {
        assert(s@.take(s@.len() as int) =~= s@);
    }
}

/// The bytes that the escaped content of `v` denotes, if it is well formed.
fn unesc_bytes(v: &Vec<u8>) -> (r: Option<Vec<u8>>)
    ensures
        match r {
            Some(out) => unesc(v@) == Some(out@),
            None => unesc(v@) is None,
        },
{
    let mut out: Vec<u8> = Vec::new();
    let mut i: usize = 0;
    proof {
        assert(v@.skip(0) =~= v@);
        assert(Seq::<u8>::empty() + v@ =~= v@);
    }
    while i < v.len()
        invariant
            i <= v@.len(),
            match unesc(v@.skip(i as int)) {
                Some(rest) => unesc(v@) == Some(out@ + rest),
                None => unesc(v@) is None,
            },
        decreases v@.len() - i,
    {
        let ghost rest = v@.skip(i as int);
        let b = v[i];
        proof {
            assert(rest[0] == v@[i as int]);
        }
        if b == ESCAPE_BYTE {
            if v.len() - i < 2 {
                return None;
            }
            let c = v[i + 1];
            proof {
                assert(rest[1] == v@[i + 1]);
                assert(rest.skip(2) =~= v@.skip(i + 2));
            }
            let ghost out0 = out@;
            if c == ESCAPE_BYTE {
                out.push(ESCAPE_BYTE);
            } else if c == ESCAPED_NEWLINE {
                out.push(NEWLINE_BYTE);
            } else {
                return None;
            }
            proof {
                let d: u8 = if c == ESCAPE_BYTE {
                    ESCAPE_BYTE
                } else {
                    NEWLINE_BYTE
                };
                match unesc(v@.skip(i + 2)) {
                    Some(r2) => {
                        assert(unesc(rest) == Some(seq![d] + r2));
                        assert(out0 + (seq![d] + r2) =~= out@ + r2);
                    },
                    None => {},
                }
            }
            i = i + 2;
        } else {
            let ghost out0 = out@;
            out.push(b);
            proof {
                assert(rest.drop_first() =~= v@.skip(i + 1));
                match unesc(v@.skip(i + 1)) {
                    Some(r2) => {
                        assert(unesc(rest) == Some(seq![b] + r2));
                        assert(out0 + (seq![b] + r2) =~= out@ + r2);
                    },
                    None => {},
                }
            }
            i = i + 1;
        }
    }
    proof {
        assert(v@.skip(i as int).len() == 0);
        assert(out@ + Seq::<u8>::empty() =~= out@);
    }
    Some(out)
}

/// Appends the canonical decimal digits of `n` to `out`.
fn push_dec(out: &mut Vec<u8>, n: u32)
    ensures
        final(out)@ == old(out)@ + dec_digits(n as nat),
    decreases n,
{
    if n < 10 {
        out.push(48 + n as u8);
        proof {
            assert(out@ =~= old(out)@ + dec_digits(n as nat));
        }
    } else {
        push_dec(out, n / 10);
        out.push(48 + (n % 10) as u8);
        proof {
            assert(out@ =~= old(out)@ + dec_digits(n as nat));
        }
    }
}

/// Ten to the power of each count is at least ten to the power of a smaller
/// count.
proof fn lemma_pow10_mono(a: nat, b: nat)
    requires
        a <= b,
    ensures
        pow10(a) <= pow10(b),
    decreases b,
{
    if a < b {
        lemma_pow10_mono(a, (b - 1) as nat);
        assert(pow10((b - 1) as nat) >= 1) by {
            lemma_pow10_mono(0, (b - 1) as nat);
        }
    }
}

/// The number that a digit buffer denotes, if it fits a `u32`.
fn parse_dec_bytes(v: &Vec<u8>) -> (r: Option<u32>)
    ensures
        r == parse_dec(v@),
{
    if v.len() == 0 || v.len() > 10 {
        return None;
    }
    let mut acc: u64 = 0;
    let mut i: usize = 0;
    proof {
        assert(dec_value(v@.take(0)) == 0);
    }
    while i < v.len()
        invariant
            i <= v@.len(),
            1 <= v@.len() <= 10,
            forall|j: int| 0 <= j < i ==> 48 <= #[trigger] v@[j] <= 57,
            acc == dec_value(v@.take(i as int)),
            acc < pow10(i as nat),
        decreases v@.len() - i,
    {
        let b = v[i];
        if b < 48 || b > 57 {
            proof {
                assert(!all_digits(v@));
            }
            return None;
        }
        proof {
            lemma_pow10_mono(i as nat, 9);
            assert(pow10(9) == 1000000000) by {
                reveal_with_fuel(pow10, 10);
            }
            assert(v@.take(i + 1).drop_last() =~= v@.take(i as int));
            assert(v@.take(i + 1).last() == v@[i as int]);
        }
        acc = acc * 10 + ((b - 48) as u64);
        i = i + 1;
    }
    proof {
        assert(v@.take(v@.len() as int) =~= v@);
        assert(all_digits(v@));
    }
    if acc > 4294967295u64 {
        return None;
    }
    Some(acc as u32)
}

/// The next line of `buf` from position `pos`, and the position just past
/// its line feed.
fn take_line(buf: &Vec<u8>, pos: usize) -> (r: Option<(Vec<u8>, usize)>)
    requires
        pos <= buf@.len(),
    ensures
        match r {
            Some(p) => pos < p.1 <= buf@.len() && split_line(buf@.skip(pos as int)) == Some(
                (p.0@, buf@.skip(p.1 as int)),
            ),
            None => split_line(buf@.skip(pos as int)) is None,
        },
{
    let ghost tail = buf@.skip(pos as int);
    let mut k = pos;
    while k < buf.len() && buf[k] != NEWLINE_BYTE
        invariant
            pos <= k <= buf@.len(),
            forall|j: int| pos <= j < k ==> buf@[j] != NEWLINE_BYTE,
        decreases buf@.len() - k,
    {
        k = k + 1;
    }
    proof {
        lemma_find_byte(tail, NEWLINE_BYTE);
        assert(forall|j: int| 0 <= j < k - pos ==> tail[j] == buf@[pos + j]);
    }
    if k == buf.len() {
        proof {
            if let Some(i) = find_byte(tail, NEWLINE_BYTE) {
                assert(tail[i] == buf@[pos + i]);
                assert(false);
            }
        }
        return None;
    }
    let line = subrange_bytes(buf, pos, k);
    proof {
        let w = k - pos;
        assert(tail[w] == buf@[k as int]);
        match find_byte(tail, NEWLINE_BYTE) {
            Some(i) => {
                if i < w {
                    assert(tail[i] == buf@[pos + i]);
                    assert(false);
                }
                if i > w {
                    assert(tail[w] != NEWLINE_BYTE);
                    assert(false);
                }
                assert(tail.take(w) =~= buf@.subrange(pos as int, k as int));
                assert(tail.skip(w + 1) =~= buf@.skip(k + 1));
            },
            None => {
                assert(tail[w] != NEWLINE_BYTE);
                assert(false);
            },
        }
    }
    Some((line, k + 1))
}

/// What follows the prefix `p` in `line`, when `line` begins with it.
fn strip_prefix_bytes(line: &Vec<u8>, p: &Vec<u8>) -> (r: Option<Vec<u8>>)
    ensures
        match r {
            Some(v) => strip_prefix(line@, p@) == Some(v@),
            None => strip_prefix(line@, p@) is None,
        },
{
    if p.len() > line.len() {
        return None;
    }
    let mut j: usize = 0;
    while j < p.len()
        invariant
            j <= p@.len() <= line@.len(),
            forall|k: int| 0 <= k < j ==> line@[k] == p@[k],
        decreases p@.len() - j,
    {
        if line[j] != p[j] {
            proof {
                assert(line@.take(p@.len() as int)[j as int] == line@[j as int]);
            }
            return None;
        }
        j = j + 1;
    }
    proof {
        assert(line@.take(p@.len() as int) =~= p@);
    }
    let v = subrange_bytes(line, p.len(), line.len());
    proof {
        assert(line@.subrange(p@.len() as int, line@.len() as int) =~= line@.skip(
            p@.len() as int,
        ));
    }
    Some(v)
}

/// The message type tag that a value word denotes, if any.
fn parse_message_type_bytes(v: &Vec<u8>) -> (r: Option<MessageType>)
    ensures
        r == parse_message_type(v@),
{
    if eq_bytes(v, &keyword_bytes("request")) {
        Some(MessageType::Request)
    } else if eq_bytes(v, &keyword_bytes("response")) {
        Some(MessageType::Response)
    } else if eq_bytes(v, &keyword_bytes("command")) {
        Some(MessageType::Command)
    } else {
        None
    }
}

/// The command that a value word denotes, if any.
fn parse_command_word_bytes(v: &Vec<u8>) -> (r: Option<SystemCommand>)
    ensures
        r == parse_command_word(v@),
{
    if eq_bytes(v, &keyword_bytes("ping")) {
        Some(SystemCommand::Ping)
    } else if eq_bytes(v, &keyword_bytes("pong")) {
        Some(SystemCommand::Pong)
    } else if eq_bytes(v, &keyword_bytes("ack")) {
        Some(SystemCommand::Ack)
    } else if eq_bytes(v, &keyword_bytes("noack")) {
        Some(SystemCommand::NoAck)
    } else if eq_bytes(v, &keyword_bytes("healthcheck")) {
        Some(SystemCommand::HealthCheck)
    } else if eq_bytes(v, &keyword_bytes("ok")) {
        Some(SystemCommand::Okay)
    } else if eq_bytes(v, &keyword_bytes("err")) {
        Some(SystemCommand::Failed)
    } else {
        match strip_prefix_bytes(v, &keyword_bytes("seq:")) {
            Some(digits) => match parse_dec_bytes(&digits) {
                Some(n) => Some(SystemCommand::Sequence(n)),
                None => None,
            },
            None => None,
        }
    }
}

/// Whether a field value is the dash that marks an absent optional field.
fn is_absent_marker(v: &Vec<u8>) -> (r: bool)
    ensures
        r == (v@ == seq![ABSENT_BYTE]),
{
    let r = v.len() == 1 && v[0] == ABSENT_BYTE;
    proof {
        if r {
            assert(v@ =~= seq![ABSENT_BYTE]);
        }
    }
    r
}

/// The text that an escaped field value denotes, if it is well formed.
fn parse_text_field_bytes(v: &Vec<u8>) -> (r: Option<String>)
    ensures
        match r {
            Some(s) => parse_text_field(v@) == Some(s@),
            None => parse_text_field(v@) is None,
        },
{
    match unesc_bytes(v) {
        Some(bytes) => string_from_utf8(bytes),
        None => None,
    }
}

/// The optional text that a field value denotes, if it is well formed.
fn parse_opt_text_bytes(v: &Vec<u8>) -> (r: Option<Option<String>>)
    ensures
        match r {
            Some(None) => parse_opt_text(v@) == Some(None::<Seq<char>>),
            Some(Some(s)) => parse_opt_text(v@) == Some(Some(s@)),
            None => parse_opt_text(v@) is None,
        },
{
    if is_absent_marker(v) {
        return Some(None);
    }
    if v.len() >= 1 && v[0] == PRESENT_BYTE {
        let inner = subrange_bytes(v, 1, v.len());
        proof {
            assert(v@.subrange(1, v@.len() as int) =~= v@.skip(1));
        }
        match parse_text_field_bytes(&inner) {
            Some(s) => Some(Some(s)),
            None => None,
        }
    } else {
        None
    }
}

/// The optional payload that a field value denotes, if it is well formed.
fn parse_opt_payload_bytes(v: &Vec<u8>) -> (r: Option<Option<Vec<u8>>>)
    ensures
        match r {
            Some(None) => parse_opt_payload(v@) == Some(None::<Seq<u8>>),
            Some(Some(p)) => parse_opt_payload(v@) == Some(Some(p@)),
            None => parse_opt_payload(v@) is None,
        },
{
    if is_absent_marker(v) {
        return Some(None);
    }
    if v.len() >= 1 && v[0] == PRESENT_BYTE {
        let inner = subrange_bytes(v, 1, v.len());
        proof {
            assert(v@.subrange(1, v@.len() as int) =~= v@.skip(1));
        }
        match unesc_bytes(&inner) {
            Some(p) => Some(Some(p)),
            None => None,
        }
    } else {
        None
    }
}

/// The optional command that a field value denotes, if it is well formed.
fn parse_opt_command_bytes(v: &Vec<u8>) -> (r: Option<Option<SystemCommand>>)
    ensures
        match r {
            Some(None) => parse_opt_command(v@) == Some(None::<SystemCommand>),
            Some(Some(c)) => parse_opt_command(v@) == Some(Some(c)),
            None => parse_opt_command(v@) is None,
        },
{
    if is_absent_marker(v) {
        return Some(None);
    }
    match parse_command_word_bytes(v) {
        Some(c) => Some(Some(c)),
        None => None,
    }
}

/// Appends the word that encodes a command to `out`.
fn push_command_word(out: &mut Vec<u8>, c: &SystemCommand)
    ensures
        final(out)@ == old(out)@ + command_word(*c),
{
    match c {
        SystemCommand::Ping => append_bytes(out, &keyword_bytes("ping")),
        SystemCommand::Pong => append_bytes(out, &keyword_bytes("pong")),
        SystemCommand::Ack => append_bytes(out, &keyword_bytes("ack")),
        SystemCommand::NoAck => append_bytes(out, &keyword_bytes("noack")),
        SystemCommand::HealthCheck => append_bytes(out, &keyword_bytes("healthcheck")),
        SystemCommand::Okay => append_bytes(out, &keyword_bytes("ok")),
        SystemCommand::Failed => append_bytes(out, &keyword_bytes("err")),
        SystemCommand::Sequence(n) => {
            append_bytes(out, &keyword_bytes("seq:"));
            push_dec(out, *n);
            proof {
                assert(old(out)@ + kw_seq_prefix() + dec_digits(*n as nat) =~= old(out)@
                    + command_word(*c));
            }
        },
    }
}

/// Encodes an envelope as one complete byte buffer; encoding never fails for
/// a well formed envelope.
#[verifier::rlimit(100)]
pub fn encode(m: &SystemMessage) -> (r: Vec<u8>)
    ensures
        r@ == spec_encode(m@),
{
    let ghost l1 = field_line(kw_type_prefix(), message_type_word(m@.message_type));
    let ghost l2 = field_line(kw_from_prefix(), esc(encode_utf8(m@.from)));
    let ghost l3 = field_line(kw_corr_prefix(), opt_text_field(m@.correlation_id));
    let ghost l4 = field_line(kw_cmd_prefix(), opt_command_field(m@.command));
    let ghost l5 = field_line(kw_payload_prefix(), opt_payload_field(m@.payload));
    let mut out: Vec<u8> = Vec::new();
    append_bytes(&mut out, &keyword_bytes("type="));
    match &m.message_type {
        MessageType::Request => append_bytes(&mut out, &keyword_bytes("request")),
        MessageType::Response => append_bytes(&mut out, &keyword_bytes("response")),
        MessageType::Command => append_bytes(&mut out, &keyword_bytes("command")),
    }
    out.push(NEWLINE_BYTE);
    proof {
        assert(out@ =~= l1);
    }
    append_bytes(&mut out, &keyword_bytes("from="));
    let from_bytes = m.from.as_str().as_bytes_vec();
    esc_push(&mut out, &from_bytes);
    out.push(NEWLINE_BYTE);
    proof {
        assert(out@ =~= l1 + l2);
    }
    append_bytes(&mut out, &keyword_bytes("corr="));
    match &m.correlation_id {
        None => out.push(ABSENT_BYTE),
        Some(c) => {
            out.push(PRESENT_BYTE);
            let corr_bytes = c.as_str().as_bytes_vec();
            esc_push(&mut out, &corr_bytes);
        },
    }
    out.push(NEWLINE_BYTE);
    proof {
        assert(out@ =~= l1 + l2 + l3);
    }
    append_bytes(&mut out, &keyword_bytes("cmd="));
    match &m.command {
        None => out.push(ABSENT_BYTE),
        Some(c) => push_command_word(&mut out, c),
    }
    out.push(NEWLINE_BYTE);
    proof {
        assert(out@ =~= l1 + l2 + l3 + l4);
    }
    append_bytes(&mut out, &keyword_bytes("payload="));
    match &m.payload {
        None => out.push(ABSENT_BYTE),
        Some(p) => {
            out.push(PRESENT_BYTE);
            esc_push(&mut out, p);
        },
    }
    out.push(NEWLINE_BYTE);
    proof {
        assert(out@ =~= l1 + l2 + l3 + l4 + l5);
        assert(spec_encode(m@) =~= l1 + l2 + l3 + l4 + l5);
    }
    out
}

/// The error that `decode` reports for a buffer no envelope was read from.
fn decode_error(empty: bool) -> (r: RuntimeError)
    ensures
        r.error_type == RuntimeErrorType::InvalidData,
        r.message@ == (if empty {
            "binary.empty"@
        } else {
            "invalid.message"@
        }),
{
    if empty {
        RuntimeError {
            message: String::from_str("binary.empty"),
            error_type: RuntimeErrorType::InvalidData,
        }
    } else {
        RuntimeError {
            message: String::from_str("invalid.message"),
            error_type: RuntimeErrorType::InvalidData,
        }
    }
}

/// Decodes one envelope from a byte buffer. Decoding is total and free of
/// side effects: it yields the envelope the buffer encodes, or reports
/// exactly which failure occurred — an empty buffer or a malformed one.
pub fn decode(buffer: &Vec<u8>) -> (r: RuntimeResult<SystemMessage>)
    ensures
        r matches Ok(env) ==> spec_decode(buffer@) == Some(env@),
        r is Err <==> spec_decode(buffer@) is None,
        r matches Err(e) ==> e.error_type == RuntimeErrorType::InvalidData && e.message@ == (
        if buffer@.len() == 0 {
            "binary.empty"@
        } else {
            "invalid.message"@
        }),
{
    if buffer.len() == 0 {
        return Err(decode_error(true));
    }
    proof {
        assert(buffer@.skip(0) =~= buffer@);
    }
    let s1 = match take_line(buffer, 0) {
        Some(p) => p,
        None => {
            return Err(decode_error(false));
        },
    };
    let v1 = match strip_prefix_bytes(&s1.0, &keyword_bytes("type=")) {
        Some(v) => v,
        None => {
            return Err(decode_error(false));
        },
    };
    let mt = match parse_message_type_bytes(&v1) {
        Some(t) => t,
        None => {
            return Err(decode_error(false));
        },
    };
    let s2 = match take_line(buffer, s1.1) {
        Some(p) => p,
        None => {
            return Err(decode_error(false));
        },
    };
    let v2 = match strip_prefix_bytes(&s2.0, &keyword_bytes("from=")) {
        Some(v) => v,
        None => {
            return Err(decode_error(false));
        },
    };
    let from = match parse_text_field_bytes(&v2) {
        Some(s) => s,
        None => {
            return Err(decode_error(false));
        },
    };
    let s3 = match take_line(buffer, s2.1) {
        Some(p) => p,
        None => {
            return Err(decode_error(false));
        },
    };
    let v3 = match strip_prefix_bytes(&s3.0, &keyword_bytes("corr=")) {
        Some(v) => v,
        None => {
            return Err(decode_error(false));
        },
    };
    let corr = match parse_opt_text_bytes(&v3) {
        Some(o) => o,
        None => {
            return Err(decode_error(false));
        },
    };
    let s4 = match take_line(buffer, s3.1) {
        Some(p) => p,
        None => {
            return Err(decode_error(false));
        },
    };
    let v4 = match strip_prefix_bytes(&s4.0, &keyword_bytes("cmd=")) {
        Some(v) => v,
        None => {
            return Err(decode_error(false));
        },
    };
    let cmd = match parse_opt_command_bytes(&v4) {
        Some(o) => o,
        None => {
            return Err(decode_error(false));
        },
    };
    let s5 = match take_line(buffer, s4.1) {
        Some(p) => p,
        None => {
            return Err(decode_error(false));
        },
    };
    let v5 = match strip_prefix_bytes(&s5.0, &keyword_bytes("payload=")) {
        Some(v) => v,
        None => {
            return Err(decode_error(false));
        },
    };
    let payload = match parse_opt_payload_bytes(&v5) {
        Some(o) => o,
        None => {
            return Err(decode_error(false));
        },
    };
    if s5.1 != buffer.len() {
        proof {
            assert(buffer@.skip(s5.1 as int).len() != 0);
        }
        return Err(decode_error(false));
    }
    proof {
        assert(buffer@.skip(s5.1 as int).len() == 0);
    }
    let env = SystemMessage {
        from: from,
        payload: payload,
        correlation_id: corr,
        command: cmd,
        message_type: mt,
    };
    proof {
        assert(spec_decode(buffer@) matches Some(d) && d =~= env@);
    }
    Ok(env)
}

} // verus!
