//! The ERROR token record and its decoder.
//!
//! An ERROR record sits in the response stream behind a one-byte type tag
//! (already consumed by the dispatching stream reader). Its body is a
//! 2-byte declared length followed by seven self-delimiting fields; the
//! spec-level function [`parse`] gives the meaning of such a body, and
//! [`TokenError::decode`] is the executable decoder, proved to return
//! exactly what [`parse`] says on every input.

use vstd::prelude::*;
use vstd::bytes::{spec_u16_from_le_bytes, spec_u32_from_le_bytes, spec_u16_to_le_bytes,
    spec_u32_to_le_bytes};
use crate::error::DecodeError;
use crate::reader::ByteReader;
use crate::text::{utf16_decode, utf16_encode, units_of, encode_units, lemma_encode_units_len,
    lemma_units_of_encode_units, lemma_utf16_round_trip};
use crate::version::{FeatureLevel, WIDE_LINE_INTRO_LEVEL};

verus! {

/// The decoded form of an ERROR record: a diagnostic reported by the server.
#[derive(Clone, Debug)]
pub struct TokenError {
    /// Server-defined error identifier.
    pub code: u32,
    /// Sub-code describing the circumstances of `code`.
    pub state: u8,
    /// Ordinal severity; higher values denote more severe conditions.
    pub class: u8,
    /// The error message.
    pub message: String,
    /// Name of the originating server.
    pub server: String,
    /// Name of the originating stored routine; empty when none applies.
    pub procedure: String,
    /// Source line within `procedure`.
    pub line: u32,
}

/// The mathematical model of an ERROR record: the seven field values, with
/// text as character sequences.
pub ghost struct ErrorTokenModel {
    pub code: u32,
    pub state: u8,
    pub class: u8,
    pub message: Seq<char>,
    pub server: Seq<char>,
    pub procedure: Seq<char>,
    pub line: u32,
}

impl View for TokenError {
    type V = ErrorTokenModel;

    open spec fn view(&self) -> ErrorTokenModel {
        ErrorTokenModel {
            code: self.code,
            state: self.state,
            class: self.class,
            message: self.message@,
            server: self.server@,
            procedure: self.procedure@,
            line: self.line,
        }
    }
}

/// The meaning of an ERROR token body, read from the front of `b`.
///
/// Fields are consumed in order, all integers little-endian: a 2-byte
/// declared body length (read and discarded — every later field delimits
/// itself), a 4-byte `code`, 1-byte `state` and `class`, then `message`
/// (2-byte unit count), `server` and `procedure` (1-byte unit counts) as
/// count-prefixed 16-bit character units, and last the line number, 4 bytes
/// wide when `wide` holds and 2 bytes otherwise. The result is the decoded
/// record together with the bytes left over, or the error of the first field
/// read that fails: `UnexpectedEof` when the bytes run out, and
/// `InvalidEncoding` when a text field's units do not form valid text.
pub open spec fn parse(b: Seq<u8>, wide: bool) -> Result<(ErrorTokenModel, Seq<u8>), DecodeError> {
    if b.len() < 2 {
        Err(DecodeError::UnexpectedEof)
    } else {
        let b0 = b.skip(2);
        if b0.len() < 4 {
            Err(DecodeError::UnexpectedEof)
        } else {
            let code = spec_u32_from_le_bytes(b0.subrange(0, 4));
            let b1 = b0.skip(4);
            if b1.len() < 1 {
                Err(DecodeError::UnexpectedEof)
            } else {
                let state = b1[0];
                let b2 = b1.skip(1);
                if b2.len() < 1 {
                    Err(DecodeError::UnexpectedEof)
                } else {
                    let class = b2[0];
                    let b3 = b2.skip(1);
                    if b3.len() < 2 {
                        Err(DecodeError::UnexpectedEof)
                    } else {
                        let mlen = spec_u16_from_le_bytes(b3.subrange(0, 2)) as int;
                        let b4 = b3.skip(2);
                        if b4.len() < 2 * mlen {
                            Err(DecodeError::UnexpectedEof)
                        } else {
                            match utf16_decode(units_of(b4.take(2 * mlen))) {
                                None => Err(DecodeError::InvalidEncoding),
                                Some(message) => parse_after_message(
                                    b4.skip(2 * mlen),
                                    wide,
                                    code,
                                    state,
                                    class,
                                    message,
                                ),
                            }
                        }
                    }
                }
            }
        }
    }
}

/// Continuation of [`parse`] from the `server` count field onward.
pub open spec fn parse_after_message(
    b5: Seq<u8>,
    wide: bool,
    code: u32,
    state: u8,
    class: u8,
    message: Seq<char>,
) -> Result<(ErrorTokenModel, Seq<u8>), DecodeError> {
    if b5.len() < 1 {
        Err(DecodeError::UnexpectedEof)
    } else {
        let slen = b5[0] as int;
        let b6 = b5.skip(1);
        if b6.len() < 2 * slen {
            Err(DecodeError::UnexpectedEof)
        } else {
            match utf16_decode(units_of(b6.take(2 * slen))) {
                None => Err(DecodeError::InvalidEncoding),
                Some(server) => {
                    let b7 = b6.skip(2 * slen);
                    if b7.len() < 1 {
                        Err(DecodeError::UnexpectedEof)
                    } else {
                        let plen = b7[0] as int;
                        let b8 = b7.skip(1);
                        if b8.len() < 2 * plen {
                            Err(DecodeError::UnexpectedEof)
                        } else {
                            match utf16_decode(units_of(b8.take(2 * plen))) {
                                None => Err(DecodeError::InvalidEncoding),
                                Some(procedure) => parse_line(
                                    b8.skip(2 * plen),
                                    wide,
                                    code,
                                    state,
                                    class,
                                    message,
                                    server,
                                    procedure,
                                ),
                            }
                        }
                    }
                }
            }
        }
    }
}

/// Continuation of [`parse`]: the version-gated line-number field.
pub open spec fn parse_line(
    b9: Seq<u8>,
    wide: bool,
    code: u32,
    state: u8,
    class: u8,
    message: Seq<char>,
    server: Seq<char>,
    procedure: Seq<char>,
) -> Result<(ErrorTokenModel, Seq<u8>), DecodeError> {
    if wide {
        if b9.len() < 4 {
            Err(DecodeError::UnexpectedEof)
        } else {
            Ok(
                (
                    ErrorTokenModel {
                        code,
                        state,
                        class,
                        message,
                        server,
                        procedure,
                        line: spec_u32_from_le_bytes(b9.subrange(0, 4)),
                    },
                    b9.skip(4),
                ),
            )
        }
    } else {
        if b9.len() < 2 {
            Err(DecodeError::UnexpectedEof)
        } else {
            Ok(
                (
                    ErrorTokenModel {
                        code,
                        state,
                        class,
                        message,
                        server,
                        procedure,
                        line: spec_u16_from_le_bytes(b9.subrange(0, 2)) as u32,
                    },
                    b9.skip(2),
                ),
            )
        }
    }
}

impl TokenError {
    /// Decode one ERROR token body from the byte source.
    ///
    /// The source must be positioned just after the record's one-byte type
    /// tag. On success the returned record is exactly the one [`parse`]
    /// gives for the unread bytes, and the cursor has advanced over exactly
    /// the record's bytes; on failure the error is exactly the one [`parse`]
    /// gives, and the stream must be treated as desynchronized.
    pub fn decode(src: &mut ByteReader, version: FeatureLevel) -> (r: Result<
        TokenError,
        DecodeError,
    >)
        requires
            old(src).wf(),
        ensures
            final(src).wf(),
            final(src).data() == old(src).data(),
            match r {
                Ok(token) => parse(old(src).remaining(), version.spec_wide_line_numbers())
                    == Ok::<_, DecodeError>((token@, final(src).remaining())),
                Err(e) => parse(old(src).remaining(), version.spec_wide_line_numbers())
                    == Err::<(ErrorTokenModel, Seq<u8>), _>(e),
            },
    {
        let wide = version.wide_line_numbers();
        let _length = match src.read_u16_le() {
            Ok(v) => v,
            Err(e) => {
                return Err(e);
            },
        };
        let code = match src.read_u32_le() {
            Ok(v) => v,
            Err(e) => {
                return Err(e);
            },
        };
        let state = match src.read_u8() {
            Ok(v) => v,
            Err(e) => {
                return Err(e);
            },
        };
        let class = match src.read_u8() {
            Ok(v) => v,
            Err(e) => {
                return Err(e);
            },
        };
        let message_len = match src.read_u16_le() {
            Ok(v) => v,
            Err(e) => {
                return Err(e);
            },
        };
        let message = match src.read_utf16_text(message_len) {
            Ok(v) => v,
            Err(e) => {
                return Err(e);
            },
        };
        let server_len = match src.read_u8() {
            Ok(v) => v,
            Err(e) => {
                return Err(e);
            },
        };
        let server = match src.read_utf16_text(server_len as u16) {
            Ok(v) => v,
            Err(e) => {
                return Err(e);
            },
        };
        let procedure_len = match src.read_u8() {
            Ok(v) => v,
            Err(e) => {
                return Err(e);
            },
        };
        let procedure = match src.read_utf16_text(procedure_len as u16) {
            Ok(v) => v,
            Err(e) => {
                return Err(e);
            },
        };
        let line = if wide {
            match src.read_u32_le() {
                Ok(v) => v,
                Err(e) => {
                    return Err(e);
                },
            }
        } else {
            let narrow = match src.read_u16_le() {
                Ok(v) => v,
                Err(e) => {
                    return Err(e);
                },
            };
            narrow as u32
        };
        Ok(TokenError { code, state, class, message, server, procedure, line })
    }
}

/// A record that the wire format can carry: every text fits its count field
/// and, under the narrow line encoding, the line number fits 2 bytes.
pub open spec fn encodable(m: ErrorTokenModel, wide: bool) -> bool {
    &&& utf16_encode(m.message).len() <= 0xFFFF
    &&& utf16_encode(m.server).len() <= 0xFF
    &&& utf16_encode(m.procedure).len() <= 0xFF
    &&& (wide || m.line <= 0xFFFF)
}

/// The wire bytes of an ERROR token body after its 2-byte declared length:
/// the seven fields in order, texts as count-prefixed character units, the
/// line number 4 bytes wide when `wide` holds and 2 bytes otherwise.
pub open spec fn encode_body(m: ErrorTokenModel, wide: bool) -> Seq<u8> {
    spec_u32_to_le_bytes(m.code) + (seq![m.state] + (seq![m.class] + (spec_u16_to_le_bytes(
        utf16_encode(m.message).len() as u16,
    ) + (encode_units(utf16_encode(m.message)) + (seq![utf16_encode(m.server).len() as u8]
        + (encode_units(utf16_encode(m.server)) + (seq![utf16_encode(m.procedure).len() as u8]
        + (encode_units(utf16_encode(m.procedure)) + (if wide {
        spec_u32_to_le_bytes(m.line)
    } else {
        spec_u16_to_le_bytes(m.line as u16)
    })))))))))
}

/// The complete wire bytes of an ERROR token body: the declared length of
/// the body, then the body itself.
pub open spec fn encode(m: ErrorTokenModel, wide: bool) -> Seq<u8> {
    spec_u16_to_le_bytes(encode_body(m, wide).len() as u16) + encode_body(m, wide)
}

/// An encoded record's size: 12 fixed bytes, 2 bytes per character unit of
/// each text, and the version-gated line field.
pub proof fn lemma_encode_len(m: ErrorTokenModel, wide: bool)
    ensures
        encode(m, wide).len() == 12 + 2 * (utf16_encode(m.message).len() + utf16_encode(
            m.server,
        ).len() + utf16_encode(m.procedure).len()) + (if wide {
            4int
        } else {
            2int
        }),
{
    vstd::bytes::lemma_auto_spec_u16_to_from_le_bytes();
    vstd::bytes::lemma_auto_spec_u32_to_from_le_bytes();
    lemma_encode_units_len(utf16_encode(m.message));
    lemma_encode_units_len(utf16_encode(m.server));
    lemma_encode_units_len(utf16_encode(m.procedure));
}

/// The line-number field is the single version-conditional part of the
/// layout: a record costs 2 bytes more exactly when the negotiated feature
/// level lies strictly above [`WIDE_LINE_INTRO_LEVEL`]; at or below it the
/// narrow form is used.
pub proof fn lemma_line_field_width(m: ErrorTokenModel, v: FeatureLevel)
    ensures
        encode(m, v.spec_wide_line_numbers()).len() == encode(m, false).len() + (if v.level
            > WIDE_LINE_INTRO_LEVEL {
            2int
        } else {
            0int
        }),
{
    lemma_encode_len(m, v.spec_wide_line_numbers());
    lemma_encode_len(m, false);
}

/// Round trip: encoding any carryable record and decoding the bytes again
/// yields exactly the record, all seven fields intact, with no bytes left
/// over.
pub proof fn lemma_encode_parse_round_trip(m: ErrorTokenModel, wide: bool)
    requires
        encodable(m, wide),
    ensures
        parse(encode(m, wide), wide) == Ok::<_, DecodeError>((m, Seq::<u8>::empty())),
{
    vstd::bytes::lemma_auto_spec_u16_to_from_le_bytes();
    vstd::bytes::lemma_auto_spec_u32_to_from_le_bytes();
    let mu = utf16_encode(m.message);
    let su = utf16_encode(m.server);
    let pu = utf16_encode(m.procedure);
    lemma_encode_units_len(mu);
    lemma_encode_units_len(su);
    lemma_encode_units_len(pu);
    lemma_units_of_encode_units(mu);
    lemma_units_of_encode_units(su);
    lemma_units_of_encode_units(pu);
    lemma_utf16_round_trip(m.message);
    lemma_utf16_round_trip(m.server);
    lemma_utf16_round_trip(m.procedure);
    let line_bytes = if wide {
        spec_u32_to_le_bytes(m.line)
    } else {
        spec_u16_to_le_bytes(m.line as u16)
    };
    let r9 = encode_units(pu) + line_bytes;
    let r8 = seq![pu.len() as u8] + r9;
    let r7 = encode_units(su) + r8;
    let r6 = seq![su.len() as u8] + r7;
    let r5 = encode_units(mu) + r6;
    let r4 = spec_u16_to_le_bytes(mu.len() as u16) + r5;
    let r3 = seq![m.class] + r4;
    let r2 = seq![m.state] + r3;
    let body = spec_u32_to_le_bytes(m.code) + r2;
    assert(encode_body(m, wide) == body);
    let b = encode(m, wide);
    assert(b.skip(2) =~= body);
    assert(body.subrange(0, 4) =~= spec_u32_to_le_bytes(m.code));
    assert(body.skip(4) =~= r2);
    assert(r2[0] == m.state);
    assert(r2.skip(1) =~= r3);
    assert(r3[0] == m.class);
    assert(r3.skip(1) =~= r4);
    assert(r4.subrange(0, 2) =~= spec_u16_to_le_bytes(mu.len() as u16));
    assert(spec_u16_from_le_bytes(r4.subrange(0, 2)) == mu.len());
    assert(r4.skip(2) =~= r5);
    assert(r5.take(2 * mu.len() as int) =~= encode_units(mu));
    assert(utf16_decode(units_of(r5.take(2 * mu.len() as int))) == Some(m.message));
    assert(r5.skip(2 * mu.len() as int) =~= r6);
    assert(r6[0] == su.len() as u8);
    assert(r6.skip(1) =~= r7);
    assert(r7.take(2 * su.len() as int) =~= encode_units(su));
    assert(utf16_decode(units_of(r7.take(2 * su.len() as int))) == Some(m.server));
    assert(r7.skip(2 * su.len() as int) =~= r8);
    assert(r8[0] == pu.len() as u8);
    assert(r8.skip(1) =~= r9);
    assert(r9.take(2 * pu.len() as int) =~= encode_units(pu));
    assert(utf16_decode(units_of(r9.take(2 * pu.len() as int))) == Some(m.procedure));
    assert(r9.skip(2 * pu.len() as int) =~= line_bytes);
    if wide {
        assert(line_bytes.subrange(0, 4) =~= line_bytes);
        assert(spec_u32_from_le_bytes(line_bytes.subrange(0, 4)) == m.line);
        assert(line_bytes.skip(4) =~= Seq::<u8>::empty());
    } else {
        assert(line_bytes.subrange(0, 2) =~= line_bytes);
        assert(spec_u16_from_le_bytes(line_bytes.subrange(0, 2)) == m.line as u16);
        assert(spec_u16_from_le_bytes(line_bytes.subrange(0, 2)) as u32 == m.line);
        assert(line_bytes.skip(2) =~= Seq::<u8>::empty());
    }
    assert(parse(b, wide) == Ok::<_, DecodeError>((m, Seq::<u8>::empty())));
}

/// Truncation: cutting a decodable body short anywhere before its end — at
/// a field boundary or inside a field — makes the decode fail with
/// `UnexpectedEof`. No partially populated record is ever produced.
pub proof fn lemma_truncated_input_eof(b: Seq<u8>, wide: bool, n: int)
    requires
        parse(b, wide) is Ok,
        0 <= n < b.len() - parse(b, wide)->Ok_0.1.len(),
    ensures
        parse(b.take(n), wide) == Err::<(ErrorTokenModel, Seq<u8>), DecodeError>(
            DecodeError::UnexpectedEof,
        ),
{
    let t = b.take(n);
    let s1 = b.skip(2);
    let s2 = s1.skip(4);
    let s3 = s2.skip(1);
    let s4 = s3.skip(1);
    let mlen = spec_u16_from_le_bytes(s4.subrange(0, 2)) as int;
    let s5 = s4.skip(2);
    let s6 = s5.skip(2 * mlen);
    let slen = s6[0] as int;
    let s7 = s6.skip(1);
    let s8 = s7.skip(2 * slen);
    let plen = s8[0] as int;
    let s9 = s8.skip(1);
    let s10 = s9.skip(2 * plen);
    let t1 = t.skip(2);
    let t2 = t1.skip(4);
    let t3 = t2.skip(1);
    let t4 = t3.skip(1);
    let t5 = t4.skip(2);
    if n >= 2 {
        assert(t1 =~= s1.take(n - 2));
    }
    if n >= 6 {
        assert(t1.subrange(0, 4) =~= s1.subrange(0, 4));
        assert(t2 =~= s2.take(n - 6));
    }
    if n >= 7 {
        assert(t2[0] == s2[0]);
        assert(t3 =~= s3.take(n - 7));
    }
    if n >= 8 {
        assert(t3[0] == s3[0]);
        assert(t4 =~= s4.take(n - 8));
    }
    if n >= 10 {
        assert(t4.subrange(0, 2) =~= s4.subrange(0, 2));
        assert(t5 =~= s5.take(n - 10));
    }
    if n >= 10 + 2 * mlen {
        let t6 = t5.skip(2 * mlen);
        assert(t5.take(2 * mlen) =~= s5.take(2 * mlen));
        assert(t6 =~= s6.take(n - 10 - 2 * mlen));
        if n >= 11 + 2 * mlen {
            let t7 = t6.skip(1);
            assert(t6[0] == s6[0]);
            assert(t7 =~= s7.take(n - 11 - 2 * mlen));
            if n >= 11 + 2 * mlen + 2 * slen {
                let t8 = t7.skip(2 * slen);
                assert(t7.take(2 * slen) =~= s7.take(2 * slen));
                assert(t8 =~= s8.take(n - 11 - 2 * mlen - 2 * slen));
                if n >= 12 + 2 * mlen + 2 * slen {
                    let t9 = t8.skip(1);
                    assert(t8[0] == s8[0]);
                    assert(t9 =~= s9.take(n - 12 - 2 * mlen - 2 * slen));
                    if n >= 12 + 2 * mlen + 2 * slen + 2 * plen {
                        let t10 = t9.skip(2 * plen);
                        assert(t9.take(2 * plen) =~= s9.take(2 * plen));
                        assert(t10 =~= s10.take(n - 12 - 2 * mlen - 2 * slen - 2 * plen));
                        assert(t10.len() < (if wide {
                            4int
                        } else {
                            2int
                        }));
                    }
                }
            }
        }
    }
}

/// Zero-length `message`, `server` and `procedure` counts are valid: a
/// record whose texts are all empty encodes with all three count fields
/// zero, and decoding it back succeeds and yields empty text for all three
/// fields rather than an error.
pub proof fn lemma_zero_counts_valid(code: u32, state: u8, class: u8, line: u32, wide: bool)
    requires
        wide || line <= 0xFFFF,
    ensures
        ({
            let m = ErrorTokenModel {
                code,
                state,
                class,
                message: Seq::empty(),
                server: Seq::empty(),
                procedure: Seq::empty(),
                line,
            };
            parse(encode(m, wide), wide) == Ok::<_, DecodeError>((m, Seq::<u8>::empty()))
        }),
{
    let m = ErrorTokenModel {
        code,
        state,
        class,
        message: Seq::empty(),
        server: Seq::empty(),
        procedure: Seq::empty(),
        line,
    };
    assert(utf16_encode(m.message).len() == 0);
    lemma_encode_parse_round_trip(m, wide);
}

/// In any body that decodes successfully, a zero `message`, `server` or
/// `procedure` count field yields empty text for that field, never an
/// error: the count fields sit at offsets 8, `10 + 2 * mlen` and
/// `11 + 2 * mlen + 2 * slen` of the body.
pub proof fn lemma_zero_count_fields_decode_empty(b: Seq<u8>, wide: bool)
    requires
        parse(b, wide) is Ok,
    ensures
        ({
            let m = parse(b, wide)->Ok_0.0;
            let mlen = spec_u16_from_le_bytes(b.subrange(8, 10)) as int;
            let slen = b[10 + 2 * mlen] as int;
            let plen = b[11 + 2 * mlen + 2 * slen] as int;
            &&& (mlen == 0 ==> m.message == Seq::<char>::empty())
            &&& (slen == 0 ==> m.server == Seq::<char>::empty())
            &&& (plen == 0 ==> m.procedure == Seq::<char>::empty())
        }),
{
    let s1 = b.skip(2);
    let s2 = s1.skip(4);
    let s3 = s2.skip(1);
    let s4 = s3.skip(1);
    assert(s4.subrange(0, 2) =~= b.subrange(8, 10));
    let mlen = spec_u16_from_le_bytes(s4.subrange(0, 2)) as int;
    let s5 = s4.skip(2);
    let s6 = s5.skip(2 * mlen);
    assert(s6[0] == b[10 + 2 * mlen]);
    let slen = s6[0] as int;
    let s7 = s6.skip(1);
    let s8 = s7.skip(2 * slen);
    assert(s8[0] == b[11 + 2 * mlen + 2 * slen]);
    let plen = s8[0] as int;
    let s9 = s8.skip(1);
    if mlen == 0 {
        assert(s5.take(0) =~= Seq::<u8>::empty());
    }
    if slen == 0 {
        assert(s7.take(0) =~= Seq::<u8>::empty());
    }
    if plen == 0 {
        assert(s9.take(0) =~= Seq::<u8>::empty());
    }
}

/// For a line number small enough for the narrow form, the wide and the
/// narrow encoding of one record decode, each under its own version gate,
/// to the same logical record: widening changes the wire width, never the
/// value.
pub proof fn lemma_wide_and_narrow_agree(m: ErrorTokenModel)
    requires
        encodable(m, false),
    ensures
        parse(encode(m, false), false) == Ok::<_, DecodeError>((m, Seq::<u8>::empty())),
        parse(encode(m, true), true) == Ok::<_, DecodeError>((m, Seq::<u8>::empty())),
{
    lemma_encode_parse_round_trip(m, false);
    lemma_encode_parse_round_trip(m, true);
}

} // verus!
