//! The per-datagram packet header.
//!
//! Layout, in order:
//!
//! | bytes | field                                                        |
//! |-------|--------------------------------------------------------------|
//! | 1     | flags: bit 0 version present, bit 1 FEC group present,       |
//! |       | bits 2-3 width class of the sequence number                  |
//! | 0 / 2 | protocol version, most significant byte first                |
//! | 0 / 1 | FEC group                                                    |
//! | 2 - 8 | sequence number, most significant byte first                 |
//!
//! The four high bits of the flags are written as zero and ignored when read.
//! A sequence number is only accepted in the narrowest width that holds it, so
//! every header has a single encoding (up to those four bits).

use vstd::prelude::*;
use crate::framing::sequence::{minimal_class, select_width, SequenceNumber, WidthClass};
use crate::framing::wire::{
    be_bytes, be_value, get_be, lemma_be_bytes_len, lemma_be_bytes_of_value,
    lemma_be_value_bound, lemma_be_value_of_bytes, lemma_radix_pow_values, put_be,
};

verus! {

/// Why a header could not be built or read.
#[derive(Clone, Copy, Debug, PartialEq, Eq, Structural)]
pub enum HeaderError {
    /// The buffer handed to the builder is shorter than the header.
    BufferTooSmall,
    /// The bytes end before the header that their flags announce.
    TruncatedHeader,
    /// The sequence number is not in the narrowest width that holds it.
    NonMinimalEncoding,
}

/// The logical content of a header.
#[derive(Clone, Copy, Debug, PartialEq, Eq, Structural)]
pub struct HeaderFields {
    /// Protocol version, where the datagram carries one.
    pub version: Option<u16>,
    /// Forward-error-correction group, where the datagram belongs to one.
    pub fec_group: Option<u8>,
    /// The datagram's sequence number.
    pub sequence_number: SequenceNumber,
}

/// Whether the flags announce a version field (bit 0).
pub open spec fn flag_version(flags: u8) -> bool {
    flags % 2 == 1
}

/// Whether the flags announce an FEC group field (bit 1).
pub open spec fn flag_fec(flags: u8) -> bool {
    (flags / 2) % 2 == 1
}

/// The width class that the flags announce (bits 2 and 3).
pub open spec fn flag_class(flags: u8) -> WidthClass {
    let code = (flags / 4) % 4;
    if code == 0 {
        WidthClass::W2
    } else if code == 1 {
        WidthClass::W4
    } else if code == 2 {
        WidthClass::W6
    } else {
        WidthClass::W8
    }
}

/// Offset of the FEC group field, or of the sequence number without one.
pub open spec fn fec_offset(flags: u8) -> nat {
    if flag_version(flags) {
        3
    } else {
        1
    }
}

/// Offset of the sequence number.
pub open spec fn sequence_offset(flags: u8) -> nat {
    fec_offset(flags) + if flag_fec(flags) {
        1nat
    } else {
        0nat
    }
}

/// Length of the header that the flags announce.
pub open spec fn declared_len(flags: u8) -> nat {
    sequence_offset(flags) + flag_class(flags).width()
}

impl HeaderFields {
    /// The flags byte of the header: presence bits and width class, high bits
    /// zero.
    pub open spec fn flags(self) -> u8 {
        ((if self.version is Some {
            1int
        } else {
            0int
        }) + (if self.fec_group is Some {
            2int
        } else {
            0int
        }) + 4 * self.sequence_number.class().code()) as u8
    }

    /// Length of the encoded header: one flags byte, two bytes of version if
    /// present, one of FEC group if present, and the sequence number.
    pub open spec fn encoded_len(self) -> nat {
        1 + (if self.version is Some {
            2nat
        } else {
            0nat
        }) + (if self.fec_group is Some {
            1nat
        } else {
            0nat
        }) + self.sequence_number.class().width()
    }

    /// The bytes of the header.
    pub open spec fn encode(self) -> Seq<u8> {
        seq![self.flags()] + (match self.version {
            Some(v) => be_bytes(v as nat, 2),
            None => Seq::empty(),
        }) + (match self.fec_group {
            Some(g) => seq![g],
            None => Seq::empty(),
        }) + be_bytes(
            self.sequence_number.value() as nat,
            self.sequence_number.class().width(),
        )
    }
}

/// The version field of `bytes`, if their flags announce one.
pub open spec fn decoded_version(bytes: Seq<u8>) -> Option<u16> {
    if flag_version(bytes[0]) {
        Some(be_value(bytes.subrange(1, 3)) as u16)
    } else {
        None
    }
}

/// The FEC group field of `bytes`, if their flags announce one.
pub open spec fn decoded_fec_group(bytes: Seq<u8>) -> Option<u8> {
    if flag_fec(bytes[0]) {
        Some(bytes[fec_offset(bytes[0]) as int])
    } else {
        None
    }
}

/// The number in the sequence number field of `bytes`.
pub open spec fn decoded_sequence_value(bytes: Seq<u8>) -> nat {
    be_value(bytes.subrange(sequence_offset(bytes[0]) as int, declared_len(bytes[0]) as int))
}

/// What reading a header from the front of `bytes` gives.
///
/// The bytes are truncated when there is no flags byte or fewer bytes than
/// the flags announce. A complete header is rejected when its sequence number
/// would have fitted a narrower width. Bytes past the header play no part.
pub open spec fn decode(bytes: Seq<u8>) -> Result<HeaderFields, HeaderError> {
    if bytes.len() == 0 || bytes.len() < declared_len(bytes[0]) {
        Err(HeaderError::TruncatedHeader)
    } else if minimal_class(decoded_sequence_value(bytes)) != flag_class(bytes[0]) {
        Err(HeaderError::NonMinimalEncoding)
    } else {
        Ok(
            HeaderFields {
                version: decoded_version(bytes),
                fec_group: decoded_fec_group(bytes),
                sequence_number: SequenceNumber::of(decoded_sequence_value(bytes) as u64),
            },
        )
    }
}

/// A header that was built from minimal fields reads back as those fields,
/// whatever bytes follow it.
pub proof fn lemma_decode_encode(fields: HeaderFields, tail: Seq<u8>)
    requires
        fields.sequence_number.is_minimal(),
    ensures
        fields.encode().len() == fields.encoded_len(),
        decode(fields.encode() + tail) == Ok::<HeaderFields, HeaderError>(fields),
{
    let class = fields.sequence_number.class();
    let value = fields.sequence_number.value() as nat;
    let flags = fields.flags();
    let bytes = fields.encode() + tail;
    let version_bytes = match fields.version {
        Some(v) => be_bytes(v as nat, 2),
        None => Seq::empty(),
    };
    let fec_bytes = match fields.fec_group {
        Some(g) => seq![g],
        None => Seq::empty(),
    };
    lemma_radix_pow_values();
    lemma_be_bytes_len(value, class.width());
    assert(flag_version(flags) == (fields.version is Some));
    assert(flag_fec(flags) == (fields.fec_group is Some));
    assert(flag_class(flags) == class);
    assert(bytes[0] == flags);
    if let Some(v) = fields.version {
        lemma_be_bytes_len(v as nat, 2);
        lemma_be_value_of_bytes(v as nat, 2);
        assert(bytes.subrange(1, 3) =~= be_bytes(v as nat, 2));
    }
    assert(version_bytes.len() + 1 == fec_offset(flags));
    assert(decoded_fec_group(bytes) == fields.fec_group);
    assert(bytes.subrange(sequence_offset(flags) as int, declared_len(flags) as int) =~= be_bytes(
        value,
        class.width(),
    ));
    lemma_be_value_of_bytes(value, class.width());
}

/// A header that reads as some fields, and whose four high flag bits are
/// zero, is the encoding of those fields: the encoding is unique.
pub proof fn lemma_encode_decode(bytes: Seq<u8>)
    requires
        decode(bytes) is Ok,
        bytes[0] < 16,
    ensures
        decode(bytes)->Ok_0.sequence_number.is_minimal(),
        decode(bytes)->Ok_0.encode() == bytes.subrange(0, declared_len(bytes[0]) as int),
{
    let fields = decode(bytes)->Ok_0;
    let flags = bytes[0];
    let field = bytes.subrange(sequence_offset(flags) as int, declared_len(flags) as int);
    let value = be_value(field);
    lemma_radix_pow_values();
    lemma_be_value_bound(field);
    lemma_be_bytes_of_value(field);
    assert(fields.sequence_number.value() == value);
    assert(fields.sequence_number.class() == flag_class(flags));
    assert(fields.flags() == flags);
    if flag_version(flags) {
        let v = bytes.subrange(1, 3);
        lemma_be_value_bound(v);
        lemma_be_bytes_of_value(v);
    }
    assert(fields.encode() =~= bytes.subrange(0, declared_len(flags) as int));
}

/// Reading a header looks at no byte past the length its flags announce.
pub proof fn lemma_decode_ignores_payload(bytes: Seq<u8>, n: int)
    requires
        0 < bytes.len(),
        declared_len(bytes[0]) <= n <= bytes.len(),
    ensures
        decode(bytes.subrange(0, n)) == decode(bytes),
{
    let head = bytes.subrange(0, n);
    let flags = bytes[0];
    assert(head[0] == flags);
    assert(head.subrange(sequence_offset(flags) as int, declared_len(flags) as int)
        =~= bytes.subrange(sequence_offset(flags) as int, declared_len(flags) as int));
    if flag_version(flags) {
        assert(head.subrange(1, 3) =~= bytes.subrange(1, 3));
    }
}

/// Bytes are cut short exactly when the flags byte is missing or announces
/// more bytes than there are.
pub proof fn lemma_truncated_iff(bytes: Seq<u8>)
    ensures
        decode(bytes) == Err::<HeaderFields, HeaderError>(HeaderError::TruncatedHeader) <==> (
        bytes.len() == 0 || bytes.len() < declared_len(bytes[0])),
        decode(bytes) != Err::<HeaderFields, HeaderError>(HeaderError::BufferTooSmall),
{
}

/// A complete header whose sequence number is written wider than it needs
/// to be is rejected, and only such a header is.
pub proof fn lemma_non_minimal_rejected(bytes: Seq<u8>)
    requires
        bytes.len() > 0,
        bytes.len() >= declared_len(bytes[0]),
    ensures
        decode(bytes) == Err::<HeaderFields, HeaderError>(HeaderError::NonMinimalEncoding) <==> (
        flag_class(bytes[0]) != minimal_class(decoded_sequence_value(bytes))),
{
}

/// Length of the header that `flags` announce.
pub fn header_len(flags: u8) -> (len: usize)
    ensures
        len == declared_len(flags),
        3 <= len <= 12,
{
    let class = WidthClass::from_code((flags / 4) % 4);
    sequence_start(flags) + class.bytes()
}

/// Offset of the sequence number in a header with these `flags`.
fn sequence_start(flags: u8) -> (offset: usize)
    ensures
        offset == sequence_offset(flags),
        1 <= offset <= 4,
{
    let mut offset: usize = 1;
    if flags % 2 == 1 {
        offset = offset + 2;
    }
    if (flags / 2) % 2 == 1 {
        offset = offset + 1;
    }
    offset
}

impl HeaderFields {
    /// The flags byte of the header.
    pub fn flags_byte(&self) -> (flags: u8)
        ensures
            flags == self.flags(),
            flags < 16,
    {
        let mut flags: u8 = 4 * self.sequence_number.class().code();
        if self.version.is_some() {
            flags = flags + 1;
        }
        if self.fec_group.is_some() {
            flags = flags + 2;
        }
        flags
    }

    /// Length of the encoded header.
    pub fn len(&self) -> (len: usize)
        ensures
            len == self.encoded_len(),
            3 <= len <= 12,
    {
        let mut len: usize = 1 + self.sequence_number.class().bytes();
        if self.version.is_some() {
            len = len + 2;
        }
        if self.fec_group.is_some() {
            len = len + 1;
        }
        len
    }
}

/// Writes the encoding of `fields` at the front of `buffer`.
fn write_fields(buffer: &mut [u8], fields: &HeaderFields)
    requires
        old(buffer)@.len() >= fields.encoded_len(),
    ensures
        final(buffer)@ == fields.encode() + old(buffer)@.subrange(
            fields.encoded_len() as int,
            old(buffer)@.len() as int,
        ),
{
    let total = buffer.len();
    let width = fields.sequence_number.class().bytes();
    let value = fields.sequence_number.value();
    let ghost version_bytes = match fields.version {
        Some(v) => be_bytes(v as nat, 2),
        None => Seq::empty(),
    };
    let ghost fec_bytes = match fields.fec_group {
        Some(g) => seq![g],
        None => Seq::empty(),
    };
    proof {
        lemma_be_bytes_len(value as nat, width as nat);
        if let Some(v) = fields.version {
            lemma_be_bytes_len(v as nat, 2);
        }
    }
    buffer[0] = fields.flags_byte();
    let mut offset: usize = 1;
    if let Some(v) = fields.version {
        put_be(buffer, 1, 2, v as u64);
        offset = 3;
    }
    assert(buffer@ =~= seq![fields.flags()] + version_bytes + old(buffer)@.subrange(
        offset as int,
        total as int,
    ));
    if let Some(g) = fields.fec_group {
        buffer[offset] = g;
        offset = offset + 1;
    }
    assert(buffer@ =~= seq![fields.flags()] + version_bytes + fec_bytes + old(buffer)@.subrange(
        offset as int,
        total as int,
    ));
    put_be(buffer, offset, width, value);
    assert(buffer@ =~= fields.encode() + old(buffer)@.subrange(
        fields.encoded_len() as int,
        total as int,
    ));
}

/// What a header that reads well says of its own bytes: the low flag bits
/// and the length are those of the fields read.
proof fn lemma_decoded_shape(bytes: Seq<u8>)
    requires
        decode(bytes) is Ok,
    ensures
        decode(bytes)->Ok_0.flags() == bytes[0] % 16,
        decode(bytes)->Ok_0.encoded_len() == declared_len(bytes[0]),
        decode(bytes)->Ok_0.sequence_number.is_minimal(),
        decode(bytes)->Ok_0.sequence_number.value() == decoded_sequence_value(bytes),
{
    let flags = bytes[0];
    let field = bytes.subrange(sequence_offset(flags) as int, declared_len(flags) as int);
    lemma_radix_pow_values();
    lemma_be_value_bound(field);
}

/// A packet header: a typed window over the bytes of a datagram.
///
/// The header owns no bytes. It borrows the front of a buffer of the caller
/// for as long as it lives, and every header in existence is complete and
/// minimally encoded.
pub struct PacketHeader<'a> {
    data: &'a [u8],
}

impl<'a> View for PacketHeader<'a> {
    type V = HeaderFields;

    /// The fields that the header's bytes spell.
    closed spec fn view(&self) -> HeaderFields {
        decode(self.data@)->Ok_0
    }
}

impl<'a> PacketHeader<'a> {
    #[verifier::type_invariant]
    spec fn well_formed(&self) -> bool {
        &&& decode(self.data@) is Ok
        &&& self.data@.len() == declared_len(self.data@[0])
    }

    /// The bytes the header covers: exactly the header, no payload.
    pub closed spec fn bytes(&self) -> Seq<u8> {
        self.data@
    }

    /// Writes a header for the given fields at the front of `buffer` and
    /// returns a view of it.
    ///
    /// Fails with `BufferTooSmall` exactly when the buffer is shorter than the
    /// header, and otherwise with `NonMinimalEncoding` exactly when
    /// `seq_num` is not in its narrowest variant. On failure the buffer is
    /// untouched; on success only the header's bytes are overwritten.
    pub fn new(
        buffer: &'a mut [u8],
        version: Option<u16>,
        fec_group: Option<u8>,
        seq_num: SequenceNumber,
    ) -> (result: Result<PacketHeader<'a>, HeaderError>)
        ensures
            ({
                let fields = HeaderFields { version, fec_group, sequence_number: seq_num };
                match result {
                    Ok(header) => {
                        &&& old(buffer)@.len() >= fields.encoded_len()
                        &&& seq_num.is_minimal()
                        &&& header@ == fields
                        &&& header.bytes() == fields.encode()
                        &&& final(buffer)@ == fields.encode() + old(buffer)@.subrange(
                            fields.encoded_len() as int,
                            old(buffer)@.len() as int,
                        )
                    },
                    Err(error) => {
                        &&& final(buffer)@ == old(buffer)@
                        &&& error == HeaderError::BufferTooSmall <==> old(buffer)@.len()
                            < fields.encoded_len()
                        &&& error == HeaderError::NonMinimalEncoding <==> old(buffer)@.len()
                            >= fields.encoded_len() && !seq_num.is_minimal()
                        &&& error != HeaderError::TruncatedHeader
                    },
                }
            }),
    {
        let fields = HeaderFields { version, fec_group, sequence_number: seq_num };
        let len = fields.len();
        if buffer.len() < len {
            return Err(HeaderError::BufferTooSmall);
        }
        if !seq_num.is_minimal() {
            return Err(HeaderError::NonMinimalEncoding);
        }
        write_fields(buffer, &fields);
        proof {
            let rest = old(buffer)@.subrange(len as int, old(buffer)@.len() as int);
            lemma_decode_encode(fields, rest);
            lemma_decode_ignores_payload(buffer@, len as int);
            assert(buffer@.subrange(0, len as int) =~= fields.encode());
        }
        let shared: &'a [u8] = buffer;
        let data = vstd::slice::slice_subrange(shared, 0, len);
        Ok(PacketHeader { data })
    }

    /// Reads the header at the front of `buffer`.
    ///
    /// Succeeds exactly when `decode` does, with the same fields or the same
    /// error. The view returned covers the header only: the payload stays
    /// with the caller.
    pub fn parse(buffer: &'a [u8]) -> (result: Result<PacketHeader<'a>, HeaderError>)
        ensures
            match result {
                Ok(header) => {
                    &&& decode(buffer@) == Ok::<HeaderFields, HeaderError>(header@)
                    &&& header.bytes() == buffer@.subrange(0, header@.encoded_len() as int)
                    &&& header@.encoded_len() <= buffer@.len()
                },
                Err(error) => decode(buffer@) == Err::<HeaderFields, HeaderError>(error),
            },
    {
        let total = buffer.len();
        if total == 0 {
            return Err(HeaderError::TruncatedHeader);
        }
        let flags = buffer[0];
        let len = header_len(flags);
        if total < len {
            return Err(HeaderError::TruncatedHeader);
        }
        let class = WidthClass::from_code((flags / 4) % 4);
        let start = sequence_start(flags);
        let value = get_be(buffer, start, class.bytes());
        if select_width(value) != class {
            return Err(HeaderError::NonMinimalEncoding);
        }
        proof {
            lemma_decode_ignores_payload(buffer@, len as int);
        }
        let data = vstd::slice::slice_subrange(buffer, 0, len);
        Ok(PacketHeader { data })
    }

    /// The flags byte as it stands in the buffer.
    pub fn flags(&self) -> (flags: u8)
        ensures
            flags == self.bytes()[0],
            flags % 16 == self@.flags(),
    {
        proof {
            use_type_invariant(self);
            lemma_decoded_shape(self.data@);
        }
        self.data[0]
    }

    /// Length of the header in bytes.
    pub fn len(&self) -> (len: usize)
        ensures
            len == self@.encoded_len(),
            len == self.bytes().len(),
    {
        proof {
            use_type_invariant(self);
            lemma_decoded_shape(self.data@);
        }
        self.data.len()
    }

    /// The bytes of the header.
    pub fn as_bytes(&self) -> (bytes: &'a [u8])
        ensures
            bytes@ == self.bytes(),
            decode(bytes@) == Ok::<HeaderFields, HeaderError>(self@),
    {
        proof {
            use_type_invariant(self);
        }
        self.data
    }

    /// The protocol version, or `None` when the version bit is clear.
    pub fn version(&self) -> (version: Option<u16>)
        ensures
            version == self@.version,
    {
        proof {
            use_type_invariant(self);
            lemma_radix_pow_values();
            lemma_be_value_bound(self.data@.subrange(1, 3));
        }
        if self.data[0] % 2 == 1 {
            Some(get_be(self.data, 1, 2) as u16)
        } else {
            None
        }
    }

    /// The FEC group, or `None` when the FEC bit is clear.
    pub fn fec_group(&self) -> (fec_group: Option<u8>)
        ensures
            fec_group == self@.fec_group,
    {
        proof {
            use_type_invariant(self);
        }
        let flags = self.data[0];
        if (flags / 2) % 2 == 1 {
            if flags % 2 == 1 {
                Some(self.data[3])
            } else {
                Some(self.data[1])
            }
        } else {
            None
        }
    }

    /// The sequence number, in the width class that the flags announce.
    pub fn sequence_number(&self) -> (seq_num: SequenceNumber)
        ensures
            seq_num == self@.sequence_number,
            seq_num.is_minimal(),
    {
        proof {
            use_type_invariant(self);
        }
        let flags = self.data[0];
        let class = WidthClass::from_code((flags / 4) % 4);
        let value = get_be(self.data, sequence_start(flags), class.bytes());
        SequenceNumber::from(value)
    }

    /// All the fields at once.
    pub fn fields(&self) -> (fields: HeaderFields)
        ensures
            fields == self@,
    {
        HeaderFields {
            version: self.version(),
            fec_group: self.fec_group(),
            sequence_number: self.sequence_number(),
        }
    }
}

} // verus!
