use der::fixedlenbits::{decode_flags, encode_flags, flags_value_len};
use der::{
    Cursor, Decode, DecodeValue, Encode, EncodeValue, Error, ErrorKind, FixedLenBitString,
    FixedTag, Header, Length, Octets, Reader, Sink, SliceReader, Step, Tag, Writer, Written,
};

/// A record of two flags, written out as a derive would write it.
#[derive(Debug, PartialEq, Eq)]
struct Permissions {
    read: bool,
    write: bool,
}

impl Permissions {
    fn flags(&self) -> [bool; 2] {
        [self.read, self.write]
    }
}

impl FixedTag for Permissions {
    fn spec_fixed_tag() -> Tag {
        Tag::BitString
    }

    fn fixed_tag() -> Tag {
        Tag::BitString
    }
}

impl FixedLenBitString for Permissions {
    fn spec_min_bit_len() -> u16 {
        2
    }

    fn spec_max_bit_len() -> u16 {
        2
    }

    fn min_bit_len() -> u16 {
        2
    }

    fn max_bit_len() -> u16 {
        2
    }
}

impl<'a> DecodeValue<'a> for Permissions {
    fn decode_value_spec(_c: Cursor, _header: Header) -> Step<Self> {
        unreachable!()
    }

    fn decode_value<R: Reader<'a>>(reader: &mut R, header: Header) -> Result<Self, Error> {
        let flags = decode_flags::<Self, R>(reader, header)?;
        Ok(Self {
            read: flags[0],
            write: flags[1],
        })
    }
}

impl EncodeValue for Permissions {
    fn value_encoding(&self) -> Octets {
        unreachable!()
    }

    fn encode_value_spec(&self, _sink: Sink) -> Written {
        unreachable!()
    }

    fn lemma_encode_value(&self, _sink: Sink) {}

    fn value_len(&self) -> Result<Length, Error> {
        flags_value_len(&self.flags())
    }

    fn encode_value<W: Writer>(&self, writer: &mut W) -> Result<(), Error> {
        encode_flags::<Self, W>(&self.flags(), writer)
    }
}

#[test]
fn record_of_two_flags_encodes() {
    let both = Permissions {
        read: true,
        write: true,
    };
    assert_eq!(both.encoded_len(), Ok(Length::new(4)));
    let mut buf = [0u8; 8];
    assert_eq!(
        both.encode_to_slice(&mut buf),
        Ok(&[0x03, 0x02, 0x06, 0b1100_0000][..])
    );
}

#[test]
fn record_of_two_flags_decodes() {
    let decode = |bytes: &[u8]| {
        let mut reader = SliceReader::new(bytes).unwrap();
        let value = Permissions::decode(&mut reader)?;
        reader.finish(value)
    };
    assert_eq!(
        decode(&[0x03, 0x02, 0x06, 0b1100_0000]),
        Ok(Permissions {
            read: true,
            write: true
        })
    );
    // a bit string of one bit: the flag that it does not hold is false
    assert_eq!(
        decode(&[0x03, 0x02, 0x07, 0b1000_0000]),
        Ok(Permissions {
            read: true,
            write: false
        })
    );
    // a bit string of three bits is too long
    let err = decode(&[0x03, 0x02, 0x05, 0b1110_0000]).unwrap_err();
    assert_eq!(err.kind(), ErrorKind::Length { tag: Tag::BitString });
    // another type
    let err = decode(&[0x04, 0x02, 0x06, 0b1100_0000]).unwrap_err();
    assert_eq!(
        err.kind(),
        ErrorKind::TagUnexpected {
            expected: Some(Tag::BitString),
            actual: Tag::OctetString,
        }
    );
}

#[test]
fn record_round_trip() {
    for (read, write) in [(false, false), (false, true), (true, false), (true, true)] {
        let record = Permissions { read, write };
        let mut buf = [0u8; 8];
        let encoded = record.encode_to_slice(&mut buf).unwrap();
        let mut reader = SliceReader::new(encoded).unwrap();
        assert_eq!(Permissions::decode(&mut reader), Ok(record));
        assert!(reader.is_finished());
    }
}
