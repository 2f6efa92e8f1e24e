use mproto::{
    decode_value, encoded_len, BaseLen, Decode, DecodeCursor, DecodeResult, Encode, EncodeCursor,
};

#[derive(Debug, PartialEq)]
pub struct CustomStruct<'a> {
    a: u32,
    some_str: &'a str,
    b: u32,
}

impl<'a> BaseLen for CustomStruct<'a> {
    type Model = ();

    fn spec_base_len() -> vstd::prelude::nat {
        unreachable!()
    }

    fn layout_fits() -> bool {
        unreachable!()
    }

    fn model(&self) {}

    fn lemma_layout_fits() {}

    fn base_len() -> usize {
        u32::base_len() + str::base_len() + u32::base_len()
    }
}

impl<'a> Encode for CustomStruct<'a> {
    fn encodable(_: ()) -> bool {
        unreachable!()
    }

    fn scratch_size(_: ()) -> vstd::prelude::nat {
        unreachable!()
    }

    fn base_bytes(_: (), _: vstd::prelude::nat) -> vstd::seq::Seq<u8> {
        unreachable!()
    }

    fn scratch_bytes(_: (), _: vstd::prelude::nat) -> vstd::seq::Seq<u8> {
        unreachable!()
    }

    fn lemma_region_lens(_: (), _: vstd::prelude::nat) {}

    fn scratch_len(&self) -> usize {
        self.some_str.scratch_len()
    }

    fn encode(&self, cursor: &mut EncodeCursor) {
        self.a.encode(cursor);
        self.some_str.encode(cursor);
        self.b.encode(cursor);
    }
}

impl<'a> Decode<'a> for CustomStruct<'a> {
    fn parse(_: vstd::seq::Seq<u8>, _: vstd::prelude::nat) -> Option<()> {
        unreachable!()
    }

    fn lemma_parse_in_bounds(_: vstd::seq::Seq<u8>, _: vstd::prelude::nat) {}

    fn decode(cursor: &mut DecodeCursor<'a>) -> DecodeResult<Self> {
        let a = Decode::decode(cursor)?;
        let some_str = Decode::decode(cursor)?;
        let b = Decode::decode(cursor)?;

        Ok(CustomStruct { a, some_str, b })
    }
}

fn encode_decode_with_buf<'a>(buf: &'a mut [u8], v: &CustomStruct<'a>) {
    {
        let mut cursor = EncodeCursor::new::<CustomStruct>(buf);
        v.encode(&mut cursor);
    }

    let decoded: CustomStruct = decode_value(buf).unwrap();
    assert_eq!(decoded, *v);
}

#[test]
fn test_custom_struct() {
    let custom_struct = CustomStruct {
        a: 123,
        some_str: "some string",
        b: 456,
    };
    const SOME_BIG_BUFFER_SIZE: usize = 1024;
    let mut buf = [0u8; SOME_BIG_BUFFER_SIZE];
    assert!(SOME_BIG_BUFFER_SIZE > encoded_len(&custom_struct));
    encode_decode_with_buf(&mut buf, &custom_struct);
}
