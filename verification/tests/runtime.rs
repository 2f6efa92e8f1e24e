use std::fmt::Debug;

use mproto::{
    decode_value, encode_value, encode_value_vec, encoded_len, max, BaseLen, BoxLazy, Decode,
    DecodeCursor, DecodeError, Encode, EncodeCursor, LazyBuf, ListLazy, Owned,
};

fn encode_decode<E, D>(v: E)
where
    E: Encode + Debug + PartialEq<D>,
    D: for<'a> Decode<'a> + Debug,
{
    const SOME_BIG_BUFFER_SIZE: usize = 1024;
    let mut buf = [0u8; SOME_BIG_BUFFER_SIZE];
    let encoded_len = encoded_len(&v);
    assert!(SOME_BIG_BUFFER_SIZE > encoded_len);

    let mut cursor = EncodeCursor::new::<E>(&mut buf);
    v.encode(&mut cursor);

    assert_eq!(cursor.encoded_len(), encoded_len);

    let decoded: D = decode_value(&buf).unwrap();
    assert_eq!(v, decoded);
}

fn encode_decode_owned<E>(v: E)
where
    E: Owned + Debug + PartialEq<E>,
{
    encode_decode::<E, E>(v);
}

#[test]
fn test_integers() {
    encode_decode_owned::<u8>(76);
    encode_decode_owned::<u16>(12345);
    encode_decode_owned::<u32>(1234567890);
    encode_decode_owned::<u64>(1234567890123456);

    encode_decode_owned::<i8>(-123);
    encode_decode_owned::<i8>(76);
    encode_decode_owned::<i16>(-12345);
    encode_decode_owned::<i16>(30111);
    encode_decode_owned::<i32>(-123456789);
    encode_decode_owned::<i32>(1234567890);
    encode_decode_owned::<i64>(-6786483465783829387);
    encode_decode_owned::<i64>(4893747873423431);
}

#[test]
fn test_string() {
    encode_decode_owned::<String>("hi i am a string".to_owned());
    encode_decode::<&str, String>("string string string");
}

#[test]
fn test_vec_u8() {
    encode_decode_owned::<Vec<u8>>(b"gimme some bytes".to_vec());
    encode_decode::<&[u8], Vec<u8>>(b"gimme some bytes");
}

#[test]
fn test_vec_string() {
    encode_decode_owned::<Vec<String>>(vec!["hubba bubba".into(), "ka pow".into(), "12345".into()]);
}

#[test]
fn test_option() {
    encode_decode_owned::<Option<u64>>(None);
    encode_decode_owned::<Option<u8>>(Some(42));
    encode_decode_owned::<Option<u16>>(Some(54321));
    encode_decode_owned::<Option<u32>>(Some(1234567890));
    encode_decode_owned::<Option<u64>>(Some(1234567890123456));
}

#[test]
fn test_option_vec() {
    encode_decode_owned::<Option<Vec<i64>>>(Some(vec![-6786483465783829387, -123, 456, 987654321]));
}

#[test]
fn test_vec_option() {
    encode_decode_owned::<Vec<Option<u64>>>(vec![None, Some(42), None, Some(43)]);
}

#[test]
fn test_vec_from_list_lazy() {
    let original_vec = vec![
        "hubba bubba".to_string(),
        "ka pow".to_string(),
        "12345".to_string(),
    ];
    let buf = encode_value_vec(&original_vec);

    let list_lazy: ListLazy<'_, String> = decode_value(&buf).unwrap();
    let vec: Vec<&str> = list_lazy.to_vec().unwrap();

    assert_eq!(vec, original_vec);
}

#[test]
fn tests_test_result() {
    encode_decode_owned::<Result<u8, ()>>(Ok(42));
    encode_decode_owned::<Result<u8, i16>>(Err(-12345));
}

#[test]
fn test_box() {
    encode_decode_owned::<Box<u8>>(Box::new(42));
    encode_decode_owned::<Box<Result<u8, i16>>>(Box::new(Err(-12345)));
}

#[test]
fn u32_is_four_bytes_least_significant_first() {
    let buf = encode_value_vec(0x01020304u32);
    assert_eq!(buf, vec![0x04, 0x03, 0x02, 0x01]);
    let back: u32 = decode_value(&buf).unwrap();
    assert_eq!(back, 0x01020304);
}

#[test]
fn option_is_a_tag_and_the_value_or_zeros() {
    assert_eq!(encode_value_vec(Some(7u32)), vec![0x01, 0x07, 0x00, 0x00, 0x00]);
    assert_eq!(encode_value_vec(None::<u32>), vec![0x00, 0x00, 0x00, 0x00, 0x00]);
}

#[test]
fn none_zeroes_a_buffer_that_held_other_bytes() {
    let mut buf = [0xffu8; 5];
    let len = encode_value(None::<u32>, &mut buf);
    assert_eq!(len, 5);
    assert_eq!(buf, [0, 0, 0, 0, 0]);
}

#[test]
fn string_is_length_offset_and_bytes() {
    let mut buf = [0u8; 10];
    let len = encode_value("hi", &mut buf);
    assert_eq!(len, 10);
    assert_eq!(&buf[0..4], &[0x02, 0x00, 0x00, 0x00]);
    assert_eq!(&buf[4..8], &[0x08, 0x00, 0x00, 0x00]);
    assert_eq!(&buf[8..10], &[0x68, 0x69]);
    assert_eq!(encoded_len("hi"), 10);
}

#[test]
fn byte_list_is_count_offset_and_items() {
    let list: Vec<u8> = vec![0xAA, 0xBB];
    assert_eq!(encoded_len(&list), 10);
    let buf = encode_value_vec(&list);
    assert_eq!(buf, vec![0x02, 0x00, 0x00, 0x00, 0x08, 0x00, 0x00, 0x00, 0xAA, 0xBB]);
}

#[test]
fn result_err_is_tag_value_and_padding() {
    let value: Result<u8, i16> = Err(-12345);
    assert_eq!(<Result<u8, i16> as BaseLen>::base_len(), 3);
    let buf = encode_value_vec(&value);
    assert_eq!(buf, vec![0x01, 0xC7, 0xCF]);
    let ok: Result<u8, i16> = Ok(9);
    assert_eq!(encode_value_vec(&ok), vec![0x00, 0x09, 0x00]);
}

#[test]
fn bool_byte_two_fails() {
    assert!(decode_value::<bool>(&[2]).is_err());
    assert_eq!(decode_value::<bool>(&[0]).unwrap(), false);
    assert_eq!(decode_value::<bool>(&[1]).unwrap(), true);
    assert!(decode_value::<bool>(&[0xff]).is_err());
}

#[test]
fn option_tag_two_fails() {
    assert!(decode_value::<Option<u32>>(&[2, 0, 0, 0, 0]).is_err());
    assert_eq!(decode_value::<Option<u32>>(&[1, 7, 0, 0, 0]).unwrap(), Some(7));
    assert_eq!(decode_value::<Option<u32>>(&[0, 9, 9, 9, 9]).unwrap(), None);
}

#[test]
fn result_tag_two_fails() {
    assert!(decode_value::<Result<u8, i16>>(&[2, 0, 0]).is_err());
    assert_eq!(decode_value::<Result<u8, i16>>(&[0, 5, 0]).unwrap(), Ok(5));
    assert_eq!(decode_value::<Result<u8, i16>>(&[1, 0xC7, 0xCF]).unwrap(), Err(-12345));
}

#[test]
fn invalid_utf8_fails() {
    let buf = [2, 0, 0, 0, 8, 0, 0, 0, 0xff, 0xfe];
    assert!(decode_value::<String>(&buf).is_err());
    assert!(decode_value::<&str>(&buf).is_err());
    let good = [2, 0, 0, 0, 8, 0, 0, 0, 0x68, 0x69];
    assert_eq!(decode_value::<String>(&good).unwrap(), "hi");
}

#[test]
fn truncated_buffers_fail() {
    assert!(decode_value::<u32>(&[1, 2, 3]).is_err());
    assert!(decode_value::<Option<u32>>(&[0, 0, 0]).is_err());
    assert!(decode_value::<String>(&[5, 0, 0, 0, 8, 0, 0, 0, 0x68]).is_err());
    assert!(decode_value::<String>(&[1, 0, 0, 0, 200, 0, 0, 0, 0x68]).is_err());
    assert!(decode_value::<Vec<u16>>(&[2, 0, 0, 0, 8, 0, 0, 0, 1, 0, 2]).is_err());
    assert!(decode_value::<Box<u32>>(&[4, 0, 0, 0, 1, 2]).is_err());
    assert!(decode_value::<Box<u32>>(&[4, 0]).is_err());
    assert!(decode_value::<&[u8]>(&[3, 0, 0, 0, 8, 0, 0, 0, 1, 2]).is_err());
}

#[test]
fn empty_list_decodes_with_any_offset_and_the_next_field_follows() {
    for offset in [0u8, 8, 12, 13] {
        let buf = [0, 0, 0, 0, offset, 0, 0, 0, 0x2a, 0, 0, 0, 0];
        let mut cursor = DecodeCursor::new(&buf);
        let list: Vec<u32> = Decode::decode(&mut cursor).unwrap();
        assert_eq!(list.len(), 0);
        assert_eq!(cursor.offset(), 8);
        let next: u32 = Decode::decode(&mut cursor).unwrap();
        assert_eq!(next, 42);
    }
}

#[test]
fn lazy_list_reads_items_on_demand() {
    let original: Vec<Option<u64>> = vec![None, Some(42), None, Some(43)];
    let buf = encode_value_vec(&original);
    let lazy: ListLazy<'_, Option<u64>> = decode_value(&buf).unwrap();
    assert_eq!(lazy.len(), 4);
    for (i, item) in original.iter().enumerate() {
        assert_eq!(lazy.get(i).unwrap(), *item);
    }
    assert!(lazy.get(4).is_err());
    let mut iter = lazy.iter();
    let mut seen = Vec::new();
    while let Some(item) = iter.next() {
        seen.push(item.unwrap());
    }
    assert_eq!(seen, original);
    assert_eq!(<Vec<Option<u64>> as Owned>::lazy_to_owned(lazy).unwrap(), original);
}

#[test]
fn lazy_box_follows_the_pointer() {
    let original: Box<Result<u8, i16>> = Box::new(Err(-12345));
    let buf = encode_value_vec(&original);
    assert_eq!(buf, vec![4, 0, 0, 0, 0x01, 0xC7, 0xCF]);
    let lazy: BoxLazy<'_, Result<u8, i16>> = decode_value(&buf).unwrap();
    assert_eq!(lazy.get().unwrap(), Err(-12345));
    assert_eq!(<Box<Result<u8, i16>> as Owned>::lazy_to_owned(lazy).unwrap(), original);
}

#[test]
fn lazy_values_encode_to_the_bytes_they_came_from() {
    let original: Vec<String> = vec!["hubba bubba".into(), "ka pow".into(), "12345".into()];
    let buf = encode_value_vec(&original);
    let lazy: ListLazy<'_, String> = decode_value(&buf).unwrap();
    assert_eq!(encoded_len(lazy), buf.len());
    assert_eq!(encode_value_vec(lazy), buf);

    let boxed: Box<Vec<u16>> = Box::new(vec![1, 2, 3]);
    let buf = encode_value_vec(&boxed);
    let lazy: BoxLazy<'_, Vec<u16>> = decode_value(&buf).unwrap();
    assert_eq!(encoded_len(lazy), buf.len());
    assert_eq!(encode_value_vec(lazy), buf);
}

#[test]
fn compatible_types_encode_alike() {
    let owned = "caf\u{e9}".to_string();
    assert_eq!(encode_value_vec(&owned), encode_value_vec("caf\u{e9}"));
    let items: Vec<u32> = vec![7, 8];
    assert_eq!(encode_value_vec(&items), encode_value_vec(&items[..]));
    let nested: Option<Vec<String>> = Some(vec!["a".into()]);
    let borrowed: Option<Vec<&str>> = Some(vec!["a"]);
    assert_eq!(encode_value_vec(&nested), encode_value_vec(&borrowed));
}

#[test]
fn nested_lists_round_trip() {
    encode_decode_owned::<Vec<Vec<String>>>(vec![
        vec!["a".into(), "bc".into()],
        vec![],
        vec!["def".into()],
    ]);
    encode_decode_owned::<Vec<Box<Option<Vec<u8>>>>>(vec![
        Box::new(Some(vec![1, 2, 3])),
        Box::new(None),
    ]);
    encode_decode_owned::<Vec<()>>(vec![(), (), ()]);
    encode_decode_owned::<u128>(0x0102030405060708090a0b0c0d0e0f10);
    encode_decode_owned::<i128>(-0x0102030405060708090a0b0c0d0e0f10);
    encode_decode_owned::<i128>(i128::MIN);
    encode_decode_owned::<i64>(i64::MIN);
    encode_decode_owned::<i8>(i8::MIN);
    encode_decode_owned::<u64>(u64::MAX);
    encode_decode_owned::<bool>(true);
    encode_decode_owned::<()>(());
}

#[test]
fn signed_integers_are_twos_complement() {
    assert_eq!(encode_value_vec(-1i32), vec![0xff, 0xff, 0xff, 0xff]);
    assert_eq!(encode_value_vec(-2i8), vec![0xfe]);
    assert_eq!(encode_value_vec(i16::MIN), vec![0x00, 0x80]);
    assert_eq!(decode_value::<i16>(&[0xC7, 0xCF]).unwrap(), -12345);
}

#[test]
fn lazy_buf_keeps_the_buffer_and_hands_out_views() {
    let original: Vec<String> = vec!["hubba bubba".into(), "ka pow".into()];
    let bytes = encode_value_vec(&original);
    let lazy_buf = LazyBuf::<Vec<String>>::try_new(bytes.clone()).unwrap();
    let view = lazy_buf.get();
    assert_eq!(view.len(), 2);
    assert_eq!(view.get(1).unwrap(), "ka pow");
    assert_eq!(lazy_buf.get().to_vec::<String>().unwrap(), original);
    assert_eq!(lazy_buf.into_inner(), bytes);
    assert!(LazyBuf::<Vec<String>>::try_new(vec![1, 2, 3]).is_err());
    let number = LazyBuf::<u32>::new(vec![4, 3, 2, 1]);
    assert_eq!(number.get(), 0x01020304);
}

#[test]
fn cursors_move_as_they_read_and_write() {
    let mut buf = [0xeeu8; 16];
    let mut cursor = EncodeCursor::new::<(String)>(&mut buf);
    assert_eq!(cursor.encoded_len(), 8);
    cursor.base(4).copy_from_slice(&[1, 0, 0, 0]);
    cursor.scratch(3).copy_from_slice(b"abc");
    assert_eq!(cursor.encoded_len(), 11);
    assert_eq!(&buf[..11], &[1, 0, 0, 0, 8, 0, 0, 0, b'a', b'b', b'c']);

    let mut buf = [0u8; 12];
    let mut cursor = EncodeCursor::new::<Box<u32>>(&mut buf);
    let mut inner = cursor.inner_in_scratch(4);
    7u32.encode(&mut inner);
    cursor.leave_scratch(inner);
    assert_eq!(cursor.encoded_len(), 8);
    assert_eq!(&buf[..8], &[4, 0, 0, 0, 7, 0, 0, 0]);

    let bytes = [9u8, 0, 0, 0, 1, 2, 3, 4, 5, 6];
    let mut cursor = DecodeCursor::new(&bytes);
    assert_eq!(cursor.buffer(), &bytes);
    assert_eq!(cursor.base(1).unwrap(), &[9]);
    assert_eq!(cursor.offset(), 1);
    cursor.advance(2);
    assert_eq!(cursor.offset(), 3);
    assert!(cursor.base(8).is_err());
    assert_eq!(cursor.offset(), 3);
    cursor.advance(8);
    assert_eq!(cursor.offset(), 11);
    assert_eq!(cursor.buffer(), &bytes);
    assert!(cursor.base(0).is_err());
    let mut cursor = DecodeCursor::at_offset(&bytes, 0);
    assert_eq!(cursor.scratch(1).unwrap(), &[6]);
    assert_eq!(cursor.offset(), 4);
    let mut cursor = DecodeCursor::new(&bytes);
    let mut inner = cursor.inner_in_scratch().unwrap();
    assert_eq!((cursor.offset(), inner.offset()), (4, 9));
    assert_eq!(inner.base(1).unwrap(), &[6]);
    let mut cursor = DecodeCursor::new(&bytes);
    cursor.follow_scratch().unwrap();
    assert_eq!(cursor.offset(), 9);
    let mut cursor = DecodeCursor::at_offset(&bytes, 8);
    assert!(cursor.scratch(0).is_err());
    assert!(cursor.follow_scratch().is_err());
    assert_eq!(DecodeError.message(), "failed to decode mproto value");
    assert_eq!(max(3, 5), 5);
    assert_eq!(max(5, 3), 5);
    assert_eq!(max(4, 4), 4);
}

#[test]
fn base_lengths_of_the_built_in_types() {
    assert_eq!(<() as BaseLen>::base_len(), 0);
    assert_eq!(<bool as BaseLen>::base_len(), 1);
    assert_eq!(<u8 as BaseLen>::base_len(), 1);
    assert_eq!(<i16 as BaseLen>::base_len(), 2);
    assert_eq!(<u32 as BaseLen>::base_len(), 4);
    assert_eq!(<i64 as BaseLen>::base_len(), 8);
    assert_eq!(<u128 as BaseLen>::base_len(), 16);
    assert_eq!(<String as BaseLen>::base_len(), 8);
    assert_eq!(<Box<u64> as BaseLen>::base_len(), 4);
    assert_eq!(<Vec<u64> as BaseLen>::base_len(), 8);
    assert_eq!(<Option<u64> as BaseLen>::base_len(), 9);
    assert_eq!(<Result<u64, Option<u64>> as BaseLen>::base_len(), 10);
    assert_eq!(<ListLazy<'_, u64> as BaseLen>::base_len(), 8);
    assert_eq!(<BoxLazy<'_, u64> as BaseLen>::base_len(), 4);
    assert_eq!(encoded_len(&vec![1u16, 2, 3]), 8 + 6);
    assert_eq!(encoded_len(Box::new("ab".to_string())), 4 + 8 + 2);
    let value: Result<String, u8> = Ok("xyz".into());
    assert_eq!(value.scratch_len(), 3);
}

#[test]
fn the_cursor_hands_out_the_bytes_of_the_buffer_as_they_are() {
    let mut buf = [1u8, 2, 3, 4, 5, 6, 7, 8, 9, 10, 11, 12];
    let mut cursor = EncodeCursor::new::<String>(&mut buf);
    assert_eq!(cursor.base(3), &[1, 2, 3]);
    assert_eq!(cursor.base(1), &[4]);
    assert_eq!(cursor.scratch(2), &[9, 10]);
    assert_eq!(cursor.encoded_len(), 10);
    assert_eq!(cursor.scratch_cursor.buffer, &[11, 12]);
    assert_eq!(cursor.base_cursor.buffer.len(), 0);
    assert_eq!(buf, [1, 2, 3, 4, 8, 0, 0, 0, 9, 10, 11, 12]);

    let mut buf = [7u8; 10];
    let mut cursor = EncodeCursor::new::<Box<u16>>(&mut buf);
    let inner = cursor.inner_in_scratch(2);
    assert_eq!(inner.base_cursor.buffer, &[7, 7]);
    assert_eq!(inner.scratch_cursor.buffer, &[7, 7, 7, 7]);
    assert_eq!(inner.scratch_offset, 6);
    assert_eq!(cursor.scratch_cursor.buffer.len(), 0);
    cursor.leave_scratch(inner);
    assert_eq!(cursor.scratch_cursor.buffer.len(), 4);
    assert_eq!(buf, [4, 0, 0, 0, 7, 7, 7, 7, 7, 7]);
}

#[test]
fn references_encode_as_what_they_point_to() {
    let mut value: Vec<u16> = vec![1, 2];
    let shared = encode_value_vec(&value);
    let exclusive = encode_value_vec(&mut value);
    assert_eq!(shared, exclusive);
    assert_eq!(encoded_len(&mut value), shared.len());
    assert_eq!(<&mut u32 as BaseLen>::base_len(), 4);
}
