use vhost_user_blk::number;
use vhost_user_blk::number::ByteOrder;

#[test]
fn machine_order_is_that_of_the_machine() {
    let order = number::machine_order();
    assert_eq!(number::encode(order, 0x0102, 2), 0x0102u16.to_ne_bytes().to_vec());
    assert_eq!(
        number::decode(order, &0x1234_5678u32.to_ne_bytes().to_vec(), 0, 4),
        0x1234_5678
    );
}

#[test]
fn order_shows_in_a_pair_of_bytes() {
    assert_eq!(number::order_of(1), ByteOrder::Little);
    assert_eq!(number::order_of(256), ByteOrder::Big);
    assert_eq!(number::order_of(u16::from_ne_bytes([1, 0])), number::machine_order());
}

#[test]
fn numbers_are_encoded_least_significant_byte_first() {
    let order = ByteOrder::Little;
    assert_eq!(number::encode(order, 0x0102_0304, 4), vec![4, 3, 2, 1]);
    assert_eq!(number::encode(order, 0x0102_0304, 2), vec![4, 3]);
    assert_eq!(number::encode(order, 0x0102_0304, 0), Vec::<u8>::new());
    assert_eq!(number::encode(order, u64::MAX, 8), vec![0xff; 8]);
    assert_eq!(number::encode(order, 1, 3), vec![1, 0, 0]);
}

#[test]
fn numbers_are_encoded_most_significant_byte_first() {
    let order = ByteOrder::Big;
    assert_eq!(number::encode(order, 0x0102_0304, 4), vec![1, 2, 3, 4]);
    assert_eq!(number::encode(order, 0x0102_0304, 2), vec![3, 4]);
    assert_eq!(number::encode(order, 1, 3), vec![0, 0, 1]);
}

#[test]
fn encoding_appends() {
    let mut bytes = vec![9u8];
    number::encode_into(ByteOrder::Little, &mut bytes, 0xabcd, 2);
    number::encode_into(ByteOrder::Big, &mut bytes, 0xabcd, 2);
    assert_eq!(bytes, vec![9, 0xcd, 0xab, 0xab, 0xcd]);
}

#[test]
fn decoding_reads_part_of_the_bytes() {
    let bytes = vec![1u8, 2, 3, 4, 5];
    assert_eq!(number::decode(ByteOrder::Little, &bytes, 1, 3), 0x0302);
    assert_eq!(number::decode(ByteOrder::Little, &bytes, 0, 5), 0x05_0403_0201);
    assert_eq!(number::decode(ByteOrder::Little, &bytes, 2, 2), 0);
    assert_eq!(number::decode(ByteOrder::Big, &bytes, 1, 3), 0x0203);
    assert_eq!(number::decode(ByteOrder::Big, &bytes, 0, 5), 0x01_0203_0405);
}

#[test]
fn decoding_undoes_encoding() {
    for order in [ByteOrder::Little, ByteOrder::Big] {
        for value in [0u64, 1, 0xff, 0x1234_5678_9abc_def0, u64::MAX] {
            let bytes = number::encode(order, value, 8);
            assert_eq!(number::decode(order, &bytes, 0, 8), value);
            assert_eq!(number::encode(order, number::decode(order, &bytes, 0, 8), 8), bytes);
        }
    }
}
