use dt_core::rdb::{
    HashObject, HashParser, RdbReader, RDB_TYPE_HASH, RDB_TYPE_HASH_LISTPACK, RDB_TYPE_HASH_ZIPLIST, RDB_TYPE_HASH_ZIPMAP,
};

fn reader(data: Vec<u8>) -> RdbReader {
    RdbReader { data, pos: 0 }
}

fn b(x: &str) -> Vec<u8> {
    x.as_bytes().to_vec()
}

#[test]
fn lengths() {
    assert_eq!(reader(vec![0x05]).read_length().unwrap(), 5);
    assert_eq!(reader(vec![0x41, 0x02]).read_length().unwrap(), 258);
    assert_eq!(reader(vec![0x80, 0, 0, 1, 0]).read_length().unwrap(), 256);
    assert_eq!(reader(vec![0x81, 0, 0, 0, 0, 0, 0, 0, 7]).read_length().unwrap(), 7);
    assert!(reader(vec![0x41]).read_length().is_err());
    assert!(reader(vec![]).read_length().is_err());
    let mut r = reader(vec![0x41, 0x02, 0x03]);
    r.read_length().unwrap();
    assert_eq!(r.pos, 2);
}

#[test]
fn strings() {
    assert_eq!(reader(vec![0x03, b'a', b'b', b'c']).read_string().unwrap(), b("abc"));
    assert_eq!(reader(vec![0xc0, 0xff]).read_string().unwrap(), b("-1"));
    assert_eq!(reader(vec![0xc1, 0x39, 0x30]).read_string().unwrap(), b("12345"));
    assert_eq!(reader(vec![0xc2, 0x00, 0x00, 0x00, 0x80]).read_string().unwrap(), b("-2147483648"));
    assert!(reader(vec![0xc3, 0x01, 0x01, 0x00]).read_string().is_err());
    assert!(reader(vec![0x05, b'a']).read_string().is_err());
}

#[test]
fn plain_hash() {
    let mut r = reader(vec![0x02, 0x01, b'a', 0x01, b'1', 0x01, b'b', 0xc0, 0x02, 0x09]);
    let obj = HashParser::load_from_buffer(&mut r, b("h"), RDB_TYPE_HASH).unwrap();
    assert_eq!(obj, HashObject { key: b("h"), value: vec![(b("a"), b("1")), (b("b"), b("2"))] });
    assert_eq!(r.pos, 9);
}

#[test]
fn ziplist_hash() {
    let mut blob = vec![16, 0, 0, 0, 13, 0, 0, 0, 2, 0];
    blob.extend([0x00, 0x01, b'a']);
    blob.extend([0x03, 0xf2]);
    blob.push(0xff);
    let mut data = vec![blob.len() as u8];
    data.extend(blob);
    let mut r = reader(data);
    let obj = HashParser::load_from_buffer(&mut r, b("z"), RDB_TYPE_HASH_ZIPLIST).unwrap();
    assert_eq!(obj.value, vec![(b("a"), b("1"))]);
}

#[test]
fn ziplist_integers() {
    let mut blob = vec![0u8; 10];
    blob.extend([0x00, 0xc0, 0x39, 0x30]);
    blob.extend([0x04, 0xfe, 0x9c]);
    blob.push(0xff);
    let mut data = vec![blob.len() as u8];
    data.extend(blob);
    assert_eq!(reader(data).read_zip_list().unwrap(), vec![b("12345"), b("-100")]);
}

#[test]
fn listpack_hash() {
    let mut blob = vec![12, 0, 0, 0, 2, 0];
    blob.extend([0x81, b'k', 0x02]);
    blob.extend([0x05, 0x01]);
    blob.push(0xff);
    let mut data = vec![blob.len() as u8];
    data.extend(blob);
    let mut r = reader(data);
    let mut obj = HashObject { key: b("l"), value: vec![] };
    HashParser::read_hash_list_pack(&mut obj, &mut r).unwrap();
    assert_eq!(obj.value, vec![(b("k"), b("5"))]);
}

#[test]
fn listpack_signed_13_bit() {
    let mut blob = vec![0u8; 6];
    blob.extend([0xdf, 0xff, 0x02]);
    blob.push(0xff);
    let mut data = vec![blob.len() as u8];
    data.extend(blob);
    assert_eq!(reader(data).read_list_pack().unwrap(), vec![b("-1")]);
}

#[test]
fn unsupported_hash_encodings() {
    assert!(HashParser::load_from_buffer(&mut reader(vec![0x00]), b("x"), 99).is_err());
    assert!(HashParser::load_from_buffer(&mut reader(vec![0x00]), b("x"), RDB_TYPE_HASH_ZIPMAP).is_err());
    // an odd number of items cannot be paired
    let mut blob = vec![0u8; 6];
    blob.extend([0x05, 0x01]);
    blob.push(0xff);
    let mut data = vec![blob.len() as u8];
    data.extend(blob);
    assert!(HashParser::load_from_buffer(&mut reader(data), b("x"), RDB_TYPE_HASH_LISTPACK).is_err());
}

#[test]
fn list_pack_adds_to_existing_fields_and_keeps_them_on_error() {
    let mut blob = vec![0u8; 6];
    blob.extend([0x81, b'k', 0x02]);
    blob.extend([0x05, 0x01]);
    blob.push(0xff);
    let mut data = vec![blob.len() as u8];
    data.extend(blob);
    let mut obj = HashObject { key: b("l"), value: vec![(b("old"), b("v"))] };
    HashParser::read_hash_list_pack(&mut obj, &mut reader(data)).unwrap();
    assert_eq!(obj.value, vec![(b("old"), b("v")), (b("k"), b("5"))]);
    let before = obj.clone();
    assert!(HashParser::read_hash_list_pack(&mut obj, &mut reader(vec![0x05, 0x00])).is_err());
    assert_eq!(obj, before);
}
