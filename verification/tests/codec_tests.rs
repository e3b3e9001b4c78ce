use crypt::{compress, decompress, Error};

#[test]
fn compression_round_trip_plain() {
    let data: Vec<u8> = b"hello world, hello world, hello world".to_vec();
    let packed = compress(&data, 3).unwrap();
    let unpacked = decompress(&packed).unwrap();
    assert_eq!(data, unpacked);
}

#[test]
fn compression_round_trip_runs() {
    let mut data: Vec<u8> = Vec::new();
    for _ in 0..1000 {
        data.push(7);
    }
    for i in 0..300 {
        data.push((i % 256) as u8);
    }
    let packed = compress(&data, 22).unwrap();
    assert!(packed.len() < data.len());
    let unpacked = decompress(&packed).unwrap();
    assert_eq!(data, unpacked);
}

#[test]
fn compression_round_trip_empty() {
    let data: Vec<u8> = Vec::new();
    let packed = compress(&data, -7).unwrap();
    assert_eq!(packed.len(), 0);
    let unpacked = decompress(&packed).unwrap();
    assert_eq!(unpacked.len(), 0);
}

#[test]
fn compression_exact_stream() {
    // Three equal bytes then one different: two runs, two count-byte pairs.
    let data: Vec<u8> = vec![9, 9, 9, 4];
    let packed = compress(&data, 0).unwrap();
    assert_eq!(packed, vec![3, 9, 1, 4]);
}

#[test]
fn compression_rejects_bad_level() {
    let data: Vec<u8> = vec![1, 2, 3];
    assert!(matches!(compress(&data, -8), Err(Error::InvalidLevel)));
    assert!(matches!(compress(&data, 23), Err(Error::InvalidLevel)));
    assert!(compress(&data, -7).is_ok());
    assert!(compress(&data, 22).is_ok());
}

#[test]
fn decompression_rejects_corrupt_streams() {
    // Odd tail.
    assert!(matches!(decompress(&vec![3]), Err(Error::Corrupt)));
    // Zero count.
    assert!(matches!(decompress(&vec![0, 5]), Err(Error::Corrupt)));
    // Valid pair followed by an odd tail.
    assert!(matches!(decompress(&vec![2, 5, 1]), Err(Error::Corrupt)));
}
