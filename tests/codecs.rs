use atilink::checksum::{Checksum, Md5, Sha256};
use atilink::compression::{Compression, GZip, Zlib};
use atilink::generate_eof_marker;

#[test]
fn test_sha256() {
    let marker = generate_eof_marker().unwrap();
    let checksum = Sha256.generate(&marker);
    assert!(Sha256.valdate(&marker, &checksum))
}

#[test]
fn test_md5() {
    let marker = generate_eof_marker().unwrap();
    let checksum = Md5.generate(&marker);
    assert!(Md5.valdate(&marker, &checksum))
}

#[test]
fn zlib_test() {
    let marker = generate_eof_marker().unwrap();

    let encrypted_result = Zlib.compress(&marker);
    assert!(encrypted_result.is_ok());

    let decrypted_result = Zlib.decompress(&encrypted_result.unwrap());
    assert!(decrypted_result.is_ok());

    assert_eq!(decrypted_result.unwrap(), marker);
}

#[test]
fn gzip_test() {
    let marker = generate_eof_marker().unwrap();

    let encrypted_result = GZip.compress(&marker);
    assert!(encrypted_result.is_ok());

    let decrypted_result = GZip.decompress(&encrypted_result.unwrap());
    assert!(decrypted_result.is_ok());

    assert_eq!(decrypted_result.unwrap(), marker);
}

#[test]
fn marker_has_chunk_length_and_differs_between_calls() {
    let a = generate_eof_marker().unwrap();
    let b = generate_eof_marker().unwrap();
    assert_eq!(a.len(), atilink::CHUNK);
    assert_ne!(a, b);
}

#[test]
fn sha256_known_digest() {
    assert_eq!(
        Sha256.generate(b"hello"),
        "2cf24dba5fb0a30e26e83b2ac5b9e29e1b161e5c1fa7425e73043362938b9824"
    );
}

#[test]
fn md5_known_digest() {
    assert_eq!(Md5.generate(b"hello"), "5d41402abc4b2a76b9719d911017c592");
}

#[test]
fn checksum_rejects_other_bytes() {
    let h = Sha256.generate(b"hello");
    assert!(Sha256.valdate(b"hello", &h));
    assert!(!Sha256.valdate(b"hellp", &h));
    let h = Md5.generate(b"hello");
    assert!(Md5.valdate(b"hello", &h));
    assert!(!Md5.valdate(b"Hello", &h));
    assert!(!Md5.valdate(b"hello", ""));
}

#[test]
fn dispatch_by_kind() {
    let algo = atilink::Checksum::Md5.get_algo();
    assert_eq!(algo.generate(b"hello"), Md5.generate(b"hello"));
    assert_eq!(algo.get_type(), atilink::Checksum::Md5);
    let algo = atilink::Compression::GZip.get_algo();
    assert_eq!(algo.get_type(), atilink::Compression::GZip);
    assert_eq!(Zlib.get_type(), atilink::Compression::Zlib);
    assert_eq!(Sha256.get_type(), atilink::Checksum::Sha256);
}

#[test]
fn compression_changes_and_restores_bytes() {
    let data: Vec<u8> = b"abcabcabcabcabcabcabcabcabcabcabcabc".to_vec();
    for c in [atilink::Compression::Zlib, atilink::Compression::GZip] {
        let algo = c.get_algo();
        let packed = algo.compress(&data).unwrap();
        assert_ne!(packed, data);
        assert_eq!(algo.decompress(&packed).unwrap(), data);
    }
    // the two stream formats differ
    assert_ne!(Zlib.compress(&data).unwrap(), GZip.compress(&data).unwrap());
}

#[test]
fn compression_round_trip_empty_and_large() {
    let big: Vec<u8> = (0..100_000u32).map(|i| (i * 7 % 251) as u8).collect();
    for input in [Vec::new(), big] {
        assert_eq!(Zlib.decompress(&Zlib.compress(&input).unwrap()).unwrap(), input);
        assert_eq!(GZip.decompress(&GZip.compress(&input).unwrap()).unwrap(), input);
    }
}

#[test]
fn decompress_rejects_garbage() {
    assert!(matches!(Zlib.decompress(b"not a zlib stream"), Err(atilink::Error::IO(_))));
    assert!(matches!(GZip.decompress(b"not a gzip stream"), Err(atilink::Error::IO(_))));
}
