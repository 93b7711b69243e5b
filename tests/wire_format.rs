use atilink::framing::{decode_len, encode_len, frame_needed, read_frame, write_frame};
use atilink::path::is_contained;
use atilink::{Checksum, Compression, DownloadMetadata, Error, FileMetadata, Result, Role, UploadMetadata};

#[test]
fn frame_layout_is_big_endian_length_then_payload() {
    assert_eq!(write_frame(b"abc"), vec![0, 0, 0, 3, b'a', b'b', b'c']);
    assert_eq!(write_frame(b""), vec![0, 0, 0, 0]);
    assert_eq!(encode_len(0x0102_0304), [1, 2, 3, 4]);
    assert_eq!(decode_len(&[0, 0, 1, 0]), 256);
}

#[test]
fn frame_round_trip_keeps_what_follows() {
    let payload: Vec<u8> = (0..300u32).map(|i| i as u8).collect();
    let mut bytes = write_frame(&payload);
    bytes.extend_from_slice(b"tail");
    let (p, used) = read_frame(&bytes).unwrap();
    assert_eq!(p, payload);
    assert_eq!(&bytes[used..], b"tail");
}

#[test]
fn short_frames_are_incomplete() {
    assert!(read_frame(&[0, 0]).is_none());
    assert!(read_frame(&[0, 0, 0, 5, 1, 2]).is_none());
    assert_eq!(frame_needed(&[0, 0]), 2);
    assert_eq!(frame_needed(&[0, 0, 0, 5, 1, 2]), 3);
    assert_eq!(frame_needed(&[0, 0, 0, 1, 9]), 0);
}

#[test]
fn role_encoding() {
    assert_eq!(Role::Source.to_bytes(), vec![0, 0, 0, 0]);
    assert_eq!(Role::Sink.to_bytes(), vec![1, 0, 0, 0]);
    assert_eq!(Role::from_bytes(&[1, 0, 0, 0]).unwrap(), Role::Sink);
    assert!(matches!(Role::from_bytes(&[2, 0, 0, 0]), Err(Error::Deserialize)));
    assert!(matches!(Role::from_bytes(&[0, 0, 0, 0, 0]), Err(Error::Deserialize)));
}

#[test]
fn upload_metadata_layout_matches_bincode() {
    let m = UploadMetadata::new(3, "/tmp/out", &[9, 8, 7])
        .with_compression(Some(Compression::GZip))
        .with_checksum(None);
    let expected = bincode::serialize(&(3u32, "/tmp/out", vec![9u8, 8, 7], Some(1u32), None::<u32>)).unwrap();
    assert_eq!(m.to_bytes(), expected);
}

#[test]
fn download_and_result_layout_matches_bincode() {
    let m = DownloadMetadata::new("/srv/data").with_checksum(Some(Checksum::Md5));
    let expected = bincode::serialize(&("/srv/data", None::<u32>, Some(1u32))).unwrap();
    assert_eq!(m.to_bytes(), expected);
    let r = Result::Marker { count: 2, marker: vec![5, 6] };
    assert_eq!(r.to_bytes(), bincode::serialize(&(0u32, 2u32, vec![5u8, 6])).unwrap());
    let r = Result::Failure("no".to_string());
    assert_eq!(r.to_bytes(), bincode::serialize(&(1u32, "no")).unwrap());
    let f = FileMetadata::new("a/b.txt");
    assert_eq!(f.to_bytes(), bincode::serialize(&"a/b.txt").unwrap());
}

#[test]
fn messages_round_trip() {
    let m = UploadMetadata::new(7, "dest/ü", b"marker")
        .with_compression(Some(Compression::Zlib))
        .with_checksum(Some(Checksum::Sha256));
    let back = UploadMetadata::from_bytes(&m.to_bytes()).unwrap();
    assert_eq!(back.count, 7);
    assert_eq!(back.destination, "dest/ü");
    assert_eq!(back.eof_marker, b"marker".to_vec());
    assert_eq!(back.compression, Some(Compression::Zlib));
    assert_eq!(back.checksum, Some(Checksum::Sha256));

    let d = DownloadMetadata::new("/x").with_compression(Some(Compression::GZip));
    let back = DownloadMetadata::from_bytes(&d.to_bytes()).unwrap();
    assert_eq!(back.destination, "/x");
    assert_eq!(back.compression, Some(Compression::GZip));
    assert_eq!(back.checksum, None);

    let f = FileMetadata::new("b/c");
    assert_eq!(FileMetadata::from_bytes(&f.to_bytes()).unwrap().rel_path, "b/c");

    match Result::from_bytes(&Result::Marker { count: 4, marker: vec![1, 2, 3] }.to_bytes()).unwrap() {
        Result::Marker { count, marker } => {
            assert_eq!(count, 4);
            assert_eq!(marker, vec![1, 2, 3]);
        }
        Result::Failure(_) => panic!("wrong variant"),
    }
    match Result::from_bytes(&Result::Failure("bad".to_string()).to_bytes()).unwrap() {
        Result::Failure(s) => assert_eq!(s, "bad"),
        Result::Marker { .. } => panic!("wrong variant"),
    }
}

#[test]
fn unknown_codec_fails_to_decode() {
    // compression tag 2 names no algorithm this end knows
    let bytes = bincode::serialize(&(1u32, "/tmp/out", vec![1u8], Some(2u32), None::<u32>)).unwrap();
    assert!(matches!(UploadMetadata::from_bytes(&bytes), Err(Error::Deserialize)));
    let bytes = bincode::serialize(&("/x", None::<u32>, Some(9u32))).unwrap();
    assert!(matches!(DownloadMetadata::from_bytes(&bytes), Err(Error::Deserialize)));
}

#[test]
fn malformed_messages_fail_to_decode() {
    let mut bytes = FileMetadata::new("a").to_bytes();
    bytes.push(0);
    assert!(matches!(FileMetadata::from_bytes(&bytes), Err(Error::Deserialize)));
    assert!(matches!(FileMetadata::from_bytes(&[1, 0, 0, 0, 0, 0, 0, 0, 0xff]), Err(Error::Deserialize)));
    assert!(matches!(Result::from_bytes(&[2, 0, 0, 0]), Err(Error::Deserialize)));
    assert!(matches!(UploadMetadata::from_bytes(&[]), Err(Error::Deserialize)));
}

#[test]
fn contained_paths() {
    assert!(is_contained("a.txt"));
    assert!(is_contained("b/c"));
    assert!(is_contained("a/..b/c.."));
    assert!(is_contained(""));
    assert!(!is_contained("../x"));
    assert!(!is_contained("a/../../x"));
    assert!(!is_contained(".."));
    assert!(!is_contained("a/.."));
    assert!(!is_contained("/etc/passwd"));
    assert!(!is_contained("a\\..\\b"));
}

#[test]
fn algorithm_names() {
    assert_eq!(Compression::from_name("Zlib").unwrap(), Compression::Zlib);
    assert_eq!(Compression::from_name("GZip").unwrap(), Compression::GZip);
    assert_eq!(Checksum::from_name("Sha256").unwrap(), Checksum::Sha256);
    assert_eq!(Checksum::from_name("Md5").unwrap(), Checksum::Md5);
    match Compression::from_name("lz4") {
        Err(Error::InvalidArgument(m)) => assert_eq!(m, "Invalid compression type lz4"),
        other => panic!("unexpected {:?}", other),
    }
    match Checksum::from_name("crc") {
        Err(Error::InvalidArgument(m)) => assert_eq!(m, "Invalid checksum type crc"),
        other => panic!("unexpected {:?}", other),
    }
}

#[test]
fn error_constructors() {
    assert!(matches!(Error::integrity_error("x"), Error::IntegrityError(m) if m == "x"));
    assert!(matches!(Error::invalid_argument("y"), Error::InvalidArgument(m) if m == "y"));
    assert!(matches!(Error::download_error("z"), Error::DownloadError(m) if m == "z"));
    assert!(matches!(Error::invalid_request("w"), Error::InvalidRequest(m) if m == "w"));
    let e: Error = std::io::Error::from(std::io::ErrorKind::NotFound).into();
    assert!(matches!(e, Error::IO(_)));
}

#[test]
fn settings_default_is_empty() {
    let s = atilink::Settings::default();
    assert!(s.source.is_none() && s.sink.is_none() && s.compression.is_none());
    assert!(s.checksum.is_none() && s.chunk_bytes.is_none() && s.write_timeout.is_none());
}
