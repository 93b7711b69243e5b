use atilink::connection::invalid_path_message;
use atilink::{Block, Checksum, ClientSession, Compression, Error, Link, Listing, Role, ServerSession, CHUNK};

fn pipe(from: &mut Link, to: &mut Link) {
    let bytes = from.take_outgoing();
    to.feed(&bytes);
}

fn marker(seed: u8) -> Vec<u8> {
    (0..CHUNK).map(|i| (i as u8).wrapping_mul(31).wrapping_add(seed)).collect()
}

fn pair(co: Option<Compression>, cs: Option<Checksum>) -> (Link, Link) {
    let a = Link::new(marker(1)).with_compression(co).with_checksum(cs);
    let b = Link::new(marker(2)).with_compression(co).with_checksum(cs);
    (a, b)
}

fn content(n: usize) -> Vec<u8> {
    (0..n).map(|i| (i * 13 % 256) as u8).collect()
}

#[test]
fn file_round_trip_every_codec_combination() {
    let codecs = [None, Some(Compression::Zlib), Some(Compression::GZip)];
    let sums = [None, Some(Checksum::Sha256), Some(Checksum::Md5)];
    for co in codecs {
        for cs in sums {
            for n in [0, 1, 6, CHUNK, CHUNK + 1, 2 * CHUNK + 5] {
                let (mut a, mut b) = pair(co, cs);
                let data = content(n);
                a.write_to_stream(&data, "dir/file.bin").unwrap();
                pipe(&mut a, &mut b);
                let m = a.marker().to_vec();
                let f = b.read_from_stream(&m).unwrap();
                assert_eq!(f.rel_path, "dir/file.bin");
                assert_eq!(f.content.unwrap(), data, "co {:?} cs {:?} n {}", co, cs, n);
                assert_eq!(b.frame_needed(), 4);
            }
        }
    }
}

#[test]
fn sentinel_bytes_inside_content_are_carried() {
    let (mut a, mut b) = pair(None, Some(Checksum::Sha256));
    let m = a.marker().to_vec();
    let mut data = b"prefix".to_vec();
    data.extend_from_slice(&m);
    data.extend_from_slice(b"suffix");
    a.write_to_stream(&data, "x").unwrap();
    pipe(&mut a, &mut b);
    let f = b.read_from_stream(&m).unwrap();
    assert_eq!(f.content.unwrap(), data);
}

#[test]
fn sends_exact_chunk_bytes_without_codecs() {
    let mut a = Link::new(vec![7, 7]);
    a.upstream(b"hi").unwrap();
    assert_eq!(a.take_outgoing(), vec![0, 0, 0, 2, b'h', b'i']);
    let mut a = Link::new(vec![7, 7]).with_checksum(Some(Checksum::Md5));
    a.upstream(b"hello").unwrap();
    let out = a.take_outgoing();
    assert_eq!(&out[..4], &[0, 0, 0, 32]);
    assert_eq!(&out[4..36], b"5d41402abc4b2a76b9719d911017c592");
    assert_eq!(&out[36..], &[0, 0, 0, 5, b'h', b'e', b'l', b'l', b'o']);
}

#[test]
fn compressed_chunk_differs_from_plain_chunk() {
    let data = content(1000);
    let mut a = Link::new(vec![1]).with_compression(Some(Compression::Zlib));
    a.upstream(&data).unwrap();
    let out = a.take_outgoing();
    assert_ne!(&out[4..], &data[..]);
    let mut b = Link::new(vec![2]).with_compression(Some(Compression::Zlib));
    b.feed(&out);
    assert_eq!(b.downstream().unwrap(), data);
}

#[test]
fn push_single_file_no_codecs() {
    let m = marker(9);
    let mut client = Link::new(m.clone());
    let mut server = Link::new(marker(3));
    client.write_role(Role::Sink).unwrap();
    client.write_upload_metadata(1, "/tmp/out").unwrap();
    client.write_file_metadata("a.txt").unwrap();
    let mut chunk = vec![0u8; CHUNK];
    chunk[..6].copy_from_slice(b"hello\n");
    client.upstream(&chunk).unwrap();
    client.upstream(&m).unwrap();
    pipe(&mut client, &mut server);

    assert_eq!(server.read_role().unwrap(), Role::Sink);
    let (meta, files) = server.serve_sink().unwrap();
    assert_eq!(meta.count, 1);
    assert_eq!(meta.destination, "/tmp/out");
    assert_eq!(meta.eof_marker, m);
    assert_eq!(files.len(), 1);
    assert_eq!(files[0].rel_path, "a.txt");
    let got = files[0].content.as_ref().unwrap();
    assert_eq!(got.len(), CHUNK);
    assert!(got.starts_with(b"hello\n"));
}

#[test]
fn push_directory_with_zlib_and_sha256() {
    let mut client = Link::new(marker(4))
        .with_compression(Some(Compression::Zlib))
        .with_checksum(Some(Checksum::Sha256));
    let mut server = Link::new(marker(5));
    client.write_role(Role::Sink).unwrap();
    client.write_upload_metadata(2, "/tmp/out").unwrap();
    client.write_to_stream(b"A", "a").unwrap();
    client.write_to_stream(b"C", "b/c").unwrap();
    pipe(&mut client, &mut server);

    assert_eq!(server.read_role().unwrap(), Role::Sink);
    let (meta, files) = server.serve_sink().unwrap();
    assert_eq!(meta.count, 2);
    assert_eq!(server.compression(), Some(Compression::Zlib));
    assert_eq!(server.checksum(), Some(Checksum::Sha256));
    assert_eq!(files.len(), 2);
    assert_eq!(files[0].rel_path, "a");
    assert_eq!(files[0].content.as_deref(), Some(&b"A"[..]));
    assert_eq!(files[1].rel_path, "b/c");
    assert_eq!(files[1].content.as_deref(), Some(&b"C"[..]));
}

#[test]
fn pull_non_existent_path() {
    let mut client = Link::new(marker(6));
    let mut server = Link::new(marker(7));
    client.write_role(Role::Source).unwrap();
    client.write_download_metadata("/nope").unwrap();
    pipe(&mut client, &mut server);

    assert_eq!(server.read_role().unwrap(), Role::Source);
    let req = server.read_download_metadata().unwrap();
    assert_eq!(req.destination, "/nope");
    server.answer_download(&req.destination, None).unwrap();
    pipe(&mut server, &mut client);

    match client.receive_download() {
        Err(Error::DownloadError(m)) => assert_eq!(m, "Path \"/nope\" invalid"),
        other => panic!("unexpected {:?}", other.map(|v| v.len())),
    }
    assert_eq!(invalid_path_message("/nope"), "Path \"/nope\" invalid");
}

#[test]
fn pull_directory() {
    let mut client = Link::new(marker(8)).with_checksum(Some(Checksum::Md5));
    let mut server = Link::new(marker(10));
    client.write_role(Role::Source).unwrap();
    client.write_download_metadata("/srv/d").unwrap();
    pipe(&mut client, &mut server);

    assert_eq!(server.read_role().unwrap(), Role::Source);
    let req = server.read_download_metadata().unwrap();
    assert_eq!(server.checksum(), Some(Checksum::Md5));
    server.answer_download(&req.destination, Some(2)).unwrap();
    server.write_to_stream(b"first", "one").unwrap();
    server.write_to_stream(&content(3 * CHUNK), "sub/two").unwrap();
    pipe(&mut server, &mut client);

    let files = client.receive_download().unwrap();
    assert_eq!(files.len(), 2);
    assert_eq!(files[0].content.as_deref(), Some(&b"first"[..]));
    assert_eq!(files[1].rel_path, "sub/two");
    assert_eq!(files[1].content.as_ref().unwrap(), &content(3 * CHUNK));
}

#[test]
fn integrity_failure_drops_file_and_session_goes_on() {
    let (mut a, mut b) = pair(None, Some(Checksum::Sha256));
    let data = content(3 * CHUNK);
    a.write_to_stream(&data, "broken").unwrap();
    let mut bytes = a.take_outgoing();
    // metadata chunk: digest frame + payload frame
    let meta_len = 4 + 64 + 4 + (8 + "broken".len());
    // first data chunk
    let chunk_len = 4 + 64 + 4 + CHUNK;
    // flip one bit in the payload of the second data frame
    let at = meta_len + chunk_len + 4 + 64 + 4 + 10;
    bytes[at] ^= 0x01;
    b.feed(&bytes);
    a.write_to_stream(b"next", "fine").unwrap();
    pipe(&mut a, &mut b);

    let m = a.marker().to_vec();
    let f = b.read_from_stream(&m).unwrap();
    assert_eq!(f.rel_path, "broken");
    assert!(f.content.is_none());
    // the failed chunk and the rest of the broken file are still on the wire
    loop {
        match b.receive_block(&m) {
            Block::End => break,
            Block::Data(_) => {}
            Block::Failed(e) => panic!("unexpected failure {:?}", e),
        }
    }
    let g = b.read_from_stream(&m).unwrap();
    assert_eq!(g.rel_path, "fine");
    assert_eq!(g.content.as_deref(), Some(&b"next"[..]));
}

#[test]
fn checksum_errors_are_reported() {
    let mut b = Link::new(vec![1]).with_checksum(Some(Checksum::Sha256));
    b.feed(&[0, 0, 0, 0]);
    match b.downstream() {
        Err(Error::IntegrityError(m)) => assert_eq!(m, "checksum bytes not determined"),
        other => panic!("unexpected {:?}", other),
    }
    let mut b = Link::new(vec![1]).with_checksum(Some(Checksum::Md5));
    b.feed(&[0, 0, 0, 1, 0xff, 0, 0, 0, 1, b'x']);
    match b.downstream() {
        Err(Error::IntegrityError(m)) => assert_eq!(m, "unable to parse checksum bytes"),
        other => panic!("unexpected {:?}", other),
    }
    let mut b = Link::new(vec![1]).with_checksum(Some(Checksum::Md5));
    b.feed(&[0, 0, 0, 1, b'a', 0, 0, 0, 1, b'x']);
    match b.downstream() {
        Err(Error::IntegrityError(m)) => assert_eq!(m, "checksum verification failed"),
        other => panic!("unexpected {:?}", other),
    }
}

#[test]
fn short_input_is_an_io_error_and_consumes_nothing() {
    let mut b = Link::new(vec![1]).with_checksum(Some(Checksum::Md5));
    b.feed(&[0, 0, 0, 2, b'a']);
    assert_eq!(b.chunk_needed(), 1);
    assert!(matches!(b.downstream(), Err(Error::IO(_))));
    b.feed(&[b'b', 0, 0]);
    assert_eq!(b.chunk_needed(), 2);
    b.feed(&[0, 3]);
    assert_eq!(b.chunk_needed(), 3);
    assert!(matches!(b.read_role(), Err(Error::Deserialize)));
}

#[test]
fn escaping_path_is_refused() {
    let (mut a, mut b) = pair(None, None);
    a.write_to_stream(b"evil", "../outside").unwrap();
    pipe(&mut a, &mut b);
    let m = a.marker().to_vec();
    assert!(matches!(b.read_from_stream(&m), Err(Error::InvalidRequest(_))));
}

#[test]
fn directory_transfer_of_zero_files() {
    let mut client = Link::new(marker(11));
    let mut server = Link::new(marker(12));
    client.write_role(Role::Sink).unwrap();
    client.write_upload_metadata(0, "/tmp/out").unwrap();
    pipe(&mut client, &mut server);
    assert_eq!(server.read_role().unwrap(), Role::Sink);
    let (meta, files) = server.serve_sink().unwrap();
    assert_eq!(meta.count, 0);
    assert!(files.is_empty());
    assert_eq!(server.frame_needed(), 4);
}

#[test]
fn sink_reads_exactly_the_announced_count() {
    let mut client = Link::new(marker(13)).with_compression(Some(Compression::GZip));
    let mut server = Link::new(marker(14));
    client.write_role(Role::Sink).unwrap();
    client.write_upload_metadata(3, "d").unwrap();
    for i in 0..4u8 {
        client.write_to_stream(&[i; 5], &format!("f{}", i)).unwrap();
    }
    pipe(&mut client, &mut server);
    server.read_role().unwrap();
    let (_, files) = server.serve_sink().unwrap();
    assert_eq!(files.len(), 3);
    // the fourth file is still unread
    let m = client.marker().to_vec();
    let extra = server.read_from_stream(&m).unwrap();
    assert_eq!(extra.rel_path, "f3");
}

#[test]
fn codec_mismatch_fails_metadata_decode() {
    let mut server = Link::new(marker(15));
    let mut bytes = vec![1u8, 0, 0, 0];
    bytes.extend_from_slice(b"/tmp/out");
    let payload = bincode::serialize(&(1u32, "/tmp/out", vec![1u8], Some(7u32), None::<u32>)).unwrap();
    let frame = atilink::framing::write_frame(&payload);
    server.feed(&atilink::framing::write_frame(&Role::Sink.to_bytes()));
    server.feed(&frame);
    assert_eq!(server.read_role().unwrap(), Role::Sink);
    assert!(matches!(server.read_upload_metadata(), Err(Error::Deserialize)));
}

#[test]
fn server_session_receives_announced_files() {
    let mut client = Link::new(marker(20)).with_checksum(Some(Checksum::Sha256));
    let mut server = Link::new(marker(21));
    client.write_role(Role::Sink).unwrap();
    client.write_upload_metadata(2, "/tmp/in").unwrap();
    client.write_to_stream(b"one", "x").unwrap();
    client.write_to_stream(b"two", "y/z").unwrap();
    pipe(&mut client, &mut server);

    let mut session = ServerSession::new();
    assert!(session.needs_frame());
    session.on_frame(&mut server).unwrap();
    assert!(matches!(session, ServerSession::AwaitUpload));
    session.on_frame(&mut server).unwrap();
    let mut got = Vec::new();
    while let ServerSession::Receiving { remaining, destination, marker } = &session {
        assert_eq!(destination, "/tmp/in");
        assert!(*remaining > 0);
        let m = marker.clone();
        got.push(server.read_from_stream(&m).unwrap());
        session.on_file_done();
    }
    assert!(matches!(session, ServerSession::Done));
    assert_eq!(got.len(), 2);
    assert_eq!(got[1].rel_path, "y/z");
    assert_eq!(got[1].content.as_deref(), Some(&b"two"[..]));
}

#[test]
fn server_session_answers_missing_path() {
    let mut client = Link::new(marker(22));
    let mut server = Link::new(marker(23));
    client.write_role(Role::Source).unwrap();
    client.write_download_metadata("/nope").unwrap();
    pipe(&mut client, &mut server);

    let mut session = ServerSession::new();
    session.on_frame(&mut server).unwrap();
    assert!(matches!(session, ServerSession::AwaitDownloadRequest));
    session.on_frame(&mut server).unwrap();
    match &session {
        ServerSession::AwaitListing { requested } => assert_eq!(requested, "/nope"),
        _ => panic!("expected a listing request"),
    }
    session.on_listing(&mut server, Listing::Missing).unwrap();
    assert!(matches!(session, ServerSession::Done));
    pipe(&mut server, &mut client);
    assert!(matches!(client.receive_download(), Err(Error::DownloadError(m)) if m == "Path \"/nope\" invalid"));
}

#[test]
fn server_session_sends_listed_files() {
    let mut client = Link::new(marker(24)).with_compression(Some(Compression::GZip));
    let mut server = Link::new(marker(25));
    client.write_role(Role::Source).unwrap();
    client.write_download_metadata("/srv").unwrap();
    pipe(&mut client, &mut server);

    let mut session = ServerSession::new();
    session.on_frame(&mut server).unwrap();
    session.on_frame(&mut server).unwrap();
    session.on_listing(&mut server, Listing::Directory(2)).unwrap();
    let files = [(&b"alpha"[..], "a"), (&b"beta"[..], "b/c")];
    let mut i = 0;
    while let ServerSession::Sending { .. } = session {
        server.write_to_stream(files[i].0, files[i].1).unwrap();
        session.on_file_done();
        i += 1;
    }
    assert_eq!(i, 2);
    assert!(matches!(session, ServerSession::Done));
    pipe(&mut server, &mut client);
    let got = client.receive_download().unwrap();
    assert_eq!(got.len(), 2);
    assert_eq!(got[0].content.as_deref(), Some(&b"alpha"[..]));
    assert_eq!(got[1].rel_path, "b/c");
}

#[test]
fn server_session_with_zero_files_is_done() {
    let mut client = Link::new(marker(26));
    let mut server = Link::new(marker(27));
    client.write_role(Role::Sink).unwrap();
    client.write_upload_metadata(0, "/tmp/out").unwrap();
    pipe(&mut client, &mut server);
    let mut session = ServerSession::new();
    session.on_frame(&mut server).unwrap();
    session.on_frame(&mut server).unwrap();
    assert!(matches!(session, ServerSession::Done));
}

#[test]
fn client_session_push_announces_then_sends_count_files() {
    let mut client = Link::new(marker(30)).with_checksum(Some(Checksum::Md5));
    let mut server = Link::new(marker(31));
    let mut session = ClientSession::start_push(&mut client, 2, "/tmp/out").unwrap();
    let files = [(&b"A"[..], "a"), (&b"C"[..], "b/c")];
    let mut i = 0;
    while let ClientSession::Sending { remaining } = session {
        assert_eq!(remaining as usize, 2 - i);
        client.write_to_stream(files[i].0, files[i].1).unwrap();
        session.on_file_done();
        i += 1;
    }
    assert_eq!(i, 2);
    assert!(matches!(session, ClientSession::Done));
    pipe(&mut client, &mut server);
    assert_eq!(server.read_role().unwrap(), Role::Sink);
    let (meta, got) = server.serve_sink().unwrap();
    assert_eq!(meta.count, 2);
    assert_eq!(meta.checksum, Some(Checksum::Md5));
    assert_eq!(got[1].rel_path, "b/c");
    assert_eq!(got[1].content.as_deref(), Some(&b"C"[..]));
}

#[test]
fn client_session_push_of_nothing_is_done() {
    let mut client = Link::new(marker(32));
    let session = ClientSession::start_push(&mut client, 0, "d").unwrap();
    assert!(matches!(session, ClientSession::Done));
    let out = client.take_outgoing();
    assert_eq!(&out[..8], &[0, 0, 0, 4, 1, 0, 0, 0]);
}

#[test]
fn client_session_pull_receives_announced_files() {
    let mut client = Link::new(marker(33)).with_compression(Some(Compression::Zlib));
    let mut server = Link::new(marker(34));
    let mut session = ClientSession::start_pull(&mut client, "/srv/d").unwrap();
    assert!(session.needs_answer());
    pipe(&mut client, &mut server);
    server.read_role().unwrap();
    let req = server.read_download_metadata().unwrap();
    assert_eq!(req.destination, "/srv/d");
    server.answer_download(&req.destination, Some(1)).unwrap();
    server.write_to_stream(b"payload", "f").unwrap();
    pipe(&mut server, &mut client);

    session.on_answer(&mut client).unwrap();
    let mut got = Vec::new();
    while let ClientSession::Receiving { marker, .. } = &session {
        let m = marker.clone();
        got.push(client.read_from_stream(&m).unwrap());
        session.on_file_done();
    }
    assert!(matches!(session, ClientSession::Done));
    assert_eq!(got.len(), 1);
    assert_eq!(got[0].content.as_deref(), Some(&b"payload"[..]));
}

#[test]
fn client_session_reports_error_answer() {
    let mut client = Link::new(marker(35));
    let mut server = Link::new(marker(36));
    let mut session = ClientSession::start_pull(&mut client, "/nope").unwrap();
    pipe(&mut client, &mut server);
    server.read_role().unwrap();
    server.read_download_metadata().unwrap();
    server.answer_download("/nope", None).unwrap();
    pipe(&mut server, &mut client);
    match session.on_answer(&mut client) {
        Err(Error::DownloadError(m)) => assert_eq!(m, "Path \"/nope\" invalid"),
        other => panic!("unexpected {:?}", other),
    }
    assert!(session.needs_answer());
}

#[test]
fn server_session_undecodable_upload_is_deserialize() {
    let mut server = Link::new(marker(37));
    server.feed(&atilink::framing::write_frame(&Role::Sink.to_bytes()));
    server.feed(&atilink::framing::write_frame(&[1, 2, 3]));
    let mut session = ServerSession::new();
    session.on_frame(&mut server).unwrap();
    assert!(matches!(session.on_frame(&mut server), Err(Error::Deserialize)));
    assert!(matches!(session, ServerSession::AwaitUpload));
}

#[test]
fn read_from_stream_rejects_escaping_path_with_invalid_request() {
    let (mut a, mut b) = pair(Some(Compression::GZip), Some(Checksum::Sha256));
    a.write_to_stream(b"x", "/etc/passwd").unwrap();
    pipe(&mut a, &mut b);
    let m = a.marker().to_vec();
    assert!(matches!(b.read_from_stream(&m), Err(Error::InvalidRequest(_))));
}

#[test]
fn block_by_block_sending_matches_whole_file_sending() {
    for co in [None, Some(Compression::GZip)] {
        let data = content(2 * CHUNK + 7);
        let mut a = Link::new(marker(40)).with_compression(co).with_checksum(Some(Checksum::Sha256));
        let mut b = Link::new(marker(40)).with_compression(co).with_checksum(Some(Checksum::Sha256));
        a.write_to_stream(&data, "f").unwrap();
        b.write_file_metadata("f").unwrap();
        for block in data.chunks(CHUNK) {
            b.send_block(block).unwrap();
        }
        b.send_block(&[]).unwrap();
        assert_eq!(a.take_outgoing(), b.take_outgoing());
    }
}

#[test]
fn unparsable_digest_fails_before_the_payload_arrives() {
    let mut b = Link::new(vec![1]).with_checksum(Some(Checksum::Sha256));
    b.feed(&[0, 0, 0, 2, 0xff, 0xfe]);
    assert_eq!(b.chunk_needed(), 0);
    match b.downstream() {
        Err(Error::IntegrityError(m)) => assert_eq!(m, "unable to parse checksum bytes"),
        other => panic!("unexpected {:?}", other),
    }
    assert_eq!(b.frame_needed(), 4);
}

#[test]
fn payload_the_decompressor_refuses_is_an_io_error_and_is_consumed() {
    let mut b = Link::new(vec![1]).with_compression(Some(Compression::Zlib));
    b.feed(&atilink::framing::write_frame(b"not zlib"));
    b.feed(&[0, 0]);
    assert!(matches!(b.downstream(), Err(Error::IO(_))));
    assert_eq!(b.frame_needed(), 2);
}

#[test]
fn compressed_file_with_escaping_path_is_invalid_request() {
    let (mut a, mut b) = pair(Some(Compression::Zlib), None);
    a.write_to_stream(b"x", "a/../../x").unwrap();
    pipe(&mut a, &mut b);
    let m = a.marker().to_vec();
    assert!(matches!(b.read_from_stream(&m), Err(Error::InvalidRequest(_))));
}
