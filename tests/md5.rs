use hashsum::hash_algorithm::md5::MD5Context;
use hashsum::hash_algorithm::md5::MD5;

#[test]
fn md5_empty_hash() {
    let mut test_vec = Vec::new();

    assert_eq!(
        MD5::hash_data(&mut test_vec),
        "D41D8CD98F00B204E9800998ECF8427E".to_lowercase()
    );
}

#[test]
fn md5_rfc_hash_suite() {
    let mut test_vec = Vec::new();
    test_vec.extend_from_slice("a".as_bytes());

    assert_eq!(
        MD5::hash_data(&mut test_vec),
        "0CC175B9C0F1B6A831C399E269772661".to_lowercase()
    );

    test_vec.clear();
    test_vec.extend_from_slice("abc".as_bytes());

    assert_eq!(
        MD5::hash_data(&mut test_vec),
        "900150983CD24FB0D6963F7D28E17F72".to_lowercase()
    );

    test_vec.clear();
    test_vec.extend_from_slice("message digest".as_bytes());

    assert_eq!(
        MD5::hash_data(&mut test_vec),
        "F96B697D7CB7938D525A2F31AAF161D0".to_lowercase()
    );

    test_vec.clear();
    test_vec.extend_from_slice("abcdefghijklmnopqrstuvwxyz".as_bytes());

    assert_eq!(
        MD5::hash_data(&mut test_vec),
        "C3FCD3D76192E4007DFB496CCA67E13B".to_lowercase()
    );

    test_vec.clear();
    test_vec.extend_from_slice(
        "ABCDEFGHIJKLMNOPQRSTUVWXYZabcdefghijklmnopqrstuvwxyz0123456789".as_bytes(),
    );

    assert_eq!(
        MD5::hash_data(&mut test_vec),
        "D174AB98D277D9F5A5611C2C9F419D9F".to_lowercase()
    );

    test_vec.clear();
    test_vec.extend_from_slice(
        "12345678901234567890123456789012345678901234567890123456789012345678901234567890"
            .as_bytes(),
    );

    assert_eq!(
        MD5::hash_data(&mut test_vec),
        "57EDF4A22BE3C955AC49DA2E2107B67A".to_lowercase()
    );
}

#[test]
fn md5_hash_data_leaves_message_unchanged() {
    let mut v = b"abc".to_vec();
    let _ = MD5::hash_data(&mut v);
    assert_eq!(v, b"abc".to_vec());
}

#[test]
fn md5_hash_slice_known_vectors() {
    assert_eq!(MD5::hash_slice(b""), "d41d8cd98f00b204e9800998ecf8427e");
    assert_eq!(MD5::hash_slice(b"abc"), "900150983cd24fb0d6963f7d28e17f72");
    assert_eq!(
        MD5::hash_slice(
            b"12345678901234567890123456789012345678901234567890123456789012345678901234567890"
        ),
        "57edf4a22be3c955ac49da2e2107b67a"
    );
}

#[test]
fn md5_million_a_exact_multiple_of_block() {
    let m = vec![b'a'; 1_000_000];
    assert_eq!(m.len() % 64, 0);
    assert_eq!(MD5::hash_slice(&m), "7707d6ae4e027c70eea2a935c2296f21");
}

#[test]
fn md5_digest_is_fixed_width_lowercase() {
    for len in [0usize, 1, 55, 56, 63, 64, 65, 119, 120, 128, 1000] {
        let m: Vec<u8> = (0..len).map(|i| (i * 7 % 256) as u8).collect();
        let d = MD5::hash_slice(&m);
        assert_eq!(d.len(), 32);
        assert!(d.chars().all(|c| c.is_ascii_digit() || ('a'..='f').contains(&c)));
        assert_eq!(d, MD5::hash_slice(&m));
    }
}

fn md5_by_blocks(m: &[u8]) -> (String, usize) {
    let mut context = MD5Context::default();
    let mut calls = 0usize;
    let mut rest = m;
    while rest.len() >= 64 {
        context = MD5::hash_block(context, &rest[..64]);
        calls += 1;
        rest = &rest[64..];
    }
    context = MD5::hash_block(context, rest);
    calls += 1;
    if context.digest().is_none() {
        context = MD5::hash_block(context, &[]);
        calls += 1;
    }
    (context.digest().unwrap(), calls)
}

#[test]
fn md5_blockwise_matches_slice() {
    for len in [0usize, 3, 55, 56, 60, 63, 64, 100, 128, 190, 500] {
        let m: Vec<u8> = (0..len).map(|i| (i * 13 % 251) as u8).collect();
        let (d, _) = md5_by_blocks(&m);
        assert_eq!(d, MD5::hash_slice(&m));
    }
}

#[test]
fn md5_stream_chunks_match_slice() {
    for len in [0usize, 10, 56, 63, 64, 127, 128, 300] {
        let m: Vec<u8> = (0..len).map(|i| (i * 31 % 256) as u8).collect();
        let mut context = MD5Context::default();
        let mut rest: &[u8] = &m;
        let digest = loop {
            let n = rest.len().min(64);
            let (next, d) = MD5::hash_stream_chunk(context, &rest[..n]);
            rest = &rest[n..];
            context = next;
            if let Some(d) = d {
                break d;
            }
        };
        assert_eq!(digest, MD5::hash_slice(&m));
    }
}

#[test]
fn md5_boundary_needs_second_padding_block() {
    let m = b"ABCDEFGHIJKLMNOPQRSTUVWXYZabcdefghijklmnopqrstuvwxyz0123456789";
    assert_eq!(m.len(), 62);
    let context = MD5::hash_block(MD5Context::default(), m);
    assert!(context.digest().is_none());
    let context = MD5::hash_block(context, &[]);
    assert_eq!(
        context.digest().unwrap(),
        "d174ab98d277d9f5a5611c2c9f419d9f"
    );
    for tail in 56..64usize {
        let m: Vec<u8> = (0..64 + tail).map(|i| i as u8).collect();
        let (d, calls) = md5_by_blocks(&m);
        assert_eq!(calls, 3);
        assert_eq!(d, MD5::hash_slice(&m));
    }
    for tail in 0..56usize {
        let m: Vec<u8> = (0..64 + tail).map(|i| i as u8).collect();
        let (_, calls) = md5_by_blocks(&m);
        assert_eq!(calls, 2);
    }
}

#[test]
fn md5_digest_renders_the_same_twice() {
    let context = MD5::hash_block(MD5Context::default(), b"abc");
    assert_eq!(context.digest(), context.digest());
    assert_eq!(
        context.digest().unwrap(),
        "900150983cd24fb0d6963f7d28e17f72"
    );
}

#[test]
fn md5_full_block_yields_no_digest() {
    let block = [0x61u8; 64];
    let context = MD5::hash_block(MD5Context::default(), &block);
    assert!(context.digest().is_none());
    let (_, d) = MD5::hash_stream_chunk(MD5Context::default(), &block);
    assert!(d.is_none());
}
