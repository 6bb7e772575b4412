use hashsum::hash_algorithm::sha1::SHA1Context;
use hashsum::hash_algorithm::sha1::SHA1;

#[test]
fn sha1_empty_hash() {
    let test_vec = Vec::new();

    assert_eq!(
        SHA1::hash_slice(&test_vec),
        "da39a3ee5e6b4b0d3255bfef95601890afd80709"
    );
}

#[test]
fn sha1_rfc_hash_suite() {
    let mut test_vec = Vec::new();
    test_vec.extend_from_slice("abc".as_bytes());

    assert_eq!(
        SHA1::hash_slice(&test_vec),
        "a9993e364706816aba3e25717850c26c9cd0d89d"
    );

    test_vec.clear();
    test_vec.extend_from_slice("abcdbcdecdefdefgefghfghighijhi".as_bytes());

    assert_eq!(
        SHA1::hash_slice(&test_vec),
        "f9537c23893d2014f365adf8ffe33b8eb0297ed1"
    );

    test_vec.clear();
    test_vec.extend_from_slice("jkijkljklmklmnlmnomnopnopq".as_bytes());

    assert_eq!(
        SHA1::hash_slice(&test_vec),
        "346fb528a24b48f563cb061470bcfd23740427ad"
    );

    test_vec.clear();
    test_vec.extend_from_slice("a".as_bytes());

    assert_eq!(
        SHA1::hash_slice(&test_vec),
        "86f7e437faa5a7fce15d1ddcb9eaeaea377667b8"
    );

    test_vec.clear();
    test_vec.extend_from_slice("01234567012345670123456701234567".as_bytes());

    assert_eq!(
        SHA1::hash_slice(&test_vec),
        "c729c8996ee0a6f74f4f3248e8957edf704fb624"
    );
}

#[test]
fn sha1_million_a_exact_multiple_of_block() {
    let m = vec![b'a'; 1_000_000];
    assert_eq!(m.len() % 64, 0);
    assert_eq!(
        SHA1::hash_slice(&m),
        "34aa973cd4c4daa4f61eeb2bdbad27316534016f"
    );
}

#[test]
fn sha1_digest_is_fixed_width_lowercase() {
    for len in [0usize, 1, 55, 56, 63, 64, 65, 119, 120, 128, 1000] {
        let m: Vec<u8> = (0..len).map(|i| (i * 7 % 256) as u8).collect();
        let d = SHA1::hash_slice(&m);
        assert_eq!(d.len(), 40);
        assert!(d.chars().all(|c| c.is_ascii_digit() || ('a'..='f').contains(&c)));
        assert_eq!(d, SHA1::hash_slice(&m));
    }
}

fn sha1_by_blocks(m: &[u8]) -> (String, usize) {
    let mut context = SHA1Context::default();
    let mut calls = 0usize;
    let mut rest = m;
    while rest.len() >= 64 {
        context = SHA1::hash_block(context, &rest[..64]);
        calls += 1;
        rest = &rest[64..];
    }
    context = SHA1::hash_block(context, rest);
    calls += 1;
    if context.digest().is_none() {
        context = SHA1::hash_block(context, &[]);
        calls += 1;
    }
    (context.digest().unwrap(), calls)
}

#[test]
fn sha1_blockwise_matches_slice() {
    for len in [0usize, 3, 55, 56, 60, 63, 64, 100, 128, 190, 500] {
        let m: Vec<u8> = (0..len).map(|i| (i * 13 % 251) as u8).collect();
        let (d, _) = sha1_by_blocks(&m);
        assert_eq!(d, SHA1::hash_slice(&m));
    }
}

#[test]
fn sha1_stream_chunks_match_slice() {
    for len in [0usize, 10, 56, 63, 64, 127, 128, 300] {
        let m: Vec<u8> = (0..len).map(|i| (i * 31 % 256) as u8).collect();
        let mut context = SHA1Context::default();
        let mut rest: &[u8] = &m;
        let digest = loop {
            let n = rest.len().min(64);
            let (next, d) = SHA1::hash_stream_chunk(context, &rest[..n]);
            rest = &rest[n..];
            context = next;
            if let Some(d) = d {
                break d;
            }
        };
        assert_eq!(digest, SHA1::hash_slice(&m));
    }
}

#[test]
fn sha1_boundary_needs_second_padding_block() {
    let m = b"abcdbcdecdefdefgefghfghighijhijkijkljklmklmnlmnomnopnopq";
    assert_eq!(m.len(), 56);
    let context = SHA1::hash_block(SHA1Context::default(), m);
    assert!(context.digest().is_none());
    let context = SHA1::hash_block(context, &[]);
    assert_eq!(
        context.digest().unwrap(),
        "84983e441c3bd26ebaae4aa1f95129e5e54670f1"
    );
    for tail in 56..64usize {
        let m: Vec<u8> = (0..128 + tail).map(|i| i as u8).collect();
        let (d, calls) = sha1_by_blocks(&m);
        assert_eq!(calls, 4);
        assert_eq!(d, SHA1::hash_slice(&m));
    }
    for tail in 0..56usize {
        let m: Vec<u8> = (0..128 + tail).map(|i| i as u8).collect();
        let (_, calls) = sha1_by_blocks(&m);
        assert_eq!(calls, 3);
    }
}

#[test]
fn sha1_digest_renders_the_same_twice() {
    let context = SHA1::hash_block(SHA1Context::default(), b"abc");
    assert_eq!(context.digest(), context.digest());
    assert_eq!(
        context.digest().unwrap(),
        "a9993e364706816aba3e25717850c26c9cd0d89d"
    );
}

#[test]
fn sha1_full_block_yields_no_digest() {
    let block = [0x61u8; 64];
    let context = SHA1::hash_block(SHA1Context::default(), &block);
    assert!(context.digest().is_none());
    let (_, d) = SHA1::hash_stream_chunk(SHA1Context::default(), &block);
    assert!(d.is_none());
}
