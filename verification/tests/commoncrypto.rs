use touchhle::commoncrypto::{cc_sha256_intercept, sha256_digest};
use touchhle::mem::Mem;

fn hex(bytes: &[u8]) -> String {
    let mut s = String::new();
    for b in bytes {
        s.push_str(&format!("{:02x}", b));
    }
    s
}

#[test]
fn sha256_of_abc() {
    let d = sha256_digest(b"abc".to_vec());
    assert_eq!(hex(&d), "ba7816bf8f01cfea414140de5dae2223b00361a396177a9cb410ff61f20015ad");
}

#[test]
fn sha256_of_empty_message() {
    let d = sha256_digest(Vec::new());
    assert_eq!(hex(&d), "e3b0c44298fc1c149afbf4c8996fb92427ae41e4649b934ca495991b7852b855");
}

#[test]
fn sha256_of_two_block_message() {
    let msg = b"abcdbcdecdefdefgefghfghighijhijkijkljklmklmnlmnomnopnopq".to_vec();
    let d = sha256_digest(msg);
    assert_eq!(hex(&d), "248d6a61d20638b8e5c026930c3e6039a33ce45964ff2167f6ecedd419db06c1");
}

#[test]
fn sha256_of_message_filling_a_block_with_padding() {
    // 55 bytes: the padding fits in the same block; 56 bytes: it does not.
    let d55 = sha256_digest(vec![b'a'; 55]);
    assert_eq!(hex(&d55), "9f4390f8d30c2dd92ec9f095b65e2b9ae9b0a925a5258e241c9f1e910f734318");
    let d56 = sha256_digest(vec![b'a'; 56]);
    assert_eq!(hex(&d56), "b35439a4ac6f0948b6d6f9e3c6af0f5f590ce20f1bde7090ef7970686ec6738a");
}

#[test]
fn cc_sha256_writes_digest_to_guest_memory() {
    let mut mem = Mem::new(0x1000, 0x100);
    let data = 0x200u32;
    for (i, b) in b"abc".iter().enumerate() {
        mem.write_u8(data + i as u32, *b);
    }
    mem.write_u8(0x2ff, 0x77);
    mem.write_u8(0x320, 0x55);
    let r = cc_sha256_intercept(&mut mem, data, 3, 0x300);
    assert_eq!(r, 0x300);
    let mut out = Vec::new();
    for i in 0..32u32 {
        out.push(mem.read_u8(0x300 + i));
    }
    assert_eq!(hex(&out), "ba7816bf8f01cfea414140de5dae2223b00361a396177a9cb410ff61f20015ad");
    // Bytes around the digest are left alone.
    assert_eq!(mem.read_u8(0x2ff), 0x77);
    assert_eq!(mem.read_u8(0x320), 0x55);
}
