//! Basic smoke tests.

use crypto::digest::Digest;
use crypto::sha2::Sha256;
use rand::Rng;

fn add_two(a: i32) -> i32 {
    a + 2
}

#[test]
fn fun_test() {
    (0..1000).fold(0, |acc, x| acc ^ x);
}

#[test]
fn it_works() {
    assert_eq!(4, add_two(2));
}

#[test]
fn test_sha256() {
    let size: usize = 32;

    let data: Vec<u8> = Vec::with_capacity(size);
    let mut coded: Vec<u8> = Vec::with_capacity(size);

    let mut rng = rand::thread_rng();

    for _ in 0..size {
        coded.push(rng.gen_range(0..255u8));
    }

    let mut sha = Sha256::new();

    sha.input(data.as_slice());
    sha.result(coded.as_mut_slice());

    let data_string = match String::from_utf8(data) {
        Ok(v) => v,
        Err(e) => panic!("{}", e),
    };

    println!("String: {:?}", data_string);
    println!("Hash: {:?}", sha.result_str());
}
