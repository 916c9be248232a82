use loc_cache::identity::{cache_path, identity};

#[test]
fn identity_is_sha256_hex_of_the_name() {
    assert_eq!(
        identity("abc"),
        "ba7816bf8f01cfea414140de5dae2223b00361a396177a9cb410ff61f20015ad"
    );
}

#[test]
fn identity_of_the_empty_name() {
    assert_eq!(
        identity(""),
        "e3b0c44298fc1c149afbf4c8996fb92427ae41e4649b934ca495991b7852b855"
    );
}

#[test]
fn cache_path_names_the_file_by_identity() {
    assert_eq!(
        cache_path("abc"),
        "cache/ba7816bf8f01cfea414140de5dae2223b00361a396177a9cb410ff61f20015ad.txt"
    );
}
