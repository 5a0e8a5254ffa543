use lau_evolution::seed::{rand_bucket, RAND_BUCKETS};

#[test]
fn rand_bucket_empty_seed() {
    assert_eq!(rand_bucket(""), 1);
}

#[test]
fn rand_bucket_short_seeds() {
    assert_eq!(rand_bucket("a"), 128);
    assert_eq!(rand_bucket("ab"), 4066);
    assert_eq!(rand_bucket("r1"), 4544);
}

#[test]
fn rand_bucket_reduces_modulo() {
    // hash("strong") = 4290490840, hash("forest_1") = 3761051124624
    assert_eq!(rand_bucket("strong"), 840);
    assert_eq!(rand_bucket("weak"), 8825);
    assert_eq!(rand_bucket("forest_1"), 4624);
}

#[test]
fn rand_bucket_wraps_on_long_seeds() {
    // hash = 15156976053775988334 after wrapping
    assert_eq!(rand_bucket("abcdefghijklmnopqrstuvwxyz"), 8334);
    assert_eq!(rand_bucket("room_with_a_rather_long_identifier"), 2705);
}

#[test]
fn rand_bucket_hashes_utf8_bytes() {
    assert_eq!(rand_bucket("é"), 7175);
}

#[test]
fn rand_bucket_is_deterministic_and_in_range() {
    for seed in ["x", "forest_1", "desert_1", "ocean_1", "volcano_1"] {
        let b = rand_bucket(seed);
        assert_eq!(b, rand_bucket(&seed.to_string()));
        assert!(b < RAND_BUCKETS);
        let jitter = (b as f64 / RAND_BUCKETS as f64 - 0.5) * 0.1;
        assert!((-0.05..0.05).contains(&jitter));
    }
}
