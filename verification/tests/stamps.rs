use nanolog::const_fnv1a_hash;
use nanolog::system_time_to_micros;
use nanolog::time::EpochTime;

#[test]
fn fnv1a_known_values() {
    // The offset basis itself, for the empty path.
    assert_eq!(const_fnv1a_hash(""), 14695981039346656037);
    assert_eq!(const_fnv1a_hash("a"), 12638187200555641996);
    assert_eq!(const_fnv1a_hash("src/main.rs"), 16113753218561945244);
}

#[test]
fn fnv1a_is_deterministic() {
    assert_eq!(const_fnv1a_hash("src/lib.rs"), const_fnv1a_hash("src/lib.rs"));
    assert_ne!(const_fnv1a_hash("src/lib.rs"), const_fnv1a_hash("src/lib.r_"));
}

#[test]
fn micros_since_epoch() {
    assert_eq!(system_time_to_micros(EpochTime { secs: 3, subsec_micros: 250 }), 3_000_250);
    assert_eq!(system_time_to_micros(EpochTime { secs: 0, subsec_micros: 0 }), 0);
}
