use qoi::{Pixel, State};

#[test]
fn new_state_is_the_start_of_a_stream() {
    let state = State::new();

    assert_eq!(state.cache.len(), 64);
    assert!(state.cache.iter().all(|p| *p == Pixel { r: 0, g: 0, b: 0, a: 0 }));
    assert_eq!(state.prev_pixel, Pixel { r: 0, g: 0, b: 0, a: 255 });
    assert_eq!(state.run_count, 0);
}

#[test]
fn cache_insert_overwrites_the_slot_of_the_hash() {
    let mut state = State::new();
    let pixel = Pixel { r: 101, g: 102, b: 103, a: 104 };
    // The same slot: 64 * 3 more in the hash.
    let other = Pixel { r: 165, g: 102, b: 103, a: 104 };

    state.cache_insert(pixel);
    assert_eq!(state.cache[54], pixel);
    state.cache_insert(other);
    assert_eq!(state.cache[54], other);

    for (slot, cached) in state.cache.iter().enumerate() {
        if slot != 54 {
            assert_eq!(*cached, Pixel { r: 0, g: 0, b: 0, a: 0 });
        }
    }
    assert_eq!(state.prev_pixel, Pixel::default());
    assert_eq!(state.run_count, 0);
}

#[test]
fn cache_match_or_replace_hits_or_replaces() {
    let mut state = State::new();
    let pixel = Pixel { r: 101, g: 102, b: 103, a: 104 };
    let other = Pixel { r: 165, g: 102, b: 103, a: 104 };

    // A miss: the pixel takes the slot.
    assert_eq!(state.cache_match_or_replace(pixel), None);
    assert_eq!(state.cache[54], pixel);
    // A hit: the slot is named and nothing changes.
    assert_eq!(state.cache_match_or_replace(pixel), Some(54));
    assert_eq!(state.cache[54], pixel);
    // The last writer wins.
    assert_eq!(state.cache_match_or_replace(other), None);
    assert_eq!(state.cache[54], other);
    assert_eq!(state.cache_match_or_replace(pixel), None);
    assert_eq!(state.cache_match_or_replace(pixel), Some(54));
}

#[test]
fn transparent_black_is_in_the_cache_from_the_start() {
    let mut state = State::new();

    assert_eq!(state.cache_match_or_replace(Pixel { r: 0, g: 0, b: 0, a: 0 }), Some(0));
    // Opaque black, the first previous pixel, is not.
    assert_eq!(state.cache_match_or_replace(Pixel::default()), None);
    assert_eq!(state.cache_match_or_replace(Pixel::default()), Some(53));
}
