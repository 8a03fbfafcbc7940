use amm::key::Pubkey;

fn key_of(first: u8, last: u8) -> Pubkey {
    let mut bytes = [0u8; 32];
    bytes[0] = first;
    bytes[31] = last;
    Pubkey::new(bytes)
}

#[test]
fn keys_with_the_same_bytes_are_the_same() {
    assert!(key_of(1, 2).same_as(&key_of(1, 2)));
    assert!(!key_of(1, 2).same_as(&key_of(1, 3)));
    assert!(!key_of(1, 2).same_as(&key_of(2, 2)));
    assert_eq!(key_of(9, 8).to_bytes()[0], 9);
    assert_eq!(key_of(9, 8).to_bytes()[31], 8);
}

#[test]
fn keys_are_ordered_by_their_first_difference() {
    assert!(key_of(1, 9).precedes(&key_of(2, 0)));
    assert!(!key_of(2, 0).precedes(&key_of(1, 9)));
    assert!(key_of(1, 2).precedes(&key_of(1, 3)));
    assert!(!key_of(1, 3).precedes(&key_of(1, 2)));
    assert!(key_of(0, 0).precedes(&key_of(0, 255)));
}

#[test]
fn no_key_precedes_itself() {
    assert!(!key_of(5, 5).precedes(&key_of(5, 5)));
    assert!(!key_of(0, 0).precedes(&key_of(0, 0)));
}

#[test]
fn of_two_distinct_keys_exactly_one_precedes() {
    let keys = [key_of(0, 0), key_of(0, 1), key_of(1, 0), key_of(200, 7), key_of(255, 255)];
    for a in keys.iter() {
        for b in keys.iter() {
            if a.same_as(b) {
                assert!(!a.precedes(b) && !b.precedes(a));
            } else {
                assert!(a.precedes(b) != b.precedes(a));
            }
        }
    }
}
