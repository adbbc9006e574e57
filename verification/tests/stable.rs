use relayout::stable::{StabilityProvider, StableId};

fn run(provider: &mut StabilityProvider, keys: &[u128]) -> Vec<StableId> {
    keys.iter().map(|key| provider.identify(*key)).collect()
}

#[test]
fn slots_count_earlier_calls_with_the_same_key() {
    let (k1, k2) = (11u128, 22u128);
    let mut provider = StabilityProvider::new();
    let ids = run(&mut provider, &[k1, k1, k2, k1]);
    assert_eq!(ids, vec![StableId(k1, 0), StableId(k1, 1), StableId(k2, 0), StableId(k1, 2)]);
    assert_eq!(ids[3].fingerprint(), k1);
    assert_eq!(ids[3].slot(), 2);
}

#[test]
fn a_fresh_pass_hands_out_the_same_identities() {
    let keys = [5u128, 5, 9, 5, 9, u128::MAX, 0, 0];
    let first = run(&mut StabilityProvider::new(), &keys);
    let second = run(&mut StabilityProvider::new(), &keys);
    assert_eq!(first, second);
    for i in 0..first.len() {
        for j in 0..i {
            assert_ne!(first[i], first[j]);
        }
    }
}

#[test]
fn next_slot_tells_what_identify_returns() {
    let mut provider = StabilityProvider::new();
    assert_eq!(provider.next_slot(3), 0);
    assert_eq!(provider.identify(3), StableId(3, 0));
    assert_eq!(provider.next_slot(3), 1);
    assert_eq!(provider.next_slot(4), 0);
    assert_eq!(provider.identify(3), StableId(3, 1));
    assert_eq!(provider.next_slot(3), 2);
}

#[test]
fn a_copy_of_a_provider_counts_on_its_own() {
    let mut provider = StabilityProvider::new();
    provider.identify(1);
    let mut copy = provider.clone();
    assert_eq!(copy.identify(1), StableId(1, 1));
    assert_eq!(provider.identify(1), StableId(1, 1));
}

#[test]
fn stable_ids_are_equal_when_both_parts_are() {
    assert_eq!(StableId(1, 2), StableId(1, 2));
    assert_ne!(StableId(1, 2), StableId(1, 3));
    assert_ne!(StableId(1, 2), StableId(2, 2));
}
