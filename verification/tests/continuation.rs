use multiway::continuation::postflop_continuation_action;
use multiway::types::Street;
use rand::{Rng, RngCore, SeedableRng};
use rand_chacha::ChaCha20Rng;

#[test]
fn postflop_continuation_preserves_uniform_fallback_draws_and_validates_menus() {
    for (street, labels) in [
        (Street::Preflop, vec!["fold", "call:10", "raise-to:30"]),
        (Street::Turn, vec!["fold", "raise-to:30"]),
    ] {
        let labels = labels.into_iter().map(str::to_string).collect::<Vec<_>>();
        for seed in 0..64 {
            let mut actual = ChaCha20Rng::seed_from_u64(seed);
            let mut expected = actual.clone();
            assert_eq!(
                postflop_continuation_action(street, &labels, &mut actual).unwrap(),
                expected.gen_range(0..labels.len())
            );
            assert_eq!(actual.next_u64(), expected.next_u64());
        }
    }
    let labels = ["fold", "check", "call:10", "raise-to:30"].map(str::to_string);
    let mut counts = [0_u32; 4];
    let mut rng = ChaCha20Rng::seed_from_u64(123456);
    for _ in 0..16384 {
        counts[postflop_continuation_action(Street::Flop, &labels, &mut rng).unwrap()] += 1;
    }
    for (count, expected) in counts.into_iter().zip([0.125, 0.375, 0.375, 0.125]) {
        assert!((count as f64 / 16384.0 - expected).abs() < 0.02);
    }
    for labels in [
        vec![],
        vec!["".into()],
        vec!["check".into(), "check".into()],
    ] {
        let labels: Vec<String> = labels;
        let mut rng = ChaCha20Rng::seed_from_u64(1);
        let mut before = rng.clone();
        assert!(postflop_continuation_action(Street::Flop, &labels, &mut rng).is_err());
        assert_eq!(rng.next_u64(), before.next_u64());
    }
}

#[test]
fn river_menu_with_only_passive_actions_falls_back_to_one_uniform_draw() {
    let labels = ["check", "call:20"].map(str::to_string);
    for seed in 0..32 {
        let mut actual = ChaCha20Rng::seed_from_u64(seed);
        let mut expected = actual.clone();
        assert_eq!(
            postflop_continuation_action(Street::River, &labels, &mut actual).unwrap(),
            expected.gen_range(0..2)
        );
        assert_eq!(actual.next_u64(), expected.next_u64());
    }
}

#[test]
fn only_check_and_call_colon_labels_are_passive() {
    // Neither "called" nor "call" is a passive label, so this flop menu has
    // no passive action and falls back to one uniform draw.
    let labels = ["fold", "call", "called", "raise-to:30"].map(str::to_string);
    for seed in 0..32 {
        let mut actual = ChaCha20Rng::seed_from_u64(seed);
        let mut expected = actual.clone();
        assert_eq!(
            postflop_continuation_action(Street::Flop, &labels, &mut actual).unwrap(),
            expected.gen_range(0..4)
        );
        assert_eq!(actual.next_u64(), expected.next_u64());
    }
    // With "call:5" present the mixture applies: a first draw below three
    // picks the only passive action.
    let labels = ["fold", "call:5", "raise-to:30"].map(str::to_string);
    for seed in 0..32 {
        let mut actual = ChaCha20Rng::seed_from_u64(seed);
        let mut expected = actual.clone();
        let coin: u64 = expected.gen_range(0..4);
        let action = postflop_continuation_action(Street::Flop, &labels, &mut actual).unwrap();
        if coin < 3 {
            assert_eq!(action, 1);
            let _: u64 = expected.gen_range(0..1);
        } else {
            let other: u64 = expected.gen_range(0..2);
            assert_eq!(action, [0, 2][other as usize]);
        }
        assert_eq!(actual.next_u64(), expected.next_u64());
    }
}
