use naive_bayes::bignat::BigNat;
use naive_bayes::lexicon::Lexicon;
use naive_bayes::tally::{checked_total, copy_counts};

fn same(a: &BigNat, b: &BigNat) -> bool {
    !a.exceeds(b) && !b.exceeds(a)
}

#[test]
fn bignat_orders_small_numbers() {
    let zero = BigNat::from_u64(0);
    let one = BigNat::from_u64(1);
    let big = BigNat::from_u64(u64::MAX);
    assert!(one.exceeds(&zero));
    assert!(!zero.exceeds(&one));
    assert!(!one.exceeds(&one));
    assert!(big.exceeds(&one));
    assert!(BigNat::from_u64(1 << 32).exceeds(&BigNat::from_u64((1 << 32) - 1)));
    assert!(same(&zero, &BigNat::from_u64(0)));
}

#[test]
fn bignat_multiplies_by_a_sum() {
    let twelve = BigNat::from_u64(3).times_sum(2, 2);
    assert!(same(&twelve, &BigNat::from_u64(12)));
    assert!(same(&BigNat::from_u64(7).times_sum(0, 0), &BigNat::from_u64(0)));
    assert!(same(&BigNat::from_u64(0).times_sum(5, 6), &BigNat::from_u64(0)));
    assert!(same(&BigNat::from_u64(7).times_sum(1, 0), &BigNat::from_u64(7)));
    assert!(same(&BigNat::from_u64(7).times_sum(0, 1), &BigNat::from_u64(7)));
}

#[test]
fn bignat_takes_the_sum_without_overflow() {
    // x * (MAX + MAX) is x * MAX twice over.
    let x = BigNat::from_u64(0xdead_beef_0123_4567);
    let doubled = x.times_sum(u64::MAX, u64::MAX);
    let by_steps = x.times_sum(u64::MAX, 0).times_sum(1, 1);
    assert!(same(&doubled, &by_steps));
    assert!(doubled.exceeds(&x.times_sum(u64::MAX, u64::MAX - 1)));
    assert!(x.times_sum(u64::MAX, 1).exceeds(&x.times_sum(u64::MAX, 0)));
}

#[test]
fn bignat_grows_past_machine_words() {
    // 2^64 * 2^64 = (2^32)^4, and 3^200 against 5^137: log 3^200 = 219.7, log 5^137 = 220.5.
    let mut two_64 = BigNat::from_u64(1 << 32).times_sum(1 << 32, 0);
    assert!(two_64.exceeds(&BigNat::from_u64(u64::MAX)));
    two_64 = two_64.times_sum(u64::MAX, 1);
    let mut by_words = BigNat::from_u64(1);
    for _ in 0..4 {
        by_words = by_words.times_sum(1 << 32, 0);
    }
    assert!(same(&two_64, &by_words));
    let mut three = BigNat::from_u64(1);
    for _ in 0..200 {
        three = three.times_sum(2, 1);
    }
    let mut five = BigNat::from_u64(1);
    for _ in 0..137 {
        five = five.times_sum(5, 0);
    }
    assert!(five.exceeds(&three));
    assert!(!three.exceeds(&five));
    assert!(three.times_sum(3, 0).exceeds(&five));
}

#[test]
fn bignat_product_does_not_depend_on_order() {
    let factors = [3u64, u64::MAX, 1 << 40, 17, 0xffff_ffff, 999_999_937];
    let mut up = BigNat::from_u64(1);
    for f in factors {
        up = up.times_sum(f, 0);
    }
    let mut down = BigNat::from_u64(1);
    for f in factors.iter().rev() {
        down = down.times_sum(0, *f);
    }
    assert!(same(&up, &down));
}

#[test]
fn lexicon_keeps_first_positions() {
    let mut lexicon = Lexicon::new();
    assert_eq!(lexicon.len(), 0);
    assert_eq!(lexicon.position("a"), None);
    assert_eq!(lexicon.intern("a"), 0);
    assert_eq!(lexicon.intern("b"), 1);
    assert_eq!(lexicon.intern("a"), 0);
    assert_eq!(lexicon.intern(""), 2);
    assert_eq!(lexicon.len(), 3);
    assert_eq!(lexicon.position("b"), Some(1));
    assert_eq!(lexicon.position(""), Some(2));
    assert_eq!(lexicon.position("c"), None);
    assert_eq!(lexicon.word(1), "b");
    assert_eq!(lexicon.to_words(), vec!["a".to_string(), "b".to_string(), "".to_string()]);
}

#[test]
fn lexicon_from_words_refuses_duplicates() {
    let words = vec!["x".to_string(), "y".to_string(), "z".to_string()];
    let lexicon = match Lexicon::from_words(&words) {
        Some(lexicon) => lexicon,
        None => panic!("distinct words were refused"),
    };
    assert_eq!(lexicon.to_words(), words);
    assert_eq!(lexicon.position("z"), Some(2));
    let twice = vec!["x".to_string(), "y".to_string(), "x".to_string()];
    assert!(Lexicon::from_words(&twice).is_none());
    assert!(Lexicon::from_words(&vec![]).is_some());
}

#[test]
fn checked_total_adds_or_gives_up() {
    assert_eq!(checked_total(&vec![]), Some(0));
    assert_eq!(checked_total(&vec![1, 2, 3]), Some(6));
    assert_eq!(checked_total(&vec![u64::MAX, 0]), Some(u64::MAX));
    assert_eq!(checked_total(&vec![u64::MAX, 1]), None);
    assert_eq!(checked_total(&vec![1 << 63, 1 << 63]), None);
}

#[test]
fn copy_counts_copies() {
    assert_eq!(copy_counts(&vec![4, 0, 9]), vec![4, 0, 9]);
    assert_eq!(copy_counts(&vec![]), Vec::<u64>::new());
}
