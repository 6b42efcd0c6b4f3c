use rusty_blocks::rsg::{RSG, TSR};

#[test]
fn peek_shows_what_the_next_draw_hands_out() {
    let mut generator = TSR::new(7, 20240229);
    for _ in 0..500 {
        let peeked = generator.next();
        assert_eq!(peeked, generator.next());
        assert!(peeked < 7);
        assert_eq!(peeked, generator.get());
    }
}

#[test]
fn every_index_lies_below_the_piece_count() {
    for count in 1..20 {
        let mut generator = TSR::new(count, count as u64);
        for _ in 0..200 {
            assert!(generator.get() < count);
            assert!(generator.next() < count);
        }
    }
}

#[test]
fn a_single_piece_is_always_drawn() {
    let mut generator = TSR::new(1, 5);
    for _ in 0..50 {
        assert_eq!(0, generator.next());
        assert_eq!(0, generator.get());
    }
}

#[test]
fn every_piece_is_drawn_sooner_or_later() {
    let mut generator = TSR::new(7, 99);
    let mut seen = [false; 7];
    for _ in 0..5000 {
        seen[generator.get()] = true;
    }
    assert_eq!([true; 7], seen);
}

#[test]
fn resumed_generator_stays_in_range() {
    let mut generator = TSR::resume(5);
    for _ in 0..200 {
        let peeked = generator.next();
        assert!(peeked < 5);
        assert_eq!(peeked, generator.get());
    }
}

#[test]
fn generator_over_no_pieces_does_not_fail() {
    let mut generator = TSR::new(0, 1);
    let peeked = generator.next();
    assert_eq!(peeked, generator.get());
}

#[test]
fn generator_hands_out_what_it_was_started_with() {
    let mut generator = TSR::starting_with(7, 3);
    assert_eq!(3, generator.next());
    assert_eq!(3, generator.next());
    assert_eq!(3, generator.advance(5));
    assert_eq!(5, generator.next());
    assert_eq!(5, generator.advance(0));
    assert_eq!(0, generator.advance(6));
    assert_eq!(6, generator.next());
    let drawn = generator.get();
    assert_eq!(6, drawn);
    assert!(generator.next() < 7);
}
