use rtl_sdr_gnss::gps::nav_message::NavMessage;

#[test]
fn test_nav_message_creation() {
    let nav_msg = NavMessage::new(1);
    assert_eq!(nav_msg.prn(), 1);
    assert!(!nav_msg.is_complete());
}

#[test]
fn nav_message_test_preamble_detection() {
    let mut nav_msg = NavMessage::new(1);
    let preamble = vec![1, 0, 0, 0, 1, 0, 1, 1];

    for &bit in &preamble {
        nav_msg.add_bit(bit);
    }

    assert!(nav_msg.is_preamble_at_offset(0));
}

/// Ten 30-bit words of a subframe with the given ID: TLM word opening with
/// the preamble, HOW carrying a TOW count and the ID, then payload words.
fn subframe(id: u32, seed: u32) -> Vec<u32> {
    let mut words = vec![0x8B << 22];
    words.push((1234 << 13) | (id << 8));
    for k in 2..10u32 {
        // Payload words without a preamble pattern at any position.
        words.push((seed * 31 + k) & 0x3FF);
    }
    words
}

fn word_bits(w: u32) -> Vec<i8> {
    (0..30).rev().map(|i| ((w >> i) & 1) as i8).collect()
}

fn feed(nav: &mut NavMessage, words: &[u32]) {
    for &w in words {
        for b in word_bits(w) {
            nav.add_bit(b);
        }
    }
}

#[test]
fn nav_message_decodes_subframes_into_their_slots() {
    let mut nav = NavMessage::new(7);
    let sfs: Vec<Vec<u32>> = (1..=5).map(|id| subframe(id, id + 10)).collect();
    for sf in &sfs {
        feed(&mut nav, sf);
    }
    // A few more bits so that the last subframe is searched as well.
    for _ in 0..2 {
        nav.add_bit(0);
    }
    assert!(nav.is_complete());
    let mut expected = sfs[0].clone();
    expected.extend(&sfs[1]);
    expected.extend(&sfs[2]);
    assert_eq!(nav.get_ephemeris(), Some(expected));
    assert_eq!(nav.get_almanac(), Some(sfs[3].clone()));
}

#[test]
fn nav_message_incomplete_without_subframe_three() {
    let mut nav = NavMessage::new(3);
    feed(&mut nav, &subframe(1, 1));
    feed(&mut nav, &subframe(2, 2));
    feed(&mut nav, &subframe(5, 3));
    // Subframe 5 is searched once the window has moved past subframe 2.
    nav.add_bit(0);
    nav.add_bit(0);
    assert!(!nav.is_complete());
    assert_eq!(nav.get_ephemeris(), None);
    // Subframe 5 stands in for the almanac when subframe 4 is missing.
    assert_eq!(nav.get_almanac(), Some(subframe(5, 3)));
}

#[test]
fn nav_message_decodes_a_subframe_at_300_bits() {
    let mut bits = vec![0i8; 300];
    bits[..8].copy_from_slice(&[1, 0, 0, 0, 1, 0, 1, 1]);
    bits[49] = 1;
    let mut nav = NavMessage::new(1);
    for &b in &bits[..299] {
        nav.add_bit(b);
    }
    assert_eq!(nav.get_almanac(), None);
    nav.add_bit(bits[299]);
    assert_eq!(nav.get_almanac(), Some(vec![0x22C0_0000, 0x400, 0, 0, 0, 0, 0, 0, 0, 0]));
}

#[test]
fn nav_message_decodes_a_whole_subframe_without_a_further_bit() {
    let mut nav = NavMessage::new(3);
    feed(&mut nav, &subframe(4, 9));
    assert_eq!(nav.get_almanac(), Some(subframe(4, 9)));
}

#[test]
fn nav_message_ignores_invalid_subframe_ids() {
    let mut nav = NavMessage::new(3);
    feed(&mut nav, &subframe(0, 9));
    feed(&mut nav, &subframe(6, 9));
    nav.add_bit(1);
    assert_eq!(nav.get_almanac(), None);
    assert!(!nav.is_complete());
}

#[test]
fn nav_message_preamble_not_found_on_other_bits() {
    let mut nav = NavMessage::new(1);
    for &bit in &[1, 0, 0, 0, 1, 0, 1, 0] {
        nav.add_bit(bit);
    }
    assert!(!nav.is_preamble_at_offset(0));
    assert!(!nav.is_preamble_at_offset(1));
    assert_eq!(nav.tow(), None);
    assert_eq!(nav.week_number(), None);
}

#[test]
fn nav_message_setters_store_time() {
    let mut nav = NavMessage::new(5);
    nav.set_tow(Some(345_600));
    nav.set_week_number(Some(2310));
    assert_eq!(nav.tow(), Some(345_600));
    assert_eq!(nav.week_number(), Some(2310));
    nav.set_tow(None);
    assert_eq!(nav.tow(), None);
    assert_eq!(nav.week_number(), Some(2310));
    assert_eq!(nav.prn(), 5);
}

#[test]
fn nav_message_stays_complete_over_many_bits() {
    let mut nav = NavMessage::new(9);
    for id in 1..=5 {
        feed(&mut nav, &subframe(id, id + 20));
    }
    nav.add_bit(0);
    nav.add_bit(0);
    assert!(nav.is_complete());
    let first = nav.get_ephemeris().unwrap();
    assert_eq!(first.len(), 30);
    for i in 0..1500u32 {
        nav.add_bit(((i * 7 + 3) % 5 % 2) as i8);
        assert!(nav.is_complete());
    }
    assert_eq!(nav.get_ephemeris().map(|e| e.len()), Some(30));
}
