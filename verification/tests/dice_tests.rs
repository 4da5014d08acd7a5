use botinski::dice::{
    coin_flip, coin_message, draw_dice, notation_fits, parse_entry, parse_notation, push_signed,
    roll_reply, split_chars, tally, NotationEntry, RollError,
};

fn chars(s: &str) -> Vec<char> {
    s.chars().collect()
}

#[test]
fn notation_entries_parse() {
    let v = parse_notation("2d20 - 6 + -3").ok().unwrap();
    assert_eq!(v.len(), 5);
    assert!(matches!(v[0], NotationEntry::Roll { count: 2, sides: 20 }));
    assert!(matches!(v[1], NotationEntry::Minus));
    assert!(matches!(v[2], NotationEntry::Number(6)));
    assert!(matches!(v[3], NotationEntry::Plus));
    assert!(matches!(v[4], NotationEntry::Number(-3)));
}

#[test]
fn bad_entries_name_their_fault() {
    assert!(matches!(parse_notation("d20"), Err(RollError::InvalidCount)));
    assert!(matches!(parse_notation("0d6"), Err(RollError::InvalidCount)));
    assert!(matches!(parse_notation("2d"), Err(RollError::InvalidSides)));
    assert!(matches!(parse_notation("2d0"), Err(RollError::InvalidSides)));
    assert!(matches!(parse_notation("2d6d"), Err(RollError::InvalidSides)));
    assert!(matches!(parse_notation("abc"), Err(RollError::InvalidNumber)));
    assert!(matches!(parse_notation("1d20  + 1"), Err(RollError::InvalidNumber)));
    assert!(matches!(parse_notation(""), Err(RollError::InvalidNumber)));
    assert!(matches!(parse_entry(&chars("1 d4")), Err(RollError::Space)));
    // the first bad entry decides the error
    assert!(matches!(parse_notation("x 0d1"), Err(RollError::InvalidNumber)));
}

#[test]
fn roll_errors_have_messages() {
    assert_eq!(RollError::InvalidCount.message(), "Invalid count");
    assert_eq!(RollError::InvalidSides.message(), "Invalid sides");
    assert_eq!(RollError::InvalidNumber.message(), "Invalid number");
    assert_eq!(RollError::Space.message(), "Spaces should be filtered out by the time the string is parsed");
}

#[test]
fn tally_with_known_dice() {
    let entries = parse_notation("2d20 - 6").ok().unwrap();
    let rolls = vec![vec![1i64, 15], vec![], vec![]];
    let (total, msg) = tally(&entries, &rolls);
    assert_eq!(total, 10);
    assert_eq!(msg, "🎲 2d20 (1, 15) - 6 = **10**");

    let entries = parse_notation("- 1d4 + 3").ok().unwrap();
    let rolls = vec![vec![], vec![4i64], vec![], vec![]];
    let (total, msg) = tally(&entries, &rolls);
    assert_eq!(total, -1);
    assert_eq!(msg, "🎲  - 1d4 (4) + 3 = **-1**");
}

#[test]
fn rolls_stay_in_range() {
    for _ in 0..50 {
        let v = draw_dice(3, 6);
        assert_eq!(v.len(), 3);
        assert!(v.iter().all(|&d| (1..=6).contains(&d)));
    }
    for _ in 0..20 {
        let msg = roll_reply(Some("1d6")).ok().unwrap();
        let total: i64 = msg.rsplit("**").nth(1).unwrap().parse().unwrap();
        assert!((1..=6).contains(&total));
        assert!(msg.starts_with("🎲 1d6 ("));
    }
    let msg = roll_reply(None).ok().unwrap();
    assert!(msg.starts_with("🎲 1d20 ("));
    assert!(matches!(roll_reply(Some("1d")), Err(RollError::InvalidSides)));
}

#[test]
fn oversized_notations_are_detected() {
    assert!(notation_fits(&parse_notation("1d20 + 5").ok().unwrap()));
    assert!(!notation_fits(&parse_notation("9223372036854775807d9223372036854775807").ok().unwrap()));
}

#[test]
fn split_keeps_empty_pieces() {
    let parts = split_chars(&chars("a  b"), ' ');
    assert_eq!(parts, vec![chars("a"), chars(""), chars("b")]);
}

#[test]
fn signed_numbers_print_with_sign() {
    let mut out = Vec::new();
    push_signed(&mut out, -42);
    push_signed(&mut out, 7);
    assert_eq!(out.iter().collect::<String>(), "-427");
}

#[test]
fn coin_faces() {
    assert_eq!(coin_message(true), "The coin landed on heads");
    assert_eq!(coin_message(false), "The coin landed on tails");
    let r = coin_flip();
    assert!(r == "The coin landed on heads" || r == "The coin landed on tails");
}

#[test]
fn only_overflowing_running_totals_are_refused() {
    // the running total returns to zero without ever leaving 64 bits
    let fine = parse_notation("9223372036854775807 - 9223372036854775807").ok().unwrap();
    assert!(notation_fits(&fine));
    assert_eq!(
        roll_reply(Some("9223372036854775807 - 9223372036854775807")).ok().unwrap(),
        "🎲 9223372036854775807 - 9223372036854775807 = **0**"
    );
    assert!(!notation_fits(&parse_notation("9223372036854775807 + 1").ok().unwrap()));
    assert!(!notation_fits(&parse_notation("9223372036854775807 + 1d2").ok().unwrap()));
    assert!(notation_fits(&parse_notation("9223372036854775806 + 1d1").ok().unwrap()));
    assert!(!notation_fits(&parse_notation("- 9223372036854775807 - 2").ok().unwrap()));
    assert!(notation_fits(&parse_notation("-9223372036854775808").ok().unwrap()));
}

#[test]
fn a_plain_roll_gives_that_many_dice_and_their_sum() {
    let msg = roll_reply(Some("3d6")).ok().unwrap();
    let rest = msg.strip_prefix("\u{1F3B2} 3d6 (").unwrap();
    let (dice, total) = rest.split_once(") = **").unwrap();
    let values: Vec<i64> = dice.split(", ").map(|d| d.parse().unwrap()).collect();
    assert_eq!(values.len(), 3);
    assert!(values.iter().all(|v| (1..=6).contains(v)));
    let total: i64 = total.strip_suffix("**").unwrap().parse().unwrap();
    assert_eq!(total, values.iter().sum::<i64>());
}
