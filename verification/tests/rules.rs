use jatsi::rules::{update_score_sheet, Scoring};

#[test]
fn test_numbers() {
    let ones = Scoring::Numbers { num: 1 };

    assert_eq!(ones.name(), "Ones");
    assert_eq!(ones.score(&[1, 1, 1, 1, 1]), 5, "All ones");
    assert_eq!(ones.score(&[1, 1, 1, 2, 3]), 3, "Some ones");
}

#[test]
fn test_pair() {
    let pair = Scoring::SetOf { num: 2 };

    assert_eq!(pair.name(), "Pair");

    assert_eq!(
        pair.score(&[5, 4, 3, 2, 1]),
        0,
        "A roll with no pair gives zero points"
    );
    assert_eq!(
        pair.score(&[1, 1, 1, 1, 1]),
        2,
        "A roll with a pair gives points equal to the sum of the values of the pair"
    );
    assert_eq!(
        pair.score(&[4, 3, 2, 1, 1]),
        2,
        "The set need not be at the start of the roll",
    );
    assert_eq!(
        pair.score(&[3, 2, 2, 1, 1]),
        4,
        "If multiple pairs are present, the value of the highest one is returned"
    )
}

#[test]
fn test_set_of_three() {
    let set_of_three = Scoring::SetOf { num: 3 };

    assert_eq!(set_of_three.name(), "Set of 3");
    assert_eq!(set_of_three.score(&[5, 4, 4, 4, 3]), 12);
}

#[test]
fn test_small_straight() {
    let small_straight = Scoring::Straight {
        min_length: 4,
        value: 30,
    };

    assert_eq!(small_straight.name(), "Small Straight");
    assert_eq!(
        small_straight.score(&[6, 5, 3, 2, 1]),
        0,
        "Not a small straight"
    );
    assert_eq!(
        small_straight.score(&[6, 5, 4, 3, 1]),
        30,
        "Upper small straight at beginning",
    );
    assert_eq!(
        small_straight.score(&[6, 5, 4, 3, 3]),
        30,
        "Upper small straight at beginning with dupe at the end",
    );
    assert_eq!(
        small_straight.score(&[6, 5, 4, 4, 3]),
        30,
        "Upper small straight with dupe in the middle",
    );
    assert_eq!(
        small_straight.score(&[6, 5, 4, 3, 2]),
        30,
        "A large straight is also a small straight"
    )
}

#[test]
fn test_large_straight() {
    let large_straight = Scoring::Straight {
        min_length: 5,
        value: 40,
    };

    assert_eq!(
        large_straight.score(&[6, 5, 4, 3, 2]),
        40,
        "Upper large straight"
    );

    assert_eq!(
        large_straight.score(&[5, 4, 3, 2, 1]),
        40,
        "Lower large straight"
    );

    assert_eq!(
        large_straight.score(&[5, 4, 3, 1, 1]),
        0,
        "Not a large straight"
    );
}

#[test]
fn test_two_pairs() {
    let two_pairs = Scoring::TwoPairs {};

    assert_eq!(two_pairs.score(&[6, 5, 5, 4, 1]), 0, "Only one pair");
    assert_eq!(two_pairs.score(&[5, 4, 3, 2, 1]), 0, "Not two pairs");

    assert_eq!(
        two_pairs.score(&[5, 3, 3, 1, 1]),
        8,
        "Two pairs with orphan at the start"
    );
    assert_eq!(
        two_pairs.score(&[4, 4, 3, 2, 2]),
        12,
        "Two pairs with orphan in the middle"
    );
    assert_eq!(
        two_pairs.score(&[6, 6, 2, 2, 1]),
        16,
        "Two pairs with orphan at the end"
    );

    assert_eq!(
        two_pairs.score(&[3, 3, 3, 2, 2]),
        10,
        "Full house with triplet at the start also counts as two pairs"
    );
    assert_eq!(
        two_pairs.score(&[6, 6, 1, 1, 1]),
        14,
        "Full house with triplet at the end also counts as two pairs"
    );
}

#[test]
fn test_full_house() {
    let full_house = Scoring::FullHouse { value: 25 };

    assert_eq!(full_house.score(&[4, 3, 2, 2, 1]), 0, "Not a full house");
    assert_eq!(
        full_house.score(&[3, 3, 3, 2, 2]),
        25,
        "Full house with triplet at the start"
    );
    assert_eq!(
        full_house.score(&[6, 6, 1, 1, 1]),
        25,
        "Full house with triplet at the end"
    );
}

#[test]
fn test_yahtzee() {
    let yahtzee = Scoring::Yahtzee { value: 50 };

    assert_eq!(yahtzee.score(&[5, 5, 5, 5, 5]), 50, "Yahtzee!!!");
    assert_eq!(yahtzee.score(&[5, 5, 3, 5, 5]), 0, "Not a yahtzee");
    assert_eq!(yahtzee.score(&[5, 5, 5, 5, 3]), 0, "Also not a yahtzee");
    assert_eq!(yahtzee.score(&[3, 5, 5, 5, 5]), 0, "Nor is this yahtzee");
}

#[test]
fn test_chance() {
    let chance = Scoring::Chance;
    assert_eq!(chance.score(&[6, 5, 4, 4, 2]), 21);
}

#[test]
fn test_bonus() {
    let value = 10;
    let scorings = vec![
        Scoring::Numbers { num: 1 },
        Scoring::Numbers { num: 2 },
        Scoring::Bonus {
            min_points: 8,
            value,
        },
        Scoring::Yahtzee { value: 50 },
    ];

    let before: Vec<Option<u64>> = vec![Some(3), None, None, None];
    let expected: Vec<Option<u64>> = vec![Some(3), Some(6), Some(value), None];
    let actual = update_score_sheet(&before, &scorings, 1, &[2, 2, 2, 3, 4]).unwrap();
    assert_eq!(actual, expected);
}

#[test]
fn rules_test_full_game() {
    let scorings = vec![
        Scoring::Numbers { num: 1 }, // 0
        Scoring::Numbers { num: 2 }, // 1
        Scoring::Bonus {
            // 2
            min_points: 10,
            value: 50,
        },
        Scoring::SetOf { num: 3 },        // 3
        Scoring::FullHouse { value: 25 }, // 4
        Scoring::Straight {
            // 5
            min_length: 4,
            value: 30,
        },
        Scoring::Straight {
            // 6
            min_length: 5,
            value: 40,
        },
        Scoring::Chance,               // 7
        Scoring::Yahtzee { value: 50 }, // 8
    ];

    let mut score_sheet: Vec<Option<u64>> = vec![None; scorings.len()];

    // 8 - Yahtzee
    score_sheet = update_score_sheet(&score_sheet, &scorings, 8, &[6, 6, 6, 6, 6]).unwrap();
    assert_eq!(
        score_sheet,
        [None, None, None, None, None, None, None, None, Some(50)]
    );

    // 0 - Ones
    score_sheet = update_score_sheet(&score_sheet, &scorings, 0, &[6, 6, 1, 1, 1]).unwrap();
    assert_eq!(
        score_sheet,
        [Some(3), None, None, None, None, None, None, None, Some(50)]
    );

    // 3 - Set of 3
    score_sheet = update_score_sheet(&score_sheet, &scorings, 3, &[6, 6, 5, 5, 5]).unwrap();
    assert_eq!(
        score_sheet,
        [
            Some(3),
            None,
            None,
            Some(15),
            None,
            None,
            None,
            None,
            Some(50)
        ]
    );

    // 5 - Straight
    score_sheet = update_score_sheet(&score_sheet, &scorings, 5, &[5, 5, 4, 3, 2]).unwrap();
    assert_eq!(
        score_sheet,
        [
            Some(3),
            None,
            None,
            Some(15),
            None,
            Some(30),
            None,
            None,
            Some(50)
        ]
    );

    // 8 - A second Yahtzee accumulates instead of being rejected.
    score_sheet = update_score_sheet(&score_sheet, &scorings, 8, &[1, 1, 1, 1, 1]).unwrap();
    assert_eq!(
        score_sheet,
        [
            Some(3),
            None,
            None,
            Some(15),
            None,
            Some(30),
            None,
            None,
            Some(100)
        ]
    );

    // 1 - Twos
    score_sheet = update_score_sheet(&score_sheet, &scorings, 1, &[1, 2, 2, 2, 2]).unwrap();

    // Bonus should be scored at this point!
    assert_eq!(
        score_sheet,
        [
            Some(3),
            Some(8),
            Some(50),
            Some(15),
            None,
            Some(30),
            None,
            None,
            Some(100)
        ]
    );
}
