use sq::alg::{
    classify_match, find_best, update_score, Match, Score, DAY_SECS, HOUR_SECS, INITIAL_SCORE,
    SCORE_UNIT, WEEK_SECS,
};

fn names(list: &[&str]) -> Vec<String> {
    list.iter().map(|s| s.to_string()).collect()
}

#[test]
fn find_best_match_simple_case() {
    let items = names(&["foo", "bar", "baz"]);
    let scores = vec![
        None,
        Some(Score::new(10 * SCORE_UNIT, 0)),
        Some(Score::new(5 * SCORE_UNIT, 0)),
    ];

    let best_match = find_best("ba", &items, &scores).unwrap();
    assert_eq!("bar", items[best_match]);
}

#[test]
fn find_best_match_exact_match_preferred() {
    let items = names(&["foo", "bar", "baz"]);
    let scores = vec![
        None,
        Some(Score::new(10 * SCORE_UNIT, 0)),
        Some(Score::new(5 * SCORE_UNIT, 0)),
    ];

    let best_match = find_best("baz", &items, &scores).unwrap();
    assert_eq!("baz", items[best_match]);
}

#[test]
fn find_best_match_match_not_found() {
    let items = names(&["foo", "bar", "baz"]);
    let scores = vec![
        None,
        Some(Score::new(10 * SCORE_UNIT, 0)),
        Some(Score::new(5 * SCORE_UNIT, 0)),
    ];

    let best_match = find_best("fizz", &items, &scores);
    assert!(best_match.is_none());
}

#[test]
fn scored_candidate_beats_unscored() {
    let items = names(&["barn", "bark"]);
    let scores = vec![None, Some(Score::new(SCORE_UNIT, 0))];
    assert_eq!(find_best("bar", &items, &scores), Some(1));
}

#[test]
fn allocation_order_breaks_ties() {
    let items = names(&["barn", "bark"]);
    let scores = vec![None, None];
    assert_eq!(find_best("bar", &items, &scores), Some(0));
    let same = vec![Some(Score::new(SCORE_UNIT, 0)), Some(Score::new(SCORE_UNIT, 0))];
    assert_eq!(find_best("bar", &items, &same), Some(0));
}

#[test]
fn classification_extracts_ascii_keywords() {
    // Keywords of "hello_world, testing123!" are hello, world, testing, 123.
    assert_eq!(classify_match("hello_world, testing123!", "wor"), Some(false));
    assert_eq!(classify_match("hello_world, testing123!", "test"), Some(false));
    assert_eq!(classify_match("hello_world, testing123!", "12"), Some(false));
    assert_eq!(classify_match("hello_world, testing123!", "ello"), None);
    // Case is normalized away, and camel case is not split.
    assert_eq!(classify_match("BarStool", "bars"), Some(false));
    assert_eq!(classify_match("Users", "USERS"), Some(true));
}

#[test]
fn match_into_inner_returns_value() {
    let m = Match::match_named_value("users", "Users".to_string()).unwrap();
    assert_eq!(m.into_inner(), "Users".to_string());
    assert!(Match::match_named_value("fizz", "Users".to_string()).is_none());
}

#[test]
fn first_hit_seeds_the_initial_score() {
    let mut score: Option<Score> = None;
    update_score(&mut score, 1000);
    let s = score.unwrap();
    assert_eq!(s.value, INITIAL_SCORE);
    assert_eq!(s.value, 4 * SCORE_UNIT);
    assert_eq!(s.timestamp, 1000);
}

#[test]
fn score_aging() {
    // A hit within an hour of the last strictly quadruples the value.
    let mut score = Some(Score::new(10 * SCORE_UNIT, 1000));
    update_score(&mut score, 1000 + HOUR_SECS - 1);
    assert_eq!(score.unwrap().value, 40 * SCORE_UNIT);

    // Within a day: doubled.
    let mut score = Some(Score::new(10 * SCORE_UNIT, 1000));
    update_score(&mut score, 1000 + DAY_SECS - 1);
    assert_eq!(score.unwrap().value, 20 * SCORE_UNIT);

    // Within a week: halved.
    let mut score = Some(Score::new(10 * SCORE_UNIT, 1000));
    update_score(&mut score, 1000 + WEEK_SECS - 1);
    assert_eq!(score.unwrap().value, 5 * SCORE_UNIT);

    // Beyond a week: strictly quartered.
    let mut score = Some(Score::new(10 * SCORE_UNIT, 1000));
    update_score(&mut score, 1000 + WEEK_SECS);
    assert_eq!(score.unwrap().value, 10 * SCORE_UNIT / 4);

    // The timestamp always advances to the hit time.
    assert_eq!(score.unwrap().timestamp, 1000 + WEEK_SECS);
}

#[test]
fn score_growth_saturates() {
    let mut score = Some(Score::new(u64::MAX / 2, 1000));
    update_score(&mut score, 1001);
    assert_eq!(score.unwrap().value, u64::MAX);
}
