use load_test::plan::{burst_user_ids, gate_capacity, tick_user_ids};
use load_test::validate::{validate_url, ValidationError};

#[test]
fn burst_ids_are_one_through_n() {
    assert_eq!(burst_user_ids(5), vec![1, 2, 3, 4, 5]);
    assert_eq!(burst_user_ids(0), Vec::<usize>::new());
}

#[test]
fn sustained_ticks_allocate_increasing_ids() {
    let rps = 10;
    let tick1 = tick_user_ids(0, rps);
    let tick2 = tick_user_ids(rps, rps);
    assert_eq!(tick1, (1..=10).collect::<Vec<usize>>());
    assert_eq!(tick2, (11..=20).collect::<Vec<usize>>());
    assert_eq!(tick1.len() + tick2.len(), 20);
}

#[test]
fn gate_is_twice_the_quota() {
    assert_eq!(gate_capacity(10), 20);
    assert_eq!(gate_capacity(0), 0);
}

#[test]
fn url_validation_verdicts() {
    assert_eq!(validate_url("ftp://x"), Err(ValidationError::UnsupportedScheme));
    assert_eq!(validate_url("not a url"), Err(ValidationError::InvalidUrl));
    assert_eq!(validate_url("https://example.com"), Ok(()));
    assert_eq!(validate_url("http://localhost:3000/api/test"), Ok(()));
}
