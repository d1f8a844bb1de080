use load_test::request::{HttpMethod, RequestConfig};
use load_test::select::{MultiUrlTester, UrlDistribution};

fn pool(urls: &[&str]) -> Vec<RequestConfig> {
    urls.iter()
        .map(|u| {
            RequestConfig::from_cli(
                u.to_string(),
                HttpMethod::GET,
                None,
                Vec::new(),
                30,
                None,
            )
            .unwrap()
        })
        .collect()
}

#[test]
fn sequential_assigns_block_indices() {
    let tester = MultiUrlTester::new(pool(&["a", "b", "c"]), UrlDistribution::Sequential);
    let mut seen: Vec<String> = Vec::new();
    for user_id in 1..=9 {
        seen.push(tester.get_next_config(user_id).url.clone());
    }
    assert_eq!(seen, vec!["a", "b", "c", "a", "b", "c", "a", "b", "c"]);
}

#[test]
fn round_robin_visits_fairly() {
    let tester = MultiUrlTester::new(pool(&["a", "b", "c"]), UrlDistribution::RoundRobin);
    let mut counts = [0usize; 3];
    let n = 7;
    for user_id in 1..=n {
        let url = &tester.get_next_config(user_id).url;
        let idx = ["a", "b", "c"].iter().position(|u| u == url).unwrap();
        counts[idx] += 1;
    }
    // A fresh counter starts at zero, so seven calls visit the pool as
    // 0,1,2,0,1,2,0: ceil(7/3) hits for the first index, floor for the rest.
    assert_eq!(counts, [3, 2, 2]);
    assert_eq!(counts.iter().sum::<usize>(), n);
}

#[test]
fn random_stays_in_pool() {
    let tester = MultiUrlTester::new(pool(&["a", "b"]), UrlDistribution::Random);
    for user_id in 1..=20 {
        let url = &tester.get_next_config(user_id).url;
        assert!(url == "a" || url == "b");
    }
}

#[test]
fn weighted_falls_back_to_uniform_pool_membership() {
    let tester = MultiUrlTester::new(pool(&["a", "b", "c"]), UrlDistribution::Weighted);
    for user_id in 1..=20 {
        let url = &tester.get_next_config(user_id).url;
        assert!(url == "a" || url == "b" || url == "c");
    }
}

#[test]
fn single_target_always_selected() {
    let tester = MultiUrlTester::new(pool(&["only"]), UrlDistribution::RoundRobin);
    for user_id in 1..=5 {
        assert_eq!(tester.get_next_config(user_id).url, "only");
    }
}
