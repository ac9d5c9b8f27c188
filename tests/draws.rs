use vrf_ticket::rng::{api_random, check_iterations, random, IterationsExceeded, RngInputs, MAX_ITERATIONS};
use vrf_ticket::utils::HexStringInvalid;

const SEED_ONE: &str = "000000000000000000000000000000000000000000000000000000000000000001";

#[test]
fn seed_one_single_draw_limit_ten() {
    let draws = random(SEED_ONE, 1, 10).unwrap();
    assert_eq!(draws.len(), 1);
    assert_eq!(draws[0].ticket_number, 3);
    assert_eq!(
        draws[0].new_seed,
        "7b54b66836c1fbdd13d2441d9e1434dc62ca677fb68f5fe66a464baadecdbd00"
    );
    assert_eq!(
        draws[0].random_result,
        "576f8d6b5ac3bcc80844b7d50b1cc6603444bbe7cfcf8fc0aa1ee3c636d9e339"
    );
}

#[test]
fn two_draws_chain_their_seeds() {
    let draws = random("01", 2, 1000).unwrap();
    assert_eq!(draws[0].ticket_number, 341);
    assert_eq!(
        draws[1].new_seed,
        "bcf053f12668d750a89337feaddb78fdb808878b26ebc96a62d1ed6d901f1161"
    );
    assert_eq!(
        draws[1].random_result,
        "41f69a01647c5c344c67ab4f11e70a1779f89ab84ffc655fc7703d02836d335c"
    );
    assert_eq!(draws[1].ticket_number, 257);
}

#[test]
fn zero_seed_with_largest_limit() {
    let draws = random("", 1, u64::MAX).unwrap();
    assert_eq!(
        draws[0].new_seed,
        "b8244d028981d693af7b456af8efa4cad63d282e19ff14942c246e50d9351d22"
    );
    assert_eq!(draws[0].ticket_number, 8091420600310126602);
}

#[test]
fn draws_are_reproducible() {
    let a = random("abcdef", 20, 97).unwrap();
    let b = random("abcdef", 20, 97).unwrap();
    assert_eq!(a.len(), 20);
    for (x, y) in a.iter().zip(b.iter()) {
        assert_eq!(x.ticket_number, y.ticket_number);
        assert_eq!(x.new_seed, y.new_seed);
        assert_eq!(x.random_result, y.random_result);
    }
}

#[test]
fn tickets_stay_below_limit() {
    for limit in [1u64, 2, 7, 1000] {
        let draws = random("1234", 50, limit).unwrap();
        assert!(draws.iter().all(|d| d.ticket_number < limit));
    }
}

#[test]
fn zero_limit_gives_zero_tickets() {
    let draws = random("1234", 5, 0).unwrap();
    assert!(draws.iter().all(|d| d.ticket_number == 0));
}

#[test]
fn replay_from_an_intermediate_seed() {
    let all = random("5eed", 10, 500).unwrap();
    let k = 3;
    let rest = random(&all[k].new_seed, 10 - k - 1, 500).unwrap();
    assert_eq!(rest.len(), 6);
    for (j, d) in rest.iter().enumerate() {
        assert_eq!(d.ticket_number, all[k + 1 + j].ticket_number);
        assert_eq!(d.new_seed, all[k + 1 + j].new_seed);
        assert_eq!(d.random_result, all[k + 1 + j].random_result);
    }
}

#[test]
fn no_iterations_no_draws() {
    assert!(random("01", 0, 10).unwrap().is_empty());
}

#[test]
fn malformed_seed_is_refused() {
    assert_eq!(random("0", 1, 10).unwrap_err(), HexStringInvalid);
    assert_eq!(random("xy", 1, 10).unwrap_err(), HexStringInvalid);
}

#[test]
fn api_random_wraps_draws() {
    let out = api_random(RngInputs { initial_seed: SEED_ONE.to_string(), iterations: 1, limit: 10 });
    assert_eq!(out.unwrap().results[0].ticket_number, 3);
    let err = api_random(RngInputs { initial_seed: "123".to_string(), iterations: 1, limit: 10 });
    assert_eq!(err.unwrap_err(), HexStringInvalid);
}

#[test]
fn iteration_ceiling() {
    assert_eq!(check_iterations(MAX_ITERATIONS), Ok(()));
    assert_eq!(check_iterations(0), Ok(()));
    assert_eq!(check_iterations(MAX_ITERATIONS + 1), Err(IterationsExceeded));
}
