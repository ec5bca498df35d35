use nail::pow::{prove, verify, Challenge, Pow, PowError, ProveInput};
use uuid::Uuid;

const TEST_POW_DIFFICULTY: u64 = 16;

#[test]
fn verify_rejects_oversized_solution() {
    let pow = Pow {
        challenge: Challenge {
            id: Uuid::now_v7().as_u128(),
            difficulty: 1,
        },
        solution: "ab".repeat(3000),
        payload: "p".to_string(),
    };
    assert!(!verify(&pow, 1));
}

#[test]
fn verify_rejects_oversized_payload() {
    let pow = Pow {
        challenge: Challenge {
            id: Uuid::now_v7().as_u128(),
            difficulty: 1,
        },
        solution: hex::encode(vec![0x42u8; 96]),
        payload: "x".repeat(5000),
    };
    assert!(!verify(&pow, 1));
}

#[test]
fn prove_rejects_oversized_payload() {
    let challenge = Challenge {
        id: Uuid::now_v7().as_u128(),
        difficulty: 1,
    };
    assert!(
        prove(ProveInput {
            challenge,
            payload: "x".repeat(5000),
        })
        .is_err()
    );
}

#[test]
fn verify_rejects_wrong_length_solution() {
    for len in [1usize, 47, 48, 95, 97, 100] {
        let pow = Pow {
            challenge: Challenge {
                id: Uuid::now_v7().as_u128(),
                difficulty: 1,
            },
            solution: hex::encode(vec![0u8; len]),
            payload: "p".to_string(),
        };
        assert!(!verify(&pow, 1), "solution of {len} bytes must be rejected");
    }
}

#[test]
fn verify_accepts_valid_length_but_garbage_solution() {
    let pow = Pow {
        challenge: Challenge {
            id: Uuid::now_v7().as_u128(),
            difficulty: 1,
        },
        solution: hex::encode(vec![0x42u8; 96]),
        payload: "p".to_string(),
    };
    assert!(!verify(&pow, 1));
}

#[test]
fn prove_and_verify_roundtrip() {
    let challenge = Challenge {
        id: Uuid::now_v7().as_u128(),
        difficulty: TEST_POW_DIFFICULTY,
    };
    let pow = prove(ProveInput {
        challenge,
        payload: "roundtrip".to_string(),
    })
    .unwrap();
    assert!(verify(&pow, TEST_POW_DIFFICULTY));
}

#[test]
fn a_proof_is_bound_to_its_payload_challenge_and_difficulty() {
    let challenge = Challenge { id: 42, difficulty: 3 };
    let pow = prove(ProveInput { challenge, payload: "payload".to_string() }).unwrap();
    assert_eq!(pow.solution.len(), 192);
    assert!(verify(&pow, 3));
    assert!(!verify(&pow, 4));
    let mut other_payload = pow.clone();
    other_payload.payload = "payloaD".to_string();
    assert!(!verify(&other_payload, 3));
    let mut other_id = pow.clone();
    other_id.challenge.id = 43;
    assert!(!verify(&other_id, 3));
    let mut upper = pow.clone();
    upper.solution = pow.solution.to_uppercase();
    assert!(verify(&upper, 3));
}

#[test]
fn prove_rejects_a_difficulty_out_of_range() {
    for difficulty in [0u64, 10_001] {
        let result = prove(ProveInput {
            challenge: Challenge { id: 1, difficulty },
            payload: "p".to_string(),
        });
        assert_eq!(result.unwrap_err(), PowError::DifficultyOutOfRange);
    }
    let too_big = prove(ProveInput {
        challenge: Challenge { id: 1, difficulty: 1 },
        payload: "x".repeat(4097),
    });
    assert_eq!(too_big.unwrap_err(), PowError::PayloadTooLarge);
    assert!(prove(ProveInput {
        challenge: Challenge { id: 1, difficulty: 1 },
        payload: "x".repeat(4096),
    })
    .is_ok());
}
