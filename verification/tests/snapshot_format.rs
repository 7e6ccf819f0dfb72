use car_evolution::brain::{initial_brain, CarBrain, Level};
use car_evolution::snapshot::decode;

fn level(weights: Vec<Vec<i64>>, biases: Vec<i64>) -> Level {
    let n_in = weights.len();
    let n_out = biases.len();
    Level { inputs: vec![7; n_in], outputs: vec![9; n_out], weights, biases }
}

#[test]
fn encode_exact_frame() {
    let b = CarBrain { levels: vec![level(vec![vec![100], vec![200]], vec![300])] };
    assert_eq!(b.encode(), vec![1, 2, 1, 100, 200, 300]);
}

#[test]
fn round_trip_keeps_widths_and_parameters() {
    let b = CarBrain {
        levels: vec![
            level(vec![vec![1000, -4, 0], vec![17, 250, -999]], vec![5, -5, 321]),
            level(vec![vec![1], vec![2], vec![3]], vec![-1000]),
        ],
    };
    let words = b.encode();
    let c = decode(&words).expect("a well-formed snapshot decodes");
    assert_eq!(c.levels.len(), b.levels.len());
    for (cl, bl) in c.levels.iter().zip(b.levels.iter()) {
        assert_eq!(cl.weights, bl.weights);
        assert_eq!(cl.biases, bl.biases);
        // scratch buffers come back zeroed, as the persisted form stores none
        assert!(cl.inputs.iter().all(|x| *x == 0));
        assert!(cl.outputs.iter().all(|x| *x == 0));
    }
    // and the decoded controller encodes to the same words
    assert_eq!(c.encode(), words);
}

#[test]
fn round_trip_of_a_random_controller() {
    let b = CarBrain::new(5, 4);
    let words = b.sanitized().encode();
    let c = decode(&words).expect("decodes");
    assert_eq!(c.encode(), words);
}

#[test]
fn decode_rejects_empty_and_bad_counts() {
    assert!(decode(&vec![]).is_none());
    assert!(decode(&vec![0]).is_none());
    assert!(decode(&vec![-3, 1, 1, 0, 0]).is_none());
}

#[test]
fn decode_rejects_short_frames() {
    assert!(decode(&vec![1]).is_none());
    assert!(decode(&vec![1, 2, 1, 100]).is_none());
}

#[test]
fn decode_rejects_bad_widths() {
    assert!(decode(&vec![1, -1, 1, 0]).is_none());
    assert!(decode(&vec![1, 1, 20000]).is_none());
}

#[test]
fn decode_fails_fast_on_mismatched_topology() {
    // first level ends in one unit, second claims two inputs
    let words = vec![2, 1, 1, 100, 200, 2, 1, 5, 6, 7];
    assert!(decode(&words).is_none());
}

#[test]
fn decode_rejects_out_of_range_parameters() {
    assert!(decode(&vec![1, 1, 1, 1001, 0]).is_none());
    assert!(decode(&vec![1, 1, 1, 0, -1001]).is_none());
}

#[test]
fn decode_rejects_trailing_words() {
    assert!(decode(&vec![1, 1, 1, 100, 200, 300]).is_none());
}

#[test]
fn seeding_uses_snapshot_when_present() {
    let b = CarBrain { levels: vec![level(vec![vec![100], vec![200]], vec![300])] };
    let seeded = initial_brain(&Some(b), 5, 4);
    assert_eq!(seeded.levels.len(), 1);
    assert_eq!(seeded.levels[0].weights.len(), 2);
    let fresh = initial_brain(&None, 5, 4);
    assert_eq!(fresh.levels.len(), 2);
    assert_eq!(fresh.levels[0].weights.len(), 5);
    assert_eq!(fresh.levels[1].biases.len(), 4);
}
