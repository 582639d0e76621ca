use vulkan_ai::data::{
    check_dataset_batch_count, is_valid_permutation, sample_bounded, seeded_epoch_permutation, splitmix64, SamplerError,
    SeededBatchSampler,
};
use vulkan_ai::{MINI_BATCH_CHECKPOINT_STEP, MINI_BATCH_EPOCH_SEED, OPTIMIZER_PROBE_STEPS};

const SEED: u64 = 0x5EED_CAFE_D15C_A11E;
const CHECKPOINT_STEP: usize = 11;
const TOTAL_STEPS: usize = 20;

#[test]
fn seeded_epochs_are_reproducible_and_checkpoint_sensitive() {
    let mut sampler = SeededBatchSampler::new(SEED, 2).unwrap();
    let before_checkpoint: Vec<_> = (0..CHECKPOINT_STEP)
        .map(|_| sampler.next_batch().unwrap())
        .collect();
    let mut resumed_sampler = sampler.clone();
    let after_checkpoint: Vec<_> = (CHECKPOINT_STEP..TOTAL_STEPS)
        .map(|_| resumed_sampler.next_batch().unwrap())
        .collect();
    let mut reset_generator_sampler = sampler.clone();
    reset_generator_sampler.generator_state = SEED;
    let reset_generator_second_half: Vec<_> = (CHECKPOINT_STEP..TOTAL_STEPS)
        .map(|_| reset_generator_sampler.next_batch().unwrap())
        .collect();
    let mut reset_permutation_sampler = sampler.clone();
    reset_permutation_sampler.current_permutation = vec![0, 1];
    let reset_permutation_next_batch = reset_permutation_sampler.next_batch().unwrap();

    assert_eq!(before_checkpoint, [0, 1, 1, 0, 0, 1, 1, 0, 1, 0, 1]);
    assert_eq!(sampler.next_position(), 1);
    assert_eq!(sampler.current_permutation(), [1, 0]);
    assert_eq!(after_checkpoint, [0, 0, 1, 1, 0, 0, 1, 0, 1]);
    assert_ne!(after_checkpoint, reset_generator_second_half);
    assert_ne!(after_checkpoint[0], reset_permutation_next_batch);
}

#[test]
fn five_batch_vectors_survive_an_inside_epoch_resume() {
    const BATCH_COUNT: usize = 5;
    const CHECKPOINT_STEP: usize = 7;
    const TOTAL_STEPS: usize = 17;

    let mut sampler = SeededBatchSampler::new(SEED, BATCH_COUNT).unwrap();
    let before_checkpoint: Vec<_> = (0..CHECKPOINT_STEP)
        .map(|_| sampler.next_batch().unwrap())
        .collect();
    let checkpoint = sampler.clone();
    let uninterrupted_after_checkpoint: Vec<_> = (CHECKPOINT_STEP..TOTAL_STEPS)
        .map(|_| sampler.next_batch().unwrap())
        .collect();
    let mut resumed_sampler = checkpoint.clone();
    let resumed_after_checkpoint: Vec<_> = (CHECKPOINT_STEP..TOTAL_STEPS)
        .map(|_| resumed_sampler.next_batch().unwrap())
        .collect();
    let mut reset_generator_sampler = checkpoint.clone();
    reset_generator_sampler.generator_state = SEED;
    let reset_generator_after_checkpoint: Vec<_> = (CHECKPOINT_STEP..TOTAL_STEPS)
        .map(|_| reset_generator_sampler.next_batch().unwrap())
        .collect();
    let mut reset_permutation_sampler = checkpoint.clone();
    reset_permutation_sampler.current_permutation = (0..BATCH_COUNT).collect();
    let reset_permutation_next_batch = reset_permutation_sampler.next_batch().unwrap();

    assert_eq!(before_checkpoint, [3, 4, 2, 1, 0, 4, 2]);
    assert_eq!(checkpoint.current_permutation(), [4, 2, 3, 0, 1]);
    assert_eq!(checkpoint.next_position(), 2);
    assert_eq!(checkpoint.generator_state(), 0x50A9_98CA_CBB0_81C6);
    assert_eq!(
        uninterrupted_after_checkpoint,
        [3, 0, 1, 4, 1, 0, 3, 2, 0, 4]
    );
    assert_eq!(resumed_after_checkpoint, uninterrupted_after_checkpoint);
    assert_ne!(
        reset_generator_after_checkpoint,
        uninterrupted_after_checkpoint
    );
    assert_ne!(
        reset_permutation_next_batch,
        uninterrupted_after_checkpoint[0]
    );
    assert_eq!(resumed_sampler.current_permutation(), [0, 4, 1, 3, 2]);
    assert_eq!(resumed_sampler.next_position(), 2);
    assert_eq!(resumed_sampler.generator_state(), 0x4265_6696_C604_626E);
}

#[test]
fn rejects_invalid_checkpoint_position() {
    let mut sampler = SeededBatchSampler::new(SEED, 2).unwrap();
    sampler.next_position = 3;

    assert_eq!(sampler.next_batch(), Err(SamplerError::Position(3)));
}

#[test]
fn rejects_invalid_checkpoint_permutation() {
    let mut sampler = SeededBatchSampler::new(SEED, 2).unwrap();
    sampler.current_permutation = vec![0, 0];

    assert_eq!(
        sampler.next_batch(),
        Err(SamplerError::Permutation(vec![0, 0]))
    );
}

#[test]
fn rejects_an_empty_batch_set() {
    assert_eq!(
        SeededBatchSampler::new(SEED, 0),
        Err(SamplerError::BatchCount(0))
    );
}

#[test]
fn splitmix64_matches_the_reference_sequence() {
    let mut state = 0;
    assert_eq!(splitmix64(&mut state), 0xE220_A839_7B1D_CDAF);
    assert_eq!(state, 0x9E37_79B9_7F4A_7C15);
}

#[test]
fn bounded_samples_stay_below_their_bound() {
    let mut state = SEED;
    assert_eq!(sample_bounded(&mut state, 3), 2);
    assert_eq!(state, 0xFD25_44B8_50A7_1D33);

    let mut state = SEED;
    assert_eq!(sample_bounded(&mut state, 7), 0);
    assert_eq!(state, 0xFD25_44B8_50A7_1D33);

    let mut state = SEED;
    for _ in 0..100 {
        assert_eq!(sample_bounded(&mut state, 1), 0);
        assert!(sample_bounded(&mut state, 5) < 5);
    }
}

#[test]
fn five_batch_epochs_follow_the_conformance_vectors() {
    let mut state = SEED;
    assert_eq!(seeded_epoch_permutation(&mut state, 5), [3, 4, 2, 1, 0]);
    assert_eq!(seeded_epoch_permutation(&mut state, 5), [4, 2, 3, 0, 1]);
    assert_eq!(seeded_epoch_permutation(&mut state, 5), [4, 1, 0, 3, 2]);
    assert_eq!(state, 0xC987_7FB0_C8DA_721A);
}

#[test]
fn every_epoch_is_a_permutation() {
    let mut state = SEED;
    for count in 1..40 {
        let order = seeded_epoch_permutation(&mut state, count);
        assert_eq!(order.len(), count);
        assert!(is_valid_permutation(&order));
        let mut sorted = order.clone();
        sorted.sort();
        assert_eq!(sorted, (0..count).collect::<Vec<_>>());
    }
}

#[test]
fn short_epochs_draw_nothing() {
    let mut state = SEED;
    assert_eq!(seeded_epoch_permutation(&mut state, 0), Vec::<usize>::new());
    assert_eq!(seeded_epoch_permutation(&mut state, 1), [0]);
    assert_eq!(state, SEED);
}

#[test]
fn two_batch_epochs_swap_on_odd_draws() {
    let mut state = SEED;
    for _ in 0..16 {
        let mut draw_state = state;
        let value = splitmix64(&mut draw_state);
        let order = seeded_epoch_permutation(&mut state, 2);
        assert_eq!(state, draw_state);
        if value % 2 == 1 {
            assert_eq!(order, [1, 0]);
        } else {
            assert_eq!(order, [0, 1]);
        }
    }
}

#[test]
fn validates_permutations() {
    assert!(!is_valid_permutation(&[]));
    assert!(is_valid_permutation(&[0]));
    assert!(is_valid_permutation(&[1, 0]));
    assert!(is_valid_permutation(&[4, 1, 0, 3, 2]));
    assert!(!is_valid_permutation(&[0, 0]));
    assert!(!is_valid_permutation(&[0, 2]));
    assert!(!is_valid_permutation(&[1]));
}

#[test]
fn minibatch_checkpoint_resume_reproduces_the_uninterrupted_run() {
    let mut uninterrupted = SeededBatchSampler::new(MINI_BATCH_EPOCH_SEED, 5).unwrap();
    let sequence: Vec<_> = (0..OPTIMIZER_PROBE_STEPS)
        .map(|_| uninterrupted.next_batch().unwrap())
        .collect();

    let mut resumed = SeededBatchSampler::new(MINI_BATCH_EPOCH_SEED, 5).unwrap();
    let mut resumed_sequence: Vec<_> = (0..MINI_BATCH_CHECKPOINT_STEP)
        .map(|_| resumed.next_batch().unwrap())
        .collect();
    let checkpoint = SeededBatchSampler {
        generator_state: resumed.generator_state(),
        current_permutation: resumed.current_permutation().to_vec(),
        next_position: resumed.next_position(),
    };
    assert_eq!(checkpoint.next_position(), 1);
    assert_eq!(checkpoint.current_permutation(), [4, 1, 0, 3, 2]);
    assert_eq!(checkpoint.generator_state(), 0xC987_7FB0_C8DA_721A);

    let mut restored = checkpoint;
    resumed_sequence.extend(
        (MINI_BATCH_CHECKPOINT_STEP..OPTIMIZER_PROBE_STEPS).map(|_| restored.next_batch().unwrap()),
    );

    assert_eq!(
        sequence,
        [3, 4, 2, 1, 0, 4, 2, 3, 0, 1, 4, 1, 0, 3, 2, 0, 4, 1, 3, 2]
    );
    assert_eq!(resumed_sequence, sequence);
    assert_eq!(restored, uninterrupted);
    assert_eq!(uninterrupted.next_position(), 5);
    assert_eq!(uninterrupted.generator_state(), 0x4265_6696_C604_626E);
}

#[test]
fn inside_epoch_steps_keep_generator_and_permutation() {
    let mut sampler = SeededBatchSampler {
        generator_state: 7,
        current_permutation: vec![2, 0, 1],
        next_position: 0,
    };
    assert_eq!(sampler.next_batch(), Ok(2));
    assert_eq!(sampler.next_batch(), Ok(0));
    assert_eq!(sampler.next_batch(), Ok(1));
    assert_eq!(sampler.generator_state(), 7);
    assert_eq!(sampler.current_permutation(), [2, 0, 1]);
    assert_eq!(sampler.next_position(), 3);
    let next = sampler.next_batch().unwrap();
    assert!(next < 3);
    assert_ne!(sampler.generator_state(), 7);
    assert_eq!(sampler.next_position(), 1);
}

#[test]
fn rejected_states_are_left_unchanged() {
    let mut sampler = SeededBatchSampler {
        generator_state: 9,
        current_permutation: vec![0, 2],
        next_position: 0,
    };
    let before = sampler.clone();
    assert_eq!(
        sampler.next_batch(),
        Err(SamplerError::Permutation(vec![0, 2]))
    );
    assert_eq!(sampler, before);

    let mut empty = SeededBatchSampler {
        generator_state: 9,
        current_permutation: Vec::new(),
        next_position: 0,
    };
    assert_eq!(empty.next_batch(), Err(SamplerError::Permutation(Vec::new())));
}

#[test]
fn new_sampler_starts_with_an_exhausted_identity_epoch() {
    let sampler = SeededBatchSampler::new(SEED, 4).unwrap();
    assert_eq!(sampler.generator_state(), SEED);
    assert_eq!(sampler.current_permutation(), [0, 1, 2, 3]);
    assert_eq!(sampler.next_position(), 4);
}

#[test]
fn sampler_errors_describe_themselves() {
    assert_eq!(
        SamplerError::BatchCount(0).message(),
        "sampler batch count 0 must be positive"
    );
    assert_eq!(
        SamplerError::Position(3).message(),
        "sampler position 3 is outside its epoch"
    );
    assert_eq!(
        SamplerError::Permutation(vec![0, 0]).message(),
        "sampler permutation [0, 0] is invalid"
    );
    assert_eq!(
        SamplerError::Permutation(Vec::new()).message(),
        "sampler permutation [] is invalid"
    );
    assert_eq!(
        SamplerError::DatasetBatchCount {
            dataset: 5,
            sampler: 2
        }
        .message(),
        "sampler batch count 2 does not match dataset batch count 5"
    );
}

#[test]
fn rejects_draws_below_the_threshold() {
    // The next draw from this state is 0, below the threshold 2^64 mod 3 = 1.
    let mut state = 0x61C8_8646_80B5_83EB;
    assert_eq!(sample_bounded(&mut state, 3), 1);
    assert_eq!(state, 0x9E37_79B9_7F4A_7C15);

    // With a bound of two the threshold is 0, so the same draw is accepted.
    let mut state = 0x61C8_8646_80B5_83EB;
    assert_eq!(sample_bounded(&mut state, 2), 0);
    assert_eq!(state, 0);
}

#[test]
fn refuses_a_sampler_for_another_dataset() {
    let sampler = SeededBatchSampler::new(SEED, 5).unwrap();
    assert_eq!(check_dataset_batch_count(5, &sampler), Ok(()));
    assert_eq!(
        check_dataset_batch_count(4, &sampler),
        Err(SamplerError::DatasetBatchCount {
            dataset: 4,
            sampler: 5
        })
    );
}

#[test]
fn checkpoint_copies_resume_exactly() {
    let mut sampler = SeededBatchSampler::new(SEED, 5).unwrap();
    assert_eq!(sampler.next_batches(7).unwrap(), [3, 4, 2, 1, 0, 4, 2]);
    let mut copy = sampler.checkpoint();
    assert_eq!(copy, sampler);
    let uninterrupted = sampler.next_batches(10).unwrap();
    let resumed = copy.next_batches(10).unwrap();
    assert_eq!(uninterrupted, [3, 0, 1, 4, 1, 0, 3, 2, 0, 4]);
    assert_eq!(resumed, uninterrupted);
    assert_eq!(copy, sampler);
}

#[test]
fn fresh_epochs_hand_out_every_batch_once() {
    let mut sampler = SeededBatchSampler::new(SEED, 5).unwrap();
    for _ in 0..4 {
        assert_eq!(sampler.next_position(), 5);
        let epoch = sampler.next_batches(5).unwrap();
        assert_eq!(sampler.current_permutation(), epoch.as_slice());
        let mut sorted = epoch.clone();
        sorted.sort();
        assert_eq!(sorted, [0, 1, 2, 3, 4]);
    }
}

#[test]
fn taking_batches_stops_at_invalid_state() {
    let mut sampler = SeededBatchSampler::new(SEED, 2).unwrap();
    assert_eq!(sampler.next_batches(0), Ok(Vec::new()));
    sampler.next_position = 3;
    assert_eq!(sampler.next_batches(2), Err(SamplerError::Position(3)));
    assert_eq!(sampler.next_position(), 3);
    sampler.next_position = 0;
    sampler.current_permutation = vec![1, 1];
    assert_eq!(
        sampler.next_batches(2),
        Err(SamplerError::Permutation(vec![1, 1]))
    );
}
