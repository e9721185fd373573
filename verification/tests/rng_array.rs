use rand::distributions::{Distribution, Uniform};
use rand::rngs::StdRng;
use rand::{Rng, SeedableRng};
use tig_benchmarker::rng_array::RngArrayNative;

const SEEDS: [u64; 8] = [11, 22, 33, 44, 55, 66, 77, 88];

/// The two-step draw written out directly on eight generators.
struct Plain {
    rngs: Vec<StdRng>,
    index: usize,
}

fn plain(seeds: [u64; 8]) -> Plain {
    Plain { rngs: seeds.iter().map(|s| StdRng::seed_from_u64(*s)).collect(), index: 0 }
}

fn plain_select(p: &mut Plain) -> usize {
    let selector: u32 = p.rngs[p.index].gen_range(0..8);
    p.index = selector as usize;
    p.index
}

#[test]
fn starts_with_stream_zero() {
    let generator = RngArrayNative::new(SEEDS);
    assert_eq!(generator.active_stream(), 0);
}

#[test]
fn same_seeds_give_same_draws() {
    let mut a = RngArrayNative::new(SEEDS);
    let mut b = RngArrayNative::new(SEEDS);
    for round in 0..200u32 {
        let low = round;
        let high = round + 1 + (round % 17) * 1000;
        let x = a.sample_uniform(low, high);
        let y = b.sample_uniform(low, high);
        assert_eq!(x, y);
        assert_eq!(a.active_stream(), b.active_stream());
    }
}

#[test]
fn draws_agree_with_a_second_implementation() {
    let mut library = RngArrayNative::new(SEEDS);
    let mut other = plain(SEEDS);
    for round in 0..300u32 {
        let low = round * 3;
        let high = low + 1 + (round % 29) * 7;
        let value = library.sample_uniform(low, high);
        let stream = plain_select(&mut other);
        let expected: u32 = Uniform::from(low..high).sample(&mut other.rngs[stream]);
        assert_eq!(library.active_stream() as usize, stream);
        assert_eq!(value, expected);
    }
}

#[test]
fn draws_lie_in_the_range() {
    let mut generator = RngArrayNative::new([1, 2, 3, 4, 5, 6, 7, 8]);
    for _ in 0..500 {
        let value = generator.sample_uniform(10, 20);
        assert!(value >= 10 && value < 20);
        assert!(generator.active_stream() < 8);
    }
}

#[test]
fn a_range_of_one_value_gives_that_value() {
    let mut generator = RngArrayNative::new(SEEDS);
    for _ in 0..20 {
        assert_eq!(generator.sample_uniform(41, 42), 41);
    }
}

#[test]
fn draws_vary_and_streams_take_turns() {
    let mut generator = RngArrayNative::new(SEEDS);
    let mut values = Vec::new();
    let mut streams = Vec::new();
    for _ in 0..200 {
        values.push(generator.sample_uniform(0, 1_000_000));
        streams.push(generator.active_stream());
    }
    let first = values[0];
    assert!(values.iter().any(|v| *v != first));
    for stream in 0..8u32 {
        assert!(streams.contains(&stream));
    }
}

#[test]
fn different_seeds_give_different_draws() {
    let mut a = RngArrayNative::new(SEEDS);
    let mut b = RngArrayNative::new([88, 77, 66, 55, 44, 33, 22, 11]);
    let xs: Vec<u32> = (0..50).map(|_| a.sample_uniform(0, u32::MAX)).collect();
    let ys: Vec<u32> = (0..50).map(|_| b.sample_uniform(0, u32::MAX)).collect();
    assert_ne!(xs, ys);
}

#[test]
fn get_mut_selects_then_hands_out_the_selected_stream() {
    let mut library = RngArrayNative::new(SEEDS);
    let mut other = plain(SEEDS);
    for _ in 0..100 {
        let uniform = Uniform::from(-1.5f64..2.5f64);
        let value: f64 = uniform.sample(library.get_mut());
        let stream = plain_select(&mut other);
        let expected: f64 = uniform.sample(&mut other.rngs[stream]);
        assert_eq!(library.active_stream() as usize, stream);
        assert_eq!(value, expected);
    }
}

#[test]
fn integer_and_float_draws_interleave() {
    let mut library = RngArrayNative::new(SEEDS);
    let mut other = plain(SEEDS);
    for round in 0..60u32 {
        if round % 2 == 0 {
            let value = library.sample_uniform(5, 500);
            let stream = plain_select(&mut other);
            let expected: u32 = Uniform::from(5u32..500u32).sample(&mut other.rngs[stream]);
            assert_eq!(value, expected);
        } else {
            let value: f32 = Uniform::from(0.0f32..1.0f32).sample(library.get_mut());
            let stream = plain_select(&mut other);
            let expected: f32 = Uniform::from(0.0f32..1.0f32).sample(&mut other.rngs[stream]);
            assert_eq!(value, expected);
        }
    }
}

#[test]
fn a_run_of_requests_is_the_draws_one_by_one() {
    let requests: Vec<(u32, u32)> = (0..80u32).map(|k| (k, k * 13 + 1 + k)).collect();
    let mut batch = RngArrayNative::new(SEEDS);
    let mut single = RngArrayNative::new(SEEDS);
    let draws = batch.sample_many(&requests);
    assert_eq!(draws.len(), 80);
    for (k, (low, high)) in requests.iter().enumerate() {
        let value = single.sample_uniform(*low, *high);
        assert_eq!(draws[k], (single.active_stream(), value));
    }
    assert_eq!(batch.active_stream(), single.active_stream());
    assert_eq!(batch.sample_uniform(0, 1000), single.sample_uniform(0, 1000));
}

#[test]
fn a_run_of_requests_agrees_with_a_second_implementation() {
    let requests: Vec<(u32, u32)> = (0..120u32).map(|k| (k * 2, k * 2 + 1 + (k % 11) * 100)).collect();
    let mut library = RngArrayNative::new([9, 8, 7, 6, 5, 4, 3, 2]);
    let mut other = plain([9, 8, 7, 6, 5, 4, 3, 2]);
    let draws = library.sample_many(&requests);
    let mut expected = Vec::new();
    for (low, high) in requests.iter() {
        let stream = plain_select(&mut other);
        let value: u32 = Uniform::from(*low..*high).sample(&mut other.rngs[stream]);
        expected.push((stream as u32, value));
    }
    assert_eq!(draws, expected);
}

#[test]
fn no_request_no_draw() {
    let mut generator = RngArrayNative::new(SEEDS);
    assert_eq!(generator.sample_many(&Vec::new()), Vec::new());
    assert_eq!(generator.active_stream(), 0);
}
