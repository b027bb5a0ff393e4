use yapper::stage::{noise, BARS_PER_SIDE};

fn jitter(index: usize, salt: u32) -> f32 {
    noise(index, salt) as f32 / 10_000.0
}

#[test]
fn noise_is_spread_and_stable() {
    let values: Vec<f32> = (0..BARS_PER_SIDE).map(|i| jitter(i, 1)).collect();
    assert!(values.iter().all(|v| (0.0..1.0).contains(v)));
    assert_eq!(values[0], jitter(0, 1));
    assert!(values.windows(2).any(|w| (w[0] - w[1]).abs() > 0.1));
}

#[test]
fn noise_is_the_same_on_every_run() {
    fn plain(index: usize, salt: u32) -> u32 {
        let mut x = (index as u32)
            .wrapping_mul(2_654_435_761)
            .wrapping_add(salt.wrapping_mul(40_503));
        x ^= x >> 13;
        x = x.wrapping_mul(1_274_126_177);
        x ^= x >> 16;
        x % 10_000
    }
    for index in [0, 1, 2, 3, 1_000, u32::MAX as usize, u32::MAX as usize + 7] {
        for salt in [0, 1, 2, 3, u32::MAX] {
            assert_eq!(noise(index, salt), plain(index, salt));
        }
    }
}
