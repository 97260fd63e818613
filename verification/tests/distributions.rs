use unit_float::closed01::Closed01;
use unit_float::open01::Open01;
use unit_float::source::{BitSource, RawSource, Recorded};
use unit_float::uniform::Uniform;

const EPSILON32: f32 = f32::EPSILON;
const EPSILON64: f64 = f64::EPSILON;

/// A source that starts at a value and moves on by a fixed step.
struct StepSource {
    v: u64,
    a: u64,
}

impl StepSource {
    fn new(initial: u64, increment: u64) -> Recorded<StepSource> {
        Recorded::new(StepSource { v: initial, a: increment })
    }
}

impl RawSource for StepSource {
    fn next_u32(&mut self) -> u32 {
        self.next_u64() as u32
    }

    fn next_u64(&mut self) -> u64 {
        let result = self.v;
        self.v = self.v.wrapping_add(self.a);
        result
    }
}

/// A small generator of well-mixed words, seeded by a number.
struct Mixer {
    state: u64,
}

impl Mixer {
    fn new(seed: u64) -> Recorded<Mixer> {
        Recorded::new(Mixer { state: seed })
    }
}

impl RawSource for Mixer {
    fn next_u32(&mut self) -> u32 {
        (self.next_u64() >> 32) as u32
    }

    fn next_u64(&mut self) -> u64 {
        self.state = self.state.wrapping_add(0x9E37_79B9_7F4A_7C15);
        let mut z = self.state;
        z = (z ^ (z >> 30)).wrapping_mul(0xBF58_476D_1CE4_E5B9);
        z = (z ^ (z >> 27)).wrapping_mul(0x94D0_49BB_1331_11EB);
        z ^ (z >> 31)
    }
}

fn uniform32<R: BitSource>(rng: &mut R) -> f32 {
    f32::from_bits(Uniform.sample32(rng).to_bits())
}

fn uniform64<R: BitSource>(rng: &mut R) -> f64 {
    f64::from_bits(Uniform.sample64(rng).to_bits())
}

fn open32<R: BitSource>(rng: &mut R) -> f32 {
    f32::from_bits(Open01.sample32(rng).to_bits())
}

fn open64<R: BitSource>(rng: &mut R) -> f64 {
    f64::from_bits(Open01.sample64(rng).to_bits())
}

fn closed32<R: BitSource>(rng: &mut R) -> f32 {
    f32::from_bits(Closed01.sample32(rng).to_bits())
}

fn closed64<R: BitSource>(rng: &mut R) -> f64 {
    f64::from_bits(Closed01.sample64(rng).to_bits())
}

#[test]
fn floating_point_edge_cases() {
    let mut zeros = StepSource::new(0, 0);
    assert_eq!(uniform32(&mut zeros), 0.0);
    assert_eq!(uniform64(&mut zeros), 0.0);

    let mut one = StepSource::new(1, 0);
    assert_eq!(uniform32(&mut one), EPSILON32);
    assert_eq!(uniform64(&mut one), EPSILON64);

    let mut max = StepSource::new(!0, 0);
    assert_eq!(uniform32(&mut max), 1.0 - EPSILON32);
    assert_eq!(uniform64(&mut max), 1.0 - EPSILON64);
}

#[test]
fn fp_closed_edge_cases() {
    let mut zeros = StepSource::new(0, 0);
    assert_eq!(closed32(&mut zeros), 0.0);
    assert_eq!(closed64(&mut zeros), 0.0);

    let mut one = StepSource::new(1, 0);
    let one32 = closed32(&mut one);
    let one64 = closed64(&mut one);
    assert!(EPSILON32 < one32 && one32 < EPSILON32 * 1.01);
    assert!(EPSILON64 < one64 && one64 < EPSILON64 * 1.01);

    let mut max = StepSource::new(!0, 0);
    assert_eq!(closed32(&mut max), 1.0);
    assert_eq!(closed64(&mut max), 1.0);
}

#[test]
fn fp_open_edge_cases() {
    let mut zeros = StepSource::new(0, 0);
    assert_eq!(open32(&mut zeros), 0.0 + EPSILON32 / 2.0);
    assert_eq!(open64(&mut zeros), 0.0 + EPSILON64 / 2.0);

    let mut one = StepSource::new(1, 0);
    let one32 = open32(&mut one);
    let one64 = open64(&mut one);
    assert!(EPSILON32 < one32 && one32 < EPSILON32 * 2.0);
    assert!(EPSILON64 < one64 && one64 < EPSILON64 * 2.0);

    let mut max = StepSource::new(!0, 0);
    assert_eq!(open32(&mut max), 1.0 - EPSILON32 / 2.0);
    assert_eq!(open64(&mut max), 1.0 - EPSILON64 / 2.0);
}

#[test]
fn rand_open() {
    // this is unlikely to catch an incorrect implementation that
    // generates exactly 0 or 1, but it keeps it sane.
    let mut rng = Mixer::new(510);
    for _ in 0..1_000 {
        // strict inequalities
        let f: f64 = open64(&mut rng);
        assert!(0.0 < f && f < 1.0);

        let f: f32 = open32(&mut rng);
        assert!(0.0 < f && f < 1.0);
    }
}

#[test]
fn rand_closed() {
    let mut rng = Mixer::new(511);
    for _ in 0..1_000 {
        // strict inequalities
        let f: f64 = closed64(&mut rng);
        assert!(0.0 <= f && f <= 1.0);

        let f: f32 = closed32(&mut rng);
        assert!(0.0 <= f && f <= 1.0);
    }
}

#[test]
fn rand_uniform() {
    let mut rng = Mixer::new(509);
    for _ in 0..1_000 {
        let f: f64 = uniform64(&mut rng);
        assert!(0.0 <= f && f < 1.0);

        let f: f32 = uniform32(&mut rng);
        assert!(0.0 <= f && f < 1.0);
    }
}

/// A source that counts how often each width is asked for.
struct Counting {
    narrow: u32,
    wide: u32,
}

impl RawSource for Counting {
    fn next_u32(&mut self) -> u32 {
        self.narrow += 1;
        1
    }

    fn next_u64(&mut self) -> u64 {
        self.wide += 1;
        2
    }
}

#[test]
fn each_sample_draws_one_word_of_its_own_width() {
    let mut rng = Recorded::new(Counting { narrow: 0, wide: 0 });
    assert_eq!(uniform32(&mut rng), EPSILON32);
    assert_eq!((rng.get_ref().narrow, rng.get_ref().wide), (1, 0));
    assert_eq!(uniform64(&mut rng), 2.0 * EPSILON64);
    assert_eq!((rng.get_ref().narrow, rng.get_ref().wide), (1, 1));
    assert_eq!(open32(&mut rng), 1.5 * EPSILON32);
    assert_eq!((rng.get_ref().narrow, rng.get_ref().wide), (2, 1));
    assert_eq!(open64(&mut rng), 2.5 * EPSILON64);
    assert_eq!((rng.get_ref().narrow, rng.get_ref().wide), (2, 2));
    assert_eq!(closed32(&mut rng), 1.0 / 8388607.0);
    assert_eq!((rng.get_ref().narrow, rng.get_ref().wide), (3, 2));
    assert_eq!(closed64(&mut rng), 2.0 / 4503599627370495.0);
    assert_eq!((rng.get_ref().narrow, rng.get_ref().wide), (3, 3));
}

#[test]
fn successive_samples_follow_the_order_of_the_words() {
    let mut rng = StepSource::new(0, 1);
    assert_eq!(uniform32(&mut rng), 0.0);
    assert_eq!(uniform32(&mut rng), EPSILON32);
    assert_eq!(uniform64(&mut rng), 2.0 * EPSILON64);
    assert_eq!(open32(&mut rng), 3.5 * EPSILON32);
}

#[test]
fn a_recorded_generator_hands_on_what_the_generator_gives() {
    let mut rng = Recorded::new(Counting { narrow: 0, wide: 0 });
    assert_eq!(rng.next_u32(), 1);
    assert_eq!(rng.next_u64(), 2);
    assert_eq!(rng.next_u64(), 2);
    assert_eq!((rng.get_ref().narrow, rng.get_ref().wide), (1, 2));
    let inner = rng.into_inner();
    assert_eq!((inner.narrow, inner.wide), (1, 2));

    let mut steps = StepSource::new(5, 3);
    assert_eq!(steps.next_u64(), 5);
    assert_eq!(steps.next_u32(), 8);
    assert_eq!(steps.next_u64(), 11);
    assert_eq!(steps.into_inner().v, 14);
}
