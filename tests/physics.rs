use pockyplocky::physics::{rect_section, xylophone_modes, Material};

// Bar dimensions are in micrometres: 0.25 m long, 0.04 m wide, 0.015 m high.
const L: u64 = 250_000;
const B: u64 = 40_000;
const H: u64 = 15_000;

fn square_metres(s: u128) -> f64 {
    s as f64 * 1e-12
}

fn metres_to_the_fourth(i: u128) -> f64 {
    i as f64 * 1e-24
}

fn amplitude(divisor: u64) -> f64 {
    1.0 / divisor as f64
}

#[test]
fn test_rect_section() {
    let (s, i) = rect_section(40_000, 15_000);

    // Cross-sectional area: 0.04 * 0.015 = 0.0006 m^2
    assert!((square_metres(s) - 0.0006).abs() < 1e-10);

    // Area moment of inertia: 0.04 * 0.015^3 / 12 = 1.125e-8 m^4
    assert!((metres_to_the_fourth(i) - 1.125e-8).abs() < 1e-10);
}

#[test]
fn test_rect_section_exact() {
    assert_eq!(rect_section(40_000, 15_000), (600_000_000, 11_250_000_000_000_000));
    // The second moment is rounded down.
    assert_eq!(rect_section(1, 1), (1, 0));
    assert_eq!(rect_section(1, 3), (3, 2));
}

#[test]
fn test_xylophone_modes_rosewood() {
    let modes = xylophone_modes::<5>(Material::Rosewood, L, B, H);

    // Test first mode (fundamental frequency)
    let mode0 = &modes[0];
    assert!(mode0.freq_nhz > 0);
    assert!((amplitude(mode0.amp_divisor) - 1.0).abs() < 1e-10); // First mode should have amplitude 1.0

    // Test second mode
    let mode1 = &modes[1];
    assert!(mode1.freq_nhz > mode0.freq_nhz); // Higher frequency
    assert!((amplitude(mode1.amp_divisor) - 0.25).abs() < 1e-10); // 1/4 amplitude

    // Test third mode
    let mode2 = &modes[2];
    assert!(mode2.freq_nhz > mode1.freq_nhz);
    assert!((amplitude(mode2.amp_divisor) - 1.0 / 9.0).abs() < 1e-10); // 1/9 amplitude
}

#[test]
fn test_xylophone_modes_frequency_ratios() {
    let modes = xylophone_modes::<3>(Material::Rosewood, L, B, H);

    // For a free-free bar, frequency ratios should follow (2n+1)^2 pattern
    let expected_ratios = [1.0, 9.0, 25.0]; // (2*0+1)^2, (2*1+1)^2, (2*2+1)^2

    for (i, mode) in modes.iter().enumerate() {
        let ratio = mode.freq_nhz as f64 / modes[0].freq_nhz as f64;
        assert!((ratio - expected_ratios[i]).abs() < 0.1); // Allow some tolerance
    }
}

#[test]
fn test_xylophone_modes_amplitude_decay() {
    let modes = xylophone_modes::<4>(Material::Rosewood, L, B, H);

    // Test amplitude pattern: 1, 1/4, 1/9, 1/16
    let expected_amps = [1.0, 0.25, 1.0 / 9.0, 1.0 / 16.0];

    for (i, mode) in modes.iter().enumerate() {
        assert!((amplitude(mode.amp_divisor) - expected_amps[i]).abs() < 1e-10);
    }
}

#[test]
fn test_zero_modes() {
    let modes = xylophone_modes::<0>(Material::Rosewood, L, B, H);

    assert_eq!(modes.len(), 0);
}

#[test]
fn test_rect_section_edge_cases() {
    // Test with very small dimensions
    let (s, i) = rect_section(1_000, 1_000);
    assert!((square_metres(s) - 1e-6).abs() < 1e-12);
    assert!((metres_to_the_fourth(i) - 8.333333333333334e-14).abs() < 1e-20);

    // Test with larger dimensions
    let (s, i) = rect_section(100_000, 50_000);
    assert!((square_metres(s) - 0.005).abs() < 1e-10);
    assert!((metres_to_the_fourth(i) - 1.0416666666666667e-6).abs() < 1e-15);
}

#[test]
fn print_xylophone_modes() {
    let modes = xylophone_modes::<5>(Material::Rosewood, L, B, H);

    for (idx, m) in modes.iter().enumerate() {
        let freq = m.freq_nhz as f64 / 1e9;
        let amp = amplitude(m.amp_divisor);
        println!("Mode {}: freq = {:.2} Hz, amp = {:.3}", idx, freq, amp);
    }
}

#[test]
fn rosewood_fundamental_in_nanohertz() {
    let modes = xylophone_modes::<5>(Material::Rosewood, L, B, H);
    let freqs: Vec<u128> = modes.iter().map(|m| m.freq_nhz).collect();
    assert_eq!(freqs, vec![121_673_360_279, 1_095_060_242_511, 3_041_834_006_975, 5_961_994_653_671, 9_855_542_182_599]);
    let divisors: Vec<u64> = modes.iter().map(|m| m.amp_divisor).collect();
    assert_eq!(divisors, vec![1, 4, 9, 16, 25]);
    // Within a microhertz of the closed form pi / (8 l^2) * sqrt(E h^2 / (12 rho)).
    let exact = std::f64::consts::PI / (8.0 * 0.25 * 0.25)
        * (1.6e10f64 * 0.015 * 0.015 / (12.0 * 800.0)).sqrt();
    assert!((modes[0].freq_nhz as f64 / 1e9 - exact).abs() < 1e-6);
}

#[test]
fn material_constants() {
    assert_eq!(Material::Rosewood.youngs_modulus(), 16_000_000_000);
    assert_eq!(Material::Steel.youngs_modulus(), 200_000_000_000);
    assert_eq!(Material::Glass.density(), 2500);
    assert_eq!(Material::Maple.density(), 700);
}

#[test]
fn stiffer_bar_rings_higher() {
    let wood = xylophone_modes::<1>(Material::Rosewood, L, B, H);
    let steel = xylophone_modes::<1>(Material::Steel, L, B, H);
    let shorter = xylophone_modes::<1>(Material::Rosewood, L / 2, B, H);
    assert!(steel[0].freq_nhz > wood[0].freq_nhz);
    // Halving the length quadruples the pitch, to within rounding.
    let ratio = shorter[0].freq_nhz as f64 / wood[0].freq_nhz as f64;
    assert!((ratio - 4.0).abs() < 1e-4);
}

#[test]
fn tiny_bar_has_positive_rising_modes() {
    // A 1 um cube of rosewood rings at about 5 * 10^8 Hz.
    let modes = xylophone_modes::<3>(Material::Rosewood, 1, 1, 1);
    assert_eq!(modes[0].freq_nhz, 506_972_334_207_751_279);
    assert!(modes[0].freq_nhz < modes[1].freq_nhz && modes[1].freq_nhz < modes[2].freq_nhz);
}

#[test]
fn long_thin_bar_keeps_a_positive_fundamental() {
    // A 10 m maple bar 1 um high: a few microhertz, still above zero.
    let modes = xylophone_modes::<2>(Material::Maple, 10_000_000, 1, 1);
    assert_eq!(modes[0].freq_nhz, 4_693);
    assert_eq!(modes[1].freq_nhz, 9 * 4_693);
}

#[test]
fn width_does_not_change_pitch() {
    let narrow = xylophone_modes::<1>(Material::Glass, L, 1_000, H);
    let wide = xylophone_modes::<1>(Material::Glass, L, 900_000, H);
    assert_eq!(narrow[0].freq_nhz, wide[0].freq_nhz);
}
