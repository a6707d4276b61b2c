use ook_radio::driver::pll::Pll;

#[test]
fn pll_bit_within_two_periods() {
    let mut pll = Pll::<5>::new();
    // An irregular line: the loop still completes a bit in every 10 samples
    let mut since_bit = 0usize;
    let mut x: u32 = 12345;
    for _ in 0..1000 {
        x = x.wrapping_mul(1103515245).wrapping_add(12345);
        let level = (x >> 16) & 1 == 1;
        match pll.tick(level) {
            Some(bit) => {
                assert!(bit <= 1);
                since_bit = 0;
            }
            None => since_bit += 1,
        }
        assert!(since_bit < 10);
        assert!(pll.ramp < 100);
        assert!(pll.intergrator <= pll.samples);
    }
}

#[test]
fn pll_constant_line_every_period() {
    let mut pll = Pll::<7>::new();
    for k in 0..70usize {
        let out = pll.tick(true);
        if (k + 1) % 7 == 0 {
            assert_eq!(out, Some(1));
        } else {
            assert_eq!(out, None);
        }
    }
}

#[test]
fn pll_edge_at_bit_start_is_on_time() {
    // A loop in phase: a bit that starts with a level change ends on its
    // own last sample, not on the first sample of the next bit
    let mut pll = Pll::<5>::new();
    for k in 0..5 {
        assert_eq!(pll.tick(false), if k == 4 { Some(0) } else { None });
    }
    for k in 0..5 {
        assert_eq!(pll.tick(true), if k == 4 { Some(1) } else { None });
    }
    assert_eq!(pll.ramp, 0);
}

#[test]
fn pll_counters_fit_at_longest_bit() {
    // The slowest bit: the line changes on every sample of the first half
    let mut pll = Pll::<180>::new();
    let mut level = false;
    let mut longest = 0usize;
    let mut run = 0usize;
    for _ in 0..20000 {
        if pll.ramp < 1800 {
            level = !level;
        }
        run += 1;
        if pll.tick(level).is_some() {
            longest = longest.max(run);
            run = 0;
        }
    }
    assert!(longest <= 255);
}
