use dithering::kernel::{Kernel, KernelError, KernelName, Tap, MAX_TAPS};

fn taps_of(k: &Kernel) -> Vec<(i32, i32, u32)> {
    let mut out = Vec::new();
    for i in 0..k.len() {
        let t = k.tap(i).unwrap();
        out.push((t.dx, t.dy, t.weight));
    }
    out
}

fn total_weight(k: &Kernel) -> u32 {
    taps_of(k).iter().map(|t| t.2).sum()
}

#[test]
fn floyd_steinberg_taps() {
    let k = Kernel::floyd_steinberg();
    assert_eq!(taps_of(&k), vec![(1, 0, 7), (-1, 1, 3), (0, 1, 5), (1, 1, 1)]);
    assert_eq!(k.denominator(), 16);
    assert_eq!(total_weight(&k), 16);
}

#[test]
fn jarvis_taps() {
    let k = Kernel::jarvis();
    assert_eq!(
        taps_of(&k),
        vec![
            (1, 0, 7),
            (2, 0, 5),
            (-2, 1, 3),
            (-1, 1, 5),
            (0, 1, 7),
            (1, 1, 5),
            (2, 1, 3),
            (-2, 2, 1),
            (-1, 2, 3),
            (0, 2, 5),
            (1, 2, 3),
            (2, 2, 1),
        ]
    );
    assert_eq!(k.denominator(), 48);
    assert_eq!(total_weight(&k), 48);
}

#[test]
fn atkinson_taps_drop_a_quarter() {
    let k = Kernel::atkinson();
    assert_eq!(
        taps_of(&k),
        vec![(1, 0, 1), (2, 0, 1), (-1, 1, 1), (0, 1, 1), (1, 1, 1), (0, 2, 1)]
    );
    assert_eq!(k.denominator(), 8);
    assert_eq!(total_weight(&k), 6);
}

#[test]
fn halves_taps() {
    let k = Kernel::halves();
    assert_eq!(taps_of(&k), vec![(1, 0, 1), (0, 1, 1)]);
    assert_eq!(k.denominator(), 2);
}

#[test]
fn no_tap_points_backward() {
    for k in [Kernel::halves(), Kernel::floyd_steinberg(), Kernel::jarvis(), Kernel::atkinson()] {
        for (dx, dy, _) in taps_of(&k) {
            assert!(dy > 0 || (dy == 0 && dx > 0));
        }
    }
}

#[test]
fn tap_past_the_end_is_none() {
    let k = Kernel::floyd_steinberg();
    assert_eq!(k.len(), 4);
    assert_eq!(k.tap(3), Some(Tap { dx: 1, dy: 1, weight: 1 }));
    assert_eq!(k.tap(4), None);
}

#[test]
fn new_keeps_taps_and_denominator() {
    let taps = vec![Tap { dx: 3, dy: 0, weight: 2 }, Tap { dx: -4, dy: 5, weight: 9 }];
    let k = Kernel::new(taps, 11).ok().unwrap();
    assert_eq!(taps_of(&k), vec![(3, 0, 2), (-4, 5, 9)]);
    assert_eq!(k.denominator(), 11);
}

#[test]
fn kernel_without_taps_is_accepted() {
    let k = Kernel::new(Vec::new(), 1).ok().unwrap();
    assert_eq!(k.len(), 0);
}

#[test]
fn zero_denominator_is_rejected() {
    let taps = vec![Tap { dx: 1, dy: 0, weight: 1 }];
    assert!(matches!(Kernel::new(taps, 0), Err(KernelError::ZeroDenominator)));
    let many = vec![Tap { dx: 1, dy: 0, weight: 1 }; MAX_TAPS + 1];
    assert!(matches!(Kernel::new(many, 0), Err(KernelError::ZeroDenominator)));
}

#[test]
fn too_many_taps_are_rejected() {
    assert_eq!(MAX_TAPS, 32);
    let full = vec![Tap { dx: 1, dy: 0, weight: 1 }; MAX_TAPS];
    assert!(Kernel::new(full, 64).is_ok());
    let over = vec![Tap { dx: 1, dy: 0, weight: 1 }; MAX_TAPS + 1];
    assert!(matches!(Kernel::new(over, 64), Err(KernelError::TooManyTaps)));
}

#[test]
fn kernels_by_name() {
    assert_eq!(KernelName::from_name("floyd"), KernelName::Floyd);
    assert_eq!(KernelName::from_name("jarvis"), KernelName::Jarvis);
    assert_eq!(KernelName::from_name("atkinson"), KernelName::Atkinson);
}

#[test]
fn unknown_names_fall_back_to_floyd() {
    for name in ["", "Jarvis", "jarvis ", "jarvi", "jarviss", "atkinso", "ATKINSON", "stucki", "é"] {
        assert_eq!(KernelName::from_name(name), KernelName::Floyd);
    }
}

#[test]
fn named_kernels_are_the_built_in_ones() {
    assert_eq!(taps_of(&KernelName::Floyd.kernel()), taps_of(&Kernel::floyd_steinberg()));
    assert_eq!(KernelName::Floyd.kernel().denominator(), 16);
    assert_eq!(taps_of(&KernelName::Jarvis.kernel()), taps_of(&Kernel::jarvis()));
    assert_eq!(KernelName::Jarvis.kernel().denominator(), 48);
    assert_eq!(taps_of(&KernelName::Atkinson.kernel()), taps_of(&Kernel::atkinson()));
    assert_eq!(KernelName::Atkinson.kernel().denominator(), 8);
}
