use arm_control::motion::IsRunning;
use arm_control::rotor::{Axis, Rotor, ROTOR_COUNT};
use arm_control::sliders::{slider_order, slider_range, SLIDER_LIMIT_DEGREES};

#[test]
fn joints_from_base_to_tool() {
    let all = Rotor::all();
    assert_eq!(all, vec![Rotor::Sy, Rotor::Sz, Rotor::Ez, Rotor::Wz, Rotor::Wy]);
    assert_eq!(all.len(), ROTOR_COUNT);
    for (k, r) in all.iter().enumerate() {
        assert_eq!(r.index(), k);
    }
    let mut sorted = all.clone();
    sorted.sort();
    assert_eq!(sorted, all);
}

#[test]
fn chain_of_children() {
    assert_eq!(Rotor::Sy.child(), Some(Rotor::Sz));
    assert_eq!(Rotor::Sz.child(), Some(Rotor::Ez));
    assert_eq!(Rotor::Ez.child(), Some(Rotor::Wz));
    assert_eq!(Rotor::Wz.child(), Some(Rotor::Wy));
    assert_eq!(Rotor::Wy.child(), None);
}

#[test]
fn rotation_axes() {
    assert_eq!(Rotor::Sy.axis(), Axis::Y);
    assert_eq!(Rotor::Sz.axis(), Axis::Z);
    assert_eq!(Rotor::Ez.axis(), Axis::Z);
    assert_eq!(Rotor::Wz.axis(), Axis::Z);
    assert_eq!(Rotor::Wy.axis(), Axis::Y);
}

#[test]
fn link_models() {
    assert_eq!(Rotor::Sy.mesh_file(), "link1g.obj");
    assert_eq!(Rotor::Sz.mesh_file(), "link2g2 (2).obj");
    assert_eq!(Rotor::Ez.mesh_file(), "link3g.obj");
    assert_eq!(Rotor::Wz.mesh_file(), "link4g.obj");
    assert_eq!(Rotor::Wy.mesh_file(), "link5g.obj");
}

#[test]
fn slider_ranges() {
    assert_eq!(SLIDER_LIMIT_DEGREES, 170);
    assert_eq!(slider_range(Rotor::Sy, 55), (-170, 170));
    assert_eq!(slider_range(Rotor::Wy, 0), (-170, 170));
    assert_eq!(slider_range(Rotor::Wz, 55), (-55, 55));
    assert_eq!(slider_range(Rotor::Wz, 0), (0, 0));
    assert_eq!(slider_range(Rotor::Wz, -4), (4, -4));
    assert_eq!(slider_range(Rotor::Wz, i32::MIN), (2147483648, -2147483648));
}

#[test]
fn slider_order_sorts_by_joint() {
    let rotors = vec![Rotor::Wy, Rotor::Sy, Rotor::Wz, Rotor::Ez, Rotor::Sz];
    assert_eq!(slider_order(&rotors), vec![1, 4, 3, 2, 0]);
}

#[test]
fn slider_order_is_stable() {
    let rotors = vec![Rotor::Ez, Rotor::Sy, Rotor::Ez, Rotor::Sy, Rotor::Wy];
    assert_eq!(slider_order(&rotors), vec![1, 3, 0, 2, 4]);
    assert_eq!(slider_order(&Vec::new()), Vec::<usize>::new());
}

#[test]
fn slider_order_matches_stable_sort() {
    let rotors = vec![Rotor::Wz, Rotor::Sz, Rotor::Wz, Rotor::Sy, Rotor::Wy, Rotor::Sz, Rotor::Sy];
    let mut expected: Vec<usize> = (0..rotors.len()).collect();
    expected.sort_by(|a, b| rotors[*a].cmp(&rotors[*b]));
    assert_eq!(slider_order(&rotors), expected);
}

#[test]
fn running_flags() {
    let mut r = IsRunning::new();
    assert_eq!(r, IsRunning { sy: false, sz: false, ez: false, wz: false, wy: false });
    assert_eq!(IsRunning::default(), r);
    r.start_all();
    assert_eq!(r, IsRunning { sy: true, sz: true, ez: true, wz: true, wy: true });
    r.stop(Rotor::Ez);
    assert_eq!(r, IsRunning { sy: true, sz: true, ez: false, wz: true, wy: true });
    r.stop(Rotor::Ez);
    assert_eq!(r, IsRunning { sy: true, sz: true, ez: false, wz: true, wy: true });
    r.stop(Rotor::Wy);
    assert_eq!(r, IsRunning { sy: true, sz: true, ez: false, wz: true, wy: false });
}

#[test]
fn stepping_always_runs() {
    let mut r = IsRunning::new();
    assert!(r.is_running());
    r.start_all();
    assert!(r.is_running());
}
