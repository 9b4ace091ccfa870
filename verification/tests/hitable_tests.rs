use raytracer::hitable::{Closest, HitRecord, Hitable};
use raytracer::scalar::Scalar;
use std::cell::RefCell;

type Record = HitRecord<[f64; 3], &'static str>;

fn s(x: f64) -> Scalar {
    Scalar::from_bits(x.to_bits())
}

fn f(x: Scalar) -> f64 {
    f64::from_bits(x.to_bits())
}

fn hit(t: f64, material: &'static str) -> Record {
    HitRecord::Hit { t: s(t), point: [0.0, 0.0, -t], normal: [0.0, 0.0, 1.0], material }
}

fn material(record: Record) -> Option<&'static str> {
    match record {
        HitRecord::Hit { material, .. } => Some(material),
        HitRecord::Nothing => None,
    }
}

/// An object that reports a fixed ray parameter, whatever window it is asked
/// with, and notes the window.
struct Fixed<'a> {
    id: usize,
    t: Option<f64>,
    asked: &'a RefCell<Vec<(usize, f64, f64)>>,
}

impl<'a> Hitable for Fixed<'a> {
    type Ray = ();
    type Vector = ();
    type Material = usize;

    fn hit(&self, _ray: &(), t_min: Scalar, t_max: Scalar) -> HitRecord<(), usize> {
        self.asked.borrow_mut().push((self.id, f(t_min), f(t_max)));
        match self.t {
            Some(t) => HitRecord::Hit { t: s(t), point: (), normal: (), material: self.id },
            None => HitRecord::Nothing,
        }
    }
}

/// An object that reports its hit only if it lies in the window.
struct Honest {
    id: usize,
    t: f64,
}

impl Hitable for Honest {
    type Ray = ();
    type Vector = ();
    type Material = usize;

    fn hit(&self, _ray: &(), t_min: Scalar, t_max: Scalar) -> HitRecord<(), usize> {
        if f(t_min) <= self.t && self.t <= f(t_max) {
            HitRecord::Hit { t: s(self.t), point: (), normal: (), material: self.id }
        } else {
            HitRecord::Nothing
        }
    }
}

#[test]
fn a_record_knows_whether_it_is_a_hit() {
    assert!(hit(2.0, "a").is_hit());
    assert_eq!(hit(2.0, "a").t().map(f), Some(2.0));
    let nothing: Record = HitRecord::Nothing;
    assert!(!nothing.is_hit());
    assert!(nothing.t().is_none());
}

#[test]
fn the_nearer_of_two_spheres_wins() {
    // Two spheres on one ray, met at t = 9 and t = 4, in both scene orders.
    let mut scan = Closest::new(s(1e50));
    assert!(scan.offer(hit(9.0, "far")));
    assert!(scan.offer(hit(4.0, "near")));
    assert_eq!(f(scan.bound()), 4.0);
    assert_eq!(material(scan.into_best()), Some("near"));

    let mut scan = Closest::new(s(1e50));
    assert!(scan.offer(hit(4.0, "near")));
    assert!(!scan.offer(hit(9.0, "far")));
    assert_eq!(f(scan.bound()), 4.0);
    assert_eq!(material(scan.into_best()), Some("near"));
}

#[test]
fn the_first_of_equally_near_hits_stays() {
    let mut scan = Closest::new(s(100.0));
    assert!(scan.offer(hit(2.5, "first")));
    assert!(!scan.offer(hit(2.5, "second")));
    assert_eq!(material(scan.into_best()), Some("first"));
}

#[test]
fn an_empty_scene_gives_nothing() {
    let scan: Closest<[f64; 3], &'static str> = Closest::new(s(100.0));
    assert_eq!(f(scan.bound()), 100.0);
    assert!(!scan.into_best().is_hit());
    let nobody: [Honest; 0] = [];
    assert!(!nobody[..].hit(&(), s(0.001), s(100.0)).is_hit());
}

#[test]
fn a_miss_changes_nothing() {
    let mut scan = Closest::new(s(10.0));
    assert!(!scan.offer(HitRecord::Nothing));
    assert_eq!(f(scan.bound()), 10.0);
    assert!(scan.offer(hit(3.0, "a")));
    assert!(!scan.offer(HitRecord::Nothing));
    assert_eq!(f(scan.bound()), 3.0);
    assert_eq!(material(scan.into_best()), Some("a"));
}

#[test]
fn nothing_is_taken_at_or_beyond_the_far_end() {
    let mut scan = Closest::new(s(10.0));
    assert!(!scan.offer(hit(10.0, "a")));
    assert!(!scan.offer(hit(11.0, "b")));
    assert!(!scan.offer(hit(f64::INFINITY, "c")));
    assert_eq!(f(scan.bound()), 10.0);
    assert!(!scan.into_best().is_hit());
}

#[test]
fn what_is_not_a_number_is_never_taken() {
    let mut scan = Closest::new(s(10.0));
    assert!(!scan.offer(hit(f64::NAN, "a")));
    assert!(scan.offer(hit(3.0, "b")));
    assert!(!scan.offer(hit(f64::NAN, "c")));
    assert_eq!(material(scan.into_best()), Some("b"));

    let mut scan = Closest::new(s(f64::NAN));
    assert!(!scan.offer(hit(3.0, "a")));
    assert!(!scan.into_best().is_hit());
}

#[test]
fn the_bound_only_ever_narrows() {
    let ts = [7.0, 8.0, 3.0, 3.0, 5.0, 0.5, 0.25, 0.75];
    let mut scan = Closest::new(s(1e50));
    let mut closest_so_far = 1e50;
    for &t in ts.iter() {
        let taken = scan.offer(hit(t, "x"));
        assert_eq!(taken, t < closest_so_far);
        if taken {
            closest_so_far = t;
        }
        assert_eq!(f(scan.bound()), closest_so_far);
    }
    assert_eq!(scan.into_best().t().map(f), Some(0.25));
}

#[test]
fn the_record_travels_with_the_hit() {
    let mut scan = Closest::new(s(1e50));
    scan.offer(HitRecord::Hit { t: s(2.0), point: [1.0, 2.0, 3.0], normal: [0.0, 1.0, 0.0], material: 'a' });
    scan.offer(HitRecord::Hit { t: s(1.0), point: [4.0, 5.0, 6.0], normal: [1.0, 0.0, 0.0], material: 'b' });
    scan.offer(HitRecord::Hit { t: s(1.5), point: [7.0, 8.0, 9.0], normal: [0.0, 0.0, 1.0], material: 'c' });
    match scan.into_best() {
        HitRecord::Hit { t, point, normal, material } => {
            assert_eq!(f(t), 1.0);
            assert_eq!(point, [4.0, 5.0, 6.0]);
            assert_eq!(normal, [1.0, 0.0, 0.0]);
            assert_eq!(material, 'b');
        }
        HitRecord::Nothing => panic!("a hit was taken"),
    }
}

/// Scans a scene whose objects report `ts` whatever the window, and holds
/// the winner and the far ends that were asked with against what is
/// expected.
fn scan_and_hold(ts: &[Option<f64>], t_max: f64, winner: Option<usize>, bounds: &[f64]) {
    let asked = RefCell::new(Vec::new());
    let scene: Vec<Fixed> = ts.iter().enumerate().map(|(id, &t)| Fixed { id, t, asked: &asked }).collect();
    let best = scene[..].hit(&(), s(0.001), s(t_max));
    let won = match best {
        HitRecord::Hit { material, .. } => Some(material),
        HitRecord::Nothing => None,
    };
    assert_eq!(won, winner);
    let expected: Vec<(usize, f64, f64)> = bounds.iter().enumerate().map(|(i, &b)| (i, 0.001, b)).collect();
    assert_eq!(*asked.borrow(), expected);
}

#[test]
fn a_scene_is_asked_in_order_with_a_narrowing_bound() {
    scan_and_hold(&[Some(7.0), None, Some(3.0), Some(3.0), Some(9.0), Some(1.0)], 100.0, Some(5), &[
        100.0, 7.0, 7.0, 3.0, 3.0, 3.0,
    ]);
    scan_and_hold(&[None, None], 100.0, None, &[100.0, 100.0]);
    scan_and_hold(&[], 100.0, None, &[]);
    scan_and_hold(&[Some(100.0), Some(f64::NAN), Some(99.0)], 100.0, Some(2), &[100.0, 100.0, 100.0]);
    scan_and_hold(&[Some(2.0), Some(2.0), Some(2.0)], 100.0, Some(0), &[100.0, 2.0, 2.0]);
}

#[test]
fn an_object_that_honours_the_window_is_hidden_by_a_nearer_one() {
    let scene: Vec<Honest> =
        [6.0, 2.0, 4.0, 2.0, 8.0].iter().enumerate().map(|(id, &t)| Honest { id, t }).collect();
    match scene[..].hit(&(), s(0.001), s(1e50)) {
        HitRecord::Hit { t, material, .. } => {
            assert_eq!(f(t), 2.0);
            assert_eq!(material, 1);
        }
        HitRecord::Nothing => panic!("a hit was reported"),
    }
    // Nothing lies in a window that ends before the nearest object.
    assert!(!scene[..].hit(&(), s(0.001), s(1.5)).is_hit());
    // Nothing lies in a window that starts beyond the farthest.
    assert!(!scene[..].hit(&(), s(9.0), s(1e50)).is_hit());
}
