//! The evaluation scores: neighbour-set fidelity, edge distortion and the
//! triangle predicates.

use spring_embed::cluster_id::ClusterID;
use spring_embed::error::FFIError;
use spring_embed::eval::{are_collinear, are_triangles_equivalent, calc_edge_distortion,
    calc_fnn_scores, choose_two_exclusive, count_common, fnn_pair_scores, mean_fx, nearest_k};
use spring_embed::fixed::SCALE;
use spring_embed::triangle::is_valid_triangle;
use spring_embed::vec3::Vec3Fx;

fn fx(x: f64) -> i64 {
    (x * SCALE as f64).round() as i64
}

fn to_f(x: i64) -> f64 {
    x as f64 / SCALE as f64
}

fn id(n: usize) -> ClusterID {
    ClusterID::new(n, 1)
}

#[test]
fn common_neighbour_counts() {
    let a = vec![id(1), id(2), id(3), id(4)];
    let b = vec![id(2), id(4), id(9)];
    assert_eq!(count_common(&a, &b), 2);
    assert_eq!(count_common(&b, &a), 2);
    assert_eq!(count_common(&a, &Vec::new()), 0);
}

#[test]
fn fnn_scores_exact() {
    let original = vec![id(1), id(2), id(3), id(4)];
    let embedded = vec![id(1), id(2), id(8), id(9)];
    let (p, r, f) = fnn_pair_scores(&original, &embedded);
    // Two of four on both sides: precision, recall and F1 all one half.
    assert_eq!(p, SCALE / 2);
    assert_eq!(r, SCALE / 2);
    assert_eq!(f, SCALE / 2);

    // Disjoint sets score zero across the board.
    let none = vec![id(7)];
    let (p0, r0, f0) = fnn_pair_scores(&original, &none);
    assert_eq!(p0, 0);
    assert_eq!(r0, 0);
    assert_eq!(f0, 0);

    // Unbalanced lists: precision 1/2, recall 1, F1 their harmonic mean.
    let half = vec![id(1), id(5)];
    let just_one = vec![id(1)];
    let (p1, r1, f1) = fnn_pair_scores(&half, &just_one);
    assert_eq!(p1, SCALE / 2);
    assert_eq!(r1, SCALE);
    assert!((to_f(f1) - 2.0 / 3.0).abs() < 1e-4);
}

#[test]
fn edge_distortion_values() {
    // Identical triangles distort nothing.
    let t = (fx(3.0), fx(4.0), fx(5.0));
    assert_eq!(calc_edge_distortion(t, t), 0);
    // An equilateral rendering of a 3-4-5 triangle: shares 1/3 each
    // against 1/4, 1/3, 5/12.
    let e = (fx(4.0), fx(4.0), fx(4.0));
    let d = calc_edge_distortion(t, e);
    let expected = (1.0f64 / 3.0 - 0.25).abs() + (5.0f64 / 12.0 - 1.0 / 3.0).abs();
    assert!((to_f(d) - expected).abs() < 1e-4, "{} vs {}", to_f(d), expected);
}

#[test]
fn triangle_equivalence_by_sorted_labels() {
    let reference = vec![(0u8, fx(3.0)), (1u8, fx(4.0)), (2u8, fx(5.0))];
    let same_order = vec![(0u8, fx(3.1)), (1u8, fx(4.2)), (2u8, fx(5.3))];
    let swapped = vec![(0u8, fx(5.0)), (1u8, fx(4.0)), (2u8, fx(3.0))];
    assert!(are_triangles_equivalent(&reference, &same_order));
    assert!(!are_triangles_equivalent(&reference, &swapped));
}

#[test]
fn test_valid_triangle() {
    // A sampled flat triangle: two long sides and a sliver.
    assert!(is_valid_triangle(fx(4.9336863), fx(4.892655), fx(0.041036364)));
    assert!(is_valid_triangle(fx(3.0), fx(4.0), fx(5.0)));
    // Degenerate but closed: the boundary of the inequality, which the
    // placement validator accepts (one-dimensional data lives there).
    assert!(is_valid_triangle(fx(2.0), fx(1.0), fx(1.0)));
    // One side too long to close.
    assert!(!is_valid_triangle(fx(10.0), fx(1.0), fx(2.0)));
    // Negative lengths never close.
    assert!(!is_valid_triangle(fx(-1.0), fx(1.0), fx(1.0)));
}

#[test]
fn test_collinear_points() {
    let p1 = Vec3Fx::new(0, 0, 0);
    let p2 = Vec3Fx::new(fx(1.0), fx(1.0), fx(1.0));
    let p3 = Vec3Fx::new(fx(2.0), fx(2.0), fx(2.0));
    assert!(are_collinear(p1, p2, p3));

    let p4 = Vec3Fx::new(0, 0, 0);
    let p5 = Vec3Fx::new(fx(1.0), fx(1.0), 0);
    let p6 = Vec3Fx::new(fx(2.0), fx(2.0), fx(1.0));
    assert!(!are_collinear(p4, p5, p6));
}

#[test]
fn fnn_scores_average_over_queries() {
    // One query with half fidelity, one with perfect fidelity.
    let q1 = (vec![id(1), id(2), id(3), id(4)], vec![id(1), id(2), id(8), id(9)]);
    let q2 = (vec![id(1), id(2)], vec![id(2), id(1)]);
    let (p, r, f) = calc_fnn_scores(&vec![q1, q2]);
    assert_eq!(p, SCALE / 2 * 3 / 2);
    assert_eq!(r, SCALE / 2 * 3 / 2);
    assert!((to_f(f) - 0.75).abs() < 1e-4);
}

#[test]
fn nearest_k_selection() {
    let cands = vec![
        (id(1), fx(5.0)),
        (id(2), fx(1.0)),
        (id(3), fx(3.0)),
        (id(4), fx(2.0)),
    ];
    let two = nearest_k(&cands, 2);
    assert_eq!(two, vec![(id(2), fx(1.0)), (id(4), fx(2.0))]);
    // Asking for more than exists returns everything, sorted.
    let all = nearest_k(&cands, 9);
    assert_eq!(
        all,
        vec![(id(2), fx(1.0)), (id(4), fx(2.0)), (id(3), fx(3.0)), (id(1), fx(5.0))]
    );
    assert!(nearest_k(&cands, 0).is_empty());
    // Duplicates are counted with multiplicity.
    let dup = vec![(id(7), fx(1.0)), (id(7), fx(1.0)), (id(8), fx(2.0))];
    assert_eq!(nearest_k(&dup, 2), vec![(id(7), fx(1.0)), (id(7), fx(1.0))]);
}

#[test]
fn choose_two_exclusive_sampling() {
    for _ in 0..16 {
        let (a, b) = choose_two_exclusive(5, 2).unwrap();
        assert!(a < 5 && b < 5);
        assert_ne!(a, b);
        assert_ne!(a, 2);
        assert_ne!(b, 2);
    }
    // Too few candidates once the avoided index is taken out.
    assert!(choose_two_exclusive(2, 0).is_none());
    assert!(choose_two_exclusive(1, 9).is_none());
    assert!(choose_two_exclusive(0, 0).is_none());
    // An avoided index outside the range excludes nothing.
    let (a, b) = choose_two_exclusive(2, 9).unwrap();
    assert!(a < 2 && b < 2 && a != b);
}

#[test]
fn mean_of_scores() {
    assert_eq!(mean_fx(&Vec::new()).unwrap_err(), FFIError::DivisionByZero);
    assert_eq!(mean_fx(&vec![fx(1.0), fx(2.0)]).unwrap(), fx(1.5));
    // The mean truncates toward zero in fixed-point steps.
    assert_eq!(mean_fx(&vec![1, 2]).unwrap(), 1);
}
