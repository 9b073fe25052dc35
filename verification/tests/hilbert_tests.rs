use amazon_rose_forest::sharding::hilbert::HilbertCurve;
use amazon_rose_forest::sharding::vector_index::index_bits_per_dimension;

#[test]
fn test_2d_hilbert_curve() {
    let curve = HilbertCurve::new(2, 3);

    let test_points = [
        (vec![0u64, 0], 0u64),
        (vec![0, 1], 1),
        (vec![1, 1], 2),
        (vec![1, 0], 3),
        (vec![2, 0], 4),
        (vec![3, 0], 5),
        (vec![3, 1], 6),
        (vec![2, 1], 7),
    ];

    for (point, expected) in &test_points {
        let index = curve.point_to_index(point);
        assert_eq!(index, *expected, "Point {:?} should map to index {}", point, expected);

        let restored = curve.index_to_point(index);
        assert_eq!(&restored, point, "Index {} should map back to point {:?}", index, point);
    }
}

#[test]
fn test_distance() {
    let curve = HilbertCurve::new(2, 3);

    let point1 = vec![0u64, 0];
    let point2 = vec![1u64, 1];
    let point3 = vec![7u64, 7];

    assert_eq!(curve.distance(&point1, &point2), 2);
    assert_eq!(curve.distance(&point1, &point3), 63);
}

#[test]
fn hilbert_roundtrip_on_every_point_3d() {
    let curve = HilbertCurve::new(3, 2);
    let mut seen = vec![false; 64];
    for x in 0..4u64 {
        for y in 0..4u64 {
            for z in 0..4u64 {
                let p = vec![x, y, z];
                let i = curve.point_to_index(&p);
                assert!(i < 64);
                assert!(!seen[i as usize], "index {} used twice", i);
                seen[i as usize] = true;
                assert_eq!(curve.index_to_point(i), p);
            }
        }
    }
    assert!(seen.iter().all(|s| *s));
}

#[test]
fn hilbert_index_roundtrip_2d() {
    let curve = HilbertCurve::new(2, 4);
    for i in 0..256u64 {
        let p = curve.index_to_point(i);
        assert_eq!(p.len(), 2);
        assert!(p[0] < 16 && p[1] < 16);
        assert_eq!(curve.point_to_index(&p), i);
    }
}

#[test]
fn hilbert_bits_and_distance_symmetry() {
    let curve = HilbertCurve::new(4, 8);
    assert_eq!(curve.bits_per_dimension(), 8);
    let p = vec![1u64, 200, 3, 77];
    let q = vec![255u64, 0, 19, 4];
    assert_eq!(curve.distance(&p, &q), curve.distance(&q, &p));
    assert_eq!(curve.distance(&p, &p), 0);
}

#[test]
fn index_resolution_depends_on_dimensions() {
    assert_eq!(index_bits_per_dimension(1), 10);
    assert_eq!(index_bits_per_dimension(6), 10);
    assert_eq!(index_bits_per_dimension(7), 8);
    assert_eq!(index_bits_per_dimension(10), 6);
    assert_eq!(index_bits_per_dimension(60), 1);
    assert_eq!(index_bits_per_dimension(61), 0);
}
