use amazon_rose_forest::core_lib::centroid::{Centroid, CentroidVector};
use amazon_rose_forest::core_lib::centroid_crdt::{CentroidCRDT, CentroidCRDTError, CentroidOperation, OperationType};
use amazon_rose_forest::holochain::semantic_crdt::VersionVector;

#[derive(Debug, Clone, PartialEq)]
struct TestVector {
    values: Vec<f32>,
}

impl TestVector {
    fn new(values: Vec<f32>) -> Self {
        TestVector { values }
    }
}

impl CentroidVector for TestVector {
    fn blend(&self, count: usize, other: &Self) -> Self {
        let n = count as f32;
        TestVector {
            values: self
                .values
                .iter()
                .zip(other.values.iter())
                .map(|(a, b)| (a * n + b) / (n + 1.0))
                .collect(),
        }
    }

    fn combine(&self, count: usize, other: &Self, other_count: usize) -> Self {
        let n = count as f32;
        let m = other_count as f32;
        TestVector {
            values: self
                .values
                .iter()
                .zip(other.values.iter())
                .map(|(a, b)| (a * n + b * m) / (n + m))
                .collect(),
        }
    }

    fn duplicate(&self) -> Self {
        self.clone()
    }
}

#[test]
fn test_create_centroid() {
    let node_id = 1u128;
    let mut crdt: CentroidCRDT<TestVector> = CentroidCRDT::new(node_id);

    let vector = TestVector::new(vec![1.0, 2.0, 3.0]);
    let centroid_id = crdt.create_centroid(vector.clone());

    assert_eq!(crdt.centroid_count(), 1);
    assert_eq!(crdt.operation_count(), 1);

    let centroid = crdt.get_centroid(centroid_id).unwrap();
    assert_eq!(centroid.vector.values, vector.values);
}

#[test]
fn test_update_centroid() {
    let mut crdt: CentroidCRDT<TestVector> = CentroidCRDT::new(1);

    let vector1 = TestVector::new(vec![1.0, 2.0, 3.0]);
    let centroid_id = crdt.create_centroid(vector1);

    let vector2 = TestVector::new(vec![4.0, 5.0, 6.0]);
    let res = crdt.update_centroid(centroid_id, vector2);
    assert!(res.is_ok());

    assert_eq!(crdt.operation_count(), 2);

    let centroid = crdt.get_centroid(centroid_id).unwrap();
    assert!(centroid.vector.values[0] > 1.0 && centroid.vector.values[0] < 4.0);
    assert!(centroid.vector.values[1] > 2.0 && centroid.vector.values[1] < 5.0);
    assert!(centroid.vector.values[2] > 3.0 && centroid.vector.values[2] < 6.0);
    assert_eq!(centroid.count, 2);
}

#[test]
fn test_delete_centroid() {
    let mut crdt: CentroidCRDT<TestVector> = CentroidCRDT::new(1);

    let vector = TestVector::new(vec![1.0, 2.0, 3.0]);
    let centroid_id = crdt.create_centroid(vector.clone());

    let res = crdt.delete_centroid(centroid_id);
    assert!(res.is_ok());

    assert_eq!(crdt.centroid_count(), 0);
    assert_eq!(crdt.operation_count(), 2);
}

#[test]
fn test_merge() {
    let mut crdt1: CentroidCRDT<TestVector> = CentroidCRDT::new(1);
    let mut crdt2: CentroidCRDT<TestVector> = CentroidCRDT::new(2);

    let vector1 = TestVector::new(vec![1.0, 2.0, 3.0]);
    let centroid_id1 = crdt1.create_centroid(vector1.clone());

    let vector2 = TestVector::new(vec![4.0, 5.0, 6.0]);
    let centroid_id2 = crdt2.create_centroid(vector2.clone());

    crdt1.merge(&crdt2);

    assert_eq!(crdt1.centroid_count(), 2);
    assert!(crdt1.get_centroid(centroid_id1).is_some());
    assert!(crdt1.get_centroid(centroid_id2).is_some());

    let merged_centroid1 = crdt1.get_centroid(centroid_id1).unwrap();
    let merged_centroid2 = crdt1.get_centroid(centroid_id2).unwrap();

    assert_eq!(merged_centroid1.vector.values, vector1.values);
    assert_eq!(merged_centroid2.vector.values, vector2.values);

    assert_eq!(crdt1.operation_count(), 2);
    assert_eq!(crdt1.observed_count(), 2);
}

#[test]
fn test_concurrent_operations() {
    let mut crdt1: CentroidCRDT<TestVector> = CentroidCRDT::new(1);
    let mut crdt2: CentroidCRDT<TestVector> = CentroidCRDT::new(2);

    let centroid_id = 77u128;
    let vector1 = TestVector::new(vec![1.0, 2.0, 3.0]);
    let vector2 = TestVector::new(vec![4.0, 5.0, 6.0]);

    let now: i64 = 1_700_000_000_000;
    let later = now + 10 * 1000;

    let op1 = CentroidOperation {
        id: 1001,
        centroid_id,
        timestamp: now,
        operation_type: OperationType::Create(vector1),
    };
    let op2 = CentroidOperation {
        id: 1002,
        centroid_id,
        timestamp: later,
        operation_type: OperationType::Create(vector2.clone()),
    };

    crdt1.apply_operation(op1);
    crdt2.apply_operation(op2);

    crdt1.merge(&crdt2);

    let centroid = crdt1.get_centroid(centroid_id).unwrap();
    assert_eq!(centroid.vector.values, vector2.values);
}

#[test]
fn older_create_does_not_replace_newer_centroid() {
    let mut crdt: CentroidCRDT<TestVector> = CentroidCRDT::new(1);
    crdt.create_centroid_with(5, 1, 2_000, TestVector::new(vec![9.0]));
    crdt.apply_operation(CentroidOperation {
        id: 2,
        centroid_id: 5,
        timestamp: 1_000,
        operation_type: OperationType::Create(TestVector::new(vec![1.0])),
    });
    assert_eq!(crdt.get_centroid(5).unwrap().vector.values, vec![9.0]);
    assert_eq!(crdt.operation_count(), 2);
}

#[test]
fn applying_a_seen_operation_changes_nothing() {
    let mut crdt: CentroidCRDT<TestVector> = CentroidCRDT::new(1);
    crdt.create_centroid_with(5, 1, 1_000, TestVector::new(vec![1.0]));
    crdt.apply_operation(CentroidOperation {
        id: 1,
        centroid_id: 5,
        timestamp: 9_000,
        operation_type: OperationType::Delete,
    });
    assert_eq!(crdt.centroid_count(), 1);
    assert_eq!(crdt.operation_count(), 1);
}

#[test]
fn merging_twice_is_merging_once() {
    let mut a: CentroidCRDT<TestVector> = CentroidCRDT::new(1);
    let mut b: CentroidCRDT<TestVector> = CentroidCRDT::new(2);
    b.create_centroid_with(5, 1, 1_000, TestVector::new(vec![1.0]));
    b.update_centroid_with(5, 2, 2_000, TestVector::new(vec![3.0])).unwrap();
    a.merge(&b);
    let first = a.get_centroid(5).unwrap().vector.values.clone();
    a.merge(&b);
    assert_eq!(a.get_centroid(5).unwrap().vector.values, first);
    assert_eq!(a.get_centroid(5).unwrap().count, 2);
    assert_eq!(a.operation_count(), 2);
}

#[test]
fn updating_or_deleting_a_missing_centroid_fails() {
    let mut crdt: CentroidCRDT<TestVector> = CentroidCRDT::new(1);
    assert_eq!(
        crdt.update_centroid(9, TestVector::new(vec![1.0])).unwrap_err(),
        CentroidCRDTError::NotFound(9)
    );
    assert_eq!(crdt.delete_centroid(9).unwrap_err(), CentroidCRDTError::NotFound(9));
    assert_eq!(crdt.operation_count(), 0);
}

#[test]
fn centroid_update_counts_vectors() {
    let mut c = Centroid::new_with(3, TestVector::new(vec![0.0, 0.0]), 10);
    c.update_at(&TestVector::new(vec![2.0, 4.0]), 20);
    assert_eq!(c.count, 2);
    assert_eq!(c.updated_at, 20);
    assert_eq!(c.created_at, 10);
    assert_eq!(c.vector.values, vec![1.0, 2.0]);
}

#[test]
fn version_vector_merge_and_dominance() {
    let mut a = VersionVector::new();
    a.increment("n1");
    a.increment("n1");
    let mut b = VersionVector::new();
    b.increment("n2");
    assert!(a.concurrent(&b));
    assert!(!a.dominates(&b));
    let mut c = a.duplicate();
    c.merge(&b);
    assert_eq!(c.get("n1"), 2);
    assert_eq!(c.get("n2"), 1);
    assert!(c.dominates(&a));
    assert!(c.dominates(&b));
    assert!(!c.dominates(&c));
    assert_eq!(a.get("missing"), 0);
}

fn create_op(id: u128, timestamp: i64, value: f32) -> CentroidOperation<TestVector> {
    CentroidOperation { id, centroid_id: 5, timestamp, operation_type: OperationType::Create(TestVector::new(vec![value])) }
}

#[test]
fn concurrent_creates_converge_in_either_order() {
    let mut x: CentroidCRDT<TestVector> = CentroidCRDT::new(1);
    let mut y: CentroidCRDT<TestVector> = CentroidCRDT::new(1);
    x.apply_operation(create_op(1, 1_000, 1.0));
    x.apply_operation(create_op(2, 2_000, 2.0));
    y.apply_operation(create_op(2, 2_000, 2.0));
    y.apply_operation(create_op(1, 1_000, 1.0));
    for c in [&x, &y] {
        let centroid = c.get_centroid(5).unwrap();
        assert_eq!(centroid.vector.values, vec![2.0]);
        assert_eq!(centroid.count, 1);
        assert_eq!(centroid.updated_at, 2_000);
        assert_eq!(c.operation_count(), 2);
    }
}

#[test]
fn get_centroids_lists_each_centroid_once() {
    let mut crdt: CentroidCRDT<TestVector> = CentroidCRDT::new(1);
    crdt.create_centroid_with(5, 1, 1_000, TestVector::new(vec![1.0]));
    crdt.create_centroid_with(6, 2, 1_000, TestVector::new(vec![2.0]));
    crdt.create_centroid_with(7, 3, 1_000, TestVector::new(vec![3.0]));
    crdt.delete_centroid_with(6, 4, 2_000).unwrap();
    let mut ids: Vec<u128> = crdt.get_centroids().iter().map(|c| c.id).collect();
    ids.sort();
    assert_eq!(ids, vec![5, 7]);
}
