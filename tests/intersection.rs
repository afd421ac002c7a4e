use raytracer_challenge::intersection::{t_rank, Intersection, IntersectionCollection, IntersectionType};

fn at(t: f32) -> Intersection {
    Intersection::new(t.to_bits(), 0)
}

fn ts(collection: &IntersectionCollection) -> Vec<f32> {
    (0..collection.len()).map(|i| f32::from_bits(collection.index(i).t_bits)).collect()
}

#[test]
fn hit_all_positive_ts() {
    let intersections = IntersectionCollection::from_vec_unchecked(vec![at(1.0), at(2.0)]);
    let hit = intersections.hit().unwrap();

    assert!(std::ptr::eq(hit, intersections.index(0)));
}

#[test]
fn hit_some_negative_ts() {
    let intersections = IntersectionCollection::from_vec_unchecked(vec![at(-1.0), at(1.0)]);
    let hit = intersections.hit().unwrap();

    assert!(std::ptr::eq(hit, intersections.index(1)));
}

#[test]
fn hit_all_negative_ts() {
    let intersections = IntersectionCollection::from_vec_unchecked(vec![at(-2.0), at(-1.0)]);
    let hit = intersections.hit();

    assert!(hit.is_none());
}

#[test]
fn hit_is_lowest_nonnegative() {
    let mut intersections = IntersectionCollection::new();
    for t in [5.0, 7.0, -3.0, 2.0] {
        intersections.insert(at(t));
    }

    let hit = intersections.hit().unwrap();
    assert_eq!(f32::from_bits(hit.t_bits), 2.0);
    assert_eq!(ts(&intersections), vec![-3.0, 2.0, 5.0, 7.0]);
}

#[test]
fn hit_from_inside_is_the_positive_one() {
    let mut intersections = IntersectionCollection::new();
    intersections.insert(at(1.0));
    intersections.insert(at(-1.0));
    assert_eq!(f32::from_bits(intersections.hit().unwrap().t_bits), 1.0);
}

#[test]
fn empty_collection_has_no_hit() {
    let intersections = IntersectionCollection::new();
    assert!(intersections.is_empty());
    assert_eq!(intersections.len(), 0);
    assert!(intersections.hit().is_none());
}

#[test]
fn zero_counts_as_a_hit() {
    let intersections = IntersectionCollection::from_vec_unchecked(vec![at(-0.5), at(-0.0), at(3.0)]);
    assert!(std::ptr::eq(intersections.hit().unwrap(), intersections.index(1)));
}

#[test]
fn insert_keeps_equal_ts_in_arrival_order() {
    let mut intersections = IntersectionCollection::new();
    intersections.insert(Intersection::new(4.0f32.to_bits(), 0));
    intersections.insert(Intersection::new(1.0f32.to_bits(), 1));
    intersections.insert(Intersection::new(4.0f32.to_bits(), 2));
    let objects: Vec<usize> = (0..3).map(|i| intersections.index(i).object).collect();
    assert_eq!(objects, vec![1, 0, 2]);
}

#[test]
fn merge_keeps_global_order() {
    let mut first = IntersectionCollection::new();
    for t in [4.0, 6.0] {
        first.insert(at(t));
    }
    let mut second = IntersectionCollection::new();
    for t in [4.5, 5.5, -1.0] {
        second.insert(at(t));
    }
    first.merge(second);
    assert_eq!(ts(&first), vec![-1.0, 4.0, 4.5, 5.5, 6.0]);
}

#[test]
fn hit_before_a_distance() {
    let intersections = IntersectionCollection::from_vec_unchecked(vec![at(-2.0), at(3.0), at(9.0)]);
    assert!(intersections.hit_before(5.0f32.to_bits()));
    assert!(!intersections.hit_before(3.0f32.to_bits()));
    assert!(!intersections.hit_before(1.0f32.to_bits()));
    let behind = IntersectionCollection::from_vec_unchecked(vec![at(-2.0)]);
    assert!(!behind.hit_before(5.0f32.to_bits()));
}

#[test]
fn rank_follows_numeric_order() {
    let values = [f32::NEG_INFINITY, -7.5, -1.0, -0.25, 0.0, 0.25, 1.0, 7.5, f32::INFINITY];
    for pair in values.windows(2) {
        assert!(t_rank(pair[0].to_bits()) < t_rank(pair[1].to_bits()));
    }
    assert_eq!(t_rank((-0.0f32).to_bits()), t_rank(0.0f32.to_bits()));
    assert_eq!(t_rank(0.0f32.to_bits()), 0);
}

#[test]
fn side_of_surface() {
    assert_eq!(IntersectionType::from_facing(true), IntersectionType::Inside);
    assert_eq!(IntersectionType::from_facing(false), IntersectionType::Outside);
}

#[test]
fn not_a_number_is_never_the_hit() {
    let intersections =
        IntersectionCollection::from_vec_unchecked(vec![at(-1.0), at(2.0), at(f32::INFINITY), at(f32::NAN)]);
    assert_eq!(f32::from_bits(intersections.hit().unwrap().t_bits), 2.0);
    let only_nan = IntersectionCollection::from_vec_unchecked(vec![at(-1.0), at(f32::NAN)]);
    assert!(only_nan.hit().is_none());
    assert!(!only_nan.hit_before(5.0f32.to_bits()));
    let infinite = IntersectionCollection::from_vec_unchecked(vec![at(f32::INFINITY)]);
    assert!(infinite.hit().is_some());
}
