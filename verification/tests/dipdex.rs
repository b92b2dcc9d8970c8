use sardips::dipdex::{description_key, sensation_groups, SensationGroup};

#[test]
fn a_missing_description_falls_back_to_the_note() {
    assert_eq!(description_key("pet.rock.dipdex".to_string(), true, "dipdex.none"), "pet.rock.dipdex");
    assert_eq!(description_key("pet.rock.dipdex".to_string(), false, "dipdex.none"), "dipdex.none");
}

#[test]
fn sensations_are_grouped_by_rating_in_order() {
    // (food kind, rating): kinds 7 and 2 share rating 1, kind 4 has rating 0,
    // kind 9 a rating past the last one.
    let sensations = vec![(7, 1), (4, 0), (2, 1), (9, 5)];
    let groups = sensation_groups(&sensations, 3);
    assert_eq!(
        groups,
        vec![
            SensationGroup { rating: 0, kinds: vec![4] },
            SensationGroup { rating: 1, kinds: vec![2, 7] },
        ]
    );
    assert!(sensation_groups(&vec![], 3).is_empty());
}
