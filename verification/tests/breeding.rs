use sardips::breeding::{apply_pending_breeds, Breeder};
use sardips::timer::RepeatingTimer;
use sardips::breeding::{
    attempt_hatch, breed_kind, breeding_result, dedupe_breed_requests, Egg, EggHatchAttempt,
    PetKind, PetTemplate, PetTemplateDatabase, EGG_HATCH_ATTEMPT_INTERVAL,
};

const ALL_KINDS: [PetKind; 4] =
    [PetKind::Blob, PetKind::Object, PetKind::Creature, PetKind::Supernatural];

fn kind_name(kind: PetKind) -> String {
    format!("{:?}", kind)
}

#[test]
fn test_all_combos_exist() {
    let mut pet_db = PetTemplateDatabase { templates: vec![] };
    // Put one of every kind into the db
    for kind in ALL_KINDS {
        pet_db.templates.push(PetTemplate {
            species_name: kind_name(kind),
            kind,
            starter: true,
        });
    }

    let breeding_kinds = ALL_KINDS
        .iter()
        .copied()
        .filter(|&kind| kind != PetKind::Blob)
        .collect::<Vec<_>>();

    for kind_left in &breeding_kinds {
        for kind_right in &breeding_kinds {
            let breeding = [*kind_left, *kind_right];
            let result = breeding_result(breeding, &pet_db, 0);
            assert!(
                result.is_some(),
                "No result for {:?} and {:?}",
                kind_left,
                kind_right
            );
        }
    }
}

#[test]
fn breeding_is_symmetric_and_follows_the_table() {
    for a in ALL_KINDS {
        for b in ALL_KINDS {
            if a != PetKind::Blob && b != PetKind::Blob {
                assert_eq!(breed_kind(a, b), breed_kind(b, a));
            }
        }
    }
    assert_eq!(breed_kind(PetKind::Object, PetKind::Object), PetKind::Creature);
    assert_eq!(breed_kind(PetKind::Object, PetKind::Creature), PetKind::Object);
    assert_eq!(breed_kind(PetKind::Supernatural, PetKind::Object), PetKind::Supernatural);
    assert_eq!(breed_kind(PetKind::Creature, PetKind::Creature), PetKind::Supernatural);
    assert_eq!(breed_kind(PetKind::Supernatural, PetKind::Creature), PetKind::Object);
    assert_eq!(breed_kind(PetKind::Supernatural, PetKind::Supernatural), PetKind::Creature);
}

#[test]
fn blobs_do_not_breed_and_starters_are_picked() {
    let db = PetTemplateDatabase {
        templates: vec![
            PetTemplate { species_name: "Rock".to_string(), kind: PetKind::Object, starter: true },
            PetTemplate { species_name: "Cat".to_string(), kind: PetKind::Creature, starter: false },
            PetTemplate { species_name: "Dog".to_string(), kind: PetKind::Creature, starter: true },
            PetTemplate { species_name: "Fox".to_string(), kind: PetKind::Creature, starter: true },
        ],
    };
    assert!(breeding_result([PetKind::Blob, PetKind::Object], &db, 0).is_none());
    // Two objects breed a creature: the starters are Dog and Fox.
    let first = breeding_result([PetKind::Object, PetKind::Object], &db, 0).unwrap();
    assert_eq!(first.species_name, "Dog");
    let second = breeding_result([PetKind::Object, PetKind::Object], &db, 3).unwrap();
    assert_eq!(second.species_name, "Fox");
    assert_eq!(db.starters_of_kind(PetKind::Creature), vec![2, 3]);
}

#[test]
fn eggs_start_as_blobs() {
    assert_eq!(Egg::new().contains, "Blob");
    let hatch = EggHatchAttempt::new();
    assert_eq!(hatch.successes, 0);
    assert_eq!(hatch.attempt_timer.duration, EGG_HATCH_ATTEMPT_INTERVAL);
}

#[test]
fn repeated_breed_requests_are_dropped() {
    let requests = vec![(1, 2), (3, 4), (1, 2), (2, 1), (3, 4)];
    assert_eq!(dedupe_breed_requests(&requests), vec![(1, 2), (3, 4), (2, 1)]);
}

#[test]
fn an_egg_hatches_on_its_third_success() {
    let hatch = EggHatchAttempt::new();
    // Before the interval passes nothing is attempted.
    let waiting = attempt_hatch(hatch, EGG_HATCH_ATTEMPT_INTERVAL - 1, 0, 0).unwrap();
    assert_eq!(waiting.successes, 0);
    // A high roll fails the attempt.
    let failed = attempt_hatch(hatch, EGG_HATCH_ATTEMPT_INTERVAL, 0, 51).unwrap();
    assert_eq!(failed.successes, 0);
    // A low roll succeeds and restarts the timer.
    let once = attempt_hatch(hatch, EGG_HATCH_ATTEMPT_INTERVAL, 0, 50).unwrap();
    assert_eq!(once.successes, 1);
    assert_eq!(once.attempt_timer.elapsed, 0);
    let twice = attempt_hatch(once, EGG_HATCH_ATTEMPT_INTERVAL, 0, 3).unwrap();
    assert_eq!(twice.successes, 2);
    assert!(attempt_hatch(twice, EGG_HATCH_ATTEMPT_INTERVAL, 0, 3).is_none());
}

#[test]
fn pending_breeds_lay_eggs_and_restart_timers() {
    let db = PetTemplateDatabase {
        templates: vec![
            PetTemplate { species_name: "Rock".to_string(), kind: PetKind::Object, starter: true },
            PetTemplate { species_name: "Dog".to_string(), kind: PetKind::Creature, starter: true },
            PetTemplate { species_name: "Ghost".to_string(), kind: PetKind::Supernatural, starter: true },
        ],
    };
    let mut timer = RepeatingTimer::new(100);
    timer.tick(150);
    let breeder = |kind| Some(Breeder { kind, breed_timer: timer, ready_to_breed: true });
    let mut pets = vec![breeder(PetKind::Object), breeder(PetKind::Object), None, breeder(PetKind::Blob)];
    let requests = vec![(0, 1), (0, 1), (0, 2), (1, 3)];
    let eggs = apply_pending_breeds(&requests, &mut pets, &db, &vec![0, 0, 0, 0]);
    assert_eq!(eggs, vec!["Dog".to_string()]);
    let bred = pets[0].unwrap();
    assert!(!bred.ready_to_breed);
    assert_eq!(bred.breed_timer.elapsed, 0);
    assert_eq!(pets[3].unwrap().breed_timer.elapsed, 50);
    assert!(pets[3].unwrap().ready_to_breed);
}

#[test]
fn pets_not_ready_to_breed_lay_no_egg() {
    let db = PetTemplateDatabase {
        templates: vec![
            PetTemplate { species_name: "Rock".to_string(), kind: PetKind::Object, starter: true },
            PetTemplate { species_name: "Dog".to_string(), kind: PetKind::Creature, starter: true },
            PetTemplate { species_name: "Ghost".to_string(), kind: PetKind::Supernatural, starter: true },
        ],
    };
    let mut timer = RepeatingTimer::new(100);
    timer.tick(30);
    let ready = Some(Breeder { kind: PetKind::Creature, breed_timer: timer, ready_to_breed: true });
    let waiting = Some(Breeder { kind: PetKind::Creature, breed_timer: timer, ready_to_breed: false });
    let mut pets = vec![ready, waiting, ready];
    let requests = vec![(0, 1), (1, 2), (0, 2)];
    let eggs = apply_pending_breeds(&requests, &mut pets, &db, &vec![0, 0, 0]);
    assert_eq!(eggs, vec!["Ghost".to_string()]);
    assert_eq!(pets[1], waiting);
    assert!(!pets[0].unwrap().ready_to_breed);
    assert!(!pets[2].unwrap().ready_to_breed);
    assert_eq!(pets[0].unwrap().breed_timer.elapsed, 0);
}
