//! Which species two pets breed into, and how eggs hatch.
use vstd::prelude::*;
use vstd::string::*;

use crate::timer::{spec_tick, RepeatingTimer};

verus! {

/// Thirty minutes, in nanoseconds: how often an egg tries to hatch.
pub const EGG_HATCH_ATTEMPT_INTERVAL: u64 = 1_800_000_000_000;

/// Two days, in nanoseconds: past this age an egg tries to hatch at every tick.
pub const MAX_EGG_LIFE: u64 = 172_800_000_000_000;

/// The kind of a pet species.
#[derive(Clone, Copy, Debug, PartialEq, Eq, Structural)]
pub enum PetKind {
    Blob,
    Object,
    Creature,
    Supernatural,
}

/// Order of kinds when a breeding pair is sorted.
pub open spec fn kind_rank(k: PetKind) -> int {
    match k {
        PetKind::Blob => 0,
        PetKind::Object => 1,
        PetKind::Creature => 2,
        PetKind::Supernatural => 3,
    }
}

/// The kind two non-blob kinds breed into, whichever order they come in:
/// two objects or two supernaturals make a creature, an object and a creature
/// make an object, an object and a supernatural make a supernatural, two
/// creatures make a supernatural, a creature and a supernatural make an object.
pub open spec fn spec_breed_kind(a: PetKind, b: PetKind) -> PetKind {
    let (l, r) = if kind_rank(a) <= kind_rank(b) {
        (a, b)
    } else {
        (b, a)
    };
    match (l, r) {
        (PetKind::Object, PetKind::Object) => PetKind::Creature,
        (PetKind::Object, PetKind::Creature) => PetKind::Object,
        (PetKind::Object, PetKind::Supernatural) => PetKind::Supernatural,
        (PetKind::Creature, PetKind::Creature) => PetKind::Supernatural,
        (PetKind::Creature, PetKind::Supernatural) => PetKind::Object,
        _ => PetKind::Creature,
    }
}

fn kind_rank_exec(k: PetKind) -> (r: u8)
    ensures
        r == kind_rank(k),
{
    match k {
        PetKind::Blob => 0,
        PetKind::Object => 1,
        PetKind::Creature => 2,
        PetKind::Supernatural => 3,
    }
}

/// The kind two non-blob kinds breed into (see `spec_breed_kind`).
pub fn breed_kind(a: PetKind, b: PetKind) -> (k: PetKind)
    requires
        a != PetKind::Blob,
        b != PetKind::Blob,
    ensures
        k == spec_breed_kind(a, b),
{
    let (l, r) = if kind_rank_exec(a) <= kind_rank_exec(b) {
        (a, b)
    } else {
        (b, a)
    };
    match (l, r) {
        (PetKind::Object, PetKind::Object) => PetKind::Creature,
        (PetKind::Object, PetKind::Creature) => PetKind::Object,
        (PetKind::Object, PetKind::Supernatural) => PetKind::Supernatural,
        (PetKind::Creature, PetKind::Creature) => PetKind::Supernatural,
        (PetKind::Creature, PetKind::Supernatural) => PetKind::Object,
        _ => PetKind::Creature,
    }
}

/// Breeding does not depend on the order of the parents, and never yields a blob.
pub proof fn lemma_breeding_symmetric(a: PetKind, b: PetKind)
    requires
        a != PetKind::Blob,
        b != PetKind::Blob,
    ensures
        spec_breed_kind(a, b) == spec_breed_kind(b, a),
        spec_breed_kind(a, b) != PetKind::Blob,
{
}

/// What breeding needs to know of a species.
#[derive(Debug)]
pub struct PetTemplate {
    pub species_name: String,
    pub kind: PetKind,
    /// Whether the species can come out of an egg.
    pub starter: bool,
}

/// All known species.
#[derive(Debug)]
pub struct PetTemplateDatabase {
    pub templates: Vec<PetTemplate>,
}

/// Positions of the starter species of `kind` among the first `n` templates, in order.
pub open spec fn starter_positions(t: Seq<PetTemplate>, kind: PetKind, n: int) -> Seq<int>
    decreases n,
{
    if n <= 0 || n > t.len() {
        Seq::empty()
    } else {
        let rest = starter_positions(t, kind, n - 1);
        if t[n - 1].kind == kind && t[n - 1].starter {
            rest.push(n - 1)
        } else {
            rest
        }
    }
}

/// The positions of the starter species of a kind, in order.
pub open spec fn spec_starters(t: Seq<PetTemplate>, kind: PetKind) -> Seq<int> {
    starter_positions(t, kind, t.len() as int)
}

proof fn lemma_starter_positions_bounds(t: Seq<PetTemplate>, kind: PetKind, n: int)
    requires
        0 <= n <= t.len(),
    ensures
        forall|i: int|
            0 <= i < starter_positions(t, kind, n).len() ==> 0 <= #[trigger] starter_positions(
                t,
                kind,
                n,
            )[i] < n,
    decreases n,
{
    if n > 0 {
        lemma_starter_positions_bounds(t, kind, n - 1);
        let rest = starter_positions(t, kind, n - 1);
        let cur = starter_positions(t, kind, n);
        assert forall|i: int| 0 <= i < cur.len() implies 0 <= #[trigger] cur[i] < n by {
            if i < rest.len() {
                assert(cur[i] == rest[i]);
            }
        }
    }
}

impl PetTemplateDatabase {
    /// The positions of the starter species of `kind`, in order.
    pub fn starters_of_kind(&self, kind: PetKind) -> (r: Vec<usize>)
        ensures
            r@.map_values(|i: usize| i as int) == spec_starters(self.templates@, kind),
    {
        let mut r: Vec<usize> = Vec::new();
        let mut i: usize = 0;
        while i < self.templates.len()
            invariant
                0 <= i <= self.templates@.len(),
                r@.map_values(|x: usize| x as int) == starter_positions(
                    self.templates@,
                    kind,
                    i as int,
                ),
            decreases self.templates@.len() - i,
        {
            if self.templates[i].kind == kind && self.templates[i].starter {
                r.push(i);
                assert(r@.map_values(|x: usize| x as int) == starter_positions(
                    self.templates@,
                    kind,
                    i as int,
                ).push(i as int));
            }
            i = i + 1;
        }
        r
    }
}

/// The species two pets breed into: none when either is a blob; otherwise
/// the starter species of the kind they breed into (see `spec_breed_kind`)
/// at position `pick` (taken modulo their number) among those species.
pub fn breeding_result<'a>(
    breeding: [PetKind; 2],
    pet_db: &'a PetTemplateDatabase,
    pick: usize,
) -> (r: Option<&'a PetTemplate>)
    requires
        breeding[0] != PetKind::Blob && breeding[1] != PetKind::Blob ==> spec_starters(
            pet_db.templates@,
            spec_breed_kind(breeding[0], breeding[1]),
        ).len() > 0,
    ensures
        breeding[0] == PetKind::Blob || breeding[1] == PetKind::Blob ==> r is None,
        breeding[0] != PetKind::Blob && breeding[1] != PetKind::Blob ==> {
            let s = spec_starters(pet_db.templates@, spec_breed_kind(breeding[0], breeding[1]));
            r == Some(&pet_db.templates@[s[pick as int % s.len() as int]])
        },
{
    if breeding[0] == PetKind::Blob || breeding[1] == PetKind::Blob {
        return None;
    }
    let kind = breed_kind(breeding[0], breeding[1]);
    let possible = pet_db.starters_of_kind(kind);
    proof {
        lemma_starter_positions_bounds(pet_db.templates@, kind, pet_db.templates@.len() as int);
        assert(possible@.len() == spec_starters(pet_db.templates@, kind).len());
    }
    let idx = possible[pick % possible.len()];
    proof {
        let s = spec_starters(pet_db.templates@, kind);
        assert(idx as int == s[(pick % possible.len()) as int]);
    }
    Some(&pet_db.templates[idx])
}

// ---------------------------------------------------------------------------
// Eggs
// ---------------------------------------------------------------------------

/// An egg's attempts to hatch: it hatches after three successful attempts.
#[derive(Clone, Copy, Debug, PartialEq, Eq)]
pub struct EggHatchAttempt {
    pub attempt_timer: RepeatingTimer,
    pub successes: i32,
}

impl EggHatchAttempt {
    pub fn new() -> (e: Self)
        ensures
            e.attempt_timer == RepeatingTimer::new_spec(EGG_HATCH_ATTEMPT_INTERVAL),
            e.successes == 0,
    {
        EggHatchAttempt {
            attempt_timer: RepeatingTimer::new(EGG_HATCH_ATTEMPT_INTERVAL),
            successes: 0,
        }
    }
}

/// What `delta` nanoseconds do to an egg of the given age, given a roll drawn
/// from `0..100`: the attempt timer advances; when it completes a period, or
/// the egg is older than `MAX_EGG_LIFE`, a roll of at most 50 is a success.
/// The third success hatches the egg (the result is `None`); other successes
/// restart the timer.
pub open spec fn spec_hatch_step(e: EggHatchAttempt, delta: int, age: u64, roll: i32) -> Option<
    EggHatchAttempt,
> {
    let t = spec_tick(e.attempt_timer, delta);
    if (t.finished || age > MAX_EGG_LIFE) && roll <= 50 {
        if e.successes + 1 >= 3 {
            None
        } else {
            Some(
                EggHatchAttempt {
                    attempt_timer: RepeatingTimer {
                        duration: t.duration,
                        elapsed: 0,
                        finished: false,
                        times_finished_this_tick: 0,
                    },
                    successes: (e.successes + 1) as i32,
                },
            )
        }
    } else {
        Some(EggHatchAttempt { attempt_timer: t, successes: e.successes })
    }
}

/// One attempt of an egg to hatch (see `spec_hatch_step`); returns `None`
/// when the egg hatches.
pub fn attempt_hatch(hatch: EggHatchAttempt, delta: u64, age: u64, roll: i32) -> (r: Option<
    EggHatchAttempt,
>)
    requires
        hatch.attempt_timer.elapsed + delta <= u64::MAX,
        hatch.successes < i32::MAX,
    ensures
        r == spec_hatch_step(hatch, delta as int, age, roll),
{
    let mut hatch = hatch;
    hatch.attempt_timer.tick(delta);
    if hatch.attempt_timer.finished || age > MAX_EGG_LIFE {
        if roll > 50 {
            return Some(hatch);
        }
        hatch.successes = hatch.successes + 1;
        if hatch.successes >= 3 {
            return None;
        } else {
            hatch.attempt_timer.reset();
        }
    }
    Some(hatch)
}

/// What an egg holds until it hatches.
pub struct Egg {
    pub contains: String,
}

impl Egg {
    /// An egg holding a blob.
    pub fn new() -> (e: Self)
        ensures
            e.contains@ == "Blob"@,
    {
        Egg { contains: String::from_str("Blob") }
    }
}

// ---------------------------------------------------------------------------
// Breeding requests
// ---------------------------------------------------------------------------

/// The pairs of `s`, each kept only where it first occurs.
pub open spec fn first_occurrences(s: Seq<(u64, u64)>) -> Seq<(u64, u64)>
    decreases s.len(),
{
    if s.len() == 0 {
        s
    } else {
        let rest = first_occurrences(s.drop_last());
        if s.drop_last().contains(s.last()) {
            rest
        } else {
            rest.push(s.last())
        }
    }
}

proof fn lemma_first_occurrences_set(s: Seq<(u64, u64)>)
    ensures
        first_occurrences(s).to_set() == s.to_set(),
        first_occurrences(s).no_duplicates(),
    decreases s.len(),
{
    if s.len() > 0 {
        let t = s.drop_last();
        lemma_first_occurrences_set(t);
        assert(s == t.push(s.last()));
        t.lemma_push_to_set_commute(s.last());
        if t.contains(s.last()) {
            assert(t.to_set().contains(s.last()));
            assert(s.to_set() =~= t.to_set());
        } else {
            let f = first_occurrences(t);
            f.lemma_push_to_set_commute(s.last());
            assert(!f.to_set().contains(s.last()));
            assert(!f.contains(s.last())) by {
                if f.contains(s.last()) {
                    let k = choose|k: int| 0 <= k < f.len() && f[k] == s.last();
                    assert(f.to_set().contains(f[k]));
                }
            }
            let g = f.push(s.last());
            assert forall|i: int, j: int| 0 <= i < g.len() && 0 <= j < g.len() && i != j implies g[i]
                != g[j] by {
                if i == f.len() {
                    assert(g[j] == f[j]);
                } else if j == f.len() {
                    assert(g[i] == f[i]);
                } else {
                    assert(g[i] == f[i] && g[j] == f[j]);
                }
            }
        }
    }
}

/// Drops repeated breeding requests, keeping the first of each pair of
/// breeders in the order the requests came in.
pub fn dedupe_breed_requests(requests: &Vec<(u64, u64)>) -> (r: Vec<(u64, u64)>)
    ensures
        r@ == first_occurrences(requests@),
        r@.no_duplicates(),
        r@.to_set() == requests@.to_set(),
{
    let mut r: Vec<(u64, u64)> = Vec::new();
    let mut i: usize = 0;
    while i < requests.len()
        invariant
            0 <= i <= requests@.len(),
            r@ == first_occurrences(requests@.take(i as int)),
        decreases requests@.len() - i,
    {
        let p = requests[i];
        let mut seen = false;
        let mut k: usize = 0;
        while k < i
            invariant
                0 <= k <= i < requests@.len(),
                seen == requests@.take(k as int).contains(p),
            decreases i - k,
        {
            if requests[k].0 == p.0 && requests[k].1 == p.1 {
                seen = true;
            }
            proof {
                let a = requests@.take(k as int);
                let b = requests@.take(k + 1);
                assert(b == a.push(requests@[k as int]));
                a.lemma_push_to_set_commute(requests@[k as int]);
                assert(b.contains(p) == (a.contains(p) || requests@[k as int] == p)) by {
                    if b.contains(p) {
                        let j = choose|j: int| 0 <= j < b.len() && b[j] == p;
                        if j < a.len() {
                            assert(a[j] == p);
                        }
                    }
                    if a.contains(p) {
                        let j = choose|j: int| 0 <= j < a.len() && a[j] == p;
                        assert(b[j] == p);
                    }
                    if requests@[k as int] == p {
                        assert(b[k as int] == p);
                    }
                }
            }
            k = k + 1;
        }
        proof {
            let t = requests@.take(i + 1);
            assert(t.drop_last() == requests@.take(i as int));
            assert(t.last() == p);
        }
        if !seen {
            r.push(p);
        }
        i = i + 1;
    }
    proof {
        assert(requests@.take(requests@.len() as int) == requests@);
        lemma_first_occurrences_set(requests@);
    }
    r
}


// ---------------------------------------------------------------------------
// Applying breeding requests
// ---------------------------------------------------------------------------

/// A pet that can breed: its kind, the timer that tells when it may breed
/// again, and whether it is ready to.
#[derive(Clone, Copy, Debug, PartialEq, Eq)]
pub struct Breeder {
    pub kind: PetKind,
    pub breed_timer: RepeatingTimer,
    pub ready_to_breed: bool,
}

/// A timer started over.
pub open spec fn restarted(t: RepeatingTimer) -> RepeatingTimer {
    RepeatingTimer { duration: t.duration, elapsed: 0, finished: false, times_finished_this_tick: 0 }
}

/// Whether a request breeds: both pets are breeders (present at their
/// positions), both are ready to breed, and neither is a blob.
pub open spec fn breeds(pets: Seq<Option<Breeder>>, r: (u64, u64)) -> bool {
    &&& r.0 < pets.len()
    &&& r.1 < pets.len()
    &&& pets[r.0 as int] is Some
    &&& pets[r.1 as int] is Some
    &&& pets[r.0 as int]->Some_0.ready_to_breed
    &&& pets[r.1 as int]->Some_0.ready_to_breed
    &&& pets[r.0 as int]->Some_0.kind != PetKind::Blob
    &&& pets[r.1 as int]->Some_0.kind != PetKind::Blob
}

/// Whether the pet at `i` is present and ready to breed.
pub open spec fn is_ready(pets: Seq<Option<Breeder>>, i: int) -> bool {
    pets[i] is Some && pets[i]->Some_0.ready_to_breed
}

fn readiness(pets: &Vec<Option<Breeder>>) -> (r: Vec<bool>)
    ensures
        r@.len() == pets@.len(),
        forall|i: int| 0 <= i < pets@.len() ==> #[trigger] r@[i] == is_ready(pets@, i),
{
    let mut r: Vec<bool> = Vec::new();
    let mut i: usize = 0;
    while i < pets.len()
        invariant
            i <= pets@.len(),
            r@.len() == i,
            forall|j: int| 0 <= j < i ==> #[trigger] r@[j] == is_ready(pets@, j),
        decreases pets@.len() - i,
    {
        let ready = match pets[i] {
            Some(b) => b.ready_to_breed,
            None => false,
        };
        r.push(ready);
        i = i + 1;
    }
    r
}

/// The species of the egg a breeding request lays, with the drawn pick.
pub open spec fn egg_species(t: Seq<PetTemplate>, pets: Seq<Option<Breeder>>, r: (u64, u64), pick: usize) -> Seq<char> {
    let s = spec_starters(
        t,
        spec_breed_kind(pets[r.0 as int]->Some_0.kind, pets[r.1 as int]->Some_0.kind),
    );
    t[s[pick as int % s.len() as int]].species_name@
}

/// The eggs laid by the first `n` requests, in order.
pub open spec fn eggs_laid(
    t: Seq<PetTemplate>,
    pets: Seq<Option<Breeder>>,
    reqs: Seq<(u64, u64)>,
    picks: Seq<usize>,
    n: int,
) -> Seq<Seq<char>>
    decreases n,
{
    if n <= 0 {
        Seq::empty()
    } else {
        let rest = eggs_laid(t, pets, reqs, picks, n - 1);
        if breeds(pets, reqs[n - 1]) {
            rest.push(egg_species(t, pets, reqs[n - 1], picks[n - 1]))
        } else {
            rest
        }
    }
}

/// Whether the pet at `i` took part in one of the first `n` requests that bred.
pub open spec fn has_bred(pets: Seq<Option<Breeder>>, reqs: Seq<(u64, u64)>, i: int, n: int) -> bool {
    exists|k: int| 0 <= k < n && breeds(pets, #[trigger] reqs[k]) && (reqs[k].0 == i || reqs[k].1 == i)
}

/// What breeding does to a pet: its timer starts over and it is no longer ready.
pub open spec fn after_breeding(p: Option<Breeder>) -> Option<Breeder> {
    match p {
        Some(b) => Some(
            Breeder { kind: b.kind, breed_timer: restarted(b.breed_timer), ready_to_breed: false },
        ),
        None => None,
    }
}

/// Every kind but the blob has at least one starter species.
pub open spec fn starters_for_all(t: Seq<PetTemplate>) -> bool {
    &&& spec_starters(t, PetKind::Object).len() > 0
    &&& spec_starters(t, PetKind::Creature).len() > 0
    &&& spec_starters(t, PetKind::Supernatural).len() > 0
}

fn reset_breeder(pets: &mut Vec<Option<Breeder>>, i: usize)
    requires
        i < old(pets)@.len(),
    ensures
        final(pets)@ == old(pets)@.update(i as int, after_breeding(old(pets)@[i as int])),
{
    match pets[i] {
        Some(b) => {
            let mut t = b.breed_timer;
            t.reset();
            pets.set(i, Some(Breeder { kind: b.kind, breed_timer: t, ready_to_breed: false }));
        },
        None => {},
    }
}

/// Applies the breeding requests of a frame: repeated requests are dropped
/// (see `first_occurrences`); each remaining request whose two pets are
/// breeders, were ready to breed when the frame began, and are not blobs
/// lays an egg of the species picked by its draw (see `breeding_result`),
/// and both pets' breed timers start over and they stop
/// being ready; other requests do nothing. Returns the species of the eggs
/// laid, in order. Pets are found by their position in `pets`.
pub fn apply_pending_breeds(
    requests: &Vec<(u64, u64)>,
    pets: &mut Vec<Option<Breeder>>,
    pet_db: &PetTemplateDatabase,
    picks: &Vec<usize>,
) -> (eggs: Vec<String>)
    requires
        starters_for_all(pet_db.templates@),
        picks@.len() >= requests@.len(),
    ensures
        ({
            let reqs = first_occurrences(requests@);
            &&& eggs@.map_values(|e: String| e@) == eggs_laid(
                pet_db.templates@,
                old(pets)@,
                reqs,
                picks@,
                reqs.len() as int,
            )
            &&& final(pets)@.len() == old(pets)@.len()
            &&& forall|i: int|
                0 <= i < old(pets)@.len() ==> #[trigger] final(pets)@[i] == if has_bred(
                    old(pets)@,
                    reqs,
                    i,
                    reqs.len() as int,
                ) {
                    after_breeding(old(pets)@[i])
                } else {
                    old(pets)@[i]
                }
        }),
{
    let reqs = dedupe_breed_requests(requests);
    proof {
        assert(reqs@.len() <= requests@.len()) by {
            lemma_first_occurrences_len(requests@);
        }
    }
    let ghost start = pets@;
    let ready = readiness(pets);
    let mut eggs: Vec<String> = Vec::new();
    let mut k: usize = 0;
    while k < reqs.len()
        invariant
            0 <= k <= reqs@.len(),
            reqs@.len() <= picks@.len(),
            starters_for_all(pet_db.templates@),
            pets@.len() == start.len(),
            ready@.len() == start.len(),
            forall|i: int| 0 <= i < start.len() ==> #[trigger] ready@[i] == is_ready(start, i),
            eggs@.map_values(|e: String| e@) == eggs_laid(pet_db.templates@, start, reqs@, picks@, k as int),
            forall|i: int|
                0 <= i < start.len() ==> (#[trigger] pets@[i]).is_some() == start[i].is_some(),
            forall|i: int|
                0 <= i < start.len() && pets@[i] is Some ==> (#[trigger] pets@[i])->Some_0.kind
                    == start[i]->Some_0.kind,
            forall|i: int|
                0 <= i < start.len() ==> #[trigger] pets@[i] == if has_bred(start, reqs@, i, k as int) {
                    after_breeding(start[i])
                } else {
                    start[i]
                },
        decreases reqs@.len() - k,
    {
        let r = reqs[k];
        let n = pets.len();
        let ghost before = pets@;
        let ghost eggs_before = eggs@;
        let ok = r.0 < n as u64 && r.1 < n as u64 && ready[r.0 as usize] && ready[r.1 as usize]
            && match (pets[r.0 as usize], pets[r.1 as usize]) {
            (Some(a), Some(b)) => a.kind != PetKind::Blob && b.kind != PetKind::Blob,
            _ => false,
        };
        proof {
            assert(ok == breeds(start, r)) by {
                if r.0 < n && r.1 < n {
                    assert(pets@[r.0 as int].is_some() == start[r.0 as int].is_some());
                    assert(pets@[r.1 as int].is_some() == start[r.1 as int].is_some());
                    assert(ready@[r.0 as int] == is_ready(start, r.0 as int));
                    assert(ready@[r.1 as int] == is_ready(start, r.1 as int));
                }
            }
        }
        if ok {
            let a = pets[r.0 as usize].unwrap();
            let b = pets[r.1 as usize].unwrap();
            proof {
                assert(a.kind == start[r.0 as int]->Some_0.kind);
                assert(b.kind == start[r.1 as int]->Some_0.kind);
                lemma_breeding_symmetric(a.kind, b.kind);
                let bk = spec_breed_kind(a.kind, b.kind);
                assert(bk == PetKind::Object || bk == PetKind::Creature || bk == PetKind::Supernatural);
            }
            let template = breeding_result([a.kind, b.kind], pet_db, picks[k]);
            let species = String::from_str(template.unwrap().species_name.as_str());
            eggs.push(species);
            reset_breeder(pets, r.0 as usize);
            reset_breeder(pets, r.1 as usize);
            proof {
                assert(eggs@.map_values(|e: String| e@) =~= eggs_before.map_values(|e: String| e@).push(
                    egg_species(pet_db.templates@, start, r, picks@[k as int]),
                ));
                assert forall|i: int| 0 <= i < start.len() implies #[trigger] pets@[i] == if has_bred(
                    start,
                    reqs@,
                    i,
                    k + 1,
                ) {
                    after_breeding(start[i])
                } else {
                    start[i]
                } by {
                    if i == r.0 || i == r.1 {
                        assert(breeds(start, reqs@[k as int]));
                        assert(has_bred(start, reqs@, i, k + 1));
                        if has_bred(start, reqs@, i, k as int) {
                            assert(before[i] == after_breeding(start[i]));
                        } else {
                            assert(before[i] == start[i]);
                        }
                    } else {
                        assert(pets@[i] == before[i]);
                        if has_bred(start, reqs@, i, k + 1) {
                            let w = choose|w: int|
                                0 <= w < k + 1 && breeds(start, #[trigger] reqs@[w]) && (reqs@[w].0 == i
                                    || reqs@[w].1 == i);
                            assert(w < k);
                            assert(has_bred(start, reqs@, i, k as int));
                        } else {
                            assert(!has_bred(start, reqs@, i, k as int));
                        }
                    }
                }
            }
        } else {
            proof {
                assert forall|i: int| 0 <= i < start.len() implies #[trigger] pets@[i] == if has_bred(
                    start,
                    reqs@,
                    i,
                    k + 1,
                ) {
                    after_breeding(start[i])
                } else {
                    start[i]
                } by {
                    if has_bred(start, reqs@, i, k + 1) {
                        let w = choose|w: int|
                            0 <= w < k + 1 && breeds(start, #[trigger] reqs@[w]) && (reqs@[w].0 == i
                                || reqs@[w].1 == i);
                        assert(w < k);
                        assert(has_bred(start, reqs@, i, k as int));
                    } else {
                        assert(!has_bred(start, reqs@, i, k as int));
                    }
                }
            }
        }
        k = k + 1;
    }
    eggs
}

proof fn lemma_first_occurrences_len(s: Seq<(u64, u64)>)
    ensures
        first_occurrences(s).len() <= s.len(),
    decreases s.len(),
{
    if s.len() > 0 {
        lemma_first_occurrences_len(s.drop_last());
    }
}

} // verus!
