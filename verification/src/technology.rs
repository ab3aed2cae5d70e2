//! The technology catalog: a static, append-only table of technologies
//! with prerequisites.  Multipliers are kept in whole percent so that the
//! catalog is exact integer data; a caller scales them as it needs.

use vstd::prelude::*;

verus! {

/// One catalog entry.  Prerequisites name earlier entries by index.
#[derive(Debug, Clone)]
pub struct TechDefinition {
    pub id: String,
    pub display: String,
    pub difficulty: u64,
    pub food_multiplier_pct: u64,
    pub energy_multiplier_pct: u64,
    pub prerequisites: Vec<usize>,
}

/// A well-formed catalog: every prerequisite points at an earlier entry.
pub open spec fn catalog_wf(catalog: Seq<TechDefinition>) -> bool {
    forall|j: int, p: int|
        0 <= j < catalog.len() && 0 <= p < catalog[j].prerequisites@.len()
            ==> #[trigger] catalog[j].prerequisites@[p] < j
}

/// The technology tree, in declaration order.
pub fn tech_tree() -> (catalog: Vec<TechDefinition>)
    ensures
        catalog@.len() == 4,
        catalog_wf(catalog@),
        catalog@[0].id@ == "adaptive_farming"@,
        catalog@[0].difficulty == 12000,
        catalog@[0].food_multiplier_pct == 108,
        catalog@[0].energy_multiplier_pct == 100,
        catalog@[0].prerequisites@ =~= Seq::<usize>::empty(),
        catalog@[1].id@ == "grid_storage"@,
        catalog@[1].difficulty == 16000,
        catalog@[1].food_multiplier_pct == 100,
        catalog@[1].energy_multiplier_pct == 112,
        catalog@[1].prerequisites@ =~= seq![0usize],
        catalog@[2].id@ == "automation_lines"@,
        catalog@[2].difficulty == 22500,
        catalog@[2].food_multiplier_pct == 106,
        catalog@[2].energy_multiplier_pct == 105,
        catalog@[2].prerequisites@ =~= seq![0usize],
        catalog@[3].id@ == "circular_economy"@,
        catalog@[3].difficulty == 30000,
        catalog@[3].food_multiplier_pct == 104,
        catalog@[3].energy_multiplier_pct == 108,
        catalog@[3].prerequisites@ =~= seq![1usize, 2usize],
{
    let mut catalog: Vec<TechDefinition> = Vec::new();
    catalog.push(
        TechDefinition {
            id: "adaptive_farming".to_owned(),
            display: "Adaptive Farming".to_owned(),
            difficulty: 12000,
            food_multiplier_pct: 108,
            energy_multiplier_pct: 100,
            prerequisites: Vec::new(),
        },
    );
    let mut grid_prereqs: Vec<usize> = Vec::new();
    grid_prereqs.push(0);
    catalog.push(
        TechDefinition {
            id: "grid_storage".to_owned(),
            display: "Grid Storage".to_owned(),
            difficulty: 16000,
            food_multiplier_pct: 100,
            energy_multiplier_pct: 112,
            prerequisites: grid_prereqs,
        },
    );
    let mut automation_prereqs: Vec<usize> = Vec::new();
    automation_prereqs.push(0);
    catalog.push(
        TechDefinition {
            id: "automation_lines".to_owned(),
            display: "Automation Lines".to_owned(),
            difficulty: 22500,
            food_multiplier_pct: 106,
            energy_multiplier_pct: 105,
            prerequisites: automation_prereqs,
        },
    );
    let mut circular_prereqs: Vec<usize> = Vec::new();
    circular_prereqs.push(1);
    circular_prereqs.push(2);
    catalog.push(
        TechDefinition {
            id: "circular_economy".to_owned(),
            display: "Circular Economy".to_owned(),
            difficulty: 30000,
            food_multiplier_pct: 104,
            energy_multiplier_pct: 108,
            prerequisites: circular_prereqs,
        },
    );
    catalog
}

/// An entry is available once it is not yet unlocked and each of its
/// prerequisites is.
pub open spec fn spec_available(
    catalog: Seq<TechDefinition>,
    unlocked: Seq<usize>,
    j: int,
) -> bool {
    &&& !unlocked.contains(j as usize)
    &&& forall|p: int|
        0 <= p < catalog[j].prerequisites@.len() ==> unlocked.contains(
            #[trigger] catalog[j].prerequisites@[p],
        )
}

/// Whether a sequence of tech indices contains the given one.
#[verifier::loop_isolation(false)]
fn contains_index(v: &Vec<usize>, x: usize) -> (r: bool)
    ensures
        r == v@.contains(x),
{
    let mut i: usize = 0;
    while i < v.len()
        invariant
            0 <= i <= v.len(),
            forall|j: int| 0 <= j < i ==> v@[j] != x,
        decreases v.len() - i,
    {
        if v[i] == x {
            return true;
        }
        i += 1;
    }
    proof {
        assert(!v@.contains(x)) by {
            if v@.contains(x) {
                let w = choose|w: int| 0 <= w < v@.len() && v@[w] == x;
            }
        }
    }
    false
}

/// Look an entry up by its id.  Returns the first entry with that id,
/// in catalog order.
#[verifier::loop_isolation(false)]
pub fn definition<'a>(catalog: &'a Vec<TechDefinition>, id: &str) -> (r: Option<
    &'a TechDefinition,
>)
    ensures
        r matches Some(d) ==> exists|j: int|
            0 <= j < catalog@.len() && catalog@[j] == *d && #[trigger] catalog@[j].id@ == id@,
        r is None ==> forall|j: int| 0 <= j < catalog@.len() ==> #[trigger] catalog@[j].id@ != id@,
{
    let key: String = id.to_owned();
    let mut j: usize = 0;
    while j < catalog.len()
        invariant
            0 <= j <= catalog.len(),
            key@ == id@,
            forall|k: int| 0 <= k < j ==> #[trigger] catalog@[k].id@ != id@,
        decreases catalog.len() - j,
    {
        if catalog[j].id == key {
            return Some(&catalog[j]);
        }
        j += 1;
    }
    None
}

/// The next technology to research: the first catalog entry, in
/// declaration order, that is not unlocked and whose prerequisites all
/// are.  The tie-break is the catalog order itself, so the choice is
/// deterministic.
#[verifier::loop_isolation(false)]
pub fn next_available(catalog: &Vec<TechDefinition>, unlocked: &Vec<usize>) -> (r: Option<usize>)
    ensures
        r matches Some(j) ==> {
            &&& 0 <= j < catalog@.len()
            &&& spec_available(catalog@, unlocked@, j as int)
            &&& forall|k: int| 0 <= k < j ==> !spec_available(catalog@, unlocked@, k)
        },
        r is None ==> forall|k: int|
            0 <= k < catalog@.len() ==> !spec_available(catalog@, unlocked@, k),
{
    let mut j: usize = 0;
    while j < catalog.len()
        invariant
            0 <= j <= catalog.len(),
            forall|k: int| 0 <= k < j ==> !spec_available(catalog@, unlocked@, k),
        decreases catalog.len() - j,
    {
        if !contains_index(unlocked, j) {
            let prereqs = &catalog[j].prerequisites;
            let mut p: usize = 0;
            let mut all_met = true;
            while p < prereqs.len() && all_met
                invariant
                    0 <= p <= prereqs.len(),
                    all_met ==> forall|q: int|
                        0 <= q < p ==> unlocked@.contains(#[trigger] prereqs@[q]),
                    !all_met ==> exists|q: int|
                        0 <= q < prereqs@.len() && !unlocked@.contains(#[trigger] prereqs@[q]),
                decreases prereqs.len() - p, (if all_met { 1int } else { 0 }),
            {
                if !contains_index(unlocked, prereqs[p]) {
                    all_met = false;
                } else {
                    p += 1;
                }
            }
            if all_met {
                return Some(j);
            }
        }
        j += 1;
    }
    None
}

/// Record a completed technology: add it to the unlocked list unless it
/// is already there.  The unlocked list never holds duplicates.
#[verifier::loop_isolation(false)]
pub fn unlock(unlocked: &mut Vec<usize>, tech: usize)
    requires
        old(unlocked)@.no_duplicates(),
    ensures
        final (unlocked)@.no_duplicates(),
        final (unlocked)@.contains(tech),
        final (unlocked)@ == if old(unlocked)@.contains(tech) {
            old(unlocked)@
        } else {
            old(unlocked)@.push(tech)
        },
{
    if !contains_index(unlocked, tech) {
        let ghost prior = unlocked@;
        unlocked.push(tech);
        proof {
            assert(unlocked@.last() == tech);
            assert(unlocked@.contains(tech));
            assert forall|p: int, q: int|
                0 <= p < q < unlocked@.len() implies unlocked@[p] != unlocked@[q] by {
                if q == unlocked@.len() - 1 && unlocked@[p] == tech {
                    assert(prior.contains(tech));
                }
            }
        }
    }
}

} // verus!
