//! Roots, trunks and branches: the default boards, the limits on trunks,
//! unique names, and which branches a listing shows.
use vstd::prelude::*;
use crate::models::{Branch, Root, Trunk};
use crate::content::{contains_text, texts};
use crate::text::str_eq;

verus! {

/// Largest number of trunks in one root.
pub const MAX_TRUNKS_PER_ROOT: usize = 20;

/// Why a new trunk is refused.
#[derive(Clone, Copy, Debug, PartialEq, Eq, Structural)]
pub enum TrunkRejection {
    TooMany,
    DuplicateName,
}

impl TrunkRejection {
    /// The message a client is told.
    pub fn message(&self) -> (m: &'static str)
        ensures
            *self == TrunkRejection::TooMany ==> m@ == "Maximum trunks per root (20) reached"@,
            *self == TrunkRejection::DuplicateName ==> m@
                == "Trunk with this name already exists in this root"@,
    {
        match self {
            TrunkRejection::TooMany => "Maximum trunks per root (20) reached",
            TrunkRejection::DuplicateName => "Trunk with this name already exists in this root",
        }
    }
}

/// Names of a list of trunks.
pub open spec fn trunk_names(trunks: Seq<Trunk>) -> Seq<Seq<char>> {
    trunks.map_values(|t: Trunk| t.name@)
}

/// Names of a list of branches.
pub open spec fn branch_names(branches: Seq<Branch>) -> Seq<Seq<char>> {
    branches.map_values(|b: Branch| b.name@)
}

/// The verdict on a trunk named `name` in a root that has `existing`.
pub open spec fn trunk_verdict(existing: Seq<Trunk>, name: Seq<char>) -> Result<(), TrunkRejection> {
    if existing.len() >= MAX_TRUNKS_PER_ROOT {
        Err(TrunkRejection::TooMany)
    } else if trunk_names(existing).contains(name) {
        Err(TrunkRejection::DuplicateName)
    } else {
        Ok(())
    }
}

/// Decides whether a trunk named `name` may join a root whose trunks are
/// `existing`: at most `MAX_TRUNKS_PER_ROOT`, names unique.
pub fn check_new_trunk(existing: &Vec<Trunk>, name: &str) -> (r: Result<(), TrunkRejection>)
    ensures
        r == trunk_verdict(existing@, name@),
{
    if existing.len() >= MAX_TRUNKS_PER_ROOT {
        return Err(TrunkRejection::TooMany);
    }
    let mut i: usize = 0;
    while i < existing.len()
        invariant
            i <= existing.len(),
            existing.len() < MAX_TRUNKS_PER_ROOT,
            forall|j: int| 0 <= j < i ==> existing@[j].name@ != name@,
        decreases existing.len() - i,
    {
        if str_eq(existing[i].name.as_str(), name) {
            proof {
                assert(trunk_names(existing@).len() == existing@.len());
                assert(trunk_names(existing@)[i as int] == name@);
                assert(trunk_names(existing@).contains(name@));
            }
            return Err(TrunkRejection::DuplicateName);
        }
        i = i + 1;
    }
    proof {
        if trunk_names(existing@).contains(name@) {
            let j = choose|j: int| 0 <= j < trunk_names(existing@).len() && trunk_names(existing@)[j] == name@;
            assert(existing@[j].name@ == name@);
        }
    }
    Ok(())
}

/// Why a new branch is refused.
#[derive(Clone, Copy, Debug, PartialEq, Eq, Structural)]
pub enum BranchRejection {
    IdTaken,
    DuplicateName,
}

impl BranchRejection {
    /// The message a client is told.
    pub fn message(&self) -> (m: &'static str)
        ensures
            *self == BranchRejection::IdTaken ==> m@ == "Branch ID already exists"@,
            *self == BranchRejection::DuplicateName ==> m@
                == "Branch with this name already exists in this root"@,
    {
        match self {
            BranchRejection::IdTaken => "Branch ID already exists",
            BranchRejection::DuplicateName => "Branch with this name already exists in this root",
        }
    }
}

/// Ids of a list of branches.
pub open spec fn branch_ids(branches: Seq<Branch>) -> Seq<Seq<char>> {
    branches.map_values(|b: Branch| b.id@)
}

/// Decides whether a branch may be created under the id `id`, given every
/// branch there is: ids are unique.
pub fn check_branch_id(all: &Vec<Branch>, id: &str) -> (r: Result<(), BranchRejection>)
    ensures
        r == (if branch_ids(all@).contains(id@) {
            Err::<(), BranchRejection>(BranchRejection::IdTaken)
        } else {
            Ok::<(), BranchRejection>(())
        }),
{
    let mut i: usize = 0;
    while i < all.len()
        invariant
            i <= all.len(),
            forall|j: int| 0 <= j < i ==> all@[j].id@ != id@,
        decreases all.len() - i,
    {
        if str_eq(all[i].id.as_str(), id) {
            proof {
                assert(branch_ids(all@)[i as int] == id@);
            }
            return Err(BranchRejection::IdTaken);
        }
        i = i + 1;
    }
    proof {
        if branch_ids(all@).contains(id@) {
            let j = choose|j: int| 0 <= j < branch_ids(all@).len() && branch_ids(all@)[j] == id@;
            assert(all@[j].id@ == id@);
        }
    }
    Ok(())
}

/// Decides whether a branch named `name` may join a root whose branches are
/// `existing`: names are unique within a root.
pub fn check_new_branch(existing: &Vec<Branch>, name: &str) -> (r: Result<(), BranchRejection>)
    ensures
        r == (if branch_names(existing@).contains(name@) {
            Err::<(), BranchRejection>(BranchRejection::DuplicateName)
        } else {
            Ok::<(), BranchRejection>(())
        }),
{
    let mut i: usize = 0;
    while i < existing.len()
        invariant
            i <= existing.len(),
            forall|j: int| 0 <= j < i ==> existing@[j].name@ != name@,
        decreases existing.len() - i,
    {
        if str_eq(existing[i].name.as_str(), name) {
            proof {
                assert(branch_names(existing@)[i as int] == name@);
            }
            return Err(BranchRejection::DuplicateName);
        }
        i = i + 1;
    }
    proof {
        if branch_names(existing@).contains(name@) {
            let j = choose|j: int| 0 <= j < branch_names(existing@).len() && branch_names(existing@)[j] == name@;
            assert(existing@[j].name@ == name@);
        }
    }
    Ok(())
}

/// A branch admitted by the id check keeps the ids of all branches distinct.
pub proof fn lemma_branch_id_admission_keeps_ids_distinct(all: Seq<Branch>, branch: Branch)
    requires
        branch_ids(all).no_duplicates(),
        !branch_ids(all).contains(branch.id@),
    ensures
        branch_ids(all.push(branch)).no_duplicates(),
{
    assert(branch_ids(all.push(branch)) =~= branch_ids(all).push(branch.id@));
}

/// A trunk admitted by the check keeps its root within the limit and the
/// root's trunk names distinct.
pub proof fn lemma_trunk_admission_keeps_root_valid(existing: Seq<Trunk>, trunk: Trunk)
    requires
        trunk_names(existing).no_duplicates(),
        trunk_verdict(existing, trunk.name@) is Ok,
    ensures
        existing.push(trunk).len() <= MAX_TRUNKS_PER_ROOT,
        trunk_names(existing.push(trunk)).no_duplicates(),
{
    assert(trunk_names(existing.push(trunk)) =~= trunk_names(existing).push(trunk.name@));
}

/// A branch admitted by the check keeps the root's branch names distinct.
pub proof fn lemma_branch_admission_keeps_names_distinct(existing: Seq<Branch>, branch: Branch)
    requires
        branch_names(existing).no_duplicates(),
        !branch_names(existing).contains(branch.name@),
    ensures
        branch_names(existing.push(branch)).no_duplicates(),
{
    assert(branch_names(existing.push(branch)) =~= branch_names(existing).push(branch.name@));
}

impl Root {
    /// Lists `branch_id` among the root's branches, once.  Returns whether it
    /// was new.
    pub fn register_branch(&mut self, branch_id: &str) -> (added: bool)
        ensures
            added == !texts(old(self).branches@).contains(branch_id@),
            added ==> texts(final(self).branches@) == texts(old(self).branches@).push(branch_id@)
                && *final(self) == (Root { branches: final(self).branches, ..*old(self) }),
            !added ==> *final(self) == *old(self),
            texts(old(self).branches@).no_duplicates() ==> texts(final(self).branches@).no_duplicates(),
    {
        if contains_text(&self.branches, branch_id) {
            return false;
        }
        self.branches.push(branch_id.to_owned());
        proof {
            assert(texts(self.branches@) =~= texts(old(self).branches@).push(branch_id@));
        }
        true
    }
}

/// Trunks of root `root_id`.
pub open spec fn trunk_in_root(root_id: Seq<char>) -> spec_fn(Trunk) -> bool {
    |t: Trunk| t.root_id@ == root_id
}

/// The trunks of `trunks` that belong to root `root_id`, in their order.
pub fn trunks_in_root(trunks: Vec<Trunk>, root_id: &str) -> (r: Vec<Trunk>)
    ensures
        r@ == trunks@.filter(trunk_in_root(root_id@)),
{
    let ghost all = trunks@;
    let ghost pred = trunk_in_root(root_id@);
    let mut out: Vec<Trunk> = Vec::new();
    proof {
        assert(all.take(all.len() as int) =~= all);
    }
    for t in it: trunks
        invariant
            it.seq() == all,
            pred == trunk_in_root(root_id@),
            all.take(all.len() as int) == all,
            out@ == all.take(it.index()).filter(pred),
        ensures
            out@ == all.filter(pred),
    {
        proof {
            reveal_with_fuel(Seq::<_>::filter, 1);
            assert(all.take(it.index() + 1).drop_last() =~= all.take(it.index()));
        }
        if str_eq(t.root_id.as_str(), root_id) {
            out.push(t);
        }
    }
    out
}

/// Branches of root `root_id`.
pub open spec fn branch_in_root(root_id: Seq<char>) -> spec_fn(Branch) -> bool {
    |b: Branch| b.root_id@ == root_id
}

/// Branches filed under trunk `trunk_id`.
pub open spec fn branch_in_trunk(trunk_id: Seq<char>) -> spec_fn(Branch) -> bool {
    |b: Branch| b.trunk_id matches Some(t) && t@ == trunk_id
}

/// The branches of `branches` that belong to root `root_id`, in their order.
pub fn branches_in_root(branches: Vec<Branch>, root_id: &str) -> (r: Vec<Branch>)
    ensures
        r@ == branches@.filter(branch_in_root(root_id@)),
{
    let ghost all = branches@;
    let ghost pred = branch_in_root(root_id@);
    let mut out: Vec<Branch> = Vec::new();
    proof {
        assert(all.take(all.len() as int) =~= all);
    }
    for b in it: branches
        invariant
            it.seq() == all,
            pred == branch_in_root(root_id@),
            all.take(all.len() as int) == all,
            out@ == all.take(it.index()).filter(pred),
        ensures
            out@ == all.filter(pred),
    {
        proof {
            reveal_with_fuel(Seq::<_>::filter, 1);
            assert(all.take(it.index() + 1).drop_last() =~= all.take(it.index()));
        }
        if str_eq(b.root_id.as_str(), root_id) {
            out.push(b);
        }
    }
    out
}

/// The branches of `branches` filed under trunk `trunk_id`, in their order.
pub fn branches_in_trunk(branches: Vec<Branch>, trunk_id: &str) -> (r: Vec<Branch>)
    ensures
        r@ == branches@.filter(branch_in_trunk(trunk_id@)),
{
    let ghost all = branches@;
    let ghost pred = branch_in_trunk(trunk_id@);
    let mut out: Vec<Branch> = Vec::new();
    proof {
        assert(all.take(all.len() as int) =~= all);
    }
    for b in it: branches
        invariant
            it.seq() == all,
            pred == branch_in_trunk(trunk_id@),
            all.take(all.len() as int) == all,
            out@ == all.take(it.index()).filter(pred),
        ensures
            out@ == all.filter(pred),
    {
        proof {
            reveal_with_fuel(Seq::<_>::filter, 1);
            assert(all.take(it.index() + 1).drop_last() =~= all.take(it.index()));
        }
        let hit = match &b.trunk_id {
            Some(t) => str_eq(t.as_str(), trunk_id),
            None => false,
        };
        if hit {
            out.push(b);
        }
    }
    out
}

// ---------------------------------------------------------------------
// The default roots
// ---------------------------------------------------------------------

/// Number of default roots, one per letter.
pub const DEFAULT_ROOT_COUNT: usize = 26;

/// The letter of the `i`-th default root.
pub open spec fn root_letter(i: int) -> char {
    seq!['a', 'b', 'c', 'd', 'e', 'f', 'g', 'h', 'i', 'j', 'k', 'l', 'm', 'n', 'o', 'p', 'q', 'r', 's',
    't', 'u', 'v', 'w', 'x', 'y', 'z'][i]
}

/// The topic of the `i`-th default root.
pub open spec fn root_topic(i: int) -> Seq<char> {
    seq![
        "Anime & Manga"@,
        "Books & Literature"@,
        "Cooking & Food"@,
        "Drugs (18+)"@,
        "Economy & Finance"@,
        "Fashion & Style"@,
        "Gaming (Video & Tabletop)"@,
        "Hobbies"@,
        "Internet Culture & Memes"@,
        "Jobs & Careers"@,
        "Knowledge & Science"@,
        "Local & Community"@,
        "Music & Audio"@,
        "News & Current Events"@,
        "Outdoors & Nature"@,
        "Porn (18+)"@,
        "Q&A & Advice"@,
        "Roleplay & RPG"@,
        "Sports & Fitness"@,
        "Technology (Gadgets, IT, Software, Automotive)"@,
        "University & Student Life"@,
        "TV & Movies"@,
        "World & Travel"@,
        "Paranormal & Unexplained"@,
        "Social & Relationships"@,
        "Random & Misc"@,
    ][i]
}

/// A default root as `(id, designator, name)`: the id is its letter, the
/// designator is the letter between `/` and `\`.
pub open spec fn default_root_entry(i: int) -> (Seq<char>, Seq<char>, Seq<char>) {
    (seq![root_letter(i)], seq!['/', root_letter(i), '\\'], root_topic(i))
}

/// The default roots, `a` to `z`, as `(id, designator, name)`.
pub fn default_roots() -> (roots: Vec<(String, String, String)>)
    ensures
        roots@.len() == DEFAULT_ROOT_COUNT,
        forall|i: int|
            0 <= i < DEFAULT_ROOT_COUNT ==> (#[trigger] roots@[i].0@, roots@[i].1@, roots@[i].2@)
                == default_root_entry(i),
{
    let letters = [
        'a', 'b', 'c', 'd', 'e', 'f', 'g', 'h', 'i', 'j', 'k', 'l', 'm', 'n', 'o', 'p', 'q', 'r',
        's', 't', 'u', 'v', 'w', 'x', 'y', 'z',
    ];
    let topics = [
        "Anime & Manga",
        "Books & Literature",
        "Cooking & Food",
        "Drugs (18+)",
        "Economy & Finance",
        "Fashion & Style",
        "Gaming (Video & Tabletop)",
        "Hobbies",
        "Internet Culture & Memes",
        "Jobs & Careers",
        "Knowledge & Science",
        "Local & Community",
        "Music & Audio",
        "News & Current Events",
        "Outdoors & Nature",
        "Porn (18+)",
        "Q&A & Advice",
        "Roleplay & RPG",
        "Sports & Fitness",
        "Technology (Gadgets, IT, Software, Automotive)",
        "University & Student Life",
        "TV & Movies",
        "World & Travel",
        "Paranormal & Unexplained",
        "Social & Relationships",
        "Random & Misc",
    ];
    proof {
        assert(letters@ =~= seq!['a', 'b', 'c', 'd', 'e', 'f', 'g', 'h', 'i', 'j', 'k', 'l', 'm', 'n', 'o', 'p', 'q', 'r', 's',
    't', 'u', 'v', 'w', 'x', 'y', 'z']);
        assert forall|i: int| 0 <= i < 26 implies (#[trigger] topics@[i])@ == root_topic(i) by {
        }
    }
    let mut roots: Vec<(String, String, String)> = Vec::new();
    let mut i: usize = 0;
    while i < DEFAULT_ROOT_COUNT
        invariant
            i <= DEFAULT_ROOT_COUNT,
            roots@.len() == i,
            forall|j: int| 0 <= j < 26 ==> letters@[j] == root_letter(j),
            forall|j: int| 0 <= j < 26 ==> (#[trigger] topics@[j])@ == root_topic(j),
            forall|j: int|
                0 <= j < i ==> (#[trigger] roots@[j].0@, roots@[j].1@, roots@[j].2@)
                    == default_root_entry(j),
        decreases DEFAULT_ROOT_COUNT - i,
    {
        let letter = letters[i];
        let mut id = String::new();
        crate::text::string_push(&mut id, letter);
        let mut designator = String::new();
        crate::text::string_push(&mut designator, '/');
        crate::text::string_push(&mut designator, letter);
        crate::text::string_push(&mut designator, '\\');
        let topic = topics[i].to_owned();
        proof {
            assert(id@ =~= seq![root_letter(i as int)]);
            assert(designator@ =~= seq!['/', root_letter(i as int), '\\']);
        }
        roots.push((id, designator, topic));
        i = i + 1;
    }
    roots
}

/// Name of the trunk every default root gets.
pub open spec fn general_trunk_name() -> Seq<char> {
    "General"@
}

/// The trunk every default root gets when it has none, as
/// `(name, description, created_by)`.
pub fn general_trunk() -> (t: (String, String, String))
    ensures
        t.0@ == general_trunk_name(),
        t.1@ == "General discussion — everything that doesn't fit elsewhere"@,
        t.2@ == "system"@,
{
    (
        "General".to_owned(),
        "General discussion — everything that doesn't fit elsewhere".to_owned(),
        "system".to_owned(),
    )
}

/// Some trunk of `trunks` belongs to root `root_id`.
pub open spec fn root_has_trunk(trunks: Seq<Trunk>, root_id: Seq<char>) -> bool {
    exists|k: int| 0 <= k < trunks.len() && #[trigger] trunks[k].root_id@ == root_id
}

/// Whether some trunk of `trunks` belongs to root `root_id`.
fn has_trunk_in_root(trunks: &Vec<Trunk>, root_id: &str) -> (found: bool)
    ensures
        found == root_has_trunk(trunks@, root_id@),
{
    let mut i: usize = 0;
    while i < trunks.len()
        invariant
            i <= trunks.len(),
            forall|k: int| 0 <= k < i ==> #[trigger] trunks@[k].root_id@ != root_id@,
        decreases trunks.len() - i,
    {
        if str_eq(trunks[i].root_id.as_str(), root_id) {
            return true;
        }
        i = i + 1;
    }
    false
}

/// What setting up one default root involves: the root itself, and whether
/// it still needs its general trunk.
#[derive(Clone, Debug)]
pub struct DefaultRootSetup {
    pub id: String,
    pub designator: String,
    pub name: String,
    pub needs_general_trunk: bool,
}

/// The setup of every default root, in order, for a node whose trunks are
/// `trunks`: a root gets the general trunk exactly when it has no trunk.
pub fn plan_defaults(trunks: &Vec<Trunk>) -> (plan: Vec<DefaultRootSetup>)
    ensures
        plan@.len() == DEFAULT_ROOT_COUNT,
        forall|i: int|
            0 <= i < DEFAULT_ROOT_COUNT ==> (#[trigger] plan@[i].id@, plan@[i].designator@, plan@[i].name@)
                == default_root_entry(i) && plan@[i].needs_general_trunk == !root_has_trunk(
                trunks@,
                default_root_entry(i).0,
            ),
{
    let roots = default_roots();
    let ghost all = roots@;
    let mut plan: Vec<DefaultRootSetup> = Vec::new();
    for entry in it: roots
        invariant
            it.seq() == all,
            all.len() == DEFAULT_ROOT_COUNT,
            forall|i: int|
                0 <= i < DEFAULT_ROOT_COUNT ==> (#[trigger] all[i].0@, all[i].1@, all[i].2@) == default_root_entry(i),
            plan@.len() == it.index(),
            forall|i: int|
                0 <= i < it.index() ==> (#[trigger] plan@[i].id@, plan@[i].designator@, plan@[i].name@)
                    == default_root_entry(i) && plan@[i].needs_general_trunk == !root_has_trunk(
                    trunks@,
                    default_root_entry(i).0,
                ),
    {
        let (id, designator, name) = entry;
        let needs = !has_trunk_in_root(trunks, id.as_str());
        plan.push(DefaultRootSetup { id, designator, name, needs_general_trunk: needs });
    }
    plan
}

/// Default roots have distinct ids.
pub proof fn lemma_default_root_ids_distinct(i: int, j: int)
    requires
        0 <= i < DEFAULT_ROOT_COUNT,
        0 <= j < DEFAULT_ROOT_COUNT,
        i != j,
    ensures
        default_root_entry(i).0 != default_root_entry(j).0,
{
    let s = seq!['a', 'b', 'c', 'd', 'e', 'f', 'g', 'h', 'i', 'j', 'k', 'l', 'm', 'n', 'o', 'p', 'q', 'r', 's',
    't', 'u', 'v', 'w', 'x', 'y', 'z'];
    assert(default_root_entry(i).0[0] == s[i]);
    assert(default_root_entry(j).0[0] == s[j]);
    assert(s[i] != s[j]);
}

} // verus!
