//! Case-insensitive search over leaves, branches and roots.
use vstd::prelude::*;
use crate::models::{Branch, Leaf, Root};
use crate::text::chars_of;

verus! {

/// The lower-case form of a text, as `str::to_lowercase` gives it.
pub uninterp spec fn lowercase_of(text: Seq<char>) -> Seq<char>;

/// Every character of `s` is ASCII.
pub open spec fn is_ascii_text(s: Seq<char>) -> bool {
    forall|i: int| 0 <= i < s.len() ==> (#[trigger] s[i] as u32) < 128
}

/// The lower case of an ASCII character: upper-case letters become their
/// lower-case letter, every other character stays.
pub open spec fn ascii_lower_char(c: char) -> char {
    if 'A' <= c && c <= 'Z' {
        ((c as u32) + 32) as char
    } else {
        c
    }
}

/// The lower case of an ASCII text, character by character.
pub open spec fn ascii_lowered(s: Seq<char>) -> Seq<char> {
    Seq::new(s.len(), |i: int| ascii_lower_char(s[i]))
}

/// `a` and `b` are the same text up to the case of ASCII letters.
pub open spec fn same_up_to_ascii_case(a: Seq<char>, b: Seq<char>) -> bool {
    &&& a.len() == b.len()
    &&& forall|i: int| 0 <= i < a.len() ==> ascii_lower_char(#[trigger] a[i]) == ascii_lower_char(b[i])
}

/// Lower-cases `text` (`str::to_lowercase`).  On ASCII text this is the
/// ASCII lower case: `A` to `Z` become `a` to `z` and nothing else changes,
/// as Unicode's lower-case mapping of the ASCII range gives.
#[verifier::external_body]
pub(crate) fn to_lowercase(text: &str) -> (lower: String)
    ensures
        lower@ == lowercase_of(text@),
        is_ascii_text(text@) ==> lower@ == ascii_lowered(text@),
{
    text.to_lowercase()
}

/// `needle` occurs in `hay`.
pub open spec fn occurs_in(hay: Seq<char>, needle: Seq<char>) -> bool {
    exists|i: int| 0 <= i && i + needle.len() <= hay.len() && #[trigger] hay.subrange(i, i + needle.len()) == needle
}

/// Whether `needle` occurs in `hay`.
pub fn text_contains(hay: &str, needle: &str) -> (found: bool)
    ensures
        found == occurs_in(hay@, needle@),
{
    let h = chars_of(hay);
    let n = chars_of(needle);
    if n.len() > h.len() {
        return false;
    }
    let mut i: usize = 0;
    let last = h.len() - n.len();
    while i <= last
        invariant
            last == h.len() - n.len(),
            h@ == hay@,
            n@ == needle@,
            n.len() <= h.len(),
            i <= h.len() - n.len() + 1,
            forall|p: int| 0 <= p < i ==> #[trigger] h@.subrange(p, p + n@.len()) != n@,
        decreases h.len() - i,
    {
        let mut j: usize = 0;
        let mut same = true;
        while j < n.len()
            invariant
                i + n.len() <= h.len(),
                j <= n.len(),
                same == (forall|q: int| 0 <= q < j ==> h@[i + q] == n@[q]),
            decreases n.len() - j,
        {
            if h[i + j] != n[j] {
                same = false;
            }
            j = j + 1;
        }
        if same {
            proof {
                assert(h@.subrange(i as int, i + n@.len()) =~= n@);
            }
            return true;
        }
        proof {
            let q = choose|q: int| 0 <= q < n.len() && h@[i + q] != n@[q];
            assert(h@.subrange(i as int, i + n@.len())[q] != n@[q]);
        }
        i = i + 1;
    }
    proof {
        assert forall|p: int| 0 <= p && p + needle@.len() <= hay@.len() implies #[trigger] hay@.subrange(p, p + needle@.len()) != needle@ by {
            assert(p < i);
        }
    }
    false
}

/// A leaf matches a lower-cased query when it is not deleted and the query
/// occurs in its lower-cased content or author name.
pub open spec fn leaf_matches(q: Seq<char>) -> spec_fn(Leaf) -> bool {
    |l: Leaf| !l.is_deleted && (occurs_in(lowercase_of(l.content@), q) || occurs_in(
        lowercase_of(
            match l.author_name {
                Some(n) => n@,
                None => ""@,
            },
        ),
        q,
    ))
}

/// A branch matches when the query occurs in its lower-cased name or
/// description.
pub open spec fn branch_matches(q: Seq<char>) -> spec_fn(Branch) -> bool {
    |b: Branch| occurs_in(lowercase_of(b.name@), q) || occurs_in(lowercase_of(b.description@), q)
}

/// A root matches when the query occurs in its lower-cased name or
/// designator.
pub open spec fn root_matches(q: Seq<char>) -> spec_fn(Root) -> bool {
    |r: Root| occurs_in(lowercase_of(r.name@), q) || occurs_in(lowercase_of(r.designator@), q)
}

/// Lower-casing ASCII texts that differ only in the case of letters gives
/// the same text, so such queries find the same leaves, branches and roots.
pub proof fn lemma_ascii_case_ignored(a: Seq<char>, b: Seq<char>)
    requires
        same_up_to_ascii_case(a, b),
    ensures
        ascii_lowered(a) == ascii_lowered(b),
{
    assert(ascii_lowered(a) =~= ascii_lowered(b));
}

/// The upper case of an ASCII text is the same text up to case.
pub proof fn lemma_ascii_upper_same_case(a: Seq<char>)
    requires
        is_ascii_text(a),
    ensures
        same_up_to_ascii_case(a, Seq::new(a.len(), |i: int| if 'a' <= a[i] && a[i] <= 'z' { ((a[i] as u32) - 32) as char } else { a[i] })),
        is_ascii_text(Seq::new(a.len(), |i: int| if 'a' <= a[i] && a[i] <= 'z' { ((a[i] as u32) - 32) as char } else { a[i] })),
{
    let u = Seq::new(a.len(), |i: int| if 'a' <= a[i] && a[i] <= 'z' { ((a[i] as u32) - 32) as char } else { a[i] });
    assert forall|i: int| 0 <= i < a.len() implies ascii_lower_char(#[trigger] a[i]) == ascii_lower_char(u[i]) by {
        if 'a' <= a[i] && a[i] <= 'z' {
            assert(u[i] as u32 == a[i] as u32 - 32);
        }
    }
    assert forall|i: int| 0 <= i < u.len() implies (#[trigger] u[i] as u32) < 128 by {
        assert((a[i] as u32) < 128);
    }
}

/// The empty query matches every leaf that is not deleted, every branch and
/// every root.
pub proof fn lemma_empty_query_matches_all()
    ensures
        ascii_lowered(Seq::<char>::empty()) == Seq::<char>::empty(),
        leaf_matches(Seq::<char>::empty()) == (|l: Leaf| !l.is_deleted),
        branch_matches(Seq::<char>::empty()) == (|b: Branch| true),
        root_matches(Seq::<char>::empty()) == (|r: Root| true),
{
    assert(ascii_lowered(Seq::<char>::empty()) =~= Seq::<char>::empty());
    assert forall|h: Seq<char>| occurs_in(h, Seq::<char>::empty()) by {
        assert(h.subrange(0int, 0int + Seq::<char>::empty().len()) =~= Seq::<char>::empty());
    }
    assert(leaf_matches(Seq::<char>::empty()) =~= (|l: Leaf| !l.is_deleted));
    assert(branch_matches(Seq::<char>::empty()) =~= (|b: Branch| true));
    assert(root_matches(Seq::<char>::empty()) =~= (|r: Root| true));
}

/// The leaves that match `query`, in their order.
pub fn search_leaves(leaves: Vec<Leaf>, query: &str) -> (found: Vec<Leaf>)
    ensures
        found@ == leaves@.filter(leaf_matches(lowercase_of(query@))),
        is_ascii_text(query@) ==> found@ == leaves@.filter(leaf_matches(ascii_lowered(query@))),
{
    let q = to_lowercase(query);
    let ghost all = leaves@;
    let ghost pred = leaf_matches(lowercase_of(query@));
    let mut found: Vec<Leaf> = Vec::new();
    proof {
        assert(all.take(all.len() as int) =~= all);
    }
    for l in it: leaves
        invariant
            it.seq() == all,
            q@ == lowercase_of(query@),
            pred == leaf_matches(lowercase_of(query@)),
            all.take(all.len() as int) == all,
            found@ == all.take(it.index()).filter(pred),
        ensures
            found@ == all.filter(pred),
    {
        proof {
            reveal_with_fuel(Seq::<_>::filter, 1);
            assert(all.take(it.index() + 1).drop_last() =~= all.take(it.index()));
        }
        let hit = if l.is_deleted {
            false
        } else if text_contains(to_lowercase(l.content.as_str()).as_str(), q.as_str()) {
            true
        } else {
            let name = match &l.author_name {
                Some(n) => n.as_str(),
                None => "",
            };
            text_contains(to_lowercase(name).as_str(), q.as_str())
        };
        if hit {
            found.push(l);
        }
    }
    found
}

/// The branches that match `query`, in their order.
pub fn search_branches(branches: Vec<Branch>, query: &str) -> (found: Vec<Branch>)
    ensures
        found@ == branches@.filter(branch_matches(lowercase_of(query@))),
        is_ascii_text(query@) ==> found@ == branches@.filter(branch_matches(ascii_lowered(query@))),
{
    let q = to_lowercase(query);
    let ghost all = branches@;
    let ghost pred = branch_matches(lowercase_of(query@));
    let mut found: Vec<Branch> = Vec::new();
    proof {
        assert(all.take(all.len() as int) =~= all);
    }
    for b in it: branches
        invariant
            it.seq() == all,
            q@ == lowercase_of(query@),
            pred == branch_matches(lowercase_of(query@)),
            all.take(all.len() as int) == all,
            found@ == all.take(it.index()).filter(pred),
        ensures
            found@ == all.filter(pred),
    {
        proof {
            reveal_with_fuel(Seq::<_>::filter, 1);
            assert(all.take(it.index() + 1).drop_last() =~= all.take(it.index()));
        }
        let hit = text_contains(to_lowercase(b.name.as_str()).as_str(), q.as_str())
            || text_contains(to_lowercase(b.description.as_str()).as_str(), q.as_str());
        if hit {
            found.push(b);
        }
    }
    found
}

/// The roots that match `query`, in their order.
pub fn search_roots(roots: Vec<Root>, query: &str) -> (found: Vec<Root>)
    ensures
        found@ == roots@.filter(root_matches(lowercase_of(query@))),
        is_ascii_text(query@) ==> found@ == roots@.filter(root_matches(ascii_lowered(query@))),
{
    let q = to_lowercase(query);
    let ghost all = roots@;
    let ghost pred = root_matches(lowercase_of(query@));
    let mut found: Vec<Root> = Vec::new();
    proof {
        assert(all.take(all.len() as int) =~= all);
    }
    for r in it: roots
        invariant
            it.seq() == all,
            q@ == lowercase_of(query@),
            pred == root_matches(lowercase_of(query@)),
            all.take(all.len() as int) == all,
            found@ == all.take(it.index()).filter(pred),
        ensures
            found@ == all.filter(pred),
    {
        proof {
            reveal_with_fuel(Seq::<_>::filter, 1);
            assert(all.take(it.index() + 1).drop_last() =~= all.take(it.index()));
        }
        let hit = text_contains(to_lowercase(r.name.as_str()).as_str(), q.as_str())
            || text_contains(to_lowercase(r.designator.as_str()).as_str(), q.as_str());
        if hit {
            found.push(r);
        }
    }
    found
}

} // verus!
