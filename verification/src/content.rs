//! Leaves: who may post what, how votes and mirrors change a leaf, which
//! leaves a listing shows, and how long a node keeps seeding them.
use vstd::prelude::*;
use crate::models::{CreateLeafRequest, Leaf, Timestamp, is_before, is_uuid_text, new_uuid, now, before};
use crate::text::{sanitize_content, sanitize_fits, sanitized_text, is_address, is_signature_hex, validate_signature_format};
use crate::crypto::{address_of_key, derive_address, signature_valid, verify_signature};
use vstd::string::StringSliceAdditionalSpecFns;
use crate::text::str_eq;

verus! {

/// Leaves of root `root_id` that are not deleted.
pub open spec fn shown_in_root(root_id: Seq<char>) -> spec_fn(Leaf) -> bool {
    |l: Leaf| l.root@ == root_id && !l.is_deleted
}

/// The leaves of `leaves` shown in root `root_id`, in their order.
pub fn leaves_in_root(leaves: Vec<Leaf>, root_id: &str) -> (shown: Vec<Leaf>)
    ensures
        shown@ == leaves@.filter(shown_in_root(root_id@)),
{
    let ghost all = leaves@;
    let ghost pred = shown_in_root(root_id@);
    let mut shown: Vec<Leaf> = Vec::new();
    proof {
        assert(all.take(all.len() as int) =~= all);
    }
    for leaf in it: leaves
        invariant
            it.seq() == all,
            pred == shown_in_root(root_id@),
            all.take(all.len() as int) == all,
            shown@ == all.take(it.index()).filter(pred),
        ensures
            shown@ == all.filter(pred),
    {
        proof {
            reveal_with_fuel(Seq::<_>::filter, 1);
            assert(all.take(it.index() + 1).drop_last() =~= all.take(it.index()));
        }
        if str_eq(leaf.root.as_str(), root_id) && !leaf.is_deleted {
            shown.push(leaf);
        }
    }
    shown
}

/// Leaves of branch `branch_id` that are not deleted.
pub open spec fn counted_in_branch(branch_id: Seq<char>) -> spec_fn(Leaf) -> bool {
    |l: Leaf| l.branch@ == branch_id && !l.is_deleted
}

/// Number of leaves of `leaves` that count against branch `branch_id`.
pub fn leaf_count_in_branch(leaves: &Vec<Leaf>, branch_id: &str) -> (n: usize)
    ensures
        n == leaves@.filter(counted_in_branch(branch_id@)).len(),
{
    let ghost pred = counted_in_branch(branch_id@);
    let mut n: usize = 0;
    let mut i: usize = 0;
    while i < leaves.len()
        invariant
            i <= leaves.len(),
            pred == counted_in_branch(branch_id@),
            n == leaves@.take(i as int).filter(pred).len(),
            n <= i,
        decreases leaves.len() - i,
    {
        proof {
            reveal_with_fuel(Seq::<_>::filter, 1);
            assert(leaves@.take(i + 1).drop_last() =~= leaves@.take(i as int));
        }
        if str_eq(leaves[i].branch.as_str(), branch_id) && !leaves[i].is_deleted {
            n = n + 1;
        }
        i = i + 1;
    }
    proof {
        assert(leaves@.take(leaves@.len() as int) =~= leaves@);
    }
    n
}

/// Largest number of live leaves a branch takes.
pub const MAX_LEAVES_PER_BRANCH: usize = 1000;

/// Why a new leaf is refused.
#[derive(Clone, Copy, Debug, PartialEq, Eq, Structural)]
pub enum LeafRejection {
    InvalidAddress,
    InvalidSignatureFormat,
    KeyMismatch,
    InvalidSignature,
    EmptyContent,
    BranchFull,
}

/// `c` is an ASCII letter or digit.
pub open spec fn is_ascii_alnum(c: char) -> bool {
    ('0' <= c && c <= '9') || ('a' <= c && c <= 'z') || ('A' <= c && c <= 'Z')
}

/// A name a leaf may be posted under: `0x` followed by one or more ASCII
/// letters or digits.  Every well-formed address is one, and so are the
/// short handles such as `0xTestUser` that clients post under.
pub open spec fn is_author_name(s: Seq<char>) -> bool {
    &&& s.len() > 2
    &&& s[0] == '0'
    &&& s[1] == 'x'
    &&& forall|i: int| 2 <= i < s.len() ==> is_ascii_alnum(#[trigger] s[i])
}

/// Whether `author` is a name a leaf may be posted under.
pub fn validate_author(author: &str) -> (ok: bool)
    ensures
        ok == is_author_name(author@),
{
    let v = crate::text::chars_of(author);
    if v.len() <= 2 || v[0] != '0' || v[1] != 'x' {
        return false;
    }
    let mut i: usize = 2;
    while i < v.len()
        invariant
            2 <= i <= v.len(),
            v@ == author@,
            forall|j: int| 2 <= j < i ==> is_ascii_alnum(#[trigger] v@[j]),
        decreases v.len() - i,
    {
        let c = v[i];
        if !(('0' <= c && c <= '9') || ('a' <= c && c <= 'z') || ('A' <= c && c <= 'Z')) {
            return false;
        }
        i = i + 1;
    }
    true
}

/// Every well-formed address may post leaves.
pub proof fn lemma_addresses_are_author_names(s: Seq<char>)
    requires
        is_address(s),
    ensures
        is_author_name(s),
{
    assert forall|i: int| 2 <= i < s.len() implies is_ascii_alnum(#[trigger] s[i]) by {
        assert(crate::text::is_hex_char(s[i]));
    }
}

/// The verdict on who posts a new leaf by `author_address`, given the
/// optional `signature` and `public_key` headers (empty when absent): the
/// address must be well-formed; when both headers are present the signature
/// must be well-formed hex, the key must hash to the address, and the
/// signature must verify over the content.
pub open spec fn author_verdict(
    author_address: Seq<char>,
    signature: Seq<char>,
    signature_bytes: Seq<u8>,
    public_key: Seq<char>,
    public_key_bytes: Seq<u8>,
    content_bytes: Seq<u8>,
) -> Result<(), LeafRejection> {
    if !is_author_name(author_address) {
        Err(LeafRejection::InvalidAddress)
    } else if signature.len() > 0 && public_key.len() > 0 && !is_signature_hex(signature) {
        Err(LeafRejection::InvalidSignatureFormat)
    } else if signature.len() > 0 && public_key.len() > 0 && address_of_key(public_key_bytes)
        != author_address {
        Err(LeafRejection::KeyMismatch)
    } else if signature.len() > 0 && public_key.len() > 0 && !signature_valid(
        public_key_bytes,
        content_bytes,
        signature_bytes,
    ) {
        Err(LeafRejection::InvalidSignature)
    } else {
        Ok(())
    }
}

/// A post that lacks the signature header or the public-key header is
/// unsigned: whatever the other header holds, it is judged on its author
/// address alone, accepted exactly when the address is a valid author name.
pub proof fn lemma_unsigned_author_judged_by_address(
    author_address: Seq<char>,
    signature: Seq<char>,
    signature_bytes: Seq<u8>,
    public_key: Seq<char>,
    public_key_bytes: Seq<u8>,
    content_bytes: Seq<u8>,
)
    requires
        signature.len() == 0 || public_key.len() == 0,
    ensures
        author_verdict(author_address, signature, signature_bytes, public_key, public_key_bytes, content_bytes)
            == (if is_author_name(author_address) {
            Ok::<(), LeafRejection>(())
        } else {
            Err::<(), LeafRejection>(LeafRejection::InvalidAddress)
        }),
{
}

/// An accepted author has a valid address, and when both headers are given
/// the signature is well-formed hex, the key hashes to the address and the
/// signature verifies over the content.
pub proof fn lemma_accepted_author(
    author_address: Seq<char>,
    signature: Seq<char>,
    signature_bytes: Seq<u8>,
    public_key: Seq<char>,
    public_key_bytes: Seq<u8>,
    content_bytes: Seq<u8>,
)
    requires
        author_verdict(author_address, signature, signature_bytes, public_key, public_key_bytes, content_bytes)
            is Ok,
    ensures
        is_author_name(author_address),
        signature.len() > 0 && public_key.len() > 0 ==> {
            &&& is_signature_hex(signature)
            &&& address_of_key(public_key_bytes) == author_address
            &&& signature_valid(public_key_bytes, content_bytes, signature_bytes)
        },
{
}

/// The verdict on the content of a new leaf, in a branch that already holds
/// `leaf_count` live leaves: the sanitized content must not be empty and the
/// branch must have room.  Accepted leaves carry the sanitized content.
pub open spec fn content_verdict(content: Seq<char>, leaf_count: int) -> Result<Seq<char>, LeafRejection> {
    if sanitized_text(content).len() == 0 {
        Err(LeafRejection::EmptyContent)
    } else if leaf_count >= MAX_LEAVES_PER_BRANCH {
        Err(LeafRejection::BranchFull)
    } else {
        Ok(sanitized_text(content))
    }
}

/// The verdict on a new leaf: first who posts it, then its content.
pub open spec fn leaf_verdict(
    author_address: Seq<char>,
    signature: Seq<char>,
    signature_bytes: Seq<u8>,
    public_key: Seq<char>,
    public_key_bytes: Seq<u8>,
    content: Seq<char>,
    content_bytes: Seq<u8>,
    leaf_count: int,
) -> Result<Seq<char>, LeafRejection> {
    match author_verdict(author_address, signature, signature_bytes, public_key, public_key_bytes, content_bytes) {
        Err(e) => Err(e),
        Ok(_) => content_verdict(content, leaf_count),
    }
}

/// A leaf whose content is accepted leaves its branch within capacity: the
/// branch holds at most `MAX_LEAVES_PER_BRANCH` live leaves with it.
pub proof fn lemma_accepted_leaf_fits_branch(content: Seq<char>, leaf_count: int)
    requires
        content_verdict(content, leaf_count) is Ok,
    ensures
        leaf_count + 1 <= MAX_LEAVES_PER_BRANCH,
{
}

/// Decides whether the author of a new leaf with `content` is accepted.
pub fn check_leaf_author(
    author_address: &str,
    signature: &str,
    public_key: &str,
    content: &str,
) -> (r: Result<(), LeafRejection>)
    ensures
        r == author_verdict(
            author_address@,
            signature@,
            signature.spec_bytes(),
            public_key@,
            public_key.spec_bytes(),
            content.spec_bytes(),
        ),
{
    if !validate_author(author_address) {
        return Err(LeafRejection::InvalidAddress);
    }
    if !signature.is_empty() && !public_key.is_empty() {
        if !validate_signature_format(signature) {
            return Err(LeafRejection::InvalidSignatureFormat);
        }
        let derived = derive_address(public_key);
        if !str_eq(derived.as_str(), author_address) {
            return Err(LeafRejection::KeyMismatch);
        }
        if !verify_signature(public_key, content.as_bytes(), signature) {
            return Err(LeafRejection::InvalidSignature);
        }
    }
    Ok(())
}

/// Decides whether the content of a new leaf is accepted, and sanitizes it.
pub fn check_leaf_content(content: &str, leaf_count: usize) -> (r: Result<String, LeafRejection>)
    requires
        sanitize_fits(content@),
    ensures
        match content_verdict(content@, leaf_count as int) {
            Ok(c) => r matches Ok(s) && s@ == c,
            Err(e) => r == Err::<String, LeafRejection>(e),
        },
{
    let sanitized = sanitize_content(content);
    if sanitized.as_str().is_empty() {
        return Err(LeafRejection::EmptyContent);
    }
    if leaf_count >= MAX_LEAVES_PER_BRANCH {
        return Err(LeafRejection::BranchFull);
    }
    Ok(sanitized)
}

/// Decides whether a new leaf is accepted, and with which content.
pub fn check_leaf_submission(
    author_address: &str,
    signature: &str,
    public_key: &str,
    content: &str,
    leaf_count: usize,
) -> (r: Result<String, LeafRejection>)
    requires
        sanitize_fits(content@),
    ensures
        match leaf_verdict(
            author_address@,
            signature@,
            signature.spec_bytes(),
            public_key@,
            public_key.spec_bytes(),
            content@,
            content.spec_bytes(),
            leaf_count as int,
        ) {
            Ok(c) => r matches Ok(s) && s@ == c,
            Err(e) => r == Err::<String, LeafRejection>(e),
        },
{
    check_leaf_author(author_address, signature, public_key, content)?;
    check_leaf_content(content, leaf_count)
}

/// A leaf with a random id, stamped now, built from an accepted request:
/// the media list defaults to empty, votes and mirrors start empty.
pub fn leaf_from_request(
    author_address: String,
    req: CreateLeafRequest,
    content: String,
    seeded_until: Option<Timestamp>,
) -> (leaf: Leaf)
    ensures
        is_uuid_text(leaf.id@),
        leaf.author_address == author_address,
        leaf.author_name == req.author_name,
        leaf.content == content,
        leaf.media_urls@ == (match req.media_urls {
            Some(m) => m@,
            None => Seq::<String>::empty(),
        }),
        leaf.root == req.root,
        leaf.branch == req.branch,
        leaf.parent_leaf_id == req.parent_leaf_id,
        leaf.upvotes == 0,
        leaf.downvotes == 0,
        leaf.mirrors@.len() == 0,
        !leaf.is_mirrored,
        !leaf.is_deleted,
        leaf.seeded_until == seeded_until,
{
    let media_urls = match req.media_urls {
        Some(m) => m,
        None => Vec::new(),
    };
    Leaf {
        id: new_uuid(),
        author_address,
        author_name: req.author_name,
        content,
        media_urls,
        root: req.root,
        branch: req.branch,
        parent_leaf_id: req.parent_leaf_id,
        created_at: now(),
        upvotes: 0,
        downvotes: 0,
        mirrors: Vec::new(),
        is_mirrored: false,
        is_deleted: false,
        seeded_until,
    }
}

/// The texts of a list of strings.
pub open spec fn texts(v: Seq<String>) -> Seq<Seq<char>> {
    v.map_values(|s: String| s@)
}

/// Whether a list of strings holds `text`.
pub fn contains_text(v: &Vec<String>, text: &str) -> (found: bool)
    ensures
        found == texts(v@).contains(text@),
{
    let mut i: usize = 0;
    while i < v.len()
        invariant
            i <= v.len(),
            forall|j: int| 0 <= j < i ==> v@[j]@ != text@,
        decreases v.len() - i,
    {
        if str_eq(v[i].as_str(), text) {
            proof {
                assert(texts(v@)[i as int] == text@);
            }
            return true;
        }
        i = i + 1;
    }
    proof {
        if texts(v@).contains(text@) {
            let j = choose|j: int| 0 <= j < texts(v@).len() && texts(v@)[j] == text@;
            assert(v@[j]@ == text@);
        }
    }
    false
}

impl Leaf {
    /// Records that `address` mirrors this leaf; an address is recorded
    /// once.  Returns whether it was new.
    pub fn record_mirror(&mut self, address: &str) -> (added: bool)
        ensures
            added == !texts(old(self).mirrors@).contains(address@),
            added ==> texts(final(self).mirrors@) == texts(old(self).mirrors@).push(address@),
            added ==> *final(self) == (Leaf { mirrors: final(self).mirrors, is_mirrored: true, ..*old(self) }),
            !added ==> *final(self) == *old(self),
            texts(old(self).mirrors@).no_duplicates() ==> texts(final(self).mirrors@).no_duplicates(),
    {
        if contains_text(&self.mirrors, address) {
            return false;
        }
        self.mirrors.push(address.to_owned());
        self.is_mirrored = true;
        proof {
            assert(texts(self.mirrors@) =~= texts(old(self).mirrors@).push(address@));
        }
        true
    }

    /// Counts one more upvote.
    pub fn record_upvote(&mut self)
        requires
            old(self).upvotes < i32::MAX,
        ensures
            *final(self) == (Leaf { upvotes: (old(self).upvotes + 1) as i32, ..*old(self) }),
    {
        self.upvotes = self.upvotes + 1;
    }

    /// Counts one more downvote.
    pub fn record_downvote(&mut self)
        requires
            old(self).downvotes < i32::MAX,
        ensures
            *final(self) == (Leaf { downvotes: (old(self).downvotes + 1) as i32, ..*old(self) }),
    {
        self.downvotes = self.downvotes + 1;
    }

    /// Marks the leaf as deleted (blacklisted).
    pub fn mark_deleted(&mut self)
        ensures
            *final(self) == (Leaf { is_deleted: true, ..*old(self) }),
    {
        self.is_deleted = true;
    }
}

// ---------------------------------------------------------------------
// Content lifecycle
// ---------------------------------------------------------------------

/// How a node keeps content.
#[derive(Clone, Copy, Debug, PartialEq, Eq, Structural)]
pub struct NodeConfig {
    pub cache_ttl_days: u64,
    pub cache_max_mb: u64,
    pub legendary_cache_max_mb: u64,
    pub auto_seed: bool,
}

impl Default for NodeConfig {
    /// Seven days of seeding, 1024 MB of cache, 512 MB for legendary
    /// leaves, seeding on.
    fn default() -> (c: NodeConfig)
        ensures
            c == (NodeConfig {
                cache_ttl_days: 7,
                cache_max_mb: 1024,
                legendary_cache_max_mb: 512,
                auto_seed: true,
            }),
    {
        NodeConfig { cache_ttl_days: 7, cache_max_mb: 1024, legendary_cache_max_mb: 512, auto_seed: true }
    }
}

/// The configured number of days as the clock's day count reads it: a
/// count above `i64::MAX` wraps around to a negative one.
pub open spec fn signed_days(days: u64) -> int {
    if days <= i64::MAX {
        days as int
    } else {
        days - 0x1_0000_0000_0000_0000
    }
}

/// The day count as the clock reads it.
fn signed_day_count(days: u64) -> (d: i64)
    ensures
        d == signed_days(days),
{
    if days <= i64::MAX as u64 {
        days as i64
    } else {
        -((u64::MAX - days) as i64) - 1
    }
}

/// The instant `days` days after `now`, as the clock computes it; `None`
/// when `now` is no instant of the clock, or the span or the sum leaves the
/// clock's range.
pub uninterp spec fn clock_plus_days(now: Timestamp, days: int) -> Option<Timestamp>;

/// Adds `days` days to `now` (`DateTime::from_timestamp`,
/// `TimeDelta::try_days`, `DateTime::checked_add_signed`).  The named sum;
/// adding no days or a positive number of them never moves back in time.
#[verifier::external_body]
fn add_days(now: Timestamp, days: i64) -> (r: Option<Timestamp>)
    ensures
        r == clock_plus_days(now, days as int),
        days >= 0 ==> (r matches Some(u) ==> !is_before(u, now)),
{
    let start = chrono::DateTime::<chrono::Utc>::from_timestamp(now.secs, now.nanos)?;
    let end = start.checked_add_signed(chrono::TimeDelta::try_days(days)?)?;
    Some(Timestamp { secs: end.timestamp(), nanos: end.timestamp_subsec_nanos() })
}

/// Why no seeding deadline can be computed.
#[derive(Clone, Copy, Debug, PartialEq, Eq, Structural)]
pub enum SeedError {
    /// Adding the time to live to the clock leaves its range.
    OutOfRange,
}

/// Until when a leaf received at `now` is seeded: `cache_ttl_days` later when
/// seeding is on (`None` inside when it is off); `None` outside when the
/// clock cannot add that span.
pub open spec fn seed_deadline_of(config: NodeConfig, now: Timestamp) -> Option<Option<Timestamp>> {
    if !config.auto_seed {
        Some(None)
    } else {
        match clock_plus_days(now, signed_days(config.cache_ttl_days)) {
            Some(u) => Some(Some(u)),
            None => None,
        }
    }
}

/// Until when a leaf received at `now` is seeded; an error where the clock
/// cannot add the time to live.
pub fn seed_deadline(config: &NodeConfig, now: Timestamp) -> (r: Result<Option<Timestamp>, SeedError>)
    ensures
        match seed_deadline_of(*config, now) {
            Some(d) => r == Ok::<Option<Timestamp>, SeedError>(d),
            None => r == Err::<Option<Timestamp>, SeedError>(SeedError::OutOfRange),
        },
        config.cache_ttl_days <= i64::MAX ==> (r matches Ok(Some(u)) ==> !is_before(u, now)),
{
    if !config.auto_seed {
        return Ok(None);
    }
    match add_days(now, signed_day_count(config.cache_ttl_days)) {
        Some(u) => Ok(Some(u)),
        None => Err(SeedError::OutOfRange),
    }
}

/// A leaf received from a peer, seeded from `now` as this node's config
/// says: its seeding deadline is replaced, the rest is kept.
pub fn received_leaf(leaf: Leaf, config: &NodeConfig, now: Timestamp) -> (r: Result<Leaf, SeedError>)
    ensures
        match seed_deadline_of(*config, now) {
            Some(d) => r matches Ok(l) && l == (Leaf { seeded_until: d, ..leaf }),
            None => r == Err::<Leaf, SeedError>(SeedError::OutOfRange),
        },
{
    match seed_deadline(config, now) {
        Ok(d) => Ok(Leaf { seeded_until: d, ..leaf }),
        Err(e) => Err(e),
    }
}

/// A leaf is expired at `now` when its seeding period ended before `now`,
/// it is not deleted, and it is not kept as legendary.
pub open spec fn is_expired_at(leaf: Leaf, legendary: Seq<Seq<char>>, now: Timestamp) -> bool {
    match leaf.seeded_until {
        Some(until) => is_before(until, now) && !leaf.is_deleted && !legendary.contains(leaf.id@),
        None => false,
    }
}

/// The leaves of `leaves` that are expired at `now`, in their order; the
/// leaves whose ids are in `legendary_ids` are kept.
pub fn expired_leaves(leaves: Vec<Leaf>, legendary_ids: &Vec<String>, now: Timestamp) -> (expired: Vec<Leaf>)
    ensures
        expired@ == leaves@.filter(|l: Leaf| is_expired_at(l, texts(legendary_ids@), now)),
{
    let ghost all = leaves@;
    let ghost legendary = texts(legendary_ids@);
    let ghost pred = |l: Leaf| is_expired_at(l, legendary, now);
    let mut expired: Vec<Leaf> = Vec::new();
    proof {
        assert(all.take(all.len() as int) =~= all);
    }
    for leaf in it: leaves
        invariant
            it.seq() == all,
            legendary == texts(legendary_ids@),
            pred == (|l: Leaf| is_expired_at(l, legendary, now)),
            all.take(all.len() as int) == all,
            expired@ == all.take(it.index()).filter(pred),
        ensures
            expired@ == all.filter(pred),
    {
        proof {
            reveal_with_fuel(Seq::<_>::filter, 1);
            assert(all.take(it.index() + 1).drop_last() =~= all.take(it.index()));
        }
        let hit = match leaf.seeded_until {
            Some(until) => before(until, now) && !leaf.is_deleted && !contains_text(legendary_ids, leaf.id.as_str()),
            None => false,
        };
        if hit {
            expired.push(leaf);
        }
    }
    expired
}

/// Whole seconds from `now` to `until` as the clock counts them (towards
/// zero); `None` when either is no instant of the clock.
pub uninterp spec fn clock_seconds_between(until: Timestamp, now: Timestamp) -> Option<int>;

/// Whole seconds from `now` to `until` (`DateTime::from_timestamp` of
/// each, their difference, `TimeDelta::num_seconds`).
#[verifier::external_body]
fn seconds_between(until: Timestamp, now: Timestamp) -> (r: Option<i64>)
    ensures
        match r {
            Some(s) => clock_seconds_between(until, now) == Some(s as int),
            None => clock_seconds_between(until, now) is None,
        },
{
    let u = chrono::DateTime::<chrono::Utc>::from_timestamp(until.secs, until.nanos)?;
    let n = chrono::DateTime::<chrono::Utc>::from_timestamp(now.secs, now.nanos)?;
    Some((u - n).num_seconds())
}

/// What a client is told of a leaf's seeding.
#[derive(Clone, Copy, Debug, PartialEq, Eq, Structural)]
pub struct LeafExpiry {
    pub seeded_until: Option<Timestamp>,
    pub expires_in_seconds: Option<i64>,
    pub is_expired: bool,
}

/// The seeding state of a leaf whose deadline is `seeded_until`, given the
/// clock's count of whole seconds from now to the deadline and whether the
/// deadline is before now.
pub open spec fn expiry_of(seeded_until: Option<Timestamp>, seconds: Option<int>, passed: bool) -> LeafExpiry {
    LeafExpiry {
        seeded_until,
        expires_in_seconds: match seconds {
            Some(s) => Some((if s < 0 { 0 } else { s }) as i64),
            None => None,
        },
        is_expired: passed,
    }
}

/// The seeding state of a leaf at `now`: when it stops being seeded, how
/// many whole seconds are left (never negative), and whether that moment
/// has passed; `None` when the deadline or `now` is no instant of the clock.
pub fn leaf_expiry(leaf: &Leaf, now: Timestamp) -> (e: Option<LeafExpiry>)
    ensures
        match leaf.seeded_until {
            None => e == Some(expiry_of(None, None, false)),
            Some(u) => match clock_seconds_between(u, now) {
                Some(s) => e == Some(expiry_of(Some(u), Some(s), is_before(u, now))),
                None => e is None,
            },
        },
{
    match leaf.seeded_until {
        Some(u) => match seconds_between(u, now) {
            Some(s) => {
                let left = if s < 0 {
                    0
                } else {
                    s
                };
                Some(LeafExpiry { seeded_until: Some(u), expires_in_seconds: Some(left), is_expired: before(u, now) })
            },
            None => None,
        },
        None => Some(LeafExpiry { seeded_until: None, expires_in_seconds: None, is_expired: false }),
    }
}

} // verus!
