//! The data of the network: roots, trunks, branches, leaves, hollows and the
//! requests that create them, with the identifiers and clocks they are
//! stamped with.
use vstd::prelude::*;
use crate::crypto::hex_digit_lower;
use crate::text::string_push;

verus! {

// ---------------------------------------------------------------------
// Time
// ---------------------------------------------------------------------

/// A UTC instant: whole seconds since the Unix epoch and the nanoseconds
/// within that second.
#[derive(Clone, Copy, Debug, PartialEq, Eq, Structural)]
pub struct Timestamp {
    pub secs: i64,
    pub nanos: u32,
}

/// `a` is strictly earlier than `b`.
pub open spec fn is_before(a: Timestamp, b: Timestamp) -> bool {
    a.secs < b.secs || (a.secs == b.secs && a.nanos < b.nanos)
}

/// `a` is strictly earlier than `b`.
pub fn before(a: Timestamp, b: Timestamp) -> (r: bool)
    ensures
        r == is_before(a, b),
{
    a.secs < b.secs || (a.secs == b.secs && a.nanos < b.nanos)
}

/// The current time (`chrono::Utc::now`).  It is after the epoch and its
/// nanoseconds are below one second; nothing else is stated of it.
#[verifier::external_body]
pub(crate) fn now() -> (t: Timestamp)
    ensures
        t.secs >= 0,
        t.nanos < 1_000_000_000,
{
    let n = chrono::Utc::now();
    Timestamp { secs: n.timestamp(), nanos: n.timestamp_subsec_nanos() }
}

/// The current time as RFC 3339 text (`chrono::DateTime::to_rfc3339` of
/// `chrono::Utc::now`).  Nothing is stated of the text.
#[verifier::external_body]
fn now_rfc3339() -> (s: String) {
    chrono::Utc::now().to_rfc3339()
}

// ---------------------------------------------------------------------
// Identifiers
// ---------------------------------------------------------------------

/// `c` is a lower-case hexadecimal digit.
pub open spec fn is_lower_hex_char(c: char) -> bool {
    ('0' <= c && c <= '9') || ('a' <= c && c <= 'f')
}

/// `s` has the shape of a hyphenated UUID: 36 characters, hyphens at 8, 13,
/// 18 and 23, lower-case hex digits elsewhere.
pub open spec fn is_uuid_text(s: Seq<char>) -> bool {
    &&& s.len() == 36
    &&& forall|i: int|
        0 <= i < 36 ==> if i == 8 || i == 13 || i == 18 || i == 23 {
            #[trigger] s[i] == '-'
        } else {
            is_lower_hex_char(s[i])
        }
}

/// A fresh random identifier (`uuid::Uuid::new_v4().to_string()`), in the
/// hyphenated lower-case form.  Which identifier comes is not stated.
#[verifier::external_body]
pub(crate) fn new_uuid() -> (id: String)
    ensures
        is_uuid_text(id@),
{
    uuid::Uuid::new_v4().to_string()
}

/// The SeaHash of a string fed to the hasher as `Hash for str` does.
pub uninterp spec fn seahash_of(text: Seq<char>) -> u64;

/// SeaHash of `text` (`seahash::SeaHasher` with `Hash::hash` and
/// `Hasher::finish`).
#[verifier::external_body]
fn seahash_text(text: &str) -> (h: u64)
    ensures
        h == seahash_of(text@),
{
    let mut hasher = seahash::SeaHasher::default();
    std::hash::Hash::hash(text, &mut hasher);
    std::hash::Hasher::finish(&hasher)
}

/// Lower-case hexadecimal digits of `n`, without leading zeros (`{:x}`).
pub open spec fn u64_hex(n: nat) -> Seq<char>
    decreases n,
{
    if n < 16 {
        seq![hex_digit_lower(n as int)]
    } else {
        u64_hex(n / 16).push(hex_digit_lower((n % 16) as int))
    }
}

/// Formats `n` as lower-case hexadecimal without leading zeros.
pub fn u64_to_hex(n: u64) -> (s: String)
    ensures
        s@ == u64_hex(n as nat),
    decreases n,
{
    let digit = n % 16;
    let c = char_of_digit(digit);
    if n < 16 {
        let mut s = String::new();
        string_push(&mut s, c);
        s
    } else {
        let mut s = u64_to_hex(n / 16);
        string_push(&mut s, c);
        s
    }
}

fn char_of_digit(d: u64) -> (c: char)
    requires
        d < 16,
    ensures
        c == hex_digit_lower(d as int),
{
    let digits = ['0', '1', '2', '3', '4', '5', '6', '7', '8', '9', 'a', 'b', 'c', 'd', 'e', 'f'];
    let c = digits[d as usize];
    proof {
        assert(digits@ =~= seq!['0', '1', '2', '3', '4', '5', '6', '7', '8', '9', 'a', 'b', 'c', 'd', 'e', 'f']);
    }
    c
}

/// `a` followed by `b`.
pub fn concat(a: &str, b: &str) -> (s: String)
    ensures
        s@ == a@ + b@,
{
    let mut s = a.to_owned();
    let bc = crate::text::chars_of(b);
    let mut i: usize = 0;
    while i < bc.len()
        invariant
            i <= bc.len(),
            s@ == a@ + bc@.take(i as int),
        decreases bc.len() - i,
    {
        string_push(&mut s, bc[i]);
        proof {
            assert(bc@.take(i + 1) =~= bc@.take(i as int).push(bc@[i as int]));
            assert(a@ + bc@.take(i + 1) =~= (a@ + bc@.take(i as int)).push(bc@[i as int]));
        }
        i = i + 1;
    }
    proof {
        assert(bc@.take(bc@.len() as int) =~= b@);
    }
    s
}

// ---------------------------------------------------------------------
// Enumerations
// ---------------------------------------------------------------------

#[derive(Clone, Copy, Debug, PartialEq, Eq, Structural)]
pub enum VoteTarget {
    Leaf,
    User,
    Root,
}

#[derive(Clone, Copy, Debug, PartialEq, Eq, Structural)]
pub enum VoteType {
    Upvote,
    Downvote,
    Mirror,
}

// ---------------------------------------------------------------------
// Records
// ---------------------------------------------------------------------

/// A post within a branch.
#[derive(Clone, Debug)]
pub struct Leaf {
    pub id: String,
    pub author_address: String,
    pub author_name: Option<String>,
    pub content: String,
    pub media_urls: Vec<String>,
    pub root: String,
    pub branch: String,
    pub parent_leaf_id: Option<String>,
    pub created_at: Timestamp,
    pub upvotes: i32,
    pub downvotes: i32,
    pub mirrors: Vec<String>,
    pub is_mirrored: bool,
    pub is_deleted: bool,
    pub seeded_until: Option<Timestamp>,
}

impl Leaf {
    /// A fresh leaf with a random id, stamped now, with no votes, mirrors or
    /// media.
    pub fn new(author_address: String, content: String, root: String, branch: String) -> (leaf:
        Leaf)
        ensures
            is_uuid_text(leaf.id@),
            leaf.author_address == author_address,
            leaf.author_name is None,
            leaf.content == content,
            leaf.media_urls@.len() == 0,
            leaf.root == root,
            leaf.branch == branch,
            leaf.parent_leaf_id is None,
            leaf.upvotes == 0,
            leaf.downvotes == 0,
            leaf.mirrors@.len() == 0,
            !leaf.is_mirrored,
            !leaf.is_deleted,
            leaf.seeded_until is None,
    {
        Leaf {
            id: new_uuid(),
            author_address,
            author_name: None,
            content,
            media_urls: Vec::new(),
            root,
            branch,
            parent_leaf_id: None,
            created_at: now(),
            upvotes: 0,
            downvotes: 0,
            mirrors: Vec::new(),
            is_mirrored: false,
            is_deleted: false,
            seeded_until: None,
        }
    }
}

/// A community board.
#[derive(Clone, Debug)]
pub struct Root {
    pub id: String,
    pub name: String,
    pub designator: String,
    pub created_at: Timestamp,
    pub branches: Vec<String>,
}

impl Root {
    /// A root stamped now, with no branches.
    pub fn new(id: String, name: String, designator: String) -> (root: Root)
        ensures
            root.id == id,
            root.name == name,
            root.designator == designator,
            root.branches@.len() == 0,
    {
        Root { id, name, designator, created_at: now(), branches: Vec::new() }
    }
}

/// A category of branches within a root.
#[derive(Clone, Debug)]
pub struct Trunk {
    pub id: String,
    pub root_id: String,
    pub name: String,
    pub description: String,
    pub created_by: String,
    pub created_at: Timestamp,
}

impl Trunk {
    /// A trunk with a random id, stamped now.
    pub fn new(root_id: String, name: String, description: String, created_by: String) -> (trunk:
        Trunk)
        ensures
            is_uuid_text(trunk.id@),
            trunk.root_id == root_id,
            trunk.name == name,
            trunk.description == description,
            trunk.created_by == created_by,
    {
        Trunk { id: new_uuid(), root_id, name, description, created_by, created_at: now() }
    }
}

/// The text whose hash names a branch: `root_id:name:time`.
pub open spec fn branch_id_input(root_id: Seq<char>, name: Seq<char>, time: Seq<char>) -> Seq<
    char,
> {
    root_id + seq![':'] + name + seq![':'] + time
}

/// A sub-board within a root.
#[derive(Clone, Debug)]
pub struct Branch {
    pub id: String,
    pub root_id: String,
    pub trunk_id: Option<String>,
    pub name: String,
    pub description: String,
    pub created_at: Timestamp,
    pub parent_branch_id: Option<String>,
}

impl Branch {
    /// A branch stamped now, whose id is the hexadecimal SeaHash of
    /// `root_id:name:<current time in RFC 3339>`.
    pub fn new(root_id: String, trunk_id: Option<String>, name: String, description: String) -> (b:
        Branch)
        ensures
            exists|t: Seq<char>|
                b.id@ == u64_hex(seahash_of(branch_id_input(root_id@, name@, t)) as nat),
            b.root_id == root_id,
            b.trunk_id == trunk_id,
            b.name == name,
            b.description == description,
            b.parent_branch_id is None,
    {
        let datetime_str = now_rfc3339();
        let with_root = concat(root_id.as_str(), ":");
        let with_name = concat(with_root.as_str(), name.as_str());
        let with_sep = concat(with_name.as_str(), ":");
        let input = concat(with_sep.as_str(), datetime_str.as_str());
        proof {
            reveal_strlit(":");
            assert(input@ =~= branch_id_input(root_id@, name@, datetime_str@));
        }
        let id = u64_to_hex(seahash_text(input.as_str()));
        Branch {
            id,
            root_id,
            trunk_id,
            name,
            description,
            created_at: now(),
            parent_branch_id: None,
        }
    }

    /// A branch stamped now under the id its creator chose.
    pub fn with_id(id: String, root_id: String, trunk_id: Option<String>, name: String, description: String) -> (b: Branch)
        ensures
            b.id == id,
            b.root_id == root_id,
            b.trunk_id == trunk_id,
            b.name == name,
            b.description == description,
            b.parent_branch_id is None,
    {
        Branch { id, root_id, trunk_id, name, description, created_at: now(), parent_branch_id: None }
    }
}

/// A link on a hollow's page.
#[derive(Clone, Debug)]
pub struct SocialLink {
    pub platform: String,
    pub url: String,
}

/// Presentation and visibility of a hollow.
#[derive(Clone, Debug)]
pub struct HollowSettings {
    pub is_public: bool,
    pub allow_mirrors: bool,
    pub theme: String,
    pub custom_css: Option<String>,
    pub font_size: Option<String>,
    pub text_color: Option<String>,
    pub bg_color: Option<String>,
    pub animation: Option<String>,
}

/// A post in a hollow.
#[derive(Clone, Debug)]
pub struct HollowPost {
    pub id: String,
    pub content: String,
    pub created_at: Timestamp,
    pub is_public: bool,
}

/// A user's own space.
#[derive(Clone, Debug)]
pub struct Hollow {
    pub owner_address: String,
    pub display_name: Option<String>,
    pub bio: Option<String>,
    pub created_at: Timestamp,
    pub private_posts: Vec<HollowPost>,
    pub settings: HollowSettings,
    pub friends: Vec<String>,
    pub music_url: Option<String>,
    pub video_embed: Option<String>,
    pub social_links: Vec<SocialLink>,
    pub custom_html: Option<String>,
}

/// A comment on a hollow's public wall.
#[derive(Clone, Debug)]
pub struct HollowComment {
    pub id: String,
    pub target_hollow: String,
    pub author_address: String,
    pub content: String,
    pub created_at: Timestamp,
}

impl HollowComment {
    /// A comment with a random id, stamped now.
    pub fn new(target_hollow: String, author_address: String, content: String) -> (c:
        HollowComment)
        ensures
            is_uuid_text(c.id@),
            c.target_hollow == target_hollow,
            c.author_address == author_address,
            c.content == content,
    {
        HollowComment { id: new_uuid(), target_hollow, author_address, content, created_at: now() }
    }
}

/// A record that a leaf was mirrored by an address.
#[derive(Clone, Debug)]
pub struct Mirror {
    pub leaf_id: String,
    pub mirror_address: String,
    pub timestamp: Timestamp,
}

/// A leaf kept by an address beyond its seeding period.
#[derive(Clone, Debug)]
pub struct LegendaryEntry {
    pub leaf_id: String,
    pub promoted_by: String,
    pub promoted_at: Timestamp,
    pub leaf_snapshot: Leaf,
}

/// A packet of a garlic-routed message: the payload and the next hop.
#[derive(Clone, Debug)]
pub struct GarlicPacket {
    pub payload: Vec<u8>,
    pub next_hop: Option<String>,
}

// ---------------------------------------------------------------------
// Requests
// ---------------------------------------------------------------------

#[derive(Clone, Debug)]
pub struct CreateLeafRequest {
    pub author_name: Option<String>,
    pub content: String,
    pub media_urls: Option<Vec<String>>,
    pub root: String,
    pub branch: String,
    pub parent_leaf_id: Option<String>,
}

#[derive(Clone, Debug)]
pub struct CreateBranchRequest {
    pub id: Option<String>,
    pub name: String,
    pub description: String,
    pub trunk_id: Option<String>,
}

#[derive(Clone, Debug)]
pub struct CreateTrunkRequest {
    pub name: String,
    pub description: String,
    pub created_by: String,
}

#[derive(Clone, Debug)]
pub struct CreateHollowPostRequest {
    pub content: String,
    pub is_public: Option<bool>,
}

#[derive(Clone, Debug)]
pub struct CreateHollowCommentRequest {
    pub author_address: String,
    pub content: String,
}

#[derive(Clone, Debug)]
pub struct UpdateHollowRequest {
    pub display_name: Option<String>,
    pub bio: Option<String>,
    pub is_public: Option<bool>,
    pub theme: Option<String>,
    pub custom_css: Option<String>,
    pub custom_html: Option<String>,
    pub music_url: Option<String>,
    pub video_embed: Option<String>,
    pub font_size: Option<String>,
    pub text_color: Option<String>,
    pub bg_color: Option<String>,
    pub animation: Option<String>,
}

#[derive(Clone, Debug)]
pub struct FriendRequest {
    pub friend_address: String,
}

#[derive(Clone, Debug)]
pub struct SearchParams {
    pub q: String,
}

#[derive(Clone, Debug)]
pub struct AddPeerRequest {
    pub address: String,
}

#[derive(Clone, Debug)]
pub struct LegendaryQuery {
    pub address: String,
}

} // verus!
