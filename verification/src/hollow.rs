//! Hollows: a user's own page, its settings, posts, friends and the
//! comments others leave on it.
use vstd::prelude::*;
use crate::models::{
    CreateHollowPostRequest, Hollow, HollowComment, HollowPost, HollowSettings, Timestamp,
    UpdateHollowRequest, is_before, is_uuid_text, new_uuid, now, before,
};
use crate::content::{contains_text, texts};
use crate::text::{
    sanitize_content, sanitized_text, trim, lemma_utf8_len_bound, lemma_short_text_fits,
    str_eq, chars_of, is_space,
};

verus! {

impl Hollow {
    /// A public hollow of `owner_address` with the default theme, stamped
    /// now, with no posts, friends or links.
    pub fn new(owner_address: String) -> (h: Hollow)
        ensures
            h.owner_address == owner_address,
            h.display_name is None,
            h.bio is None,
            h.private_posts@.len() == 0,
            !h.settings.is_public,
            h.settings.allow_mirrors,
            h.settings.theme@ == "default"@,
            h.settings.custom_css is None,
            h.settings.font_size is None,
            h.settings.text_color is None,
            h.settings.bg_color is None,
            h.settings.animation is None,
            h.friends@.len() == 0,
            h.music_url is None,
            h.video_embed is None,
            h.social_links@.len() == 0,
            h.custom_html is None,
    {
        Hollow {
            owner_address,
            display_name: None,
            bio: None,
            created_at: now(),
            private_posts: Vec::new(),
            settings: HollowSettings {
                is_public: false,
                allow_mirrors: true,
                theme: "default".to_owned(),
                custom_css: None,
                font_size: None,
                text_color: None,
                bg_color: None,
                animation: None,
            },
            friends: Vec::new(),
            music_url: None,
            video_embed: None,
            social_links: Vec::new(),
            custom_html: None,
        }
    }

    /// Applies the fields present in `update`; absent fields keep their
    /// value.
    pub fn apply_update(&mut self, update: UpdateHollowRequest)
        ensures
            final(self).owner_address == old(self).owner_address,
            final(self).created_at == old(self).created_at,
            final(self).private_posts == old(self).private_posts,
            final(self).friends == old(self).friends,
            final(self).social_links == old(self).social_links,
            final(self).settings.allow_mirrors == old(self).settings.allow_mirrors,
            final(self).display_name == (if update.display_name is Some { update.display_name } else { old(self).display_name }),
            final(self).bio == (if update.bio is Some { update.bio } else { old(self).bio }),
            final(self).settings.is_public == (match update.is_public { Some(v) => v, None => old(self).settings.is_public }),
            final(self).settings.theme == (match update.theme { Some(v) => v, None => old(self).settings.theme }),
            final(self).settings.custom_css == (if update.custom_css is Some { update.custom_css } else { old(self).settings.custom_css }),
            final(self).custom_html == (if update.custom_html is Some { update.custom_html } else { old(self).custom_html }),
            final(self).music_url == (if update.music_url is Some { update.music_url } else { old(self).music_url }),
            final(self).video_embed == (if update.video_embed is Some { update.video_embed } else { old(self).video_embed }),
            final(self).settings.font_size == (if update.font_size is Some { update.font_size } else { old(self).settings.font_size }),
            final(self).settings.text_color == (if update.text_color is Some { update.text_color } else { old(self).settings.text_color }),
            final(self).settings.bg_color == (if update.bg_color is Some { update.bg_color } else { old(self).settings.bg_color }),
            final(self).settings.animation == (if update.animation is Some { update.animation } else { old(self).settings.animation }),
    {
        if update.display_name.is_some() {
            self.display_name = update.display_name;
        }
        if update.bio.is_some() {
            self.bio = update.bio;
        }
        if let Some(v) = update.is_public {
            self.settings.is_public = v;
        }
        if let Some(v) = update.theme {
            self.settings.theme = v;
        }
        if update.custom_css.is_some() {
            self.settings.custom_css = update.custom_css;
        }
        if update.custom_html.is_some() {
            self.custom_html = update.custom_html;
        }
        if update.music_url.is_some() {
            self.music_url = update.music_url;
        }
        if update.video_embed.is_some() {
            self.video_embed = update.video_embed;
        }
        if update.font_size.is_some() {
            self.settings.font_size = update.font_size;
        }
        if update.text_color.is_some() {
            self.settings.text_color = update.text_color;
        }
        if update.bg_color.is_some() {
            self.settings.bg_color = update.bg_color;
        }
        if update.animation.is_some() {
            self.settings.animation = update.animation;
        }
    }

    /// Replaces the settings.
    pub fn set_settings(&mut self, settings: HollowSettings)
        ensures
            *final(self) == (Hollow { settings: settings, ..*old(self) }),
    {
        self.settings = settings;
    }

    /// Adds `friend_address` to the friends, once.  Returns whether it was
    /// new.
    pub fn add_friend(&mut self, friend_address: &str) -> (added: bool)
        ensures
            added == !texts(old(self).friends@).contains(friend_address@),
            added ==> texts(final(self).friends@) == texts(old(self).friends@).push(friend_address@)
                && *final(self) == (Hollow { friends: final(self).friends, ..*old(self) }),
            !added ==> *final(self) == *old(self),
            texts(old(self).friends@).no_duplicates() ==> texts(final(self).friends@).no_duplicates(),
    {
        if contains_text(&self.friends, friend_address) {
            return false;
        }
        self.friends.push(friend_address.to_owned());
        proof {
            assert(texts(self.friends@) =~= texts(old(self).friends@).push(friend_address@));
        }
        true
    }

    /// Appends a post.
    pub fn add_post(&mut self, post: HollowPost)
        ensures
            final(self).private_posts@ == old(self).private_posts@.push(post),
            *final(self) == (Hollow { private_posts: final(self).private_posts, ..*old(self) }),
    {
        self.private_posts.push(post);
    }

    /// Removes every post whose id is `post_id`, keeping the others in order.
    pub fn delete_post(&mut self, post_id: &str)
        ensures
            final(self).private_posts@ == old(self).private_posts@.filter(
                |p: HollowPost| p.id@ != post_id@,
            ),
            *final(self) == (Hollow { private_posts: final(self).private_posts, ..*old(self) }),
            forall|i: int| 0 <= i < final(self).private_posts@.len() ==> (#[trigger] final(self).private_posts@[i]).id@ != post_id@,
    {
        let ghost pred = |p: HollowPost| p.id@ != post_id@;
        let ghost all = self.private_posts@;
        let mut kept: Vec<HollowPost> = Vec::new();
        let mut posts: Vec<HollowPost> = Vec::new();
        std::mem::swap(&mut posts, &mut self.private_posts);
        proof {
            assert(all.take(all.len() as int) =~= all);
        }
        for post in it: posts
            invariant
                it.seq() == all,
                pred == (|p: HollowPost| p.id@ != post_id@),
                all.take(all.len() as int) == all,
                kept@ == all.take(it.index()).filter(pred),
            ensures
                kept@ == all.filter(pred),
        {
            proof {
                reveal_with_fuel(Seq::<_>::filter, 1);
                assert(all.take(it.index() + 1).drop_last() =~= all.take(it.index()));
            }
            if !str_eq(post.id.as_str(), post_id) {
                kept.push(post);
            }
        }
        proof {
            assert forall|i: int| 0 <= i < kept@.len() implies (#[trigger] kept@[i]).id@ != post_id@ by {
                all.lemma_filter_pred(pred, i);
            }
        }
        self.private_posts = kept;
    }
}

impl HollowPost {
    /// A post with a random id, stamped now; private unless the request
    /// says otherwise.
    pub fn from_request(req: CreateHollowPostRequest) -> (p: HollowPost)
        ensures
            is_uuid_text(p.id@),
            p.content == req.content,
            p.is_public == (match req.is_public {
                Some(b) => b,
                None => false,
            }),
    {
        let is_public = match req.is_public {
            Some(b) => b,
            None => false,
        };
        HollowPost { id: new_uuid(), content: req.content, created_at: now(), is_public }
    }
}

/// What a visitor sees of a hollow: all of it when it is public, else its
/// owner, name, bio and creation time.
#[derive(Clone, Debug)]
pub enum HollowView {
    Full(Hollow),
    Restricted {
        owner_address: String,
        display_name: Option<String>,
        bio: Option<String>,
        created_at: Timestamp,
    },
}

/// The view of `hollow` that a visitor gets.
pub fn visitor_view(hollow: Hollow) -> (v: HollowView)
    ensures
        hollow.settings.is_public ==> v == HollowView::Full(hollow),
        !hollow.settings.is_public ==> v == (HollowView::Restricted {
            owner_address: hollow.owner_address,
            display_name: hollow.display_name,
            bio: hollow.bio,
            created_at: hollow.created_at,
        }),
{
    if hollow.settings.is_public {
        HollowView::Full(hollow)
    } else {
        HollowView::Restricted {
            owner_address: hollow.owner_address,
            display_name: hollow.display_name,
            bio: hollow.bio,
            created_at: hollow.created_at,
        }
    }
}

/// Largest length of a comment, in characters.
pub const MAX_COMMENT_CHARS: usize = 2000;

/// Why a comment is refused.
#[derive(Clone, Copy, Debug, PartialEq, Eq, Structural)]
pub enum CommentRejection {
    Empty,
    TooLong,
}

/// The verdict on a comment: refused when it is only whitespace, or longer
/// than `MAX_COMMENT_CHARS` characters; otherwise accepted with its
/// sanitized text.
pub open spec fn comment_verdict(content: Seq<char>) -> Result<Seq<char>, CommentRejection> {
    if trim(content).len() == 0 {
        Err(CommentRejection::Empty)
    } else if content.len() > MAX_COMMENT_CHARS {
        Err(CommentRejection::TooLong)
    } else {
        Ok(sanitized_text(content))
    }
}

/// `content` is only whitespace.
fn is_blank(content: &str) -> (blank: bool)
    ensures
        blank == (trim(content@).len() == 0),
{
    let chars = chars_of(content);
    let mut i: usize = 0;
    while i < chars.len()
        invariant
            i <= chars.len(),
            chars@ == content@,
            forall|j: int| 0 <= j < i ==> crate::text::is_space_char(#[trigger] chars@[j]),
        decreases chars.len() - i,
    {
        if !is_space(chars[i]) {
            proof {
                lemma_trim_nonblank(content@, i as int);
            }
            return false;
        }
        i = i + 1;
    }
    proof {
        lemma_trim_blank(content@);
    }
    true
}

proof fn lemma_trim_blank(s: Seq<char>)
    requires
        forall|j: int| 0 <= j < s.len() ==> crate::text::is_space_char(#[trigger] s[j]),
    ensures
        trim(s).len() == 0,
    decreases s.len(),
{
    if s.len() > 0 {
        assert forall|j: int| 0 <= j < s.drop_first().len() implies crate::text::is_space_char(
            #[trigger] s.drop_first()[j],
        ) by {
            assert(s.drop_first()[j] == s[j + 1]);
        }
        lemma_trim_blank(s.drop_first());
    }
}

proof fn lemma_trim_nonblank(s: Seq<char>, i: int)
    requires
        0 <= i < s.len(),
        !crate::text::is_space_char(s[i]),
    ensures
        trim(s).len() > 0,
    decreases s.len(),
{
    if crate::text::is_space_char(s[0]) {
        assert(s.drop_first()[i - 1] == s[i]);
        lemma_trim_nonblank(s.drop_first(), i - 1);
    } else {
        lemma_trim_end_nonblank(s);
    }
}

proof fn lemma_trim_end_nonblank(s: Seq<char>)
    requires
        s.len() > 0,
        !crate::text::is_space_char(s[0]),
    ensures
        crate::text::trim_end(s).len() > 0,
    decreases s.len(),
{
    if crate::text::is_space_char(s.last()) {
        assert(s.len() > 1);
        assert(s.drop_last()[0] == s[0]);
        lemma_trim_end_nonblank(s.drop_last());
    }
}

/// Decides whether a comment is accepted, and with which text.
pub fn check_comment(content: &str) -> (r: Result<String, CommentRejection>)
    ensures
        match comment_verdict(content@) {
            Ok(c) => r matches Ok(s) && s@ == c,
            Err(e) => r == Err::<String, CommentRejection>(e),
        },
{
    if is_blank(content) {
        return Err(CommentRejection::Empty);
    }
    let chars = chars_of(content);
    if chars.len() > MAX_COMMENT_CHARS {
        return Err(CommentRejection::TooLong);
    }
    proof {
        lemma_utf8_len_bound(content@);
        lemma_short_text_fits(content@);
    }
    Ok(sanitize_content(content))
}

/// `comments` is ordered newest first.
pub open spec fn newest_first(comments: Seq<HollowComment>) -> bool {
    forall|i: int, j: int|
        0 <= i < j < comments.len() ==> !is_before(
            #[trigger] comments[i].created_at,
            #[trigger] comments[j].created_at,
        )
}

/// `sorted` lays out `orig` by the input positions `idx`: each entry is the
/// input entry at its position, no position is used twice, and entries of
/// the same instant keep their input order.
pub open spec fn stable_layout(orig: Seq<HollowComment>, sorted: Seq<HollowComment>, idx: Seq<int>) -> bool {
    &&& idx.len() == sorted.len()
    &&& sorted.len() == orig.len()
    &&& forall|k: int| 0 <= k < idx.len() ==> 0 <= #[trigger] idx[k] < orig.len() && sorted[k] == orig[idx[k]]
    &&& forall|k1: int, k2: int|
        0 <= k1 < k2 < idx.len() ==> #[trigger] idx[k1] != #[trigger] idx[k2] && (sorted[k1].created_at
            == sorted[k2].created_at ==> idx[k1] < idx[k2])
}

/// Orders comments newest first; comments of the same instant keep their
/// relative order.
pub fn sort_newest_first(comments: Vec<HollowComment>) -> (sorted: Vec<HollowComment>)
    ensures
        newest_first(sorted@),
        sorted@.to_multiset() == comments@.to_multiset(),
        exists|idx: Seq<int>| stable_layout(comments@, sorted@, idx),
{
    let ghost all = comments@;
    let mut sorted: Vec<HollowComment> = Vec::new();
    let ghost mut idx: Seq<int> = Seq::empty();
    proof {
        assert(all.take(all.len() as int) =~= all);
        assert(all.take(0) =~= Seq::<HollowComment>::empty());
    }
    for c in it: comments
        invariant
            it.seq() == all,
            all.take(all.len() as int) == all,
            newest_first(sorted@),
            sorted@.to_multiset() == all.take(it.index()).to_multiset(),
            stable_layout(all.take(it.index()), sorted@, idx),
        ensures
            newest_first(sorted@),
            sorted@.to_multiset() == all.to_multiset(),
            stable_layout(all, sorted@, idx),
    {
        // Position after every comment at least as new as `c`.
        let mut pos: usize = 0;
        while pos < sorted.len()
            invariant
                pos <= sorted.len(),
                forall|j: int| 0 <= j < pos ==> !is_before(#[trigger] sorted@[j].created_at, c.created_at),
            ensures
                pos <= sorted.len(),
                forall|j: int| 0 <= j < pos ==> !is_before(#[trigger] sorted@[j].created_at, c.created_at),
                pos < sorted.len() ==> is_before(sorted@[pos as int].created_at, c.created_at),
            decreases sorted.len() - pos,
        {
            if before(sorted[pos].created_at, c.created_at) {
                break;
            }
            pos = pos + 1;
        }
        let ghost prev = sorted@;
        let ghost prev_idx = idx;
        let ghost n = it.index();
        sorted.insert(pos, c);
        proof {
            idx = prev_idx.insert(pos as int, n);
            assert(all.take(n + 1) =~= all.take(n).push(c));
            all.take(n).to_multiset_ensures();
            let t = sorted@;
            assert(t.remove(pos as int) =~= prev);
            assert(t[pos as int] == c);
            assert(t.contains(c));
            t.to_multiset_ensures();
            prev.to_multiset_ensures();
            assert(t.to_multiset().count(c) > 0);
            assert(t.remove(pos as int).to_multiset() =~= t.to_multiset().remove(t[pos as int]));
            assert(prev.to_multiset() =~= t.to_multiset().remove(c));
            assert(t.to_multiset() =~= prev.to_multiset().insert(c)) by {
                broadcast use vstd::multiset::group_multiset_axioms;
            }
            assert forall|i: int, j: int| 0 <= i < j < t.len() implies !is_before(
                #[trigger] t[i].created_at,
                #[trigger] t[j].created_at,
            ) by {
                if j < pos {
                    assert(t[i] == prev[i] && t[j] == prev[j]);
                } else if j == pos {
                    assert(t[i] == prev[i]);
                } else if i == pos {
                    assert(t[j] == prev[j - 1]);
                    if pos < prev.len() {
                        assert(is_before(prev[pos as int].created_at, c.created_at));
                        if j - 1 > pos {
                            assert(!is_before(prev[pos as int].created_at, prev[j - 1].created_at));
                        }
                    }
                } else if i < pos {
                    assert(t[i] == prev[i] && t[j] == prev[j - 1]);
                } else {
                    assert(t[i] == prev[i - 1] && t[j] == prev[j - 1]);
                }
            }
            // The layout follows the insertion.
            let orig = all.take(n + 1);
            assert(c == orig[n]);
            assert forall|k: int| 0 <= k < idx.len() implies 0 <= #[trigger] idx[k] < orig.len()
                && t[k] == orig[idx[k]] by {
                if k < pos {
                    assert(idx[k] == prev_idx[k] && t[k] == prev[k]);
                    assert(all.take(n)[prev_idx[k]] == orig[prev_idx[k]]);
                } else if k > pos {
                    assert(idx[k] == prev_idx[k - 1] && t[k] == prev[k - 1]);
                    assert(all.take(n)[prev_idx[k - 1]] == orig[prev_idx[k - 1]]);
                }
            }
            assert forall|k1: int, k2: int| 0 <= k1 < k2 < idx.len() implies #[trigger] idx[k1]
                != #[trigger] idx[k2] && (t[k1].created_at == t[k2].created_at ==> idx[k1] < idx[k2]) by {
                if k2 < pos {
                    assert(idx[k1] == prev_idx[k1] && idx[k2] == prev_idx[k2]);
                    assert(t[k1] == prev[k1] && t[k2] == prev[k2]);
                } else if k2 == pos {
                    assert(idx[k1] == prev_idx[k1]);
                    assert(prev_idx[k1] < n);
                } else if k1 == pos {
                    assert(idx[k2] == prev_idx[k2 - 1]);
                    assert(prev_idx[k2 - 1] < n);
                    assert(t[k2] == prev[k2 - 1]);
                    assert(is_before(prev[pos as int].created_at, c.created_at));
                    if k2 - 1 > pos {
                        assert(!is_before(prev[pos as int].created_at, prev[k2 - 1].created_at));
                    }
                } else if k1 < pos {
                    assert(idx[k1] == prev_idx[k1] && idx[k2] == prev_idx[k2 - 1]);
                    assert(t[k1] == prev[k1] && t[k2] == prev[k2 - 1]);
                } else {
                    assert(idx[k1] == prev_idx[k1 - 1] && idx[k2] == prev_idx[k2 - 1]);
                    assert(t[k1] == prev[k1 - 1] && t[k2] == prev[k2 - 1]);
                }
            }
        }
    }
    sorted
}

} // verus!
