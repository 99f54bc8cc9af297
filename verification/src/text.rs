//! Text handling: tag stripping, trimming and the format checks applied to
//! user-supplied addresses and signatures.
use vstd::prelude::*;

verus! {

/// Largest number of UTF-8 bytes that sanitized content keeps.
pub const MAX_CONTENT_BYTES: usize = 10000;

/// `c` is an ASCII hexadecimal digit (`0-9`, `a-f`, `A-F`).
pub open spec fn is_hex_char(c: char) -> bool {
    ('0' <= c && c <= '9') || ('a' <= c && c <= 'f') || ('A' <= c && c <= 'F')
}

/// `c` has the Unicode `White_Space` property (what `char::is_whitespace` tests).
pub open spec fn is_space_char(c: char) -> bool {
    let u = c as u32;
    (0x9 <= u && u <= 0xd) || u == 0x20 || u == 0x85 || u == 0xa0 || u == 0x1680 || (0x2000
        <= u && u <= 0x200a) || u == 0x2028 || u == 0x2029 || u == 0x202f || u == 0x205f || u
        == 0x3000
}

/// Number of bytes of the UTF-8 encoding of `c`.
pub open spec fn utf8_width(c: char) -> nat {
    let u = c as u32;
    if u < 0x80 {
        1
    } else if u < 0x800 {
        2
    } else if u < 0x10000 {
        3
    } else {
        4
    }
}

/// Number of bytes of the UTF-8 encoding of `s`.
pub open spec fn utf8_len(s: Seq<char>) -> nat
    decreases s.len(),
{
    if s.len() == 0 {
        0
    } else {
        utf8_width(s[0]) + utf8_len(s.drop_first())
    }
}

/// Tag stripping, as a left-to-right scan: characters between a `<` and the
/// next `>` are dropped, and so are the brackets themselves.  The second
/// component tells whether the scan ends inside a tag.
pub open spec fn strip_scan(s: Seq<char>) -> (Seq<char>, bool)
    decreases s.len(),
{
    if s.len() == 0 {
        (Seq::empty(), false)
    } else {
        let (out, in_tag) = strip_scan(s.drop_last());
        let c = s.last();
        if c == '<' {
            (out, true)
        } else if c == '>' {
            (out, false)
        } else if !in_tag {
            (out.push(c), in_tag)
        } else {
            (out, in_tag)
        }
    }
}

/// The characters of `s` that lie outside `<...>` tags.
pub open spec fn strip_tags(s: Seq<char>) -> Seq<char> {
    strip_scan(s).0
}

/// `c` is the lower-case ASCII letter `lower`, in either case, or equals
/// `lower`.
pub open spec fn same_letter(c: char, lower: char) -> bool {
    c == lower || ('a' <= lower && lower <= 'z' && c as u32 + 32 == lower as u32)
}

/// `pat` occurs at position `at` of `s`, ignoring the case of ASCII letters.
pub open spec fn matches_at(s: Seq<char>, at: int, pat: Seq<char>) -> bool {
    &&& 0 <= at
    &&& at + pat.len() <= s.len()
    &&& forall|j: int| 0 <= j < pat.len() ==> same_letter(#[trigger] s[at + j], pat[j])
}

/// The opening of a script element.
pub open spec fn script_open() -> Seq<char> {
    seq!['<', 's', 'c', 'r', 'i', 'p', 't']
}

/// The end tag of a script element.
pub open spec fn script_close() -> Seq<char> {
    seq!['<', '/', 's', 'c', 'r', 'i', 'p', 't', '>']
}

/// Position of the first end tag of a script element in `s`.
pub open spec fn find_close(s: Seq<char>) -> Option<int>
    decreases s.len(),
{
    if s.len() < 9 {
        None
    } else if matches_at(s, 0, script_close()) {
        Some(0)
    } else {
        match find_close(s.drop_first()) {
            Some(k) => Some(k + 1),
            None => None,
        }
    }
}

/// `s` without its script elements: from each `<script` up to and including
/// the next `</script>` (ASCII letters in either case), or to the end of the
/// text when no end tag follows.
pub open spec fn drop_scripts(s: Seq<char>) -> Seq<char>
    decreases s.len(),
{
    if s.len() == 0 {
        Seq::empty()
    } else if matches_at(s, 0, script_open()) {
        match find_close(s.skip(7)) {
            Some(k) => if 0 <= k && 16 + k <= s.len() {
                drop_scripts(s.skip(16 + k))
            } else {
                Seq::empty()
            },
            None => Seq::empty(),
        }
    } else {
        seq![s[0]] + drop_scripts(s.drop_first())
    }
}

/// The visible text of `s`: script elements dropped, then tags stripped.
pub open spec fn visible_text(s: Seq<char>) -> Seq<char> {
    strip_tags(drop_scripts(s))
}

/// How many leading characters of `s` fit in `n` bytes of UTF-8.
pub open spec fn prefix_count(s: Seq<char>, n: nat) -> nat
    decreases s.len(),
{
    if s.len() == 0 {
        0
    } else if utf8_width(s[0]) <= n {
        1 + prefix_count(s.drop_first(), (n - utf8_width(s[0])) as nat)
    } else {
        0
    }
}

/// The longest prefix of `s` whose UTF-8 encoding has at most `n` bytes.
pub open spec fn byte_prefix(s: Seq<char>, n: nat) -> Seq<char> {
    s.take(prefix_count(s, n) as int)
}

/// `s` without its leading whitespace.
pub open spec fn trim_start(s: Seq<char>) -> Seq<char>
    decreases s.len(),
{
    if s.len() > 0 && is_space_char(s[0]) {
        trim_start(s.drop_first())
    } else {
        s
    }
}

/// `s` without its trailing whitespace.
pub open spec fn trim_end(s: Seq<char>) -> Seq<char>
    decreases s.len(),
{
    if s.len() > 0 && is_space_char(s.last()) {
        trim_end(s.drop_last())
    } else {
        s
    }
}

/// `s` without leading and trailing whitespace (what `str::trim` returns).
pub open spec fn trim(s: Seq<char>) -> Seq<char> {
    trim_end(trim_start(s))
}

/// Truncating the stripped text to the byte limit falls on a character
/// boundary (or nothing needs truncating).
pub open spec fn sanitize_fits(content: Seq<char>) -> bool {
    let stripped = visible_text(content);
    utf8_len(stripped) <= MAX_CONTENT_BYTES || utf8_len(byte_prefix(stripped, MAX_CONTENT_BYTES as nat))
        == MAX_CONTENT_BYTES
}

/// The sanitized form of `content`: script elements dropped, tags
/// stripped, cut to the byte limit, surrounding whitespace trimmed.
pub open spec fn sanitized_text(content: Seq<char>) -> Seq<char> {
    trim(byte_prefix(visible_text(content), MAX_CONTENT_BYTES as nat))
}

/// `s` is `0x` followed by 40 hexadecimal digits.
pub open spec fn is_address(s: Seq<char>) -> bool {
    &&& s.len() == 42
    &&& s[0] == '0'
    &&& s[1] == 'x'
    &&& forall|i: int| 2 <= i < 42 ==> is_hex_char(#[trigger] s[i])
}

/// `s` is 128 hexadecimal digits (a hex-encoded Ed25519 signature).
pub open spec fn is_signature_hex(s: Seq<char>) -> bool {
    &&& s.len() == 128
    &&& forall|i: int| 0 <= i < 128 ==> is_hex_char(#[trigger] s[i])
}

// ---------------------------------------------------------------------
// Lemmas
// ---------------------------------------------------------------------

proof fn lemma_strip_scan_step(s: Seq<char>, i: int)
    requires
        0 <= i < s.len(),
    ensures
        s.take(i + 1).drop_last() == s.take(i),
        s.take(i + 1).last() == s[i],
{
    assert(s.take(i + 1).drop_last() =~= s.take(i));
}

proof fn lemma_prefix_count_bounds(s: Seq<char>, n: nat)
    ensures
        prefix_count(s, n) <= s.len(),
        utf8_len(s.take(prefix_count(s, n) as int)) <= n,
        utf8_len(s) <= n ==> prefix_count(s, n) == s.len(),
    decreases s.len(),
{
    if s.len() > 0 {
        let w = utf8_width(s[0]);
        if w <= n {
            lemma_prefix_count_bounds(s.drop_first(), (n - w) as nat);
            let k = prefix_count(s, n) as int;
            assert(s.take(k).drop_first() =~= s.drop_first().take(k - 1));
        } else {
            assert(s.take(0) =~= Seq::<char>::empty());
        }
    } else {
        assert(s.take(0) =~= Seq::<char>::empty());
    }
}

proof fn lemma_prefix_count_skip(s: Seq<char>, i: int, n: nat)
    requires
        0 <= i < s.len(),
        utf8_width(s[i]) <= n,
    ensures
        prefix_count(s.skip(i), n) == 1 + prefix_count(s.skip(i + 1), (n - utf8_width(s[i])) as nat),
{
    assert(s.skip(i).drop_first() =~= s.skip(i + 1));
}

proof fn lemma_trim_start_skip(s: Seq<char>, a: int)
    requires
        0 <= a <= s.len(),
        forall|j: int| 0 <= j < a ==> is_space_char(#[trigger] s[j]),
        a == s.len() || !is_space_char(s[a]),
    ensures
        trim_start(s) == s.skip(a),
    decreases a,
{
    if a == 0 {
        assert(s.skip(0) =~= s);
    } else {
        assert(s.drop_first().skip(a - 1) =~= s.skip(a));
        lemma_trim_start_skip(s.drop_first(), a - 1);
    }
}

proof fn lemma_trim_end_take(s: Seq<char>, b: int)
    requires
        0 <= b <= s.len(),
        forall|j: int| b <= j < s.len() ==> is_space_char(#[trigger] s[j]),
        b == 0 || !is_space_char(s[b - 1]),
    ensures
        trim_end(s) == s.take(b),
    decreases s.len() - b,
{
    if b == s.len() {
        assert(s.take(b) =~= s);
    } else {
        assert(s.drop_last().take(b) =~= s.take(b));
        lemma_trim_end_take(s.drop_last(), b);
    }
}

/// The tag scan never emits a bracket.
proof fn lemma_strip_scan_no_brackets(s: Seq<char>)
    ensures
        forall|i: int|
            0 <= i < strip_scan(s).0.len() ==> #[trigger] strip_scan(s).0[i] != '<'
                && strip_scan(s).0[i] != '>',
        strip_scan(s).0.len() <= s.len(),
    decreases s.len(),
{
    if s.len() > 0 {
        lemma_strip_scan_no_brackets(s.drop_last());
    }
}

/// A text without brackets passes the tag scan unchanged.
proof fn lemma_strip_scan_identity(s: Seq<char>)
    requires
        forall|i: int| 0 <= i < s.len() ==> #[trigger] s[i] != '<' && s[i] != '>',
    ensures
        strip_scan(s) == (s, false),
    decreases s.len(),
{
    if s.len() > 0 {
        lemma_strip_scan_identity(s.drop_last());
        assert(s.drop_last().push(s.last()) =~= s);
    } else {
        assert(s =~= Seq::<char>::empty());
    }
}

proof fn lemma_utf8_len_take_le(s: Seq<char>, k: int)
    requires
        0 <= k <= s.len(),
    ensures
        utf8_len(s.take(k)) <= utf8_len(s),
    decreases s.len(),
{
    if k > 0 {
        assert(s.take(k).drop_first() =~= s.drop_first().take(k - 1));
        lemma_utf8_len_take_le(s.drop_first(), k - 1);
    } else {
        assert(s.take(0) =~= Seq::<char>::empty());
    }
}

proof fn lemma_utf8_len_skip_le(s: Seq<char>, k: int)
    requires
        0 <= k <= s.len(),
    ensures
        utf8_len(s.skip(k)) <= utf8_len(s),
    decreases k,
{
    if k > 0 {
        assert(s.drop_first().skip(k - 1) =~= s.skip(k));
        lemma_utf8_len_skip_le(s.drop_first(), k - 1);
    } else {
        assert(s.skip(0) =~= s);
    }
}

proof fn lemma_trim_start_props(s: Seq<char>)
    ensures
        trim_start(s).len() == 0 || !is_space_char(trim_start(s)[0]),
        exists|k: int| 0 <= k <= s.len() && trim_start(s) == s.skip(k),
    decreases s.len(),
{
    if s.len() > 0 && is_space_char(s[0]) {
        lemma_trim_start_props(s.drop_first());
        let k = choose|k: int|
            0 <= k <= s.drop_first().len() && trim_start(s.drop_first()) == s.drop_first().skip(
                k,
            );
        assert(s.drop_first().skip(k) =~= s.skip(k + 1));
    } else {
        assert(s.skip(0) =~= s);
    }
}

proof fn lemma_trim_end_props(s: Seq<char>)
    ensures
        trim_end(s).len() == 0 || !is_space_char(trim_end(s).last()),
        exists|k: int| 0 <= k <= s.len() && trim_end(s) == s.take(k),
    decreases s.len(),
{
    if s.len() > 0 && is_space_char(s.last()) {
        lemma_trim_end_props(s.drop_last());
        let k = choose|k: int|
            0 <= k <= s.drop_last().len() && trim_end(s.drop_last()) == s.drop_last().take(k);
        assert(s.drop_last().take(k) =~= s.take(k));
    } else {
        assert(s.take(s.len() as int) =~= s);
    }
}

/// Trimming a text that starts and ends with non-whitespace changes nothing.
proof fn lemma_trim_identity(s: Seq<char>)
    requires
        s.len() == 0 || (!is_space_char(s[0]) && !is_space_char(s.last())),
    ensures
        trim(s) == s,
{
    lemma_trim_start_skip(s, 0);
    assert(s.skip(0) =~= s);
    lemma_trim_end_take(s, s.len() as int);
    assert(s.take(s.len() as int) =~= s);
}

/// What sanitizing guarantees of its output: no tag brackets, no
/// surrounding whitespace, and at most `MAX_CONTENT_BYTES` bytes.
pub proof fn lemma_sanitized_text_shape(content: Seq<char>)
    requires
        sanitize_fits(content),
    ensures
        forall|i: int|
            0 <= i < sanitized_text(content).len() ==> #[trigger] sanitized_text(content)[i]
                != '<' && sanitized_text(content)[i] != '>',
        sanitized_text(content).len() == 0 || (!is_space_char(sanitized_text(content)[0])
            && !is_space_char(sanitized_text(content).last())),
        utf8_len(sanitized_text(content)) <= MAX_CONTENT_BYTES,
{
    let stripped = visible_text(content);
    let n = MAX_CONTENT_BYTES as nat;
    lemma_strip_scan_no_brackets(drop_scripts(content));
    lemma_prefix_count_bounds(stripped, n);
    let p = byte_prefix(stripped, n);
    let ts = trim_start(p);
    lemma_trim_start_props(p);
    lemma_trim_end_props(ts);
    let k1 = choose|k: int| 0 <= k <= p.len() && ts == p.skip(k);
    let k2 = choose|k: int| 0 <= k <= ts.len() && trim_end(ts) == ts.take(k);
    let r = sanitized_text(content);
    assert forall|i: int| 0 <= i < r.len() implies #[trigger] r[i] != '<' && r[i] != '>' by {
        assert(r[i] == stripped[i + k1]);
    }
    if r.len() > 0 {
        // trim_end of a text that starts with non-space keeps its first character
        assert(r[0] == ts[0]);
    }
    lemma_utf8_len_take_le(ts, k2);
    lemma_utf8_len_skip_le(p, k1);
}

/// Sanitizing is idempotent: sanitized text is accepted again and comes back
/// unchanged.
pub proof fn lemma_sanitize_idempotent(content: Seq<char>)
    requires
        sanitize_fits(content),
    ensures
        sanitize_fits(sanitized_text(content)),
        sanitized_text(sanitized_text(content)) == sanitized_text(content),
{
    let r = sanitized_text(content);
    let n = MAX_CONTENT_BYTES as nat;
    lemma_sanitized_text_shape(content);
    lemma_drop_scripts_identity(r);
    lemma_strip_scan_identity(r);
    assert(visible_text(r) == r);
    lemma_prefix_count_bounds(r, n);
    assert(byte_prefix(r, n) =~= r);
    lemma_trim_identity(r);
}

/// Stripping tags never makes a text longer in bytes.
pub proof fn lemma_strip_tags_utf8_len(s: Seq<char>)
    ensures
        utf8_len(strip_tags(s)) <= utf8_len(s),
    decreases s.len(),
{
    if s.len() > 0 {
        lemma_strip_tags_utf8_len(s.drop_last());
        lemma_utf8_len_push(strip_scan(s.drop_last()).0, s.last());
        lemma_utf8_len_push(s.drop_last(), s.last());
        assert(s.drop_last().push(s.last()) =~= s);
    }
}

proof fn lemma_utf8_len_push(s: Seq<char>, c: char)
    ensures
        utf8_len(s.push(c)) == utf8_len(s) + utf8_width(c),
    decreases s.len(),
{
    if s.len() > 0 {
        lemma_utf8_len_push(s.drop_first(), c);
        assert(s.push(c).drop_first() =~= s.drop_first().push(c));
        assert(s.push(c)[0] == s[0]);
    } else {
        assert(s.push(c).drop_first() =~= Seq::<char>::empty());
        assert(s.push(c)[0] == c);
        assert(utf8_len(Seq::<char>::empty()) == 0);
    }
}

/// An end tag found is within the text.
proof fn lemma_find_close_bounds(s: Seq<char>)
    ensures
        find_close(s) matches Some(k) ==> 0 <= k && k + 9 <= s.len() && matches_at(s, k, script_close()),
    decreases s.len(),
{
    if s.len() >= 9 && !matches_at(s, 0, script_close()) {
        lemma_find_close_bounds(s.drop_first());
        if let Some(k) = find_close(s.drop_first()) {
            assert forall|j: int| 0 <= j < 9 implies same_letter(#[trigger] s[k + 1 + j], script_close()[j]) by {
                assert(s.drop_first()[k + j] == s[k + 1 + j]);
            }
        }
    }
}

/// Without an end tag before `p`, the first end tag is the first one from
/// `p` on.
proof fn lemma_find_close_skip(s: Seq<char>, p: int)
    requires
        0 <= p <= s.len(),
        forall|q: int| 0 <= q < p ==> !matches_at(s, q, script_close()),
    ensures
        find_close(s) == (match find_close(s.skip(p)) {
            Some(k) => Some(k + p),
            None => None::<int>,
        }),
    decreases p,
{
    if p == 0 {
        assert(s.skip(0) =~= s);
    } else if s.len() < 9 {
        assert(s.skip(p).len() < 9);
    } else {
        let t = s.drop_first();
        assert forall|q: int| 0 <= q < p - 1 implies !matches_at(t, q, script_close()) by {
            if matches_at(t, q, script_close()) {
                assert forall|j: int| 0 <= j < 9 implies same_letter(#[trigger] s[q + 1 + j], script_close()[j]) by {
                    assert(t[q + j] == s[q + 1 + j]);
                }
                assert(matches_at(s, q + 1, script_close()));
            }
        }
        assert(!matches_at(s, 0, script_close()));
        lemma_find_close_skip(t, p - 1);
        assert(t.skip(p - 1) =~= s.skip(p));
    }
}

/// Dropping script elements never makes a text longer in bytes.
proof fn lemma_drop_scripts_utf8_len(s: Seq<char>)
    ensures
        utf8_len(drop_scripts(s)) <= utf8_len(s),
    decreases s.len(),
{
    if s.len() > 0 {
        if matches_at(s, 0, script_open()) {
            match find_close(s.skip(7)) {
                Some(k) => {
                    if 0 <= k && 16 + k <= s.len() {
                        lemma_drop_scripts_utf8_len(s.skip(16 + k));
                        lemma_utf8_len_skip_le(s, 16 + k);
                    }
                },
                None => {},
            }
        } else {
            lemma_drop_scripts_utf8_len(s.drop_first());
            let r = seq![s[0]] + drop_scripts(s.drop_first());
            assert(r.drop_first() =~= drop_scripts(s.drop_first()));
            assert(r[0] == s[0]);
        }
    }
}

/// A text without `<` has no script element.
proof fn lemma_drop_scripts_identity(s: Seq<char>)
    requires
        forall|i: int| 0 <= i < s.len() ==> #[trigger] s[i] != '<',
    ensures
        drop_scripts(s) == s,
    decreases s.len(),
{
    if s.len() > 0 {
        if matches_at(s, 0, script_open()) {
            assert(same_letter(s[0int + 0int], script_open()[0]));
            assert(s[0] != '<');
        }
        lemma_drop_scripts_identity(s.drop_first());
        assert(seq![s[0]] + s.drop_first() =~= s);
    }
}

/// Text of at most `MAX_CONTENT_BYTES` bytes can always be sanitized.
pub proof fn lemma_short_text_fits(s: Seq<char>)
    requires
        utf8_len(s) <= MAX_CONTENT_BYTES,
    ensures
        sanitize_fits(s),
{
    lemma_drop_scripts_utf8_len(s);
    lemma_strip_tags_utf8_len(drop_scripts(s));
}

/// A character takes at most four bytes.
pub proof fn lemma_utf8_len_bound(s: Seq<char>)
    ensures
        utf8_len(s) <= 4 * s.len(),
    decreases s.len(),
{
    if s.len() > 0 {
        lemma_utf8_len_bound(s.drop_first());
    }
}

/// Trimming in terms of the first and last non-whitespace positions.
pub proof fn lemma_trim_bounds(s: Seq<char>, a: int, b: int)
    requires
        0 <= a <= b <= s.len(),
        forall|j: int| 0 <= j < a ==> is_space_char(#[trigger] s[j]),
        a == s.len() || !is_space_char(s[a]),
        forall|j: int| b <= j < s.len() ==> is_space_char(#[trigger] s[j]),
        b == a || !is_space_char(s[b - 1]),
    ensures
        trim(s) == s.subrange(a, b),
{
    lemma_trim_start_skip(s, a);
    let ts = s.skip(a);
    lemma_trim_end_take(ts, b - a);
    assert(ts.take(b - a) =~= s.subrange(a, b));
}

// ---------------------------------------------------------------------
// Executable functions
// ---------------------------------------------------------------------

/// `c` is an ASCII hexadecimal digit.
pub fn is_hex_digit(c: char) -> (r: bool)
    ensures
        r == is_hex_char(c),
{
    ('0' <= c && c <= '9') || ('a' <= c && c <= 'f') || ('A' <= c && c <= 'F')
}

/// `c` is Unicode whitespace.
pub fn is_space(c: char) -> (r: bool)
    ensures
        r == is_space_char(c),
{
    let u = c as u32;
    (0x9 <= u && u <= 0xd) || u == 0x20 || u == 0x85 || u == 0xa0 || u == 0x1680 || (0x2000 <= u
        && u <= 0x200a) || u == 0x2028 || u == 0x2029 || u == 0x202f || u == 0x205f || u == 0x3000
}

/// Number of bytes of the UTF-8 encoding of `c`.
pub fn char_utf8_width(c: char) -> (w: usize)
    ensures
        w == utf8_width(c),
{
    let u = c as u32;
    if u < 0x80 {
        1
    } else if u < 0x800 {
        2
    } else if u < 0x10000 {
        3
    } else {
        4
    }
}

/// The characters of `s`, in order.
pub fn chars_of(s: &str) -> (v: Vec<char>)
    ensures
        v@ == s@,
{
    let mut v: Vec<char> = Vec::new();
    for c in it: s.chars()
        invariant
            it.seq() == s@,
            v@ == it.seq().take(it.index()),
        ensures
            v@ == s@,
    {
        proof {
            assert(it.seq().take(it.index() + 1) =~= v@.push(c));
        }
        v.push(c);
    }
    v
}

/// Appends `c` to `s` (`String::push`).
#[verifier::external_body]
pub(crate) fn string_push(s: &mut String, c: char)
    ensures
        final(s)@ == old(s)@.push(c),
{
    s.push(c)
}

/// The string made of `v[start..end]`.
pub fn string_from_range(v: &Vec<char>, start: usize, end: usize) -> (s: String)
    requires
        start <= end <= v.len(),
    ensures
        s@ == v@.subrange(start as int, end as int),
{
    let mut s = String::new();
    let mut i = start;
    while i < end
        invariant
            start <= i <= end <= v.len(),
            s@ == v@.subrange(start as int, i as int),
        decreases end - i,
    {
        string_push(&mut s, v[i]);
        proof {
            assert(v@.subrange(start as int, i + 1) =~= v@.subrange(start as int, i as int).push(
                v@[i as int],
            ));
        }
        i = i + 1;
    }
    s
}

/// The string made of all of `v`.
pub fn string_from_chars(v: &Vec<char>) -> (s: String)
    ensures
        s@ == v@,
{
    let s = string_from_range(v, 0, v.len());
    proof {
        assert(v@.subrange(0, v@.len() as int) =~= v@);
    }
    s
}

/// Whether `c` is the lower-case ASCII letter `lower` in either case, or
/// equals `lower`.
fn same_letter_exec(c: char, lower: char) -> (r: bool)
    ensures
        r == same_letter(c, lower),
{
    c == lower || ('a' <= lower && lower <= 'z' && (c as u32) + 32 == lower as u32)
}

/// Whether `pat` occurs at `at` in `v`, ignoring the case of ASCII letters.
fn matches_at_exec(v: &Vec<char>, at: usize, pat: &[char]) -> (r: bool)
    ensures
        r == matches_at(v@, at as int, pat@),
{
    if pat.len() > v.len() || at > v.len() - pat.len() {
        return false;
    }
    let mut j: usize = 0;
    while j < pat.len()
        invariant
            j <= pat@.len(),
            pat@.len() == pat.len(),
            at + pat@.len() <= v@.len(),
            v@.len() == v.len(),
            forall|q: int| 0 <= q < j ==> same_letter(#[trigger] v@[at + q], pat@[q]),
        decreases pat@.len() - j,
    {
        if !same_letter_exec(v[at + j], pat[j]) {
            return false;
        }
        j = j + 1;
    }
    true
}

/// Position in `v` of the first end tag of a script element at or after
/// `start`.
fn find_close_from(v: &Vec<char>, start: usize) -> (r: Option<usize>)
    requires
        start <= v@.len(),
    ensures
        find_close(v@.skip(start as int)) == (match r {
            Some(j) => Some(j - start),
            None => None::<int>,
        }),
        r matches Some(j) ==> start <= j && j + 9 <= v@.len(),
{
    let close = ['<', '/', 's', 'c', 'r', 'i', 'p', 't', '>'];
    proof {
        assert(close@ =~= script_close());
    }
    let ghost t = v@.skip(start as int);
    let mut p: usize = start;
    while v.len() - p >= 9
        invariant
            start <= p <= v@.len(),
            t == v@.skip(start as int),
            close@ == script_close(),
            forall|q: int| 0 <= q < p - start ==> !matches_at(t, q, script_close()),
        decreases v@.len() - p,
    {
        if matches_at_exec(v, p, close.as_slice()) {
            proof {
                assert forall|j: int| 0 <= j < 9 implies same_letter(#[trigger] t.skip(p - start)[0 + j], script_close()[j]) by {
                    assert(t.skip(p - start)[0 + j] == v@[p + j]);
                }
                assert(matches_at(t.skip(p - start), 0, script_close()));
                lemma_find_close_skip(t, p - start);
            }
            return Some(p);
        }
        proof {
            if matches_at(t, p - start, script_close()) {
                assert forall|j: int| 0 <= j < 9 implies same_letter(#[trigger] v@[p + j], script_close()[j]) by {
                    assert(t[p - start + j] == v@[p + j]);
                }
            }
        }
        p = p + 1;
    }
    proof {
        lemma_find_close_skip(t, p - start);
        assert(t.skip(p - start).len() < 9);
    }
    None
}

/// `v` without its script elements.
fn drop_script_chars(v: &Vec<char>) -> (out: Vec<char>)
    ensures
        out@ == drop_scripts(v@),
{
    let open = ['<', 's', 'c', 'r', 'i', 'p', 't'];
    proof {
        assert(open@ =~= script_open());
        assert(v@.skip(0) =~= v@);
    }
    let mut out: Vec<char> = Vec::new();
    let mut i: usize = 0;
    while i < v.len()
        invariant
            i <= v@.len(),
            open@ == script_open(),
            out@ + drop_scripts(v@.skip(i as int)) == drop_scripts(v@),
        decreases v@.len() - i,
    {
        let ghost rest = v@.skip(i as int);
        let ghost before = out@;
        if matches_at_exec(v, i, open.as_slice()) {
            proof {
                assert forall|j: int| 0 <= j < 7 implies same_letter(#[trigger] rest[0 + j], script_open()[j]) by {
                    assert(rest[0 + j] == v@[i + j]);
                }
                assert(matches_at(rest, 0, script_open()));
                assert(rest.skip(7) =~= v@.skip(i + 7));
            }
            match find_close_from(v, i + 7) {
                Some(j) => {
                    proof {
                        assert(rest.skip(16 + (j - i - 7)) =~= v@.skip(j + 9));
                    }
                    i = j + 9;
                },
                None => {
                    proof {
                        assert(drop_scripts(rest) =~= Seq::<char>::empty());
                        assert(out@ + Seq::<char>::empty() =~= out@);
                        assert(v@.skip(v@.len() as int) =~= Seq::<char>::empty());
                        assert(drop_scripts(Seq::<char>::empty()) =~= Seq::<char>::empty());
                    }
                    i = v.len();
                },
            }
        } else {
            proof {
                if matches_at(rest, 0, script_open()) {
                    assert forall|j: int| 0 <= j < 7 implies same_letter(#[trigger] v@[i + j], script_open()[j]) by {
                        assert(rest[0 + j] == v@[i + j]);
                    }
                }
                assert(rest.drop_first() =~= v@.skip(i + 1));
                assert(rest[0] == v@[i as int]);
            }
            out.push(v[i]);
            proof {
                assert(out@ + drop_scripts(v@.skip(i + 1)) =~= before + (seq![v@[i as int]] + drop_scripts(
                    v@.skip(i + 1),
                )));
            }
            i = i + 1;
        }
    }
    proof {
        assert(v@.skip(v@.len() as int) =~= Seq::<char>::empty());
        assert(out@ + Seq::<char>::empty() =~= out@);
    }
    out
}

/// `v` without the characters inside `<...>` tags.
fn strip_tag_chars(v: &Vec<char>) -> (out: Vec<char>)
    ensures
        out@ == strip_tags(v@),
{
    let mut out: Vec<char> = Vec::new();
    let mut in_tag = false;
    let mut i: usize = 0;
    while i < v.len()
        invariant
            i <= v.len(),
            (out@, in_tag) == strip_scan(v@.take(i as int)),
        decreases v.len() - i,
    {
        proof {
            lemma_strip_scan_step(v@, i as int);
        }
        let c = v[i];
        if c == '<' {
            in_tag = true;
        } else if c == '>' {
            in_tag = false;
        } else if !in_tag {
            out.push(c);
        }
        i = i + 1;
    }
    proof {
        assert(v@.take(v@.len() as int) =~= v@);
    }
    out
}

/// Whether `content` can be sanitized: cutting its visible text to
/// `MAX_CONTENT_BYTES` bytes falls on a character boundary.
pub fn sanitize_would_fit(content: &str) -> (fits: bool)
    ensures
        fits == sanitize_fits(content@),
{
    let chars = chars_of(content);
    let stripped = strip_tag_chars(&drop_script_chars(&chars));
    let ghost s = stripped@;
    let ghost n = MAX_CONTENT_BYTES as nat;
    let mut used: usize = 0;
    let mut k: usize = 0;
    proof {
        assert(s.skip(0) =~= s);
        assert(s.take(0) =~= Seq::<char>::empty());
    }
    while k < stripped.len()
        invariant
            k <= stripped.len(),
            used <= MAX_CONTENT_BYTES,
            n == MAX_CONTENT_BYTES,
            stripped@ == s,
            used == utf8_len(s.take(k as int)),
            prefix_count(s, n) == k + prefix_count(s.skip(k as int), (n - used) as nat),
        ensures
            k <= stripped.len(),
            used == utf8_len(s.take(k as int)),
            prefix_count(s, n) == k,
            k < stripped.len() ==> utf8_len(s) > n,
        decreases stripped.len() - k,
    {
        let c = stripped[k];
        let w = char_utf8_width(c);
        proof {
            assert(c == s[k as int]);
            assert(s.skip(k as int)[0] == s[k as int]);
            assert(s.take(k + 1) =~= s.take(k as int).push(c));
            lemma_utf8_len_push(s.take(k as int), c);
            lemma_utf8_len_take_le(s, k + 1);
        }
        if used + w > MAX_CONTENT_BYTES {
            proof {
                assert(prefix_count(s.skip(k as int), (n - used) as nat) == 0);
            }
            break;
        }
        proof {
            lemma_prefix_count_skip(s, k as int, (n - used) as nat);
        }
        used = used + w;
        k = k + 1;
        proof {
            if k == s.len() {
                assert(s.skip(k as int) =~= Seq::<char>::empty());
            }
        }
    }
    proof {
        if k == s.len() {
            assert(s.take(k as int) =~= s);
        }
    }
    k == stripped.len() || used == MAX_CONTENT_BYTES
}

/// Drops script elements from `content`, strips HTML-like tags, cuts the
/// result to `MAX_CONTENT_BYTES` bytes and trims surrounding whitespace.
pub fn sanitize_content(content: &str) -> (sanitized: String)
    requires
        sanitize_fits(content@),
    ensures
        sanitized@ == sanitized_text(content@),
{
    let chars = chars_of(content);
    let stripped = strip_tag_chars(&drop_script_chars(&chars));
    let ghost s = stripped@;
    let ghost n = MAX_CONTENT_BYTES as nat;
    // Longest prefix that fits in the byte limit.
    let mut used: usize = 0;
    let mut k: usize = 0;
    proof {
        assert(s.skip(0) =~= s);
    }
    while k < stripped.len()
        invariant
            k <= stripped.len(),
            used <= MAX_CONTENT_BYTES,
            n == MAX_CONTENT_BYTES,
            stripped@ == s,
            prefix_count(s, n) == k + prefix_count(s.skip(k as int), (n - used) as nat),
        ensures
            k <= stripped.len(),
            prefix_count(s, n) == k,
        decreases stripped.len() - k,
    {
        let c = stripped[k];
        let w = char_utf8_width(c);
        proof {
            assert(c == s[k as int]);
            assert(s.skip(k as int)[0] == s[k as int]);
            assert(s.skip(k as int).len() > 0);
        }
        if used + w > MAX_CONTENT_BYTES {
            proof {
                assert(utf8_width(s.skip(k as int)[0]) > (n - used) as nat);
                assert(prefix_count(s.skip(k as int), (n - used) as nat) == 0);
            }
            break;
        }
        proof {
            lemma_prefix_count_skip(s, k as int, (n - used) as nat);
        }
        used = used + w;
        k = k + 1;
        proof {
            if k == s.len() {
                assert(s.skip(k as int) =~= Seq::<char>::empty());
            }
        }
    }
    // Trim leading whitespace.
    let mut a: usize = 0;
    while a < k && is_space(stripped[a])
        invariant
            a <= k <= stripped.len(),
            stripped@ == s,
            forall|j: int| 0 <= j < a ==> is_space_char(#[trigger] s[j]),
        decreases k - a,
    {
        a = a + 1;
    }
    // Trim trailing whitespace.
    let mut b: usize = k;
    while b > a && is_space(stripped[b - 1])
        invariant
            a <= b <= k <= stripped.len(),
            stripped@ == s,
            forall|j: int| b <= j < k ==> is_space_char(#[trigger] s[j]),
        decreases b,
    {
        b = b - 1;
    }
    proof {
        let p = s.take(k as int);
        lemma_trim_start_skip(p, a as int);
        let ts = p.skip(a as int);
        lemma_trim_end_take(ts, (b - a) as int);
        assert(ts.take((b - a) as int) =~= s.subrange(a as int, b as int));
    }
    string_from_range(&stripped, a, b)
}

/// `address` is `0x` followed by exactly 40 hexadecimal digits.
pub fn validate_address(address: &str) -> (valid: bool)
    ensures
        valid == is_address(address@),
{
    let chars = chars_of(address);
    if chars.len() != 42 || chars[0] != '0' || chars[1] != 'x' {
        return false;
    }
    let mut i: usize = 2;
    while i < 42
        invariant
            2 <= i <= 42,
            chars@ == address@,
            chars@.len() == 42,
            forall|j: int| 2 <= j < i ==> is_hex_char(#[trigger] chars@[j]),
        decreases 42 - i,
    {
        if !is_hex_digit(chars[i]) {
            return false;
        }
        i = i + 1;
    }
    true
}

/// `sig` is exactly 128 hexadecimal digits (64 bytes, hex encoded).
pub fn validate_signature_format(sig: &str) -> (valid: bool)
    ensures
        valid == is_signature_hex(sig@),
{
    let chars = chars_of(sig);
    if chars.len() != 128 {
        return false;
    }
    let mut i: usize = 0;
    while i < 128
        invariant
            i <= 128,
            chars@ == sig@,
            chars@.len() == 128,
            forall|j: int| 0 <= j < i ==> is_hex_char(#[trigger] chars@[j]),
        decreases 128 - i,
    {
        if !is_hex_digit(chars[i]) {
            return false;
        }
        i = i + 1;
    }
    true
}

/// `a` and `b` are the same text.
pub fn str_eq(a: &str, b: &str) -> (eq: bool)
    ensures
        eq == (a@ == b@),
{
    let ac = chars_of(a);
    let bc = chars_of(b);
    if ac.len() != bc.len() {
        return false;
    }
    let mut i: usize = 0;
    while i < ac.len()
        invariant
            i <= ac.len(),
            ac.len() == bc.len(),
            ac@ == a@,
            bc@ == b@,
            forall|j: int| 0 <= j < i ==> ac@[j] == bc@[j],
        decreases ac.len() - i,
    {
        if ac[i] != bc[i] {
            return false;
        }
        i = i + 1;
    }
    proof {
        assert(ac@ =~= bc@);
    }
    true
}

} // verus!
