//! Text / markup conversions.
//!
//! Keeping these simple and dependency-light. If someone hands us a very
//! fancy HTML file, we extract a reasonable plain-text or markdown
//! approximation; this is not a web rendering engine.
use vstd::prelude::*;

use crate::chars::{
    find, find_from, from_chars, lemma_find_is_first, lemma_find_none, lemma_find_unique,
    lemma_map_chars_step, map_chars, matches_at,
    push_all, push_range, replace, replace_all, to_chars,
};
use crate::util::{file_stem, path_file_stem};

verus! {

broadcast use vstd::string::group_string_axioms;

// ---------------------------------------------------------------------------
// Character-wise maps.
// ---------------------------------------------------------------------------
/// How `html_escape` writes one character.
pub open spec fn escape_char(c: char) -> Seq<char> {
    if c == '&' {
        seq!['&', 'a', 'm', 'p', ';']
    } else if c == '<' {
        seq!['&', 'l', 't', ';']
    } else if c == '>' {
        seq!['&', 'g', 't', ';']
    } else {
        seq![c]
    }
}

/// `&`, `<` and `>` written as entities; everything else unchanged.
pub open spec fn escaped(s: Seq<char>) -> Seq<char> {
    map_chars(s, |c: char| escape_char(c))
}

fn push_escaped_char(out: &mut Vec<char>, c: char)
    ensures
        final(out)@ == old(out)@ + escape_char(c),
{
    if c == '&' {
        out.push('&');
        out.push('a');
        out.push('m');
        out.push('p');
        out.push(';');
    } else if c == '<' {
        out.push('&');
        out.push('l');
        out.push('t');
        out.push(';');
    } else if c == '>' {
        out.push('&');
        out.push('g');
        out.push('t');
        out.push(';');
    } else {
        out.push(c);
    }
}

fn escape_vec(s: &Vec<char>) -> (r: Vec<char>)
    ensures
        r@ == escaped(s@),
{
    let mut out: Vec<char> = Vec::new();
    let mut i: usize = 0;
    while i < s.len()
        invariant
            i <= s@.len(),
            out@ == escaped(s@.take(i as int)),
        decreases s.len() - i,
    {
        proof {
            lemma_map_chars_step(s@, |c: char| escape_char(c), i as int);
        }
        push_escaped_char(&mut out, s[i]);
        i = i + 1;
    }
    assert(s@.take(s@.len() as int) == s@);
    out
}

/// Escape `&`, `<` and `>` for embedding text in HTML.
pub fn html_escape(s: &str) -> (r: String)
    ensures
        r@ == escaped(s@),
{
    let v = to_chars(s);
    from_chars(&escape_vec(&v))
}

/// Escaped text holds no `<` or `>`, so it can never open or close a tag.
pub proof fn law_escaped_text_has_no_angle_brackets(s: Seq<char>)
    ensures
        !escaped(s).contains('<'),
        !escaped(s).contains('>'),
    decreases s.len(),
{
    if s.len() > 0 {
        law_escaped_text_has_no_angle_brackets(s.drop_last());
        let p = escaped(s.drop_last());
        let q = escape_char(s.last());
        assert(escaped(s) == p + q);
        assert forall|k: int| 0 <= k < (p + q).len() implies (p + q)[k] != '<' && (p + q)[k]
            != '>' by {
            if k < p.len() {
                assert((p + q)[k] == p[k]);
            } else {
                assert((p + q)[k] == q[k - p.len()]);
            }
        }
    }
}

// ---------------------------------------------------------------------------
// Stripping tags.
// ---------------------------------------------------------------------------
/// Whether the scan is inside a tag after reading `s`.
pub open spec fn in_tag_after(s: Seq<char>) -> bool
    decreases s.len(),
{
    if s.len() == 0 {
        false
    } else if s.last() == '<' {
        true
    } else if s.last() == '>' {
        false
    } else {
        in_tag_after(s.drop_last())
    }
}

/// `s` without its tags: every character outside `<...>` that is not an
/// angle bracket itself.
pub open spec fn drop_tags(s: Seq<char>) -> Seq<char>
    decreases s.len(),
{
    if s.len() == 0 {
        Seq::empty()
    } else {
        let p = s.drop_last();
        let c = s.last();
        if c == '<' || c == '>' || in_tag_after(p) {
            drop_tags(p)
        } else {
            drop_tags(p).push(c)
        }
    }
}

/// The most common entities decoded, one after the other, in this order.
pub open spec fn decode_entities(s: Seq<char>) -> Seq<char> {
    let s1 = replace_all(s, "&nbsp;"@, " "@);
    let s2 = replace_all(s1, "&amp;"@, "&"@);
    let s3 = replace_all(s2, "&lt;"@, "<"@);
    let s4 = replace_all(s3, "&gt;"@, ">"@);
    let s5 = replace_all(s4, "&quot;"@, "\""@);
    replace_all(s5, "&#39;"@, "'"@)
}

/// What `strip_html` makes of `s`.
pub open spec fn stripped(s: Seq<char>) -> Seq<char> {
    decode_entities(drop_tags(s))
}

fn drop_tags_vec(s: &Vec<char>) -> (r: Vec<char>)
    ensures
        r@ == drop_tags(s@),
{
    let mut out: Vec<char> = Vec::new();
    let mut in_tag = false;
    let mut i: usize = 0;
    while i < s.len()
        invariant
            i <= s@.len(),
            out@ == drop_tags(s@.take(i as int)),
            in_tag == in_tag_after(s@.take(i as int)),
        decreases s.len() - i,
    {
        let c = s[i];
        assert(s@.take(i + 1).drop_last() == s@.take(i as int));
        if c == '<' {
            in_tag = true;
        } else if c == '>' {
            in_tag = false;
        } else if !in_tag {
            out.push(c);
        }
        i = i + 1;
    }
    assert(s@.take(s@.len() as int) == s@);
    out
}

/// `s` with every occurrence of the literal `pat` replaced by `rep`.
fn replace_lit(s: &Vec<char>, pat: &str, rep: &str) -> (r: Vec<char>)
    requires
        pat@.len() > 0,
    ensures
        r@ == replace_all(s@, pat@, rep@),
{
    let p = to_chars(pat);
    let q = to_chars(rep);
    replace(s, &p, &q)
}

fn decode_entities_vec(s: &Vec<char>) -> (r: Vec<char>)
    ensures
        r@ == decode_entities(s@),
{
    proof {
        reveal_strlit("&nbsp;");
        reveal_strlit("&amp;");
        reveal_strlit("&lt;");
        reveal_strlit("&gt;");
        reveal_strlit("&quot;");
        reveal_strlit("&#39;");
    }
    let s1 = replace_lit(s, "&nbsp;", " ");
    let s2 = replace_lit(&s1, "&amp;", "&");
    let s3 = replace_lit(&s2, "&lt;", "<");
    let s4 = replace_lit(&s3, "&gt;", ">");
    let s5 = replace_lit(&s4, "&quot;", "\"");
    replace_lit(&s5, "&#39;", "'")
}

fn strip_html_vec(s: &Vec<char>) -> (r: Vec<char>)
    ensures
        r@ == stripped(s@),
{
    let t = drop_tags_vec(s);
    decode_entities_vec(&t)
}

/// Strip HTML tags and decode the most common entities. Good enough for a
/// "save as text" convenience button, not a full sanitiser.
pub fn strip_html(html: &str) -> (r: String)
    ensures
        r@ == stripped(html@),
{
    let v = to_chars(html);
    from_chars(&strip_html_vec(&v))
}

/// What remains of a document once its tags are dropped holds no angle
/// brackets.
pub proof fn law_dropping_tags_leaves_no_angle_brackets(s: Seq<char>)
    ensures
        !drop_tags(s).contains('<'),
        !drop_tags(s).contains('>'),
    decreases s.len(),
{
    if s.len() > 0 {
        law_dropping_tags_leaves_no_angle_brackets(s.drop_last());
        let p = drop_tags(s.drop_last());
        assert forall|k: int| 0 <= k < p.len() implies p.push(s.last())[k] == p[k] by {}
    }
}

proof fn lemma_drop_tags_plain(s: Seq<char>)
    requires
        !s.contains('<'),
        !s.contains('>'),
    ensures
        drop_tags(s) == s,
        !in_tag_after(s),
    decreases s.len(),
{
    if s.len() > 0 {
        let p = s.drop_last();
        assert forall|k: int| 0 <= k < p.len() implies p[k] != '<' && p[k] != '>' by {
            assert(p[k] == s[k]);
        }
        lemma_drop_tags_plain(p);
        assert(s.last() == s[s.len() - 1]);
        assert(p.push(s.last()) == s);
    }
}

proof fn lemma_replace_absent(s: Seq<char>, pat: Seq<char>, rep: Seq<char>)
    requires
        pat.len() > 0,
        !s.contains(pat[0]),
    ensures
        replace_all(s, pat, rep) == s,
{
    lemma_find_is_first(s, pat);
    if let Some(i) = find(s, pat) {
        assert(s.subrange(i, i + pat.len())[0] == pat[0]);
        assert(s[i] == pat[0]);
    }
}

/// Text with none of `&`, `<`, `>` and `;`: no tag and no entity can
/// start, end or hide in it.
pub open spec fn plain_text(s: Seq<char>) -> bool {
    !s.contains('&') && !s.contains('<') && !s.contains('>') && !s.contains(';')
}

/// An entity: `&`, then characters other than `&` and `;`, then `;`.
pub open spec fn entity_shaped(p: Seq<char>) -> bool {
    &&& p.len() >= 2
    &&& p[0] == '&'
    &&& p.last() == ';'
    &&& forall|i: int| 0 < i < p.len() - 1 ==> p[i] != '&' && p[i] != ';'
}

/// The entity `p` occurring once, between plain text, is replaced by `r`.
proof fn lemma_replace_once(a: Seq<char>, p: Seq<char>, b: Seq<char>, r: Seq<char>)
    requires
        p.len() > 0,
        !a.contains(p[0]),
        !b.contains(p[0]),
    ensures
        replace_all(a + p + b, p, r) == a + r + b,
{
    let s = a + p + b;
    let n = a.len() as int;
    assert(s.subrange(n, n + p.len()) =~= p);
    assert forall|j: int| 0 <= j < n implies !matches_at(s, p, j) by {
        if matches_at(s, p, j) {
            assert(s.subrange(j, j + p.len())[0] == s[j]);
            assert(s[j] == a[j]);
        }
    }
    lemma_find_unique(s, p, n);
    assert(s.take(n) =~= a);
    assert(s.skip(n + p.len()) =~= b);
    lemma_replace_absent(b, p, r);
}

/// An entity `p` does not occur in plain text around `q`, when `q` holds no
/// `;` or is another entity.
proof fn lemma_entity_absent(a: Seq<char>, q: Seq<char>, b: Seq<char>, p: Seq<char>, r: Seq<char>)
    requires
        plain_text(a),
        plain_text(b),
        entity_shaped(p),
        !q.contains(';') || (entity_shaped(q) && q != p),
    ensures
        replace_all(a + q + b, p, r) == a + q + b,
{
    let s = a + q + b;
    let n = a.len() as int;
    assert forall|j: int| !matches_at(s, p, j) by {
        if matches_at(s, p, j) {
            let e = j + p.len() - 1;
            assert(s.subrange(j, j + p.len())[0] == s[j]);
            assert(s.subrange(j, j + p.len())[p.len() - 1] == s[e]);
            assert(s[j] == '&');
            assert(s[e] == ';');
            if e < n {
                assert(s[e] == a[e]);
            } else if e >= n + q.len() {
                assert(s[e] == b[e - n - q.len()]);
            } else {
                assert(s[e] == q[e - n]);
                // q holds a `;`, so it is another entity.
                if j < n {
                    assert(s[j] == a[j]);
                } else if j > n {
                    // Inside q: only its first character is `&`.
                    assert(s[j] == q[j - n]);
                } else {
                    if e < n + q.len() - 1 {
                        assert(q[e - n] == ';');
                    }
                    assert(e == n + q.len() - 1);
                    assert(p.len() == q.len());
                    assert forall|k: int| 0 <= k < p.len() implies p[k] == q[k] by {
                        assert(s.subrange(j, j + p.len())[k] == s[j + k]);
                        assert(s[j + k] == q[k]);
                    }
                    assert(p =~= q);
                }
            }
        }
    }
    lemma_find_none(s, p);
}

proof fn lemma_entity_literals()
    ensures
        "&nbsp;"@ == seq!['&', 'n', 'b', 's', 'p', ';'],
        "&amp;"@ == seq!['&', 'a', 'm', 'p', ';'],
        "&lt;"@ == seq!['&', 'l', 't', ';'],
        "&gt;"@ == seq!['&', 'g', 't', ';'],
        "&quot;"@ == seq!['&', 'q', 'u', 'o', 't', ';'],
        "&#39;"@ == seq!['&', '#', '3', '9', ';'],
        " "@ == seq![' '],
        "&"@ == seq!['&'],
        "<"@ == seq!['<'],
        ">"@ == seq!['>'],
        "\""@ == seq!['"'],
        "'"@ == seq!['\''],
{
    reveal_strlit("&nbsp;");
    reveal_strlit("&amp;");
    reveal_strlit("&lt;");
    reveal_strlit("&gt;");
    reveal_strlit("&quot;");
    reveal_strlit("&#39;");
    reveal_strlit(" ");
    reveal_strlit("&");
    reveal_strlit("<");
    reveal_strlit(">");
    reveal_strlit("\"");
    reveal_strlit("'");
    assert("&nbsp;"@ =~= seq!['&', 'n', 'b', 's', 'p', ';']);
    assert("&amp;"@ =~= seq!['&', 'a', 'm', 'p', ';']);
    assert("&lt;"@ =~= seq!['&', 'l', 't', ';']);
    assert("&gt;"@ =~= seq!['&', 'g', 't', ';']);
    assert("&quot;"@ =~= seq!['&', 'q', 'u', 'o', 't', ';']);
    assert("&#39;"@ =~= seq!['&', '#', '3', '9', ';']);
    assert(" "@ =~= seq![' ']);
    assert("&"@ =~= seq!['&']);
    assert("<"@ =~= seq!['<']);
    assert(">"@ =~= seq!['>']);
    assert("\""@ =~= seq!['"']);
    assert("'"@ =~= seq!['\'']);
}

/// Decoding one entity between plain text: every stage but the entity's own
/// leaves the text alone, and that stage puts the entity's character in its
/// place.
proof fn lemma_decode_one(a: Seq<char>, b: Seq<char>, k: int)
    requires
        plain_text(a),
        plain_text(b),
        0 <= k < 6,
    ensures
        ({
            let ents = seq!["&nbsp;"@, "&amp;"@, "&lt;"@, "&gt;"@, "&quot;"@, "&#39;"@];
            let chars = seq![" "@, "&"@, "<"@, ">"@, "\""@, "'"@];
            stripped(a + ents[k] + b) == a + chars[k] + b
        }),
{
    lemma_entity_literals();
    let ents = seq!["&nbsp;"@, "&amp;"@, "&lt;"@, "&gt;"@, "&quot;"@, "&#39;"@];
    let chars = seq![" "@, "&"@, "<"@, ">"@, "\""@, "'"@];
    let e = ents[k];
    let c = chars[k];
    let x = a + e + b;
    assert(!x.contains('<') && !x.contains('>')) by {
        assert forall|i: int| 0 <= i < x.len() implies x[i] != '<' && x[i] != '>' by {
            if i < a.len() {
                assert(x[i] == a[i]);
            } else if i >= a.len() + e.len() {
                assert(x[i] == b[i - a.len() - e.len()]);
            } else {
                assert(x[i] == e[i - a.len()]);
            }
        }
    }
    lemma_drop_tags_plain(x);
    assert forall|m: int| 0 <= m < 6 implies entity_shaped(#[trigger] ents[m]) by {}
    assert forall|m: int| 0 <= m < 6 implies !(#[trigger] chars[m]).contains(';') by {
        assert(chars[m].len() == 1);
        if chars[m].contains(';') {
            assert(chars[m][0] == ';');
        }
    }
    assert forall|m: int, j: int| 0 <= m < 6 && 0 <= j < 6 && m != j implies #[trigger] ents[m]
        != #[trigger] ents[j] by {
        assert(ents[m][1] != ents[j][1] || ents[m].len() != ents[j].len());
    }
    // Stage by stage: before stage k the text is `a + e + b`, after it
    // `a + c + b`.
    let s0 = x;
    let s1 = replace_all(s0, ents[0], chars[0]);
    let s2 = replace_all(s1, ents[1], chars[1]);
    let s3 = replace_all(s2, ents[2], chars[2]);
    let s4 = replace_all(s3, ents[3], chars[3]);
    let s5 = replace_all(s4, ents[4], chars[4]);
    let s6 = replace_all(s5, ents[5], chars[5]);
    assert(decode_entities(x) == s6);
    assert(!a.contains('&') && !b.contains('&'));
    assert(e[0] == '&');
    if k == 0 { lemma_replace_once(a, e, b, c); } else { lemma_entity_absent(a, e, b, ents[0], chars[0]); }
    if k == 1 { lemma_replace_once(a, e, b, c); } else if k < 1 { lemma_entity_absent(a, c, b, ents[1], chars[1]); } else { lemma_entity_absent(a, e, b, ents[1], chars[1]); }
    if k == 2 { lemma_replace_once(a, e, b, c); } else if k < 2 { lemma_entity_absent(a, c, b, ents[2], chars[2]); } else { lemma_entity_absent(a, e, b, ents[2], chars[2]); }
    if k == 3 { lemma_replace_once(a, e, b, c); } else if k < 3 { lemma_entity_absent(a, c, b, ents[3], chars[3]); } else { lemma_entity_absent(a, e, b, ents[3], chars[3]); }
    if k == 4 { lemma_replace_once(a, e, b, c); } else if k < 4 { lemma_entity_absent(a, c, b, ents[4], chars[4]); } else { lemma_entity_absent(a, e, b, ents[4], chars[4]); }
    if k == 5 { lemma_replace_once(a, e, b, c); } else { lemma_entity_absent(a, c, b, ents[5], chars[5]); }
}

/// Each of the six entities that `strip_html` decodes, standing between
/// plain text, becomes its character: `&nbsp;` a space, `&amp;` `&`,
/// `&lt;` `<`, `&gt;` `>`, `&quot;` `"` and `&#39;` `'`; the text around it
/// is kept.
pub proof fn law_entities_are_decoded(a: Seq<char>, b: Seq<char>)
    requires
        plain_text(a),
        plain_text(b),
    ensures
        stripped(a + seq!['&', 'n', 'b', 's', 'p', ';'] + b) == a + seq![' '] + b,
        stripped(a + seq!['&', 'a', 'm', 'p', ';'] + b) == a + seq!['&'] + b,
        stripped(a + seq!['&', 'l', 't', ';'] + b) == a + seq!['<'] + b,
        stripped(a + seq!['&', 'g', 't', ';'] + b) == a + seq!['>'] + b,
        stripped(a + seq!['&', 'q', 'u', 'o', 't', ';'] + b) == a + seq!['"'] + b,
        stripped(a + seq!['&', '#', '3', '9', ';'] + b) == a + seq!['\''] + b,
{
    lemma_entity_literals();
    lemma_decode_one(a, b, 0);
    lemma_decode_one(a, b, 1);
    lemma_decode_one(a, b, 2);
    lemma_decode_one(a, b, 3);
    lemma_decode_one(a, b, 4);
    lemma_decode_one(a, b, 5);
}

/// Text without `<`, `>` or `&` passes through `strip_html` unchanged.
pub proof fn law_strip_html_keeps_plain_text(s: Seq<char>)
    requires
        !s.contains('<'),
        !s.contains('>'),
        !s.contains('&'),
    ensures
        stripped(s) == s,
{
    lemma_drop_tags_plain(s);
    reveal_strlit("&nbsp;");
    reveal_strlit("&amp;");
    reveal_strlit("&lt;");
    reveal_strlit("&gt;");
    reveal_strlit("&quot;");
    reveal_strlit("&#39;");
    lemma_replace_absent(s, "&nbsp;"@, " "@);
    lemma_replace_absent(s, "&amp;"@, "&"@);
    lemma_replace_absent(s, "&lt;"@, "<"@);
    lemma_replace_absent(s, "&gt;"@, ">"@);
    lemma_replace_absent(s, "&quot;"@, "\""@);
    lemma_replace_absent(s, "&#39;"@, "'"@);
}


// ---------------------------------------------------------------------------
// Whitespace and trimming.
// ---------------------------------------------------------------------------
/// Unicode `White_Space`, the set `char::is_whitespace` tests for.
pub open spec fn is_whitespace(c: char) -> bool {
    let u = c as u32;
    ||| 0x09 <= u <= 0x0D
    ||| u == 0x20
    ||| u == 0x85
    ||| u == 0xA0
    ||| u == 0x1680
    ||| 0x2000 <= u <= 0x200A
    ||| u == 0x2028
    ||| u == 0x2029
    ||| u == 0x202F
    ||| u == 0x205F
    ||| u == 0x3000
}

fn whitespace(c: char) -> (r: bool)
    ensures
        r == is_whitespace(c),
{
    let u = c as u32;
    (0x09 <= u && u <= 0x0D) || u == 0x20 || u == 0x85 || u == 0xA0 || u == 0x1680 || (0x2000
        <= u && u <= 0x200A) || u == 0x2028 || u == 0x2029 || u == 0x202F || u == 0x205F || u
        == 0x3000
}

/// `s` without leading whitespace.
pub open spec fn trim_start(s: Seq<char>) -> Seq<char>
    decreases s.len(),
{
    if s.len() > 0 && is_whitespace(s[0]) {
        trim_start(s.drop_first())
    } else {
        s
    }
}

/// `s` without trailing whitespace.
pub open spec fn trim_end(s: Seq<char>) -> Seq<char>
    decreases s.len(),
{
    if s.len() > 0 && is_whitespace(s.last()) {
        trim_end(s.drop_last())
    } else {
        s
    }
}

/// `s` without leading or trailing whitespace.
pub open spec fn trim(s: Seq<char>) -> Seq<char> {
    trim_end(trim_start(s))
}

/// `s` without its leading copies of `c`.
pub open spec fn trim_start_char(s: Seq<char>, c: char) -> Seq<char>
    decreases s.len(),
{
    if s.len() > 0 && s[0] == c {
        trim_start_char(s.drop_first(), c)
    } else {
        s
    }
}

/// `s` without its leading `>` and space characters.
pub open spec fn trim_start_quote(s: Seq<char>) -> Seq<char>
    decreases s.len(),
{
    if s.len() > 0 && (s[0] == '>' || s[0] == ' ') {
        trim_start_quote(s.drop_first())
    } else {
        s
    }
}

/// `s` without its leading characters of a class: 0 is `c`, 1 whitespace,
/// 2 `>` or space.
pub open spec fn trim_start_class(s: Seq<char>, class: u8, c: char) -> Seq<char> {
    if class == 0 {
        trim_start_char(s, c)
    } else if class == 1 {
        trim_start(s)
    } else {
        trim_start_quote(s)
    }
}

fn skip_leading(v: &Vec<char>, from: usize, to: usize, class: u8, c: char) -> (r: usize)
    requires
        from <= to <= v@.len(),
    ensures
        from <= r <= to,
        v@.subrange(r as int, to as int) == trim_start_class(
            v@.subrange(from as int, to as int),
            class,
            c,
        ),
{
    let mut i = from;
    while i < to
        invariant
            from <= i <= to <= v@.len(),
            trim_start_class(v@.subrange(i as int, to as int), class, c) == trim_start_class(
                v@.subrange(from as int, to as int),
                class,
                c,
            ),
        decreases to - i,
    {
        let x = v[i];
        let skip = if class == 0 {
            x == c
        } else if class == 1 {
            whitespace(x)
        } else {
            x == '>' || x == ' '
        };
        if !skip {
            return i;
        }
        assert(v@.subrange(i as int, to as int).drop_first() == v@.subrange(i + 1, to as int));
        i = i + 1;
    }
    i
}

fn skip_trailing_whitespace(v: &Vec<char>, from: usize, to: usize) -> (r: usize)
    requires
        from <= to <= v@.len(),
    ensures
        from <= r <= to,
        v@.subrange(from as int, r as int) == trim_end(v@.subrange(from as int, to as int)),
{
    let mut j = to;
    while j > from
        invariant
            from <= j <= to <= v@.len(),
            trim_end(v@.subrange(from as int, j as int)) == trim_end(
                v@.subrange(from as int, to as int),
            ),
        decreases j - from,
    {
        if !whitespace(v[j - 1]) {
            return j;
        }
        assert(v@.subrange(from as int, j as int).drop_last() == v@.subrange(
            from as int,
            j - 1,
        ));
        j = j - 1;
    }
    j
}

// ---------------------------------------------------------------------------
// Markdown to plain text.
// ---------------------------------------------------------------------------
/// A line as `str::lines` hands it out: its `\r` dropped when it ended in
/// `\r\n`.
pub open spec fn strip_cr(line: Seq<char>) -> Seq<char> {
    if line.len() > 0 && line.last() == '\r' {
        line.drop_last()
    } else {
        line
    }
}

/// One markdown line with its heading and quote markers removed.
pub open spec fn clean_line(line: Seq<char>) -> Seq<char> {
    trim_start_quote(trim_start(trim_start_char(line, '#')))
}

/// What `markdown_to_txt` makes of `s`: every line cleaned and ended by a
/// newline.
pub open spec fn markdown_text(s: Seq<char>) -> Seq<char>
    decreases s.len(),
{
    if s.len() == 0 {
        Seq::empty()
    } else {
        match find(s, seq!['\n']) {
            Some(i) => if 0 <= i < s.len() {
                clean_line(strip_cr(s.take(i))) + seq!['\n'] + markdown_text(s.skip(i + 1))
            } else {
                s
            },
            None => clean_line(s) + seq!['\n'],
        }
    }
}

/// Append the cleaned line `v[from..to]`.
fn push_clean_line(out: &mut Vec<char>, v: &Vec<char>, from: usize, to: usize)
    requires
        from <= to <= v@.len(),
    ensures
        final(out)@ == old(out)@ + clean_line(v@.subrange(from as int, to as int)),
{
    let a = skip_leading(v, from, to, 0, '#');
    let b = skip_leading(v, a, to, 1, ' ');
    let c = skip_leading(v, b, to, 2, ' ');
    push_range(out, v, c, to);
}

/// Strip a few obvious markdown markers, leaving content intact.
pub fn markdown_to_txt(md: &str) -> (r: String)
    ensures
        r@ == markdown_text(md@),
{
    let v = to_chars(md);
    let mut nl: Vec<char> = Vec::new();
    nl.push('\n');
    let mut out: Vec<char> = Vec::new();
    let mut pos: usize = 0;
    assert(v@.skip(0) == v@);
    while pos < v.len()
        invariant
            nl@ == seq!['\n'],
            pos <= v@.len(),
            markdown_text(v@) == out@ + markdown_text(v@.skip(pos as int)),
        decreases v@.len() - pos,
    {
        let ghost t = v@.skip(pos as int);
        assert(nl@ == seq!['\n']);
        match find_from(&v, &nl, pos) {
            Some(j) => {
                proof {
                    lemma_find_is_first(t, seq!['\n']);
                    assert(t.take(j - pos) == v@.subrange(pos as int, j as int));
                    assert(t.skip(j - pos + 1) == v@.skip(j + 1));
                }
                let end = if j > pos && v[j - 1] == '\r' {
                    j - 1
                } else {
                    j
                };
                assert(v@.subrange(pos as int, end as int) == strip_cr(
                    v@.subrange(pos as int, j as int),
                ));
                push_clean_line(&mut out, &v, pos, end);
                out.push('\n');
                pos = j + 1;
            },
            None => {
                assert(t == v@.subrange(pos as int, v@.len() as int));
                push_clean_line(&mut out, &v, pos, v.len());
                out.push('\n');
                pos = v.len();
                assert(v@.skip(pos as int).len() == 0);
            },
        }
    }
    assert(v@.skip(pos as int).len() == 0);
    from_chars(&out)
}

/// Each line that `markdown_to_txt` writes is the end of the input line it
/// came from: the markers it drops are only ever at the start.
pub proof fn law_cleaned_line_is_end_of_line(line: Seq<char>)
    ensures
        exists|k: int| 0 <= k <= line.len() && #[trigger] line.skip(k) == clean_line(line),
{
    lemma_trim_start_char_suffix(line, '#');
    let a = trim_start_char(line, '#');
    let ka = choose|k: int| 0 <= k <= line.len() && #[trigger] line.skip(k) == a;
    lemma_trim_start_suffix(a);
    let b = trim_start(a);
    let kb = choose|k: int| 0 <= k <= a.len() && #[trigger] a.skip(k) == b;
    lemma_trim_start_quote_suffix(b);
    let c = trim_start_quote(b);
    let kc = choose|k: int| 0 <= k <= b.len() && #[trigger] b.skip(k) == c;
    assert(line.skip(ka + kb + kc) == c);
}

/// A line that starts with neither `#`, whitespace nor `>` is kept as it
/// is: only leading heading and quote markers are removed.
pub proof fn law_unmarked_line_is_kept(line: Seq<char>)
    requires
        line.len() == 0 || (line[0] != '#' && line[0] != '>' && !is_whitespace(line[0])),
    ensures
        clean_line(line) == line,
{
    if line.len() > 0 {
        assert(is_whitespace(' '));
    }
}

proof fn lemma_trim_start_char_suffix(s: Seq<char>, c: char)
    ensures
        exists|k: int| 0 <= k <= s.len() && #[trigger] s.skip(k) == trim_start_char(s, c),
    decreases s.len(),
{
    if s.len() > 0 && s[0] == c {
        lemma_trim_start_char_suffix(s.drop_first(), c);
        let k = choose|k: int|
            0 <= k <= s.drop_first().len() && #[trigger] s.drop_first().skip(k)
                == trim_start_char(s.drop_first(), c);
        assert(s.skip(k + 1) == s.drop_first().skip(k));
    } else {
        assert(s.skip(0) == s);
    }
}

proof fn lemma_trim_start_suffix(s: Seq<char>)
    ensures
        exists|k: int| 0 <= k <= s.len() && #[trigger] s.skip(k) == trim_start(s),
    decreases s.len(),
{
    if s.len() > 0 && is_whitespace(s[0]) {
        lemma_trim_start_suffix(s.drop_first());
        let k = choose|k: int|
            0 <= k <= s.drop_first().len() && #[trigger] s.drop_first().skip(k) == trim_start(
                s.drop_first(),
            );
        assert(s.skip(k + 1) == s.drop_first().skip(k));
    } else {
        assert(s.skip(0) == s);
    }
}

proof fn lemma_trim_start_quote_suffix(s: Seq<char>)
    ensures
        exists|k: int| 0 <= k <= s.len() && #[trigger] s.skip(k) == trim_start_quote(s),
    decreases s.len(),
{
    if s.len() > 0 && (s[0] == '>' || s[0] == ' ') {
        lemma_trim_start_quote_suffix(s.drop_first());
        let k = choose|k: int|
            0 <= k <= s.drop_first().len() && #[trigger] s.drop_first().skip(k)
                == trim_start_quote(s.drop_first());
        assert(s.skip(k + 1) == s.drop_first().skip(k));
    } else {
        assert(s.skip(0) == s);
    }
}

// ---------------------------------------------------------------------------
// Plain text to markdown and HTML.
// ---------------------------------------------------------------------------
/// Plain text is already valid markdown; it is copied.
pub fn txt_to_markdown(txt: &str) -> (r: String)
    ensures
        r@ == txt@,
{
    String::from_str(txt)
}

/// How a newline is written in the HTML body.
pub open spec fn break_char(c: char) -> Seq<char> {
    if c == '\n' {
        seq!['<', 'b', 'r', '>', '\n']
    } else {
        seq![c]
    }
}

pub open spec fn txt_html_head() -> Seq<char> {
    "<!doctype html>\n<html lang=\"en\">\n<head><meta charset=\"utf-8\"><title>Text</title></head>\n<body><pre>"@
}

pub open spec fn txt_html_tail() -> Seq<char> {
    "</pre></body>\n</html>\n"@
}

/// The HTML document `txt_to_html` writes for `txt`.
pub open spec fn txt_html(txt: Seq<char>) -> Seq<char> {
    txt_html_head() + map_chars(escaped(txt), |c: char| break_char(c)) + txt_html_tail()
}

/// The escaped text inside a `<pre>` block, each newline preceded by `<br>`.
pub fn txt_to_html(txt: &str) -> (r: String)
    ensures
        r@ == txt_html(txt@),
{
    let v = to_chars(txt);
    let e = escape_vec(&v);
    let mut body: Vec<char> = Vec::new();
    let mut i: usize = 0;
    while i < e.len()
        invariant
            i <= e@.len(),
            body@ == map_chars(e@.take(i as int), |c: char| break_char(c)),
        decreases e.len() - i,
    {
        proof {
            lemma_map_chars_step(e@, |c: char| break_char(c), i as int);
        }
        if e[i] == '\n' {
            body.push('<');
            body.push('b');
            body.push('r');
            body.push('>');
            body.push('\n');
        } else {
            body.push(e[i]);
        }
        i = i + 1;
    }
    assert(e@.take(e@.len() as int) == e@);
    let mut out = String::from_str(
        "<!doctype html>\n<html lang=\"en\">\n<head><meta charset=\"utf-8\"><title>Text</title></head>\n<body><pre>",
    );
    let b = from_chars(&body);
    out.append(b.as_str());
    out.append("</pre></body>\n</html>\n");
    out
}


// ---------------------------------------------------------------------------
// HTML to markdown.
// ---------------------------------------------------------------------------
/// The opening of a block tag, without its attributes: `<` and the tag.
pub open spec fn block_open(tag: Seq<char>) -> Seq<char> {
    seq!['<'] + tag
}

/// The closing tag `</tag>`.
pub open spec fn block_close(tag: Seq<char>) -> Seq<char> {
    seq!['<', '/'] + tag + seq!['>']
}

/// Every complete `open ... > content close` block in `rest`, left to right,
/// replaced by `prefix content suffix`; the scan stops at the first block
/// that is not complete and keeps the rest as it is.
pub open spec fn blocks_replaced(
    rest: Seq<char>,
    open: Seq<char>,
    close: Seq<char>,
    prefix: Seq<char>,
    suffix: Seq<char>,
) -> Seq<char>
    decreases rest.len(),
{
    if close.len() == 0 {
        rest
    } else {
        match find(rest, open) {
            None => rest,
            Some(start) => if !(0 <= start <= rest.len()) {
                rest
            } else {
                match find(rest.skip(start), seq!['>']) {
                    None => rest,
                    Some(j) => {
                        let after = start + j + 1;
                        if !(0 <= j && after <= rest.len()) {
                            rest
                        } else {
                            match find(rest.skip(after), close) {
                                None => rest,
                                Some(k) => {
                                    let end = after + k;
                                    if !(0 <= k && end + close.len() <= rest.len()) {
                                        rest
                                    } else {
                                        rest.take(start) + prefix + rest.subrange(after, end)
                                            + suffix + blocks_replaced(
                                            rest.skip(end + close.len()),
                                            open,
                                            close,
                                            prefix,
                                            suffix,
                                        )
                                    }
                                },
                            }
                        }
                    },
                }
            },
        }
    }
}

#[verifier::spinoff_prover]
#[verifier::rlimit(40)]
fn replace_block_vec(
    h: &Vec<char>,
    open: &Vec<char>,
    close: &Vec<char>,
    prefix: &Vec<char>,
    suffix: &Vec<char>,
) -> (r: Vec<char>)
    requires
        open@.len() > 0,
        close@.len() > 0,
    ensures
        r@ == blocks_replaced(h@, open@, close@, prefix@, suffix@),
{
    let mut gt: Vec<char> = Vec::new();
    gt.push('>');
    let mut out: Vec<char> = Vec::new();
    let mut pos: usize = 0;
    let hn = h.len();
    assert(h@.skip(0) == h@);
    loop
        invariant
            hn == h@.len(),
            gt@ == seq!['>'],
            open@.len() > 0,
            close@.len() > 0,
            pos <= h@.len(),
            blocks_replaced(h@, open@, close@, prefix@, suffix@) == out@ + blocks_replaced(
                h@.skip(pos as int),
                open@,
                close@,
                prefix@,
                suffix@,
            ),
        decreases h@.len() - pos,
    {
        let ghost rest = h@.skip(pos as int);
        let st = match find_from(h, open, pos) {
            Some(st) => st,
            None => {
                push_range(&mut out, h, pos, h.len());
                assert(h@.subrange(pos as int, h@.len() as int) == rest);
                return out;
            },
        };
        proof {
            lemma_find_is_first(rest, open@);
            assert(rest.skip(st - pos) == h@.skip(st as int));
        }
        let g = match find_from(h, &gt, st) {
            Some(g) => g,
            None => {
                push_range(&mut out, h, pos, h.len());
                assert(h@.subrange(pos as int, h@.len() as int) == rest);
                return out;
            },
        };
        let after = g + 1;
        proof {
            lemma_find_is_first(h@.skip(st as int), seq!['>']);
            assert(rest.skip(after - pos) == h@.skip(after as int));
        }
        let e = match find_from(h, close, after) {
            Some(e) => e,
            None => {
                push_range(&mut out, h, pos, h.len());
                assert(h@.subrange(pos as int, h@.len() as int) == rest);
                return out;
            },
        };
        proof {
            lemma_find_is_first(h@.skip(after as int), close@);
            assert(rest.take(st - pos) == h@.subrange(pos as int, st as int));
            assert(rest.subrange(after - pos, e - pos) == h@.subrange(after as int, e as int));
            assert(rest.skip(e - pos + close@.len()) == h@.skip(e + close@.len()));
        }
        push_range(&mut out, h, pos, st);
        push_all(&mut out, prefix);
        push_range(&mut out, h, after, e);
        push_all(&mut out, suffix);
        pos = e + close.len();
    }
}

/// Replace every `<tag ...>content</tag>` with `prefix content suffix`.
pub fn replace_block(haystack: &str, tag: &str, prefix: &str, suffix: &str) -> (r: String)
    ensures
        r@ == blocks_replaced(haystack@, block_open(tag@), block_close(tag@), prefix@, suffix@),
{
    let h = to_chars(haystack);
    let t = to_chars(tag);
    let mut open: Vec<char> = Vec::new();
    open.push('<');
    push_all(&mut open, &t);
    let mut close: Vec<char> = Vec::new();
    close.push('<');
    close.push('/');
    push_all(&mut close, &t);
    close.push('>');
    assert(open@ == block_open(tag@));
    assert(close@ == block_close(tag@));
    let p = to_chars(prefix);
    let q = to_chars(suffix);
    from_chars(&replace_block_vec(&h, &open, &close, &p, &q))
}

/// `<tag>` and `</tag>` both replaced by `mark`.
pub open spec fn inline_replaced(h: Seq<char>, tag: Seq<char>, mark: Seq<char>) -> Seq<char> {
    replace_all(replace_all(h, seq!['<'] + tag + seq!['>'], mark), block_close(tag), mark)
}

fn replace_inline_vec(h: &Vec<char>, tag: &Vec<char>, mark: &Vec<char>) -> (r: Vec<char>)
    ensures
        r@ == inline_replaced(h@, tag@, mark@),
{
    let mut open: Vec<char> = Vec::new();
    open.push('<');
    push_all(&mut open, tag);
    open.push('>');
    let mut close: Vec<char> = Vec::new();
    close.push('<');
    close.push('/');
    push_all(&mut close, tag);
    close.push('>');
    assert(open@ == seq!['<'] + tag@ + seq!['>']);
    assert(close@ == block_close(tag@));
    let once = replace(h, &open, mark);
    replace(&once, &close, mark)
}

/// Replace `<tag>` and `</tag>` with the markdown `mark`.
pub fn replace_inline(haystack: &str, tag: &str, mark: &str) -> (r: String)
    ensures
        r@ == inline_replaced(haystack@, tag@, mark@),
{
    let h = to_chars(haystack);
    let t = to_chars(tag);
    let m = to_chars(mark);
    from_chars(&replace_inline_vec(&h, &t, &m))
}

/// Three newlines in a row.
pub open spec fn triple_newline() -> Seq<char> {
    seq!['\n', '\n', '\n']
}

/// `s` with every run of three or more newlines shortened to two.
pub open spec fn collapsed(s: Seq<char>) -> Seq<char>
    decreases s.len(),
{
    if find(s, triple_newline()) is Some {
        let r = replace_all(s, triple_newline(), seq!['\n', '\n']);
        if r.len() < s.len() {
            collapsed(r)
        } else {
            r
        }
    } else {
        s
    }
}

/// Replacing a pattern by something shorter never lengthens the text, and
/// shortens it when the pattern occurs.
proof fn lemma_replace_shrinks(s: Seq<char>, pat: Seq<char>, rep: Seq<char>)
    requires
        rep.len() < pat.len(),
    ensures
        replace_all(s, pat, rep).len() <= s.len(),
        find(s, pat) is Some ==> replace_all(s, pat, rep).len() < s.len(),
    decreases s.len(),
{
    lemma_find_is_first(s, pat);
    match find(s, pat) {
        None => {},
        Some(i) => {
            lemma_replace_shrinks(s.skip(i + pat.len()), pat, rep);
        },
    }
}

proof fn lemma_collapsed_has_no_triple(s: Seq<char>)
    ensures
        find(collapsed(s), triple_newline()) is None,
    decreases s.len(),
{
    if find(s, triple_newline()) is Some {
        let r = replace_all(s, triple_newline(), seq!['\n', '\n']);
        lemma_replace_shrinks(s, triple_newline(), seq!['\n', '\n']);
        lemma_collapsed_has_no_triple(r);
    }
}

fn collapse_vec(s: Vec<char>) -> (r: Vec<char>)
    ensures
        r@ == collapsed(s@),
{
    let mut triple: Vec<char> = Vec::new();
    triple.push('\n');
    triple.push('\n');
    triple.push('\n');
    let mut double: Vec<char> = Vec::new();
    double.push('\n');
    double.push('\n');
    let ghost s0 = s@;
    let mut cur = s;
    assert(cur@.skip(0) == cur@);
    loop
        invariant
            triple@ == triple_newline(),
            double@ == seq!['\n', '\n'],
            s0 == s@,
            collapsed(cur@) == collapsed(s0),
        decreases cur@.len(),
    {
        assert(cur@.skip(0) == cur@);
        match find_from(&cur, &triple, 0) {
            None => {
                assert(find(cur@, triple_newline()) is None);
                return cur;
            },
            Some(_) => {},
        }
        let next = replace(&cur, &triple, &double);
        proof {
            lemma_replace_shrinks(cur@, triple@, double@);
        }
        cur = next;
    }
}

/// `s` without leading or trailing whitespace.
fn trim_vec(v: &Vec<char>) -> (r: Vec<char>)
    ensures
        r@ == trim(v@),
{
    assert(v@.subrange(0, v@.len() as int) == v@);
    let a = skip_leading(v, 0, v.len(), 1, ' ');
    let b = skip_trailing_whitespace(v, a, v.len());
    let mut out: Vec<char> = Vec::new();
    push_range(&mut out, v, a, b);
    out
}

/// The first steps of the HTML to markdown conversion: line endings
/// normalised and the headings turned into `#` lines.
pub open spec fn headings_converted(s: Seq<char>) -> Seq<char> {
    let s0 = replace_all(s, "\r\n"@, "\n"@);
    let s1 = blocks_replaced(s0, block_open("h1"@), block_close("h1"@), "# "@, "\n\n"@);
    let s2 = blocks_replaced(s1, block_open("h2"@), block_close("h2"@), "## "@, "\n\n"@);
    let s3 = blocks_replaced(s2, block_open("h3"@), block_close("h3"@), "### "@, "\n\n"@);
    let s4 = blocks_replaced(s3, block_open("h4"@), block_close("h4"@), "#### "@, "\n\n"@);
    let s5 = blocks_replaced(s4, block_open("h5"@), block_close("h5"@), "##### "@, "\n\n"@);
    blocks_replaced(s5, block_open("h6"@), block_close("h6"@), "###### "@, "\n\n"@)
}

/// Paragraphs, list items, quotes, line breaks and rules.
pub open spec fn blocks_converted(s: Seq<char>) -> Seq<char> {
    let s1 = blocks_replaced(s, block_open("p"@), block_close("p"@), ""@, "\n\n"@);
    let s2 = blocks_replaced(s1, block_open("li"@), block_close("li"@), "- "@, "\n"@);
    let s3 = blocks_replaced(
        s2,
        block_open("blockquote"@),
        block_close("blockquote"@),
        "> "@,
        "\n\n"@,
    );
    let s4 = replace_all(s3, "<br>"@, "\n"@);
    let s5 = replace_all(s4, "<br/>"@, "\n"@);
    let s6 = replace_all(s5, "<br />"@, "\n"@);
    let s7 = replace_all(s6, "<hr>"@, "\n---\n"@);
    replace_all(s7, "<hr/>"@, "\n---\n"@)
}

/// Inline emphasis and code.
pub open spec fn inline_converted(s: Seq<char>) -> Seq<char> {
    let s1 = inline_replaced(s, "strong"@, "**"@);
    let s2 = inline_replaced(s1, "b"@, "**"@);
    let s3 = inline_replaced(s2, "em"@, "*"@);
    let s4 = inline_replaced(s3, "i"@, "*"@);
    inline_replaced(s4, "code"@, "`"@)
}

/// The markdown that `naive_html_to_md` makes of `html`.
pub open spec fn html_markdown(html: Seq<char>) -> Seq<char> {
    trim(collapsed(stripped(inline_converted(blocks_converted(headings_converted(html)))))) + seq![
        '\n',
    ]
}

fn block_lit(s: &Vec<char>, tag: &str, prefix: &str, suffix: &str) -> (r: Vec<char>)
    ensures
        r@ == blocks_replaced(s@, block_open(tag@), block_close(tag@), prefix@, suffix@),
{
    let t = to_chars(tag);
    let mut open: Vec<char> = Vec::new();
    open.push('<');
    push_all(&mut open, &t);
    let mut close: Vec<char> = Vec::new();
    close.push('<');
    close.push('/');
    push_all(&mut close, &t);
    close.push('>');
    assert(open@ == block_open(tag@));
    assert(close@ == block_close(tag@));
    let p = to_chars(prefix);
    let q = to_chars(suffix);
    replace_block_vec(s, &open, &close, &p, &q)
}

fn inline_lit(s: &Vec<char>, tag: &str, mark: &str) -> (r: Vec<char>)
    ensures
        r@ == inline_replaced(s@, tag@, mark@),
{
    let t = to_chars(tag);
    let m = to_chars(mark);
    replace_inline_vec(s, &t, &m)
}

/// The HTML `<hd>` + `t` + `</hd>` for the heading digit `d`.
pub open spec fn heading_html(d: char, t: Seq<char>) -> Seq<char> {
    seq!['<', 'h', d, '>'] + t + seq!['<', '/', 'h', d, '>']
}

/// `n` copies of `#`.
pub open spec fn hashes(n: nat) -> Seq<char> {
    Seq::new(n, |i: int| '#')
}

/// Text that can stand as a heading's content: not empty, free of tags,
/// entities and line breaks, and not ending in whitespace.
pub open spec fn heading_text(t: Seq<char>) -> bool {
    &&& t.len() > 0
    &&& !t.contains('<')
    &&& !t.contains('>')
    &&& !t.contains('&')
    &&& !t.contains('\n')
    &&& !t.contains('\r')
    &&& !is_whitespace(t.last())
}

proof fn lemma_find_absent(s: Seq<char>, pat: Seq<char>)
    requires
        pat.len() > 0,
        !s.contains(pat[0]),
    ensures
        find(s, pat) is None,
{
    lemma_find_is_first(s, pat);
    if let Some(i) = find(s, pat) {
        assert(s.subrange(i, i + pat.len())[0] == s[i]);
    }
}

proof fn lemma_blocks_absent(
    s: Seq<char>,
    open: Seq<char>,
    close: Seq<char>,
    prefix: Seq<char>,
    suffix: Seq<char>,
)
    requires
        open.len() > 0,
        !s.contains(open[0]),
    ensures
        blocks_replaced(s, open, close, prefix, suffix) == s,
{
    lemma_find_absent(s, open);
}

/// A heading block of another level is left alone.
proof fn lemma_heading_other_level(
    d: char,
    e: char,
    t: Seq<char>,
    prefix: Seq<char>,
    suffix: Seq<char>,
)
    requires
        d != e,
        !t.contains('<'),
    ensures
        blocks_replaced(
            heading_html(d, t),
            seq!['<', 'h', e],
            seq!['<', '/', 'h', e, '>'],
            prefix,
            suffix,
        ) == heading_html(d, t),
{
    let s = heading_html(d, t);
    let open = seq!['<', 'h', e];
    assert forall|j: int| !matches_at(s, open, j) by {
        if matches_at(s, open, j) {
            assert(s.subrange(j, j + 3)[0] == s[j]);
            assert(s.subrange(j, j + 3)[1] == s[j + 1]);
            assert(s.subrange(j, j + 3)[2] == s[j + 2]);
            if j < 4 {
                assert(j == 0);
            } else if j < 4 + t.len() {
                assert(s[j] == t[j - 4]);
            } else {
                assert(j == 4 + t.len() || j > 4 + t.len());
            }
        }
    }
    lemma_find_none(s, open);
}

/// A heading block of this level becomes `prefix`, its text and `suffix`.
proof fn lemma_heading_this_level(d: char, t: Seq<char>, prefix: Seq<char>, suffix: Seq<char>)
    requires
        d != '>',
        !t.contains('<'),
        !t.contains('>'),
    ensures
        blocks_replaced(
            heading_html(d, t),
            seq!['<', 'h', d],
            seq!['<', '/', 'h', d, '>'],
            prefix,
            suffix,
        ) == prefix + t + suffix,
{
    let s = heading_html(d, t);
    let open = seq!['<', 'h', d];
    let close = seq!['<', '/', 'h', d, '>'];
    assert(s.subrange(0, 3) =~= open);
    lemma_find_unique(s, open, 0);
    assert(s.skip(0) =~= s);
    assert(s.subrange(3, 4) =~= seq!['>']);
    assert(s[0] == '<' && s[1] == 'h' && s[2] == d);
    assert forall|j: int| 0 <= j < 3 implies !matches_at(s, seq!['>'], j) by {
        if matches_at(s, seq!['>'], j) {
            assert(s.subrange(j, j + 1)[0] == s[j]);
        }
    }
    lemma_find_unique(s, seq!['>'], 3);
    let rest = s.skip(4);
    assert(rest =~= t + close);
    let n = t.len() as int;
    assert(rest.subrange(n, n + 5) =~= close);
    assert forall|j: int| 0 <= j < n implies !matches_at(rest, close, j) by {
        if matches_at(rest, close, j) {
            assert(rest.subrange(j, j + 5)[0] == rest[j]);
            assert(rest[j] == t[j]);
        }
    }
    lemma_find_unique(rest, close, n);
    let after_all = s.skip(4 + n + 5);
    assert(after_all.len() == 0);
    assert(find(after_all, open) is None);
    assert(blocks_replaced(after_all, open, close, prefix, suffix) == after_all);
    assert(s.subrange(4, 4 + n) =~= t);
    assert(s.take(0) + prefix + s.subrange(4, 4 + n) + suffix + after_all =~= prefix + t + suffix);
    assert(find(s, open) == Some(0int));
    assert(find(s.skip(0), seq!['>']) == Some(3int));
    assert(find(s.skip(4), close) == Some(n));
}

proof fn lemma_heading_literals()
    ensures
        "h1"@ == seq!['h', '1'],
        "h2"@ == seq!['h', '2'],
        "h3"@ == seq!['h', '3'],
        "h4"@ == seq!['h', '4'],
        "h5"@ == seq!['h', '5'],
        "h6"@ == seq!['h', '6'],
        "# "@ == hashes(1) + seq![' '],
        "## "@ == hashes(2) + seq![' '],
        "### "@ == hashes(3) + seq![' '],
        "#### "@ == hashes(4) + seq![' '],
        "##### "@ == hashes(5) + seq![' '],
        "###### "@ == hashes(6) + seq![' '],
        "\n\n"@ == seq!['\n', '\n'],
        "\r\n"@ == seq!['\r', '\n'],
        "<br>"@[0] == '<' && "<br>"@.len() > 0,
        "<br/>"@[0] == '<' && "<br/>"@.len() > 0,
        "<br />"@[0] == '<' && "<br />"@.len() > 0,
        "<hr>"@[0] == '<' && "<hr>"@.len() > 0,
        "<hr/>"@[0] == '<' && "<hr/>"@.len() > 0,
{
    reveal_strlit("h1");
    reveal_strlit("h2");
    reveal_strlit("h3");
    reveal_strlit("h4");
    reveal_strlit("h5");
    reveal_strlit("h6");
    reveal_strlit("# ");
    reveal_strlit("## ");
    reveal_strlit("### ");
    reveal_strlit("#### ");
    reveal_strlit("##### ");
    reveal_strlit("###### ");
    reveal_strlit("\n\n");
    reveal_strlit("\r\n");
    reveal_strlit("<br>");
    reveal_strlit("<br/>");
    reveal_strlit("<br />");
    reveal_strlit("<hr>");
    reveal_strlit("<hr/>");
    assert("h1"@ =~= seq!['h', '1']);
    assert("h2"@ =~= seq!['h', '2']);
    assert("h3"@ =~= seq!['h', '3']);
    assert("h4"@ =~= seq!['h', '4']);
    assert("h5"@ =~= seq!['h', '5']);
    assert("h6"@ =~= seq!['h', '6']);
    assert("# "@ =~= hashes(1) + seq![' ']);
    assert("## "@ =~= hashes(2) + seq![' ']);
    assert("### "@ =~= hashes(3) + seq![' ']);
    assert("#### "@ =~= hashes(4) + seq![' ']);
    assert("##### "@ =~= hashes(5) + seq![' ']);
    assert("###### "@ =~= hashes(6) + seq![' ']);
    assert("\n\n"@ =~= seq!['\n', '\n']);
    assert("\r\n"@ =~= seq!['\r', '\n']);
}

/// The heading digit of level `n`.
pub open spec fn level_digit(n: nat) -> char {
    if n == 1 {
        '1'
    } else if n == 2 {
        '2'
    } else if n == 3 {
        '3'
    } else if n == 4 {
        '4'
    } else if n == 5 {
        '5'
    } else {
        '6'
    }
}

/// One heading stage, its tags and prefix written out.
pub open spec fn heading_stage(x: Seq<char>, e: char, k: nat) -> Seq<char> {
    blocks_replaced(x, seq!['<', 'h', e], seq!['<', '/', 'h', e, '>'], hashes(k) + seq![' '], seq![
        '\n',
        '\n',
    ])
}

proof fn lemma_headings_unfolded(x: Seq<char>)
    ensures
        headings_converted(x) == heading_stage(
            heading_stage(
                heading_stage(
                    heading_stage(
                        heading_stage(heading_stage(replace_all(x, "\r\n"@, "\n"@), '1', 1), '2', 2),
                        '3',
                        3,
                    ),
                    '4',
                    4,
                ),
                '5',
                5,
            ),
            '6',
            6,
        ),
{
    lemma_heading_literals();
    assert(block_open("h1"@) == seq!['<', 'h', '1']);
    assert(block_close("h1"@) == seq!['<', '/', 'h', '1', '>']);
    assert(block_open("h2"@) == seq!['<', 'h', '2']);
    assert(block_close("h2"@) == seq!['<', '/', 'h', '2', '>']);
    assert(block_open("h3"@) == seq!['<', 'h', '3']);
    assert(block_close("h3"@) == seq!['<', '/', 'h', '3', '>']);
    assert(block_open("h4"@) == seq!['<', 'h', '4']);
    assert(block_close("h4"@) == seq!['<', '/', 'h', '4', '>']);
    assert(block_open("h5"@) == seq!['<', 'h', '5']);
    assert(block_close("h5"@) == seq!['<', '/', 'h', '5', '>']);
    assert(block_open("h6"@) == seq!['<', 'h', '6']);
    assert(block_close("h6"@) == seq!['<', '/', 'h', '6', '>']);
}

proof fn lemma_heading_block_facts(n: nat, t: Seq<char>)
    requires
        1 <= n <= 6,
        heading_text(t),
    ensures
        heading_html(level_digit(n), t).contains('<'),
        replace_all(heading_html(level_digit(n), t), "\r\n"@, "\n"@) == heading_html(
            level_digit(n),
            t,
        ),
        !(hashes(n) + seq![' '] + t + seq!['\n', '\n']).contains('<'),
{
    lemma_heading_literals();
    let src = heading_html(level_digit(n), t);
    let out = hashes(n) + seq![' '] + t + seq!['\n', '\n'];
    assert(!src.contains('\r')) by {
        assert forall|i: int| 0 <= i < src.len() implies src[i] != '\r' by {
            if 4 <= i < 4 + t.len() {
                assert(src[i] == t[i - 4]);
            }
        }
    }
    lemma_replace_absent(src, "\r\n"@, "\n"@);
    assert(!out.contains('<')) by {
        assert forall|i: int| 0 <= i < out.len() implies out[i] != '<' by {
            if n + 1 <= i < n + 1 + t.len() {
                assert(out[i] == t[i - n - 1]);
            }
        }
    }
    assert(src[0] == '<');
}

/// After the heading stages, a heading block of level `n` is its `#` line.
proof fn lemma_headings_of_one_block(n: nat, t: Seq<char>)
    requires
        1 <= n <= 6,
        heading_text(t),
    ensures
        headings_converted(heading_html(level_digit(n), t)) == hashes(n) + seq![' '] + t + seq![
            '\n',
            '\n',
        ],
{
    let d = level_digit(n);
    let src = heading_html(d, t);
    let out = hashes(n) + seq![' '] + t + seq!['\n', '\n'];
    lemma_heading_block_facts(n, t);
    lemma_headings_unfolded(src);
    lemma_stage(d, '1', t, hashes(1) + seq![' '], src);
    let s1 = heading_stage(src, '1', 1);
    assert(s1 == if n <= 1 { out } else { src });
    lemma_stage(d, '2', t, hashes(2) + seq![' '], s1);
    let s2 = heading_stage(s1, '2', 2);
    assert(s2 == if n <= 2 { out } else { src });
    lemma_stage(d, '3', t, hashes(3) + seq![' '], s2);
    let s3 = heading_stage(s2, '3', 3);
    assert(s3 == if n <= 3 { out } else { src });
    lemma_stage(d, '4', t, hashes(4) + seq![' '], s3);
    let s4 = heading_stage(s3, '4', 4);
    assert(s4 == if n <= 4 { out } else { src });
    lemma_stage(d, '5', t, hashes(5) + seq![' '], s4);
    let s5 = heading_stage(s4, '5', 5);
    assert(s5 == if n <= 5 { out } else { src });
    lemma_stage(d, '6', t, hashes(6) + seq![' '], s5);
}

/// One heading stage on the block or on what an earlier stage made of it:
/// the block of this level becomes its line; anything else stays.
proof fn lemma_stage(d: char, e: char, t: Seq<char>, pe: Seq<char>, x: Seq<char>)
    requires
        d != '>',
        heading_text(t),
        x == heading_html(d, t) || !x.contains('<'),
    ensures
        blocks_replaced(x, seq!['<', 'h', e], seq!['<', '/', 'h', e, '>'], pe, seq!['\n', '\n'])
            == if x.contains('<') && e == d {
            pe + t + seq!['\n', '\n']
        } else {
            x
        },
        x.contains('<') ==> x == heading_html(d, t),
        x.contains('<') && e == d ==> !(pe + t + seq!['\n', '\n']).contains('<') || pe.contains('<'),
{
    if !x.contains('<') {
        lemma_blocks_absent(x, seq!['<', 'h', e], seq!['<', '/', 'h', e, '>'], pe, seq!['\n', '\n']);
    } else if e == d {
        lemma_heading_this_level(d, t, pe, seq!['\n', '\n']);
        let y = pe + t + seq!['\n', '\n'];
        if !pe.contains('<') {
            assert forall|i: int| 0 <= i < y.len() implies y[i] != '<' by {
                if i < pe.len() {
                    assert(y[i] == pe[i]);
                } else if i < pe.len() + t.len() {
                    assert(y[i] == t[i - pe.len()]);
                }
            }
        }
    } else {
        lemma_heading_other_level(d, e, t, pe, seq!['\n', '\n']);
    }
}

/// What follows the heading stages leaves a `#` line alone: it holds no
/// tag, entity or blank-line run, and only its closing newlines are trimmed.
proof fn lemma_heading_line_survives(n: nat, t: Seq<char>)
    requires
        1 <= n <= 6,
        heading_text(t),
    ensures
        trim(collapsed(stripped(inline_converted(blocks_converted(hashes(n) + seq![' '] + t
            + seq!['\n', '\n']))))) + seq!['\n'] == hashes(n) + seq![' '] + t + seq!['\n'],
{
    lemma_heading_literals();
    lemma_entity_literals();
    let y = hashes(n) + seq![' '] + t;
    let x = y + seq!['\n', '\n'];
    assert forall|i: int| 0 <= i < x.len() implies x[i] != '<' && x[i] != '>' && x[i] != '&' by {
        if n + 1 <= i < n + 1 + t.len() {
            assert(x[i] == t[i - n - 1]);
        }
    }
    assert(!x.contains('<') && !x.contains('>') && !x.contains('&'));
    // Blocks and inline marks all open with `<`.
    lemma_blocks_absent(x, block_open("p"@), block_close("p"@), ""@, "\n\n"@);
    lemma_blocks_absent(x, block_open("li"@), block_close("li"@), "- "@, "\n"@);
    lemma_blocks_absent(x, block_open("blockquote"@), block_close("blockquote"@), "> "@, "\n\n"@);
    lemma_replace_absent(x, "<br>"@, "\n"@);
    lemma_replace_absent(x, "<br/>"@, "\n"@);
    lemma_replace_absent(x, "<br />"@, "\n"@);
    lemma_replace_absent(x, "<hr>"@, "\n---\n"@);
    lemma_replace_absent(x, "<hr/>"@, "\n---\n"@);
    assert(blocks_converted(x) == x);
    assert forall|tag: Seq<char>, mark: Seq<char>| #[trigger] inline_replaced(x, tag, mark) == x by {
        lemma_replace_absent(x, seq!['<'] + tag + seq!['>'], mark);
        lemma_replace_absent(x, block_close(tag), mark);
    }
    assert(inline_converted(x) == x);
    law_strip_html_keeps_plain_text(x);
    // Only the last two characters are newlines.
    assert forall|j: int| !matches_at(x, triple_newline(), j) by {
        if matches_at(x, triple_newline(), j) {
            assert(x.subrange(j, j + 3)[0] == x[j]);
            assert(x[j] == '\n');
            if j < n + 1 {
                assert(x[j] == y[j]);
            } else if j < n + 1 + t.len() {
                assert(x[j] == t[j - n - 1]);
            }
        }
    }
    lemma_find_none(x, triple_newline());
    assert(collapsed(x) == x);
    assert(trim_start(x) == x);
    assert(x.drop_last() =~= y + seq!['\n']);
    assert((y + seq!['\n']).drop_last() =~= y);
    assert(y.last() == t.last());
    assert(trim_end(y) == y);
    assert(trim_end(y + seq!['\n']) == y);
    assert(trim_end(x) == y);
}

/// An HTML heading of level `n` (1 to 6) holding plain text becomes exactly
/// `n` `#` characters, a space, the text and a newline.
pub proof fn law_heading_becomes_hashes(n: nat, t: Seq<char>)
    requires
        1 <= n <= 6,
        heading_text(t),
    ensures
        html_markdown(heading_html(level_digit(n), t)) == hashes(n) + seq![' '] + t + seq!['\n'],
{
    lemma_headings_of_one_block(n, t);
    lemma_heading_line_survives(n, t);
}

fn headings_vec(s: &Vec<char>) -> (r: Vec<char>)
    ensures
        r@ == headings_converted(s@),
{
    proof {
        reveal_strlit("\r\n");
    }
    let s0 = replace_lit(s, "\r\n", "\n");
    let s1 = block_lit(&s0, "h1", "# ", "\n\n");
    let s2 = block_lit(&s1, "h2", "## ", "\n\n");
    let s3 = block_lit(&s2, "h3", "### ", "\n\n");
    let s4 = block_lit(&s3, "h4", "#### ", "\n\n");
    let s5 = block_lit(&s4, "h5", "##### ", "\n\n");
    block_lit(&s5, "h6", "###### ", "\n\n")
}

fn blocks_vec(s: &Vec<char>) -> (r: Vec<char>)
    ensures
        r@ == blocks_converted(s@),
{
    proof {
        reveal_strlit("<br>");
        reveal_strlit("<br/>");
        reveal_strlit("<br />");
        reveal_strlit("<hr>");
        reveal_strlit("<hr/>");
    }
    let s1 = block_lit(s, "p", "", "\n\n");
    let s2 = block_lit(&s1, "li", "- ", "\n");
    let s3 = block_lit(&s2, "blockquote", "> ", "\n\n");
    let s4 = replace_lit(&s3, "<br>", "\n");
    let s5 = replace_lit(&s4, "<br/>", "\n");
    let s6 = replace_lit(&s5, "<br />", "\n");
    let s7 = replace_lit(&s6, "<hr>", "\n---\n");
    replace_lit(&s7, "<hr/>", "\n---\n")
}

fn inline_vec(s: &Vec<char>) -> (r: Vec<char>)
    ensures
        r@ == inline_converted(s@),
{
    let s1 = inline_lit(s, "strong", "**");
    let s2 = inline_lit(&s1, "b", "**");
    let s3 = inline_lit(&s2, "em", "*");
    let s4 = inline_lit(&s3, "i", "*");
    inline_lit(&s4, "code", "`")
}

/// Very light-weight HTML to markdown. Keeps headings, paragraphs, lists,
/// and inline emphasis. Anything fancier is flattened to text.
pub fn naive_html_to_md(html: &str) -> (r: String)
    ensures
        r@ == html_markdown(html@),
{
    let v = to_chars(html);
    let a = headings_vec(&v);
    let b = blocks_vec(&a);
    let c = inline_vec(&b);
    let d = strip_html_vec(&c);
    let e = collapse_vec(d);
    let mut f = trim_vec(&e);
    f.push('\n');
    from_chars(&f)
}

/// Convert an HTML document to markdown.
pub fn html_to_markdown(html: &str) -> (r: String)
    ensures
        r@ == html_markdown(html@),
{
    naive_html_to_md(html)
}

/// Convert an HTML document to plain text.
pub fn html_to_txt(html: &str) -> (r: String)
    ensures
        r@ == stripped(html@),
{
    strip_html(html)
}


proof fn lemma_trim_end_prefix(s: Seq<char>)
    ensures
        exists|k: int| 0 <= k <= s.len() && #[trigger] s.take(k) == trim_end(s),
        trim_end(s).len() == 0 || !is_whitespace(trim_end(s).last()),
    decreases s.len(),
{
    if s.len() > 0 && is_whitespace(s.last()) {
        lemma_trim_end_prefix(s.drop_last());
        let k = choose|k: int|
            0 <= k <= s.drop_last().len() && #[trigger] s.drop_last().take(k) == trim_end(
                s.drop_last(),
            );
        assert(s.take(k) == s.drop_last().take(k));
    } else {
        assert(s.take(s.len() as int) == s);
    }
}

/// The markdown that `html_to_markdown` writes never holds three newlines in
/// a row (runs of blank lines are collapsed) and ends with a newline.
pub proof fn law_markdown_has_no_blank_line_runs(html: Seq<char>)
    ensures
        find(html_markdown(html), triple_newline()) is None,
        html_markdown(html).last() == '\n',
{
    let c = collapsed(stripped(inline_converted(blocks_converted(headings_converted(html)))));
    lemma_collapsed_has_no_triple(stripped(inline_converted(blocks_converted(headings_converted(html)))));
    lemma_find_is_first(c, triple_newline());
    lemma_trim_start_suffix(c);
    let k1 = choose|k: int| 0 <= k <= c.len() && #[trigger] c.skip(k) == trim_start(c);
    let a = trim_start(c);
    lemma_trim_end_prefix(a);
    let k2 = choose|k: int| 0 <= k <= a.len() && #[trigger] a.take(k) == trim_end(a);
    let t = trim(c);
    assert(t == c.subrange(k1, k1 + k2));
    let out = t + seq!['\n'];
    assert(out == html_markdown(html));
    assert forall|i: int| !matches_at(out, triple_newline(), i) by {
        if matches_at(out, triple_newline(), i) {
            if i + 3 <= t.len() {
                assert(c.subrange(k1 + i, k1 + i + 3) == out.subrange(i, i + 3));
                assert(matches_at(c, triple_newline(), k1 + i));
            } else {
                assert(out.subrange(i, i + 3)[1] == '\n');
                assert(t.last() == out[t.len() - 1]);
                assert(is_whitespace('\n'));
            }
        }
    }
    crate::chars::lemma_find_none(out, triple_newline());
}


// ---------------------------------------------------------------------------
// Markdown to HTML.
// ---------------------------------------------------------------------------
/// The HTML body that pulldown-cmark renders for `md`, with tables,
/// strikethrough, task lists and footnotes enabled.
pub uninterp spec fn commonmark_html(md: Seq<char>) -> Seq<char>;

/// Renders `md` with pulldown-cmark: `Parser::new_ext` with the tables,
/// strikethrough, task-list and footnote extensions, written out by
/// `html::push_html` into an empty string. The contract names the result:
/// the same markdown always renders to the same HTML.
#[verifier::external_body]
fn render_markdown(md: &str) -> (r: String)
    ensures
        r@ == commonmark_html(md@),
{
    let mut opts = pulldown_cmark::Options::empty();
    opts.insert(pulldown_cmark::Options::ENABLE_TABLES);
    opts.insert(pulldown_cmark::Options::ENABLE_STRIKETHROUGH);
    opts.insert(pulldown_cmark::Options::ENABLE_TASKLISTS);
    opts.insert(pulldown_cmark::Options::ENABLE_FOOTNOTES);
    let parser = pulldown_cmark::Parser::new_ext(md, opts);
    let mut body = String::new();
    pulldown_cmark::html::push_html(&mut body, parser);
    body
}

pub open spec fn md_html_head() -> Seq<char> {
    "<!doctype html>\n<html lang=\"en\">\n<head>\n<meta charset=\"utf-8\">\n<title>"@
}

pub open spec fn md_html_style() -> Seq<char> {
    "</title>\n<style>body{font-family:system-ui,sans-serif;max-width:720px;margin:2rem auto;padding:0 1rem;line-height:1.6;color:#222}pre{background:#f4f4f4;padding:0.75rem 1rem;border-radius:6px;overflow:auto}code{font-family:ui-monospace,Menlo,Consolas,monospace}blockquote{border-left:3px solid #ccc;padding-left:1rem;color:#555}</style>\n</head>\n<body>\n"@
}

pub open spec fn md_html_tail() -> Seq<char> {
    "\n</body>\n</html>\n"@
}

/// The document title: the input file's stem, or `Document`.
pub open spec fn document_title(input_path: Seq<char>) -> Seq<char> {
    match path_file_stem(input_path) {
        Some(s) => s,
        None => "Document"@,
    }
}

/// The HTML page for a rendered markdown body.
pub open spec fn markdown_page(title: Seq<char>, body: Seq<char>) -> Seq<char> {
    md_html_head() + escaped(title) + md_html_style() + body + md_html_tail()
}

/// Wrap a rendered markdown body in a small standalone HTML page whose
/// title is `title`, escaped.
pub fn markdown_page_of(title: &str, body: &str) -> (r: String)
    ensures
        r@ == markdown_page(title@, body@),
{
    let mut out = String::from_str(
        "<!doctype html>\n<html lang=\"en\">\n<head>\n<meta charset=\"utf-8\">\n<title>",
    );
    let t = html_escape(title);
    out.append(t.as_str());
    out.append(
        "</title>\n<style>body{font-family:system-ui,sans-serif;max-width:720px;margin:2rem auto;padding:0 1rem;line-height:1.6;color:#222}pre{background:#f4f4f4;padding:0.75rem 1rem;border-radius:6px;overflow:auto}code{font-family:ui-monospace,Menlo,Consolas,monospace}blockquote{border-left:3px solid #ccc;padding-left:1rem;color:#555}</style>\n</head>\n<body>\n",
    );
    out.append(body);
    out.append("\n</body>\n</html>\n");
    out
}

/// Render markdown to a standalone HTML page titled after the input file.
pub fn markdown_to_html(md: &str, input_path: &str) -> (r: String)
    ensures
        r@ == markdown_page(document_title(input_path@), commonmark_html(md@)),
{
    let body = render_markdown(md);
    let title = match file_stem(input_path) {
        Some(s) => s,
        None => String::from_str("Document"),
    };
    markdown_page_of(title.as_str(), body.as_str())
}

} // verus!
