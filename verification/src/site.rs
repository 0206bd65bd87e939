//! The web site's own rules: cache headers per path, the build label, and
//! pages with the build label filled in.
use vstd::prelude::*;
use crate::text::{chars_of, ends_with, ends_with_seq, push_decimal, push_str, replace, replace_all, starts_with, starts_with_seq, string_of, trim, trim_ws, decimal, same_chars};

verus! {

/// `Cache-Control` for a site path that set none itself: immutable assets,
/// a week for images, revalidation for everything else.
pub open spec fn cache_policy_spec(path: Seq<char>) -> Seq<char> {
    if starts_with_seq(path, "/assets/"@) {
        "public, max-age=31536000, immutable"@
    } else if ends_with_seq(path, ".webp"@) || ends_with_seq(path, ".png"@) || ends_with_seq(path, ".svg"@) {
        "public, max-age=604800"@
    } else {
        "no-cache"@
    }
}

pub fn cache_policy(path: &str) -> (r: &'static str)
    ensures
        r@ == cache_policy_spec(path@),
{
    let p = chars_of(path);
    if starts_with(&p, &chars_of("/assets/")) {
        "public, max-age=31536000, immutable"
    } else if ends_with(&p, &chars_of(".webp")) || ends_with(&p, &chars_of(".png")) || ends_with(&p, &chars_of(".svg")) {
        "public, max-age=604800"
    } else {
        "no-cache"
    }
}

/// HTML escaping of the build label: `&`, `<`, `>`, `"` and `'`, in that
/// order.
pub open spec fn escape_spec(s: Seq<char>) -> Seq<char> {
    replace_all(
        replace_all(
            replace_all(replace_all(replace_all(s, "&"@, "&amp;"@), "<"@, "&lt;"@), ">"@, "&gt;"@),
            "\""@,
            "&quot;"@,
        ),
        "'"@,
        "&#39;"@,
    )
}

/// A page with every `{{BUILD_ID}}` replaced by the escaped build label
/// (`rendered_file`, once the page text is read).
pub open spec fn rendered_spec(page: Seq<char>, build: Seq<char>) -> Seq<char> {
    replace_all(page, "{{BUILD_ID}}"@, escape_spec(build))
}

fn replace_lit(s: &Vec<char>, pat: &str, to: &str) -> (r: Vec<char>)
    requires
        pat@.len() > 0,
    ensures
        r@ == replace_all(s@, pat@, to@),
{
    replace(s, &chars_of(pat), &chars_of(to))
}

pub fn escape_build(build: &str) -> (r: Vec<char>)
    ensures
        r@ == escape_spec(build@),
{
    proof {
        reveal_strlit("&");
        reveal_strlit("<");
        reveal_strlit(">");
        reveal_strlit("\"");
        reveal_strlit("'");
    }
    let s = chars_of(build);
    let s = replace_lit(&s, "&", "&amp;");
    let s = replace_lit(&s, "<", "&lt;");
    let s = replace_lit(&s, ">", "&gt;");
    let s = replace_lit(&s, "\"", "&quot;");
    replace_lit(&s, "'", "&#39;")
}

pub fn render_page(page: &str, build: &str) -> (r: String)
    ensures
        r@ == rendered_spec(page@, build@),
{
    proof {
        reveal_strlit("{{BUILD_ID}}");
    }
    let escaped = escape_build(build);
    let p = chars_of(page);
    let out = replace(&p, &chars_of("{{BUILD_ID}}"), &escaped);
    string_of(&out)
}

/// The build label from `BUILD_SHA`, unless it is unset or `dev`.
pub fn build_from_env(value: Option<String>) -> (r: Option<String>)
    ensures
        r == match value {
            Some(v) => if v@ == "dev"@ {
                None
            } else {
                Some(v)
            },
            None => None,
        },
{
    match value {
        None => None,
        Some(v) => if same_chars(&chars_of(v.as_str()), &chars_of("dev")) {
            None
        } else {
            Some(v)
        },
    }
}

/// The build label shown on pages: the candidate trimmed, or `dev` when
/// there is none or it is blank.
pub fn build_label(candidate: Option<String>) -> (r: String)
    ensures
        r@ == match candidate {
            Some(v) => if trim_ws(v@).len() > 0 {
                trim_ws(v@)
            } else {
                "dev"@
            },
            None => "dev"@,
        },
{
    match candidate {
        None => String::from_str("dev"),
        Some(v) => {
            let t = trim(&chars_of(v.as_str()));
            if t.len() > 0 {
                string_of(&t)
            } else {
                String::from_str("dev")
            }
        },
    }
}

/// The answer to a request refused by the rate limit.
pub fn too_many_requests_message(seconds: u64) -> (r: String)
    ensures
        r@ == "Too many requests. Try again in "@ + decimal(seconds as nat) + " second(s)."@,
{
    let mut t: Vec<char> = Vec::new();
    push_str(&mut t, "Too many requests. Try again in ");
    push_decimal(&mut t, seconds);
    push_str(&mut t, " second(s).");
    string_of(&t)
}

/// The `Retry-After` value for a wait of `seconds`.
pub fn retry_after_value(seconds: u64) -> (r: String)
    ensures
        r@ == decimal(seconds as nat),
{
    let mut t: Vec<char> = Vec::new();
    push_decimal(&mut t, seconds);
    string_of(&t)
}


proof fn lemma_concat_lacks(a: Seq<char>, b: Seq<char>, c: char)
    requires
        !a.contains(c),
        !b.contains(c),
    ensures
        !(a + b).contains(c),
{
    if (a + b).contains(c) {
        let k = choose|k: int| 0 <= k < (a + b).len() && (a + b)[k] == c;
        if k < a.len() {
            assert(a[k] == c);
        } else {
            assert(b[k - a.len()] == c);
        }
    }
}

/// Replacing never brings in a character that neither the text nor the
/// replacement holds, and replacing a single character by text without it
/// removes that character.
proof fn lemma_replace_lacks(s: Seq<char>, p: Seq<char>, t: Seq<char>, c: char)
    requires
        p.len() > 0,
        !t.contains(c),
        !s.contains(c) || p == seq![c],
    ensures
        !replace_all(s, p, t).contains(c),
    decreases s.len(),
{
    if s.len() < p.len() {
        if p == seq![c] {
            assert(s.len() == 0);
        }
    } else if s.take(p.len() as int) == p {
        if !s.contains(c) {
            assert forall|k: int| 0 <= k < s.skip(p.len() as int).len() implies s.skip(p.len() as int)[k] != c by {
                assert(s.skip(p.len() as int)[k] == s[k + p.len()]);
            }
        }
        lemma_replace_lacks(s.skip(p.len() as int), p, t, c);
        lemma_concat_lacks(t, replace_all(s.skip(p.len() as int), p, t), c);
    } else {
        if !s.contains(c) {
            assert forall|k: int| 0 <= k < s.drop_first().len() implies s.drop_first()[k] != c by {
                assert(s.drop_first()[k] == s[k + 1]);
            }
        }
        if p == seq![c] {
            assert(s[0] != c) by {
                if s[0] == c {
                    assert(s.take(1) =~= seq![c]);
                }
            }
        }
        lemma_replace_lacks(s.drop_first(), p, t, c);
        assert(!seq![s[0]].contains(c));
        lemma_concat_lacks(seq![s[0]], replace_all(s.drop_first(), p, t), c);
    }
}

/// The escaped build label holds none of the characters that could open
/// markup or end an attribute: `<`, `>`, `"` and `'`.
pub proof fn law_escape(build: Seq<char>)
    ensures
        !escape_spec(build).contains('<'),
        !escape_spec(build).contains('>'),
        !escape_spec(build).contains('"'),
        !escape_spec(build).contains('\''),
{
    reveal_strlit("&");
    reveal_strlit("<");
    reveal_strlit(">");
    reveal_strlit("\"");
    reveal_strlit("'");
    reveal_strlit("&amp;");
    reveal_strlit("&lt;");
    reveal_strlit("&gt;");
    reveal_strlit("&quot;");
    reveal_strlit("&#39;");
    assert("<"@ =~= seq!['<']);
    assert(">"@ =~= seq!['>']);
    assert("\""@ =~= seq!['"']);
    assert("'"@ =~= seq!['\'']);
    let s1 = replace_all(build, "&"@, "&amp;"@);
    let s2 = replace_all(s1, "<"@, "&lt;"@);
    let s3 = replace_all(s2, ">"@, "&gt;"@);
    let s4 = replace_all(s3, "\""@, "&quot;"@);
    let s5 = replace_all(s4, "'"@, "&#39;"@);
    assert(!"&lt;"@.contains('<') && !"&gt;"@.contains('<') && !"&quot;"@.contains('<') && !"&#39;"@.contains('<')) by {
        assert("&lt;"@[1] != '<');
    }
    lemma_replace_lacks(s1, "<"@, "&lt;"@, '<');
    lemma_replace_lacks(s2, ">"@, "&gt;"@, '<');
    lemma_replace_lacks(s3, "\""@, "&quot;"@, '<');
    lemma_replace_lacks(s4, "'"@, "&#39;"@, '<');
    lemma_replace_lacks(s2, ">"@, "&gt;"@, '>');
    lemma_replace_lacks(s3, "\""@, "&quot;"@, '>');
    lemma_replace_lacks(s4, "'"@, "&#39;"@, '>');
    lemma_replace_lacks(s3, "\""@, "&quot;"@, '"');
    lemma_replace_lacks(s4, "'"@, "&#39;"@, '"');
    lemma_replace_lacks(s4, "'"@, "&#39;"@, '\'');
}

/// Cache headers by path: anything under `/assets/` is immutable for a
/// year, `.webp`, `.png` and `.svg` files keep for a week, and every other
/// page is revalidated.
pub proof fn law_cache_policy(path: Seq<char>)
    ensures
        path.len() >= 8 && path.take(8) == "/assets/"@ ==> cache_policy_spec(path) == "public, max-age=31536000, immutable"@,
        !(path.len() >= 8 && path.take(8) == "/assets/"@) && ((path.len() >= 5 && path.skip(path.len() - 5) == ".webp"@) || (
        path.len() >= 4 && (path.skip(path.len() - 4) == ".png"@ || path.skip(path.len() - 4) == ".svg"@)))
            ==> cache_policy_spec(path) == "public, max-age=604800"@,
        !(path.len() >= 8 && path.take(8) == "/assets/"@) && !((path.len() >= 5 && path.skip(path.len() - 5) == ".webp"@) || (
        path.len() >= 4 && (path.skip(path.len() - 4) == ".png"@ || path.skip(path.len() - 4) == ".svg"@)))
            ==> cache_policy_spec(path) == "no-cache"@,
{
    reveal_strlit("/assets/");
    reveal_strlit(".webp");
    reveal_strlit(".png");
    reveal_strlit(".svg");
}
} // verus!
