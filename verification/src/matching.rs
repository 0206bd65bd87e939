//! Turning notices into action cards: which keyword rule a notice matches,
//! and what the card records.
use vstd::prelude::*;
use crate::text::{chars_of, contains, contains_seq, push_all, push_decimal, push_str, seqs_of, split_char, split_on, string_of, trim, trim_ws, decimal};
use crate::notices::Notice;
use crate::watch::NewWatch;
use crate::digest::{sha256_hex, sha256_hex_spec};

verus! {

/// The lowercase form of `s`.
pub uninterp spec fn lowercase(s: Seq<char>) -> Seq<char>;

/// Trusted: `str::to_lowercase`. The contract names the result; Unicode
/// lowercasing is not restated.
#[verifier::external_body]
fn to_lowercase(s: &str) -> (r: String)
    ensures
        r@ == lowercase(s@),
{
    s.to_lowercase()
}

/// The text a notice is matched against: its title and excerpt, lowercased.
pub open spec fn match_body(title: Seq<char>, excerpt: Seq<char>) -> Seq<char> {
    lowercase(title + seq![' '] + excerpt)
}

/// The first of `pieces`, trimmed, that is not empty and whose lowercase
/// form occurs in `body`.
pub open spec fn first_rule(pieces: Seq<Seq<char>>, body: Seq<char>) -> Option<Seq<char>>
    decreases pieces.len(),
{
    if pieces.len() == 0 {
        None
    } else {
        let k = trim_ws(pieces[0]);
        if k.len() > 0 && contains_seq(body, lowercase(k)) {
            Some(k)
        } else {
            first_rule(pieces.drop_first(), body)
        }
    }
}

/// The keyword rule (from the comma-separated `keywords`) that a notice
/// matches first, as written in the watch.
pub open spec fn matched_rule(keywords: Seq<char>, title: Seq<char>, excerpt: Seq<char>) -> Option<Seq<char>> {
    first_rule(split_on(keywords, ','), match_body(title, excerpt))
}

/// The first of `pieces`, trimmed, that is not empty and whose lowercase
/// form, given as `lowered` at the same index, occurs in `body`.
pub open spec fn first_rule_with(pieces: Seq<Seq<char>>, lowered: Seq<Seq<char>>, body: Seq<char>) -> Option<Seq<char>>
    decreases pieces.len(),
{
    if pieces.len() == 0 || lowered.len() == 0 {
        None
    } else {
        let k = trim_ws(pieces[0]);
        if k.len() > 0 && contains_seq(body, lowered[0]) {
            Some(k)
        } else {
            first_rule_with(pieces.drop_first(), lowered.drop_first(), body)
        }
    }
}

/// The lowercase form of each piece, trimmed.
pub open spec fn lowered_rules(pieces: Seq<Seq<char>>) -> Seq<Seq<char>> {
    Seq::new(pieces.len(), |i: int| lowercase(trim_ws(pieces[i])))
}

proof fn lemma_first_rule_with(pieces: Seq<Seq<char>>, body: Seq<char>)
    ensures
        first_rule(pieces, body) == first_rule_with(pieces, lowered_rules(pieces), body),
    decreases pieces.len(),
{
    if pieces.len() > 0 {
        assert(lowered_rules(pieces).drop_first() =~= lowered_rules(pieces.drop_first()));
        lemma_first_rule_with(pieces.drop_first(), body);
    }
}

/// Picks the rule that matches `body`, given each rule piece and its
/// trimmed lowercase form.
pub fn pick_rule(pieces: &Vec<Vec<char>>, lowered: &Vec<Vec<char>>, body: &Vec<char>) -> (r: Option<String>)
    requires
        pieces.len() == lowered.len(),
    ensures
        crate::notices::opt_str_view(r) == first_rule_with(seqs_of(pieces@), seqs_of(lowered@), body@),
{
    let ghost all = seqs_of(pieces@);
    let ghost low = seqs_of(lowered@);
    let n = pieces.len();
    let mut j: usize = 0;
    assert(all.skip(0) =~= all);
    assert(low.skip(0) =~= low);
    while j < n
        invariant
            n == pieces.len(),
            n == lowered.len(),
            all == seqs_of(pieces@),
            low == seqs_of(lowered@),
            j <= n,
            first_rule_with(all, low, body@) == first_rule_with(all.skip(j as int), low.skip(j as int), body@),
        decreases n - j,
    {
        let ghost rest = all.skip(j as int);
        let ghost lrest = low.skip(j as int);
        assert(rest[0] == pieces@[j as int]@);
        assert(lrest[0] == lowered@[j as int]@);
        assert(rest.drop_first() =~= all.skip(j + 1));
        assert(lrest.drop_first() =~= low.skip(j + 1));
        let k = trim(&pieces[j]);
        if k.len() > 0 && contains(body, &lowered[j]) {
            return Some(string_of(&k));
        }
        j += 1;
    }
    None
}

pub fn matched_keyword(keywords: &str, title: &str, excerpt: &str) -> (r: Option<String>)
    ensures
        crate::notices::opt_str_view(r) == matched_rule(keywords@, title@, excerpt@),
{
    let mut b: Vec<char> = Vec::new();
    push_str(&mut b, title);
    b.push(' ');
    push_str(&mut b, excerpt);
    assert(b@ =~= title@ + seq![' '] + excerpt@);
    let lower = to_lowercase(string_of(&b).as_str());
    let body = chars_of(lower.as_str());
    let pieces = split_char(&chars_of(keywords), ',');
    let ghost all = seqs_of(pieces@);
    let n = pieces.len();
    let mut lowered: Vec<Vec<char>> = Vec::new();
    let mut j: usize = 0;
    while j < n
        invariant
            n == pieces.len(),
            all == seqs_of(pieces@),
            j <= n,
            lowered.len() == j,
            seqs_of(lowered@) == lowered_rules(all).take(j as int),
        decreases n - j,
    {
        let ghost before = seqs_of(lowered@);
        let k = trim(&pieces[j]);
        let lk = to_lowercase(string_of(&k).as_str());
        lowered.push(chars_of(lk.as_str()));
        assert(all[j as int] == pieces@[j as int]@);
        assert(seqs_of(lowered@) =~= before.push(lowercase(trim_ws(all[j as int]))));
        assert(seqs_of(lowered@) =~= lowered_rules(all).take(j + 1));
        j += 1;
    }
    assert(lowered_rules(all).take(n as int) =~= lowered_rules(all));
    proof {
        lemma_first_rule_with(all, body@);
    }
    pick_rule(&pieces, &lowered, &body)
}

/// A card's title: the notice's title, or `Matched change from <vendor>`
/// when the notice has none.
pub open spec fn action_title(title: Seq<char>, vendor: Seq<char>) -> Seq<char> {
    if title.len() == 0 {
        "Matched change from "@ + vendor
    } else {
        title
    }
}

pub fn action_title_of(title: &str, vendor: &str) -> (r: String)
    ensures
        r@ == action_title(title@, vendor@),
{
    if title.is_empty() {
        let mut t: Vec<char> = Vec::new();
        push_str(&mut t, "Matched change from ");
        push_str(&mut t, vendor);
        string_of(&t)
    } else {
        String::from_str(title)
    }
}

/// The key that identifies a notice: SHA-256 of its title, a newline and
/// its link.
pub open spec fn notice_key_spec(title: Seq<char>, url: Seq<char>) -> Seq<char> {
    sha256_hex_spec(title + seq!['\n'] + url)
}

pub fn notice_key(title: &str, url: &str) -> (r: String)
    ensures
        r@ == notice_key_spec(title@, url@),
        crate::digest::is_fingerprint(r@),
{
    let mut t: Vec<char> = Vec::new();
    push_str(&mut t, title);
    t.push('\n');
    push_str(&mut t, url);
    assert(t@ =~= title@ + seq!['\n'] + url@);
    sha256_hex(string_of(&t).as_str())
}

/// At most the first 420 characters of an excerpt.
pub open spec fn excerpt_preview(e: Seq<char>) -> Seq<char> {
    if e.len() > 420 {
        e.take(420)
    } else {
        e
    }
}

/// A dashboard action card, as the scan stores it.
#[derive(Debug)]
pub struct ActionDraft {
    pub notice_key: String,
    pub title: String,
    pub excerpt: String,
    pub matched: String,
    pub url: String,
    pub owner: String,
    pub version: String,
    pub command: String,
}

pub ghost struct ActionDraftView {
    pub notice_key: Seq<char>,
    pub title: Seq<char>,
    pub excerpt: Seq<char>,
    pub matched: Seq<char>,
    pub url: Seq<char>,
    pub owner: Seq<char>,
    pub version: Seq<char>,
    pub command: Seq<char>,
}

impl View for ActionDraft {
    type V = ActionDraftView;

    open spec fn view(&self) -> ActionDraftView {
        ActionDraftView {
            notice_key: self.notice_key@,
            title: self.title@,
            excerpt: self.excerpt@,
            matched: self.matched@,
            url: self.url@,
            owner: self.owner@,
            version: self.version@,
            command: self.command@,
        }
    }
}

/// The card a notice yields for a watch: none unless a keyword rule
/// matches; keyed by the notice's own title and link; carrying at most 420
/// characters of excerpt and the watch's owner, version and check command.
pub open spec fn planned_action(w: NewWatch, n: Notice) -> Option<ActionDraftView> {
    match matched_rule(w.keywords@, n.title@, n.excerpt@) {
        None => None,
        Some(k) => Some(
            ActionDraftView {
                notice_key: notice_key_spec(n.title@, n.url@),
                title: action_title(n.title@, w.vendor@),
                excerpt: excerpt_preview(n.excerpt@),
                matched: k,
                url: n.url@,
                owner: w.owner@,
                version: w.version@,
                command: w.command@,
            },
        ),
    }
}

/// The matching half of `record_matches` for one notice.
pub fn plan_action(watch: &NewWatch, notice: &Notice) -> (r: Option<ActionDraft>)
    ensures
        match r {
            Some(a) => planned_action(*watch, *notice) == Some(a@),
            None => planned_action(*watch, *notice) is None,
        },
{
    let rule = match matched_keyword(watch.keywords.as_str(), notice.title.as_str(), notice.excerpt.as_str()) {
        None => return None,
        Some(k) => k,
    };
    let key = notice_key(notice.title.as_str(), notice.url.as_str());
    let title = action_title_of(notice.title.as_str(), watch.vendor.as_str());
    let e = chars_of(notice.excerpt.as_str());
    let mut preview: Vec<char> = Vec::new();
    let mut i: usize = 0;
    while i < e.len() && i < 420
        invariant
            i <= e.len(),
            i <= 420,
            preview@ == e@.take(i as int),
        decreases e.len() - i,
    {
        preview.push(e[i]);
        i += 1;
        assert(preview@ =~= e@.take(i as int));
    }
    if e.len() <= 420 {
        assert(e@.take(e.len() as int) =~= e@);
    }
    Some(ActionDraft {
        notice_key: key,
        title,
        excerpt: string_of(&preview),
        matched: rule,
        url: notice.url.clone(),
        owner: watch.owner.clone(),
        version: watch.version.clone(),
        command: watch.command.clone(),
    })
}

/// A feed needs reading again only when its content hash changed.
pub fn content_changed(last_hash: Option<&str>, hash: &str) -> (r: bool)
    ensures
        r == match last_hash {
            Some(h) => h@ != hash@,
            None => true,
        },
{
    match last_hash {
        None => true,
        Some(h) => !crate::text::same_chars(&chars_of(h), &chars_of(hash)),
    }
}

/// The line reported for a feed that could not be read.
pub fn failure_line(vendor: &str, message: &str) -> (r: String)
    ensures
        r@ == vendor@ + ": "@ + message@,
{
    let mut t: Vec<char> = Vec::new();
    push_str(&mut t, vendor);
    push_str(&mut t, ": ");
    push_str(&mut t, message);
    string_of(&t)
}

/// The scan's closing message.
pub open spec fn scan_message_spec(made: nat, failures: nat) -> Seq<char> {
    if failures == 0 {
        "Scan complete. "@ + decimal(made) + " new action card(s)."@
    } else {
        "Scan finished with "@ + decimal(failures) + " feed error(s). Fix the listed address and scan again."@
    }
}

pub fn scan_message(made: u64, failures: u64) -> (r: String)
    ensures
        r@ == scan_message_spec(made as nat, failures as nat),
{
    let mut t: Vec<char> = Vec::new();
    if failures == 0 {
        push_str(&mut t, "Scan complete. ");
        push_decimal(&mut t, made);
        push_str(&mut t, " new action card(s).");
    } else {
        push_str(&mut t, "Scan finished with ");
        push_decimal(&mut t, failures);
        push_str(&mut t, " feed error(s). Fix the listed address and scan again.");
    }
    string_of(&t)
}


/// The keyword rule a notice matches is the first comma-separated piece of
/// the watch's keywords that, trimmed, is not empty and whose lowercase
/// form occurs in the lowercase of the notice's title, a space and its
/// excerpt; the rule comes back trimmed but otherwise as written. There is
/// none when no piece qualifies.
pub proof fn law_matched_rule(keywords: Seq<char>, title: Seq<char>, excerpt: Seq<char>)
    ensures
        ({
            let pieces = split_on(keywords, ',');
            let body = lowercase(title + seq![' '] + excerpt);
            match matched_rule(keywords, title, excerpt) {
                Some(k) => exists|i: int|
                    0 <= i < pieces.len() && k == trim_ws(#[trigger] pieces[i]) && k.len() > 0 && contains_seq(
                        body,
                        lowercase(k),
                    ) && forall|j: int|
                        0 <= j < i ==> !(trim_ws(#[trigger] pieces[j]).len() > 0 && contains_seq(
                            body,
                            lowercase(trim_ws(pieces[j])),
                        )),
                None => forall|i: int|
                    0 <= i < pieces.len() ==> !(trim_ws(#[trigger] pieces[i]).len() > 0 && contains_seq(
                        body,
                        lowercase(trim_ws(pieces[i])),
                    )),
            }
        }),
{
    lemma_first_rule(split_on(keywords, ','), lowercase(title + seq![' '] + excerpt));
}

proof fn lemma_first_rule(pieces: Seq<Seq<char>>, body: Seq<char>)
    ensures
        match first_rule(pieces, body) {
            Some(k) => exists|i: int|
                0 <= i < pieces.len() && k == trim_ws(#[trigger] pieces[i]) && k.len() > 0 && contains_seq(
                    body,
                    lowercase(k),
                ) && forall|j: int|
                    0 <= j < i ==> !(trim_ws(#[trigger] pieces[j]).len() > 0 && contains_seq(
                        body,
                        lowercase(trim_ws(pieces[j])),
                    )),
            None => forall|i: int|
                0 <= i < pieces.len() ==> !(trim_ws(#[trigger] pieces[i]).len() > 0 && contains_seq(
                    body,
                    lowercase(trim_ws(pieces[i])),
                )),
        },
    decreases pieces.len(),
{
    if pieces.len() > 0 {
        let rest = pieces.drop_first();
        lemma_first_rule(rest, body);
        let k0 = trim_ws(pieces[0]);
        if !(k0.len() > 0 && contains_seq(body, lowercase(k0))) {
            match first_rule(rest, body) {
                Some(k) => {
                    let i = choose|i: int|
                        0 <= i < rest.len() && k == trim_ws(#[trigger] rest[i]) && k.len() > 0 && contains_seq(
                            body,
                            lowercase(k),
                        ) && forall|j: int|
                            0 <= j < i ==> !(trim_ws(#[trigger] rest[j]).len() > 0 && contains_seq(
                                body,
                                lowercase(trim_ws(rest[j])),
                            ));
                    assert(pieces[i + 1] == rest[i]);
                    assert forall|j: int| 0 <= j < i + 1 implies !(trim_ws(#[trigger] pieces[j]).len() > 0
                        && contains_seq(body, lowercase(trim_ws(pieces[j])))) by {
                        if j > 0 {
                            assert(pieces[j] == rest[j - 1]);
                        }
                    }
                },
                None => {
                    assert forall|i: int| 0 <= i < pieces.len() implies !(trim_ws(#[trigger] pieces[i]).len() > 0
                        && contains_seq(body, lowercase(trim_ws(pieces[i])))) by {
                        if i > 0 {
                            assert(pieces[i] == rest[i - 1]);
                        }
                    }
                },
            }
        }
    }
}

/// The card a matching notice yields for a watch: keyed by the SHA-256 of
/// the notice's own title, a newline and its link; titled with the notice's
/// title, or `Matched change from <vendor>` when it has none; carrying the
/// first 420 characters of the excerpt (all of it when shorter), the rule
/// matched, the notice's link, and the watch's owner, version and check
/// command. A notice that matches no rule yields no card.
pub proof fn law_planned_action(w: NewWatch, n: Notice)
    ensures
        planned_action(w, n) is None <==> matched_rule(w.keywords@, n.title@, n.excerpt@) is None,
        planned_action(w, n) matches Some(a) ==> {
            &&& a.notice_key == sha256_hex_spec(n.title@ + seq!['\n'] + n.url@)
            &&& a.title == if n.title@.len() == 0 {
                "Matched change from "@ + w.vendor@
            } else {
                n.title@
            }
            &&& a.excerpt.len() == if n.excerpt@.len() > 420 {
                420
            } else {
                n.excerpt@.len()
            }
            &&& n.excerpt@.take(a.excerpt.len() as int) == a.excerpt
            &&& Some(a.matched) == matched_rule(w.keywords@, n.title@, n.excerpt@)
            &&& a.url == n.url@
            &&& a.owner == w.owner@
            &&& a.version == w.version@
            &&& a.command == w.command@
        },
{
    if n.excerpt@.len() <= 420 {
        assert(n.excerpt@.take(n.excerpt@.len() as int) =~= n.excerpt@);
    }
}
} // verus!
