//! The repository CLI: Markdown action cards for matching notices, a state
//! file that remembers which notices already have cards, and
//! acknowledgement of a card by its ID.
use vstd::prelude::*;
use crate::text::{chars_of, contains, contains_seq, join, occurs_at, no_start_inside_from, lemma_replace_absent, lemma_replace_changed, lemma_replace_leaves_none, join_with, push_all, push_str, replace, replace_all, same_chars, seqs_of, string_of, trim, trim_ws};
use crate::notices::Notice;
use crate::watch::NewWatch;
use crate::digest::sha256_hex_spec;
use crate::matching::{action_title, action_title_of, matched_keyword, matched_rule, notice_key, notice_key_spec};

verus! {

/// One card the CLI has written.
#[derive(Clone, Debug)]
pub struct CliAction {
    pub id: String,
    pub notice_hash: String,
    pub acknowledged: bool,
}

/// What the CLI remembers between runs.
#[derive(Clone, Debug)]
pub struct CliState {
    pub actions: Vec<CliAction>,
}

pub ghost struct CliActionView {
    pub id: Seq<char>,
    pub notice_hash: Seq<char>,
    pub acknowledged: bool,
}

pub open spec fn action_view(a: CliAction) -> CliActionView {
    CliActionView { id: a.id@, notice_hash: a.notice_hash@, acknowledged: a.acknowledged }
}

pub open spec fn state_view(s: CliState) -> Seq<CliActionView> {
    Seq::new(s.actions@.len(), |i: int| action_view(s.actions@[i]))
}

/// A card to write: its ID, the notice hash it records and its Markdown.
#[derive(Debug)]
pub struct CliCard {
    pub id: String,
    pub notice_hash: String,
    pub text: String,
}

pub ghost struct CliCardView {
    pub id: Seq<char>,
    pub notice_hash: Seq<char>,
    pub text: Seq<char>,
}

pub open spec fn card_view(c: CliCard) -> CliCardView {
    CliCardView { id: c.id@, notice_hash: c.notice_hash@, text: c.text@ }
}

/// The affected dependency as a card shows it.
pub open spec fn dependency_label(version: Seq<char>) -> Seq<char> {
    if trim_ws(version).len() == 0 {
        "Not recorded"@
    } else {
        version
    }
}

/// The Markdown of a card.
pub open spec fn card_text(
    title: Seq<char>,
    id: Seq<char>,
    rule: Seq<char>,
    owner: Seq<char>,
    dependency: Seq<char>,
    command: Seq<char>,
    url: Seq<char>,
    excerpt: Seq<char>,
) -> Seq<char> {
    "# "@ + title + "\n\n- **Action ID:** `"@ + id + "`\n- **Status:** Needs acknowledgement\n- **Matched rule:** "@
        + rule + "\n- **Owner:** "@ + owner + "\n- **Affected dependency:** "@ + dependency
        + "\n- **Check:** `"@ + command + "`\n- **Notice:** "@ + url + "\n\n"@ + excerpt + "\n"@
}

/// Some remembered card records notice hash `h`.
pub open spec fn has_hash(actions: Seq<CliActionView>, h: Seq<char>) -> bool {
    exists|i: int| 0 <= i < actions.len() && #[trigger] actions[i].notice_hash == h
}

/// One notice of one watch during a CLI scan: the cards remembered
/// afterwards and the card to write, if any. A notice that matches no rule,
/// or whose hash is already remembered, changes nothing. Otherwise the card
/// is keyed by the hash of its title (after defaulting) and link, its ID is
/// the hash's first 12 characters, and it is remembered unacknowledged.
pub open spec fn scan_step(actions: Seq<CliActionView>, w: NewWatch, n: Notice) -> (Seq<CliActionView>, Option<CliCardView>) {
    match matched_rule(w.keywords@, n.title@, n.excerpt@) {
        None => (actions, None),
        Some(rule) => {
            let title = action_title(n.title@, w.vendor@);
            let h = notice_key_spec(title, n.url@);
            if has_hash(actions, h) {
                (actions, None)
            } else {
                let id = h.take(12);
                (
                    actions.push(CliActionView { id, notice_hash: h, acknowledged: false }),
                    Some(
                        CliCardView {
                            id,
                            notice_hash: h,
                            text: card_text(
                                title,
                                id,
                                rule,
                                w.owner@,
                                dependency_label(w.version@),
                                w.command@,
                                n.url@,
                                n.excerpt@,
                            ),
                        },
                    ),
                )
            }
        },
    }
}

fn remembers_hash(state: &CliState, h: &Vec<char>) -> (r: bool)
    ensures
        r == has_hash(state_view(*state), h@),
{
    let ghost sv = state_view(*state);
    let n = state.actions.len();
    let mut i: usize = 0;
    while i < n
        invariant
            n == state.actions.len(),
            sv == state_view(*state),
            i <= n,
            forall|j: int| 0 <= j < i ==> #[trigger] sv[j].notice_hash != h@,
        decreases n - i,
    {
        assert(sv[i as int].notice_hash == state.actions@[i as int].notice_hash@);
        if same_chars(&chars_of(state.actions[i].notice_hash.as_str()), h) {
            return true;
        }
        i += 1;
    }
    false
}

/// Scans one notice of one watch into the CLI state (`cli_scan`'s inner
/// step).
pub fn cli_scan_notice(state: &mut CliState, watch: &NewWatch, notice: &Notice) -> (r: Option<CliCard>)
    ensures
        scan_step(state_view(*old(state)), *watch, *notice) == (
            state_view(*final(state)),
            match r {
                Some(c) => Some(card_view(c)),
                None => None,
            },
        ),
{
    let rule = match matched_keyword(watch.keywords.as_str(), notice.title.as_str(), notice.excerpt.as_str()) {
        None => return None,
        Some(k) => k,
    };
    let title = action_title_of(notice.title.as_str(), watch.vendor.as_str());
    let hash = notice_key(title.as_str(), notice.url.as_str());
    let h = chars_of(hash.as_str());
    if remembers_hash(state, &h) {
        return None;
    }
    let mut idv: Vec<char> = Vec::new();
    let mut i: usize = 0;
    while i < 12
        invariant
            h@.len() == 64,
            i <= 12,
            idv@ == h@.take(i as int),
        decreases 12 - i,
    {
        idv.push(h[i]);
        i += 1;
        assert(idv@ =~= h@.take(i as int));
    }
    let id = string_of(&idv);
    let version = chars_of(watch.version.as_str());
    let mut t: Vec<char> = Vec::new();
    push_str(&mut t, "# ");
    push_str(&mut t, title.as_str());
    push_str(&mut t, "\n\n- **Action ID:** `");
    push_all(&mut t, &idv);
    push_str(&mut t, "`\n- **Status:** Needs acknowledgement\n- **Matched rule:** ");
    push_str(&mut t, rule.as_str());
    push_str(&mut t, "\n- **Owner:** ");
    push_str(&mut t, watch.owner.as_str());
    push_str(&mut t, "\n- **Affected dependency:** ");
    if trim(&version).len() == 0 {
        push_str(&mut t, "Not recorded");
    } else {
        push_all(&mut t, &version);
    }
    push_str(&mut t, "\n- **Check:** `");
    push_str(&mut t, watch.command.as_str());
    push_str(&mut t, "`\n- **Notice:** ");
    push_str(&mut t, notice.url.as_str());
    push_str(&mut t, "\n\n");
    push_str(&mut t, notice.excerpt.as_str());
    push_str(&mut t, "\n");
    let ghost expected = card_text(
        title@,
        idv@,
        rule@,
        watch.owner@,
        dependency_label(watch.version@),
        watch.command@,
        notice.url@,
        notice.excerpt@,
    );
    assert(t@ =~= expected);
    let ghost old_sv = state_view(*state);
    state.actions.push(CliAction { id: id.clone(), notice_hash: hash.clone(), acknowledged: false });
    assert(state_view(*state) =~= old_sv.push(CliActionView { id: idv@, notice_hash: h@, acknowledged: false }));
    Some(CliCard { id, notice_hash: hash, text: string_of(&t) })
}

/// Rescanning a notice never writes a second card for it: the second step
/// changes nothing and writes nothing.
pub proof fn law_rescan_writes_no_duplicate(actions: Seq<CliActionView>, w: NewWatch, n: Notice)
    ensures
        scan_step(scan_step(actions, w, n).0, w, n) == (scan_step(actions, w, n).0, None::<CliCardView>),
{
    let s1 = scan_step(actions, w, n).0;
    if let Some(rule) = matched_rule(w.keywords@, n.title@, n.excerpt@) {
        let h = notice_key_spec(action_title(n.title@, w.vendor@), n.url@);
        if !has_hash(actions, h) {
            assert(s1[actions.len() as int].notice_hash == h);
        }
    }
}

/// A whole CLI scan: the cards remembered after scanning each (watch,
/// notice) pair in turn.
pub open spec fn scan_all(actions: Seq<CliActionView>, pairs: Seq<(NewWatch, Notice)>) -> Seq<CliActionView>
    decreases pairs.len(),
{
    if pairs.len() == 0 {
        actions
    } else {
        scan_all(scan_step(actions, pairs[0].0, pairs[0].1).0, pairs.drop_first())
    }
}

/// The cards a whole CLI scan writes, in order.
pub open spec fn scan_all_cards(actions: Seq<CliActionView>, pairs: Seq<(NewWatch, Notice)>) -> Seq<CliCardView>
    decreases pairs.len(),
{
    if pairs.len() == 0 {
        seq![]
    } else {
        let (next, card) = scan_step(actions, pairs[0].0, pairs[0].1);
        let rest = scan_all_cards(next, pairs.drop_first());
        match card {
            Some(c) => seq![c] + rest,
            None => rest,
        }
    }
}

/// No two remembered cards record the same notice hash.
pub open spec fn hashes_distinct(actions: Seq<CliActionView>) -> bool {
    forall|i: int, j: int|
        0 <= i < j < actions.len() ==> #[trigger] actions[i].notice_hash != #[trigger] actions[j].notice_hash
}

/// `b` keeps `a` unchanged at its front.
pub open spec fn extends(b: Seq<CliActionView>, a: Seq<CliActionView>) -> bool {
    a.len() <= b.len() && b.take(a.len() as int) == a
}

/// A card the scan adds: unacknowledged, with the first 12 characters of
/// its notice hash as its ID.
pub open spec fn fresh_action(a: CliActionView) -> bool {
    !a.acknowledged && a.id == a.notice_hash.take(12)
}

/// The notice hash a pair would be remembered under, when it matches.
pub open spec fn pair_hash(w: NewWatch, n: Notice) -> Option<Seq<char>> {
    match matched_rule(w.keywords@, n.title@, n.excerpt@) {
        None => None,
        Some(_) => Some(notice_key_spec(action_title(n.title@, w.vendor@), n.url@)),
    }
}

/// Every matching pair's hash is remembered.
pub open spec fn covers(actions: Seq<CliActionView>, pairs: Seq<(NewWatch, Notice)>) -> bool {
    forall|i: int|
        0 <= i < pairs.len() ==> (#[trigger] pair_hash(pairs[i].0, pairs[i].1) matches Some(h) ==> has_hash(actions, h))
}

proof fn lemma_extends_has_hash(a: Seq<CliActionView>, b: Seq<CliActionView>, h: Seq<char>)
    requires
        extends(b, a),
        has_hash(a, h),
    ensures
        has_hash(b, h),
{
    let i = choose|i: int| 0 <= i < a.len() && #[trigger] a[i].notice_hash == h;
    assert(b.take(a.len() as int)[i] == b[i]);
    assert(b[i].notice_hash == h);
}

proof fn lemma_scan_all_shape(actions: Seq<CliActionView>, pairs: Seq<(NewWatch, Notice)>)
    ensures
        extends(scan_all(actions, pairs), actions),
        forall|k: int|
            actions.len() <= k < scan_all(actions, pairs).len() ==> fresh_action(#[trigger] scan_all(actions, pairs)[k]),
        hashes_distinct(actions) ==> hashes_distinct(scan_all(actions, pairs)),
        covers(scan_all(actions, pairs), pairs),
    decreases pairs.len(),
{
    let s2 = scan_all(actions, pairs);
    if pairs.len() == 0 {
        assert(s2.take(actions.len() as int) =~= actions);
    } else {
        let (w, n) = (pairs[0].0, pairs[0].1);
        let mid = scan_step(actions, w, n).0;
        let rest = pairs.drop_first();
        lemma_scan_all_shape(mid, rest);
        // the step itself
        assert(extends(mid, actions) && (forall|k: int| actions.len() <= k < mid.len() ==> fresh_action(#[trigger] mid[k]))
            && (hashes_distinct(actions) ==> hashes_distinct(mid))
            && (pair_hash(w, n) matches Some(h) ==> has_hash(mid, h))) by {
            if let Some(h) = pair_hash(w, n) {
                if !has_hash(actions, h) {
                    assert(mid[actions.len() as int].notice_hash == h);
                    assert(mid.take(actions.len() as int) =~= actions);
                    if hashes_distinct(actions) {
                        assert forall|i: int, j: int| 0 <= i < j < mid.len() implies #[trigger] mid[i].notice_hash
                            != #[trigger] mid[j].notice_hash by {
                            if j == actions.len() {
                                assert(mid[i] == actions[i]);
                            }
                        }
                    }
                } else {
                    assert(mid.take(actions.len() as int) =~= actions);
                }
            } else {
                assert(mid.take(actions.len() as int) =~= actions);
            }
        }
        assert(s2.take(actions.len() as int) =~= actions) by {
            assert forall|k: int| 0 <= k < actions.len() implies s2.take(actions.len() as int)[k] == actions[k] by {
                assert(s2.take(mid.len() as int)[k] == mid[k]);
                assert(mid.take(actions.len() as int)[k] == actions[k]);
            }
        }
        assert forall|k: int| actions.len() <= k < s2.len() implies fresh_action(#[trigger] s2[k]) by {
            if k < mid.len() {
                assert(s2.take(mid.len() as int)[k] == mid[k]);
            }
        }
        assert forall|i: int| 0 <= i < pairs.len() implies (#[trigger] pair_hash(pairs[i].0, pairs[i].1) matches Some(h)
            ==> has_hash(s2, h)) by {
            if i == 0 {
                if let Some(h) = pair_hash(w, n) {
                    lemma_extends_has_hash(mid, s2, h);
                }
            } else {
                assert(pairs[i] == rest[i - 1]);
            }
        }
    }
}

proof fn lemma_covered_scan_changes_nothing(actions: Seq<CliActionView>, pairs: Seq<(NewWatch, Notice)>)
    requires
        covers(actions, pairs),
    ensures
        scan_all(actions, pairs) == actions,
        scan_all_cards(actions, pairs) == Seq::<CliCardView>::empty(),
    decreases pairs.len(),
{
    if pairs.len() > 0 {
        let rest = pairs.drop_first();
        assert(pair_hash(pairs[0].0, pairs[0].1) matches Some(h) ==> has_hash(actions, h));
        assert(scan_step(actions, pairs[0].0, pairs[0].1) == (actions, None::<CliCardView>));
        assert forall|i: int| 0 <= i < rest.len() implies (#[trigger] pair_hash(rest[i].0, rest[i].1) matches Some(h)
            ==> has_hash(actions, h)) by {
            assert(rest[i] == pairs[i + 1]);
        }
        lemma_covered_scan_changes_nothing(actions, rest);
    }
}

/// A whole scan keeps what was remembered: the earlier cards stay, unchanged
/// and in order, at the front; every card it adds is unacknowledged and
/// carries the first 12 characters of its notice hash as its ID; and no two
/// cards come to share a notice hash.
pub proof fn law_scan_keeps_earlier_cards(actions: Seq<CliActionView>, pairs: Seq<(NewWatch, Notice)>)
    ensures
        extends(scan_all(actions, pairs), actions),
        forall|k: int|
            actions.len() <= k < scan_all(actions, pairs).len() ==> fresh_action(#[trigger] scan_all(actions, pairs)[k]),
        hashes_distinct(actions) ==> hashes_distinct(scan_all(actions, pairs)),
{
    lemma_scan_all_shape(actions, pairs);
}

/// Scanning the same notices a second time changes nothing and writes no
/// card.
pub proof fn law_second_scan_adds_nothing(actions: Seq<CliActionView>, pairs: Seq<(NewWatch, Notice)>)
    ensures
        scan_all(scan_all(actions, pairs), pairs) == scan_all(actions, pairs),
        scan_all_cards(scan_all(actions, pairs), pairs) == Seq::<CliCardView>::empty(),
{
    lemma_scan_all_shape(actions, pairs);
    lemma_covered_scan_changes_nothing(scan_all(actions, pairs), pairs);
}

/// The first remembered card, from index `k` on, with ID `id`.
pub open spec fn first_with_id_from(actions: Seq<CliActionView>, id: Seq<char>, k: int) -> Option<int>
    decreases actions.len() - k,
{
    if k < 0 || k >= actions.len() {
        None
    } else if actions[k].id == id {
        Some(k)
    } else {
        first_with_id_from(actions, id, k + 1)
    }
}

/// The first remembered card with ID `id`.
pub open spec fn first_with_id(actions: Seq<CliActionView>, id: Seq<char>) -> Option<int> {
    first_with_id_from(actions, id, 0)
}

proof fn lemma_first_from_found(actions: Seq<CliActionView>, id: Seq<char>, k: int, i: int)
    requires
        0 <= k <= i < actions.len(),
        actions[i].id == id,
        forall|j: int| k <= j < i ==> actions[j].id != id,
    ensures
        first_with_id_from(actions, id, k) == Some(i),
    decreases i - k,
{
    if k < i {
        lemma_first_from_found(actions, id, k + 1, i);
    }
}

proof fn lemma_first_from_shape(actions: Seq<CliActionView>, id: Seq<char>, k: int)
    requires
        0 <= k,
    ensures
        first_with_id_from(actions, id, k) matches Some(i) ==> k <= i < actions.len() && actions[i].id
            == id && forall|j: int| k <= j < i ==> actions[j].id != id,
    decreases actions.len() - k,
{
    if k < actions.len() && actions[k].id != id {
        lemma_first_from_shape(actions, id, k + 1);
    }
}

proof fn lemma_first_from_none(actions: Seq<CliActionView>, id: Seq<char>, k: int)
    requires
        0 <= k,
        forall|j: int| k <= j < actions.len() ==> actions[j].id != id,
    ensures
        first_with_id_from(actions, id, k) is None,
    decreases actions.len() - k,
{
    if k < actions.len() {
        lemma_first_from_none(actions, id, k + 1);
    }
}

pub open spec fn unknown_action_message() -> Seq<char> {
    "that action ID does not exist in this repository state"@
}

/// The index of the first remembered card with ID `id`.
pub fn find_action(state: &CliState, id: &str) -> (r: Result<usize, String>)
    ensures
        match r {
            Ok(i) => i < state.actions@.len() && first_with_id(state_view(*state), id@) == Some(i as int),
            Err(e) => e@ == unknown_action_message() && first_with_id(state_view(*state), id@) is None,
        },
{
    let want = chars_of(id);
    let ghost sv = state_view(*state);
    let n = state.actions.len();
    let mut i: usize = 0;
    while i < n
        invariant
            n == state.actions.len(),
            sv == state_view(*state),
            want@ == id@,
            i <= n,
            forall|j: int| 0 <= j < i ==> sv[j].id != id@,
        decreases n - i,
    {
        assert(sv[i as int].id == state.actions@[i as int].id@);
        if same_chars(&chars_of(state.actions[i].id.as_str()), &want) {
            proof {
                lemma_first_from_found(sv, id@, 0, i as int);
            }
            return Ok(i);
        }
        i += 1;
    }
    proof {
        lemma_first_from_none(sv, id@, 0);
    }
    Err(String::from_str("that action ID does not exist in this repository state"))
}

/// Marks card `index` acknowledged; nothing else changes.
pub fn mark_acknowledged(state: &mut CliState, index: usize)
    requires
        index < old(state).actions@.len(),
    ensures
        state_view(*final(state)) == state_view(*old(state)).update(
            index as int,
            CliActionView { acknowledged: true, ..state_view(*old(state))[index as int] },
        ),
{
    let ghost old_sv = state_view(*state);
    let mut actions: Vec<CliAction> = Vec::new();
    std::mem::swap(&mut actions, &mut state.actions);
    let mut a = actions.remove(index);
    a.acknowledged = true;
    actions.insert(index, a);
    std::mem::swap(&mut actions, &mut state.actions);
    assert(state_view(*state) =~= old_sv.update(index as int, CliActionView { acknowledged: true, ..old_sv[index as int] }));
}

/// Acknowledging an ID: the first card with that ID becomes acknowledged.
pub open spec fn ack_step(actions: Seq<CliActionView>, id: Seq<char>) -> Option<Seq<CliActionView>> {
    match first_with_id(actions, id) {
        None => None,
        Some(i) => Some(actions.update(i, CliActionView { acknowledged: true, ..actions[i] })),
    }
}

/// Acknowledges the first card with ID `id` (the state half of `cli_ack`).
pub fn acknowledge_action(state: &mut CliState, id: &str) -> (r: Result<(), String>)
    ensures
        match ack_step(state_view(*old(state)), id@) {
            None => r matches Err(e) && e@ == unknown_action_message() && state_view(*final(state))
                == state_view(*old(state)),
            Some(s1) => r is Ok && state_view(*final(state)) == s1,
        },
{
    let i = find_action(state, id)?;
    mark_acknowledged(state, i);
    Ok(())
}

/// Acknowledging twice is acknowledging once.
pub proof fn law_ack_is_idempotent(actions: Seq<CliActionView>, id: Seq<char>)
    ensures
        ack_step(actions, id) matches Some(s1) ==> ack_step(s1, id) == Some(s1),
{
    lemma_first_from_shape(actions, id, 0);
    if let Some(i) = first_with_id(actions, id) {
        let s1 = actions.update(i, CliActionView { acknowledged: true, ..actions[i] });
        assert(s1[i].id == id);
        assert forall|j: int| 0 <= j < i implies s1[j].id != id by {
            assert(s1[j] == actions[j]);
        }
        lemma_first_from_found(s1, id, 0, i);
        assert(s1.update(i, CliActionView { acknowledged: true, ..s1[i] }) =~= s1);
    }
}

/// The Markdown with its status lines switched to acknowledged; refused when
/// it has neither status.
pub open spec fn card_ack_spec(card: Seq<char>) -> Result<Seq<char>, Seq<char>> {
    let updated = replace_all(card, "**Status:** Needs acknowledgement"@, "**Status:** Acknowledged"@);
    if updated == card && !contains_seq(card, "**Status:** Acknowledged"@) {
        Err("the repository action card has no acknowledgement status"@)
    } else {
        Ok(updated)
    }
}

/// Acknowledging a card twice is acknowledging it once: the acknowledged
/// Markdown is accepted again and comes back unchanged.
pub proof fn law_card_ack_is_idempotent(card: Seq<char>)
    ensures
        card_ack_spec(card) matches Ok(u) ==> card_ack_spec(u) == Ok::<Seq<char>, Seq<char>>(u),
{
    let pat = "**Status:** Needs acknowledgement"@;
    let to = "**Status:** Acknowledged"@;
    reveal_strlit("**Status:** Needs acknowledgement");
    reveal_strlit("**Status:** Acknowledged");
    if let Ok(u) = card_ack_spec(card) {
        assert(no_start_inside_from(to, pat, 0)) by {
            reveal_with_fuel(no_start_inside_from, 25);
            reveal_with_fuel(crate::text::differ_within, 4);
        }
        assert(no_start_inside_from(pat, to, 1)) by {
            reveal_with_fuel(no_start_inside_from, 35);
            reveal_with_fuel(crate::text::differ_within, 4);
        }
        lemma_replace_leaves_none(card, pat, to);
        lemma_replace_absent(u, pat, to);
        if u != card {
            lemma_replace_changed(card, pat, to);
        }
    }
}

pub open spec fn string_result_view(r: Result<String, String>) -> Result<Seq<char>, Seq<char>> {
    match r {
        Ok(s) => Ok(s@),
        Err(e) => Err(e@),
    }
}

pub fn acknowledge_card(card: &str) -> (r: Result<String, String>)
    ensures
        string_result_view(r) == card_ack_spec(card@),
{
    let c = chars_of(card);
    let pat = chars_of("**Status:** Needs acknowledgement");
    let to = chars_of("**Status:** Acknowledged");
    proof {
        reveal_strlit("**Status:** Needs acknowledgement");
    }
    let updated = replace(&c, &pat, &to);
    if same_chars(&updated, &c) && !contains(&c, &to) {
        return Err(String::from_str("the repository action card has no acknowledgement status"));
    }
    Ok(string_of(&updated))
}

proof fn lemma_first_from_exists(actions: Seq<CliActionView>, id: Seq<char>, k: int, i: int)
    requires
        0 <= k <= i < actions.len(),
        actions[i].id == id,
    ensures
        first_with_id_from(actions, id, k) is Some,
    decreases i - k,
{
    if actions[k].id != id {
        lemma_first_from_exists(actions, id, k + 1, i);
    }
}

/// Replacing a pattern by something shorter never lengthens a text, and
/// shortens it wherever the pattern occurs.
proof fn lemma_replace_shortens(s: Seq<char>, p: Seq<char>, t: Seq<char>)
    requires
        p.len() > 0,
        t.len() < p.len(),
    ensures
        replace_all(s, p, t).len() <= s.len(),
        contains_seq(s, p) ==> replace_all(s, p, t).len() < s.len(),
    decreases s.len(),
{
    if s.len() < p.len() {
    } else if s.take(p.len() as int) == p {
        lemma_replace_shortens(s.skip(p.len() as int), p, t);
    } else {
        lemma_replace_shortens(s.drop_first(), p, t);
        if contains_seq(s, p) {
            let i = choose|i: int| occurs_at(s, p, i);
            if i == 0 {
                assert(s.subrange(0, p.len() as int) =~= s.take(p.len() as int));
            }
            assert(s.drop_first().subrange(i - 1, i - 1 + p.len()) =~= s.subrange(i, i + p.len()));
            assert(occurs_at(s.drop_first(), p, i - 1));
        }
    }
}

/// Every card the scan writes carries the status that acknowledgement
/// switches.
proof fn lemma_card_needs_acknowledgement(
    title: Seq<char>,
    id: Seq<char>,
    rule: Seq<char>,
    owner: Seq<char>,
    dependency: Seq<char>,
    command: Seq<char>,
    url: Seq<char>,
    excerpt: Seq<char>,
)
    ensures
        contains_seq(
            card_text(title, id, rule, owner, dependency, command, url, excerpt),
            "**Status:** Needs acknowledgement"@,
        ),
{
    let text = card_text(title, id, rule, owner, dependency, command, url, excerpt);
    let pre = "# "@ + title + "\n\n- **Action ID:** `"@ + id;
    let lit = "`\n- **Status:** Needs acknowledgement\n- **Matched rule:** "@;
    let rest = rule + "\n- **Owner:** "@ + owner + "\n- **Affected dependency:** "@ + dependency
        + "\n- **Check:** `"@ + command + "`\n- **Notice:** "@ + url + "\n\n"@ + excerpt + "\n"@;
    let pat = "**Status:** Needs acknowledgement"@;
    reveal_strlit("`\n- **Status:** Needs acknowledgement\n- **Matched rule:** ");
    reveal_strlit("**Status:** Needs acknowledgement");
    assert(text =~= (pre + lit) + rest);
    assert(lit.subrange(4, 4 + pat.len() as int) =~= pat);
    let k: int = pre.len() as int + 4;
    assert(text.subrange(k, k + pat.len() as int) =~= pat);
    assert(occurs_at(text, pat, k));
}

/// A card that a scan writes can be acknowledged by the ID it shows: some
/// remembered card has that ID, and the card's Markdown carries the status
/// that acknowledgement switches.
pub proof fn law_scanned_card_can_be_acknowledged(actions: Seq<CliActionView>, w: NewWatch, n: Notice)
    ensures
        scan_step(actions, w, n).1 matches Some(c) ==> ack_step(scan_step(actions, w, n).0, c.id) is Some
            && card_ack_spec(c.text) is Ok,
{
    if let Some(c) = scan_step(actions, w, n).1 {
        let s1 = scan_step(actions, w, n).0;
        let rule = matched_rule(w.keywords@, n.title@, n.excerpt@)->0;
        let title = action_title(n.title@, w.vendor@);
        assert(s1[actions.len() as int].id == c.id);
        lemma_first_from_exists(s1, c.id, 0, actions.len() as int);
        lemma_card_needs_acknowledgement(
            title,
            c.id,
            rule,
            w.owner@,
            dependency_label(w.version@),
            w.command@,
            n.url@,
            n.excerpt@,
        );
        reveal_strlit("**Status:** Needs acknowledgement");
        reveal_strlit("**Status:** Acknowledged");
        lemma_replace_shortens(c.text, "**Status:** Needs acknowledgement"@, "**Status:** Acknowledged"@);
    }
}

/// The CLI scan's report.
pub open spec fn scan_report_spec(lines: Seq<Seq<char>>) -> Seq<char> {
    if lines.len() == 0 {
        "# Integration changelog scan\n\nNo new matching notices found."@
    } else {
        "# Integration changelog scan\n\n"@ + join_with(lines, "\n"@)
    }
}

pub fn scan_report(lines: &Vec<String>) -> (r: String)
    ensures
        r@ == scan_report_spec(crate::config::strings_view(lines@)),
{
    if lines.len() == 0 {
        return String::from_str("# Integration changelog scan\n\nNo new matching notices found.");
    }
    let mut parts: Vec<Vec<char>> = Vec::new();
    let n = lines.len();
    let mut j: usize = 0;
    while j < n
        invariant
            n == lines.len(),
            j <= n,
            seqs_of(parts@) == crate::config::strings_view(lines@).take(j as int),
        decreases n - j,
    {
        let ghost old_parts = parts@;
        let c = chars_of(lines[j].as_str());
        parts.push(c);
        assert(seqs_of(parts@) =~= seqs_of(old_parts).push(c@));
        assert(seqs_of(parts@) =~= crate::config::strings_view(lines@).take(j + 1));
        j += 1;
    }
    assert(crate::config::strings_view(lines@).take(n as int) =~= crate::config::strings_view(lines@));
    let mut t: Vec<char> = Vec::new();
    push_str(&mut t, "# Integration changelog scan\n\n");
    let body = join(&parts, &chars_of("\n"));
    push_all(&mut t, &body);
    string_of(&t)
}


/// One notice of one watch during a CLI scan. Without a matching rule, or
/// when a remembered card already records the notice's hash (SHA-256 of its
/// title, defaulted to `Matched change from <vendor>`, a newline and its
/// link), nothing changes and no card is written. Otherwise one
/// unacknowledged card is remembered after the others, with the first 12
/// characters of the hash as its ID, and its Markdown is written: title,
/// ID, status, rule, owner, dependency (`Not recorded` for a blank
/// version), check command, link and excerpt.
pub proof fn law_scan_step(actions: Seq<CliActionView>, w: NewWatch, n: Notice)
    ensures
        ({
            let title = if n.title@.len() == 0 {
                "Matched change from "@ + w.vendor@
            } else {
                n.title@
            };
            let h = sha256_hex_spec(title + seq!['\n'] + n.url@);
            let rule = match matched_rule(w.keywords@, n.title@, n.excerpt@) {
                Some(k) => k,
                None => seq![],
            };
            let (next, card) = scan_step(actions, w, n);
            &&& matched_rule(w.keywords@, n.title@, n.excerpt@) is None ==> next == actions && card is None
            &&& (exists|i: int| 0 <= i < actions.len() && #[trigger] actions[i].notice_hash == h) ==> next == actions
                && card is None
            &&& (matched_rule(w.keywords@, n.title@, n.excerpt@) is Some && !(exists|i: int|
                0 <= i < actions.len() && #[trigger] actions[i].notice_hash == h)) ==> {
                &&& next == actions.push(CliActionView { id: h.take(12), notice_hash: h, acknowledged: false })
                &&& card matches Some(c) && c.id == h.take(12) && c.notice_hash == h && c.text == "# "@ + title
                    + "\n\n- **Action ID:** `"@ + h.take(12) + "`\n- **Status:** Needs acknowledgement\n- **Matched rule:** "@
                    + rule + "\n- **Owner:** "@ + w.owner@ + "\n- **Affected dependency:** "@ + (if trim_ws(
                    w.version@,
                ).len() == 0 {
                    "Not recorded"@
                } else {
                    w.version@
                }) + "\n- **Check:** `"@ + w.command@ + "`\n- **Notice:** "@ + n.url@ + "\n\n"@ + n.excerpt@
                    + "\n"@
            }
        }),
{
}

/// The card an ID names is the first remembered card with that ID; there
/// is none when no card has it.
pub proof fn law_first_with_id(actions: Seq<CliActionView>, id: Seq<char>)
    ensures
        match first_with_id(actions, id) {
            Some(i) => 0 <= i < actions.len() && actions[i].id == id && forall|j: int|
                0 <= j < i ==> #[trigger] actions[j].id != id,
            None => forall|j: int| 0 <= j < actions.len() ==> #[trigger] actions[j].id != id,
        },
{
    lemma_first_from_shape(actions, id, 0);
    if first_with_id(actions, id) is None {
        assert forall|j: int| 0 <= j < actions.len() implies #[trigger] actions[j].id != id by {
            if actions[j].id == id {
                lemma_first_from_exists(actions, id, 0, j);
            }
        }
    }
}

/// Acknowledging an ID marks the first card with that ID acknowledged and
/// changes nothing else; an unknown ID is refused.
pub proof fn law_ack_step(actions: Seq<CliActionView>, id: Seq<char>)
    ensures
        match ack_step(actions, id) {
            Some(s1) => s1.len() == actions.len() && exists|i: int|
                #![trigger s1[i]]
                0 <= i < actions.len() && actions[i].id == id && s1[i] == (CliActionView {
                    acknowledged: true,
                    ..actions[i]
                }) && (forall|j: int| 0 <= j < i ==> #[trigger] actions[j].id != id) && forall|j: int|
                    0 <= j < actions.len() && j != i ==> #[trigger] s1[j] == actions[j],
            None => forall|j: int| 0 <= j < actions.len() ==> #[trigger] actions[j].id != id,
        },
{
    law_first_with_id(actions, id);
    if let Some(i) = first_with_id(actions, id) {
        let s1 = actions.update(i, CliActionView { acknowledged: true, ..actions[i] });
        assert(s1[i] == (CliActionView { acknowledged: true, ..actions[i] }));
        assert forall|j: int| 0 <= j < actions.len() && j != i implies #[trigger] s1[j] == actions[j] by {}
        assert(ack_step(actions, id) == Some(s1));
    }
}

/// Acknowledging a card's Markdown switches every `Needs acknowledgement`
/// status to `Acknowledged`: the result holds the acknowledged status and
/// no pending one. A card holding neither status is refused.
pub proof fn law_card_ack(card: Seq<char>)
    ensures
        card_ack_spec(card) is Err <==> (!contains_seq(card, "**Status:** Needs acknowledgement"@) && !contains_seq(
            card,
            "**Status:** Acknowledged"@,
        )),
        card_ack_spec(card) matches Ok(u) ==> !contains_seq(u, "**Status:** Needs acknowledgement"@) && contains_seq(
            u,
            "**Status:** Acknowledged"@,
        ),
        card_ack_spec(card) is Err ==> card_ack_spec(card) == Err::<Seq<char>, Seq<char>>(
            "the repository action card has no acknowledgement status"@,
        ),
{
    let pat = "**Status:** Needs acknowledgement"@;
    let to = "**Status:** Acknowledged"@;
    reveal_strlit("**Status:** Needs acknowledgement");
    reveal_strlit("**Status:** Acknowledged");
    assert(no_start_inside_from(to, pat, 0)) by {
        reveal_with_fuel(no_start_inside_from, 25);
        reveal_with_fuel(crate::text::differ_within, 4);
    }
    assert(no_start_inside_from(pat, to, 1)) by {
        reveal_with_fuel(no_start_inside_from, 35);
        reveal_with_fuel(crate::text::differ_within, 4);
    }
    let u = replace_all(card, pat, to);
    lemma_replace_leaves_none(card, pat, to);
    lemma_replace_shortens(card, pat, to);
    if !contains_seq(card, pat) {
        lemma_replace_absent(card, pat, to);
    }
    if u != card {
        lemma_replace_changed(card, pat, to);
    }
}
} // verus!
