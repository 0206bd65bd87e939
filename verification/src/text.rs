//! Character-level text rules: whitespace, trimming, splitting, searching and
//! replacing, stated over `Seq<char>` and carried out on `Vec<char>`.
use vstd::prelude::*;

verus! {

/// Unicode `White_Space`, the set that `char::is_whitespace` tests.
pub open spec fn is_white_space(c: char) -> bool {
    let u = c as u32;
    ||| 0x09 <= u <= 0x0d
    ||| u == 0x20
    ||| u == 0x85
    ||| u == 0xa0
    ||| u == 0x1680
    ||| 0x2000 <= u <= 0x200a
    ||| u == 0x2028
    ||| u == 0x2029
    ||| u == 0x202f
    ||| u == 0x205f
    ||| u == 0x3000
}

pub fn is_whitespace(c: char) -> (r: bool)
    ensures
        r == is_white_space(c),
{
    let u = c as u32;
    (0x09 <= u && u <= 0x0d) || u == 0x20 || u == 0x85 || u == 0xa0 || u == 0x1680 || (0x2000
        <= u && u <= 0x200a) || u == 0x2028 || u == 0x2029 || u == 0x202f || u == 0x205f || u
        == 0x3000
}

/// The maximal runs of non-whitespace characters of `s`, in order
/// (what `str::split_whitespace` yields).
pub open spec fn words(s: Seq<char>) -> Seq<Seq<char>>
    decreases s.len(),
{
    if s.len() == 0 {
        seq![]
    } else {
        let prev = words(s.drop_last());
        let c = s.last();
        if is_white_space(c) {
            prev
        } else if s.len() >= 2 && !is_white_space(s[s.len() - 2]) {
            prev.update(prev.len() - 1, prev.last().push(c))
        } else {
            prev.push(seq![c])
        }
    }
}

/// Splitting into words: a text without whitespace is one word (none when
/// empty), and a whitespace character separates the words before it from
/// those after it. These determine the words of every text.
pub proof fn law_words(a: Seq<char>, c: char, b: Seq<char>)
    ensures
        words(seq![]) == Seq::<Seq<char>>::empty(),
        a.len() > 0 && (forall|i: int| 0 <= i < a.len() ==> !is_white_space(#[trigger] a[i])) ==> words(a) == seq![a],
        is_white_space(c) ==> words(a + seq![c] + b) == words(a) + words(b),
{
    if a.len() > 0 && (forall|i: int| 0 <= i < a.len() ==> !is_white_space(#[trigger] a[i])) {
        lemma_words_single(a);
    }
    if is_white_space(c) {
        lemma_words_split(a, c, b);
    }
}

proof fn lemma_words_single(a: Seq<char>)
    requires
        a.len() > 0,
        forall|i: int| 0 <= i < a.len() ==> !is_white_space(#[trigger] a[i]),
    ensures
        words(a) == seq![a],
    decreases a.len(),
{
    if a.len() == 1 {
        assert(a.drop_last() =~= Seq::<char>::empty());
        assert(words(a.drop_last()) =~= Seq::<Seq<char>>::empty());
        assert(a =~= seq![a[0]]);
        assert(words(a) =~= seq![seq![a[0]]]);
    } else {
        let t = a.drop_last();
        assert forall|i: int| 0 <= i < t.len() implies !is_white_space(#[trigger] t[i]) by {
            assert(t[i] == a[i]);
        }
        lemma_words_single(t);
        assert(!is_white_space(a[a.len() - 2]));
        assert(t.push(a.last()) =~= a);
        assert(seq![t].update(0, t.push(a.last())) =~= seq![a]);
    }
}

proof fn lemma_words_split(a: Seq<char>, c: char, b: Seq<char>)
    requires
        is_white_space(c),
    ensures
        words(a + seq![c] + b) == words(a) + words(b),
    decreases b.len(),
{
    let s = a + seq![c] + b;
    if b.len() == 0 {
        assert(s.drop_last() =~= a);
        assert(words(a) + words(b) =~= words(a));
    } else {
        let b1 = b.drop_last();
        let x = b.last();
        lemma_words_split(a, c, b1);
        let s1 = a + seq![c] + b1;
        assert(s.drop_last() =~= s1);
        assert(s.last() == x);
        if is_white_space(x) {
        } else if b1.len() > 0 && !is_white_space(b1.last()) {
            assert(s[s.len() - 2] == b1.last());
            assert(b[b.len() - 2] == b1.last());
            lemma_words_shape(b1);
            let wa = words(a);
            let wb = words(b1);
            assert((wa + wb).update((wa + wb).len() - 1, (wa + wb).last().push(x)) =~= wa + wb.update(
                wb.len() - 1,
                wb.last().push(x),
            ));
        } else {
            if b1.len() > 0 {
                assert(s[s.len() - 2] == b1.last());
                assert(b[b.len() - 2] == b1.last());
            } else {
                assert(s[s.len() - 2] == c);
            }
            assert((words(a) + words(b1)).push(seq![x]) =~= words(a) + words(b1).push(seq![x]));
        }
    }
}

/// `parts` joined with `sep` between neighbours (what `join` on a slice of
/// strings gives).
pub open spec fn join_with(parts: Seq<Seq<char>>, sep: Seq<char>) -> Seq<char>
    decreases parts.len(),
{
    if parts.len() == 0 {
        seq![]
    } else if parts.len() == 1 {
        parts[0]
    } else {
        join_with(parts.drop_last(), sep) + sep + parts.last()
    }
}

/// The words of `s` joined by single spaces.
pub open spec fn collapse_ws(s: Seq<char>) -> Seq<char> {
    join_with(words(s), seq![' '])
}

/// A string that ends in a non-whitespace character has at least one word,
/// and every word is non-empty.
pub proof fn lemma_words_shape(s: Seq<char>)
    ensures
        s.len() > 0 && !is_white_space(s.last()) ==> words(s).len() > 0,
        forall|k: int| 0 <= k < words(s).len() ==> #[trigger] words(s)[k].len() > 0,
    decreases s.len(),
{
    if s.len() > 0 {
        lemma_words_shape(s.drop_last());
        let prev = words(s.drop_last());
        assert forall|k: int| 0 <= k < words(s).len() implies #[trigger] words(s)[k].len() > 0 by {
            if k < prev.len() {
                assert(prev[k].len() > 0);
            }
        }
    }
}

pub proof fn lemma_join_push(parts: Seq<Seq<char>>, sep: Seq<char>, w: Seq<char>)
    ensures
        join_with(parts.push(w), sep) == if parts.len() == 0 {
            w
        } else {
            join_with(parts, sep) + sep + w
        },
{
    assert(parts.push(w).drop_last() =~= parts);
}

pub proof fn lemma_join_extend_last(parts: Seq<Seq<char>>, sep: Seq<char>, c: char)
    requires
        parts.len() > 0,
    ensures
        join_with(parts.update(parts.len() - 1, parts.last().push(c)), sep) == join_with(
            parts,
            sep,
        ).push(c),
{
    let q = parts.update(parts.len() - 1, parts.last().push(c));
    if parts.len() == 1 {
    } else {
        assert(q.drop_last() =~= parts.drop_last());
        assert(join_with(q, sep) =~= join_with(parts, sep).push(c));
    }
}

/// Collapses every run of whitespace to one space and drops leading and
/// trailing whitespace (`split_whitespace` joined with `" "`).
pub fn collapse_whitespace(s: &Vec<char>) -> (r: Vec<char>)
    ensures
        r@ == collapse_ws(s@),
{
    let mut out: Vec<char> = Vec::new();
    let n = s.len();
    let mut i: usize = 0;
    while i < n
        invariant
            n == s.len(),
            i <= n,
            out@ == join_with(words(s@.take(i as int)), seq![' ']),
            (out@.len() == 0) == (words(s@.take(i as int)).len() == 0),
        decreases n - i,
    {
        let c = s[i];
        let ghost pre = s@.take(i as int);
        let ghost post = s@.take(i + 1);
        assert(post.drop_last() =~= pre);
        proof {
            lemma_words_shape(pre);
            lemma_words_shape(post);
        }
        if !is_whitespace(c) {
            let in_word = i > 0 && !is_whitespace(s[i - 1]);
            if in_word {
                assert(pre.last() == s@[i - 1]);
                proof {
                    lemma_join_extend_last(words(pre), seq![' '], c);
                }
                out.push(c);
            } else {
                proof {
                    lemma_join_push(words(pre), seq![' '], seq![c]);
                }
                if out.len() > 0 {
                    out.push(' ');
                }
                out.push(c);
                assert(out@ =~= join_with(words(post), seq![' ']));
            }
        }
        i += 1;
    }
    assert(s@.take(n as int) =~= s@);
    out
}


/// The characters of `s`, in order.
pub fn chars_of(s: &str) -> (v: Vec<char>)
    ensures
        v@ == s@,
{
    let mut v: Vec<char> = Vec::new();
    for c in it: s.chars()
        invariant
            v@ == it.seq().take(it.index()),
    {
        v.push(c);
    }
    v
}

/// Appends one character to a `String`.
///
/// Trusted: `String::push` adds `c` at the end of the string and changes
/// nothing else, as its documentation says.
#[verifier::external_body]
fn push_char(s: &mut String, c: char)
    ensures
        final(s)@ == old(s)@.push(c),
{
    s.push(c)
}

/// The `String` holding exactly the characters of `v`.
pub fn string_of(v: &Vec<char>) -> (r: String)
    ensures
        r@ == v@,
{
    let mut r = String::new();
    let n = v.len();
    let mut i: usize = 0;
    while i < n
        invariant
            n == v.len(),
            i <= n,
            r@ == v@.take(i as int),
        decreases n - i,
    {
        push_char(&mut r, v[i]);
        i += 1;
        assert(r@ =~= v@.take(i as int));
    }
    assert(v@.take(n as int) =~= v@);
    r
}

/// Whether two character sequences are equal.
pub fn same_chars(a: &Vec<char>, b: &Vec<char>) -> (r: bool)
    ensures
        r == (a@ == b@),
{
    if a.len() != b.len() {
        return false;
    }
    let n = a.len();
    let mut i: usize = 0;
    while i < n
        invariant
            n == a.len(),
            n == b.len(),
            i <= n,
            forall|j: int| 0 <= j < i ==> a@[j] == b@[j],
        decreases n - i,
    {
        if a[i] != b[i] {
            return false;
        }
        i += 1;
    }
    assert(a@ =~= b@);
    true
}

/// Number of whitespace characters at the front of `s`.
pub open spec fn leading_ws(s: Seq<char>) -> nat
    decreases s.len(),
{
    if s.len() == 0 {
        0
    } else if is_white_space(s[0]) {
        1 + leading_ws(s.drop_first())
    } else {
        0
    }
}

/// Number of whitespace characters at the back of `s`.
pub open spec fn trailing_ws(s: Seq<char>) -> nat
    decreases s.len(),
{
    if s.len() == 0 {
        0
    } else if is_white_space(s.last()) {
        1 + trailing_ws(s.drop_last())
    } else {
        0
    }
}

/// `s` without leading and trailing whitespace (`str::trim`).
pub open spec fn trim_ws(s: Seq<char>) -> Seq<char> {
    if leading_ws(s) >= s.len() {
        seq![]
    } else {
        s.subrange(leading_ws(s) as int, s.len() - trailing_ws(s))
    }
}

pub proof fn lemma_leading_ws(s: Seq<char>, i: int)
    requires
        0 <= i <= s.len(),
        forall|j: int| 0 <= j < i ==> is_white_space(#[trigger] s[j]),
        i < s.len() ==> !is_white_space(s[i]),
    ensures
        leading_ws(s) == i,
    decreases i,
{
    if i > 0 {
        let t = s.drop_first();
        assert forall|j: int| 0 <= j < i - 1 implies is_white_space(#[trigger] t[j]) by {
            assert(t[j] == s[j + 1]);
        }
        lemma_leading_ws(t, i - 1);
    }
}

pub proof fn lemma_trailing_ws(s: Seq<char>, k: int)
    requires
        0 <= k <= s.len(),
        forall|j: int| s.len() - k <= j < s.len() ==> is_white_space(#[trigger] s[j]),
        k < s.len() ==> !is_white_space(s[s.len() - k - 1]),
    ensures
        trailing_ws(s) == k,
    decreases k,
{
    if k > 0 {
        let t = s.drop_last();
        assert forall|j: int| t.len() - (k - 1) <= j < t.len() implies is_white_space(
            #[trigger] t[j],
        ) by {
            assert(t[j] == s[j]);
        }
        lemma_trailing_ws(t, k - 1);
    }
}

/// `str::trim` on a character sequence.
pub fn trim(s: &Vec<char>) -> (r: Vec<char>)
    ensures
        r@ == trim_ws(s@),
{
    let n = s.len();
    let mut a: usize = 0;
    while a < n && is_whitespace(s[a])
        invariant
            n == s.len(),
            a <= n,
            forall|j: int| 0 <= j < a ==> is_white_space(#[trigger] s@[j]),
        decreases n - a,
    {
        a += 1;
    }
    proof {
        lemma_leading_ws(s@, a as int);
    }
    if a == n {
        return Vec::new();
    }
    let mut b: usize = n;
    while b > a && is_whitespace(s[b - 1])
        invariant
            n == s.len(),
            a < n,
            !is_white_space(s@[a as int]),
            a <= b <= n,
            forall|j: int| b <= j < n ==> is_white_space(#[trigger] s@[j]),
        decreases b,
    {
        b -= 1;
    }
    proof {
        lemma_trailing_ws(s@, n - b);
    }
    let mut r: Vec<char> = Vec::new();
    let mut i = a;
    while i < b
        invariant
            n == s.len(),
            a <= i <= b <= n,
            r@ == s@.subrange(a as int, i as int),
        decreases b - i,
    {
        r.push(s[i]);
        i += 1;
        assert(r@ =~= s@.subrange(a as int, i as int));
    }
    r
}

/// The pieces of `s` between occurrences of `sep` (`str::split` by one
/// character); there is always at least one piece.
pub open spec fn split_on(s: Seq<char>, sep: char) -> Seq<Seq<char>>
    decreases s.len(),
{
    if s.len() == 0 {
        seq![seq![]]
    } else {
        let prev = split_on(s.drop_last(), sep);
        if s.last() == sep {
            prev.push(seq![])
        } else {
            prev.update(prev.len() - 1, prev.last().push(s.last()))
        }
    }
}

pub proof fn lemma_split_on_nonempty(s: Seq<char>, sep: char)
    ensures
        split_on(s, sep).len() >= 1,
    decreases s.len(),
{
    if s.len() > 0 {
        lemma_split_on_nonempty(s.drop_last(), sep);
    }
}

/// Splitting at `sep` gives at least one piece, no piece holds `sep`, and
/// the pieces joined with `sep` give the text back.
pub proof fn law_split_on(s: Seq<char>, sep: char)
    ensures
        split_on(s, sep).len() >= 1,
        join_with(split_on(s, sep), seq![sep]) == s,
        forall|i: int| 0 <= i < split_on(s, sep).len() ==> !(#[trigger] split_on(s, sep)[i]).contains(sep),
    decreases s.len(),
{
    if s.len() > 0 {
        let prev = split_on(s.drop_last(), sep);
        law_split_on(s.drop_last(), sep);
        let c = s.last();
        if c == sep {
            lemma_join_push(prev, seq![sep], seq![]);
            assert(s.drop_last() + seq![sep] + Seq::<char>::empty() =~= s);
            let cur = split_on(s, sep);
            assert forall|i: int| 0 <= i < cur.len() implies !(#[trigger] cur[i]).contains(sep) by {
                if i < prev.len() {
                    assert(cur[i] == prev[i]);
                } else {
                    assert(cur[i] =~= Seq::<char>::empty());
                }
            }
        } else {
            lemma_join_extend_last(prev, seq![sep], c);
            assert(s.drop_last().push(c) =~= s);
            let cur = split_on(s, sep);
            assert forall|i: int| 0 <= i < cur.len() implies !(#[trigger] cur[i]).contains(sep) by {
                if i < prev.len() - 1 {
                    assert(cur[i] == prev[i]);
                } else {
                    let p = prev.last();
                    assert(!prev[prev.len() - 1].contains(sep));
                    assert(cur[i] == p.push(c));
                    if p.push(c).contains(sep) {
                        let k = choose|k: int| 0 <= k < p.push(c).len() && p.push(c)[k] == sep;
                        if k < p.len() {
                            assert(p[k] == sep);
                        }
                    }
                }
            }
        }
    }
}

/// The first piece of a split is the text before the first `sep`, or the
/// whole text when it has none.
pub proof fn law_split_first(s: Seq<char>, sep: char)
    ensures
        split_on(s, sep)[0].len() <= s.len(),
        s.take(split_on(s, sep)[0].len() as int) == split_on(s, sep)[0],
        !split_on(s, sep)[0].contains(sep),
        split_on(s, sep).len() == 1 ==> split_on(s, sep)[0] == s,
        split_on(s, sep).len() > 1 ==> split_on(s, sep)[0].len() < s.len() && s[split_on(s, sep)[0].len() as int] == sep,
    decreases s.len(),
{
    law_split_on(s, sep);
    if s.len() == 0 {
        assert(s.take(0) =~= split_on(s, sep)[0]);
    } else {
        let t = s.drop_last();
        law_split_first(t, sep);
        law_split_on(t, sep);
        let prev = split_on(t, sep);
        let p0 = split_on(s, sep)[0];
        if s.last() == sep {
            assert(p0 == prev[0]);
            assert(s.take(p0.len() as int) =~= t.take(p0.len() as int));
        } else {
            if prev.len() == 1 {
                assert(p0 == prev[0].push(s.last()));
                assert(p0 =~= s);
                assert(s.take(p0.len() as int) =~= s);
            } else {
                assert(p0 == prev[0]);
                assert(s.take(p0.len() as int) =~= t.take(p0.len() as int));
            }
        }
    }
}

/// Joining parts: nothing gives nothing, one part gives that part, and each
/// further part follows a separator; collapsing whitespace joins the words
/// with one space.
pub proof fn law_join_with(parts: Seq<Seq<char>>, sep: Seq<char>, w: Seq<char>)
    ensures
        join_with(seq![], sep) == Seq::<char>::empty(),
        join_with(seq![w], sep) == w,
        parts.len() > 0 ==> join_with(parts.push(w), sep) == join_with(parts, sep) + sep + w,
        collapse_ws(w) == join_with(words(w), seq![' ']),
{
    lemma_join_push(parts, sep, w);
}

proof fn lemma_leading_props(s: Seq<char>)
    ensures
        leading_ws(s) <= s.len(),
        forall|k: int| 0 <= k < leading_ws(s) ==> is_white_space(#[trigger] s[k]),
        leading_ws(s) < s.len() ==> !is_white_space(s[leading_ws(s) as int]),
    decreases s.len(),
{
    if s.len() > 0 && is_white_space(s[0]) {
        lemma_leading_props(s.drop_first());
        assert forall|k: int| 0 <= k < leading_ws(s) implies is_white_space(#[trigger] s[k]) by {
            if k > 0 {
                assert(s[k] == s.drop_first()[k - 1]);
            }
        }
    }
}

proof fn lemma_trailing_props(s: Seq<char>)
    ensures
        trailing_ws(s) <= s.len(),
        forall|k: int| s.len() - trailing_ws(s) <= k < s.len() ==> is_white_space(#[trigger] s[k]),
        trailing_ws(s) < s.len() ==> !is_white_space(s[s.len() - trailing_ws(s) - 1]),
    decreases s.len(),
{
    if s.len() > 0 && is_white_space(s.last()) {
        lemma_trailing_props(s.drop_last());
        assert forall|k: int| s.len() - trailing_ws(s) <= k < s.len() implies is_white_space(#[trigger] s[k]) by {
            if k < s.len() - 1 {
                assert(s[k] == s.drop_last()[k]);
            }
        }
        if trailing_ws(s) < s.len() {
            assert(s[s.len() - trailing_ws(s) - 1] == s.drop_last()[s.drop_last().len() - trailing_ws(s.drop_last()) - 1]);
        }
    }
}

/// Trimming removes exactly the whitespace at both ends: what remains is a
/// stretch of the text with only whitespace before and after it, and it
/// neither starts nor ends with whitespace.
pub proof fn law_trim(s: Seq<char>)
    ensures
        exists|i: int|
            0 <= i && i + trim_ws(s).len() <= s.len() && #[trigger] s.subrange(i, i + trim_ws(s).len()) == trim_ws(s)
                && (forall|k: int| 0 <= k < i ==> is_white_space(#[trigger] s[k])) && (forall|k: int|
                i + trim_ws(s).len() <= k < s.len() ==> is_white_space(#[trigger] s[k])),
        trim_ws(s).len() > 0 ==> !is_white_space(trim_ws(s)[0]) && !is_white_space(trim_ws(s).last()),
{
    lemma_leading_props(s);
    lemma_trailing_props(s);
    let l = leading_ws(s) as int;
    let t = trailing_ws(s) as int;
    if l >= s.len() {
        assert(s.subrange(s.len() as int, s.len() as int) =~= trim_ws(s));
        assert(s.subrange(s.len() as int, s.len() as int + trim_ws(s).len()) == trim_ws(s));
    } else {
        assert(s.len() - t - 1 >= l) by {
            if s.len() - t - 1 < l {
                assert(is_white_space(s[l]));
            }
        }
        assert(s.subrange(l, l + trim_ws(s).len()) == trim_ws(s));
    }
}

/// The views of a sequence of character vectors.
pub open spec fn seqs_of(v: Seq<Vec<char>>) -> Seq<Seq<char>> {
    Seq::new(v.len(), |i: int| v[i]@)
}

/// Splits `s` at every `sep`.
pub fn split_char(s: &Vec<char>, sep: char) -> (r: Vec<Vec<char>>)
    ensures
        seqs_of(r@) == split_on(s@, sep),
{
    let mut done: Vec<Vec<char>> = Vec::new();
    let mut cur: Vec<char> = Vec::new();
    let n = s.len();
    let mut i: usize = 0;
    while i < n
        invariant
            n == s.len(),
            i <= n,
            seqs_of(done@).push(cur@) == split_on(s@.take(i as int), sep),
        decreases n - i,
    {
        let ghost pre = s@.take(i as int);
        assert(s@.take(i + 1).drop_last() =~= pre);
        proof {
            lemma_split_on_nonempty(pre, sep);
        }
        let c = s[i];
        if c == sep {
            let ghost old_done = done@;
            let finished = cur;
            done.push(finished);
            cur = Vec::new();
            assert(seqs_of(done@) =~= seqs_of(old_done).push(finished@));
            assert(seqs_of(done@).push(cur@) =~= split_on(s@.take(i + 1), sep));
        } else {
            cur.push(c);
            assert(seqs_of(done@).push(cur@) =~= split_on(s@.take(i + 1), sep));
        }
        i += 1;
    }
    assert(s@.take(n as int) =~= s@);
    let ghost old_done = done@;
    let last = cur;
    done.push(last);
    assert(seqs_of(done@) =~= seqs_of(old_done).push(last@));
    done
}

/// `needle` occurs in `hay` starting at index `i`.
pub open spec fn occurs_at(hay: Seq<char>, needle: Seq<char>, i: int) -> bool {
    0 <= i && i + needle.len() <= hay.len() && hay.subrange(i, i + needle.len()) == needle
}

/// `needle` occurs somewhere in `hay` (`str::contains`).
pub open spec fn contains_seq(hay: Seq<char>, needle: Seq<char>) -> bool {
    exists|i: int| occurs_at(hay, needle, i)
}

/// `hay` begins with `p` (`str::starts_with`).
pub open spec fn starts_with_seq(hay: Seq<char>, p: Seq<char>) -> bool {
    p.len() <= hay.len() && hay.take(p.len() as int) == p
}

/// `hay` ends with `p` (`str::ends_with`).
pub open spec fn ends_with_seq(hay: Seq<char>, p: Seq<char>) -> bool {
    p.len() <= hay.len() && hay.skip(hay.len() - p.len()) == p
}

/// Whether `needle` occurs in `hay` at index `i`.
pub fn matches_at(hay: &Vec<char>, needle: &Vec<char>, i: usize) -> (r: bool)
    ensures
        r == occurs_at(hay@, needle@, i as int),
{
    let m = needle.len();
    if i > hay.len() || hay.len() - i < m {
        return false;
    }
    let mut k: usize = 0;
    while k < m
        invariant
            m == needle.len(),
            i + m <= hay.len(),
            k <= m,
            forall|j: int| 0 <= j < k ==> hay@[i + j] == needle@[j],
        decreases m - k,
    {
        if hay[i + k] != needle[k] {
            assert(hay@.subrange(i as int, i + m)[k as int] != needle@[k as int]);
            return false;
        }
        k += 1;
    }
    assert(hay@.subrange(i as int, i + m) =~= needle@);
    true
}

/// `str::contains` for a sequence needle.
pub fn contains(hay: &Vec<char>, needle: &Vec<char>) -> (r: bool)
    ensures
        r == contains_seq(hay@, needle@),
{
    if needle.len() > hay.len() {
        assert forall|i: int| !occurs_at(hay@, needle@, i) by {}
        return false;
    }
    let last = hay.len() - needle.len();
    let mut i: usize = 0;
    loop
        invariant
            last == hay.len() - needle.len(),
            i <= last,
            forall|j: int| 0 <= j < i ==> !occurs_at(hay@, needle@, j),
        ensures
            forall|j: int| 0 <= j <= last ==> !occurs_at(hay@, needle@, j),
        decreases last - i,
    {
        if matches_at(hay, needle, i) {
            return true;
        }
        if i == last {
            break;
        }
        i += 1;
    }
    assert forall|j: int| !occurs_at(hay@, needle@, j) by {
        if 0 <= j && j + needle@.len() <= hay@.len() {
            assert(j <= last);
        }
    }
    false
}

/// `str::starts_with`.
pub fn starts_with(hay: &Vec<char>, p: &Vec<char>) -> (r: bool)
    ensures
        r == starts_with_seq(hay@, p@),
{
    let r = matches_at(hay, p, 0);
    proof {
        if p@.len() <= hay@.len() {
            assert(hay@.subrange(0, p@.len() as int) =~= hay@.take(p@.len() as int));
        }
    }
    r
}

/// `str::ends_with`.
pub fn ends_with(hay: &Vec<char>, p: &Vec<char>) -> (r: bool)
    ensures
        r == ends_with_seq(hay@, p@),
{
    if p.len() > hay.len() {
        return false;
    }
    let r = matches_at(hay, p, hay.len() - p.len());
    assert(hay@.subrange(hay.len() - p.len(), hay.len() as int) =~= hay@.skip(
        hay.len() - p.len(),
    ));
    r
}

/// Every non-overlapping occurrence of `pat`, left to right, replaced by
/// `to` (`str::replace` for a non-empty pattern).
pub open spec fn replace_all(s: Seq<char>, pat: Seq<char>, to: Seq<char>) -> Seq<char>
    decreases s.len(),
{
    if pat.len() == 0 || s.len() < pat.len() {
        s
    } else if s.take(pat.len() as int) == pat {
        to + replace_all(s.skip(pat.len() as int), pat, to)
    } else {
        seq![s[0]] + replace_all(s.drop_first(), pat, to)
    }
}

/// `str::replace` with a non-empty pattern.
pub fn replace(s: &Vec<char>, pat: &Vec<char>, to: &Vec<char>) -> (r: Vec<char>)
    requires
        pat@.len() > 0,
    ensures
        r@ == replace_all(s@, pat@, to@),
{
    let n = s.len();
    let m = pat.len();
    let mut out: Vec<char> = Vec::new();
    let mut i: usize = 0;
    assert(s@.skip(0) =~= s@);
    while i < n
        invariant
            n == s.len(),
            m == pat.len(),
            m > 0,
            i <= n,
            replace_all(s@, pat@, to@) == out@ + replace_all(s@.skip(i as int), pat@, to@),
        decreases n - i,
    {
        let ghost rest = s@.skip(i as int);
        if matches_at(s, pat, i) {
            assert(rest.take(m as int) =~= s@.subrange(i as int, i + m));
            assert(rest.skip(m as int) =~= s@.skip(i + m));
            let mut k: usize = 0;
            let ghost before = out@;
            while k < to.len()
                invariant
                    k <= to.len(),
                    out@ == before + to@.take(k as int),
                decreases to.len() - k,
            {
                out.push(to[k]);
                k += 1;
                assert(out@ =~= before + to@.take(k as int));
            }
            assert(to@.take(to.len() as int) =~= to@);
            assert(out@ =~= before + to@);
            i += m;
        } else {
            if m <= n - i {
                assert(rest.take(m as int) =~= s@.subrange(i as int, i + m));
            }
            assert(rest.drop_first() =~= s@.skip(i + 1));
            out.push(s[i]);
            i += 1;
        }
    }
    assert(s@.skip(n as int) =~= Seq::<char>::empty());
    out
}

/// `a` and `b` differ at some index below `n`.
pub open spec fn differ_within(a: Seq<char>, b: Seq<char>, n: nat) -> bool
    decreases n,
{
    n > 0 && (a[n - 1] != b[n - 1] || differ_within(a, b, (n - 1) as nat))
}

/// From index `i` of `a` on, no copy of `b` can begin inside `a`, whatever
/// follows `a`: at each such start the two differ before either ends.
pub open spec fn no_start_inside_from(a: Seq<char>, b: Seq<char>, i: nat) -> bool
    decreases a.len() - i,
{
    if i >= a.len() {
        true
    } else {
        let overlap: nat = if a.len() - i < b.len() {
            (a.len() - i) as nat
        } else {
            b.len()
        };
        differ_within(a.skip(i as int), b, overlap) && no_start_inside_from(a, b, i + 1)
    }
}

proof fn lemma_differ_within(a: Seq<char>, b: Seq<char>, n: nat)
    requires
        differ_within(a, b, n),
    ensures
        exists|j: int| 0 <= j < n && a[j] != b[j],
    decreases n,
{
    if a[n - 1] == b[n - 1] {
        lemma_differ_within(a, b, (n - 1) as nat);
    }
}

proof fn lemma_no_start_inside(a: Seq<char>, b: Seq<char>, i: nat, k: int)
    requires
        no_start_inside_from(a, b, i),
        i <= k < a.len(),
    ensures
        exists|j: int| 0 <= j < a.len() - k && j < b.len() && a[k + j] != b[j],
    decreases k - i,
{
    if k > i {
        lemma_no_start_inside(a, b, i + 1, k);
    } else {
        let overlap: nat = if a.len() - k < b.len() {
            (a.len() - k) as nat
        } else {
            b.len()
        };
        lemma_differ_within(a.skip(k), b, overlap);
        let j = choose|j: int| 0 <= j < overlap && a.skip(k)[j] != b[j];
        assert(a[k + j] != b[j]);
    }
}

/// A text without `pat` is left as it is.
pub proof fn lemma_replace_absent(s: Seq<char>, pat: Seq<char>, to: Seq<char>)
    requires
        !contains_seq(s, pat),
    ensures
        replace_all(s, pat, to) == s,
    decreases s.len(),
{
    if pat.len() > 0 && s.len() >= pat.len() {
        if s.take(pat.len() as int) == pat {
            assert(s.subrange(0, pat.len() as int) =~= s.take(pat.len() as int));
            assert(occurs_at(s, pat, 0));
        }
        assert forall|i: int| !occurs_at(s.drop_first(), pat, i) by {
            if occurs_at(s.drop_first(), pat, i) {
                assert(s.subrange(i + 1, i + 1 + pat.len()) =~= s.drop_first().subrange(i, i + pat.len()));
                assert(occurs_at(s, pat, i + 1));
            }
        }
        lemma_replace_absent(s.drop_first(), pat, to);
        assert(seq![s[0]] + s.drop_first() =~= s);
    }
}

/// A replacement that changed the text left `to` in it.
pub proof fn lemma_replace_changed(s: Seq<char>, pat: Seq<char>, to: Seq<char>)
    requires
        replace_all(s, pat, to) != s,
    ensures
        contains_seq(replace_all(s, pat, to), to),
    decreases s.len(),
{
    let r = replace_all(s, pat, to);
    if s.take(pat.len() as int) == pat {
        assert(r.subrange(0, to.len() as int) =~= to);
        assert(occurs_at(r, to, 0));
    } else {
        let r1 = replace_all(s.drop_first(), pat, to);
        if r1 == s.drop_first() {
            assert(r =~= s);
        }
        lemma_replace_changed(s.drop_first(), pat, to);
        let i = choose|i: int| occurs_at(r1, to, i);
        assert(r.subrange(i + 1, i + 1 + to.len()) =~= r1.subrange(i, i + to.len()));
        assert(occurs_at(r, to, i + 1));
    }
}

/// A copy of `to`, cut off at index `m`, begins at index `a` of `r`.
pub open spec fn copy_begins_at(r: Seq<char>, to: Seq<char>, a: int, m: int) -> bool {
    forall|j: int| 0 <= j < to.len() && a + j < m ==> #[trigger] r[a + j] == to[j]
}

/// The first `m` characters of a replacement's output either are the
/// first `m` characters of its input, or a copy of `to` begins at some
/// index below `m`.
proof fn lemma_replace_prefix(s: Seq<char>, pat: Seq<char>, to: Seq<char>, m: int)
    requires
        pat.len() > 0,
        to.len() > 0,
        0 <= m <= replace_all(s, pat, to).len(),
    ensures
        (m <= s.len() && replace_all(s, pat, to).take(m) == s.take(m)) || exists|a: int|
            0 <= a < m && #[trigger] copy_begins_at(replace_all(s, pat, to), to, a, m),
    decreases s.len(),
{
    let r = replace_all(s, pat, to);
    if m == 0 {
        assert(r.take(0) =~= s.take(0));
    } else if s.len() < pat.len() {
        assert(r.take(m) =~= s.take(m));
    } else if s.take(pat.len() as int) == pat {
        assert(copy_begins_at(r, to, 0, m));
    } else {
        let t = s.drop_first();
        let r1 = replace_all(t, pat, to);
        lemma_replace_prefix(t, pat, to, m - 1);
        if m - 1 <= t.len() && r1.take(m - 1) == t.take(m - 1) {
            assert(r == seq![s[0]] + r1);
            assert forall|k: int| 0 <= k < m implies r.take(m)[k] == s.take(m)[k] by {
                if k > 0 {
                    assert(r1.take(m - 1)[k - 1] == t.take(m - 1)[k - 1]);
                }
            }
            assert(r.take(m) =~= s.take(m));
        } else {
            let a = choose|a: int| 0 <= a < m - 1 && #[trigger] copy_begins_at(r1, to, a, m - 1);
            assert forall|j: int| 0 <= j < to.len() && (a + 1) + j < m implies #[trigger] r[(a + 1) + j] == to[j] by {
                assert(r[(a + 1) + j] == r1[a + j]);
            }
            assert(copy_begins_at(r, to, a + 1, m));
        }
    }
}

/// Replacing `pat` by `to` leaves no `pat` behind when neither can begin
/// inside the other (so no copy of `pat` straddles an inserted `to`).
pub proof fn lemma_replace_leaves_none(s: Seq<char>, pat: Seq<char>, to: Seq<char>)
    requires
        pat.len() > 0,
        to.len() > 0,
        no_start_inside_from(to, pat, 0),
        no_start_inside_from(pat, to, 1),
    ensures
        !contains_seq(replace_all(s, pat, to), pat),
    decreases s.len(),
{
    let r = replace_all(s, pat, to);
    if s.len() < pat.len() {
    } else if s.take(pat.len() as int) == pat {
        let r1 = replace_all(s.skip(pat.len() as int), pat, to);
        lemma_replace_leaves_none(s.skip(pat.len() as int), pat, to);
        assert forall|i: int| !occurs_at(r, pat, i) by {
            if occurs_at(r, pat, i) {
                if i >= to.len() {
                    assert(r1.subrange(i - to.len(), i - to.len() + pat.len()) =~= r.subrange(i, i + pat.len()));
                    assert(occurs_at(r1, pat, i - to.len()));
                } else {
                    lemma_no_start_inside(to, pat, 0, i);
                    let j = choose|j: int| 0 <= j < to.len() - i && j < pat.len() && to[i + j] != pat[j];
                    assert(r.subrange(i, i + pat.len())[j] == pat[j]);
                }
            }
        }
    } else {
        let t = s.drop_first();
        let r1 = replace_all(t, pat, to);
        lemma_replace_leaves_none(t, pat, to);
        assert forall|i: int| !occurs_at(r, pat, i) by {
            if occurs_at(r, pat, i) {
                if i >= 1 {
                    assert(r1.subrange(i - 1, i - 1 + pat.len()) =~= r.subrange(i, i + pat.len()));
                    assert(occurs_at(r1, pat, i - 1));
                } else {
                    let m = pat.len() - 1;
                    lemma_replace_prefix(t, pat, to, m);
                    if m <= t.len() && r1.take(m) == t.take(m) {
                        assert(r == seq![s[0]] + r1);
                        assert forall|k: int| 0 <= k < pat.len() implies s.take(pat.len() as int)[k]
                            == r.subrange(0, pat.len() as int)[k] by {
                            if k > 0 {
                                assert(r1.take(m)[k - 1] == t.take(m)[k - 1]);
                            }
                        }
                        assert(s.take(pat.len() as int) =~= r.subrange(0, pat.len() as int));
                    } else {
                        let a = choose|a: int| 0 <= a < m && #[trigger] copy_begins_at(r1, to, a, m);
                        lemma_no_start_inside(pat, to, 1, a + 1);
                        let j = choose|j: int| 0 <= j < pat.len() - (a + 1) && j < to.len() && pat[(a + 1) + j] != to[j];
                        assert(r1[a + j] == to[j]);
                        assert(r.subrange(0, pat.len() as int)[(a + 1) + j] == pat[(a + 1) + j]);
                    }
                }
            }
        }
    }
}

/// The decimal digit for `d < 10`.
pub open spec fn digit_char(d: nat) -> char {
    if d == 0 {
        '0'
    } else if d == 1 {
        '1'
    } else if d == 2 {
        '2'
    } else if d == 3 {
        '3'
    } else if d == 4 {
        '4'
    } else if d == 5 {
        '5'
    } else if d == 6 {
        '6'
    } else if d == 7 {
        '7'
    } else if d == 8 {
        '8'
    } else {
        '9'
    }
}

/// The decimal numeral of `n`, without leading zeros (`Display` for integers).
pub open spec fn decimal(n: nat) -> Seq<char>
    decreases n,
{
    if n < 10 {
        seq![digit_char(n)]
    } else {
        decimal(n / 10).push(digit_char(n % 10))
    }
}

fn digit(d: u64) -> (c: char)
    requires
        d < 10,
    ensures
        c == digit_char(d as nat),
{
    if d == 0 {
        '0'
    } else if d == 1 {
        '1'
    } else if d == 2 {
        '2'
    } else if d == 3 {
        '3'
    } else if d == 4 {
        '4'
    } else if d == 5 {
        '5'
    } else if d == 6 {
        '6'
    } else if d == 7 {
        '7'
    } else if d == 8 {
        '8'
    } else {
        '9'
    }
}

/// Appends the decimal numeral of `n`.
pub fn push_decimal(out: &mut Vec<char>, n: u64)
    ensures
        final(out)@ == old(out)@ + decimal(n as nat),
    decreases n,
{
    if n >= 10 {
        push_decimal(out, n / 10);
    }
    out.push(digit(n % 10));
    assert(out@ =~= old(out)@ + decimal(n as nat));
}

/// Appends the characters of `s`.
pub fn push_str(out: &mut Vec<char>, s: &str)
    ensures
        final(out)@ == old(out)@ + s@,
{
    let v = chars_of(s);
    push_all(out, &v);
}

/// Appends the characters of `v`.
pub fn push_all(out: &mut Vec<char>, v: &Vec<char>)
    ensures
        final(out)@ == old(out)@ + v@,
{
    let n = v.len();
    let mut i: usize = 0;
    while i < n
        invariant
            n == v.len(),
            i <= n,
            out@ == old(out)@ + v@.take(i as int),
        decreases n - i,
    {
        out.push(v[i]);
        i += 1;
        assert(out@ =~= old(out)@ + v@.take(i as int));
    }
    assert(v@.take(n as int) =~= v@);
}


/// Splits `s` into its maximal runs of non-whitespace characters
/// (`str::split_whitespace`).
pub fn split_words(s: &Vec<char>) -> (r: Vec<Vec<char>>)
    ensures
        seqs_of(r@) == words(s@),
{
    let mut done: Vec<Vec<char>> = Vec::new();
    let mut cur: Vec<char> = Vec::new();
    let n = s.len();
    let mut i: usize = 0;
    while i < n
        invariant
            n == s.len(),
            i <= n,
            (i == 0 || is_white_space(s@[i - 1])) ==> cur@.len() == 0 && seqs_of(done@) == words(s@.take(i as int)),
            (i > 0 && !is_white_space(s@[i - 1])) ==> cur@.len() > 0 && seqs_of(done@).push(cur@) == words(s@.take(i as int)),
        decreases n - i,
    {
        let ghost pre = s@.take(i as int);
        let ghost post = s@.take(i + 1);
        assert(post.drop_last() =~= pre);
        let c = s[i];
        if is_whitespace(c) {
            if cur.len() > 0 {
                let ghost old_done = done@;
                let w = cur;
                done.push(w);
                cur = Vec::new();
                assert(seqs_of(done@) =~= seqs_of(old_done).push(w@));
            }
        } else {
            if i > 0 && !is_whitespace(s[i - 1]) {
                assert(pre.last() == s@[i - 1]);
                let ghost wp = words(pre);
                cur.push(c);
                assert(seqs_of(done@).push(cur@) =~= wp.update(wp.len() - 1, wp.last().push(c)));
            } else {
                cur.push(c);
                assert(cur@ =~= seq![c]);
                assert(seqs_of(done@).push(cur@) =~= words(pre).push(seq![c]));
            }
        }
        i += 1;
    }
    assert(s@.take(n as int) =~= s@);
    if cur.len() > 0 {
        let ghost old_done = done@;
        let w = cur;
        done.push(w);
        assert(seqs_of(done@) =~= seqs_of(old_done).push(w@));
    }
    done
}


/// `parts` joined with `sep` (`[..].join(sep)`).
pub fn join(parts: &Vec<Vec<char>>, sep: &Vec<char>) -> (r: Vec<char>)
    ensures
        r@ == join_with(seqs_of(parts@), sep@),
{
    let mut out: Vec<char> = Vec::new();
    let n = parts.len();
    let mut i: usize = 0;
    while i < n
        invariant
            n == parts.len(),
            i <= n,
            out@ == join_with(seqs_of(parts@).take(i as int), sep@),
        decreases n - i,
    {
        let ghost pre = seqs_of(parts@).take(i as int);
        let ghost post = seqs_of(parts@).take(i + 1);
        assert(post =~= pre.push(parts@[i as int]@));
        proof {
            lemma_join_push(pre, sep@, parts@[i as int]@);
        }
        if i > 0 {
            push_all(&mut out, sep);
        }
        push_all(&mut out, &parts[i]);
        i += 1;
    }
    assert(seqs_of(parts@).take(n as int) =~= seqs_of(parts@));
    out
}

} // verus!
