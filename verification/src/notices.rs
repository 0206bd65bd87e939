//! Reading vendor notices out of a feed: RSS and Atom entries when the text
//! is XML, `item`/`entry` elements or headings when it is HTML.
//!
//! The outside parsers hand their document trees over as a list of nodes in
//! document order, each with its depth in the tree. A node's subtree is the
//! run of nodes after it that are deeper than it; its children are the nodes
//! of that run exactly one level deeper.
use vstd::prelude::*;
use crate::text::{chars_of, collapse_whitespace, collapse_ws, join, join_with, same_chars, seqs_of, string_of};

verus! {

/// One node of a parsed document.
#[derive(Debug)]
pub struct DocNode {
    /// Depth in the tree. Only differences of depth within one document
    /// count: a node's subtree is the run of deeper nodes after it.
    pub depth: usize,
    /// Local name, for an element.
    pub name: Option<String>,
    /// Content, for a text node.
    pub text: Option<String>,
    /// The `href` attribute, for an element that has one.
    pub href: Option<String>,
}

pub ghost struct DocNodeView {
    pub depth: nat,
    pub name: Option<Seq<char>>,
    pub text: Option<Seq<char>>,
    pub href: Option<Seq<char>>,
}

pub open spec fn opt_str_view(o: Option<String>) -> Option<Seq<char>> {
    match o {
        Some(s) => Some(s@),
        None => None,
    }
}

impl View for DocNode {
    type V = DocNodeView;

    open spec fn view(&self) -> DocNodeView {
        DocNodeView {
            depth: self.depth as nat,
            name: opt_str_view(self.name),
            text: opt_str_view(self.text),
            href: opt_str_view(self.href),
        }
    }
}

pub open spec fn nodes_view(v: Seq<DocNode>) -> Seq<DocNodeView> {
    Seq::new(v.len(), |i: int| v[i]@)
}

/// The nodes, in document order, of `text` parsed as XML; `None` when it is
/// not well-formed XML.
pub uninterp spec fn xml_document(text: Seq<char>) -> Option<Seq<DocNodeView>>;

/// The nodes, in document order, of `text` parsed as an HTML document.
pub uninterp spec fn html_document(text: Seq<char>) -> Seq<DocNodeView>;

/// For each node of `text` parsed as an HTML document, in arena (creation)
/// order: its index in document order, or `None` when it is outside the
/// document tree.
pub uninterp spec fn html_arena_positions(text: Seq<char>) -> Seq<Option<int>>;

pub open spec fn positions_view(v: Seq<Option<usize>>) -> Seq<Option<int>> {
    Seq::new(
        v.len(),
        |i: int|
            match v[i] {
                Some(k) => Some(k as int),
                None => None,
            },
    )
}

/// The text pieces, in document order, of `raw` parsed as an HTML fragment.
pub uninterp spec fn html_fragment_text(raw: Seq<char>) -> Seq<Seq<char>>;

/// `reference` resolved against `base` as URLs and written out; `None` when
/// `base` is not a URL or the reference cannot be resolved.
pub uninterp spec fn joined_url(base: Seq<char>, reference: Seq<char>) -> Option<Seq<char>>;

/// Trusted: parses `text` with `roxmltree::Document::parse` and walks
/// `descendants()` of the document; for each node it hands out its number
/// of ancestors (`ancestors().count()`, which counts the node itself), its
/// local name if it is an element, its text if it is a text node, and its
/// `href` attribute. The contract names the result; it states nothing about
/// what XML parsing does.
#[verifier::external_body]
fn parse_xml_nodes(text: &str) -> (r: Option<Vec<DocNode>>)
    ensures
        match r {
            Some(v) => xml_document(text@) == Some(nodes_view(v@)),
            None => xml_document(text@) is None,
        },
{
    roxmltree::Document::parse(text).ok().map(|doc| doc.descendants().map(|n| DocNode {
        depth: n.ancestors().count(),
        name: if n.is_element() { Some(n.tag_name().name().to_owned()) } else { None },
        text: if n.is_text() { n.text().map(str::to_owned) } else { None },
        href: n.attribute("href").map(str::to_owned),
    }).collect())
}

/// Trusted: parses `text` with `scraper::Html::parse_document` and walks the
/// tree's `descendants()` from its root; for each node it hands out its
/// number of ancestors, its local name if it is an element, its text if it
/// is a text node, and its `href` attribute. The contract names the result.
#[verifier::external_body]
fn parse_html_nodes(text: &str) -> (r: Vec<DocNode>)
    ensures
        nodes_view(r@) == html_document(text@),
{
    scraper::Html::parse_document(text).tree.root().descendants().map(|n| DocNode {
        depth: n.ancestors().count(),
        name: n.value().as_element().map(|e| e.name().to_owned()),
        text: n.value().as_text().map(|t| t.to_string()),
        href: n.value().as_element().and_then(|e| e.attr("href")).map(str::to_owned),
    }).collect()
}

/// Trusted: parses `text` with `scraper::Html::parse_document` again and
/// lists the tree's nodes in arena (creation) order, the order in which
/// `Html::select` visits them (`Tree::nodes`). For each it hands out its
/// index in the walk from the root that `parse_html_nodes` makes, or `None`
/// for a node outside the document tree. The contract names the result.
#[verifier::external_body]
fn parse_html_arena(text: &str) -> (r: Vec<Option<usize>>)
    ensures
        positions_view(r@) == html_arena_positions(text@),
{
    let document = scraper::Html::parse_document(text);
    let walk: std::collections::HashMap<_, usize> =
        document.tree.root().descendants().enumerate().map(|(i, n)| (n.id(), i)).collect();
    document.tree.nodes().map(|n| walk.get(&n.id()).copied()).collect()
}

/// Trusted: `scraper::Html::parse_fragment(raw).root_element().text()`,
/// each piece copied into a `String`. The contract names the result.
#[verifier::external_body]
fn fragment_texts(raw: &str) -> (r: Vec<String>)
    ensures
        crate::config::strings_view(r@) == html_fragment_text(raw@),
{
    scraper::Html::parse_fragment(raw).root_element().text().map(str::to_owned).collect()
}

/// Trusted: `url::Url::parse(base)`, then `join(reference)`, then
/// `to_string()`; `None` when either step fails. The contract names the
/// result.
#[verifier::external_body]
fn join_url(base: &str, reference: &str) -> (r: Option<String>)
    ensures
        opt_str_view(r) == joined_url(base@, reference@),
{
    url::Url::parse(base).ok().and_then(|b| b.join(reference).ok()).map(|u| u.to_string())
}

/// A notice found in a feed.
#[derive(Clone, Debug)]
pub struct Notice {
    pub title: String,
    pub excerpt: String,
    pub url: String,
}

pub ghost struct NoticeView {
    pub title: Seq<char>,
    pub excerpt: Seq<char>,
    pub url: Seq<char>,
}

impl View for Notice {
    type V = NoticeView;

    open spec fn view(&self) -> NoticeView {
        NoticeView { title: self.title@, excerpt: self.excerpt@, url: self.url@ }
    }
}

pub open spec fn notices_view(v: Seq<Notice>) -> Seq<NoticeView> {
    Seq::new(v.len(), |i: int| v[i]@)
}

/// The notice's link made absolute against the feed address; the feed
/// address itself when that fails.
pub open spec fn absolute_url_spec(source: Seq<char>, notice: Seq<char>) -> Seq<char> {
    match joined_url(source, notice) {
        Some(u) => u,
        None => source,
    }
}

pub fn absolute_url(source: &str, notice: &str) -> (r: String)
    ensures
        r@ == absolute_url_spec(source@, notice@),
{
    match join_url(source, notice) {
        Some(u) => u,
        None => String::from_str(source),
    }
}

/// End (exclusive) of the run of nodes from `k` on that are deeper than `d`.
pub open spec fn end_from(nodes: Seq<DocNodeView>, d: nat, k: int) -> int
    decreases nodes.len() - k,
{
    if k < 0 || k >= nodes.len() {
        nodes.len() as int
    } else if nodes[k].depth <= d {
        k
    } else {
        end_from(nodes, d, k + 1)
    }
}

/// End (exclusive) of the subtree of node `i`.
pub open spec fn subtree_end(nodes: Seq<DocNodeView>, i: int) -> int {
    end_from(nodes, nodes[i].depth, i + 1)
}

/// An element whose name is one of `names`.
pub open spec fn named_in(n: DocNodeView, names: Seq<Seq<char>>) -> bool {
    n.name matches Some(nm) && names.contains(nm)
}

/// First index in `from..to` of an element named in `names` (and at depth
/// `depth`, when one is given).
pub open spec fn first_named(
    nodes: Seq<DocNodeView>,
    from: int,
    to: int,
    names: Seq<Seq<char>>,
    depth: Option<nat>,
) -> Option<int>
    decreases to - from,
{
    if from >= to || from < 0 || to > nodes.len() {
        None
    } else if named_in(nodes[from], names) && (depth matches Some(d) ==> nodes[from].depth == d) {
        Some(from)
    } else {
        first_named(nodes, from + 1, to, names, depth)
    }
}

/// The first child element of node `i` named in `names` (`children()` then
/// `find`).
pub open spec fn first_child_named(nodes: Seq<DocNodeView>, i: int, names: Seq<Seq<char>>) -> Option<int> {
    first_named(nodes, i + 1, subtree_end(nodes, i), names, Some(nodes[i].depth + 1))
}

/// The first element below node `i` named in `names` (`select(..).next()`).
pub open spec fn first_descendant_named(nodes: Seq<DocNodeView>, i: int, names: Seq<Seq<char>>) -> Option<int> {
    first_named(nodes, i + 1, subtree_end(nodes, i), names, None)
}

/// The text nodes' contents in `from..to`, in order.
pub open spec fn texts_between(nodes: Seq<DocNodeView>, from: int, to: int) -> Seq<Seq<char>>
    decreases to - from,
{
    if to <= from || to > nodes.len() {
        seq![]
    } else {
        let prev = texts_between(nodes, from, to - 1);
        match nodes[to - 1].text {
            Some(t) => prev.push(t),
            None => prev,
        }
    }
}

/// The text of node `i`: its subtree's text pieces joined with spaces, with
/// whitespace then collapsed (`text_of`).
pub open spec fn text_of_spec(nodes: Seq<DocNodeView>, i: int) -> Seq<char> {
    collapse_ws(join_with(texts_between(nodes, i, subtree_end(nodes, i)), seq![' ']))
}

/// The text of an XML node: its subtree's text pieces joined with spaces,
/// read again as an HTML fragment (which drops markup and decodes entities
/// inside CDATA), those pieces joined with spaces, and whitespace collapsed
/// (`xml_node_text`).
pub open spec fn xml_text_spec(nodes: Seq<DocNodeView>, i: int) -> Seq<char> {
    collapse_ws(
        join_with(
            html_fragment_text(join_with(texts_between(nodes, i, subtree_end(nodes, i)), seq![' '])),
            seq![' '],
        ),
    )
}

/// Indices of the elements named in `names` among the first `upto` nodes.
pub open spec fn named_indices(nodes: Seq<DocNodeView>, names: Seq<Seq<char>>, upto: int) -> Seq<int>
    decreases upto,
{
    if upto <= 0 || upto > nodes.len() {
        seq![]
    } else {
        let prev = named_indices(nodes, names, upto - 1);
        if named_in(nodes[upto - 1], names) {
            prev.push(upto - 1)
        } else {
            prev
        }
    }
}

pub open spec fn entry_names() -> Seq<Seq<char>> {
    seq!["item"@, "entry"@]
}

pub open spec fn title_names() -> Seq<Seq<char>> {
    seq!["title"@]
}

pub open spec fn excerpt_names() -> Seq<Seq<char>> {
    seq!["description"@, "summary"@, "content"@]
}

pub open spec fn link_names() -> Seq<Seq<char>> {
    seq!["link"@]
}

pub open spec fn heading_names() -> Seq<Seq<char>> {
    seq!["h1"@, "h2"@, "h3"@]
}

/// Where a notice's link points: the link element's `href`, else its text
/// when that is not empty, else the feed address.
pub open spec fn link_target(link: Option<int>, href: Option<Seq<char>>, text: Seq<char>, source: Seq<char>) -> Seq<char> {
    match link {
        None => source,
        Some(_) => match href {
            Some(h) => h,
            None => if text.len() > 0 {
                text
            } else {
                source
            },
        },
    }
}

/// The notice of the XML entry at node `e`.
pub open spec fn xml_notice(nodes: Seq<DocNodeView>, e: int, source: Seq<char>) -> NoticeView {
    let title = match first_child_named(nodes, e, title_names()) {
        Some(t) => xml_text_spec(nodes, t),
        None => seq![],
    };
    let excerpt = match first_child_named(nodes, e, excerpt_names()) {
        Some(x) => xml_text_spec(nodes, x),
        None => seq![],
    };
    let link = first_child_named(nodes, e, link_names());
    let target = match link {
        Some(l) => link_target(link, nodes[l].href, xml_text_spec(nodes, l), source),
        None => source,
    };
    NoticeView { title, excerpt, url: absolute_url_spec(source, target) }
}

/// The notice of the HTML element at node `e`.
pub open spec fn html_notice(nodes: Seq<DocNodeView>, e: int, source: Seq<char>) -> NoticeView {
    let title = match first_descendant_named(nodes, e, title_names()) {
        Some(t) => text_of_spec(nodes, t),
        None => seq![],
    };
    let excerpt = match first_descendant_named(nodes, e, excerpt_names()) {
        Some(x) => text_of_spec(nodes, x),
        None => seq![],
    };
    let link = first_descendant_named(nodes, e, link_names());
    let target = match link {
        Some(l) => link_target(link, nodes[l].href, text_of_spec(nodes, l), source),
        None => source,
    };
    NoticeView { title, excerpt, url: absolute_url_spec(source, target) }
}

/// Notices of an XML node list: one per `item` or `entry` element, or
/// `None` when there is none.
pub open spec fn xml_notices_spec(nodes: Seq<DocNodeView>, source: Seq<char>) -> Option<Seq<NoticeView>> {
    let es = named_indices(nodes, entry_names(), nodes.len() as int);
    if es.len() == 0 {
        None
    } else {
        Some(Seq::new(es.len(), |j: int| xml_notice(nodes, es[j], source)))
    }
}

/// Document indices, in arena order among the first `upto` entries of
/// `arena`, of the elements named in `names` (`Html::select`).
pub open spec fn arena_named(
    nodes: Seq<DocNodeView>,
    arena: Seq<Option<int>>,
    names: Seq<Seq<char>>,
    upto: int,
) -> Seq<int>
    decreases upto,
{
    if upto <= 0 || upto > arena.len() {
        seq![]
    } else {
        let prev = arena_named(nodes, arena, names, upto - 1);
        match arena[upto - 1] {
            Some(k) => if 0 <= k < nodes.len() && named_in(nodes[k], names) {
                prev.push(k)
            } else {
                prev
            },
            None => prev,
        }
    }
}

/// The heading notices for the heading elements `hs` (in the order given),
/// among the first `upto` of them: one per heading whose text is not empty.
pub open spec fn heading_notices_upto(nodes: Seq<DocNodeView>, hs: Seq<int>, source: Seq<char>, upto: int) -> Seq<NoticeView>
    decreases upto,
{
    if upto <= 0 || upto > hs.len() {
        seq![]
    } else {
        let prev = heading_notices_upto(nodes, hs, source, upto - 1);
        let t = text_of_spec(nodes, hs[upto - 1]);
        if t.len() > 0 {
            prev.push(NoticeView { title: t, excerpt: seq![], url: source })
        } else {
            prev
        }
    }
}

/// The heading notices of an HTML document: one per `h1`/`h2`/`h3` element
/// whose text is not empty, in arena order.
pub open spec fn heading_notices(nodes: Seq<DocNodeView>, arena: Seq<Option<int>>, source: Seq<char>) -> Seq<NoticeView> {
    let hs = arena_named(nodes, arena, heading_names(), arena.len() as int);
    heading_notices_upto(nodes, hs, source, hs.len() as int)
}

/// Notices of an HTML document, given its nodes in document order and their
/// arena order: one per `item` or `entry` element, else one per non-empty
/// heading, each listed in arena order as `Html::select` lists them. An
/// element outside the document tree is not listed.
pub open spec fn html_notices_spec(nodes: Seq<DocNodeView>, arena: Seq<Option<int>>, source: Seq<char>) -> Seq<NoticeView> {
    let es = arena_named(nodes, arena, entry_names(), arena.len() as int);
    if es.len() > 0 {
        Seq::new(es.len(), |j: int| html_notice(nodes, es[j], source))
    } else {
        heading_notices(nodes, arena, source)
    }
}

/// The notices of a feed text: the XML reading when the text is XML with
/// entries, else the HTML reading.
pub open spec fn notices_spec(text: Seq<char>, source: Seq<char>) -> Seq<NoticeView> {
    match xml_document(text) {
        Some(nodes) => match xml_notices_spec(nodes, source) {
            Some(ns) => ns,
            None => html_notices_spec(html_document(text), html_arena_positions(text), source),
        },
        None => html_notices_spec(html_document(text), html_arena_positions(text), source),
    }
}


fn subtree_end_exec(nodes: &Vec<DocNode>, i: usize) -> (r: usize)
    requires
        i < nodes.len(),
    ensures
        r == subtree_end(nodes_view(nodes@), i as int),
        i < r <= nodes.len(),
{
    let ghost nv = nodes_view(nodes@);
    let d = nodes[i].depth;
    let n = nodes.len();
    let mut k = i + 1;
    while k < n && nodes[k].depth > d
        invariant
            nv == nodes_view(nodes@),
            n == nodes.len(),
            i < k <= n,
            d == nv[i as int].depth,
            end_from(nv, d as nat, i + 1) == end_from(nv, d as nat, k as int),
        decreases n - k,
    {
        assert(nv[k as int].depth == nodes@[k as int].depth);
        k += 1;
    }
    if k < n {
        assert(nv[k as int].depth == nodes@[k as int].depth);
    }
    k
}

fn opt_chars(o: &Option<String>) -> (r: Option<Vec<char>>)
    ensures
        match r {
            Some(v) => opt_str_view(*o) == Some(v@),
            None => opt_str_view(*o) is None,
        },
{
    match o {
        Some(s) => Some(chars_of(s.as_str())),
        None => None,
    }
}

fn is_named_in(n: &DocNode, names: &Vec<Vec<char>>) -> (r: bool)
    ensures
        r == named_in(n@, seqs_of(names@)),
{
    match opt_chars(&n.name) {
        None => false,
        Some(nm) => {
            let k = names.len();
            let mut j: usize = 0;
            while j < k
                invariant
                    k == names.len(),
                    j <= k,
                    n@.name == Some(nm@),
                    forall|q: int| 0 <= q < j ==> seqs_of(names@)[q] != nm@,
                decreases k - j,
            {
                if same_chars(&names[j], &nm) {
                    assert(seqs_of(names@)[j as int] == nm@);
                    return true;
                }
                j += 1;
            }
            assert(!seqs_of(names@).contains(nm@));
            false
        },
    }
}

fn first_named_exec(
    nodes: &Vec<DocNode>,
    from: usize,
    to: usize,
    names: &Vec<Vec<char>>,
    depth: Option<usize>,
) -> (r: Option<usize>)
    requires
        from <= to <= nodes.len(),
    ensures
        match r {
            Some(k) => first_named(
                nodes_view(nodes@),
                from as int,
                to as int,
                seqs_of(names@),
                match depth {
                    Some(d) => Some(d as nat),
                    None => None,
                },
            ) == Some(k as int),
            None => first_named(
                nodes_view(nodes@),
                from as int,
                to as int,
                seqs_of(names@),
                match depth {
                    Some(d) => Some(d as nat),
                    None => None,
                },
            ) is None,
        },
{
    let ghost nv = nodes_view(nodes@);
    let ghost gd: Option<nat> = match depth {
        Some(d) => Some(d as nat),
        None => None,
    };
    let mut k = from;
    while k < to
        invariant
            nv == nodes_view(nodes@),
            from <= k <= to <= nodes.len(),
            gd == match depth {
                Some(d) => Some(d as nat),
                None => None::<nat>,
            },
            first_named(nv, from as int, to as int, seqs_of(names@), gd) == first_named(
                nv,
                k as int,
                to as int,
                seqs_of(names@),
                gd,
            ),
        decreases to - k,
    {
        assert(nv[k as int] == nodes@[k as int]@);
        let depth_ok = match depth {
            Some(d) => nodes[k].depth == d,
            None => true,
        };
        if is_named_in(&nodes[k], names) && depth_ok {
            return Some(k);
        }
        k += 1;
    }
    None
}

fn texts_in(nodes: &Vec<DocNode>, from: usize, to: usize) -> (r: Vec<Vec<char>>)
    requires
        from <= to <= nodes.len(),
    ensures
        seqs_of(r@) == texts_between(nodes_view(nodes@), from as int, to as int),
{
    let ghost nv = nodes_view(nodes@);
    let mut out: Vec<Vec<char>> = Vec::new();
    let mut k = from;
    while k < to
        invariant
            nv == nodes_view(nodes@),
            from <= k <= to <= nodes.len(),
            seqs_of(out@) == texts_between(nv, from as int, k as int),
        decreases to - k,
    {
        assert(nv[k as int] == nodes@[k as int]@);
        match opt_chars(&nodes[k].text) {
            Some(t) => {
                let ghost old_out = out@;
                out.push(t);
                assert(seqs_of(out@) =~= seqs_of(old_out).push(t@));
            },
            None => {},
        }
        k += 1;
    }
    out
}

fn space() -> (r: Vec<char>)
    ensures
        r@ == seq![' '],
{
    let mut v: Vec<char> = Vec::new();
    v.push(' ');
    v
}

/// The text of node `i` of an HTML document (`text_of`).
pub fn text_of(nodes: &Vec<DocNode>, i: usize) -> (r: Vec<char>)
    requires
        i < nodes.len(),
    ensures
        r@ == text_of_spec(nodes_view(nodes@), i as int),
{
    let end = subtree_end_exec(nodes, i);
    let pieces = texts_in(nodes, i, end);
    let joined = join(&pieces, &space());
    collapse_whitespace(&joined)
}

/// The text of node `i` of an XML document (`xml_node_text`).
pub fn xml_node_text(nodes: &Vec<DocNode>, i: usize) -> (r: Vec<char>)
    requires
        i < nodes.len(),
    ensures
        r@ == xml_text_spec(nodes_view(nodes@), i as int),
{
    let end = subtree_end_exec(nodes, i);
    let pieces = texts_in(nodes, i, end);
    let raw = string_of(&join(&pieces, &space()));
    let frag = fragment_texts(raw.as_str());
    let mut parts: Vec<Vec<char>> = Vec::new();
    let n = frag.len();
    let mut j: usize = 0;
    while j < n
        invariant
            n == frag.len(),
            j <= n,
            seqs_of(parts@) == crate::config::strings_view(frag@).take(j as int),
        decreases n - j,
    {
        let ghost old_parts = parts@;
        let c = chars_of(frag[j].as_str());
        parts.push(c);
        assert(seqs_of(parts@) =~= seqs_of(old_parts).push(c@));
        assert(seqs_of(parts@) =~= crate::config::strings_view(frag@).take(j + 1));
        j += 1;
    }
    assert(crate::config::strings_view(frag@).take(n as int) =~= crate::config::strings_view(frag@));
    let joined = join(&parts, &space());
    collapse_whitespace(&joined)
}

pub open spec fn indices_view(v: Seq<usize>) -> Seq<int> {
    Seq::new(v.len(), |i: int| v[i] as int)
}

fn named_positions(nodes: &Vec<DocNode>, names: &Vec<Vec<char>>) -> (r: Vec<usize>)
    ensures
        indices_view(r@) == named_indices(nodes_view(nodes@), seqs_of(names@), nodes@.len() as int),
        forall|j: int| 0 <= j < r@.len() ==> #[trigger] r@[j] < nodes@.len(),
{
    let ghost nv = nodes_view(nodes@);
    let n = nodes.len();
    let mut out: Vec<usize> = Vec::new();
    let mut k: usize = 0;
    while k < n
        invariant
            nv == nodes_view(nodes@),
            n == nodes.len(),
            k <= n,
            indices_view(out@) == named_indices(nv, seqs_of(names@), k as int),
            forall|j: int| 0 <= j < out@.len() ==> #[trigger] out@[j] < n,
        decreases n - k,
    {
        assert(nv[k as int] == nodes@[k as int]@);
        if is_named_in(&nodes[k], names) {
            let ghost old_out = out@;
            out.push(k);
            assert(indices_view(out@) =~= indices_view(old_out).push(k as int));
        }
        k += 1;
    }
    out
}

fn names1(a: &str) -> (r: Vec<Vec<char>>)
    ensures
        seqs_of(r@) == seq![a@],
{
    let mut v: Vec<Vec<char>> = Vec::new();
    v.push(chars_of(a));
    assert(seqs_of(v@) =~= seq![a@]);
    v
}

fn names2(a: &str, b: &str) -> (r: Vec<Vec<char>>)
    ensures
        seqs_of(r@) == seq![a@, b@],
{
    let mut v: Vec<Vec<char>> = Vec::new();
    v.push(chars_of(a));
    v.push(chars_of(b));
    assert(seqs_of(v@) =~= seq![a@, b@]);
    v
}

fn names3(a: &str, b: &str, c: &str) -> (r: Vec<Vec<char>>)
    ensures
        seqs_of(r@) == seq![a@, b@, c@],
{
    let mut v: Vec<Vec<char>> = Vec::new();
    v.push(chars_of(a));
    v.push(chars_of(b));
    v.push(chars_of(c));
    assert(seqs_of(v@) =~= seq![a@, b@, c@]);
    v
}


fn first_child_exec(nodes: &Vec<DocNode>, i: usize, names: &Vec<Vec<char>>) -> (r: Option<usize>)
    requires
        i < nodes.len(),
    ensures
        match r {
            Some(k) => first_child_named(nodes_view(nodes@), i as int, seqs_of(names@)) == Some(k as int) && k < nodes.len(),
            None => first_child_named(nodes_view(nodes@), i as int, seqs_of(names@)) is None,
        },
{
    let ghost nv = nodes_view(nodes@);
    let end = subtree_end_exec(nodes, i);
    assert(nv[i as int] == nodes@[i as int]@);
    if nodes[i].depth == usize::MAX {
        let ghost gd = Some(nv[i as int].depth + 1);
        assert forall|k: int| i + 1 <= k < end implies nv[k].depth != nv[i as int].depth + 1 by {
            assert(nv[k] == nodes@[k]@);
        }
        proof {
            lemma_first_named_none(nv, i + 1, end as int, seqs_of(names@), gd);
        }
        return None;
    }
    let r = first_named_exec(nodes, i + 1, end, names, Some(nodes[i].depth + 1));
    proof {
        lemma_first_named_bounds(nv, i + 1, end as int, seqs_of(names@), Some(nv[i as int].depth + 1));
    }
    r
}

proof fn lemma_first_named_none(
    nv: Seq<DocNodeView>,
    from: int,
    to: int,
    names: Seq<Seq<char>>,
    depth: Option<nat>,
)
    requires
        depth matches Some(d) && forall|k: int| from <= k < to ==> nv[k].depth != d,
    ensures
        first_named(nv, from, to, names, depth) is None,
    decreases to - from,
{
    if from < to {
        lemma_first_named_none(nv, from + 1, to, names, depth);
    }
}

fn first_descendant_exec(nodes: &Vec<DocNode>, i: usize, names: &Vec<Vec<char>>) -> (r: Option<usize>)
    requires
        i < nodes.len(),
    ensures
        match r {
            Some(k) => first_descendant_named(nodes_view(nodes@), i as int, seqs_of(names@)) == Some(k as int) && k < nodes.len(),
            None => first_descendant_named(nodes_view(nodes@), i as int, seqs_of(names@)) is None,
        },
{
    let end = subtree_end_exec(nodes, i);
    let r = first_named_exec(nodes, i + 1, end, names, None);
    proof {
        lemma_first_named_bounds(nodes_view(nodes@), i + 1, end as int, seqs_of(names@), None);
    }
    r
}

proof fn lemma_first_named_bounds(
    nv: Seq<DocNodeView>,
    from: int,
    to: int,
    names: Seq<Seq<char>>,
    depth: Option<nat>,
)
    ensures
        first_named(nv, from, to, names, depth) matches Some(k) ==> from <= k < to && to <= nv.len(),
    decreases to - from,
{
    if from < to && from >= 0 && to <= nv.len() {
        lemma_first_named_bounds(nv, from + 1, to, names, depth);
    }
}

/// Where a notice's link points (`href`, else non-empty text, else the feed).
fn link_target_exec(nodes: &Vec<DocNode>, link: Option<usize>, text: Vec<char>, source: &str) -> (r: Vec<char>)
    requires
        link matches Some(l) ==> l < nodes.len(),
    ensures
        r@ == link_target(
            match link {
                Some(l) => Some(l as int),
                None => None,
            },
            match link {
                Some(l) => nodes_view(nodes@)[l as int].href,
                None => None,
            },
            text@,
            source@,
        ),
{
    match link {
        None => chars_of(source),
        Some(l) => {
            assert(nodes_view(nodes@)[l as int] == nodes@[l as int]@);
            match opt_chars(&nodes[l].href) {
                Some(h) => h,
                None => if text.len() > 0 {
                    text
                } else {
                    chars_of(source)
                },
            }
        },
    }
}

fn xml_notice_exec(nodes: &Vec<DocNode>, e: usize, source: &str) -> (r: Notice)
    requires
        e < nodes.len(),
    ensures
        r@ == xml_notice(nodes_view(nodes@), e as int, source@),
{
    let ghost nv = nodes_view(nodes@);
    let t = first_child_exec(nodes, e, &names1("title"));
    let title = match t {
        Some(k) => xml_node_text(nodes, k),
        None => Vec::new(),
    };
    let x = first_child_exec(nodes, e, &names3("description", "summary", "content"));
    let excerpt = match x {
        Some(k) => xml_node_text(nodes, k),
        None => Vec::new(),
    };
    let l = first_child_exec(nodes, e, &names1("link"));
    let link_text = match l {
        Some(k) => xml_node_text(nodes, k),
        None => Vec::new(),
    };
    let target = link_target_exec(nodes, l, link_text, source);
    let url = absolute_url(source, string_of(&target).as_str());
    let r = Notice { title: string_of(&title), excerpt: string_of(&excerpt), url };
    assert(title_names() =~= seq!["title"@]);
    assert(excerpt_names() =~= seq!["description"@, "summary"@, "content"@]);
    assert(link_names() =~= seq!["link"@]);
    r
}

fn html_notice_exec(nodes: &Vec<DocNode>, e: usize, source: &str) -> (r: Notice)
    requires
        e < nodes.len(),
    ensures
        r@ == html_notice(nodes_view(nodes@), e as int, source@),
{
    let t = first_descendant_exec(nodes, e, &names1("title"));
    let title = match t {
        Some(k) => text_of(nodes, k),
        None => Vec::new(),
    };
    let x = first_descendant_exec(nodes, e, &names3("description", "summary", "content"));
    let excerpt = match x {
        Some(k) => text_of(nodes, k),
        None => Vec::new(),
    };
    let l = first_descendant_exec(nodes, e, &names1("link"));
    let link_text = match l {
        Some(k) => text_of(nodes, k),
        None => Vec::new(),
    };
    let target = link_target_exec(nodes, l, link_text, source);
    let url = absolute_url(source, string_of(&target).as_str());
    let r = Notice { title: string_of(&title), excerpt: string_of(&excerpt), url };
    assert(title_names() =~= seq!["title"@]);
    assert(excerpt_names() =~= seq!["description"@, "summary"@, "content"@]);
    assert(link_names() =~= seq!["link"@]);
    r
}

/// The notices of an XML node list (`parse_xml_notices` after parsing).
pub fn notices_from_xml_nodes(nodes: &Vec<DocNode>, source: &str) -> (r: Option<Vec<Notice>>)
    ensures
        match r {
            Some(v) => xml_notices_spec(nodes_view(nodes@), source@) == Some(notices_view(v@)),
            None => xml_notices_spec(nodes_view(nodes@), source@) is None,
        },
{
    let ghost nv = nodes_view(nodes@);
    let names = names2("item", "entry");
    assert(entry_names() =~= seq!["item"@, "entry"@]);
    let es = named_positions(nodes, &names);
    if es.len() == 0 {
        return None;
    }
    let ghost ges = named_indices(nv, entry_names(), nv.len() as int);
    let mut out: Vec<Notice> = Vec::new();
    let m = es.len();
    let mut j: usize = 0;
    while j < m
        invariant
            nv == nodes_view(nodes@),
            m == es.len(),
            j <= m,
            ges == indices_view(es@),
            forall|q: int| 0 <= q < es@.len() ==> #[trigger] es@[q] < nodes@.len(),
            notices_view(out@) == Seq::new(j as nat, |q: int| xml_notice(nv, ges[q], source@)),
        decreases m - j,
    {
        let e = es[j];
        let note = xml_notice_exec(nodes, e, source);
        let ghost old_out = out@;
        let ghost note_view = note@;
        assert(ges[j as int] == e as int);
        out.push(note);
        assert(notices_view(out@) =~= notices_view(old_out).push(note_view));
        assert(notices_view(out@) =~= Seq::new((j + 1) as nat, |q: int| xml_notice(nv, ges[q], source@)));
        j += 1;
    }
    Some(out)
}

/// The notices of an XML feed, or `None` when `text` is not XML or holds no
/// `item` or `entry` element.
pub fn parse_xml_notices(text: &str, source_url: &str) -> (r: Option<Vec<Notice>>)
    ensures
        match r {
            Some(v) => match xml_document(text@) {
                Some(nodes) => xml_notices_spec(nodes, source_url@) == Some(notices_view(v@)),
                None => false,
            },
            None => match xml_document(text@) {
                Some(nodes) => xml_notices_spec(nodes, source_url@) is None,
                None => true,
            },
        },
{
    match parse_xml_nodes(text) {
        None => None,
        Some(nodes) => notices_from_xml_nodes(&nodes, source_url),
    }
}

fn arena_named_positions(nodes: &Vec<DocNode>, arena: &Vec<Option<usize>>, names: &Vec<Vec<char>>) -> (r: Vec<usize>)
    ensures
        indices_view(r@) == arena_named(nodes_view(nodes@), positions_view(arena@), seqs_of(names@), arena@.len() as int),
        forall|j: int| 0 <= j < r@.len() ==> #[trigger] r@[j] < nodes@.len(),
{
    let ghost nv = nodes_view(nodes@);
    let ghost av = positions_view(arena@);
    let n = arena.len();
    let mut out: Vec<usize> = Vec::new();
    let mut k: usize = 0;
    while k < n
        invariant
            nv == nodes_view(nodes@),
            av == positions_view(arena@),
            n == arena.len(),
            k <= n,
            indices_view(out@) == arena_named(nv, av, seqs_of(names@), k as int),
            forall|j: int| 0 <= j < out@.len() ==> #[trigger] out@[j] < nodes@.len(),
        decreases n - k,
    {
        match arena[k] {
            Some(p) => {
                if p < nodes.len() {
                    assert(nv[p as int] == nodes@[p as int]@);
                    if is_named_in(&nodes[p], names) {
                        let ghost old_out = out@;
                        out.push(p);
                        assert(indices_view(out@) =~= indices_view(old_out).push(p as int));
                    }
                }
            },
            None => {},
        }
        k += 1;
    }
    out
}

fn heading_notices_exec(nodes: &Vec<DocNode>, arena: &Vec<Option<usize>>, source: &str) -> (r: Vec<Notice>)
    ensures
        notices_view(r@) == heading_notices(nodes_view(nodes@), positions_view(arena@), source@),
{
    let ghost nv = nodes_view(nodes@);
    let names = names3("h1", "h2", "h3");
    assert(heading_names() =~= seq!["h1"@, "h2"@, "h3"@]);
    let hs = arena_named_positions(nodes, arena, &names);
    let ghost ghs = indices_view(hs@);
    let m = hs.len();
    let mut out: Vec<Notice> = Vec::new();
    let mut j: usize = 0;
    while j < m
        invariant
            nv == nodes_view(nodes@),
            m == hs.len(),
            j <= m,
            ghs == indices_view(hs@),
            forall|q: int| 0 <= q < hs@.len() ==> #[trigger] hs@[q] < nodes@.len(),
            notices_view(out@) == heading_notices_upto(nv, ghs, source@, j as int),
        decreases m - j,
    {
        let k = hs[j];
        assert(ghs[j as int] == k as int);
        let title = text_of(nodes, k);
        if title.len() > 0 {
            let ghost old_out = out@;
            out.push(Notice { title: string_of(&title), excerpt: String::new(), url: String::from_str(source) });
            assert(notices_view(out@) =~= notices_view(old_out).push(NoticeView { title: title@, excerpt: seq![], url: source@ }));
        }
        j += 1;
    }
    out
}

/// The notices of an HTML document, given its nodes in document order and,
/// in arena order, each node's index in that list (the HTML half of
/// `parse_notices`).
pub fn notices_from_html_nodes(nodes: &Vec<DocNode>, arena: &Vec<Option<usize>>, source: &str) -> (r: Vec<Notice>)
    ensures
        notices_view(r@) == html_notices_spec(nodes_view(nodes@), positions_view(arena@), source@),
{
    let ghost nv = nodes_view(nodes@);
    let names = names2("item", "entry");
    assert(entry_names() =~= seq!["item"@, "entry"@]);
    let es = arena_named_positions(nodes, arena, &names);
    if es.len() == 0 {
        return heading_notices_exec(nodes, arena, source);
    }
    let ghost ges = indices_view(es@);
    let mut out: Vec<Notice> = Vec::new();
    let m = es.len();
    let mut j: usize = 0;
    while j < m
        invariant
            nv == nodes_view(nodes@),
            m == es.len(),
            j <= m,
            ges == indices_view(es@),
            forall|q: int| 0 <= q < es@.len() ==> #[trigger] es@[q] < nodes@.len(),
            notices_view(out@) == Seq::new(j as nat, |q: int| html_notice(nv, ges[q], source@)),
        decreases m - j,
    {
        let e = es[j];
        let note = html_notice_exec(nodes, e, source);
        let ghost old_out = out@;
        let ghost note_view = note@;
        assert(ges[j as int] == e as int);
        out.push(note);
        assert(notices_view(out@) =~= notices_view(old_out).push(note_view));
        assert(notices_view(out@) =~= Seq::new((j + 1) as nat, |q: int| html_notice(nv, ges[q], source@)));
        j += 1;
    }
    out
}

/// The notices of a feed: its XML entries when `text` is XML that has
/// some, else its HTML `item`/`entry` elements, else its non-empty
/// headings.
pub fn parse_notices(text: &str, source_url: &str) -> (r: Vec<Notice>)
    ensures
        notices_view(r@) == notices_spec(text@, source_url@),
{
    match parse_xml_nodes(text) {
        Some(nodes) => match notices_from_xml_nodes(&nodes, source_url) {
            Some(v) => return v,
            None => {},
        },
        None => {},
    }
    let nodes = parse_html_nodes(text);
    let arena = parse_html_arena(text);
    notices_from_html_nodes(&nodes, &arena, source_url)
}


/// An element of `nodes[k]` with one of `names`, at depth `d` when a depth is
/// asked for.
pub open spec fn wanted(nodes: Seq<DocNodeView>, k: int, names: Seq<Seq<char>>, depth: Option<nat>) -> bool {
    &&& nodes[k].name is Some
    &&& names.contains(nodes[k].name->0)
    &&& depth matches Some(d) ==> nodes[k].depth == d
}

/// The search for a named element gives the first wanted element of the
/// range, or none when the range has none.
pub proof fn law_first_named(
    nodes: Seq<DocNodeView>,
    from: int,
    to: int,
    names: Seq<Seq<char>>,
    depth: Option<nat>,
)
    requires
        0 <= from,
        to <= nodes.len(),
    ensures
        match first_named(nodes, from, to, names, depth) {
            Some(k) => from <= k < to && nodes[k].name is Some && names.contains(nodes[k].name->0) && (
            depth matches Some(d) ==> nodes[k].depth == d) && forall|j: int|
                from <= j < k ==> !wanted(nodes, j, names, depth),
            None => forall|j: int| from <= j < to ==> !wanted(nodes, j, names, depth),
        },
    decreases to - from,
{
    if from < to {
        law_first_named(nodes, from + 1, to, names, depth);
        if !wanted(nodes, from, names, depth) {
            assert(!(named_in(nodes[from], names) && (depth matches Some(d) ==> nodes[from].depth == d)));
        }
    }
}

/// A node's subtree is the run of deeper nodes right after it.
pub proof fn law_subtree_end(nodes: Seq<DocNodeView>, i: int)
    requires
        0 <= i < nodes.len(),
    ensures
        i < subtree_end(nodes, i) <= nodes.len(),
        forall|k: int| i < k < subtree_end(nodes, i) ==> nodes[k].depth > nodes[i].depth,
        subtree_end(nodes, i) < nodes.len() ==> nodes[subtree_end(nodes, i)].depth <= nodes[i].depth,
{
    lemma_end_from(nodes, nodes[i].depth, i + 1);
}

proof fn lemma_end_from(nodes: Seq<DocNodeView>, d: nat, k: int)
    requires
        0 <= k <= nodes.len(),
    ensures
        k <= end_from(nodes, d, k) <= nodes.len(),
        forall|j: int| k <= j < end_from(nodes, d, k) ==> nodes[j].depth > d,
        end_from(nodes, d, k) < nodes.len() ==> nodes[end_from(nodes, d, k)].depth <= d,
    decreases nodes.len() - k,
{
    if k < nodes.len() && nodes[k].depth > d {
        lemma_end_from(nodes, d, k + 1);
    }
}

/// The text of an XML node: the text pieces of its subtree, joined with
/// spaces, read again as an HTML fragment, those pieces joined with spaces
/// and the whitespace collapsed.
pub proof fn law_xml_text(nodes: Seq<DocNodeView>, i: int)
    ensures
        xml_text_spec(nodes, i) == collapse_ws(
            join_with(
                html_fragment_text(join_with(texts_between(nodes, i, subtree_end(nodes, i)), seq![' '])),
                seq![' '],
            ),
        ),
{
}

/// The text of an HTML node: the text pieces of its subtree joined with
/// spaces, whitespace collapsed.
pub proof fn law_html_text(nodes: Seq<DocNodeView>, i: int)
    ensures
        text_of_spec(nodes, i) == collapse_ws(join_with(texts_between(nodes, i, subtree_end(nodes, i)), seq![' '])),
{
}

/// The URL a notice gets for its link element `link` (if any): the
/// element's `href`, else its text when not empty, else the feed address,
/// resolved against the feed address.
pub open spec fn notice_url(source: Seq<char>, link: Option<int>, href: Option<Seq<char>>, text: Seq<char>) -> Seq<char> {
    match link {
        None => absolute_url_spec(source, source),
        Some(_) => match href {
            Some(h) => absolute_url_spec(source, h),
            None => if text.len() > 0 {
                absolute_url_spec(source, text)
            } else {
                absolute_url_spec(source, source)
            },
        },
    }
}

/// An XML feed with `item` or `entry` elements gives one notice per such
/// element, in document order. A notice's title is the text of the entry's
/// first `title` child, and its excerpt that of its first `description`,
/// `summary` or `content` child, each read as an HTML fragment (so markup
/// is dropped and entities are decoded); a missing child gives empty text.
/// Its URL comes from the first `link` child.
pub proof fn law_xml_entries(text: Seq<char>, source: Seq<char>)
    requires
        xml_document(text) matches Some(nodes) && named_indices(nodes, seq!["item"@, "entry"@], nodes.len() as int).len()
            > 0,
    ensures
        ({
            let nodes = xml_document(text)->0;
            let es = named_indices(nodes, seq!["item"@, "entry"@], nodes.len() as int);
            let ns = notices_spec(text, source);
            &&& ns.len() == es.len()
            &&& forall|j: int|
                0 <= j < es.len() ==> {
                    let e = #[trigger] es[j];
                    let t = first_named(nodes, e + 1, subtree_end(nodes, e), seq!["title"@], Some(nodes[e].depth + 1));
                    let x = first_named(
                        nodes,
                        e + 1,
                        subtree_end(nodes, e),
                        seq!["description"@, "summary"@, "content"@],
                        Some(nodes[e].depth + 1),
                    );
                    let l = first_named(nodes, e + 1, subtree_end(nodes, e), seq!["link"@], Some(nodes[e].depth + 1));
                    &&& ns[j].title == match t {
                        Some(k) => xml_text_spec(nodes, k),
                        None => seq![],
                    }
                    &&& ns[j].excerpt == match x {
                        Some(k) => xml_text_spec(nodes, k),
                        None => seq![],
                    }
                    &&& ns[j].url == match l {
                        Some(k) => notice_url(source, l, nodes[k].href, xml_text_spec(nodes, k)),
                        None => notice_url(source, l, None, seq![]),
                    }
                }
        }),
{
    let nodes = xml_document(text)->0;
    assert(entry_names() =~= seq!["item"@, "entry"@]);
    assert(title_names() =~= seq!["title"@]);
    assert(excerpt_names() =~= seq!["description"@, "summary"@, "content"@]);
    assert(link_names() =~= seq!["link"@]);
}

/// An HTML document with `item` or `entry` elements gives one notice per
/// such element, in the order `Html::select` lists them. A notice's title
/// is the text of the first `title` element inside the entry, and its
/// excerpt that of the first `description`, `summary` or `content` element
/// inside it; its URL comes from the first `link` element inside it.
pub proof fn law_html_entries(nodes: Seq<DocNodeView>, arena: Seq<Option<int>>, source: Seq<char>)
    requires
        arena_named(nodes, arena, seq!["item"@, "entry"@], arena.len() as int).len() > 0,
    ensures
        ({
            let es = arena_named(nodes, arena, seq!["item"@, "entry"@], arena.len() as int);
            let ns = html_notices_spec(nodes, arena, source);
            &&& ns.len() == es.len()
            &&& forall|j: int|
                0 <= j < es.len() ==> {
                    let e = #[trigger] es[j];
                    let t = first_named(nodes, e + 1, subtree_end(nodes, e), seq!["title"@], None);
                    let x = first_named(
                        nodes,
                        e + 1,
                        subtree_end(nodes, e),
                        seq!["description"@, "summary"@, "content"@],
                        None,
                    );
                    let l = first_named(nodes, e + 1, subtree_end(nodes, e), seq!["link"@], None);
                    &&& ns[j].title == match t {
                        Some(k) => text_of_spec(nodes, k),
                        None => seq![],
                    }
                    &&& ns[j].excerpt == match x {
                        Some(k) => text_of_spec(nodes, k),
                        None => seq![],
                    }
                    &&& ns[j].url == match l {
                        Some(k) => notice_url(source, l, nodes[k].href, text_of_spec(nodes, k)),
                        None => notice_url(source, l, None, seq![]),
                    }
                }
        }),
{
    assert(entry_names() =~= seq!["item"@, "entry"@]);
    assert(title_names() =~= seq!["title"@]);
    assert(excerpt_names() =~= seq!["description"@, "summary"@, "content"@]);
    assert(link_names() =~= seq!["link"@]);
}

/// The arena walk keeps, in arena order, exactly the positions that name a
/// node of the document with one of `names`.
pub proof fn law_arena_named(nodes: Seq<DocNodeView>, arena: Seq<Option<int>>, names: Seq<Seq<char>>, upto: int)
    requires
        0 <= upto <= arena.len(),
    ensures
        forall|j: int|
            0 <= j < arena_named(nodes, arena, names, upto).len() ==> {
                let k = #[trigger] arena_named(nodes, arena, names, upto)[j];
                0 <= k < nodes.len() && nodes[k].name is Some && names.contains(nodes[k].name->0)
            },
        arena_named(nodes, arena, names, upto).len() == 0 <==> forall|i: int|
            0 <= i < upto ==> !(#[trigger] arena[i] matches Some(k) && 0 <= k < nodes.len() && nodes[k].name is Some
                && names.contains(nodes[k].name->0)),
    decreases upto,
{
    if upto > 0 {
        law_arena_named(nodes, arena, names, upto - 1);
        let prev = arena_named(nodes, arena, names, upto - 1);
        let cur = arena_named(nodes, arena, names, upto);
        assert forall|j: int| 0 <= j < cur.len() implies {
            let k = #[trigger] cur[j];
            0 <= k < nodes.len() && nodes[k].name is Some && names.contains(nodes[k].name->0)
        } by {
            if j < prev.len() {
                assert(cur[j] == prev[j]);
            }
        }
    }
}

/// The texts of the heading elements `hs`, among the first `upto`.
pub open spec fn heading_texts(nodes: Seq<DocNodeView>, hs: Seq<int>, upto: int) -> Seq<Seq<char>> {
    Seq::new(upto as nat, |q: int| text_of_spec(nodes, hs[q]))
}

/// An HTML document without entries gives one notice per `h1`, `h2` or
/// `h3` element (in the order `Html::select` lists them) whose text is not
/// empty: titled with that text, with an empty excerpt and the feed
/// address as its URL.
pub proof fn law_html_headings(nodes: Seq<DocNodeView>, arena: Seq<Option<int>>, source: Seq<char>)
    requires
        arena_named(nodes, arena, seq!["item"@, "entry"@], arena.len() as int).len() == 0,
    ensures
        ({
            let hs = arena_named(nodes, arena, seq!["h1"@, "h2"@, "h3"@], arena.len() as int);
            html_notices_spec(nodes, arena, source) == heading_texts(nodes, hs, hs.len() as int).filter(
                |t: Seq<char>| t.len() > 0,
            ).map_values(|t: Seq<char>| NoticeView { title: t, excerpt: seq![], url: source })
        }),
{
    assert(entry_names() =~= seq!["item"@, "entry"@]);
    assert(heading_names() =~= seq!["h1"@, "h2"@, "h3"@]);
    let hs = arena_named(nodes, arena, seq!["h1"@, "h2"@, "h3"@], arena.len() as int);
    lemma_heading_upto(nodes, hs, source, hs.len() as int);
}

proof fn lemma_heading_upto(nodes: Seq<DocNodeView>, hs: Seq<int>, source: Seq<char>, upto: int)
    requires
        0 <= upto <= hs.len(),
    ensures
        heading_notices_upto(nodes, hs, source, upto) == heading_texts(nodes, hs, upto).filter(
            |t: Seq<char>| t.len() > 0,
        ).map_values(|t: Seq<char>| NoticeView { title: t, excerpt: seq![], url: source }),
    decreases upto,
{
    let p = |t: Seq<char>| t.len() > 0;
    let mk = |t: Seq<char>| NoticeView { title: t, excerpt: seq![], url: source };
    if upto == 0 {
        reveal_with_fuel(Seq::filter, 1);
        assert(heading_texts(nodes, hs, 0).filter(p) =~= Seq::<Seq<char>>::empty());
        assert(heading_texts(nodes, hs, 0).filter(p).map_values(mk) =~= Seq::<NoticeView>::empty());
    } else {
        lemma_heading_upto(nodes, hs, source, upto - 1);
        let prev = heading_texts(nodes, hs, upto - 1);
        let t = text_of_spec(nodes, hs[upto - 1]);
        assert(heading_texts(nodes, hs, upto) =~= prev.push(t));
        prev.lemma_filter_push(t, p);
        let f = prev.filter(p);
        if t.len() > 0 {
            assert(f.push(t).map_values(mk) =~= f.map_values(mk).push(mk(t)));
        }
    }
}

/// A feed that is not XML, or XML without entries, is read as HTML.
pub proof fn law_html_fallback(text: Seq<char>, source: Seq<char>)
    requires
        !(xml_document(text) matches Some(nodes) && named_indices(nodes, seq!["item"@, "entry"@], nodes.len() as int).len()
            > 0),
    ensures
        notices_spec(text, source) == html_notices_spec(html_document(text), html_arena_positions(text), source),
{
    assert(entry_names() =~= seq!["item"@, "entry"@]);
}

} // verus!
