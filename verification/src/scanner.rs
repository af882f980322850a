//! Browser bookmark trees: flattening Chromium and Safari trees into import
//! nodes, and the stable ids `<browser>-<original id>` given to them.

use vstd::prelude::*;
use crate::text::{chars_of, spec_to_lowercase, str_eq, string_from_chars, to_lowercase};

verus! {

/// One bookmark or folder found in a browser's bookmark file.
#[derive(Debug, Clone, PartialEq, Eq)]
pub struct ImportNode {
    /// The browser's own id of the node
    pub original_id: String,
    pub parent_original_id: Option<String>,
    pub title: String,
    pub url: Option<String>,
    pub is_folder: bool,
    pub browser: String,
}

/// An import node as plain values.
pub struct ImportNodeView {
    pub original_id: Seq<char>,
    pub parent_original_id: Option<Seq<char>>,
    pub title: Seq<char>,
    pub url: Option<Seq<char>>,
    pub is_folder: bool,
    pub browser: Seq<char>,
}

pub open spec fn opt_view(o: Option<String>) -> Option<Seq<char>> {
    match o {
        Some(s) => Some(s@),
        None => None,
    }
}

impl View for ImportNode {
    type V = ImportNodeView;

    open spec fn view(&self) -> ImportNodeView {
        ImportNodeView {
            original_id: self.original_id@,
            parent_original_id: opt_view(self.parent_original_id),
            title: self.title@,
            url: opt_view(self.url),
            is_folder: self.is_folder,
            browser: self.browser@,
        }
    }
}

pub open spec fn node_views(s: Seq<ImportNode>) -> Seq<ImportNodeView> {
    s.map_values(|n: ImportNode| n@)
}

fn clone_opt(o: &Option<String>) -> (r: Option<String>)
    ensures
        opt_view(r) == opt_view(*o),
{
    match o {
        Some(s) => Some(s.clone()),
        None => None,
    }
}

// ---------------------------------------------------------------------------
// Chromium
// ---------------------------------------------------------------------------

/// A node of a Chromium `Bookmarks` file.
#[derive(Debug)]
pub struct ChromeBookmarkNode {
    pub id: String,
    pub name: String,
    pub url: Option<String>,
    pub children: Option<Vec<ChromeBookmarkNode>>,
    /// `"folder"` or `"url"`
    pub node_type: String,
}

pub open spec fn chrome_node_view(node: ChromeBookmarkNode, parent: Option<Seq<char>>, browser: Seq<char>) -> ImportNodeView {
    ImportNodeView {
        original_id: node.id@,
        parent_original_id: parent,
        title: node.name@,
        url: opt_view(node.url),
        is_folder: node.node_type@ == "folder"@,
        browser,
    }
}

/// The node followed by all its descendants, depth first, each child under
/// its parent's id.
pub open spec fn chrome_flatten(node: ChromeBookmarkNode, parent: Option<Seq<char>>, browser: Seq<char>) -> Seq<ImportNodeView>
    decreases node, 1nat,
{
    seq![chrome_node_view(node, parent, browser)] + match node.children {
        Some(ch) => chrome_flatten_all(ch@, node.id@, browser),
        None => Seq::empty(),
    }
}

/// The flattening of each node of `nodes` under `parent`, in order.
pub open spec fn chrome_flatten_all(nodes: Seq<ChromeBookmarkNode>, parent: Seq<char>, browser: Seq<char>) -> Seq<ImportNodeView>
    decreases nodes, 0nat,
{
    if nodes.len() == 0 {
        Seq::empty()
    } else {
        chrome_flatten_all(nodes.drop_last(), parent, browser) + chrome_flatten(nodes.last(), Some(parent), browser)
    }
}

/// Appends `node` and its descendants (depth first) to `result`, `node`
/// under `parent_id` and each child under its parent's id.
pub fn traverse_chrome_recursive(
    node: &ChromeBookmarkNode,
    parent_id: Option<String>,
    result: &mut Vec<ImportNode>,
    browser: &str,
)
    ensures
        node_views(final(result)@) == node_views(old(result)@) + chrome_flatten(*node, opt_view(parent_id), browser@),
    decreases node, 1nat,
{
    let ghost parent_view = opt_view(parent_id);
    let is_folder = str_eq(node.node_type.as_str(), "folder");
    let entry = ImportNode {
        original_id: node.id.clone(),
        parent_original_id: parent_id,
        title: node.name.clone(),
        url: clone_opt(&node.url),
        is_folder,
        browser: String::from_str(browser),
    };
    let ghost before = result@;
    result.push(entry);
    assert(node_views(result@) == node_views(before).push(chrome_node_view(*node, parent_view, browser@)));
    match &node.children {
        Some(children) => {
            let ghost mid = result@;
            traverse_chrome_children(children, &node.id, result, browser);
            assert(node_views(before) + chrome_flatten(*node, parent_view, browser@) == node_views(mid)
                + chrome_flatten_all(children@, node.id@, browser@));
        },
        None => {
            assert(node_views(result@) == node_views(before) + chrome_flatten(*node, parent_view, browser@));
        },
    }
}

fn traverse_chrome_children(
    children: &Vec<ChromeBookmarkNode>,
    parent: &String,
    result: &mut Vec<ImportNode>,
    browser: &str,
)
    ensures
        node_views(final(result)@) == node_views(old(result)@) + chrome_flatten_all(children@, parent@, browser@),
    decreases children, 0nat,
{
    let ghost start = node_views(result@);
    let mut i: usize = 0;
    assert(children@.take(0) == Seq::<ChromeBookmarkNode>::empty());
    assert(start + Seq::<ImportNodeView>::empty() == start);
    while i < children.len()
        invariant
            i <= children.len(),
            node_views(result@) == start + chrome_flatten_all(children@.take(i as int), parent@, browser@),
        decreases children.len() - i,
    {
        let ghost prev = node_views(result@);
        assert(children@.take(i + 1).drop_last() == children@.take(i as int));
        assert(children@.take(i + 1).last() == children@[i as int]);
        traverse_chrome_recursive(&children[i], Some(parent.clone()), result, browser);
        i = i + 1;
    }
    assert(children@.take(children.len() as int) == children@);
}

/// The import nodes of a Chromium bookmark file: each root flattened with
/// no parent, roots in the given order.
pub fn chrome_import_nodes(roots: &Vec<ChromeBookmarkNode>, browser: &str) -> (r: Vec<ImportNode>)
    ensures
        node_views(r@) == chrome_roots_flatten(roots@, browser@),
{
    let mut out: Vec<ImportNode> = Vec::new();
    let mut i: usize = 0;
    assert(roots@.take(0) == Seq::<ChromeBookmarkNode>::empty());
    while i < roots.len()
        invariant
            i <= roots.len(),
            node_views(out@) == chrome_roots_flatten(roots@.take(i as int), browser@),
        decreases roots.len() - i,
    {
        assert(roots@.take(i + 1).drop_last() == roots@.take(i as int));
        assert(roots@.take(i + 1).last() == roots@[i as int]);
        traverse_chrome_recursive(&roots[i], None, &mut out, browser);
        i = i + 1;
    }
    assert(roots@.take(roots.len() as int) == roots@);
    out
}

pub open spec fn chrome_roots_flatten(roots: Seq<ChromeBookmarkNode>, browser: Seq<char>) -> Seq<ImportNodeView>
    decreases roots.len(),
{
    if roots.len() == 0 {
        Seq::empty()
    } else {
        chrome_roots_flatten(roots.drop_last(), browser) + chrome_flatten(roots.last(), None, browser)
    }
}

/// Every node of a flattened tree is the root or lies under a parent id.
pub proof fn lemma_chrome_flatten_parents(node: ChromeBookmarkNode, parent: Option<Seq<char>>, browser: Seq<char>)
    ensures
        chrome_flatten(node, parent, browser).len() >= 1,
        chrome_flatten(node, parent, browser)[0].parent_original_id == parent,
        forall|i: int| 1 <= i < chrome_flatten(node, parent, browser).len() ==>
            (#[trigger] chrome_flatten(node, parent, browser)[i]).parent_original_id is Some,
        forall|i: int| 0 <= i < chrome_flatten(node, parent, browser).len() ==>
            (#[trigger] chrome_flatten(node, parent, browser)[i]).browser == browser,
    decreases node, 1nat,
{
    match node.children {
        Some(ch) => {
            lemma_chrome_flatten_all_parents(ch@, node.id@, browser);
            let f = chrome_flatten(node, parent, browser);
            let rest = chrome_flatten_all(ch@, node.id@, browser);
            assert forall|i: int| 1 <= i < f.len() implies (#[trigger] f[i]).parent_original_id is Some by {
                assert(f[i] == rest[i - 1]);
            }
            assert forall|i: int| 0 <= i < f.len() implies (#[trigger] f[i]).browser == browser by {
                if i > 0 {
                    assert(f[i] == rest[i - 1]);
                }
            }
        },
        None => {
        },
    }
}

proof fn lemma_chrome_flatten_all_parents(nodes: Seq<ChromeBookmarkNode>, parent: Seq<char>, browser: Seq<char>)
    ensures
        forall|i: int| 0 <= i < chrome_flatten_all(nodes, parent, browser).len() ==>
            (#[trigger] chrome_flatten_all(nodes, parent, browser)[i]).parent_original_id is Some,
        forall|i: int| 0 <= i < chrome_flatten_all(nodes, parent, browser).len() ==>
            (#[trigger] chrome_flatten_all(nodes, parent, browser)[i]).browser == browser,
    decreases nodes, 0nat,
{
    if nodes.len() > 0 {
        lemma_chrome_flatten_all_parents(nodes.drop_last(), parent, browser);
        lemma_chrome_flatten_parents(nodes.last(), Some(parent), browser);
        let a = chrome_flatten_all(nodes.drop_last(), parent, browser);
        let b = chrome_flatten(nodes.last(), Some(parent), browser);
        let f = chrome_flatten_all(nodes, parent, browser);
        assert forall|i: int| 0 <= i < f.len() implies (#[trigger] f[i]).parent_original_id is Some && f[i].browser == browser by {
            if i < a.len() {
                assert(f[i] == a[i]);
            } else {
                assert(f[i] == b[i - a.len()]);
            }
        }
    }
}

/// The nodes of a Chromium tree in pre-order: the node, then the tree of
/// each child in turn.
pub open spec fn chrome_tree_nodes(node: ChromeBookmarkNode) -> Seq<ChromeBookmarkNode>
    decreases node, 1nat,
{
    seq![node] + match node.children {
        Some(ch) => chrome_forest_nodes(ch@),
        None => Seq::empty(),
    }
}

/// The trees of the given nodes, one after another, in pre-order.
pub open spec fn chrome_forest_nodes(nodes: Seq<ChromeBookmarkNode>) -> Seq<ChromeBookmarkNode>
    decreases nodes, 0nat,
{
    if nodes.len() == 0 {
        Seq::empty()
    } else {
        chrome_forest_nodes(nodes.drop_last()) + chrome_tree_nodes(nodes.last())
    }
}

/// The parent id of each node of a Chromium tree, in the same pre-order:
/// `parent` for the tree's root, and for every other node the id of the
/// folder whose `children` hold it.
pub open spec fn chrome_tree_parents(node: ChromeBookmarkNode, parent: Option<Seq<char>>) -> Seq<Option<Seq<char>>>
    decreases node, 1nat,
{
    seq![parent] + match node.children {
        Some(ch) => chrome_forest_parents(ch@, node.id@),
        None => Seq::empty(),
    }
}

/// The parent ids of the trees of the given nodes, all children of `parent`.
pub open spec fn chrome_forest_parents(nodes: Seq<ChromeBookmarkNode>, parent: Seq<char>) -> Seq<Option<Seq<char>>>
    decreases nodes, 0nat,
{
    if nodes.len() == 0 {
        Seq::empty()
    } else {
        chrome_forest_parents(nodes.drop_last(), parent) + chrome_tree_parents(nodes.last(), Some(parent))
    }
}

/// The parent ids of the nodes of the roots' trees (the roots have none).
pub open spec fn chrome_roots_parents(roots: Seq<ChromeBookmarkNode>) -> Seq<Option<Seq<char>>>
    decreases roots.len(),
{
    if roots.len() == 0 {
        Seq::empty()
    } else {
        chrome_roots_parents(roots.drop_last()) + chrome_tree_parents(roots.last(), None)
    }
}

/// The import node at `i` carries the id, the name as its title, the URL and
/// the folder flag of the Chromium node `n`, and the browser.
pub open spec fn carries_node(v: ImportNodeView, n: ChromeBookmarkNode, browser: Seq<char>) -> bool {
    &&& v.original_id == n.id@
    &&& v.title == n.name@
    &&& v.url == opt_view(n.url)
    &&& v.is_folder == (n.node_type@ == "folder"@)
    &&& v.browser == browser
}

/// Flattening a Chromium tree gives one import node for each of its nodes,
/// in pre-order, each carrying that node's id, its name as the title, its
/// URL and whether it is a folder, under the id of the folder that holds it
/// (the given parent for the root).
pub proof fn lemma_chrome_flatten_carries_nodes(node: ChromeBookmarkNode, parent: Option<Seq<char>>, browser: Seq<char>)
    ensures
        chrome_flatten(node, parent, browser).len() == chrome_tree_nodes(node).len(),
        chrome_tree_parents(node, parent).len() == chrome_tree_nodes(node).len(),
        forall|i: int| 0 <= i < chrome_flatten(node, parent, browser).len() ==>
            carries_node(#[trigger] chrome_flatten(node, parent, browser)[i], chrome_tree_nodes(node)[i], browser)
            && chrome_flatten(node, parent, browser)[i].parent_original_id == chrome_tree_parents(node, parent)[i],
    decreases node, 1nat,
{
    let f = chrome_flatten(node, parent, browser);
    let t = chrome_tree_nodes(node);
    let q = chrome_tree_parents(node, parent);
    match node.children {
        Some(ch) => {
            lemma_chrome_forest_carries_nodes(ch@, node.id@, browser);
            let rest = chrome_flatten_all(ch@, node.id@, browser);
            let rt = chrome_forest_nodes(ch@);
            let rq = chrome_forest_parents(ch@, node.id@);
            assert forall|i: int| 0 <= i < f.len() implies carries_node(#[trigger] f[i], t[i], browser) && f[i].parent_original_id == q[i] by {
                if i > 0 {
                    assert(f[i] == rest[i - 1]);
                    assert(t[i] == rt[i - 1]);
                    assert(q[i] == rq[i - 1]);
                }
            }
        },
        None => {
            assert forall|i: int| 0 <= i < f.len() implies carries_node(#[trigger] f[i], t[i], browser) && f[i].parent_original_id == q[i] by {
                assert(i == 0);
            }
        },
    }
}

proof fn lemma_chrome_forest_carries_nodes(nodes: Seq<ChromeBookmarkNode>, parent: Seq<char>, browser: Seq<char>)
    ensures
        chrome_flatten_all(nodes, parent, browser).len() == chrome_forest_nodes(nodes).len(),
        chrome_forest_parents(nodes, parent).len() == chrome_forest_nodes(nodes).len(),
        forall|i: int| 0 <= i < chrome_flatten_all(nodes, parent, browser).len() ==>
            carries_node(#[trigger] chrome_flatten_all(nodes, parent, browser)[i], chrome_forest_nodes(nodes)[i], browser)
            && chrome_flatten_all(nodes, parent, browser)[i].parent_original_id == chrome_forest_parents(nodes, parent)[i],
    decreases nodes, 0nat,
{
    if nodes.len() > 0 {
        lemma_chrome_forest_carries_nodes(nodes.drop_last(), parent, browser);
        lemma_chrome_flatten_carries_nodes(nodes.last(), Some(parent), browser);
        let a = chrome_flatten_all(nodes.drop_last(), parent, browser);
        let b = chrome_flatten(nodes.last(), Some(parent), browser);
        let ta = chrome_forest_nodes(nodes.drop_last());
        let tb = chrome_tree_nodes(nodes.last());
        let f = chrome_flatten_all(nodes, parent, browser);
        let t = chrome_forest_nodes(nodes);
        let qa = chrome_forest_parents(nodes.drop_last(), parent);
        let qb = chrome_tree_parents(nodes.last(), Some(parent));
        let q = chrome_forest_parents(nodes, parent);
        assert forall|i: int| 0 <= i < f.len() implies carries_node(#[trigger] f[i], t[i], browser) && f[i].parent_original_id == q[i] by {
            if i < a.len() {
                assert(f[i] == a[i]);
                assert(t[i] == ta[i]);
                assert(q[i] == qa[i]);
            } else {
                assert(f[i] == b[i - a.len()]);
                assert(t[i] == tb[i - ta.len()]);
                assert(q[i] == qb[i - qa.len()]);
            }
        }
    }
}

/// The import nodes of a Chromium file are one for each node of its trees,
/// roots in order and each tree in pre-order, each carrying that node's id,
/// its name as the title, its URL and whether it is a folder, under the id
/// of the folder that holds it (none for a root).
pub proof fn lemma_chrome_roots_carry_nodes(roots: Seq<ChromeBookmarkNode>, browser: Seq<char>)
    ensures
        chrome_roots_flatten(roots, browser).len() == chrome_forest_nodes(roots).len(),
        chrome_roots_parents(roots).len() == chrome_forest_nodes(roots).len(),
        forall|i: int| 0 <= i < chrome_roots_flatten(roots, browser).len() ==>
            carries_node(#[trigger] chrome_roots_flatten(roots, browser)[i], chrome_forest_nodes(roots)[i], browser)
            && chrome_roots_flatten(roots, browser)[i].parent_original_id == chrome_roots_parents(roots)[i],
    decreases roots.len(),
{
    if roots.len() > 0 {
        lemma_chrome_roots_carry_nodes(roots.drop_last(), browser);
        lemma_chrome_flatten_carries_nodes(roots.last(), None, browser);
        let a = chrome_roots_flatten(roots.drop_last(), browser);
        let b = chrome_flatten(roots.last(), None, browser);
        let ta = chrome_forest_nodes(roots.drop_last());
        let tb = chrome_tree_nodes(roots.last());
        let f = chrome_roots_flatten(roots, browser);
        let t = chrome_forest_nodes(roots);
        let qa = chrome_roots_parents(roots.drop_last());
        let qb = chrome_tree_parents(roots.last(), None);
        let q = chrome_roots_parents(roots);
        assert forall|i: int| 0 <= i < f.len() implies carries_node(#[trigger] f[i], t[i], browser) && f[i].parent_original_id == q[i] by {
            if i < a.len() {
                assert(f[i] == a[i]);
                assert(t[i] == ta[i]);
                assert(q[i] == qa[i]);
            } else {
                assert(f[i] == b[i - a.len()]);
                assert(t[i] == tb[i - ta.len()]);
                assert(q[i] == qb[i - qa.len()]);
            }
        }
    }
}

/// The node at `i` lies under a node listed before it.
pub open spec fn parent_listed_before(f: Seq<ImportNodeView>, i: int) -> bool {
    exists|j: int| 0 <= j < i && Some(#[trigger] f[j].original_id) == f[i].parent_original_id
}

/// A flattened tree lists each folder before what it holds: every node but
/// the first lies under a node listed earlier.
pub proof fn lemma_chrome_flatten_preorder(node: ChromeBookmarkNode, parent: Option<Seq<char>>, browser: Seq<char>)
    ensures
        forall|i: int| 1 <= i < chrome_flatten(node, parent, browser).len() ==>
            #[trigger] parent_listed_before(chrome_flatten(node, parent, browser), i),
    decreases node, 1nat,
{
    match node.children {
        Some(ch) => {
            lemma_chrome_flatten_all_preorder(ch@, node.id@, browser);
            let f = chrome_flatten(node, parent, browser);
            let rest = chrome_flatten_all(ch@, node.id@, browser);
            assert(f[0].original_id == node.id@);
            assert forall|i: int| 1 <= i < f.len() implies #[trigger] parent_listed_before(f, i) by {
                assert(f[i] == rest[i - 1]);
                if rest[i - 1].parent_original_id == Some(node.id@) {
                    assert(Some(f[0].original_id) == f[i].parent_original_id);
                } else {
                    assert(parent_listed_before(rest, i - 1));
                    let j = choose|j: int| 0 <= j < i - 1 && Some(#[trigger] rest[j].original_id) == rest[i - 1].parent_original_id;
                    assert(f[j + 1] == rest[j]);
                    assert(Some(f[j + 1].original_id) == f[i].parent_original_id);
                }
            }
        },
        None => {},
    }
}

proof fn lemma_chrome_flatten_all_preorder(nodes: Seq<ChromeBookmarkNode>, parent: Seq<char>, browser: Seq<char>)
    ensures
        forall|i: int| 0 <= i < chrome_flatten_all(nodes, parent, browser).len() ==>
            chrome_flatten_all(nodes, parent, browser)[i].parent_original_id == Some(parent)
            || #[trigger] parent_listed_before(chrome_flatten_all(nodes, parent, browser), i),
    decreases nodes, 0nat,
{
    if nodes.len() > 0 {
        lemma_chrome_flatten_all_preorder(nodes.drop_last(), parent, browser);
        lemma_chrome_flatten_preorder(nodes.last(), Some(parent), browser);
        lemma_chrome_flatten_parents(nodes.last(), Some(parent), browser);
        let a = chrome_flatten_all(nodes.drop_last(), parent, browser);
        let b = chrome_flatten(nodes.last(), Some(parent), browser);
        let f = chrome_flatten_all(nodes, parent, browser);
        assert(f == a + b);
        assert forall|i: int| 0 <= i < f.len() implies f[i].parent_original_id == Some(parent) || #[trigger] parent_listed_before(f, i) by {
            if i < a.len() {
                assert(f[i] == a[i]);
                if a[i].parent_original_id != Some(parent) {
                    assert(parent_listed_before(a, i));
                    let j = choose|j: int| 0 <= j < i && Some(#[trigger] a[j].original_id) == a[i].parent_original_id;
                    assert(f[j] == a[j]);
                }
            } else {
                let k = i - a.len();
                assert(f[i] == b[k]);
                if k > 0 {
                    assert(parent_listed_before(b, k));
                    let j = choose|j: int| 0 <= j < k && Some(#[trigger] b[j].original_id) == b[k].parent_original_id;
                    assert(f[j + a.len()] == b[j]);
                    assert(Some(f[j + a.len()].original_id) == f[i].parent_original_id);
                }
            }
        }
    }
}

// ---------------------------------------------------------------------------
// Stable ids
// ---------------------------------------------------------------------------

/// Index of the first `c` in `s`, if any.
pub open spec fn first_index_of(s: Seq<char>, c: char) -> Option<nat>
    decreases s.len(),
{
    if s.len() == 0 {
        None
    } else if s[0] == c {
        Some(0)
    } else {
        match first_index_of(s.drop_first(), c) {
            Some(i) => Some(i + 1),
            None => None,
        }
    }
}

pub proof fn lemma_first_index_of(s: Seq<char>, c: char)
    ensures
        first_index_of(s, c) matches Some(i) ==> i < s.len() && s[i as int] == c && forall|k: int|
            0 <= k < i ==> #[trigger] s[k] != c,
        first_index_of(s, c) is None ==> forall|k: int| 0 <= k < s.len() ==> #[trigger] s[k] != c,
    decreases s.len(),
{
    if s.len() > 0 {
        lemma_first_index_of(s.drop_first(), c);
        if s[0] != c {
            assert forall|k: int| 1 <= k < s.len() implies s[k] == s.drop_first()[k - 1] by {}
        }
    }
}

/// The browsers whose bookmarks can be imported and deleted.
pub open spec fn is_known_browser(b: Seq<char>) -> bool {
    b == "chrome"@ || b == "edge"@ || b == "safari"@
}

/// What `parse_browser_stable_id` gives: the text before the first `-`,
/// lower-cased, and the non-empty text after it, when that browser is known.
pub open spec fn spec_parse_browser_stable_id(s: Seq<char>) -> Option<(Seq<char>, Seq<char>)> {
    match first_index_of(s, '-') {
        None => None,
        Some(i) => {
            let browser = spec_to_lowercase(s.take(i as int));
            let original_id = s.skip(i as int + 1);
            if original_id.len() > 0 && is_known_browser(browser) {
                Some((browser, original_id))
            } else {
                None
            }
        },
    }
}

fn find_char(v: &Vec<char>, c: char) -> (r: Option<usize>)
    ensures
        match r {
            Some(i) => first_index_of(v@, c) == Some(i as nat),
            None => first_index_of(v@, c) is None,
        },
{
    proof {
        lemma_first_index_of(v@, c);
    }
    let mut i: usize = 0;
    while i < v.len()
        invariant
            i <= v.len(),
            forall|k: int| 0 <= k < i ==> v@[k] != c,
            first_index_of(v@, c) matches Some(j) ==> i <= j,
        decreases v.len() - i,
    {
        proof {
            lemma_first_index_of(v@, c);
        }
        if v[i] == c {
            return Some(i);
        }
        i = i + 1;
    }
    proof {
        lemma_first_index_of(v@, c);
    }
    None
}

/// Splits a stable id `<browser>-<original id>` into its lower-cased browser
/// and its original id; `None` when there is no `-`, when the id part is
/// empty, or when the browser is not chrome, edge or safari.
pub fn parse_browser_stable_id(stable_id: &str) -> (r: Option<(String, String)>)
    ensures
        match r {
            Some((b, id)) => spec_parse_browser_stable_id(stable_id@) == Some((b@, id@)),
            None => spec_parse_browser_stable_id(stable_id@) is None,
        },
{
    let v = chars_of(stable_id);
    let pos = find_char(&v, '-');
    proof {
        lemma_first_index_of(v@, '-');
    }
    match pos {
        None => None,
        Some(i) => {
            let mut head: Vec<char> = Vec::new();
            let mut k: usize = 0;
            while k < i
                invariant
                    k <= i < v.len(),
                    head@ == v@.take(k as int),
                decreases i - k,
            {
                head.push(v[k]);
                assert(v@.take(k + 1) == v@.take(k as int).push(v@[k as int]));
                k = k + 1;
            }
            let mut tail: Vec<char> = Vec::new();
            let mut j: usize = i + 1;
            while j < v.len()
                invariant
                    i + 1 <= j <= v.len(),
                    tail@ == v@.subrange(i + 1, j as int),
                decreases v.len() - j,
            {
                tail.push(v[j]);
                assert(v@.subrange(i + 1, j + 1) == v@.subrange(i + 1, j as int).push(v@[j as int]));
                j = j + 1;
            }
            assert(tail@ == v@.skip(i + 1));
            let head_s = string_from_chars(&head);
            let browser = to_lowercase(head_s.as_str());
            if tail.len() == 0 {
                return None;
            }
            let known = str_eq(browser.as_str(), "chrome") || str_eq(browser.as_str(), "edge") || str_eq(
                browser.as_str(),
                "safari",
            );
            if known {
                Some((browser, string_from_chars(&tail)))
            } else {
                None
            }
        },
    }
}

/// The id under which an imported node is stored: the lower-cased browser
/// name, `-`, and the node's own id.
pub open spec fn spec_stable_id(browser: Seq<char>, original_id: Seq<char>) -> Seq<char> {
    spec_to_lowercase(browser) + seq!['-'] + original_id
}

pub fn stable_id(browser: &str, original_id: &str) -> (r: String)
    ensures
        r@ == spec_stable_id(browser@, original_id@),
{
    let mut s = to_lowercase(browser);
    s.append("-");
    s.append(original_id);
    proof {
        reveal_strlit("-");
        assert("-"@ == seq!['-']);
    }
    s
}

proof fn lemma_first_index_at(s: Seq<char>, c: char, i: nat)
    requires
        i < s.len(),
        s[i as int] == c,
        forall|k: int| 0 <= k < i ==> s[k] != c,
    ensures
        first_index_of(s, c) == Some(i),
    decreases i,
{
    if i > 0 {
        assert forall|k: int| 0 <= k < i - 1 implies s.drop_first()[k] != c by {
            assert(s.drop_first()[k] == s[k + 1]);
        }
        lemma_first_index_at(s.drop_first(), c, (i - 1) as nat);
    }
}

/// The id a node of a known browser is stored under names that browser and
/// that node again (for a browser name in lower case, which lower-casing
/// leaves as it is, and a non-empty node id).
pub proof fn lemma_stable_id_round_trip(browser: Seq<char>, original_id: Seq<char>)
    requires
        is_known_browser(browser),
        spec_to_lowercase(browser) == browser,
        original_id.len() > 0,
    ensures
        spec_parse_browser_stable_id(spec_stable_id(browser, original_id)) == Some((browser, original_id)),
{
    reveal_strlit("chrome");
    reveal_strlit("edge");
    reveal_strlit("safari");
    let sid = spec_stable_id(browser, original_id);
    let n = browser.len();
    assert(sid[n as int] == '-');
    assert forall|k: int| 0 <= k < n implies sid[k] != '-' by {
        assert(sid[k] == browser[k]);
    }
    lemma_first_index_at(sid, '-', n);
    assert(sid.take(n as int) =~= browser);
    assert(sid.skip(n as int + 1) =~= original_id);
}

/// The bookmark file a browser deletion goes to.
#[derive(Debug, Clone, PartialEq, Eq)]
pub enum BrowserDeletion {
    /// A Chromium-family `Bookmarks` JSON file under the given profile folder.
    Chromium { profile_folder: String, original_id: String },
    /// Safari's `Bookmarks.plist`.
    Safari { original_id: String },
}

/// Where a bookmark deletion is mirrored in a browser: Chrome and Edge
/// bookmarks go to their `Bookmarks` files, Safari ones to
/// `Bookmarks.plist`; ids of no known browser are not mirrored.
pub fn delete_bookmark_in_browser(stable_id: &str) -> (r: Option<BrowserDeletion>)
    ensures
        match spec_parse_browser_stable_id(stable_id@) {
            None => r is None,
            Some((b, id)) => match r {
                Some(BrowserDeletion::Chromium { profile_folder, original_id }) => original_id@ == id && ((b == "chrome"@
                    && profile_folder@ == "Google/Chrome"@) || (b == "edge"@ && profile_folder@ == "Microsoft Edge"@)),
                Some(BrowserDeletion::Safari { original_id }) => original_id@ == id && b == "safari"@,
                None => false,
            },
        },
{
    match parse_browser_stable_id(stable_id) {
        None => None,
        Some((browser, original_id)) => {
            if str_eq(browser.as_str(), "chrome") {
                Some(BrowserDeletion::Chromium { profile_folder: String::from_str("Google/Chrome"), original_id })
            } else if str_eq(browser.as_str(), "edge") {
                Some(BrowserDeletion::Chromium { profile_folder: String::from_str("Microsoft Edge"), original_id })
            } else {
                Some(BrowserDeletion::Safari { original_id })
            }
        },
    }
}

/// All nodes the scans found: Chrome's, then Edge's, then Safari's; a scan
/// that failed adds nothing.
pub fn scan_all_nodes(
    chrome: Result<Vec<ImportNode>, String>,
    edge: Result<Vec<ImportNode>, String>,
    safari: Result<Vec<ImportNode>, String>,
) -> (r: Vec<ImportNode>)
    ensures
        r@ == scan_part(chrome) + scan_part(edge) + scan_part(safari),
{
    let mut all: Vec<ImportNode> = Vec::new();
    if let Ok(mut n) = chrome {
        all.append(&mut n);
    }
    if let Ok(mut n) = edge {
        all.append(&mut n);
    }
    if let Ok(mut n) = safari {
        all.append(&mut n);
    }
    all
}

pub open spec fn scan_part(r: Result<Vec<ImportNode>, String>) -> Seq<ImportNode> {
    match r {
        Ok(v) => v@,
        Err(_) => Seq::empty(),
    }
}

} // verus!
