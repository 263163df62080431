//! Application identifiers of a workspace's windows, and the command that
//! gives the workspace a name made of its number and their icons.
use crate::config::{
    first_match, icon_of, key_matches, lemma_unmatched_gets_default, lowercase_of, Config,
    ConfigView,
};
use crate::format::format_text;
use crate::iconset::{
    icon_string, icon_text, lemma_lex_total, lemma_normalize_permutation, lemma_sort_unique,
};
use crate::text::{
    chars_of, int_text, number_text, replace_all, replace_chars, split_chars, split_on, views,
};
use vstd::prelude::*;
use vstd::seq_lib::{
    to_multiset_build, to_multiset_contains, to_multiset_insert, to_multiset_len,
    to_multiset_remove,
};
use vstd::string::StringExecFns;

verus! {

/// One node of the window manager's tree: a workspace, a container or a
/// window, with what is read of it here.
#[derive(Debug)]
pub struct WorkspaceNode {
    /// The node's name; for a workspace, the name it is shown under.
    pub name: Option<String>,
    /// For a workspace, its number.
    pub num: Option<i32>,
    /// The tiling children.
    pub nodes: Vec<WorkspaceNode>,
    /// The floating children.
    pub floating_nodes: Vec<WorkspaceNode>,
    /// For a window, the identifier of its application.
    pub app_id: Option<String>,
    /// For a window that has window properties, its class.
    pub window_class: Option<String>,
    /// For a workspace, its layout written as text, such as `H[a V[b c]]`.
    pub representation: Option<String>,
}

/// An optional text as a list of no or one identifier.
pub open spec fn opt_ids(o: Option<String>) -> Seq<Seq<char>> {
    match o {
        Some(s) => seq![s@],
        None => Seq::empty(),
    }
}

/// The identifiers below a node and the node's own: for each child in turn
/// what its own walk gives and then its window class; last the node's own
/// application identifier.
pub open spec fn walk(node: WorkspaceNode) -> Seq<Seq<char>>
    decreases node,
{
    walk_children(node.nodes@, node.nodes@.len()) + opt_ids(node.app_id)
}

/// What the first `n` children contribute to their parent's walk.
pub open spec fn walk_children(nodes: Seq<WorkspaceNode>, n: nat) -> Seq<Seq<char>>
    decreases nodes, n,
{
    if n == 0 || n > nodes.len() {
        Seq::empty()
    } else {
        walk_children(nodes, (n - 1) as nat) + walk(nodes[n - 1]) + opt_ids(
            nodes[n - 1].window_class,
        )
    }
}

/// The walks of the first `n` nodes, one after the other.
pub open spec fn walk_each(nodes: Seq<WorkspaceNode>, n: nat) -> Seq<Seq<char>>
    decreases n,
{
    if n == 0 || n > nodes.len() {
        Seq::empty()
    } else {
        walk_each(nodes, (n - 1) as nat) + walk(nodes[n - 1])
    }
}

/// The identifiers that the nodes of a workspace carry: those of the tiling
/// tree, then those of each floating node's tree.
pub open spec fn structured_ids(ws: WorkspaceNode) -> Seq<Seq<char>> {
    walk(ws) + walk_each(ws.floating_nodes@, ws.floating_nodes@.len())
}

/// A layout text without its brackets and quotes: `H[`, `V[`, `[`, `]` and
/// `"` are taken out, one kind after the other.
pub open spec fn strip_layout(r: Seq<char>) -> Seq<char> {
    let a = replace_all(r, seq!['H', '['], Seq::empty());
    let b = replace_all(a, seq!['V', '['], Seq::empty());
    let c = replace_all(b, seq!['['], Seq::empty());
    let d = replace_all(c, seq![']'], Seq::empty());
    replace_all(d, seq!['"'], Seq::empty())
}

/// The identifiers named in a layout text: what stands between the single
/// spaces of the stripped text.
pub open spec fn representation_ids(r: Seq<char>) -> Seq<Seq<char>> {
    split_on(strip_layout(r), ' ')
}

/// The application identifiers of a workspace. Where no node carries one,
/// they are read from the workspace's layout text, if it has one.
pub open spec fn identifiers(ws: WorkspaceNode) -> Seq<Seq<char>> {
    if structured_ids(ws).len() > 0 {
        structured_ids(ws)
    } else {
        match ws.representation {
            Some(r) => representation_ids(r@),
            None => Seq::empty(),
        }
    }
}

/// The icon of each identifier, in the identifiers' order.
pub open spec fn icons_of(ids: Seq<Seq<char>>, cfg: ConfigView) -> Seq<Seq<char>> {
    ids.map_values(|id: Seq<char>| icon_of(cfg, id))
}

/// The icons of the identifiers as one text: sorted, each icon once, joined
/// by the configured separator.
pub open spec fn resolve(ids: Seq<Seq<char>>, cfg: ConfigView) -> Seq<char> {
    icon_text(icons_of(ids, cfg), cfg.icon_separator)
}

/// Whether no configured key matches an identifier.
pub open spec fn unmapped_in(cfg: ConfigView) -> spec_fn(Seq<char>) -> bool {
    |id: Seq<char>| first_match(cfg.icons, lowercase_of(id)) >= cfg.icons.len()
}

/// The identifiers for which no configured key is found, in their order.
pub open spec fn unmapped_of(ids: Seq<Seq<char>>, cfg: ConfigView) -> Seq<Seq<char>> {
    ids.filter(unmapped_in(cfg))
}

/// The command that renames the workspace shown as `name` to `new_name`.
pub open spec fn rename_command(name: Seq<char>, new_name: Seq<char>) -> Seq<char> {
    "rename workspace '"@ + name + "' to '"@ + new_name + "'"@
}

/// The new name of a workspace with the given number and nodes.
pub open spec fn new_name(ws: WorkspaceNode, num: int, cfg: ConfigView) -> Seq<char> {
    format_text(cfg.format_str, int_text(num), resolve(identifiers(ws), cfg))
}

/// What renaming a workspace takes: the name it is shown under now and the
/// command. A workspace without a name or without a number is not renamed.
pub open spec fn rename_of(ws: WorkspaceNode, cfg: ConfigView) -> Option<(Seq<char>, Seq<char>)> {
    match (ws.name, ws.num) {
        (Some(name), Some(num)) => Some(
            (name@, rename_command(name@, new_name(ws, num as int, cfg))),
        ),
        _ => None,
    }
}

/// A name and a command as plain texts.
pub open spec fn pair_view(pair: (String, String)) -> (Seq<char>, Seq<char>) {
    (pair.0@, pair.1@)
}

/// An optional name and command as plain texts.
pub open spec fn rename_view(out: Option<(String, String)>) -> Option<(Seq<char>, Seq<char>)> {
    match out {
        Some(pair) => Some(pair_view(pair)),
        None => None,
    }
}

/// The node carries an identifier: an application identifier or a window
/// class.
pub open spec fn carries(node: WorkspaceNode) -> bool {
    node.app_id is Some || node.window_class is Some
}

/// The number of nodes that carry an identifier, among a node and all that
/// is below it, tiling or floating.
pub open spec fn carriers(node: WorkspaceNode) -> nat
    decreases node,
{
    carriers_upto(node.nodes@, node.nodes@.len()) + carriers_upto(
        node.floating_nodes@,
        node.floating_nodes@.len(),
    ) + if carries(node) {
        1nat
    } else {
        0nat
    }
}

/// The carriers among the first `n` nodes and all that is below them.
pub open spec fn carriers_upto(nodes: Seq<WorkspaceNode>, n: nat) -> nat
    decreases nodes, n,
{
    if n == 0 || n > nodes.len() {
        0
    } else {
        carriers_upto(nodes, (n - 1) as nat) + carriers(nodes[n - 1])
    }
}

/// Each node of the tree gives as many identifiers to a walk that comes from
/// its parent as it counts for among the carriers: no node carries both an
/// application identifier and a window class, and none has floating nodes
/// that carry an identifier.
pub open spec fn plain(node: WorkspaceNode) -> bool
    decreases node,
{
    &&& !(node.app_id is Some && node.window_class is Some)
    &&& carriers_upto(node.floating_nodes@, node.floating_nodes@.len()) == 0
    &&& forall|i: int| 0 <= i < node.nodes@.len() ==> plain(#[trigger] node.nodes@[i])
}

/// The same for a tree at whose top node a walk begins, so that the node's
/// window class is not listed: the top node carries no window class without
/// an application identifier, and what is below it is plain.
pub open spec fn plain_top(node: WorkspaceNode) -> bool {
    &&& node.window_class is Some ==> node.app_id is Some
    &&& forall|i: int| 0 <= i < node.nodes@.len() ==> plain(#[trigger] node.nodes@[i])
}

/// A workspace of which each node gives as many identifiers as it counts for
/// among the carriers: the workspace and each of its floating nodes is plain
/// as a top node, and no floating node has floating nodes that carry an
/// identifier.
pub open spec fn plain_workspace(ws: WorkspaceNode) -> bool {
    &&& plain_top(ws)
    &&& forall|i: int|
        0 <= i < ws.floating_nodes@.len() ==> {
            let f = #[trigger] ws.floating_nodes@[i];
            plain_top(f) && carriers_upto(f.floating_nodes@, f.floating_nodes@.len()) == 0
        }
}

/// In a plain tree the walk gives one identifier for each carrier; the
/// window class of the tree's top node is the one thing that its parent adds.
pub proof fn lemma_walk_len(node: WorkspaceNode)
    requires
        plain(node),
    ensures
        walk(node).len() + opt_ids(node.window_class).len() == carriers(node),
    decreases node,
{
    lemma_walk_children_len(node.nodes@, node.nodes@.len());
}

proof fn lemma_walk_children_len(nodes: Seq<WorkspaceNode>, n: nat)
    requires
        n <= nodes.len(),
        forall|i: int| 0 <= i < nodes.len() ==> plain(#[trigger] nodes[i]),
    ensures
        walk_children(nodes, n).len() == carriers_upto(nodes, n),
    decreases nodes, n,
{
    if n > 0 {
        lemma_walk_children_len(nodes, (n - 1) as nat);
        lemma_walk_len(nodes[n - 1]);
    }
}

proof fn lemma_walk_each_len(nodes: Seq<WorkspaceNode>, n: nat)
    requires
        n <= nodes.len(),
        forall|i: int|
            0 <= i < nodes.len() ==> {
                let f = #[trigger] nodes[i];
                plain_top(f) && carriers_upto(f.floating_nodes@, f.floating_nodes@.len()) == 0
            },
    ensures
        walk_each(nodes, n).len() == carriers_upto(nodes, n),
    decreases n,
{
    if n > 0 {
        lemma_walk_each_len(nodes, (n - 1) as nat);
        let f = nodes[n - 1];
        assert(plain_top(f));
        lemma_walk_children_len(f.nodes@, f.nodes@.len());
        assert(walk(f).len() == carriers(f));
    }
}

/// A workspace has as many identifiers as it has nodes that carry one,
/// floating nodes and all that is nested counted; and where no node carries
/// one, as many as its layout text names.
///
/// This is so for a plain workspace. Elsewhere a node gives more or fewer
/// identifiers than the one it counts for: of two identifiers on one node
/// both are listed; the window class of a node is listed by its parent in
/// the tiling tree, so that of the workspace and of its floating nodes is
/// not; and floating nodes are walked where they hang on the workspace, not
/// further down.
pub proof fn lemma_identifier_count(ws: WorkspaceNode)
    requires
        plain_workspace(ws),
    ensures
        identifiers(ws).len() == if carriers(ws) > 0 {
            carriers(ws)
        } else {
            match ws.representation {
                Some(r) => representation_ids(r@).len(),
                None => 0,
            }
        },
{
    lemma_walk_children_len(ws.nodes@, ws.nodes@.len());
    lemma_walk_each_len(ws.floating_nodes@, ws.floating_nodes@.len());
}

/// Giving the identifiers in another order gives the same icons, each as
/// often as before.
pub proof fn lemma_icons_permutation(a: Seq<Seq<char>>, b: Seq<Seq<char>>, cfg: ConfigView)
    requires
        a.to_multiset() == b.to_multiset(),
    ensures
        icons_of(a, cfg).to_multiset() == icons_of(b, cfg).to_multiset(),
    decreases a.len(),
{
    to_multiset_len(a);
    to_multiset_len(b);
    if a.len() == 0 {
        assert(icons_of(a, cfg) =~= icons_of(b, cfg));
    } else {
        let x = a.last();
        let a1 = a.drop_last();
        assert(a == a1.push(x));
        to_multiset_build(a1, x);
        to_multiset_contains(a, x);
        to_multiset_contains(b, x);
        assert(a.contains(x));
        let j = choose|j: int| 0 <= j < b.len() && b[j] == x;
        let b1 = b.remove(j);
        to_multiset_remove(b, j);
        assert(a1.to_multiset() =~= b1.to_multiset());
        lemma_icons_permutation(a1, b1, cfg);
        let y = icon_of(cfg, x);
        assert(icons_of(a, cfg) =~= icons_of(a1, cfg).push(y));
        assert(icons_of(b, cfg) =~= icons_of(b1, cfg).insert(j, y));
        to_multiset_build(icons_of(a1, cfg), y);
        to_multiset_insert(icons_of(b1, cfg), j, y);
    }
}

/// The icon text does not depend on the order of the identifiers.
pub proof fn lemma_resolve_permutation(a: Seq<Seq<char>>, b: Seq<Seq<char>>, cfg: ConfigView)
    requires
        a.to_multiset() == b.to_multiset(),
    ensures
        resolve(a, cfg) == resolve(b, cfg),
{
    lemma_icons_permutation(a, b, cfg);
    lemma_normalize_permutation(icons_of(a, cfg), icons_of(b, cfg));
}

/// Without identifiers the icon text is empty, whatever is configured.
pub proof fn lemma_resolve_empty(cfg: ConfigView)
    ensures
        resolve(Seq::empty(), cfg) == Seq::<char>::empty(),
{
    let none = icons_of(Seq::empty(), cfg);
    assert(none =~= Seq::empty());
    lemma_lex_total();
    lemma_sort_unique(none, none);
}

/// One identifier that no configured key matches gives the default icon as
/// the whole icon text: no separator and nothing else.
pub proof fn lemma_resolve_unmatched(id: Seq<char>, cfg: ConfigView)
    requires
        forall|j: int|
            0 <= j < cfg.icons.len() ==> !key_matches((#[trigger] cfg.icons[j]).0, id),
    ensures
        resolve(seq![id], cfg) == cfg.default_icon,
{
    lemma_unmatched_gets_default(cfg, id);
    let one = icons_of(seq![id], cfg);
    assert(one =~= seq![cfg.default_icon]);
    lemma_lex_total();
    lemma_sort_unique(one, one);
}

/// Appends the walk of `node` to `out`.
fn collect(node: &WorkspaceNode, out: &mut Vec<String>)
    ensures
        views(final(out)@) == views(old(out)@) + walk(*node),
    decreases node,
{
    let ghost start = views(out@);
    let mut i: usize = 0;
    assert(views(out@) == start + walk_children(node.nodes@, 0));
    while i < node.nodes.len()
        invariant
            i <= node.nodes.len(),
            views(out@) == start + walk_children(node.nodes@, i as nat),
        decreases node.nodes.len() - i,
    {
        let child = &node.nodes[i];
        collect(child, out);
        let ghost walked = views(out@);
        match &child.window_class {
            Some(class) => {
                out.push(class.clone());
                assert(views(out@) == walked + seq![class@]);
            },
            None => {
                assert(walked == walked + Seq::<Seq<char>>::empty());
            },
        }
        assert(views(out@) == start + (walk_children(node.nodes@, i as nat) + walk(*child)
            + opt_ids(child.window_class)));
        i += 1;
    }
    let ghost walked = views(out@);
    match &node.app_id {
        Some(id) => {
            out.push(id.clone());
            assert(views(out@) == walked + seq![id@]);
        },
        None => {
            assert(walked == walked + Seq::<Seq<char>>::empty());
        },
    }
    assert(views(out@) == start + (walk_children(node.nodes@, node.nodes@.len()) + opt_ids(
        node.app_id,
    )));
}

/// The identifiers named in a workspace's layout text.
pub fn parse_representation(representation: &str) -> (ids: Vec<String>)
    ensures
        views(ids@) == representation_ids(representation@),
{
    let none: Vec<char> = Vec::new();
    let mut split_h: Vec<char> = Vec::new();
    split_h.push('H');
    split_h.push('[');
    let mut split_v: Vec<char> = Vec::new();
    split_v.push('V');
    split_v.push('[');
    let mut open: Vec<char> = Vec::new();
    open.push('[');
    let mut close: Vec<char> = Vec::new();
    close.push(']');
    let mut quote: Vec<char> = Vec::new();
    quote.push('"');
    assert(split_h@ == seq!['H', '['] && split_v@ == seq!['V', '[']);
    assert(open@ == seq!['['] && close@ == seq![']'] && quote@ == seq!['"']);
    let a = replace_chars(&chars_of(representation), &split_h, &none);
    let b = replace_chars(&a, &split_v, &none);
    let c = replace_chars(&b, &open, &none);
    let d = replace_chars(&c, &close, &none);
    let e = replace_chars(&d, &quote, &none);
    split_chars(&e, ' ')
}

/// The application identifiers of a workspace: those that its nodes carry,
/// or, where none carries one, those that its layout text names.
pub fn extract_identifiers(workspace: &WorkspaceNode) -> (ids: Vec<String>)
    ensures
        views(ids@) == identifiers(*workspace),
{
    let mut ids: Vec<String> = Vec::new();
    collect(workspace, &mut ids);
    assert(views(ids@) == walk(*workspace));
    let mut i: usize = 0;
    assert(views(ids@) == walk(*workspace) + walk_each(workspace.floating_nodes@, 0));
    while i < workspace.floating_nodes.len()
        invariant
            i <= workspace.floating_nodes.len(),
            views(ids@) == walk(*workspace) + walk_each(workspace.floating_nodes@, i as nat),
        decreases workspace.floating_nodes.len() - i,
    {
        collect(&workspace.floating_nodes[i], &mut ids);
        assert(views(ids@) == walk(*workspace) + (walk_each(workspace.floating_nodes@, i as nat)
            + walk(workspace.floating_nodes@[i as int])));
        i += 1;
    }
    if ids.len() > 0 {
        return ids;
    }
    match &workspace.representation {
        Some(r) => parse_representation(r.as_str()),
        None => ids,
    }
}

/// Collection of application identifiers scraped from a workspace's tree.
#[derive(Debug)]
pub struct AppIds {
    inner: Vec<String>,
}

impl View for AppIds {
    type V = Seq<Seq<char>>;

    closed spec fn view(&self) -> Seq<Seq<char>> {
        views(self.inner@)
    }
}

impl AppIds {
    /// A collection of the given identifiers, in their order.
    pub fn new(ids: Vec<String>) -> (out: AppIds)
        ensures
            out@ == views(ids@),
    {
        AppIds { inner: ids }
    }

    /// The identifiers of the applications on a workspace.
    pub fn from(workspace: &WorkspaceNode) -> (out: AppIds)
        ensures
            out@ == identifiers(*workspace),
    {
        AppIds { inner: extract_identifiers(workspace) }
    }

    /// The number of identifiers, duplicates counted.
    pub fn len(&self) -> (n: usize)
        ensures
            n == self@.len(),
    {
        self.inner.len()
    }

    /// The identifiers, in the order in which they were found.
    pub fn ids(&self) -> (out: Vec<String>)
        ensures
            views(out@) == self@,
    {
        let mut out: Vec<String> = Vec::new();
        let mut i: usize = 0;
        while i < self.inner.len()
            invariant
                i <= self.inner.len(),
                views(out@) == views(self.inner@).take(i as int),
            decreases self.inner.len() - i,
        {
            let ghost before = views(out@);
            out.push(self.inner[i].clone());
            assert(views(out@) =~= before.push(self.inner@[i as int]@));
            assert(before.push(self.inner@[i as int]@) =~= views(self.inner@).take(i + 1));
            i += 1;
        }
        assert(views(self.inner@).take(self.inner.len() as int) == views(self.inner@));
        out
    }

    /// Map collected identifiers to the icon text of the workspace's new
    /// name: the icon of each identifier, sorted, each icon once, joined by
    /// the configured separator.
    pub fn map(&self, cfg: &Config) -> (out: String)
        ensures
            out@ == resolve(self@, cfg@),
    {
        let mut icons: Vec<String> = Vec::new();
        let mut i: usize = 0;
        while i < self.inner.len()
            invariant
                i <= self.inner.len(),
                views(icons@) == icons_of(self@, cfg@).take(i as int),
            decreases self.inner.len() - i,
        {
            let icon = cfg.icon_for(self.inner[i].as_str());
            let ghost before = views(icons@);
            icons.push(icon);
            assert(views(icons@) =~= before.push(icon_of(cfg@, self@[i as int])));
            assert(before.push(icon_of(cfg@, self@[i as int])) =~= icons_of(self@, cfg@).take(
                i + 1,
            ));
            i += 1;
        }
        assert(icons_of(self@, cfg@).take(self.inner.len() as int) == icons_of(self@, cfg@));
        icon_string(&icons, cfg.icon_separator.as_str())
    }

    /// The identifiers for which the configuration has no icon, so that they
    /// are shown with the default icon.
    pub fn unmapped(&self, cfg: &Config) -> (out: Vec<String>)
        ensures
            views(out@) == unmapped_of(self@, cfg@),
    {
        let mut out: Vec<String> = Vec::new();
        let mut i: usize = 0;
        assert(self@.take(0) =~= Seq::empty());
        while i < self.inner.len()
            invariant
                i <= self.inner.len(),
                views(out@) == self@.take(i as int).filter(unmapped_in(cfg@)),
            decreases self.inner.len() - i,
        {
            let ghost before = views(out@);
            let ghost upto = self@.take(i + 1);
            proof {
                assert(upto.drop_last() == self@.take(i as int));
                assert(upto.last() == self.inner@[i as int]@);
                reveal(Seq::filter);
            }
            if !cfg.has_icon_for(self.inner[i].as_str()) {
                out.push(self.inner[i].clone());
                assert(views(out@) == before.push(self.inner@[i as int]@));
            }
            i += 1;
        }
        assert(self@.take(self.inner.len() as int) == self@);
        out
    }
}

/// Construct the command for renaming `workspace`.
///
/// Returns the workspace's name and the command, or nothing for a workspace
/// without a name or without a number.
pub fn construct_rename_cmd(workspace: &WorkspaceNode, cfg: &Config) -> (out: Option<
    (String, String),
>)
    ensures
        out is None <==> (workspace.name is None || workspace.num is None),
        rename_view(out) == rename_of(*workspace, cfg@),
{
    let ws_name = match &workspace.name {
        Some(n) => n,
        None => {
            return None;
        },
    };
    let ws_num = match workspace.num {
        Some(n) => n,
        None => {
            return None;
        },
    };
    let icons = AppIds::from(workspace).map(cfg);
    let format = cfg.format(number_text(ws_num), icons);
    let mut cmd = String::from_str("rename workspace '");
    cmd.append(ws_name.as_str());
    cmd.append("' to '");
    cmd.append(format.as_str());
    cmd.append("'");
    Some((ws_name.clone(), cmd))
}

} // verus!
