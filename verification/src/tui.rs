//! The interactive tree browser's model.
//!
//! The browser shows a flat list of nodes: top-level parents (entities)
//! and their children (methods, routes, fields), each child naming its
//! parent by index. A child is shown only while its parent is expanded.
//! Keys move the selection over the shown nodes, expand and collapse
//! parents, and search the labels. Drawing and the terminal are not part
//! of the library: it hands out the texts to draw.

use vstd::prelude::*;
use crate::input_validation::{debug_string, debug_text};
use crate::ir::{
    ClassDef, EntityKind, HttpMethod, InterfaceDef, IrFile, MethodDef, MethodSignature, RouteDef,
    ScanIndex, SchemaDef, SchemaField, ServiceDef, ServiceKind,
};
use crate::queries::{all_interfaces, all_schemas, all_services};
use crate::text::{
    append_str, chars_of, contains_seq, dec, decimal, lowercase, str_contains, string_of,
    to_lowercase,
};

verus! {

/// A single node in the tree. Parent nodes have children; leaf nodes do not.
#[derive(Debug, Clone)]
pub struct TreeNode {
    /// Display label for this node.
    pub label: String,
    /// Entity kind (for coloring / icons).
    pub kind: EntityKind,
    /// Depth in the tree (0 = top-level parent).
    pub depth: u16,
    /// Number of children (methods/properties). 0 for leaf nodes.
    pub child_count: usize,
    /// Whether this parent is currently expanded.
    pub expanded: bool,
    /// For a child node, the index of its parent in the node list.
    pub parent_idx: Option<usize>,
    /// File location (file:line).
    pub file_loc: String,
}

/// The content of a tree node.
pub struct NodeSpec {
    pub label: Seq<char>,
    pub kind: EntityKind,
    pub depth: u16,
    pub child_count: usize,
    pub expanded: bool,
    pub parent_idx: Option<usize>,
    pub file_loc: Seq<char>,
}

impl View for TreeNode {
    type V = NodeSpec;

    open spec fn view(&self) -> NodeSpec {
        NodeSpec {
            label: self.label@,
            kind: self.kind,
            depth: self.depth,
            child_count: self.child_count,
            expanded: self.expanded,
            parent_idx: self.parent_idx,
            file_loc: self.file_loc@,
        }
    }
}

pub open spec fn nodes_view(v: Seq<TreeNode>) -> Seq<NodeSpec> {
    v.map_values(|n: TreeNode| n@)
}

/// The browser's state. Usable without a terminal.
pub struct TuiApp {
    /// Flat list of all tree nodes (parents and children interleaved).
    pub nodes: Vec<TreeNode>,
    /// Currently selected position among the shown nodes.
    pub selected: usize,
    /// Whether the browser should quit.
    pub should_quit: bool,
    /// Search query (after `/` was pressed).
    pub search_query: Option<String>,
    /// Whether keys currently edit the search query.
    pub search_mode: bool,
    /// Title for the header.
    pub title: String,
}

/// A key, as the browser reads it.
#[derive(Debug, Clone, Copy, PartialEq, Eq, Structural)]
pub enum KeyCode {
    Char(char),
    Up,
    Down,
    Left,
    Right,
    Enter,
    Esc,
    Backspace,
    /// Any other key.
    Other,
}

/// A key press: the key and whether Control was held.
#[derive(Debug, Clone, Copy, PartialEq, Eq, Structural)]
pub struct KeyEvent {
    pub code: KeyCode,
    pub ctrl: bool,
}

/// Every child names an existing node as its parent.
pub open spec fn tree_wf(nodes: Seq<NodeSpec>) -> bool {
    forall|i: int|
        0 <= i < nodes.len() ==> ((#[trigger] nodes[i]).parent_idx matches Some(p) ==> p
            < nodes.len())
}

/// Whether node `i` is shown: a parent always, a child while its parent is
/// expanded.
pub open spec fn shown(nodes: Seq<NodeSpec>, i: int) -> bool {
    match nodes[i].parent_idx {
        None => true,
        Some(p) => nodes[p as int].expanded,
    }
}

/// The shown nodes among the first `n`, by index, in order.
pub open spec fn visible_upto(nodes: Seq<NodeSpec>, n: int) -> Seq<usize>
    decreases n,
{
    if n <= 0 {
        Seq::empty()
    } else if shown(nodes, n - 1) {
        visible_upto(nodes, n - 1).push((n - 1) as usize)
    } else {
        visible_upto(nodes, n - 1)
    }
}

/// The indices of the shown nodes, in order.
pub open spec fn visible(nodes: Seq<NodeSpec>) -> Seq<usize> {
    visible_upto(nodes, nodes.len() as int)
}

pub proof fn lemma_visible_bounds(nodes: Seq<NodeSpec>, n: int)
    requires
        0 <= n <= nodes.len() <= usize::MAX,
    ensures
        visible_upto(nodes, n).len() <= n,
        forall|k: int|
            0 <= k < visible_upto(nodes, n).len() ==> #[trigger] visible_upto(nodes, n)[k] < n,
        forall|k: int, m: int|
            0 <= k < m < visible_upto(nodes, n).len() ==> visible_upto(nodes, n)[k]
                < visible_upto(nodes, n)[m],
    decreases n,
{
    if n > 0 {
        lemma_visible_bounds(nodes, n - 1);
    }
}

/// The node list with node `i` expanded or collapsed.
pub open spec fn with_expanded(nodes: Seq<NodeSpec>, i: int, b: bool) -> Seq<NodeSpec> {
    nodes.update(i, NodeSpec { expanded: b, ..nodes[i] })
}

/// The selection after a move by `delta`, kept among the shown nodes
/// (nothing moves when none is shown).
pub open spec fn moved(sel: usize, shown_count: nat, delta: int) -> usize {
    if shown_count == 0 {
        sel
    } else if delta < 0 {
        if sel >= -delta {
            (sel + delta) as usize
        } else {
            0
        }
    } else if sel + delta < shown_count - 1 {
        (sel + delta) as usize
    } else {
        (shown_count - 1) as usize
    }
}

/// The nodes after Enter: the selected parent with children toggles.
pub open spec fn toggled(nodes: Seq<NodeSpec>, sel: usize) -> Seq<NodeSpec> {
    let v = visible(nodes);
    if sel < v.len() {
        let ni = v[sel as int] as int;
        if nodes[ni].parent_idx is None && nodes[ni].child_count > 0 {
            with_expanded(nodes, ni, !nodes[ni].expanded)
        } else {
            nodes
        }
    } else {
        nodes
    }
}

/// The nodes after Right: the selected parent with children expands.
pub open spec fn expanded_at(nodes: Seq<NodeSpec>, sel: usize) -> Seq<NodeSpec> {
    let v = visible(nodes);
    if sel < v.len() {
        let ni = v[sel as int] as int;
        if nodes[ni].parent_idx is None && nodes[ni].child_count > 0 {
            with_expanded(nodes, ni, true)
        } else {
            nodes
        }
    } else {
        nodes
    }
}

/// The nodes after Left: a selected parent collapses; on a child, its
/// parent collapses.
pub open spec fn collapsed_at(nodes: Seq<NodeSpec>, sel: usize) -> Seq<NodeSpec> {
    let v = visible(nodes);
    if sel < v.len() {
        let ni = v[sel as int] as int;
        match nodes[ni].parent_idx {
            None => with_expanded(nodes, ni, false),
            Some(p) => with_expanded(nodes, p as int, false),
        }
    } else {
        nodes
    }
}

/// The first position of `x` in `s`.
pub open spec fn first_index(s: Seq<usize>, x: usize) -> Option<int>
    decreases s.len(),
{
    if s.len() == 0 {
        None
    } else {
        match first_index(s.drop_last(), x) {
            Some(k) => Some(k),
            None => if s.last() == x {
                Some(s.len() - 1)
            } else {
                None
            },
        }
    }
}

/// The selection after Left: on a child, the position of its parent among
/// the nodes shown after the collapse.
pub open spec fn selected_after_collapse(nodes: Seq<NodeSpec>, sel: usize) -> usize {
    let v = visible(nodes);
    if sel < v.len() {
        let ni = v[sel as int] as int;
        match nodes[ni].parent_idx {
            None => sel,
            Some(p) => match first_index(visible(collapsed_at(nodes, sel)), p) {
                Some(k) => k as usize,
                None => sel,
            },
        }
    } else {
        sel
    }
}

/// The first shown position whose label, lowercased, contains `lq`.
pub open spec fn first_label_match(nodes: Seq<NodeSpec>, v: Seq<usize>, lq: Seq<char>) -> Option<int>
    decreases v.len(),
{
    if v.len() == 0 {
        None
    } else {
        match first_label_match(nodes, v.drop_last(), lq) {
            Some(k) => Some(k),
            None => if contains_seq(lowercase(nodes[v.last() as int].label), lq) {
                Some(v.len() - 1)
            } else {
                None
            },
        }
    }
}

/// The selection after the query changed: the first shown node whose
/// label contains the query, ignoring case; unchanged without a match or
/// with an empty query.
pub open spec fn jumped(nodes: Seq<NodeSpec>, query: Option<Seq<char>>, sel: usize) -> usize {
    match query {
        Some(q) => if q.len() > 0 {
            match first_label_match(nodes, visible(nodes), lowercase(q)) {
                Some(k) => k as usize,
                None => sel,
            }
        } else {
            sel
        },
        None => sel,
    }
}

pub open spec fn query_view(q: Option<String>) -> Option<Seq<char>> {
    match q {
        Some(s) => Some(s@),
        None => None,
    }
}

pub open spec fn is_char(key: KeyEvent, c: char) -> bool {
    key.code == KeyCode::Char(c)
}

/// Whether a key is taken, outside search mode.
pub open spec fn browse_handles(key: KeyEvent) -> bool {
    ||| is_char(key, 'q')
    ||| (is_char(key, 'c') && key.ctrl)
    ||| key.code == KeyCode::Up || is_char(key, 'k')
    ||| key.code == KeyCode::Down || is_char(key, 'j')
    ||| key.code == KeyCode::Enter
    ||| key.code == KeyCode::Right || is_char(key, 'l')
    ||| key.code == KeyCode::Left || is_char(key, 'h')
    ||| is_char(key, '/')
    ||| key.code == KeyCode::Esc
}

/// Whether a key moves the selection down, outside search mode.
pub open spec fn moves_down(key: KeyEvent) -> bool {
    !is_char(key, 'q') && !(is_char(key, 'c') && key.ctrl) && (key.code == KeyCode::Down
        || is_char(key, 'j'))
}

/// Whether a key moves the selection up, outside search mode.
pub open spec fn moves_up(key: KeyEvent) -> bool {
    key.code == KeyCode::Up || is_char(key, 'k')
}

/// The query after a key in search mode: Backspace drops the last
/// character, a character is appended.
pub open spec fn edited_query(q: Option<Seq<char>>, key: KeyEvent) -> Option<Seq<char>> {
    match q {
        None => None,
        Some(s) => match key.code {
            KeyCode::Backspace => Some(
                if s.len() > 0 {
                    s.drop_last()
                } else {
                    s
                },
            ),
            KeyCode::Char(c) => Some(s.push(c)),
            _ => Some(s),
        },
    }
}

impl TuiApp {
    pub open spec fn wf(&self) -> bool {
        tree_wf(nodes_view(self.nodes@))
    }

    /// The indices of the shown nodes, in order: every parent, and a
    /// child while its parent is expanded.
    pub fn visible_indices(&self) -> (r: Vec<usize>)
        requires
            self.wf(),
        ensures
            r@ == visible(nodes_view(self.nodes@)),
    {
        let ghost nv = nodes_view(self.nodes@);
        let mut r: Vec<usize> = Vec::new();
        let mut i: usize = 0;
        while i < self.nodes.len()
            invariant
                i <= self.nodes.len(),
                nv == nodes_view(self.nodes@),
                tree_wf(nv),
                r@ == visible_upto(nv, i as int),
            decreases self.nodes.len() - i,
        {
            assert(nv[i as int] == self.nodes@[i as int]@);
            match self.nodes[i].parent_idx {
                Some(p) => {
                    assert(p < nv.len());
                    assert(nv[p as int] == self.nodes@[p as int]@);
                    if self.nodes[p].expanded {
                        r.push(i);
                    }
                },
                None => {
                    r.push(i);
                },
            }
            i += 1;
        }
        r
    }

    /// Sets whether node `i` is expanded.
    fn set_expanded(&mut self, i: usize, b: bool)
        requires
            i < old(self).nodes@.len(),
        ensures
            nodes_view(final(self).nodes@) == with_expanded(nodes_view(old(self).nodes@), i as int, b),
            final(self).selected == old(self).selected,
            final(self).should_quit == old(self).should_quit,
            final(self).search_query == old(self).search_query,
            final(self).search_mode == old(self).search_mode,
            final(self).title == old(self).title,
            old(self).wf() ==> final(self).wf(),
    {
        let mut node = self.nodes.remove(i);
        node.expanded = b;
        self.nodes.insert(i, node);
        assert(nodes_view(self.nodes@) =~= with_expanded(nodes_view(old(self).nodes@), i as int, b));
        assert forall|j: int| 0 <= j < self.nodes@.len() implies nodes_view(self.nodes@)[j].parent_idx
            == nodes_view(old(self).nodes@)[j].parent_idx by {}
    }

    fn move_selection(&mut self, delta: i32)
        requires
            old(self).wf(),
            delta >= 0 ==> old(self).selected + delta <= usize::MAX,
        ensures
            final(self).selected == moved(
                old(self).selected,
                visible(nodes_view(old(self).nodes@)).len(),
                delta as int,
            ),
            final(self).nodes == old(self).nodes,
            final(self).should_quit == old(self).should_quit,
            final(self).search_query == old(self).search_query,
            final(self).search_mode == old(self).search_mode,
            final(self).title == old(self).title,
    {
        let shown_now = self.visible_indices();
        if shown_now.len() == 0 {
            return;
        }
        let max = shown_now.len() - 1;
        if delta < 0 {
            let d: usize = (0i64 - delta as i64) as usize;
            if self.selected >= d {
                self.selected = self.selected - d;
            } else {
                self.selected = 0;
            }
        } else {
            let s = self.selected + delta as usize;
            self.selected = if s < max {
                s
            } else {
                max
            };
        }
    }

    fn toggle_selected(&mut self)
        requires
            old(self).wf(),
        ensures
            nodes_view(final(self).nodes@) == toggled(nodes_view(old(self).nodes@), old(self).selected),
            final(self).wf(),
            final(self).selected == old(self).selected,
            final(self).should_quit == old(self).should_quit,
            final(self).search_query == old(self).search_query,
            final(self).search_mode == old(self).search_mode,
            final(self).title == old(self).title,
    {
        let shown_now = self.visible_indices();
        proof {
            lemma_visible_bounds(nodes_view(self.nodes@), self.nodes.len() as int);
        }
        if self.selected < shown_now.len() {
            let ni = shown_now[self.selected];
            if self.nodes[ni].parent_idx.is_none() && self.nodes[ni].child_count > 0 {
                let b = !self.nodes[ni].expanded;
                self.set_expanded(ni, b);
            }
        }
    }

    fn expand_selected(&mut self)
        requires
            old(self).wf(),
        ensures
            nodes_view(final(self).nodes@) == expanded_at(nodes_view(old(self).nodes@), old(self).selected),
            final(self).wf(),
            final(self).selected == old(self).selected,
            final(self).should_quit == old(self).should_quit,
            final(self).search_query == old(self).search_query,
            final(self).search_mode == old(self).search_mode,
            final(self).title == old(self).title,
    {
        let shown_now = self.visible_indices();
        proof {
            lemma_visible_bounds(nodes_view(self.nodes@), self.nodes.len() as int);
        }
        if self.selected < shown_now.len() {
            let ni = shown_now[self.selected];
            if self.nodes[ni].parent_idx.is_none() && self.nodes[ni].child_count > 0 {
                self.set_expanded(ni, true);
            }
        }
    }

    fn collapse_selected(&mut self)
        requires
            old(self).wf(),
        ensures
            nodes_view(final(self).nodes@) == collapsed_at(nodes_view(old(self).nodes@), old(self).selected),
            final(self).wf(),
            final(self).selected == selected_after_collapse(nodes_view(old(self).nodes@), old(self).selected),
            final(self).should_quit == old(self).should_quit,
            final(self).search_query == old(self).search_query,
            final(self).search_mode == old(self).search_mode,
            final(self).title == old(self).title,
    {
        let ghost nv0 = nodes_view(self.nodes@);
        let shown_now = self.visible_indices();
        proof {
            lemma_visible_bounds(nv0, self.nodes.len() as int);
        }
        if self.selected < shown_now.len() {
            let ni = shown_now[self.selected];
            assert(nv0[ni as int] == self.nodes@[ni as int]@);
            match self.nodes[ni].parent_idx {
                None => {
                    self.set_expanded(ni, false);
                },
                Some(parent_idx) => {
                    self.set_expanded(parent_idx, false);
                    let new_shown = self.visible_indices();
                    match position_of(&new_shown, parent_idx) {
                        Some(k) => {
                            self.selected = k;
                        },
                        None => {},
                    }
                },
            }
        }
    }

    /// The selection after the query changed: the first shown node whose
    /// label contains the query, ignoring case.
    fn jump_to_search_match(&mut self)
        requires
            old(self).wf(),
        ensures
            final(self).selected == jumped(
                nodes_view(old(self).nodes@),
                query_view(old(self).search_query),
                old(self).selected,
            ),
            final(self).nodes == old(self).nodes,
            final(self).should_quit == old(self).should_quit,
            final(self).search_query == old(self).search_query,
            final(self).search_mode == old(self).search_mode,
            final(self).title == old(self).title,
    {
        let query = match &self.search_query {
            Some(q) => {
                if chars_of(q.as_str()).len() == 0 {
                    return;
                }
                to_lowercase(q.as_str())
            },
            None => {
                return;
            },
        };
        let ghost nv = nodes_view(self.nodes@);
        let shown_now = self.visible_indices();
        proof {
            lemma_visible_bounds(nv, self.nodes.len() as int);
        }
        let ghost vis = shown_now@;
        let mut vi: usize = 0;
        while vi < shown_now.len()
            invariant
                vi <= shown_now.len(),
                shown_now@ == vis,
                vis == visible(nv),
                nv == nodes_view(self.nodes@),
                forall|k: int| 0 <= k < vis.len() ==> #[trigger] vis[k] < nv.len(),
                first_label_match(nv, vis.take(vi as int), query@) is None,
                query_view(old(self).search_query) matches Some(qq) && qq.len() > 0 && query@
                    == lowercase(qq),
                vis == visible(nodes_view(old(self).nodes@)),
                self.selected == old(self).selected,
                self.nodes == old(self).nodes,
                self.should_quit == old(self).should_quit,
                self.search_query == old(self).search_query,
                self.search_mode == old(self).search_mode,
                self.title == old(self).title,
            decreases shown_now.len() - vi,
        {
            let ni = shown_now[vi];
            assert(vis.take(vi + 1 as int).drop_last() =~= vis.take(vi as int));
            assert(nv[ni as int] == self.nodes@[ni as int]@);
            let label = to_lowercase(self.nodes[ni].label.as_str());
            if str_contains(label.as_str(), query.as_str()) {
                proof {
                    lemma_first_label_match_prefix(nv, vis, query@, vi as int + 1);
                }
                self.selected = vi;
                return;
            }
            vi += 1;
        }
        assert(vis.take(vi as int) =~= vis);
    }

    fn handle_search_key(&mut self, key: KeyEvent) -> (handled: bool)
        requires
            old(self).wf(),
        ensures
            handled == (key.code == KeyCode::Esc || key.code == KeyCode::Enter || key.code
                == KeyCode::Backspace || key.code is Char),
            final(self).nodes == old(self).nodes,
            final(self).should_quit == old(self).should_quit,
            final(self).title == old(self).title,
            final(self).search_mode == (old(self).search_mode && !(key.code == KeyCode::Esc
                || key.code == KeyCode::Enter)),
            query_view(final(self).search_query) == if key.code == KeyCode::Backspace
                || key.code is Char {
                edited_query(query_view(old(self).search_query), key)
            } else {
                query_view(old(self).search_query)
            },
            final(self).selected == if key.code == KeyCode::Backspace || key.code is Char {
                jumped(
                    nodes_view(old(self).nodes@),
                    edited_query(query_view(old(self).search_query), key),
                    old(self).selected,
                )
            } else {
                old(self).selected
            },
    {
        match key.code {
            KeyCode::Esc | KeyCode::Enter => {
                self.search_mode = false;
                true
            },
            KeyCode::Backspace => {
                let edited = match &self.search_query {
                    Some(q) => {
                        let mut cs = chars_of(q.as_str());
                        if cs.len() > 0 {
                            cs.pop();
                        }
                        Some(string_of(&cs))
                    },
                    None => None,
                };
                self.search_query = edited;
                self.jump_to_search_match();
                true
            },
            KeyCode::Char(c) => {
                let edited = match &self.search_query {
                    Some(q) => {
                        let mut cs = chars_of(q.as_str());
                        cs.push(c);
                        Some(string_of(&cs))
                    },
                    None => None,
                };
                self.search_query = edited;
                self.jump_to_search_match();
                true
            },
            _ => false,
        }
    }

    /// Handles a key and says whether it was taken. In search mode keys
    /// edit the query (the selection jumps to the first match) and Esc or
    /// Enter leave search mode. Otherwise `q` and Ctrl-C quit, Up/`k` and
    /// Down/`j` move the selection, Enter toggles the selected parent,
    /// Right/`l` expands it, Left/`h` collapses it (or, on a child, its
    /// parent, selecting the parent), `/` starts a search with an empty
    /// query and Esc drops the query.
    pub fn handle_event(&mut self, key: KeyEvent) -> (handled: bool)
        requires
            old(self).wf(),
            !old(self).search_mode && moves_down(key) ==> old(self).selected < usize::MAX,
        ensures
            final(self).wf(),
            final(self).title == old(self).title,
            old(self).search_mode ==> {
                &&& handled == (key.code == KeyCode::Esc || key.code == KeyCode::Enter || key.code
                    == KeyCode::Backspace || key.code is Char)
                &&& final(self).nodes == old(self).nodes
                &&& final(self).should_quit == old(self).should_quit
                &&& final(self).search_mode == !(key.code == KeyCode::Esc || key.code
                    == KeyCode::Enter)
                &&& query_view(final(self).search_query) == if key.code == KeyCode::Backspace
                    || key.code is Char {
                    edited_query(query_view(old(self).search_query), key)
                } else {
                    query_view(old(self).search_query)
                }
                &&& final(self).selected == if key.code == KeyCode::Backspace || key.code is Char {
                    jumped(
                        nodes_view(old(self).nodes@),
                        edited_query(query_view(old(self).search_query), key),
                        old(self).selected,
                    )
                } else {
                    old(self).selected
                }
            },
            !old(self).search_mode ==> {
                let nv = nodes_view(old(self).nodes@);
                let sel = old(self).selected;
                let count = visible(nv).len();
                &&& handled == browse_handles(key)
                &&& final(self).should_quit == (old(self).should_quit || is_char(key, 'q') || (
                is_char(key, 'c') && key.ctrl))
                &&& nodes_view(final(self).nodes@) == if is_char(key, 'q') || (is_char(key, 'c')
                    && key.ctrl) {
                    nv
                } else if key.code == KeyCode::Enter {
                    toggled(nv, sel)
                } else if key.code == KeyCode::Right || is_char(key, 'l') {
                    expanded_at(nv, sel)
                } else if key.code == KeyCode::Left || is_char(key, 'h') {
                    collapsed_at(nv, sel)
                } else {
                    nv
                }
                &&& final(self).selected == if is_char(key, 'q') || (is_char(key, 'c') && key.ctrl) {
                    sel
                } else if moves_up(key) {
                    moved(sel, count, -1)
                } else if moves_down(key) {
                    moved(sel, count, 1)
                } else if key.code == KeyCode::Left || is_char(key, 'h') {
                    selected_after_collapse(nv, sel)
                } else {
                    sel
                }
                &&& final(self).search_mode == (is_char(key, '/'))
                &&& query_view(final(self).search_query) == if is_char(key, '/') {
                    Some(Seq::<char>::empty())
                } else if key.code == KeyCode::Esc {
                    None
                } else {
                    query_view(old(self).search_query)
                }
            },
    {
        if self.search_mode {
            return self.handle_search_key(key);
        }
        match key.code {
            KeyCode::Char('q') => {
                self.should_quit = true;
                true
            },
            KeyCode::Char('c') if key.ctrl => {
                self.should_quit = true;
                true
            },
            KeyCode::Up | KeyCode::Char('k') => {
                self.move_selection(-1);
                true
            },
            KeyCode::Down | KeyCode::Char('j') => {
                self.move_selection(1);
                true
            },
            KeyCode::Enter => {
                self.toggle_selected();
                true
            },
            KeyCode::Right | KeyCode::Char('l') => {
                self.expand_selected();
                true
            },
            KeyCode::Left | KeyCode::Char('h') => {
                self.collapse_selected();
                true
            },
            KeyCode::Char('/') => {
                self.search_mode = true;
                self.search_query = Some(string_of(&Vec::new()));
                true
            },
            KeyCode::Esc => {
                self.search_query = None;
                self.search_mode = false;
                true
            },
            _ => false,
        }
    }
}

/// The first position of `x` in `s`.
fn position_of(s: &Vec<usize>, x: usize) -> (r: Option<usize>)
    ensures
        match first_index(s@, x) {
            Some(k) => r == Some(k as usize),
            None => r is None,
        },
{
    let mut i: usize = 0;
    while i < s.len()
        invariant
            i <= s.len(),
            first_index(s@.take(i as int), x) is None,
        decreases s.len() - i,
    {
        assert(s@.take(i + 1 as int).drop_last() =~= s@.take(i as int));
        if s[i] == x {
            proof {
                lemma_first_index_prefix(s@, x, i as int + 1);
            }
            return Some(i);
        }
        i += 1;
    }
    assert(s@.take(i as int) =~= s@);
    None
}

proof fn lemma_first_index_prefix(s: Seq<usize>, x: usize, n: int)
    requires
        0 < n <= s.len(),
        first_index(s.take(n - 1), x) is None,
        s[n - 1] == x,
    ensures
        first_index(s, x) == Some(n - 1),
    decreases s.len(),
{
    assert(s.take(n).drop_last() =~= s.take(n - 1));
    if n < s.len() {
        assert(s.drop_last().take(n) =~= s.take(n));
        assert(s.drop_last().take(n - 1) =~= s.take(n - 1));
        lemma_first_index_prefix(s.drop_last(), x, n);
    } else {
        assert(s.take(n) =~= s);
    }
}

proof fn lemma_first_label_match_prefix(nodes: Seq<NodeSpec>, v: Seq<usize>, lq: Seq<char>, n: int)
    requires
        0 < n <= v.len(),
        first_label_match(nodes, v.take(n - 1), lq) is None,
        contains_seq(lowercase(nodes[v[n - 1] as int].label), lq),
    ensures
        first_label_match(nodes, v, lq) == Some(n - 1),
    decreases v.len(),
{
    assert(v.take(n).drop_last() =~= v.take(n - 1));
    if n < v.len() {
        assert(v.drop_last().take(n) =~= v.take(n));
        assert(v.drop_last().take(n - 1) =~= v.take(n - 1));
        lemma_first_label_match_prefix(nodes, v.drop_last(), lq, n);
    } else {
        assert(v.take(n) =~= v);
    }
}



proof fn lemma_visible_prefix(nodes: Seq<NodeSpec>, m: int, n: int)
    requires
        0 <= m <= n <= nodes.len() <= usize::MAX,
    ensures
        visible_upto(nodes, m).len() <= visible_upto(nodes, n).len(),
        forall|k: int|
            0 <= k < visible_upto(nodes, m).len() ==> #[trigger] visible_upto(nodes, n)[k]
                == visible_upto(nodes, m)[k],
        forall|k: int|
            visible_upto(nodes, m).len() <= k < visible_upto(nodes, n).len() ==> #[trigger] visible_upto(
                nodes,
                n,
            )[k] >= m,
    decreases n - m,
{
    if n > m {
        lemma_visible_prefix(nodes, m, n - 1);
    }
}

proof fn lemma_visible_agree(a: Seq<NodeSpec>, b: Seq<NodeSpec>, n: int)
    requires
        0 <= n,
        forall|j: int| 0 <= j < n ==> shown(a, j) == shown(b, j),
    ensures
        visible_upto(a, n) == visible_upto(b, n),
    decreases n,
{
    if n > 0 {
        lemma_visible_agree(a, b, n - 1);
    }
}

/// Pressing Enter twice on the same selection gives back the tree it
/// started from: the second press collapses what the first expanded (and
/// the other way round). Holds of trees whose children come after their
/// parents, as the builders make them.
pub proof fn lemma_toggle_twice(nodes: Seq<NodeSpec>, sel: usize)
    requires
        tree_wf(nodes),
        parents_first(nodes),
        nodes.len() <= usize::MAX,
    ensures
        toggled(toggled(nodes, sel), sel) == nodes,
{
    let v = visible(nodes);
    lemma_visible_bounds(nodes, nodes.len() as int);
    if sel < v.len() {
        let ni = v[sel as int] as int;
        if nodes[ni].parent_idx is None && nodes[ni].child_count > 0 {
            let once = with_expanded(nodes, ni, !nodes[ni].expanded);
            assert forall|j: int| 0 <= j < ni + 1 implies shown(nodes, j) == shown(once, j) by {
                assert(once[j].parent_idx == nodes[j].parent_idx);
                if nodes[j].parent_idx is Some {
                    let p = nodes[j].parent_idx->0 as int;
                    assert(p < j);
                    assert(once[p].expanded == nodes[p].expanded);
                }
            }
            lemma_visible_agree(nodes, once, ni + 1);
            lemma_visible_prefix(nodes, ni + 1, nodes.len() as int);
            lemma_visible_prefix(once, ni + 1, nodes.len() as int);
            assert(sel < visible_upto(nodes, ni + 1).len());
            assert(visible(once)[sel as int] == ni);
            assert(toggled(once, sel) =~= nodes);
        }
    }
}

// ---------------------------------------------------------------------------
// Building trees from a scan index
// ---------------------------------------------------------------------------

/// Every child comes after its parent.
pub open spec fn parents_first(nodes: Seq<NodeSpec>) -> bool {
    forall|i: int|
        0 <= i < nodes.len() ==> ((#[trigger] nodes[i]).parent_idx matches Some(p) ==> p < i)
}

pub open spec fn opt_or(o: Option<String>, d: Seq<char>) -> Seq<char> {
    match o {
        Some(s) => s@,
        None => d,
    }
}

/// `file:line`.
pub open spec fn location(file: Seq<char>, line: u32) -> Seq<char> {
    file + ":"@ + dec(line as nat)
}

pub open spec fn async_prefix(is_async: bool) -> Seq<char> {
    if is_async {
        "async "@
    } else {
        Seq::empty()
    }
}

/// The label of a method: `[async ]name(...) -> return type` (`void`
/// without one).
pub open spec fn call_label(is_async: bool, name: Seq<char>, ret: Option<String>) -> Seq<char> {
    async_prefix(is_async) + name + "(...) -> "@ + opt_or(ret, "void"@)
}

/// The text `{:?}` gives for a service kind.
pub open spec fn service_kind_text(k: ServiceKind) -> Seq<char> {
    match k {
        ServiceKind::HttpController => "HttpController"@,
        ServiceKind::GrpcService => "GrpcService"@,
        ServiceKind::GraphqlResolver => "GraphqlResolver"@,
        ServiceKind::Worker => "Worker"@,
        ServiceKind::Microservice => "Microservice"@,
        ServiceKind::CliCommand => "CliCommand"@,
        ServiceKind::EventHandler => "EventHandler"@,
        ServiceKind::Middleware => "Middleware"@,
        ServiceKind::Repository => "Repository"@,
        ServiceKind::Custom(s) => "Custom("@ + debug_text(s@) + ")"@,
    }
}

/// The text `{:?}` gives for an HTTP method.
pub open spec fn http_method_text(m: HttpMethod) -> Seq<char> {
    match m {
        HttpMethod::Get => "Get"@,
        HttpMethod::Post => "Post"@,
        HttpMethod::Put => "Put"@,
        HttpMethod::Patch => "Patch"@,
        HttpMethod::Delete => "Delete"@,
        HttpMethod::Head => "Head"@,
        HttpMethod::Options => "Options"@,
    }
}

pub open spec fn child_node(label: Seq<char>, kind: EntityKind, parent: int) -> NodeSpec {
    NodeSpec {
        label,
        kind,
        depth: 1,
        child_count: 0,
        expanded: false,
        parent_idx: Some(parent as usize),
        file_loc: Seq::empty(),
    }
}

pub open spec fn top_node(label: Seq<char>, kind: EntityKind, children: int, loc: Seq<char>) -> NodeSpec {
    NodeSpec {
        label,
        kind,
        depth: 0,
        child_count: children as usize,
        expanded: false,
        parent_idx: None,
        file_loc: loc,
    }
}

pub open spec fn signature_nodes(ms: Seq<MethodSignature>, parent: int) -> Seq<NodeSpec> {
    ms.map_values(
        |m: MethodSignature|
            child_node(call_label(m.is_async, m.name@, m.return_type), EntityKind::Method, parent),
    )
}

pub open spec fn method_nodes(ms: Seq<MethodDef>, parent: int) -> Seq<NodeSpec> {
    ms.map_values(
        |m: MethodDef| child_node(call_label(m.is_async, m.name@, m.return_type), EntityKind::Method, parent),
    )
}

pub open spec fn route_nodes(rs: Seq<RouteDef>, parent: int) -> Seq<NodeSpec> {
    rs.map_values(
        |r: RouteDef|
            child_node(
                http_method_text(r.method) + " "@ + r.path@ + " -> "@ + r.handler@,
                EntityKind::Method,
                parent,
            ),
    )
}

pub open spec fn field_nodes(fs: Seq<SchemaField>, parent: int) -> Seq<NodeSpec> {
    fs.map_values(
        |f: SchemaField|
            child_node(
                f.name@ + (if f.is_optional {
                    "?"@
                } else {
                    Seq::empty()
                }) + ": "@ + opt_or(f.type_annotation, "?"@),
                EntityKind::Schema,
                parent,
            ),
    )
}

/// An interface and its methods, the interface at position `base`.
pub open spec fn interface_block(x: InterfaceDef, base: int) -> Seq<NodeSpec> {
    seq![
        top_node(
            x.name@ + " ("@ + dec(x.methods@.len()) + " methods)"@,
            EntityKind::Interface,
            x.methods@.len() as int,
            location(x.file@, x.span.start_line),
        ),
    ] + signature_nodes(x.methods@, base)
}

/// A service, then its methods, then its routes.
pub open spec fn service_block(x: ServiceDef, base: int) -> Seq<NodeSpec> {
    seq![
        top_node(
            x.name@ + " ["@ + service_kind_text(x.kind) + "] ("@ + dec(x.methods@.len()) + " methods, "@
                + dec(x.routes@.len()) + " routes)"@,
            EntityKind::Service,
            (x.methods@.len() + x.routes@.len()) as int,
            location(x.file@, x.span.start_line),
        ),
    ] + method_nodes(x.methods@, base) + route_nodes(x.routes@, base)
}

/// A schema and its fields.
pub open spec fn schema_block(x: SchemaDef, base: int) -> Seq<NodeSpec> {
    seq![
        top_node(
            x.name@ + " ["@ + x.source_framework@ + "] ("@ + dec(x.fields@.len()) + " fields)"@,
            EntityKind::Schema,
            x.fields@.len() as int,
            location(x.file@, x.span.start_line),
        ),
    ] + field_nodes(x.fields@, base)
}

pub open spec fn interface_tree(s: Seq<InterfaceDef>) -> Seq<NodeSpec>
    decreases s.len(),
{
    if s.len() == 0 {
        Seq::empty()
    } else {
        let prev = interface_tree(s.drop_last());
        prev + interface_block(s.last(), prev.len() as int)
    }
}

pub open spec fn service_tree(s: Seq<ServiceDef>) -> Seq<NodeSpec>
    decreases s.len(),
{
    if s.len() == 0 {
        Seq::empty()
    } else {
        let prev = service_tree(s.drop_last());
        prev + service_block(s.last(), prev.len() as int)
    }
}

pub open spec fn schema_tree(s: Seq<SchemaDef>) -> Seq<NodeSpec>
    decreases s.len(),
{
    if s.len() == 0 {
        Seq::empty()
    } else {
        let prev = schema_tree(s.drop_last());
        prev + schema_block(s.last(), prev.len() as int)
    }
}

pub open spec fn interface_entries(s: Seq<InterfaceDef>) -> Seq<NodeSpec> {
    s.map_values(
        |x: InterfaceDef|
            top_node(
                "interface: "@ + x.name@,
                EntityKind::Interface,
                x.methods@.len() as int,
                location(x.file@, x.span.start_line),
            ),
    )
}

pub open spec fn service_entries(s: Seq<ServiceDef>) -> Seq<NodeSpec> {
    s.map_values(
        |x: ServiceDef|
            top_node(
                "service: "@ + x.name@,
                EntityKind::Service,
                x.methods@.len() as int,
                location(x.file@, x.span.start_line),
            ),
    )
}

pub open spec fn class_entries(s: Seq<ClassDef>) -> Seq<NodeSpec> {
    s.map_values(
        |x: ClassDef|
            top_node(
                "class: "@ + x.name@,
                EntityKind::Class,
                x.methods@.len() as int,
                location(x.file@, x.span.start_line),
            ),
    )
}

pub open spec fn schema_entries(s: Seq<SchemaDef>) -> Seq<NodeSpec> {
    s.map_values(
        |x: SchemaDef|
            top_node(
                "schema: "@ + x.name@,
                EntityKind::Schema,
                x.fields@.len() as int,
                location(x.file@, x.span.start_line),
            ),
    )
}

/// The flat entity list of one file: its interfaces, services, classes
/// and schemas, one line each.
pub open spec fn file_entity_nodes(f: IrFile) -> Seq<NodeSpec> {
    interface_entries(f.interfaces@) + service_entries(f.services@) + class_entries(f.classes@)
        + schema_entries(f.schemas@)
}

pub open spec fn entity_list(files: Seq<IrFile>) -> Seq<NodeSpec>
    decreases files.len(),
{
    if files.len() == 0 {
        Seq::empty()
    } else {
        entity_list(files.drop_last()) + file_entity_nodes(files.last())
    }
}

/// Whether every service's method and route counts add up within a `usize`.
pub open spec fn service_counts_fit(files: Seq<IrFile>) -> bool {
    forall|k: int|
        0 <= k < all_services(files).len() ==> (#[trigger] all_services(files)[k]).methods@.len()
            + all_services(files)[k].routes@.len() <= usize::MAX
}

/// The text `{:?}` gives for a service kind.
pub fn service_kind_debug(k: &ServiceKind) -> (r: String)
    ensures
        r@ == service_kind_text(*k),
{
    let mut r = String::new();
    match k {
        ServiceKind::HttpController => append_str(&mut r, "HttpController"),
        ServiceKind::GrpcService => append_str(&mut r, "GrpcService"),
        ServiceKind::GraphqlResolver => append_str(&mut r, "GraphqlResolver"),
        ServiceKind::Worker => append_str(&mut r, "Worker"),
        ServiceKind::Microservice => append_str(&mut r, "Microservice"),
        ServiceKind::CliCommand => append_str(&mut r, "CliCommand"),
        ServiceKind::EventHandler => append_str(&mut r, "EventHandler"),
        ServiceKind::Middleware => append_str(&mut r, "Middleware"),
        ServiceKind::Repository => append_str(&mut r, "Repository"),
        ServiceKind::Custom(s) => {
            append_str(&mut r, "Custom(");
            let d = debug_string(s.as_str());
            append_str(&mut r, d.as_str());
            append_str(&mut r, ")");
        },
    }
    r
}

/// The text `{:?}` gives for an HTTP method.
pub fn http_method_debug(m: HttpMethod) -> (r: String)
    ensures
        r@ == http_method_text(m),
{
    let mut r = String::new();
    match m {
        HttpMethod::Get => append_str(&mut r, "Get"),
        HttpMethod::Post => append_str(&mut r, "Post"),
        HttpMethod::Put => append_str(&mut r, "Put"),
        HttpMethod::Patch => append_str(&mut r, "Patch"),
        HttpMethod::Delete => append_str(&mut r, "Delete"),
        HttpMethod::Head => append_str(&mut r, "Head"),
        HttpMethod::Options => append_str(&mut r, "Options"),
    }
    r
}

pub(crate) fn location_text(file: &str, line: u32) -> (r: String)
    ensures
        r@ == location(file@, line),
{
    let mut r = String::new();
    append_str(&mut r, file);
    append_str(&mut r, ":");
    let d = decimal(line as u64);
    append_str(&mut r, d.as_str());
    r
}

pub(crate) fn call_text(is_async: bool, name: &str, ret: &Option<String>) -> (r: String)
    ensures
        r@ == call_label(is_async, name@, *ret),
{
    let mut r = String::new();
    if is_async {
        append_str(&mut r, "async ");
    }
    append_str(&mut r, name);
    append_str(&mut r, "(...) -> ");
    match ret {
        Some(t) => append_str(&mut r, t.as_str()),
        None => append_str(&mut r, "void"),
    }
    r
}

fn count_text(n: usize) -> (r: String)
    ensures
        r@ == dec(n as nat),
{
    decimal(n as u64)
}

/// Appends a node, keeping the children after their parents.
fn push_node(nodes: &mut Vec<TreeNode>, label: String, kind: EntityKind, depth: u16, child_count: usize, parent_idx: Option<usize>, file_loc: String)
    requires
        parents_first(nodes_view(old(nodes)@)),
        parent_idx matches Some(p) ==> p < old(nodes)@.len(),
    ensures
        nodes_view(final(nodes)@) == nodes_view(old(nodes)@).push(
            NodeSpec {
                label: label@,
                kind,
                depth,
                child_count,
                expanded: false,
                parent_idx,
                file_loc: file_loc@,
            },
        ),
        parents_first(nodes_view(final(nodes)@)),
        final(nodes)@.len() == old(nodes)@.len() + 1,
{
    nodes.push(TreeNode { label, kind, depth, child_count, expanded: false, parent_idx, file_loc });
    assert(nodes_view(nodes@) =~= nodes_view(old(nodes)@).push(nodes@.last()@));
}

fn push_signatures(nodes: &mut Vec<TreeNode>, ms: &Vec<MethodSignature>, parent: usize)
    requires
        parents_first(nodes_view(old(nodes)@)),
        parent < old(nodes)@.len(),
    ensures
        nodes_view(final(nodes)@) == nodes_view(old(nodes)@) + signature_nodes(ms@, parent as int),
        parents_first(nodes_view(final(nodes)@)),
        final(nodes)@.len() >= old(nodes)@.len(),
{
    let ghost start = nodes_view(nodes@);
    assert(start.len() == nodes@.len());
    let mut k: usize = 0;
    while k < ms.len()
        invariant
            k <= ms.len(),
            parent < start.len() <= nodes@.len(),
            start.len() == old(nodes)@.len(),
            parents_first(nodes_view(nodes@)),
            nodes_view(nodes@) == start + signature_nodes(ms@.take(k as int), parent as int),
        decreases ms.len() - k,
    {
        let m = &ms[k];
        let label = call_text(m.is_async, m.name.as_str(), &m.return_type);
        push_node(nodes, label, EntityKind::Method, 1, 0, Some(parent), string_of(&Vec::new()));
        assert(signature_nodes(ms@.take(k + 1 as int), parent as int) =~= signature_nodes(
            ms@.take(k as int),
            parent as int,
        ).push(signature_nodes(ms@, parent as int)[k as int]));
        k += 1;
    }
    assert(ms@.take(ms.len() as int) =~= ms@);
}

fn push_methods(nodes: &mut Vec<TreeNode>, ms: &Vec<MethodDef>, parent: usize)
    requires
        parents_first(nodes_view(old(nodes)@)),
        parent < old(nodes)@.len(),
    ensures
        nodes_view(final(nodes)@) == nodes_view(old(nodes)@) + method_nodes(ms@, parent as int),
        parents_first(nodes_view(final(nodes)@)),
        final(nodes)@.len() >= old(nodes)@.len(),
{
    let ghost start = nodes_view(nodes@);
    assert(start.len() == nodes@.len());
    let mut k: usize = 0;
    while k < ms.len()
        invariant
            k <= ms.len(),
            parent < start.len() <= nodes@.len(),
            start.len() == old(nodes)@.len(),
            parents_first(nodes_view(nodes@)),
            nodes_view(nodes@) == start + method_nodes(ms@.take(k as int), parent as int),
        decreases ms.len() - k,
    {
        let m = &ms[k];
        let label = call_text(m.is_async, m.name.as_str(), &m.return_type);
        push_node(nodes, label, EntityKind::Method, 1, 0, Some(parent), string_of(&Vec::new()));
        assert(method_nodes(ms@.take(k + 1 as int), parent as int) =~= method_nodes(
            ms@.take(k as int),
            parent as int,
        ).push(method_nodes(ms@, parent as int)[k as int]));
        k += 1;
    }
    assert(ms@.take(ms.len() as int) =~= ms@);
}

fn push_routes(nodes: &mut Vec<TreeNode>, rs: &Vec<RouteDef>, parent: usize)
    requires
        parents_first(nodes_view(old(nodes)@)),
        parent < old(nodes)@.len(),
    ensures
        nodes_view(final(nodes)@) == nodes_view(old(nodes)@) + route_nodes(rs@, parent as int),
        parents_first(nodes_view(final(nodes)@)),
        final(nodes)@.len() >= old(nodes)@.len(),
{
    let ghost start = nodes_view(nodes@);
    assert(start.len() == nodes@.len());
    let mut k: usize = 0;
    while k < rs.len()
        invariant
            k <= rs.len(),
            parent < start.len() <= nodes@.len(),
            start.len() == old(nodes)@.len(),
            parents_first(nodes_view(nodes@)),
            nodes_view(nodes@) == start + route_nodes(rs@.take(k as int), parent as int),
        decreases rs.len() - k,
    {
        let r = &rs[k];
        let mut label = http_method_debug(r.method);
        append_str(&mut label, " ");
        append_str(&mut label, r.path.as_str());
        append_str(&mut label, " -> ");
        append_str(&mut label, r.handler.as_str());
        push_node(nodes, label, EntityKind::Method, 1, 0, Some(parent), string_of(&Vec::new()));
        assert(route_nodes(rs@.take(k + 1 as int), parent as int) =~= route_nodes(
            rs@.take(k as int),
            parent as int,
        ).push(route_nodes(rs@, parent as int)[k as int]));
        k += 1;
    }
    assert(rs@.take(rs.len() as int) =~= rs@);
}

fn push_fields(nodes: &mut Vec<TreeNode>, fs: &Vec<SchemaField>, parent: usize)
    requires
        parents_first(nodes_view(old(nodes)@)),
        parent < old(nodes)@.len(),
    ensures
        nodes_view(final(nodes)@) == nodes_view(old(nodes)@) + field_nodes(fs@, parent as int),
        parents_first(nodes_view(final(nodes)@)),
        final(nodes)@.len() >= old(nodes)@.len(),
{
    let ghost start = nodes_view(nodes@);
    assert(start.len() == nodes@.len());
    let mut k: usize = 0;
    while k < fs.len()
        invariant
            k <= fs.len(),
            parent < start.len() <= nodes@.len(),
            start.len() == old(nodes)@.len(),
            parents_first(nodes_view(nodes@)),
            nodes_view(nodes@) == start + field_nodes(fs@.take(k as int), parent as int),
        decreases fs.len() - k,
    {
        let f = &fs[k];
        let mut label = String::new();
        append_str(&mut label, f.name.as_str());
        if f.is_optional {
            append_str(&mut label, "?");
        }
        append_str(&mut label, ": ");
        match &f.type_annotation {
            Some(t) => append_str(&mut label, t.as_str()),
            None => append_str(&mut label, "?"),
        }
        push_node(nodes, label, EntityKind::Schema, 1, 0, Some(parent), string_of(&Vec::new()));
        assert(field_nodes(fs@.take(k + 1 as int), parent as int) =~= field_nodes(
            fs@.take(k as int),
            parent as int,
        ).push(field_nodes(fs@, parent as int)[k as int]));
        k += 1;
    }
    assert(fs@.take(fs.len() as int) =~= fs@);
}

proof fn lemma_parents_first_wf(nodes: Seq<NodeSpec>)
    requires
        parents_first(nodes),
    ensures
        tree_wf(nodes),
{
    assert forall|i: int| 0 <= i < nodes.len() implies ((#[trigger] nodes[i]).parent_idx matches Some(p)
        ==> p < nodes.len()) by {}
}

fn fresh_app(nodes: Vec<TreeNode>, title: &str) -> (app: TuiApp)
    ensures
        app.nodes == nodes,
        app.selected == 0,
        !app.should_quit,
        app.search_query is None,
        !app.search_mode,
        app.title@ == title@,
{
    TuiApp {
        nodes,
        selected: 0,
        should_quit: false,
        search_query: None,
        search_mode: false,
        title: string_of(&chars_of(title)),
    }
}

impl TuiApp {
    /// A tree of all interfaces, each with its methods; all collapsed.
    pub fn from_interfaces(index: &ScanIndex) -> (app: Self)
        ensures
            nodes_view(app.nodes@) == interface_tree(all_interfaces(index.files@)),
            app.wf(),
            parents_first(nodes_view(app.nodes@)),
            app.selected == 0,
            !app.should_quit,
            app.search_query is None,
            !app.search_mode,
            app.title@ == "Interfaces"@,
    {
        let mut nodes: Vec<TreeNode> = Vec::new();
        let ghost files = index.files@;
        let mut i: usize = 0;
        while i < index.files.len()
            invariant
                i <= index.files.len(),
                files == index.files@,
                parents_first(nodes_view(nodes@)),
                nodes_view(nodes@) == interface_tree(all_interfaces(files.take(i as int))),
            decreases index.files.len() - i,
        {
            let file = &index.files[i];
            let ghost base = all_interfaces(files.take(i as int));
            assert(files.take(i + 1 as int).drop_last() =~= files.take(i as int));
            assert(files.take(i + 1 as int).last() == *file);
            assert(base + file.interfaces@.take(0) =~= base);
            let mut j: usize = 0;
            while j < file.interfaces.len()
                invariant
                    j <= file.interfaces.len(),
                    parents_first(nodes_view(nodes@)),
                    nodes_view(nodes@) == interface_tree(base + file.interfaces@.take(j as int)),
                decreases file.interfaces.len() - j,
            {
                let x = &file.interfaces[j];
                let ghost before = nodes_view(nodes@);
                assert((base + file.interfaces@.take(j + 1 as int)).drop_last() =~= base
                    + file.interfaces@.take(j as int));
                assert((base + file.interfaces@.take(j + 1 as int)).last() == *x);
                let parent = nodes.len();
                let mut label = String::new();
                append_str(&mut label, x.name.as_str());
                append_str(&mut label, " (");
                let n = count_text(x.methods.len());
                append_str(&mut label, n.as_str());
                append_str(&mut label, " methods)");
                let loc = location_text(x.file.as_str(), x.span.start_line);
                push_node(&mut nodes, label, EntityKind::Interface, 0, x.methods.len(), None, loc);
                push_signatures(&mut nodes, &x.methods, parent);
                assert(nodes_view(nodes@) =~= before + interface_block(*x, before.len() as int));
                j += 1;
            }
            assert(base + file.interfaces@.take(file.interfaces.len() as int) =~= all_interfaces(
                files.take(i + 1 as int),
            ));
            i += 1;
        }
        assert(files.take(index.files.len() as int) =~= files);
        proof {
            lemma_parents_first_wf(nodes_view(nodes@));
        }
        fresh_app(nodes, "Interfaces")
    }

    /// A tree of all services, each with its methods and then its routes;
    /// all collapsed.
    pub fn from_services(index: &ScanIndex) -> (app: Self)
        requires
            service_counts_fit(index.files@),
        ensures
            nodes_view(app.nodes@) == service_tree(all_services(index.files@)),
            app.wf(),
            parents_first(nodes_view(app.nodes@)),
            app.selected == 0,
            !app.should_quit,
            app.search_query is None,
            !app.search_mode,
            app.title@ == "Services"@,
    {
        let mut nodes: Vec<TreeNode> = Vec::new();
        let ghost files = index.files@;
        let mut i: usize = 0;
        while i < index.files.len()
            invariant
                i <= index.files.len(),
                files == index.files@,
                service_counts_fit(files),
                parents_first(nodes_view(nodes@)),
                nodes_view(nodes@) == service_tree(all_services(files.take(i as int))),
            decreases index.files.len() - i,
        {
            let file = &index.files[i];
            let ghost base = all_services(files.take(i as int));
            assert(files.take(i + 1 as int).drop_last() =~= files.take(i as int));
            assert(files.take(i + 1 as int).last() == *file);
            assert(base + file.services@.take(0) =~= base);
            proof {
                lemma_all_services_prefix(files, i as int + 1);
            }
            let mut j: usize = 0;
            while j < file.services.len()
                invariant
                    j <= file.services.len(),
                    parents_first(nodes_view(nodes@)),
                    nodes_view(nodes@) == service_tree(base + file.services@.take(j as int)),
                    base + file.services@ == all_services(files.take(i + 1 as int)),
                    forall|k: int|
                        0 <= k < all_services(files.take(i + 1 as int)).len() ==> (
                        #[trigger] all_services(files.take(i + 1 as int))[k]).methods@.len()
                            + all_services(files.take(i + 1 as int))[k].routes@.len() <= usize::MAX,
                decreases file.services.len() - j,
            {
                let x = &file.services[j];
                let ghost before = nodes_view(nodes@);
                assert((base + file.services@.take(j + 1 as int)).drop_last() =~= base
                    + file.services@.take(j as int));
                assert((base + file.services@.take(j + 1 as int)).last() == *x);
                assert(all_services(files.take(i + 1 as int))[base.len() + j] == *x);
                let parent = nodes.len();
                let mut label = String::new();
                append_str(&mut label, x.name.as_str());
                append_str(&mut label, " [");
                let kt = service_kind_debug(&x.kind);
                append_str(&mut label, kt.as_str());
                append_str(&mut label, "] (");
                let n = count_text(x.methods.len());
                append_str(&mut label, n.as_str());
                append_str(&mut label, " methods, ");
                let m = count_text(x.routes.len());
                append_str(&mut label, m.as_str());
                append_str(&mut label, " routes)");
                let loc = location_text(x.file.as_str(), x.span.start_line);
                push_node(
                    &mut nodes,
                    label,
                    EntityKind::Service,
                    0,
                    x.methods.len() + x.routes.len(),
                    None,
                    loc,
                );
                push_methods(&mut nodes, &x.methods, parent);
                push_routes(&mut nodes, &x.routes, parent);
                assert(nodes_view(nodes@) =~= before + service_block(*x, before.len() as int));
                j += 1;
            }
            assert(base + file.services@.take(file.services.len() as int) =~= all_services(
                files.take(i + 1 as int),
            ));
            i += 1;
        }
        assert(files.take(index.files.len() as int) =~= files);
        proof {
            lemma_parents_first_wf(nodes_view(nodes@));
        }
        fresh_app(nodes, "Services")
    }

    /// A tree of all schemas, each with its fields; all collapsed.
    pub fn from_schemas(index: &ScanIndex) -> (app: Self)
        ensures
            nodes_view(app.nodes@) == schema_tree(all_schemas(index.files@)),
            app.wf(),
            parents_first(nodes_view(app.nodes@)),
            app.selected == 0,
            !app.should_quit,
            app.search_query is None,
            !app.search_mode,
            app.title@ == "Schemas"@,
    {
        let mut nodes: Vec<TreeNode> = Vec::new();
        let ghost files = index.files@;
        let mut i: usize = 0;
        while i < index.files.len()
            invariant
                i <= index.files.len(),
                files == index.files@,
                parents_first(nodes_view(nodes@)),
                nodes_view(nodes@) == schema_tree(all_schemas(files.take(i as int))),
            decreases index.files.len() - i,
        {
            let file = &index.files[i];
            let ghost base = all_schemas(files.take(i as int));
            assert(files.take(i + 1 as int).drop_last() =~= files.take(i as int));
            assert(files.take(i + 1 as int).last() == *file);
            assert(base + file.schemas@.take(0) =~= base);
            let mut j: usize = 0;
            while j < file.schemas.len()
                invariant
                    j <= file.schemas.len(),
                    parents_first(nodes_view(nodes@)),
                    nodes_view(nodes@) == schema_tree(base + file.schemas@.take(j as int)),
                decreases file.schemas.len() - j,
            {
                let x = &file.schemas[j];
                let ghost before = nodes_view(nodes@);
                assert((base + file.schemas@.take(j + 1 as int)).drop_last() =~= base
                    + file.schemas@.take(j as int));
                assert((base + file.schemas@.take(j + 1 as int)).last() == *x);
                let parent = nodes.len();
                let mut label = String::new();
                append_str(&mut label, x.name.as_str());
                append_str(&mut label, " [");
                append_str(&mut label, x.source_framework.as_str());
                append_str(&mut label, "] (");
                let n = count_text(x.fields.len());
                append_str(&mut label, n.as_str());
                append_str(&mut label, " fields)");
                let loc = location_text(x.file.as_str(), x.span.start_line);
                push_node(&mut nodes, label, EntityKind::Schema, 0, x.fields.len(), None, loc);
                push_fields(&mut nodes, &x.fields, parent);
                assert(nodes_view(nodes@) =~= before + schema_block(*x, before.len() as int));
                j += 1;
            }
            assert(base + file.schemas@.take(file.schemas.len() as int) =~= all_schemas(
                files.take(i + 1 as int),
            ));
            i += 1;
        }
        assert(files.take(index.files.len() as int) =~= files);
        proof {
            lemma_parents_first_wf(nodes_view(nodes@));
        }
        fresh_app(nodes, "Schemas")
    }

    /// A flat list of every file's interfaces, services, classes and
    /// schemas (in that order per file), under the given title.
    pub fn from_entity_list(index: &ScanIndex, title: &str) -> (app: Self)
        ensures
            nodes_view(app.nodes@) == entity_list(index.files@),
            app.wf(),
            parents_first(nodes_view(app.nodes@)),
            app.selected == 0,
            !app.should_quit,
            app.search_query is None,
            !app.search_mode,
            app.title@ == title@,
    {
        let mut nodes: Vec<TreeNode> = Vec::new();
        let ghost files = index.files@;
        let mut i: usize = 0;
        while i < index.files.len()
            invariant
                i <= index.files.len(),
                files == index.files@,
                parents_first(nodes_view(nodes@)),
                nodes_view(nodes@) == entity_list(files.take(i as int)),
            decreases index.files.len() - i,
        {
            let file = &index.files[i];
            assert(files.take(i + 1 as int).drop_last() =~= files.take(i as int));
            assert(files.take(i + 1 as int).last() == *file);
            push_file_entities(&mut nodes, file);
            i += 1;
        }
        assert(files.take(index.files.len() as int) =~= files);
        proof {
            lemma_parents_first_wf(nodes_view(nodes@));
        }
        fresh_app(nodes, title)
    }
}

proof fn lemma_all_services_prefix(files: Seq<IrFile>, n: int)
    requires
        0 <= n <= files.len(),
        service_counts_fit(files),
    ensures
        forall|k: int|
            0 <= k < all_services(files.take(n)).len() ==> (#[trigger] all_services(files.take(n))[k]).methods@.len()
                + all_services(files.take(n))[k].routes@.len() <= usize::MAX,
    decreases files.len(),
{
    if n < files.len() {
        let p = files.drop_last();
        assert(p.take(n) =~= files.take(n));
        assert(all_services(files) == all_services(p) + files.last().services@);
        assert forall|k: int| 0 <= k < all_services(p).len() implies (#[trigger] all_services(p)[k]).methods@.len()
            + all_services(p)[k].routes@.len() <= usize::MAX by {
            assert(all_services(files)[k] == all_services(p)[k]);
        }
        lemma_all_services_prefix(p, n);
    } else {
        assert(files.take(n) =~= files);
    }
}

fn push_file_entities(nodes: &mut Vec<TreeNode>, file: &IrFile)
    requires
        parents_first(nodes_view(old(nodes)@)),
    ensures
        nodes_view(final(nodes)@) == nodes_view(old(nodes)@) + file_entity_nodes(*file),
        parents_first(nodes_view(final(nodes)@)),
        final(nodes)@.len() >= old(nodes)@.len(),
{
    let ghost start = nodes_view(nodes@);
    assert(start.len() == nodes@.len());
    let ghost iv = interface_entries(file.interfaces@);
    let ghost sv = service_entries(file.services@);
    let ghost cv = class_entries(file.classes@);
    let ghost scv = schema_entries(file.schemas@);
    assert(iv.len() == file.interfaces@.len());
    let mut k: usize = 0;
    while k < file.interfaces.len()
        invariant
            k <= file.interfaces.len(),
            iv.len() == file.interfaces@.len(),
            iv == interface_entries(file.interfaces@),
            parents_first(nodes_view(nodes@)),
            nodes_view(nodes@) == start + iv.take(k as int),
        decreases file.interfaces.len() - k,
    {
        let x = &file.interfaces[k];
        let mut label = String::new();
        append_str(&mut label, "interface: ");
        append_str(&mut label, x.name.as_str());
        assert(label@ =~= "interface: "@ + x.name@);
        let loc = location_text(x.file.as_str(), x.span.start_line);
        let ghost before = nodes_view(nodes@);
        push_node(nodes, label, EntityKind::Interface, 0, x.methods.len(), None, loc);
        assert(iv[k as int] == nodes_view(nodes@).last());
        assert(iv.take(k + 1 as int) =~= iv.take(k as int).push(iv[k as int]));
        assert(nodes_view(nodes@) =~= start + iv.take(k + 1 as int));
        k += 1;
    }
    assert(iv.take(k as int) =~= iv);
    let ghost s1 = start + iv;
    assert(sv.len() == file.services@.len());
    let mut k: usize = 0;
    while k < file.services.len()
        invariant
            k <= file.services.len(),
            sv.len() == file.services@.len(),
            sv == service_entries(file.services@),
            parents_first(nodes_view(nodes@)),
            nodes_view(nodes@) == s1 + sv.take(k as int),
            s1 == start + iv,
        decreases file.services.len() - k,
    {
        let x = &file.services[k];
        let mut label = String::new();
        append_str(&mut label, "service: ");
        append_str(&mut label, x.name.as_str());
        assert(label@ =~= "service: "@ + x.name@);
        let loc = location_text(x.file.as_str(), x.span.start_line);
        let ghost before = nodes_view(nodes@);
        push_node(nodes, label, EntityKind::Service, 0, x.methods.len(), None, loc);
        assert(sv[k as int] == nodes_view(nodes@).last());
        assert(sv.take(k + 1 as int) =~= sv.take(k as int).push(sv[k as int]));
        assert(nodes_view(nodes@) =~= s1 + sv.take(k + 1 as int));
        k += 1;
    }
    assert(sv.take(k as int) =~= sv);
    let ghost s2 = s1 + sv;
    assert(cv.len() == file.classes@.len());
    let mut k: usize = 0;
    while k < file.classes.len()
        invariant
            k <= file.classes.len(),
            cv.len() == file.classes@.len(),
            cv == class_entries(file.classes@),
            parents_first(nodes_view(nodes@)),
            nodes_view(nodes@) == s2 + cv.take(k as int),
            s2 == s1 + sv,
            s1 == start + iv,
        decreases file.classes.len() - k,
    {
        let x = &file.classes[k];
        let mut label = String::new();
        append_str(&mut label, "class: ");
        append_str(&mut label, x.name.as_str());
        assert(label@ =~= "class: "@ + x.name@);
        let loc = location_text(x.file.as_str(), x.span.start_line);
        let ghost before = nodes_view(nodes@);
        push_node(nodes, label, EntityKind::Class, 0, x.methods.len(), None, loc);
        assert(cv[k as int] == nodes_view(nodes@).last());
        assert(cv.take(k + 1 as int) =~= cv.take(k as int).push(cv[k as int]));
        assert(nodes_view(nodes@) =~= s2 + cv.take(k + 1 as int));
        k += 1;
    }
    assert(cv.take(k as int) =~= cv);
    let ghost s3 = s2 + cv;
    assert(scv.len() == file.schemas@.len());
    let mut k: usize = 0;
    while k < file.schemas.len()
        invariant
            k <= file.schemas.len(),
            scv.len() == file.schemas@.len(),
            scv == schema_entries(file.schemas@),
            parents_first(nodes_view(nodes@)),
            nodes_view(nodes@) == s3 + scv.take(k as int),
            s3 == s2 + cv,
            s2 == s1 + sv,
            s1 == start + iv,
        decreases file.schemas.len() - k,
    {
        let x = &file.schemas[k];
        let mut label = String::new();
        append_str(&mut label, "schema: ");
        append_str(&mut label, x.name.as_str());
        assert(label@ =~= "schema: "@ + x.name@);
        let loc = location_text(x.file.as_str(), x.span.start_line);
        let ghost before = nodes_view(nodes@);
        push_node(nodes, label, EntityKind::Schema, 0, x.fields.len(), None, loc);
        assert(scv[k as int] == nodes_view(nodes@).last());
        assert(scv.take(k + 1 as int) =~= scv.take(k as int).push(scv[k as int]));
        assert(nodes_view(nodes@) =~= s3 + scv.take(k + 1 as int));
        k += 1;
    }
    assert(scv.take(k as int) =~= scv);
    assert(nodes_view(nodes@) =~= start + file_entity_nodes(*file));
}


// ---------------------------------------------------------------------------
// Texts to draw
// ---------------------------------------------------------------------------

/// The number of top-level nodes.
pub open spec fn parent_count(nodes: Seq<NodeSpec>) -> nat
    decreases nodes.len(),
{
    if nodes.len() == 0 {
        0
    } else {
        parent_count(nodes.drop_last()) + if nodes.last().parent_idx is None {
            1nat
        } else {
            0nat
        }
    }
}

/// Two spaces per level of depth.
pub open spec fn indent(depth: nat) -> Seq<char>
    decreases depth,
{
    if depth == 0 {
        Seq::empty()
    } else {
        indent((depth - 1) as nat) + "  "@
    }
}

/// What a tree line starts with: the indentation, then `v ` for an
/// expanded parent with children, `> ` for a collapsed one, two spaces
/// otherwise.
pub open spec fn prefix_text(n: NodeSpec) -> Seq<char> {
    indent(n.depth as nat) + if n.parent_idx is None && n.child_count > 0 {
        if n.expanded {
            "v "@
        } else {
            "> "@
        }
    } else {
        "  "@
    }
}

pub open spec fn header_of(title: Seq<char>, nodes: Seq<NodeSpec>) -> Seq<char> {
    " "@ + title + " \u{2014} "@ + dec(parent_count(nodes)) + " entities ("@ + dec(visible(nodes).len())
        + " visible)"@
}

/// The location of the selected node, empty when nothing is selected.
pub open spec fn selected_location(nodes: Seq<NodeSpec>, sel: usize) -> Seq<char> {
    if sel < visible(nodes).len() {
        nodes[visible(nodes)[sel as int] as int].file_loc
    } else {
        Seq::empty()
    }
}

pub open spec fn footer_of(mode: bool, query: Option<Seq<char>>, nodes: Seq<NodeSpec>, sel: usize) -> Seq<char> {
    if mode {
        " /"@ + match query {
            Some(q) => q,
            None => Seq::empty(),
        }
    } else if selected_location(nodes, sel).len() == 0 {
        " [\u{2191}\u{2193}] navigate  [Enter] expand/collapse  [\u{2192}] expand  [\u{2190}] collapse  [/] search  [q] quit"@
    } else {
        " "@ + selected_location(nodes, sel)
            + "  |  [\u{2191}\u{2193}] navigate  [Enter] toggle  [/] search  [q] quit"@
    }
}

fn indent_text(depth: u16) -> (r: String)
    ensures
        r@ == indent(depth as nat),
{
    let mut r = String::new();
    let mut i: u16 = 0;
    while i < depth
        invariant
            i <= depth,
            r@ == indent(i as nat),
        decreases depth - i,
    {
        append_str(&mut r, "  ");
        i += 1;
    }
    r
}

/// What the line of a node starts with.
pub fn line_prefix(node: &TreeNode) -> (r: String)
    ensures
        r@ == prefix_text(node@),
{
    let mut r = indent_text(node.depth);
    if node.parent_idx.is_none() && node.child_count > 0 {
        if node.expanded {
            append_str(&mut r, "v ");
        } else {
            append_str(&mut r, "> ");
        }
    } else {
        append_str(&mut r, "  ");
    }
    r
}

impl TuiApp {
    /// The header: the title, how many top-level entities there are and
    /// how many nodes are shown.
    pub fn header_text(&self) -> (r: String)
        requires
            self.wf(),
        ensures
            r@ == header_of(self.title@, nodes_view(self.nodes@)),
    {
        let ghost nv = nodes_view(self.nodes@);
        let mut parents: usize = 0;
        let mut i: usize = 0;
        while i < self.nodes.len()
            invariant
                i <= self.nodes.len(),
                nv == nodes_view(self.nodes@),
                parents == parent_count(nv.take(i as int)),
                parents <= i,
            decreases self.nodes.len() - i,
        {
            assert(nv.take(i + 1 as int).drop_last() =~= nv.take(i as int));
            assert(nv[i as int] == self.nodes@[i as int]@);
            if self.nodes[i].parent_idx.is_none() {
                parents = parents + 1;
            }
            i += 1;
        }
        assert(nv.take(self.nodes.len() as int) =~= nv);
        let shown_now = self.visible_indices();
        let mut r = String::new();
        append_str(&mut r, " ");
        append_str(&mut r, self.title.as_str());
        append_str(&mut r, " \u{2014} ");
        let a = decimal(parents as u64);
        append_str(&mut r, a.as_str());
        append_str(&mut r, " entities (");
        let b = decimal(shown_now.len() as u64);
        append_str(&mut r, b.as_str());
        append_str(&mut r, " visible)");
        r
    }

    /// The footer: the query being typed in search mode; otherwise the
    /// location of the selected node (if it has one) and the key help.
    pub fn footer_text(&self) -> (r: String)
        requires
            self.wf(),
        ensures
            r@ == footer_of(self.search_mode, query_view(self.search_query), nodes_view(self.nodes@), self.selected),
    {
        let mut r = String::new();
        if self.search_mode {
            append_str(&mut r, " /");
            match &self.search_query {
                Some(q) => append_str(&mut r, q.as_str()),
                None => {},
            }
            return r;
        }
        let shown_now = self.visible_indices();
        proof {
            lemma_visible_bounds(nodes_view(self.nodes@), self.nodes.len() as int);
        }
        let loc = if self.selected < shown_now.len() {
            let ni = shown_now[self.selected];
            assert(nodes_view(self.nodes@)[ni as int] == self.nodes@[ni as int]@);
            chars_of(self.nodes[ni].file_loc.as_str())
        } else {
            Vec::new()
        };
        if loc.len() == 0 {
            append_str(
                &mut r,
                " [\u{2191}\u{2193}] navigate  [Enter] expand/collapse  [\u{2192}] expand  [\u{2190}] collapse  [/] search  [q] quit",
            );
        } else {
            append_str(&mut r, " ");
            let l = string_of(&loc);
            append_str(&mut r, l.as_str());
            append_str(&mut r, "  |  [\u{2191}\u{2193}] navigate  [Enter] toggle  [/] search  [q] quit");
        }
        r
    }
}

} // verus!
