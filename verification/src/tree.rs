//! The tree of folders and request files under `collections/`.
//!
//! The caller reads the directory tree into `FsEntry` values (reading and
//! parsing only the YAML files); `list_workspace_tree` turns it into the tree
//! the front end shows, each folder's entries in name order.
use vstd::prelude::*;
use crate::error::{AppError, is_detailed_error, is_user_error, message_of};
use crate::models::{HermesRequest, HttpMethod, TreeNode};
use crate::order::{less, seq_lt};
use crate::paths::{
    has_yaml_extension, is_yaml, join, join_path, lemma_reported_as_is, rel_to_workspace,
    relative_text, reported_as_is, workspace_relative,
};
use crate::text::{concat, lemma_split_extend, lemma_split_on_nonempty, lemma_split_single, owned, split_on};

verus! {

/// What the caller found at one entry of a folder.
#[derive(Debug)]
pub enum FsEntryKind {
    /// A folder and its entries, in any order.
    Folder(Vec<FsEntry>),
    /// A file: for a YAML file, the request read from it or the error that
    /// reading or parsing it gave; `None` for other files.
    File(Option<Result<HermesRequest, AppError>>),
}

#[derive(Debug)]
pub struct FsEntry {
    /// The file name of the entry.
    pub name: String,
    pub kind: FsEntryKind,
}

/// The tree as the front end sees it (what `TreeNode`s hold).
pub enum NodeShape {
    Folder { name: Seq<char>, path: Seq<char>, children: Seq<NodeShape> },
    Request { name: Seq<char>, path: Seq<char>, method: HttpMethod, id: Seq<char> },
}

pub open spec fn nodes_shape(ns: Seq<TreeNode>) -> Seq<NodeShape>
    decreases ns,
{
    if ns.len() == 0 {
        Seq::empty()
    } else {
        let last = match ns.last() {
            TreeNode::Folder { name, path, children } => NodeShape::Folder {
                name: name@,
                path: path@,
                children: nodes_shape(children@),
            },
            TreeNode::Request { name, path, method, id } => NodeShape::Request {
                name: name@,
                path: path@,
                method,
                id: id@,
            },
        };
        nodes_shape(ns.drop_last()).push(last)
    }
}

/// Why the tree could not be listed.
pub enum TreeError {
    /// A request file at this path could not be read; `detail` is why.
    Unreadable { path: Seq<char>, detail: Seq<char> },
    /// A path turned out not to lie under the workspace root.
    Outside,
}

pub open spec fn is_tree_error(e: AppError, te: TreeError) -> bool {
    match te {
        TreeError::Unreadable { path, detail } => is_detailed_error(
            e,
            "invalid_request_file"@,
            "Could not read request file "@ + path,
            detail,
        ),
        TreeError::Outside => is_user_error(e, "invalid_path"@, "Path is outside workspace."@),
    }
}

/// Inserts `p` after every pair whose key is not greater than its key.
pub open spec fn insert_keyed(s: Seq<(Seq<char>, int)>, p: (Seq<char>, int)) -> Seq<
    (Seq<char>, int),
>
    decreases s.len(),
{
    if s.len() == 0 {
        seq![p]
    } else if seq_lt(p.0, s.last().0) {
        insert_keyed(s.drop_last(), p).push(s.last())
    } else {
        s.push(p)
    }
}

/// Stable sort by key.
pub open spec fn sort_keyed(s: Seq<(Seq<char>, int)>) -> Seq<(Seq<char>, int)>
    decreases s.len(),
{
    if s.len() == 0 {
        Seq::empty()
    } else {
        insert_keyed(sort_keyed(s.drop_last()), s.last())
    }
}

/// The entries' names with their positions.
pub open spec fn indexed_names(es: Seq<FsEntry>) -> Seq<(Seq<char>, int)> {
    Seq::new(es.len(), |i: int| (es[i].name@, i))
}

/// The positions of the entries, in name order (ties keep their order).
pub open spec fn name_order(es: Seq<FsEntry>) -> Seq<(Seq<char>, int)> {
    sort_keyed(indexed_names(es))
}

pub open spec fn indices_below(s: Seq<(Seq<char>, int)>, n: int) -> bool {
    forall|k: int| 0 <= k < s.len() ==> 0 <= #[trigger] s[k].1 < n
}

proof fn lemma_insert_keyed(s: Seq<(Seq<char>, int)>, p: (Seq<char>, int), n: int)
    requires
        indices_below(s, n),
        0 <= p.1 < n,
    ensures
        indices_below(insert_keyed(s, p), n),
        insert_keyed(s, p).len() == s.len() + 1,
    decreases s.len(),
{
    if s.len() > 0 && seq_lt(p.0, s.last().0) {
        lemma_insert_keyed(s.drop_last(), p, n);
    }
}

proof fn lemma_sort_keyed(s: Seq<(Seq<char>, int)>, n: int)
    requires
        indices_below(s, n),
    ensures
        indices_below(sort_keyed(s), n),
        sort_keyed(s).len() == s.len(),
    decreases s.len(),
{
    if s.len() > 0 {
        lemma_sort_keyed(s.drop_last(), n);
        lemma_insert_keyed(sort_keyed(s.drop_last()), s.last(), n);
    }
}

pub proof fn lemma_name_order(es: Seq<FsEntry>)
    ensures
        indices_below(name_order(es), es.len() as int),
        name_order(es).len() == es.len(),
{
    lemma_sort_keyed(indexed_names(es), es.len() as int);
}

/// What one entry of the folder at `dir` contributes: a folder node (after
/// its own entries), a request node for a readable YAML file, nothing for
/// other files, or the first error.
pub open spec fn entry_outcome(root: Seq<char>, dir: Seq<char>, e: FsEntry) -> Result<
    Option<NodeShape>,
    TreeError,
>
    decreases e, 0int, 0int,
{
    let path = join_path(dir, e.name@);
    match e.kind {
        FsEntryKind::Folder(children) => match dir_tree(root, path, children@) {
            Err(x) => Err(x),
            Ok(kids) => match workspace_relative(path, root) {
                None => Err(TreeError::Outside),
                Some(r) => Ok(
                    Some(NodeShape::Folder { name: e.name@, path: relative_text(r), children: kids }),
                ),
            },
        },
        FsEntryKind::File(content) => if has_yaml_extension(e.name@) {
            match content {
                Some(Ok(req)) => match workspace_relative(path, root) {
                    None => Err(TreeError::Outside),
                    Some(r) => Ok(
                        Some(
                            NodeShape::Request {
                                name: req.name@,
                                path: relative_text(r),
                                method: req.method,
                                id: req.id@,
                            },
                        ),
                    ),
                },
                Some(Err(err)) => Err(TreeError::Unreadable { path, detail: message_of(err) }),
                None => Ok(None),
            }
        } else {
            Ok(None)
        },
    }
}

/// The nodes of the entries at positions `order[k..]`, or the first error.
pub open spec fn ordered_nodes(
    root: Seq<char>,
    dir: Seq<char>,
    es: Seq<FsEntry>,
    order: Seq<(Seq<char>, int)>,
    k: int,
) -> Result<Seq<NodeShape>, TreeError>
    decreases es, 1int, order.len() - k,
{
    if k < 0 || k >= order.len() || !indices_below(order, es.len() as int) {
        Ok(Seq::empty())
    } else {
        let i = order[k].1;
        match entry_outcome(root, dir, es[i]) {
            Err(x) => Err(x),
            Ok(node) => match ordered_nodes(root, dir, es, order, k + 1) {
                Err(x) => Err(x),
                Ok(rest) => Ok(
                    match node {
                        Some(n) => seq![n] + rest,
                        None => rest,
                    },
                ),
            },
        }
    }
}

/// The nodes of the folder at `dir` whose entries are `es`, in name order,
/// or the first error met in that order.
pub open spec fn dir_tree(root: Seq<char>, dir: Seq<char>, es: Seq<FsEntry>) -> Result<
    Seq<NodeShape>,
    TreeError,
>
    decreases es, 2int, 0int,
{
    ordered_nodes(root, dir, es, name_order(es), 0)
}

} // verus!

verus! {

proof fn lemma_insert_at(s: Seq<(Seq<char>, int)>, p: (Seq<char>, int), pos: int)
    requires
        0 <= pos <= s.len(),
        forall|k: int| pos <= k < s.len() ==> seq_lt(p.0, #[trigger] s[k].0),
        pos == 0 || !seq_lt(p.0, s[pos - 1].0),
    ensures
        insert_keyed(s, p) == s.insert(pos, p),
    decreases s.len(),
{
    if s.len() == 0 {
        assert(s.insert(pos, p) == seq![p]);
    } else if pos == s.len() {
        assert(s.insert(pos, p) == s.push(p));
    } else {
        assert(seq_lt(p.0, s.last().0));
        let t = s.drop_last();
        assert forall|k: int| pos <= k < t.len() implies seq_lt(p.0, #[trigger] t[k].0) by {
            assert(t[k] == s[k]);
        }
        lemma_insert_at(t, p, pos);
        assert(t.insert(pos, p).push(s.last()) == s.insert(pos, p));
    }
}

pub open spec fn keyed(es: Seq<FsEntry>, order: Seq<usize>) -> Seq<(Seq<char>, int)> {
    order.map_values(|j: usize| (es[j as int].name@, j as int))
}

proof fn lemma_single_shape(t: TreeNode)
    ensures
        nodes_shape(seq![t]) == seq![nodes_shape(seq![t]).last()],
        nodes_shape(seq![t]).last() == (match t {
            TreeNode::Folder { name, path, children } => NodeShape::Folder {
                name: name@,
                path: path@,
                children: nodes_shape(children@),
            },
            TreeNode::Request { name, path, method, id } => NodeShape::Request {
                name: name@,
                path: path@,
                method,
                id: id@,
            },
        }),
{
    assert(seq![t].drop_last() == Seq::<TreeNode>::empty());
    assert(seq![t].last() == t);
    assert(nodes_shape(Seq::<TreeNode>::empty()) == Seq::<NodeShape>::empty());
    assert(Seq::<NodeShape>::empty().push(nodes_shape(seq![t]).last()) == seq![
        nodes_shape(seq![t]).last(),
    ]);
}

proof fn lemma_shape_push(v: Seq<TreeNode>, t: TreeNode)
    ensures
        nodes_shape(v.push(t)) == nodes_shape(v) + nodes_shape(seq![t]),
{
    assert(v.push(t).drop_last() == v);
    assert(v.push(t).last() == t);
    lemma_single_shape(t);
}

/// The positions of the entries in name order.
fn name_order_of(entries: &Vec<FsEntry>) -> (order: Vec<usize>)
    ensures
        keyed(entries@, order@) == name_order(entries@),
        forall|k: int| 0 <= k < order.len() ==> order@[k] < entries.len(),
{
    let ghost all = indexed_names(entries@);
    let mut order: Vec<usize> = Vec::new();
    let mut i: usize = 0;
    while i < entries.len()
        invariant
            i <= entries.len(),
            all == indexed_names(entries@),
            keyed(entries@, order@) == sort_keyed(all.subrange(0, i as int)),
            forall|k: int| 0 <= k < order.len() ==> order@[k] < i,
        decreases entries.len() - i,
    {
        let ghost s = keyed(entries@, order@);
        let ghost p = (entries@[i as int].name@, i as int);
        let mut pos = order.len();
        while pos > 0 && less(entries[i].name.as_str(), entries[order[pos - 1]].name.as_str())
            invariant
                0 <= pos <= order.len(),
                i < entries.len(),
                s == keyed(entries@, order@),
                p == (entries@[i as int].name@, i as int),
                forall|k: int| 0 <= k < order.len() ==> order@[k] < i,
                forall|k: int| pos <= k < s.len() ==> seq_lt(p.0, #[trigger] s[k].0),
            decreases pos,
        {
            pos -= 1;
        }
        proof {
            lemma_insert_at(s, p, pos as int);
            assert(all.subrange(0, i + 1).drop_last() == all.subrange(0, i as int));
            assert(all.subrange(0, i + 1).last() == p);
        }
        order.insert(pos, i);
        proof {
            assert(keyed(entries@, order@) == s.insert(pos as int, p));
        }
        i += 1;
    }
    assert(all.subrange(0, entries.len() as int) == all);
    order
}

/// What one entry contributes to its folder's nodes (see `entry_outcome`).
fn entry_node(root: &str, dir: &str, e: &FsEntry) -> (res: Result<Option<TreeNode>, AppError>)
    ensures
        match entry_outcome(root@, dir@, *e) {
            Err(te) => res matches Err(x) && is_tree_error(x, te),
            Ok(None) => res matches Ok(None),
            Ok(Some(n)) => res matches Ok(Some(t)) && nodes_shape(seq![t]) == seq![n],
        },
    decreases *e, 0int, 0int,
{
    let path = join(dir, e.name.as_str());
    match &e.kind {
        FsEntryKind::Folder(children) => {
            let kids = match dir_nodes(root, path.as_str(), children) {
                Ok(k) => k,
                Err(x) => {
                    return Err(x);
                },
            };
            let rel = match rel_to_workspace(root, path.as_str()) {
                Ok(r) => r,
                Err(x) => {
                    return Err(x);
                },
            };
            let node = TreeNode::Folder { name: owned(e.name.as_str()), path: rel, children: kids };
            proof {
                lemma_single_shape(node);
            }
            Ok(Some(node))
        },
        FsEntryKind::File(content) => {
            if !is_yaml(e.name.as_str()) {
                return Ok(None);
            }
            match content {
                Some(Ok(request)) => {
                    let rel = match rel_to_workspace(root, path.as_str()) {
                        Ok(r) => r,
                        Err(x) => {
                            return Err(x);
                        },
                    };
                    let node = TreeNode::Request {
                        name: owned(request.name.as_str()),
                        path: rel,
                        method: request.method,
                        id: owned(request.id.as_str()),
                    };
                    proof {
                        lemma_single_shape(node);
                    }
                    Ok(Some(node))
                },
                Some(Err(err)) => {
                    let message = concat("Could not read request file ", path.as_str());
                    Err(AppError::with_detail("invalid_request_file", message, err.message()))
                },
                None => Ok(None),
            }
        },
    }
}

/// The nodes of a folder's entries in name order (see `dir_tree`).
fn dir_nodes(root: &str, dir: &str, entries: &Vec<FsEntry>) -> (res: Result<Vec<TreeNode>, AppError>)
    ensures
        match dir_tree(root@, dir@, entries@) {
            Err(te) => res matches Err(x) && is_tree_error(x, te),
            Ok(ns) => res matches Ok(v) && nodes_shape(v@) == ns,
        },
    decreases entries@, 2int, 0int,
{
    let order = name_order_of(entries);
    let ghost ord = name_order(entries@);
    proof {
        lemma_name_order(entries@);
    }
    let mut out: Vec<TreeNode> = Vec::new();
    let mut k: usize = 0;
    while k < order.len()
        invariant
            k <= order.len(),
            keyed(entries@, order@) == ord,
            ord == name_order(entries@),
            ord.len() == entries.len(),
            indices_below(ord, entries.len() as int),
            forall|j: int| 0 <= j < order.len() ==> order@[j] < entries.len(),
            dir_tree(root@, dir@, entries@) == (match ordered_nodes(
                root@,
                dir@,
                entries@,
                ord,
                k as int,
            ) {
                Ok(rest) => Ok(nodes_shape(out@) + rest),
                Err(x) => Err(x),
            }),
        decreases order.len() - k,
    {
        let idx = order[k];
        proof {
            assert(ord[k as int].1 == idx as int);
            assert(decreases_to!(entries@ => entries@[idx as int]));
        }
        match entry_node(root, dir, &entries[idx]) {
            Err(x) => {
                return Err(x);
            },
            Ok(None) => {},
            Ok(Some(t)) => {
                let ghost before = out@;
                out.push(t);
                proof {
                    assert(out@ == before.push(t));
                    lemma_shape_push(before, t);
                    assert(nodes_shape(out@) + (match ordered_nodes(root@, dir@, entries@, ord, k + 1) {
                        Ok(rest) => rest,
                        Err(_) => Seq::empty(),
                    }) == nodes_shape(before) + (nodes_shape(seq![t]) + (match ordered_nodes(root@, dir@, entries@, ord, k + 1) {
                        Ok(rest) => rest,
                        Err(_) => Seq::empty(),
                    })));
                }
            },
        }
        k += 1;
    }
    assert(nodes_shape(out@) + Seq::<NodeShape>::empty() == nodes_shape(out@));
    Ok(out)
}

/// The tree of the collections folder of the workspace at `workspace_path`:
/// nothing when that folder does not exist (`collections` is `None`), else its
/// folders and request files in name order, or the first error met.
pub fn list_workspace_tree(workspace_path: &str, collections: Option<Vec<FsEntry>>) -> (res: Result<
    Vec<TreeNode>,
    AppError,
>)
    ensures
        collections is None ==> (res matches Ok(v) && v@.len() == 0),
        collections matches Some(es) ==> match dir_tree(
            workspace_path@,
            join_path(workspace_path@, "collections"@),
            es@,
        ) {
            Err(te) => res matches Err(x) && is_tree_error(x, te),
            Ok(ns) => res matches Ok(v) && nodes_shape(v@) == ns,
        },
{
    match collections {
        None => Ok(Vec::new()),
        Some(entries) => {
            let dir = join(workspace_path, "collections");
            dir_nodes(workspace_path, dir.as_str(), &entries)
        },
    }
}

} // verus!

verus! {

/// A name that is one plain path segment: not empty, without `/` or `\`,
/// and neither `.` nor `..`.
pub open spec fn is_segment(s: Seq<char>) -> bool {
    &&& s.len() > 0
    &&& forall|i: int| 0 <= i < s.len() ==> s[i] != '/' && s[i] != '\\'
    &&& s != "."@
    &&& s != ".."@
}

/// Every name in the entry (and, for a folder, in all it holds) is a plain
/// segment, as file names are.
pub open spec fn entry_names_ok(e: FsEntry) -> bool
    decreases e,
{
    &&& is_segment(e.name@)
    &&& match e.kind {
        FsEntryKind::Folder(children) => forall|k: int|
            0 <= k < children@.len() ==> entry_names_ok(#[trigger] children@[k]),
        FsEntryKind::File(_) => true,
    }
}

pub open spec fn node_path(n: NodeShape) -> Seq<char> {
    match n {
        NodeShape::Folder { path, .. } => path,
        NodeShape::Request { path, .. } => path,
    }
}

/// `path` is `parent`, then `/`, then one plain segment.
pub open spec fn is_child_path(path: Seq<char>, parent: Seq<char>) -> bool {
    exists|seg: Seq<char>| is_segment(seg) && path == parent + seq!['/'] + seg
}

/// The node lies directly under `parent`, and everything a folder node holds
/// lies directly under that folder's path, all the way down.
pub open spec fn node_nested(n: NodeShape, parent: Seq<char>) -> bool
    decreases n,
{
    match n {
        NodeShape::Folder { path, children, .. } => is_child_path(path, parent) && forall|k: int|
            0 <= k < children.len() ==> node_nested(#[trigger] children[k], path),
        NodeShape::Request { path, .. } => is_child_path(path, parent),
    }
}

proof fn lemma_child_plain(d: Seq<char>, seg: Seq<char>)
    requires
        reported_as_is(d),
        is_segment(seg),
    ensures
        reported_as_is(d + seq!['/'] + seg),
        d.last() != '/',
{
    reveal_strlit(".");
    reveal_strlit("..");
    let c = d + seq!['/'] + seg;
    lemma_split_on_nonempty(d, '/');
    if d.last() == '/' {
        lemma_split_on_nonempty(d.drop_last(), '/');
        let ps = split_on(d, '/');
        assert(ps[ps.len() - 1].len() == 0);
    }
    assert((d + seq!['/']).drop_last() == d);
    assert forall|i: int| 0 <= i < seg.len() implies seg[i] != '/' by {}
    lemma_split_extend(d + seq!['/'], seg, '/');
    let sd = split_on(d, '/');
    assert(split_on(d + seq!['/'], '/') == sd.push(Seq::<char>::empty()));
    assert(Seq::<char>::empty() + seg == seg);
    assert(split_on(c, '/') == sd.push(seg));
    assert forall|i: int| 0 <= i < split_on(c, '/').len() implies {
        let p = #[trigger] split_on(c, '/')[i];
        p.len() > 0 && p != "."@ && p != ".."@
    } by {
        if i < sd.len() {
            assert(split_on(c, '/')[i] == sd[i]);
        }
    }
    assert forall|i: int| 0 <= i < c.len() implies c[i] != '\\' by {
        if i < d.len() {
            assert(c[i] == d[i]);
        } else if i > d.len() {
            assert(c[i] == seg[i - d.len() - 1]);
        }
    }
    assert(c[0] == d[0]);
}

proof fn lemma_join_child(root: Seq<char>, d: Seq<char>, seg: Seq<char>)
    requires
        d.len() > 0,
        d[0] != '/',
        d.last() != '/',
        seg.len() > 0,
        seg[0] != '/',
    ensures
        join_path(join_path(root, d), seg) == join_path(root, d + seq!['/'] + seg),
{
    let c = d + seq!['/'] + seg;
    assert(c[0] == d[0]);
    let j = join_path(root, d);
    assert(j.last() == d.last());
    if root.len() == 0 || root.last() == '/' {
        assert(root + d + seq!['/'] + seg == root + c);
    } else {
        assert(root + seq!['/'] + d + seq!['/'] + seg == root + seq!['/'] + c);
    }
}

proof fn lemma_entry_nested(root: Seq<char>, d: Seq<char>, e: FsEntry)
    requires
        reported_as_is(d),
        entry_names_ok(e),
    ensures
        entry_outcome(root, join_path(root, d), e) matches Ok(Some(n)) ==> node_nested(n, d)
            && node_path(n) == d + seq!['/'] + e.name@,
    decreases e, 0int, 0int,
{
    let name = e.name@;
    let p = d + seq!['/'] + name;
    lemma_child_plain(d, name);
    lemma_join_child(root, d, name);
    lemma_reported_as_is(root, p);
    assert(is_child_path(p, d));
    match e.kind {
        FsEntryKind::Folder(children) => {
            lemma_dir_nested(root, p, children@);
        },
        FsEntryKind::File(_) => {},
    }
}

proof fn lemma_ordered_nested(
    root: Seq<char>,
    d: Seq<char>,
    es: Seq<FsEntry>,
    order: Seq<(Seq<char>, int)>,
    k: int,
)
    requires
        reported_as_is(d),
        forall|i: int| 0 <= i < es.len() ==> entry_names_ok(#[trigger] es[i]),
    ensures
        ordered_nodes(root, join_path(root, d), es, order, k) matches Ok(ns) ==> forall|j: int|
            0 <= j < ns.len() ==> node_nested(#[trigger] ns[j], d) && exists|i: int|
                0 <= i < es.len() && node_path(ns[j]) == d + seq!['/'] + es[i].name@,
    decreases es, 1int, order.len() - k,
{
    let dir = join_path(root, d);
    if !(k < 0 || k >= order.len() || !indices_below(order, es.len() as int)) {
        let i = order[k].1;
        assert(0 <= i < es.len());
        lemma_entry_nested(root, d, es[i]);
        lemma_ordered_nested(root, d, es, order, k + 1);
        if let Ok(ns) = ordered_nodes(root, dir, es, order, k) {
            let node = entry_outcome(root, dir, es[i])->Ok_0;
            let rest = ordered_nodes(root, dir, es, order, k + 1)->Ok_0;
            assert forall|j: int| 0 <= j < ns.len() implies node_nested(#[trigger] ns[j], d)
                && exists|x: int| 0 <= x < es.len() && node_path(ns[j]) == d + seq!['/']
                + es[x].name@ by {
                match node {
                    Some(n) => {
                        assert(ns == seq![n] + rest);
                        if j > 0 {
                            assert(ns[j] == rest[j - 1]);
                        }
                    },
                    None => {
                        assert(ns == rest);
                    },
                }
            }
        }
    }
}

proof fn lemma_dir_nested(root: Seq<char>, d: Seq<char>, es: Seq<FsEntry>)
    requires
        reported_as_is(d),
        forall|i: int| 0 <= i < es.len() ==> entry_names_ok(#[trigger] es[i]),
    ensures
        dir_tree(root, join_path(root, d), es) matches Ok(ns) ==> forall|j: int|
            0 <= j < ns.len() ==> node_nested(#[trigger] ns[j], d) && exists|i: int|
                0 <= i < es.len() && node_path(ns[j]) == d + seq!['/'] + es[i].name@,
    decreases es, 2int, 0int,
{
    lemma_ordered_nested(root, d, es, name_order(es), 0);
}

/// In the listed tree, every node's path is its folder's path (at the top,
/// `collections`), a `/` and its own file name, and everything a folder node
/// holds lies under that folder's path, all the way down; this holds when
/// the file names are plain segments, as they are on disk.
pub proof fn lemma_tree_paths_nested(root: Seq<char>, es: Seq<FsEntry>)
    requires
        forall|i: int| 0 <= i < es.len() ==> entry_names_ok(#[trigger] es[i]),
    ensures
        dir_tree(root, join_path(root, "collections"@), es) matches Ok(ns) ==> forall|j: int|
            0 <= j < ns.len() ==> node_nested(#[trigger] ns[j], "collections"@) && exists|i: int|
                0 <= i < es.len() && node_path(ns[j]) == "collections"@ + seq!['/'] + es[i].name@,
{
    reveal_strlit("collections");
    let d = "collections"@;
    assert forall|i: int| 0 <= i < d.len() implies d[i] != '/' by {}
    lemma_split_single(d, '/');
    reveal_strlit(".");
    reveal_strlit("..");
    assert(reported_as_is(d));
    lemma_dir_nested(root, d, es);
}

} // verus!
