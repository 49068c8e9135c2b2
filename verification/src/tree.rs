//! Tree builder: turns a snapshot of a directory listing into the sorted
//! hierarchical node tree. Hidden entries are skipped, files are gated by the
//! extension allow-list, a subdirectory whose own listing failed becomes a
//! folder node with no children, and siblings are ordered folders-first, each
//! group case-insensitively by name.

use vstd::prelude::*;

use crate::errors::ScanError;
use crate::filter::is_visible;
use crate::filter::spec_file_name;
use crate::filter::spec_is_visible;
use crate::fingerprint::spec_path_id;
use crate::node::FileNode;
use crate::node::NodeModel;
use crate::node::node_model;
use crate::node::node_models;
use crate::node::lemma_node_models_len;
use crate::node::lemma_node_models_index;
use crate::order::ci_key;
use crate::order::lex_le;
use crate::order::lex_lt;
use crate::order::lemma_lex_le_total;
use crate::order::lemma_lex_le_trans;
use crate::order::name_lt;

verus! {

/// One entry of a directory listing, as the scanning edge reports it: a plain
/// file, or a subdirectory together with its own listing (`None` when that
/// listing could not be read).
#[derive(Debug)]
pub enum FsEntry {
    File { name: String },
    Dir { name: String, listing: Option<Vec<FsEntry>> },
}

/// The mathematical shape of a listing entry.
pub enum EntryModel {
    File { name: Seq<char> },
    Dir { name: Seq<char>, listing: Option<Seq<EntryModel>> },
}

/// The model of one listing entry.
pub open spec fn entry_model(e: FsEntry) -> EntryModel
    decreases e,
{
    match e {
        FsEntry::File { name } => EntryModel::File { name: name@ },
        FsEntry::Dir { name, listing } => EntryModel::Dir {
            name: name@,
            listing: match listing {
                Option::None => Option::None,
                Option::Some(v) => Option::Some(entry_models(v@)),
            },
        },
    }
}

/// The models of a sequence of listing entries, in order.
pub open spec fn entry_models(s: Seq<FsEntry>) -> Seq<EntryModel>
    decreases s,
{
    if s.len() == 0 {
        Seq::empty()
    } else {
        entry_models(s.drop_last()).push(entry_model(s.last()))
    }
}

pub proof fn lemma_entry_models_len(s: Seq<FsEntry>)
    ensures
        entry_models(s).len() == s.len(),
    decreases s,
{
    if s.len() != 0 {
        lemma_entry_models_len(s.drop_last());
    }
}

pub proof fn lemma_entry_models_index(s: Seq<FsEntry>, i: int)
    requires
        0 <= i < s.len(),
    ensures
        entry_models(s).len() == s.len(),
        entry_models(s)[i] == entry_model(s[i]),
    decreases s,
{
    lemma_entry_models_len(s);
    if i < s.len() - 1 {
        lemma_entry_models_index(s.drop_last(), i);
    } else {
        lemma_entry_models_len(s.drop_last());
    }
}

/// The path of an entry named `name` inside directory `dir`.
pub open spec fn child_path(dir: Seq<char>, name: Seq<char>) -> Seq<char> {
    dir + "/"@ + name
}

/// Join a directory path and an entry name with a separator.
pub fn join_path(dir: &str, name: &str) -> (r: String)
    ensures
        r@ == child_path(dir@, name@),
{
    let mut s = String::from_str(dir);
    s.append("/");
    s.append(name);
    proof {
        assert(s@ =~= child_path(dir@, name@));
    }
    s
}

/// The comparison key of a node: its name, case-folded.
pub open spec fn node_key(n: NodeModel) -> Seq<u32> {
    ci_key(n.name)
}

/// Insert a node into a sequence ordered by `node_key`, after any entries
/// whose key compares equal, so repeated insertion is stable.
pub open spec fn insert_node(x: NodeModel, s: Seq<NodeModel>) -> Seq<NodeModel>
    decreases s.len(),
{
    if s.len() == 0 {
        seq![x]
    } else if lex_lt(node_key(x), node_key(s[0])) {
        seq![x] + s
    } else {
        seq![s[0]] + insert_node(x, s.drop_first())
    }
}

/// `insert_node` places `x` at the position the comparison loop finds: after
/// every entry not strictly greater, before the first strictly greater one.
pub proof fn lemma_insert_node_at(x: NodeModel, s: Seq<NodeModel>, j: int)
    requires
        0 <= j <= s.len(),
        forall|k: int| 0 <= k < j ==> !lex_lt(node_key(x), node_key(#[trigger] s[k])),
        j < s.len() ==> lex_lt(node_key(x), node_key(s[j])),
    ensures
        insert_node(x, s) == s.insert(j, x),
    decreases s.len(),
{
    if s.len() == 0 {
        assert(insert_node(x, s) =~= s.insert(0, x));
    } else if j == 0 {
        assert(lex_lt(node_key(x), node_key(s[0])));
        assert(seq![x] + s =~= s.insert(0, x));
    } else {
        assert(!lex_lt(node_key(x), node_key(s[0])));
        let rest = s.drop_first();
        assert(forall|k: int|
            0 <= k < j - 1 ==> !lex_lt(node_key(x), node_key(#[trigger] rest[k])));
        lemma_insert_node_at(x, rest, j - 1);
        assert(seq![s[0]] + rest.insert(j - 1, x) =~= s.insert(j, x));
    }
}

/// Taking models commutes with inserting an element.
pub proof fn lemma_node_models_insert(s: Seq<FileNode>, j: int, x: FileNode)
    requires
        0 <= j <= s.len(),
    ensures
        node_models(s.insert(j, x)) == node_models(s).insert(j, node_model(x)),
{
    let l = s.insert(j, x);
    lemma_node_models_len(l);
    lemma_node_models_len(s);
    s.insert_ensures(j, x);
    node_models(s).insert_ensures(j, node_model(x));
    assert forall|k: int| 0 <= k < l.len() implies node_models(l)[k] == node_models(s).insert(
        j,
        node_model(x),
    )[k] by {
        lemma_node_models_index(l, k);
        if k < j {
            lemma_node_models_index(s, k);
        } else if k > j {
            lemma_node_models_index(s, k - 1);
        }
    }
    assert(node_models(l) =~= node_models(s).insert(j, node_model(x)));
}

/// Where the new node goes: after every entry not strictly greater than it,
/// before the first strictly greater one.
fn insertion_point(v: &Vec<FileNode>, x: &FileNode) -> (j: usize)
    ensures
        0 <= j <= v@.len(),
        forall|k: int| 0 <= k < j ==> !lex_lt(ci_key(x.name@), ci_key(#[trigger] v@[k].name@)),
        j < v@.len() ==> lex_lt(ci_key(x.name@), ci_key(v@[j as int].name@)),
{
    let n = v.len();
    let mut j: usize = 0;
    while j < n
        invariant
            0 <= j <= n,
            n == v@.len(),
            forall|k: int| 0 <= k < j ==> !lex_lt(ci_key(x.name@), ci_key(#[trigger] v@[k].name@)),
        decreases n - j,
    {
        if name_lt(x.name.as_str(), v[j].name.as_str()) {
            return j;
        }
        j = j + 1;
    }
    j
}

/// Insert a node into a vector kept ordered by the sibling order.
fn insert_sorted(v: &mut Vec<FileNode>, x: FileNode)
    requires
        x.wf(),
        forall|k: int| 0 <= k < old(v)@.len() ==> (#[trigger] old(v)@[k]).wf(),
    ensures
        node_models(final(v)@) == insert_node(node_model(x), node_models(old(v)@)),
        final(v)@.len() == old(v)@.len() + 1,
        forall|k: int| 0 <= k < final(v)@.len() ==> (#[trigger] final(v)@[k]).wf(),
{
    let ghost s0 = node_models(old(v)@);
    let j = insertion_point(v, &x);
    v.insert(j, x);
    proof {
        lemma_node_models_len(old(v)@);
        assert forall|k: int| 0 <= k < j implies !lex_lt(node_key(node_model(x)), node_key(
            #[trigger] s0[k],
        )) by {
            lemma_node_models_index(old(v)@, k);
        }
        if (j as int) < old(v)@.len() {
            lemma_node_models_index(old(v)@, j as int);
        }
        lemma_insert_node_at(node_model(x), s0, j as int);
        lemma_node_models_insert(old(v)@, j as int, x);
        old(v)@.insert_ensures(j as int, x);
        assert forall|k: int| 0 <= k < v@.len() implies (#[trigger] v@[k]).wf() by {
            if k < j {
                assert(v@[k] == old(v)@[k]);
            } else if k > j {
                assert(v@[k] == old(v)@[k - 1]);
            } else {
                assert(v@[k] == x);
            }
        }
    }
}

/// The model of a visible file node inside `dir`.
pub open spec fn spec_file_node(dir: Seq<char>, name: Seq<char>) -> NodeModel {
    let p = child_path(dir, name);
    NodeModel {
        id: spec_path_id(p),
        name: spec_file_name(p),
        path: p,
        folder: false,
        children: Option::None,
    }
}

/// The model of a folder node inside `dir` with the given children.
pub open spec fn spec_dir_node(dir: Seq<char>, name: Seq<char>, children: Seq<NodeModel>) -> NodeModel {
    let p = child_path(dir, name);
    NodeModel {
        id: spec_path_id(p),
        name: spec_file_name(p),
        path: p,
        folder: true,
        children: Option::Some(children),
    }
}

/// One entry's effect on the accumulated sibling groups `(folders, files)`:
/// a hidden entry is skipped, a file is gated by the extension allow-list, a
/// subdirectory is built recursively, and one whose listing failed becomes a
/// folder with no children.
pub open spec fn scan_step(
    dir: Seq<char>,
    acc: (Seq<NodeModel>, Seq<NodeModel>),
    e: EntryModel,
) -> (Seq<NodeModel>, Seq<NodeModel>)
    decreases e, 1int,
{
    match e {
        EntryModel::File { name } => {
            if spec_is_visible(child_path(dir, name), false) {
                (acc.0, insert_node(spec_file_node(dir, name), acc.1))
            } else {
                acc
            }
        },
        EntryModel::Dir { name, listing } => {
            if spec_is_visible(child_path(dir, name), true) {
                let children = match listing {
                    Option::Some(sub) => spec_build(child_path(dir, name), sub),
                    Option::None => Seq::empty(),
                };
                (insert_node(spec_dir_node(dir, name, children), acc.0), acc.1)
            } else {
                acc
            }
        },
    }
}

/// Fold a listing into its two sorted sibling groups `(folders, files)`.
pub open spec fn spec_scan(dir: Seq<char>, es: Seq<EntryModel>) -> (Seq<NodeModel>, Seq<
    NodeModel,
>)
    decreases es, 0int,
{
    if es.len() == 0 {
        (Seq::empty(), Seq::empty())
    } else {
        scan_step(dir, spec_scan(dir, es.drop_last()), es.last())
    }
}

/// The tree built for a directory: its sorted folder group followed by its
/// sorted file group.
pub open spec fn spec_build(dir: Seq<char>, es: Seq<EntryModel>) -> Seq<NodeModel>
    decreases es, 1int,
{
    let acc = spec_scan(dir, es);
    acc.0 + acc.1
}

/// Scanning one more entry applies one more step.
pub proof fn lemma_scan_push(dir: Seq<char>, es: Seq<EntryModel>, e: EntryModel)
    ensures
        spec_scan(dir, es.push(e)) == scan_step(dir, spec_scan(dir, es), e),
{
    assert(es.push(e).drop_last() =~= es);
    assert(es.push(e).last() == e);
}

/// Scanning an empty listing yields two empty groups.
pub proof fn lemma_scan_empty(dir: Seq<char>)
    ensures
        spec_scan(dir, Seq::empty()) == (Seq::<NodeModel>::empty(), Seq::<NodeModel>::empty()),
{
}

/// The built tree is the folder group followed by the file group.
pub proof fn lemma_build_decompose(dir: Seq<char>, es: Seq<EntryModel>)
    ensures
        spec_build(dir, es) == spec_scan(dir, es).0 + spec_scan(dir, es).1,
{
}

/// Taking models commutes with concatenation.
pub proof fn lemma_node_models_concat(a: Seq<FileNode>, b: Seq<FileNode>)
    ensures
        node_models(a + b) == node_models(a) + node_models(b),
    decreases b.len(),
{
    if b.len() == 0 {
        assert(a + b =~= a);
        assert(node_models(a) + node_models(b) =~= node_models(a));
    } else {
        lemma_node_models_concat(a, b.drop_last());
        assert((a + b).drop_last() =~= a + b.drop_last());
        assert((a + b).last() == b.last());
        assert(node_models(a + b.drop_last()).push(node_model(b.last())) =~= node_models(a)
            + node_models(b));
    }
}

/// The two node type tags are distinct words.
pub proof fn lemma_type_tags_differ()
    ensures
        "file"@ != "folder"@,
{
    reveal_strlit("file");
    reveal_strlit("folder");
    assert("file"@.len() == 4);
    assert("folder"@.len() == 6);
}

/// Apply one listing entry to the two sibling groups being built.
fn scan_entry(dir_path: &str, e: &FsEntry, folders: &mut Vec<FileNode>, files: &mut Vec<FileNode>)
    requires
        forall|k: int| 0 <= k < old(folders)@.len() ==> (#[trigger] old(folders)@[k]).wf(),
        forall|k: int| 0 <= k < old(files)@.len() ==> (#[trigger] old(files)@[k]).wf(),
    ensures
        (node_models(final(folders)@), node_models(final(files)@)) == scan_step(
            dir_path@,
            (node_models(old(folders)@), node_models(old(files)@)),
            entry_model(*e),
        ),
        forall|k: int| 0 <= k < final(folders)@.len() ==> (#[trigger] final(folders)@[k]).wf(),
        forall|k: int| 0 <= k < final(files)@.len() ==> (#[trigger] final(files)@[k]).wf(),
    decreases *e,
{
    proof {
        lemma_type_tags_differ();
    }
    match e {
        FsEntry::File { name } => {
            let p = join_path(dir_path, name.as_str());
            if is_visible(p.as_str(), false) {
                let node = FileNode::new(p.as_str(), "file", None);
                proof {
                    assert(node_model(node) == spec_file_node(dir_path@, name@));
                    assert(node.wf());
                }
                insert_sorted(files, node);
            }
        },
        FsEntry::Dir { name, listing } => {
            let p = join_path(dir_path, name.as_str());
            if is_visible(p.as_str(), true) {
                let children: Vec<FileNode> = match listing {
                    Some(sub) => {
                        proof {
                            let ev = *e;
                            assert(decreases_to!(ev => ev->Dir_listing));
                            assert(decreases_to!(ev->Dir_listing => ev->Dir_listing->0));
                            assert(decreases_to!(ev->Dir_listing->0 => ev->Dir_listing->0@));
                        }
                        build_nodes(p.as_str(), sub)
                    },
                    None => Vec::new(),
                };
                let ghost cm = node_models(children@);
                let node = FileNode::new(p.as_str(), "folder", Some(children));
                proof {
                    assert(node_model(node) == spec_dir_node(dir_path@, name@, cm));
                    assert(node.wf());
                }
                insert_sorted(folders, node);
            }
        },
    }
}

/// One loop step of the builder: applying `scan_step` to the groups for the
/// first `i` entries yields the groups for the first `i + 1`.
proof fn lemma_loop_step(
    dirv: Seq<char>,
    entries: Seq<FsEntry>,
    i: int,
    ofo: Seq<FileNode>,
    ofi: Seq<FileNode>,
    nfo: Seq<FileNode>,
    nfi: Seq<FileNode>,
)
    requires
        0 <= i < entries.len(),
        node_models(ofo) == spec_scan(dirv, entry_models(entries.subrange(0, i))).0,
        node_models(ofi) == spec_scan(dirv, entry_models(entries.subrange(0, i))).1,
        (node_models(nfo), node_models(nfi)) == scan_step(
            dirv,
            (node_models(ofo), node_models(ofi)),
            entry_model(entries[i]),
        ),
    ensures
        node_models(nfo) == spec_scan(dirv, entry_models(entries.subrange(0, i + 1))).0,
        node_models(nfi) == spec_scan(dirv, entry_models(entries.subrange(0, i + 1))).1,
{
    let pre = entry_models(entries.subrange(0, i));
    let em = entry_model(entries[i]);
    let sc = spec_scan(dirv, pre);
    assert((node_models(ofo), node_models(ofi)) == sc);
    let t = entries.subrange(0, i + 1);
    lemma_entry_models_len(t);
    assert(t.drop_last() =~= entries.subrange(0, i));
    assert(t.last() == entries[i]);
    assert(entry_models(t) == pre.push(em));
    lemma_scan_push(dirv, pre, em);
}

/// Build the sorted sibling nodes for the listing of directory `dir_path`.
#[verifier::loop_isolation(false)]
pub fn build_nodes(dir_path: &str, entries: &Vec<FsEntry>) -> (r: Vec<FileNode>)
    ensures
        node_models(r@) == spec_build(dir_path@, entry_models(entries@)),
        forall|i: int| 0 <= i < r@.len() ==> (#[trigger] r@[i]).wf(),
    decreases entries@,
{
    let ghost dirv = dir_path@;
    let mut folders: Vec<FileNode> = Vec::new();
    let mut files: Vec<FileNode> = Vec::new();
    let n = entries.len();
    proof {
        assert(entries@.subrange(0, 0) =~= Seq::<FsEntry>::empty());
        lemma_scan_empty(dirv);
    }
    let mut i: usize = 0;
    while i < n
        invariant
            0 <= i <= n,
            n == entries@.len(),
            dirv == dir_path@,
            node_models(folders@) == spec_scan(dirv, entry_models(entries@.subrange(0, i as int))).0,
            node_models(files@) == spec_scan(dirv, entry_models(entries@.subrange(0, i as int))).1,
            forall|k: int| 0 <= k < folders@.len() ==> (#[trigger] folders@[k]).wf(),
            forall|k: int| 0 <= k < files@.len() ==> (#[trigger] files@[k]).wf(),
        decreases n - i,
    {
        let ghost ofo = folders@;
        let ghost ofi = files@;
        proof {
            assert(decreases_to!(entries@ => entries@[i as int]));
        }
        scan_entry(dir_path, &entries[i], &mut folders, &mut files);
        proof {
            lemma_loop_step(dirv, entries@, i as int, ofo, ofi, folders@, files@);
        }
        i = i + 1;
    }
    proof {
        assert(entries@.subrange(0, n as int) =~= entries@);
        lemma_build_decompose(dirv, entry_models(entries@));
    }
    let mut out = folders;
    let mut rest = files;
    proof {
        lemma_node_models_concat(out@, rest@);
    }
    out.append(&mut rest);
    out
}

/// Decide whether a scan may begin on `path`, from what the filesystem edge
/// reports about it: it must exist and be a directory.
pub fn check_scan_root(path: &str, exists: bool, is_dir: bool) -> (r: Result<(), ScanError>)
    ensures
        (exists && is_dir) <==> r is Ok,
        !exists ==> (r matches Err(e) && e matches ScanError::NotFound { path: p } && p@
            == path@),
        (exists && !is_dir) ==> (r matches Err(e) && e matches ScanError::WrongKind { path: p }
            && p@ == path@),
{
    if !exists {
        Err(ScanError::NotFound { path: String::from_str(path) })
    } else if !is_dir {
        Err(ScanError::WrongKind { path: String::from_str(path) })
    } else {
        Ok(())
    }
}

/// Build the whole tree for the scan root, from its listing snapshot. A root
/// whose own listing failed is the one fatal case; every nested failure has
/// already been absorbed into the snapshot.
pub fn build(root: &str, listing: Option<Vec<FsEntry>>) -> (r: Result<Vec<FileNode>, ScanError>)
    ensures
        listing matches Some(es) ==> (r matches Ok(nodes) && node_models(nodes@) == spec_build(
            root@,
            entry_models(es@),
        ) && forall|i: int| 0 <= i < nodes@.len() ==> (#[trigger] nodes@[i]).wf()),
        listing is None ==> (r matches Err(e) && e matches ScanError::Unreadable { path: p }
            && p@ == root@),
{
    match listing {
        Some(es) => Ok(build_nodes(root, &es)),
        None => Err(ScanError::Unreadable { path: String::from_str(root) }),
    }
}


/// All elements of the two sibling groups: a property held by the inserted
/// node and by every existing node is held by every node after insertion.
pub proof fn lemma_insert_node_all(x: NodeModel, s: Seq<NodeModel>, p: spec_fn(NodeModel) -> bool)
    requires
        p(x),
        forall|i: int| 0 <= i < s.len() ==> p(#[trigger] s[i]),
    ensures
        insert_node(x, s).len() == s.len() + 1,
        forall|i: int| 0 <= i < insert_node(x, s).len() ==> p(#[trigger] insert_node(x, s)[i]),
    decreases s.len(),
{
    if s.len() == 0 {
    } else if lex_lt(node_key(x), node_key(s[0])) {
    } else {
        lemma_insert_node_all(x, s.drop_first(), p);
        assert forall|i: int| 0 <= i < insert_node(x, s).len() implies p(
            #[trigger] insert_node(x, s)[i],
        ) by {
            if i > 0 {
                assert(insert_node(x, s)[i] == insert_node(x, s.drop_first())[i - 1]);
            }
        }
    }
}

/// Sibling order within one group: keys ascend.
pub open spec fn sorted_nodes(s: Seq<NodeModel>) -> bool {
    forall|i: int, j: int|
        0 <= i < j < s.len() ==> lex_le(node_key(#[trigger] s[i]), node_key(#[trigger] s[j]))
}

/// Inserting into a sorted group keeps it sorted.
pub proof fn lemma_insert_node_sorted(x: NodeModel, s: Seq<NodeModel>)
    requires
        sorted_nodes(s),
    ensures
        sorted_nodes(insert_node(x, s)),
    decreases s.len(),
{
    if s.len() == 0 {
    } else if lex_lt(node_key(x), node_key(s[0])) {
        let t = seq![x] + s;
        assert forall|i: int, j: int| 0 <= i < j < t.len() implies lex_le(
            node_key(#[trigger] t[i]),
            node_key(#[trigger] t[j]),
        ) by {
            lemma_lex_le_total(node_key(x), node_key(s[0]));
            if i == 0 {
                if j > 1 {
                    assert(lex_le(node_key(s[0]), node_key(s[j - 1])));
                    lemma_lex_le_trans(node_key(x), node_key(s[0]), node_key(s[j - 1]));
                }
            } else {
                assert(t[i] == s[i - 1] && t[j] == s[j - 1]);
            }
        }
    } else {
        let rest = s.drop_first();
        assert forall|i: int| 0 <= i < rest.len() implies lex_le(
            node_key(s[0]),
            node_key(#[trigger] rest[i]),
        ) by {
            assert(rest[i] == s[i + 1]);
        }
        assert forall|i: int, j: int| 0 <= i < j < rest.len() implies lex_le(
            node_key(#[trigger] rest[i]),
            node_key(#[trigger] rest[j]),
        ) by {
            assert(rest[i] == s[i + 1] && rest[j] == s[j + 1]);
        }
        lemma_insert_node_sorted(x, rest);
        let t = seq![s[0]] + insert_node(x, rest);
        lemma_insert_node_all(
            x,
            rest,
            |n: NodeModel| lex_le(node_key(s[0]), node_key(n)),
        );
        assert forall|i: int, j: int| 0 <= i < j < t.len() implies lex_le(
            node_key(#[trigger] t[i]),
            node_key(#[trigger] t[j]),
        ) by {
            if i == 0 {
                assert(t[j] == insert_node(x, rest)[j - 1]);
            } else {
                assert(t[i] == insert_node(x, rest)[i - 1]);
                assert(t[j] == insert_node(x, rest)[j - 1]);
            }
        }
    }
}

/// What the scan produces: the first group holds sorted folder nodes, the
/// second sorted file nodes.
pub proof fn lemma_scan_groups(dir: Seq<char>, es: Seq<EntryModel>)
    ensures
        forall|i: int|
            0 <= i < spec_scan(dir, es).0.len() ==> (#[trigger] spec_scan(dir, es).0[i]).folder,
        forall|i: int|
            0 <= i < spec_scan(dir, es).1.len() ==> !(#[trigger] spec_scan(dir, es).1[i]).folder,
        sorted_nodes(spec_scan(dir, es).0),
        sorted_nodes(spec_scan(dir, es).1),
    decreases es.len(),
{
    if es.len() != 0 {
        lemma_scan_groups(dir, es.drop_last());
        let acc = spec_scan(dir, es.drop_last());
        assert(spec_scan(dir, es) == scan_step(dir, acc, es.last()));
        match es.last() {
            EntryModel::File { name } => {
                if spec_is_visible(child_path(dir, name), false) {
                    lemma_insert_node_all(
                        spec_file_node(dir, name),
                        acc.1,
                        |n: NodeModel| !n.folder,
                    );
                    lemma_insert_node_sorted(spec_file_node(dir, name), acc.1);
                }
            },
            EntryModel::Dir { name, listing } => {
                if spec_is_visible(child_path(dir, name), true) {
                    let children = match listing {
                        Option::Some(sub) => spec_build(child_path(dir, name), sub),
                        Option::None => Seq::empty(),
                    };
                    lemma_insert_node_all(
                        spec_dir_node(dir, name, children),
                        acc.0,
                        |n: NodeModel| n.folder,
                    );
                    lemma_insert_node_sorted(spec_dir_node(dir, name, children), acc.0);
                }
            },
        }
    }
}

/// Sort invariant of the built tree: every folder node precedes every file
/// node, and within each of the two groups names ascend case-insensitively.
pub proof fn lemma_build_ordered(dir: Seq<char>, es: Seq<EntryModel>)
    ensures
        forall|i: int, j: int|
            0 <= i < j < spec_build(dir, es).len() && (#[trigger] spec_build(dir, es)[j]).folder
                ==> (#[trigger] spec_build(dir, es)[i]).folder,
        forall|i: int, j: int|
            0 <= i < j < spec_build(dir, es).len() && (#[trigger] spec_build(dir, es)[i]).folder
                == (#[trigger] spec_build(dir, es)[j]).folder ==> lex_le(
                node_key(spec_build(dir, es)[i]),
                node_key(spec_build(dir, es)[j]),
            ),
{
    lemma_scan_groups(dir, es);
    let acc = spec_scan(dir, es);
    let t = spec_build(dir, es);
    assert(t == acc.0 + acc.1);
    assert forall|i: int, j: int|
        0 <= i < j < t.len() && (#[trigger] t[j]).folder implies (#[trigger] t[i]).folder by {
        if j >= acc.0.len() {
            assert(t[j] == acc.1[j - acc.0.len()]);
            assert(!t[j].folder);
        } else {
            assert(t[i] == acc.0[i]);
        }
    }
    assert forall|i: int, j: int|
        0 <= i < j < t.len() && (#[trigger] t[i]).folder == (#[trigger] t[j]).folder implies
        lex_le(node_key(t[i]), node_key(t[j])) by {
        if j < acc.0.len() {
            assert(t[i] == acc.0[i] && t[j] == acc.0[j]);
        } else if i >= acc.0.len() {
            assert(t[i] == acc.1[i - acc.0.len()] && t[j] == acc.1[j - acc.0.len()]);
        } else {
            assert(t[i] == acc.0[i] && t[j] == acc.1[j - acc.0.len()]);
            assert(t[i].folder && !t[j].folder);
        }
    }
}

/// The freshly inserted node is in the group.
pub proof fn lemma_insert_node_has_new(x: NodeModel, s: Seq<NodeModel>)
    ensures
        insert_node(x, s).contains(x),
    decreases s.len(),
{
    if s.len() == 0 {
        assert(insert_node(x, s)[0] == x);
    } else if lex_lt(node_key(x), node_key(s[0])) {
        assert(insert_node(x, s)[0] == x);
    } else {
        lemma_insert_node_has_new(x, s.drop_first());
        let t = insert_node(x, s.drop_first());
        let k = choose|k: int| 0 <= k < t.len() && t[k] == x;
        assert(insert_node(x, s)[k + 1] == x);
    }
}

/// Insertion keeps every node that was in the group.
pub proof fn lemma_insert_node_keeps(x: NodeModel, s: Seq<NodeModel>, e: NodeModel)
    requires
        s.contains(e),
    ensures
        insert_node(x, s).contains(e),
    decreases s.len(),
{
    if s.len() == 0 {
    } else if lex_lt(node_key(x), node_key(s[0])) {
        let k = choose|k: int| 0 <= k < s.len() && s[k] == e;
        assert(insert_node(x, s)[k + 1] == e);
    } else {
        if s[0] == e {
            assert(insert_node(x, s)[0] == e);
        } else {
            let k = choose|k: int| 0 <= k < s.len() && s[k] == e;
            assert(s.drop_first()[k - 1] == e);
            lemma_insert_node_keeps(x, s.drop_first(), e);
            let t = insert_node(x, s.drop_first());
            let m = choose|m: int| 0 <= m < t.len() && t[m] == e;
            assert(insert_node(x, s)[m + 1] == e);
        }
    }
}

/// Partial-failure tolerance: a visible subdirectory whose own listing failed
/// still appears in the built tree, as a folder node with no children.
pub proof fn lemma_unreadable_subdir_kept(dir: Seq<char>, es: Seq<EntryModel>, i: int)
    requires
        0 <= i < es.len(),
        es[i] matches EntryModel::Dir { name, listing: Option::None },
        spec_is_visible(child_path(dir, es[i]->Dir_name), true),
    ensures
        spec_build(dir, es).contains(
            spec_dir_node(dir, es[i]->Dir_name, Seq::empty()),
        ),
    decreases es.len(),
{
    let name = es[i]->Dir_name;
    let node = spec_dir_node(dir, name, Seq::empty());
    let acc = spec_scan(dir, es);
    assert(spec_scan(dir, es).0.contains(node)) by {
        lemma_scan_has_unreadable(dir, es, i);
    }
    let k = choose|k: int| 0 <= k < acc.0.len() && acc.0[k] == node;
    assert(spec_build(dir, es)[k] == node);
}

/// The folder group of the scan keeps a visible unreadable subdirectory.
proof fn lemma_scan_has_unreadable(dir: Seq<char>, es: Seq<EntryModel>, i: int)
    requires
        0 <= i < es.len(),
        es[i] matches EntryModel::Dir { name, listing: Option::None },
        spec_is_visible(child_path(dir, es[i]->Dir_name), true),
    ensures
        spec_scan(dir, es).0.contains(spec_dir_node(dir, es[i]->Dir_name, Seq::empty())),
    decreases es.len(),
{
    let name = es[i]->Dir_name;
    let node = spec_dir_node(dir, name, Seq::empty());
    let acc = spec_scan(dir, es.drop_last());
    assert(spec_scan(dir, es) == scan_step(dir, acc, es.last()));
    if i == es.len() - 1 {
        lemma_insert_node_has_new(node, acc.0);
    } else {
        assert(es.drop_last()[i] == es[i]);
        lemma_scan_has_unreadable(dir, es.drop_last(), i);
        match es.last() {
            EntryModel::File { name: n2 } => {
            },
            EntryModel::Dir { name: n2, listing } => {
                if spec_is_visible(child_path(dir, n2), true) {
                    let children = match listing {
                        Option::Some(sub) => spec_build(child_path(dir, n2), sub),
                        Option::None => Seq::empty(),
                    };
                    lemma_insert_node_keeps(spec_dir_node(dir, n2, children), acc.0, node);
                }
            },
        }
    }
}

/// Scan determinism: the tree built for a directory is a function of the
/// listing snapshot alone, so two scans of an unchanged directory agree in
/// every identifier, name, path, kind and position.
pub proof fn lemma_build_deterministic(
    dir: Seq<char>,
    es: Seq<EntryModel>,
    r1: Seq<NodeModel>,
    r2: Seq<NodeModel>,
)
    requires
        r1 == spec_build(dir, es),
        r2 == spec_build(dir, es),
    ensures
        r1 == r2,
{
}

} // verus!
