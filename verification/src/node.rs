//! Tree nodes. A `FileNode` is one entry of the hierarchical view: a file or
//! a folder, with a stable identifier derived from its absolute path, and,
//! for folders only, an ordered sequence of children.

use vstd::prelude::*;

use crate::filter::spec_file_name;
use crate::fingerprint::spec_path_id;
use crate::filter::file_name_of;
use crate::fingerprint::path_id;

verus! {

/// A file or folder node of the tree.
#[derive(Debug)]
pub struct FileNode {
    pub id: String,
    pub name: String,
    pub path: String,
    /// `"file"` or `"folder"`.
    pub node_type: String,
    /// `None` for files, `Some` (possibly empty) for folders.
    pub children: Option<Vec<FileNode>>,
}

/// The mathematical shape of a node: every observable field of a `FileNode`,
/// with children modelled recursively.
pub struct NodeModel {
    pub id: Seq<char>,
    pub name: Seq<char>,
    pub path: Seq<char>,
    pub folder: bool,
    pub children: Option<Seq<NodeModel>>,
}

/// The model of one node.
pub open spec fn node_model(n: FileNode) -> NodeModel
    decreases n,
{
    NodeModel {
        id: n.id@,
        name: n.name@,
        path: n.path@,
        folder: n.node_type@ == "folder"@,
        children: match n.children {
            Option::None => Option::None,
            Option::Some(v) => Option::Some(node_models(v@)),
        },
    }
}

/// The models of a sequence of nodes, in order.
pub open spec fn node_models(s: Seq<FileNode>) -> Seq<NodeModel>
    decreases s,
{
    if s.len() == 0 {
        Seq::empty()
    } else {
        node_models(s.drop_last()).push(node_model(s.last()))
    }
}

pub proof fn lemma_node_models_len(s: Seq<FileNode>)
    ensures
        node_models(s).len() == s.len(),
    decreases s,
{
    if s.len() != 0 {
        lemma_node_models_len(s.drop_last());
    }
}

pub proof fn lemma_node_models_index(s: Seq<FileNode>, i: int)
    requires
        0 <= i < s.len(),
    ensures
        node_models(s).len() == s.len(),
        node_models(s)[i] == node_model(s[i]),
    decreases s,
{
    lemma_node_models_len(s);
    if i < s.len() - 1 {
        lemma_node_models_index(s.drop_last(), i);
    } else {
        lemma_node_models_len(s.drop_last());
    }
}

impl FileNode {
    /// Well-formed node: its type tag is `"file"` or `"folder"`, children are
    /// present exactly on folders, the identifier and the name are derived
    /// from the path, and all children are well-formed too.
    pub open spec fn wf(self) -> bool
        decreases self,
    {
        &&& (self.node_type@ == "file"@ || self.node_type@ == "folder"@)
        &&& (self.children is None <==> self.node_type@ == "file"@)
        &&& self.id@ == spec_path_id(self.path@)
        &&& self.name@ == spec_file_name(self.path@)
        &&& match self.children {
            Option::None => true,
            Option::Some(v) => forall|i: int| 0 <= i < v@.len() ==> #[trigger] v@[i].wf(),
        }
    }

    /// Build a node for `path`: the identifier is the fingerprint of the path
    /// and the name is the path's final component.
    pub fn new(path: &str, node_type: &str, children: Option<Vec<FileNode>>) -> (r: FileNode)
        ensures
            r.id@ == spec_path_id(path@),
            r.name@ == spec_file_name(path@),
            r.path@ == path@,
            r.node_type@ == node_type@,
            r.children == children,
    {
        let id = path_id(path);
        let name = String::from_str(file_name_of(path));
        FileNode {
            id,
            name,
            path: String::from_str(path),
            node_type: String::from_str(node_type),
            children,
        }
    }
}

} // verus!
