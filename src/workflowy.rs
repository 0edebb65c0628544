//! The outline tree as delivered by the document source.
use vstd::prelude::*;

verus! {

/// The whole document: the project tree and the account's feature flags.
pub struct Tree {
    pub project_tree_data: ProjectTreeData,
    pub features: Vec<Feature>,
}

pub struct ProjectTreeData {
    pub client_id: String,
    pub main_project_tree_info: MainProjectTreeInfo,
}

pub struct MainProjectTreeInfo {
    pub root_project_children: Vec<Point>,
    pub initial_most_recent_operation_transaction_id: String,
}

/// One node of the outline; `children` keeps the display order.
pub struct Point {
    pub id: String,
    pub content: String,
    pub note: Option<String>,
    pub complete: Option<u32>,
    pub children: Option<Vec<Point>>,
}

pub struct Feature {
    pub codename: String,
    pub name: String,
    pub description: String,
}

/// Failure to obtain the document.
pub struct WorkflowyError {
    pub msg: String,
}

/// The children of a node, empty where it has none.
pub open spec fn kids(p: Point) -> Seq<Point> {
    match p.children {
        Some(v) => v@,
        None => Seq::empty(),
    }
}

/// Whether the node has at least one child.
pub open spec fn has_kids(p: Point) -> bool {
    kids(p).len() > 0
}

/// Builds a node from its parts.
pub fn point(id: String, content: String, children: Option<Vec<Point>>) -> (r: Point)
    ensures
        r.id == id,
        r.content == content,
        r.note is None,
        r.complete is None,
        r.children == children,
{
    Point { id, content, note: None, complete: None, children }
}

} // verus!
