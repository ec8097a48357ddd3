//! The graph of an FBX scene: object nodes, connection edges and their payloads.
use vstd::prelude::*;

use crate::graph::{self, NodeView};
use crate::text::{decimal, decimal_string};

pub mod filter;
pub mod operation;
mod property;

pub use self::property::{separate_name_class, split_name_class, ObjectProperties};

verus! {

/// Payload of a node: the properties of the object it stands for, absent
/// for a node that stands for no object (such as the implicit root).
pub type NodeData = Option<ObjectProperties>;

pub type Graph = graph::Graph<NodeData, EdgeData>;

pub type Node = graph::Node<NodeData>;

pub type Edge = graph::Edge<EdgeData>;

/// Payload of an edge: the connection's type tag and the name of the
/// property it connects to, when known.
pub struct EdgeData {
    pub connection_type: Option<String>,
    pub property_name: Option<String>,
}

impl Default for EdgeData {
    fn default() -> (r: EdgeData)
        ensures
            r.connection_type is None,
            r.property_name is None,
    {
        EdgeData { connection_type: None, property_name: None }
    }
}

/// The label of an object's node: `class::name`, then the subclass and the
/// identifier on lines of their own (written as the two characters `\n`).
pub open spec fn object_label(p: ObjectProperties) -> Seq<char> {
    p.class@ + "::"@ + p.name@ + "\\n"@ + p.subclass@ + "\\n"@ + decimal(p.uid as int)
}

/// A visible node for the object, labelled with its class, name, subclass
/// and identifier.
pub fn create_object_node(obj_props: &ObjectProperties) -> (r: Node)
    ensures
        r.id == obj_props.uid,
        r.visible,
        r.data == Some(*obj_props),
        r.styles@ == Map::<Seq<char>, Seq<char>>::empty().insert("label"@, object_label(*obj_props)),
{
    let props = obj_props.clone();
    let mut node = graph::Node::new_with_data(obj_props.uid, Some(props));
    let mut label = obj_props.class.clone();
    label.append("::");
    label.append(obj_props.name.as_str());
    label.append("\\n");
    label.append(obj_props.subclass.as_str());
    label.append("\\n");
    let uid = decimal_string(obj_props.uid);
    label.append(uid.as_str());
    node.styles.insert(String::from_str("label"), label);
    node
}

/// An edge for a connection of the document: its type tag, and the name of
/// the property connected to, which also labels the edge.
pub fn create_connection_edge(
    connection_type: String,
    child_uid: i64,
    parent_uid: i64,
    property_name: Option<String>,
) -> (r: Edge)
    ensures
        r.parent == parent_uid,
        r.child == child_uid,
        r.data.connection_type == Some(connection_type),
        r.data.property_name == property_name,
        r.styles@ == match property_name {
            Some(p) => Map::<Seq<char>, Seq<char>>::empty().insert("label"@, p@),
            None => Map::<Seq<char>, Seq<char>>::empty(),
        },
{
    let mut edge: Edge = graph::Edge::new_with_data(parent_uid, child_uid, EdgeData::default());
    edge.data.connection_type = Some(connection_type);
    match property_name {
        Some(name) => {
            edge.styles.insert(String::from_str("label"), name.clone());
            edge.data.property_name = Some(name);
        },
        None => {},
    }
    edge
}

/// An edge from a pose object to a node that the pose lists, tagged `Pose`.
pub fn create_pose_edge(pose_uid: i64, child_uid: i64) -> (r: Edge)
    ensures
        r.parent == pose_uid,
        r.child == child_uid,
        r.data.connection_type is Some && r.data.connection_type->0@ == "Pose"@,
        r.data.property_name is None,
        r.styles@ == Map::<Seq<char>, Seq<char>>::empty(),
{
    let mut edge: Edge = graph::Edge::new_with_data(pose_uid, child_uid, EdgeData::default());
    edge.data.connection_type = Some(String::from_str("Pose"));
    edge
}

/// Which kind of thing an end of a connection is.
pub enum LinkEndType {
    Object,
    Property,
}

/// The kinds of the two ends of a connection, as its type tag gives them.
pub struct ConnectionType {
    pub parent: LinkEndType,
    pub child: LinkEndType,
}

/// The kind that a letter of a type tag stands for: `O` object, `P` property.
pub open spec fn end_of(c: char) -> Option<LinkEndType> {
    if c == 'O' {
        Some(LinkEndType::Object)
    } else if c == 'P' {
        Some(LinkEndType::Property)
    } else {
        None
    }
}

fn end_from_char(c: char) -> (r: Option<LinkEndType>)
    ensures
        r == end_of(c),
{
    if c == 'O' {
        Some(LinkEndType::Object)
    } else if c == 'P' {
        Some(LinkEndType::Property)
    } else {
        None
    }
}

impl ConnectionType {
    /// Reads a type tag: two letters, the parent's kind then the child's
    /// (`OO`, `OP`, `PO` or `PP`).
    pub fn from_string(s: &str) -> (r: Option<ConnectionType>)
        ensures
            match r {
                Some(t) => s@.len() == 2 && end_of(s@[0]) == Some(t.parent) && end_of(s@[1]) == Some(
                    t.child,
                ),
                None => !(s@.len() == 2 && end_of(s@[0]) is Some && end_of(s@[1]) is Some),
            },
    {
        if s.unicode_len() != 2 {
            return None;
        }
        let parent = end_from_char(s.get_char(0));
        let child = end_from_char(s.get_char(1));
        match (parent, child) {
            (Some(parent), Some(child)) => Some(ConnectionType { parent, child }),
            _ => None,
        }
    }
}

} // verus!
