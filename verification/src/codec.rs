//! The boundary to the YAML codec: parsing text into a tree and emitting a
//! tree back to text are done by `yaml_rust`; everything the library assumes
//! of it is stated here.

use vstd::prelude::*;

use crate::node::{node_view, Node, NodeV};
use crate::patch::wf_nodev;

verus! {

/// One failure of turning document text into a tree.
#[derive(Debug, PartialEq, Eq)]
pub enum ParseError {
    /// The scanner rejected the text; the message names the location.
    Syntax(String),
    /// The text holds no document at all.
    NoDocument,
    /// A node kind the tree cannot hold: an alias, or a mapping key that is
    /// not a scalar.
    UnsupportedStructure,
    /// The root of the document is not a mapping.
    RootNotMapping,
}

/// One failure of turning a tree back into document text.
#[derive(Debug, PartialEq, Eq)]
pub enum SerializeError {
    /// The emitter rejected the tree; the message says why.
    Emit(String),
}

/// What parsing yields for given text: the model of the first document's
/// tree, when the text is well formed and every node is representable;
/// nothing otherwise.
pub uninterp spec fn parsed_doc(text: Seq<char>) -> Option<NodeV>;

/// What serializing a tree yields: the document text, when the emitter can
/// represent the tree; nothing otherwise.
pub uninterp spec fn emitted_text(doc: NodeV) -> Option<Seq<char>>;

#[verifier::external_type_specification]
#[verifier::external_body]
pub struct ExYaml(yaml_rust::Yaml);

/// The parsing half of `load_document`: one arm per `yaml_rust::Yaml` kind.
/// Scalars keep their textual form; sequences and mappings are converted by
/// the two functions below; an alias or a bad value is refused.
#[verifier::external_body]
fn node_from_yaml(y: yaml_rust::Yaml) -> (r: Result<Node, ParseError>) {
    match y {
        yaml_rust::Yaml::String(s) => Ok(Node::Scalar(s)),
        yaml_rust::Yaml::Real(s) => Ok(Node::Scalar(s)),
        yaml_rust::Yaml::Integer(i) => Ok(Node::Scalar(format!("{}", i))),
        yaml_rust::Yaml::Boolean(b) => Ok(Node::Scalar(format!("{}", b))),
        yaml_rust::Yaml::Null => Ok(Node::Scalar("~".to_string())),
        yaml_rust::Yaml::Array(items) => nodes_from_array(items),
        other => nodes_from_hash(other),
    }
}

/// The sequence arm of `node_from_yaml`: elements in order.
#[verifier::external_body]
fn nodes_from_array(items: Vec<yaml_rust::Yaml>) -> (r: Result<Node, ParseError>) {
    let mut out: Vec<Node> = Vec::new();
    for item in items {
        out.push(node_from_yaml(item)?);
    }
    Ok(Node::Sequence(out))
}

/// The mapping arm of `node_from_yaml`: entries in insertion order; a key
/// that is not a string scalar is refused, as is any other node kind.
#[verifier::external_body]
fn nodes_from_hash(y: yaml_rust::Yaml) -> (r: Result<Node, ParseError>) {
    let entries = match y {
        yaml_rust::Yaml::Hash(h) => h,
        _ => return Err(ParseError::UnsupportedStructure),
    };
    let mut out: Vec<(String, Node)> = Vec::new();
    for (key, value) in entries {
        match key {
            yaml_rust::Yaml::String(k) => out.push((k, node_from_yaml(value)?)),
            _ => return Err(ParseError::UnsupportedStructure),
        }
    }
    Ok(Node::Mapping(out))
}

/// Relies on yaml_rust::YamlLoader::load_from_str: what it yields is a
/// function of the text alone. The first document of the stream is converted
/// by `node_from_yaml`; a scan error, an empty stream, and an unrepresentable
/// node are the failure cases, and the root's shape is never one of them.
/// The tree is well formed: the loader builds every mapping in an ordered map
/// whose insert replaces the value when a key comes twice, so keys are unique.
#[verifier::external_body]
fn load_document(text: &str) -> (r: Result<Node, ParseError>)
    ensures
        r matches Ok(node) ==> parsed_doc(text@) == Some(node_view(node)),
        r is Err <==> parsed_doc(text@) is None,
        r matches Err(e) ==> !(e is RootNotMapping),
        r matches Ok(node) ==> wf_nodev(node_view(node)),
{
    match yaml_rust::YamlLoader::load_from_str(text) {
        Ok(docs) => match docs.into_iter().next() {
            Some(y) => node_from_yaml(y),
            None => Err(ParseError::NoDocument),
        },
        Err(e) => Err(ParseError::Syntax(format!("{}", e))),
    }
}

/// The emitting half of `serialize_document`: scalars become strings,
/// sequences become arrays, mappings become hashes in entry order.
#[verifier::external_body]
fn yaml_from_node(n: &Node) -> yaml_rust::Yaml {
    match n {
        Node::Scalar(s) => yaml_rust::Yaml::String(s.clone()),
        Node::Sequence(items) => yaml_rust::Yaml::Array(items.iter().map(yaml_from_node).collect()),
        Node::Mapping(entries) => {
            let mut h = yaml_rust::yaml::Hash::new();
            for (key, value) in entries {
                h.insert(yaml_rust::Yaml::String(key.clone()), yaml_from_node(value));
            }
            yaml_rust::Yaml::Hash(h)
        }
    }
}

/// Relies on yaml_rust::YamlEmitter::dump: the emitted text is a function of
/// the tree alone, written to an in-memory string.
#[verifier::external_body]
pub fn serialize_document(doc: &Node) -> (r: Result<String, SerializeError>)
    ensures
        r matches Ok(text) ==> emitted_text(node_view(*doc)) == Some(text@),
        r is Err <==> emitted_text(node_view(*doc)) is None,
{
    let y = yaml_from_node(doc);
    let mut out = String::new();
    let mut emitter = yaml_rust::YamlEmitter::new(&mut out);
    match emitter.dump(&y) {
        Ok(()) => Ok(out),
        Err(e) => Err(SerializeError::Emit(format!("{}", e))),
    }
}

/// Parse document text into its tree. Any well-formed document whose root is
/// not a mapping is rejected with `RootNotMapping`.
pub fn parse_document(text: &str) -> (r: Result<Node, ParseError>)
    ensures
        r matches Ok(node) ==> parsed_doc(text@) == Some(node@) && node@ is Mapping
            && wf_nodev(node@),
        r matches Err(e) ==> match e {
            ParseError::RootNotMapping => parsed_doc(text@) matches Some(d) && !(d is Mapping),
            _ => parsed_doc(text@) is None,
        },
{
    match load_document(text) {
        Ok(node) => match node {
            Node::Mapping(entries) => Ok(Node::Mapping(entries)),
            _ => Err(ParseError::RootNotMapping),
        },
        Err(e) => Err(e),
    }
}

} // verus!
