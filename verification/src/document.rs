//! The whole-document operation: parse, patch, re-serialize.

use vstd::prelude::*;

use crate::codec::{emitted_text, parse_document, parsed_doc, serialize_document, ParseError, SerializeError};
use crate::config::Config;
use crate::node::NodeV;
use crate::patch::{apply_patch, doc_matched, patch_doc, updates_view, FieldUpdate, UpdateV};

verus! {

/// One failure of a whole-document patch; parse and serialize failures stay
/// distinguishable for the caller.
#[derive(Debug, PartialEq, Eq)]
pub enum DocumentError {
    Parse(ParseError),
    Serialize(SerializeError),
}

/// Parse the text, patch the first matching element of the sequence under
/// `top_level_key`, and re-serialize. Returns the new text and whether a
/// matching element was found; without one the tree is re-serialized
/// unchanged.
pub fn patch_document(
    text: &str,
    top_level_key: &str,
    selector_field: &str,
    selector_value: &str,
    updates: &Vec<FieldUpdate>,
) -> (r: Result<(String, bool), DocumentError>)
    ensures
        r matches Ok(out) ==> {
            &&& parsed_doc(text@) matches Some(doc)
            &&& doc is Mapping
            &&& emitted_text(patch_doc(
                doc,
                top_level_key@,
                selector_field@,
                selector_value@,
                updates_view(updates@),
            )) == Some(out.0@)
            &&& out.1 == doc_matched(doc, top_level_key@, selector_field@, selector_value@)
        },
        r matches Err(DocumentError::Parse(e)) ==> match e {
            ParseError::RootNotMapping => parsed_doc(text@) matches Some(d) && !(d is Mapping),
            _ => parsed_doc(text@) is None,
        },
        r matches Err(DocumentError::Serialize(_)) ==> {
            &&& parsed_doc(text@) matches Some(doc)
            &&& doc is Mapping
            &&& emitted_text(patch_doc(
                doc,
                top_level_key@,
                selector_field@,
                selector_value@,
                updates_view(updates@),
            )) is None
        },
{
    match parse_document(text) {
        Ok(mut doc) => {
            let changed = apply_patch(&mut doc, top_level_key, selector_field, selector_value, updates);
            match serialize_document(&doc) {
                Ok(out) => Ok((out, changed)),
                Err(e) => Err(DocumentError::Serialize(e)),
            }
        }
        Err(e) => Err(DocumentError::Parse(e)),
    }
}

/// The view of an optional scalar value.
pub open spec fn opt_string_view(o: Option<String>) -> Option<Seq<char>> {
    match o {
        Some(s) => Some(s@),
        None => None,
    }
}

/// The field updates that a configuration asks for: the image's new name and
/// new tag, either of which may be absent.
pub open spec fn config_updates(c: Config) -> Seq<UpdateV> {
    seq![
        ("newName"@, opt_string_view(c.new_name)),
        ("newTag"@, opt_string_view(c.new_tag)),
    ]
}

/// Update the image list of a manifest: in the sequence under `images`, the
/// first element whose `name` equals the configured image name gets the
/// configured new name and tag (each only when configured).
pub fn yaml_update(yaml: &str, config: &Config) -> (r: Result<String, DocumentError>)
    ensures
        r matches Ok(out) ==> {
            &&& parsed_doc(yaml@) matches Some(doc)
            &&& doc is Mapping
            &&& emitted_text(patch_doc(
                doc,
                "images"@,
                "name"@,
                config.image_name@,
                config_updates(*config),
            )) == Some(out@)
        },
        r matches Err(DocumentError::Parse(e)) ==> match e {
            ParseError::RootNotMapping => parsed_doc(yaml@) matches Some(d) && !(d is Mapping),
            _ => parsed_doc(yaml@) is None,
        },
        r matches Err(DocumentError::Serialize(_)) ==> {
            &&& parsed_doc(yaml@) matches Some(doc)
            &&& doc is Mapping
            &&& emitted_text(patch_doc(
                doc,
                "images"@,
                "name"@,
                config.image_name@,
                config_updates(*config),
            )) is None
        },
{
    let mut updates: Vec<FieldUpdate> = Vec::new();
    let new_name = match &config.new_name {
        Some(s) => Some(s.clone()),
        None => None,
    };
    let new_tag = match &config.new_tag {
        Some(s) => Some(s.clone()),
        None => None,
    };
    updates.push(FieldUpdate { field_name: "newName".to_owned(), new_value: new_name });
    updates.push(FieldUpdate { field_name: "newTag".to_owned(), new_value: new_tag });
    proof {
        assert(updates_view(updates@) =~= config_updates(*config));
    }
    match patch_document(yaml, "images", "name", config.image_name.as_str(), &updates) {
        Ok((text, _changed)) => Ok(text),
        Err(e) => Err(e),
    }
}

} // verus!
