//! The trusted boundary to the TOML editing crate, and the extraction of
//! [`ManifestFacts`] from a manifest document. The parsed document and its
//! nodes are opaque here, so their contents are given names: a ghost
//! [`TomlNode`] tree stands for what a document holds, the wrappers' contracts
//! say how each call reads it, and the extraction functions are verified
//! against those contracts.

use vstd::prelude::*;

use crate::manifest::{ManifestFacts, ManifestError, VersionField};
use std::str::FromStr;

verus! {

#[verifier::external_type_specification]
#[verifier::external_body]
pub struct ExDocumentMut(toml_edit::DocumentMut);

#[verifier::external_type_specification]
#[verifier::external_body]
pub struct ExItem(toml_edit::Item);

#[verifier::external_type_specification]
#[verifier::external_body]
pub struct ExValue(toml_edit::Value);

#[verifier::external_type_specification]
#[verifier::external_body]
pub struct ExArray(toml_edit::Array);

/// What a TOML document node holds, as far as the release logic reads it:
/// strings, booleans, arrays, tables (standard, inline or dotted, with their
/// empty placeholder entries left out), and everything else — numbers,
/// dates, arrays of tables, placeholder slots — as `Other`.
pub enum TomlNode {
    Text(Seq<char>),
    Boolean(bool),
    List(Seq<TomlNode>),
    Table(Map<Seq<char>, TomlNode>),
    Other,
}

/// What parsing a text as a TOML document yields: the root table's contents,
/// or nothing when the text is not well-formed TOML. A parse result depends
/// on the text alone.
pub uninterp spec fn spec_parsed_doc(s: Seq<char>) -> Option<Map<Seq<char>, TomlNode>>;

/// What a parsed document's root table holds.
pub uninterp spec fn doc_node(doc: toml_edit::DocumentMut) -> Map<Seq<char>, TomlNode>;

/// What an item of a document holds.
pub uninterp spec fn item_node(item: toml_edit::Item) -> TomlNode;

/// What a value of a document holds.
pub uninterp spec fn value_node(value: toml_edit::Value) -> TomlNode;

/// What an array of a document holds, slot by slot.
pub uninterp spec fn array_nodes(array: toml_edit::Array) -> Seq<TomlNode>;

/// Relies on toml_edit's `DocumentMut` implementation of `FromStr`: parses a
/// TOML document, or fails exactly on text that is not well-formed TOML.
#[verifier::external_body]
fn parse_toml_document(content: &str) -> (r: Option<toml_edit::DocumentMut>)
    ensures
        r is Some <==> spec_parsed_doc(content@) is Some,
        r matches Some(doc) ==> spec_parsed_doc(content@) == Some(doc_node(doc)),
{
    toml_edit::DocumentMut::from_str(content).ok()
}

/// Relies on toml_edit's `Table::get` (through the document's root table):
/// the top-level item under the key, present exactly when the root table has
/// a non-placeholder entry for it.
#[verifier::external_body]
fn doc_get<'a>(doc: &'a toml_edit::DocumentMut, key: &str) -> (r: Option<&'a toml_edit::Item>)
    ensures
        r is Some <==> doc_node(*doc).contains_key(key@),
        r matches Some(item) ==> doc_node(*doc).contains_key(key@) && item_node(*item) == doc_node(
            *doc,
        )[key@],
{
    doc.get(key)
}

/// Relies on toml_edit's `Item::get`: the sub-item under the key, present
/// exactly when the item is a table (standard, inline or dotted) with a
/// non-placeholder entry for it.
#[verifier::external_body]
fn item_get<'a>(item: &'a toml_edit::Item, key: &str) -> (r: Option<&'a toml_edit::Item>)
    ensures
        r is Some <==> (item_node(*item) matches TomlNode::Table(m) && m.contains_key(key@)),
        r matches Some(sub) ==> (item_node(*item) matches TomlNode::Table(m) && m.contains_key(key@)
            && item_node(*sub) == m[key@]),
{
    item.get(key)
}

/// Relies on toml_edit's `Item::as_str`: the item's text exactly when it is a
/// string value.
#[verifier::external_body]
fn item_as_str(item: &toml_edit::Item) -> (r: Option<String>)
    ensures
        r is Some <==> item_node(*item) is Text,
        r matches Some(s) ==> item_node(*item) == TomlNode::Text(s@),
{
    item.as_str().map(|s| s.to_owned())
}

/// Relies on toml_edit's `Item::as_bool`: the item's truth value exactly when
/// it is a boolean value.
#[verifier::external_body]
fn item_as_bool(item: &toml_edit::Item) -> (r: Option<bool>)
    ensures
        r is Some <==> item_node(*item) is Boolean,
        r matches Some(b) ==> item_node(*item) == TomlNode::Boolean(b),
{
    item.as_bool()
}

/// Relies on toml_edit's `Item::as_array`: the item as an array exactly when
/// it is an array value.
#[verifier::external_body]
fn item_as_array<'a>(item: &'a toml_edit::Item) -> (r: Option<&'a toml_edit::Array>)
    ensures
        r is Some <==> item_node(*item) is List,
        r matches Some(a) ==> item_node(*item) == TomlNode::List(array_nodes(*a)),
{
    item.as_array()
}

/// Relies on toml_edit's `Value::as_str`: the value's text exactly when it is
/// a string.
#[verifier::external_body]
fn value_as_str(value: &toml_edit::Value) -> (r: Option<String>)
    ensures
        r is Some <==> value_node(*value) is Text,
        r matches Some(s) ==> value_node(*value) == TomlNode::Text(s@),
{
    value.as_str().map(|s| s.to_owned())
}

/// Relies on toml_edit's `Array::len`: the number of slots.
#[verifier::external_body]
fn array_len(array: &toml_edit::Array) -> (r: usize)
    ensures
        r as nat == array_nodes(*array).len(),
{
    array.len()
}

/// Relies on toml_edit's `Array::get`: the value at the index. An in-bounds
/// slot that holds no value (a placeholder, which reads as `Other`) yields
/// nothing, as does an out-of-bounds index.
#[verifier::external_body]
fn array_get<'a>(array: &'a toml_edit::Array, index: usize) -> (r: Option<&'a toml_edit::Value>)
    ensures
        index as nat >= array_nodes(*array).len() ==> r is None,
        r matches Some(v) ==> (index as nat) < array_nodes(*array).len() && value_node(*v)
            == array_nodes(*array)[index as int],
        ((index as nat) < array_nodes(*array).len() && r is None) ==> array_nodes(*array)[index
            as int] == TomlNode::Other,
{
    array.get(index)
}

/// The entry of a table node under a key, if the node is a table and has one.
pub open spec fn node_get(n: TomlNode, key: Seq<char>) -> Option<TomlNode> {
    match n {
        TomlNode::Table(m) => if m.contains_key(key) {
            Some(m[key])
        } else {
            None
        },
        _ => None,
    }
}

/// The entry of a root table under a key, if it has one.
pub open spec fn root_get(root: Map<Seq<char>, TomlNode>, key: Seq<char>) -> Option<TomlNode> {
    if root.contains_key(key) {
        Some(root[key])
    } else {
        None
    }
}

pub open spec fn opt_node_get(n: Option<TomlNode>, key: Seq<char>) -> Option<TomlNode> {
    match n {
        Some(node) => node_get(node, key),
        None => None,
    }
}

/// The text of a node, when it is a string.
pub open spec fn opt_text(n: Option<TomlNode>) -> Option<Seq<char>> {
    match n {
        Some(TomlNode::Text(t)) => Some(t),
        _ => None,
    }
}

pub open spec fn opt_str_matches(m: Option<Seq<char>>, s: Option<String>) -> bool {
    match (m, s) {
        (Some(a), Some(b)) => a == b@,
        (None, None) => true,
        _ => false,
    }
}

/// Whether a `version` node carries the workspace-inheritance marker
/// (`version.workspace = true`).
pub open spec fn spec_inherits(n: TomlNode) -> bool {
    node_get(n, "workspace"@) == Some(TomlNode::Boolean(true))
}

/// How a `version` node reads as a [`VersionField`]: a string is the literal
/// version, the inheritance marker defers to the workspace, and any other
/// shape is neither.
pub open spec fn version_field_matches(n: TomlNode, f: VersionField) -> bool {
    match n {
        TomlNode::Text(t) => f matches VersionField::Literal(s) && s@ == t,
        _ => if spec_inherits(n) {
            f is Inherited
        } else {
            f is OtherForm
        },
    }
}

fn version_field_of_item(item: &toml_edit::Item) -> (r: VersionField)
    ensures
        version_field_matches(item_node(*item), r),
{
    match item_as_str(item) {
        Some(s) => VersionField::Literal(s),
        None => match item_get(item, "workspace") {
            Some(w) => match item_as_bool(w) {
                Some(true) => VersionField::Inherited,
                _ => VersionField::OtherForm,
            },
            None => VersionField::OtherForm,
        },
    }
}

/// The texts of the string entries of an array, in order; entries of other
/// shapes are skipped.
pub open spec fn spec_string_entries(l: Seq<TomlNode>) -> Seq<Seq<char>>
    decreases l.len(),
{
    if l.len() == 0 {
        Seq::<Seq<char>>::empty()
    } else {
        let rest = spec_string_entries(l.drop_last());
        match l.last() {
            TomlNode::Text(t) => rest.push(t),
            _ => rest,
        }
    }
}

fn string_members(array: &toml_edit::Array) -> (r: Vec<String>)
    ensures
        r.deep_view() == spec_string_entries(array_nodes(*array)),
{
    let n = array_len(array);
    let mut out: Vec<String> = Vec::new();
    let mut i: usize = 0;
    proof {
        assert(array_nodes(*array).take(0) =~= Seq::<TomlNode>::empty());
        assert(out.deep_view() =~= spec_string_entries(array_nodes(*array).take(0)));
    }
    while i < n
        invariant
            i <= n,
            n as nat == array_nodes(*array).len(),
            out.deep_view() == spec_string_entries(array_nodes(*array).take(i as int)),
        decreases n - i,
    {
        let ghost nodes = array_nodes(*array);
        let ghost old_out = out.deep_view();
        match array_get(array, i) {
            Some(v) => match value_as_str(v) {
                Some(s) => {
                    proof {
                        assert(nodes[i as int] == TomlNode::Text(s@));
                    }
                    out.push(s);
                    proof {
                        assert(out.deep_view() =~= old_out.push(nodes[i as int]->Text_0));
                    }
                },
                None => {
                    proof {
                        assert(!(nodes[i as int] is Text));
                    }
                },
            },
            None => {
                proof {
                    assert(nodes[i as int] == TomlNode::Other);
                }
            },
        }
        i = i + 1;
        proof {
            let cur = nodes.take(i as int);
            assert(cur.drop_last() =~= nodes.take(i as int - 1));
            assert(cur.last() == nodes[i as int - 1]);
        }
    }
    proof {
        assert(array_nodes(*array).take(i as int) =~= array_nodes(*array));
    }
    out
}

/// What the facts of a manifest document are, over its root table: which
/// tables are present, the package's name and `version` field, the shared
/// workspace version, and the string entries of the members array.
pub open spec fn facts_match_root(root: Map<Seq<char>, TomlNode>, f: ManifestFacts) -> bool {
    &&& f.has_package == root.contains_key("package"@)
    &&& opt_str_matches(opt_text(opt_node_get(root_get(root, "package"@), "name"@)), f.package_name)
    &&& match opt_node_get(root_get(root, "package"@), "version"@) {
        Some(n) => version_field_matches(n, f.package_version),
        None => f.package_version is Absent,
    }
    &&& f.has_workspace == root.contains_key("workspace"@)
    &&& f.has_workspace_package == (opt_node_get(root_get(root, "workspace"@), "package"@) is Some)
    &&& opt_str_matches(
        opt_text(
            opt_node_get(opt_node_get(root_get(root, "workspace"@), "package"@), "version"@),
        ),
        f.workspace_package_version,
    )
    &&& match opt_node_get(root_get(root, "workspace"@), "members"@) {
        Some(TomlNode::List(l)) => f.members matches Some(v) && v.deep_view()
            == spec_string_entries(l),
        _ => f.members is None,
    }
}

/// Reduces a manifest document to the plain values the release logic reads:
/// the returned facts are the facts of the parsed document, and parsing fails
/// exactly on text that is not well-formed TOML.
pub fn manifest_facts_from_str(content: &str) -> (r: Option<ManifestFacts>)
    ensures
        r is Some <==> spec_parsed_doc(content@) is Some,
        r matches Some(f) ==> (spec_parsed_doc(content@) matches Some(root) && facts_match_root(
            root,
            f,
        )),
{
    let doc = match parse_toml_document(content) {
        Some(d) => d,
        None => {
            return None;
        },
    };
    let ghost root = doc_node(doc);
    let has_package: bool;
    let mut package_name: Option<String> = None;
    let mut package_version = VersionField::Absent;
    match doc_get(&doc, "package") {
        Some(package) => {
            has_package = true;
            match item_get(package, "name") {
                Some(n) => {
                    package_name = item_as_str(n);
                },
                None => {},
            }
            match item_get(package, "version") {
                Some(v) => {
                    package_version = version_field_of_item(v);
                },
                None => {},
            }
        },
        None => {
            has_package = false;
        },
    }
    let has_workspace: bool;
    let mut has_workspace_package = false;
    let mut workspace_package_version: Option<String> = None;
    let mut members: Option<Vec<String>> = None;
    match doc_get(&doc, "workspace") {
        Some(workspace) => {
            has_workspace = true;
            match item_get(workspace, "package") {
                Some(wp) => {
                    has_workspace_package = true;
                    match item_get(wp, "version") {
                        Some(v) => {
                            workspace_package_version = item_as_str(v);
                        },
                        None => {},
                    }
                },
                None => {},
            }
            match item_get(workspace, "members") {
                Some(m) => match item_as_array(m) {
                    Some(arr) => {
                        members = Some(string_members(arr));
                    },
                    None => {},
                },
                None => {},
            }
        },
        None => {
            has_workspace = false;
        },
    }
    Some(
        ManifestFacts {
            has_package,
            package_name,
            package_version,
            has_workspace,
            has_workspace_package,
            workspace_package_version,
            members,
        },
    )
}

/// The version a manifest document records, over its root table: the literal
/// `[package]` version when there is one, else the `[workspace.package]`
/// version.
pub open spec fn spec_root_version(root: Map<Seq<char>, TomlNode>) -> Option<Seq<char>> {
    match opt_node_get(root_get(root, "package"@), "version"@) {
        Some(TomlNode::Text(t)) => Some(t),
        _ => opt_text(
            opt_node_get(opt_node_get(root_get(root, "workspace"@), "package"@), "version"@),
        ),
    }
}

/// Facts that match a root table record the root table's version.
proof fn lemma_facts_version(root: Map<Seq<char>, TomlNode>, f: ManifestFacts)
    requires
        facts_match_root(root, f),
    ensures
        crate::manifest::spec_manifest_version(f) == spec_root_version(root),
{
    match opt_node_get(root_get(root, "package"@), "version"@) {
        Some(n) => {
            match n {
                TomlNode::Text(t) => {
                    assert(f.package_version matches VersionField::Literal(s) && s@ == t);
                },
                _ => {
                    assert(!(f.package_version is Literal));
                },
            }
        },
        None => {
            assert(f.package_version is Absent);
        },
    }
}

/// Reads the version a manifest document records: the literal `[package]`
/// version, else the shared `[workspace.package]` version. Absence is not an
/// error, but text that is not well-formed TOML is.
pub fn read_version_from_str(content: &str) -> (r: Result<Option<String>, ManifestError>)
    ensures
        r is Err <==> spec_parsed_doc(content@) is None,
        r is Err ==> r matches Err(ManifestError::Unparseable),
        r matches Ok(o) ==> (spec_parsed_doc(content@) matches Some(root) && opt_str_matches(
            spec_root_version(root),
            o,
        )),
{
    match manifest_facts_from_str(content) {
        None => Err(ManifestError::Unparseable),
        Some(f) => {
            proof {
                let root = spec_parsed_doc(content@)->Some_0;
                lemma_facts_version(root, f);
            }
            Ok(crate::manifest::manifest_version(&f))
        },
    }
}

} // verus!
