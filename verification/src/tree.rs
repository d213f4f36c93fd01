//! The configuration tree: a nested structure of names, sequences and
//! mappings, together with the grammar that turns it into a flat list of
//! entries.
//!
//! A node is one of: a plain name, a sequence of child nodes, or a mapping
//! from keys to child nodes.  A mapping is an *endpoint* — a leaf carrying
//! options — exactly when it has a single key whose value is a sequence all
//! of whose elements are single-key mappings drawn from the fixed option
//! set; any other shape is an intermediate level naming a subdirectory.

use vstd::prelude::*;

use crate::entry::EntryModel;
use crate::error::ErrorModel;
use crate::paths::spec_join;

verus! {

/// A node of the user-authored configuration tree.
#[derive(Debug)]
pub enum ConfigNode {
    /// A plain name: one tracked file or directory.
    Leaf(String),
    /// A sequence of child nodes.
    Sequence(Vec<ConfigNode>),
    /// A mapping from keys to child nodes, in authored order.
    Mapping(Vec<(String, ConfigNode)>),
}

/// The fixed set of endpoint option keys.
pub open spec fn spec_is_option_key(k: Seq<char>) -> bool {
    ||| k == "run_before"@
    ||| k == "run_after"@
    ||| k == "depends_on"@
    ||| k == "alias_as"@
}

/// An element of an endpoint's option sequence: a mapping with exactly one
/// key, drawn from the option set.
pub open spec fn spec_is_option_item(n: ConfigNode) -> bool {
    match n {
        ConfigNode::Mapping(ps) => ps@.len() == 1 && spec_is_option_key(ps@[0].0@),
        _ => false,
    }
}

/// Whether a mapping is an endpoint: a single key whose value is a sequence
/// all of whose elements are option items.
pub open spec fn spec_is_endpoint(pairs: Seq<(String, ConfigNode)>) -> bool {
    pairs.len() == 1 && match pairs[0].1 {
        ConfigNode::Sequence(items) => forall|i: int|
            0 <= i < items@.len() ==> spec_is_option_item(#[trigger] items@[i]),
        _ => false,
    }
}

/// A top-level key that stands for the home directory itself: `~`, or
/// `home` in any letter case.
pub open spec fn spec_is_home_token(k: Seq<char>) -> bool {
    ||| (k.len() == 1 && k[0] == '~')
    ||| (k.len() == 4 && (k[0] == 'h' || k[0] == 'H') && (k[1] == 'o' || k[1] == 'O') && (k[2]
        == 'm' || k[2] == 'M') && (k[3] == 'e' || k[3] == 'E'))
}

/// The entry produced for a plain name under a parent path: the name is the
/// identifier and the final path segment.
pub open spec fn spec_leaf_entry(name: Seq<char>, parent: Seq<char>) -> EntryModel {
    EntryModel {
        name: name,
        path: spec_join(parent, name),
        run_before: None,
        run_after: None,
        depends_on: Seq::empty(),
        alias_as: None,
    }
}

/// Dependency tokens: either a single name or a sequence of names.
pub open spec fn spec_parse_dependencies(value: ConfigNode, key: Seq<char>) -> Result<
    Seq<Seq<char>>,
    ErrorModel,
> {
    match value {
        ConfigNode::Leaf(s) => Ok(seq![s@]),
        ConfigNode::Sequence(items) => if forall|i: int|
            0 <= i < items@.len() ==> (#[trigger] items@[i]) is Leaf {
            Ok(Seq::new(items@.len(), |i: int| items@[i]->Leaf_0@))
        } else {
            Err(ErrorModel::InvalidEndpoint(key))
        },
        ConfigNode::Mapping(_) => Err(ErrorModel::InvalidEndpoint(key)),
    }
}

/// Apply one option item to an entry.  `ekey` names the endpoint, for error
/// reports on malformed items.
pub open spec fn spec_apply_option(e: EntryModel, opt: ConfigNode, ekey: Seq<char>) -> Result<
    EntryModel,
    ErrorModel,
> {
    match opt {
        ConfigNode::Mapping(ps) => if ps@.len() != 1 {
            Err(ErrorModel::InvalidMapping(ekey))
        } else {
            let k = ps@[0].0@;
            let v = ps@[0].1;
            if k == "run_before"@ {
                match v {
                    ConfigNode::Leaf(s) => Ok(EntryModel { run_before: Some(s@), ..e }),
                    _ => Err(ErrorModel::InvalidMapping(k)),
                }
            } else if k == "run_after"@ {
                match v {
                    ConfigNode::Leaf(s) => Ok(EntryModel { run_after: Some(s@), ..e }),
                    _ => Err(ErrorModel::InvalidMapping(k)),
                }
            } else if k == "depends_on"@ {
                match spec_parse_dependencies(v, k) {
                    Ok(ds) => Ok(EntryModel { depends_on: ds, ..e }),
                    Err(err) => Err(err),
                }
            } else if k == "alias_as"@ {
                match v {
                    ConfigNode::Leaf(s) => Ok(EntryModel { alias_as: Some(s@), ..e }),
                    _ => Err(ErrorModel::InvalidMapping(k)),
                }
            } else {
                Err(ErrorModel::InvalidOption(k))
            }
        },
        _ => Err(ErrorModel::InvalidEndpoint(ekey)),
    }
}

/// Apply a sequence of option items to an entry, left to right, stopping at
/// the first malformed one.
pub open spec fn spec_apply_options(e: EntryModel, opts: Seq<ConfigNode>, ekey: Seq<char>) -> Result<
    EntryModel,
    ErrorModel,
>
    decreases opts.len(),
{
    if opts.len() == 0 {
        Ok(e)
    } else {
        match spec_apply_option(e, opts[0], ekey) {
            Ok(e2) => spec_apply_options(e2, opts.subrange(1, opts.len() as int), ekey),
            Err(err) => Err(err),
        }
    }
}

/// The entry produced by an endpoint mapping `key: [options...]`.
pub open spec fn spec_endpoint_entry(key: Seq<char>, value: ConfigNode, parent: Seq<char>) -> Result<
    EntryModel,
    ErrorModel,
> {
    match value {
        ConfigNode::Sequence(items) => spec_apply_options(
            spec_leaf_entry(key, parent),
            items@,
            key,
        ),
        _ => Err(ErrorModel::InvalidEndpoint(key)),
    }
}

/// The entries produced by the children of a sequence node, in order,
/// stopping at the first malformed child.
pub open spec fn spec_entries_sequence(items: Seq<ConfigNode>, parent: Seq<char>) -> Result<
    Seq<EntryModel>,
    ErrorModel,
>
    decreases items, 0nat,
{
    if items.len() == 0 {
        Ok(Seq::empty())
    } else {
        let first = match items[0] {
            ConfigNode::Leaf(s) => Ok(seq![spec_leaf_entry(s@, parent)]),
            ConfigNode::Mapping(ps) => if spec_is_endpoint(ps@) {
                match spec_endpoint_entry(ps@[0].0@, ps@[0].1, parent) {
                    Ok(e) => Ok(seq![e]),
                    Err(err) => Err(err),
                }
            } else {
                spec_entries_mapping(ps@, parent, false)
            },
            ConfigNode::Sequence(_) => Err(ErrorModel::InvalidMapping(parent)),
        };
        match first {
            Err(err) => Err(err),
            Ok(es) => match spec_entries_sequence(
                items.subrange(1, items.len() as int),
                parent,
            ) {
                Err(err) => Err(err),
                Ok(rest) => Ok(es + rest),
            },
        }
    }
}

/// The entries produced by the pairs of a mapping node, in order, stopping
/// at the first malformed pair.  A string value stands for itself under the
/// parent path; a sequence value opens a subdirectory named by the key; at
/// the top level, a home token opens the base directory itself.
pub open spec fn spec_entries_mapping(
    pairs: Seq<(String, ConfigNode)>,
    parent: Seq<char>,
    top: bool,
) -> Result<Seq<EntryModel>, ErrorModel>
    decreases pairs, 1nat,
{
    if pairs.len() == 0 {
        Ok(Seq::empty())
    } else {
        let k = pairs[0].0@;
        let first = match pairs[0].1 {
            ConfigNode::Leaf(s) => Ok(seq![spec_leaf_entry(s@, parent)]),
            ConfigNode::Sequence(items) => spec_entries_sequence(
                items@,
                if top && spec_is_home_token(k) {
                    parent
                } else {
                    spec_join(parent, k)
                },
            ),
            ConfigNode::Mapping(_) => Err(ErrorModel::InvalidMapping(k)),
        };
        match first {
            Err(err) => Err(err),
            Ok(es) => match spec_entries_mapping(
                pairs.subrange(1, pairs.len() as int),
                parent,
                top,
            ) {
                Err(err) => Err(err),
                Ok(rest) => Ok(es + rest),
            },
        }
    }
}

/// The flat entry list of a whole configuration tree, whose root must be a
/// mapping, resolved against the given base directory.
pub open spec fn spec_parse_tree(root: ConfigNode, home: Seq<char>) -> Result<
    Seq<EntryModel>,
    ErrorModel,
> {
    match root {
        ConfigNode::Mapping(ps) => spec_entries_mapping(ps@, home, true),
        _ => Err(ErrorModel::InvalidMapping("root"@)),
    }
}

} // verus!
