//! The configuration parser: walks a configuration tree and produces the
//! flat entry list that the grammar in `tree` describes.

use vstd::prelude::*;

use crate::entry::{Entry, EntryArgument, EntryModel, spec_matches_name};
use crate::error::{ErrorModel, PollenError};
use crate::paths::path_join;
use crate::resolve::{spec_match_before, spec_resolution_post};
use crate::tree::{
    ConfigNode, spec_apply_option, spec_apply_options, spec_endpoint_entry, spec_entries_mapping,
    spec_entries_sequence, spec_is_endpoint, spec_is_home_token, spec_is_option_item,
    spec_leaf_entry, spec_parse_dependencies, spec_parse_tree,
};

verus! {

/// The models of a list of entries.
pub open spec fn entry_models(s: Seq<Entry>) -> Seq<EntryModel> {
    s.map_values(|e: Entry| e@)
}

/// Parser for configuration trees, resolving paths against a home directory.
#[derive(Debug)]
pub struct ConfigParser {
    home_dir: String,
}

impl ConfigParser {
    /// The base directory against which relative paths are resolved.
    pub closed spec fn spec_home(&self) -> Seq<char> {
        self.home_dir@
    }

    /// Create a parser.  Fails when no home directory is available.
    pub fn new(home_dir: Option<String>) -> (r: Result<ConfigParser, PollenError>)
        ensures
            match home_dir {
                Some(h) => r is Ok && r->Ok_0.spec_home() == h@,
                None => r is Err && r->Err_0@ == ErrorModel::HomeDirectoryNotSet,
            },
    {
        match home_dir {
            Some(h) => Ok(ConfigParser { home_dir: h }),
            None => Err(PollenError::HomeDirectoryNotSet),
        }
    }

    /// The base directory against which relative paths are resolved.
    pub fn home_dir(&self) -> (r: &str)
        ensures
            r@ == self.spec_home(),
    {
        self.home_dir.as_str()
    }

    /// Push the entry a plain name yields under a parent path.
    fn handle_string(&self, entries: &mut Vec<Entry>, string: String, parent: &str)
        ensures
            entry_models(final(entries)@) == entry_models(old(entries)@).push(
                spec_leaf_entry(string@, parent@),
            ),
    {
        let path = path_join(parent, string.as_str());
        let e = Entry::new(EntryArgument { name: string, path });
        entries.push(e);
        proof {
            assert(entry_models(final(entries)@) =~= entry_models(old(entries)@).push(e@));
        }
    }

    /// Dependency tokens of a `depends_on` option: a single name or a
    /// sequence of names.
    #[verifier::loop_isolation(false)]
    fn parse_dependencies(&self, value: &ConfigNode, key: &String) -> (r: Result<
        Vec<String>,
        PollenError,
    >)
        ensures
            match spec_parse_dependencies(*value, key@) {
                Ok(ds) => r is Ok && r->Ok_0.deep_view() == ds,
                Err(e) => r is Err && r->Err_0@ == e,
            },
    {
        match value {
            ConfigNode::Leaf(s) => {
                let deps = vec![s.clone()];
                proof {
                    assert(deps.deep_view() =~= seq![s@]);
                }
                Ok(deps)
            },
            ConfigNode::Sequence(items) => {
                let mut deps: Vec<String> = Vec::new();
                let n: usize = items.len();
                let mut i: usize = 0;
                while i < n
                    invariant
                        i <= n,
                        n == items@.len(),
                        deps@.len() == i,
                        forall|j: int| 0 <= j < i ==> (#[trigger] items@[j]) is Leaf,
                        forall|j: int|
                            0 <= j < i ==> (#[trigger] deps@[j])@ == items@[j]->Leaf_0@,
                    decreases n - i,
                {
                    match &items[i] {
                        ConfigNode::Leaf(s) => {
                            deps.push(s.clone());
                        },
                        _ => {
                            proof {
                                assert(!((items@[i as int]) is Leaf));
                            }
                            return Err(PollenError::InvalidEndpoint(key.clone()));
                        },
                    }
                    i = i + 1;
                }
                proof {
                    assert(deps.deep_view() =~= Seq::new(n as nat, |j: int| items@[j]->Leaf_0@));
                }
                Ok(deps)
            },
            ConfigNode::Mapping(_) => Err(PollenError::InvalidEndpoint(key.clone())),
        }
    }

    /// Apply one option item to an entry.
    fn apply_option(&self, e: Entry, opt: &ConfigNode, ekey: &String) -> (r: Result<
        Entry,
        PollenError,
    >)
        ensures
            match spec_apply_option(e@, *opt, ekey@) {
                Ok(m) => r is Ok && r->Ok_0@ == m,
                Err(err) => r is Err && r->Err_0@ == err,
            },
    {
        match opt {
            ConfigNode::Mapping(ps) => {
                if ps.len() != 1 {
                    return Err(PollenError::InvalidMapping(ekey.clone()));
                }
                let k = &ps[0].0;
                let v = &ps[0].1;
                if *k == String::from_str("run_before") {
                    match v {
                        ConfigNode::Leaf(s) => {
                            let mut e2 = e;
                            e2.run_before = Some(s.clone());
                            Ok(e2)
                        },
                        _ => Err(PollenError::InvalidMapping(k.clone())),
                    }
                } else if *k == String::from_str("run_after") {
                    match v {
                        ConfigNode::Leaf(s) => {
                            let mut e2 = e;
                            e2.run_after = Some(s.clone());
                            Ok(e2)
                        },
                        _ => Err(PollenError::InvalidMapping(k.clone())),
                    }
                } else if *k == String::from_str("depends_on") {
                    match self.parse_dependencies(v, k) {
                        Ok(ds) => {
                            let mut e2 = e;
                            e2.depends_on = ds;
                            Ok(e2)
                        },
                        Err(err) => Err(err),
                    }
                } else if *k == String::from_str("alias_as") {
                    match v {
                        ConfigNode::Leaf(s) => {
                            let mut e2 = e;
                            e2.alias_as = Some(s.clone());
                            Ok(e2)
                        },
                        _ => Err(PollenError::InvalidMapping(k.clone())),
                    }
                } else {
                    Err(PollenError::InvalidOption(k.clone()))
                }
            },
            _ => Err(PollenError::InvalidEndpoint(ekey.clone())),
        }
    }

    /// Build the entry of an endpoint `key: [options...]` and push it.
    #[verifier::loop_isolation(false)]
    fn handle_endpoint(
        &self,
        entries: &mut Vec<Entry>,
        key: &String,
        value: &ConfigNode,
        parent: &str,
    ) -> (r: Result<(), PollenError>)
        ensures
            match spec_endpoint_entry(key@, *value, parent@) {
                Ok(m) => r is Ok && entry_models(final(entries)@) == entry_models(
                    old(entries)@,
                ).push(m),
                Err(err) => r is Err && r->Err_0@ == err,
            },
    {
        match value {
            ConfigNode::Sequence(items) => {
                let path = path_join(parent, key.as_str());
                let mut e = Entry::new(EntryArgument { name: key.clone(), path });
                let ghost e0 = e@;
                let n: usize = items.len();
                proof {
                    assert(items@.subrange(0, n as int) =~= items@);
                }
                let mut i: usize = 0;
                while i < n
                    invariant
                        i <= n,
                        n == items@.len(),
                        spec_apply_options(e0, items@, key@) == spec_apply_options(
                            e@,
                            items@.subrange(i as int, n as int),
                            key@,
                        ),
                    decreases n - i,
                {
                    let ghost rem = items@.subrange(i as int, n as int);
                    proof {
                        assert(rem[0] == items@[i as int]);
                        assert(rem.subrange(1, rem.len() as int) =~= items@.subrange(
                            i + 1,
                            n as int,
                        ));
                    }
                    match self.apply_option(e, &items[i], key) {
                        Ok(e2) => {
                            e = e2;
                        },
                        Err(err) => {
                            return Err(err);
                        },
                    }
                    i = i + 1;
                }
                proof {
                    assert(items@.subrange(n as int, n as int) =~= Seq::<ConfigNode>::empty());
                }
                entries.push(e);
                proof {
                    assert(entry_models(final(entries)@) =~= entry_models(old(entries)@).push(
                        e@,
                    ));
                }
                Ok(())
            },
            _ => Err(PollenError::InvalidEndpoint(key.clone())),
        }
    }

    /// Whether a mapping is an endpoint rather than a subdirectory level.
    #[verifier::loop_isolation(false)]
    fn is_an_endpoint(&self, pairs: &Vec<(String, ConfigNode)>) -> (r: bool)
        ensures
            r == spec_is_endpoint(pairs@),
    {
        if pairs.len() != 1 {
            return false;
        }
        match &pairs[0].1 {
            ConfigNode::Sequence(items) => {
                let n: usize = items.len();
                let mut i: usize = 0;
                while i < n
                    invariant
                        i <= n,
                        n == items@.len(),
                        forall|j: int| 0 <= j < i ==> spec_is_option_item(#[trigger] items@[j]),
                    decreases n - i,
                {
                    match &items[i] {
                        ConfigNode::Mapping(ps) => {
                            if ps.len() != 1 {
                                proof {
                                    assert(!spec_is_option_item(items@[i as int]));
                                }
                                return false;
                            }
                            let k = &ps[0].0;
                            let ok = *k == String::from_str("run_before") || *k
                                == String::from_str("run_after") || *k == String::from_str(
                                "depends_on",
                            ) || *k == String::from_str("alias_as");
                            if !ok {
                                proof {
                                    assert(!spec_is_option_item(items@[i as int]));
                                }
                                return false;
                            }
                            proof {
                                assert(spec_is_option_item(items@[i as int]));
                            }
                        },
                        _ => {
                            proof {
                                assert(!spec_is_option_item(items@[i as int]));
                            }
                            return false;
                        },
                    }
                    i = i + 1;
                }
                true
            },
            _ => false,
        }
    }

    /// Walk the children of a sequence node, appending their entries.
    fn handle_sequence(
        &self,
        entries: &mut Vec<Entry>,
        items: &Vec<ConfigNode>,
        parent: &str,
    ) -> (r: Result<(), PollenError>)
        ensures
            match spec_entries_sequence(items@, parent@) {
                Ok(es) => r is Ok && entry_models(final(entries)@) == entry_models(old(entries)@)
                    + es,
                Err(err) => r is Err && r->Err_0@ == err,
            },
        decreases items@, 0nat,
    {
        let n: usize = items.len();
        let mut i: usize = 0;
        let ghost mut acc: Seq<EntryModel> = Seq::empty();
        proof {
            assert(items@.subrange(0, n as int) =~= items@);
            assert(entry_models(entries@) =~= entry_models(old(entries)@) + acc);
        }
        while i < n
            invariant
                i <= n,
                n == items@.len(),
                entry_models(entries@) == entry_models(old(entries)@) + acc,
                match spec_entries_sequence(items@.subrange(i as int, n as int), parent@) {
                    Ok(rest) => spec_entries_sequence(items@, parent@) == Ok::<_, ErrorModel>(
                        acc + rest,
                    ),
                    Err(err) => spec_entries_sequence(items@, parent@) == Err::<
                        Seq<EntryModel>,
                        _,
                    >(err),
                },
            decreases n - i,
        {
            let ghost rem = items@.subrange(i as int, n as int);
            let ghost cur = entries@;
            let ghost acc0 = acc;
            let ghost mut step: Seq<EntryModel> = Seq::empty();
            proof {
                assert(rem[0] == items@[i as int]);
                assert(rem.subrange(1, rem.len() as int) =~= items@.subrange(i + 1, n as int));
            }
            match &items[i] {
                ConfigNode::Leaf(s) => {
                    self.handle_string(entries, s.clone(), parent);
                    proof {
                        step = seq![spec_leaf_entry(items@[i as int]->Leaf_0@, parent@)];
                        assert(entry_models(cur).push(
                            spec_leaf_entry(items@[i as int]->Leaf_0@, parent@),
                        ) =~= entry_models(cur) + step);
                    }
                },
                ConfigNode::Mapping(ps) => {
                    if self.is_an_endpoint(ps) {
                        match self.handle_endpoint(entries, &ps[0].0, &ps[0].1, parent) {
                            Ok(()) => {
                                proof {
                                    let m = spec_endpoint_entry(
                                        ps@[0].0@,
                                        ps@[0].1,
                                        parent@,
                                    )->Ok_0;
                                    step = seq![m];
                                    assert(entry_models(cur).push(m) =~= entry_models(cur)
                                        + step);
                                }
                            },
                            Err(err) => {
                                return Err(err);
                            },
                        }
                    } else {
                        proof {
                            assert(decreases_to!(items@ => items@[i as int]));
                            assert(decreases_to!(items@[i as int] => items@[i as int]->Mapping_0));
                            assert(decreases_to!(
                                items@[i as int]->Mapping_0 => items@[i as int]->Mapping_0@));
                        }
                        match self.recurse_over_mapping(entries, ps, parent, false) {
                            Ok(()) => {
                                proof {
                                    step = spec_entries_mapping(ps@, parent@, false)->Ok_0;
                                }
                            },
                            Err(err) => {
                                return Err(err);
                            },
                        }
                    }
                },
                ConfigNode::Sequence(_) => {
                    return Err(PollenError::InvalidMapping(parent.to_owned()));
                },
            }
            proof {
                acc = acc0 + step;
                assert(entry_models(entries@) =~= entry_models(old(entries)@) + acc);
                match spec_entries_sequence(items@.subrange(i + 1, n as int), parent@) {
                    Ok(rest2) => {
                        assert(spec_entries_sequence(rem, parent@) == Ok::<_, ErrorModel>(
                            step + rest2,
                        ));
                        assert(acc0 + (step + rest2) =~= acc + rest2);
                    },
                    Err(_) => {},
                }
            }
            i = i + 1;
        }
        proof {
            assert(items@.subrange(n as int, n as int) =~= Seq::<ConfigNode>::empty());
            assert(acc + Seq::<EntryModel>::empty() =~= acc);
        }
        Ok(())
    }

    /// Walk the pairs of a mapping node, appending their entries.  A string
    /// value stands for itself under the parent path; a sequence value opens
    /// a subdirectory named by the key; at the top level a home token opens
    /// the base directory itself.
    fn recurse_over_mapping(
        &self,
        entries: &mut Vec<Entry>,
        pairs: &Vec<(String, ConfigNode)>,
        parent: &str,
        top: bool,
    ) -> (r: Result<(), PollenError>)
        ensures
            match spec_entries_mapping(pairs@, parent@, top) {
                Ok(es) => r is Ok && entry_models(final(entries)@) == entry_models(old(entries)@)
                    + es,
                Err(err) => r is Err && r->Err_0@ == err,
            },
        decreases pairs@, 1nat,
    {
        let n: usize = pairs.len();
        let mut i: usize = 0;
        let ghost mut acc: Seq<EntryModel> = Seq::empty();
        proof {
            assert(pairs@.subrange(0, n as int) =~= pairs@);
            assert(entry_models(entries@) =~= entry_models(old(entries)@) + acc);
        }
        while i < n
            invariant
                i <= n,
                n == pairs@.len(),
                entry_models(entries@) == entry_models(old(entries)@) + acc,
                match spec_entries_mapping(pairs@.subrange(i as int, n as int), parent@, top) {
                    Ok(rest) => spec_entries_mapping(pairs@, parent@, top) == Ok::<_, ErrorModel>(
                        acc + rest,
                    ),
                    Err(err) => spec_entries_mapping(pairs@, parent@, top) == Err::<
                        Seq<EntryModel>,
                        _,
                    >(err),
                },
            decreases n - i,
        {
            let ghost rem = pairs@.subrange(i as int, n as int);
            let ghost cur = entries@;
            let ghost acc0 = acc;
            let ghost mut step: Seq<EntryModel> = Seq::empty();
            proof {
                assert(rem[0] == pairs@[i as int]);
                assert(rem.subrange(1, rem.len() as int) =~= pairs@.subrange(i + 1, n as int));
            }
            let pair = &pairs[i];
            match &pair.1 {
                ConfigNode::Leaf(s) => {
                    self.handle_string(entries, s.clone(), parent);
                    proof {
                        step = seq![spec_leaf_entry(pairs@[i as int].1->Leaf_0@, parent@)];
                        assert(entry_models(cur).push(
                            spec_leaf_entry(pairs@[i as int].1->Leaf_0@, parent@),
                        ) =~= entry_models(cur) + step);
                    }
                },
                ConfigNode::Sequence(items) => {
                    let child: String = if top && is_home_token(&pair.0) {
                        parent.to_owned()
                    } else {
                        path_join(parent, pair.0.as_str())
                    };
                    proof {
                        assert(decreases_to!(pairs@ => pairs@[i as int]));
                        assert(decreases_to!(pairs@[i as int] => pairs@[i as int].1));
                        assert(decreases_to!(
                            pairs@[i as int].1 => pairs@[i as int].1->Sequence_0));
                        assert(decreases_to!(
                            pairs@[i as int].1->Sequence_0 => pairs@[i as int].1->Sequence_0@));
                    }
                    match self.handle_sequence(entries, items, child.as_str()) {
                        Ok(()) => {
                            proof {
                                step = spec_entries_sequence(items@, child@)->Ok_0;
                            }
                        },
                        Err(err) => {
                            return Err(err);
                        },
                    }
                },
                ConfigNode::Mapping(_) => {
                    return Err(PollenError::InvalidMapping(pair.0.clone()));
                },
            }
            proof {
                acc = acc0 + step;
                assert(entry_models(entries@) =~= entry_models(old(entries)@) + acc);
                match spec_entries_mapping(pairs@.subrange(i + 1, n as int), parent@, top) {
                    Ok(rest2) => {
                        assert(spec_entries_mapping(rem, parent@, top) == Ok::<_, ErrorModel>(
                            step + rest2,
                        ));
                        assert(acc0 + (step + rest2) =~= acc + rest2);
                    },
                    Err(_) => {},
                }
            }
            i = i + 1;
        }
        proof {
            assert(pairs@.subrange(n as int, n as int) =~= Seq::<(String, ConfigNode)>::empty());
            assert(acc + Seq::<EntryModel>::empty() =~= acc);
        }
        Ok(())
    }
}

impl ConfigParser {
    /// Parse a whole configuration tree and return its entries in
    /// dependency order.  The tree's shape and options are validated while
    /// flattening; aliases, dependency tokens and the dependency graph are
    /// validated while ordering.
    pub fn parse_content(&self, root: &ConfigNode) -> (r: Result<Vec<Entry>, PollenError>)
        ensures
            match spec_parse_tree(*root, self.spec_home()) {
                Err(e) => r is Err && r->Err_0@ == e,
                Ok(es) => spec_resolution_post(es, r),
            },
    {
        match root {
            ConfigNode::Mapping(ps) => {
                let mut entries: Vec<Entry> = Vec::new();
                match self.recurse_over_mapping(&mut entries, ps, self.home_dir.as_str(), true) {
                    Ok(()) => {},
                    Err(e) => {
                        return Err(e);
                    },
                }
                proof {
                    let es = spec_entries_mapping(ps@, self.spec_home(), true)->Ok_0;
                    assert(entry_models(entries@) =~= Seq::<EntryModel>::empty() + es);
                    assert(entry_models(entries@) =~= es);
                }
                self.topological_sort(entries)
            },
            _ => Err(PollenError::InvalidMapping(String::from_str("root"))),
        }
    }
}

/// Check an already ordered list: no entry may precede a match for any of
/// its own dependency tokens.  This is the scanning detector for a
/// violated ordering.
pub fn verify_order(entries: &Vec<Entry>) -> (r: bool)
    ensures
        r == crate::resolve::spec_deps_before(entry_models(entries@)),
{
    let ghost s = entry_models(entries@);
    let n: usize = entries.len();
    let mut i: usize = 0;
    while i < n
        invariant
            i <= n,
            n == entries@.len(),
            s == entry_models(entries@),
            forall|i2: int, d2: int|
                0 <= i2 < i && 0 <= d2 < s[i2].depends_on.len() ==> #[trigger] spec_match_before(
                    s,
                    i2,
                    s[i2].depends_on[d2],
                ),
        decreases n - i,
    {
        let m: usize = entries[i].depends_on.len();
        let mut d: usize = 0;
        while d < m
            invariant
                d <= m,
                i < n,
                n == entries@.len(),
                s == entry_models(entries@),
                m == s[i as int].depends_on.len(),
                forall|d2: int|
                    0 <= d2 < d ==> #[trigger] spec_match_before(
                        s,
                        i as int,
                        s[i as int].depends_on[d2],
                    ),
            decreases m - d,
        {
            let token = &entries[i].depends_on[d];
            let mut found = false;
            let mut j: usize = 0;
            while j < i
                invariant
                    j <= i < n,
                    n == entries@.len(),
                    s == entry_models(entries@),
                    found <==> exists|j2: int|
                        0 <= j2 < j && spec_matches_name(#[trigger] s[j2], token@),
                decreases i - j,
            {
                if entries[j].matches_name(token.as_str()) {
                    found = true;
                    proof {
                        assert(spec_matches_name(s[j as int], token@));
                    }
                } else {
                    proof {
                        assert(!spec_matches_name(s[j as int], token@));
                    }
                }
                j = j + 1;
            }
            if !found {
                proof {
                    assert(s[i as int].depends_on[d as int] == token@);
                    assert(!spec_match_before(s, i as int, s[i as int].depends_on[d as int]));
                }
                return false;
            }
            proof {
                assert(spec_match_before(s, i as int, s[i as int].depends_on[d as int]));
            }
            d = d + 1;
        }
        i = i + 1;
    }
    true
}

/// Whether a key stands for the home directory itself.
pub fn is_home_token(k: &String) -> (r: bool)
    ensures
        r == spec_is_home_token(k@),
{
    let s = k.as_str();
    let n: usize = s.unicode_len();
    if n == 1 {
        s.get_char(0) == '~'
    } else if n == 4 {
        let c0 = s.get_char(0);
        let c1 = s.get_char(1);
        let c2 = s.get_char(2);
        let c3 = s.get_char(3);
        (c0 == 'h' || c0 == 'H') && (c1 == 'o' || c1 == 'O') && (c2 == 'm' || c2 == 'M') && (c3
            == 'e' || c3 == 'E')
    } else {
        false
    }
}

} // verus!
