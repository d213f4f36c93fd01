//! Tracked entries: one file or directory under management, with its
//! resolved system path, optional alias, shell hooks and dependencies.

use vstd::prelude::*;

verus! {

/// One tracked file or directory.
#[derive(Debug)]
pub struct Entry {
    /// Canonical identifier; also the default copy-target filename.
    pub name: String,
    /// Absolute resolved system location.
    pub path: String,
    /// Shell command run before transferring this entry.
    pub run_before: Option<String>,
    /// Shell command run after transferring this entry.
    pub run_after: Option<String>,
    /// Names or aliases of entries that must be processed first.
    pub depends_on: Vec<String>,
    /// Optional shorter reference name.
    pub alias_as: Option<String>,
}

/// The mathematical model of an `Entry`: each string as a sequence of characters.
#[verifier::ext_equal]
pub struct EntryModel {
    pub name: Seq<char>,
    pub path: Seq<char>,
    pub run_before: Option<Seq<char>>,
    pub run_after: Option<Seq<char>>,
    pub depends_on: Seq<Seq<char>>,
    pub alias_as: Option<Seq<char>>,
}

impl View for Entry {
    type V = EntryModel;

    open spec fn view(&self) -> EntryModel {
        EntryModel {
            name: self.name@,
            path: self.path@,
            run_before: self.run_before.deep_view(),
            run_after: self.run_after.deep_view(),
            depends_on: self.depends_on.deep_view(),
            alias_as: self.alias_as.deep_view(),
        }
    }
}

/// The display name of an entry: its alias when one is set, else its name.
pub open spec fn spec_display_name(e: EntryModel) -> Seq<char> {
    match e.alias_as {
        Some(a) => a,
        None => e.name,
    }
}

/// Whether a token refers to this entry, either by name or by alias.
pub open spec fn spec_matches_name(e: EntryModel, token: Seq<char>) -> bool {
    e.name == token || e.alias_as == Some(token)
}

/// Arguments for creating a new `Entry`.
#[derive(Debug)]
pub struct EntryArgument {
    pub name: String,
    pub path: String,
}

impl Entry {
    /// Create a new entry with no options set.
    pub fn new(entry: EntryArgument) -> (r: Entry)
        ensures
            r@ == (EntryModel {
                name: entry.name@,
                path: entry.path@,
                run_before: None,
                run_after: None,
                depends_on: Seq::empty(),
                alias_as: None,
            }),
    {
        let e = Entry {
            name: entry.name,
            path: entry.path,
            run_before: None,
            run_after: None,
            depends_on: Vec::new(),
            alias_as: None,
        };
        proof {
            assert(e@.depends_on =~= Seq::<Seq<char>>::empty());
        }
        e
    }

    /// Set the command to run before transferring this entry.
    pub fn with_run_before(self, command: String) -> (r: Self)
        ensures
            r@ == (EntryModel { run_before: Some(command@), ..self@ }),
    {
        Entry { run_before: Some(command), ..self }
    }

    /// Set the command to run after transferring this entry.
    pub fn with_run_after(self, command: String) -> (r: Self)
        ensures
            r@ == (EntryModel { run_after: Some(command@), ..self@ }),
    {
        Entry { run_after: Some(command), ..self }
    }

    /// Append one dependency token.
    pub fn add_dependency(self, dependency: String) -> (r: Self)
        ensures
            r@ == (EntryModel { depends_on: self@.depends_on.push(dependency@), ..self@ }),
    {
        let ghost m = self@;
        let mut e = self;
        e.depends_on.push(dependency);
        proof {
            assert(e@.depends_on =~= m.depends_on.push(dependency@));
        }
        e
    }

    /// Replace the dependency tokens.
    pub fn with_dependencies(self, dependencies: Vec<String>) -> (r: Self)
        ensures
            r@ == (EntryModel { depends_on: dependencies.deep_view(), ..self@ }),
    {
        Entry { depends_on: dependencies, ..self }
    }

    /// Set an alias for this entry.
    pub fn with_alias(self, alias: String) -> (r: Self)
        ensures
            r@ == (EntryModel { alias_as: Some(alias@), ..self@ }),
    {
        Entry { alias_as: Some(alias), ..self }
    }

    /// The alias when one is set, else the entry name.
    pub fn get_display_name(&self) -> (r: &str)
        ensures
            r@ == spec_display_name(self@),
    {
        match &self.alias_as {
            Some(a) => a.as_str(),
            None => self.name.as_str(),
        }
    }

    /// Whether `name` refers to this entry, either by name or by alias.
    pub fn matches_name(&self, name: &str) -> (r: bool)
        ensures
            r == spec_matches_name(self@, name@),
    {
        let token = name.to_owned();
        if self.name == token {
            true
        } else {
            match &self.alias_as {
                Some(a) => *a == token,
                None => false,
            }
        }
    }
}

} // verus!
