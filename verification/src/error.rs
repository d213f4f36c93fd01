//! The error taxonomy: malformed configuration trees, unresolvable or
//! conflicting names, and a missing home directory.

use vstd::prelude::*;

verus! {

/// Everything that can go wrong while parsing or resolving a configuration.
///
/// Each payload carries the offending key or names, so a report can locate
/// the problem.
#[derive(Debug)]
pub enum PollenError {
    /// An endpoint node has an unexpected shape; holds the offending key.
    InvalidEndpoint(String),
    /// An endpoint option key outside the accepted set; holds the key.
    InvalidOption(String),
    /// A mapping value of an unsupported kind; holds the offending key.
    InvalidMapping(String),
    /// No home directory could be determined.
    HomeDirectoryNotSet,
    /// An alias equals an existing entry name; holds the alias.
    AliasConflict(String),
    /// Two entries share the same alias; holds the alias.
    DuplicateAlias(String),
    /// A dependency token resolves to no entry.
    MissingDependency { entry: String, token: String },
    /// The dependency graph has a cycle; holds the names of the entries
    /// that could not be ordered.
    CircularDependency(Vec<String>),
}

/// The mathematical model of a `PollenError`.
#[verifier::ext_equal]
pub enum ErrorModel {
    InvalidEndpoint(Seq<char>),
    InvalidOption(Seq<char>),
    InvalidMapping(Seq<char>),
    HomeDirectoryNotSet,
    AliasConflict(Seq<char>),
    DuplicateAlias(Seq<char>),
    MissingDependency { entry: Seq<char>, token: Seq<char> },
    CircularDependency(Seq<Seq<char>>),
}

impl View for PollenError {
    type V = ErrorModel;

    open spec fn view(&self) -> ErrorModel {
        match self {
            PollenError::InvalidEndpoint(k) => ErrorModel::InvalidEndpoint(k@),
            PollenError::InvalidOption(k) => ErrorModel::InvalidOption(k@),
            PollenError::InvalidMapping(k) => ErrorModel::InvalidMapping(k@),
            PollenError::HomeDirectoryNotSet => ErrorModel::HomeDirectoryNotSet,
            PollenError::AliasConflict(a) => ErrorModel::AliasConflict(a@),
            PollenError::DuplicateAlias(a) => ErrorModel::DuplicateAlias(a@),
            PollenError::MissingDependency { entry, token } => ErrorModel::MissingDependency {
                entry: entry@,
                token: token@,
            },
            PollenError::CircularDependency(names) => ErrorModel::CircularDependency(
                names.deep_view(),
            ),
        }
    }
}

/// Names joined by a comma and a space, for a readable report.
pub open spec fn spec_comma_join(names: Seq<Seq<char>>) -> Seq<char>
    decreases names.len(),
{
    if names.len() == 0 {
        Seq::empty()
    } else if names.len() == 1 {
        names[0]
    } else {
        names[0] + ", "@ + spec_comma_join(names.skip(1))
    }
}

/// The human-readable message of an error.
pub open spec fn spec_message(e: ErrorModel) -> Seq<char> {
    match e {
        ErrorModel::InvalidEndpoint(k) => "Invalid endpoint configuration: "@ + k,
        ErrorModel::InvalidOption(k) => "Unknown option: "@ + k,
        ErrorModel::InvalidMapping(k) => "Invalid mapping structure at key: "@ + k,
        ErrorModel::HomeDirectoryNotSet => "HOME environment variable is not set"@,
        ErrorModel::AliasConflict(a) => "Alias conflicts with existing entry name: "@ + a,
        ErrorModel::DuplicateAlias(a) => "Duplicate alias: "@ + a,
        ErrorModel::MissingDependency { entry, token } => "Entry '"@ + entry
            + "' depends on '"@ + token + "' which does not exist"@,
        ErrorModel::CircularDependency(names) => "Circular dependency detected involving entries: "@
            + spec_comma_join(names),
    }
}

/// Join names by a comma and a space.
pub fn comma_join(names: &Vec<String>) -> (r: String)
    ensures
        r@ == spec_comma_join(names.deep_view()),
{
    let mut out = String::new();
    let n: usize = names.len();
    if n == 0 {
        return out;
    }
    out = names[0].clone();
    let mut i: usize = 1;
    while i < n
        invariant
            1 <= i <= n,
            n == names.len(),
            out@ == spec_comma_join(names.deep_view().take(i as int)),
        decreases n - i,
    {
        out = out.concat(", ");
        out = out.concat(names[i].as_str());
        proof {
            lemma_comma_join_step(names.deep_view(), i as int);
        }
        i = i + 1;
    }
    proof {
        assert(names.deep_view().take(n as int) =~= names.deep_view());
    }
    out
}

proof fn lemma_comma_join_step(names: Seq<Seq<char>>, i: int)
    requires
        1 <= i < names.len(),
    ensures
        spec_comma_join(names.take(i + 1)) == spec_comma_join(names.take(i)) + ", "@ + names[i],
    decreases i,
{
    let a = names.take(i + 1);
    let b = names.take(i);
    if i == 1 {
        assert(a.skip(1) =~= seq![names[1]]);
        assert(spec_comma_join(a.skip(1)) == names[1]);
        assert(b =~= seq![names[0]]);
        assert(spec_comma_join(b) == names[0]);
        assert(spec_comma_join(a) == a[0] + ", "@ + spec_comma_join(a.skip(1)));
        assert(spec_comma_join(a) =~= spec_comma_join(b) + ", "@ + names[1]);
    } else {
        lemma_comma_join_step(names.skip(1), i - 1);
        assert(a.skip(1) =~= names.skip(1).take(i));
        assert(b.skip(1) =~= names.skip(1).take(i - 1));
        assert(spec_comma_join(a) == a[0] + ", "@ + spec_comma_join(a.skip(1)));
        assert(spec_comma_join(b) == b[0] + ", "@ + spec_comma_join(b.skip(1)));
        assert(spec_comma_join(a) =~= spec_comma_join(b) + ", "@ + names[i]);
    }
}

impl PollenError {
    /// A human-readable description of the error.
    pub fn message(&self) -> (r: String)
        ensures
            r@ == spec_message(self@),
    {
        match self {
            PollenError::InvalidEndpoint(k) => String::from_str(
                "Invalid endpoint configuration: ",
            ).concat(k.as_str()),
            PollenError::InvalidOption(k) => String::from_str("Unknown option: ").concat(
                k.as_str(),
            ),
            PollenError::InvalidMapping(k) => String::from_str(
                "Invalid mapping structure at key: ",
            ).concat(k.as_str()),
            PollenError::HomeDirectoryNotSet => String::from_str(
                "HOME environment variable is not set",
            ),
            PollenError::AliasConflict(a) => String::from_str(
                "Alias conflicts with existing entry name: ",
            ).concat(a.as_str()),
            PollenError::DuplicateAlias(a) => String::from_str("Duplicate alias: ").concat(
                a.as_str(),
            ),
            PollenError::MissingDependency { entry, token } => String::from_str("Entry '").concat(
                entry.as_str(),
            ).concat("' depends on '").concat(token.as_str()).concat(
                "' which does not exist",
            ),
            PollenError::CircularDependency(names) => String::from_str(
                "Circular dependency detected involving entries: ",
            ).concat(comma_join(names).as_str()),
        }
    }
}

} // verus!
