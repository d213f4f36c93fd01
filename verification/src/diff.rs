//! Line-difference counts between two texts, for the status report: how
//! many lines one side adds and removes relative to the other.

use vstd::prelude::*;

use crate::text::{dec_string, push_char, spec_dec};

verus! {

/// One line of a computed difference: kept, removed, or added.
#[derive(Clone, Copy, PartialEq, Eq, Structural, Debug)]
pub enum ChangeKind {
    Equal,
    Delete,
    Insert,
}

/// The per-line difference of two texts.  Computed by an outside
/// algorithm; a function of the two texts alone.
pub uninterp spec fn line_diff_of(a: Seq<char>, b: Seq<char>) -> Seq<ChangeKind>;

/// Relies on similar's `TextDiff::from_lines` and `iter_all_changes`: the
/// line diff of two texts, each change tag converted one-for-one.
#[verifier::external_body]
fn diff_changes(a: &str, b: &str) -> (r: Vec<ChangeKind>)
    ensures
        r@ == line_diff_of(a@, b@),
{
    similar::TextDiff::from_lines(a, b).iter_all_changes().map(
        |c| match c.tag() {
            similar::ChangeTag::Equal => ChangeKind::Equal,
            similar::ChangeTag::Delete => ChangeKind::Delete,
            similar::ChangeTag::Insert => ChangeKind::Insert,
        },
    ).collect()
}

/// How many lines were added.
pub open spec fn spec_insert_count(s: Seq<ChangeKind>) -> nat
    decreases s.len(),
{
    if s.len() == 0 {
        0
    } else {
        spec_insert_count(s.drop_last()) + if s.last() is Insert {
            1nat
        } else {
            0nat
        }
    }
}

/// How many lines were removed.
pub open spec fn spec_delete_count(s: Seq<ChangeKind>) -> nat
    decreases s.len(),
{
    if s.len() == 0 {
        0
    } else {
        spec_delete_count(s.drop_last()) + if s.last() is Delete {
            1nat
        } else {
            0nat
        }
    }
}

proof fn lemma_change_counts_bounded(s: Seq<ChangeKind>)
    ensures
        spec_insert_count(s) <= s.len(),
        spec_delete_count(s) <= s.len(),
    decreases s.len(),
{
    if s.len() > 0 {
        lemma_change_counts_bounded(s.drop_last());
    }
}

/// The added and removed line counts of one comparison.
pub struct DiffResult {
    plus: usize,
    minus: usize,
}

impl DiffResult {
    /// How many lines the right side adds.
    pub closed spec fn spec_plus(&self) -> int {
        self.plus as int
    }

    /// How many lines the right side removes.
    pub closed spec fn spec_minus(&self) -> int {
        self.minus as int
    }

    /// The added-line count.
    pub fn plus_value(&self) -> (r: usize)
        ensures
            r == self.spec_plus(),
    {
        self.plus
    }

    /// The added-line count rendered as `+n`.
    pub fn plus(&self) -> (r: String)
        ensures
            r@ == seq!['+'] + spec_dec(self.spec_plus()),
    {
        let mut s = String::new();
        push_char(&mut s, '+');
        let r = s.concat(dec_string(self.plus as u64).as_str());
        proof {
            assert(r@ =~= seq!['+'] + spec_dec(self.spec_plus()));
        }
        r
    }

    /// The removed-line count rendered as `-n`.
    pub fn minus(&self) -> (r: String)
        ensures
            r@ == seq!['-'] + spec_dec(self.spec_minus()),
    {
        let mut s = String::new();
        push_char(&mut s, '-');
        let r = s.concat(dec_string(self.minus as u64).as_str());
        proof {
            assert(r@ =~= seq!['-'] + spec_dec(self.spec_minus()));
        }
        r
    }
}

/// Compare two texts line by line and count the added and removed lines.
pub fn diff(a: &str, b: &str) -> (r: DiffResult)
    ensures
        r.spec_plus() == spec_insert_count(line_diff_of(a@, b@)),
        r.spec_minus() == spec_delete_count(line_diff_of(a@, b@)),
{
    let changes = diff_changes(a, b);
    let n: usize = changes.len();
    let mut plus: usize = 0;
    let mut minus: usize = 0;
    let mut i: usize = 0;
    while i < n
        invariant
            i <= n,
            n == changes@.len(),
            plus == spec_insert_count(changes@.take(i as int)),
            minus == spec_delete_count(changes@.take(i as int)),
        decreases n - i,
    {
        proof {
            lemma_change_counts_bounded(changes@.take(i as int));
            assert(changes@.take(i + 1).drop_last() =~= changes@.take(i as int));
            assert(changes@.take(i + 1).last() == changes@[i as int]);
        }
        match changes[i] {
            ChangeKind::Insert => {
                plus = plus + 1;
            },
            ChangeKind::Delete => {
                minus = minus + 1;
            },
            ChangeKind::Equal => {},
        }
        i = i + 1;
    }
    proof {
        assert(changes@.take(n as int) =~= changes@);
    }
    DiffResult { plus, minus }
}

} // verus!
