//! Sets of glob patterns that select modules, sources, paths and packages
//! by name. Matching is done by the `globset` crate.

use globset::{GlobBuilder, GlobSet, GlobSetBuilder};
use vstd::prelude::*;

use crate::config::strings_view;

verus! {

#[verifier::external_type_specification]
#[verifier::external_body]
pub struct ExGlobSet(globset::GlobSet);

#[verifier::external_type_specification]
#[verifier::external_body]
pub struct ExGlobSetBuilder(globset::GlobSetBuilder);

#[verifier::external_type_specification]
#[verifier::external_body]
pub struct ExGlobError(globset::Error);

/// Whether `globset` accepts `pattern` as a glob in which `*` doesn't match
/// `/`.
pub uninterp spec fn glob_valid(pattern: Seq<char>) -> bool;

/// The patterns added to a glob set builder, in order.
pub uninterp spec fn builder_patterns(builder: GlobSetBuilder) -> Seq<Seq<char>>;

/// The number of globs in a glob set.
pub uninterp spec fn glob_set_len(set: GlobSet) -> nat;

/// Whether a glob set matches `candidate`.
pub uninterp spec fn glob_set_matches(set: GlobSet, candidate: Seq<char>) -> bool;

/// Whether `globset` builds a matcher from `patterns`.
pub uninterp spec fn glob_set_valid(patterns: Seq<Seq<char>>) -> bool;

/// Whether one of `patterns` matches `candidate`, as `globset` decides it.
pub uninterp spec fn glob_set_match(patterns: Seq<Seq<char>>, candidate: Seq<char>) -> bool;

/// Calls `GlobSetBuilder::new`, which makes a builder with no patterns.
#[verifier::external_body]
fn new_builder() -> (r: GlobSetBuilder)
    ensures
        builder_patterns(r) == Seq::<Seq<char>>::empty(),
{
    GlobSetBuilder::new()
}

/// Calls `GlobBuilder::new(pattern).literal_separator(true).build()` and
/// hands the glob to `GlobSetBuilder::add`. Claims: it succeeds exactly when
/// `glob_valid` holds of the pattern, and then the builder holds one more
/// pattern; on failure the builder is unchanged.
#[verifier::external_body]
fn add_pattern(builder: &mut GlobSetBuilder, pattern: &str) -> (r: Result<(), globset::Error>)
    ensures
        r is Ok == glob_valid(pattern@),
        r is Ok ==> builder_patterns(*final(builder)) == builder_patterns(*old(builder)).push(
            pattern@,
        ),
        r is Err ==> builder_patterns(*final(builder)) == builder_patterns(*old(builder)),
{
    let glob = GlobBuilder::new(pattern).literal_separator(true).build()?;
    builder.add(glob);
    Ok(())
}

/// Calls `GlobSetBuilder::build`. Claims: it succeeds exactly when
/// `glob_set_valid` holds of the builder's patterns; the set counts one
/// glob for each pattern and matches what one of the patterns matches.
#[verifier::external_body]
fn build_set(builder: &GlobSetBuilder) -> (r: Result<GlobSet, globset::Error>)
    ensures
        r is Ok == glob_set_valid(builder_patterns(*builder)),
        r matches Ok(set) ==> glob_set_len(set) == builder_patterns(*builder).len(),
        r matches Ok(set) ==> forall|c: Seq<char>| #[trigger]
            glob_set_matches(set, c) == glob_set_match(builder_patterns(*builder), c),
{
    builder.build()
}

/// Calls `GlobSet::is_empty`, which is true when the set has no glob.
#[verifier::external_body]
fn set_is_empty(set: &GlobSet) -> (r: bool)
    ensures
        r == (glob_set_len(*set) == 0),
{
    set.is_empty()
}

/// Calls `GlobSet::is_match`. Claims: the result is what the set matches,
/// and a set with no glob matches nothing.
#[verifier::external_body]
fn set_is_match(set: &GlobSet, candidate: &str) -> (r: bool)
    ensures
        r == glob_set_matches(*set, candidate@),
        glob_set_len(*set) == 0 ==> !r,
{
    set.is_match(candidate)
}

/// Calls `GlobSet::empty`, a set with no glob.
#[verifier::external_body]
fn empty_set() -> (r: GlobSet)
    ensures
        glob_set_len(r) == 0,
{
    GlobSet::empty()
}

/// Calls the `Display` impl of `globset::Error` for its message; nothing is
/// claimed of the text.
#[verifier::external_body]
fn error_message(err: &globset::Error) -> String {
    err.to_string()
}

/// Why glob patterns couldn't be used.
#[derive(Clone, Debug, PartialEq, Eq)]
pub enum GlobError {
    /// The pattern at `index` isn't a valid glob.
    InvalidPattern { index: usize, message: String },
    /// The patterns couldn't be combined into one matcher.
    InvalidSet { message: String },
}

/// A set of glob patterns; `*` doesn't match `/`.
pub struct Globs {
    set: GlobSet,
    patterns: Ghost<Seq<Seq<char>>>,
    match_if_empty: bool,
}

/// What a set of globs is: its patterns, and whether it matches everything
/// when it has none.
pub struct GlobsView {
    pub patterns: Seq<Seq<char>>,
    pub match_if_empty: bool,
}

impl View for Globs {
    type V = GlobsView;

    closed spec fn view(&self) -> GlobsView {
        GlobsView { patterns: self.patterns@, match_if_empty: self.match_if_empty }
    }
}

/// Whether `set` is the matcher built from `patterns`: as many globs, and
/// the same matches when there is a pattern.
pub open spec fn set_built_from(set: GlobSet, patterns: Seq<Seq<char>>) -> bool {
    &&& glob_set_len(set) == patterns.len()
    &&& patterns.len() > 0 ==> forall|c: Seq<char>| #[trigger]
        glob_set_matches(set, c) == glob_set_match(patterns, c)
}

/// Whether a set of globs matches `candidate`: an empty set matches
/// everything when it is permissive and nothing else, and a set with
/// patterns matches when one of them does.
pub open spec fn globs_match(globs: GlobsView, candidate: Seq<char>) -> bool {
    if globs.patterns.len() == 0 {
        globs.match_if_empty
    } else {
        glob_set_match(globs.patterns, candidate)
    }
}

/// The index of the first pattern that isn't a valid glob.
pub open spec fn first_invalid(patterns: Seq<Seq<char>>, index: int) -> bool {
    0 <= index < patterns.len() && !glob_valid(patterns[index]) && forall|j: int|
        0 <= j < index ==> glob_valid(#[trigger] patterns[j])
}

/// When building a set of globs from `patterns` succeeds.
pub open spec fn globs_build_ok(patterns: Seq<Seq<char>>) -> bool {
    (forall|j: int| 0 <= j < patterns.len() ==> glob_valid(#[trigger] patterns[j]))
        && glob_set_valid(patterns)
}

impl Globs {
    /// The matcher holds the globs of the patterns.
    #[verifier::type_invariant]
    closed spec fn inv(self) -> bool {
        set_built_from(self.set, self.patterns@)
    }

    /// A glob set with no patterns that matches nothing.
    pub fn empty() -> (r: Globs)
        ensures
            r@.patterns == Seq::<Seq<char>>::empty(),
            !r@.match_if_empty,
    {
        Globs { set: empty_set(), patterns: Ghost(Seq::empty()), match_if_empty: false }
    }

    /// Builds the matcher for `globs`, stopping at the first invalid one.
    fn set(globs: &Vec<String>) -> (r: Result<GlobSet, GlobError>)
        ensures
            match r {
                Ok(set) => globs_build_ok(strings_view(globs@)) && set_built_from(
                    set,
                    strings_view(globs@),
                ),
                Err(GlobError::InvalidPattern { index, .. }) => first_invalid(
                    strings_view(globs@),
                    index as int,
                ),
                Err(GlobError::InvalidSet { .. }) => (forall|j: int|
                    0 <= j < globs@.len() ==> glob_valid(#[trigger] strings_view(globs@)[j]))
                    && !glob_set_valid(strings_view(globs@)),
            },
    {
        let mut builder = new_builder();
        let mut i: usize = 0;
        while i < globs.len()
            invariant
                i <= globs.len(),
                builder_patterns(builder) == strings_view(globs@).subrange(0, i as int),
                forall|j: int| 0 <= j < i ==> glob_valid(#[trigger] strings_view(globs@)[j]),
            decreases globs.len() - i,
        {
            match add_pattern(&mut builder, globs[i].as_str()) {
                Ok(()) => {},
                Err(err) => {
                    return Err(GlobError::InvalidPattern { index: i, message: error_message(&err) });
                },
            }
            assert(strings_view(globs@).subrange(0, i + 1) =~= strings_view(globs@).subrange(
                0,
                i as int,
            ).push(globs@[i as int]@));
            i = i + 1;
        }
        assert(strings_view(globs@).subrange(0, globs@.len() as int) =~= strings_view(globs@));
        match build_set(&builder) {
            Ok(set) => Ok(set),
            Err(err) => Err(GlobError::InvalidSet { message: error_message(&err) }),
        }
    }

    /// A set of the patterns `globs` that matches nothing when it has none.
    pub fn strict(globs: &Vec<String>) -> (r: Result<Globs, GlobError>)
        ensures
            r is Ok == globs_build_ok(strings_view(globs@)),
            r matches Ok(g) ==> g@.patterns == strings_view(globs@) && !g@.match_if_empty,
            r matches Err(GlobError::InvalidPattern { index, .. }) ==> first_invalid(
                strings_view(globs@),
                index as int,
            ),
    {
        match Self::set(globs) {
            Ok(set) => Ok(Globs { set, patterns: Ghost(strings_view(globs@)), match_if_empty: false }),
            Err(e) => Err(e),
        }
    }

    /// A set of the patterns `globs` that matches everything when it has
    /// none.
    pub fn permissive(globs: &Vec<String>) -> (r: Result<Globs, GlobError>)
        ensures
            r is Ok == globs_build_ok(strings_view(globs@)),
            r matches Ok(g) ==> g@.patterns == strings_view(globs@) && g@.match_if_empty,
            r matches Err(GlobError::InvalidPattern { index, .. }) ==> first_invalid(
                strings_view(globs@),
                index as int,
            ),
    {
        match Self::set(globs) {
            Ok(set) => Ok(Globs { set, patterns: Ghost(strings_view(globs@)), match_if_empty: true }),
            Err(e) => Err(e),
        }
    }

    /// Whether the set matches `candidate`.
    pub fn is_match(&self, candidate: &str) -> (r: bool)
        ensures
            r == globs_match(self@, candidate@),
    {
        proof {
            use_type_invariant(self);
        }
        (self.match_if_empty && set_is_empty(&self.set)) || set_is_match(&self.set, candidate)
    }
}

} // verus!
