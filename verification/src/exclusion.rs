//! Which files a snapshot leaves out: component patterns, substring
//! patterns, file-name globs, and force-include overrides that beat them all.
use vstd::prelude::*;
use crate::paths::{contains_chars, contains_spec, file_name, file_name_spec, has_normal_component, path_body, path_parts, dot_dot};
use crate::text::{chars_of, chars_eq, char_vec_views, string_of, string_views};

verus! {

/// What the user configured for exclusion.
#[derive(Debug, Clone)]
pub struct ExclusionConfig {
    pub use_gitignore: bool,
    /// Without `/`: match exact path components. With `/`: substring match.
    pub exclude_patterns: Vec<String>,
    /// Matched against the file name only.
    pub exclude_globs: Vec<String>,
    /// Highest priority: always included regardless of other rules.
    pub force_include: Vec<String>,
}

impl ExclusionConfig {
    /// Honour `.gitignore`, and nothing else.
    pub fn default() -> (r: Self)
        ensures
            r.use_gitignore,
            r.exclude_patterns@.len() == 0,
            r.exclude_globs@.len() == 0,
            r.force_include@.len() == 0,
    {
        ExclusionConfig {
            use_gitignore: true,
            exclude_patterns: Vec::new(),
            exclude_globs: Vec::new(),
            force_include: Vec::new(),
        }
    }
}

/// The directories and files left out by default: regenerable, and
/// harmful when half restored.
pub open spec fn default_exclusions_spec() -> Seq<Seq<char>> {
    seq![
        ".git"@, ".hg"@, ".svn"@, "node_modules"@, "__pycache__"@, ".venv"@, "target"@,
        "build"@, "dist"@, "out"@, ".DS_Store"@, "Thumbs.db"@,
    ]
}

/// The default exclusion patterns.
pub fn default_exclusions() -> (r: Vec<String>)
    ensures
        string_views(r@) == default_exclusions_spec(),
{
    let mut v: Vec<String> = Vec::new();
    v.push(String::from_str(".git"));
    v.push(String::from_str(".hg"));
    v.push(String::from_str(".svn"));
    v.push(String::from_str("node_modules"));
    v.push(String::from_str("__pycache__"));
    v.push(String::from_str(".venv"));
    v.push(String::from_str("target"));
    v.push(String::from_str("build"));
    v.push(String::from_str("dist"));
    v.push(String::from_str("out"));
    v.push(String::from_str(".DS_Store"));
    v.push(String::from_str("Thumbs.db"));
    proof {
        assert(string_views(v@) =~= default_exclusions_spec());
    }
    v
}

/// Does one pattern match the path? A pattern holding `/` matches as a
/// substring of the whole path; any other pattern must equal one of the
/// path's name components.
pub open spec fn pattern_matches(path: Seq<char>, pattern: Seq<char>) -> bool {
    if pattern.contains('/') {
        contains_spec(path, pattern)
    } else {
        has_normal_component(path, pattern)
    }
}

/// Does any of the patterns match the path?
pub open spec fn any_pattern_matches(path: Seq<char>, patterns: Seq<Seq<char>>) -> bool {
    exists|i: int| 0 <= i < patterns.len() && pattern_matches(path, #[trigger] patterns[i])
}

/// Does the pattern hold a `/`?
fn has_slash(p: &Vec<char>) -> (r: bool)
    ensures
        r == p@.contains('/'),
{
    let mut i: usize = 0;
    while i < p.len()
        invariant
            i <= p@.len(),
            forall|k: int| 0 <= k < i ==> p@[k] != '/',
        decreases p.len() - i,
    {
        if p[i] == '/' {
            assert(p@[i as int] == '/');
            return true;
        }
        i = i + 1;
    }
    false
}

/// Does one pattern match the path?
fn pattern_matches_exec(path: &str, pattern: &String) -> (r: bool)
    ensures
        r == pattern_matches(path@, pattern@),
{
    let pat = chars_of(pattern.as_str());
    if has_slash(&pat) {
        let hay = chars_of(path);
        return contains_chars(&hay, &pat);
    }
    let parts = path_parts(path);
    let ghost body = path_body(path@);
    let is_dot_dot = pat.len() == 2 && pat[0] == '.' && pat[1] == '.';
    proof {
        if is_dot_dot {
            assert(pat@ =~= dot_dot());
        } else if pat@ == dot_dot() {
            assert(pat@[0] == '.' && pat@[1] == '.');
        }
    }
    if is_dot_dot {
        return false;
    }
    let mut i: usize = 0;
    while i < parts.body.len()
        invariant
            body == path_body(path@),
            char_vec_views(parts.body@) == body,
            pat@ == pattern@,
            pat@ != dot_dot(),
            !pat@.contains('/'),
            i <= body.len(),
            forall|k: int| 0 <= k < i ==> body[k] != pat@,
        decreases parts.body.len() - i,
    {
        proof {
            assert(body[i as int] == parts.body@[i as int]@);
        }
        if chars_eq(&parts.body[i], &pat) {
            proof {
                assert(path_body(path@)[i as int] == pattern@);
            }
            return true;
        }
        i = i + 1;
    }
    false
}

/// Does any pattern match the path?
pub fn matches_any_pattern(path: &str, patterns: &[String]) -> (r: bool)
    ensures
        r == any_pattern_matches(path@, string_views(patterns@)),
{
    let mut i: usize = 0;
    while i < patterns.len()
        invariant
            i <= patterns@.len(),
            forall|k: int| 0 <= k < i ==> !pattern_matches(path@, #[trigger] string_views(patterns@)[k]),
        decreases patterns.len() - i,
    {
        if pattern_matches_exec(path, &patterns[i]) {
            proof {
                assert(string_views(patterns@)[i as int] == patterns@[i as int]@);
            }
            return true;
        }
        proof {
            assert(string_views(patterns@)[i as int] == patterns@[i as int]@);
        }
        i = i + 1;
    }
    false
}

#[verifier::external_type_specification]
#[verifier::external_body]
pub struct ExGlob(globset::Glob);

#[verifier::external_type_specification]
#[verifier::external_body]
pub struct ExGlobSet(globset::GlobSet);

#[verifier::external_type_specification]
#[verifier::external_body]
pub struct ExGlobSetBuilder(globset::GlobSetBuilder);

#[verifier::external_type_specification]
#[verifier::external_body]
pub struct ExGlobError(globset::Error);

/// The pattern text a compiled glob holds.
pub uninterp spec fn glob_text(g: globset::Glob) -> Seq<char>;

/// The pattern texts a glob-set builder holds, in the order added.
pub uninterp spec fn builder_globs(b: globset::GlobSetBuilder) -> Seq<Seq<char>>;

/// Whether `Glob::new` accepts a pattern.
pub uninterp spec fn glob_parses(pattern: Seq<char>) -> bool;

/// Whether one glob pattern matches a candidate path (the per-glob test
/// behind `GlobSet::is_match`).
pub uninterp spec fn glob_matches(pattern: Seq<char>, candidate: Seq<char>) -> bool;

/// Whether `GlobSetBuilder::build` succeeds on a builder holding these
/// patterns, in this order.
pub uninterp spec fn globset_builds(patterns: Seq<Seq<char>>) -> bool;

/// Whether a built glob set matches a candidate path (`GlobSet::is_match`).
pub uninterp spec fn set_matches(s: globset::GlobSet, candidate: Seq<char>) -> bool;

/// Does any of the globs match the candidate?
pub open spec fn any_glob_matches(globs: Seq<Seq<char>>, candidate: Seq<char>) -> bool {
    exists|i: int| 0 <= i < globs.len() && glob_matches(#[trigger] globs[i], candidate)
}

/// Compiles one glob pattern.
///
/// Trusted: wraps `globset::Glob::new`. Claims that it succeeds exactly on
/// the patterns it accepts, and that the glob it gives back holds the pattern
/// text (`Glob::glob` returns the pattern it was built from).
#[verifier::external_body]
fn glob_new(pattern: &str) -> (r: Result<globset::Glob, globset::Error>)
    ensures
        r is Ok == glob_parses(pattern@),
        r matches Ok(g) ==> glob_text(g) == pattern@,
{
    globset::Glob::new(pattern)
}

/// An empty glob-set builder.
///
/// Trusted: wraps `globset::GlobSetBuilder::new`, which starts with no
/// patterns.
#[verifier::external_body]
fn builder_new() -> (r: globset::GlobSetBuilder)
    ensures
        builder_globs(r) == Seq::<Seq<char>>::empty(),
{
    globset::GlobSetBuilder::new()
}

/// Adds a glob to a builder.
///
/// Trusted: wraps `globset::GlobSetBuilder::add`, which pushes the glob
/// onto the builder's list.
#[verifier::external_body]
fn builder_add(b: &mut globset::GlobSetBuilder, g: globset::Glob)
    ensures
        builder_globs(*final(b)) == builder_globs(*old(b)).push(glob_text(g)),
{
    b.add(g);
}

/// Builds the matcher for everything added.
///
/// Trusted: wraps `globset::GlobSetBuilder::build`, which compiles the
/// builder's globs (`GlobSet::new` over them). Claims that whether it
/// succeeds depends on those patterns alone, and that the set it gives back
/// matches a path exactly when one of the patterns does (`GlobSet::is_match`
/// is documented as "true if any glob in this set matches the path given").
/// The globs of this library all come from `Glob::new`, with the default
/// options, so a pattern text fixes its glob. Which pattern lists fail to
/// compile is not stated.
#[verifier::external_body]
fn builder_build(b: &globset::GlobSetBuilder) -> (r: Result<globset::GlobSet, globset::Error>)
    ensures
        r is Ok == globset_builds(builder_globs(*b)),
        r matches Ok(s) ==> forall|c: Seq<char>|
            #[trigger] set_matches(s, c) == (exists|i: int|
                0 <= i < builder_globs(*b).len() && glob_matches(
                    #[trigger] builder_globs(*b)[i],
                    c,
                )),
{
    b.build()
}

/// Matches a candidate against a glob set.
///
/// Trusted: wraps `globset::GlobSet::is_match`; claims only that the answer
/// is the set's own, a function of the set and the candidate.
#[verifier::external_body]
fn set_is_match(s: &globset::GlobSet, candidate: &str) -> (r: bool)
    ensures
        r == set_matches(*s, candidate@),
{
    s.is_match(candidate)
}

/// Copies a glob set.
///
/// Trusted: wraps `globset::GlobSet::clone` (derived: it copies the count
/// and the compiled match strategies), so the copy matches exactly the paths
/// the original matches.
#[verifier::external_body]
fn set_clone(s: &globset::GlobSet) -> (r: globset::GlobSet)
    ensures
        forall|c: Seq<char>| #[trigger] set_matches(r, c) == set_matches(*s, c),
{
    s.clone()
}

/// Why an exclusion filter could not be built.
#[derive(Debug)]
pub enum ExclusionError {
    /// This glob pattern does not parse.
    InvalidGlob(String),
    /// The glob set could not be compiled.
    GlobSet(String),
}

/// A compiled filter: the patterns, the glob patterns, and those globs
/// built into one matcher (none when there are no globs).
pub struct ExclusionFilter {
    exclude_patterns: Vec<String>,
    exclude_globs: Option<globset::GlobSet>,
    glob_patterns: Vec<String>,
    force_include: Vec<String>,
}

/// Do the globs match the path's file name?
pub open spec fn globs_match(globs: Seq<Seq<char>>, path: Seq<char>) -> bool {
    match file_name_spec(path) {
        Some(name) => any_glob_matches(globs, name),
        None => false,
    }
}

/// Is a path excluded? Force-include beats every exclusion; then the
/// patterns, then the globs on the file name.
pub open spec fn excluded_spec(force: Seq<Seq<char>>, patterns: Seq<Seq<char>>, globs: Seq<Seq<char>>, path: Seq<char>) -> bool {
    !any_pattern_matches(path, force) && (any_pattern_matches(path, patterns) || globs_match(globs, path))
}

impl ExclusionFilter {
    /// The compiled matcher answers as the glob patterns do.
    #[verifier::type_invariant]
    spec fn matcher_agrees(self) -> bool {
        match self.exclude_globs {
            Some(s) => forall|c: Seq<char>|
                #[trigger] set_matches(s, c) == any_glob_matches(
                    string_views(self.glob_patterns@),
                    c,
                ),
            None => self.glob_patterns@.len() == 0,
        }
    }

    /// The exclusion patterns.
    pub closed spec fn patterns(&self) -> Seq<Seq<char>> {
        string_views(self.exclude_patterns@)
    }

    /// The force-include patterns.
    pub closed spec fn forced(&self) -> Seq<Seq<char>> {
        string_views(self.force_include@)
    }

    /// The file-name globs.
    pub closed spec fn globs(&self) -> Seq<Seq<char>> {
        string_views(self.glob_patterns@)
    }

    /// Compiles a configuration. Fails when a glob does not parse (the
    /// first such glob is named) or the glob set cannot be compiled; with no
    /// globs nothing is compiled and it succeeds.
    pub fn new(config: &ExclusionConfig) -> (r: Result<Self, ExclusionError>)
        ensures
            match r {
                Ok(f) => {
                    &&& f.patterns() == string_views(config.exclude_patterns@)
                    &&& f.forced() == string_views(config.force_include@)
                    &&& f.globs() == string_views(config.exclude_globs@)
                },
                Err(ExclusionError::InvalidGlob(p)) => {
                    exists|i: int| 0 <= i < config.exclude_globs@.len()
                        && #[trigger] config.exclude_globs@[i]@ == p@ && !glob_parses(p@)
                        && forall|k: int| 0 <= k < i ==> glob_parses(
                            #[trigger] config.exclude_globs@[k]@,
                        )
                },
                Err(ExclusionError::GlobSet(_)) => {
                    &&& forall|i: int| 0 <= i < config.exclude_globs@.len()
                        ==> glob_parses(#[trigger] config.exclude_globs@[i]@)
                    &&& config.exclude_globs@.len() > 0
                    &&& !globset_builds(string_views(config.exclude_globs@))
                },
            },
            r is Ok <==> (config.exclude_globs@.len() == 0 || ((forall|i: int|
                0 <= i < config.exclude_globs@.len() ==> glob_parses(
                    #[trigger] config.exclude_globs@[i]@,
                )) && globset_builds(string_views(config.exclude_globs@)))),
    {
        let exclude_globs = if config.exclude_globs.len() == 0 {
            proof {
                assert(string_views(config.exclude_globs@) =~= Seq::<Seq<char>>::empty());
            }
            None
        } else {
            let mut builder = builder_new();
            let mut i: usize = 0;
            while i < config.exclude_globs.len()
                invariant
                    i <= config.exclude_globs@.len(),
                    builder_globs(builder) == string_views(config.exclude_globs@).take(i as int),
                    forall|k: int| 0 <= k < i ==> glob_parses(#[trigger] config.exclude_globs@[k]@),
                decreases config.exclude_globs.len() - i,
            {
                let pattern = &config.exclude_globs[i];
                match glob_new(pattern.as_str()) {
                    Ok(g) => {
                        let ghost before = builder_globs(builder);
                        builder_add(&mut builder, g);
                        proof {
                            assert(string_views(config.exclude_globs@).take(i + 1) =~= before.push(
                                pattern@));
                        }
                    },
                    Err(_) => {
                        proof {
                            assert(config.exclude_globs@[i as int]@ == pattern@);
                        }
                        return Err(ExclusionError::InvalidGlob(pattern.clone()));
                    },
                }
                i = i + 1;
            }
            proof {
                assert(string_views(config.exclude_globs@).take(config.exclude_globs@.len() as int)
                    =~= string_views(config.exclude_globs@));
            }
            match builder_build(&builder) {
                Ok(set) => Some(set),
                Err(_) => {
                    return Err(ExclusionError::GlobSet(String::from_str("failed to compile exclusion globs")));
                },
            }
        };
        let glob_patterns = config.exclude_globs.clone();
        Ok(ExclusionFilter {
            exclude_patterns: config.exclude_patterns.clone(),
            exclude_globs,
            glob_patterns,
            force_include: config.force_include.clone(),
        })
    }

    /// Is the path excluded from snapshots? Force-include wins over the
    /// exclusion patterns, which are tried before the globs. `.gitignore` is
    /// applied by the walker, not here.
    pub fn is_excluded(&self, path: &str) -> (r: bool)
        ensures
            r == excluded_spec(self.forced(), self.patterns(), self.globs(), path@),
    {
        if matches_any_pattern(path, self.force_include.as_slice()) {
            return false;
        }
        if matches_any_pattern(path, self.exclude_patterns.as_slice()) {
            return true;
        }
        self.matches_exclude_globs(path)
    }

    fn matches_exclude_globs(&self, path: &str) -> (r: bool)
        ensures
            r == globs_match(self.globs(), path@),
    {
        proof {
            use_type_invariant(self);
        }
        match &self.exclude_globs {
            Some(globs) => {
                match file_name(path) {
                    Some(name) => {
                        let name_text = string_of(&name);
                        set_is_match(globs, name_text.as_str())
                    },
                    None => false,
                }
            },
            None => false,
        }
    }
}

impl Clone for ExclusionFilter {
    /// A copy with the same patterns, globs and force-include patterns.
    fn clone(&self) -> (r: Self)
        ensures
            r.patterns() == self.patterns(),
            r.forced() == self.forced(),
            r.globs() == self.globs(),
    {
        proof {
            use_type_invariant(self);
        }
        let exclude_globs = match &self.exclude_globs {
            Some(set) => Some(set_clone(set)),
            None => None,
        };
        ExclusionFilter {
            exclude_patterns: self.exclude_patterns.clone(),
            exclude_globs,
            glob_patterns: self.glob_patterns.clone(),
            force_include: self.force_include.clone(),
        }
    }
}

/// Force-include has the last word: a path that a force-include pattern
/// matches is never excluded, whatever the other rules say.
pub proof fn lemma_force_include_wins(force: Seq<Seq<char>>, patterns: Seq<Seq<char>>, globs: Seq<Seq<char>>, path: Seq<char>, i: int)
    requires
        0 <= i < force.len(),
        pattern_matches(path, force[i]),
    ensures
        !excluded_spec(force, patterns, globs, path),
{
}

/// With nothing configured, nothing is excluded.
pub proof fn lemma_empty_filter_excludes_nothing(path: Seq<char>)
    ensures
        !excluded_spec(Seq::empty(), Seq::empty(), Seq::empty(), path),
{
}

} // verus!
