//! Ignore rules: gitignore-style matching from the `ignore` crate, and the
//! inclusion decision that this library takes from a match.

use vstd::prelude::*;
use crate::text::trim_end;

verus! {

#[verifier::external_type_specification]
#[verifier::external_body]
pub struct ExGitignoreBuilder(ignore::gitignore::GitignoreBuilder);

#[verifier::external_type_specification]
#[verifier::external_body]
pub struct ExGitignore(ignore::gitignore::Gitignore);

#[verifier::external_type_specification]
#[verifier::external_body]
pub struct ExIgnoreError(ignore::Error);

/// Which rule, if any, decided a path: the last matching rule wins inside the
/// matcher.
#[derive(Clone, Copy, Debug, PartialEq, Eq, Structural)]
pub enum RuleMatch {
    /// No rule matched the path.
    Unmatched,
    /// An ignore rule decided the path.
    Ignored,
    /// A re-include (`!`) rule decided the path.
    Whitelisted,
}

/// `root` without one leading `./`: the form in which a builder keeps its root.
pub open spec fn without_dot_slash(root: Seq<char>) -> Seq<char> {
    if root.len() >= 2 && root[0] == '.' && root[1] == '/' {
        root.subrange(2, root.len() as int)
    } else {
        root
    }
}

/// Whether `line` ends with a backslash-escaped space.
pub open spec fn ends_with_escaped_space(line: Seq<char>) -> bool {
    line.len() >= 2 && line[line.len() - 2] == '\\' && line[line.len() - 1] == ' '
}

/// The pattern that an ignore line holds: none for a comment (a line starting
/// with `#`) or a line that is empty once trailing white space is cut; otherwise
/// the line with trailing white space cut, unless it ends with an escaped space.
pub open spec fn pattern_line(line: Seq<char>) -> Option<Seq<char>> {
    if line.len() > 0 && line[0] == '#' {
        None
    } else {
        let t = if ends_with_escaped_space(line) {
            line
        } else {
            trim_end(line)
        };
        if t.len() == 0 {
            None
        } else {
            Some(t)
        }
    }
}

/// The patterns that the ignore lines `lines` hold, in order.
pub open spec fn pattern_lines(lines: Seq<Seq<char>>) -> Seq<Seq<char>>
    decreases lines.len(),
{
    if lines.len() == 0 {
        Seq::empty()
    } else {
        let before = pattern_lines(lines.drop_last());
        match pattern_line(lines.last()) {
            Some(t) => before.push(t),
            None => before,
        }
    }
}

/// The root that a builder keeps; its patterns are resolved against it.
pub uninterp spec fn builder_root(b: ignore::gitignore::GitignoreBuilder) -> Seq<char>;

/// The patterns a builder holds, in the order they were added.
pub uninterp spec fn builder_lines(b: ignore::gitignore::GitignoreBuilder) -> Seq<Seq<char>>;

/// The root of a built matcher.
pub uninterp spec fn matcher_root(m: ignore::gitignore::Gitignore) -> Seq<char>;

/// The patterns a matcher was built from, in order.
pub uninterp spec fn matcher_lines(m: ignore::gitignore::Gitignore) -> Seq<Seq<char>>;

/// What gitignore matching says of `path` (a directory when `is_dir`) under the
/// patterns `lines` resolved against `root`.
pub uninterp spec fn gitignore_verdict(root: Seq<char>, lines: Seq<Seq<char>>, path: Seq<char>, is_dir: bool) -> RuleMatch;

/// Whether a builder accepts the ignore line `line` (its glob, if any, is valid).
pub uninterp spec fn gitignore_line_ok(line: Seq<char>) -> bool;

/// Whether a builder holding the patterns `lines` builds a matcher.
pub uninterp spec fn gitignore_set_ok(lines: Seq<Seq<char>>) -> bool;

/// Relies on `GitignoreBuilder::new`: a builder holding no patterns, whose root
/// is `root` with a leading `./` removed.
#[verifier::external_body]
fn new_rule_builder(root: &str) -> (r: ignore::gitignore::GitignoreBuilder)
    ensures
        builder_root(r) == without_dot_slash(root@),
        builder_lines(r) == Seq::<Seq<char>>::empty(),
{
    ignore::gitignore::GitignoreBuilder::new(root)
}

/// Relies on `GitignoreBuilder::add_line`: it accepts a comment or blank line and
/// adds nothing; for any other line it adds the line's pattern, or fails (an
/// invalid glob) and adds nothing. `origin` only annotates the pattern.
#[verifier::external_body]
fn add_rule_line(b: &mut ignore::gitignore::GitignoreBuilder, origin: &str, line: &str) -> (r: Result<(), ignore::Error>)
    ensures
        builder_root(*final(b)) == builder_root(*old(b)),
        r is Ok <==> gitignore_line_ok(line@),
        pattern_line(line@) is None ==> r is Ok,
        r is Ok ==> builder_lines(*final(b)) == match pattern_line(line@) {
            Some(t) => builder_lines(*old(b)).push(t),
            None => builder_lines(*old(b)),
        },
        r is Err ==> builder_lines(*final(b)) == builder_lines(*old(b)),
{
    match b.add_line(Some(std::path::PathBuf::from(origin)), line) {
        Ok(_) => Ok(()),
        Err(e) => Err(e),
    }
}

/// Relies on `GitignoreBuilder::build`: the matcher holds the builder's root and
/// patterns; whether it builds depends on the patterns alone.
#[verifier::external_body]
fn build_rules(b: &ignore::gitignore::GitignoreBuilder) -> (r: Result<ignore::gitignore::Gitignore, ignore::Error>)
    ensures
        r is Ok <==> gitignore_set_ok(builder_lines(*b)),
        r matches Ok(m) ==> matcher_root(m) == builder_root(*b) && matcher_lines(m) == builder_lines(*b),
{
    b.build()
}

/// Relies on `Gitignore::matched`: the verdict of the matcher's patterns on `path`.
#[verifier::external_body]
fn match_rules(m: &ignore::gitignore::Gitignore, path: &str, is_dir: bool) -> (r: RuleMatch)
    ensures
        r == gitignore_verdict(matcher_root(*m), matcher_lines(*m), path@, is_dir),
{
    match m.matched(path, is_dir) {
        ignore::Match::None => RuleMatch::Unmatched,
        ignore::Match::Ignore(_) => RuleMatch::Ignored,
        ignore::Match::Whitelist(_) => RuleMatch::Whitelisted,
    }
}

/// Whether the ignore lines `lines` make a rule set: every line is accepted and
/// their patterns build a matcher.
pub open spec fn rules_ok(lines: Seq<Seq<char>>) -> bool {
    &&& forall|i: int| 0 <= i < lines.len() ==> gitignore_line_ok(#[trigger] lines[i])
    &&& gitignore_set_ok(pattern_lines(lines))
}

/// Whether a path that `m` decided stays in the transfer: a re-include keeps it, an
/// ignore drops it, and a path no rule matched is kept.
pub open spec fn is_included(m: RuleMatch) -> bool {
    match m {
        RuleMatch::Whitelisted => true,
        RuleMatch::Ignored => false,
        RuleMatch::Unmatched => true,
    }
}

/// The inclusion decision for a rule match.
pub fn include_path(m: RuleMatch) -> (r: bool)
    ensures
        r == is_included(m),
{
    match m {
        RuleMatch::Whitelisted => true,
        RuleMatch::Ignored => false,
        RuleMatch::Unmatched => true,
    }
}

/// The inclusion of a path depends on nothing but the rule that decided it: a
/// re-include rule keeps the path, an ignore rule drops it, and a path that no rule
/// matches is always kept.
pub proof fn lemma_inclusion_by_deciding_rule(root: Seq<char>, lines: Seq<Seq<char>>, path: Seq<char>, is_dir: bool)
    ensures
        gitignore_verdict(root, lines, path, is_dir) == RuleMatch::Unmatched ==> is_included(gitignore_verdict(root, lines, path, is_dir)),
        gitignore_verdict(root, lines, path, is_dir) == RuleMatch::Whitelisted ==> is_included(gitignore_verdict(root, lines, path, is_dir)),
        gitignore_verdict(root, lines, path, is_dir) == RuleMatch::Ignored ==> !is_included(gitignore_verdict(root, lines, path, is_dir)),
{
}

/// A built set of ignore rules.
pub struct IgnoreRuleSet {
    pub matcher: ignore::gitignore::Gitignore,
}

/// The error of an ignore line that is not a valid pattern, or of a set that
/// cannot be built.
#[derive(Clone, Copy, Debug, PartialEq, Eq, Structural)]
pub enum IgnoreRuleError {
    InvalidPattern,
}

impl IgnoreRuleSet {
    pub open spec fn root(&self) -> Seq<char> {
        matcher_root(self.matcher)
    }

    pub open spec fn lines(&self) -> Seq<Seq<char>> {
        matcher_lines(self.matcher)
    }

    /// The verdict of these rules on `path`.
    pub open spec fn verdict(&self, path: Seq<char>, is_dir: bool) -> RuleMatch {
        gitignore_verdict(self.root(), self.lines(), path, is_dir)
    }

    /// Builds the rules of `lines` (one ignore line each) resolved against
    /// `root`; `origin` names the file the lines came from. It succeeds exactly
    /// when the lines make a rule set.
    pub fn build(root: &str, origin: &str, lines: &Vec<String>) -> (r: Result<IgnoreRuleSet, IgnoreRuleError>)
        ensures
            r is Ok <==> rules_ok(lines@.map_values(|l: String| l@)),
            r matches Ok(s) ==> s.root() == without_dot_slash(root@) && s.lines() == pattern_lines(
                lines@.map_values(|l: String| l@),
            ),
    {
        let ghost ls = lines@.map_values(|l: String| l@);
        let mut b = new_rule_builder(root);
        let mut i: usize = 0;
        while i < lines.len()
            invariant
                i <= lines.len(),
                ls == lines@.map_values(|l: String| l@),
                builder_root(b) == without_dot_slash(root@),
                builder_lines(b) == pattern_lines(ls.subrange(0, i as int)),
                forall|j: int| 0 <= j < i ==> gitignore_line_ok(#[trigger] ls[j]),
            decreases lines.len() - i,
        {
            assert(ls[i as int] == lines@[i as int]@);
            match add_rule_line(&mut b, origin, lines[i].as_str()) {
                Ok(()) => {},
                Err(_) => {
                    assert(!gitignore_line_ok(ls[i as int]));
                    return Err(IgnoreRuleError::InvalidPattern);
                },
            }
            assert(ls.subrange(0, i + 1).drop_last() =~= ls.subrange(0, i as int));
            i += 1;
        }
        assert(ls.subrange(0, i as int) =~= ls);
        match build_rules(&b) {
            Ok(m) => Ok(IgnoreRuleSet { matcher: m }),
            Err(_) => Err(IgnoreRuleError::InvalidPattern),
        }
    }

    /// Whether `path` (a directory when `is_dir`) stays in the transfer under these rules.
    pub fn includes(&self, path: &str, is_dir: bool) -> (r: bool)
        ensures
            r == is_included(self.verdict(path@, is_dir)),
    {
        let m = match_rules(&self.matcher, path, is_dir);
        include_path(m)
    }
}

} // verus!
