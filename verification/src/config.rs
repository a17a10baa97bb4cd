//! Configuration: what the command line and the config file ask for, and the
//! directories the plugin lives in.
//!
//! Every other module reads this and none of them change it.

use vstd::prelude::*;

use crate::model::{Period, Text};
use crate::paths;
use crate::strings;

verus! {

pub const PLUGIN_ID: &'static str = "moneycaringcoder.standup";

/// The default window: local midnight today.
pub const DEFAULT_SINCE: &'static str = "midnight";

/// Remote-tracking and local names tried, in order, when a repository does not
/// say what its default branch is.
pub const DEFAULT_BRANCH_CANDIDATES: [&'static str; 6] = [
    "origin/main",
    "origin/master",
    "origin/trunk",
    "main",
    "master",
    "trunk",
];

/// Paths whose *line* counts are noise, excluded by default: dependency
/// lockfiles, vendored and installed dependency trees, and build output.
pub const DEFAULT_IGNORED_PATHS: [&'static str; 25] = [
    "Cargo.lock",
    "package-lock.json",
    "pnpm-lock.yaml",
    "yarn.lock",
    "bun.lock",
    "bun.lockb",
    "composer.lock",
    "Gemfile.lock",
    "poetry.lock",
    "uv.lock",
    "Pipfile.lock",
    "go.sum",
    "flake.lock",
    "pubspec.lock",
    "Package.resolved",
    "gradle.lockfile",
    "vendor/",
    "node_modules/",
    "third_party/",
    ".yarn/",
    "target/",
    "dist/",
    "build/",
    ".next/",
    ".svelte-kit/",
];

// ---------------------------------------------------------------------------
// Ignored paths
// ---------------------------------------------------------------------------

/// Decides whether a repository-relative path's lines are counted.
///
/// | pattern | matches |
/// |---|---|
/// | `Cargo.lock` | any file with that **basename**, at any depth |
/// | `vendor/` | anything under a directory of that name, at any depth |
/// | `docs/api/*.json` | the whole path, where `*` stops at a `/` |
///
/// An empty list matches nothing, which is how a reader turns the feature off.
#[derive(Debug, PartialEq, Eq)]
pub struct Ignored {
    patterns: Vec<String>,
}

impl View for Ignored {
    type V = Seq<Text>;

    closed spec fn view(&self) -> Seq<Text> {
        strings::views(self.patterns@)
    }
}

impl Clone for Ignored {
    fn clone(&self) -> (out: Self)
        ensures
            out@ == self@,
    {
        Ignored { patterns: strings::clone_list(&self.patterns) }
    }
}

/// Whether a pattern matches a text: `*` stands for any run of characters other
/// than `/`, everything else for itself.
pub open spec fn glob(pattern: Text, s: Text) -> bool
    decreases pattern.len(), s.len(),
{
    if pattern.len() == 0 {
        s.len() == 0
    } else if pattern[0] == '*' {
        ||| glob(pattern.drop_first(), s)
        ||| s.len() > 0 && s[0] != '/' && glob(pattern, s.drop_first())
    } else {
        s.len() > 0 && s[0] == pattern[0] && glob(pattern.drop_first(), s.drop_first())
    }
}

/// Whether one pattern covers a path.
pub open spec fn covers(pattern: Text, path: Text) -> bool {
    if pattern.len() > 0 && pattern.last() == '/' {
        // Every segment except the last, so a file called `dist` is not
        // mistaken for a directory of build output.
        strings::pieces(path, '/').drop_last().contains(pattern.drop_last())
    } else if pattern.contains('/') {
        glob(pattern, path)
    } else {
        glob(pattern, strings::after_last(path, '/'))
    }
}

/// Whether any of the patterns covers a path.
pub open spec fn ignores(patterns: Seq<Text>, path: Text) -> bool {
    exists|i: int| 0 <= i < patterns.len() && #[trigger] covers(patterns[i], path)
}

/// The patterns trimmed, the empty ones left out.
pub open spec fn tidied(patterns: Seq<Text>) -> Seq<Text>
    decreases patterns.len(),
{
    if patterns.len() == 0 {
        Seq::empty()
    } else {
        let before = tidied(patterns.drop_last());
        let pattern = strings::trimmed(patterns.last());
        if pattern.len() > 0 {
            before.push(pattern)
        } else {
            before
        }
    }
}

fn glob_from(pattern: &Vec<char>, p: usize, s: &Vec<char>, i: usize) -> (answer: bool)
    requires
        p <= pattern@.len(),
        i <= s@.len(),
    ensures
        answer == glob(pattern@.skip(p as int), s@.skip(i as int)),
    decreases pattern@.len() - p, s@.len() - i,
{
    if p == pattern.len() {
        return i == s.len();
    }
    assert(pattern@.skip(p as int).drop_first() =~= pattern@.skip(p + 1));
    if i < s.len() {
        assert(s@.skip(i as int).drop_first() =~= s@.skip(i + 1));
    }
    if pattern[p] == '*' {
        glob_from(pattern, p + 1, s, i) || (i < s.len() && s[i] != '/' && glob_from(
            pattern,
            p,
            s,
            i + 1,
        ))
    } else {
        i < s.len() && s[i] == pattern[p] && glob_from(pattern, p + 1, s, i + 1)
    }
}

/// `*` matches any run of characters other than `/`; everything else is
/// literal.
pub fn glob_segment(pattern: &str, s: &str) -> (answer: bool)
    ensures
        answer == glob(pattern@, s@),
{
    assert(pattern@.skip(0) =~= pattern@);
    assert(s@.skip(0) =~= s@);
    glob_from(&strings::chars_of(pattern), 0, &strings::chars_of(s), 0)
}

fn has_char(s: &str, ch: char) -> (answer: bool)
    ensures
        answer == s@.contains(ch),
{
    match strings::split_once(s, ch) {
        Some(_) => true,
        None => false,
    }
}

fn matches_one(pattern: &str, path: &str) -> (answer: bool)
    ensures
        answer == covers(pattern@, path@),
{
    let chars = strings::chars_of(pattern);
    let n = chars.len();
    if n > 0 && chars[n - 1] == '/' {
        let directory = strings::string_of(vstd::slice::slice_subrange(chars.as_slice(), 0, n - 1));
        assert(directory@ =~= pattern@.drop_last());
        let mut segments = strings::split(path, '/');
        let ghost all = strings::views(segments@);
        let last = segments.pop();
        assert(strings::views(segments@) =~= all.drop_last());
        return strings::list_has(&segments, directory.as_str());
    }
    if has_char(pattern, '/') {
        return glob_segment(pattern, path);
    }
    glob_segment(pattern, strings::tail_after(path, '/').as_str())
}

impl Ignored {
    pub fn new(patterns: Vec<String>) -> (out: Ignored)
        ensures
            out@ == tidied(strings::views(patterns@)),
    {
        broadcast use strings::group_lists;

        let mut kept: Vec<String> = Vec::new();
        for i in 0..patterns.len()
            invariant
                strings::views(kept@) == tidied(strings::views(patterns@).take(i as int)),
        {
            broadcast use strings::group_lists;

            let ghost all = strings::views(patterns@);
            assert(all.take(i as int).push(all[i as int]) == all.take(i + 1));
            let pattern = strings::trim(patterns[i].as_str());
            if !strings::is_empty(pattern.as_str()) {
                kept.push(pattern);
            }
        }
        Ignored { patterns: kept }
    }

    /// Whether this path's lines are excluded from the totals.
    pub fn matches(&self, path: &str) -> (answer: bool)
        ensures
            answer == ignores(self@, path@),
    {
        for i in 0..self.patterns.len()
            invariant
                forall|j: int| 0 <= j < i ==> !#[trigger] covers(self@[j], path@),
        {
            assert(self@[i as int] == self.patterns@[i as int]@);
            if matches_one(self.patterns[i].as_str(), path) {
                return true;
            }
        }
        false
    }

    pub fn patterns(&self) -> (out: &Vec<String>)
        ensures
            strings::views(out@) == self@,
    {
        &self.patterns
    }
}

impl Default for Ignored {
    fn default() -> (out: Self)
        ensures
            out@ == tidied(strings::views(DEFAULT_IGNORED_PATHS@)),
    {
        Ignored::new(strings::strings_of(DEFAULT_IGNORED_PATHS.as_slice()))
    }
}

/// An empty list matches nothing.
pub proof fn law_an_empty_list_matches_nothing(path: Text)
    ensures
        !ignores(tidied(Seq::empty()), path),
{
}

/// How often a character occurs.
pub open spec fn count_of(s: Text, ch: char) -> nat
    decreases s.len(),
{
    if s.len() == 0 {
        0
    } else {
        count_of(s.drop_first(), ch) + if s[0] == ch {
            1nat
        } else {
            0nat
        }
    }
}

/// A wildcard never crosses a separator: a pattern only matches texts with as
/// many separators as it has itself.
pub proof fn law_a_wildcard_never_crosses_a_separator(pattern: Text, s: Text)
    requires
        glob(pattern, s),
    ensures
        count_of(pattern, '/') == count_of(s, '/'),
    decreases pattern.len(), s.len(),
{
    if pattern.len() > 0 {
        if pattern[0] == '*' {
            if glob(pattern.drop_first(), s) {
                law_a_wildcard_never_crosses_a_separator(pattern.drop_first(), s);
            } else {
                law_a_wildcard_never_crosses_a_separator(pattern, s.drop_first());
            }
        } else {
            law_a_wildcard_never_crosses_a_separator(pattern.drop_first(), s.drop_first());
        }
    }
}

/// A pattern without a wildcard matches itself and nothing else.
pub proof fn law_a_literal_pattern_matches_only_itself(pattern: Text, s: Text)
    requires
        !pattern.contains('*'),
    ensures
        glob(pattern, s) <==> pattern == s,
    decreases pattern.len(),
{
    if pattern.len() > 0 {
        assert(pattern[0] != '*');
        let rest = pattern.drop_first();
        if rest.contains('*') {
            let i = choose|i: int| 0 <= i < rest.len() && rest[i] == '*';
            assert(pattern[i + 1] == '*');
        }
        if s.len() > 0 {
            law_a_literal_pattern_matches_only_itself(rest, s.drop_first());
            if s[0] == pattern[0] && rest == s.drop_first() {
                assert(pattern =~= seq![pattern[0]] + rest);
                assert(s =~= seq![s[0]] + s.drop_first());
            }
        }
    } else if s.len() == 0 {
        assert(pattern =~= s);
    }
}

// ---------------------------------------------------------------------------
// The command line
// ---------------------------------------------------------------------------

/// Output action selected by the command line.
#[derive(Debug, Clone, Copy, PartialEq, Eq, Structural)]
pub enum Verb {
    Report,
    Markdown,
    Slack,
    Html,
    Json,
    Tui,
    Version,
    Help,
}

pub const VALUED_OPTIONS: [&'static str; 6] = [
    "--since",
    "--until",
    "--path",
    "--format",
    "--max-commits",
    "--diff",
];

pub const STANDALONE_OPTIONS: [&'static str; 9] = [
    "--since-last",
    "--weekly",
    "--monthly",
    "--by-agent",
    "--fail-if-empty",
    "--offline",
    "--busy",
    "--all",
    "--no-siblings",
];

pub open spec fn is_valued(name: Text) -> bool {
    strings::views(VALUED_OPTIONS@).contains(name)
}

pub open spec fn is_standalone(name: Text) -> bool {
    strings::views(STANDALONE_OPTIONS@).contains(name)
}

pub open spec fn verb_named(raw: Text) -> Option<Verb> {
    if raw == "--report"@ {
        Some(Verb::Report)
    } else if raw == "--markdown"@ {
        Some(Verb::Markdown)
    } else if raw == "--slack"@ {
        Some(Verb::Slack)
    } else if raw == "--html"@ {
        Some(Verb::Html)
    } else if raw == "--json"@ {
        Some(Verb::Json)
    } else if raw == "--tui"@ {
        Some(Verb::Tui)
    } else if raw == "--version"@ {
        Some(Verb::Version)
    } else if raw == "--help"@ || raw == "-h"@ {
        Some(Verb::Help)
    } else {
        None
    }
}

/// What one argument is.
#[derive(Debug, PartialEq, Eq)]
pub enum Token<T = String> {
    /// An option that takes a value, with the value where it is given inline.
    Valued { name: T, value: Option<T> },
    Standalone { name: T },
    StandaloneWithValue { name: T },
    Action { verb: Verb },
    Unknown,
}

impl View for Token {
    type V = Token<Text>;

    open spec fn view(&self) -> Token<Text> {
        match self {
            Token::Valued { name, value } => Token::Valued {
                name: name@,
                value: strings::view_of(*value),
            },
            Token::Standalone { name } => Token::Standalone { name: name@ },
            Token::StandaloneWithValue { name } => Token::StandaloneWithValue { name: name@ },
            Token::Action { verb } => Token::Action { verb: *verb },
            Token::Unknown => Token::Unknown,
        }
    }
}

pub open spec fn classified(raw: Text) -> Token<Text> {
    match strings::parted(raw, '=') {
        Some(both) => if is_valued(both.0) {
            Token::Valued { name: both.0, value: Some(both.1) }
        } else if is_standalone(both.0) {
            Token::StandaloneWithValue { name: both.0 }
        } else {
            Token::Unknown
        },
        None => if is_valued(raw) {
            Token::Valued { name: raw, value: None }
        } else if is_standalone(raw) {
            Token::Standalone { name: raw }
        } else {
            match verb_named(raw) {
                Some(verb) => Token::Action { verb },
                None => Token::Unknown,
            }
        },
    }
}

fn verb_of(raw: &str) -> (out: Option<Verb>)
    ensures
        out == verb_named(raw@),
{
    if strings::same(raw, "--report") {
        Some(Verb::Report)
    } else if strings::same(raw, "--markdown") {
        Some(Verb::Markdown)
    } else if strings::same(raw, "--slack") {
        Some(Verb::Slack)
    } else if strings::same(raw, "--html") {
        Some(Verb::Html)
    } else if strings::same(raw, "--json") {
        Some(Verb::Json)
    } else if strings::same(raw, "--tui") {
        Some(Verb::Tui)
    } else if strings::same(raw, "--version") {
        Some(Verb::Version)
    } else if strings::same(raw, "--help") || strings::same(raw, "-h") {
        Some(Verb::Help)
    } else {
        None
    }
}

pub fn classify(raw: &str) -> (out: Token)
    ensures
        out@ == classified(raw@),
{
    match strings::split_once(raw, '=') {
        Some((name, value)) => if strings::names_have(VALUED_OPTIONS.as_slice(), name.as_str()) {
            Token::Valued { name, value: Some(value) }
        } else if strings::names_have(STANDALONE_OPTIONS.as_slice(), name.as_str()) {
            Token::StandaloneWithValue { name }
        } else {
            Token::Unknown
        },
        None => if strings::names_have(VALUED_OPTIONS.as_slice(), raw) {
            Token::Valued { name: raw.to_string(), value: None }
        } else if strings::names_have(STANDALONE_OPTIONS.as_slice(), raw) {
            Token::Standalone { name: raw.to_string() }
        } else {
            match verb_of(raw) {
                Some(verb) => Token::Action { verb },
                None => Token::Unknown,
            }
        },
    }
}

/// One strict interpretation of the command line, shared by dispatch and
/// config.
///
/// An inline value is opaque, so `--path=--busy` names a path; a bare option
/// followed by a known option or verb is diagnosed as missing its value.
#[derive(Debug, PartialEq, Eq)]
pub struct Arguments {
    verb: Verb,
    values: Vec<(String, String)>,
    standalone: Vec<String>,
}

#[verifier::ext_equal]
pub struct ArgumentsView {
    pub verb: Verb,
    pub values: Seq<(Text, Text)>,
    pub standalone: Seq<Text>,
}

impl View for Arguments {
    type V = ArgumentsView;

    closed spec fn view(&self) -> ArgumentsView {
        ArgumentsView {
            verb: self.verb,
            values: strings::views(self.values@),
            standalone: strings::views(self.standalone@),
        }
    }
}

/// What has been read of a command line so far.
#[verifier::ext_equal]
pub struct ArgumentsSoFar {
    pub verb: Option<Verb>,
    pub values: Seq<(Text, Text)>,
    pub standalone: Seq<Text>,
}

/// What a command line says, from its first argument on.
pub open spec fn interpreted(args: Seq<Text>) -> Result<ArgumentsView, Text> {
    interpreted_from(
        args,
        ArgumentsSoFar { verb: None, values: Seq::empty(), standalone: Seq::empty() },
    )
}

/// What the rest of a command line adds to what has been read of it.
pub open spec fn interpreted_from(args: Seq<Text>, read: ArgumentsSoFar) -> Result<
    ArgumentsView,
    Text,
>
    decreases args.len(),
{
    if args.len() == 0 {
        Ok(
            ArgumentsView {
                verb: match read.verb {
                    Some(verb) => verb,
                    None => Verb::Report,
                },
                values: read.values,
                standalone: read.standalone,
            },
        )
    } else {
        let raw = args[0];
        let rest = args.drop_first();
        match classified(raw) {
            Token::Valued { name, value: Some(value) } => interpreted_from(
                rest,
                ArgumentsSoFar { values: read.values.push((name, value)), ..read },
            ),
            Token::Valued { name, value: None } => if rest.len() == 0 {
                Err("`"@ + name + "` requires a value"@)
            } else if classified(rest[0]) != Token::<Text>::Unknown {
                Err("`"@ + name + "` requires a value; `"@ + rest[0] + "` is another argument"@)
            } else {
                interpreted_from(
                    rest.drop_first(),
                    ArgumentsSoFar { values: read.values.push((name, rest[0])), ..read },
                )
            },
            Token::StandaloneWithValue { name } => Err("`"@ + name + "` does not take a value"@),
            Token::Standalone { name } => interpreted_from(
                rest,
                ArgumentsSoFar { standalone: read.standalone.push(name), ..read },
            ),
            Token::Action { verb } => if read.verb is Some {
                Err("`"@ + raw + "` is a second verb; pass only one"@)
            } else if verb == Verb::Help {
                Ok(
                    ArgumentsView {
                        verb: Verb::Help,
                        values: read.values,
                        standalone: read.standalone,
                    },
                )
            } else {
                interpreted_from(rest, ArgumentsSoFar { verb: Some(verb), ..read })
            },
            Token::Unknown => Err("unknown argument `"@ + raw + "`"@),
        }
    }
}

/// The last value given for an option.
pub open spec fn last_value(values: Seq<(Text, Text)>, name: Text) -> Option<Text>
    decreases values.len(),
{
    if values.len() == 0 {
        None
    } else if values.last().0 == name {
        Some(values.last().1)
    } else {
        last_value(values.drop_last(), name)
    }
}

/// Every value given for an option, in order.
pub open spec fn all_values(values: Seq<(Text, Text)>, name: Text) -> Seq<Text>
    decreases values.len(),
{
    if values.len() == 0 {
        Seq::empty()
    } else {
        let before = all_values(values.drop_last(), name);
        if values.last().0 == name {
            before.push(values.last().1)
        } else {
            before
        }
    }
}

impl ArgumentsView {
    pub open spec fn value(self, name: Text) -> Option<Text> {
        last_value(self.values, name)
    }

    #[verifier::opaque]
    pub open spec fn has(self, name: Text) -> bool {
        self.standalone.contains(name)
    }
}

/// Whether this outcome of a fallible step is the stated one, the value taken
/// by its view and the error by its text.
pub open spec fn outcome<T: View>(found: Result<T, String>, stated: Result<T::V, Text>) -> bool {
    match found {
        Ok(value) => stated == Ok::<T::V, Text>(value@),
        Err(message) => stated == Err::<T::V, Text>(message@),
    }
}

impl Arguments {
    #[verifier::loop_isolation(false)]
    pub fn parse(args: &[String]) -> (out: Result<Arguments, String>)
        ensures
            outcome(out, interpreted(strings::views(args@))),
    {
        broadcast use strings::group_lists;

        let ghost all = strings::views(args@);
        let mut values: Vec<(String, String)> = Vec::new();
        let mut standalone: Vec<String> = Vec::new();
        let mut verb: Option<Verb> = None;
        let mut index: usize = 0;
        assert(all.skip(0) =~= all);
        while index < args.len()
            invariant
                index <= args@.len(),
                interpreted(all) == interpreted_from(
                    all.skip(index as int),
                    ArgumentsSoFar {
                        verb,
                        values: strings::views(values@),
                        standalone: strings::views(standalone@),
                    },
                ),
            decreases args@.len() - index,
        {
            broadcast use strings::group_lists;

            let ghost rest = all.skip(index as int).drop_first();
            assert(rest =~= all.skip(index + 1));
            assert(all.skip(index as int)[0] == args@[index as int]@);
            match classify(args[index].as_str()) {
                Token::Valued { name, value: Some(value) } => {
                    values.push((name, value));
                },
                Token::Valued { name, value: None } => {
                    if index + 1 >= args.len() {
                        return Err(strings::cat3("`", name.as_str(), "` requires a value"));
                    }
                    assert(rest[0] == args@[index + 1]@);
                    assert(rest.drop_first() =~= all.skip(index + 2));
                    let value = &args[index + 1];
                    match classify(value.as_str()) {
                        Token::Unknown => {},
                        _ => {
                            return Err(
                                strings::cat5(
                                    "`",
                                    name.as_str(),
                                    "` requires a value; `",
                                    value.as_str(),
                                    "` is another argument",
                                ),
                            );
                        },
                    }
                    values.push((name, value.clone()));
                    index = index + 1;
                },
                Token::StandaloneWithValue { name } => {
                    return Err(strings::cat3("`", name.as_str(), "` does not take a value"));
                },
                Token::Standalone { name } => {
                    standalone.push(name);
                },
                Token::Action { verb: next } => {
                    if verb.is_some() {
                        return Err(
                            strings::cat3("`", args[index].as_str(), "` is a second verb; pass only one"),
                        );
                    }
                    if next == Verb::Help {
                        return Ok(Arguments { verb: Verb::Help, values, standalone });
                    }
                    verb = Some(next);
                },
                Token::Unknown => {
                    return Err(strings::cat3("unknown argument `", args[index].as_str(), "`"));
                },
            }
            index = index + 1;
        }
        let verb = match verb {
            Some(verb) => verb,
            None => Verb::Report,
        };
        Ok(Arguments { verb, values, standalone })
    }

    pub fn verb(&self) -> (out: Verb)
        ensures
            out == self@.verb,
    {
        self.verb
    }

    /// Last value wins, while repeated `--path` values remain available in
    /// order.
    pub fn value(&self, name: &str) -> (out: Option<&str>)
        ensures
            strings::view_of(out) == self@.value(name@),
    {
        broadcast use strings::group_lists;

        let ghost all = strings::views(self.values@);
        let mut left: usize = self.values.len();
        while left > 0
            invariant
                left <= self.values@.len(),
                all == strings::views(self.values@),
                last_value(all, name@) == last_value(all.take(left as int), name@),
            decreases left,
        {
            assert(all.take(left as int).drop_last() =~= all.take(left - 1));
            assert(all.take(left as int).last() == self.values@[left - 1]@);
            let (candidate, value) = &self.values[left - 1];
            if strings::same(candidate.as_str(), name) {
                return Some(value.as_str());
            }
            left = left - 1;
        }
        None
    }

    /// Every value given for an option, in order.
    pub fn values_of(&self, name: &str) -> (out: Vec<String>)
        ensures
            strings::views(out@) == all_values(self@.values, name@),
    {
        broadcast use strings::group_lists;

        let mut out: Vec<String> = Vec::new();
        for i in 0..self.values.len()
            invariant
                strings::views(out@) == all_values(strings::views(self.values@).take(i as int), name@),
        {
            broadcast use strings::group_lists;

            let ghost all = strings::views(self.values@);
            assert(all.take(i as int).push(all[i as int]) == all.take(i + 1));
            assert(all[i as int] == self.values@[i as int]@);
            let (candidate, value) = &self.values[i];
            if strings::same(candidate.as_str(), name) {
                out.push(value.clone());
            }
        }
        out
    }

    pub fn has(&self, name: &str) -> (answer: bool)
        ensures
            answer == self@.has(name@),
    {
        reveal(ArgumentsView::has);
        strings::list_has(&self.standalone, name)
    }
}

/// A repeated option counts as its last occurrence says.
pub proof fn law_the_last_value_wins(values: Seq<(Text, Text)>, name: Text, value: Text)
    ensures
        last_value(values.push((name, value)), name) == Some(value),
        all_values(values.push((name, value)), name) == all_values(values, name).push(value),
{
    assert(values.push((name, value)).drop_last() =~= values);
}

/// Asking for help before any other verb is answered whatever follows.
pub proof fn law_help_bypasses_what_follows(rest: Seq<Text>)
    ensures
        interpreted(seq!["--help"@] + rest) is Ok,
        interpreted(seq!["--help"@] + rest)->Ok_0.verb == Verb::Help,
{
    let args = seq!["--help"@] + rest;
    lemma_help_is_a_verb();
    assert(args[0] == "--help"@);
}

proof fn lemma_help_is_a_verb()
    ensures
        classified("--help"@) == (Token::<Text>::Action { verb: Verb::Help }),
{
    reveal_strlit("--help");
    reveal_strlit("--since");
    reveal_strlit("--until");
    reveal_strlit("--path");
    reveal_strlit("--format");
    reveal_strlit("--max-commits");
    reveal_strlit("--diff");
    reveal_strlit("--since-last");
    reveal_strlit("--weekly");
    reveal_strlit("--monthly");
    reveal_strlit("--by-agent");
    reveal_strlit("--fail-if-empty");
    reveal_strlit("--offline");
    reveal_strlit("--busy");
    reveal_strlit("--all");
    reveal_strlit("--no-siblings");
    reveal_strlit("--report");
    reveal_strlit("--markdown");
    reveal_strlit("--slack");
    reveal_strlit("--html");
    reveal_strlit("--json");
    reveal_strlit("--tui");
    reveal_strlit("--version");
    let help = "--help"@;
    strings::law_parted_is_exact(help, '=');
    assert(!help.contains('='));
    // Names of the same length are told apart by their third character.
    assert(help[2] == 'h' && help.len() == 6);
    assert forall|i: int| 0 <= i < 6 implies #[trigger] strings::views(VALUED_OPTIONS@)[i]
        != help by {
        let name = strings::views(VALUED_OPTIONS@)[i];
        assert(name == VALUED_OPTIONS@[i]@);
        assert(name.len() != 6 || name[2] != 'h');
    }
    assert forall|i: int| 0 <= i < 9 implies #[trigger] strings::views(STANDALONE_OPTIONS@)[i]
        != help by {
        let name = strings::views(STANDALONE_OPTIONS@)[i];
        assert(name == STANDALONE_OPTIONS@[i]@);
        assert(name.len() != 6 || name[2] != 'h');
    }
    assert("--slack"@.len() != 6);
    assert("--html"@[3] != help[3]);
    assert("--json"@[2] != help[2]);
}

// ---------------------------------------------------------------------------
// The configuration
// ---------------------------------------------------------------------------

#[derive(Debug, Clone, Copy, PartialEq, Eq, Structural)]
pub enum Format {
    Text,
    Markdown,
    /// Slack's mrkdwn, which is not Markdown.
    Slack,
    /// A complete document with every style inline, for an email.
    Html,
    Json,
}

/// The format a name asks for.
pub open spec fn format_named(raw: Text) -> Result<Format, Text> {
    let name = strings::lowered(strings::trimmed(raw));
    if name == "text"@ || name == "plain"@ {
        Ok(Format::Text)
    } else if name == "markdown"@ || name == "md"@ {
        Ok(Format::Markdown)
    } else if name == "slack"@ || name == "mrkdwn"@ {
        Ok(Format::Slack)
    } else if name == "html"@ {
        Ok(Format::Html)
    } else if name == "json"@ {
        Ok(Format::Json)
    } else {
        Err("unknown --format `"@ + name + "`; expected text, markdown, slack, html or json"@)
    }
}

impl View for Format {
    type V = Format;

    open spec fn view(&self) -> Format {
        *self
    }
}

impl Format {
    pub fn parse(raw: &str) -> (out: Result<Format, String>)
        ensures
            outcome(out, format_named(raw@)),
    {
        let name = strings::lowercase(strings::trim(raw).as_str());
        let name = name.as_str();
        if strings::same(name, "text") || strings::same(name, "plain") {
            Ok(Format::Text)
        } else if strings::same(name, "markdown") || strings::same(name, "md") {
            Ok(Format::Markdown)
        } else if strings::same(name, "slack") || strings::same(name, "mrkdwn") {
            Ok(Format::Slack)
        } else if strings::same(name, "html") {
            Ok(Format::Html)
        } else if strings::same(name, "json") {
            Ok(Format::Json)
        } else {
            Err(
                strings::cat3(
                    "unknown --format `",
                    name,
                    "`; expected text, markdown, slack, html or json",
                ),
            )
        }
    }
}

/// Where an installed plugin was invoked from, so that its own directory is not
/// mistaken for somebody's work.
#[derive(Debug, PartialEq, Eq)]
pub struct RepositoryScope<T = String> {
    pub workspace_id: Option<T>,
    pub invocation_cwd: Option<T>,
    pub plugin_root: Option<T>,
}

impl View for RepositoryScope {
    type V = RepositoryScope<Text>;

    open spec fn view(&self) -> RepositoryScope<Text> {
        RepositoryScope {
            workspace_id: strings::view_of(self.workspace_id),
            invocation_cwd: strings::view_of(self.invocation_cwd),
            plugin_root: strings::view_of(self.plugin_root),
        }
    }
}

impl Clone for RepositoryScope {
    fn clone(&self) -> (out: Self)
        ensures
            out@ == self@,
    {
        RepositoryScope {
            workspace_id: strings::clone_option(&self.workspace_id),
            invocation_cwd: strings::clone_option(&self.invocation_cwd),
            plugin_root: strings::clone_option(&self.plugin_root),
        }
    }
}

impl RepositoryScope<Text> {
    pub open spec fn anywhere() -> RepositoryScope<Text> {
        RepositoryScope { workspace_id: None, invocation_cwd: None, plugin_root: None }
    }
}

impl Default for RepositoryScope {
    fn default() -> (out: Self)
        ensures
            out@ == RepositoryScope::anywhere(),
    {
        RepositoryScope { workspace_id: None, invocation_cwd: None, plugin_root: None }
    }
}

#[derive(Debug, PartialEq, Eq)]
pub struct Config {
    /// Window start, as a phrase git can read.
    pub since: String,
    /// Whether `since` was asked for rather than being the built-in default.
    pub since_is_explicit: bool,
    /// Window end. `None` means "up to now".
    pub until: Option<String>,
    /// Take the window start from the previous run's timestamp.
    pub since_last: bool,
    /// Record this run's timestamp for a later `--since-last`.
    pub record_run: bool,
    pub format: Format,
    /// Commits listed per checkout before the rest are summarised as a count.
    pub max_commits: usize,
    /// Show repositories with nothing in the window.
    pub include_quiet: bool,
    /// Also report checkouts of a repository that no workspace is sitting in.
    pub include_siblings: bool,
    /// Timeout for any single git invocation, in seconds.
    pub git_timeout: u64,
    /// Extra checkout paths to include.
    pub extra_paths: Vec<String>,
    /// Report the digest for these paths only.
    pub offline: bool,
    /// Paths whose lines are not counted.
    pub ignore: Vec<String>,
    /// Aggregate a calendar week or month instead of listing a day.
    pub rollup: Option<Period>,
    /// Group by agent rather than by repository.
    pub by_agent: bool,
    /// Exit non-zero when the digest has nothing to report.
    pub fail_if_empty: bool,
    /// The reader's home directory, which paths are shown relative to.
    pub home: Option<String>,
    /// Where the plugin was invoked from.
    pub scope: RepositoryScope,
}

#[verifier::ext_equal]
pub struct ConfigView {
    pub since: Text,
    pub since_is_explicit: bool,
    pub until: Option<Text>,
    pub since_last: bool,
    pub record_run: bool,
    pub format: Format,
    pub max_commits: usize,
    pub include_quiet: bool,
    pub include_siblings: bool,
    pub git_timeout: u64,
    pub extra_paths: Seq<Text>,
    pub offline: bool,
    pub ignore: Seq<Text>,
    pub rollup: Option<Period>,
    pub by_agent: bool,
    pub fail_if_empty: bool,
    pub home: Option<Text>,
    pub scope: RepositoryScope<Text>,
}

impl View for Config {
    type V = ConfigView;

    open spec fn view(&self) -> ConfigView {
        ConfigView {
            since: self.since@,
            since_is_explicit: self.since_is_explicit,
            until: strings::view_of(self.until),
            since_last: self.since_last,
            record_run: self.record_run,
            format: self.format,
            max_commits: self.max_commits,
            include_quiet: self.include_quiet,
            include_siblings: self.include_siblings,
            git_timeout: self.git_timeout,
            extra_paths: strings::views(self.extra_paths@),
            offline: self.offline,
            ignore: strings::views(self.ignore@),
            rollup: self.rollup,
            by_agent: self.by_agent,
            fail_if_empty: self.fail_if_empty,
            home: strings::view_of(self.home),
            scope: self.scope@,
        }
    }
}

impl Clone for Config {
    fn clone(&self) -> (out: Self)
        ensures
            out@ == self@,
    {
        Config {
            since: self.since.clone(),
            since_is_explicit: self.since_is_explicit,
            until: strings::clone_option(&self.until),
            since_last: self.since_last,
            record_run: self.record_run,
            format: self.format,
            max_commits: self.max_commits,
            include_quiet: self.include_quiet,
            include_siblings: self.include_siblings,
            git_timeout: self.git_timeout,
            extra_paths: strings::clone_list(&self.extra_paths),
            offline: self.offline,
            ignore: strings::clone_list(&self.ignore),
            rollup: self.rollup,
            by_agent: self.by_agent,
            fail_if_empty: self.fail_if_empty,
            home: strings::clone_option(&self.home),
            scope: self.scope.clone(),
        }
    }
}

impl ConfigView {
    pub open spec fn built_in() -> ConfigView {
        ConfigView {
            since: DEFAULT_SINCE@,
            since_is_explicit: false,
            until: None,
            since_last: false,
            record_run: false,
            format: Format::Text,
            max_commits: 10,
            include_quiet: true,
            include_siblings: true,
            git_timeout: 20,
            extra_paths: Seq::empty(),
            offline: false,
            ignore: strings::views(DEFAULT_IGNORED_PATHS@),
            rollup: None,
            by_agent: false,
            fail_if_empty: false,
            home: None,
            scope: RepositoryScope::anywhere(),
        }
    }
}

impl Default for Config {
    fn default() -> (out: Self)
        ensures
            out@ == ConfigView::built_in(),
    {
        broadcast use strings::group_lists;

        Config {
            since: DEFAULT_SINCE.to_string(),
            since_is_explicit: false,
            until: None,
            since_last: false,
            record_run: false,
            format: Format::Text,
            max_commits: 10,
            include_quiet: true,
            include_siblings: true,
            git_timeout: 20,
            extra_paths: Vec::new(),
            offline: false,
            ignore: strings::strings_of(DEFAULT_IGNORED_PATHS.as_slice()),
            rollup: None,
            by_agent: false,
            fail_if_empty: false,
            home: None,
            scope: RepositoryScope::default(),
        }
    }
}

impl Config {
    pub fn repository_scope(&self) -> (out: &RepositoryScope)
        ensures
            out@ == self@.scope,
    {
        &self.scope
    }
}

/// The format an option asks for, or the one that stands without it.
#[verifier::opaque]
pub open spec fn chosen_format(raw: Option<Text>, otherwise: Format) -> Result<Format, Text> {
    match raw {
        Some(raw) => format_named(raw),
        None => Ok(otherwise),
    }
}

/// The limit an option asks for, or the one that stands without it.
#[verifier::opaque]
pub open spec fn chosen_limit(raw: Option<Text>, otherwise: usize) -> Result<usize, Text> {
    match raw {
        Some(raw) => match strings::unsigned_value(strings::trimmed(raw), usize::MAX as nat) {
            Ok(n) => Ok(n as usize),
            Err(error) => Err("--max-commits "@ + raw + ": "@ + error.text()),
        },
        None => Ok(otherwise),
    }
}

/// The configuration with what the arguments ask for put over it, before any
/// contradiction is looked for.
pub open spec fn overlaid(base: ConfigView, args: ArgumentsView) -> Result<ConfigView, Text> {
    let format = chosen_format(args.value("--format"@), base.format);
    let max_commits = chosen_limit(args.value("--max-commits"@), base.max_commits);
    match (format, max_commits) {
        (Err(message), _) => Err(message),
        (_, Err(message)) => Err(message),
        (Ok(format), Ok(max_commits)) => Ok(
            ConfigView {
                since: match args.value("--since"@) {
                    Some(since) => since,
                    None => base.since,
                },
                since_is_explicit: base.since_is_explicit || args.value("--since"@) is Some,
                until: match args.value("--until"@) {
                    Some(until) => Some(until),
                    None => base.until,
                },
                format,
                max_commits,
                extra_paths: base.extra_paths + all_values(args.values, "--path"@),
                since_last: base.since_last || args.has("--since-last"@),
                include_quiet: if args.has("--busy"@) {
                    false
                } else {
                    base.include_quiet || args.has("--all"@)
                },
                offline: base.offline || args.has("--offline"@),
                include_siblings: base.include_siblings && !args.has("--no-siblings"@),
                rollup: if args.has("--monthly"@) {
                    Some(Period::Month)
                } else if args.has("--weekly"@) {
                    Some(Period::Week)
                } else {
                    base.rollup
                },
                by_agent: base.by_agent || args.has("--by-agent"@),
                fail_if_empty: base.fail_if_empty || args.has("--fail-if-empty"@),
                ..base
            },
        ),
    }
}

pub open spec fn rollup_conflict(period: Period, option: Text) -> Text {
    period.flag_text() + " and "@ + option
        + " are mutually exclusive: a rollup covers a calendar "@ + period.noun_text()
        + ", which is the whole point of asking for one"@
}

/// What two of the options contradict each other about, if they do. Two
/// options that answer the same question are refused by name rather than one
/// quietly winning.
pub open spec fn contradiction(config: ConfigView, args: ArgumentsView) -> Option<Text> {
    if config.since_last && args.value("--since"@) is Some {
        Some("--since and --since-last are mutually exclusive"@)
    } else {
        match config.rollup {
            None => None,
            Some(period) => if args.has("--weekly"@) && args.has("--monthly"@) {
                Some("--weekly and --monthly are mutually exclusive"@)
            } else if args.value("--since"@) is Some {
                Some(rollup_conflict(period, "--since"@))
            } else if args.value("--until"@) is Some {
                Some(rollup_conflict(period, "--until"@))
            } else if config.since_last {
                Some(period.flag_text() + " and --since-last are mutually exclusive"@)
            } else {
                None
            },
        }
    }
}

/// The configuration a run works with.
pub open spec fn loaded(base: ConfigView, args: ArgumentsView) -> Result<ConfigView, Text> {
    match overlaid(base, args) {
        Err(message) => Err(message),
        Ok(config) => match contradiction(config, args) {
            Some(message) => Err(message),
            None => Ok(config),
        },
    }
}

/// Reads the command line over a base configuration.
pub fn load_with_args(args: &[String], base: Config) -> (out: Result<Config, String>)
    ensures
        outcome(
            out,
            match interpreted(strings::views(args@)) {
                Ok(parsed) => loaded(base@, parsed),
                Err(message) => Err(message),
            },
        ),
{
    match Arguments::parse(args) {
        Ok(parsed) => load_with_parsed_args(&parsed, base),
        Err(message) => Err(message),
    }
}

/// The message for an option that a rollup leaves no room for.
fn conflict_with(period: Period, option: &str) -> (out: String)
    ensures
        out@ == rollup_conflict(period, option@),
{
    let start = strings::cat4(
        period.flag(),
        " and ",
        option,
        " are mutually exclusive: a rollup covers a calendar ",
    );
    strings::cat3(start.as_str(), period.noun(), ", which is the whole point of asking for one")
}

fn text_or(value: Option<&str>, otherwise: String) -> (out: String)
    ensures
        out@ == match value {
            Some(given) => given@,
            None => otherwise@,
        },
{
    match value {
        Some(given) => given.to_string(),
        None => otherwise,
    }
}

fn format_or(raw: Option<&str>, otherwise: Format) -> (out: Result<Format, String>)
    ensures
        outcome(out, chosen_format(strings::view_of(raw), otherwise)),
{
    reveal(chosen_format);
    match raw {
        Some(given) => Format::parse(given),
        None => Ok(otherwise),
    }
}

fn limit_or(raw: Option<&str>, otherwise: usize) -> (out: Result<usize, String>)
    ensures
        outcome(out, chosen_limit(strings::view_of(raw), otherwise)),
{
    reveal(chosen_limit);
    match raw {
        Some(given) => match strings::parse_unsigned(strings::trim(given).as_str(), usize::MAX as u64) {
            Ok(n) => Ok(n as usize),
            Err(error) => Err(strings::cat4("--max-commits ", given, ": ", error.message())),
        },
        None => Ok(otherwise),
    }
}

fn overlay(args: &Arguments, base: Config) -> (out: Result<Config, String>)
    ensures
        outcome(out, overlaid(base@, args@)),
{
    let format = match format_or(args.value("--format"), base.format) {
        Ok(format) => format,
        Err(message) => {
            return Err(message);
        },
    };
    let max_commits = match limit_or(args.value("--max-commits"), base.max_commits) {
        Ok(n) => n,
        Err(message) => {
            return Err(message);
        },
    };
    let mut extra_paths = base.extra_paths;
    let mut more = args.values_of("--path");
    let ghost own = extra_paths@;
    let ghost added = more@;
    extra_paths.append(&mut more);
    proof {
        strings::lemma_views_add(own, added);
    }
    let until = match args.value("--until") {
        Some(until) => Some(until.to_string()),
        None => base.until,
    };
    let rollup = if args.has("--monthly") {
        Some(Period::Month)
    } else if args.has("--weekly") {
        Some(Period::Week)
    } else {
        base.rollup
    };
    let include_quiet = !args.has("--busy") && (base.include_quiet || args.has("--all"));
    Ok(
        Config {
            since: text_or(args.value("--since"), base.since),
            since_is_explicit: base.since_is_explicit || args.value("--since").is_some(),
            until,
            since_last: base.since_last || args.has("--since-last"),
            record_run: base.record_run,
            format,
            max_commits,
            include_quiet,
            include_siblings: base.include_siblings && !args.has("--no-siblings"),
            git_timeout: base.git_timeout,
            extra_paths,
            offline: base.offline || args.has("--offline"),
            ignore: base.ignore,
            rollup,
            by_agent: base.by_agent || args.has("--by-agent"),
            fail_if_empty: base.fail_if_empty || args.has("--fail-if-empty"),
            home: base.home,
            scope: base.scope,
        },
    )
}

fn find_contradiction(config: &Config, args: &Arguments) -> (out: Option<String>)
    ensures
        strings::view_of(out) == contradiction(config@, args@),
{
    if config.since_last && args.value("--since").is_some() {
        return Some("--since and --since-last are mutually exclusive".to_string());
    }
    match config.rollup {
        None => None,
        Some(period) => {
            if args.has("--weekly") && args.has("--monthly") {
                Some("--weekly and --monthly are mutually exclusive".to_string())
            } else if args.value("--since").is_some() {
                Some(conflict_with(period, "--since"))
            } else if args.value("--until").is_some() {
                Some(conflict_with(period, "--until"))
            } else if config.since_last {
                Some(strings::cat2(period.flag(), " and --since-last are mutually exclusive"))
            } else {
                None
            }
        },
    }
}

/// Puts a parsed command line over a base configuration.
pub fn load_with_parsed_args(args: &Arguments, base: Config) -> (out: Result<Config, String>)
    ensures
        outcome(out, loaded(base@, args@)),
{
    match overlay(args, base) {
        Err(message) => Err(message),
        Ok(config) => match find_contradiction(&config, args) {
            Some(message) => Err(message),
            None => Ok(config),
        },
    }
}

/// Two window starts are never ranked: whatever the configuration, a command
/// line that asks for both is refused.
pub proof fn law_contradictory_windows_are_refused(base: ConfigView, args: ArgumentsView)
    requires
        args.has("--since-last"@) && args.value("--since"@) is Some,
    ensures
        loaded(base, args) is Err,
{
}

/// A rollup covers a calendar period, so it shares the window with nothing.
pub proof fn law_a_rollup_shares_the_window_with_nothing(base: ConfigView, args: ArgumentsView)
    requires
        args.has("--weekly"@) || args.has("--monthly"@),
        args.value("--since"@) is Some || args.value("--until"@) is Some || args.has(
            "--since-last"@,
        ) || (args.has("--weekly"@) && args.has("--monthly"@)),
    ensures
        loaded(base, args) is Err,
{
}

// ---------------------------------------------------------------------------
// The config file
// ---------------------------------------------------------------------------

/// What a config file says. Every field is optional.
#[derive(Debug, PartialEq, Eq)]
pub struct FileConfig {
    pub since: Option<String>,
    pub format: Option<String>,
    pub max_commits: Option<usize>,
    pub include_quiet: Option<bool>,
    pub git_timeout_seconds: Option<u64>,
    pub ignore: Option<Vec<String>>,
}

/// The built-in configuration with what a config file says put over it. A
/// format that does not parse leaves the default; a blank start and a timeout
/// of nothing count as not given; an empty ignore list is honoured.
pub open spec fn filed(file: FileConfig) -> ConfigView {
    let base = ConfigView::built_in();
    let since_given = file.since is Some && strings::trimmed(file.since->0@).len() > 0;
    ConfigView {
        since: if since_given {
            file.since->0@
        } else {
            base.since
        },
        since_is_explicit: since_given,
        format: match file.format {
            Some(raw) => match format_named(raw@) {
                Ok(format) => format,
                Err(_) => base.format,
            },
            None => base.format,
        },
        max_commits: match file.max_commits {
            Some(n) => n,
            None => base.max_commits,
        },
        include_quiet: match file.include_quiet {
            Some(quiet) => quiet,
            None => base.include_quiet,
        },
        git_timeout: if file.git_timeout_seconds is Some && file.git_timeout_seconds->0 > 0 {
            file.git_timeout_seconds->0
        } else {
            base.git_timeout
        },
        ignore: match file.ignore {
            Some(ignore) => strings::views(ignore@),
            None => base.ignore,
        },
        ..base
    }
}

/// The error of a format name that a config file gives and nothing answers to.
pub open spec fn file_complaint(file: FileConfig) -> Option<Text> {
    match file.format {
        Some(raw) => match format_named(raw@) {
            Ok(_) => None,
            Err(message) => Some(message),
        },
        None => None,
    }
}

/// Puts a config file over the built-in configuration. What is wrong with the
/// file comes back beside the result, for a warning: it is never fatal.
pub fn load_file(file: FileConfig) -> (out: (Config, Option<String>))
    ensures
        out.0@ == filed(file),
        strings::view_of(out.1) == file_complaint(file),
{
    let ghost given = file;
    let mut config = Config::default();
    let mut complaint: Option<String> = None;
    if let Some(since) = file.since {
        if !strings::is_empty(strings::trim(since.as_str()).as_str()) {
            config.since = since;
            config.since_is_explicit = true;
        }
    }
    if let Some(raw) = file.format {
        match Format::parse(raw.as_str()) {
            Ok(format) => {
                config.format = format;
            },
            Err(message) => {
                complaint = Some(message);
            },
        }
    }
    if let Some(max) = file.max_commits {
        config.max_commits = max;
    }
    if let Some(quiet) = file.include_quiet {
        config.include_quiet = quiet;
    }
    if let Some(seconds) = file.git_timeout_seconds {
        if seconds > 0 {
            config.git_timeout = seconds;
        }
    }
    if let Some(ignore) = file.ignore {
        config.ignore = ignore;
    }
    (config, complaint)
}

// ---------------------------------------------------------------------------
// Running
// ---------------------------------------------------------------------------

/// The format a verb stands for, where it stands for one.
pub open spec fn verb_format(verb: Verb) -> Option<Format> {
    match verb {
        Verb::Markdown => Some(Format::Markdown),
        Verb::Slack => Some(Format::Slack),
        Verb::Html => Some(Format::Html),
        Verb::Json => Some(Format::Json),
        _ => None,
    }
}

/// The configuration of a run that prints a digest: the verb picks the format
/// unless `--format` said otherwise, and only a run that a person reads is
/// recorded.
pub open spec fn settled(config: ConfigView, args: ArgumentsView) -> ConfigView {
    let format = if args.value("--format"@) is None && verb_format(args.verb) is Some {
        verb_format(args.verb)->0
    } else {
        config.format
    };
    ConfigView { format, record_run: format != Format::Json, ..config }
}

pub fn settle(config: Config, args: &Arguments) -> (out: Config)
    ensures
        out@ == settled(config@, args@),
{
    let mut config = config;
    if args.value("--format").is_none() {
        match args.verb() {
            Verb::Markdown => {
                config.format = Format::Markdown;
            },
            Verb::Slack => {
                config.format = Format::Slack;
            },
            Verb::Html => {
                config.format = Format::Html;
            },
            Verb::Json => {
                config.format = Format::Json;
            },
            _ => {},
        }
    }
    config.record_run = config.format != Format::Json;
    config
}

/// A run in the machine-readable format never moves the marker that
/// `--since-last` starts from, and every other run does.
pub proof fn law_only_a_run_a_person_reads_is_recorded(config: ConfigView, args: ArgumentsView)
    ensures
        settled(config, args).record_run <==> settled(config, args).format != Format::Json,
{
}

/// Exit status when `--fail-if-empty` finds nothing to report. Two, because one
/// means that the run failed and a quiet day is not a failure.
pub const EXIT_EMPTY: i32 = 2;

/// The exit status for a run that has already printed its output.
pub fn empty_status(config: &Config, quiet: bool) -> (status: i32)
    ensures
        status == if config@.fail_if_empty && quiet {
            2i32
        } else {
            0i32
        },
{
    if config.fail_if_empty && quiet {
        EXIT_EMPTY
    } else {
        0
    }
}

// ---------------------------------------------------------------------------
// Directories
// ---------------------------------------------------------------------------

/// The parts of the process environment that directories are chosen by, as they
/// were found.
#[derive(Debug, PartialEq, Eq)]
pub struct Environment<T = String> {
    pub plugin_id: Option<T>,
    pub plugin_state_dir: Option<T>,
    pub plugin_config_dir: Option<T>,
    pub xdg_state_home: Option<T>,
    pub xdg_config_home: Option<T>,
    pub home: Option<T>,
    pub temp_dir: T,
}

impl View for Environment {
    type V = Environment<Text>;

    open spec fn view(&self) -> Environment<Text> {
        Environment {
            plugin_id: strings::view_of(self.plugin_id),
            plugin_state_dir: strings::view_of(self.plugin_state_dir),
            plugin_config_dir: strings::view_of(self.plugin_config_dir),
            xdg_state_home: strings::view_of(self.xdg_state_home),
            xdg_config_home: strings::view_of(self.xdg_config_home),
            home: strings::view_of(self.home),
            temp_dir: self.temp_dir@,
        }
    }
}

/// A value that is there and not blank: absent context arrives as empty
/// strings.
pub open spec fn given(value: Option<Text>) -> Option<Text> {
    match value {
        Some(held) => if strings::trimmed(held).len() > 0 {
            value
        } else {
            None
        },
        None => None,
    }
}

/// A variable's value, unset where it is blank.
pub fn non_empty_env(value: &Option<String>) -> (out: Option<String>)
    ensures
        strings::view_of(out) == given(strings::view_of(*value)),
{
    match value {
        Some(held) => if strings::is_empty(strings::trim(held.as_str()).as_str()) {
            None
        } else {
            Some(held.clone())
        },
        None => None,
    }
}

/// A base directory: an absolute variable wins, and a relative one is ignored.
pub open spec fn base_dir(
    variable: Option<Text>,
    home: Option<Text>,
    temp_dir: Text,
    relative: Text,
) -> Text {
    match given(variable) {
        Some(base) if paths::absolute(base) => base,
        _ => match given(home) {
            Some(home) if paths::absolute(home) => paths::below(home, relative),
            _ => paths::below(temp_dir, "herdr-no-home"@),
        },
    }
}

fn xdg_dir(
    variable: &Option<String>,
    home: &Option<String>,
    temp_dir: &str,
    relative: &str,
) -> (out: String)
    ensures
        out@ == base_dir(strings::view_of(*variable), strings::view_of(*home), temp_dir@, relative@),
{
    if let Some(base) = non_empty_env(variable) {
        if paths::is_absolute(base.as_str()) {
            return base;
        }
    }
    if let Some(home) = non_empty_env(home) {
        if paths::is_absolute(home.as_str()) {
            return paths::join(home.as_str(), relative);
        }
    }
    paths::join(temp_dir, "herdr-no-home")
}

impl Environment<Text> {
    pub open spec fn id(self) -> Text {
        match given(self.plugin_id) {
            Some(id) => id,
            None => PLUGIN_ID@,
        }
    }

    pub open spec fn state(self) -> Text {
        match given(self.plugin_state_dir) {
            Some(dir) => dir,
            None => {
                let base = base_dir(
                    self.xdg_state_home,
                    self.home,
                    self.temp_dir,
                    ".local/state"@,
                );
                paths::below(paths::below(paths::below(base, "herdr"@), "plugins"@), self.id())
            },
        }
    }

    pub open spec fn settings(self) -> Text {
        match given(self.plugin_config_dir) {
            Some(dir) => dir,
            None => {
                let base = base_dir(self.xdg_config_home, self.home, self.temp_dir, ".config"@);
                paths::below(
                    paths::below(paths::below(paths::below(base, "herdr"@), "plugins"@), "config"@),
                    self.id(),
                )
            },
        }
    }
}

pub fn plugin_id(env: &Environment) -> (out: String)
    ensures
        out@ == env@.id(),
{
    match non_empty_env(&env.plugin_id) {
        Some(id) => id,
        None => PLUGIN_ID.to_string(),
    }
}

/// Where the plugin keeps its state.
pub fn state_dir(env: &Environment) -> (out: String)
    ensures
        out@ == env@.state(),
{
    match non_empty_env(&env.plugin_state_dir) {
        Some(dir) => dir,
        None => {
            let base = xdg_dir(
                &env.xdg_state_home,
                &env.home,
                env.temp_dir.as_str(),
                ".local/state",
            );
            let herdr = paths::join(base.as_str(), "herdr");
            let plugins = paths::join(herdr.as_str(), "plugins");
            paths::join(plugins.as_str(), plugin_id(env).as_str())
        },
    }
}

/// Where the config file lives.
pub fn config_dir(env: &Environment) -> (out: String)
    ensures
        out@ == env@.settings(),
{
    match non_empty_env(&env.plugin_config_dir) {
        Some(dir) => dir,
        None => {
            let base = xdg_dir(&env.xdg_config_home, &env.home, env.temp_dir.as_str(), ".config");
            let herdr = paths::join(base.as_str(), "herdr");
            let plugins = paths::join(herdr.as_str(), "plugins");
            let config = paths::join(plugins.as_str(), "config");
            paths::join(config.as_str(), plugin_id(env).as_str())
        },
    }
}

pub fn config_file(env: &Environment) -> (out: String)
    ensures
        out@ == paths::below(env@.settings(), "config.json"@),
{
    paths::join(config_dir(env).as_str(), "config.json")
}

/// Marker holding the timestamp of the last run that a person read.
pub fn last_run_file(env: &Environment) -> (out: String)
    ensures
        out@ == paths::below(env@.state(), "last-run.json"@),
{
    paths::join(state_dir(env).as_str(), "last-run.json")
}

/// The plumbing cache, beside the marker.
pub fn cache_file(env: &Environment) -> (out: String)
    ensures
        out@ == paths::below(env@.state(), "plumbing-cache.json"@),
{
    paths::join(state_dir(env).as_str(), "plumbing-cache.json")
}

/// A throwaway repository used only to read dates in when the session has no
/// checkouts of its own.
pub fn date_ref_repo(env: &Environment) -> (out: String)
    ensures
        out@ == paths::below(env@.state(), "dateref.git"@),
{
    paths::join(state_dir(env).as_str(), "dateref.git")
}

/// The state directory that the host hands over wins over every other
/// variable, so a run from the host and a run from a shell that inherits its
/// environment share one marker.
pub proof fn law_the_hosts_state_directory_wins(env: Environment<Text>)
    requires
        given(env.plugin_state_dir) is Some,
    ensures
        Some(env.state()) == env.plugin_state_dir,
{
}

// ---------------------------------------------------------------------------
// Laws
// ---------------------------------------------------------------------------

/// A star stands for any run of characters without a slash, also for none.
pub proof fn law_a_star_stands_for_part_of_a_name(rest: Text, s: Text)
    ensures
        glob(seq!['*'] + rest, s) <==> exists|k: int|
            0 <= k <= s.len() && !s.take(k).contains('/') && glob(rest, #[trigger] s.skip(k)),
    decreases s.len(),
{
    let pattern = seq!['*'] + rest;
    assert(pattern.drop_first() =~= rest);
    assert(s.skip(0) =~= s);
    assert(s.take(0) =~= Seq::empty());
    if s.len() > 0 {
        let tail = s.drop_first();
        law_a_star_stands_for_part_of_a_name(rest, tail);
        if glob(pattern, s) && !glob(rest, s) {
            let k = choose|k: int|
                0 <= k <= tail.len() && !tail.take(k).contains('/') && glob(
                    rest,
                    #[trigger] tail.skip(k),
                );
            assert(s.skip(k + 1) =~= tail.skip(k));
            if s.take(k + 1).contains('/') {
                let head = s.take(k + 1);
                let j = choose|j: int| 0 <= j < head.len() && head[j] == '/';
                if j > 0 {
                    assert(tail.take(k)[j - 1] == '/');
                }
            }
        }
        if exists|k: int|
            0 <= k <= s.len() && !s.take(k).contains('/') && glob(rest, #[trigger] s.skip(k)) {
            let k = choose|k: int|
                0 <= k <= s.len() && !s.take(k).contains('/') && glob(rest, #[trigger] s.skip(k));
            if k > 0 {
                assert(s.take(k)[0] == s[0]);
                assert(s.take(k).contains(s[0]));
                assert(tail.skip(k - 1) =~= s.skip(k));
                if tail.take(k - 1).contains('/') {
                    let head = tail.take(k - 1);
                    let j = choose|j: int| 0 <= j < head.len() && head[j] == '/';
                    assert(s.take(k)[j + 1] == '/');
                }
            }
        }
    } else {
        if exists|k: int|
            0 <= k <= s.len() && !s.take(k).contains('/') && glob(rest, #[trigger] s.skip(k)) {
            let k = choose|k: int|
                0 <= k <= s.len() && !s.take(k).contains('/') && glob(rest, #[trigger] s.skip(k));
            assert(k == 0);
        }
    }
}

/// Every other character stands for itself.
pub proof fn law_other_characters_stand_for_themselves(plain: Text, rest: Text, s: Text)
    requires
        !plain.contains('*'),
    ensures
        glob(plain + rest, s) <==> strings::begins(s, plain) && glob(
            rest,
            s.skip(plain.len() as int),
        ),
    decreases plain.len(),
{
    if plain.len() == 0 {
        assert(plain + rest =~= rest);
        assert(s.skip(0) =~= s);
        assert(s.take(0) =~= plain);
    } else {
        let fewer = plain.drop_first();
        assert(plain.contains(plain[0]));
        if fewer.contains('*') {
            let i = choose|i: int| 0 <= i < fewer.len() && fewer[i] == '*';
            assert(plain[i + 1] == '*');
        }
        assert((plain + rest).drop_first() =~= fewer + rest);
        assert((plain + rest)[0] == plain[0]);
        if s.len() > 0 {
            let tail = s.drop_first();
            law_other_characters_stand_for_themselves(fewer, rest, tail);
            if s.len() >= plain.len() {
                assert(tail.skip(fewer.len() as int) =~= s.skip(plain.len() as int));
                assert(s.take(plain.len() as int).drop_first() =~= tail.take(fewer.len() as int));
                assert(s.take(plain.len() as int)[0] == s[0]);
                if s[0] == plain[0] && tail.take(fewer.len() as int) == fewer {
                    assert(s.take(plain.len() as int) =~= seq![s[0]] + tail.take(
                        fewer.len() as int,
                    ));
                    assert(seq![plain[0]] + fewer =~= plain);
                    assert(s.take(plain.len() as int) =~= plain);
                }
            }
        }
    }
}

/// A pattern without a slash is about the name of the file, wherever it lies; one
/// with a slash inside is about the whole path.
pub proof fn law_a_pattern_without_a_slash_is_about_the_name(
    pattern: Text,
    dir: Text,
    file: Text,
    path: Text,
)
    requires
        !file.contains('/'),
    ensures
        !pattern.contains('/') ==> (covers(pattern, dir.push('/') + file) <==> glob(pattern, file)),
        !pattern.contains('/') ==> (covers(pattern, file) <==> glob(pattern, file)),
        pattern.contains('/') && pattern.last() != '/' ==> (covers(pattern, path) <==> glob(
            pattern,
            path,
        )),
{
    strings::law_what_stands_behind_the_last_separator(dir, '/', file);
    if pattern.len() > 0 {
        assert(pattern.contains(pattern[pattern.len() - 1]));
    }
}

/// A pattern that ends in a slash is about a directory of that name, anywhere
/// above the file, and never about the file itself.
pub proof fn law_a_pattern_with_a_slash_behind_it_is_about_a_directory(
    name: Text,
    above: Text,
    file: Text,
    rest: Text,
)
    requires
        !name.contains('/'),
        !file.contains('/'),
    ensures
        covers(name.push('/'), name.push('/') + rest),
        covers(name.push('/'), above.push('/') + (name.push('/') + rest)),
        !covers(name.push('/'), file),
        covers(name.push('/'), above.push('/') + file) <==> strings::pieces(above, '/').contains(
            name,
        ),
{
    broadcast use strings::lemma_pieces_exist;

    let pattern = name.push('/');
    assert(pattern.drop_last() =~= name);
    let inner = name.push('/') + rest;
    strings::law_pieces_come_apart_at_the_separator(name, '/', rest);
    strings::law_a_text_without_the_separator_is_one_piece(name, '/');
    let near = strings::pieces(inner, '/');
    assert(near[0] == name);
    assert(near.drop_last()[0] == name);
    strings::law_pieces_come_apart_at_the_separator(above, '/', inner);
    let far = strings::pieces(above.push('/') + inner, '/');
    let k = strings::pieces(above, '/').len() as int;
    assert(far[k] == near[0]);
    assert(far.drop_last()[k] == name);
    strings::law_a_text_without_the_separator_is_one_piece(file, '/');
    assert(strings::pieces(file, '/').drop_last() =~= Seq::empty());
    strings::law_pieces_come_apart_at_the_separator(above, '/', file);
    assert(strings::pieces(above.push('/') + file, '/').drop_last() =~= strings::pieces(above, '/'));
}

/// The patterns of a list are kept in their order without the white space around
/// them, and a blank one is none.
pub proof fn law_a_blank_pattern_is_none(patterns: Seq<Text>, pattern: Text)
    ensures
        tidied(Seq::empty()) == Seq::<Text>::empty(),
        strings::blank(pattern) ==> tidied(patterns.push(pattern)) == tidied(patterns),
        !strings::blank(pattern) ==> tidied(patterns.push(pattern)) == tidied(patterns).push(
            strings::trimmed(pattern),
        ),
{
    assert(patterns.push(pattern).drop_last() =~= patterns);
    strings::law_trimming_takes_white_space_off_the_ends(pattern);
}

/// A value is given behind an equals sign or as the next argument, which is the
/// same, unless what follows is an argument itself; whatever a value holds, it is
/// taken as it is.
pub proof fn law_a_value_is_given_in_two_ways(
    name: Text,
    value: Text,
    rest: Seq<Text>,
    read: ArgumentsSoFar,
)
    requires
        is_valued(name),
        !name.contains('='),
    ensures
        interpreted_from(seq![name.push('=') + value] + rest, read) == interpreted_from(
            rest,
            ArgumentsSoFar { values: read.values.push((name, value)), ..read },
        ),
        classified(value) is Unknown ==> interpreted_from(seq![name, value] + rest, read)
            == interpreted_from(seq![name.push('=') + value] + rest, read),
        !(classified(value) is Unknown) ==> interpreted_from(seq![name, value] + rest, read) is Err,
        interpreted_from(seq![name], read) is Err,
{
    strings::law_a_text_is_parted_at_the_first_separator(name, '=', value);
    strings::law_parted_is_exact(name, '=');
    let one = seq![name.push('=') + value] + rest;
    let two = seq![name, value] + rest;
    assert(one.drop_first() =~= rest);
    assert(two.drop_first()[0] == value);
    assert(two.drop_first().drop_first() =~= rest);
    assert(seq![name].drop_first() =~= Seq::empty());
}

/// A switch is remembered and takes no value; of an argument that is none of all
/// these it is said which one it was.
pub proof fn law_what_is_no_argument_is_named(
    raw: Text,
    name: Text,
    value: Text,
    rest: Seq<Text>,
    read: ArgumentsSoFar,
)
    requires
        is_standalone(name),
        !is_valued(name),
        !name.contains('='),
    ensures
        interpreted_from(seq![name] + rest, read) == interpreted_from(
            rest,
            ArgumentsSoFar { standalone: read.standalone.push(name), ..read },
        ),
        interpreted_from(seq![name.push('=') + value] + rest, read) is Err,
        classified(raw) is Unknown ==> interpreted_from(seq![raw] + rest, read) is Err
            && strings::holds(interpreted_from(seq![raw] + rest, read)->Err_0, raw),
{
    broadcast use strings::lemma_holds_together;

    strings::lemma_holds_itself(raw);
    strings::law_a_text_is_parted_at_the_first_separator(name, '=', value);
    strings::law_parted_is_exact(name, '=');
    assert((seq![name] + rest).drop_first() =~= rest);
    assert((seq![name.push('=') + value] + rest).drop_first() =~= rest);
    assert((seq![raw] + rest).drop_first() =~= rest);
}

/// There is one verb at most: the first is taken, a second one is refused, and
/// without any the report is.
pub proof fn law_there_is_one_verb(raw: Text, rest: Seq<Text>, read: ArgumentsSoFar)
    requires
        classified(raw) is Action,
        !(classified(raw)->verb is Help),
    ensures
        read.verb is Some ==> interpreted_from(seq![raw] + rest, read) is Err,
        read.verb is None ==> interpreted_from(seq![raw] + rest, read) == interpreted_from(
            rest,
            ArgumentsSoFar { verb: Some(classified(raw)->verb), ..read },
        ),
        interpreted_from(Seq::empty(), read) is Ok,
        ({
            let done = interpreted_from(Seq::empty(), read)->Ok_0;
            &&& done.values == read.values
            &&& done.standalone == read.standalone
            &&& read.verb is Some ==> done.verb == read.verb->0
            &&& read.verb is None ==> done.verb == Verb::Report
        }),
{
    assert((seq![raw] + rest).drop_first() =~= rest);
}

/// A value is that of its own name, the last one given for it; what is given
/// under another name changes nothing.
pub proof fn law_another_name_changes_nothing(
    values: Seq<(Text, Text)>,
    name: Text,
    other: Text,
    value: Text,
)
    requires
        name != other,
    ensures
        last_value(values.push((other, value)), name) == last_value(values, name),
        all_values(values.push((other, value)), name) == all_values(values, name),
        last_value(Seq::empty(), name) is None,
        all_values(Seq::empty(), name).len() == 0,
{
    assert(values.push((other, value)).drop_last() =~= values);
}

/// A format goes by its names, in any case and with white space around them; what
/// is none of them is refused, and named.
pub proof fn law_a_format_goes_by_its_names(raw: Text)
    ensures
        ({
            let name = strings::lowered(strings::trimmed(raw));
            &&& format_named(raw) == Ok::<Format, Text>(Format::Text) <==> name == "text"@ || name
                == "plain"@
            &&& format_named(raw) == Ok::<Format, Text>(Format::Markdown) <==> name == "markdown"@
                || name == "md"@
            &&& format_named(raw) == Ok::<Format, Text>(Format::Slack) <==> name == "slack"@ || name
                == "mrkdwn"@
            &&& format_named(raw) == Ok::<Format, Text>(Format::Html) <==> name == "html"@
            &&& format_named(raw) == Ok::<Format, Text>(Format::Json) <==> name == "json"@
            &&& format_named(raw) is Err ==> strings::holds(format_named(raw)->Err_0, name)
        }),
{
    broadcast use strings::lemma_holds_together;

    let name = strings::lowered(strings::trimmed(raw));
    strings::lemma_holds_itself(name);
    reveal_strlit("text");
    reveal_strlit("plain");
    reveal_strlit("markdown");
    reveal_strlit("md");
    reveal_strlit("slack");
    reveal_strlit("mrkdwn");
    reveal_strlit("html");
    reveal_strlit("json");
    assert("text"@[0] == 't' && "html"@[0] == 'h' && "json"@[0] == 'j' && "slack"@[0] == 's'
        && "plain"@[0] == 'p');
    assert("md"@.len() == 2 && "markdown"@.len() == 8 && "mrkdwn"@.len() == 6 && "html"@.len() == 4
        && "text"@.len() == 4 && "json"@.len() == 4 && "slack"@.len() == 5 && "plain"@.len() == 5);
}

/// A limit is the number that is written, and what is no number is refused.
pub proof fn law_a_limit_is_the_number_written(n: usize, otherwise: usize)
    ensures
        chosen_limit(Some(strings::decimal(n as nat)), otherwise) == Ok::<usize, Text>(n),
        chosen_limit(None, otherwise) == Ok::<usize, Text>(otherwise),
{
    reveal(chosen_limit);
    let written = strings::decimal(n as nat);
    strings::law_a_written_number_reads_back(n as nat, usize::MAX as nat);
    strings::lemma_decimal_digits(n as nat);
    assert(strings::digit(written[0]) && strings::digit(written[written.len() - 1]));
    assert(strings::trimmed_start(written) == written);
    assert(strings::trimmed_end(written) == written);
}

/// What is no number is refused, and named.
pub proof fn law_what_is_no_limit_is_named(raw: Text, otherwise: usize)
    requires
        strings::unsigned_value(strings::trimmed(raw), usize::MAX as nat) is Err,
    ensures
        chosen_limit(Some(raw), otherwise) is Err,
        strings::holds(chosen_limit(Some(raw), otherwise)->Err_0, raw),
{
    reveal(chosen_limit);
    let error = strings::unsigned_value(strings::trimmed(raw), usize::MAX as nat)->Err_0;
    strings::lemma_holds_itself(raw);
    strings::lemma_holds_together("--max-commits "@, raw, raw);
    strings::lemma_holds_together("--max-commits "@ + raw, ": "@, raw);
    strings::lemma_holds_together("--max-commits "@ + raw + ": "@, error.text(), raw);
}

/// What is not asked for stays as it is.
pub proof fn law_what_is_not_asked_for_stays(base: ConfigView, args: ArgumentsView)
    requires
        args.values.len() == 0,
        args.standalone.len() == 0,
    ensures
        overlaid(base, args) == Ok::<ConfigView, Text>(base),
{
    reveal(chosen_limit);
    reveal(chosen_format);
    reveal(ArgumentsView::has);
    assert(all_values(args.values, "--path"@) =~= Seq::empty());
    assert(base.extra_paths + all_values(args.values, "--path"@) =~= base.extra_paths);
}

/// What is asked for is what is done: a value that is given wins over the one
/// before, every path is looked at as well, and a switch turns its setting and no
/// other.
pub proof fn law_what_is_asked_for_is_done(base: ConfigView, args: ArgumentsView)
    requires
        overlaid(base, args) is Ok,
    ensures
        ({
            let config = overlaid(base, args)->Ok_0;
            let kept = |name: Text, same: bool| args.value(name) is None ==> same;
            &&& args.value("--since"@) is Some ==> config.since == args.value("--since"@)->0
                && config.since_is_explicit
            &&& kept("--since"@, config.since == base.since && config.since_is_explicit
                == base.since_is_explicit)
            &&& args.value("--until"@) is Some ==> config.until == args.value("--until"@)
            &&& kept("--until"@, config.until == base.until)
            &&& args.value("--format"@) is Some ==> format_named(args.value("--format"@)->0) == Ok::<
                Format,
                Text,
            >(config.format)
            &&& kept("--format"@, config.format == base.format)
            &&& kept("--max-commits"@, config.max_commits == base.max_commits)
            &&& config.extra_paths == base.extra_paths + all_values(args.values, "--path"@)
            &&& config.since_last <==> base.since_last || args.standalone.contains("--since-last"@)
            &&& config.offline <==> base.offline || args.standalone.contains("--offline"@)
            &&& config.by_agent <==> base.by_agent || args.standalone.contains("--by-agent"@)
            &&& config.fail_if_empty <==> base.fail_if_empty || args.standalone.contains(
                "--fail-if-empty"@,
            )
            &&& config.include_siblings <==> base.include_siblings && !args.standalone.contains(
                "--no-siblings"@,
            )
            &&& args.standalone.contains("--busy"@) ==> !config.include_quiet
            &&& !args.standalone.contains("--busy"@) && args.standalone.contains("--all"@)
                ==> config.include_quiet
            &&& !args.standalone.contains("--busy"@) && !args.standalone.contains("--all"@)
                ==> config.include_quiet == base.include_quiet
            &&& args.standalone.contains("--monthly"@) ==> config.rollup == Some(Period::Month)
            &&& !args.standalone.contains("--monthly"@) && args.standalone.contains("--weekly"@)
                ==> config.rollup == Some(Period::Week)
            &&& !args.standalone.contains("--monthly"@) && !args.standalone.contains("--weekly"@)
                ==> config.rollup == base.rollup
            &&& config.git_timeout == base.git_timeout
            &&& config.ignore == base.ignore
            &&& config.home == base.home
            &&& config.scope == base.scope
            &&& config.record_run == base.record_run
        }),
{
    reveal(chosen_limit);
    reveal(chosen_format);
    reveal(ArgumentsView::has);
}

/// Options are refused exactly where they contradict each other: two starts of
/// one window, or a rollup with anything else that sets the window.
pub proof fn law_only_contradictions_are_refused(config: ConfigView, args: ArgumentsView)
    ensures
        contradiction(config, args) is Some <==> {
            ||| config.since_last && args.value("--since"@) is Some
            ||| config.rollup is Some && (args.value("--since"@) is Some || args.value("--until"@)
                is Some || config.since_last || args.standalone.contains("--weekly"@)
                && args.standalone.contains("--monthly"@))
        },
{
    reveal(ArgumentsView::has);
}

/// What a config file does not say is as it is built in; what it says counts,
/// apart from a blank start, a timeout of nothing and a format there is none of.
pub proof fn law_a_config_file_says_what_counts(file: FileConfig)
    ensures
        ({
            let config = filed(file);
            let base = ConfigView::built_in();
            &&& file.since is Some && !strings::blank(file.since->0@) ==> config.since
                == file.since->0@ && config.since_is_explicit
            &&& file.since is None || strings::blank(file.since->0@) ==> config.since == base.since
                && !config.since_is_explicit
            &&& file.max_commits is Some ==> config.max_commits == file.max_commits->0
            &&& file.max_commits is None ==> config.max_commits == base.max_commits
            &&& file.include_quiet is Some ==> config.include_quiet == file.include_quiet->0
            &&& file.include_quiet is None ==> config.include_quiet == base.include_quiet
            &&& file.git_timeout_seconds is Some && file.git_timeout_seconds->0 > 0
                ==> config.git_timeout == file.git_timeout_seconds->0
            &&& file.git_timeout_seconds is None || file.git_timeout_seconds->0 == 0
                ==> config.git_timeout == base.git_timeout
            &&& file.ignore is Some ==> config.ignore == strings::views((file.ignore->0)@)
            &&& file.ignore is None ==> config.ignore == base.ignore
            &&& file.format is Some && format_named(file.format->0@) is Ok ==> config.format
                == format_named(file.format->0@)->Ok_0 && file_complaint(file) is None
            &&& file.format is Some && format_named(file.format->0@) is Err ==> config.format
                == base.format && file_complaint(file) is Some
            &&& file.format is None ==> config.format == base.format && file_complaint(file) is None
            &&& config.until == base.until && config.extra_paths == base.extra_paths
                && config.offline == base.offline && config.include_siblings
                == base.include_siblings && config.rollup == base.rollup && config.since_last
                == base.since_last && config.by_agent == base.by_agent
        }),
{
    if file.since is Some {
        strings::law_trimming_takes_white_space_off_the_ends(file.since->0@);
    }
}

/// The format that was asked for by name wins over the verb, and a verb that
/// names one wins over the configuration. Only the format and what is recorded
/// are settled this way.
pub proof fn law_the_named_format_wins(config: ConfigView, args: ArgumentsView)
    ensures
        ({
            let done = settled(config, args);
            &&& args.value("--format"@) is Some ==> done.format == config.format
            &&& args.value("--format"@) is None ==> match args.verb {
                Verb::Markdown => done.format == Format::Markdown,
                Verb::Slack => done.format == Format::Slack,
                Verb::Html => done.format == Format::Html,
                Verb::Json => done.format == Format::Json,
                Verb::Report | Verb::Tui | Verb::Version | Verb::Help => done.format
                    == config.format,
            }
            &&& (ConfigView { format: config.format, record_run: config.record_run, ..done })
                == config
        }),
{
}

/// A setting of the environment that is blank is not given.
pub proof fn law_a_blank_setting_is_not_given(value: Option<Text>)
    ensures
        given(value) is Some <==> value is Some && !strings::blank(value->0),
        given(value) is Some ==> given(value) == value,
{
    if value is Some {
        strings::law_trimming_takes_white_space_off_the_ends(value->0);
    }
}

/// A base directory is the absolute one that is given, else one below an absolute
/// home, else one below the directory for temporary files; never one that
/// depends on where a run was started.
pub proof fn law_a_base_directory_is_absolute(
    variable: Option<Text>,
    home: Option<Text>,
    temp_dir: Text,
    relative: Text,
)
    ensures
        ({
            let found = base_dir(variable, home, temp_dir, relative);
            let usable = |value: Option<Text>|
                value is Some && !strings::blank(value->0) && paths::absolute(value->0);
            &&& usable(variable) ==> found == variable->0
            &&& !usable(variable) && usable(home) ==> found == paths::below(home->0, relative)
            &&& !usable(variable) && !usable(home) ==> found == paths::below(
                temp_dir,
                "herdr-no-home"@,
            )
            &&& paths::absolute(temp_dir) ==> paths::absolute(found)
        }),
{
    law_a_blank_setting_is_not_given(variable);
    law_a_blank_setting_is_not_given(home);
    reveal_strlit("herdr-no-home");
    reveal_strlit("/");
    assert("herdr-no-home"@[0] == 'h');
}

/// State and settings of a plugin lie below the base directories, in a directory
/// of its own, unless the host names another.
pub proof fn law_a_plugin_has_directories_of_its_own(env: Environment<Text>)
    requires
        paths::is_name(env.id()),
    ensures
        ({
            let state = base_dir(env.xdg_state_home, env.home, env.temp_dir, ".local/state"@);
            let settings = base_dir(env.xdg_config_home, env.home, env.temp_dir, ".config"@);
            &&& given(env.plugin_state_dir) is None ==> paths::inside(env.state(), state)
                && paths::last_name(env.state()) == Some(env.id())
            &&& given(env.plugin_config_dir) is None ==> paths::inside(env.settings(), settings)
                && paths::last_name(env.settings()) == Some(env.id())
            &&& given(env.plugin_config_dir) is Some ==> Some(env.settings())
                == env.plugin_config_dir
            &&& given(env.plugin_id) is Some ==> Some(env.id()) == env.plugin_id
        }),
{
    let state = base_dir(env.xdg_state_home, env.home, env.temp_dir, ".local/state"@);
    let settings = base_dir(env.xdg_config_home, env.home, env.temp_dir, ".config"@);
    lemma_own_directory(state, env.id());
    lemma_own_directory(settings, env.id());
}

proof fn lemma_own_directory(base: Text, id: Text)
    requires
        paths::is_name(id),
    ensures
        ({
            let plugins = paths::below(paths::below(base, "herdr"@), "plugins"@);
            &&& paths::inside(paths::below(plugins, id), base)
            &&& paths::last_name(paths::below(plugins, id)) == Some(id)
            &&& paths::inside(paths::below(paths::below(plugins, "config"@), id), base)
            &&& paths::last_name(paths::below(paths::below(plugins, "config"@), id)) == Some(id)
        }),
{
    reveal_strlit("herdr");
    reveal_strlit("plugins");
    reveal_strlit("config");
    reveal_strlit(".");
    reveal_strlit("..");
    assert("herdr"@.len() == 5 && "plugins"@.len() == 7 && "config"@.len() == 6);
    assert(!"herdr"@.contains('/'));
    assert(!"plugins"@.contains('/'));
    assert(!"config"@.contains('/'));
    let host = paths::below(base, "herdr"@);
    let plugins = paths::below(host, "plugins"@);
    let config = paths::below(plugins, "config"@);
    paths::law_below_is_one_step_further(base, "herdr"@, id);
    paths::law_below_is_one_step_further(host, "plugins"@, id);
    paths::law_below_is_one_step_further(plugins, id, id);
    paths::law_below_is_one_step_further(plugins, "config"@, id);
    paths::law_below_is_one_step_further(config, id, id);
    paths::law_being_inside_is_an_order(plugins, host, base);
    paths::law_being_inside_is_an_order(paths::below(plugins, id), plugins, base);
    paths::law_being_inside_is_an_order(config, plugins, base);
    paths::law_being_inside_is_an_order(paths::below(config, id), config, base);
}

/// A verb is asked for by its own name, and what is none of the names is none.
pub proof fn law_a_verb_goes_by_its_name(raw: Text)
    ensures
        verb_named(raw) == Some(Verb::Report) <==> raw == "--report"@,
        verb_named(raw) == Some(Verb::Markdown) <==> raw == "--markdown"@,
        verb_named(raw) == Some(Verb::Slack) <==> raw == "--slack"@,
        verb_named(raw) == Some(Verb::Html) <==> raw == "--html"@,
        verb_named(raw) == Some(Verb::Json) <==> raw == "--json"@,
        verb_named(raw) == Some(Verb::Tui) <==> raw == "--tui"@,
        verb_named(raw) == Some(Verb::Version) <==> raw == "--version"@,
        verb_named(raw) == Some(Verb::Help) <==> raw == "--help"@ || raw == "-h"@,
{
    reveal_strlit("--report");
    reveal_strlit("--markdown");
    reveal_strlit("--slack");
    reveal_strlit("--html");
    reveal_strlit("--json");
    reveal_strlit("--tui");
    reveal_strlit("--version");
    reveal_strlit("--help");
    reveal_strlit("-h");
    assert("--report"@.len() == 8 && "--markdown"@.len() == 10 && "--slack"@.len() == 7
        && "--html"@.len() == 6 && "--json"@.len() == 6 && "--tui"@.len() == 5
        && "--version"@.len() == 9 && "--help"@.len() == 6 && "-h"@.len() == 2);
    assert("--html"@[3] == 't' && "--help"@[3] == 'e' && "--json"@[3] == 's');
}

/// The options that take a value and the switches are these and no others.
pub proof fn law_an_option_goes_by_its_name(name: Text)
    ensures
        is_valued(name) <==> name == "--since"@ || name == "--until"@ || name == "--path"@ || name
            == "--format"@ || name == "--max-commits"@ || name == "--diff"@,
        is_standalone(name) <==> name == "--since-last"@ || name == "--weekly"@ || name
            == "--monthly"@ || name == "--by-agent"@ || name == "--fail-if-empty"@ || name
            == "--offline"@ || name == "--busy"@ || name == "--all"@ || name == "--no-siblings"@,
{
    let valued = strings::views(VALUED_OPTIONS@);
    assert(valued.len() == 6);
    assert(valued[0] == "--since"@ && valued[1] == "--until"@ && valued[2] == "--path"@ && valued[3]
        == "--format"@ && valued[4] == "--max-commits"@ && valued[5] == "--diff"@);
    let switches = strings::views(STANDALONE_OPTIONS@);
    assert(switches.len() == 9);
    assert(switches[0] == "--since-last"@ && switches[1] == "--weekly"@ && switches[2]
        == "--monthly"@ && switches[3] == "--by-agent"@ && switches[4] == "--fail-if-empty"@
        && switches[5] == "--offline"@ && switches[6] == "--busy"@ && switches[7] == "--all"@
        && switches[8] == "--no-siblings"@);
}

} // verus!
