//! Options of the mutation-testing experiments: the test tool, colors, and
//! how arguments from the command line and the config file are merged.

use vstd::prelude::*;
use crate::text::{chars_of, literal, same_chars, names_of};

verus! {

/// The tool that runs the tests.
#[derive(Debug, Clone, Copy, PartialEq, Eq, Structural)]
pub enum TestTool {
    Cargo,
    Nextest,
    Basic,
    Dynamic,
    Static,
}

/// The name of a test tool.
pub open spec fn test_tool_name(t: TestTool) -> Seq<char> {
    match t {
        TestTool::Cargo => "cargo"@,
        TestTool::Nextest => "nextest"@,
        TestTool::Basic => "basic"@,
        TestTool::Dynamic => "dynamic"@,
        TestTool::Static => "static"@,
    }
}

/// The test tool named `s`, if any.
pub open spec fn test_tool_named(s: Seq<char>) -> Option<TestTool> {
    if s == "cargo"@ {
        Some(TestTool::Cargo)
    } else if s == "nextest"@ {
        Some(TestTool::Nextest)
    } else if s == "basic"@ {
        Some(TestTool::Basic)
    } else if s == "dynamic"@ {
        Some(TestTool::Dynamic)
    } else if s == "static"@ {
        Some(TestTool::Static)
    } else {
        None
    }
}

impl TestTool {
    /// The default tool: `cargo test`.
    pub fn default_tool() -> (r: TestTool)
        ensures
            r == TestTool::Cargo,
    {
        TestTool::Cargo
    }

    /// The name of the tool, in snake case.
    pub fn name(&self) -> (r: &'static str)
        ensures
            r@ == test_tool_name(*self),
    {
        match self {
            TestTool::Cargo => "cargo",
            TestTool::Nextest => "nextest",
            TestTool::Basic => "basic",
            TestTool::Dynamic => "dynamic",
            TestTool::Static => "static",
        }
    }

    /// The tool named `s`.
    pub fn from_name(s: &str) -> (r: Option<TestTool>)
        ensures
            r == test_tool_named(s@),
    {
        let c = chars_of(s);
        let a = literal("cargo");
        let b = literal("nextest");
        let d = literal("basic");
        let e = literal("dynamic");
        let f = literal("static");
        if same_chars(c.as_slice(), a.as_slice()) {
            Some(TestTool::Cargo)
        } else if same_chars(c.as_slice(), b.as_slice()) {
            Some(TestTool::Nextest)
        } else if same_chars(c.as_slice(), d.as_slice()) {
            Some(TestTool::Basic)
        } else if same_chars(c.as_slice(), e.as_slice()) {
            Some(TestTool::Dynamic)
        } else if same_chars(c.as_slice(), f.as_slice()) {
            Some(TestTool::Static)
        } else {
            None
        }
    }
}

/// Reading a tool's name gives back the tool.
pub proof fn lemma_test_tool_roundtrip(t: TestTool)
    ensures
        test_tool_named(test_tool_name(t)) == Some(t),
{
    reveal_strlit("cargo");
    reveal_strlit("nextest");
    reveal_strlit("basic");
    reveal_strlit("dynamic");
    reveal_strlit("static");
    assert("cargo"@[0] != "nextest"@[0]);
    assert("cargo"@[0] != "basic"@[0]);
    assert("cargo"@[0] != "dynamic"@[0]);
    assert("cargo"@[0] != "static"@[0]);
    assert("nextest"@[0] != "basic"@[0]);
    assert("nextest"@[0] != "dynamic"@[0]);
    assert("nextest"@[0] != "static"@[0]);
    assert("basic"@[0] != "dynamic"@[0]);
    assert("basic"@[0] != "static"@[0]);
    assert("dynamic"@[0] != "static"@[0]);
}

/// Whether ANSI colors are drawn.
#[derive(Debug, Clone, Copy, PartialEq, Eq, Structural)]
pub enum Colors {
    Auto,
    Always,
    Never,
}

/// An environment variable that is set and is not `0`.
pub open spec fn set_and_not_zero(v: Option<Seq<char>>) -> bool {
    match v {
        Some(x) => x != "0"@,
        None => false,
    }
}

/// The optional text as characters.
pub open spec fn opt_chars(v: Option<&str>) -> Option<Seq<char>> {
    match v {
        Some(x) => Some(x@),
        None => None,
    }
}

/// `console::colors_enabled`: whether colors are on for standard output,
/// as the crate decided for this process from the terminal and environment.
#[verifier::external_body]
fn console_colors_enabled() -> bool {
    ::console::colors_enabled()
}

/// Whether the variable's value, if any, is set and not `0`.
fn is_set_not_zero(v: Option<&str>) -> (b: bool)
    ensures
        b == set_and_not_zero(opt_chars(v)),
{
    match v {
        Some(x) => {
            let c = chars_of(x);
            let zero = literal("0");
            !same_chars(c.as_slice(), zero.as_slice())
        },
        None => false,
    }
}

/// Whether colors were forced on or off: `NO_COLOR` (set and not `0`)
/// turns them off, else `CLICOLOR_FORCE` (set and not `0`) turns them on,
/// else the option decides, and for `Auto` nothing is forced.
pub open spec fn forced(c: Colors, no_color: Option<Seq<char>>, clicolor_force: Option<Seq<char>>) -> Option<bool> {
    if set_and_not_zero(no_color) {
        Some(false)
    } else if set_and_not_zero(clicolor_force) {
        Some(true)
    } else {
        match c {
            Colors::Always => Some(true),
            Colors::Never => Some(false),
            Colors::Auto => None,
        }
    }
}

impl Colors {
    /// The default: decide from the terminal.
    pub fn default_colors() -> (r: Colors)
        ensures
            r == Colors::Auto,
    {
        Colors::Auto
    }

    /// Whether colors were forced on or off by the option or by the
    /// variables `NO_COLOR` and `CLICOLOR_FORCE`, whose values are given.
    pub fn forced_value(&self, no_color: Option<&str>, clicolor_force: Option<&str>) -> (r: Option<bool>)
        ensures
            r == forced(*self, opt_chars(no_color), opt_chars(clicolor_force)),
    {
        if is_set_not_zero(no_color) {
            Some(false)
        } else if is_set_not_zero(clicolor_force) {
            Some(true)
        } else {
            match self {
                Colors::Always => Some(true),
                Colors::Never => Some(false),
                Colors::Auto => None,
            }
        }
    }

    /// Whether colors are drawn on standard output: as forced, else as the
    /// terminal allows.
    pub fn active_stdout(&self, no_color: Option<&str>, clicolor_force: Option<&str>) -> (r: bool)
        ensures
            forced(*self, opt_chars(no_color), opt_chars(clicolor_force)) matches Some(b) ==> r == b,
    {
        match self.forced_value(no_color, clicolor_force) {
            Some(b) => b,
            None => console_colors_enabled(),
        }
    }
}

/// The two lists one after the other.
pub fn join_slices(a: &[String], b: &[String]) -> (r: Vec<String>)
    ensures
        names_of(r@) == names_of(a@) + names_of(b@),
{
    let mut v: Vec<String> = Vec::new();
    let mut i: usize = 0;
    while i < a.len()
        invariant
            i <= a@.len(),
            names_of(v@) == names_of(a@).take(i as int),
        decreases a@.len() - i,
    {
        let x = a[i].clone();
        assert(x@ == a@[i as int]@);
        let ghost before = v@;
        v.push(x);
        proof { crate::text::lemma_names_push(before, x); }
        assert(names_of(a@).take(i + 1) =~= names_of(a@).take(i as int).push(a@[i as int]@));
        i = i + 1;
    }
    let mut j: usize = 0;
    while j < b.len()
        invariant
            j <= b@.len(),
            names_of(v@) == names_of(a@) + names_of(b@).take(j as int),
        decreases b@.len() - j,
    {
        let x = b[j].clone();
        assert(x@ == b@[j as int]@);
        let ghost before = v@;
        v.push(x);
        proof { crate::text::lemma_names_push(before, x); }
        assert(names_of(b@).take(j + 1) =~= names_of(b@).take(j as int).push(b@[j as int]@));
        assert(names_of(a@) + names_of(b@).take(j + 1) =~= (names_of(a@) + names_of(b@).take(j as int)).push(b@[j as int]@));
        j = j + 1;
    }
    assert(names_of(a@).take(a@.len() as int) =~= names_of(a@));
    assert(names_of(b@).take(b@.len() as int) =~= names_of(b@));
    v
}

/// The first list unless it is empty, else the second.
pub fn or_slices<'a, T>(a: &'a [T], b: &'a [T]) -> (r: &'a [T])
    ensures
        r@ == if a@.len() == 0 { b@ } else { a@ },
{
    if a.len() == 0 {
        b
    } else {
        a
    }
}

/// The pattern built for a glob: kept when it names a directory, else
/// matched in every directory.
pub open spec fn glob_pattern_of(g: Seq<char>) -> Seq<char> {
    if g.contains('/') {
        g
    } else {
        "**/"@ + g
    }
}

/// The pattern built for a glob given on the command line or in the config.
pub fn glob_pattern(glob_str: &str) -> (r: String)
    ensures
        r@ == glob_pattern_of(glob_str@),
{
    let g = chars_of(glob_str);
    let mut i: usize = 0;
    while i < g.len()
        invariant
            i <= g@.len(),
            g@ == glob_str@,
            forall|j: int| 0 <= j < i ==> g@[j] != '/',
        decreases g@.len() - i,
    {
        if g[i] == '/' {
            assert(g@.contains('/'));
            return crate::text::string_of(g.as_slice());
        }
        i = i + 1;
    }
    let mut v = literal("**/");
    crate::text::extend_chars(&mut v, g.as_slice());
    crate::text::string_of(v.as_slice())
}

/// The arguments added to `cargo test` to get JSON output: `--` unless the
/// arguments already hold one, then the JSON options.
pub open spec fn json_test_args(json: bool, cargo_test_args: Seq<Seq<char>>) -> Seq<Seq<char>> {
    if !json {
        Seq::empty()
    } else {
        (if cargo_test_args.contains("--"@) {
            Seq::<Seq<char>>::empty()
        } else {
            seq!["--"@]
        }) + seq!["-Zunstable-options"@, "--format=json"@, "--report-time"@]
    }
}

/// The arguments to `cargo test`: those from the command line, those from
/// the config, and those for JSON output.
pub fn cargo_test_args(args: &Vec<String>, config: &Vec<String>, json: bool) -> (r: Vec<String>)
    ensures
        names_of(r@) == names_of(args@) + names_of(config@) + json_test_args(json, names_of(args@)),
{
    let mut v = join_slices(args.as_slice(), config.as_slice());
    if json {
        let dd = "--".to_string();
        let present = crate::text::contains_name(args, &dd);
        let ghost before = names_of(v@);
        if !present {
            v.push(dd);
        }
        v.push("-Zunstable-options".to_string());
        v.push("--format=json".to_string());
        v.push("--report-time".to_string());
        assert(names_of(v@) =~= before + json_test_args(json, names_of(args@)));
    } else {
        assert(names_of(v@) =~= names_of(args@) + names_of(config@) + Seq::<Seq<char>>::empty());
    }
    v
}

/// Whether files matching gitignore patterns are left out when copying:
/// never for the dynamic and static tools, else as asked.
pub fn gitignore_option(test_tool: Option<TestTool>, gitignore: bool) -> (r: bool)
    ensures
        r == match test_tool {
            Some(TestTool::Dynamic) | Some(TestTool::Static) => false,
            _ => gitignore,
        },
{
    match test_tool {
        Some(TestTool::Dynamic) | Some(TestTool::Static) => false,
        _ => gitignore,
    }
}

/// Nanoseconds in a second.
pub const NANOS_PER_SEC: u128 = 1_000_000_000;

/// The time limit for each test run, in nanoseconds: the one given; zero
/// when only checking; five minutes when the baseline is skipped; else five
/// times the whole seconds that the baseline's tests took, and at least the
/// minimum.
pub open spec fn timeout_of(
    given: Option<u128>,
    check_only: bool,
    baseline_skip: bool,
    minimum: u128,
    baseline_test_duration: Option<u128>,
) -> int {
    match given {
        Some(t) => t as int,
        None => if check_only {
            0
        } else if baseline_skip {
            300 * NANOS_PER_SEC
        } else {
            let auto = (baseline_test_duration.unwrap() / NANOS_PER_SEC) * 5 * NANOS_PER_SEC;
            if minimum >= auto {
                minimum as int
            } else {
                auto
            }
        },
    }
}

/// The time limit for each test run, in nanoseconds; the baseline's tests
/// must have run where the limit is derived from them.
pub fn test_timeout(
    given: Option<u128>,
    check_only: bool,
    baseline_skip: bool,
    minimum: u128,
    baseline_test_duration: Option<u128>,
) -> (r: u128)
    requires
        given is None && !check_only && !baseline_skip ==> (baseline_test_duration matches Some(d) && (d
            / NANOS_PER_SEC) * 5 <= u64::MAX),
    ensures
        r == timeout_of(given, check_only, baseline_skip, minimum, baseline_test_duration),
{
    match given {
        Some(t) => t,
        None => if check_only {
            0
        } else if baseline_skip {
            300 * NANOS_PER_SEC
        } else {
            let d = match baseline_test_duration {
                Some(d) => d,
                None => 0,
            };
            let secs = d / NANOS_PER_SEC;
            let auto = secs * 5 * NANOS_PER_SEC;
            if minimum >= auto {
                minimum
            } else {
                auto
            }
        },
    }
}

#[verifier::external_type_specification]
#[verifier::external_body]
pub struct ExGlob(globset::Glob);

#[verifier::external_type_specification]
#[verifier::external_body]
pub struct ExGlobSet(globset::GlobSet);

#[verifier::external_type_specification]
#[verifier::external_body]
pub struct ExGlobSetBuilder(globset::GlobSetBuilder);

#[verifier::external_type_specification]
#[verifier::external_body]
pub struct ExGlobError(globset::Error);

/// Whether `globset::Glob::new` accepts the pattern.
pub uninterp spec fn glob_accepted(pattern: Seq<char>) -> bool;

/// The pattern that a glob was made from, as `globset::Glob::glob` returns it.
pub uninterp spec fn glob_text(g: globset::Glob) -> Seq<char>;

/// The patterns of the globs that a builder holds, in the order they were
/// added.
pub uninterp spec fn builder_globs(b: globset::GlobSetBuilder) -> Seq<Seq<char>>;

/// The patterns of the globs that a set was built from, in order.
pub uninterp spec fn set_globs(s: globset::GlobSet) -> Seq<Seq<char>>;

/// Whether `globset::GlobSetBuilder::build` succeeds on globs made by
/// `globset::Glob::new` from these patterns.
pub uninterp spec fn globs_build(patterns: Seq<Seq<char>>) -> bool;

/// `globset::Glob::new`: the glob of a pattern, where the pattern is one;
/// whether it is one is named, not stated. The glob keeps the pattern
/// (`Glob::glob` gives it back).
#[verifier::external_body]
fn new_glob(pattern: &str) -> (r: Result<globset::Glob, globset::Error>)
    ensures
        r is Ok <==> glob_accepted(pattern@),
        r matches Ok(g) ==> glob_text(g) == pattern@,
{
    globset::Glob::new(pattern)
}

/// `globset::GlobSetBuilder::new`: a builder with no glob yet.
#[verifier::external_body]
fn new_glob_set_builder() -> (r: globset::GlobSetBuilder)
    ensures
        builder_globs(r) == Seq::<Seq<char>>::empty(),
{
    globset::GlobSetBuilder::new()
}

/// `globset::GlobSetBuilder::add`: appends a glob to the builder's globs.
#[verifier::external_body]
fn add_glob(builder: &mut globset::GlobSetBuilder, glob: globset::Glob)
    ensures
        builder_globs(*final(builder)) == builder_globs(*old(builder)).push(glob_text(glob)),
{
    builder.add(glob);
}

/// `globset::GlobSetBuilder::build`: the matcher of the globs added. Whether
/// it succeeds depends on the globs alone (the matcher's limits); that is
/// named, not stated. This library adds only globs made by
/// `globset::Glob::new`, whose options are the defaults, so a glob here is
/// given by its pattern.
#[verifier::external_body]
fn build_globs(builder: &globset::GlobSetBuilder) -> (r: Result<globset::GlobSet, globset::Error>)
    ensures
        r is Ok <==> globs_build(builder_globs(*builder)),
        r matches Ok(s) ==> set_globs(s) == builder_globs(*builder),
{
    builder.build()
}

/// The patterns built for the globs given.
pub open spec fn glob_patterns_of(globs: Seq<String>) -> Seq<Seq<char>> {
    globs.map_values(|g: String| glob_pattern_of(g@))
}

/// The matcher of the globs `globs`, each matched in every directory unless
/// it names one; none where no glob is given. It fails at the first pattern
/// that is no glob; where each is one, it is the matcher of exactly those
/// patterns, in order, or the failure to build it.
pub fn build_glob_set(globs: &Vec<String>) -> (r: Result<Option<globset::GlobSet>, globset::Error>)
    ensures
        globs@.len() == 0 ==> r matches Ok(None),
        globs@.len() > 0 && (exists|i: int| 0 <= i < globs@.len() && !glob_accepted(
            #[trigger] glob_pattern_of(globs@[i]@),
        )) ==> r is Err,
        globs@.len() > 0 && (forall|i: int| 0 <= i < globs@.len() ==> glob_accepted(
            #[trigger] glob_pattern_of(globs@[i]@),
        )) ==> (if globs_build(glob_patterns_of(globs@)) {
            r matches Ok(Some(s)) && set_globs(s) == glob_patterns_of(globs@)
        } else {
            r is Err
        }),
{
    if globs.len() == 0 {
        return Ok(None);
    }
    let mut builder = new_glob_set_builder();
    let mut i: usize = 0;
    while i < globs.len()
        invariant
            i <= globs@.len(),
            forall|j: int| 0 <= j < i ==> glob_accepted(#[trigger] glob_pattern_of(globs@[j]@)),
            builder_globs(builder) == glob_patterns_of(globs@).take(i as int),
        decreases globs@.len() - i,
    {
        let pattern = glob_pattern(globs[i].as_str());
        match new_glob(pattern.as_str()) {
            Ok(g) => add_glob(&mut builder, g),
            Err(e) => {
                return Err(e);
            },
        }
        assert(glob_patterns_of(globs@).take(i + 1) =~= glob_patterns_of(globs@).take(i as int).push(
            glob_pattern_of(globs@[i as int]@),
        ));
        i = i + 1;
    }
    assert(glob_patterns_of(globs@).take(globs@.len() as int) =~= glob_patterns_of(globs@));
    match build_globs(&builder) {
        Ok(set) => Ok(Some(set)),
        Err(e) => Err(e),
    }
}

} // verus!
