//! The attributes of fenced code blocks in documentation, which decide how
//! a doctest is compiled and run, and the lines of a doctest.

use vstd::prelude::*;
use crate::text::{chars_of, extend_chars, literal, string_of, starts_with, names_of, trim, split_by};

verus! {

/// Whether error codes in code block attributes are read.
#[derive(Debug, Clone, Copy, PartialEq, Eq, Structural)]
pub enum ErrorCodes {
    Yes,
    No,
}

impl ErrorCodes {
    /// `Yes` for `true`.
    pub fn from(b: bool) -> (r: ErrorCodes)
        ensures
            r == (if b { ErrorCodes::Yes } else { ErrorCodes::No }),
    {
        if b {
            ErrorCodes::Yes
        } else {
            ErrorCodes::No
        }
    }

    /// `true` for `Yes`.
    pub fn as_bool(self) -> (b: bool)
        ensures
            b == (self == ErrorCodes::Yes),
    {
        match self {
            ErrorCodes::Yes => true,
            ErrorCodes::No => false,
        }
    }
}

/// Reading back the flag of an `ErrorCodes` value, and the value of a flag,
/// gives what was given.
pub proof fn lemma_error_codes_roundtrip(e: ErrorCodes, b: bool)
    ensures
        (if (e == ErrorCodes::Yes) { ErrorCodes::Yes } else { ErrorCodes::No }) == e,
        ((if b { ErrorCodes::Yes } else { ErrorCodes::No }) == ErrorCodes::Yes) == b,
{
}

/// The editions of Rust.
#[derive(Debug, Clone, Copy, PartialEq, Eq, Structural)]
pub enum Edition {
    Edition2015,
    Edition2018,
    Edition2021,
    Edition2024,
}

/// The edition named `s`, if any.
pub open spec fn edition_named(s: Seq<char>) -> Option<Edition> {
    if s == "2015"@ {
        Some(Edition::Edition2015)
    } else if s == "2018"@ {
        Some(Edition::Edition2018)
    } else if s == "2021"@ {
        Some(Edition::Edition2021)
    } else if s == "2024"@ {
        Some(Edition::Edition2024)
    } else {
        None
    }
}

/// The edition named by the characters `s`.
pub fn edition_from(s: &[char]) -> (r: Option<Edition>)
    ensures
        r == edition_named(s@),
{
    let a = literal("2015");
    let b = literal("2018");
    let c = literal("2021");
    let d = literal("2024");
    if crate::text::same_chars(s, a.as_slice()) {
        Some(Edition::Edition2015)
    } else if crate::text::same_chars(s, b.as_slice()) {
        Some(Edition::Edition2018)
    } else if crate::text::same_chars(s, c.as_slice()) {
        Some(Edition::Edition2021)
    } else if crate::text::same_chars(s, d.as_slice()) {
        Some(Edition::Edition2024)
    } else {
        None
    }
}

/// Which targets a doctest is ignored on.
#[derive(Debug, Clone, PartialEq, Eq)]
pub enum Ignore {
    All,
    Never,
    Targets(Vec<String>),
}

/// A token of a code block's attributes.
#[derive(Debug, Clone, PartialEq, Eq)]
pub enum LangStringToken {
    LangToken(String),
    ClassAttribute(String),
    KeyValueAttribute(String, String),
}

/// What the attributes of a code block say.
#[derive(Debug, Clone, PartialEq, Eq)]
pub struct LangString {
    pub original: String,
    pub should_panic: bool,
    pub no_run: bool,
    pub ignore: Ignore,
    pub rust: bool,
    pub test_harness: bool,
    pub compile_fail: bool,
    pub error_codes: Vec<String>,
    pub edition: Option<Edition>,
    pub added_classes: Vec<String>,
    pub unknown: Vec<String>,
}

/// What has been read of the attributes so far.
#[verifier::ext_equal]
pub struct LangView {
    pub should_panic: bool,
    pub no_run: bool,
    pub ignore_all: bool,
    pub rust: bool,
    pub test_harness: bool,
    pub compile_fail: bool,
    pub error_codes: Seq<Seq<char>>,
    pub edition: Option<Edition>,
    pub added_classes: Seq<Seq<char>>,
    pub unknown: Seq<Seq<char>>,
    pub ignores: Seq<Seq<char>>,
    pub seen_rust: bool,
    pub seen_other: bool,
    pub seen_custom: bool,
}

/// Nothing read yet.
pub open spec fn initial_view() -> LangView {
    LangView {
        should_panic: false,
        no_run: false,
        ignore_all: false,
        rust: true,
        test_harness: false,
        compile_fail: false,
        error_codes: Seq::empty(),
        edition: None,
        added_classes: Seq::empty(),
        unknown: Seq::empty(),
        ignores: Seq::empty(),
        seen_rust: false,
        seen_other: false,
        seen_custom: false,
    }
}

/// `s` without all leading repetitions of `p`.
pub open spec fn trim_start_matches(s: Seq<char>, p: Seq<char>) -> Seq<char>
    decreases s.len(),
{
    if p.len() > 0 && starts_with(s, p) {
        trim_start_matches(s.skip(p.len() as int), p)
    } else {
        s
    }
}

/// An ASCII digit.
pub open spec fn is_digit(c: char) -> bool {
    '0' <= c && c <= '9'
}

/// The four characters after `E` read as a `u32`: four digits, or `+` and
/// three digits.
pub open spec fn code_digits(x: Seq<char>) -> bool {
    x.len() == 5 && ((is_digit(x[1]) && is_digit(x[2]) && is_digit(x[3]) && is_digit(x[4])) || (
    x[1] == '+' && is_digit(x[2]) && is_digit(x[3]) && is_digit(x[4])))
}

/// The number of bytes of the UTF-8 encoding of `x`.
pub open spec fn utf8_len(x: Seq<char>) -> usize {
    vstd::utf8::encode_utf8(x).len() as usize
}

/// The kinds of bare tokens.
#[derive(Debug, Clone, Copy, PartialEq, Eq, Structural)]
pub enum TokenCase {
    ShouldPanic,
    NoRun,
    IgnoreAll,
    IgnoreTarget,
    Rust,
    Custom,
    TestHarness,
    CompileFail,
    EditionTag,
    RustEdition,
    ErrorCode,
    Unknown,
}

/// The kind of the bare token `x`.
pub open spec fn token_case(x: Seq<char>, allow_error_code_check: bool) -> TokenCase {
    if x == "should_panic"@ {
        TokenCase::ShouldPanic
    } else if x == "no_run"@ {
        TokenCase::NoRun
    } else if x == "ignore"@ {
        TokenCase::IgnoreAll
    } else if starts_with(x, "ignore-"@) {
        TokenCase::IgnoreTarget
    } else if x == "rust"@ {
        TokenCase::Rust
    } else if x == "custom"@ {
        TokenCase::Custom
    } else if x == "test_harness"@ {
        TokenCase::TestHarness
    } else if x == "compile_fail"@ {
        TokenCase::CompileFail
    } else if starts_with(x, "edition"@) {
        TokenCase::EditionTag
    } else if starts_with(x, "rust"@) && edition_named(x.skip(4)) is Some {
        TokenCase::RustEdition
    } else if allow_error_code_check && x.len() > 0 && x[0] == 'E' && utf8_len(x) == 5 {
        TokenCase::ErrorCode
    } else {
        TokenCase::Unknown
    }
}

/// The state after reading one bare token.
pub open spec fn read_lang_token(
    s: LangView,
    x: Seq<char>,
    allow_error_code_check: bool,
    enable_per_target_ignores: bool,
    custom_code_classes_in_docs: bool,
) -> LangView {
    read_case(s, token_case(x, allow_error_code_check), x, enable_per_target_ignores, custom_code_classes_in_docs)
}

/// The state after reading the bare token `x` of kind `c`.
pub open spec fn read_case(
    s: LangView,
    c: TokenCase,
    x: Seq<char>,
    enable_per_target_ignores: bool,
    custom_code_classes_in_docs: bool,
) -> LangView {
    match c {
        TokenCase::ShouldPanic => LangView { should_panic: true, seen_rust: !s.seen_other, ..s },
        TokenCase::NoRun => LangView { no_run: true, seen_rust: !s.seen_other, ..s },
        TokenCase::IgnoreAll => LangView { ignore_all: true, seen_rust: !s.seen_other, ..s },
        TokenCase::IgnoreTarget => if enable_per_target_ignores {
            LangView {
                ignores: s.ignores.push(trim_start_matches(x, "ignore-"@)),
                seen_rust: !s.seen_other,
                ..s
            }
        } else {
            s
        },
        TokenCase::Rust => LangView { rust: true, seen_rust: true, ..s },
        TokenCase::Custom => if custom_code_classes_in_docs {
            LangView { seen_custom: true, ..s }
        } else {
            LangView { seen_other: true, ..s }
        },
        TokenCase::TestHarness => LangView { test_harness: true, seen_rust: !s.seen_other || s.seen_rust, ..s },
        TokenCase::CompileFail => LangView { compile_fail: true, no_run: true, seen_rust: !s.seen_other || s.seen_rust, ..s },
        TokenCase::EditionTag => LangView { edition: edition_named(x.skip(7)), ..s },
        TokenCase::RustEdition => s,
        TokenCase::ErrorCode => if code_digits(x) {
            LangView { error_codes: s.error_codes.push(x), seen_rust: !s.seen_other || s.seen_rust, ..s }
        } else {
            LangView { seen_other: true, ..s }
        },
        TokenCase::Unknown => LangView { seen_other: true, unknown: s.unknown.push(x), ..s },
    }
}

/// The state after reading one token.
pub open spec fn read_token(
    s: LangView,
    t: LangStringToken,
    allow_error_code_check: bool,
    enable_per_target_ignores: bool,
    custom_code_classes_in_docs: bool,
) -> LangView {
    match t {
        LangStringToken::LangToken(x) => read_lang_token(
            s,
            x@,
            allow_error_code_check,
            enable_per_target_ignores,
            custom_code_classes_in_docs,
        ),
        LangStringToken::KeyValueAttribute(k, v) => if custom_code_classes_in_docs {
            if k@ == "class"@ {
                LangView { added_classes: s.added_classes.push(v@), ..s }
            } else {
                s
            }
        } else {
            LangView { seen_other: true, ..s }
        },
        LangStringToken::ClassAttribute(c) => LangView { added_classes: s.added_classes.push(c@), ..s },
    }
}

/// The state after reading the tokens in order.
pub open spec fn read_tokens(
    ts: Seq<LangStringToken>,
    allow_error_code_check: bool,
    enable_per_target_ignores: bool,
    custom_code_classes_in_docs: bool,
) -> LangView
    decreases ts.len(),
{
    if ts.len() == 0 {
        initial_view()
    } else {
        read_token(
            read_tokens(ts.drop_last(), allow_error_code_check, enable_per_target_ignores, custom_code_classes_in_docs),
            ts.last(),
            allow_error_code_check,
            enable_per_target_ignores,
            custom_code_classes_in_docs,
        )
    }
}

/// The attributes as the tokens `ts` give them, for the text `original`.
pub open spec fn lang_string_is(r: LangString, original: Seq<char>, v: LangView) -> bool {
    &&& r.original@ == original
    &&& r.should_panic == v.should_panic
    &&& r.no_run == v.no_run
    &&& match r.ignore {
        Ignore::Targets(ts) => v.ignores.len() > 0 && names_of(ts@) == v.ignores,
        Ignore::All => v.ignores.len() == 0 && v.ignore_all,
        Ignore::Never => v.ignores.len() == 0 && !v.ignore_all,
    }
    &&& r.rust == (v.rust && !v.seen_custom && (!v.seen_other || v.seen_rust))
    &&& r.test_harness == v.test_harness
    &&& r.compile_fail == v.compile_fail
    &&& names_of(r.error_codes@) == v.error_codes
    &&& r.edition == v.edition
    &&& names_of(r.added_classes@) == v.added_classes
    &&& names_of(r.unknown@) == v.unknown
}

impl Default for LangString {
    /// The attributes of a code block that has none: a Rust block, run as a test.
    fn default() -> (r: LangString)
        ensures
            lang_string_is(r, Seq::empty(), initial_view()),
    {
        let r = LangString {
            original: String::new(),
            should_panic: false,
            no_run: false,
            ignore: Ignore::Never,
            rust: true,
            test_harness: false,
            compile_fail: false,
            error_codes: Vec::new(),
            edition: None,
            added_classes: Vec::new(),
            unknown: Vec::new(),
        };
        assert(names_of(r.error_codes@) =~= Seq::empty());
        assert(names_of(r.added_classes@) =~= Seq::empty());
        assert(names_of(r.unknown@) =~= Seq::empty());
        r
    }
}

/// Whether the characters are `p`.
fn is_text(x: &[char], p: &str) -> (b: bool)
    ensures
        b == (x@ == p@),
{
    let q = chars_of(p);
    crate::text::same_chars(x, q.as_slice())
}

/// `x` without all leading repetitions of `p`.
fn trim_start_matches_exec(x: &[char], p: &[char]) -> (r: Vec<char>)
    ensures
        r@ == trim_start_matches(x@, p@),
{
    let mut cur = crate::text::slice_chars(x, 0, x.len());
    assert(cur@ =~= x@);
    if p.len() == 0 {
        return cur;
    }
    while crate::text::starts_with_exec(cur.as_slice(), p)
        invariant
            p@.len() > 0,
            trim_start_matches(cur@, p@) == trim_start_matches(x@, p@),
        decreases cur@.len(),
    {
        let ghost prev = cur@;
        cur = crate::text::slice_chars(cur.as_slice(), p.len(), cur.len());
        assert(cur@ =~= prev.skip(p@.len() as int));
    }
    cur
}

/// Whether the character is an ASCII digit.
fn is_digit_exec(c: char) -> (b: bool)
    ensures
        b == is_digit(c),
{
    '0' <= c && c <= '9'
}

/// The state, as flags and lists being built, after reading tokens.
struct Reading {
    data: LangString,
    ignore_all: bool,
    ignores: Vec<String>,
    seen_rust: bool,
    seen_other: bool,
    seen_custom: bool,
}

impl Reading {
    spec fn view(&self) -> LangView {
        LangView {
            should_panic: self.data.should_panic,
            no_run: self.data.no_run,
            ignore_all: self.ignore_all,
            rust: self.data.rust,
            test_harness: self.data.test_harness,
            compile_fail: self.data.compile_fail,
            error_codes: names_of(self.data.error_codes@),
            edition: self.data.edition,
            added_classes: names_of(self.data.added_classes@),
            unknown: names_of(self.data.unknown@),
            ignores: names_of(self.ignores@),
            seen_rust: self.seen_rust,
            seen_other: self.seen_other,
            seen_custom: self.seen_custom,
        }
    }
}

/// The kind of the bare token `x`.
fn classify(x: &String, allow_error_code_check: bool) -> (c: TokenCase)
    ensures
        c == token_case(x@, allow_error_code_check),
{
    let xc = chars_of(x.as_str());
    let xs = xc.as_slice();
    let ignore_dash = literal("ignore-");
    let edition = literal("edition");
    let rust = literal("rust");
    proof {
        reveal_strlit("rust");
    }
    if is_text(xs, "should_panic") {
        TokenCase::ShouldPanic
    } else if is_text(xs, "no_run") {
        TokenCase::NoRun
    } else if is_text(xs, "ignore") {
        TokenCase::IgnoreAll
    } else if crate::text::starts_with_exec(xs, ignore_dash.as_slice()) {
        TokenCase::IgnoreTarget
    } else if is_text(xs, "rust") {
        TokenCase::Rust
    } else if is_text(xs, "custom") {
        TokenCase::Custom
    } else if is_text(xs, "test_harness") {
        TokenCase::TestHarness
    } else if is_text(xs, "compile_fail") {
        TokenCase::CompileFail
    } else if crate::text::starts_with_exec(xs, edition.as_slice()) {
        TokenCase::EditionTag
    } else {
        let rust_edition = if crate::text::starts_with_exec(xs, rust.as_slice()) {
            let rest = crate::text::slice_chars(xs, 4, xs.len());
            assert(rest@ =~= x@.skip(4));
            edition_from(rest.as_slice()).is_some()
        } else {
            false
        };
        if rust_edition {
            TokenCase::RustEdition
        } else if allow_error_code_check && xs.len() > 0 && xs[0] == 'E' && x.as_str().len() == 5 {
            TokenCase::ErrorCode
        } else {
            TokenCase::Unknown
        }
    }
}

/// Reads a bare token of kind `case`.
#[verifier::spinoff_prover]
#[verifier::rlimit(40)]
fn read_lang_token_exec(
    st: &mut Reading,
    x: &String,
    case: TokenCase,
    enable_per_target_ignores: bool,
    custom_code_classes_in_docs: bool,
)
    requires
        case == TokenCase::EditionTag ==> starts_with(x@, "edition"@),
        case == TokenCase::ErrorCode ==> x@.len() > 0,
    ensures
        final(st)@ == read_case(
            old(st)@,
            case,
            x@,
            enable_per_target_ignores,
            custom_code_classes_in_docs,
        ),
        final(st).data.original == old(st).data.original,
        final(st).data.ignore == old(st).data.ignore,
{
    proof {
        reveal_strlit("edition");
    }
    match case {
        TokenCase::ShouldPanic => {
            st.data.should_panic = true;
            st.seen_rust = !st.seen_other;
        },
        TokenCase::NoRun => {
            st.data.no_run = true;
            st.seen_rust = !st.seen_other;
        },
        TokenCase::IgnoreAll => {
            st.ignore_all = true;
            st.seen_rust = !st.seen_other;
        },
        TokenCase::IgnoreTarget => {
            if enable_per_target_ignores {
                let ignore_dash = literal("ignore-");
                let xc = chars_of(x.as_str());
                let t = trim_start_matches_exec(xc.as_slice(), ignore_dash.as_slice());
                let ghost before = st.ignores@;
                let ts = string_of(t.as_slice());
                st.ignores.push(ts);
                proof { crate::text::lemma_names_push(before, ts); }
                st.seen_rust = !st.seen_other;
            }
        },
        TokenCase::Rust => {
            st.data.rust = true;
            st.seen_rust = true;
        },
        TokenCase::Custom => {
            if custom_code_classes_in_docs {
                st.seen_custom = true;
            } else {
                st.seen_other = true;
            }
        },
        TokenCase::TestHarness => {
            st.data.test_harness = true;
            st.seen_rust = !st.seen_other || st.seen_rust;
        },
        TokenCase::CompileFail => {
            st.data.compile_fail = true;
            st.seen_rust = !st.seen_other || st.seen_rust;
            st.data.no_run = true;
        },
        TokenCase::EditionTag => {
            let xc = chars_of(x.as_str());
            let rest = crate::text::slice_chars(xc.as_slice(), 7, xc.len());
            assert(rest@ =~= x@.skip(7));
            st.data.edition = edition_from(rest.as_slice());
        },
        TokenCase::RustEdition => {},
        TokenCase::ErrorCode => {
            let xc = chars_of(x.as_str());
            let xs = xc.as_slice();
            let digits = xs.len() == 5 && ((is_digit_exec(xs[1]) && is_digit_exec(xs[2]) && is_digit_exec(xs[3])
                && is_digit_exec(xs[4])) || (xs[1] == '+' && is_digit_exec(xs[2]) && is_digit_exec(xs[3])
                && is_digit_exec(xs[4])));
            if digits {
                let ghost before = st.data.error_codes@;
                let code = x.clone();
                st.data.error_codes.push(code);
                proof { crate::text::lemma_names_push(before, code); }
                st.seen_rust = !st.seen_other || st.seen_rust;
            } else {
                st.seen_other = true;
            }
        },
        TokenCase::Unknown => {
            st.seen_other = true;
            let ghost before = st.data.unknown@;
            let u = x.clone();
            st.data.unknown.push(u);
            proof { crate::text::lemma_names_push(before, u); }
        },
    }
    assert(st@ =~= read_case(old(st)@, case, x@, enable_per_target_ignores, custom_code_classes_in_docs));
}

impl LangString {
    /// Reads the tokens `ts` of the attributes `string`.
    pub fn parse_tokens(
        string: &str,
        ts: &Vec<LangStringToken>,
        allow_error_code_check: ErrorCodes,
        enable_per_target_ignores: bool,
        custom_code_classes_in_docs: bool,
    ) -> (r: LangString)
        ensures
            lang_string_is(
                r,
                string@,
                read_tokens(
                    ts@,
                    allow_error_code_check == ErrorCodes::Yes,
                    enable_per_target_ignores,
                    custom_code_classes_in_docs,
                ),
            ),
    {
        let allow = allow_error_code_check.as_bool();
        let mut st = Reading {
            data: LangString {
                original: string_of(chars_of(string).as_slice()),
                should_panic: false,
                no_run: false,
                ignore: Ignore::Never,
                rust: true,
                test_harness: false,
                compile_fail: false,
                error_codes: Vec::new(),
                edition: None,
                added_classes: Vec::new(),
                unknown: Vec::new(),
            },
            ignore_all: false,
            ignores: Vec::new(),
            seen_rust: false,
            seen_other: false,
            seen_custom: false,
        };
        assert(names_of(st.data.error_codes@) =~= Seq::empty());
        assert(names_of(st.data.added_classes@) =~= Seq::empty());
        assert(names_of(st.data.unknown@) =~= Seq::empty());
        assert(names_of(st.ignores@) =~= Seq::empty());
        assert(st@ =~= initial_view());
        let mut i: usize = 0;
        while i < ts.len()
            invariant
                i <= ts@.len(),
                st.data.original@ == string@,
                st@ == read_tokens(ts@.take(i as int), allow, enable_per_target_ignores, custom_code_classes_in_docs),
            decreases ts@.len() - i,
        {
            proof {
                assert(ts@.take(i + 1).drop_last() =~= ts@.take(i as int));
                assert(ts@.take(i + 1).last() == ts@[i as int]);
            }
            match &ts[i] {
                LangStringToken::LangToken(x) => {
                    let case = classify(x, allow);
                    read_lang_token_exec(&mut st, x, case, enable_per_target_ignores, custom_code_classes_in_docs);
                },
                LangStringToken::KeyValueAttribute(k, v) => {
                    if custom_code_classes_in_docs {
                        let kc = chars_of(k.as_str());
                        if is_text(kc.as_slice(), "class") {
                            let ghost before = st.data.added_classes@;
                            let c = v.clone();
                            st.data.added_classes.push(c);
                            proof { crate::text::lemma_names_push(before, c); }
                        }
                    } else {
                        st.seen_other = true;
                    }
                },
                LangStringToken::ClassAttribute(c) => {
                    let ghost before = st.data.added_classes@;
                    let cc = c.clone();
                    st.data.added_classes.push(cc);
                    proof { crate::text::lemma_names_push(before, cc); }
                },
            }
            i = i + 1;
        }
        assert(ts@.take(ts@.len() as int) =~= ts@);
        let mut data = st.data;
        if st.ignores.len() > 0 {
            data.ignore = Ignore::Targets(st.ignores);
        } else if st.ignore_all {
            data.ignore = Ignore::All;
        } else {
            data.ignore = Ignore::Never;
        }
        data.rust = data.rust && !st.seen_custom && (!st.seen_other || st.seen_rust);
        data
    }
}

/// A separator between bare tokens.
pub open spec fn is_token_separator(c: char) -> bool {
    c == ',' || c == ' ' || c == '\t'
}

/// The pieces of `s` between separators, as `str::split` gives them.
pub open spec fn split_separators(s: Seq<char>) -> Seq<Seq<char>>
    decreases s.len(),
{
    if s.len() == 0 {
        seq![Seq::empty()]
    } else {
        let r = split_separators(s.drop_last());
        if is_token_separator(s.last()) {
            r.push(Seq::empty())
        } else {
            r.update(r.len() - 1, r.last().push(s.last()))
        }
    }
}

proof fn lemma_split_separators_len(s: Seq<char>)
    ensures
        split_separators(s).len() > 0,
    decreases s.len(),
{
    if s.len() > 0 {
        lemma_split_separators_len(s.drop_last());
    }
}

/// The attributes without surrounding whitespace and a pair of surrounding
/// braces.
pub open spec fn lang_body(s: Seq<char>) -> Seq<char> {
    let t = trim(s);
    if t.len() > 0 && t[0] == '{' && t.last() == '}' {
        t.subrange(1, t.len() - 1)
    } else {
        t
    }
}

/// A piece without surrounding whitespace and one leading `.`.
pub open spec fn bare_token(p: Seq<char>) -> Seq<char> {
    let t = trim(p);
    if t.len() > 0 && t[0] == '.' {
        t.skip(1)
    } else {
        t
    }
}

/// The bare tokens of attributes written without attribute blocks.
pub open spec fn bare_tokens(s: Seq<char>) -> Seq<Seq<char>> {
    split_separators(lang_body(s)).map_values(|p: Seq<char>| bare_token(p)).filter(
        |t: Seq<char>| t.len() > 0,
    )
}

/// The pieces of `s` between separators.
fn split_separators_exec(s: &[char]) -> (r: Vec<Vec<char>>)
    ensures
        r@.len() == split_separators(s@).len(),
        forall|i: int| 0 <= i < r@.len() ==> (#[trigger] r@[i])@ == split_separators(s@)[i],
{
    let mut done: Vec<Vec<char>> = Vec::new();
    let mut cur: Vec<char> = Vec::new();
    let mut i: usize = 0;
    while i < s.len()
        invariant
            i <= s@.len(),
            done@.len() + 1 == split_separators(s@.take(i as int)).len(),
            forall|j: int| 0 <= j < done@.len() ==> (#[trigger] done@[j])@ == split_separators(s@.take(i as int))[j],
            cur@ == split_separators(s@.take(i as int)).last(),
        decreases s@.len() - i,
    {
        proof {
            assert(s@.take(i + 1).drop_last() =~= s@.take(i as int));
            assert(s@.take(i + 1).last() == s@[i as int]);
            lemma_split_separators_len(s@.take(i as int));
        }
        let c = s[i];
        if c == ',' || c == ' ' || c == '\t' {
            let mut piece: Vec<char> = Vec::new();
            std::mem::swap(&mut piece, &mut cur);
            done.push(piece);
        } else {
            cur.push(c);
        }
        i = i + 1;
    }
    assert(s@.take(s@.len() as int) =~= s@);
    done.push(cur);
    done
}

/// The bare tokens of attributes written without attribute blocks.
pub fn tokens(string: &str) -> (r: Vec<LangStringToken>)
    ensures
        r@.len() == bare_tokens(string@).len(),
        forall|i: int| 0 <= i < r@.len() ==> ((#[trigger] r@[i]) matches LangStringToken::LangToken(t) && t@ == bare_tokens(string@)[i]),
{
    let c = chars_of(string);
    let t = crate::text::trim_exec(c.as_slice());
    let body = if t.len() > 0 && t[0] == '{' && t[t.len() - 1] == '}' {
        crate::text::slice_chars(t.as_slice(), 1, t.len() - 1)
    } else {
        t
    };
    assert(body@ == lang_body(string@));
    let pieces = split_separators_exec(body.as_slice());
    let ghost ps = split_separators(body@).map_values(|p: Seq<char>| bare_token(p));
    let mut r: Vec<LangStringToken> = Vec::new();
    let ghost mut seen: Seq<Seq<char>> = Seq::empty();
    let mut i: usize = 0;
    while i < pieces.len()
        invariant
            i <= pieces@.len() == ps.len(),
            ps == split_separators(body@).map_values(|p: Seq<char>| bare_token(p)),
            forall|j: int| 0 <= j < pieces@.len() ==> (#[trigger] pieces@[j])@ == split_separators(body@)[j],
            seen == ps.take(i as int).filter(|t: Seq<char>| t.len() > 0),
            r@.len() == seen.len(),
            forall|j: int| 0 <= j < r@.len() ==> ((#[trigger] r@[j]) matches LangStringToken::LangToken(t) && t@ == seen[j]),
        decreases pieces@.len() - i,
    {
        let p = crate::text::trim_exec(pieces[i].as_slice());
        let tok = if p.len() > 0 && p[0] == '.' {
            crate::text::slice_chars(p.as_slice(), 1, p.len())
        } else {
            p
        };
        assert(tok@ =~= bare_token(split_separators(body@)[i as int]));
        proof {
            reveal(Seq::filter);
            assert(ps.take(i + 1).drop_last() =~= ps.take(i as int));
            assert(ps.take(i + 1).last() == tok@);
        }
        if tok.len() > 0 {
            r.push(LangStringToken::LangToken(string_of(tok.as_slice())));
            proof { seen = seen.push(tok@); }
        }
        i = i + 1;
    }
    assert(ps.take(pieces@.len() as int) =~= ps);
    r
}

/// A token of a code block's attributes, as text.
pub enum TokenView {
    Lang(Seq<char>),
    Class(Seq<char>),
    KeyValue(Seq<char>, Seq<char>),
}

/// The text of a token.
pub open spec fn token_view(t: LangStringToken) -> TokenView {
    match t {
        LangStringToken::LangToken(x) => TokenView::Lang(x@),
        LangStringToken::ClassAttribute(c) => TokenView::Class(c@),
        LangStringToken::KeyValueAttribute(k, v) => TokenView::KeyValue(k@, v@),
    }
}

/// The state after reading the token `t`.
pub open spec fn read_view(s: LangView, t: TokenView, a: bool, p: bool, c: bool) -> LangView {
    match t {
        TokenView::Lang(x) => read_lang_token(s, x, a, p, c),
        TokenView::KeyValue(k, v) => if c {
            if k == "class"@ {
                LangView { added_classes: s.added_classes.push(v), ..s }
            } else {
                s
            }
        } else {
            LangView { seen_other: true, ..s }
        },
        TokenView::Class(x) => LangView { added_classes: s.added_classes.push(x), ..s },
    }
}

/// The state after reading the tokens `ts` in order.
pub open spec fn read_views(ts: Seq<TokenView>, a: bool, p: bool, c: bool) -> LangView
    decreases ts.len(),
{
    if ts.len() == 0 {
        initial_view()
    } else {
        read_view(read_views(ts.drop_last(), a, p, c), ts.last(), a, p, c)
    }
}

proof fn lemma_read_views(ts: Seq<LangStringToken>, a: bool, p: bool, c: bool)
    ensures
        read_tokens(ts, a, p, c) == read_views(ts.map_values(|t: LangStringToken| token_view(t)), a, p, c),
    decreases ts.len(),
{
    if ts.len() > 0 {
        lemma_read_views(ts.drop_last(), a, p, c);
        assert(ts.drop_last().map_values(|t: LangStringToken| token_view(t)) =~= ts.map_values(|t: LangStringToken| token_view(t)).drop_last());
    }
}

/// Which bare tokens are read as which flag: each flag's token is read as
/// that flag whatever the options.
proof fn lemma_token_cases(x: Seq<char>, a: bool)
    ensures
        (token_case(x, a) == TokenCase::ShouldPanic) <==> x == "should_panic"@,
        (token_case(x, a) == TokenCase::NoRun) <==> x == "no_run"@,
        (token_case(x, a) == TokenCase::IgnoreAll) <==> x == "ignore"@,
        (token_case(x, a) == TokenCase::TestHarness) <==> x == "test_harness"@,
        (token_case(x, a) == TokenCase::CompileFail) <==> x == "compile_fail"@,
{
    reveal_strlit("should_panic");
    reveal_strlit("no_run");
    reveal_strlit("ignore");
    reveal_strlit("ignore-");
    reveal_strlit("rust");
    reveal_strlit("custom");
    reveal_strlit("test_harness");
    reveal_strlit("compile_fail");
    if x == "ignore"@ {
        assert(x[0] != "no_run"@[0]);
        assert(x != "no_run"@);
    }
    if x == "compile_fail"@ || x == "test_harness"@ {
        assert(x[0] != "ignore-"@[0]);
        assert(!starts_with(x, "ignore-"@));
    }
}

/// `ts` holds the bare token `w`.
pub open spec fn has_lang_token(ts: Seq<TokenView>, w: Seq<char>) -> bool {
    ts.contains(TokenView::Lang(w))
}

proof fn lemma_has_lang_token_push(ts: Seq<TokenView>, t: TokenView, w: Seq<char>)
    ensures
        has_lang_token(ts.push(t), w) <==> (has_lang_token(ts, w) || t == TokenView::Lang(w)),
{
    let q = ts.push(t);
    let x = TokenView::Lang(w);
    if q.contains(x) {
        let k = choose|k: int| 0 <= k < q.len() && q[k] == x;
        if k < ts.len() {
            assert(ts[k] == x);
        }
    }
    if ts.contains(x) {
        let k = choose|k: int| 0 <= k < ts.len() && ts[k] == x;
        assert(q[k] == x);
    }
    if t == x {
        assert(q[q.len() - 1] == x);
    }
}

/// The flags of a code block's attributes, whatever the order of the tokens
/// and whatever the options:
/// - it should panic exactly where a bare token is `should_panic`;
/// - it is compiled but not run exactly where a bare token is `no_run` or
///   `compile_fail`;
/// - it is ignored on all targets exactly where a bare token is `ignore`;
/// - it is a test harness exactly where a bare token is `test_harness`;
/// - it should fail to compile exactly where a bare token is `compile_fail`.
pub proof fn lemma_flags_read(ts: Seq<TokenView>, a: bool, p: bool, c: bool)
    ensures
        read_views(ts, a, p, c).should_panic <==> has_lang_token(ts, "should_panic"@),
        read_views(ts, a, p, c).no_run <==> (has_lang_token(ts, "no_run"@) || has_lang_token(ts, "compile_fail"@)),
        read_views(ts, a, p, c).ignore_all <==> has_lang_token(ts, "ignore"@),
        read_views(ts, a, p, c).test_harness <==> has_lang_token(ts, "test_harness"@),
        read_views(ts, a, p, c).compile_fail <==> has_lang_token(ts, "compile_fail"@),
    decreases ts.len(),
{
    if ts.len() > 0 {
        let init = ts.drop_last();
        let t = ts.last();
        lemma_flags_read(init, a, p, c);
        if let TokenView::Lang(x) = t {
            lemma_token_cases(x, a);
        }
        assert(ts =~= init.push(t));
        lemma_has_lang_token_push(init, t, "should_panic"@);
        lemma_has_lang_token_push(init, t, "no_run"@);
        lemma_has_lang_token_push(init, t, "ignore"@);
        lemma_has_lang_token_push(init, t, "test_harness"@);
        lemma_has_lang_token_push(init, t, "compile_fail"@);
    } else {
        assert(!has_lang_token(ts, "should_panic"@));
        assert(!has_lang_token(ts, "no_run"@));
        assert(!has_lang_token(ts, "ignore"@));
        assert(!has_lang_token(ts, "test_harness"@));
        assert(!has_lang_token(ts, "compile_fail"@));
    }
}

/// The attributes of a code block, read without custom classes, say
/// `no_run` exactly where its bare tokens hold `no_run` or `compile_fail`,
/// and `should_panic` exactly where they hold `should_panic`.
pub proof fn lemma_parse_no_run(s: Seq<char>, a: bool, p: bool)
    ensures
        read_views(attribute_tokens(s, false), a, p, false).no_run <==> (bare_tokens(s).contains("no_run"@)
            || bare_tokens(s).contains("compile_fail"@)),
        read_views(attribute_tokens(s, false), a, p, false).should_panic <==> bare_tokens(s).contains(
            "should_panic"@,
        ),
{
    let bare = bare_tokens(s);
    let ts = attribute_tokens(s, false);
    lemma_flags_read(ts, a, p, false);
    assert forall|w: Seq<char>| has_lang_token(ts, w) <==> #[trigger] bare.contains(w) by {
        if bare.contains(w) {
            let k = choose|k: int| 0 <= k < bare.len() && bare[k] == w;
            assert(ts[k] == TokenView::Lang(w));
        }
        if ts.contains(TokenView::Lang(w)) {
            let k = choose|k: int| 0 <= k < ts.len() && ts[k] == TokenView::Lang(w);
            assert(bare[k] == w);
        }
    }
}

/// A character that may start a bare word.
pub open spec fn is_leading_char(c: char) -> bool {
    c == '_' || c == '-' || c == ':' || ('a' <= c && c <= 'z') || ('A' <= c && c <= 'Z') || ('0' <= c && c <= '9')
}

/// A character of a bare word.
pub open spec fn is_bareword_char(c: char) -> bool {
    is_leading_char(c) || c == '.' || c == '!' || c == '#' || c == '$' || c == '%' || c == '&' || c == '*'
        || c == '+' || c == '/' || c == ';' || c == '<' || c == '>' || c == '?' || c == '@' || c == '^'
        || c == '|' || c == '~'
}

/// The first position at or after `p` that holds no separator.
pub open spec fn skip_seps(d: Seq<char>, p: int) -> int
    decreases d.len() - p,
{
    if p < 0 || p >= d.len() {
        d.len() as int
    } else if is_token_separator(d[p]) {
        skip_seps(d, p + 1)
    } else {
        p
    }
}

/// The end of the run of bare word characters from `q`.
pub open spec fn bareword_end(d: Seq<char>, q: int) -> int
    decreases d.len() - q,
{
    if 0 <= q < d.len() && is_bareword_char(d[q]) {
        bareword_end(d, q + 1)
    } else {
        q
    }
}

/// The first position at or after `q` that holds `ch`.
pub open spec fn char_at_or_after(d: Seq<char>, q: int, ch: char) -> Option<int>
    decreases d.len() - q,
{
    if q < 0 || q >= d.len() {
        None
    } else if d[q] == ch {
        Some(q)
    } else {
        char_at_or_after(d, q + 1, ch)
    }
}

/// What may follow a token: the end, `}`, a separator or `(`.
pub open spec fn after_ok(d: Seq<char>, q: int) -> bool {
    q >= d.len() || d[q] == '}' || is_token_separator(d[q]) || d[q] == '('
}

/// A class attribute whose `.` is at `start`.
pub open spec fn class_at(d: Seq<char>, start: int) -> Option<(TokenView, int, bool)> {
    let q = bareword_end(d, start + 1);
    let class = d.subrange(start + 1, q);
    if class.len() == 0 {
        None
    } else if q >= d.len() {
        Some((TokenView::Class(class), d.len() as int, true))
    } else if after_ok(d, q) {
        Some((TokenView::Class(class), q, true))
    } else {
        None
    }
}

/// A token of a key or a value starting at `start` with the character `c`:
/// a quoted string or a bare word; its bounds and where reading goes on.
pub open spec fn word_at(d: Seq<char>, start: int, c: char) -> Option<(int, int, int)> {
    if c == '"' {
        match char_at_or_after(d, start + 1, '"') {
            None => None,
            Some(r) => Some((start + 1, r, r + 1)),
        }
    } else {
        let q = bareword_end(d, start + 1);
        if q >= d.len() {
            None
        } else {
            Some((start, q, q))
        }
    }
}

/// A key-value attribute whose key starts at `start` with `c`.
pub open spec fn key_value_at(d: Seq<char>, c: char, start: int) -> Option<(TokenView, int, bool)> {
    match word_at(d, start, c) {
        None => None,
        Some((ks, ke, k)) => if ks == ke || k >= d.len() || d[k] != '=' || k + 1 >= d.len() {
            None
        } else {
            let v = k + 1;
            let cv = d[v];
            if cv != '"' && !is_bareword_char(cv) {
                None
            } else {
                match word_at(d, v, cv) {
                    None => None,
                    Some((vs, ve, next)) => if vs == ve || !after_ok(d, next) {
                        None
                    } else {
                        Some((TokenView::KeyValue(d.subrange(ks, ke), d.subrange(vs, ve)), next, true))
                    },
                }
            }
        },
    }
}

/// The next token from `p`, where reading goes on and whether it is in an
/// attribute block; `None` at the end or at an error.
pub open spec fn tag_next(d: Seq<char>, p: int, in_block: bool) -> Option<(TokenView, int, bool)>
    decreases d.len() - p, 1int,
{
    let start = skip_seps(d, p);
    if p < 0 || start >= d.len() || start < p {
        None
    } else if in_block {
        in_block_at(d, start)
    } else {
        outside_from(d, start, start)
    }
}

/// The next token inside an attribute block, at `pos`.
pub open spec fn in_block_at(d: Seq<char>, pos: int) -> Option<(TokenView, int, bool)>
    decreases d.len() - pos, 0int,
{
    if pos < 0 || pos >= d.len() {
        None
    } else {
        let c = d[pos];
        if c == '}' {
            tag_next(d, pos + 1, false)
        } else if c == '.' {
            class_at(d, pos)
        } else if c == '"' || is_leading_char(c) {
            key_value_at(d, c, pos)
        } else {
            None
        }
    }
}

/// The next token outside attribute blocks, started at `start` and read up
/// to `pos`.
pub open spec fn outside_from(d: Seq<char>, start: int, pos: int) -> Option<(TokenView, int, bool)>
    decreases d.len() - pos, 0int,
{
    if pos < 0 || start < 0 || start > pos {
        None
    } else if pos >= d.len() {
        if start >= d.len() {
            None
        } else {
            Some((TokenView::Lang(d.subrange(start, d.len() as int)), d.len() as int, false))
        }
    } else {
        let c = d[pos];
        if c == '"' {
            if pos != start {
                None
            } else {
                match char_at_or_after(d, pos + 1, '"') {
                    None => None,
                    Some(r) => {
                        let q = r + 1;
                        if q < d.len() && d[q] != '{' && !is_token_separator(d[q]) && d[q] != '(' {
                            None
                        } else {
                            Some((TokenView::Lang(d.subrange(pos + 1, r)), q, false))
                        }
                    },
                }
            }
        } else if c == '{' {
            tag_next(d, pos + 1, true)
        } else if is_token_separator(c) {
            if pos != start {
                Some((TokenView::Lang(d.subrange(start, pos)), pos + 1, false))
            } else {
                tag_next(d, pos + 1, false)
            }
        } else if c == '(' {
            match char_at_or_after(d, pos + 1, ')') {
                None => None,
                Some(r) => if pos != start {
                    Some((TokenView::Lang(d.subrange(start, pos)), r + 1, false))
                } else if pos <= r < d.len() {
                    tag_next(d, r + 1, false)
                } else {
                    None
                },
            }
        } else if (pos == start && is_leading_char(c)) || (pos != start && is_bareword_char(c)) {
            outside_from(d, start, pos + 1)
        } else {
            None
        }
    }
}

/// All tokens from `p` on, up to the end or the first error.
pub open spec fn tags_from(d: Seq<char>, p: int, in_block: bool) -> Seq<TokenView>
    decreases d.len() - p,
{
    match tag_next(d, p, in_block) {
        None => Seq::empty(),
        Some((t, q, b)) => if p < q <= d.len() {
            seq![t] + tags_from(d, q, b)
        } else {
            Seq::empty()
        },
    }
}

/// The text view of an exec step result.
pub open spec fn step_view(r: Option<(LangStringToken, usize, bool)>) -> Option<(TokenView, int, bool)> {
    match r {
        Some((t, q, b)) => Some((token_view(t), q as int, b)),
        None => None,
    }
}

proof fn lemma_bareword_end(d: Seq<char>, q: int)
    requires
        0 <= q,
    ensures
        q <= bareword_end(d, q),
        q <= d.len() ==> bareword_end(d, q) <= d.len(),
    decreases d.len() - q,
{
    if 0 <= q < d.len() && is_bareword_char(d[q]) {
        lemma_bareword_end(d, q + 1);
    }
}

proof fn lemma_char_at_or_after(d: Seq<char>, q: int, ch: char)
    ensures
        char_at_or_after(d, q, ch) matches Some(r) ==> q <= r < d.len() && d[r] == ch,
    decreases d.len() - q,
{
    if 0 <= q < d.len() && d[q] != ch {
        lemma_char_at_or_after(d, q + 1, ch);
    }
}

proof fn lemma_skip_seps(d: Seq<char>, p: int)
    requires
        0 <= p,
    ensures
        p <= d.len() ==> p <= skip_seps(d, p) <= d.len(),
    decreases d.len() - p,
{
    if 0 <= p < d.len() && is_token_separator(d[p]) {
        lemma_skip_seps(d, p + 1);
    }
}

fn is_leading_exec(c: char) -> (b: bool)
    ensures
        b == is_leading_char(c),
{
    c == '_' || c == '-' || c == ':' || ('a' <= c && c <= 'z') || ('A' <= c && c <= 'Z') || ('0' <= c && c <= '9')
}

fn is_bareword_exec(c: char) -> (b: bool)
    ensures
        b == is_bareword_char(c),
{
    is_leading_exec(c) || c == '.' || c == '!' || c == '#' || c == '$' || c == '%' || c == '&' || c == '*'
        || c == '+' || c == '/' || c == ';' || c == '<' || c == '>' || c == '?' || c == '@' || c == '^'
        || c == '|' || c == '~'
}

fn is_separator_exec(c: char) -> (b: bool)
    ensures
        b == is_token_separator(c),
{
    c == ',' || c == ' ' || c == '\t'
}

fn skip_seps_exec(d: &[char], p: usize) -> (r: usize)
    requires
        p <= d@.len(),
    ensures
        r == skip_seps(d@, p as int),
{
    let mut q = p;
    while q < d.len() && is_separator_exec(d[q])
        invariant
            p <= q <= d@.len(),
            skip_seps(d@, p as int) == skip_seps(d@, q as int),
        decreases d@.len() - q,
    {
        q = q + 1;
    }
    q
}

fn bareword_end_exec(d: &[char], q: usize) -> (r: usize)
    requires
        q <= d@.len(),
    ensures
        r == bareword_end(d@, q as int),
{
    let mut e = q;
    while e < d.len() && is_bareword_exec(d[e])
        invariant
            q <= e <= d@.len(),
            bareword_end(d@, q as int) == bareword_end(d@, e as int),
        decreases d@.len() - e,
    {
        e = e + 1;
    }
    e
}

fn char_at_or_after_exec(d: &[char], q: usize, ch: char) -> (r: Option<usize>)
    requires
        q <= d@.len(),
    ensures
        match r {
            Some(x) => char_at_or_after(d@, q as int, ch) == Some(x as int),
            None => char_at_or_after(d@, q as int, ch) is None,
        },
{
    let mut e = q;
    while e < d.len() && d[e] != ch
        invariant
            q <= e <= d@.len(),
            char_at_or_after(d@, q as int, ch) == char_at_or_after(d@, e as int, ch),
        decreases d@.len() - e,
    {
        e = e + 1;
    }
    if e < d.len() {
        Some(e)
    } else {
        None
    }
}

fn after_ok_exec(d: &[char], q: usize) -> (b: bool)
    ensures
        b == after_ok(d@, q as int),
{
    q >= d.len() || d[q] == '}' || is_separator_exec(d[q]) || d[q] == '('
}

fn text_of(d: &[char], from: usize, to: usize) -> (r: String)
    requires
        from <= to <= d@.len(),
    ensures
        r@ == d@.subrange(from as int, to as int),
{
    string_of(crate::text::slice_chars(d, from, to).as_slice())
}

fn class_at_exec(d: &[char], start: usize) -> (r: Option<(LangStringToken, usize, bool)>)
    requires
        start < d@.len(),
    ensures
        step_view(r) == class_at(d@, start as int),
{
    let n = d.len();
    assert(start < n);
    proof { lemma_bareword_end(d@, start + 1); }
    let q = bareword_end_exec(d, start + 1);
    if q == start + 1 {
        assert(d@.subrange(start + 1, q as int).len() == 0);
        None
    } else if q >= d.len() {
        let t = text_of(d, start + 1, d.len());
        Some((LangStringToken::ClassAttribute(t), d.len(), true))
    } else if after_ok_exec(d, q) {
        let t = text_of(d, start + 1, q);
        Some((LangStringToken::ClassAttribute(t), q, true))
    } else {
        None
    }
}

fn word_at_exec(d: &[char], start: usize, c: char) -> (r: Option<(usize, usize, usize)>)
    requires
        start < d@.len(),
    ensures
        match r {
            Some((a, b, n)) => word_at(d@, start as int, c) == Some((a as int, b as int, n as int)) && a <= b <= d@.len() && n <= d@.len(),
            None => word_at(d@, start as int, c) is None,
        },
{
    let n = d.len();
    assert(start < n);
    if c == '"' {
        proof { lemma_char_at_or_after(d@, start + 1, '"'); }
        match char_at_or_after_exec(d, start + 1, '"') {
            None => None,
            Some(r) => Some((start + 1, r, r + 1)),
        }
    } else {
        proof { lemma_bareword_end(d@, start + 1); }
        let q = bareword_end_exec(d, start + 1);
        if q >= d.len() {
            None
        } else {
            Some((start, q, q))
        }
    }
}

fn key_value_at_exec(d: &[char], c: char, start: usize) -> (r: Option<(LangStringToken, usize, bool)>)
    requires
        start < d@.len(),
    ensures
        step_view(r) == key_value_at(d@, c, start as int),
{
    match word_at_exec(d, start, c) {
        None => None,
        Some((ks, ke, k)) => {
            if ks == ke || k >= d.len() || d[k] != '=' || k + 1 >= d.len() {
                None
            } else {
                let v = k + 1;
                let cv = d[v];
                if cv != '"' && !is_bareword_exec(cv) {
                    None
                } else {
                    match word_at_exec(d, v, cv) {
                        None => None,
                        Some((vs, ve, next)) => {
                            if vs == ve || !after_ok_exec(d, next) {
                                None
                            } else {
                                let key = text_of(d, ks, ke);
                                let value = text_of(d, vs, ve);
                                Some((LangStringToken::KeyValueAttribute(key, value), next, true))
                            }
                        },
                    }
                }
            }
        },
    }
}

fn tag_next_exec(d: &[char], p: usize, in_block: bool) -> (r: Option<(LangStringToken, usize, bool)>)
    requires
        p <= d@.len(),
    ensures
        step_view(r) == tag_next(d@, p as int, in_block),
        r matches Some((_, q, _)) ==> q <= d@.len(),
    decreases d@.len() - p, 1int,
{
    proof { lemma_skip_seps(d@, p as int); }
    let start = skip_seps_exec(d, p);
    if start >= d.len() {
        None
    } else if in_block {
        in_block_at_exec(d, start)
    } else {
        outside_from_exec(d, start, start)
    }
}

fn in_block_at_exec(d: &[char], pos: usize) -> (r: Option<(LangStringToken, usize, bool)>)
    requires
        pos < d@.len(),
    ensures
        step_view(r) == in_block_at(d@, pos as int),
        r matches Some((_, q, _)) ==> q <= d@.len(),
    decreases d@.len() - pos, 0int,
{
    let c = d[pos];
    if c == '}' {
        tag_next_exec(d, pos + 1, false)
    } else if c == '.' {
        proof { lemma_bareword_end(d@, pos + 1); }
        class_at_exec(d, pos)
    } else if c == '"' || is_leading_exec(c) {
        let r = key_value_at_exec(d, c, pos);
        proof {
            match word_at(d@, pos as int, c) {
                Some((a, b, n)) => {
                    if c == '"' {
                        lemma_char_at_or_after(d@, pos + 1, '"');
                    } else {
                        lemma_bareword_end(d@, pos + 1);
                    }
                    if n + 1 < d@.len() {
                        let cv = d@[n + 1];
                        if cv == '"' {
                            lemma_char_at_or_after(d@, n + 2, '"');
                        } else {
                            lemma_bareword_end(d@, n + 2);
                        }
                    }
                },
                None => {},
            }
        }
        r
    } else {
        None
    }
}

fn outside_from_exec(d: &[char], start: usize, pos: usize) -> (r: Option<(LangStringToken, usize, bool)>)
    requires
        start <= pos <= d@.len(),
    ensures
        step_view(r) == outside_from(d@, start as int, pos as int),
        r matches Some((_, q, _)) ==> q <= d@.len(),
    decreases d@.len() - pos, 0int,
{
    if pos >= d.len() {
        if start >= d.len() {
            None
        } else {
            let t = text_of(d, start, d.len());
            Some((LangStringToken::LangToken(t), d.len(), false))
        }
    } else {
        let c = d[pos];
        if c == '"' {
            if pos != start {
                None
            } else {
                proof { lemma_char_at_or_after(d@, pos + 1, '"'); }
                match char_at_or_after_exec(d, pos + 1, '"') {
                    None => None,
                    Some(r) => {
                        let q = r + 1;
                        if q < d.len() && d[q] != '{' && !is_separator_exec(d[q]) && d[q] != '(' {
                            None
                        } else {
                            let t = text_of(d, pos + 1, r);
                            Some((LangStringToken::LangToken(t), q, false))
                        }
                    },
                }
            }
        } else if c == '{' {
            tag_next_exec(d, pos + 1, true)
        } else if is_separator_exec(c) {
            if pos != start {
                let t = text_of(d, start, pos);
                Some((LangStringToken::LangToken(t), pos + 1, false))
            } else {
                tag_next_exec(d, pos + 1, false)
            }
        } else if c == '(' {
            proof { lemma_char_at_or_after(d@, pos + 1, ')'); }
            match char_at_or_after_exec(d, pos + 1, ')') {
                None => None,
                Some(r) => {
                    if pos != start {
                        let t = text_of(d, start, pos);
                        Some((LangStringToken::LangToken(t), r + 1, false))
                    } else {
                        tag_next_exec(d, r + 1, false)
                    }
                },
            }
        } else if (pos == start && is_leading_exec(c)) || (pos != start && is_bareword_exec(c)) {
            outside_from_exec(d, start, pos + 1)
        } else {
            None
        }
    }
}

/// The tokens of attributes that may hold attribute blocks, up to the end
/// or the first error.
pub fn tag_tokens(data: &str) -> (r: Vec<LangStringToken>)
    ensures
        r@.map_values(|t: LangStringToken| token_view(t)) == tags_from(data@, 0, false),
{
    let dv = chars_of(data);
    let d = dv.as_slice();
    let mut r: Vec<LangStringToken> = Vec::new();
    let mut p: usize = 0;
    let mut in_block = false;
    let ghost mut done: Seq<TokenView> = Seq::empty();
    loop
        invariant
            p <= d@.len(),
            d@ == data@,
            r@.map_values(|t: LangStringToken| token_view(t)) == done,
            done + tags_from(d@, p as int, in_block) == tags_from(d@, 0, false),
        decreases d@.len() - p,
    {
        match tag_next_exec(d, p, in_block) {
            None => {
                assert(tags_from(d@, p as int, in_block) =~= Seq::<TokenView>::empty());
                assert(done =~= tags_from(d@, 0, false));
                return r;
            },
            Some((t, q, b)) => {
                if q <= p {
                    assert(tags_from(d@, p as int, in_block) =~= Seq::<TokenView>::empty());
                    assert(done =~= tags_from(d@, 0, false));
                    return r;
                }
                let ghost tv = token_view(t);
                assert(tags_from(d@, p as int, in_block) == seq![tv] + tags_from(d@, q as int, b));
                proof {
                    assert(done + (seq![tv] + tags_from(d@, q as int, b)) =~= (done + seq![tv]) + tags_from(d@, q as int, b));
                    done = done + seq![tv];
                }
                let ghost before = r@;
                r.push(t);
                assert(r@.map_values(|t: LangStringToken| token_view(t)) =~= before.map_values(|t: LangStringToken| token_view(t)).push(tv));
                p = q;
                in_block = b;
            },
        }
    }
}

/// The tokens of the attributes `s`: read with attribute blocks where
/// custom code classes are enabled, as bare tokens otherwise.
pub open spec fn attribute_tokens(s: Seq<char>, custom_code_classes_in_docs: bool) -> Seq<TokenView> {
    if custom_code_classes_in_docs {
        tags_from(s, 0, false)
    } else {
        bare_tokens(s).map_values(|w: Seq<char>| TokenView::Lang(w))
    }
}

impl LangString {
    /// Reads the attributes `string` of a code block.
    pub fn parse(
        string: &str,
        allow_error_code_check: ErrorCodes,
        enable_per_target_ignores: bool,
        custom_code_classes_in_docs: bool,
    ) -> (r: LangString)
        ensures
            lang_string_is(
                r,
                string@,
                read_views(
                    attribute_tokens(string@, custom_code_classes_in_docs),
                    allow_error_code_check == ErrorCodes::Yes,
                    enable_per_target_ignores,
                    custom_code_classes_in_docs,
                ),
            ),
    {
        let ts = if custom_code_classes_in_docs {
            tag_tokens(string)
        } else {
            tokens(string)
        };
        proof {
            let a = allow_error_code_check == ErrorCodes::Yes;
            lemma_read_views(ts@, a, enable_per_target_ignores, custom_code_classes_in_docs);
            if !custom_code_classes_in_docs {
                let bare = bare_tokens(string@);
                let tv = ts@.map_values(|t: LangStringToken| token_view(t));
                let bv = bare.map_values(|w: Seq<char>| TokenView::Lang(w));
                assert forall|i: int| 0 <= i < ts@.len() implies #[trigger] tv[i] == bv[i] by {
                    assert(ts@[i] matches LangStringToken::LangToken(t) && t@ == bare[i]);
                }
                assert(tv =~= bv);
            }
        }
        LangString::parse_tokens(string, &ts, allow_error_code_check, enable_per_target_ignores, custom_code_classes_in_docs)
    }

    /// Reads the attributes `string` of a code block, reporting nothing.
    pub fn parse_without_check(
        string: &str,
        allow_error_code_check: ErrorCodes,
        enable_per_target_ignores: bool,
        custom_code_classes_in_docs: bool,
    ) -> (r: LangString)
        ensures
            lang_string_is(
                r,
                string@,
                read_views(
                    attribute_tokens(string@, custom_code_classes_in_docs),
                    allow_error_code_check == ErrorCodes::Yes,
                    enable_per_target_ignores,
                    custom_code_classes_in_docs,
                ),
            ),
    {
        LangString::parse(string, allow_error_code_check, enable_per_target_ignores, custom_code_classes_in_docs)
    }
}

/// A line of a doctest: hidden in the rendered documentation, or shown.
#[derive(Debug, Clone, PartialEq, Eq)]
pub enum Line {
    Hidden(String),
    Shown(String),
}

/// Whether a line is hidden, and its text.
pub open spec fn line_view(l: Line) -> (bool, Seq<char>) {
    match l {
        Line::Hidden(x) => (true, x@),
        Line::Shown(x) => (false, x@),
    }
}

/// `s` with its first `##` written as `#`.
pub open spec fn first_hashes_halved(s: Seq<char>) -> Seq<char> {
    match crate::text::find(s, "##"@) {
        Some(i) => s.take(i) + "#"@ + s.skip(i + "##"@.len()),
        None => s,
    }
}

/// How a line of a doctest is shown: whether it is hidden, and its text.
/// A line that starts with `##` is shown with one `#` less; one that starts
/// with `# `, or is `#` alone, is hidden without that mark.
pub open spec fn mapped_line(s: Seq<char>) -> (bool, Seq<char>) {
    let t = trim(s);
    if starts_with(t, "##"@) {
        (false, first_hashes_halved(s))
    } else if starts_with(t, "# "@) {
        (true, t.skip("# "@.len() as int))
    } else if t == "#"@ {
        (true, Seq::empty())
    } else {
        (false, s)
    }
}

impl Line {
    /// The text of a shown line, for the rendered documentation.
    pub fn for_html(self) -> (r: Option<String>)
        ensures
            r matches Some(x) ==> !line_view(self).0 && x@ == line_view(self).1,
            r is None <==> line_view(self).0,
    {
        match self {
            Line::Shown(l) => Some(l),
            Line::Hidden(_) => None,
        }
    }

    /// The text of the line, for the compiled doctest.
    pub fn for_code(self) -> (r: String)
        ensures
            r@ == line_view(self).1,
    {
        match self {
            Line::Shown(l) => l,
            Line::Hidden(l) => l,
        }
    }
}

/// How a line of a doctest is shown.
pub fn map_line(s: &str) -> (r: Line)
    ensures
        line_view(r) == mapped_line(s@),
{
    let sc = chars_of(s);
    let scs = sc.as_slice();
    let t = crate::text::trim_exec(scs);
    let two = literal("##");
    let hash_space = literal("# ");
    let one = literal("#");
    if crate::text::starts_with_exec(t.as_slice(), two.as_slice()) {
        let twos = two.as_slice();
        match crate::text::find_from_exec(scs, twos, 0) {
            Some(i) => {
                let n = scs.len();
                assert(i + twos@.len() <= n);
                let mut v = crate::text::slice_chars(scs, 0, i);
                extend_chars(&mut v, one.as_slice());
                let rest = crate::text::slice_chars(scs, i + twos.len(), scs.len());
                extend_chars(&mut v, rest.as_slice());
                Line::Shown(string_of(v.as_slice()))
            },
            None => Line::Shown(string_of(sc.as_slice())),
        }
    } else if crate::text::starts_with_exec(t.as_slice(), hash_space.as_slice()) {
        let rest = crate::text::slice_chars(t.as_slice(), hash_space.len(), t.len());
        Line::Hidden(string_of(rest.as_slice()))
    } else if crate::text::same_chars(t.as_slice(), one.as_slice()) {
        Line::Hidden(String::new())
    } else {
        Line::Shown(string_of(sc.as_slice()))
    }
}

/// The lines joined with line breaks between them.
pub open spec fn joined_lines(ls: Seq<Seq<char>>) -> Seq<char>
    decreases ls.len(),
{
    if ls.len() == 0 {
        Seq::empty()
    } else if ls.len() == 1 {
        ls[0]
    } else {
        joined_lines(ls.drop_last()) + seq!['\n'] + ls.last()
    }
}

/// The code of a doctest whose block holds `block`: its lines, each as
/// the compiled test sees it, joined with line breaks.
pub open spec fn doctest_code(block: Seq<char>) -> Seq<char> {
    joined_lines(crate::text::str_lines(block).map_values(|l: Seq<char>| mapped_line(l).1))
}

/// Appends a line break, unless `first`, and the code of the doctest line `line`.
fn push_code_line(out: &mut Vec<char>, line: &[char], first: bool)
    ensures
        final(out)@ == old(out)@ + (if first { Seq::<char>::empty() } else { seq!['\n'] }) + mapped_line(line@).1,
{
    let l = string_of(line);
    let code = map_line(l.as_str()).for_code();
    if !first {
        out.push('\n');
    }
    let cc = chars_of(code.as_str());
    extend_chars(out, cc.as_slice());
}

/// The code of a doctest whose block holds `block`.
#[verifier::rlimit(30)]
pub fn code_text(block: &str) -> (r: String)
    ensures
        r@ == doctest_code(block@),
{
    let bc = chars_of(block);
    let lines = crate::text::lines_exec(bc.as_slice());
    let ghost sl = crate::text::str_lines(block@);
    let ghost ls = sl.map_values(|l: Seq<char>| mapped_line(l).1);
    let mut out: Vec<char> = Vec::new();
    let mut i: usize = 0;
    while i < lines.len()
        invariant
            i <= lines@.len() == sl.len() == ls.len(),
            ls == sl.map_values(|l: Seq<char>| mapped_line(l).1),
            forall|j: int| 0 <= j < lines@.len() ==> (#[trigger] lines@[j])@ == sl[j],
            out@ == joined_lines(ls.take(i as int)),
        decreases lines@.len() - i,
    {
        push_code_line(&mut out, lines[i].as_slice(), i == 0);
        proof {
            assert(ls[i as int] == mapped_line(sl[i as int]).1);
            assert(ls.take(i + 1).drop_last() =~= ls.take(i as int));
            assert(ls.take(i + 1).last() == ls[i as int]);
        }
        i = i + 1;
    }
    assert(ls.take(lines@.len() as int) =~= ls);
    string_of(out.as_slice())
}

} // verus!
