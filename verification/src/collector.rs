//! Collecting the doctests of documentation: the code blocks of its
//! Markdown text, each with the attributes of the block, its code, its
//! name and the line at which it starts.

use vstd::prelude::*;
use pulldown_cmark::{CodeBlockKind, Event, Parser, Tag};
use unicode_xid::UnicodeXID;
use crate::rustdoc::{
    attribute_tokens, code_text, doctest_code, initial_view, lang_string_is, read_views, ErrorCodes,
    LangString, LangView,
};
use crate::text::{chars_of, extend_chars, literal, names_of, string_of, rsplit_once, rsplit_once_exec, strip_suffix, strip_suffix_exec};

verus! {

/// What `UnicodeXID::is_xid_start` of `unicode_xid` gives for a character.
pub uninterp spec fn xid_start(c: char) -> bool;

/// What `UnicodeXID::is_xid_continue` of `unicode_xid` gives for a character.
pub uninterp spec fn xid_continue(c: char) -> bool;

/// `UnicodeXID::is_xid_start` of `unicode_xid`: whether `c` has the Unicode
/// property `XID_Start`. The result is named, not stated.
#[verifier::external_body]
fn is_xid_start(c: char) -> (b: bool)
    ensures
        b == xid_start(c),
{
    c.is_xid_start()
}

/// `UnicodeXID::is_xid_continue` of `unicode_xid`: whether `c` has the
/// Unicode property `XID_Continue`. The result is named, not stated.
#[verifier::external_body]
fn is_xid_continue(c: char) -> (b: bool)
    ensures
        b == xid_continue(c),
{
    c.is_xid_continue()
}

/// A character that may start an identifier.
pub open spec fn is_id_start(c: char) -> bool {
    c == '_' || xid_start(c)
}

/// A heading as an identifier: each character that may not stand at its
/// place in an identifier becomes `_`.
pub open spec fn heading_ident(name: Seq<char>) -> Seq<char> {
    Seq::new(
        name.len(),
        |i: int| if (i == 0 && is_id_start(name[i])) || (i != 0 && xid_continue(name[i])) { name[i] } else { '_' },
    )
}

/// A heading as an identifier.
fn heading_ident_exec(name: &str) -> (r: Vec<char>)
    ensures
        r@ == heading_ident(name@),
{
    let cs = chars_of(name);
    let mut r: Vec<char> = Vec::new();
    let mut i: usize = 0;
    while i < cs.len()
        invariant
            i <= cs@.len(),
            cs@ == name@,
            r@ == heading_ident(name@).take(i as int),
        decreases cs@.len() - i,
    {
        let c = cs[i];
        let keep = if i == 0 {
            c == '_' || is_xid_start(c)
        } else {
            is_xid_continue(c)
        };
        r.push(if keep { c } else { '_' });
        assert(r@ =~= heading_ident(name@).take(i + 1));
        i = i + 1;
    }
    assert(heading_ident(name@).take(cs@.len() as int) =~= heading_ident(name@));
    r
}

/// The names joined with `::` between them.
pub open spec fn joined_path(ns: Seq<Seq<char>>) -> Seq<char>
    decreases ns.len(),
{
    if ns.len() == 0 {
        Seq::empty()
    } else if ns.len() == 1 {
        ns[0]
    } else {
        joined_path(ns.drop_last()) + "::"@ + ns.last()
    }
}

/// The name of the doctest at `line` of `filename`, under the headings or
/// the item path `names`: `<file> - <path> (line <n>)`, the path without
/// spaces and left out where it is empty.
pub open spec fn doctest_name(names: Seq<Seq<char>>, line: nat, filename: Seq<char>) -> Seq<char> {
    let path = joined_path(names).filter(|c: char| c != ' ');
    let shown = if path.len() > 0 {
        path.push(' ')
    } else {
        path
    };
    filename + " - "@ + shown + "(line "@ + crate::test_runner::decimal(line) + ")"@
}

/// The names joined with `::` between them.
fn join_path(names: &Vec<String>) -> (r: Vec<char>)
    ensures
        r@ == joined_path(names_of(names@)),
{
    let ghost ns = names_of(names@);
    let sep = literal("::");
    let mut out: Vec<char> = Vec::new();
    let mut i: usize = 0;
    while i < names.len()
        invariant
            i <= names@.len() == ns.len(),
            ns == names_of(names@),
            sep@ == "::"@,
            out@ == joined_path(ns.take(i as int)),
        decreases names@.len() - i,
    {
        if i > 0 {
            extend_chars(&mut out, sep.as_slice());
        }
        let n = chars_of(names[i].as_str());
        extend_chars(&mut out, n.as_slice());
        proof {
            assert(ns[i as int] == names@[i as int]@);
            assert(ns.take(i + 1).drop_last() =~= ns.take(i as int));
            assert(ns.take(i + 1).last() == ns[i as int]);
        }
        i = i + 1;
    }
    assert(ns.take(names@.len() as int) =~= ns);
    out
}

/// The characters of `s` other than spaces.
fn without_spaces(s: &[char]) -> (r: Vec<char>)
    ensures
        r@ == s@.filter(|c: char| c != ' '),
{
    let mut out: Vec<char> = Vec::new();
    let mut i: usize = 0;
    while i < s.len()
        invariant
            i <= s@.len(),
            out@ == s@.take(i as int).filter(|c: char| c != ' '),
        decreases s@.len() - i,
    {
        proof {
            reveal(Seq::filter);
            assert(s@.take(i + 1).drop_last() =~= s@.take(i as int));
            assert(s@.take(i + 1).last() == s@[i as int]);
        }
        if s[i] != ' ' {
            out.push(s[i]);
        }
        i = i + 1;
    }
    assert(s@.take(s@.len() as int) =~= s@);
    out
}

/// The heading names after a heading `ident` of `level` (from one): the
/// names of the enclosing levels, with `_` for each level left out, and
/// `ident` last.
pub open spec fn names_after_heading(names: Seq<Seq<char>>, ident: Seq<char>, level: int) -> Seq<Seq<char>> {
    if level <= names.len() {
        names.take(level - 1).push(ident)
    } else {
        (names + Seq::new((level - 1 - names.len()) as nat, |i: int| "_"@)).push(ident)
    }
}


/// Options that apply to all doctests of a crate or a Markdown file.
#[derive(Debug, Clone)]
pub struct GlobalTestOptions {
    /// Whether the crate is not brought into doctests by default.
    pub no_crate_inject: bool,
    /// Attributes added to each doctest's crate.
    pub attrs: Vec<String>,
}

impl Default for GlobalTestOptions {
    /// The crate brought in, and no attributes added.
    fn default() -> (r: GlobalTestOptions)
        ensures
            !r.no_crate_inject,
            r.attrs@.len() == 0,
    {
        GlobalTestOptions { no_crate_inject: false, attrs: Vec::new() }
    }
}

impl GlobalTestOptions {
    /// A copy of these options.
    pub fn duplicate(&self) -> (r: GlobalTestOptions)
        ensures
            r.no_crate_inject == self.no_crate_inject,
            names_of(r.attrs@) == names_of(self.attrs@),
    {
        let mut attrs: Vec<String> = Vec::new();
        let mut i: usize = 0;
        while i < self.attrs.len()
            invariant
                i <= self.attrs@.len(),
                names_of(attrs@) == names_of(self.attrs@).take(i as int),
            decreases self.attrs@.len() - i,
        {
            let ghost before = attrs@;
            let a = self.attrs[i].clone();
            attrs.push(a);
            proof { crate::text::lemma_names_push(before, a); }
            assert(names_of(attrs@) =~= names_of(self.attrs@).take(i + 1));
            i = i + 1;
        }
        assert(names_of(self.attrs@).take(self.attrs@.len() as int) =~= names_of(self.attrs@));
        GlobalTestOptions { no_crate_inject: self.no_crate_inject, attrs }
    }
}

/// A doctest as it is collected, in text: its name, its code, the
/// attributes of its block as written and as read, and the options it
/// was collected with.
pub struct TestView {
    pub name: Seq<char>,
    pub code: Seq<char>,
    pub original: Seq<char>,
    pub lang: LangView,
    pub no_crate_inject: bool,
    pub attrs: Seq<Seq<char>>,
}

/// A collected doctest is the one that `v` describes.
pub open spec fn test_matches(t: (String, (String, GlobalTestOptions, LangString)), v: TestView) -> bool {
    &&& t.0@ == v.name
    &&& t.1.0@ == v.code
    &&& lang_string_is(t.1.2, v.original, v.lang)
    &&& t.1.1.no_crate_inject == v.no_crate_inject
    &&& names_of(t.1.1.attrs@) == v.attrs
}

/// The doctests found so far, with what names them.
pub struct Collector {
    /// The doctests: each name, with its code, options and attributes.
    pub tests: Vec<(String, (String, GlobalTestOptions, LangString))>,
    names: Vec<String>,
    use_headers: bool,
    enable_per_target_ignores: bool,
    crate_name: String,
    opts: GlobalTestOptions,
    filename: String,
    source_line: Option<usize>,
}

impl Collector {
    /// The names of the enclosing headings or items.
    pub closed spec fn heading_names(&self) -> Seq<Seq<char>> {
        names_of(self.names@)
    }

    /// Whether headings name the doctests.
    pub closed spec fn headers_used(&self) -> bool {
        self.use_headers
    }

    /// The file the documentation is read from, as shown in names.
    pub closed spec fn file_name(&self) -> Seq<char> {
        self.filename@
    }

    /// The options given to every doctest.
    pub closed spec fn options(&self) -> (bool, Seq<Seq<char>>) {
        (self.opts.no_crate_inject, names_of(self.opts.attrs@))
    }

    /// The number of lines before the documentation in its source: one
    /// less than the line of the current position, where it is known.
    pub closed spec fn line_before(&self) -> nat {
        match self.source_line {
            Some(l) => if l > 0 {
                (l - 1) as nat
            } else {
                0
            },
            None => 0,
        }
    }

    /// The doctests collected.
    pub closed spec fn collected(&self) -> Seq<(String, (String, GlobalTestOptions, LangString))> {
        self.tests@
    }

    /// A collector of the doctests of the crate `crate_name`, read from the
    /// file shown as `filename`, with no doctest yet.
    pub fn new(
        crate_name: String,
        use_headers: bool,
        opts: GlobalTestOptions,
        filename: String,
        enable_per_target_ignores: bool,
    ) -> (r: Collector)
        ensures
            r.collected().len() == 0,
            r.heading_names() == Seq::<Seq<char>>::empty(),
            r.headers_used() == use_headers,
            r.file_name() == filename@,
            r.options() == (opts.no_crate_inject, names_of(opts.attrs@)),
            r.line_before() == 0,
    {
        let r = Collector {
            tests: Vec::new(),
            names: Vec::new(),
            use_headers,
            enable_per_target_ignores,
            crate_name,
            opts,
            filename,
            source_line: None,
        };
        assert(names_of(r.names@) =~= Seq::empty());
        r
    }

    /// Places the collector at the line `line` of the source.
    pub fn set_position(&mut self, line: usize)
        ensures
            final(self).line_before() == (if line > 0 { (line - 1) as nat } else { 0 }),
            final(self).collected() == old(self).collected(),
            final(self).heading_names() == old(self).heading_names(),
            final(self).headers_used() == old(self).headers_used(),
            final(self).file_name() == old(self).file_name(),
            final(self).options() == old(self).options(),
    {
        self.source_line = Some(line);
    }

    /// The file the documentation is read from, as shown in names.
    pub fn get_filename(&self) -> (r: String)
        ensures
            r@ == self.file_name(),
    {
        self.filename.clone()
    }

    /// The number of lines before the documentation in its source.
    pub fn get_line(&self) -> (r: usize)
        ensures
            r == self.line_before(),
    {
        match self.source_line {
            Some(l) => if l > 0 {
                l - 1
            } else {
                l
            },
            None => 0,
        }
    }

    /// The name of the doctest at `line` of `filename` under `names`.
    pub fn generate_name(&self, line: usize, filename: &str) -> (r: String)
        ensures
            r@ == doctest_name(self.heading_names(), line as nat, filename@),
    {
        let joined = join_path(&self.names);
        let mut path = without_spaces(joined.as_slice());
        if path.len() > 0 {
            path.push(' ');
        }
        let mut out = chars_of(filename);
        let dash = literal(" - ");
        extend_chars(&mut out, dash.as_slice());
        extend_chars(&mut out, path.as_slice());
        let open = literal("(line ");
        extend_chars(&mut out, open.as_slice());
        let digits = crate::test_runner::decimal_exec(line as u64);
        extend_chars(&mut out, digits.as_slice());
        let close = literal(")");
        extend_chars(&mut out, close.as_slice());
        string_of(out.as_slice())
    }

    /// Records the heading `name` of `level` (from one), where headings
    /// name the doctests.
    pub fn register_header(&mut self, name: &str, level: u32)
        requires
            old(self).headers_used() ==> level >= 1,
        ensures
            final(self).heading_names() == if old(self).headers_used() {
                names_after_heading(old(self).heading_names(), heading_ident(name@), level as int)
            } else {
                old(self).heading_names()
            },
            final(self).collected() == old(self).collected(),
            final(self).headers_used() == old(self).headers_used(),
            final(self).file_name() == old(self).file_name(),
            final(self).options() == old(self).options(),
            final(self).line_before() == old(self).line_before(),
    {
        if self.use_headers {
            let ident = heading_ident_exec(name);
            push_heading(&mut self.names, string_of(ident.as_slice()), level as usize);
        }
    }

    /// Adds the doctest `test` with the attributes `config`, which starts at
    /// `line`, named after the file and the enclosing names.
    pub fn add_test(&mut self, test: String, config: LangString, line: usize)
        ensures
            final(self).collected().len() == old(self).collected().len() + 1,
            final(self).collected().take(old(self).collected().len() as int) == old(self).collected(),
            final(self).collected().last().0@ == doctest_name(old(self).heading_names(), line as nat, old(self).file_name()),
            final(self).collected().last().1.0 == test,
            final(self).collected().last().1.1.no_crate_inject == old(self).options().0,
            names_of(final(self).collected().last().1.1.attrs@) == old(self).options().1,
            final(self).collected().last().1.2 == config,
            final(self).heading_names() == old(self).heading_names(),
            final(self).headers_used() == old(self).headers_used(),
            final(self).file_name() == old(self).file_name(),
            final(self).options() == old(self).options(),
            final(self).line_before() == old(self).line_before(),
    {
        let filename = self.get_filename();
        let name = self.generate_name(line, filename.as_str());
        let opts = self.opts.duplicate();
        let ghost before = self.tests@;
        self.tests.push((name, (test, opts, config)));
        assert(self.tests@.take(before.len() as int) =~= before);
    }
}

/// Records the heading `ident` of `level` among the heading names.
fn push_heading(names: &mut Vec<String>, ident: String, level: usize)
    requires
        level >= 1,
    ensures
        names_of(final(names)@) == names_after_heading(names_of(old(names)@), ident@, level as int),
{
    let ghost before = names_of(names@);
    if level <= names.len() {
        names.truncate(level - 1);
        assert(names_of(names@) =~= before.take(level - 1));
        let ghost mid = names@;
        names.push(ident);
        proof { crate::text::lemma_names_push(mid, ident); }
    } else {
        let ghost count = (level - 1 - before.len()) as nat;
        while names.len() < level - 1
            invariant
                before.len() <= names@.len() <= level - 1,
                level >= 1,
                names_of(names@) == before + Seq::new((names@.len() - before.len()) as nat, |i: int| "_"@),
            decreases level - 1 - names@.len(),
        {
            let ghost mid = names@;
            let u = string_of(literal("_").as_slice());
            names.push(u);
            proof { crate::text::lemma_names_push(mid, u); }
            assert(names_of(names@) =~= before + Seq::new((names@.len() - before.len()) as nat, |i: int| "_"@));
        }
        let ghost mid = names@;
        names.push(ident);
        proof { crate::text::lemma_names_push(mid, ident); }
    }
}

/// An event of a Markdown text that collecting doctests reads.
#[derive(Debug, Clone, PartialEq, Eq)]
pub enum MarkdownEvent {
    /// The start of a code block: its info string where the block is
    /// fenced, and the byte offset at which the block starts.
    CodeBlock(Option<String>, usize),
    /// The start of a heading of the given level.
    Heading(u32),
    /// Text.
    Text(String),
    /// Any other event.
    Other,
}

/// An event of a Markdown text, in text.
pub enum EventView {
    CodeBlock(Option<Seq<char>>, int),
    Heading(u32),
    Text(Seq<char>),
    Other,
}

/// The text of an event.
pub open spec fn event_view(e: MarkdownEvent) -> EventView {
    match e {
        MarkdownEvent::CodeBlock(l, s) => EventView::CodeBlock(
            match l {
                Some(x) => Some(x@),
                None => None,
            },
            s as int,
        ),
        MarkdownEvent::Heading(h) => EventView::Heading(h),
        MarkdownEvent::Text(t) => EventView::Text(t@),
        MarkdownEvent::Other => EventView::Other,
    }
}

/// The events that `pulldown_cmark` reads from the Markdown text `doc`.
pub uninterp spec fn markdown_events_of(doc: Seq<char>) -> Seq<EventView>;

/// `pulldown_cmark::Parser::new(doc).into_offset_iter()`: the events of the
/// Markdown text `doc`, each code block with the byte offset at which it
/// starts. What the events are is named, not stated.
#[verifier::external_body]
fn markdown_events(doc: &str) -> (r: Vec<MarkdownEvent>)
    ensures
        r@.map_values(|e: MarkdownEvent| event_view(e)) == markdown_events_of(doc@),
{
    let mut r = Vec::new();
    for (event, range) in Parser::new(doc).into_offset_iter() {
        r.push(match event {
            Event::Start(Tag::CodeBlock(CodeBlockKind::Fenced(l))) => MarkdownEvent::CodeBlock(Some(l.to_string()), range.start),
            Event::Start(Tag::CodeBlock(CodeBlockKind::Indented)) => MarkdownEvent::CodeBlock(None, range.start),
            Event::Start(Tag::Heading { level, .. }) => MarkdownEvent::Heading(level as u32),
            Event::Text(t) => MarkdownEvent::Text(t.to_string()),
            _ => MarkdownEvent::Other,
        });
    }
    r
}

/// The number of line breaks in `b`.
pub open spec fn newline_count(b: Seq<u8>) -> nat
    decreases b.len(),
{
    if b.len() == 0 {
        0
    } else {
        newline_count(b.drop_last()) + if b.last() == 10u8 {
            1nat
        } else {
            0nat
        }
    }
}

/// The number of lines of the text whose bytes are `b`, as `str::lines`
/// counts them.
pub open spec fn line_count(b: Seq<u8>) -> nat {
    if b.len() == 0 {
        0
    } else {
        newline_count(b) + if b.last() != 10u8 {
            1nat
        } else {
            0nat
        }
    }
}

/// The first position at or after `i` that holds no text.
pub open spec fn text_run_end(evs: Seq<EventView>, i: int) -> int
    decreases evs.len() - i,
{
    if 0 <= i < evs.len() && evs[i] is Text {
        text_run_end(evs, i + 1)
    } else {
        i
    }
}

/// The texts of the events from `i` up to `j`, one after the other.
pub open spec fn texts_between(evs: Seq<EventView>, i: int, j: int) -> Seq<char>
    decreases j - i,
{
    if j <= i {
        Seq::empty()
    } else {
        texts_between(evs, i, j - 1) + match evs[j - 1] {
            EventView::Text(t) => t,
            _ => Seq::empty(),
        }
    }
}

/// What collecting doctests goes by.
pub struct FindConfig {
    pub allow_error_codes: bool,
    pub per_target_ignores: bool,
    pub include_non_rust: bool,
    pub custom_classes: bool,
    pub use_headers: bool,
    pub filename: Seq<char>,
    pub line_before: nat,
    pub no_crate_inject: bool,
    pub attrs: Seq<Seq<char>>,
}

/// Where collecting doctests stands: the byte offset of the last code block
/// collected, the lines counted up to it, a heading whose text is awaited,
/// the heading names and the doctests collected.
pub struct Finding {
    pub prev: int,
    pub nb_lines: int,
    pub header: Option<u32>,
    pub names: Seq<Seq<char>>,
    pub tests: Seq<TestView>,
}

/// The attributes of a code block, as written and as read: none for an
/// indented block or a fenced one without an info string.
pub open spec fn block_lang(lang: Option<Seq<char>>, cfg: FindConfig) -> (Seq<char>, LangView) {
    match lang {
        Some(l) => if l.len() == 0 {
            (Seq::empty(), initial_view())
        } else {
            (l, read_views(attribute_tokens(l, cfg.custom_classes), cfg.allow_error_codes, cfg.per_target_ignores, cfg.custom_classes))
        },
        None => (Seq::empty(), initial_view()),
    }
}

/// Whether the attributes read mark a Rust block.
pub open spec fn lang_is_rust(v: LangView) -> bool {
    v.rust && !v.seen_custom && (!v.seen_other || v.seen_rust)
}

pub proof fn lemma_text_run_end(evs: Seq<EventView>, i: int)
    requires
        0 <= i,
    ensures
        i <= text_run_end(evs, i),
        i <= evs.len() ==> text_run_end(evs, i) <= evs.len(),
    decreases evs.len() - i,
{
    if 0 <= i < evs.len() && evs[i] is Text {
        lemma_text_run_end(evs, i + 1);
    }
}

/// The lines counted up to a code block at `start`, after `counted` lines
/// up to `prev`: those between, less the partial line that the block
/// starts on.
pub open spec fn lines_up_to(bytes: Seq<u8>, prev: int, start: int, counted: int) -> int {
    let slice = bytes.subrange(prev, start);
    let c = counted + line_count(slice);
    if c != 0 && !(slice.len() > 0 && slice.last() == 10u8) {
        c - 1
    } else {
        c
    }
}

/// Collecting doctests from the event `k` on; `None` where the offsets of
/// the text do not fit it, a line number exceeds the machine's, or a
/// heading of level zero names doctests.
pub open spec fn codes_from(doc: Seq<char>, evs: Seq<EventView>, k: int, st: Finding, cfg: FindConfig) -> Option<Finding>
    decreases evs.len() + 1 - k,
{
    let bytes = vstd::utf8::encode_utf8(doc);
    if k < 0 || k >= evs.len() {
        Some(st)
    } else {
        match evs[k] {
            EventView::CodeBlock(lang, start) => {
                let (original, v) = block_lang(lang, cfg);
                if !cfg.include_non_rust && !lang_is_rust(v) {
                    codes_from(doc, evs, k + 1, st, cfg)
                } else if start < st.prev || start > bytes.len() || !vstd::utf8::is_char_boundary(bytes, start) {
                    None
                } else {
                    let j = text_run_end(evs, k + 1);
                    let nb = lines_up_to(bytes, st.prev, start, st.nb_lines);
                    let line = cfg.line_before + nb + 1;
                    if line > usize::MAX {
                        None
                    } else {
                        let t = TestView {
                            name: doctest_name(st.names, line as nat, cfg.filename),
                            code: doctest_code(texts_between(evs, k + 1, j)),
                            original,
                            lang: v,
                            no_crate_inject: cfg.no_crate_inject,
                            attrs: cfg.attrs,
                        };
                        proof {
                            lemma_text_run_end(evs, k + 1);
                        }
                        codes_from(doc, evs, j + 1, Finding { prev: start, nb_lines: nb, tests: st.tests.push(t), ..st }, cfg)
                    }
                }
            },
            EventView::Heading(level) => codes_from(doc, evs, k + 1, Finding { header: Some(level), ..st }, cfg),
            EventView::Text(s) => match st.header {
                Some(level) => if cfg.use_headers && level < 1 {
                    None
                } else {
                    let names = if cfg.use_headers {
                        names_after_heading(st.names, heading_ident(s), level as int)
                    } else {
                        st.names
                    };
                    codes_from(doc, evs, k + 1, Finding { header: None, names, ..st }, cfg)
                },
                None => codes_from(doc, evs, k + 1, st, cfg),
            },
            EventView::Other => codes_from(doc, evs, k + 1, st, cfg),
        }
    }
}

/// What collecting doctests into `c` goes by.
pub open spec fn find_config(
    c: Collector,
    error_codes: ErrorCodes,
    enable_per_target_ignores: bool,
    include_non_rust: bool,
    custom_code_classes_in_docs: bool,
) -> FindConfig {
    FindConfig {
        allow_error_codes: error_codes == ErrorCodes::Yes,
        per_target_ignores: enable_per_target_ignores,
        include_non_rust,
        custom_classes: custom_code_classes_in_docs,
        use_headers: c.headers_used(),
        filename: c.file_name(),
        line_before: c.line_before(),
        no_crate_inject: c.options().0,
        attrs: c.options().1,
    }
}

/// Where collecting doctests into `c` starts.
pub open spec fn start_finding(c: Collector) -> Finding {
    Finding { prev: 0, nb_lines: 0, header: None, names: c.heading_names(), tests: Seq::empty() }
}

/// The doctests `after` are those of `before` followed by those that `vs`
/// describes.
pub open spec fn collected_after(
    before: Seq<(String, (String, GlobalTestOptions, LangString))>,
    after: Seq<(String, (String, GlobalTestOptions, LangString))>,
    vs: Seq<TestView>,
) -> bool {
    &&& after.len() == before.len() + vs.len()
    &&& after.take(before.len() as int) == before
    &&& forall|j: int| before.len() <= j < after.len() ==> test_matches(#[trigger] after[j], vs[j - before.len()])
}

proof fn lemma_newline_count(b: Seq<u8>)
    ensures
        newline_count(b) <= b.len(),
    decreases b.len(),
{
    if b.len() > 0 {
        lemma_newline_count(b.drop_last());
    }
}

/// The number of lines of the bytes of `b` from `from` up to `to`.
fn lines_between(b: &[u8], from: usize, to: usize) -> (r: usize)
    requires
        from <= to <= b@.len(),
    ensures
        r == line_count(b@.subrange(from as int, to as int)),
        r <= to - from,
{
    let mut count: usize = 0;
    let mut i: usize = from;
    while i < to
        invariant
            from <= i <= to <= b@.len(),
            count == newline_count(b@.subrange(from as int, i as int)),
            count <= i - from,
        decreases to - i,
    {
        assert(b@.subrange(from as int, i + 1).drop_last() =~= b@.subrange(from as int, i as int));
        if b[i] == 10u8 {
            count = count + 1;
        }
        i = i + 1;
    }
    if to == from {
        0
    } else if b[to - 1] != 10u8 {
        assert(b@.subrange(from as int, to - 1) =~= b@.subrange(from as int, to as int).drop_last());
        proof { lemma_newline_count(b@.subrange(from as int, to - 1)); }
        count + 1
    } else {
        count
    }
}

/// The texts of the events from `from` on, up to the first that is no
/// text, and where that one is.
fn text_run(events: &Vec<MarkdownEvent>, from: usize) -> (r: (Vec<char>, usize))
    requires
        from <= events@.len(),
    ensures
        r.1 == text_run_end(events@.map_values(|e: MarkdownEvent| event_view(e)), from as int),
        r.0@ == texts_between(events@.map_values(|e: MarkdownEvent| event_view(e)), from as int, r.1 as int),
        from <= r.1 <= events@.len(),
{
    let ghost evv = events@.map_values(|e: MarkdownEvent| event_view(e));
    let mut text: Vec<char> = Vec::new();
    let mut j = from;
    let mut more = true;
    while more && j < events.len()
        invariant
            from <= j <= events@.len() == evv.len(),
            evv == events@.map_values(|e: MarkdownEvent| event_view(e)),
            text@ == texts_between(evv, from as int, j as int),
            more ==> text_run_end(evv, from as int) == text_run_end(evv, j as int),
            !more ==> text_run_end(evv, from as int) == j && j < evv.len(),
        decreases events@.len() - j + if more { 1int } else { 0int },
    {
        assert(evv[j as int] == event_view(events@[j as int]));
        match &events[j] {
            MarkdownEvent::Text(t) => {
                let tc = chars_of(t.as_str());
                extend_chars(&mut text, tc.as_slice());
                j = j + 1;
            },
            _ => {
                more = false;
            },
        }
    }
    (text, j)
}

/// Collects the doctests among the events `events` of the Markdown text
/// `doc`: each code block of Rust, or each code block where `include_non_rust`
/// holds, with its attributes, its code and the line at which it starts;
/// headings name the doctests where the collector uses them. It is `false`,
/// and the collector holds some of the doctests, where the offsets of the
/// events do not fit `doc`, a line number exceeds the machine's, or a
/// heading of level zero names doctests.
#[verifier::rlimit(60)]
pub fn find_codes_in(
    doc: &str,
    events: &Vec<MarkdownEvent>,
    tests: &mut Collector,
    error_codes: ErrorCodes,
    enable_per_target_ignores: bool,
    include_non_rust: bool,
    custom_code_classes_in_docs: bool,
) -> (ok: bool)
    ensures
        final(tests).headers_used() == old(tests).headers_used(),
        final(tests).file_name() == old(tests).file_name(),
        final(tests).options() == old(tests).options(),
        final(tests).line_before() == old(tests).line_before(),
        match codes_from(
            doc@,
            events@.map_values(|e: MarkdownEvent| event_view(e)),
            0,
            start_finding(*old(tests)),
            find_config(*old(tests), error_codes, enable_per_target_ignores, include_non_rust, custom_code_classes_in_docs),
        ) {
            Some(st) => ok && final(tests).heading_names() == st.names && collected_after(
                old(tests).collected(),
                final(tests).collected(),
                st.tests,
            ),
            None => !ok,
        },
{
    let ghost evv = events@.map_values(|e: MarkdownEvent| event_view(e));
    let ghost cfg = find_config(*old(tests), error_codes, enable_per_target_ignores, include_non_rust, custom_code_classes_in_docs);
    let ghost goal = codes_from(doc@, evv, 0, start_finding(*old(tests)), cfg);
    let ghost before = old(tests).collected();
    let bytes = doc.as_bytes();
    let mut k: usize = 0;
    let mut prev: usize = 0;
    let mut nb_lines: usize = 0;
    let mut header: Option<u32> = None;
    let ghost mut found: Seq<TestView> = Seq::empty();
    assert(old(tests).collected().take(before.len() as int) =~= before);
    while k < events.len()
        invariant
            evv == events@.map_values(|e: MarkdownEvent| event_view(e)),
            evv.len() == events@.len(),
            bytes@ == vstd::utf8::encode_utf8(doc@),
            cfg == find_config(*old(tests), error_codes, enable_per_target_ignores, include_non_rust, custom_code_classes_in_docs),
            goal == codes_from(doc@, evv, 0, start_finding(*old(tests)), cfg),
            goal == codes_from(
                doc@,
                evv,
                k as int,
                Finding { prev: prev as int, nb_lines: nb_lines as int, header, names: tests.heading_names(), tests: found },
                cfg,
            ),
            nb_lines <= prev <= bytes@.len(),
            tests.headers_used() == old(tests).headers_used(),
            tests.file_name() == old(tests).file_name(),
            tests.options() == old(tests).options(),
            tests.line_before() == old(tests).line_before(),
            before == old(tests).collected(),
            collected_after(before, tests.collected(), found),
        decreases events@.len() + 1 - k,
    {
        assert(evv[k as int] == event_view(events@[k as int]));
        match &events[k] {
            MarkdownEvent::CodeBlock(lang, start) => {
                let start = *start;
                let block_info = match lang {
                    Some(l) => if l.as_str().is_empty() {
                        LangString::default()
                    } else {
                        LangString::parse(l.as_str(), error_codes, enable_per_target_ignores, custom_code_classes_in_docs)
                    },
                    None => LangString::default(),
                };
                let ghost ov = block_lang(
                    match lang {
                        Some(x) => Some(x@),
                        None => None,
                    },
                    cfg,
                );
                assert(lang_string_is(block_info, ov.0, ov.1));
                if !include_non_rust && !block_info.rust {
                    k = k + 1;
                } else {
                    if start < prev || start > bytes.len() || !doc.is_char_boundary(start) {
                        return false;
                    }
                    let (text, j) = text_run(events, k + 1);
                    let code = code_text(string_of(text.as_slice()).as_str());
                    let between = lines_between(bytes, prev, start);
                    let counted = nb_lines + between;
                    let nb = if counted != 0 && !(start > prev && bytes[start - 1] == 10u8) {
                        counted - 1
                    } else {
                        counted
                    };
                    assert(bytes@.subrange(prev as int, start as int).len() > 0 ==> bytes@.subrange(prev as int, start as int).last() == bytes@[start - 1]);
                    assert(nb == lines_up_to(bytes@, prev as int, start as int, nb_lines as int));
                    let before_line = tests.get_line();
                    let line = match before_line.checked_add(nb) {
                        Some(x) => match x.checked_add(1) {
                            Some(y) => y,
                            None => {
                                return false;
                            },
                        },
                        None => {
                            return false;
                        },
                    };
                    let ghost t = TestView {
                        name: doctest_name(tests.heading_names(), line as nat, cfg.filename),
                        code: doctest_code(texts_between(evv, k + 1, j as int)),
                        original: ov.0,
                        lang: ov.1,
                        no_crate_inject: cfg.no_crate_inject,
                        attrs: cfg.attrs,
                    };
                    let ghost mid = tests.collected();
                    tests.add_test(code, block_info, line);
                    proof {
                        assert forall|i: int| before.len() <= i < tests.collected().len() implies test_matches(
                            #[trigger] tests.collected()[i],
                            found.push(t)[i - before.len()],
                        ) by {
                            if i < mid.len() {
                                assert(tests.collected()[i] == mid[i]);
                            }
                        }
                        assert(tests.collected().take(before.len() as int) =~= before) by {
                            assert(tests.collected().take(mid.len() as int) == mid);
                        }
                        found = found.push(t);
                    }
                    prev = start;
                    nb_lines = nb;
                    let ghost next = Finding {
                        prev: prev as int,
                        nb_lines: nb_lines as int,
                        header,
                        names: tests.heading_names(),
                        tests: found,
                    };
                    assert(goal == codes_from(doc@, evv, j + 1, next, cfg));
                    k = if j < events.len() {
                        j + 1
                    } else {
                        j
                    };
                    assert(goal == codes_from(doc@, evv, k as int, next, cfg));
                }
            },
            MarkdownEvent::Heading(level) => {
                header = Some(*level);
                k = k + 1;
            },
            MarkdownEvent::Text(s) => {
                match header {
                    Some(level) => {
                        if level >= 1 {
                            tests.register_header(s.as_str(), level);
                        } else if tests.use_headers {
                            return false;
                        }
                        header = None;
                    },
                    None => {},
                }
                k = k + 1;
            },
            MarkdownEvent::Other => {
                k = k + 1;
            },
        }
    }
    true
}

/// Collects the doctests of the Markdown text `doc`, as `find_codes_in` does
/// with the events that `pulldown_cmark` reads from it.
pub fn find_codes(
    doc: &str,
    tests: &mut Collector,
    error_codes: ErrorCodes,
    enable_per_target_ignores: bool,
    include_non_rust: bool,
    custom_code_classes_in_docs: bool,
) -> (ok: bool)
    ensures
        final(tests).headers_used() == old(tests).headers_used(),
        final(tests).file_name() == old(tests).file_name(),
        final(tests).options() == old(tests).options(),
        final(tests).line_before() == old(tests).line_before(),
        match codes_from(
            doc@,
            markdown_events_of(doc@),
            0,
            start_finding(*old(tests)),
            find_config(*old(tests), error_codes, enable_per_target_ignores, include_non_rust, custom_code_classes_in_docs),
        ) {
            Some(st) => ok && final(tests).heading_names() == st.names && collected_after(
                old(tests).collected(),
                final(tests).collected(),
                st.tests,
            ),
            None => !ok,
        },
{
    let events = markdown_events(doc);
    find_codes_in(doc, &events, tests, error_codes, enable_per_target_ignores, include_non_rust, custom_code_classes_in_docs)
}

/// Collects the doctests of the Rust code blocks of the Markdown text `doc`.
pub fn find_testable_code(
    doc: &str,
    tests: &mut Collector,
    error_codes: ErrorCodes,
    enable_per_target_ignores: bool,
    custom_code_classes_in_docs: bool,
) -> (ok: bool)
    ensures
        final(tests).headers_used() == old(tests).headers_used(),
        final(tests).file_name() == old(tests).file_name(),
        final(tests).options() == old(tests).options(),
        final(tests).line_before() == old(tests).line_before(),
        match codes_from(
            doc@,
            markdown_events_of(doc@),
            0,
            start_finding(*old(tests)),
            find_config(*old(tests), error_codes, enable_per_target_ignores, false, custom_code_classes_in_docs),
        ) {
            Some(st) => ok && final(tests).heading_names() == st.names && collected_after(
                old(tests).collected(),
                final(tests).collected(),
                st.tests,
            ),
            None => !ok,
        },
{
    find_codes(doc, tests, error_codes, enable_per_target_ignores, false, custom_code_classes_in_docs)
}


/// The name under which a doctest's checksum is kept: its full name cut at
/// the last ` (line`, without a trailing ` -`.
pub open spec fn doctest_base_name_of(name: Seq<char>) -> Seq<char> {
    let prefix = rsplit_once(name, " (line"@).unwrap().0;
    match strip_suffix(prefix, " -"@) {
        Some(p) => p,
        None => prefix,
    }
}

/// The name under which a doctest's checksum is kept; the full name holds
/// ` (line` (as every doctest name does).
pub fn doctest_base_name(name: &str) -> (r: String)
    requires
        rsplit_once(name@, " (line"@) is Some,
    ensures
        r@ == doctest_base_name_of(name@),
{
    let n = chars_of(name);
    let sep = literal(" (line");
    let (prefix, _) = match rsplit_once_exec(n.as_slice(), sep.as_slice()) {
        Some(parts) => parts,
        None => {
            assert(false);
            (Vec::new(), Vec::new())
        },
    };
    let dash = literal(" -");
    match strip_suffix_exec(prefix.as_slice(), dash.as_slice()) {
        Some(p) => string_of(p.as_slice()),
        None => string_of(prefix.as_slice()),
    }
}

} // verus!
