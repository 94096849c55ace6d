//! The path pattern engine: compiles a template string such as
//! `users/<id>/articles/<aid>` into a sequence of wisps, one per path
//! segment.
//!
//! The template language, scanned left to right with explicit lookahead:
//!
//! * `literal` — matched verbatim;
//! * `<name>` — captures a segment's remaining text, never an empty string;
//! * `<*name>` / `<**name>` — capture the rest of the path; only the
//!   double-star form accepts an empty rest;
//! * `<name:/regex/>` — captures what the regular expression matches;
//! * `<name:builder>` or `<name:builder(args)>` — delegates to a named
//!   builder registered in a [`WispBuilderRegistry`];
//! * several tokens inside one segment (`<width>x<height>.<ext>`) compile
//!   into one composite wisp.
//!
//! A malformed template — an unterminated bracket or regex body, an empty
//! capture name, an unknown builder — is refused when the template is
//! compiled, never at match time.

use vstd::prelude::*;

use crate::routing::{PathState, StateModel, split_scan, split_segments, split_step};
use crate::wisp::{
    CharKind, CharWisp, ConstWisp, NameWisp, RegexWisp, WispKind, WispModel, models_of,
};

verus! {

broadcast use {crate::views::lemma_parts_view_len, crate::views::lemma_parts_view_index};

pub use crate::views::parts_view;

/// The characters that end a literal or identifier run: the separator and
/// the pattern language's own punctuation.
pub open spec fn is_special(c: char) -> bool {
    c == '/' || c == ':' || c == '<' || c == '>' || c == '[' || c == ']' || c == '(' || c == ')'
}

/// A template made only of literals and separators: none of the pattern
/// language's punctuation appears in it.
pub open spec fn lit_only(t: Seq<char>) -> bool {
    forall|i: int| 0 <= i < t.len() ==> (t[i] == '/' || !is_special(#[trigger] t[i]))
}

/// The first position at or after `i` holding a special character, or the
/// template's end.
pub open spec fn run_end(t: Seq<char>, i: int) -> int
    decreases t.len() - i,
{
    if i < 0 || i >= t.len() {
        t.len() as int
    } else if is_special(t[i]) {
        i
    } else {
        run_end(t, i + 1)
    }
}

/// A run reaches from its start to its end, over non-special characters
/// only, and stops at a special character or the template's end.
pub proof fn lemma_run_end(t: Seq<char>, i: int)
    requires
        0 <= i <= t.len(),
    ensures
        i <= run_end(t, i) <= t.len(),
        forall|j: int| i <= j < run_end(t, i) ==> !is_special(#[trigger] t[j]),
        run_end(t, i) < t.len() ==> is_special(t[run_end(t, i)]),
    decreases t.len() - i,
{
    if i < t.len() && !is_special(t[i]) {
        lemma_run_end(t, i + 1);
    }
}

/// A blank run reaches from its start to its end, over blanks only, and
/// stops at a non-blank character or the template's end.
pub proof fn lemma_blank_run_end(t: Seq<char>, i: int)
    requires
        0 <= i,
    ensures
        i <= blank_run_end(t, i) <= t.len() || i > t.len(),
        forall|j: int| i <= j < blank_run_end(t, i) ==> is_blank(#[trigger] t[j]),
        0 <= blank_run_end(t, i) < t.len() && i <= blank_run_end(t, i) ==> !is_blank(
            t[blank_run_end(t, i)],
        ),
    decreases t.len() - i,
{
    if 0 <= i && i < t.len() && is_blank(t[i]) {
        lemma_blank_run_end(t, i + 1);
    }
}

/// The position of the `/` that closes an inline regex body begun at or
/// after `i`: the first `/` whose next character, blanks aside, is `>`;
/// nothing when the template ends first.
pub open spec fn regex_body_end(t: Seq<char>, i: int) -> Option<int>
    decreases t.len() - i,
{
    if i < 0 || i >= t.len() {
        None
    } else if t[i] == '/' && blank_run_end(t, i + 1) < t.len() && t[blank_run_end(t, i + 1)]
        == '>' {
        Some(i)
    } else {
        regex_body_end(t, i + 1)
    }
}

/// A regex body begun where no separator follows never closes.
proof fn lemma_regex_body_end_none(t: Seq<char>, i: int)
    requires
        0 <= i,
        forall|k: int| i <= k < t.len() ==> (#[trigger] t[k]) != '/',
    ensures
        regex_body_end(t, i) is None,
    decreases t.len() - i,
{
    if i < t.len() {
        lemma_regex_body_end_none(t, i + 1);
    }
}

/// One literal wisp per segment.
pub open spec fn const_models(segs: Seq<Seq<char>>) -> Seq<WispModel> {
    segs.map_values(|t: Seq<char>| WispModel::Const(t))
}

/// Adding a segment adds its literal wisp.
pub broadcast proof fn lemma_const_models_push(segs: Seq<Seq<char>>, t: Seq<char>)
    ensures
        (#[trigger] const_models(segs.push(t))) == const_models(segs).push(WispModel::Const(t)),
{
    assert(const_models(segs.push(t))
        =~= const_models(segs).push(WispModel::Const(t)));
}

/// A column's models grow by the new wisp's model.
pub proof fn lemma_models_of_push(ws: Seq<WispKind>, w: WispKind)
    ensures
        models_of(ws.push(w), ws.len() as int + 1) == models_of(ws, ws.len() as int).push(w.model()),
    decreases ws.len(),
{
    lemma_models_of_stable(ws, w, ws.len() as int);
    assert(ws.push(w)[ws.len() as int] == w);
}

/// A column's first models do not change when one more wisp is added.
proof fn lemma_models_of_stable(ws: Seq<WispKind>, w: WispKind, n: int)
    requires
        0 <= n <= ws.len(),
    ensures
        models_of(ws.push(w), n) == models_of(ws, n),
    decreases n,
{
    if n > 0 {
        lemma_models_of_stable(ws, w, n - 1);
        assert(ws.push(w)[n - 1] == ws[n - 1]);
    }
}

/// Scanning one more character steps the split.
pub proof fn lemma_split_scan_step(t: Seq<char>, i: int)
    requires
        0 <= i < t.len(),
    ensures
        split_scan(t.subrange(0, i + 1)) == split_step(split_scan(t.subrange(0, i)), t[i]),
{
    assert(t.subrange(0, i + 1).drop_last() =~= t.subrange(0, i));
    assert(t.subrange(0, i + 1).last() == t[i]);
}

/// Scanning a run of plain characters only extends the pending segment.
pub proof fn lemma_split_scan_run(t: Seq<char>, i: int, j: int)
    requires
        0 <= i <= j <= t.len(),
        forall|k: int| i <= k < j ==> (#[trigger] t[k]) != '/',
    ensures
        split_scan(t.subrange(0, j)).0 == split_scan(t.subrange(0, i)).0,
        split_scan(t.subrange(0, j)).1 =~= split_scan(t.subrange(0, i)).1 + t.subrange(i, j),
    decreases j - i,
{
    if i < j {
        lemma_split_scan_run(t, i, j - 1);
        lemma_split_scan_step(t, j - 1);
        assert(split_scan(t.subrange(0, j - 1)).1 + t.subrange(i, j - 1) + seq![t[j - 1]]
            =~= split_scan(t.subrange(0, j - 1)).1 + t.subrange(i, j));
    } else {
        assert(t.subrange(i, j) =~= Seq::<char>::empty());
    }
}

/// Scanning separators closes the pending segment and opens an empty one;
/// the segments named so far — pending one included — stay as they are.
pub proof fn lemma_split_scan_slashes(t: Seq<char>, i: int, j: int)
    requires
        0 <= i < j <= t.len(),
        forall|k: int| i <= k < j ==> (#[trigger] t[k]) == '/',
    ensures
        split_scan(t.subrange(0, j)).1.len() == 0,
        split_segments(t.subrange(0, j)) == ({
            let sc = split_scan(t.subrange(0, i));
            if sc.1.len() > 0 {
                sc.0.push(sc.1)
            } else {
                sc.0
            }
        }),
    decreases j - i,
{
    lemma_split_scan_step(t, j - 1);
    if i < j - 1 {
        lemma_split_scan_slashes(t, i, j - 1);
    }
}

/// The split of a template that ends in a pending segment names that
/// segment last.
pub proof fn lemma_split_segments_of_prefix(t: Seq<char>, i: int)
    requires
        0 <= i <= t.len(),
    ensures
        split_segments(t.subrange(0, i)) == ({
            let sc = split_scan(t.subrange(0, i));
            if sc.1.len() > 0 {
                sc.0.push(sc.1)
            } else {
                sc.0
            }
        }),
{
}

/// What a registered builder denotes: a character class, or a regular
/// expression fixed at registration.
pub enum BuilderModel {
    /// Width-bounded captures of a character class.
    Char(CharKind),
    /// Captures of a fixed regular expression, by its pattern.
    Regex(Seq<char>),
}

/// A width argument's value, when it is a plain numeral a machine word can
/// hold.
pub open spec fn width_of(s: Seq<char>) -> Option<int> {
    if crate::text::is_dec_numeral(s) && crate::text::dec_of(s) <= usize::MAX {
        Some(crate::text::dec_of(s))
    } else {
        None
    }
}

/// What a builder makes of a capture name and arguments.  A character-class
/// builder takes no argument (width at least one), one numeral (an exact
/// width) or two (least and greatest width), and refuses anything else; a
/// fixed-regex builder ignores the arguments.
pub open spec fn spec_build(m: BuilderModel, name: Seq<char>, args: Seq<Seq<char>>) -> Option<
    WispModel,
> {
    match m {
        BuilderModel::Char(kind) => if args.len() == 0 {
            Some(WispModel::Char { name, kind, min: 1, max: None })
        } else if args.len() == 1 {
            match width_of(args[0]) {
                Some(w) => Some(WispModel::Char { name, kind, min: w, max: Some(w) }),
                None => None,
            }
        } else if args.len() == 2 {
            match (width_of(args[0]), width_of(args[1])) {
                (Some(a), Some(b)) => Some(WispModel::Char { name, kind, min: a, max: Some(b) }),
                _ => None,
            }
        } else {
            None
        },
        BuilderModel::Regex(pat) => Some(WispModel::Regex { name, pattern: pat }),
    }
}

/// Produces a custom wisp for `<name:builder(args)>` template tokens.
pub trait WispBuilder: Sized {
    /// What the builder denotes, as [`spec_build`] reads it.
    spec fn model(&self) -> BuilderModel;

    /// Builds the wisp for a capture called `name`, where `sign` is the
    /// builder's own name as written in the template and `args` the
    /// comma-separated arguments, if any: exactly what [`spec_build`] says
    /// of the builder's model.
    fn build(&self, name: String, sign: String, args: Vec<String>) -> (r: Result<
        WispKind,
        String,
    >)
        ensures
            match r {
                Ok(w) => w.wf() && spec_build(self.model(), name@, crate::views::parts_view(args@))
                    == Some(w.model()),
                Err(_) => spec_build(self.model(), name@, crate::views::parts_view(args@))
                    is None,
            },
    ;
}

/// Builds width-bounded character-class wisps: no argument means a width of
/// at least one; one numeral is an exact width; two numerals are the least
/// and greatest widths.
pub struct CharWispBuilder(pub CharKind);

impl CharWispBuilder {
    /// A builder for the given class.
    pub fn new(kind: CharKind) -> (b: CharWispBuilder)
        ensures
            b.0 == kind,
            b.model() == BuilderModel::Char(kind),
    {
        CharWispBuilder(kind)
    }
}

/// Reads a width argument: its value exactly when [`width_of`] accepts it.
fn parse_width(s: &str) -> (r: Option<usize>)
    ensures
        match r {
            Some(v) => width_of(s@) == Some(v as int),
            None => width_of(s@) is None,
        },
{
    match crate::text::parse_dec_bounded(s, usize::MAX as u64) {
        Some(v) => Some(v as usize),
        None => None,
    }
}

impl WispBuilder for CharWispBuilder {
    open spec fn model(&self) -> BuilderModel {
        BuilderModel::Char(self.0)
    }

    fn build(&self, name: String, sign: String, args: Vec<String>) -> (r: Result<
        WispKind,
        String,
    >) {
        if args.len() == 0 {
            Ok(
                WispKind::Char(
                    CharWisp { name, kind: self.0, min_width: 1, max_width: None },
                ),
            )
        } else if args.len() == 1 {
            match parse_width(args[0].as_str()) {
                Some(w) => Ok(
                    WispKind::Char(
                        CharWisp { name, kind: self.0, min_width: w, max_width: Some(w) },
                    ),
                ),
                None => Err("wisp builder width argument is not a number".to_owned()),
            }
        } else if args.len() == 2 {
            let lo = parse_width(args[0].as_str());
            let hi = parse_width(args[1].as_str());
            match (lo, hi) {
                (Some(a), Some(b)) => Ok(
                    WispKind::Char(
                        CharWisp { name, kind: self.0, min_width: a, max_width: Some(b) },
                    ),
                ),
                _ => Err("wisp builder width argument is not a number".to_owned()),
            }
        } else {
            Err("too many wisp builder arguments".to_owned())
        }
    }
}

/// Builds regex wisps from a pattern fixed when the builder is registered.
pub struct RegexWispBuilder {
    pattern: String,
    regex: regex::Regex,
}

impl RegexWispBuilder {
    /// The held expression was compiled from the held pattern, anchored to
    /// the match position.
    #[verifier::type_invariant]
    spec fn consistent(self) -> bool {
        crate::wisp::regex_pattern(self.regex) == crate::wisp::anchored_pattern(self.pattern@)
    }

    /// The pattern the builder was registered with.
    pub closed spec fn spec_pattern(&self) -> Seq<char> {
        self.pattern@
    }

    /// Compiles `pattern`, anchored to the match position, into a builder;
    /// fails exactly when the regex compiler rejects the anchored pattern.
    pub fn new(pattern: String) -> (r: Result<RegexWispBuilder, String>)
        ensures
            r is Ok <==> crate::wisp::regex_valid(crate::wisp::anchored_pattern(pattern@)),
            r matches Ok(b) ==> b.spec_pattern() == pattern@,
    {
        let anchored = crate::wisp::anchor(pattern.as_str());
        match crate::wisp::regex_new(anchored.as_str()) {
            Some(re) => Ok(RegexWispBuilder { pattern, regex: re }),
            None => Err("invalid regex".to_owned()),
        }
    }
}

impl WispBuilder for RegexWispBuilder {
    open spec fn model(&self) -> BuilderModel {
        BuilderModel::Regex(self.spec_pattern())
    }

    fn build(&self, name: String, sign: String, args: Vec<String>) -> (r: Result<
        WispKind,
        String,
    >) {
        proof {
            use_type_invariant(self);
        }
        let pattern = self.pattern.clone();
        let regex = crate::wisp::regex_clone(&self.regex);
        Ok(WispKind::Regex(RegexWisp { name, pattern, regex }))
    }
}

/// Any registered builder.
pub enum BuilderKind {
    /// A character-class builder.
    Char(CharWispBuilder),
    /// A fixed-pattern regex builder.
    Regex(RegexWispBuilder),
}

impl WispBuilder for BuilderKind {
    open spec fn model(&self) -> BuilderModel {
        match self {
            BuilderKind::Char(b) => b.model(),
            BuilderKind::Regex(b) => b.model(),
        }
    }

    fn build(&self, name: String, sign: String, args: Vec<String>) -> (r: Result<
        WispKind,
        String,
    >) {
        match self {
            BuilderKind::Char(b) => b.build(name, sign, args),
            BuilderKind::Regex(b) => b.build(name, sign, args),
        }
    }
}

/// The map a column of bindings denotes: a later binding of a name wins.
pub open spec fn bindings_of(entries: Seq<(String, BuilderKind)>) -> Map<Seq<char>, BuilderModel>
    decreases entries.len(),
{
    if entries.len() == 0 {
        Map::empty()
    } else {
        bindings_of(entries.drop_last()).insert(entries.last().0@, entries.last().1.model())
    }
}

/// A name is bound exactly when some entry binds it.
proof fn lemma_bindings_dom(entries: Seq<(String, BuilderKind)>, k: Seq<char>)
    ensures
        bindings_of(entries).dom().contains(k) <==> (exists|i: int|
            0 <= i < entries.len() && (#[trigger] entries[i]).0@ == k),
    decreases entries.len(),
{
    if entries.len() > 0 {
        lemma_bindings_dom(entries.drop_last(), k);
        if entries.last().0@ == k {
            assert(entries[entries.len() - 1].0@ == k);
        } else {
            if bindings_of(entries).dom().contains(k) {
                let i = choose|i: int|
                    0 <= i < entries.len() - 1 && (#[trigger] entries.drop_last()[i]).0@ == k;
                assert(entries[i].0@ == k);
            }
            if exists|i: int| 0 <= i < entries.len() && (#[trigger] entries[i]).0@ == k {
                let i = choose|i: int| 0 <= i < entries.len() && (#[trigger] entries[i]).0@ == k;
                assert(entries.drop_last()[i].0@ == k);
            }
        }
    }
}

/// The map sends a name to its most recent binding.
proof fn lemma_bindings_last(entries: Seq<(String, BuilderKind)>, i: int)
    requires
        0 <= i < entries.len(),
        forall|j: int| i < j < entries.len() ==> (#[trigger] entries[j]).0@ != entries[i].0@,
    ensures
        bindings_of(entries).dom().contains(entries[i].0@),
        bindings_of(entries)[entries[i].0@] == entries[i].1.model(),
    decreases entries.len(),
{
    if i == entries.len() - 1 {
    } else {
        assert(entries.drop_last()[i] == entries[i]);
        lemma_bindings_last(entries.drop_last(), i);
        assert(entries[entries.len() - 1].0@ != entries[i].0@);
    }
}

/// Named wisp builders that templates may refer to by `<name:builder>`.
/// Registered before patterns are compiled, read during compilation; a
/// later registration of a name wins.
pub struct WispBuilderRegistry {
    entries: Vec<(String, BuilderKind)>,
}

impl WispBuilderRegistry {
    /// The registered bindings, as a map from builder name to what the
    /// builder denotes; a later registration of a name wins.
    pub closed spec fn bindings(&self) -> Map<Seq<char>, BuilderModel> {
        bindings_of(self.entries@)
    }

    /// An empty registry.
    pub fn new() -> (r: WispBuilderRegistry)
        ensures
            r.bindings() == Map::<Seq<char>, BuilderModel>::empty(),
    {
        WispBuilderRegistry { entries: Vec::new() }
    }

    /// Registers `builder` under `name`, over any earlier binding of that
    /// name.
    pub fn register(&mut self, name: String, builder: BuilderKind)
        ensures
            final(self).bindings() == old(self).bindings().insert(name@, builder.model()),
    {
        let ghost before = self.entries@;
        self.entries.push((name, builder));
        proof {
            assert(self.entries@.drop_last() =~= before);
        }
    }

    /// The most recently registered builder of that name, if any.
    pub fn lookup(&self, name: &str) -> (r: Option<&BuilderKind>)
        ensures
            match r {
                Some(b) => self.bindings().dom().contains(name@)
                    && b.model() == self.bindings()[name@],
                None => !self.bindings().dom().contains(name@),
            },
    {
        proof {
            lemma_bindings_dom(self.entries@, name@);
        }
        let n = self.entries.len();
        let mut i: usize = n;
        while i > 0
            invariant
                i <= n,
                n == self.entries@.len(),
                forall|j: int|
                    i <= j < n ==> (#[trigger] self.entries@[j]).0@ != name@,
            decreases i,
        {
            i = i - 1;
            if crate::text::str_eq(self.entries[i].0.as_str(), name) {
                proof {
                    lemma_bindings_last(self.entries@, i as int);
                }
                return Some(&self.entries[i].1);
            }
        }
        None
    }
}

/// The bindings every template can rely on: `num` for decimal digits and
/// `hex` for hexadecimal ones.
pub open spec fn default_bindings() -> Map<Seq<char>, BuilderModel> {
    Map::<Seq<char>, BuilderModel>::empty().insert(
        "num"@,
        BuilderModel::Char(CharKind::Num),
    ).insert("hex"@, BuilderModel::Char(CharKind::Hex))
}

/// The registry every template can rely on, holding exactly the
/// [`default_bindings`].
pub fn default_registry() -> (r: WispBuilderRegistry)
    ensures
        r.bindings() == default_bindings(),
{
    let mut r = WispBuilderRegistry::new();
    r.register("num".to_owned(), BuilderKind::Char(CharWispBuilder::new(CharKind::Num)));
    r.register("hex".to_owned(), BuilderKind::Char(CharWispBuilder::new(CharKind::Hex)));
    r
}
/// A left-to-right scanner over a template's characters, with explicit
/// lookahead.
pub struct PathParser {
    /// The position of the next character to read.
    pub offset: usize,
    /// The template's characters.
    pub path: Vec<char>,
}

/// Whether a character counts as insignificant blank space.
pub open spec fn is_blank(c: char) -> bool {
    c == ' ' || c == '\t'
}

/// The first position at or after `i` holding something other than blank
/// space, or the template's end.
pub open spec fn blank_run_end(t: Seq<char>, i: int) -> int
    decreases t.len() - i,
{
    if i < 0 || i >= t.len() {
        t.len() as int
    } else if !is_blank(t[i]) {
        i
    } else {
        blank_run_end(t, i + 1)
    }
}

impl PathParser {
    /// A scanner at the start of `raw_value`.
    pub fn new(raw_value: &str) -> (p: PathParser)
        ensures
            p.path@ == raw_value@,
            p.offset == 0,
    {
        PathParser { offset: 0, path: crate::text::str_chars(raw_value) }
    }

    /// The character under the scanner, if any.
    pub fn curr(&self) -> (r: Option<char>)
        ensures
            match r {
                Some(c) => self.offset < self.path@.len() && c == self.path@[self.offset as int],
                None => self.offset >= self.path@.len(),
            },
    {
        if self.offset < self.path.len() {
            Some(self.path[self.offset])
        } else {
            None
        }
    }

    /// Steps past the current character — skipping blanks too when asked —
    /// and returns what the scanner then stands on.
    pub fn next(&mut self, skip_blanks: bool) -> (r: Option<char>)
        requires
            old(self).offset <= old(self).path@.len(),
        ensures
            final(self).path == old(self).path,
            old(self).offset <= final(self).offset,
            old(self).offset < final(self).offset || old(self).offset >= old(self).path@.len(),
            final(self).offset <= final(self).path@.len(),
            !skip_blanks ==> final(self).offset == (if old(self).offset < old(self).path@.len() {
                old(self).offset + 1
            } else {
                old(self).offset as int
            }),
            skip_blanks && old(self).offset < old(self).path@.len() ==> final(self).offset
                == blank_run_end(final(self).path@, old(self).offset + 1),
            match r {
                Some(c) => final(self).offset < final(self).path@.len()
                    && c == final(self).path@[final(self).offset as int]
                    && (skip_blanks ==> !is_blank(c)),
                None => final(self).offset >= final(self).path@.len(),
            },
    {
        if self.offset < self.path.len() {
            self.offset = self.offset + 1;
        }
        if skip_blanks {
            self.skip_blanks();
        }
        proof {
            lemma_blank_run_end(self.path@, old(self).offset + 1);
        }
        self.curr()
    }

    /// The first character after the current one — the first non-blank one
    /// after it, when asked to skip blanks — without moving the scanner.
    pub fn peek(&self, skip_blanks: bool) -> (r: Option<char>)
        requires
            self.offset <= self.path@.len(),
        ensures
            ({
                let la: int = if skip_blanks {
                    blank_run_end(self.path@, self.offset + 1)
                } else {
                    self.offset + 1
                };
                match r {
                    Some(c) => self.offset < self.path@.len() && la < self.path@.len() && c
                        == self.path@[la],
                    None => self.offset >= self.path@.len() || la >= self.path@.len(),
                }
            }),
    {
        let n = self.path.len();
        if self.offset >= n {
            return None;
        }
        let mut j = self.offset + 1;
        if skip_blanks {
            while j < n && (self.path[j] == ' ' || self.path[j] == '\t')
                invariant
                    self.offset < j <= n,
                    n == self.path@.len(),
                    blank_run_end(self.path@, self.offset + 1) == blank_run_end(
                        self.path@,
                        j as int,
                    ),
                decreases n - j,
            {
                j = j + 1;
            }
        }
        if j < n {
            Some(self.path[j])
        } else {
            None
        }
    }

    /// Steps over blank space, coming to rest on the first character that
    /// is none, or at the template's end.
    pub fn skip_blanks(&mut self)
        requires
            old(self).offset <= old(self).path@.len(),
        ensures
            final(self).path == old(self).path,
            old(self).offset <= final(self).offset <= final(self).path@.len(),
            final(self).offset == blank_run_end(final(self).path@, old(self).offset as int),
    {
        let n = self.path.len();
        let ghost t = self.path@;
        while self.offset < n && (self.path[self.offset] == ' ' || self.path[self.offset] == '\t')
            invariant
                self.path == old(self).path,
                self.path@ == t,
                old(self).offset <= self.offset <= n,
                n == t.len(),
                blank_run_end(t, old(self).offset as int) == blank_run_end(t, self.offset as int),
            decreases n - self.offset,
        {
            self.offset = self.offset + 1;
        }
    }

    /// Collects the run of plain characters under the scanner; empty runs
    /// are an error.
    fn scan_run(&mut self, what: &str) -> (r: Result<String, String>)
        requires
            old(self).offset <= old(self).path@.len(),
        ensures
            final(self).path == old(self).path,
            old(self).offset <= final(self).offset,
            final(self).offset <= final(self).path@.len(),
            match r {
                Ok(c) => {
                    &&& run_end(old(self).path@, old(self).offset as int) > old(self).offset
                    &&& c@ == old(self).path@.subrange(
                        old(self).offset as int,
                        run_end(old(self).path@, old(self).offset as int),
                    )
                    &&& final(self).offset == run_end(old(self).path@, old(self).offset as int)
                },
                Err(_) => *final(self) == *old(self) && run_end(
                    old(self).path@,
                    old(self).offset as int,
                ) == old(self).offset,
            },
    {
        let n = self.path.len();
        let start = self.offset;
        let ghost t = self.path@;
        let mut out = String::new();
        proof {
            lemma_run_end(t, start as int);
        }
        while self.offset < n && !is_special_char(self.path[self.offset])
            invariant
                self.path == old(self).path,
                self.path@ == t,
                start == old(self).offset,
                start <= self.offset <= n,
                n == t.len(),
                out@ == t.subrange(start as int, self.offset as int),
                run_end(t, start as int) == run_end(t, self.offset as int),
            decreases n - self.offset,
        {
            out.push(self.path[self.offset]);
            proof {
                assert(out@ =~= t.subrange(start as int, self.offset as int + 1));
            }
            self.offset = self.offset + 1;
        }
        proof {
            assert(run_end(t, self.offset as int) == self.offset);
        }
        if self.offset == start {
            Err(what.to_owned())
        } else {
            Ok(out)
        }
    }

    /// Collects an identifier run; an empty one is an error.
    pub fn scan_ident(&mut self) -> (r: Result<String, String>)
        requires
            old(self).offset <= old(self).path@.len(),
        ensures
            final(self).path == old(self).path,
            old(self).offset <= final(self).offset,
            final(self).offset <= final(self).path@.len(),
            match r {
                Ok(c) => {
                    &&& run_end(old(self).path@, old(self).offset as int) > old(self).offset
                    &&& c@ == old(self).path@.subrange(
                        old(self).offset as int,
                        run_end(old(self).path@, old(self).offset as int),
                    )
                    &&& final(self).offset == run_end(old(self).path@, old(self).offset as int)
                },
                Err(_) => *final(self) == *old(self) && run_end(
                    old(self).path@,
                    old(self).offset as int,
                ) == old(self).offset,
            },
    {
        self.scan_run("ident segment is empty")
    }

    /// Collects a literal run; an empty one is an error.
    pub fn scan_const(&mut self) -> (r: Result<String, String>)
        requires
            old(self).offset <= old(self).path@.len(),
        ensures
            final(self).path == old(self).path,
            old(self).offset <= final(self).offset,
            final(self).offset <= final(self).path@.len(),
            match r {
                Ok(c) => {
                    &&& run_end(old(self).path@, old(self).offset as int) > old(self).offset
                    &&& c@ == old(self).path@.subrange(
                        old(self).offset as int,
                        run_end(old(self).path@, old(self).offset as int),
                    )
                    &&& final(self).offset == run_end(old(self).path@, old(self).offset as int)
                },
                Err(_) => *final(self) == *old(self) && run_end(
                    old(self).path@,
                    old(self).offset as int,
                ) == old(self).offset,
            },
    {
        self.scan_run("const segment is empty")
    }

    /// Collects a regex body: everything up to a `/` whose next character —
    /// blanks aside — closes the token with `>`.  The scanner is left on
    /// that `>`.  Succeeds exactly when such a closing `/` exists and the
    /// body before it is non-empty; the body is the template text from the
    /// starting position up to that `/`.
    pub fn scan_regex(&mut self) -> (r: Result<String, String>)
        requires
            old(self).offset <= old(self).path@.len(),
        ensures
            final(self).path == old(self).path,
            old(self).offset <= final(self).offset,
            final(self).offset <= final(self).path@.len(),
            match r {
                Ok(b) => {
                    &&& regex_body_end(old(self).path@, old(self).offset as int) matches Some(e)
                        && e > old(self).offset && b@ == old(self).path@.subrange(
                        old(self).offset as int,
                        e,
                    ) && final(self).offset == blank_run_end(old(self).path@, e + 1)
                    &&& final(self).offset < final(self).path@.len()
                    &&& final(self).path@[final(self).offset as int] == '>'
                },
                Err(_) => regex_body_end(old(self).path@, old(self).offset as int) is None
                    || regex_body_end(old(self).path@, old(self).offset as int) == Some(
                    old(self).offset as int,
                ),
            },
    {
        let mut body = String::new();
        let ghost t = self.path@;
        let ghost start = old(self).offset as int;
        let ghost n = self.path@.len();
        loop
            invariant
                self.path == old(self).path,
                t == self.path@,
                start == old(self).offset as int,
                start <= self.offset as int,
                self.offset <= n,
                n == t.len(),
                body@ == t.subrange(start, self.offset as int),
                regex_body_end(t, start) == regex_body_end(t, self.offset as int),
            decreases n - self.offset,
        {
            let ghost at = self.offset as int;
            let c = match self.curr() {
                Some(c) => c,
                None => {
                    return Err("path end but regex is not ended".to_owned());
                },
            };
            if c == '/' {
                match self.peek(true) {
                    Some(pc) => {
                        if pc == '>' {
                            proof {
                                assert(regex_body_end(t, at) == Some(at));
                                lemma_blank_run_end(t, at + 1);
                            }
                            self.next(true);
                            if body.as_str().unicode_len() > 0 {
                                return Ok(body);
                            } else {
                                return Err("regex segment is empty".to_owned());
                            }
                        }
                    },
                    None => {
                        proof {
                            lemma_blank_run_end(t, at + 1);
                            lemma_regex_body_end_none(t, at + 1);
                            assert(regex_body_end(t, at) == regex_body_end(t, at + 1));
                        }
                        return Err("path end but regex is not ended".to_owned());
                    },
                }
            }
            body.push(c);
            self.next(false);
            proof {
                assert(body@ =~= t.subrange(start, self.offset as int));
                assert(regex_body_end(t, at) == regex_body_end(t, at + 1));
            }
        }
    }

    fn skip_separators(&mut self)
        requires
            old(self).offset <= old(self).path@.len(),
        ensures
            final(self).path == old(self).path,
            old(self).offset <= final(self).offset <= final(self).path@.len(),
            forall|k: int|
                old(self).offset <= k < final(self).offset ==> final(self).path@[k] == '/',
            final(self).offset < final(self).path@.len()
                ==> final(self).path@[final(self).offset as int] != '/',
    {
        let n = self.path.len();
        while self.offset < n && self.path[self.offset] == '/'
            invariant
                self.path == old(self).path,
                old(self).offset <= self.offset <= n,
                n == self.path@.len(),
                forall|k: int| old(self).offset <= k < self.offset ==> self.path@[k] == '/',
            decreases n - self.offset,
        {
            self.offset = self.offset + 1;
        }
    }

    /// Reads one bracketed capture token, the scanner standing just past
    /// its `<`; on success the scanner stands on the closing `>`.  The
    /// token read is exactly what [`spec_token`] says, and a malformed
    /// token is exactly what it refuses.
    fn parse_spec(&mut self, registry: &WispBuilderRegistry) -> (r: Result<WispKind, String>)
        requires
            old(self).offset <= old(self).path@.len(),
        ensures
            final(self).path == old(self).path,
            old(self).offset <= final(self).offset <= final(self).path@.len(),
            match r {
                Ok(w) => {
                    &&& w.wf()
                    &&& spec_token(
                        old(self).path@,
                        old(self).offset as int,
                        registry.bindings(),
                    ) == Some((w.model(), final(self).offset + 1))
                    &&& final(self).offset < final(self).path@.len()
                    &&& final(self).path@[final(self).offset as int] == '>'
                },
                Err(_) => spec_token(
                    old(self).path@,
                    old(self).offset as int,
                    registry.bindings(),
                ) is None,
            },
    {
        let ghost t = self.path@;
        let ghost i0 = self.offset as int;
        let ghost reg = registry.bindings();
        let name = match self.scan_ident() {
            Ok(n) => n,
            Err(e) => {
                proof {
                    assert(spec_token(t, i0, reg) is None);
                }
                return Err(e);
            },
        };
        let ghost ne = self.offset as int;
        match self.curr() {
            Some('>') => {
                proof {
                    assert(spec_token(t, i0, reg) == Some(
                        (WispModel::Name(t.subrange(i0, ne)), ne + 1),
                    ));
                }
                Ok(WispKind::Name(NameWisp(name)))
            },
            Some(':') => {
                self.next(false);
                let ghost j = self.offset as int;
                match self.curr() {
                    Some('/') => {
                        self.next(false);
                        let body = match self.scan_regex() {
                            Ok(b) => b,
                            Err(e) => {
                                proof {
                                    assert(spec_token(t, i0, reg) is None);
                                }
                                return Err(e);
                            },
                        };
                        match RegexWisp::new(name, body) {
                            Ok(w) => {
                                proof {
                                    assert(spec_token(t, i0, reg) == Some(
                                        (
                                            WispModel::Regex {
                                                name: t.subrange(i0, ne),
                                                pattern: w.pattern@,
                                            },
                                            self.offset as int + 1,
                                        ),
                                    ));
                                }
                                Ok(WispKind::Regex(w))
                            },
                            Err(e) => {
                                proof {
                                    assert(spec_token(t, i0, reg) is None);
                                }
                                Err(e)
                            },
                        }
                    },
                    _ => {
                        let bname = match self.scan_ident() {
                            Ok(b) => b,
                            Err(e) => {
                                proof {
                                    assert(spec_token(t, i0, reg) is None);
                                }
                                return Err(e);
                            },
                        };
                        let ghost be = self.offset as int;
                        let mut args: Vec<String> = Vec::new();
                        let open_paren = match self.curr() {
                            Some('(') => true,
                            _ => false,
                        };
                        if open_paren {
                            let c0 = self.next(false);
                            let empty_args = match c0 {
                                Some(')') => true,
                                _ => false,
                            };
                            if empty_args {
                                self.next(false);
                                proof {
                                    assert(spec_builder_args(t, be) == Some(
                                        (Seq::<Seq<char>>::empty(), be + 2),
                                    ));
                                    assert(parts_view(args@) =~= Seq::<Seq<char>>::empty());
                                }
                            } else {
                                let arg_text = match self.scan_ident() {
                                    Ok(a) => a,
                                    Err(e) => {
                                        proof {
                                            assert(spec_builder_args(t, be) is None);
                                            assert(spec_token(t, i0, reg) is None);
                                        }
                                        return Err(e);
                                    },
                                };
                                match self.curr() {
                                    Some(')') => {
                                        self.next(false);
                                    },
                                    _ => {
                                        proof {
                                            assert(spec_builder_args(t, be) is None);
                                            assert(spec_token(t, i0, reg) is None);
                                        }
                                        return Err(
                                            "wisp builder arguments are not ended".to_owned(),
                                        );
                                    },
                                }
                                let raw_args = crate::range::split_sep_exec(
                                    arg_text.as_str(),
                                    ',',
                                );
                                let ghost pv = crate::range::split_sep(arg_text@, ',');
                                let na = raw_args.len();
                                let mut k: usize = 0;
                                while k < na
                                    invariant
                                        k <= na,
                                        na == raw_args@.len(),
                                        pv == parts_view(raw_args@),
                                        parts_view(args@) == trimmed(pv, k as int),
                                    decreases na - k,
                                {
                                    args.push(crate::range::trim(raw_args[k].as_str()));
                                    proof {
                                        assert(parts_view(args@) =~= trimmed(pv, k as int + 1));
                                    }
                                    k = k + 1;
                                }
                                proof {
                                    assert(spec_builder_args(t, be) == Some(
                                        (trimmed(pv, pv.len() as int), self.offset as int),
                                    ));
                                    assert(parts_view(args@) == trimmed(pv, pv.len() as int));
                                }
                            }
                        } else {
                            proof {
                                assert(spec_builder_args(t, be) == Some(
                                    (Seq::<Seq<char>>::empty(), be),
                                ));
                                assert(parts_view(args@) =~= Seq::<Seq<char>>::empty());
                            }
                        }
                        let ghost gt = self.offset as int;
                        match self.curr() {
                            Some('>') => {},
                            _ => {
                                proof {
                                    assert(spec_token(t, i0, reg) is None);
                                }
                                return Err("unterminated path segment spec".to_owned());
                            },
                        }
                        let sign = bname.clone();
                        match registry.lookup(bname.as_str()) {
                            Some(b) => {
                                let r = b.build(name, sign, args);
                                proof {
                                    match &r {
                                        Ok(w) => {
                                            assert(spec_token(t, i0, reg) == Some(
                                                (w.model(), gt + 1),
                                            ));
                                        },
                                        Err(_) => {
                                            assert(spec_token(t, i0, reg) is None);
                                        },
                                    }
                                }
                                r
                            },
                            None => {
                                proof {
                                    assert(spec_token(t, i0, reg) is None);
                                }
                                Err("unknown wisp builder".to_owned())
                            },
                        }
                    },
                }
            },
            _ => {
                proof {
                    assert(spec_token(t, i0, reg) is None);
                }
                Err("unexpected character in path segment spec".to_owned())
            },
        }
    }

    /// Compiles the whole template: one wisp per segment, several tokens in
    /// one segment becoming a composite.  The result is exactly what
    /// [`template_wisps`] says of the template under the registry's
    /// bindings, and compilation fails exactly when it refuses: on the
    /// empty template, an empty capture or builder name, an unterminated
    /// bracket or regex body, a rejected regex, an unknown builder, or
    /// arguments its builder refuses.  A template of literals and
    /// separators alone compiles to one literal wisp per segment.
    pub fn parse(&mut self, registry: &WispBuilderRegistry) -> (r: Result<Vec<WispKind>, String>)
        requires
            old(self).offset == 0,
        ensures
            final(self).path == old(self).path,
            match r {
                Ok(ws) => {
                    &&& forall|i: int| 0 <= i < ws@.len() ==> (#[trigger] ws@[i]).wf()
                    &&& template_wisps(old(self).path@, registry.bindings()) == Some(
                        models_of(ws@, ws@.len() as int),
                    )
                    &&& (lit_only(old(self).path@) ==> models_of(ws@, ws@.len() as int)
                        == const_models(split_segments(old(self).path@)))
                },
                Err(_) => template_wisps(old(self).path@, registry.bindings()) is None && (
                lit_only(old(self).path@) ==> old(self).path@.len() == 0),
            },
    {
        let n = self.path.len();
        let ghost t = self.path@;
        let ghost reg = registry.bindings();
        if n == 0 {
            return Err("empty path template".to_owned());
        }
        let mut wisps: Vec<WispKind> = Vec::new();
        self.skip_separators();
        proof {
            if self.offset > 0 {
                lemma_split_scan_slashes(t, 0, self.offset as int);
            }
            assert(t.subrange(0, 0) =~= Seq::<char>::empty());
            assert(const_models(split_segments(t.subrange(0, self.offset as int)))
                =~= Seq::<WispModel>::empty());
            lemma_spec_template_skip(t, 0, self.offset as int, reg);
            if spec_template(t, self.offset as int, reg) is Some {
                let rest = spec_template(t, self.offset as int, reg).unwrap();
                assert(models_of(wisps@, 0) + rest =~= rest);
            }
        }
        while self.offset < n
            invariant
                t == old(self).path@,
                self.path == old(self).path,
                reg == registry.bindings(),
                0 < n,
                self.offset <= n,
                n == t.len(),
                self.offset < n ==> t[self.offset as int] != '/',
                forall|i: int| 0 <= i < wisps@.len() ==> (#[trigger] wisps@[i]).wf(),
                spec_template(t, 0, reg) == (match spec_template(t, self.offset as int, reg) {
                    None => None::<Seq<WispModel>>,
                    Some(rest) => Some(models_of(wisps@, wisps@.len() as int) + rest),
                }),
                lit_only(t) ==> {
                    &&& models_of(wisps@, wisps@.len() as int) == const_models(
                        split_segments(t.subrange(0, self.offset as int)),
                    )
                    &&& (self.offset < n ==> split_scan(
                        t.subrange(0, self.offset as int),
                    ).1.len() == 0)
                },
            decreases n - self.offset,
        {
            let ghost seg_start = self.offset as int;
            let ghost wisps0 = wisps@;
            let mut seg: Vec<WispKind> = Vec::new();
            proof {
                lemma_slash_run_at(t, seg_start, seg_start);
            }
            while self.offset < n && self.path[self.offset] != '/'
                invariant
                    t == old(self).path@,
                    self.path == old(self).path,
                    reg == registry.bindings(),
                    0 < n,
                    seg_start <= self.offset as int <= n,
                    n == t.len(),
                    seg_start < n,
                    t[seg_start] != '/',
                    wisps@ == wisps0,
                    forall|i: int| 0 <= i < seg@.len() ==> (#[trigger] seg@[i]).wf(),
                    (seg@.len() == 0 && self.offset as int == seg_start) || (seg@.len() > 0
                        && self.offset as int > seg_start),
                    spec_template(t, 0, reg) == (match spec_template(t, seg_start, reg) {
                        None => None::<Seq<WispModel>>,
                        Some(rest) => Some(models_of(wisps0, wisps0.len() as int) + rest),
                    }),
                    spec_segment(t, seg_start, reg) == (match spec_segment(
                        t,
                        self.offset as int,
                        reg,
                    ) {
                        None => None::<(Seq<WispModel>, int)>,
                        Some(p) => Some((models_of(seg@, seg@.len() as int) + p.0, p.1)),
                    }),
                    lit_only(t) ==> ((seg@.len() == 0 && self.offset as int == seg_start) || (
                    seg@.len() == 1 && seg@[0].model() == WispModel::Const(
                        t.subrange(seg_start, self.offset as int),
                    ) && self.offset as int == run_end(t, seg_start))),
                decreases n - self.offset,
            {
                proof {
                    if lit_only(t) {
                        lemma_run_end(t, seg_start);
                    }
                }
                let ghost at = self.offset as int;
                let ghost seg_before = seg@;
                let c = self.path[self.offset];
                if c == '<' {
                    self.next(false);
                    let w = match self.parse_spec(registry) {
                        Ok(w) => w,
                        Err(e) => {
                            proof {
                                assert(spec_segment(t, at, reg) is None);
                                lemma_template_refused(t, seg_start, reg, models_of(wisps0, wisps0.len() as int));
                            }
                            return Err(e);
                        },
                    };
                    self.next(false);
                    seg.push(w);
                    proof {
                        lemma_models_of_push(seg_before, w);
                        let next = self.offset as int;
                        assert(advance(at, next, n as int) == next);
                        match spec_segment(t, next, reg) {
                            None => {
                                assert(spec_segment(t, at, reg) is None);
                            },
                            Some(q) => {
                                assert(spec_segment(t, at, reg) == Some(
                                    (seq![w.model()] + q.0, q.1),
                                ));
                                assert(models_of(seg@, seg@.len() as int) + q.0 =~= models_of(
                                    seg_before,
                                    seg_before.len() as int,
                                ) + (seq![w.model()] + q.0));
                            },
                        }
                    }
                } else if is_special_char(c) {
                    proof {
                        assert(spec_segment(t, at, reg) is None);
                        lemma_template_refused(t, seg_start, reg, models_of(wisps0, wisps0.len() as int));
                    }
                    return Err("unexpected character in path template".to_owned());
                } else {
                    let txt = match self.scan_const() {
                        Ok(x) => x,
                        Err(e) => {
                            proof {
                                lemma_run_end(t, at + 1);
                                assert(false);
                            }
                            return Err(e);
                        },
                    };
                    seg.push(WispKind::Const(ConstWisp(txt)));
                    proof {
                        lemma_models_of_push(seg_before, seg@[seg@.len() - 1]);
                        let next = self.offset as int;
                        assert(advance(at, next, n as int) == next);
                        match spec_segment(t, next, reg) {
                            None => {
                                assert(spec_segment(t, at, reg) is None);
                            },
                            Some(q) => {
                                assert(spec_segment(t, at, reg) == Some(
                                    (seq![WispModel::Const(t.subrange(at, next))] + q.0, q.1),
                                ));
                                assert(models_of(seg@, seg@.len() as int) + q.0 =~= models_of(
                                    seg_before,
                                    seg_before.len() as int,
                                ) + (seq![WispModel::Const(t.subrange(at, next))] + q.0));
                            },
                        }
                    }
                }
            }
            let ghost seg_end = self.offset as int;
            proof {
                if self.offset as int == seg_start {
                    assert(false);
                }
                if lit_only(t) {
                    assert(seg@.len() == 1);
                }
                assert(spec_segment(t, seg_end, reg) == Some((Seq::<WispModel>::empty(), seg_end)));
                if spec_segment(t, seg_start, reg) is Some {
                    assert(models_of(seg@, seg@.len() as int) + Seq::<WispModel>::empty()
                        =~= models_of(seg@, seg@.len() as int));
                }
                assert(spec_segment(t, seg_start, reg) == Some(
                    (models_of(seg@, seg@.len() as int), seg_end),
                ));
            }
            let ghost seg_models = models_of(seg@, seg@.len() as int);
            let ghost seg_full = seg@;
            proof {
                crate::wisp::lemma_models_of_len(seg_full, seg_full.len() as int);
            }
            if seg.len() == 1 {
                let w = match seg.pop() {
                    Some(w) => w,
                    None => {
                        return Err("empty path segment".to_owned());
                    },
                };
                wisps.push(w);
                proof {
                    lemma_models_of_push(wisps0, w);
                    crate::wisp::lemma_models_of_index(seg_full, 1, 0);
                    assert(w.model() == seg_wisp(seg_models));
                }
            } else {
                let w = WispKind::Comb(seg);
                wisps.push(w);
                proof {
                    lemma_models_of_push(wisps0, w);
                    assert(w.model() == seg_wisp(seg_models));
                }
            }
            proof {
                lemma_slash_run_at(t, seg_start, seg_start);
                assert(advance(seg_start, seg_end, n as int) == seg_end);
                assert(spec_template(t, seg_start, reg) == (match spec_template(t, seg_end, reg) {
                    None => None::<Seq<WispModel>>,
                    Some(rest2) => Some(seq![seg_wisp(seg_models)] + rest2),
                }));
                if lit_only(t) {
                    lemma_run_end(t, seg_start);
                    assert(forall|k: int|
                        seg_start <= k < seg_end ==> (#[trigger] t[k]) != '/');
                    lemma_split_scan_run(t, seg_start, seg_end);
                    lemma_split_segments_of_prefix(t, seg_end);
                    lemma_split_segments_of_prefix(t, seg_start);
                    assert(split_scan(t.subrange(0, seg_end)).1 =~= t.subrange(
                        seg_start,
                        seg_end,
                    ));
                    assert(split_segments(t.subrange(0, seg_end)) == split_scan(
                        t.subrange(0, seg_start),
                    ).0.push(t.subrange(seg_start, seg_end)));
                    lemma_const_models_push(
                        split_scan(t.subrange(0, seg_start)).0,
                        t.subrange(seg_start, seg_end),
                    );
                    assert(models_of(wisps@, wisps@.len() as int) == const_models(
                        split_segments(t.subrange(0, seg_end)),
                    ));
                }
            }
            let ghost before_sep = self.offset as int;
            self.skip_separators();
            proof {
                lemma_spec_template_skip(t, before_sep, self.offset as int, reg);
                match spec_template(t, self.offset as int, reg) {
                    None => {},
                    Some(rest2) => {
                        assert(models_of(wisps0, wisps0.len() as int) + (seq![seg_wisp(
                            seg_models,
                        )] + rest2) =~= models_of(wisps@, wisps@.len() as int) + rest2);
                    },
                }
                if lit_only(t) {
                    if self.offset as int > before_sep {
                        lemma_split_scan_slashes(t, before_sep, self.offset as int);
                        lemma_split_segments_of_prefix(t, before_sep);
                        lemma_split_segments_of_prefix(t, self.offset as int);
                    } else {
                        assert(self.offset == n || t[self.offset as int] != '/');
                        assert(self.offset as int == before_sep);
                        assert(self.offset == n);
                    }
                }
            }
        }
        proof {
            assert(t.subrange(0, n as int) =~= t);
            assert(spec_template(t, n as int, reg) == Some(Seq::<WispModel>::empty()));
            assert(models_of(wisps@, wisps@.len() as int) + Seq::<WispModel>::empty()
                =~= models_of(wisps@, wisps@.len() as int));
        }
        Ok(wisps)
    }
}

/// A segment that refuses to compile refuses the whole template.
proof fn lemma_template_refused(
    t: Seq<char>,
    seg_start: int,
    reg: Map<Seq<char>, BuilderModel>,
    wisps0: Seq<WispModel>,
)
    requires
        0 < t.len(),
        0 <= seg_start < t.len(),
        t[seg_start] != '/',
        spec_template(t, 0, reg) == (match spec_template(t, seg_start, reg) {
            None => None::<Seq<WispModel>>,
            Some(rest) => Some(wisps0 + rest),
        }),
        spec_segment(t, seg_start, reg) is None,
    ensures
        template_wisps(t, reg) is None,
{
    lemma_slash_run_at(t, seg_start, seg_start);
    assert(spec_template(t, seg_start, reg) is None);
}



/// The first position at or after `i` holding something other than a
/// separator, or the template's end.
pub open spec fn slash_run_end(t: Seq<char>, i: int) -> int
    decreases t.len() - i,
{
    if i < 0 || i >= t.len() {
        t.len() as int
    } else if t[i] != '/' {
        i
    } else {
        slash_run_end(t, i + 1)
    }
}

/// A separator run never runs backwards.
proof fn lemma_slash_run_ge(t: Seq<char>, i: int)
    requires
        0 <= i <= t.len(),
    ensures
        i <= slash_run_end(t, i),
        slash_run_end(t, i) <= t.len(),
    decreases t.len() - i,
{
    if i < t.len() && t[i] == '/' {
        lemma_slash_run_ge(t, i + 1);
    }
}

/// A separator run ends exactly where the first non-separator stands.
proof fn lemma_slash_run_at(t: Seq<char>, i: int, j: int)
    requires
        0 <= i <= j <= t.len(),
        forall|k: int| i <= k < j ==> (#[trigger] t[k]) == '/',
        j < t.len() ==> t[j] != '/',
    ensures
        slash_run_end(t, i) == j,
    decreases j - i,
{
    if i < j {
        lemma_slash_run_at(t, i + 1, j);
    }
}

/// The first `n` pieces of a column, each without leading or trailing
/// blanks.
pub open spec fn trimmed(v: Seq<Seq<char>>, n: int) -> Seq<Seq<char>>
    decreases n,
{
    if n <= 0 || n > v.len() {
        Seq::empty()
    } else {
        trimmed(v, n - 1).push(crate::range::trim_of(v[n - 1]))
    }
}

/// The next scan position after a token read at `i` that ended at `j`, in a
/// template `n` long: a parse step always moves forward and never past the
/// end.
pub open spec fn advance(i: int, j: int, n: int) -> int {
    let k = if j > i {
        j
    } else {
        i + 1
    };
    if k > n {
        n
    } else {
        k
    }
}

/// What one bracketed capture token denotes, read from just past its `<`
/// under the registry bindings `reg`: the wisp, and the position just past
/// the closing `>`; nothing when the token is malformed — an empty capture
/// or builder name, an unterminated bracket or regex body, a rejected
/// regex, an unknown builder, or arguments the builder refuses.
pub open spec fn spec_token(t: Seq<char>, i: int, reg: Map<Seq<char>, BuilderModel>) -> Option<
    (WispModel, int),
> {
    let ne = run_end(t, i);
    let name = t.subrange(i, ne);
    if i < 0 || ne == i {
        None
    } else if ne < t.len() && t[ne] == '>' {
        Some((WispModel::Name(name), ne + 1))
    } else if ne < t.len() && t[ne] == ':' {
        let j = ne + 1;
        if j < t.len() && t[j] == '/' {
            match regex_body_end(t, j + 1) {
                None => None,
                Some(e) => if e == j + 1 {
                    None
                } else {
                    let body = t.subrange(j + 1, e);
                    if crate::wisp::regex_valid(crate::wisp::anchored_pattern(body)) {
                        Some(
                            (
                                WispModel::Regex { name, pattern: body },
                                blank_run_end(t, e + 1) + 1,
                            ),
                        )
                    } else {
                        None
                    }
                },
            }
        } else {
            let be = run_end(t, j);
            let bname = t.subrange(j, be);
            if be == j {
                None
            } else {
                let parsed = spec_builder_args(t, be);
                match parsed {
                    None => None,
                    Some((args, gt)) => if gt < t.len() && t[gt] == '>' && reg.dom().contains(
                        bname,
                    ) {
                        match spec_build(reg[bname], name, args) {
                            None => None,
                            Some(w) => Some((w, gt + 1)),
                        }
                    } else {
                        None
                    },
                }
            }
        }
    } else {
        None
    }
}

/// A builder token's arguments, read from the position after the builder's
/// name: the trimmed comma-separated pieces between parentheses — none when
/// no parenthesis opens — and the position where the closing `>` must
/// stand.
pub open spec fn spec_builder_args(t: Seq<char>, be: int) -> Option<(Seq<Seq<char>>, int)> {
    if be < t.len() && t[be] == '(' {
        if be + 1 < t.len() && t[be + 1] == ')' {
            Some((Seq::empty(), be + 2))
        } else {
            let ae = run_end(t, be + 1);
            if ae == be + 1 {
                None
            } else if ae < t.len() && t[ae] == ')' {
                let raw = crate::range::split_sep(t.subrange(be + 1, ae), ',');
                Some((trimmed(raw, raw.len() as int), ae + 1))
            } else {
                None
            }
        }
    } else {
        Some((Seq::empty(), be))
    }
}

/// One segment's tokens, read from a position that is neither a separator
/// nor the template's end, and the position of the segment's end.
pub open spec fn spec_segment(t: Seq<char>, i: int, reg: Map<Seq<char>, BuilderModel>) -> Option<
    (Seq<WispModel>, int),
>
    decreases t.len() - i,
{
    if i < 0 || i >= t.len() || t[i] == '/' {
        Some((Seq::empty(), i))
    } else if t[i] == '<' {
        match spec_token(t, i + 1, reg) {
            None => None,
            Some((w, next)) => match spec_segment(t, advance(i, next, t.len() as int), reg) {
                None => None,
                Some((ws, e)) => Some((seq![w] + ws, e)),
            },
        }
    } else if is_special(t[i]) {
        None
    } else {
        match spec_segment(t, advance(i, run_end(t, i), t.len() as int), reg) {
            None => None,
            Some((ws, e)) => Some(
                (seq![WispModel::Const(t.subrange(i, run_end(t, i)))] + ws, e),
            ),
        }
    }
}

/// The wisp a segment compiles to: its one token, or a composite of its
/// tokens in order.
pub open spec fn seg_wisp(ws: Seq<WispModel>) -> WispModel {
    if ws.len() == 1 {
        ws[0]
    } else {
        WispModel::Comb(ws)
    }
}

/// The wisps a template's tail compiles to, one per segment, reading from
/// position `i`.
pub open spec fn spec_template(t: Seq<char>, i: int, reg: Map<Seq<char>, BuilderModel>) -> Option<
    Seq<WispModel>,
>
    decreases t.len() - i,
    via spec_template_decreases
{
    let j = slash_run_end(t, i);
    if i < 0 || j >= t.len() {
        Some(Seq::empty())
    } else {
        match spec_segment(t, j, reg) {
            None => None,
            Some((ws, e)) => match spec_template(t, advance(j, e, t.len() as int), reg) {
                None => None,
                Some(rest) => Some(seq![seg_wisp(ws)] + rest),
            },
        }
    }
}

#[via_fn]
proof fn spec_template_decreases(t: Seq<char>, i: int, reg: Map<Seq<char>, BuilderModel>) {
    if 0 <= i && i <= t.len() {
        lemma_slash_run_ge(t, i);
    }
}

/// What a whole template compiles to under the registry bindings `reg`:
/// one wisp per segment, or nothing when the template is empty or any
/// token is malformed.
pub open spec fn template_wisps(t: Seq<char>, reg: Map<Seq<char>, BuilderModel>) -> Option<
    Seq<WispModel>,
> {
    if t.len() == 0 {
        None
    } else {
        spec_template(t, 0, reg)
    }
}

/// Crossing a separator run does not change what the template's tail
/// compiles to.
proof fn lemma_spec_template_skip(
    t: Seq<char>,
    i: int,
    j: int,
    reg: Map<Seq<char>, BuilderModel>,
)
    requires
        0 <= i <= j <= t.len(),
        forall|k: int| i <= k < j ==> (#[trigger] t[k]) == '/',
        j < t.len() ==> t[j] != '/',
    ensures
        spec_template(t, i, reg) == spec_template(t, j, reg),
{
    lemma_slash_run_at(t, i, j);
    lemma_slash_run_at(t, j, j);
}

/// Whether a character ends a literal or identifier run.
fn is_special_char(c: char) -> (r: bool)
    ensures
        r == is_special(c),
{
    c == '/' || c == ':' || c == '<' || c == '>' || c == '[' || c == ']' || c == '(' || c == ')'
}

/// A compiled path template: one wisp per segment, matched in order
/// against a path cursor, the cursor's position restored whenever the
/// template fails to match.
pub struct PathFilter {
    raw_value: String,
    path_wisps: Vec<WispKind>,
}

impl PathFilter {
    /// Every compiled regex in the filter carries the pattern it claims.
    #[verifier::type_invariant]
    spec fn inv(self) -> bool {
        forall|i: int| 0 <= i < self.path_wisps@.len() ==> (#[trigger] self.path_wisps@[i]).wf()
    }

    /// The models of the compiled wisps, in order.
    pub closed spec fn wisps(&self) -> Seq<WispModel> {
        models_of(self.path_wisps@, self.path_wisps@.len() as int)
    }

    /// The template the filter was compiled from.
    pub closed spec fn raw(&self) -> Seq<char> {
        self.raw_value@
    }

    /// Compiles `raw_value` with the built-in builders: the wisps are
    /// exactly what [`template_wisps`] says under the [`default_bindings`],
    /// and compilation fails exactly when it refuses.  A template of
    /// literals and separators alone compiles to one literal wisp per
    /// segment, and only the empty template is then refused.
    pub fn new(raw_value: &str) -> (r: Result<PathFilter, String>)
        ensures
            match r {
                Ok(f) => {
                    &&& f.raw() == raw_value@
                    &&& template_wisps(raw_value@, default_bindings()) == Some(f.wisps())
                    &&& (lit_only(raw_value@) ==> f.wisps() == const_models(
                        split_segments(raw_value@),
                    ))
                },
                Err(_) => template_wisps(raw_value@, default_bindings()) is None && (lit_only(
                    raw_value@,
                ) ==> raw_value@.len() == 0),
            },
    {
        let registry = default_registry();
        PathFilter::with_registry(raw_value, &registry)
    }

    /// Compiles `raw_value`, resolving `<name:builder>` tokens in the given
    /// registry: the wisps are exactly what [`template_wisps`] says under
    /// the registry's bindings, and compilation fails exactly when it
    /// refuses.
    pub fn with_registry(raw_value: &str, registry: &WispBuilderRegistry) -> (r: Result<
        PathFilter,
        String,
    >)
        ensures
            match r {
                Ok(f) => {
                    &&& f.raw() == raw_value@
                    &&& template_wisps(raw_value@, registry.bindings()) == Some(f.wisps())
                    &&& (lit_only(raw_value@) ==> f.wisps() == const_models(
                        split_segments(raw_value@),
                    ))
                },
                Err(_) => template_wisps(raw_value@, registry.bindings()) is None && (lit_only(
                    raw_value@,
                ) ==> raw_value@.len() == 0),
            },
    {
        let mut parser = PathParser::new(raw_value);
        match parser.parse(registry) {
            Ok(ws) => Ok(PathFilter { raw_value: raw_value.to_owned(), path_wisps: ws }),
            Err(e) => Err(e),
        }
    }

    /// The template the filter was compiled from.
    pub fn raw_value(&self) -> (r: &String)
        ensures
            r@ == self.raw(),
    {
        &self.raw_value
    }

    /// Matches the template at the cursor: every wisp must match in turn;
    /// any failure restores the cursor's position — though not the captures
    /// already made — and the whole filter reports no match.
    pub fn detect(&self, state: &mut PathState) -> (r: bool)
        requires
            old(state).wf(),
        ensures
            final(state).wf(),
            (r, final(state).model()) == crate::wisp::comb_detect(
                self.wisps(),
                0,
                old(state).model(),
                old(state).model(),
            ),
    {
        proof {
            use_type_invariant(self);
        }
        let ghost s0 = state.model();
        let ghost ms = self.wisps();
        let saved = state.cursor;
        let n = self.path_wisps.len();
        let mut i: usize = 0;
        proof {
            crate::wisp::lemma_models_of_len(self.path_wisps@, n as int);
        }
        while i < n
            invariant
                s0 == old(state).model(),
                ms == self.wisps(),
                state.wf(),
                crate::routing::state_wf(s0),
                0 <= i <= n,
                n == self.path_wisps@.len(),
                ms.len() == n,
                forall|j: int|
                    0 <= j < self.path_wisps@.len() ==> (#[trigger] self.path_wisps@[j]).wf(),
                saved.0 as int == s0.row,
                saved.1 as int == s0.col,
                state.model().parts == s0.parts,
                state.model().end_slash == s0.end_slash,
                crate::wisp::comb_detect(ms, 0, s0, s0) == crate::wisp::comb_detect(
                    ms,
                    i as int,
                    s0,
                    state.model(),
                ),
            decreases n - i,
        {
            let ghost mpre = state.model();
            let child = &self.path_wisps[i];
            proof {
                crate::wisp::lemma_models_of_index(self.path_wisps@, n as int, i as int);
            }
            let r = child.detect_in(state);
            proof {
                crate::wisp::lemma_wisp_parts(ms[i as int], mpre);
            }
            if !r {
                state.cursor = saved;
                proof {
                    assert(state.model() == (StateModel {
                        row: s0.row,
                        col: s0.col,
                        ..crate::wisp::wisp_detect(ms[i as int], mpre).1
                    }));
                    assert(crate::wisp::comb_detect(ms, i as int, s0, mpre) == (
                        false,
                        state.model(),
                    ));
                }
                return false;
            }
            i = i + 1;
        }
        proof {
            assert(crate::wisp::comb_detect(ms, n as int, s0, state.model()) == (
                true,
                state.model(),
            ));
        }
        true
    }
}

impl crate::filter::Filter for PathFilter {
    open spec fn obeys(
        &self,
        req: crate::http::Request,
        pre: StateModel,
        r: bool,
        post: StateModel,
    ) -> bool {
        (r, post) == crate::wisp::comb_detect(self.wisps(), 0, pre, pre)
    }

    fn filter(&self, req: &crate::http::Request, state: &mut PathState) -> (r: bool) {
        let r = self.detect(state);
        proof {
            crate::wisp::lemma_comb_parts(self.wisps(), 0, old(state).model(), old(state).model());
        }
        r
    }
}

/// A filter for paths matching the template `pattern`; the compiled wisps
/// are exactly what [`template_wisps`] says under the
/// [`default_bindings`], and a template it refuses — malformed, or empty —
/// fails exactly here, at registration.
pub fn path(pattern: &str) -> (r: Result<PathFilter, String>)
    ensures
        match r {
            Ok(f) => {
                &&& f.raw() == pattern@
                &&& template_wisps(pattern@, default_bindings()) == Some(f.wisps())
                &&& (lit_only(pattern@) ==> f.wisps() == const_models(split_segments(pattern@)))
            },
            Err(_) => template_wisps(pattern@, default_bindings()) is None && (lit_only(pattern@)
                ==> pattern@.len() == 0),
        },
{
    PathFilter::new(pattern)
}


} // verus!
