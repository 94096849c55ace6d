//! Compiled matchers for single path-template tokens ("wisps") and their
//! mathematical model.
//!
//! A wisp matches at the cursor's position and either consumes characters
//! (perhaps capturing a parameter) or leaves the cursor alone.  A composite
//! wisp runs several wisps in order against the same segment, restoring the
//! cursor's position — but not the captured parameters — when one fails.

use vstd::prelude::*;

use crate::routing::{
    PathState, StateModel, captured, fwd, lemma_pick_len, lemma_rest_len, pick_of, rest_of,
    state_wf,
};

verus! {

broadcast use {
    crate::views::lemma_parts_view_len,
    crate::views::lemma_parts_view_index,
    crate::views::lemma_params_view_insert,
};

/// The pattern a compiled regular expression was built from.
pub uninterp spec fn regex_pattern(re: regex::Regex) -> Seq<char>;

/// Whether a pattern is accepted by the regex compiler.
pub uninterp spec fn regex_valid(pat: Seq<char>) -> bool;

/// The overall text matched when a pattern is run against a haystack, if
/// any: a function of the pattern and the haystack alone.
pub uninterp spec fn regex_capture(pat: Seq<char>, text: Seq<char>) -> Option<Seq<char>>;

/// A pattern wrapped so that it can match only at the start of a haystack:
/// a capture applies at the cursor's position, never elsewhere in the
/// picked text, so every pattern is compiled in this shape.
pub open spec fn anchored_pattern(pat: Seq<char>) -> Seq<char> {
    "\\A(?:"@ + pat + ")"@
}

#[verifier::external_type_specification]
#[verifier::external_body]
pub struct ExRegex(regex::Regex);

/// Relies on `regex::Regex::new`: whether a pattern compiles depends on the
/// pattern string alone, and the compiled value carries that pattern.
#[verifier::external_body]
pub(crate) fn regex_new(pat: &str) -> (r: Option<regex::Regex>)
    ensures
        r is Some <==> regex_valid(pat@),
        r matches Some(re) ==> regex_pattern(re) == pat@,
{
    regex::Regex::new(pat).ok()
}

/// Relies on `regex::Regex::captures` and `Captures::get(0)`: the overall
/// match depends on the pattern and the haystack alone, and is a substring
/// of the haystack, so never longer than it.
#[verifier::external_body]
pub(crate) fn regex_find(re: &regex::Regex, text: &str) -> (r: Option<String>)
    ensures
        match r {
            Some(c) => regex_capture(regex_pattern(*re), text@) == Some(c@) && c@.len()
                <= text@.len(),
            None => regex_capture(regex_pattern(*re), text@) is None,
        },
{
    re.captures(text).and_then(|caps| caps.get(0)).map(|m| m.as_str().to_owned())
}

/// Relies on `regex::Regex::clone`: a clone is built from the same pattern.
#[verifier::external_body]
pub(crate) fn regex_clone(re: &regex::Regex) -> (r: regex::Regex)
    ensures
        regex_pattern(r) == regex_pattern(*re),
{
    re.clone()
}

/// A built-in character class for width-bounded captures.
#[derive(Clone, Copy, PartialEq, Eq, Structural, Debug)]
pub enum CharKind {
    /// ASCII decimal digits.
    Num,
    /// ASCII hexadecimal digits.
    Hex,
}

/// Whether a character belongs to a class.
pub open spec fn char_allowed(kind: CharKind, c: char) -> bool {
    match kind {
        CharKind::Num => crate::text::is_digit_char(c),
        CharKind::Hex => crate::text::is_hex_char(c),
    }
}

/// Whether a capture's name starts with one wildcard star.
pub open spec fn name_is_star(name: Seq<char>) -> bool {
    name.len() > 0 && name[0] == '*'
}

/// Whether a capture's name starts with two wildcard stars.
pub open spec fn name_is_double_star(name: Seq<char>) -> bool {
    name.len() > 1 && name[0] == '*' && name[1] == '*'
}

/// The first position at or after `i` in `p` that falls outside the class,
/// or the end of `p`.
pub open spec fn char_run_end(kind: CharKind, p: Seq<char>, i: int) -> int
    decreases p.len() - i,
{
    if i < 0 || i >= p.len() {
        p.len() as int
    } else if !char_allowed(kind, p[i]) {
        i
    } else {
        char_run_end(kind, p, i + 1)
    }
}

/// The mathematical value of one wisp.
pub enum WispModel {
    /// Matches its own text verbatim.
    Const(Seq<char>),
    /// Captures picked text, or — with a star-prefixed name — the rest of
    /// the path.
    Name(Seq<char>),
    /// Captures a width-bounded run of characters of a class.
    Char { name: Seq<char>, kind: CharKind, min: int, max: Option<int> },
    /// Captures what the regular expression matches.
    Regex { name: Seq<char>, pattern: Seq<char> },
    /// Several wisps applied in order against the same position.
    Comb(Seq<WispModel>),
}

/// What one wisp makes of a cursor: whether it matches, and the cursor it
/// leaves behind (unchanged on failure, except that a failing composite
/// keeps captures made by its earlier members).
pub open spec fn wisp_detect(w: WispModel, s: StateModel) -> (bool, StateModel)
    decreases w, 0int,
{
    match w {
        WispModel::Const(t) => match pick_of(s) {
            None => (false, s),
            Some(p) => if t.is_prefix_of(p) {
                (true, fwd(s, t.len() as int))
            } else {
                (false, s)
            },
        },
        WispModel::Name(name) => if name_is_star(name) {
            let rest = match rest_of(s) {
                None => Seq::empty(),
                Some(r) => r,
            };
            if rest.len() > 0 || name_is_double_star(name) {
                (
                    true,
                    StateModel {
                        row: s.parts.len() as int,
                        params: s.params.insert(name, rest),
                        ..s
                    },
                )
            } else {
                (false, s)
            }
        } else {
            match pick_of(s) {
                None => (false, s),
                Some(p) => (true, captured(fwd(s, p.len() as int), name, p)),
            }
        },
        WispModel::Char { name, kind, min, max } => match pick_of(s) {
            None => (false, s),
            Some(p) => {
                let run = char_run_end(kind, p, 0);
                let take = match max {
                    Some(mx) => if run < mx {
                        run
                    } else {
                        mx
                    },
                    None => run,
                };
                let ok = match max {
                    Some(mx) => take == mx || take >= min,
                    None => take >= min,
                };
                if ok {
                    (true, captured(fwd(s, take), name, p.subrange(0, take)))
                } else {
                    (false, s)
                }
            },
        },
        WispModel::Regex { name, pattern } => if name_is_star(name) {
            match rest_of(s) {
                None => (false, s),
                Some(rest) => if rest.len() > 0 || name_is_double_star(name) {
                    match regex_capture(anchored_pattern(pattern), rest) {
                        None => (false, s),
                        Some(cap) => (true, captured(fwd(s, cap.len() as int), name, cap)),
                    }
                } else {
                    (false, s)
                },
            }
        } else {
            match pick_of(s) {
                None => (false, s),
                Some(p) => match regex_capture(anchored_pattern(pattern), p) {
                    None => (false, s),
                    Some(cap) => (true, captured(fwd(s, cap.len() as int), name, cap)),
                },
            }
        },
        WispModel::Comb(ws) => comb_detect(ws, 0, s, s),
    }
}

/// Runs the wisps of a composite from index `i` on: each must match in
/// turn; a failure restores the cursor's position — but not its captures —
/// to `s0`, the state the composite began in.
pub open spec fn comb_detect(ws: Seq<WispModel>, i: int, s0: StateModel, s: StateModel) -> (
    bool,
    StateModel,
)
    decreases ws, ws.len() - i,
{
    if i < 0 || i >= ws.len() {
        (true, s)
    } else {
        let step = wisp_detect(ws[i], s);
        if step.0 {
            comb_detect(ws, i + 1, s0, step.1)
        } else {
            (false, StateModel { row: s0.row, col: s0.col, ..step.1 })
        }
    }
}

/// A matcher for one template token.
pub trait PathWisp: Sized {
    /// The wisp's mathematical value.
    spec fn wmodel(&self) -> WispModel;

    /// The wisp's internal consistency; [`PathWisp::detect`] asks for it.
    spec fn wwf(&self) -> bool;

    /// Matches the wisp at the cursor's position, consuming characters and
    /// capturing parameters exactly as [`wisp_detect`] says.
    fn detect(&self, state: &mut PathState) -> (r: bool)
        requires
            old(state).wf(),
            self.wwf(),
        ensures
            final(state).wf(),
            (r, final(state).model()) == wisp_detect(self.wmodel(), old(state).model()),
    ;
}

/// Matches its own text verbatim at the cursor's position.
pub struct ConstWisp(pub String);

/// Captures one segment's remaining text, or — with a star-prefixed name —
/// the rest of the path.  A plain name never captures an empty string; a
/// single star needs a non-empty rest; a double star accepts an empty one.
pub struct NameWisp(pub String);

/// Captures a run of characters of a class, bounded below by `min_width`
/// and above by `max_width` when one is set.
pub struct CharWisp {
    /// The capture's name.
    pub name: String,
    /// The character class.
    pub kind: CharKind,
    /// The fewest characters accepted.
    pub min_width: usize,
    /// The most characters taken, when bounded.
    pub max_width: Option<usize>,
}

/// Captures what a regular expression matches, of the picked text or — with
/// a star-prefixed name — of the rest of the path.
pub struct RegexWisp {
    /// The capture's name.
    pub name: String,
    /// The pattern the expression was compiled from.
    pub pattern: String,
    /// The compiled expression, built from `pattern`.
    pub regex: regex::Regex,
}

/// `pattern`, wrapped so that it can match only at the start of a
/// haystack.
pub(crate) fn anchor(pattern: &str) -> (r: String)
    ensures
        r@ == anchored_pattern(pattern@),
{
    let mut s: String = "\\A(?:".to_owned();
    s.append(pattern);
    s.append(")");
    s
}

impl RegexWisp {
    /// Compiles `pattern`, anchored to the match position, into a wisp
    /// named `name`.  Fails exactly when the regex compiler rejects the
    /// anchored pattern.
    pub fn new(name: String, pattern: String) -> (r: Result<RegexWisp, String>)
        ensures
            match r {
                Ok(w) => regex_valid(anchored_pattern(pattern@)) && w.name == name && w.pattern
                    == pattern && regex_pattern(w.regex) == anchored_pattern(pattern@),
                Err(_) => !regex_valid(anchored_pattern(pattern@)),
            },
    {
        let anchored = anchor(pattern.as_str());
        match regex_new(anchored.as_str()) {
            Some(re) => Ok(RegexWisp { name, pattern, regex: re }),
            None => Err("invalid regex".to_owned()),
        }
    }
}

/// One compiled matcher of any kind.
pub enum WispKind {
    /// A literal.
    Const(ConstWisp),
    /// A named capture.
    Name(NameWisp),
    /// A width-bounded character-class capture.
    Char(CharWisp),
    /// A regex-constrained capture.
    Regex(RegexWisp),
    /// Several matchers against the same segment.
    Comb(Vec<WispKind>),
}

impl WispKind {
    /// The wisp's mathematical value.
    pub open spec fn model(&self) -> WispModel
        decreases self,
    {
        match self {
            WispKind::Const(w) => WispModel::Const(w.0@),
            WispKind::Name(w) => WispModel::Name(w.0@),
            WispKind::Char(w) => WispModel::Char {
                name: w.name@,
                kind: w.kind,
                min: w.min_width as int,
                max: match w.max_width {
                    Some(mx) => Some(mx as int),
                    None => None,
                },
            },
            WispKind::Regex(w) => WispModel::Regex { name: w.name@, pattern: w.pattern@ },
            WispKind::Comb(ws) => WispModel::Comb(models_of(ws@, ws@.len() as int)),
        }
    }

    /// Every compiled regex in the wisp carries the pattern it claims.
    pub open spec fn wf(&self) -> bool
        decreases self,
    {
        match self {
            WispKind::Regex(w) => regex_pattern(w.regex) == anchored_pattern(w.pattern@),
            WispKind::Comb(ws) => forall|i: int| 0 <= i < ws@.len() ==> (#[trigger] ws@[i]).wf(),
            _ => true,
        }
    }
}

/// The models of the first `n` wisps of a column.
pub open spec fn models_of(ws: Seq<WispKind>, n: int) -> Seq<WispModel>
    decreases ws, n,
{
    if n <= 0 || n > ws.len() {
        Seq::empty()
    } else {
        models_of(ws, n - 1).push(ws[n - 1].model())
    }
}

/// Within bounds, the end of a class run lies between its start and the end
/// of the text.
pub proof fn lemma_char_run_bounds(kind: CharKind, p: Seq<char>, i: int)
    requires
        0 <= i <= p.len(),
    ensures
        i <= char_run_end(kind, p, i) <= p.len(),
    decreases p.len() - i,
{
    if i < p.len() && char_allowed(kind, p[i]) {
        lemma_char_run_bounds(kind, p, i + 1);
    }
}

/// A column's first `n` models are `n` many.
pub proof fn lemma_models_of_len(ws: Seq<WispKind>, n: int)
    requires
        0 <= n <= ws.len(),
    ensures
        models_of(ws, n).len() == n,
    decreases n,
{
    if n > 0 {
        lemma_models_of_len(ws, n - 1);
    }
}

/// A column's models line up with its wisps.
pub proof fn lemma_models_of_index(ws: Seq<WispKind>, n: int, i: int)
    requires
        0 <= i < n <= ws.len(),
    ensures
        models_of(ws, n).len() == n,
        models_of(ws, n)[i] == ws[i].model(),
    decreases n,
{
    lemma_models_of_len(ws, n);
    if i < n - 1 {
        lemma_models_of_index(ws, n - 1, i);
    }
}

/// A wisp neither rewrites the path's segments nor its trailing-separator
/// flag.
pub proof fn lemma_wisp_parts(w: WispModel, s: StateModel)
    ensures
        wisp_detect(w, s).1.parts == s.parts,
        wisp_detect(w, s).1.end_slash == s.end_slash,
    decreases w, 0int,
{
    match w {
        WispModel::Comb(ws) => {
            lemma_comb_parts(ws, 0, s, s);
        },
        _ => {},
    }
}

/// Nor does a composite's walk.
pub proof fn lemma_comb_parts(ws: Seq<WispModel>, i: int, s0: StateModel, s: StateModel)
    ensures
        comb_detect(ws, i, s0, s).1.parts == s.parts,
        comb_detect(ws, i, s0, s).1.end_slash == s.end_slash,
    decreases ws, ws.len() - i,
{
    if 0 <= i && i < ws.len() {
        let step = wisp_detect(ws[i], s);
        lemma_wisp_parts(ws[i], s);
        if step.0 {
            lemma_comb_parts(ws, i + 1, s0, step.1);
        }
    }
}

impl PathWisp for ConstWisp {
    open spec fn wmodel(&self) -> WispModel {
        WispModel::Const(self.0@)
    }

    open spec fn wwf(&self) -> bool {
        true
    }

    fn detect(&self, state: &mut PathState) -> (r: bool) {
        let picked = match state.pick() {
            Some(p) => p,
            None => {
                return false;
            },
        };
        let n0 = self.0.as_str().unicode_len();
        let np = picked.unicode_len();
        if n0 > np {
            return false;
        }
        let prefix_eq = crate::text::str_eq(picked.substring_char(0, n0), self.0.as_str());
        if prefix_eq {
            proof {
                assert(self.0@.is_prefix_of(picked@));
                lemma_pick_len(state.model());
            }
            state.forward(n0);
            true
        } else {
            proof {
                assert(!self.0@.is_prefix_of(picked@));
            }
            false
        }
    }
}

impl PathWisp for NameWisp {
    open spec fn wmodel(&self) -> WispModel {
        WispModel::Name(self.0@)
    }

    open spec fn wwf(&self) -> bool {
        true
    }

    fn detect(&self, state: &mut PathState) -> (r: bool) {
        let nlen = self.0.as_str().unicode_len();
        let star = nlen > 0 && self.0.as_str().get_char(0) == '*';
        let dstar = star && nlen > 1 && self.0.as_str().get_char(1) == '*';
        proof {
            assert(star == name_is_star(self.0@));
            assert(dstar == name_is_double_star(self.0@));
        }
        if star {
            let rest: String = match state.all_rest() {
                Some(r) => r,
                None => String::new(),
            };
            if rest.as_str().unicode_len() > 0 || dstar {
                state.params.insert(self.0.as_str(), rest);
                state.cursor = (state.parts.len(), state.cursor.1);
                true
            } else {
                false
            }
        } else {
            let picked: String = match state.pick() {
                Some(p) => p.to_owned(),
                None => {
                    return false;
                },
            };
            proof {
                lemma_pick_len(state.model());
            }
            let n = picked.as_str().unicode_len();
            state.forward(n);
            state.params.insert(self.0.as_str(), picked);
            true
        }
    }
}

impl PathWisp for CharWisp {
    open spec fn wmodel(&self) -> WispModel {
        WispModel::Char {
            name: self.name@,
            kind: self.kind,
            min: self.min_width as int,
            max: match self.max_width {
                Some(mx) => Some(mx as int),
                None => None,
            },
        }
    }

    open spec fn wwf(&self) -> bool {
        true
    }

    fn detect(&self, state: &mut PathState) -> (r: bool) {
        let picked = match state.pick() {
            Some(p) => p,
            None => {
                return false;
            },
        };
        let plen = picked.unicode_len();
        let mut i: usize = 0;
        let mut stop = false;
        while i < plen && !stop
            invariant
                0 <= i <= plen,
                plen == picked@.len(),
                !stop ==> char_run_end(self.kind, picked@, 0) == char_run_end(
                    self.kind,
                    picked@,
                    i as int,
                ),
                stop ==> char_run_end(self.kind, picked@, 0) == i,
            decreases plen - i, 1int - if stop {
                1int
            } else {
                0int
            },
        {
            let c = picked.get_char(i);
            let allowed = match self.kind {
                CharKind::Num => crate::text::is_num(c),
                CharKind::Hex => crate::text::is_hex(c),
            };
            if allowed {
                i = i + 1;
            } else {
                stop = true;
            }
        }
        let run = i;
        proof {
            assert(char_run_end(self.kind, picked@, 0) == run);
            lemma_char_run_bounds(self.kind, picked@, 0);
        }
        let take = match self.max_width {
            Some(mx) => if run < mx {
                run
            } else {
                mx
            },
            None => run,
        };
        let ok = match self.max_width {
            Some(mx) => take == mx || take >= self.min_width,
            None => take >= self.min_width,
        };
        if ok {
            let cap = picked.substring_char(0, take).to_owned();
            proof {
                lemma_pick_len(state.model());
            }
            state.forward(take);
            state.params.insert(self.name.as_str(), cap);
            true
        } else {
            false
        }
    }
}

impl PathWisp for RegexWisp {
    open spec fn wmodel(&self) -> WispModel {
        WispModel::Regex { name: self.name@, pattern: self.pattern@ }
    }

    open spec fn wwf(&self) -> bool {
        regex_pattern(self.regex) == anchored_pattern(self.pattern@)
    }

    fn detect(&self, state: &mut PathState) -> (r: bool) {
        let nlen = self.name.as_str().unicode_len();
        let star = nlen > 0 && self.name.as_str().get_char(0) == '*';
        let dstar = star && nlen > 1 && self.name.as_str().get_char(1) == '*';
        proof {
            assert(star == name_is_star(self.name@));
            assert(dstar == name_is_double_star(self.name@));
        }
        if star {
            let rest: String = match state.all_rest() {
                Some(r) => r,
                None => {
                    return false;
                },
            };
            if rest.as_str().unicode_len() > 0 || dstar {
                match regex_find(&self.regex, rest.as_str()) {
                    Some(cap) => {
                        proof {
                            lemma_rest_len(state.model());
                        }
                        let cl = cap.as_str().unicode_len();
                        state.forward(cl);
                        state.params.insert(self.name.as_str(), cap);
                        true
                    },
                    None => false,
                }
            } else {
                false
            }
        } else {
            let picked = match state.pick() {
                Some(p) => p,
                None => {
                    return false;
                },
            };
            let found = regex_find(&self.regex, picked);
            match found {
                Some(cap) => {
                    proof {
                        lemma_pick_len(state.model());
                    }
                    let cl = cap.as_str().unicode_len();
                    state.forward(cl);
                    state.params.insert(self.name.as_str(), cap);
                    true
                },
                None => false,
            }
        }
    }
}

impl WispKind {
    /// Matches the wisp at the cursor's position; see [`wisp_detect`].
    pub fn detect_in(&self, state: &mut PathState) -> (r: bool)
        requires
            old(state).wf(),
            self.wf(),
        ensures
            final(state).wf(),
            (r, final(state).model()) == wisp_detect(self.model(), old(state).model()),
        decreases self,
    {
        match self {
            WispKind::Const(w) => w.detect(state),
            WispKind::Name(w) => w.detect(state),
            WispKind::Char(w) => w.detect(state),
            WispKind::Regex(w) => w.detect(state),
            WispKind::Comb(ws) => {
                let ghost s0 = state.model();
                let ghost ms = models_of(ws@, ws@.len() as int);
                let saved = state.cursor;
                let n = ws.len();
                let mut i: usize = 0;
                proof {
                    lemma_models_of_len(ws@, n as int);
                }
                while i < n
                    invariant
                        s0 == old(state).model(),
                        ms == models_of(ws@, ws@.len() as int),
                        self == WispKind::Comb(*ws),
                        state.wf(),
                        state_wf(s0),
                        0 <= i <= n,
                        n == ws@.len(),
                        ms == models_of(ws@, n as int),
                        ms.len() == n,
                        forall|j: int| 0 <= j < ws@.len() ==> (#[trigger] ws@[j]).wf(),
                        saved.0 as int == s0.row,
                        saved.1 as int == s0.col,
                        state.model().parts == s0.parts,
                        state.model().end_slash == s0.end_slash,
                        comb_detect(ms, 0, s0, s0) == comb_detect(ms, i as int, s0, state.model()),
                    decreases n - i,
                {
                    let ghost mpre = state.model();
                    let child = &ws[i];
                    proof {
                        lemma_models_of_index(ws@, n as int, i as int);
                    }
                    proof {
                        broadcast use vstd::std_specs::vec::axiom_vec_index_decreases;

                        assert(decreases_to!(ws => ws@[i as int]));
                    }
                    let r = child.detect_in(state);
                    proof {
                        lemma_wisp_parts(ms[i as int], mpre);
                    }
                    if !r {
                        state.cursor = saved;
                        proof {
                            assert(state.model() == (StateModel {
                                row: s0.row,
                                col: s0.col,
                                ..wisp_detect(ms[i as int], mpre).1
                            }));
                            assert(comb_detect(ms, i as int, s0, mpre) == (
                                false,
                                state.model(),
                            ));
                        }
                        return false;
                    }
                    i = i + 1;
                }
                proof {
                    assert(comb_detect(ms, n as int, s0, state.model()) == (
                        true,
                        state.model(),
                    ));
                }
                true
            },
        }
    }
}

impl PathWisp for WispKind {
    open spec fn wmodel(&self) -> WispModel {
        self.model()
    }

    open spec fn wwf(&self) -> bool {
        self.wf()
    }

    fn detect(&self, state: &mut PathState) -> (r: bool) {
        self.detect_in(state)
    }
}


} // verus!
