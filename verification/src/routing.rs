//! The path cursor and the flow controller.
//!
//! A [`PathState`] tracks how much of a request path a match has consumed:
//! the decoded path segments, a position (segment row, character column),
//! the parameters captured so far, and whether the raw path ended with a
//! separator.  A [`FlowCtrl`] runs the middleware-and-handler chain of a
//! successful match.

use vstd::prelude::*;

use crate::depot::Depot;
use crate::http::{PathParams, Request, Response};

verus! {

broadcast use {
    crate::views::lemma_parts_view_len,
    crate::views::lemma_parts_view_index,
    crate::views::lemma_params_view_insert,
};

pub use crate::views::{parts_view, params_view};

/// What percent-decoding makes of a string: `%xx` escapes become bytes, and
/// the bytes are read back as text, lossily.
pub uninterp spec fn percent_decoded(s: Seq<char>) -> Seq<char>;

/// Relies on `percent_encoding::percent_decode_str` and
/// `PercentDecode::decode_utf8_lossy`: only `%` followed by two hex digits is
/// rewritten, so a string without `%` comes back unchanged; every input byte
/// yields at most one output character and at least one character comes out
/// of a non-empty input, so the result is never longer than the input and
/// never empty unless the input is.
#[verifier::external_body]
fn decode_url_path_safely(path: &str) -> (r: String)
    ensures
        r@ == percent_decoded(path@),
        (forall|i: int| 0 <= i < path@.len() ==> path@[i] != '%') ==> r@ == path@,
        path@.len() > 0 ==> r@.len() > 0,
        r@.len() <= path@.len(),
{
    percent_encoding::percent_decode_str(path).decode_utf8_lossy().to_string()
}

/// The mathematical value of a path cursor.
pub struct StateModel {
    /// The decoded path segments, empties removed.
    pub parts: Seq<Seq<char>>,
    /// The segment the cursor stands in, counted from zero; equals
    /// `parts.len()` once the whole path is consumed.
    pub row: int,
    /// How many characters of that segment are consumed.
    pub col: int,
    /// The parameters captured so far; a later capture under the same name
    /// wins.
    pub params: Map<Seq<char>, Seq<char>>,
    /// Whether the raw path ended with a separator.
    pub end_slash: bool,
}

/// The characters a cursor position costs, summed from segment `i` on: each
/// segment counts one separator beside its text.
pub open spec fn joined_from(parts: Seq<Seq<char>>, i: int) -> int
    decreases parts.len() - i,
{
    if i < 0 || i >= parts.len() {
        0
    } else {
        parts[i].len() + 1 + joined_from(parts, i + 1)
    }
}

/// A cursor is well formed when its row is within the parts (or just past
/// them), its column is within its row's segment, no segment is empty, and
/// the whole path fits a machine word.
pub open spec fn state_wf(s: StateModel) -> bool {
    &&& 0 <= s.row <= s.parts.len()
    &&& (s.row < s.parts.len() ==> 0 <= s.col <= s.parts[s.row].len())
    &&& (s.row == s.parts.len() ==> s.col >= 0)
    &&& (forall|i: int| 0 <= i < s.parts.len() ==> (#[trigger] s.parts[i]).len() > 0)
    &&& joined_from(s.parts, 0) <= usize::MAX
}

/// The row [`PathState::pick`] reads from: the cursor's own row, or the next
/// one once the row's segment is fully consumed.
pub open spec fn pick_row(s: StateModel) -> int {
    if s.row < s.parts.len() && s.col >= s.parts[s.row].len() {
        s.row + 1
    } else {
        s.row
    }
}

/// What [`PathState::pick`] returns: the unconsumed portion of the current
/// segment, or the next segment in full, or nothing once the path is
/// exhausted.
pub open spec fn pick_of(s: StateModel) -> Option<Seq<char>> {
    if s.row >= s.parts.len() {
        None
    } else if s.col >= s.parts[s.row].len() {
        if s.row + 1 < s.parts.len() {
            Some(s.parts[s.row + 1])
        } else {
            None
        }
    } else {
        Some(s.parts[s.row].subrange(s.col, s.parts[s.row].len() as int))
    }
}

/// The segments from `i` on, each preceded by a separator.
pub open spec fn rest_from(parts: Seq<Seq<char>>, i: int) -> Seq<char>
    decreases parts.len() - i,
{
    if i < 0 || i >= parts.len() {
        Seq::empty()
    } else {
        seq!['/'] + parts[i] + rest_from(parts, i + 1)
    }
}

/// What [`PathState::all_rest`] returns: the picked text, every later
/// segment behind a separator, and the original trailing separator if the
/// raw path had one.
pub open spec fn rest_of(s: StateModel) -> Option<Seq<char>> {
    match pick_of(s) {
        None => None,
        Some(p) => Some(
            p + rest_from(s.parts, pick_row(s) + 1) + if s.end_slash {
                seq!['/']
            } else {
                Seq::empty()
            },
        ),
    }
}

/// Where a cursor at `(row, steps)` lands: `steps` counts characters from
/// the start of segment `row`, rolling over into later segments, coming to
/// rest at `(parts.len(), 0)` if the path runs out.
pub open spec fn forward_pos(parts: Seq<Seq<char>>, row: int, steps: int) -> (int, int)
    decreases parts.len() - row,
{
    if row < 0 || row >= parts.len() {
        (parts.len() as int, 0)
    } else if parts[row].len() > steps {
        (row, steps)
    } else {
        forward_pos(parts, row + 1, steps - parts[row].len())
    }
}

/// What [`PathState::forward`] makes of a cursor: `n` characters consumed,
/// rolling over segment ends; a cursor already past the path stays put.
pub open spec fn fwd(s: StateModel, n: int) -> StateModel {
    if s.row >= s.parts.len() {
        s
    } else {
        let pos = forward_pos(s.parts, s.row, s.col + n);
        StateModel { row: pos.0, col: pos.1, ..s }
    }
}

/// A cursor with `name` bound to `value` on top of its other captures.
pub open spec fn captured(s: StateModel, name: Seq<char>, value: Seq<char>) -> StateModel {
    StateModel { params: s.params.insert(name, value), ..s }
}

/// Whether the whole path is consumed.
pub open spec fn ended_of(s: StateModel) -> bool {
    s.row >= s.parts.len()
}

/// A cursor position's cost is never negative.
pub proof fn lemma_joined_from_nonneg(parts: Seq<Seq<char>>, i: int)
    ensures
        joined_from(parts, i) >= 0,
    decreases parts.len() - i,
{
    if 0 <= i && i < parts.len() {
        lemma_joined_from_nonneg(parts, i + 1);
    }
}

/// Moving the starting segment forward only lowers the cost.
pub proof fn lemma_joined_from_le(parts: Seq<Seq<char>>, i: int, j: int)
    requires
        0 <= i <= j,
    ensures
        joined_from(parts, j) <= joined_from(parts, i),
    decreases j - i,
{
    if i < j {
        lemma_joined_from_le(parts, i + 1, j);
        if i < parts.len() {
            lemma_joined_from_nonneg(parts, i + 1);
            if j >= parts.len() {
                lemma_joined_from_nonneg(parts, j);
            }
        } else {
            lemma_joined_from_nonneg(parts, j);
        }
    }
}

/// What `pick` returns fits, together with the column, inside the whole
/// path's cost.
pub proof fn lemma_pick_len(s: StateModel)
    requires
        state_wf(s),
        pick_of(s) is Some,
    ensures
        s.col + pick_of(s).unwrap().len() <= joined_from(s.parts, 0),
{
    let p = pick_of(s).unwrap();
    if s.col >= s.parts[s.row].len() {
        assert(joined_from(s.parts, s.row + 1) == s.parts[s.row + 1].len() + 1 + joined_from(
            s.parts,
            s.row + 2,
        ));
        assert(joined_from(s.parts, s.row) == s.parts[s.row].len() + 1 + joined_from(
            s.parts,
            s.row + 1,
        ));
        lemma_joined_from_nonneg(s.parts, s.row + 2);
        lemma_joined_from_le(s.parts, 0, s.row);
    } else {
        assert(joined_from(s.parts, s.row) == s.parts[s.row].len() + 1 + joined_from(
            s.parts,
            s.row + 1,
        ));
        lemma_joined_from_nonneg(s.parts, s.row + 1);
        lemma_joined_from_le(s.parts, 0, s.row);
    }
}

/// The text behind a separator run costs exactly what `joined_from` counts.
pub proof fn lemma_rest_from_len(parts: Seq<Seq<char>>, i: int)
    ensures
        rest_from(parts, i).len() == joined_from(parts, i),
    decreases parts.len() - i,
{
    if 0 <= i && i < parts.len() {
        lemma_rest_from_len(parts, i + 1);
    }
}

/// What `all_rest` returns fits, together with the column, inside the whole
/// path's cost.
pub proof fn lemma_rest_len(s: StateModel)
    requires
        state_wf(s),
        rest_of(s) is Some,
    ensures
        s.col + rest_of(s).unwrap().len() <= joined_from(s.parts, 0),
{
    let p = pick_of(s).unwrap();
    let pr = pick_row(s);
    lemma_rest_from_len(s.parts, pr + 1);
    lemma_joined_from_nonneg(s.parts, pr + 1);
    if s.col >= s.parts[s.row].len() {
        assert(joined_from(s.parts, s.row + 1) == s.parts[s.row + 1].len() + 1 + joined_from(
            s.parts,
            s.row + 2,
        ));
        assert(joined_from(s.parts, s.row) == s.parts[s.row].len() + 1 + joined_from(
            s.parts,
            s.row + 1,
        ));
        lemma_joined_from_le(s.parts, 0, s.row);
    } else {
        assert(joined_from(s.parts, s.row) == s.parts[s.row].len() + 1 + joined_from(
            s.parts,
            s.row + 1,
        ));
        lemma_joined_from_le(s.parts, 0, s.row);
    }
}

/// One scanning step of segment splitting: a separator closes the segment
/// being built (dropping it when empty), any other character extends it.
pub open spec fn split_step(acc: (Seq<Seq<char>>, Seq<char>), c: char) -> (Seq<Seq<char>>, Seq<
    char,
>) {
    if c == '/' {
        if acc.1.len() > 0 {
            (acc.0.push(acc.1), Seq::empty())
        } else {
            acc
        }
    } else {
        (acc.0, acc.1.push(c))
    }
}

/// The finished segments and the segment still being built after scanning
/// `s`.
pub open spec fn split_scan(s: Seq<char>) -> (Seq<Seq<char>>, Seq<char>)
    decreases s.len(),
{
    if s.len() == 0 {
        (Seq::empty(), Seq::empty())
    } else {
        split_step(split_scan(s.drop_last()), s.last())
    }
}

/// The separator-delimited segments of `s`, empty ones removed.
pub open spec fn split_segments(s: Seq<char>) -> Seq<Seq<char>> {
    let scan = split_scan(s);
    if scan.1.len() > 0 {
        scan.0.push(scan.1)
    } else {
        scan.0
    }
}

/// Each sequence of a column, percent-decoded.
pub open spec fn decoded_view(v: Seq<Seq<char>>) -> Seq<Seq<char>> {
    v.map_values(|t: Seq<char>| percent_decoded(t))
}

/// Viewing a column keeps its length, decodes each entry, and commutes with
/// adding one more.
pub broadcast proof fn lemma_decoded_view_push(v: Seq<Seq<char>>, t: Seq<char>)
    ensures
        (#[trigger] decoded_view(v.push(t))) == decoded_view(v).push(percent_decoded(t)),
{
    assert(decoded_view(v.push(t)) =~= decoded_view(v).push(percent_decoded(t)));
}

/// Each raw segment of the path, percent-decoded.
pub open spec fn decoded_segments(s: Seq<char>) -> Seq<Seq<char>> {
    decoded_view(split_segments(s))
}

/// Pushing one more segment adds its text and one separator to the cost.
proof fn lemma_joined_from_push(parts: Seq<Seq<char>>, seg: Seq<char>)
    ensures
        joined_from(parts.push(seg), 0) == joined_from(parts, 0) + seg.len() + 1,
    decreases parts.len(),
{
    lemma_joined_from_push_at(parts, seg, 0);
}

/// Pushing one more segment adds its text and one separator to the cost,
/// seen from any starting segment.
proof fn lemma_joined_from_push_at(parts: Seq<Seq<char>>, seg: Seq<char>, i: int)
    requires
        0 <= i <= parts.len(),
    ensures
        joined_from(parts.push(seg), i) == joined_from(parts, i) + seg.len() + 1,
    decreases parts.len() - i,
{
    if i < parts.len() {
        lemma_joined_from_push_at(parts, seg, i + 1);
        assert(parts.push(seg)[i] == parts[i]);
        assert(joined_from(parts.push(seg), i) == parts.push(seg)[i].len() + 1 + joined_from(
            parts.push(seg),
            i + 1,
        ));
    } else {
        assert(parts.push(seg)[i] == seg);
        assert(joined_from(parts.push(seg), i) == seg.len() + 1 + joined_from(
            parts.push(seg),
            i + 1,
        ));
        assert(joined_from(parts.push(seg), i + 1) == 0);
    }
}

/// Tracks partial consumption of a request path during matching: the decoded
/// segments, a position of (segment row, character column), the captured
/// parameters, and whether the raw path ended with a separator.
pub struct PathState {
    /// The decoded path segments, empties removed.
    pub parts: Vec<String>,
    /// The position: (segment row, character column within it).
    pub cursor: (usize, usize),
    /// The parameters captured so far.
    pub params: PathParams,
    /// Whether the raw path ended with a separator.
    pub end_slash: bool,
}

impl PathState {
    /// The cursor's mathematical value.
    pub open spec fn model(&self) -> StateModel {
        StateModel {
            parts: parts_view(self.parts@),
            row: self.cursor.0 as int,
            col: self.cursor.1 as int,
            params: params_view(self.params@),
            end_slash: self.end_slash,
        }
    }

    /// The cursor and its captures are well formed.
    pub open spec fn wf(&self) -> bool {
        self.params.well_formed() && state_wf(self.model())
    }

    /// A cursor at the start of `url_path`, its segments percent-decoded and
    /// empty segments removed.
    pub fn new(url_path: &str) -> (s: PathState)
        requires
            url_path@.len() < usize::MAX,
        ensures
            s.wf(),
            s.model().parts == decoded_segments(url_path@),
            (forall|k: int| 0 <= k < url_path@.len() ==> url_path@[k] != '%') ==> s.model().parts
                == split_segments(url_path@),
            s.model().row == 0,
            s.model().col == 0,
            s.model().params == Map::<Seq<char>, Seq<char>>::empty(),
            s.model().end_slash == (url_path@.len() > 0 && url_path@.last() == '/'),
    {
        let n = url_path.unicode_len();
        let end_slash = n > 0 && url_path.get_char(n - 1) == '/';
        let mut parts: Vec<String> = Vec::new();
        let ghost mut raw: Seq<Seq<char>> = Seq::empty();
        let mut cur = String::new();
        let mut i: usize = 0;
        while i < n
            invariant
                0 <= i <= n,
                n == url_path@.len(),
                n < usize::MAX,
                (raw, cur@) == split_scan(url_path@.subrange(0, i as int)),
                parts_view(parts@) == decoded_view(raw),
                (forall|k: int| 0 <= k < url_path@.len() ==> url_path@[k] != '%') ==> (parts_view(
                    parts@,
                ) == raw && (forall|k: int| 0 <= k < cur@.len() ==> cur@[k] != '%')),
                forall|k: int| 0 <= k < parts@.len() ==> (#[trigger] parts@[k])@.len() > 0,
                joined_from(parts_view(parts@), 0) + cur@.len() <= i,
            decreases n - i,
        {
            let c = url_path.get_char(i);
            proof {
                assert(url_path@.subrange(0, i as int + 1).drop_last() =~= url_path@.subrange(
                    0,
                    i as int,
                ));
                assert(url_path@.subrange(0, i as int + 1).last() == url_path@[i as int]);
            }
            if c == '/' {
                if cur.as_str().unicode_len() > 0 {
                    let ghost old_parts = parts_view(parts@);
                    let decoded = decode_url_path_safely(cur.as_str());
                    parts.push(decoded);
                    proof {
                        lemma_decoded_view_push(raw, cur@);
                        if forall|k: int| 0 <= k < url_path@.len() ==> url_path@[k] != '%' {
                            assert(decoded@ == cur@);
                        }
                        raw = raw.push(cur@);
                        assert(parts_view(parts@) =~= old_parts.push(percent_decoded(cur@)));
                        assert(parts_view(parts@) == decoded_view(raw));
                        lemma_joined_from_push(old_parts, percent_decoded(cur@));
                    }
                    cur = String::new();
                }
            } else {
                cur.push(c);
            }
            i = i + 1;
        }
        proof {
            assert(url_path@.subrange(0, n as int) =~= url_path@);
        }
        if cur.as_str().unicode_len() > 0 {
            let ghost old_parts = parts_view(parts@);
            let decoded = decode_url_path_safely(cur.as_str());
            parts.push(decoded);
            proof {
                lemma_decoded_view_push(raw, cur@);
                if forall|k: int| 0 <= k < url_path@.len() ==> url_path@[k] != '%' {
                    assert(decoded@ == cur@);
                }
                raw = raw.push(cur@);
                assert(parts_view(parts@) =~= old_parts.push(percent_decoded(cur@)));
                assert(parts_view(parts@) == decoded_view(raw));
                lemma_joined_from_push(old_parts, percent_decoded(cur@));
                assert(raw == split_segments(url_path@));
            }
        } else {
            proof {
                assert(raw == split_segments(url_path@));
            }
        }
        let s = PathState { parts, cursor: (0, 0), params: Depot::new(), end_slash };
        proof {
            assert(s.model().parts =~= decoded_segments(url_path@));
            assert(s.model().params =~= Map::<Seq<char>, Seq<char>>::empty());
            if url_path@.len() > 0 {
                assert(url_path@[n - 1] == url_path@.last());
            }
            assert forall|k: int| 0 <= k < s.model().parts.len() implies (#[trigger] s.model(
            ).parts[k]).len() > 0 by {
                assert(s.model().parts[k] == s.parts@[k]@);
            }
            assert(state_wf(s.model()));
        }
        s
    }

    /// The unconsumed portion of the current segment, or the next segment in
    /// full once the current one is consumed; nothing once the path is
    /// exhausted.
    pub fn pick(&self) -> (r: Option<&str>)
        requires
            self.wf(),
        ensures
            match r {
                Some(p) => pick_of(self.model()) == Some(p@),
                None => pick_of(self.model()) is None,
            },
    {
        if self.cursor.0 >= self.parts.len() {
            return None;
        }
        let plen = self.parts[self.cursor.0].as_str().unicode_len();
        if self.cursor.1 >= plen {
            if self.cursor.0 + 1 < self.parts.len() {
                Some(self.parts[self.cursor.0 + 1].as_str())
            } else {
                None
            }
        } else {
            Some(self.parts[self.cursor.0].as_str().substring_char(self.cursor.1, plen))
        }
    }

    /// The picked text followed by every later segment behind a separator,
    /// with the original trailing separator re-appended if the raw path had
    /// one; nothing once the path is exhausted.
    pub fn all_rest(&self) -> (r: Option<String>)
        requires
            self.wf(),
        ensures
            match r {
                Some(p) => rest_of(self.model()) == Some(p@),
                None => rest_of(self.model()) is None,
            },
    {
        let picked = match self.pick() {
            Some(p) => p,
            None => {
                return None;
            },
        };
        let n = self.parts.len();
        proof {
            assert(self.cursor.0 < self.parts@.len());
            assert(pick_row(self.model()) < self.model().parts.len());
        }
        let mut out: String = picked.to_owned();
        let row = if self.cursor.1
            >= self.parts[self.cursor.0].as_str().unicode_len() {
            self.cursor.0 + 1
        } else {
            self.cursor.0
        };
        let ghost target = pick_of(self.model()).unwrap() + rest_from(
            self.model().parts,
            pick_row(self.model()) + 1,
        );
        let mut i: usize = row + 1;
        while i < self.parts.len()
            invariant
                self.wf(),
                pick_of(self.model()) is Some,
                target == pick_of(self.model()).unwrap() + rest_from(
                    self.model().parts,
                    pick_row(self.model()) + 1,
                ),
                row as int == pick_row(self.model()),
                row < self.parts@.len(),
                row + 1 <= i <= self.parts@.len(),
                target == out@ + rest_from(self.model().parts, i as int),
            decreases self.parts@.len() - i,
        {
            proof {
                assert(rest_from(self.model().parts, i as int) == seq!['/'] + self.model().parts[i as int]
                    + rest_from(self.model().parts, i as int + 1));
            }
            out.append("/");
            out.append(self.parts[i].as_str());
            proof {
                reveal_strlit("/");
                assert(target =~= out@ + rest_from(self.model().parts, i as int + 1));
            }
            i = i + 1;
        }
        if self.end_slash {
            out.append("/");
            proof {
                reveal_strlit("/");
            }
        }
        proof {
            assert(rest_from(self.model().parts, self.parts@.len() as int) =~= Seq::<char>::empty());
            assert(rest_of(self.model()) == Some(out@));
        }
        Some(out)
    }

    /// Consumes `steps` characters, rolling over into later segments when
    /// the current one runs out; a cursor already past the path stays put.
    pub fn forward(&mut self, steps: usize)
        requires
            old(self).wf(),
            steps + old(self).cursor.1 <= usize::MAX,
        ensures
            final(self).wf(),
            final(self).model() == fwd(old(self).model(), steps as int),
            final(self).params == old(self).params,
            final(self).parts == old(self).parts,
            final(self).end_slash == old(self).end_slash,
    {
        let mut togo = steps + self.cursor.1;
        if self.cursor.0 >= self.parts.len() {
            return;
        }
        let ghost m = old(self).model();
        while self.cursor.0 < self.parts.len()
            invariant
                m == old(self).model(),
                self.wf(),
                self.parts == old(self).parts,
                self.params == old(self).params,
                self.end_slash == old(self).end_slash,
                self.cursor.0 >= self.parts@.len() ==> self.cursor.1 == 0,
                forward_pos(m.parts, self.cursor.0 as int, togo as int) == forward_pos(
                    m.parts,
                    m.row,
                    m.col + steps as int,
                ),
            decreases self.parts@.len() - self.cursor.0,
        {
            let ghost row0 = self.cursor.0 as int;
            let ghost togo0 = togo as int;
            proof {
                assert(m.parts[row0] == self.parts@[row0]@);
            }
            let plen = self.parts[self.cursor.0].as_str().unicode_len();
            if plen > togo {
                self.cursor.1 = togo;
                proof {
                    assert(forward_pos(m.parts, row0, togo0) == (row0, togo0));
                }
                return;
            }
            togo = togo - plen;
            self.cursor = (self.cursor.0 + 1, 0);
            proof {
                assert(forward_pos(m.parts, row0, togo0) == forward_pos(
                    m.parts,
                    row0 + 1,
                    togo0 - m.parts[row0].len(),
                ));
            }
        }
        proof {
            assert(forward_pos(m.parts, self.cursor.0 as int, togo as int) == (
                m.parts.len() as int,
                0int,
            ));
        }
    }

    /// Whether every segment of the path has been consumed.
    pub fn ended(&self) -> (r: bool)
        ensures
            r == ended_of(self.model()),
    {
        self.cursor.0 >= self.parts.len()
    }

    /// The parameters captured so far.
    pub fn params(&self) -> (p: &PathParams)
        ensures
            p == self.params,
    {
        &self.params
    }
}

/// One unit of request handling: middleware or a terminal handler.  A
/// handler value is a shareable reference to the unit — the same handler
/// may stand at several routes — so it copies freely.  What a handler does
/// to the request, the shared data, the response or the flow controller is
/// its own business, so nothing is promised of `handle`.
pub trait Handler: Sized + Copy {
    /// The per-request shared data the handler suite works on.
    type Data;

    /// Handles the request, possibly mutating the response and steering the
    /// rest of the chain through `ctrl`.
    fn handle(
        &self,
        req: &mut Request,
        depot: &mut Self::Data,
        res: &mut Response,
        ctrl: &mut FlowCtrl<Self>,
    );
}

/// A handler that does nothing but mark the response successful.
#[allow(non_camel_case_types)]
#[derive(Clone, Copy)]
pub struct empty_handler;

impl Handler for empty_handler {
    type Data = Depot<String>;

    fn handle(
        &self,
        _req: &mut Request,
        _depot: &mut Depot<String>,
        res: &mut Response,
        _ctrl: &mut FlowCtrl<Self>,
    ) {
        res.set_status_code(200);
    }
}

/// Runs an ordered middleware-and-handler chain with short-circuit and
/// cancellation semantics: a cursor walks the chain, a stamped response or a
/// call to [`FlowCtrl::skip_rest`] ends the walk early, and
/// [`FlowCtrl::cease`] additionally tells the serving layer to stop all
/// further processing.
pub struct FlowCtrl<H> {
    is_ceased: bool,
    cursor: usize,
    handlers: Vec<H>,
}

impl<H> FlowCtrl<H> {
    /// The chain's position: handlers before it have been entered.
    pub closed spec fn spec_cursor(&self) -> int {
        self.cursor as int
    }

    /// The chain itself.
    pub closed spec fn spec_handlers(&self) -> Seq<H> {
        self.handlers@
    }

    /// Whether `cease` was called.
    pub closed spec fn spec_ceased(&self) -> bool {
        self.is_ceased
    }

    /// A controller at the start of `handlers`.
    pub fn new(handlers: Vec<H>) -> (c: FlowCtrl<H>)
        ensures
            c.spec_cursor() == 0,
            c.spec_handlers() == handlers@,
            !c.spec_ceased(),
    {
        FlowCtrl { is_ceased: false, cursor: 0, handlers }
    }

    /// Whether a handler is left to run.
    pub fn has_next(&self) -> (r: bool)
        ensures
            r == (self.spec_cursor() < self.spec_handlers().len()),
    {
        self.cursor < self.handlers.len()
    }

    /// Ends the chain: no further handler will run.
    pub fn skip_rest(&mut self)
        ensures
            final(self).spec_cursor() == final(self).spec_handlers().len(),
            final(self).spec_handlers() == old(self).spec_handlers(),
            final(self).spec_ceased() == old(self).spec_ceased(),
    {
        self.cursor = self.handlers.len();
    }

    /// Whether `cease` was called.
    pub fn is_ceased(&self) -> (r: bool)
        ensures
            r == self.spec_ceased(),
    {
        self.is_ceased
    }

    /// Ends the chain and tells the serving layer that nothing more — not
    /// even fallback error handling — should touch this request.
    pub fn cease(&mut self)
        ensures
            final(self).spec_cursor() == final(self).spec_handlers().len(),
            final(self).spec_handlers() == old(self).spec_handlers(),
            final(self).spec_ceased(),
    {
        self.skip_rest();
        self.is_ceased = true;
    }
}

impl<H: Handler> FlowCtrl<H> {
    /// Runs the chain from the cursor on.  A response already stamped makes
    /// the call a no-op that skips the remainder and reports `false`; a
    /// chain already ended reports `false` and changes nothing; otherwise at
    /// least one handler runs and the call reports `true`, stopping early if
    /// a handler stamps the response.  What the handlers themselves do is
    /// theirs alone.
    pub fn call_next(
        &mut self,
        req: &mut Request,
        depot: &mut H::Data,
        res: &mut Response,
    ) -> (r: bool)
        ensures
            old(res).stamped() ==> !r && *final(req) == *old(req) && *final(depot) == *old(depot)
                && *final(res) == *old(res) && final(self).spec_handlers() == old(
                self,
            ).spec_handlers() && final(self).spec_cursor() == old(self).spec_handlers().len()
                && final(self).spec_ceased() == old(self).spec_ceased(),
            !old(res).stamped() && old(self).spec_cursor() >= old(self).spec_handlers().len()
                ==> !r && *final(self) == *old(self) && *final(req) == *old(req) && *final(depot)
                == *old(depot) && *final(res) == *old(res),
            !old(res).stamped() && old(self).spec_cursor() < old(self).spec_handlers().len() ==> r
                && final(self).spec_cursor() >= final(self).spec_handlers().len(),
    {
        if res.is_stamped() {
            self.skip_rest();
            return false;
        }
        if self.cursor >= self.handlers.len() {
            return false;
        }
        // A chain of n handlers is entered at most n times here: each turn
        // runs the handler at the cursor and moves the cursor past it.  The
        // budget makes that bound explicit, so that even a handler that
        // rewound the controller could not make this walk endless.
        let mut budget = self.handlers.len();
        loop
            invariant
                !old(res).stamped(),
                old(self).spec_cursor() < old(self).spec_handlers().len(),
            decreases budget,
        {
            if self.cursor >= self.handlers.len() || budget == 0 {
                break;
            }
            budget = budget - 1;
            let h = self.handlers[self.cursor];
            self.cursor = self.cursor + 1;
            h.handle(req, depot, res, self);
            if res.is_stamped() {
                self.skip_rest();
                return true;
            }
        }
        // The chain is spent once this call returns, even against a handler
        // that rewound the controller.
        if self.cursor < self.handlers.len() {
            self.cursor = self.handlers.len();
        }
        true
    }
}

} // verus!
