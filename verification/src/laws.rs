//! The routing engine's general laws, proved once and for all over the
//! models that the executable functions are specified against.

use vstd::prelude::*;

use crate::path::{PathFilter, const_models, lit_only};
use crate::router::{FilterKind, Router, children_detect, filters_decide, router_detect};
use crate::routing::{
    StateModel, ended_of, forward_pos, pick_of, rest_of, split_scan, split_segments, state_wf,
};
use crate::wisp::{WispModel, comb_detect, name_is_double_star, name_is_star, wisp_detect};
use crate::http::Request;

verus! {

/// No segment a path splits into is empty.
pub proof fn lemma_split_segments_nonempty(t: Seq<char>)
    ensures
        forall|i: int|
            0 <= i < split_segments(t).len() ==> (#[trigger] split_segments(t)[i]).len() > 0,
{
    lemma_split_scan_nonempty(t);
}

/// Nor is any finished segment of a partial scan.
proof fn lemma_split_scan_nonempty(t: Seq<char>)
    ensures
        forall|i: int|
            0 <= i < split_scan(t).0.len() ==> (#[trigger] split_scan(t).0[i]).len() > 0,
    decreases t.len(),
{
    if t.len() > 0 {
        lemma_split_scan_nonempty(t.drop_last());
        let prev = split_scan(t.drop_last());
        assert forall|i: int|
            0 <= i < split_scan(t).0.len() implies (#[trigger] split_scan(t).0[i]).len() > 0 by {
            if t.last() == '/' && prev.1.len() > 0 {
                if i < prev.0.len() {
                    assert(split_scan(t).0[i] == prev.0[i]);
                } else {
                    assert(split_scan(t).0[i] == prev.1);
                }
            } else {
                assert(split_scan(t).0[i] == prev.0[i]);
            }
        }
    }
}

/// Matching one literal wisp per segment, in order, consumes exactly the
/// segments and touches nothing else.
proof fn lemma_const_wisps_advance(segs: Seq<Seq<char>>, i: int, s: StateModel, s0: StateModel)
    requires
        0 <= i <= segs.len(),
        s.parts == segs,
        s.row == i,
        s.col == 0,
        forall|k: int| 0 <= k < segs.len() ==> (#[trigger] segs[k]).len() > 0,
    ensures
        comb_detect(const_models(segs), i, s0, s) == (
            true,
            StateModel { row: segs.len() as int, col: 0, ..s },
        ),
    decreases segs.len() - i,
{
    if i == segs.len() {
        assert(StateModel { row: segs.len() as int, col: 0, ..s } == s);
    } else {
        assert(const_models(segs)[i] == WispModel::Const(segs[i]));
        let p = pick_of(s).unwrap();
        assert(p =~= segs[i]);
        assert(segs[i].is_prefix_of(p)) by {
            assert(p.subrange(0, segs[i].len() as int) =~= segs[i]);
        }
        let stepped = wisp_detect(WispModel::Const(segs[i]), s);
        assert(forward_pos(segs, i, segs[i].len() as int) == (i + 1, 0int) || (i + 1 == segs.len()
            && forward_pos(segs, i, segs[i].len() as int) == (segs.len() as int, 0int))) by {
            assert(forward_pos(segs, i, segs[i].len() as int) == forward_pos(segs, i + 1, 0));
        }
        let s1 = StateModel { row: i + 1, col: 0, ..s };
        assert(stepped == (true, s1));
        lemma_const_wisps_advance(segs, i + 1, s1, s0);
    }
}

/// A path template made only of literals and separators, compiled and then
/// matched against a cursor over exactly its own segments, matches: the
/// whole path is consumed and no parameter is captured, whatever captures
/// and trailing-separator flag the cursor arrived with.  `PathFilter::new`
/// supplies the wisps hypothesis for any such template, and
/// `PathState::new` supplies such a cursor for any escape-free path spelt
/// like the template.
pub proof fn lemma_literal_template_matches(
    f: PathFilter,
    template: Seq<char>,
    params: Map<Seq<char>, Seq<char>>,
    end_slash: bool,
)
    requires
        lit_only(template),
        f.wisps() == const_models(split_segments(template)),
    ensures
        ({
            let segs = split_segments(template);
            let s0 = StateModel { parts: segs, row: 0, col: 0, params, end_slash };
            comb_detect(f.wisps(), 0, s0, s0) == (
                true,
                StateModel { row: segs.len() as int, ..s0 },
            )
        }),
{
    let segs = split_segments(template);
    let s0 = StateModel { parts: segs, row: 0, col: 0, params, end_slash };
    lemma_split_segments_nonempty(template);
    lemma_const_wisps_advance(segs, 0, s0, s0);
}

/// A route filtering on a literal-only template, holding a handler and
/// nothing else, matches a cursor standing at the start of exactly that
/// template's segments: the handler comes back with no middleware, the
/// path is wholly consumed, and the captures are left as they arrived.
pub proof fn lemma_literal_route_matches<H>(
    rt: Router<H>,
    f: PathFilter,
    template: Seq<char>,
    req: Request,
    params: Map<Seq<char>, Seq<char>>,
    end_slash: bool,
)
    requires
        lit_only(template),
        f.wisps() == const_models(split_segments(template)),
        rt.filters@ == seq![FilterKind::Path(f)],
        rt.routers@ == Seq::<Router<H>>::empty(),
        rt.hoops@ == Seq::<H>::empty(),
        rt.handler is Some,
    ensures
        ({
            let segs = split_segments(template);
            let s0 = StateModel { parts: segs, row: 0, col: 0, params, end_slash };
            router_detect(rt, req, s0) == (
                Some((Seq::<H>::empty(), rt.handler.unwrap())),
                StateModel { row: segs.len() as int, ..s0 },
            )
        }),
{
    let segs = split_segments(template);
    let s0 = StateModel { parts: segs, row: 0, col: 0, params, end_slash };
    let s1 = StateModel { row: segs.len() as int, ..s0 };
    lemma_literal_template_matches(f, template, params, end_slash);
    assert(rt.filters@[0] == FilterKind::Path(f));
    assert(filters_decide(rt.filters@, 1, req, s1) == (true, s1));
    assert(filters_decide(rt.filters@, 0, req, s0) == (true, s1));
    assert(children_detect(rt.routers@, 0, req, s1) == (None::<(Seq<H>, H)>, s1));
    assert(ended_of(s1));
}

/// A plain `<name>` capture never binds an empty string, and what it binds
/// under its name is its own capture, whatever the cursor held there
/// before; it fails outright when nothing can be picked.
pub proof fn lemma_name_capture_nonempty(name: Seq<char>, s: StateModel)
    requires
        state_wf(s),
        !name_is_star(name),
    ensures
        ({
            let r = wisp_detect(WispModel::Name(name), s);
            &&& (r.0 ==> r.1.params.contains_key(name) && r.1.params[name].len() > 0)
            &&& (r.0 ==> r.1.params[name] == pick_of(s).unwrap())
            &&& (pick_of(s) is None ==> !r.0)
        }),
{
    if pick_of(s) is Some {
        let p = pick_of(s).unwrap();
        if s.col >= s.parts[s.row].len() {
            assert(p.len() > 0);
        } else {
            assert(p.len() == s.parts[s.row].len() - s.col);
        }
    }
}

/// With nothing left of the path, a double-star wildcard still matches —
/// binding the empty rest — while a single-star wildcard fails.
pub proof fn lemma_star_rest_empty(star: Seq<char>, double: Seq<char>, s: StateModel)
    requires
        name_is_star(star),
        !name_is_double_star(star),
        name_is_double_star(double),
        rest_of(s) is None || rest_of(s).unwrap().len() == 0,
    ensures
        !wisp_detect(WispModel::Name(star), s).0,
        wisp_detect(WispModel::Name(double), s).0,
        wisp_detect(WispModel::Name(double), s).1.params[double] == Seq::<char>::empty(),
{
    if rest_of(s) is Some {
        assert(rest_of(s).unwrap() =~= Seq::<char>::empty());
    }
}

/// Backtracking: when a more specific sibling fails somewhere below, the
/// sibling declared after it is tried on a cursor whose position — though
/// not its captures — is restored, and its match is the pair's match.
pub proof fn lemma_backtrack_second_sibling<H>(
    a: Router<H>,
    b: Router<H>,
    req: Request,
    s: StateModel,
)
    requires
        router_detect(a, req, s).0 is None,
    ensures
        ({
            let restored = StateModel { row: s.row, col: s.col, ..router_detect(a, req, s).1 };
            router_detect(b, req, restored).0 is Some ==> children_detect(
                seq![a, b],
                0,
                req,
                s,
            ) == router_detect(b, req, restored)
        }),
{
    let rs = seq![a, b];
    assert(rs[0] == a);
    assert(rs[1] == b);
    let restored = StateModel { row: s.row, col: s.col, ..router_detect(a, req, s).1 };
    if router_detect(b, req, restored).0 is Some {
        assert(children_detect(rs, 0, req, s) == children_detect(rs, 1, req, restored));
        assert(children_detect(rs, 1, req, restored) == router_detect(b, req, restored));
    }
}

/// Declaration order decides precedence: of two siblings that could both
/// match, the one declared first wins.
pub proof fn lemma_declaration_order<H>(a: Router<H>, b: Router<H>, req: Request, s: StateModel)
    requires
        router_detect(a, req, s).0 is Some,
    ensures
        children_detect(seq![a, b], 0, req, s) == router_detect(a, req, s),
{
    let rs = seq![a, b];
    assert(rs[0] == a);
}

} // verus!
