//! Properties of the engine and the extractor, proved once and for
//! all: the event stream of every successful parse is well nested with
//! ordered offsets, every extracted value is the exact substring of a
//! start/end pair of its rule, and parsing is deterministic.

use vstd::prelude::*;

use crate::engine::ParseError;
use crate::extract::ParsedFields;
use crate::extract::parse_prefix_post;
use crate::extract::sp_extract;
use crate::extract::sp_extract_from;
use crate::grammar::Ev;
use crate::grammar::Expected;
use crate::grammar::Rule;
use crate::grammar::SpResult;
use crate::grammar::digit_len;
use crate::grammar::ident_end;
use crate::grammar::ident_len;
use crate::grammar::lit_matched;
use crate::grammar::sp_dataset;
use crate::grammar::sp_exts;
use crate::grammar::sp_filename;
use crate::grammar::sp_images_tail;
use crate::grammar::sp_key;
use crate::grammar::sp_lit;
use crate::grammar::sp_name_seg;
use crate::grammar::sp_tail;
use crate::grammar::sp_workspace;
use crate::grammar::sp_workspace_tail;
use crate::grammar::sp_wtail;

verus! {

/// Replays an event stream against a stack of open rule invocations.
/// A start event pushes its rule and offset; an end event is legal
/// only if the top of the stack holds the same rule with an offset not
/// beyond its own, and pops it.  `None` means the stream violated that
/// discipline.
pub open spec fn stack_run(evs: Seq<Ev>, st: Seq<(Rule, int)>) -> Option<Seq<(Rule, int)>>
    decreases evs.len(),
{
    if evs.len() == 0 {
        Option::Some(st)
    } else {
        match evs[0] {
            Ev::Start { rule, pos } => stack_run(evs.skip(1), st.push((rule, pos))),
            Ev::End { rule, pos } => {
                if st.len() > 0 && st.last().0 == rule && st.last().1 <= pos {
                    stack_run(evs.skip(1), st.drop_last())
                } else {
                    Option::None
                }
            },
        }
    }
}

/// A stream is well nested when replaying it from the empty stack
/// succeeds and closes every invocation: every end event meets a
/// matching unmatched start of its own rule, at an offset less than or
/// equal to its own.
pub open spec fn well_nested(evs: Seq<Ev>) -> bool {
    stack_run(evs, Seq::empty()) == Option::Some(Seq::<(Rule, int)>::empty())
}

/// A stream is balanced when replaying it leaves any stack exactly as
/// it was.
pub open spec fn balanced(evs: Seq<Ev>) -> bool {
    forall|st: Seq<(Rule, int)>| #[trigger] stack_run(evs, st) == Option::Some(st)
}

proof fn lemma_stack_run_concat(a: Seq<Ev>, b: Seq<Ev>, st: Seq<(Rule, int)>)
    ensures
        stack_run(a + b, st) == (match stack_run(a, st) {
            Option::Some(st2) => stack_run(b, st2),
            Option::None => Option::<Seq<(Rule, int)>>::None,
        }),
    decreases a.len(),
{
    if a.len() == 0 {
        assert(a + b =~= b);
    } else {
        assert((a + b)[0] == a[0]);
        assert((a + b).skip(1) =~= a.skip(1) + b);
        match a[0] {
            Ev::Start { rule, pos } => {
                lemma_stack_run_concat(a.skip(1), b, st.push((rule, pos)));
            },
            Ev::End { rule, pos } => {
                if st.len() > 0 && st.last().0 == rule && st.last().1 <= pos {
                    lemma_stack_run_concat(a.skip(1), b, st.drop_last());
                }
            },
        }
    }
}

proof fn lemma_balanced_concat(a: Seq<Ev>, b: Seq<Ev>)
    requires
        balanced(a),
        balanced(b),
    ensures
        balanced(a + b),
{
    assert forall|st: Seq<(Rule, int)>| #[trigger] stack_run(a + b, st) == Option::Some(st) by {
        lemma_stack_run_concat(a, b, st);
    }
}

proof fn lemma_balanced_empty()
    ensures
        balanced(Seq::<Ev>::empty()),
{
}

/// A single start/end pair with ordered offsets is balanced.
proof fn lemma_pair_balanced(rule: Rule, p: int, q: int)
    requires
        p <= q,
    ensures
        balanced(seq![Ev::Start { rule, pos: p }, Ev::End { rule, pos: q }]),
{
    let evs = seq![Ev::Start { rule, pos: p }, Ev::End { rule, pos: q }];
    let e_end = seq![Ev::End { rule, pos: q }];
    assert forall|st: Seq<(Rule, int)>| #[trigger] stack_run(evs, st) == Option::Some(st) by {
        let st1 = st.push((rule, p));
        assert(evs[0] == Ev::Start { rule, pos: p });
        assert(evs.skip(1) =~= e_end);
        assert(stack_run(evs, st) == stack_run(e_end, st1));
        assert(e_end[0] == Ev::End { rule, pos: q });
        assert(st1.len() > 0 && st1.last() == (rule, p));
        assert(e_end.skip(1) =~= Seq::<Ev>::empty());
        assert(st1.drop_last() =~= st);
        assert(stack_run(e_end, st1) == stack_run(Seq::<Ev>::empty(), st));
        assert(stack_run(Seq::<Ev>::empty(), st) == Option::Some(st));
    }
}

/// A balanced stream wrapped in a start/end pair with ordered offsets
/// is balanced.
proof fn lemma_wrap_balanced(rule: Rule, p: int, q: int, inner: Seq<Ev>)
    requires
        p <= q,
        balanced(inner),
    ensures
        balanced(seq![Ev::Start { rule, pos: p }] + inner + seq![Ev::End { rule, pos: q }]),
{
    let sv = seq![Ev::Start { rule, pos: p }];
    let ev = seq![Ev::End { rule, pos: q }];
    assert forall|st: Seq<(Rule, int)>| #[trigger] stack_run(sv + inner + ev, st)
        == Option::Some(st) by {
        let st1 = st.push((rule, p));
        assert(sv[0] == Ev::Start { rule, pos: p });
        assert(sv.skip(1) =~= Seq::<Ev>::empty());
        assert(stack_run(sv, st) == stack_run(Seq::<Ev>::empty(), st1));
        assert(stack_run(sv, st) == Option::Some(st1));
        lemma_stack_run_concat(sv, inner, st);
        assert(stack_run(sv + inner, st) == stack_run(inner, st1));
        lemma_stack_run_concat(sv + inner, ev, st);
        assert(ev[0] == Ev::End { rule, pos: q });
        assert(st1.len() > 0 && st1.last() == (rule, p));
        assert(ev.skip(1) =~= Seq::<Ev>::empty());
        assert(st1.drop_last() =~= st);
        assert(stack_run(ev, st1) == stack_run(Seq::<Ev>::empty(), st));
        assert(stack_run(ev, st1) == Option::Some(st));
    }
}

pub(crate) proof fn lemma_ident_len_le(s: Seq<char>, pos: int)
    requires
        0 <= pos <= s.len(),
    ensures
        pos <= ident_end(s, pos) <= s.len(),
    decreases s.len() - pos,
{
    if pos < s.len() && crate::grammar::is_ident_char(s[pos]) {
        lemma_ident_len_le(s, pos + 1);
    }
}

pub(crate) proof fn lemma_digit_len_le(s: Seq<char>, pos: int)
    requires
        0 <= pos <= s.len(),
    ensures
        digit_len(s, pos) <= s.len() - pos,
    decreases s.len() - pos,
{
    if pos < s.len() && crate::grammar::is_digit(s[pos]) {
        lemma_digit_len_le(s, pos + 1);
    }
}

pub(crate) proof fn lemma_lit_matched_le(s: Seq<char>, pos: int, lit: Seq<char>)
    requires
        0 <= pos <= s.len(),
    ensures
        lit_matched(s, pos, lit) <= lit.len(),
        pos + lit_matched(s, pos, lit) <= s.len(),
    decreases lit.len(),
{
    if lit.len() > 0 && pos < s.len() && s[pos] == lit[0] {
        lemma_lit_matched_le(s, pos + 1, lit.skip(1));
    }
}

/// Well-formedness of one matching or failing outcome: a match ends
/// between its start and the end of the input and its events are
/// balanced; a failure lies between its start and the end of the
/// input.
pub open spec fn wf_outcome(r: SpResult, pos: int, n: int) -> bool {
    match r {
        SpResult::Match { end, evs } => pos <= end <= n && balanced(evs),
        SpResult::Fail { at, .. } => pos <= at <= n,
    }
}

pub(crate) proof fn lemma_wf_lit(s: Seq<char>, pos: int, lit: Seq<char>, exp: Expected)
    requires
        0 <= pos <= s.len(),
    ensures
        wf_outcome(sp_lit(s, pos, lit, exp), pos, s.len() as int),
{
    lemma_lit_matched_le(s, pos, lit);
    lemma_balanced_empty();
}

pub(crate) proof fn lemma_wf_name_seg(s: Seq<char>, pos: int, rule: Rule)
    requires
        0 <= pos <= s.len(),
    ensures
        wf_outcome(sp_name_seg(s, pos, rule), pos, s.len() as int),
{
    lemma_ident_len_le(s, pos);
    let e = ident_end(s, pos);
    if e > pos {
        lemma_pair_balanced(rule, pos, e);
    }
}

pub(crate) proof fn lemma_wf_dataset(s: Seq<char>, pos: int)
    requires
        0 <= pos <= s.len(),
    ensures
        wf_outcome(sp_dataset(s, pos), pos, s.len() as int),
{
    lemma_wf_lit(s, pos, crate::grammar::cpg_lit(), Expected::LitCpg);
    match sp_lit(s, pos, crate::grammar::cpg_lit(), Expected::LitCpg) {
        SpResult::Fail { .. } => {},
        SpResult::Match { end: p1, .. } => {
            lemma_digit_len_le(s, p1);
            let d = crate::grammar::digits_end(s, p1);
            if d != p1 && d < s.len() && s[d] == '-' {
                lemma_ident_len_le(s, d + 1);
                let e = ident_end(s, d + 1);
                if e != d + 1 {
                    lemma_pair_balanced(Rule::Dataset, pos, e);
                }
            }
        },
    }
}

pub(crate) proof fn lemma_wf_workspace(s: Seq<char>, pos: int)
    requires
        0 <= pos <= s.len(),
    ensures
        wf_outcome(sp_workspace(s, pos), pos, s.len() as int),
{
    lemma_wf_lit(s, pos, crate::grammar::workspace_lit(), Expected::LitWorkspace);
    match sp_lit(s, pos, crate::grammar::workspace_lit(), Expected::LitWorkspace) {
        SpResult::Fail { .. } => {},
        SpResult::Match { end, .. } => {
            lemma_pair_balanced(Rule::Workspace, pos, end);
        },
    }
}

pub(crate) proof fn lemma_wf_exts(s: Seq<char>, pos: int)
    requires
        0 <= pos <= s.len(),
    ensures
        wf_outcome(sp_exts(s, pos), pos, s.len() as int),
    decreases s.len() - pos,
{
    lemma_balanced_empty();
    if pos < s.len() && s[pos] == '.' {
        lemma_ident_len_le(s, pos + 1);
        let e = ident_end(s, pos + 1);
        if e != pos + 1 && e < s.len() && s[e] == '.' {
            lemma_wf_exts(s, e);
        }
    }
}

pub(crate) proof fn lemma_wf_filename(s: Seq<char>, pos: int)
    requires
        0 <= pos <= s.len(),
    ensures
        wf_outcome(sp_filename(s, pos), pos, s.len() as int),
{
    lemma_ident_len_le(s, pos);
    let e0 = ident_end(s, pos);
    if e0 != pos {
        lemma_wf_exts(s, e0);
        match sp_exts(s, e0) {
            SpResult::Fail { .. } => {},
            SpResult::Match { end, .. } => {
                lemma_pair_balanced(Rule::Filename, pos, end);
            },
        }
    }
}

pub(crate) proof fn lemma_wf_wtail(s: Seq<char>, pos: int)
    requires
        0 <= pos <= s.len(),
    ensures
        wf_outcome(sp_wtail(s, pos), pos, s.len() as int),
    decreases s.len() - pos,
{
    lemma_ident_len_le(s, pos);
    let e1 = ident_end(s, pos);
    if e1 != pos && e1 < s.len() && s[e1] == '/' {
        lemma_wf_wtail(s, e1 + 1);
        match sp_wtail(s, e1 + 1) {
            SpResult::Match { end, evs } => {
                lemma_pair_balanced(Rule::Seg, pos, e1);
                lemma_balanced_concat(
                    seq![Ev::Start { rule: Rule::Seg, pos }, Ev::End { rule: Rule::Seg, pos: e1 }],
                    evs,
                );
            },
            SpResult::Fail { .. } => {
                lemma_wf_filename(s, e1 + 1);
                match sp_filename(s, e1 + 1) {
                    SpResult::Match { end, evs } => {
                        lemma_pair_balanced(Rule::Plate, pos, e1);
                        lemma_balanced_concat(
                            seq![
                                Ev::Start { rule: Rule::Plate, pos },
                                Ev::End { rule: Rule::Plate, pos: e1 },
                            ],
                            evs,
                        );
                    },
                    SpResult::Fail { .. } => {},
                }
            },
        }
    }
}

pub(crate) proof fn lemma_wf_images_tail(s: Seq<char>, pos: int)
    requires
        0 <= pos <= s.len(),
    ensures
        wf_outcome(sp_images_tail(s, pos), pos, s.len() as int),
{
    lemma_wf_lit(s, pos, crate::grammar::images_lit(), Expected::LitImages);
    match sp_lit(s, pos, crate::grammar::images_lit(), Expected::LitImages) {
        SpResult::Fail { .. } => {},
        SpResult::Match { end: p1, .. } => {
            if p1 < s.len() && s[p1] == '/' {
                lemma_wf_name_seg(s, p1 + 1, Rule::Batch);
                match sp_name_seg(s, p1 + 1, Rule::Batch) {
                    SpResult::Fail { .. } => {},
                    SpResult::Match { end: p2, evs: ev_b } => {
                        if p2 < s.len() && s[p2] == '/' {
                            lemma_wf_lit(s, p2 + 1, crate::grammar::illum_lit(), Expected::LitIllum);
                            match sp_lit(s, p2 + 1, crate::grammar::illum_lit(), Expected::LitIllum) {
                                SpResult::Fail { .. } => {},
                                SpResult::Match { end: p3, .. } => {
                                    if p3 < s.len() && s[p3] == '/' {
                                        lemma_wf_name_seg(s, p3 + 1, Rule::Plate);
                                        match sp_name_seg(s, p3 + 1, Rule::Plate) {
                                            SpResult::Fail { .. } => {},
                                            SpResult::Match { end: p4, evs: ev_p } => {
                                                if p4 < s.len() && s[p4] == '/' {
                                                    lemma_wf_filename(s, p4 + 1);
                                                    match sp_filename(s, p4 + 1) {
                                                        SpResult::Fail { .. } => {},
                                                        SpResult::Match { end, evs: ev_f } => {
                                                            lemma_balanced_concat(ev_b, ev_p);
                                                            lemma_balanced_concat(
                                                                ev_b + ev_p,
                                                                ev_f,
                                                            );
                                                        },
                                                    }
                                                }
                                            },
                                        }
                                    }
                                },
                            }
                        }
                    },
                }
            }
        },
    }
}

pub(crate) proof fn lemma_wf_workspace_tail(s: Seq<char>, pos: int)
    requires
        0 <= pos <= s.len(),
    ensures
        wf_outcome(sp_workspace_tail(s, pos), pos, s.len() as int),
{
    lemma_wf_workspace(s, pos);
    match sp_workspace(s, pos) {
        SpResult::Fail { .. } => {},
        SpResult::Match { end: p1, evs: ev_w } => {
            if p1 < s.len() && s[p1] == '/' {
                lemma_wf_wtail(s, p1 + 1);
                match sp_wtail(s, p1 + 1) {
                    SpResult::Fail { .. } => {},
                    SpResult::Match { end, evs } => {
                        lemma_balanced_concat(ev_w, evs);
                    },
                }
            }
        },
    }
}

pub(crate) proof fn lemma_wf_tail(s: Seq<char>, pos: int)
    requires
        0 <= pos <= s.len(),
    ensures
        wf_outcome(sp_tail(s, pos), pos, s.len() as int),
{
    lemma_wf_images_tail(s, pos);
    lemma_wf_workspace_tail(s, pos);
}

pub(crate) proof fn lemma_wf_key(s: Seq<char>)
    ensures
        wf_outcome(sp_key(s), 0, s.len() as int),
{
    lemma_wf_dataset(s, 0);
    match sp_dataset(s, 0) {
        SpResult::Fail { .. } => {},
        SpResult::Match { end: p1, evs: ev_d } => {
            if p1 < s.len() && s[p1] == '/' {
                lemma_wf_name_seg(s, p1 + 1, Rule::Source);
                match sp_name_seg(s, p1 + 1, Rule::Source) {
                    SpResult::Fail { .. } => {},
                    SpResult::Match { end: p2, evs: ev_s } => {
                        if p2 < s.len() && s[p2] == '/' {
                            lemma_wf_tail(s, p2 + 1);
                            match sp_tail(s, p2 + 1) {
                                SpResult::Fail { .. } => {},
                                SpResult::Match { end, evs: ev_t } => {
                                    if end == s.len() {
                                        lemma_balanced_concat(ev_d, ev_s);
                                        lemma_balanced_concat(ev_d + ev_s, ev_t);
                                        lemma_wrap_balanced(Rule::Key, 0, end, ev_d + ev_s + ev_t);
                                        let sv = seq![Ev::Start { rule: Rule::Key, pos: 0 }];
                                        let evr = seq![Ev::End { rule: Rule::Key, pos: end }];
                                        assert(sv + (ev_d + ev_s + ev_t) + evr =~= sv + ev_d + ev_s
                                            + ev_t + evr);
                                    }
                                },
                            }
                        }
                    },
                }
            }
        },
    }
}

/// Total-match property.  A successful parse of `s` yields a well
/// nested event stream: replaying it from the empty stack succeeds and
/// ends on the empty stack, so every end event closes an unmatched
/// start of its own rule recorded at an offset no greater than its
/// own, and the match consumed the whole input.  A failed parse
/// reports a position inside the input (or at its very end).
pub proof fn lemma_events_well_nested(s: Seq<char>)
    ensures
        match sp_key(s) {
            SpResult::Match { end, evs } => well_nested(evs) && end == s.len(),
            SpResult::Fail { at, .. } => 0 <= at <= s.len(),
        },
{
    lemma_wf_key(s);
    match sp_key(s) {
        SpResult::Match { end, evs } => {
            assert(stack_run(evs, Seq::empty()) == Option::Some(Seq::<(Rule, int)>::empty()));
        },
        SpResult::Fail { .. } => {},
    }
}

/// `val` is the exact substring of the input spanned by some start/end
/// pair of `rule` in the stream.
pub open spec fn is_span_of(s: Seq<char>, evs: Seq<Ev>, rule: Rule, val: Seq<char>) -> bool {
    exists|i: int, j: int|
        #![trigger evs[i], evs[j]]
        0 <= i < j < evs.len() && (evs[i] matches Ev::Start { rule: r1, pos: p } && r1 == rule && (
        evs[j] matches Ev::End { rule: r2, pos: q } && r2 == rule && 0 <= p <= q <= s.len() && val
            == s.subrange(p, q)))
}

proof fn lemma_extract_from_spans(
    s: Seq<char>,
    evs: Seq<Ev>,
    i: int,
    pending: Map<Rule, int>,
    out: Map<Rule, Seq<char>>,
)
    requires
        0 <= i <= evs.len(),
        forall|r: Rule| #[trigger] pending.contains_key(r) ==> exists|i0: int|
            0 <= i0 < i && evs[i0] == (Ev::Start { rule: r, pos: pending[r] }),
        forall|r: Rule| #[trigger] out.contains_key(r) ==> is_span_of(s, evs, r, out[r]),
    ensures
        forall|r: Rule| #[trigger] sp_extract_from(s, evs, i, pending, out).contains_key(r)
            ==> is_span_of(s, evs, r, sp_extract_from(s, evs, i, pending, out)[r]),
    decreases evs.len() - i,
{
    if i >= evs.len() {
        assert(sp_extract_from(s, evs, i, pending, out) == out);
    } else {
        match evs[i] {
            Ev::Start { rule, pos } => {
                let pending2 = pending.insert(rule, pos);
                assert forall|r: Rule| #[trigger] pending2.contains_key(r) implies exists|i0: int|
                    0 <= i0 < i + 1 && evs[i0] == (Ev::Start { rule: r, pos: pending2[r] }) by {
                    if r == rule {
                        assert(evs[i] == (Ev::Start { rule: r, pos: pending2[r] }));
                    } else {
                        let i0 = choose|i0: int|
                            0 <= i0 < i && evs[i0] == (Ev::Start { rule: r, pos: pending[r] });
                        assert(evs[i0] == (Ev::Start { rule: r, pos: pending2[r] }));
                    }
                }
                lemma_extract_from_spans(s, evs, i + 1, pending2, out);
                assert(sp_extract_from(s, evs, i, pending, out) == sp_extract_from(
                    s,
                    evs,
                    i + 1,
                    pending2,
                    out,
                ));
            },
            Ev::End { rule, pos } => {
                if pending.contains_key(rule) {
                    let v = pending[rule];
                    let out2 = if 0 <= v <= pos <= s.len() {
                        out.insert(rule, s.subrange(v, pos))
                    } else {
                        out
                    };
                    assert forall|r: Rule| #[trigger] out2.contains_key(r) implies is_span_of(
                        s,
                        evs,
                        r,
                        out2[r],
                    ) by {
                        if 0 <= v <= pos <= s.len() && r == rule {
                            let i0 = choose|i0: int|
                                0 <= i0 < i && evs[i0] == (Ev::Start { rule: r, pos: pending[r] });
                            assert(0 <= i0 < i < evs.len() && 0 <= v <= pos <= s.len() && evs[i0]
                                == (Ev::Start { rule: r, pos: v }) && evs[i] == (Ev::End {
                                rule: r,
                                pos,
                            }) && out2[r] == s.subrange(v, pos));
                        }
                    }
                    let pending2 = pending.remove(rule);
                    assert forall|r: Rule| #[trigger] pending2.contains_key(r) implies exists|
                        i0: int,
                    | 0 <= i0 < i + 1 && evs[i0] == (Ev::Start { rule: r, pos: pending2[r] }) by {
                        let i0 = choose|i0: int|
                            0 <= i0 < i && evs[i0] == (Ev::Start { rule: r, pos: pending[r] });
                        assert(evs[i0] == (Ev::Start { rule: r, pos: pending2[r] }));
                    }
                    lemma_extract_from_spans(s, evs, i + 1, pending2, out2);
                    assert(sp_extract_from(s, evs, i, pending, out) == sp_extract_from(
                        s,
                        evs,
                        i + 1,
                        pending2,
                        out2,
                    ));
                } else {
                    assert forall|r: Rule| #[trigger] pending.contains_key(r) implies exists|
                        i0: int,
                    | 0 <= i0 < i + 1 && evs[i0] == (Ev::Start { rule: r, pos: pending[r] }) by {
                        let i0 = choose|i0: int|
                            0 <= i0 < i && evs[i0] == (Ev::Start { rule: r, pos: pending[r] });
                        assert(evs[i0] == (Ev::Start { rule: r, pos: pending[r] }));
                    }
                    lemma_extract_from_spans(s, evs, i + 1, pending, out);
                    assert(sp_extract_from(s, evs, i, pending, out) == sp_extract_from(
                        s,
                        evs,
                        i + 1,
                        pending,
                        out,
                    ));
                }
            },
        }
    }
}

/// Round-trip property, extraction side.  Every value in the extracted
/// mapping is the exact substring `s[p..q]` spanned by a start/end
/// pair of its rule in the event stream: extraction invents nothing
/// and re-reading the recorded span reproduces the value.
pub proof fn lemma_extract_values_are_spans(s: Seq<char>, evs: Seq<Ev>)
    ensures
        forall|r: Rule| #[trigger] sp_extract(s, evs).contains_key(r) ==> is_span_of(
            s,
            evs,
            r,
            sp_extract(s, evs)[r],
        ),
{
    lemma_extract_from_spans(s, evs, 0, Map::empty(), Map::empty());
}

/// Success is owed exactly to the inputs the grammar accepts: a
/// result bound by the contract of `parse_prefix` is `Ok` if and only
/// if the root rule matches the whole input.
pub proof fn lemma_success_iff_grammar_match(s: Seq<char>, r: Result<ParsedFields, ParseError>)
    requires
        parse_prefix_post(s, r),
    ensures
        r is Ok <==> crate::grammar::key_matches(s),
{
}

/// Round-trip property, parse side.  The fields of a successful parse
/// are exactly substrings of the input, each spanned by a start/end
/// pair of its rule in the event stream of the match.
pub proof fn lemma_parsed_fields_are_spans(s: Seq<char>, m: ParsedFields)
    requires
        parse_prefix_post(s, Ok(m)),
    ensures
        (sp_key(s) matches SpResult::Match { evs, .. } && forall|r: Rule|
            m@.contains_key(r) ==> is_span_of(s, evs, r, m@[r])),
{
    match sp_key(s) {
        SpResult::Match { evs, .. } => {
            lemma_extract_values_are_spans(s, evs);
        },
        SpResult::Fail { .. } => {},
    }
}

/// Two parse outcomes for the same input carry the same information.
pub open spec fn same_outcome(
    r1: Result<ParsedFields, ParseError>,
    r2: Result<ParsedFields, ParseError>,
) -> bool {
    match r1 {
        Ok(a) => match r2 {
            Ok(b) => a@ == b@,
            Err(_) => false,
        },
        Err(a) => match r2 {
            Ok(_) => false,
            Err(b) => a.pos == b.pos && a.expected@ == b.expected@,
        },
    }
}

/// Determinism.  The contract of `parse_prefix` pins its outcome as a
/// function of the input alone, so any two calls on the same input
/// (from any threads: the grammar is immutable and the parser shares
/// no state) agree on success, on the extracted mapping, and on the
/// error's position and expected constructs.
pub proof fn lemma_parse_prefix_deterministic(
    s: Seq<char>,
    r1: Result<ParsedFields, ParseError>,
    r2: Result<ParsedFields, ParseError>,
)
    requires
        parse_prefix_post(s, r1),
        parse_prefix_post(s, r2),
    ensures
        same_outcome(r1, r2),
{
}

} // verus!
