//! Failure locality: parsing a truncated input.
//!
//! The lemmas here compare a parse of `s` with a parse of an extension
//! `s + ext` of it, rule by rule.  Their common shape: where the
//! extended parse of a rule decided — matched or failed — strictly
//! before the end of `s`, the parse of `s` decides identically; where
//! it reached the end of `s` or beyond, the parse of `s` reaches
//! exactly the end of `s`.  For the root rule this yields the locality
//! property: an input that some extension completes into a valid key,
//! but which is not itself one, is rejected exactly at its own length.

use vstd::prelude::*;

use crate::grammar::Expected;
use crate::grammar::Rule;
use crate::grammar::SpResult;
use crate::grammar::digits_end;
use crate::grammar::ident_end;
use crate::grammar::is_digit;
use crate::grammar::is_ident_char;
use crate::grammar::key_matches;
use crate::grammar::lit_matched;
use crate::grammar::sp_dataset;
use crate::grammar::sp_exts;
use crate::grammar::sp_filename;
use crate::grammar::sp_images_tail;
use crate::grammar::sp_key;
use crate::grammar::sp_lit;
use crate::grammar::sp_name_seg;
use crate::grammar::sp_tail;
use crate::grammar::sp_workspace;
use crate::grammar::sp_workspace_tail;
use crate::grammar::sp_wtail;
use crate::laws::lemma_digit_len_le;
use crate::laws::lemma_ident_len_le;
use crate::laws::lemma_lit_matched_le;
use crate::laws::lemma_wf_dataset;
use crate::laws::lemma_wf_exts;
use crate::laws::lemma_wf_filename;
use crate::laws::lemma_wf_images_tail;
use crate::laws::lemma_wf_key;
use crate::laws::lemma_wf_lit;
use crate::laws::lemma_wf_name_seg;
use crate::laws::lemma_wf_tail;
use crate::laws::lemma_wf_workspace_tail;
use crate::laws::lemma_wf_wtail;

verus! {

/// The position at which an outcome decided: the end of a match, the
/// reported position of a failure.
pub open spec fn reach(r: SpResult) -> int {
    match r {
        SpResult::Match { end, .. } => end,
        SpResult::Fail { at, .. } => at,
    }
}

/// How the parse `rs` of a prefix cut at `b` relates to the parse `rt`
/// of the full input: decided before `b` on the full input, the two
/// agree exactly; otherwise the prefix parse reaches exactly `b`.
pub open spec fn loc_ok(rs: SpResult, rt: SpResult, b: int) -> bool {
    if reach(rt) < b {
        rs == rt
    } else {
        reach(rs) == b
    }
}

proof fn lemma_loc_ident(s: Seq<char>, ext: Seq<char>, pos: int)
    requires
        0 <= pos <= s.len(),
    ensures
        (if ident_end(s + ext, pos) < s.len() {
            ident_end(s, pos) == ident_end(s + ext, pos)
        } else {
            ident_end(s, pos) == s.len()
        }),
    decreases s.len() - pos,
{
    let t = s + ext;
    if pos < s.len() {
        assert(t[pos] == s[pos]);
        if is_ident_char(s[pos]) {
            lemma_loc_ident(s, ext, pos + 1);
        }
    }
}

proof fn lemma_loc_digits(s: Seq<char>, ext: Seq<char>, pos: int)
    requires
        0 <= pos <= s.len(),
    ensures
        (if digits_end(s + ext, pos) < s.len() {
            digits_end(s, pos) == digits_end(s + ext, pos)
        } else {
            digits_end(s, pos) == s.len()
        }),
    decreases s.len() - pos,
{
    let t = s + ext;
    if pos < s.len() {
        assert(t[pos] == s[pos]);
        if is_digit(s[pos]) {
            lemma_loc_digits(s, ext, pos + 1);
        }
    }
}

proof fn lemma_loc_lit_matched(s: Seq<char>, ext: Seq<char>, pos: int, lit: Seq<char>)
    requires
        0 <= pos <= s.len(),
    ensures
        (if pos + lit_matched(s + ext, pos, lit) < s.len() {
            lit_matched(s, pos, lit) == lit_matched(s + ext, pos, lit)
        } else {
            lit_matched(s, pos, lit) == s.len() - pos
        }),
    decreases lit.len(),
{
    let t = s + ext;
    if lit.len() > 0 && pos < s.len() {
        assert(t[pos] == s[pos]);
        if s[pos] == lit[0] {
            lemma_loc_lit_matched(s, ext, pos + 1, lit.skip(1));
        }
    }
}

proof fn lemma_loc_lit(s: Seq<char>, ext: Seq<char>, pos: int, lit: Seq<char>, exp: Expected)
    requires
        0 <= pos <= s.len(),
        lit.len() > 0,
    ensures
        loc_ok(sp_lit(s, pos, lit, exp), sp_lit(s + ext, pos, lit, exp), s.len() as int),
{
    let t = s + ext;
    lemma_loc_lit_matched(s, ext, pos, lit);
    lemma_lit_matched_le(s, pos, lit);
    lemma_lit_matched_le(t, pos, lit);
}

proof fn lemma_loc_name_seg(s: Seq<char>, ext: Seq<char>, pos: int, rule: Rule)
    requires
        0 <= pos <= s.len(),
    ensures
        loc_ok(sp_name_seg(s, pos, rule), sp_name_seg(s + ext, pos, rule), s.len() as int),
{
    let t = s + ext;
    lemma_loc_ident(s, ext, pos);
    lemma_ident_len_le(s, pos);
    lemma_ident_len_le(t, pos);
}

proof fn lemma_loc_workspace(s: Seq<char>, ext: Seq<char>, pos: int)
    requires
        0 <= pos <= s.len(),
    ensures
        loc_ok(sp_workspace(s, pos), sp_workspace(s + ext, pos), s.len() as int),
{
    lemma_loc_lit(s, ext, pos, crate::grammar::workspace_lit(), Expected::LitWorkspace);
}

proof fn lemma_loc_dataset(s: Seq<char>, ext: Seq<char>, pos: int)
    requires
        0 <= pos <= s.len(),
    ensures
        loc_ok(sp_dataset(s, pos), sp_dataset(s + ext, pos), s.len() as int),
{
    let t = s + ext;
    let lit = crate::grammar::cpg_lit();
    lemma_loc_lit(s, ext, pos, lit, Expected::LitCpg);
    match sp_lit(t, pos, lit, Expected::LitCpg) {
        SpResult::Fail { .. } => {},
        SpResult::Match { end: p1, .. } => {
            if p1 < s.len() {
                // The literal decided before the cut, so both sides
                // continue from the same position.
                lemma_loc_digits(s, ext, p1);
                lemma_digit_len_le(s, p1);
                lemma_digit_len_le(t, p1);
                let d = digits_end(t, p1);
                if digits_end(s, p1) == d && d < s.len() {
                    assert(t[d] == s[d]);
                    if s[d] == '-' {
                        lemma_loc_ident(s, ext, d + 1);
                        lemma_ident_len_le(s, d + 1);
                        lemma_ident_len_le(t, d + 1);
                    }
                }
            }
        },
    }
}

proof fn lemma_loc_exts(s: Seq<char>, ext: Seq<char>, pos: int)
    requires
        0 <= pos <= s.len(),
    ensures
        loc_ok(sp_exts(s, pos), sp_exts(s + ext, pos), s.len() as int),
    decreases s.len() - pos,
{
    let t = s + ext;
    lemma_wf_exts(t, pos);
    if pos < s.len() {
        assert(t[pos] == s[pos]);
        if s[pos] == '.' {
            lemma_loc_ident(s, ext, pos + 1);
            lemma_ident_len_le(s, pos + 1);
            lemma_ident_len_le(t, pos + 1);
            let et = ident_end(t, pos + 1);
            let es = ident_end(s, pos + 1);
            if et < s.len() {
                if et != pos + 1 && t[et] == '.' {
                    assert(t[et] == s[et]);
                    lemma_loc_exts(s, ext, et);
                }
            } else {
                // The scan on `s` runs to its end; there no dot can
                // follow, so `s`'s side decides at the cut, while the
                // extended side goes on at or beyond it.
                if et != pos + 1 && et < t.len() && t[et] == '.' {
                    lemma_wf_exts(t, et);
                }
            }
        }
    }
}

proof fn lemma_loc_filename(s: Seq<char>, ext: Seq<char>, pos: int)
    requires
        0 <= pos <= s.len(),
    ensures
        loc_ok(sp_filename(s, pos), sp_filename(s + ext, pos), s.len() as int),
{
    let t = s + ext;
    lemma_wf_filename(t, pos);
    lemma_loc_ident(s, ext, pos);
    lemma_ident_len_le(s, pos);
    lemma_ident_len_le(t, pos);
    let e0t = ident_end(t, pos);
    let e0s = ident_end(s, pos);
    if e0t < s.len() {
        if e0t != pos {
            lemma_loc_exts(s, ext, e0t);
            lemma_wf_exts(s, e0t);
        }
    } else {
        // e0s == s.len(): on `s` the extension part, if entered at
        // all, is asked for at the cut and fails there, while the
        // extended side goes on at or beyond the cut.
        if e0t != pos {
            lemma_wf_exts(t, e0t);
        }
        if e0s != pos {
            lemma_wf_exts(s, e0s);
        }
    }
}

proof fn lemma_loc_wtail(s: Seq<char>, ext: Seq<char>, pos: int)
    requires
        0 <= pos <= s.len(),
    ensures
        loc_ok(sp_wtail(s, pos), sp_wtail(s + ext, pos), s.len() as int),
    decreases s.len() - pos,
{
    let t = s + ext;
    let b = s.len() as int;
    lemma_loc_ident(s, ext, pos);
    lemma_ident_len_le(s, pos);
    lemma_ident_len_le(t, pos);
    let e1t = ident_end(t, pos);
    let e1s = ident_end(s, pos);
    if e1t != pos && e1t < b {
        // The first segment and the separator test lie before the cut
        // and agree on both sides.
        assert(s[e1t] == t[e1t]);
        if t[e1t] == '/' {
            lemma_loc_wtail(s, ext, e1t + 1);
            lemma_loc_filename(s, ext, e1t + 1);
            lemma_wf_wtail(t, e1t + 1);
            lemma_wf_filename(t, e1t + 1);
            lemma_wf_wtail(s, e1t + 1);
            lemma_wf_filename(s, e1t + 1);
            lemma_ident_len_le(t, e1t + 1);
            lemma_ident_len_le(s, e1t + 1);
            let d0t = ident_end(t, e1t + 1);
            if d0t != e1t + 1 && d0t < t.len() && t[d0t] == '.' {
                lemma_wf_exts(t, d0t);
            }
            let d0s = ident_end(s, e1t + 1);
            if d0s != e1t + 1 && d0s < s.len() && s[d0s] == '.' {
                lemma_wf_exts(s, d0s);
            }
        }
    } else if e1t != pos {
        // The scan of the extended input crosses the cut, so the scan
        // of `s` runs exactly to the cut and `s` decides there.
        if e1t < t.len() && t[e1t] == '/' {
            lemma_wf_wtail(t, e1t + 1);
            lemma_wf_filename(t, e1t + 1);
        }
    }
}

proof fn lemma_loc_images_tail(s: Seq<char>, ext: Seq<char>, pos: int)
    requires
        0 <= pos <= s.len(),
    ensures
        loc_ok(sp_images_tail(s, pos), sp_images_tail(s + ext, pos), s.len() as int),
{
    let t = s + ext;
    let b = s.len() as int;
    let lit_i = crate::grammar::images_lit();
    let lit_l = crate::grammar::illum_lit();
    lemma_loc_lit(s, ext, pos, lit_i, Expected::LitImages);
    lemma_lit_matched_le(t, pos, lit_i);
    match sp_lit(t, pos, lit_i, Expected::LitImages) {
        SpResult::Fail { .. } => {},
        SpResult::Match { end: p1, .. } => {
            if p1 < b {
                assert(s[p1] == t[p1]);
                if t[p1] == '/' {
                    lemma_loc_name_seg(s, ext, p1 + 1, Rule::Batch);
                    lemma_ident_len_le(t, p1 + 1);
                    match sp_name_seg(t, p1 + 1, Rule::Batch) {
                        SpResult::Fail { .. } => {},
                        SpResult::Match { end: p2, .. } => {
                            if p2 < b {
                                assert(s[p2] == t[p2]);
                                if t[p2] == '/' {
                                    lemma_loc_lit(s, ext, p2 + 1, lit_l, Expected::LitIllum);
                                    lemma_lit_matched_le(t, p2 + 1, lit_l);
                                    match sp_lit(t, p2 + 1, lit_l, Expected::LitIllum) {
                                        SpResult::Fail { .. } => {},
                                        SpResult::Match { end: p3, .. } => {
                                            if p3 < b {
                                                assert(s[p3] == t[p3]);
                                                if t[p3] == '/' {
                                                    lemma_loc_name_seg(
                                                        s,
                                                        ext,
                                                        p3 + 1,
                                                        Rule::Plate,
                                                    );
                                                    lemma_ident_len_le(t, p3 + 1);
                                                    match sp_name_seg(t, p3 + 1, Rule::Plate) {
                                                        SpResult::Fail { .. } => {},
                                                        SpResult::Match { end: p4, .. } => {
                                                            if p4 < b {
                                                                assert(s[p4] == t[p4]);
                                                                if t[p4] == '/' {
                                                                    lemma_loc_filename(
                                                                        s,
                                                                        ext,
                                                                        p4 + 1,
                                                                    );
                                                                    lemma_wf_filename(t, p4 + 1);
                                                                }
                                                            } else {
                                                                if p4 < t.len() && t[p4] == '/' {
                                                                    lemma_wf_filename(t, p4 + 1);
                                                                }
                                                            }
                                                        },
                                                    }
                                                }
                                            } else {
                                                if p3 < t.len() && t[p3] == '/' {
                                                    lemma_wf_name_seg(t, p3 + 1, Rule::Plate);
                                                    match sp_name_seg(t, p3 + 1, Rule::Plate) {
                                                        SpResult::Fail { .. } => {},
                                                        SpResult::Match { end: p4, .. } => {
                                                            if p4 < t.len() && t[p4] == '/' {
                                                                lemma_wf_filename(t, p4 + 1);
                                                            }
                                                        },
                                                    }
                                                }
                                            }
                                        },
                                    }
                                }
                            } else {
                                if p2 < t.len() && t[p2] == '/' {
                                    lemma_wf_lit(t, p2 + 1, lit_l, Expected::LitIllum);
                                    match sp_lit(t, p2 + 1, lit_l, Expected::LitIllum) {
                                        SpResult::Fail { .. } => {},
                                        SpResult::Match { end: p3, .. } => {
                                            if p3 < t.len() && t[p3] == '/' {
                                                lemma_wf_name_seg(t, p3 + 1, Rule::Plate);
                                                match sp_name_seg(t, p3 + 1, Rule::Plate) {
                                                    SpResult::Fail { .. } => {},
                                                    SpResult::Match { end: p4, .. } => {
                                                        if p4 < t.len() && t[p4] == '/' {
                                                            lemma_wf_filename(t, p4 + 1);
                                                        }
                                                    },
                                                }
                                            }
                                        },
                                    }
                                }
                            }
                        },
                    }
                }
            } else {
                if p1 < t.len() && t[p1] == '/' {
                    lemma_wf_name_seg(t, p1 + 1, Rule::Batch);
                    match sp_name_seg(t, p1 + 1, Rule::Batch) {
                        SpResult::Fail { .. } => {},
                        SpResult::Match { end: p2, .. } => {
                            if p2 < t.len() && t[p2] == '/' {
                                lemma_wf_lit(t, p2 + 1, lit_l, Expected::LitIllum);
                                match sp_lit(t, p2 + 1, lit_l, Expected::LitIllum) {
                                    SpResult::Fail { .. } => {},
                                    SpResult::Match { end: p3, .. } => {
                                        if p3 < t.len() && t[p3] == '/' {
                                            lemma_wf_name_seg(t, p3 + 1, Rule::Plate);
                                            match sp_name_seg(t, p3 + 1, Rule::Plate) {
                                                SpResult::Fail { .. } => {},
                                                SpResult::Match { end: p4, .. } => {
                                                    if p4 < t.len() && t[p4] == '/' {
                                                        lemma_wf_filename(t, p4 + 1);
                                                    }
                                                },
                                            }
                                        }
                                    },
                                }
                            }
                        },
                    }
                }
            }
        },
    }
}

proof fn lemma_loc_workspace_tail(s: Seq<char>, ext: Seq<char>, pos: int)
    requires
        0 <= pos <= s.len(),
    ensures
        loc_ok(sp_workspace_tail(s, pos), sp_workspace_tail(s + ext, pos), s.len() as int),
{
    let t = s + ext;
    let b = s.len() as int;
    lemma_loc_workspace(s, ext, pos);
    lemma_lit_matched_le(t, pos, crate::grammar::workspace_lit());
    match sp_workspace(t, pos) {
        SpResult::Fail { .. } => {},
        SpResult::Match { end: p1, .. } => {
            if p1 < b {
                assert(s[p1] == t[p1]);
                if t[p1] == '/' {
                    lemma_loc_wtail(s, ext, p1 + 1);
                    lemma_wf_wtail(t, p1 + 1);
                }
            } else {
                if p1 < t.len() && t[p1] == '/' {
                    lemma_wf_wtail(t, p1 + 1);
                }
            }
        },
    }
}

proof fn lemma_loc_tail(s: Seq<char>, ext: Seq<char>, pos: int)
    requires
        0 <= pos <= s.len(),
    ensures
        loc_ok(sp_tail(s, pos), sp_tail(s + ext, pos), s.len() as int),
{
    let t = s + ext;
    let b = s.len() as int;
    lemma_loc_images_tail(s, ext, pos);
    lemma_loc_workspace_tail(s, ext, pos);
    lemma_wf_images_tail(s, pos);
    lemma_wf_images_tail(t, pos);
    lemma_wf_workspace_tail(s, pos);
    lemma_wf_workspace_tail(t, pos);
    // The two branches open with different literals, so whenever one
    // matches on the extended input, the other fails on `s` — at `pos`
    // itself if `pos` lies before the cut, where both inputs hold the
    // same character, which cannot open both words.
    if pos < b {
        assert(s[pos] == t[pos]);
        assert(crate::grammar::images_lit()[0] == 'i');
        assert(crate::grammar::workspace_lit()[0] == 'w');
    }
}

proof fn lemma_loc_key(s: Seq<char>, ext: Seq<char>)
    ensures
        loc_ok(sp_key(s), sp_key(s + ext), s.len() as int),
{
    let t = s + ext;
    let b = s.len() as int;
    lemma_loc_dataset(s, ext, 0);
    lemma_wf_dataset(t, 0);
    match sp_dataset(t, 0) {
        SpResult::Fail { .. } => {},
        SpResult::Match { end: p1, .. } => {
            if p1 < b {
                assert(s[p1] == t[p1]);
                if t[p1] == '/' {
                    lemma_loc_name_seg(s, ext, p1 + 1, Rule::Source);
                    lemma_ident_len_le(t, p1 + 1);
                    match sp_name_seg(t, p1 + 1, Rule::Source) {
                        SpResult::Fail { .. } => {},
                        SpResult::Match { end: p2, .. } => {
                            if p2 < b {
                                assert(s[p2] == t[p2]);
                                if t[p2] == '/' {
                                    lemma_loc_tail(s, ext, p2 + 1);
                                    lemma_wf_tail(t, p2 + 1);
                                    lemma_wf_tail(s, p2 + 1);
                                }
                            } else {
                                if p2 < t.len() && t[p2] == '/' {
                                    lemma_wf_tail(t, p2 + 1);
                                }
                            }
                        },
                    }
                }
            } else {
                if p1 < t.len() && t[p1] == '/' {
                    lemma_wf_name_seg(t, p1 + 1, Rule::Source);
                    match sp_name_seg(t, p1 + 1, Rule::Source) {
                        SpResult::Fail { .. } => {},
                        SpResult::Match { end: p2, .. } => {
                            if p2 < t.len() && t[p2] == '/' {
                                lemma_wf_tail(t, p2 + 1);
                            }
                        },
                    }
                }
            }
        },
    }
}

/// Failure locality.  If some extension turns `s` into a valid key but
/// `s` itself is not one, then the parse of `s` fails exactly at the
/// length of `s`: the whole of the truncated input is consumed before
/// the mismatch is reported.
pub proof fn lemma_failure_locality(s: Seq<char>, ext: Seq<char>)
    requires
        key_matches(s + ext),
        !key_matches(s),
    ensures
        (sp_key(s) matches SpResult::Fail { at, .. } && at == s.len()),
{
    lemma_loc_key(s, ext);
    lemma_wf_key(s + ext);
}

} // verus!
