//! The grammar definition and its meaning.
//!
//! The grammar is the fixed vocabulary of a gallery key, written as a
//! parsing expression grammar (PEG): alternatives are tried in order,
//! repetition is greedy, and the first full match wins.
//!
//! ```text
//! key            =  dataset "/" source "/" tail EOI
//! tail           =  images_tail | workspace_tail
//! images_tail    =  "images" "/" batch "/" "illum" "/" plate "/" filename
//! workspace_tail =  workspace "/" wtail
//! workspace      =  "workspace"
//! wtail          =  seg "/" wtail | plate "/" filename
//! dataset        =  "cpg" digit+ "-" ident+
//! source         =  ident+        batch = ident+
//! plate          =  ident+        seg   = ident+
//! filename       =  ident+ ("." ident+)+
//! digit          =  '0'..'9'
//! ident          =  digit | 'a'..'z' | 'A'..'Z' | '_' | '-'
//! ```
//!
//! This module gives the grammar its mathematical meaning: for every
//! rule a specification function maps the input and a start position to
//! either a match (end position plus the stream of start/end events of
//! the named rules it descended into) or a failure (the furthest
//! position reached and the constructs expected there).  The executable
//! engine in `engine` is proved to return exactly these values.

use vstd::prelude::*;

verus! {

/// The named rules of the grammar.  Each one that matches contributes a
/// field (keyed by the rule) to the extracted mapping.
#[derive(Clone, Copy, Debug, PartialEq, Eq, Structural)]
pub enum Rule {
    Key,
    Dataset,
    Source,
    Batch,
    Plate,
    Workspace,
    Seg,
    Filename,
}

/// The name of a rule, as the extracted mapping presents it.
pub open spec fn rule_name(r: Rule) -> Seq<char> {
    match r {
        Rule::Key => seq!['k', 'e', 'y'],
        Rule::Dataset => seq!['d', 'a', 't', 'a', 's', 'e', 't'],
        Rule::Source => seq!['s', 'o', 'u', 'r', 'c', 'e'],
        Rule::Batch => seq!['b', 'a', 't', 'c', 'h'],
        Rule::Plate => seq!['p', 'l', 'a', 't', 'e'],
        Rule::Workspace => seq!['w', 'o', 'r', 'k', 's', 'p', 'a', 'c', 'e'],
        Rule::Seg => seq!['s', 'e', 'g'],
        Rule::Filename => seq!['f', 'i', 'l', 'e', 'n', 'a', 'm', 'e'],
    }
}

impl Rule {
    /// The rule's name.
    pub fn name(&self) -> (r: &'static str)
        ensures
            r@ == rule_name(*self),
    {
        match self {
            Rule::Key => {
                proof {
                    reveal_strlit("key");
                    assert("key"@ =~= rule_name(Rule::Key));
                }
                "key"
            },
            Rule::Dataset => {
                proof {
                    reveal_strlit("dataset");
                    assert("dataset"@ =~= rule_name(Rule::Dataset));
                }
                "dataset"
            },
            Rule::Source => {
                proof {
                    reveal_strlit("source");
                    assert("source"@ =~= rule_name(Rule::Source));
                }
                "source"
            },
            Rule::Batch => {
                proof {
                    reveal_strlit("batch");
                    assert("batch"@ =~= rule_name(Rule::Batch));
                }
                "batch"
            },
            Rule::Plate => {
                proof {
                    reveal_strlit("plate");
                    assert("plate"@ =~= rule_name(Rule::Plate));
                }
                "plate"
            },
            Rule::Workspace => {
                proof {
                    reveal_strlit("workspace");
                    assert("workspace"@ =~= rule_name(Rule::Workspace));
                }
                "workspace"
            },
            Rule::Seg => {
                proof {
                    reveal_strlit("seg");
                    assert("seg"@ =~= rule_name(Rule::Seg));
                }
                "seg"
            },
            Rule::Filename => {
                proof {
                    reveal_strlit("filename");
                    assert("filename"@ =~= rule_name(Rule::Filename));
                }
                "filename"
            },
        }
    }
}

/// A construct the grammar expected at a failure position.
#[derive(Clone, Copy, Debug, PartialEq, Eq, Structural)]
pub enum Expected {
    /// The literal `cpg` that opens a dataset identifier.
    LitCpg,
    /// The literal `images` that opens the image-store branch.
    LitImages,
    /// The literal `illum` before a plate in the image-store branch.
    LitIllum,
    /// The literal `workspace` that opens the workspace branch.
    LitWorkspace,
    /// A decimal digit.
    Digit,
    /// An identifier character (letter, digit, `_` or `-`).
    IdentChar,
    /// The separator `-` inside a dataset identifier.
    Dash,
    /// The segment separator `/`.
    Slash,
    /// The extension separator `.` of a filename.
    Dot,
    /// The end of the input.
    EndOfInput,
}

/// A structural event: the engine entered or left a named rule at a
/// character position of the input.
pub ghost enum Ev {
    Start { rule: Rule, pos: int },
    End { rule: Rule, pos: int },
}

/// The outcome of matching one grammar expression at a position:
/// either a match, with the end position and the events of the named
/// rules entered, or a failure, with the furthest position reached and
/// the constructs expected there.
pub ghost enum SpResult {
    Match { end: int, evs: Seq<Ev> },
    Fail { at: int, exp: Seq<Expected> },
}

/// ASCII decimal digit.
pub open spec fn is_digit(c: char) -> bool {
    '0' <= c && c <= '9'
}

/// Identifier character: the characters a slash-free, dot-free segment
/// may consist of.
pub open spec fn is_ident_char(c: char) -> bool {
    is_digit(c) || ('a' <= c && c <= 'z') || ('A' <= c && c <= 'Z') || c == '_' || c == '-'
}

/// Number of consecutive digits starting at `pos`.
pub open spec fn digit_len(s: Seq<char>, pos: int) -> nat
    decreases s.len() - pos when 0 <= pos <= s.len()
{
    if pos < s.len() && is_digit(s[pos]) {
        (1 + digit_len(s, pos + 1)) as nat
    } else {
        0
    }
}

/// Position where a greedy `digit*` scan starting at `pos` stops.
pub open spec fn digits_end(s: Seq<char>, pos: int) -> int {
    pos + digit_len(s, pos)
}

/// Number of consecutive identifier characters starting at `pos`.
pub open spec fn ident_len(s: Seq<char>, pos: int) -> nat
    decreases s.len() - pos when 0 <= pos <= s.len()
{
    if pos < s.len() && is_ident_char(s[pos]) {
        (1 + ident_len(s, pos + 1)) as nat
    } else {
        0
    }
}

/// Position where a greedy `ident*` scan starting at `pos` stops.
pub open spec fn ident_end(s: Seq<char>, pos: int) -> int {
    pos + ident_len(s, pos)
}

/// The literal words of the grammar, as character sequences.
pub open spec fn cpg_lit() -> Seq<char> {
    seq!['c', 'p', 'g']
}

pub open spec fn images_lit() -> Seq<char> {
    seq!['i', 'm', 'a', 'g', 'e', 's']
}

pub open spec fn illum_lit() -> Seq<char> {
    seq!['i', 'l', 'l', 'u', 'm']
}

pub open spec fn workspace_lit() -> Seq<char> {
    seq!['w', 'o', 'r', 'k', 's', 'p', 'a', 'c', 'e']
}

/// How many leading characters of `lit` match at `pos`.
pub open spec fn lit_matched(s: Seq<char>, pos: int, lit: Seq<char>) -> nat
    decreases lit.len()
{
    if lit.len() > 0 && pos < s.len() && s[pos] == lit[0] {
        (1 + lit_matched(s, pos + 1, lit.skip(1))) as nat
    } else {
        0
    }
}

/// Matching a literal word: consumes the word, or fails right after its
/// longest matching prefix, expecting `exp`.
pub open spec fn sp_lit(s: Seq<char>, pos: int, lit: Seq<char>, exp: Expected) -> SpResult {
    let m = lit_matched(s, pos, lit);
    if m == lit.len() {
        SpResult::Match { end: pos + lit.len(), evs: Seq::empty() }
    } else {
        SpResult::Fail { at: pos + m, exp: seq![exp] }
    }
}

/// Merging the failures of the two alternatives of an ordered choice:
/// the furthest failure wins; at equal positions the expected sets are
/// joined.
pub open spec fn merge_fail(at1: int, e1: Seq<Expected>, at2: int, e2: Seq<Expected>) -> SpResult {
    if at1 > at2 {
        SpResult::Fail { at: at1, exp: e1 }
    } else if at2 > at1 {
        SpResult::Fail { at: at2, exp: e2 }
    } else {
        SpResult::Fail { at: at1, exp: e1 + e2 }
    }
}

/// A named `ident+` rule (source, batch, plate, seg): greedy scan,
/// non-empty, one start/end event pair.
pub open spec fn sp_name_seg(s: Seq<char>, pos: int, rule: Rule) -> SpResult {
    let e = ident_end(s, pos);
    if e > pos {
        SpResult::Match {
            end: e,
            evs: seq![Ev::Start { rule, pos }, Ev::End { rule, pos: e }],
        }
    } else {
        SpResult::Fail { at: pos, exp: seq![Expected::IdentChar] }
    }
}

/// `dataset = "cpg" digit+ "-" ident+`.
pub open spec fn sp_dataset(s: Seq<char>, pos: int) -> SpResult {
    match sp_lit(s, pos, cpg_lit(), Expected::LitCpg) {
        SpResult::Fail { at, exp } => SpResult::Fail { at, exp },
        SpResult::Match { end: p1, .. } => {
            let d = digits_end(s, p1);
            if d == p1 {
                SpResult::Fail { at: p1, exp: seq![Expected::Digit] }
            } else if d < s.len() && s[d] == '-' {
                let e = ident_end(s, d + 1);
                if e == d + 1 {
                    SpResult::Fail { at: d + 1, exp: seq![Expected::IdentChar] }
                } else {
                    SpResult::Match {
                        end: e,
                        evs: seq![
                            Ev::Start { rule: Rule::Dataset, pos },
                            Ev::End { rule: Rule::Dataset, pos: e },
                        ],
                    }
                }
            } else {
                SpResult::Fail { at: d, exp: seq![Expected::Dash] }
            }
        },
    }
}

/// `workspace = "workspace"`, a named literal rule.
pub open spec fn sp_workspace(s: Seq<char>, pos: int) -> SpResult {
    match sp_lit(s, pos, workspace_lit(), Expected::LitWorkspace) {
        SpResult::Fail { at, exp } => SpResult::Fail { at, exp },
        SpResult::Match { end, .. } => SpResult::Match {
            end,
            evs: seq![
                Ev::Start { rule: Rule::Workspace, pos },
                Ev::End { rule: Rule::Workspace, pos: end },
            ],
        },
    }
}

/// The extension part `("." ident+)+` of a filename, entered at the
/// position of a `.`.  Greedy: as long as another `.` follows a
/// completed part, the repetition commits to it.
pub open spec fn sp_exts(s: Seq<char>, pos: int) -> SpResult
    decreases s.len() - pos when 0 <= pos <= s.len()
{
    if pos < s.len() && s[pos] == '.' {
        let e = ident_end(s, pos + 1);
        if e == pos + 1 {
            SpResult::Fail { at: pos + 1, exp: seq![Expected::IdentChar] }
        } else if e < s.len() && s[e] == '.' {
            sp_exts(s, e)
        } else {
            SpResult::Match { end: e, evs: Seq::empty() }
        }
    } else {
        SpResult::Fail { at: pos, exp: seq![Expected::Dot] }
    }
}

/// `filename = ident+ ("." ident+)+`.
pub open spec fn sp_filename(s: Seq<char>, pos: int) -> SpResult {
    let e0 = ident_end(s, pos);
    if e0 == pos {
        SpResult::Fail { at: pos, exp: seq![Expected::IdentChar] }
    } else {
        match sp_exts(s, e0) {
            SpResult::Fail { at, exp } => SpResult::Fail { at, exp },
            SpResult::Match { end, .. } => SpResult::Match {
                end,
                evs: seq![
                    Ev::Start { rule: Rule::Filename, pos },
                    Ev::End { rule: Rule::Filename, pos: end },
                ],
            },
        }
    }
}

/// `wtail = seg "/" wtail | plate "/" filename`.
///
/// Both alternatives begin with the same greedy `ident+` scan and the
/// same `/` test, so the choice is written with that prefix factored
/// out; the outcomes are those of trying the alternatives in order.
pub open spec fn sp_wtail(s: Seq<char>, pos: int) -> SpResult
    decreases s.len() - pos when 0 <= pos <= s.len()
{
    let e1 = ident_end(s, pos);
    if e1 == pos {
        SpResult::Fail { at: pos, exp: seq![Expected::IdentChar] }
    } else if e1 < s.len() && s[e1] == '/' {
        match sp_wtail(s, e1 + 1) {
            SpResult::Match { end, evs } => SpResult::Match {
                end,
                evs: seq![Ev::Start { rule: Rule::Seg, pos }, Ev::End { rule: Rule::Seg, pos: e1 }]
                    + evs,
            },
            SpResult::Fail { at: at1, exp: exp1 } => match sp_filename(s, e1 + 1) {
                SpResult::Match { end, evs } => SpResult::Match {
                    end,
                    evs: seq![
                        Ev::Start { rule: Rule::Plate, pos },
                        Ev::End { rule: Rule::Plate, pos: e1 },
                    ] + evs,
                },
                SpResult::Fail { at: at2, exp: exp2 } => merge_fail(at1, exp1, at2, exp2),
            },
        }
    } else {
        SpResult::Fail { at: e1, exp: seq![Expected::Slash] }
    }
}

/// `images_tail = "images" "/" batch "/" "illum" "/" plate "/" filename`.
pub open spec fn sp_images_tail(s: Seq<char>, pos: int) -> SpResult {
    match sp_lit(s, pos, images_lit(), Expected::LitImages) {
        SpResult::Fail { at, exp } => SpResult::Fail { at, exp },
        SpResult::Match { end: p1, .. } => {
            if p1 < s.len() && s[p1] == '/' {
                match sp_name_seg(s, p1 + 1, Rule::Batch) {
                    SpResult::Fail { at, exp } => SpResult::Fail { at, exp },
                    SpResult::Match { end: p2, evs: ev_b } => {
                        if p2 < s.len() && s[p2] == '/' {
                            match sp_lit(s, p2 + 1, illum_lit(), Expected::LitIllum) {
                                SpResult::Fail { at, exp } => SpResult::Fail { at, exp },
                                SpResult::Match { end: p3, .. } => {
                                    if p3 < s.len() && s[p3] == '/' {
                                        match sp_name_seg(s, p3 + 1, Rule::Plate) {
                                            SpResult::Fail { at, exp } => SpResult::Fail {
                                                at,
                                                exp,
                                            },
                                            SpResult::Match { end: p4, evs: ev_p } => {
                                                if p4 < s.len() && s[p4] == '/' {
                                                    match sp_filename(s, p4 + 1) {
                                                        SpResult::Fail { at, exp } => SpResult::Fail {
                                                            at,
                                                            exp,
                                                        },
                                                        SpResult::Match { end, evs: ev_f } => SpResult::Match {
                                                            end,
                                                            evs: ev_b + ev_p + ev_f,
                                                        },
                                                    }
                                                } else {
                                                    SpResult::Fail {
                                                        at: p4,
                                                        exp: seq![Expected::Slash],
                                                    }
                                                }
                                            },
                                        }
                                    } else {
                                        SpResult::Fail { at: p3, exp: seq![Expected::Slash] }
                                    }
                                },
                            }
                        } else {
                            SpResult::Fail { at: p2, exp: seq![Expected::Slash] }
                        }
                    },
                }
            } else {
                SpResult::Fail { at: p1, exp: seq![Expected::Slash] }
            }
        },
    }
}

/// `workspace_tail = workspace "/" wtail`.
pub open spec fn sp_workspace_tail(s: Seq<char>, pos: int) -> SpResult {
    match sp_workspace(s, pos) {
        SpResult::Fail { at, exp } => SpResult::Fail { at, exp },
        SpResult::Match { end: p1, evs: ev_w } => {
            if p1 < s.len() && s[p1] == '/' {
                match sp_wtail(s, p1 + 1) {
                    SpResult::Fail { at, exp } => SpResult::Fail { at, exp },
                    SpResult::Match { end, evs } => SpResult::Match { end, evs: ev_w + evs },
                }
            } else {
                SpResult::Fail { at: p1, exp: seq![Expected::Slash] }
            }
        },
    }
}

/// `tail = images_tail | workspace_tail`, an ordered choice with
/// furthest-failure reporting.
pub open spec fn sp_tail(s: Seq<char>, pos: int) -> SpResult {
    match sp_images_tail(s, pos) {
        SpResult::Match { end, evs } => SpResult::Match { end, evs },
        SpResult::Fail { at: at1, exp: exp1 } => match sp_workspace_tail(s, pos) {
            SpResult::Match { end, evs } => SpResult::Match { end, evs },
            SpResult::Fail { at: at2, exp: exp2 } => merge_fail(at1, exp1, at2, exp2),
        },
    }
}

/// The root rule: `key = dataset "/" source "/" tail EOI`.  The whole
/// input must be consumed; the events of a match are those of the parts
/// wrapped in the pair for `key` itself.
pub open spec fn sp_key(s: Seq<char>) -> SpResult {
    match sp_dataset(s, 0) {
        SpResult::Fail { at, exp } => SpResult::Fail { at, exp },
        SpResult::Match { end: p1, evs: ev_d } => {
            if p1 < s.len() && s[p1] == '/' {
                match sp_name_seg(s, p1 + 1, Rule::Source) {
                    SpResult::Fail { at, exp } => SpResult::Fail { at, exp },
                    SpResult::Match { end: p2, evs: ev_s } => {
                        if p2 < s.len() && s[p2] == '/' {
                            match sp_tail(s, p2 + 1) {
                                SpResult::Fail { at, exp } => SpResult::Fail { at, exp },
                                SpResult::Match { end, evs: ev_t } => {
                                    if end == s.len() {
                                        SpResult::Match {
                                            end,
                                            evs: seq![Ev::Start { rule: Rule::Key, pos: 0 }]
                                                + ev_d + ev_s + ev_t
                                                + seq![Ev::End { rule: Rule::Key, pos: end }],
                                        }
                                    } else {
                                        SpResult::Fail {
                                            at: end,
                                            exp: seq![Expected::EndOfInput],
                                        }
                                    }
                                },
                            }
                        } else {
                            SpResult::Fail { at: p2, exp: seq![Expected::Slash] }
                        }
                    },
                }
            } else {
                SpResult::Fail { at: p1, exp: seq![Expected::Slash] }
            }
        },
    }
}

/// Whether the grammar accepts the input.
pub open spec fn key_matches(s: Seq<char>) -> bool {
    sp_key(s) matches SpResult::Match { .. }
}

} // verus!
