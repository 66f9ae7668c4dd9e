//! The grammar engine: executable matching, proved against the
//! specification functions of `grammar`.
//!
//! Every parsing function here mirrors one specification function and
//! its contract states that it returns exactly the outcome that
//! function describes: the same end position and event stream on a
//! match, the same furthest position and expected constructs on a
//! failure.

use vstd::prelude::*;

use crate::grammar::Ev;
use crate::grammar::Expected;
use crate::grammar::Rule;
use crate::grammar::SpResult;
use crate::grammar::cpg_lit;
use crate::grammar::digits_end;
use crate::grammar::ident_end;
use crate::grammar::illum_lit;
use crate::grammar::images_lit;
use crate::grammar::is_digit;
use crate::grammar::is_ident_char;
use crate::grammar::lit_matched;
use crate::grammar::merge_fail;
use crate::grammar::sp_dataset;
use crate::grammar::sp_exts;
use crate::grammar::sp_filename;
use crate::grammar::sp_images_tail;
use crate::grammar::sp_key;
use crate::grammar::sp_lit;
use crate::grammar::sp_name_seg;
use crate::grammar::sp_tail;
use crate::grammar::sp_workspace;
use crate::grammar::sp_workspace_tail;
use crate::grammar::sp_wtail;
use crate::grammar::workspace_lit;

verus! {

/// A structural event as the engine emits it: the engine entered
/// (`Start`) or left (`End`) the named rule at the given character
/// position of the input.
#[derive(Clone, Copy, Debug, PartialEq, Eq, Structural)]
pub enum Token {
    Start { rule: Rule, pos: usize },
    End { rule: Rule, pos: usize },
}

/// A grammar mismatch: the furthest position the match reached and the
/// constructs that were expected there.
#[derive(Debug, PartialEq, Eq)]
pub struct ParseError {
    pub pos: usize,
    pub expected: Vec<Expected>,
}

/// The mathematical value of one emitted token.
pub open spec fn tok_v(t: Token) -> Ev {
    match t {
        Token::Start { rule, pos } => Ev::Start { rule, pos: pos as int },
        Token::End { rule, pos } => Ev::End { rule, pos: pos as int },
    }
}

/// The mathematical value of an emitted token stream.
pub open spec fn toks_view(ts: Seq<Token>) -> Seq<Ev> {
    ts.map_values(|t: Token| tok_v(t))
}

pub proof fn lemma_toks_view_push(ts: Seq<Token>, t: Token)
    ensures
        toks_view(ts.push(t)) == toks_view(ts).push(tok_v(t)),
{
    assert(toks_view(ts.push(t)) =~= toks_view(ts).push(tok_v(t)));
}

pub proof fn lemma_toks_view_concat(a: Seq<Token>, b: Seq<Token>)
    ensures
        toks_view(a + b) == toks_view(a) + toks_view(b),
{
    assert(toks_view(a + b) =~= toks_view(a) + toks_view(b));
}

/// A literal prefix never matches more characters than it has, nor more
/// than the input holds past `pos`.
pub proof fn lemma_lit_matched_bounds(s: Seq<char>, pos: int, lit: Seq<char>)
    requires
        0 <= pos <= s.len(),
    ensures
        lit_matched(s, pos, lit) <= lit.len(),
        pos + lit_matched(s, pos, lit) <= s.len(),
    decreases lit.len(),
{
    if lit.len() > 0 && pos < s.len() && s[pos] == lit[0] {
        lemma_lit_matched_bounds(s, pos + 1, lit.skip(1));
    }
}

fn exp_one(exp: Expected) -> (v: Vec<Expected>)
    ensures
        (v@ == seq![exp]),
{
    let mut v: Vec<Expected> = Vec::new();
    v.push(exp);
    proof {
        assert(v@ =~= seq![exp]);
    }
    v
}

fn mk_err(pos: usize, exp: Expected) -> (r: ParseError)
    ensures
        r.pos == pos,
        (r.expected@ == seq![exp]),
{
    ParseError { pos, expected: exp_one(exp) }
}

/// Combines the failures of an ordered choice's two alternatives as
/// `merge_fail` describes.
fn merge_err(a: ParseError, b: ParseError) -> (r: ParseError)
    ensures
        (SpResult::Fail { at: r.pos as int, exp: r.expected@ } == merge_fail(
            a.pos as int,
            a.expected@,
            b.pos as int,
            b.expected@,
        )),
{
    if a.pos > b.pos {
        a
    } else if b.pos > a.pos {
        b
    } else {
        let mut a = a;
        let mut b = b;
        a.expected.append(&mut b.expected);
        a
    }
}

fn is_digit_x(c: char) -> (r: bool)
    ensures
        r == is_digit(c),
{
    let u = c as u32;
    48 <= u && u <= 57
}

fn is_ident_x(c: char) -> (r: bool)
    ensures
        r == is_ident_char(c),
{
    let u = c as u32;
    (48 <= u && u <= 57) || (97 <= u && u <= 122) || (65 <= u && u <= 90) || u == 95 || u == 45
}

/// Greedy `digit*` scan: returns where it stops.
fn scan_digits(s: &str, n: usize, pos: usize) -> (r: usize)
    requires
        n == s@.len(),
        pos <= n,
    ensures
        r as int == digits_end(s@, pos as int),
        pos <= r <= n,
    decreases n - pos,
{
    if pos < n {
        let c = s.get_char(pos);
        if is_digit_x(c) {
            return scan_digits(s, n, pos + 1);
        }
    }
    pos
}

/// Greedy `ident*` scan: returns where it stops.
fn scan_ident(s: &str, n: usize, pos: usize) -> (r: usize)
    requires
        n == s@.len(),
        pos <= n,
    ensures
        r as int == ident_end(s@, pos as int),
        pos <= r <= n,
    decreases n - pos,
{
    if pos < n {
        let c = s.get_char(pos);
        if is_ident_x(c) {
            return scan_ident(s, n, pos + 1);
        }
    }
    pos
}

/// Whether character `c` stands at position `p`.
fn at_char(s: &str, n: usize, p: usize, c: char) -> (r: bool)
    requires
        n == s@.len(),
        p <= n,
    ensures
        r == (p < s@.len() && s@[p as int] == c),
{
    p < n && s.get_char(p) == c
}

/// How many leading characters of `lit`, from index `i` on, match the
/// input at position `p`.
fn lit_tail(s: &str, n: usize, p: usize, lit: &str, litn: usize, i: usize) -> (r: usize)
    requires
        n == s@.len(),
        litn == lit@.len(),
        p <= n,
        i <= litn,
    ensures
        r as int == lit_matched(s@, p as int, lit@.skip(i as int)),
        r <= litn - i,
    decreases litn - i,
{
    proof {
        lemma_lit_matched_bounds(s@, p as int, lit@.skip(i as int));
    }
    if i < litn && p < n {
        let cs = s.get_char(p);
        let cl = lit.get_char(i);
        if cs == cl {
            proof {
                assert(lit@.skip(i as int)[0] == lit@[i as int]);
                assert(lit@.skip(i as int).skip(1) =~= lit@.skip(i as int + 1));
            }
            let rest = lit_tail(s, n, p + 1, lit, litn, i + 1);
            return rest + 1;
        }
    }
    0
}

/// Matches the literal `lit` at `pos`, as `sp_lit` describes.
fn p_lit(s: &str, n: usize, pos: usize, lit: &str, litn: usize, exp: Expected) -> (r: Result<
    usize,
    ParseError,
>)
    requires
        n == s@.len(),
        litn == lit@.len(),
        pos <= n,
    ensures
        match sp_lit(s@, pos as int, lit@, exp) {
            SpResult::Match { end, evs } => r matches Ok(e) && e as int == end && e <= n
                && evs == Seq::<Ev>::empty(),
            SpResult::Fail { at, exp: ex } => r matches Err(pe) && pe.pos as int == at
                && pe.expected@ == ex,
        },
{
    proof {
        assert(lit@.skip(0) =~= lit@);
        lemma_lit_matched_bounds(s@, pos as int, lit@);
    }
    let m = lit_tail(s, n, pos, lit, litn, 0);
    if m == litn {
        Ok(pos + litn)
    } else {
        Err(mk_err(pos + m, exp))
    }
}

/// A named `ident+` rule: source, batch, plate or seg.
fn p_name_seg(s: &str, n: usize, pos: usize, rule: Rule) -> (r: Result<
    (usize, Vec<Token>),
    ParseError,
>)
    requires
        n == s@.len(),
        pos <= n,
    ensures
        match sp_name_seg(s@, pos as int, rule) {
            SpResult::Match { end, evs } => r matches Ok((e, tv)) && e as int == end && e <= n
                && toks_view(tv@) == evs,
            SpResult::Fail { at, exp: ex } => r matches Err(pe) && pe.pos as int == at
                && pe.expected@ == ex,
        },
{
    let e = scan_ident(s, n, pos);
    if e > pos {
        let mut tv: Vec<Token> = Vec::new();
        tv.push(Token::Start { rule, pos });
        tv.push(Token::End { rule, pos: e });
        proof {
            assert(toks_view(tv@) =~= seq![
                Ev::Start { rule, pos: pos as int },
                Ev::End { rule, pos: e as int },
            ]);
        }
        Ok((e, tv))
    } else {
        Err(mk_err(pos, Expected::IdentChar))
    }
}

/// `dataset = "cpg" digit+ "-" ident+`.
fn p_dataset(s: &str, n: usize, pos: usize) -> (r: Result<(usize, Vec<Token>), ParseError>)
    requires
        n == s@.len(),
        pos <= n,
    ensures
        match sp_dataset(s@, pos as int) {
            SpResult::Match { end, evs } => r matches Ok((e, tv)) && e as int == end && e <= n
                && toks_view(tv@) == evs,
            SpResult::Fail { at, exp: ex } => r matches Err(pe) && pe.pos as int == at
                && pe.expected@ == ex,
        },
{
    proof {
        reveal_strlit("cpg");
        assert("cpg"@ =~= cpg_lit());
    }
    let p1 = match p_lit(s, n, pos, "cpg", 3, Expected::LitCpg) {
        Ok(p) => p,
        Err(e) => {
            return Err(e);
        },
    };
    let d = scan_digits(s, n, p1);
    if d == p1 {
        return Err(mk_err(p1, Expected::Digit));
    }
    if !at_char(s, n, d, '-') {
        return Err(mk_err(d, Expected::Dash));
    }
    let e = scan_ident(s, n, d + 1);
    if e == d + 1 {
        return Err(mk_err(d + 1, Expected::IdentChar));
    }
    let mut tv: Vec<Token> = Vec::new();
    tv.push(Token::Start { rule: Rule::Dataset, pos });
    tv.push(Token::End { rule: Rule::Dataset, pos: e });
    proof {
        assert(toks_view(tv@) =~= seq![
            Ev::Start { rule: Rule::Dataset, pos: pos as int },
            Ev::End { rule: Rule::Dataset, pos: e as int },
        ]);
    }
    Ok((e, tv))
}

/// `workspace = "workspace"`.
fn p_workspace(s: &str, n: usize, pos: usize) -> (r: Result<(usize, Vec<Token>), ParseError>)
    requires
        n == s@.len(),
        pos <= n,
    ensures
        match sp_workspace(s@, pos as int) {
            SpResult::Match { end, evs } => r matches Ok((e, tv)) && e as int == end && e <= n
                && toks_view(tv@) == evs,
            SpResult::Fail { at, exp: ex } => r matches Err(pe) && pe.pos as int == at
                && pe.expected@ == ex,
        },
{
    proof {
        reveal_strlit("workspace");
        assert("workspace"@ =~= workspace_lit());
    }
    let e = match p_lit(s, n, pos, "workspace", 9, Expected::LitWorkspace) {
        Ok(p) => p,
        Err(e) => {
            return Err(e);
        },
    };
    let mut tv: Vec<Token> = Vec::new();
    tv.push(Token::Start { rule: Rule::Workspace, pos });
    tv.push(Token::End { rule: Rule::Workspace, pos: e });
    proof {
        assert(toks_view(tv@) =~= seq![
            Ev::Start { rule: Rule::Workspace, pos: pos as int },
            Ev::End { rule: Rule::Workspace, pos: e as int },
        ]);
    }
    Ok((e, tv))
}

/// The extension part `("." ident+)+` of a filename.
fn p_exts(s: &str, n: usize, pos: usize) -> (r: Result<usize, ParseError>)
    requires
        n == s@.len(),
        pos <= n,
    ensures
        match sp_exts(s@, pos as int) {
            SpResult::Match { end, evs } => r matches Ok(e) && e as int == end && e <= n
                && evs == Seq::<Ev>::empty(),
            SpResult::Fail { at, exp: ex } => r matches Err(pe) && pe.pos as int == at
                && pe.expected@ == ex,
        },
    decreases n - pos,
{
    if !at_char(s, n, pos, '.') {
        return Err(mk_err(pos, Expected::Dot));
    }
    let e = scan_ident(s, n, pos + 1);
    if e == pos + 1 {
        return Err(mk_err(pos + 1, Expected::IdentChar));
    }
    if at_char(s, n, e, '.') {
        p_exts(s, n, e)
    } else {
        Ok(e)
    }
}

/// `filename = ident+ ("." ident+)+`.
fn p_filename(s: &str, n: usize, pos: usize) -> (r: Result<(usize, Vec<Token>), ParseError>)
    requires
        n == s@.len(),
        pos <= n,
    ensures
        match sp_filename(s@, pos as int) {
            SpResult::Match { end, evs } => r matches Ok((e, tv)) && e as int == end && e <= n
                && toks_view(tv@) == evs,
            SpResult::Fail { at, exp: ex } => r matches Err(pe) && pe.pos as int == at
                && pe.expected@ == ex,
        },
{
    let e0 = scan_ident(s, n, pos);
    if e0 == pos {
        return Err(mk_err(pos, Expected::IdentChar));
    }
    let end = match p_exts(s, n, e0) {
        Ok(p) => p,
        Err(e) => {
            return Err(e);
        },
    };
    let mut tv: Vec<Token> = Vec::new();
    tv.push(Token::Start { rule: Rule::Filename, pos });
    tv.push(Token::End { rule: Rule::Filename, pos: end });
    proof {
        assert(toks_view(tv@) =~= seq![
            Ev::Start { rule: Rule::Filename, pos: pos as int },
            Ev::End { rule: Rule::Filename, pos: end as int },
        ]);
    }
    Ok((end, tv))
}

/// `wtail = seg "/" wtail | plate "/" filename`.
fn p_wtail(s: &str, n: usize, pos: usize) -> (r: Result<(usize, Vec<Token>), ParseError>)
    requires
        n == s@.len(),
        pos <= n,
    ensures
        match sp_wtail(s@, pos as int) {
            SpResult::Match { end, evs } => r matches Ok((e, tv)) && e as int == end && e <= n
                && toks_view(tv@) == evs,
            SpResult::Fail { at, exp: ex } => r matches Err(pe) && pe.pos as int == at
                && pe.expected@ == ex,
        },
    decreases n - pos,
{
    let e1 = scan_ident(s, n, pos);
    if e1 == pos {
        return Err(mk_err(pos, Expected::IdentChar));
    }
    if !at_char(s, n, e1, '/') {
        return Err(mk_err(e1, Expected::Slash));
    }
    match p_wtail(s, n, e1 + 1) {
        Ok((end, evs2)) => {
            let mut tv: Vec<Token> = Vec::new();
            tv.push(Token::Start { rule: Rule::Seg, pos });
            tv.push(Token::End { rule: Rule::Seg, pos: e1 });
            proof {
                assert(toks_view(tv@) =~= seq![
                    Ev::Start { rule: Rule::Seg, pos: pos as int },
                    Ev::End { rule: Rule::Seg, pos: e1 as int },
                ]);
                lemma_toks_view_concat(tv@, evs2@);
            }
            let mut evs2 = evs2;
            tv.append(&mut evs2);
            Ok((end, tv))
        },
        Err(e_rec) => match p_filename(s, n, e1 + 1) {
            Ok((end, evs2)) => {
                let mut tv: Vec<Token> = Vec::new();
                tv.push(Token::Start { rule: Rule::Plate, pos });
                tv.push(Token::End { rule: Rule::Plate, pos: e1 });
                proof {
                    assert(toks_view(tv@) =~= seq![
                        Ev::Start { rule: Rule::Plate, pos: pos as int },
                        Ev::End { rule: Rule::Plate, pos: e1 as int },
                    ]);
                    lemma_toks_view_concat(tv@, evs2@);
                }
                let mut evs2 = evs2;
                tv.append(&mut evs2);
                Ok((end, tv))
            },
            Err(e_f) => Err(merge_err(e_rec, e_f)),
        },
    }
}

/// `images_tail = "images" "/" batch "/" "illum" "/" plate "/" filename`.
fn p_images_tail(s: &str, n: usize, pos: usize) -> (r: Result<(usize, Vec<Token>), ParseError>)
    requires
        n == s@.len(),
        pos <= n,
    ensures
        match sp_images_tail(s@, pos as int) {
            SpResult::Match { end, evs } => r matches Ok((e, tv)) && e as int == end && e <= n
                && toks_view(tv@) == evs,
            SpResult::Fail { at, exp: ex } => r matches Err(pe) && pe.pos as int == at
                && pe.expected@ == ex,
        },
{
    proof {
        reveal_strlit("images");
        assert("images"@ =~= images_lit());
        reveal_strlit("illum");
        assert("illum"@ =~= illum_lit());
    }
    let p1 = match p_lit(s, n, pos, "images", 6, Expected::LitImages) {
        Ok(p) => p,
        Err(e) => {
            return Err(e);
        },
    };
    if !at_char(s, n, p1, '/') {
        return Err(mk_err(p1, Expected::Slash));
    }
    let (p2, mut tv) = match p_name_seg(s, n, p1 + 1, Rule::Batch) {
        Ok(x) => x,
        Err(e) => {
            return Err(e);
        },
    };
    if !at_char(s, n, p2, '/') {
        return Err(mk_err(p2, Expected::Slash));
    }
    let p3 = match p_lit(s, n, p2 + 1, "illum", 5, Expected::LitIllum) {
        Ok(p) => p,
        Err(e) => {
            return Err(e);
        },
    };
    if !at_char(s, n, p3, '/') {
        return Err(mk_err(p3, Expected::Slash));
    }
    let (p4, mut tv_p) = match p_name_seg(s, n, p3 + 1, Rule::Plate) {
        Ok(x) => x,
        Err(e) => {
            return Err(e);
        },
    };
    if !at_char(s, n, p4, '/') {
        return Err(mk_err(p4, Expected::Slash));
    }
    let (end, mut tv_f) = match p_filename(s, n, p4 + 1) {
        Ok(x) => x,
        Err(e) => {
            return Err(e);
        },
    };
    proof {
        lemma_toks_view_concat(tv@, tv_p@);
        lemma_toks_view_concat(tv@ + tv_p@, tv_f@);
    }
    tv.append(&mut tv_p);
    tv.append(&mut tv_f);
    Ok((end, tv))
}

/// `workspace_tail = workspace "/" wtail`.
fn p_workspace_tail(s: &str, n: usize, pos: usize) -> (r: Result<(usize, Vec<Token>), ParseError>)
    requires
        n == s@.len(),
        pos <= n,
    ensures
        match sp_workspace_tail(s@, pos as int) {
            SpResult::Match { end, evs } => r matches Ok((e, tv)) && e as int == end && e <= n
                && toks_view(tv@) == evs,
            SpResult::Fail { at, exp: ex } => r matches Err(pe) && pe.pos as int == at
                && pe.expected@ == ex,
        },
{
    let (p1, mut tv) = match p_workspace(s, n, pos) {
        Ok(x) => x,
        Err(e) => {
            return Err(e);
        },
    };
    if !at_char(s, n, p1, '/') {
        return Err(mk_err(p1, Expected::Slash));
    }
    let (end, mut tv_w) = match p_wtail(s, n, p1 + 1) {
        Ok(x) => x,
        Err(e) => {
            return Err(e);
        },
    };
    proof {
        lemma_toks_view_concat(tv@, tv_w@);
    }
    tv.append(&mut tv_w);
    Ok((end, tv))
}

/// `tail = images_tail | workspace_tail`: ordered choice, and on a
/// double failure the furthest-failure merge.
fn p_tail(s: &str, n: usize, pos: usize) -> (r: Result<(usize, Vec<Token>), ParseError>)
    requires
        n == s@.len(),
        pos <= n,
    ensures
        match sp_tail(s@, pos as int) {
            SpResult::Match { end, evs } => r matches Ok((e, tv)) && e as int == end && e <= n
                && toks_view(tv@) == evs,
            SpResult::Fail { at, exp: ex } => r matches Err(pe) && pe.pos as int == at
                && pe.expected@ == ex,
        },
{
    match p_images_tail(s, n, pos) {
        Ok(x) => Ok(x),
        Err(e1) => match p_workspace_tail(s, n, pos) {
            Ok(x) => Ok(x),
            Err(e2) => Err(merge_err(e1, e2)),
        },
    }
}

/// The parser for the key grammar.  `parse` attempts a full match of
/// the root rule against the input and returns the structural event
/// stream of the traversal, or the furthest failure.
pub struct KeyParser;

impl KeyParser {
    /// Matches the root rule `key` against the whole input.
    ///
    /// Exactly the outcome of `sp_key`: on success the returned tokens
    /// are the complete, well-nested start/end stream of every named
    /// rule the engine descended into, in traversal order; on failure
    /// the error carries the furthest position reached and the
    /// constructs expected there, and no tokens at all.
    pub fn parse(input: &str) -> (r: Result<Vec<Token>, ParseError>)
        ensures
            match sp_key(input@) {
                SpResult::Match { end, evs } => r matches Ok(tv) && toks_view(tv@) == evs,
                SpResult::Fail { at, exp: ex } => r matches Err(pe) && pe.pos as int == at
                    && pe.expected@ == ex,
            },
    {
        let n = input.unicode_len();
        let (p1, tv_d) = match p_dataset(input, n, 0) {
            Ok(x) => x,
            Err(e) => {
                return Err(e);
            },
        };
        if !at_char(input, n, p1, '/') {
            return Err(mk_err(p1, Expected::Slash));
        }
        let (p2, mut tv_s) = match p_name_seg(input, n, p1 + 1, Rule::Source) {
            Ok(x) => x,
            Err(e) => {
                return Err(e);
            },
        };
        if !at_char(input, n, p2, '/') {
            return Err(mk_err(p2, Expected::Slash));
        }
        let (end, mut tv_t) = match p_tail(input, n, p2 + 1) {
            Ok(x) => x,
            Err(e) => {
                return Err(e);
            },
        };
        if end != n {
            return Err(mk_err(end, Expected::EndOfInput));
        }
        let mut tv: Vec<Token> = Vec::new();
        tv.push(Token::Start { rule: Rule::Key, pos: 0 });
        proof {
            assert(toks_view(tv@) =~= seq![Ev::Start { rule: Rule::Key, pos: 0 }]);
            lemma_toks_view_concat(tv@, tv_d@);
            lemma_toks_view_concat(tv@ + tv_d@, tv_s@);
            lemma_toks_view_concat(tv@ + tv_d@ + tv_s@, tv_t@);
        }
        let mut tv_d = tv_d;
        tv.append(&mut tv_d);
        tv.append(&mut tv_s);
        tv.append(&mut tv_t);
        proof {
            lemma_toks_view_push(tv@, Token::End { rule: Rule::Key, pos: end });
        }
        tv.push(Token::End { rule: Rule::Key, pos: end });
        Ok(tv)
    }
}

} // verus!
