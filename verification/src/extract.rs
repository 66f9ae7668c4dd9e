//! The field extractor: from the engine's event stream to a mapping
//! from rule to the substring the rule spanned.
//!
//! The algorithm keeps, per rule, the most recent unmatched start
//! offset.  A start event records its offset, overwriting any prior
//! unmatched start of the same rule; an end event whose rule has an
//! unmatched start removes it and records the spanned substring,
//! overwriting any earlier value for that rule.  Only the last
//! completed start/end pair of each rule survives: a single-slot
//! capture, not a parse tree.

use vstd::prelude::*;

use crate::engine::KeyParser;
use crate::engine::ParseError;
use crate::engine::Token;
use crate::engine::tok_v;
use crate::engine::toks_view;
use crate::grammar::Ev;
use crate::grammar::Rule;
use crate::grammar::SpResult;
use crate::grammar::sp_key;

verus! {

/// The pending table as a mathematical map.  The table is kept as a
/// journal of updates, later entries superseding earlier ones: a
/// `Some` entry (re)binds a rule to a start offset, a `None` entry
/// removes the binding.
pub open spec fn pending_map(ps: Seq<(Rule, Option<usize>)>) -> Map<Rule, int>
    decreases ps.len(),
{
    if ps.len() == 0 {
        Map::empty()
    } else {
        let m = pending_map(ps.drop_last());
        match ps.last().1 {
            Option::Some(v) => m.insert(ps.last().0, v as int),
            Option::None => m.remove(ps.last().0),
        }
    }
}

/// The result pairs as a mathematical map, later entries superseding
/// earlier ones.
pub open spec fn fields_map(ps: Seq<(Rule, String)>) -> Map<Rule, Seq<char>>
    decreases ps.len(),
{
    if ps.len() == 0 {
        Map::empty()
    } else {
        fields_map(ps.drop_last()).insert(ps.last().0, ps.last().1@)
    }
}

/// One pass of the extraction algorithm over `evs` from index `i` on,
/// with the unmatched starts in `pending` and the fields recorded so
/// far in `out`.  An end event whose recorded span does not lie inside
/// the input records nothing (the engine never produces such a pair,
/// which the well-nestedness lemma shows).
pub open spec fn sp_extract_from(
    s: Seq<char>,
    evs: Seq<Ev>,
    i: int,
    pending: Map<Rule, int>,
    out: Map<Rule, Seq<char>>,
) -> Map<Rule, Seq<char>>
    decreases evs.len() - i,
{
    if !(0 <= i < evs.len()) {
        out
    } else {
        match evs[i] {
            Ev::Start { rule, pos } => sp_extract_from(s, evs, i + 1, pending.insert(rule, pos), out),
            Ev::End { rule, pos } => {
                if pending.contains_key(rule) {
                    let v = pending[rule];
                    let out2 = if 0 <= v <= pos <= s.len() {
                        out.insert(rule, s.subrange(v, pos))
                    } else {
                        out
                    };
                    sp_extract_from(s, evs, i + 1, pending.remove(rule), out2)
                } else {
                    sp_extract_from(s, evs, i + 1, pending, out)
                }
            },
        }
    }
}

/// The mapping the extraction algorithm computes from an event stream.
pub open spec fn sp_extract(s: Seq<char>, evs: Seq<Ev>) -> Map<Rule, Seq<char>> {
    sp_extract_from(s, evs, 0, Map::empty(), Map::empty())
}

/// The extracted fields of a successful parse: for each rule that
/// completed at least one start/end pair, the substring spanned by the
/// last such pair.
#[derive(Debug)]
pub struct ParsedFields {
    pairs: Vec<(Rule, String)>,
}

impl View for ParsedFields {
    type V = Map<Rule, Seq<char>>;

    closed spec fn view(&self) -> Map<Rule, Seq<char>> {
        fields_map(self.pairs@)
    }
}

proof fn lemma_fields_map_lookup(ps: Seq<(Rule, String)>, i: int, rule: Rule)
    requires
        0 <= i < ps.len(),
        ps[i].0 == rule,
        forall|j: int| i < j < ps.len() ==> ps[j].0 != rule,
    ensures
        fields_map(ps).contains_key(rule),
        fields_map(ps)[rule] == ps[i].1@,
    decreases ps.len(),
{
    if i < ps.len() - 1 {
        lemma_fields_map_lookup(ps.drop_last(), i, rule);
    }
}

proof fn lemma_fields_map_absent(ps: Seq<(Rule, String)>, rule: Rule)
    requires
        forall|j: int| 0 <= j < ps.len() ==> ps[j].0 != rule,
    ensures
        !fields_map(ps).contains_key(rule),
    decreases ps.len(),
{
    if ps.len() > 0 {
        lemma_fields_map_absent(ps.drop_last(), rule);
    }
}

proof fn lemma_pending_map_lookup(ps: Seq<(Rule, Option<usize>)>, i: int, rule: Rule)
    requires
        0 <= i < ps.len(),
        ps[i].0 == rule,
        forall|j: int| i < j < ps.len() ==> ps[j].0 != rule,
    ensures
        match ps[i].1 {
            Option::Some(v) => pending_map(ps).contains_key(rule) && pending_map(ps)[rule] == v as int,
            Option::None => !pending_map(ps).contains_key(rule),
        },
    decreases ps.len(),
{
    if i < ps.len() - 1 {
        lemma_pending_map_lookup(ps.drop_last(), i, rule);
    }
}

proof fn lemma_pending_map_absent(ps: Seq<(Rule, Option<usize>)>, rule: Rule)
    requires
        forall|j: int| 0 <= j < ps.len() ==> ps[j].0 != rule,
    ensures
        !pending_map(ps).contains_key(rule),
    decreases ps.len(),
{
    if ps.len() > 0 {
        lemma_pending_map_absent(ps.drop_last(), rule);
    }
}

/// Looks a rule up in the pending table: the offset of its most recent
/// unmatched start, if any.
fn pending_get(pending: &Vec<(Rule, Option<usize>)>, rule: Rule) -> (r: Option<usize>)
    ensures
        match r {
            Option::Some(v) => pending_map(pending@).contains_key(rule) && pending_map(pending@)[rule]
                == v as int,
            Option::None => !pending_map(pending@).contains_key(rule),
        },
{
    let mut i = pending.len();
    while i > 0
        invariant
            i <= pending.len(),
            forall|j: int| i <= j < pending@.len() ==> pending@[j].0 != rule,
        decreases i,
    {
        i = i - 1;
        let (r2, o) = pending[i];
        if r2 == rule {
            proof {
                lemma_pending_map_lookup(pending@, i as int, rule);
            }
            return o;
        }
    }
    proof {
        lemma_pending_map_absent(pending@, rule);
    }
    None
}

impl ParsedFields {
    /// The substring the given rule matched, if the parse completed a
    /// pair for it.
    pub fn get(&self, rule: Rule) -> (r: Option<&String>)
        ensures
            match r {
                Option::Some(v) => self@.contains_key(rule) && v@ == self@[rule],
                Option::None => !self@.contains_key(rule),
            },
    {
        let mut i = self.pairs.len();
        while i > 0
            invariant
                i <= self.pairs.len(),
                forall|j: int| i <= j < self.pairs@.len() ==> self.pairs@[j].0 != rule,
            decreases i,
        {
            i = i - 1;
            if self.pairs[i].0 == rule {
                proof {
                    lemma_fields_map_lookup(self.pairs@, i as int, rule);
                }
                return Some(&self.pairs[i].1);
            }
        }
        proof {
            lemma_fields_map_absent(self.pairs@, rule);
        }
        None
    }

    /// The recorded pairs in the order they were recorded; a later
    /// entry for a rule supersedes an earlier one.
    pub fn entries(&self) -> (r: &Vec<(Rule, String)>)
        ensures
            fields_map(r@) == self@,
    {
        &self.pairs
    }
}

/// Runs the extraction algorithm on an event stream.
pub fn extract(input: &str, events: &Vec<Token>) -> (r: ParsedFields)
    ensures
        r@ == sp_extract(input@, toks_view(events@)),
{
    let n = input.unicode_len();
    let ghost evs = toks_view(events@);
    let mut pending: Vec<(Rule, Option<usize>)> = Vec::new();
    let mut pairs: Vec<(Rule, String)> = Vec::new();
    let mut i: usize = 0;
    proof {
        assert(pending_map(pending@) =~= Map::<Rule, int>::empty());
        assert(fields_map(pairs@) =~= Map::<Rule, Seq<char>>::empty());
    }
    while i < events.len()
        invariant
            i <= events.len(),
            n == input@.len(),
            evs == toks_view(events@),
            (sp_extract_from(input@, evs, i as int, pending_map(pending@), fields_map(pairs@))
                == sp_extract(input@, evs)),
        decreases events.len() - i,
    {
        let t = events[i];
        proof {
            assert(evs[i as int] == tok_v(t));
        }
        match t {
            Token::Start { rule, pos } => {
                let ghost ps0 = pending@;
                pending.push((rule, Some(pos)));
                proof {
                    assert(pending@.drop_last() =~= ps0);
                    assert(pending_map(pending@) == pending_map(ps0).insert(rule, pos as int));
                }
            },
            Token::End { rule, pos } => {
                match pending_get(&pending, rule) {
                    Some(v) => {
                        let ghost ps0 = pending@;
                        let ghost fs0 = pairs@;
                        if v <= pos && pos <= n {
                            let sub = input.substring_char(v, pos);
                            pairs.push((rule, sub.to_owned()));
                            proof {
                                assert(pairs@.drop_last() =~= fs0);
                                assert(fields_map(pairs@) == fields_map(fs0).insert(
                                    rule,
                                    input@.subrange(v as int, pos as int),
                                ));
                            }
                        }
                        pending.push((rule, None));
                        proof {
                            assert(pending@.drop_last() =~= ps0);
                            assert(pending_map(pending@) == pending_map(ps0).remove(rule));
                        }
                    },
                    None => {},
                }
            },
        }
        i = i + 1;
    }
    ParsedFields { pairs }
}

/// What `parse_prefix` returns for an input: the extracted mapping of
/// the grammar's match, or the grammar mismatch with its furthest
/// position and expected constructs.
pub open spec fn parse_prefix_post(s: Seq<char>, r: Result<ParsedFields, ParseError>) -> bool {
    match sp_key(s) {
        SpResult::Match { end, evs } => r matches Ok(m) && m@ == sp_extract(s, evs),
        SpResult::Fail { at, exp } => r matches Err(e) && e.pos as int == at && e.expected@ == exp,
    }
}

/// Parses a gallery key against the grammar and extracts each named
/// rule's substring.  Success and failure, the mapping, and the error's
/// position and expected constructs are all pinned by `parse_prefix_post`.
pub fn parse_prefix(prefix: &str) -> (r: Result<ParsedFields, ParseError>)
    ensures
        parse_prefix_post(prefix@, r),
{
    match KeyParser::parse(prefix) {
        Ok(tokens) => Ok(extract(prefix, &tokens)),
        Err(e) => Err(e),
    }
}

} // verus!
