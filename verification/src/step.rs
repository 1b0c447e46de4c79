//! The transition functions of the assembly engine, in specification
//! form: what creating a tag, firing a rule, consuming a line, and linking
//! do to the emission state. The executable parser is proved to compute
//! exactly these functions.

use vstd::prelude::*;

use crate::config::{CaptureModel, ConfigModel, NumFeedback, RuleModel, TagFeedback};
use crate::error::ErrModel;
use crate::model::{
    find_minus_from, find_plus_from, lens_of, tag_lookup, RepModel, StateModel,
};
use crate::rex::regex_captures_spec;
use crate::shift::{spec_shift, to_word, wadd};
use crate::text::{all_char, parsed_i64, spec_is_whitespace};

verus! {

/// Each character of a captured string, as the word its code point makes.
pub open spec fn chars_to_words(s: Seq<char>) -> Seq<u64> {
    s.map_values(|c: char| c as u64)
}

/// Recording a token captured by the tag-creation rule: a name of one or
/// more `+` characters joins the forward directional tags, one of `-`
/// characters the backward ones, and any other name (the empty one
/// included) the named map — fatally if it is already there.
pub open spec fn spec_tag_create(st: StateModel, name: Seq<char>, line: usize) -> (StateModel,
    Option<ErrModel>) {
    if name.len() > 0 && all_char(name, '+') {
        (
            StateModel {
                plus_tags: st.plus_tags.push((name.len() as usize, lens_of(st.segments))),
                ..st
            },
            None,
        )
    } else if name.len() > 0 && all_char(name, '-') {
        (
            StateModel {
                minus_tags: st.minus_tags.push((name.len() as usize, lens_of(st.segments))),
                ..st
            },
            None,
        )
    } else if tag_lookup(st.tags, name) is Some {
        (st, Some(ErrModel::DuplicateTag { line, tag: name }))
    } else {
        (StateModel { tags: st.tags.push((name, lens_of(st.segments))), ..st }, None)
    }
}

/// The in-flight state while one rule fires: the segments so far, the
/// rule's mutable template copy, the replacement list so far, and the
/// first error if one occurred.
#[verifier::ext_equal]
pub struct FireStep {
    pub segments: Seq<Seq<u64>>,
    pub local: Seq<Seq<u64>>,
    pub reps: Seq<RepModel>,
    pub err: Option<ErrModel>,
}

/// Self-references from `i` on: each adds the shifted current length of a
/// segment into the template copy, with 64-bit wraparound.
pub open spec fn apply_self_refs(
    segments: Seq<Seq<u64>>,
    local: Seq<Seq<u64>>,
    srs: Seq<TagFeedback>,
    i: int,
) -> Seq<Seq<u64>>
    decreases srs.len() - i,
{
    if i < 0 || i >= srs.len() {
        local
    } else {
        let f = srs[i];
        let p = segments[f.from_segment as int].len() as u64;
        let row = local[f.add_segment as int];
        let updated = local.update(
            f.add_segment as int,
            row.update(f.add_index as int, wadd(row[f.add_index as int], spec_shift(p, f.shift))),
        );
        apply_self_refs(segments, updated, srs, i + 1)
    }
}

/// The first capture-level error from `g` on, before any state changes: a
/// capture group that did not participate in the match, or a number that
/// does not parse in its base.
pub open spec fn precheck_err(
    captures: Seq<CaptureModel>,
    caps: Seq<Option<Seq<char>>>,
    line: usize,
    g: int,
) -> Option<ErrModel>
    decreases captures.len() - g,
{
    if g < 0 || g >= captures.len() {
        None
    } else if caps[g + 1] is None {
        Some(ErrModel::UnmatchedCapture { line })
    } else {
        match captures[g] {
            CaptureModel::Num { base, feedbacks } => {
                if parsed_i64(caps[g + 1]->Some_0, base) is None {
                    Some(ErrModel::NumberParseFailure { line, text: caps[g + 1]->Some_0 })
                } else {
                    precheck_err(captures, caps, line, g + 1)
                }
            },
            _ => precheck_err(captures, caps, line, g + 1),
        }
    }
}

/// Numeric feedbacks from `i` on, applied to the parsed value `val`:
/// shift, optional negation, then either add into the template copy or
/// fill the segment and consume the template slot used as the base.
pub open spec fn apply_num_feedbacks(
    fs: FireStep,
    fbs: Seq<NumFeedback>,
    val: u64,
    line: usize,
    i: int,
) -> FireStep
    decreases fbs.len() - i,
{
    if fs.err is Some || i < 0 || i >= fbs.len() {
        fs
    } else {
        let f = fbs[i];
        let shifted = spec_shift(val, f.shift);
        let v = if f.negate {
            wadd(!shifted, 1)
        } else {
            shifted
        };
        if f.index >= fs.local[f.segment as int].len() {
            FireStep { err: Some(ErrModel::FeedbackOutOfRange { line }), ..fs }
        } else if f.fill {
            let base = fs.local[f.segment as int][f.index as int];
            let n = (v as i64) + f.fill_offset;
            if n < 0 {
                FireStep { err: Some(ErrModel::NegativeFill { line }), ..fs }
            } else {
                let row = fs.segments[f.segment as int];
                let filled = if f.align {
                    if row.len() >= n {
                        row
                    } else {
                        row + Seq::new((n - row.len()) as nat, |_j: int| base)
                    }
                } else {
                    row + Seq::new(n as nat, |_j: int| base)
                };
                let fs2 = FireStep {
                    segments: fs.segments.update(f.segment as int, filled),
                    local: fs.local.update(f.segment as int, fs.local[f.segment as int].drop_last()),
                    ..fs
                };
                apply_num_feedbacks(fs2, fbs, val, line, i + 1)
            }
        } else {
            let row = fs.local[f.segment as int];
            let fs2 = FireStep {
                local: fs.local.update(
                    f.segment as int,
                    row.update(f.index as int, wadd(row[f.index as int], v)),
                ),
                ..fs
            };
            apply_num_feedbacks(fs2, fbs, val, line, i + 1)
        }
    }
}

/// Tag feedbacks from `i` on: each records a replacement targeting the
/// position its template word will occupy after emission.
pub open spec fn apply_tag_feedbacks(
    fs: FireStep,
    fbs: Seq<TagFeedback>,
    name: Seq<char>,
    line: usize,
    i: int,
) -> FireStep
    decreases fbs.len() - i,
{
    if i < 0 || i >= fbs.len() {
        fs
    } else {
        let f = fbs[i];
        let rep = RepModel {
            line,
            shift: f.shift,
            add_segment: f.add_segment,
            index: (fs.segments[f.add_segment as int].len() + f.add_index) as u128,
            tag: name,
            pos_segment: f.from_segment,
            pos_offset: (
            if f.relative {
                f.offset - fs.segments[f.from_segment as int].len()
            } else {
                f.offset as int
            }) as i128,
        };
        apply_tag_feedbacks(FireStep { reps: fs.reps.push(rep), ..fs }, fbs, name, line, i + 1)
    }
}

/// The capture groups from `g` on, in order; stops at the first error.
pub open spec fn apply_captures(
    fs: FireStep,
    captures: Seq<CaptureModel>,
    caps: Seq<Option<Seq<char>>>,
    line: usize,
    g: int,
) -> FireStep
    decreases captures.len() - g,
{
    if fs.err is Some || g < 0 || g >= captures.len() {
        fs
    } else {
        let text = caps[g + 1]->Some_0;
        let fs2 = match captures[g] {
            CaptureModel::Tag { feedbacks } => apply_tag_feedbacks(fs, feedbacks, text, line, 0),
            CaptureModel::Str { add_segment } => FireStep {
                segments: fs.segments.update(
                    add_segment as int,
                    fs.segments[add_segment as int] + chars_to_words(text),
                ),
                ..fs
            },
            CaptureModel::Num { base, feedbacks } => apply_num_feedbacks(
                fs,
                feedbacks,
                parsed_i64(text, base)->Some_0 as u64,
                line,
                0,
            ),
        };
        apply_captures(fs2, captures, caps, line, g + 1)
    }
}

/// Committing a fired rule: what remains of the template copy is appended
/// to each segment.
pub open spec fn zip_append(segments: Seq<Seq<u64>>, local: Seq<Seq<u64>>) -> Seq<Seq<u64>> {
    Seq::new(segments.len(), |i: int| segments[i] + local[i])
}

/// One rule firing on the capture groups `caps` of its match: copy the
/// template, apply self-references, process every capture, then commit.
/// Errors found before any state change leave the state untouched;
/// feedback errors may leave the fills and replacements of earlier
/// captures behind, and nothing is committed.
pub open spec fn spec_fire(
    st: StateModel,
    rule: RuleModel,
    caps: Seq<Option<Seq<char>>>,
    line: usize,
) -> (StateModel, Option<ErrModel>) {
    let local0 = apply_self_refs(st.segments, rule.template, rule.self_refs, 0);
    match precheck_err(rule.captures, caps, line, 0) {
        Some(e) => (st, Some(e)),
        None => {
            let fs = apply_captures(
                FireStep { segments: st.segments, local: local0, reps: st.replacements, err: None },
                rule.captures,
                caps,
                line,
                0,
            );
            match fs.err {
                Some(e) => (
                    StateModel { segments: fs.segments, replacements: fs.reps, ..st },
                    Some(e),
                ),
                None => (
                    StateModel {
                        segments: zip_append(fs.segments, fs.local),
                        replacements: fs.reps,
                        ..st
                    },
                    None,
                ),
            }
        },
    }
}

/// A match of the pattern that covers the token in full: the capture
/// groups of the leftmost match, accepted only when the whole match
/// (group 0) is the entire token. Token matching must succeed over the
/// whole token, not a part of it, to be accepted.
pub open spec fn whole_match(pattern: Seq<char>, token: Seq<char>) -> Option<
    Seq<Option<Seq<char>>>,
> {
    match regex_captures_spec(pattern, token) {
        Some(caps) => {
            if caps.len() > 0 && caps[0] == Some(token) {
                Some(caps)
            } else {
                None
            }
        },
        None => None,
    }
}

/// The first rule at or after `i` whose regex matches the whole token,
/// with its capture groups.
pub open spec fn first_rule_match(rules: Seq<RuleModel>, token: Seq<char>, i: int) -> Option<
    (int, Seq<Option<Seq<char>>>),
>
    decreases rules.len() - i,
{
    if i < 0 || i >= rules.len() {
        None
    } else {
        match whole_match(rules[i].pattern, token) {
            Some(caps) => Some((i, caps)),
            None => first_rule_match(rules, token, i + 1),
        }
    }
}

/// One token: empty tokens are skipped; a token the tag-creation regex
/// matches in full records a tag; otherwise the first rule whose regex
/// matches the token in full fires; otherwise the token is unrecognized
/// and fatal.
pub open spec fn spec_dispatch(
    st: StateModel,
    cfg: ConfigModel,
    token: Seq<char>,
    line: usize,
) -> (StateModel, Option<ErrModel>) {
    if token.len() == 0 {
        (st, None)
    } else {
        match whole_match(cfg.tag_pattern, token) {
            Some(caps) => {
                if caps.len() >= 2 && caps[1] is Some {
                    spec_tag_create(st, caps[1]->Some_0, line)
                } else {
                    (st, Some(ErrModel::UnmatchedCapture { line }))
                }
            },
            None => match first_rule_match(cfg.rules, token, 0) {
                Some((i, caps)) => spec_fire(st, cfg.rules[i], caps, line),
                None => (st, Some(ErrModel::UnrecognizedToken { line, token })),
            },
        }
    }
}

/// Everything before the first `#` of the line; the rest is a comment.
pub open spec fn strip_comment(line: Seq<char>, i: int) -> Seq<char>
    decreases line.len() - i,
{
    if i < 0 || i >= line.len() {
        line
    } else if line[i] == '#' {
        line.take(i)
    } else {
        strip_comment(line, i + 1)
    }
}

/// The end of the whitespace-free run starting at `i`: the first position
/// at or after `i` holding whitespace, or the end of the line.
pub open spec fn token_end(line: Seq<char>, i: int) -> int
    decreases line.len() - i,
{
    if i < 0 || i >= line.len() {
        i
    } else if spec_is_whitespace(line[i]) {
        i
    } else {
        token_end(line, i + 1)
    }
}

pub proof fn lemma_token_end_bounds(line: Seq<char>, i: int)
    requires
        0 <= i <= line.len(),
    ensures
        i <= token_end(line, i) <= line.len(),
        i < line.len() && !spec_is_whitespace(line[i]) ==> token_end(line, i) > i,
    decreases line.len() - i,
{
    if i < line.len() && !spec_is_whitespace(line[i]) {
        lemma_token_end_bounds(line, i + 1);
    }
}

/// Whitespace splitting from position `i` on: each maximal non-whitespace
/// run is dispatched in order, stopping at the first error.
pub open spec fn spec_parse_tokens(
    st: StateModel,
    cfg: ConfigModel,
    line: Seq<char>,
    lineno: usize,
    i: int,
) -> (StateModel, Option<ErrModel>)
    decreases line.len() - i,
    via spec_parse_tokens_decreases
{
    if i < 0 || i >= line.len() {
        (st, None)
    } else if spec_is_whitespace(line[i]) {
        spec_parse_tokens(st, cfg, line, lineno, i + 1)
    } else {
        let j = token_end(line, i);
        let (st2, e) = spec_dispatch(st, cfg, line.subrange(i, j), lineno);
        if e is Some {
            (st2, e)
        } else {
            spec_parse_tokens(st2, cfg, line, lineno, j)
        }
    }
}

#[via_fn]
proof fn spec_parse_tokens_decreases(
    st: StateModel,
    cfg: ConfigModel,
    line: Seq<char>,
    lineno: usize,
    i: int,
) {
    if 0 <= i < line.len() && !spec_is_whitespace(line[i]) {
        lemma_token_end_bounds(line, i);
    }
}

/// One source line: strip the comment, then dispatch the whole remainder
/// or each whitespace-delimited word, per the configuration.
pub open spec fn spec_parse_line(
    st: StateModel,
    cfg: ConfigModel,
    line: Seq<char>,
    lineno: usize,
) -> (StateModel, Option<ErrModel>) {
    let stripped = strip_comment(line, 0);
    if cfg.split {
        spec_parse_tokens(st, cfg, stripped, lineno, 0)
    } else {
        spec_dispatch(st, cfg, stripped, lineno)
    }
}

/// The lines from `i` on, numbered from 1, stopping at the first error.
pub open spec fn spec_parse_lines(
    st: StateModel,
    cfg: ConfigModel,
    lines: Seq<Seq<char>>,
    i: int,
) -> (StateModel, Option<ErrModel>)
    decreases lines.len() - i,
{
    if i < 0 || i >= lines.len() {
        (st, None)
    } else {
        let (st2, e) = spec_parse_line(st, cfg, lines[i], (i + 1) as usize);
        if e is Some {
            (st2, e)
        } else {
            spec_parse_lines(st2, cfg, lines, i + 1)
        }
    }
}

/// A sequence of input buffers, each a sequence of lines numbered from 1,
/// fed to one parser in order; stops at the first error.
pub open spec fn spec_parse_buffers(
    st: StateModel,
    cfg: ConfigModel,
    buffers: Seq<Seq<Seq<char>>>,
    i: int,
) -> (StateModel, Option<ErrModel>)
    decreases buffers.len() - i,
{
    if i < 0 || i >= buffers.len() {
        (st, None)
    } else {
        let (st2, e) = spec_parse_lines(st, cfg, buffers[i], 0);
        if e is Some {
            (st2, e)
        } else {
            spec_parse_buffers(st2, cfg, buffers, i + 1)
        }
    }
}

/// Resolving one replacement against the final tag state: select the
/// position vector its tag denotes, then add the shifted position (plus
/// offset) into the referenced word, with 64-bit wraparound.
pub open spec fn spec_link_one(segments: Seq<Seq<u64>>, st: StateModel, r: RepModel) -> (Seq<
    Seq<u64>,
>, Option<ErrModel>) {
    let sel = if all_char(r.tag, '+') {
        find_plus_from(st.plus_tags, r.tag.len(), r.add_segment, r.index, 0)
    } else if all_char(r.tag, '-') {
        find_minus_from(st.minus_tags, r.tag.len(), r.add_segment, r.index, st.minus_tags.len() - 1)
    } else {
        tag_lookup(st.tags, r.tag)
    };
    match sel {
        None => (segments, Some(ErrModel::UndefinedTag { line: r.line, tag: r.tag })),
        Some(pos) => {
            if r.index < segments[r.add_segment as int].len() as u128 {
                let patch = spec_shift(
                    wadd(to_word(pos[r.pos_segment as int] as int), to_word(r.pos_offset as int)),
                    r.shift,
                );
                let row = segments[r.add_segment as int];
                (
                    segments.update(
                        r.add_segment as int,
                        row.update(r.index as int, wadd(row[r.index as int], patch)),
                    ),
                    None,
                )
            } else {
                (segments, Some(ErrModel::PatchOutOfRange { line: r.line }))
            }
        },
    }
}

/// The replacements from `i` on, in creation order, stopping at the first
/// error.
pub open spec fn spec_link_from(segments: Seq<Seq<u64>>, st: StateModel, i: int) -> (Seq<Seq<u64>>,
    Option<ErrModel>)
    decreases st.replacements.len() - i,
{
    if i < 0 || i >= st.replacements.len() {
        (segments, None)
    } else {
        let (segments2, e) = spec_link_one(segments, st, st.replacements[i]);
        if e is Some {
            (segments2, e)
        } else {
            spec_link_from(segments2, st, i + 1)
        }
    }
}

/// The whole linking pass over a parsed state.
pub open spec fn spec_link(st: StateModel) -> (Seq<Seq<u64>>, Option<ErrModel>) {
    spec_link_from(st.segments, st, 0)
}

} // verus!
