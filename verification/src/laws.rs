//! Properties of the engine's transition functions: the shape invariant is
//! preserved, segment lengths never shrink while parsing and are exactly
//! kept while linking, and rules commit atomically.

use vstd::prelude::*;

use crate::config::{
    capture_ok, feedback_ok, num_feedback_ok, CaptureModel, ConfigModel, NumFeedback, RuleModel,
    TagFeedback,
};
use crate::model::{
    lemma_lens_eq_trans, lemma_lens_leq_trans, lemma_tag_lookup_none, lens_eq, lens_leq, lens_of,
    rep_wf, st_wf, tag_lookup, tag_lookup_from, RepModel, StateModel,
};
use crate::step::{
    apply_captures, apply_num_feedbacks, apply_self_refs, apply_tag_feedbacks, first_rule_match,
    precheck_err, spec_dispatch, spec_fire, spec_link_from, spec_link_one, spec_parse_line,
    spec_parse_lines, spec_parse_tokens, spec_tag_create, zip_append, FireStep,
};

verus! {

/// Self-references only rewrite template entries in place: the number of
/// rows and the length of every row are unchanged.
pub proof fn lemma_self_refs_shape(
    segments: Seq<Seq<u64>>,
    local: Seq<Seq<u64>>,
    srs: Seq<TagFeedback>,
    i: int,
)
    requires
        forall|j: int|
            0 <= j < srs.len() ==> (#[trigger] srs[j]).add_segment < local.len()
                && srs[j].add_index < local[srs[j].add_segment as int].len(),
    ensures
        lens_eq(local, apply_self_refs(segments, local, srs, i)),
    decreases srs.len() - i,
{
    let r = apply_self_refs(segments, local, srs, i);
    if 0 <= i < srs.len() {
        let f = srs[i];
        let row = local[f.add_segment as int];
        let updated = local.update(
            f.add_segment as int,
            row.update(
                f.add_index as int,
                crate::shift::wadd(
                    row[f.add_index as int],
                    crate::shift::spec_shift(segments[f.from_segment as int].len() as u64, f.shift),
                ),
            ),
        );
        assert(lens_eq(local, updated)) by {
            assert forall|k: int| 0 <= k < local.len() implies (#[trigger] local[k]).len() == (
            #[trigger] updated[k]).len() by {
                if k != f.add_segment as int {
                    assert(updated[k] == local[k]);
                }
            }
        }
        assert forall|j: int|
            0 <= j < srs.len() implies (#[trigger] srs[j]).add_segment < updated.len()
            && srs[j].add_index < updated[srs[j].add_segment as int].len() by {
            assert(updated[srs[j].add_segment as int].len() == local[srs[j].add_segment as int].len());
        }
        lemma_self_refs_shape(segments, updated, srs, i + 1);
        lemma_lens_eq_trans(local, updated, r);
    } else {
        assert(lens_eq(local, r));
    }
}

/// Tag feedbacks only append replacements: segments, template and error
/// are untouched, earlier replacements are kept, and every appended
/// replacement references existing segments.
pub proof fn lemma_tag_feedbacks_props(
    fs: FireStep,
    fbs: Seq<TagFeedback>,
    name: Seq<char>,
    line: usize,
    i: int,
    s: nat,
)
    requires
        forall|j: int|
            0 <= j < fbs.len() ==> (#[trigger] fbs[j]).add_segment < s && fbs[j].from_segment < s,
    ensures
        ({
            let r = apply_tag_feedbacks(fs, fbs, name, line, i);
            &&& r.segments == fs.segments
            &&& r.local == fs.local
            &&& r.err == fs.err
            &&& r.reps.len() >= fs.reps.len()
            &&& forall|j: int| 0 <= j < fs.reps.len() ==> #[trigger] r.reps[j] == fs.reps[j]
            &&& forall|j: int| fs.reps.len() <= j < r.reps.len() ==> rep_wf(#[trigger] r.reps[j], s)
        }),
    decreases fbs.len() - i,
{
    if 0 <= i < fbs.len() {
        let f = fbs[i];
        let rep = RepModel {
            line,
            shift: f.shift,
            add_segment: f.add_segment,
            index: (fs.segments[f.add_segment as int].len() + f.add_index) as u128,
            tag: name,
            pos_segment: f.from_segment,
            pos_offset: (
            if f.relative {
                f.offset - fs.segments[f.from_segment as int].len()
            } else {
                f.offset as int
            }) as i128,
        };
        let fs2 = FireStep { reps: fs.reps.push(rep), ..fs };
        lemma_tag_feedbacks_props(fs2, fbs, name, line, i + 1, s);
    }
}

/// Numeric feedbacks never touch the replacements, keep the segment and
/// template row counts, and only ever lengthen segments.
pub proof fn lemma_num_feedbacks_props(
    fs: FireStep,
    fbs: Seq<NumFeedback>,
    val: u64,
    line: usize,
    i: int,
    s: nat,
)
    requires
        fs.segments.len() == s,
        fs.local.len() == s,
        forall|j: int| 0 <= j < fbs.len() ==> (#[trigger] fbs[j]).segment < s,
    ensures
        ({
            let r = apply_num_feedbacks(fs, fbs, val, line, i);
            &&& r.local.len() == s
            &&& r.reps == fs.reps
            &&& lens_leq(fs.segments, r.segments)
        }),
    decreases fbs.len() - i,
{
    let r = apply_num_feedbacks(fs, fbs, val, line, i);
    if fs.err is None && 0 <= i < fbs.len() {
        let f = fbs[i];
        let shifted = crate::shift::spec_shift(val, f.shift);
        let v = if f.negate {
            crate::shift::wadd(!shifted, 1)
        } else {
            shifted
        };
        if f.index >= fs.local[f.segment as int].len() {
            assert(lens_leq(fs.segments, r.segments));
        } else if f.fill {
            let base = fs.local[f.segment as int][f.index as int];
            let n = (v as i64) + f.fill_offset;
            if n < 0 {
                assert(lens_leq(fs.segments, r.segments));
            } else {
                let row = fs.segments[f.segment as int];
                let filled = if f.align {
                    if row.len() >= n {
                        row
                    } else {
                        row + Seq::new((n - row.len()) as nat, |_j: int| base)
                    }
                } else {
                    row + Seq::new(n as nat, |_j: int| base)
                };
                let fs2 = FireStep {
                    segments: fs.segments.update(f.segment as int, filled),
                    local: fs.local.update(f.segment as int, fs.local[f.segment as int].drop_last()),
                    ..fs
                };
                assert(lens_leq(fs.segments, fs2.segments)) by {
                    assert forall|k: int| 0 <= k < s implies (#[trigger] fs.segments[k]).len() <= (
                    #[trigger] fs2.segments[k]).len() by {
                        if k != f.segment as int {
                            assert(fs2.segments[k] == fs.segments[k]);
                        }
                    }
                }
                lemma_num_feedbacks_props(fs2, fbs, val, line, i + 1, s);
                lemma_lens_leq_trans(fs.segments, fs2.segments, r.segments);
            }
        } else {
            let row = fs.local[f.segment as int];
            let fs2 = FireStep {
                local: fs.local.update(
                    f.segment as int,
                    row.update(f.index as int, crate::shift::wadd(row[f.index as int], v)),
                ),
                ..fs
            };
            lemma_num_feedbacks_props(fs2, fbs, val, line, i + 1, s);
        }
    } else {
        assert(lens_leq(fs.segments, r.segments));
    }
}

/// Processing captures keeps the segment and template row counts, only
/// lengthens segments, keeps earlier replacements, and appends only
/// replacements that reference existing segments.
pub proof fn lemma_captures_props(
    fs: FireStep,
    captures: Seq<CaptureModel>,
    caps: Seq<Option<Seq<char>>>,
    line: usize,
    g: int,
    s: nat,
    tmpl: Seq<Seq<u64>>,
)
    requires
        fs.segments.len() == s,
        fs.local.len() == s,
        forall|j: int| 0 <= j < captures.len() ==> capture_ok(#[trigger] captures[j], s, tmpl),
    ensures
        ({
            let r = apply_captures(fs, captures, caps, line, g);
            &&& r.local.len() == s
            &&& r.reps.len() >= fs.reps.len()
            &&& forall|j: int| 0 <= j < fs.reps.len() ==> #[trigger] r.reps[j] == fs.reps[j]
            &&& forall|j: int| fs.reps.len() <= j < r.reps.len() ==> rep_wf(#[trigger] r.reps[j], s)
            &&& lens_leq(fs.segments, r.segments)
        }),
    decreases captures.len() - g,
{
    let r = apply_captures(fs, captures, caps, line, g);
    if fs.err is None && 0 <= g < captures.len() {
        let text = caps[g + 1]->Some_0;
        match captures[g] {
            CaptureModel::Tag { feedbacks } => {
                assert(capture_ok(captures[g], s, tmpl));
                assert forall|j: int| 0 <= j < feedbacks.len() implies (
                #[trigger] feedbacks[j]).add_segment < s && feedbacks[j].from_segment < s by {
                    assert(feedback_ok(feedbacks[j], s, tmpl));
                }
                lemma_tag_feedbacks_props(fs, feedbacks, text, line, 0, s);
                let fs2 = apply_tag_feedbacks(fs, feedbacks, text, line, 0);
                lemma_captures_props(fs2, captures, caps, line, g + 1, s, tmpl);
                lemma_lens_leq_trans(fs.segments, fs2.segments, r.segments);
            },
            CaptureModel::Str { add_segment } => {
                assert(capture_ok(captures[g], s, tmpl));
                let fs2 = FireStep {
                    segments: fs.segments.update(
                        add_segment as int,
                        fs.segments[add_segment as int] + crate::step::chars_to_words(text),
                    ),
                    ..fs
                };
                assert(lens_leq(fs.segments, fs2.segments)) by {
                    assert forall|k: int| 0 <= k < s implies (#[trigger] fs.segments[k]).len() <= (
                    #[trigger] fs2.segments[k]).len() by {
                        if k != add_segment as int {
                            assert(fs2.segments[k] == fs.segments[k]);
                        }
                    }
                }
                lemma_captures_props(fs2, captures, caps, line, g + 1, s, tmpl);
                lemma_lens_leq_trans(fs.segments, fs2.segments, r.segments);
            },
            CaptureModel::Num { base, feedbacks } => {
                assert(capture_ok(captures[g], s, tmpl));
                assert forall|j: int| 0 <= j < feedbacks.len() implies (
                #[trigger] feedbacks[j]).segment < s by {
                    assert(num_feedback_ok(feedbacks[j], s, tmpl));
                }
                let val = crate::text::parsed_i64(text, base)->Some_0 as u64;
                lemma_num_feedbacks_props(fs, feedbacks, val, line, 0, s);
                let fs2 = apply_num_feedbacks(fs, feedbacks, val, line, 0);
                lemma_captures_props(fs2, captures, caps, line, g + 1, s, tmpl);
                lemma_lens_leq_trans(fs.segments, fs2.segments, r.segments);
            },
        }
    } else {
        assert(lens_leq(fs.segments, r.segments));
    }
}

/// Recording a tag keeps the shape invariant, never touches the segments,
/// and leaves the replacements alone.
pub proof fn lemma_tag_create_props(st: StateModel, name: Seq<char>, line: usize, s: nat)
    requires
        st_wf(st, s),
    ensures
        ({
            let (st2, e) = spec_tag_create(st, name, line);
            &&& st_wf(st2, s)
            &&& st2.segments == st.segments
            &&& st2.replacements == st.replacements
        }),
{
    if !(name.len() > 0 && crate::text::all_char(name, '+')) && !(name.len() > 0
        && crate::text::all_char(name, '-')) && crate::model::tag_lookup(st.tags, name) is None {
        crate::model::lemma_tag_lookup_none(st.tags, name, 0);
        let pushed = st.tags.push((name, crate::model::lens_of(st.segments)));
        assert forall|i: int, j: int| 0 <= i < j < pushed.len() implies (#[trigger] pushed[i]).0
            != (#[trigger] pushed[j]).0 by {
            if j < st.tags.len() {
                assert(pushed[i] == st.tags[i] && pushed[j] == st.tags[j]);
            } else {
                assert(pushed[i] == st.tags[i] && pushed[j].0 == name);
            }
        }
    }
}

/// Firing a rule keeps the shape invariant, never shrinks a segment, and
/// never touches the recorded tags.
pub proof fn lemma_fire_props(
    st: StateModel,
    rule: RuleModel,
    caps: Seq<Option<Seq<char>>>,
    line: usize,
    s: nat,
)
    requires
        st_wf(st, s),
        rule.valid(s),
    ensures
        ({
            let (st2, e) = spec_fire(st, rule, caps, line);
            &&& st_wf(st2, s)
            &&& st2.tags == st.tags
            &&& st2.plus_tags == st.plus_tags
            &&& st2.minus_tags == st.minus_tags
            &&& lens_leq(st.segments, st2.segments)
        }),
{
    let (st2, e) = spec_fire(st, rule, caps, line);
    let local0 = apply_self_refs(st.segments, rule.template, rule.self_refs, 0);
    assert forall|j: int|
        0 <= j < rule.self_refs.len() implies (#[trigger] rule.self_refs[j]).add_segment
        < rule.template.len() && rule.self_refs[j].add_index < rule.template[rule.self_refs[j].add_segment as int].len() by {
        assert(feedback_ok(rule.self_refs[j], s, rule.template));
    }
    lemma_self_refs_shape(st.segments, rule.template, rule.self_refs, 0);
    if precheck_err(rule.captures, caps, line, 0) is None {
        let fs0 = FireStep { segments: st.segments, local: local0, reps: st.replacements, err: None };
        lemma_captures_props(fs0, rule.captures, caps, line, 0, s, rule.template);
        let fs = apply_captures(fs0, rule.captures, caps, line, 0);
        if fs.err is None {
            let committed = zip_append(fs.segments, fs.local);
            assert(lens_leq(fs.segments, committed)) by {
                assert forall|k: int| 0 <= k < s implies (#[trigger] fs.segments[k]).len() <= (
                #[trigger] committed[k]).len() by {
                    assert(committed[k] == fs.segments[k] + fs.local[k]);
                }
            }
            lemma_lens_leq_trans(st.segments, fs.segments, committed);
        }
    } else {
        assert(lens_leq(st.segments, st2.segments));
    }
}

/// A successful rule lookup yields an index in range and that rule's
/// whole-token capture groups.
pub proof fn lemma_first_rule_bounds(rules: Seq<RuleModel>, token: Seq<char>, i: int)
    requires
        0 <= i,
    ensures
        first_rule_match(rules, token, i) matches Some((j, caps)) ==> i <= j < rules.len()
            && crate::step::whole_match(rules[j].pattern, token) == Some(caps),
    decreases rules.len() - i,
{
    if i < rules.len() {
        lemma_first_rule_bounds(rules, token, i + 1);
    }
}

/// Dispatching one token keeps the shape invariant and never shrinks a
/// segment.
pub proof fn lemma_dispatch_props(st: StateModel, cfg: ConfigModel, token: Seq<char>, line: usize)
    requires
        st_wf(st, cfg.seg_count()),
        cfg.valid(),
    ensures
        ({
            let (st2, e) = spec_dispatch(st, cfg, token, line);
            &&& st_wf(st2, cfg.seg_count())
            &&& lens_leq(st.segments, st2.segments)
        }),
{
    let s = cfg.seg_count();
    let (st2, e) = spec_dispatch(st, cfg, token, line);
    if token.len() != 0 {
        match crate::step::whole_match(cfg.tag_pattern, token) {
            Some(caps) => {
                if caps.len() >= 2 && caps[1] is Some {
                    lemma_tag_create_props(st, caps[1]->Some_0, line, s);
                }
            },
            None => {
                lemma_first_rule_bounds(cfg.rules, token, 0);
                match first_rule_match(cfg.rules, token, 0) {
                    Some((i, caps)) => {
                        assert(cfg.rules[i].valid(s));
                        lemma_fire_props(st, cfg.rules[i], caps, line, s);
                    },
                    None => {},
                }
            },
        }
    }
    assert(lens_leq(st.segments, st2.segments));
}

/// Splitting and dispatching a line's tokens keeps the shape invariant
/// and never shrinks a segment.
pub proof fn lemma_tokens_props(
    st: StateModel,
    cfg: ConfigModel,
    line: Seq<char>,
    lineno: usize,
    i: int,
)
    requires
        st_wf(st, cfg.seg_count()),
        cfg.valid(),
    ensures
        ({
            let (st2, e) = spec_parse_tokens(st, cfg, line, lineno, i);
            &&& st_wf(st2, cfg.seg_count())
            &&& lens_leq(st.segments, st2.segments)
        }),
    decreases line.len() - i,
{
    let (stf, ef) = spec_parse_tokens(st, cfg, line, lineno, i);
    if 0 <= i < line.len() {
        if crate::text::spec_is_whitespace(line[i]) {
            lemma_tokens_props(st, cfg, line, lineno, i + 1);
        } else {
            let j = crate::step::token_end(line, i);
            crate::step::lemma_token_end_bounds(line, i);
            let (st2, e) = spec_dispatch(st, cfg, line.subrange(i, j), lineno);
            lemma_dispatch_props(st, cfg, line.subrange(i, j), lineno);
            if e is None {
                lemma_tokens_props(st2, cfg, line, lineno, j);
                lemma_lens_leq_trans(st.segments, st2.segments, stf.segments);
            }
        }
    } else {
        assert(lens_leq(st.segments, stf.segments));
    }
}

/// Parsing one line keeps the shape invariant and never shrinks a segment.
pub proof fn lemma_line_props(st: StateModel, cfg: ConfigModel, line: Seq<char>, lineno: usize)
    requires
        st_wf(st, cfg.seg_count()),
        cfg.valid(),
    ensures
        ({
            let (st2, e) = spec_parse_line(st, cfg, line, lineno);
            &&& st_wf(st2, cfg.seg_count())
            &&& lens_leq(st.segments, st2.segments)
        }),
{
    let stripped = crate::step::strip_comment(line, 0);
    if cfg.split {
        lemma_tokens_props(st, cfg, stripped, lineno, 0);
    } else {
        lemma_dispatch_props(st, cfg, stripped, lineno);
    }
}

/// Parsing a buffer of lines keeps the shape invariant and never shrinks
/// a segment: position monotonicity over a parser's lifetime.
pub proof fn lemma_lines_props(st: StateModel, cfg: ConfigModel, lines: Seq<Seq<char>>, i: int)
    requires
        st_wf(st, cfg.seg_count()),
        cfg.valid(),
    ensures
        ({
            let (st2, e) = spec_parse_lines(st, cfg, lines, i);
            &&& st_wf(st2, cfg.seg_count())
            &&& lens_leq(st.segments, st2.segments)
        }),
    decreases lines.len() - i,
{
    let (stf, ef) = spec_parse_lines(st, cfg, lines, i);
    if 0 <= i < lines.len() {
        let (st2, e) = spec_parse_line(st, cfg, lines[i], (i + 1) as usize);
        lemma_line_props(st, cfg, lines[i], (i + 1) as usize);
        if e is None {
            lemma_lines_props(st2, cfg, lines, i + 1);
            lemma_lens_leq_trans(st.segments, st2.segments, stf.segments);
        }
    } else {
        assert(lens_leq(st.segments, stf.segments));
    }
}

/// Linking patches words in place: the number of segments and the length
/// of every segment are exactly preserved.
pub proof fn lemma_link_shape(segments: Seq<Seq<u64>>, st: StateModel, i: int)
    requires
        forall|j: int|
            0 <= j < st.replacements.len() ==> (#[trigger] st.replacements[j]).add_segment
                < segments.len(),
    ensures
        lens_eq(segments, spec_link_from(segments, st, i).0),
    decreases st.replacements.len() - i,
{
    let (segf, ef) = spec_link_from(segments, st, i);
    if 0 <= i < st.replacements.len() {
        let r = st.replacements[i];
        let (segments2, e) = spec_link_one(segments, st, r);
        assert(lens_eq(segments, segments2)) by {
            assert forall|k: int| 0 <= k < segments.len() implies (#[trigger] segments[k]).len()
                == (#[trigger] segments2[k]).len() by {
                if segments2 != segments && k != r.add_segment as int {
                    assert(segments2[k] == segments[k]);
                }
            }
        }
        if e is None {
            lemma_link_shape(segments2, st, i + 1);
            lemma_lens_eq_trans(segments, segments2, segf);
        }
    } else {
        assert(lens_eq(segments, segf));
    }
}

/// Tag feedbacks never raise or clear an error.
proof fn lemma_tag_feedbacks_err(
    fs: FireStep,
    fbs: Seq<TagFeedback>,
    name: Seq<char>,
    line: usize,
    i: int,
)
    ensures
        apply_tag_feedbacks(fs, fbs, name, line, i).err == fs.err,
    decreases fbs.len() - i,
{
    if 0 <= i < fbs.len() {
        let f = fbs[i];
        let rep = RepModel {
            line,
            shift: f.shift,
            add_segment: f.add_segment,
            index: (fs.segments[f.add_segment as int].len() + f.add_index) as u128,
            tag: name,
            pos_segment: f.from_segment,
            pos_offset: (
            if f.relative {
                f.offset - fs.segments[f.from_segment as int].len()
            } else {
                f.offset as int
            }) as i128,
        };
        lemma_tag_feedbacks_err(FireStep { reps: fs.reps.push(rep), ..fs }, fbs, name, line, i + 1);
    }
}

/// Any error a numeric feedback raises is a fill-time error.
proof fn lemma_num_errs_fill_time(fs: FireStep, fbs: Seq<NumFeedback>, val: u64, line: usize, i: int)
    requires
        fs.err is None,
    ensures
        ({
            let r = apply_num_feedbacks(fs, fbs, val, line, i);
            r.err matches Some(e) ==> e.is_fill_time()
        }),
    decreases fbs.len() - i,
{
    if 0 <= i < fbs.len() {
        let f = fbs[i];
        let shifted = crate::shift::spec_shift(val, f.shift);
        let v = if f.negate {
            crate::shift::wadd(!shifted, 1)
        } else {
            shifted
        };
        if f.index >= fs.local[f.segment as int].len() {
        } else if f.fill {
            let base = fs.local[f.segment as int][f.index as int];
            let n = (v as i64) + f.fill_offset;
            if n >= 0 {
                let row = fs.segments[f.segment as int];
                let filled = if f.align {
                    if row.len() >= n {
                        row
                    } else {
                        row + Seq::new((n - row.len()) as nat, |_j: int| base)
                    }
                } else {
                    row + Seq::new(n as nat, |_j: int| base)
                };
                let fs2 = FireStep {
                    segments: fs.segments.update(f.segment as int, filled),
                    local: fs.local.update(f.segment as int, fs.local[f.segment as int].drop_last()),
                    ..fs
                };
                lemma_num_errs_fill_time(fs2, fbs, val, line, i + 1);
            }
        } else {
            let row = fs.local[f.segment as int];
            let fs2 = FireStep {
                local: fs.local.update(
                    f.segment as int,
                    row.update(f.index as int, crate::shift::wadd(row[f.index as int], v)),
                ),
                ..fs
            };
            lemma_num_errs_fill_time(fs2, fbs, val, line, i + 1);
        }
    }
}

/// Once the in-flight state carries an error, nothing more happens.
proof fn lemma_captures_stop(
    fs: FireStep,
    captures: Seq<CaptureModel>,
    caps: Seq<Option<Seq<char>>>,
    line: usize,
    g: int,
)
    requires
        fs.err is Some,
    ensures
        apply_captures(fs, captures, caps, line, g) == fs,
{
}

/// Any error raised while applying captures is a fill-time error.
proof fn lemma_captures_errs_fill_time(
    fs: FireStep,
    captures: Seq<CaptureModel>,
    caps: Seq<Option<Seq<char>>>,
    line: usize,
    g: int,
)
    requires
        fs.err is None,
    ensures
        ({
            let r = apply_captures(fs, captures, caps, line, g);
            r.err matches Some(e) ==> e.is_fill_time()
        }),
    decreases captures.len() - g,
{
    if 0 <= g < captures.len() {
        let text = caps[g + 1]->Some_0;
        match captures[g] {
            CaptureModel::Tag { feedbacks } => {
                lemma_tag_feedbacks_err(fs, feedbacks, text, line, 0);
                let fs2 = apply_tag_feedbacks(fs, feedbacks, text, line, 0);
                lemma_captures_errs_fill_time(fs2, captures, caps, line, g + 1);
            },
            CaptureModel::Str { add_segment } => {
                let fs2 = FireStep {
                    segments: fs.segments.update(
                        add_segment as int,
                        fs.segments[add_segment as int] + crate::step::chars_to_words(text),
                    ),
                    ..fs
                };
                lemma_captures_errs_fill_time(fs2, captures, caps, line, g + 1);
            },
            CaptureModel::Num { base, feedbacks } => {
                let val = crate::text::parsed_i64(text, base)->Some_0 as u64;
                lemma_num_errs_fill_time(fs, feedbacks, val, line, 0);
                let fs2 = apply_num_feedbacks(fs, feedbacks, val, line, 0);
                if fs2.err is Some {
                    lemma_captures_stop(fs2, captures, caps, line, g + 1);
                } else {
                    lemma_captures_errs_fill_time(fs2, captures, caps, line, g + 1);
                }
            },
        }
    }
}

/// Commit atomicity: when a firing rule fails with anything but a
/// fill-time error, the emission state is exactly as it was — nothing of
/// the rule's contribution lands. Fill-time errors are the sole exception
/// and may leave earlier fills and replacements behind, uncommitted.
pub proof fn lemma_commit_atomicity(
    st: StateModel,
    rule: RuleModel,
    caps: Seq<Option<Seq<char>>>,
    line: usize,
)
    ensures
        ({
            let (st2, e) = spec_fire(st, rule, caps, line);
            e matches Some(err) && !err.is_fill_time() ==> st2 == st
        }),
{
    if precheck_err(rule.captures, caps, line, 0) is None {
        let local0 = apply_self_refs(st.segments, rule.template, rule.self_refs, 0);
        let fs0 = FireStep { segments: st.segments, local: local0, reps: st.replacements, err: None };
        lemma_captures_errs_fill_time(fs0, rule.captures, caps, line, 0);
    }
}

/// Determinism: one configuration and one list of input buffers determine
/// the parsed state, the linked segments, and the serialized bytes of
/// every segment, in every format.
pub proof fn lemma_determinism(
    cfg1: ConfigModel,
    cfg2: ConfigModel,
    bufs1: Seq<Seq<Seq<char>>>,
    bufs2: Seq<Seq<Seq<char>>>,
    format1: crate::parse::OutputFormat,
    format2: crate::parse::OutputFormat,
)
    requires
        cfg1 == cfg2,
        bufs1 == bufs2,
        format1 == format2,
    ensures
        ({
            let r1 = crate::step::spec_parse_buffers(
                StateModel::init(cfg1.seg_count()),
                cfg1,
                bufs1,
                0,
            );
            let r2 = crate::step::spec_parse_buffers(
                StateModel::init(cfg2.seg_count()),
                cfg2,
                bufs2,
                0,
            );
            &&& r1 == r2
            &&& crate::step::spec_link(r1.0) == crate::step::spec_link(r2.0)
            &&& crate::serialize::spec_all_outputs(
                crate::step::spec_link(r1.0).0,
                cfg1,
                format1,
            ) == crate::serialize::spec_all_outputs(crate::step::spec_link(r2.0).0, cfg2, format2)
        }),
{
}

/// Round trip for numbers: a single numeric feedback with zero shift, no
/// negation and no fill adds exactly the parsed value to its template
/// slot, modulo 2^64, and changes nothing else.
pub proof fn lemma_number_round_trip(fs: FireStep, f: NumFeedback, val: u64, line: usize)
    requires
        fs.err is None,
        f.shift == 0,
        f.negate == false,
        f.fill == false,
        f.index < fs.local[f.segment as int].len(),
    ensures
        ({
            let r = apply_num_feedbacks(fs, seq![f], val, line, 0);
            &&& r.err is None
            &&& r.segments == fs.segments
            &&& r.reps == fs.reps
            &&& r.local == fs.local.update(
                f.segment as int,
                fs.local[f.segment as int].update(
                    f.index as int,
                    crate::shift::wadd(fs.local[f.segment as int][f.index as int], val),
                ),
            )
        }),
{
    assert(crate::shift::spec_shift(val, 0) == val) by {
        assert(val << 0u64 == val) by (bit_vector);
    }
    let fbs = seq![f];
    assert(fbs[0] == f);
    let row = fs.local[f.segment as int];
    let fs2 = FireStep {
        local: fs.local.update(
            f.segment as int,
            row.update(f.index as int, crate::shift::wadd(row[f.index as int], val)),
        ),
        ..fs
    };
    assert(apply_num_feedbacks(fs, fbs, val, line, 0) == apply_num_feedbacks(fs2, fbs, val, line, 1));
}

/// Appending an entry whose name no earlier entry bears makes lookups of
/// that name find it.
proof fn lemma_lookup_finds_pushed(
    tags: Seq<(Seq<char>, Seq<usize>)>,
    name: Seq<char>,
    v: Seq<usize>,
    i: int,
)
    requires
        0 <= i <= tags.len(),
        forall|j: int| i <= j < tags.len() ==> (#[trigger] tags[j]).0 != name,
    ensures
        tag_lookup_from(tags.push((name, v)), name, i) == Some(v),
    decreases tags.len() - i,
{
    let pushed = tags.push((name, v));
    if i < tags.len() {
        assert(pushed[i] == tags[i]);
        lemma_lookup_finds_pushed(tags, name, v, i + 1);
    } else {
        assert(pushed[i].0 == name);
    }
}

/// Shape of a fresh named tag: creating a name that is neither a `+` nor
/// a `-` run and is not yet taken succeeds, and looking the name up
/// afterwards yields the per-segment lengths at creation, one entry per
/// segment.
pub proof fn lemma_tag_records_positions(st: StateModel, name: Seq<char>, line: usize, s: nat)
    requires
        st_wf(st, s),
        !(name.len() > 0 && crate::text::all_char(name, '+')),
        !(name.len() > 0 && crate::text::all_char(name, '-')),
        tag_lookup(st.tags, name) is None,
    ensures
        ({
            let (st2, e) = spec_tag_create(st, name, line);
            &&& e is None
            &&& tag_lookup(st2.tags, name) == Some(lens_of(st.segments))
            &&& lens_of(st.segments).len() == s
        }),
{
    lemma_tag_lookup_none(st.tags, name, 0);
    lemma_lookup_finds_pushed(st.tags, name, lens_of(st.segments), 0);
}

/// The commit of a fired rule is one atomic append: when no error occurs,
/// every segment receives exactly what remains of the rule's template
/// copy after all captures, appended at its end.
pub proof fn lemma_commit_appends_all(
    st: StateModel,
    rule: RuleModel,
    caps: Seq<Option<Seq<char>>>,
    line: usize,
)
    ensures
        ({
            let (st2, e) = spec_fire(st, rule, caps, line);
            let local0 = apply_self_refs(st.segments, rule.template, rule.self_refs, 0);
            let fs = apply_captures(
                FireStep { segments: st.segments, local: local0, reps: st.replacements, err: None },
                rule.captures,
                caps,
                line,
                0,
            );
            e is None ==> {
                &&& st2.segments.len() == fs.segments.len()
                &&& forall|k: int|
                    0 <= k < st2.segments.len() ==> st2.segments[k] == fs.segments[k] + fs.local[k]
            }
        }),
{
}

/// The committed form of the number round trip: a rule with no
/// self-references whose single capture is a number with one plain
/// feedback appends, to the target segment, its template with exactly the
/// parsed value added (modulo 2^64) at the feedback's index, and to every
/// other segment its template unchanged.
pub proof fn lemma_single_number_capture_commit(
    st: StateModel,
    rule: RuleModel,
    caps: Seq<Option<Seq<char>>>,
    text: Seq<char>,
    v: i64,
    f: NumFeedback,
    base: u32,
    line: usize,
)
    requires
        rule.self_refs.len() == 0,
        rule.captures == seq![CaptureModel::Num { base, feedbacks: seq![f] }],
        caps.len() == 2,
        caps[1] == Some(text),
        crate::text::parsed_i64(text, base) == Some(v),
        f.shift == 0,
        f.negate == false,
        f.fill == false,
        f.segment < rule.template.len(),
        f.index < rule.template[f.segment as int].len(),
        rule.template.len() == st.segments.len(),
    ensures
        ({
            let (st2, e) = spec_fire(st, rule, caps, line);
            let row = rule.template[f.segment as int];
            &&& e is None
            &&& st2.segments.len() == st.segments.len()
            &&& st2.segments[f.segment as int] == st.segments[f.segment as int] + row.update(
                f.index as int,
                crate::shift::wadd(row[f.index as int], v as u64),
            )
            &&& forall|k: int|
                0 <= k < st.segments.len() && k != f.segment ==> st2.segments[k]
                    == st.segments[k] + rule.template[k]
        }),
{
    let local0 = apply_self_refs(st.segments, rule.template, rule.self_refs, 0);
    assert(local0 == rule.template);
    assert(rule.captures[0] == (CaptureModel::Num { base, feedbacks: seq![f] }));
    assert(precheck_err(rule.captures, caps, line, 1) is None);
    assert(precheck_err(rule.captures, caps, line, 0) is None);
    let fs0 = FireStep { segments: st.segments, local: local0, reps: st.replacements, err: None };
    assert(seq![f][0] == f);
    lemma_number_round_trip(fs0, f, v as u64, line);
    let fs2 = apply_num_feedbacks(fs0, seq![f], v as u64, line, 0);
    assert(apply_captures(fs0, rule.captures, caps, line, 0) == apply_captures(
        fs2,
        rule.captures,
        caps,
        line,
        1,
    ));
    assert(apply_captures(fs2, rule.captures, caps, line, 1) == fs2);
    let (st2, e) = spec_fire(st, rule, caps, line);
    assert(st2.segments == zip_append(fs2.segments, fs2.local));
    let row = rule.template[f.segment as int];
    assert(fs2.local[f.segment as int] == row.update(
        f.index as int,
        crate::shift::wadd(row[f.index as int], v as u64),
    ));
    assert forall|k: int|
        0 <= k < st.segments.len() && k != f.segment implies st2.segments[k] == st.segments[k]
        + rule.template[k] by {
        assert(fs2.local[k] == rule.template[k]);
    }
}

} // verus!
