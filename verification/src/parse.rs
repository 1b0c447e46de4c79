//! The assembly engine: token dispatch, rule firing, tag creation, and the
//! linking pass, all proved to compute the transition functions of
//! `crate::step` on the state model of `crate::model`.

use vstd::prelude::*;

use crate::config::{capture_ok, Capture, CaptureModel, Config, ConfigModel};
use crate::error::{AsmError, ErrModel, RunError};
use crate::model::{
    find_minus_from, find_plus_from, lens_eq, lens_leq, lens_of, st_wf, tag_lookup,
    tag_lookup_from, RepModel, StateModel,
};
use crate::rex::{regex_captures, regex_captures_spec};
use crate::shift::shift_left_or_right;
use crate::step::{
    apply_captures, apply_num_feedbacks, apply_self_refs, apply_tag_feedbacks, first_rule_match,
    precheck_err, spec_dispatch, spec_fire, spec_link, spec_link_from, spec_link_one,
    spec_parse_line, spec_parse_lines, spec_parse_tokens, spec_tag_create, strip_comment,
    token_end, whole_match, zip_append, FireStep,
};
use crate::text::{char_is_whitespace, parse_i64, parsed_i64, str_all_char, str_eq};

verus! {

/// The serialization formats a segment can be written in.
#[derive(Debug, Clone, Copy)]
pub enum OutputFormat {
    LittleEndian,
    BigEndian,
    HexList,
}

/// A pending patch, created by a tag capture and resolved during linking.
struct Replacement {
    /// Line the capture fired on, for error reports.
    line: usize,
    /// Signed shift applied to the resolved position.
    shift: i32,
    /// Segment to add the position to.
    add_segment: usize,
    /// The index in `add_segment` to add the position at.
    index: u128,
    /// The tag whose recorded position is used.
    tag: String,
    /// The segment whose position is read from the tag's record.
    pos_segment: usize,
    /// The offset added after retrieving the position.
    pos_offset: i128,
}

impl View for Replacement {
    type V = RepModel;

    closed spec fn view(&self) -> RepModel {
        RepModel {
            line: self.line,
            shift: self.shift,
            add_segment: self.add_segment,
            index: self.index,
            tag: self.tag@,
            pos_segment: self.pos_segment,
            pos_offset: self.pos_offset,
        }
    }
}

/// The rows of a template copy, as sequences.
pub open spec fn rows_view(rows: Seq<Vec<u64>>) -> Seq<Seq<u64>> {
    Seq::new(rows.len(), |k: int| rows[k]@)
}

/// The assembly engine. Feed it input buffers with `parse`, then call
/// `link` once, then serialize each segment with `output`.
pub struct Parser<'a> {
    config: &'a Config,
    segments: Vec<Vec<u64>>,
    tags: Vec<(String, Vec<usize>)>,
    plus_tags: Vec<(usize, Vec<usize>)>,
    minus_tags: Vec<(usize, Vec<usize>)>,
    replacements: Vec<Replacement>,
}

impl<'a> View for Parser<'a> {
    type V = StateModel;

    closed spec fn view(&self) -> StateModel {
        StateModel {
            segments: rows_view(self.segments@),
            tags: Seq::new(self.tags@.len(), |i: int| (self.tags@[i].0@, self.tags@[i].1@)),
            plus_tags: Seq::new(
                self.plus_tags@.len(),
                |i: int| (self.plus_tags@[i].0, self.plus_tags@[i].1@),
            ),
            minus_tags: Seq::new(
                self.minus_tags@.len(),
                |i: int| (self.minus_tags@[i].0, self.minus_tags@[i].1@),
            ),
            replacements: Seq::new(self.replacements@.len(), |i: int| self.replacements@[i]@),
        }
    }
}

impl<'a> Parser<'a> {
    /// The configuration this parser runs under.
    pub closed spec fn cfg(&self) -> ConfigModel {
        (*self.config)@
    }

    /// The number of segments, fixed by the configuration.
    pub open spec fn seg_count(&self) -> nat {
        self.cfg().seg_count()
    }

    /// The parser's configuration is well formed and its state has the
    /// right shape for it.
    pub closed spec fn wf(&self) -> bool {
        &&& self.config.wf()
        &&& st_wf(self@, self.seg_count())
    }

    /// A fresh parser over a validated configuration: one empty word list
    /// per segment, no tags, no replacements.
    pub fn new(config: &'a Config) -> (r: Self)
        requires
            config.wf(),
        ensures
            r.wf(),
            r.cfg() == config@,
            r@ == StateModel::init(config@.seg_count()),
    {
        let n = config.segment_widths.len();
        let mut segments: Vec<Vec<u64>> = Vec::new();
        for i in 0..n
            invariant
                segments@.len() == i,
                forall|k: int| 0 <= k < i ==> (#[trigger] segments@[k])@ == Seq::<u64>::empty(),
        {
            segments.push(Vec::new());
        }
        let r = Parser {
            config,
            segments,
            tags: Vec::new(),
            plus_tags: Vec::new(),
            minus_tags: Vec::new(),
            replacements: Vec::new(),
        };
        proof {
            assert(r@.segments =~= StateModel::init(config@.seg_count()).segments);
            assert(r@ =~= StateModel::init(config@.seg_count()));
        }
        r
    }

    /// The current length of every segment: the position vector a tag
    /// created now would record.
    fn seg_positions(&self) -> (r: Vec<usize>)
        ensures
            r@ == lens_of(self@.segments),
    {
        let n = self.segments.len();
        let mut r: Vec<usize> = Vec::new();
        for i in 0..n
            invariant
                n == self.segments@.len(),
                r@.len() == i,
                forall|k: int| 0 <= k < i ==> r@[k] == (#[trigger] self.segments@[k])@.len(),
        {
            let l = self.segments[i].len();
            r.push(l);
        }
        proof {
            assert(r@ =~= lens_of(self@.segments));
        }
        r
    }

    /// Try the tag-creation rule on the token. `Ok(true)` means the rule
    /// matched the whole token, which was recorded as a tag definition;
    /// `Ok(false)` that it did not and other rules should be tried.
    #[verifier::loop_isolation(false)]
    fn attempt_tag_create(&mut self, segment: &str, line: usize) -> (r: Result<bool, AsmError>)
        requires
            old(self).wf(),
        ensures
            final(self).wf(),
            final(self).cfg() == old(self).cfg(),
            ({
                match whole_match(old(self).cfg().tag_pattern, segment@) {
                    Some(caps) => {
                        if caps.len() >= 2 && caps[1] is Some {
                            let (st2, e) = spec_tag_create(old(self)@, caps[1]->Some_0, line);
                            &&& final(self)@ == st2
                            &&& match r {
                                Ok(b) => b == true && e is None,
                                Err(err) => Some(err@) == e,
                            }
                        } else {
                            &&& final(self)@ == old(self)@
                            &&& r matches Err(err) && err@ == (ErrModel::UnmatchedCapture { line })
                        }
                    },
                    None => final(self)@ == old(self)@ && r == Ok::<bool, AsmError>(false),
                }
            }),
    {
        proof {
            crate::config::lemma_wf_parts(self.config);
        }
        let config: &Config = self.config;
        let caps_opt = regex_captures(config.tag_create.regex.as_ref().unwrap(), segment);
        let groups = match caps_opt {
            None => {
                return Ok(false);
            },
            Some(g) => g,
        };
        proof {
            assert(groups.deep_view().len() == 2);
            assert(groups.deep_view()[0] == match groups@[0] {
                Some(s) => Some(s@),
                None => None::<Seq<char>>,
            });
            assert(groups.deep_view()[1] == match groups@[1] {
                Some(s) => Some(s@),
                None => None::<Seq<char>>,
            });
        }
        // The match must cover the whole token to be accepted.
        let covers = match &groups[0] {
            Some(m) => str_eq(m.as_str(), segment),
            None => false,
        };
        if !covers {
            proof {
                assert(whole_match(old(self).cfg().tag_pattern, segment@) is None);
            }
            return Ok(false);
        }
        proof {
            assert(whole_match(old(self).cfg().tag_pattern, segment@) == Some(groups.deep_view()));
        }
        let name: &String = match &groups[1] {
            None => {
                return Err(AsmError::UnmatchedCapture { line });
            },
            Some(n) => n,
        };
        let ghost st0 = old(self)@;
        let ghost namev = name@;
        let nlen = name.as_str().unicode_len();
        if nlen > 0 && str_all_char(name.as_str(), '+') {
            let positions = self.seg_positions();
            self.plus_tags.push((nlen, positions));
            proof {
                assert(self@.plus_tags =~= st0.plus_tags.push((
                    (namev.len() as usize),
                    lens_of(st0.segments),
                )));
                assert(self@ =~= spec_tag_create(st0, namev, line).0);
                crate::laws::lemma_tag_create_props(st0, namev, line, self.seg_count());
            }
            Ok(true)
        } else if nlen > 0 && str_all_char(name.as_str(), '-') {
            let positions = self.seg_positions();
            self.minus_tags.push((nlen, positions));
            proof {
                assert(self@.minus_tags =~= st0.minus_tags.push((
                    (namev.len() as usize),
                    lens_of(st0.segments),
                )));
                assert(self@ =~= spec_tag_create(st0, namev, line).0);
                crate::laws::lemma_tag_create_props(st0, namev, line, self.seg_count());
            }
            Ok(true)
        } else {
            let n_tags = self.tags.len();
            for k in 0..n_tags
                invariant
                    tag_lookup_from(st0.tags, namev, 0) == tag_lookup_from(st0.tags, namev, k as int),
            {
                if self.tags[k].0 == *name {
                    proof {
                        assert(st0.tags[k as int].0 == namev);
                    }
                    return Err(AsmError::DuplicateTag { line, tag: name.clone() });
                }
                proof {
                    assert(st0.tags[k as int].0 != namev);
                }
            }
            proof {
                assert(tag_lookup(st0.tags, namev) is None);
            }
            let positions = self.seg_positions();
            let tag_name = name.clone();
            self.tags.push((tag_name, positions));
            proof {
                assert(self@.tags =~= st0.tags.push((namev, lens_of(st0.segments))));
                assert(self@ =~= spec_tag_create(st0, namev, line).0);
                crate::laws::lemma_tag_create_props(st0, namev, line, self.seg_count());
            }
            Ok(true)
        }
    }
}

/// The in-flight view of a firing rule: the parser's segments and
/// replacements with the rule's template copy, no error yet.
spec fn live_fs(st: StateModel, local: Seq<Vec<u64>>) -> FireStep {
    FireStep { segments: st.segments, local: rows_view(local), reps: st.replacements, err: None }
}

impl<'a> Parser<'a> {
    /// Record one replacement per tag feedback; nothing else changes.
    #[verifier::loop_isolation(false)]
    fn apply_tag_capture(
        &mut self,
        feedbacks: &Vec<crate::config::TagFeedback>,
        text: &String,
        line: usize,
        Ghost(loc): Ghost<Seq<Seq<u64>>>,
    )
        requires
            forall|j: int|
                0 <= j < feedbacks@.len() ==> (#[trigger] feedbacks@[j]).add_segment < old(
                    self,
                )@.segments.len() && feedbacks@[j].from_segment < old(self)@.segments.len(),
        ensures
            final(self).config == old(self).config,
            final(self)@.segments == old(self)@.segments,
            final(self)@.tags == old(self)@.tags,
            final(self)@.plus_tags == old(self)@.plus_tags,
            final(self)@.minus_tags == old(self)@.minus_tags,
            apply_tag_feedbacks(
                FireStep {
                    segments: old(self)@.segments,
                    local: loc,
                    reps: old(self)@.replacements,
                    err: None,
                },
                feedbacks@,
                text@,
                line,
                0,
            ) == (FireStep {
                segments: old(self)@.segments,
                local: loc,
                reps: final(self)@.replacements,
                err: None,
            }),
    {
        let ghost st0 = old(self)@;
        let ghost fdv = feedbacks@;
        let nf = feedbacks.len();
        for m in 0..nf
            invariant
                self.config == old(self).config,
                self@.segments == st0.segments,
                self@.tags == st0.tags,
                self@.plus_tags == st0.plus_tags,
                self@.minus_tags == st0.minus_tags,
                apply_tag_feedbacks(
                    FireStep { segments: st0.segments, local: loc, reps: st0.replacements, err: None },
                    fdv,
                    text@,
                    line,
                    0,
                ) == apply_tag_feedbacks(
                    FireStep {
                        segments: st0.segments,
                        local: loc,
                        reps: self@.replacements,
                        err: None,
                    },
                    fdv,
                    text@,
                    line,
                    m as int,
                ),
        {
            let ghost repsB = self@.replacements;
            let f = feedbacks[m];
            let idx: u128 = self.segments[f.add_segment].len() as u128 + f.add_index as u128;
            let poff: i128 = if f.relative {
                f.offset as i128 - self.segments[f.from_segment].len() as i128
            } else {
                f.offset as i128
            };
            let rep = Replacement {
                line,
                shift: f.shift,
                add_segment: f.add_segment,
                index: idx,
                tag: text.clone(),
                pos_segment: f.from_segment,
                pos_offset: poff,
            };
            self.replacements.push(rep);
            proof {
                let specrep = RepModel {
                    line,
                    shift: f.shift,
                    add_segment: f.add_segment,
                    index: (st0.segments[f.add_segment as int].len() + f.add_index) as u128,
                    tag: text@,
                    pos_segment: f.from_segment,
                    pos_offset: (
                    if f.relative {
                        f.offset - st0.segments[f.from_segment as int].len()
                    } else {
                        f.offset as int
                    }) as i128,
                };
                assert(rep@ == specrep);
                assert(self@.replacements =~= repsB.push(specrep));
                assert(apply_tag_feedbacks(
                    FireStep { segments: st0.segments, local: loc, reps: repsB, err: None },
                    fdv,
                    text@,
                    line,
                    m as int,
                ) == apply_tag_feedbacks(
                    FireStep {
                        segments: st0.segments,
                        local: loc,
                        reps: repsB.push(specrep),
                        err: None,
                    },
                    fdv,
                    text@,
                    line,
                    m + 1,
                ));
            }
        }
    }

    /// Push each character of the captured text as its code point.
    #[verifier::loop_isolation(false)]
    fn apply_str_capture(&mut self, aseg: usize, text: &String)
        requires
            aseg < old(self)@.segments.len(),
        ensures
            final(self).config == old(self).config,
            final(self)@.tags == old(self)@.tags,
            final(self)@.plus_tags == old(self)@.plus_tags,
            final(self)@.minus_tags == old(self)@.minus_tags,
            final(self)@.replacements == old(self)@.replacements,
            final(self)@.segments == old(self)@.segments.update(
                aseg as int,
                old(self)@.segments[aseg as int] + crate::step::chars_to_words(text@),
            ),
    {
        let ghost st0 = old(self)@;
        let ghost seg0 = st0.segments[aseg as int];
        let n = text.as_str().unicode_len();
        for ci in 0..n
            invariant
                n == text@.len(),
                aseg < self@.segments.len(),
                self.config == old(self).config,
                self@.tags == st0.tags,
                self@.plus_tags == st0.plus_tags,
                self@.minus_tags == st0.minus_tags,
                self@.replacements == st0.replacements,
                self@.segments.len() == st0.segments.len(),
                self@.segments[aseg as int].len() == seg0.len() + ci,
                forall|j: int|
                    0 <= j < seg0.len() ==> self@.segments[aseg as int][j] == seg0[j],
                forall|j: int|
                    0 <= j < ci ==> self@.segments[aseg as int][seg0.len() + j] == (text@[j] as u64),
                forall|k: int|
                    0 <= k < st0.segments.len() && k != aseg ==> self@.segments[k]
                        == st0.segments[k],
        {
            let c = text.as_str().get_char(ci);
            self.segments[aseg].push(c as u64);
        }
        proof {
            assert(self@.segments[aseg as int] =~= seg0 + crate::step::chars_to_words(text@));
            assert(self@.segments =~= st0.segments.update(
                aseg as int,
                seg0 + crate::step::chars_to_words(text@),
            ));
        }
    }

    /// Apply the numeric feedbacks to the parsed value: shift, optional
    /// negation, then an addition into the template copy or a fill of the
    /// segment that consumes the template slot used as the base.
    #[verifier::loop_isolation(false)]
    fn apply_num_capture(
        &mut self,
        feedbacks: &Vec<crate::config::NumFeedback>,
        local: &mut Vec<Vec<u64>>,
        val: u64,
        line: usize,
    ) -> (r: Result<(), AsmError>)
        requires
            old(self)@.segments.len() == old(local)@.len(),
            forall|j: int|
                0 <= j < feedbacks@.len() ==> (#[trigger] feedbacks@[j]).segment < old(
                    self,
                )@.segments.len(),
        ensures
            final(self).config == old(self).config,
            final(self)@.tags == old(self)@.tags,
            final(self)@.plus_tags == old(self)@.plus_tags,
            final(self)@.minus_tags == old(self)@.minus_tags,
            final(self)@.replacements == old(self)@.replacements,
            ({
                let r2 = apply_num_feedbacks(
                    FireStep {
                        segments: old(self)@.segments,
                        local: rows_view(old(local)@),
                        reps: old(self)@.replacements,
                        err: None,
                    },
                    feedbacks@,
                    val,
                    line,
                    0,
                );
                &&& r2.segments == final(self)@.segments
                &&& r2.local == rows_view(final(local)@)
                &&& match r {
                    Ok(_) => r2.err is None,
                    Err(e) => r2.err == Some(e@),
                }
            }),
    {
        let ghost st0 = old(self)@;
        let ghost s0 = old(self)@.segments.len();
        let ghost fdv = feedbacks@;
        let ghost fs_start = FireStep {
            segments: st0.segments,
            local: rows_view(old(local)@),
            reps: st0.replacements,
            err: None,
        };
        let nf = feedbacks.len();
        for m in 0..nf
            invariant
                self.config == old(self).config,
                self@.segments.len() == s0,
                local@.len() == old(local)@.len(),
                self@.tags == st0.tags,
                self@.plus_tags == st0.plus_tags,
                self@.minus_tags == st0.minus_tags,
                self@.replacements == st0.replacements,
                apply_num_feedbacks(fs_start, fdv, val, line, 0) == apply_num_feedbacks(
                    FireStep {
                        segments: self@.segments,
                        local: rows_view(local@),
                        reps: st0.replacements,
                        err: None,
                    },
                    fdv,
                    val,
                    line,
                    m as int,
                ),
        {
            let ghost stB = self@;
            let ghost localB = local@;
            let ghost fsb = FireStep {
                segments: stB.segments,
                local: rows_view(localB),
                reps: st0.replacements,
                err: None,
            };
            let f = feedbacks[m];
            let mut shiftval = shift_left_or_right(val, f.shift);
            if f.negate {
                shiftval = (!shiftval).wrapping_add(1);
            }
            proof {
                let sv0 = crate::shift::spec_shift(val, f.shift);
                assert(shiftval == if f.negate {
                    crate::shift::wadd(!sv0, 1)
                } else {
                    sv0
                });
            }
            if f.index >= local[f.segment].len() {
                proof {
                    let fserr = FireStep {
                        err: Some(ErrModel::FeedbackOutOfRange { line }),
                        ..fsb
                    };
                    assert(apply_num_feedbacks(fsb, fdv, val, line, m as int) == fserr);
                    assert(apply_num_feedbacks(fs_start, fdv, val, line, 0) == fserr);
                }
                return Err(AsmError::FeedbackOutOfRange { line });
            }
            if f.fill {
                let base_val = local[f.segment][f.index];
                let n: i128 = #[verifier::truncate] (shiftval as i64) as i128
                    + f.fill_offset as i128;
                if n < 0 {
                    proof {
                        let fserr = FireStep { err: Some(ErrModel::NegativeFill { line }), ..fsb };
                        assert(apply_num_feedbacks(fsb, fdv, val, line, m as int) == fserr);
                        assert(apply_num_feedbacks(fs_start, fdv, val, line, 0) == fserr);
                    }
                    return Err(AsmError::NegativeFill { line });
                }
                let ghost seg0 = stB.segments[f.segment as int];
                if f.align {
                    while (self.segments[f.segment].len() as i128) < n
                        invariant
                            f.segment < s0,
                            0 <= n,
                            self@.segments.len() == s0,
                            local@ == localB,
                            self.config == old(self).config,
                            self@.tags == st0.tags,
                            self@.plus_tags == st0.plus_tags,
                            self@.minus_tags == st0.minus_tags,
                            self@.replacements == st0.replacements,
                            seg0.len() <= self@.segments[f.segment as int].len(),
                            self@.segments[f.segment as int].len() > seg0.len()
                                ==> self@.segments[f.segment as int].len() <= n,
                            self@.segments[f.segment as int].take(seg0.len() as int) == seg0,
                            forall|j: int|
                                seg0.len() <= j < self@.segments[f.segment as int].len()
                                    ==> self@.segments[f.segment as int][j] == base_val,
                            forall|k: int|
                                0 <= k < s0 && k != f.segment ==> self@.segments[k]
                                    == stB.segments[k],
                        decreases n - self@.segments[f.segment as int].len(),
                    {
                        self.segments[f.segment].push(base_val);
                        proof {
                            assert(self@.segments[f.segment as int].take(seg0.len() as int)
                                =~= seg0);
                        }
                    }
                } else {
                    let mut cnt: i128 = 0;
                    while cnt < n
                        invariant
                            0 <= cnt <= n,
                            f.segment < s0,
                            self@.segments.len() == s0,
                            local@ == localB,
                            self.config == old(self).config,
                            self@.tags == st0.tags,
                            self@.plus_tags == st0.plus_tags,
                            self@.minus_tags == st0.minus_tags,
                            self@.replacements == st0.replacements,
                            self@.segments[f.segment as int].len() == seg0.len() + cnt,
                            self@.segments[f.segment as int].take(seg0.len() as int) == seg0,
                            forall|j: int|
                                seg0.len() <= j < self@.segments[f.segment as int].len()
                                    ==> self@.segments[f.segment as int][j] == base_val,
                            forall|k: int|
                                0 <= k < s0 && k != f.segment ==> self@.segments[k]
                                    == stB.segments[k],
                        decreases n - cnt,
                    {
                        self.segments[f.segment].push(base_val);
                        cnt = cnt + 1;
                        proof {
                            assert(self@.segments[f.segment as int].take(seg0.len() as int)
                                =~= seg0);
                        }
                    }
                }
                let _ = local[f.segment].pop();
                proof {
                    let nint = (shiftval as i64) + f.fill_offset;
                    let filled = if f.align {
                        if seg0.len() >= nint {
                            seg0
                        } else {
                            seg0 + Seq::new((nint - seg0.len()) as nat, |_j: int| base_val)
                        }
                    } else {
                        seg0 + Seq::new(nint as nat, |_j: int| base_val)
                    };
                    let fs2 = FireStep {
                        segments: fsb.segments.update(f.segment as int, filled),
                        local: fsb.local.update(
                            f.segment as int,
                            fsb.local[f.segment as int].drop_last(),
                        ),
                        ..fsb
                    };
                    assert(self@.segments[f.segment as int] =~= filled);
                    assert(self@.segments =~= fs2.segments);
                    assert(rows_view(local@) =~~= fs2.local);
                    assert(apply_num_feedbacks(fsb, fdv, val, line, m as int)
                        == apply_num_feedbacks(fs2, fdv, val, line, m + 1));
                    assert(FireStep {
                        segments: self@.segments,
                        local: rows_view(local@),
                        reps: st0.replacements,
                        err: None,
                    } =~= fs2);
                }
            } else {
                let cur = local[f.segment][f.index];
                local[f.segment][f.index] = cur.wrapping_add(shiftval);
                proof {
                    let row = fsb.local[f.segment as int];
                    let fs2 = FireStep {
                        local: fsb.local.update(
                            f.segment as int,
                            row.update(
                                f.index as int,
                                crate::shift::wadd(row[f.index as int], shiftval),
                            ),
                        ),
                        ..fsb
                    };
                    assert(rows_view(local@) =~~= fs2.local);
                    assert(apply_num_feedbacks(fsb, fdv, val, line, m as int)
                        == apply_num_feedbacks(fs2, fdv, val, line, m + 1));
                    assert(FireStep {
                        segments: self@.segments,
                        local: rows_view(local@),
                        reps: st0.replacements,
                        err: None,
                    } =~= fs2);
                }
            }
        }
        Ok(())
    }

    /// Fire rule `ri` on the capture groups of its match: copy the
    /// template, apply self-references, process the captures in order,
    /// then commit the template to the segments.
    #[verifier::loop_isolation(false)]
    #[verifier::rlimit(30)]
    fn fire_rule(&mut self, ri: usize, groups: &Vec<Option<String>>, line: usize) -> (r: Result<
        bool,
        AsmError,
    >)
        requires
            old(self).wf(),
            ri < old(self).cfg().rules.len(),
            groups.deep_view().len() == old(self).cfg().rules[ri as int].captures.len() + 1,
        ensures
            final(self).wf(),
            final(self).cfg() == old(self).cfg(),
            ({
                let (st2, e) = spec_fire(
                    old(self)@,
                    old(self).cfg().rules[ri as int],
                    groups.deep_view(),
                    line,
                );
                &&& final(self)@ == st2
                &&& match r {
                    Ok(b) => b == true && e is None,
                    Err(err) => Some(err@) == e,
                }
            }),
    {
        let ghost st0 = old(self)@;
        let ghost rulem = old(self).cfg().rules[ri as int];
        let ghost capsdv = groups.deep_view();
        let ghost s = old(self).seg_count();
        let config: &Config = self.config;
        let rule = &config.rules[ri];
        proof {
            crate::config::lemma_wf_parts(self.config);
            assert(rulem == rule@);
            assert(rulem.valid(s));
            assert(st_wf(st0, s));
        }

        // Clone the template: all per-capture adjustments mutate the copy.
        let nseg = rule.segment_values.len();
        proof {
            assert(nseg == rulem.template.len());
        }
        let mut local: Vec<Vec<u64>> = Vec::new();
        for si in 0..nseg
            invariant
                local@.len() == si,
                forall|k: int| 0 <= k < si ==> (#[trigger] local@[k])@ == rulem.template[k],
        {
            let row = rule.segment_values[si].clone();
            proof {
                assert forall|w: int| 0 <= w < row@.len() implies row@[w]
                    == rule.segment_values@[si as int]@[w] by {
                    assert(cloned::<u64>(rule.segment_values@[si as int][w], row[w]));
                }
                assert(row@ =~= rule.segment_values@[si as int]@);
                assert(rulem.template[si as int] =~= rule.segment_values@[si as int]@);
            }
            local.push(row);
        }
        proof {
            assert(rows_view(local@) =~= rulem.template);
        }

        // Apply the self-references to the template copy.
        let ghost local0 = apply_self_refs(st0.segments, rulem.template, rulem.self_refs, 0);
        let nsr = rule.self_references.len();
        for k in 0..nsr
            invariant
                local@.len() == nseg,
                forall|j: int|
                    0 <= j < nseg ==> (#[trigger] local@[j])@.len() == rulem.template[j].len(),
                apply_self_refs(st0.segments, rulem.template, rulem.self_refs, 0) == apply_self_refs(
                    st0.segments,
                    rows_view(local@),
                    rulem.self_refs,
                    k as int,
                ),
                *self == *old(self),
        {
            let ghost rows0 = rows_view(local@);
            let f = rule.self_references[k];
            proof {
                assert(f == rulem.self_refs[k as int]);
                assert(crate::config::feedback_ok(f, s, rulem.template));
            }
            let p = self.segments[f.from_segment].len();
            let shifted = shift_left_or_right(p as u64, f.shift);
            let cur = local[f.add_segment][f.add_index];
            local[f.add_segment][f.add_index] = cur.wrapping_add(shifted);
            proof {
                let row = rows0[f.add_segment as int];
                let updated = rows0.update(
                    f.add_segment as int,
                    row.update(
                        f.add_index as int,
                        crate::shift::wadd(
                            row[f.add_index as int],
                            crate::shift::spec_shift(
                                st0.segments[f.from_segment as int].len() as u64,
                                f.shift,
                            ),
                        ),
                    ),
                );
                assert(rows_view(local@) =~~= updated);
                assert(apply_self_refs(st0.segments, rows0, rulem.self_refs, k as int)
                    == apply_self_refs(st0.segments, updated, rulem.self_refs, k + 1));
            }
        }
        proof {
            assert(rows_view(local@) =~~= local0);
        }

        // First pass over the captures: every group must have participated
        // in the match, and every number capture must parse. No state has
        // changed yet, so these errors abort the rule atomically.
        let ncaps = rule.captures.len();
        let mut vals: Vec<i64> = Vec::new();
        for g in 0..ncaps
            invariant
                vals@.len() == g,
                precheck_err(rulem.captures, capsdv, line, 0) == precheck_err(
                    rulem.captures,
                    capsdv,
                    line,
                    g as int,
                ),
                forall|j: int| 0 <= j < g ==> (#[trigger] capsdv[j + 1]) is Some,
                forall|j: int|
                    0 <= j < g ==> match #[trigger] rulem.captures[j] {
                        CaptureModel::Num { base, feedbacks } => parsed_i64(
                            capsdv[j + 1]->Some_0,
                            base,
                        ) == Some(vals@[j]),
                        _ => true,
                    },
                *self == *old(self),
                local@.len() == nseg,
        {
            proof {
                assert(capsdv[g + 1] == match groups@[g + 1] {
                    Some(t) => Some(t@),
                    None => None::<Seq<char>>,
                });
                assert(rulem.captures[g as int] == rule.captures@[g as int]@);
            }
            match &groups[g + 1] {
                None => {
                    return Err(AsmError::UnmatchedCapture { line });
                },
                Some(text) => {
                    match &rule.captures[g] {
                        Capture::Num { base, feedbacks: _ } => {
                            proof {
                                assert(capture_ok(rulem.captures[g as int], s, rulem.template));
                            }
                            match parse_i64(text.as_str(), *base) {
                                None => {
                                    return Err(AsmError::NumberParseFailure {
                                        line,
                                        text: text.clone(),
                                    });
                                },
                                Some(v) => {
                                    vals.push(v);
                                },
                            }
                        },
                        _ => {
                            vals.push(0);
                        },
                    }
                },
            }
        }
        proof {
            assert(precheck_err(rulem.captures, capsdv, line, 0) is None);
        }

        // Second pass: apply every capture in order.
        let ghost fs0 = live_fs(st0, local@);
        for g in 0..ncaps
            invariant
                local@.len() == nseg,
                self.config == old(self).config,
                self@.tags == st0.tags,
                self@.plus_tags == st0.plus_tags,
                self@.minus_tags == st0.minus_tags,
                self@.segments.len() == s,
                apply_captures(fs0, rulem.captures, capsdv, line, 0) == apply_captures(
                    live_fs(self@, local@),
                    rulem.captures,
                    capsdv,
                    line,
                    g as int,
                ),
        {
            let ghost stA = self@;
            let ghost localA = local@;
            proof {
                assert(capsdv[g + 1] == match groups@[g + 1] {
                    Some(t) => Some(t@),
                    None => None::<Seq<char>>,
                });
                assert(rulem.captures[g as int] == rule.captures@[g as int]@);
                assert(capture_ok(rulem.captures[g as int], s, rulem.template));
            }
            let text: &String = groups[g + 1].as_ref().unwrap();
            let ghost textv = capsdv[g + 1]->Some_0;
            match &rule.captures[g] {
                Capture::Tag { feedbacks } => {
                    proof {
                        assert forall|j: int| 0 <= j < feedbacks@.len() implies (
                        #[trigger] feedbacks@[j]).add_segment < s && feedbacks@[j].from_segment
                            < s by {
                            assert(crate::config::feedback_ok(feedbacks@[j], s, rulem.template));
                        }
                    }
                    self.apply_tag_capture(feedbacks, text, line, Ghost(rows_view(localA)));
                    proof {
                        assert(live_fs(self@, local@) =~= FireStep {
                            segments: stA.segments,
                            local: rows_view(localA),
                            reps: self@.replacements,
                            err: None,
                        });
                        assert(apply_captures(live_fs(stA, localA), rulem.captures, capsdv, line, g as int)
                            == apply_captures(live_fs(self@, local@), rulem.captures, capsdv, line, g + 1));
                    }
                },
                Capture::Str { add_segment } => {
                    let aseg = *add_segment;
                    self.apply_str_capture(aseg, text);
                    proof {
                        let fs2 = FireStep {
                            segments: live_fs(stA, localA).segments.update(
                                aseg as int,
                                live_fs(stA, localA).segments[aseg as int]
                                    + crate::step::chars_to_words(textv),
                            ),
                            ..live_fs(stA, localA)
                        };
                        assert(live_fs(self@, local@) =~= fs2);
                        assert(apply_captures(live_fs(stA, localA), rulem.captures, capsdv, line, g as int)
                            == apply_captures(live_fs(self@, local@), rulem.captures, capsdv, line, g + 1));
                    }
                },
                Capture::Num { base: _, feedbacks } => {
                    proof {
                        assert forall|j: int| 0 <= j < feedbacks@.len() implies (
                        #[trigger] feedbacks@[j]).segment < s by {
                            assert(crate::config::num_feedback_ok(feedbacks@[j], s, rulem.template));
                        }
                    }
                    let val = #[verifier::truncate] (vals[g] as u64);
                    proof {
                        assert(rulem.captures[g as int] matches CaptureModel::Num {
                            base: bb,
                            feedbacks: ff,
                        } && ff == feedbacks@ && parsed_i64(textv, bb) == Some(vals@[g as int])
                            && val == parsed_i64(textv, bb)->Some_0 as u64);
                    }
                    let res = self.apply_num_capture(feedbacks, &mut local, val, line);
                    match res {
                        Ok(_) => {
                            proof {
                                let r2 = apply_num_feedbacks(
                                    live_fs(stA, localA),
                                    feedbacks@,
                                    val,
                                    line,
                                    0,
                                );
                                crate::laws::lemma_num_feedbacks_props(
                                    live_fs(stA, localA),
                                    feedbacks@,
                                    val,
                                    line,
                                    0,
                                    s,
                                );
                                assert(r2.local =~~= rows_view(local@));
                                assert(live_fs(self@, local@) =~= r2);
                                assert(apply_captures(live_fs(stA, localA), rulem.captures, capsdv, line, g as int)
                                    == apply_captures(live_fs(self@, local@), rulem.captures, capsdv, line, g + 1));
                            }
                        },
                        Err(e) => {
                            proof {
                                let r2 = apply_num_feedbacks(
                                    live_fs(stA, localA),
                                    feedbacks@,
                                    val,
                                    line,
                                    0,
                                );
                                crate::laws::lemma_num_feedbacks_props(
                                    live_fs(stA, localA),
                                    feedbacks@,
                                    val,
                                    line,
                                    0,
                                    s,
                                );
                                assert(r2.err == Some(e@));
                                assert(r2 == FireStep {
                                    segments: self@.segments,
                                    local: rows_view(local@),
                                    reps: self@.replacements,
                                    err: Some(e@),
                                }) by {
                                    assert(r2.segments == self@.segments);
                                    assert(r2.local =~~= rows_view(local@));
                                    assert(r2.reps == stA.replacements);
                                    assert(self@.replacements == stA.replacements);
                                };
                                lemma_apply_captures_err(
                                    live_fs(stA, localA),
                                    rulem.captures,
                                    capsdv,
                                    line,
                                    g as int,
                                    r2,
                                    feedbacks@,
                                    val,
                                );
                                assert(apply_captures(fs0, rulem.captures, capsdv, line, 0) == r2);
                                assert(spec_fire(st0, rulem, capsdv, line) == (
                                    StateModel {
                                        segments: r2.segments,
                                        replacements: r2.reps,
                                        ..st0
                                    },
                                    Some(e@),
                                ));
                                assert(self@ =~= StateModel {
                                    segments: r2.segments,
                                    replacements: r2.reps,
                                    ..st0
                                });
                                crate::laws::lemma_fire_props(st0, rulem, capsdv, line, s);
                            }
                            return Err(e);
                        },
                    }
                },
            }
        }

        // Commit: append what remains of the template copy to the segments.
        let ghost fsf = apply_captures(fs0, rulem.captures, capsdv, line, 0);
        proof {
            assert(fsf == live_fs(self@, local@));
            assert(fsf.err is None);
            crate::laws::lemma_fire_props(st0, rulem, capsdv, line, s);
        }
        let ghost stC = self@;
        for si in 0..nseg
            invariant
                nseg == s,
                local@.len() == nseg - si,
                self.config == old(self).config,
                self@.tags == stC.tags,
                self@.plus_tags == stC.plus_tags,
                self@.minus_tags == stC.minus_tags,
                self@.replacements == stC.replacements,
                self@.segments.len() == s,
                forall|k: int|
                    0 <= k < local@.len() ==> (#[trigger] local@[k])@ == fsf.local[k + si],
                forall|k: int| 0 <= k < si ==> self@.segments[k] == fsf.segments[k] + fsf.local[k],
                forall|k: int| si <= k < s ==> self@.segments[k] == fsf.segments[k],
        {
            let ghost stD = self@;
            let mut row = local.remove(0);
            self.segments[si].append(&mut row);
            proof {
                assert(self@.segments =~~= stD.segments.update(
                    si as int,
                    fsf.segments[si as int] + fsf.local[si as int],
                ));
            }
        }
        proof {
            assert(self@.segments =~~= zip_append(fsf.segments, fsf.local));
            assert(self@ =~= StateModel {
                segments: zip_append(fsf.segments, fsf.local),
                replacements: fsf.reps,
                ..st0
            });
            assert(spec_fire(st0, rulem, capsdv, line) == (self@, None::<ErrModel>));
        }
        Ok(true)
    }

    /// Try every rule in priority order; the first whose regex matches the
    /// whole token fires. `Ok(false)` means no rule matched.
    #[verifier::loop_isolation(false)]
    fn attempt_rules(&mut self, segment: &str, line: usize) -> (r: Result<bool, AsmError>)
        requires
            old(self).wf(),
        ensures
            final(self).wf(),
            final(self).cfg() == old(self).cfg(),
            ({
                match first_rule_match(old(self).cfg().rules, segment@, 0) {
                    Some((i, caps)) => {
                        let (st2, e) = spec_fire(old(self)@, old(self).cfg().rules[i], caps, line);
                        &&& final(self)@ == st2
                        &&& match r {
                            Ok(b) => b == true && e is None,
                            Err(err) => Some(err@) == e,
                        }
                    },
                    None => final(self)@ == old(self)@ && r == Ok::<bool, AsmError>(false),
                }
            }),
    {
        proof {
            crate::config::lemma_wf_parts(self.config);
        }
        let config: &Config = self.config;
        let nrules = config.rules.len();
        for ri in 0..nrules
            invariant
                *self == *old(self),
                first_rule_match(old(self).cfg().rules, segment@, 0) == first_rule_match(
                    old(self).cfg().rules,
                    segment@,
                    ri as int,
                ),
        {
            let rule = &config.rules[ri];
            proof {
                assert(rule@ == old(self).cfg().rules[ri as int]);
                assert(rule@.valid(old(self).seg_count()));
            }
            let caps_opt = regex_captures(rule.regex.as_ref().unwrap(), segment);
            match caps_opt {
                None => {
                    proof {
                        assert(regex_captures_spec(rule@.pattern, segment@) is None);
                        assert(whole_match(rule@.pattern, segment@) is None);
                    }
                },
                Some(groups) => {
                    proof {
                        assert(regex_captures_spec(rule@.pattern, segment@) == Some(
                            groups.deep_view(),
                        ));
                        assert(groups.deep_view()[0] == match groups@[0] {
                            Some(m) => Some(m@),
                            None => None::<Seq<char>>,
                        });
                    }
                    // The match must cover the whole token to be accepted.
                    let covers = match &groups[0] {
                        Some(m) => str_eq(m.as_str(), segment),
                        None => false,
                    };
                    if covers {
                        proof {
                            assert(whole_match(rule@.pattern, segment@) == Some(
                                groups.deep_view(),
                            ));
                            assert(first_rule_match(old(self).cfg().rules, segment@, ri as int)
                                == Some((ri as int, groups.deep_view())));
                        }
                        return self.fire_rule(ri, &groups, line);
                    }
                    proof {
                        assert(whole_match(rule@.pattern, segment@) is None);
                    }
                },
            }
        }
        Ok(false)
    }
}

/// If one capture's feedbacks end in an error step, processing the
/// remaining captures changes nothing more: the error is the result.
proof fn lemma_apply_captures_err(
    fsg: FireStep,
    captures: Seq<CaptureModel>,
    caps: Seq<Option<Seq<char>>>,
    line: usize,
    g: int,
    fserr: FireStep,
    fdv: Seq<crate::config::NumFeedback>,
    val: u64,
)
    requires
        fserr.err is Some,
        0 <= g < captures.len(),
        fsg.err is None,
        captures[g] matches CaptureModel::Num { base, feedbacks } && feedbacks == fdv
            && parsed_i64(caps[g + 1]->Some_0, base)->Some_0 as u64 == val,
        apply_num_feedbacks(fsg, fdv, val, line, 0) == fserr,
    ensures
        apply_captures(fsg, captures, caps, line, g) == fserr,
{
    assert(apply_captures(fsg, captures, caps, line, g) == apply_captures(
        fserr,
        captures,
        caps,
        line,
        g + 1,
    ));
    lemma_apply_captures_stops(fserr, captures, caps, line, g + 1);
}

/// Once an error step is reached, further captures are not processed.
proof fn lemma_apply_captures_stops(
    fs: FireStep,
    captures: Seq<CaptureModel>,
    caps: Seq<Option<Seq<char>>>,
    line: usize,
    g: int,
)
    requires
        fs.err is Some,
    ensures
        apply_captures(fs, captures, caps, line, g) == fs,
{
}

/// The end of the whitespace-free run starting at `start`.
#[verifier::loop_isolation(false)]
fn token_end_exec(sv: &str, start: usize) -> (j: usize)
    requires
        start <= sv@.len(),
    ensures
        j as int == token_end(sv@, start as int),
        start <= j <= sv@.len(),
{
    proof {
        crate::step::lemma_token_end_bounds(sv@, start as int);
    }
    let n = sv.unicode_len();
    let mut j = start;
    loop
        invariant
            start <= j <= n,
            n == sv@.len(),
            token_end(sv@, start as int) == token_end(sv@, j as int),
        decreases n - j,
    {
        if j >= n {
            return j;
        }
        let c = sv.get_char(j);
        if char_is_whitespace(c) {
            return j;
        }
        j = j + 1;
    }
}

/// The index of the first `#` in the line, or its length if there is none:
/// everything before it is what the parser reads.
#[verifier::loop_isolation(false)]
fn comment_start(sv: &str) -> (j: usize)
    ensures
        j <= sv@.len(),
        strip_comment(sv@, 0) == sv@.take(j as int),
{
    let n = sv.unicode_len();
    let mut j: usize = 0;
    loop
        invariant
            0 <= j <= n,
            n == sv@.len(),
            strip_comment(sv@, 0) == strip_comment(sv@, j as int),
        decreases n - j,
    {
        if j >= n {
            proof {
                assert(sv@.take(j as int) =~= sv@);
            }
            return j;
        }
        let c = sv.get_char(j);
        if c == '#' {
            return j;
        }
        j = j + 1;
    }
}

impl<'a> Parser<'a> {
    /// Dispatch one token: empty tokens are skipped, a whole-token match
    /// of the tag-creation rule records a tag, otherwise the first rule
    /// matching the whole token fires, and a token nothing matches in full
    /// is a fatal `UnrecognizedToken`.
    pub fn parse_segment(&mut self, segment: &str, line: usize) -> (r: Result<(), AsmError>)
        requires
            old(self).wf(),
        ensures
            final(self).wf(),
            final(self).cfg() == old(self).cfg(),
            ({
                let (st2, e) = spec_dispatch(old(self)@, old(self).cfg(), segment@, line);
                &&& final(self)@ == st2
                &&& match r {
                    Ok(_) => e is None,
                    Err(err) => Some(err@) == e,
                }
            }),
            lens_leq(old(self)@.segments, final(self)@.segments),
    {
        proof {
            crate::config::lemma_wf_parts(self.config);
            crate::laws::lemma_dispatch_props(old(self)@, old(self).cfg(), segment@, line);
        }
        if segment.is_empty() {
            return Ok(());
        }
        let tc = self.attempt_tag_create(segment, line);
        match tc {
            Err(e) => {
                return Err(e);
            },
            Ok(true) => {
                return Ok(());
            },
            Ok(false) => {},
        }
        let ar = self.attempt_rules(segment, line);
        match ar {
            Err(e) => Err(e),
            Ok(true) => Ok(()),
            Ok(false) => Err(
                AsmError::UnrecognizedToken { line, token: segment.to_owned() },
            ),
        }
    }

    /// One source line: strip the comment, then dispatch the remainder as
    /// a whole or word by word, per the configuration.
    #[verifier::loop_isolation(false)]
    fn parse_line(&mut self, text: &str, lineno: usize) -> (r: Result<(), AsmError>)
        requires
            old(self).wf(),
        ensures
            final(self).wf(),
            final(self).cfg() == old(self).cfg(),
            ({
                let (st2, e) = spec_parse_line(old(self)@, old(self).cfg(), text@, lineno);
                &&& final(self)@ == st2
                &&& match r {
                    Ok(_) => e is None,
                    Err(err) => Some(err@) == e,
                }
            }),
            lens_leq(old(self)@.segments, final(self)@.segments),
    {
        proof {
            crate::config::lemma_wf_parts(self.config);
            crate::laws::lemma_line_props(old(self)@, old(self).cfg(), text@, lineno);
        }
        let cend = comment_start(text);
        let stripped = text.substring_char(0, cend);
        proof {
            assert(stripped@ == strip_comment(text@, 0));
        }
        if self.config.split_whitespace {
            let ghost st0 = old(self)@;
            let ghost cfg = old(self).cfg();
            let n = stripped.unicode_len();
            let mut i: usize = 0;
            while i < n
                invariant
                    i <= n,
                    n == stripped@.len(),
                    self.wf(),
                    self.cfg() == cfg,
                    spec_parse_tokens(st0, cfg, stripped@, lineno, 0) == spec_parse_tokens(
                        self@,
                        cfg,
                        stripped@,
                        lineno,
                        i as int,
                    ),
                    lens_leq(st0.segments, self@.segments),
                decreases n - i,
            {
                let c = stripped.get_char(i);
                if char_is_whitespace(c) {
                    i = i + 1;
                } else {
                    proof {
                        crate::step::lemma_token_end_bounds(stripped@, i as int);
                    }
                    let j = token_end_exec(stripped, i);
                    let token = stripped.substring_char(i, j);
                    proof {
                        assert(token@ == stripped@.subrange(i as int, j as int));
                    }
                    let ghost stmid = self@;
                    let res = self.parse_segment(token, lineno);
                    proof {
                        crate::model::lemma_lens_leq_trans(
                            st0.segments,
                            stmid.segments,
                            self@.segments,
                        );
                    }
                    match res {
                        Err(e) => {
                            return Err(e);
                        },
                        Ok(_) => {
                            i = j;
                        },
                    }
                }
            }
            proof {
                assert(spec_parse_tokens(self@, cfg, stripped@, lineno, i as int) == (
                    self@,
                    None::<ErrModel>,
                ));
            }
            Ok(())
        } else {
            self.parse_segment(stripped, lineno)
        }
    }

    /// Feed one buffer of input lines, numbered from 1, into the parser.
    /// Each call extends the same emission state; parsing stops at the
    /// first fatal error.
    #[verifier::loop_isolation(false)]
    pub fn parse(&mut self, lines: &Vec<String>) -> (r: Result<(), AsmError>)
        requires
            old(self).wf(),
        ensures
            final(self).wf(),
            final(self).cfg() == old(self).cfg(),
            ({
                let (st2, e) = spec_parse_lines(old(self)@, old(self).cfg(), lines.deep_view(), 0);
                &&& final(self)@ == st2
                &&& match r {
                    Ok(_) => e is None,
                    Err(err) => Some(err@) == e,
                }
            }),
            lens_leq(old(self)@.segments, final(self)@.segments),
    {
        let ghost st0 = old(self)@;
        let ghost cfg = old(self).cfg();
        let ghost linesv = lines.deep_view();
        proof {
            crate::config::lemma_wf_parts(self.config);
            crate::laws::lemma_lines_props(st0, cfg, linesv, 0);
        }
        let n = lines.len();
        for li in 0..n
            invariant
                n == linesv.len(),
                self.wf(),
                self.cfg() == cfg,
                spec_parse_lines(st0, cfg, linesv, 0) == spec_parse_lines(
                    self@,
                    cfg,
                    linesv,
                    li as int,
                ),
                lens_leq(st0.segments, self@.segments),
        {
            proof {
                assert(linesv[li as int] == lines@[li as int]@);
            }
            let ghost stmid = self@;
            let res = self.parse_line(lines[li].as_str(), li + 1);
            proof {
                crate::model::lemma_lens_leq_trans(st0.segments, stmid.segments, self@.segments);
            }
            match res {
                Err(e) => {
                    return Err(e);
                },
                Ok(_) => {},
            }
        }
        Ok(())
    }

    /// Resolve every pending replacement against the final tag state and
    /// patch the referenced words. Call once, after the last `parse`.
    #[verifier::loop_isolation(false)]
    pub fn link(&mut self) -> (r: Result<(), AsmError>)
        requires
            old(self).wf(),
        ensures
            final(self).wf(),
            final(self).cfg() == old(self).cfg(),
            ({
                let (segments2, e) = spec_link(old(self)@);
                &&& final(self)@ == (StateModel { segments: segments2, ..old(self)@ })
                &&& match r {
                    Ok(_) => e is None,
                    Err(err) => Some(err@) == e,
                }
            }),
            lens_eq(old(self)@.segments, final(self)@.segments),
    {
        let ghost st0 = old(self)@;
        let ghost s = old(self).seg_count();
        proof {
            crate::laws::lemma_link_shape(st0.segments, st0, 0);
        }
        let nreps = self.replacements.len();
        for rix in 0..nreps
            invariant
                nreps == st0.replacements.len(),
                self.config == old(self).config,
                self@.tags == st0.tags,
                self@.plus_tags == st0.plus_tags,
                self@.minus_tags == st0.minus_tags,
                self@.replacements == st0.replacements,
                lens_eq(st0.segments, self@.segments),
                spec_link_from(st0.segments, st0, 0) == spec_link_from(
                    self@.segments,
                    st0,
                    rix as int,
                ),
        {
            let ghost segsB = self@.segments;
            let ghost rm = st0.replacements[rix as int];
            proof {
                assert(rm == self.replacements@[rix as int]@);
                assert(crate::model::rep_wf(rm, s));
            }
            let rep_line = self.replacements[rix].line;
            let rep_shift = self.replacements[rix].shift;
            let rep_add_segment = self.replacements[rix].add_segment;
            let rep_index = self.replacements[rix].index;
            let rep_pos_segment = self.replacements[rix].pos_segment;
            let rep_pos_offset = self.replacements[rix].pos_offset;
            let rep_tag = self.replacements[rix].tag.clone();
            proof {
                assert(rep_tag@ == rm.tag);
            }

            // Select the position vector the tag denotes.
            let mut pos_val: usize = 0;
            let mut found = false;
            let ghost mut posv: Seq<usize> = Seq::empty();
            if str_all_char(rep_tag.as_str(), '+') {
                let np = self.plus_tags.len();
                let tlen = rep_tag.as_str().unicode_len();
                for k in 0..np
                    invariant
                        !found,
                        tlen == rm.tag.len(),
                        find_plus_from(st0.plus_tags, rm.tag.len(), rm.add_segment, rm.index, 0)
                            == find_plus_from(
                            st0.plus_tags,
                            rm.tag.len(),
                            rm.add_segment,
                            rm.index,
                            k as int,
                        ),
                {
                    if self.plus_tags[k].0 == tlen && self.plus_tags[k].1[rep_add_segment] as u128
                        >= rep_index {
                        pos_val = self.plus_tags[k].1[rep_pos_segment];
                        found = true;
                        proof {
                            posv = st0.plus_tags[k as int].1;
                        }
                        break;
                    }
                }
                proof {
                    if found {
                        assert(find_plus_from(
                            st0.plus_tags,
                            rm.tag.len(),
                            rm.add_segment,
                            rm.index,
                            0,
                        ) == Some(posv));
                    } else {
                        assert(find_plus_from(
                            st0.plus_tags,
                            rm.tag.len(),
                            rm.add_segment,
                            rm.index,
                            0,
                        ) is None);
                    }
                }
            } else if str_all_char(rep_tag.as_str(), '-') {
                let tlen = rep_tag.as_str().unicode_len();
                let mut k = self.minus_tags.len();
                while k > 0
                    invariant
                        !found,
                        k <= st0.minus_tags.len(),
                        tlen == rm.tag.len(),
                        find_minus_from(
                            st0.minus_tags,
                            rm.tag.len(),
                            rm.add_segment,
                            rm.index,
                            st0.minus_tags.len() - 1,
                        ) == find_minus_from(
                            st0.minus_tags,
                            rm.tag.len(),
                            rm.add_segment,
                            rm.index,
                            k - 1,
                        ),
                    decreases k,
                {
                    k = k - 1;
                    if self.minus_tags[k].0 == tlen && (self.minus_tags[k].1[rep_add_segment]
                        as u128) < rep_index {
                        pos_val = self.minus_tags[k].1[rep_pos_segment];
                        found = true;
                        proof {
                            posv = st0.minus_tags[k as int].1;
                        }
                        break;
                    }
                }
                proof {
                    if found {
                        assert(find_minus_from(
                            st0.minus_tags,
                            rm.tag.len(),
                            rm.add_segment,
                            rm.index,
                            st0.minus_tags.len() - 1,
                        ) == Some(posv));
                    } else {
                        assert(find_minus_from(
                            st0.minus_tags,
                            rm.tag.len(),
                            rm.add_segment,
                            rm.index,
                            st0.minus_tags.len() - 1,
                        ) is None);
                    }
                }
            } else {
                let nt = self.tags.len();
                for k in 0..nt
                    invariant
                        !found,
                        tag_lookup(st0.tags, rm.tag) == tag_lookup_from(st0.tags, rm.tag, k as int),
                {
                    if self.tags[k].0 == rep_tag {
                        pos_val = self.tags[k].1[rep_pos_segment];
                        found = true;
                        proof {
                            posv = st0.tags[k as int].1;
                        }
                        break;
                    }
                }
                proof {
                    if found {
                        assert(tag_lookup(st0.tags, rm.tag) == Some(posv));
                    } else {
                        assert(tag_lookup(st0.tags, rm.tag) is None);
                    }
                }
            }

            if !found {
                proof {
                    assert(spec_link_one(segsB, st0, rm) == (
                        segsB,
                        Some(ErrModel::UndefinedTag { line: rm.line, tag: rm.tag }),
                    ));
                }
                return Err(AsmError::UndefinedTag { line: rep_line, tag: rep_tag });
            }
            proof {
                assert(pos_val == posv[rm.pos_segment as int]);
            }
            if rep_index < self.segments[rep_add_segment].len() as u128 {
                let idx = #[verifier::truncate] (rep_index as usize);
                let off_word = #[verifier::truncate] (rep_pos_offset as u64);
                let patch_word = (pos_val as u64).wrapping_add(off_word);
                let patch = shift_left_or_right(patch_word, rep_shift);
                let cur = self.segments[rep_add_segment][idx];
                self.segments[rep_add_segment][idx] = cur.wrapping_add(patch);
                proof {
                    let row = segsB[rm.add_segment as int];
                    let expected = segsB.update(
                        rm.add_segment as int,
                        row.update(
                            rm.index as int,
                            crate::shift::wadd(
                                row[rm.index as int],
                                crate::shift::spec_shift(
                                    crate::shift::wadd(
                                        crate::shift::to_word(posv[rm.pos_segment as int] as int),
                                        crate::shift::to_word(rm.pos_offset as int),
                                    ),
                                    rm.shift,
                                ),
                            ),
                        ),
                    );
                    assert(patch_word == crate::shift::wadd(
                        crate::shift::to_word(posv[rm.pos_segment as int] as int),
                        crate::shift::to_word(rm.pos_offset as int),
                    ));
                    assert(self@.segments =~~= expected);
                    assert(spec_link_one(segsB, st0, rm) == (expected, None::<ErrModel>));
                    assert(spec_link_from(segsB, st0, rix as int) == spec_link_from(
                        self@.segments,
                        st0,
                        rix + 1,
                    ));
                    crate::laws::lemma_link_shape(st0.segments, st0, 0);
                    assert(lens_eq(st0.segments, self@.segments)) by {
                        assert forall|q: int| 0 <= q < st0.segments.len() implies (
                        #[trigger] st0.segments[q]).len() == (#[trigger] self@.segments[q]).len() by {
                            assert(segsB[q].len() == st0.segments[q].len());
                            if q != rm.add_segment as int {
                                assert(self@.segments[q] == segsB[q]);
                            }
                        }
                    }
                }
            } else {
                proof {
                    assert(spec_link_one(segsB, st0, rm) == (
                        segsB,
                        Some(ErrModel::PatchOutOfRange { line: rm.line }),
                    ));
                }
                return Err(AsmError::PatchOutOfRange { line: rep_line });
            }
        }
        proof {
            assert(spec_link_from(self@.segments, st0, nreps as int) == (
                self@.segments,
                None::<ErrModel>,
            ));
            assert(self@ =~= (StateModel { segments: spec_link(st0).0, ..st0 }));
        }
        Ok(())
    }
}

impl<'a> Parser<'a> {
    /// Serialize one segment's words in the given format.
    #[verifier::loop_isolation(false)]
    pub fn output(&self, format: OutputFormat, segment: usize) -> (r: Vec<u8>)
        requires
            self.wf(),
            segment < self.seg_count(),
        ensures
            r@ == crate::serialize::spec_output_words(
                self@.segments[segment as int],
                self.cfg().widths[segment as int] as nat,
                format,
                0,
            ),
    {
        proof {
            crate::config::lemma_wf_parts(self.config);
        }
        let width = self.config.segment_widths[segment];
        proof {
            assert(1 <= width <= 8);
        }
        let words = &self.segments[segment];
        let ghost wv = self@.segments[segment as int];
        let ghost wn = width as nat;
        proof {
            assert(words@ == wv);
        }
        let mut out: Vec<u8> = Vec::new();
        let n = words.len();
        proof {
            assert(Seq::<u8>::empty() + crate::serialize::spec_output_words(wv, wn, format, 0)
                =~= crate::serialize::spec_output_words(wv, wn, format, 0));
        }
        for i in 0..n
            invariant
                n == wv.len(),
                words@ == wv,
                1 <= width <= 8,
                wn == width as nat,
                crate::serialize::spec_output_words(wv, wn, format, 0) == out@
                    + crate::serialize::spec_output_words(wv, wn, format, i as int),
        {
            let ghost outB = out@;
            let mut wb = crate::serialize::word_bytes(words[i], width, format);
            let ghost wbv = wb@;
            out.append(&mut wb);
            proof {
                assert(outB + (wbv + crate::serialize::spec_output_words(wv, wn, format, i + 1))
                    =~= (outB + wbv) + crate::serialize::spec_output_words(wv, wn, format, i + 1));
            }
        }
        proof {
            assert(out@ + crate::serialize::spec_output_words(wv, wn, format, n as int) =~= out@);
        }
        out
    }
}

/// Run the whole pipeline: validate the configuration and compile its
/// regexes, parse every input buffer in order, link, and serialize every
/// segment in the chosen format.
#[verifier::loop_isolation(false)]
pub fn assemble(config: &mut Config, buffers: &Vec<Vec<String>>, format: OutputFormat) -> (r:
    Result<Vec<Vec<u8>>, RunError>)
    ensures
        final(config)@ == old(config)@,
        ({
            match crate::config::config_first_error(old(config)@) {
                Some(ce) => r matches Err(RunError::Config(c)) && c == ce,
                None => {
                    let init = StateModel::init(old(config)@.seg_count());
                    let (stp, e1) = crate::step::spec_parse_buffers(
                        init,
                        old(config)@,
                        buffers.deep_view(),
                        0,
                    );
                    match e1 {
                        Some(em) => r matches Err(RunError::Assembly(err)) && err@ == em,
                        None => {
                            let (segs, e2) = spec_link(stp);
                            match e2 {
                                Some(em) => r matches Err(RunError::Assembly(err)) && err@ == em,
                                None => r matches Ok(outs) && outs.deep_view()
                                    == crate::serialize::spec_all_outputs(
                                    segs,
                                    old(config)@,
                                    format,
                                ),
                            }
                        },
                    }
                },
            }
        }),
{
    let ghost cfgv = old(config)@;
    match config.consistency_check() {
        Err(ce) => {
            return Err(RunError::Config(ce));
        },
        Ok(_) => {},
    }
    let ghost init = StateModel::init(cfgv.seg_count());
    let ghost bufv = buffers.deep_view();
    let mut parser = Parser::new(config);
    let nb = buffers.len();
    for bi in 0..nb
        invariant
            nb == bufv.len(),
            parser.wf(),
            parser.cfg() == cfgv,
            crate::step::spec_parse_buffers(init, cfgv, bufv, 0)
                == crate::step::spec_parse_buffers(parser@, cfgv, bufv, bi as int),
    {
        proof {
            assert(bufv[bi as int] == buffers@[bi as int].deep_view());
        }
        let res = parser.parse(&buffers[bi]);
        match res {
            Err(e) => {
                return Err(RunError::Assembly(e));
            },
            Ok(_) => {},
        }
    }
    proof {
        assert(crate::step::spec_parse_buffers(init, cfgv, bufv, 0) == (
            parser@,
            None::<ErrModel>,
        ));
    }
    let lres = parser.link();
    match lres {
        Err(e) => {
            return Err(RunError::Assembly(e));
        },
        Ok(_) => {},
    }
    let ghost segs = parser@.segments;
    let s = parser.segment_count();
    let mut outs: Vec<Vec<u8>> = Vec::new();
    for si in 0..s
        invariant
            s == cfgv.seg_count(),
            parser.wf(),
            parser.cfg() == cfgv,
            parser@.segments == segs,
            outs@.len() == si,
            forall|k: int|
                0 <= k < si ==> (#[trigger] outs@[k])@ == crate::serialize::spec_output_words(
                    segs[k],
                    cfgv.widths[k] as nat,
                    format,
                    0,
                ),
    {
        let o = parser.output(format, si);
        outs.push(o);
    }
    proof {
        assert(outs.deep_view() =~~= crate::serialize::spec_all_outputs(segs, cfgv, format));
    }
    Ok(outs)
}

impl<'a> Parser<'a> {
    /// The number of output segments the configuration fixes.
    pub fn segment_count(&self) -> (r: usize)
        ensures
            r == self.seg_count(),
    {
        self.config.segment_widths.len()
    }
}

} // verus!
