//! The assembler's configuration: per-segment byte widths, a tokenization
//! flag, the tag-creation regex, and the ordered rule list.
//!
//! `consistency_check` compiles the regexes and validates every cross
//! reference; afterwards the configuration is well formed (`wf`) and the
//! parser may rely on it. Each struct's mathematical view (`ConfigModel`
//! and friends) carries everything but the compiled regexes, which are
//! represented by their patterns.

use vstd::prelude::*;
use crate::error::ConfigError;
use crate::rex::{regex_captures_len, regex_groups, regex_new, regex_pattern, regex_valid,
    CompiledRegex};

verus! {

pub fn feedback_default_negate() -> (r: bool)
    ensures
        r == false,
{
    false
}

pub fn feedback_default_shift() -> (r: i32)
    ensures
        r == 0,
{
    0
}

pub fn feedback_default_segment() -> (r: usize)
    ensures
        r == 0,
{
    0
}

pub fn feedback_default_index() -> (r: usize)
    ensures
        r == 0,
{
    0
}

pub fn feedback_default_fill() -> (r: bool)
    ensures
        r == false,
{
    false
}

// Default is -1 so that the captured number is copied that many times.
pub fn feedback_default_fill_offset() -> (r: isize)
    ensures
        r == -1,
{
    -1
}

pub fn tag_feedback_default_relative() -> (r: bool)
    ensures
        r == false,
{
    false
}

pub fn tag_feedback_default_shift() -> (r: i32)
    ensures
        r == 0,
{
    0
}

pub fn tag_feedback_default_offset() -> (r: isize)
    ensures
        r == 0,
{
    0
}

/// How a captured number feeds back into the rule's emission.
#[derive(Clone, Copy, Debug)]
pub struct NumFeedback {
    /// Should the value be negated (two's complement) after shifting?
    pub negate: bool,
    /// Signed shift applied to the value first; negative shifts right.
    pub shift: i32,
    /// The segment this feedback is applied to.
    pub segment: usize,
    /// The index of the template value to alter.
    pub index: usize,
    /// If true, repeat a template value instead of adding to it.
    pub fill: bool,
    /// Added to the shifted value to obtain the repeat count.
    pub fill_offset: isize,
    /// With `fill`, pad the segment up to the count instead of repeating
    /// the value that many times.
    pub align: bool,
}

/// How a captured tag name feeds back into the rule's emission: a deferred
/// patch referencing the tag's recorded position.
#[derive(Clone, Copy, Debug)]
pub struct TagFeedback {
    /// The segment whose position at tag creation is referenced.
    pub from_segment: usize,
    /// If true, the patch is relative to the reference site.
    pub relative: bool,
    /// Signed shift applied to the position; negative shifts right.
    pub shift: i32,
    /// The segment the position is added to.
    pub add_segment: usize,
    /// The index, within this rule's emission, the position is added at.
    pub add_index: usize,
    /// An offset added to the position.
    pub offset: isize,
}

/// Per-capture-group behaviour of a rule.
#[derive(Debug)]
pub enum Capture {
    /// The captured text is a tag name; each feedback records a deferred
    /// patch to be resolved during linking.
    Tag { feedbacks: Vec<TagFeedback> },
    /// Each character of the captured text is pushed as its code point.
    Str { add_segment: usize },
    /// The captured text is a number in `base`; each feedback folds it
    /// into the emission.
    Num { base: u32, feedbacks: Vec<NumFeedback> },
}

/// A single rewriting rule: a regex and what to emit when it matches.
#[derive(Debug)]
pub struct Rule {
    /// The regex, including captures, for this rule.
    pub regex_string: String,
    /// The compiled regex; filled in by `consistency_check`. Only the
    /// library can build a `CompiledRegex`, so the trusted regex contracts
    /// apply to every value this slot can hold.
    pub regex: Option<CompiledRegex>,
    /// The unmodified values inserted in order into each segment.
    pub segment_values: Vec<Vec<u64>>,
    /// Additions of current positions into the template (relative ignored).
    pub self_references: Vec<TagFeedback>,
    /// One capture descriptor per regex capture group.
    pub captures: Vec<Capture>,
}

/// The rule recognizing tag definitions; its single capture group is the
/// tag name.
#[derive(Debug)]
pub struct TagCreateRule {
    /// The regex, which must have exactly one capture group.
    pub regex_string: String,
    /// The compiled regex; filled in by `consistency_check`, and only
    /// buildable by the library, as for `Rule::regex`.
    pub regex: Option<CompiledRegex>,
}

/// The full assembler configuration.
#[derive(Debug)]
pub struct Config {
    /// The width of each output segment in octets (1..=8).
    pub segment_widths: Vec<usize>,
    /// If true, each whitespace-delimited word is matched independently.
    pub split_whitespace: bool,
    /// The rule for creating tags.
    pub tag_create: TagCreateRule,
    /// The rules for everything else, in match-priority order.
    pub rules: Vec<Rule>,
}

/// The mathematical shape of a `Capture`.
#[verifier::ext_equal]
pub enum CaptureModel {
    Tag { feedbacks: Seq<TagFeedback> },
    Str { add_segment: usize },
    Num { base: u32, feedbacks: Seq<NumFeedback> },
}

/// The mathematical shape of a `Rule`: the compiled regex is represented
/// by its pattern alone.
#[verifier::ext_equal]
pub struct RuleModel {
    pub pattern: Seq<char>,
    pub template: Seq<Seq<u64>>,
    pub self_refs: Seq<TagFeedback>,
    pub captures: Seq<CaptureModel>,
}

/// The mathematical shape of a `Config`.
#[verifier::ext_equal]
pub struct ConfigModel {
    pub widths: Seq<usize>,
    pub split: bool,
    pub tag_pattern: Seq<char>,
    pub rules: Seq<RuleModel>,
}

impl View for Capture {
    type V = CaptureModel;

    open spec fn view(&self) -> CaptureModel {
        match self {
            Capture::Tag { feedbacks } => CaptureModel::Tag { feedbacks: feedbacks@ },
            Capture::Str { add_segment } => CaptureModel::Str { add_segment: *add_segment },
            Capture::Num { base, feedbacks } => CaptureModel::Num {
                base: *base,
                feedbacks: feedbacks@,
            },
        }
    }
}

impl View for Rule {
    type V = RuleModel;

    open spec fn view(&self) -> RuleModel {
        RuleModel {
            pattern: self.regex_string@,
            template: self.segment_values.deep_view(),
            self_refs: self.self_references@,
            captures: Seq::new(self.captures@.len(), |i: int| self.captures@[i]@),
        }
    }
}

impl View for Config {
    type V = ConfigModel;

    open spec fn view(&self) -> ConfigModel {
        ConfigModel {
            widths: self.segment_widths@,
            split: self.split_whitespace,
            tag_pattern: self.tag_create.regex_string@,
            rules: Seq::new(self.rules@.len(), |i: int| self.rules@[i]@),
        }
    }
}

/// A self-reference or tag feedback points inside the configuration.
pub open spec fn feedback_ok(f: TagFeedback, s: nat, tmpl: Seq<Seq<u64>>) -> bool {
    &&& f.from_segment < s
    &&& f.add_segment < s
    &&& f.add_index < tmpl[f.add_segment as int].len()
}

/// A numeric feedback points inside the configuration.
pub open spec fn num_feedback_ok(f: NumFeedback, s: nat, tmpl: Seq<Seq<u64>>) -> bool {
    &&& f.segment < s
    &&& f.index < tmpl[f.segment as int].len()
}

/// A capture descriptor's references all point inside the configuration.
pub open spec fn capture_ok(c: CaptureModel, s: nat, tmpl: Seq<Seq<u64>>) -> bool {
    match c {
        CaptureModel::Tag { feedbacks } => forall|i: int|
            0 <= i < feedbacks.len() ==> feedback_ok(#[trigger] feedbacks[i], s, tmpl),
        CaptureModel::Str { add_segment } => add_segment < s,
        CaptureModel::Num { base, feedbacks } => {
            &&& 2 <= base <= 36
            &&& forall|i: int|
                0 <= i < feedbacks.len() ==> num_feedback_ok(#[trigger] feedbacks[i], s, tmpl)
        },
    }
}

impl RuleModel {
    /// The rule is internally consistent for a configuration of `s`
    /// segments: its pattern compiles with one group per descriptor, its
    /// template covers every segment, and every reference is in range.
    pub open spec fn valid(self, s: nat) -> bool {
        &&& self.template.len() == s
        &&& regex_valid(self.pattern)
        &&& regex_groups(self.pattern) == self.captures.len() + 1
        &&& forall|i: int|
            0 <= i < self.self_refs.len() ==> feedback_ok(
                #[trigger] self.self_refs[i],
                s,
                self.template,
            )
        &&& forall|i: int|
            0 <= i < self.captures.len() ==> capture_ok(#[trigger] self.captures[i], s, self.template)
    }
}

impl ConfigModel {
    /// The number of segments; fixed for the life of the configuration.
    pub open spec fn seg_count(self) -> nat {
        self.widths.len()
    }

    /// Every width lies in 1..=8, the tag-creation pattern compiles with
    /// exactly one capture group, and every rule is valid.
    pub open spec fn valid(self) -> bool {
        &&& forall|i: int| 0 <= i < self.widths.len() ==> 1 <= #[trigger] self.widths[i] <= 8
        &&& regex_valid(self.tag_pattern)
        &&& regex_groups(self.tag_pattern) == 2
        &&& forall|i: int|
            0 <= i < self.rules.len() ==> (#[trigger] self.rules[i]).valid(self.seg_count())
    }
}

impl Rule {
    /// A rule as configured, its regex not yet compiled;
    /// `Config::consistency_check` compiles it.
    pub fn new(
        regex_string: String,
        segment_values: Vec<Vec<u64>>,
        self_references: Vec<TagFeedback>,
        captures: Vec<Capture>,
    ) -> (r: Rule)
        ensures
            r.regex_string == regex_string,
            r.segment_values == segment_values,
            r.self_references == self_references,
            r.captures == captures,
    {
        Rule { regex_string, regex: None, segment_values, self_references, captures }
    }
}

impl TagCreateRule {
    /// A tag-creation rule as configured, its regex not yet compiled;
    /// `Config::consistency_check` compiles it.
    pub fn new(regex_string: String) -> (r: TagCreateRule)
        ensures
            r.regex_string == regex_string,
    {
        TagCreateRule { regex_string, regex: None }
    }
}

/// The compiled slots all hold regexes built from their pattern strings.
/// Closed because it speaks of the crate-private inner regex values;
/// `lemma_wf_parts` hands its content to the parser.
pub closed spec fn regexes_compiled(c: &Config) -> bool {
    &&& c.tag_create.regex matches Some(cre) && regex_pattern(cre.re) == c@.tag_pattern
    &&& forall|i: int|
        0 <= i < c.rules@.len() ==> ((#[trigger] c.rules@[i]).regex matches Some(cre)
            && regex_pattern(cre.re) == c@.rules[i].pattern)
}

impl Config {
    /// Well-formed: the view is valid, and every compiled regex is present
    /// and agrees with its pattern string. `consistency_check` establishes
    /// this.
    pub open spec fn wf(&self) -> bool {
        &&& self@.valid()
        &&& regexes_compiled(self)
    }
}

/// What well-formedness guarantees: a valid view, and every compiled regex
/// present and behaving as its pattern string.
pub(crate) proof fn lemma_wf_parts(c: &Config)
    requires
        c.wf(),
    ensures
        c@.valid(),
        (c.tag_create.regex matches Some(cre) && regex_pattern(cre.re) == c@.tag_pattern),
        forall|i: int|
            0 <= i < c.rules@.len() ==> ((#[trigger] c.rules@[i]).regex matches Some(cre)
                && regex_pattern(cre.re) == c@.rules[i].pattern),
{
}

/// The first out-of-range segment width at or after `i`, if any.
pub open spec fn width_error_from(widths: Seq<usize>, i: int) -> Option<ConfigError>
    decreases widths.len() - i,
{
    if i < 0 || i >= widths.len() {
        None
    } else if widths[i] < 1 || widths[i] > 8 {
        Some(ConfigError::BadSegmentWidth { segment: i as usize })
    } else {
        width_error_from(widths, i + 1)
    }
}

/// The first invalid capture descriptor of rule `ri` at or after `k`.
pub open spec fn capture_error_from(
    captures: Seq<CaptureModel>,
    ri: usize,
    s: nat,
    tmpl: Seq<Seq<u64>>,
    k: int,
) -> Option<ConfigError>
    decreases captures.len() - k,
{
    if k < 0 || k >= captures.len() {
        None
    } else {
        match captures[k] {
            CaptureModel::Tag { feedbacks } => {
                if !(forall|i: int|
                    0 <= i < feedbacks.len() ==> feedback_ok(#[trigger] feedbacks[i], s, tmpl)) {
                    Some(ConfigError::BadTagFeedback { rule: ri })
                } else {
                    capture_error_from(captures, ri, s, tmpl, k + 1)
                }
            },
            CaptureModel::Str { add_segment } => {
                if add_segment >= s {
                    Some(ConfigError::BadStrCapture { rule: ri })
                } else {
                    capture_error_from(captures, ri, s, tmpl, k + 1)
                }
            },
            CaptureModel::Num { base, feedbacks } => {
                if base < 2 || base > 36 {
                    Some(ConfigError::BadNumBase { rule: ri })
                } else if !(forall|i: int|
                    0 <= i < feedbacks.len() ==> num_feedback_ok(#[trigger] feedbacks[i], s, tmpl)) {
                    Some(ConfigError::BadNumFeedback { rule: ri })
                } else {
                    capture_error_from(captures, ri, s, tmpl, k + 1)
                }
            },
        }
    }
}

/// The first validation error within rule `ri`, in checking order.
pub open spec fn rule_error(r: RuleModel, ri: usize, s: nat) -> Option<ConfigError> {
    if r.template.len() != s {
        Some(ConfigError::SegmentValueCount { rule: ri })
    } else if !regex_valid(r.pattern) {
        Some(ConfigError::BadRuleRegex { rule: ri })
    } else if regex_groups(r.pattern) != r.captures.len() + 1 {
        Some(ConfigError::CaptureCount { rule: ri })
    } else if !(forall|i: int|
        0 <= i < r.self_refs.len() ==> feedback_ok(#[trigger] r.self_refs[i], s, r.template)) {
        Some(ConfigError::BadSelfReference { rule: ri })
    } else {
        capture_error_from(r.captures, ri, s, r.template, 0)
    }
}

/// The first validation error among the rules at or after `i`.
pub open spec fn rules_error_from(rules: Seq<RuleModel>, s: nat, i: int) -> Option<ConfigError>
    decreases rules.len() - i,
{
    if i < 0 || i >= rules.len() {
        None
    } else {
        match rule_error(rules[i], i as usize, s) {
            Some(e) => Some(e),
            None => rules_error_from(rules, s, i + 1),
        }
    }
}

/// The first validation error of the whole configuration, in the order
/// `consistency_check` looks: widths, the tag-creation regex, then each
/// rule in turn. `None` exactly when the configuration is valid.
pub open spec fn config_first_error(c: ConfigModel) -> Option<ConfigError> {
    match width_error_from(c.widths, 0) {
        Some(e) => Some(e),
        None => {
            if !regex_valid(c.tag_pattern) {
                Some(ConfigError::BadTagRegex)
            } else if regex_groups(c.tag_pattern) != 2 {
                Some(ConfigError::TagRegexGroupCount)
            } else {
                rules_error_from(c.rules, c.seg_count(), 0)
            }
        },
    }
}

/// No width error at or after `i` exactly when every width from `i` on is
/// in range.
proof fn lemma_width_error_none(widths: Seq<usize>, i: int)
    requires
        0 <= i <= widths.len(),
    ensures
        width_error_from(widths, i) is None <==> (forall|j: int|
            i <= j < widths.len() ==> 1 <= #[trigger] widths[j] <= 8),
    decreases widths.len() - i,
{
    if i < widths.len() {
        lemma_width_error_none(widths, i + 1);
    }
}

/// No capture error at or after `k` exactly when every capture from `k`
/// on is in range.
proof fn lemma_capture_error_none(
    captures: Seq<CaptureModel>,
    ri: usize,
    s: nat,
    tmpl: Seq<Seq<u64>>,
    k: int,
)
    requires
        0 <= k <= captures.len(),
    ensures
        capture_error_from(captures, ri, s, tmpl, k) is None <==> (forall|j: int|
            k <= j < captures.len() ==> capture_ok(#[trigger] captures[j], s, tmpl)),
    decreases captures.len() - k,
{
    if k < captures.len() {
        lemma_capture_error_none(captures, ri, s, tmpl, k + 1);
    }
}

/// `rule_error` is `None` exactly when the rule is valid.
proof fn lemma_rule_error_none(r: RuleModel, ri: usize, s: nat)
    ensures
        rule_error(r, ri, s) is None <==> r.valid(s),
{
    lemma_capture_error_none(r.captures, ri, s, r.template, 0);
}

/// No rule error at or after `i` exactly when every rule from `i` on is
/// valid.
proof fn lemma_rules_error_none(rules: Seq<RuleModel>, s: nat, i: int)
    requires
        0 <= i <= rules.len(),
    ensures
        rules_error_from(rules, s, i) is None <==> (forall|j: int|
            i <= j < rules.len() ==> (#[trigger] rules[j]).valid(s)),
    decreases rules.len() - i,
{
    if i < rules.len() {
        lemma_rule_error_none(rules[i], i as usize, s);
        lemma_rules_error_none(rules, s, i + 1);
    }
}

/// `config_first_error` is `None` exactly when the configuration is valid.
pub proof fn lemma_config_first_error_none(c: ConfigModel)
    ensures
        config_first_error(c) is None <==> c.valid(),
{
    lemma_width_error_none(c.widths, 0);
    lemma_rules_error_none(c.rules, c.seg_count(), 0);
}

/// Skipping a prefix of error-free widths does not change the first error.
proof fn lemma_width_error_skip(widths: Seq<usize>, i: int)
    requires
        0 <= i <= widths.len(),
        forall|j: int| 0 <= j < i ==> 1 <= #[trigger] widths[j] <= 8,
    ensures
        width_error_from(widths, 0) == width_error_from(widths, i),
    decreases i,
{
    if i > 0 {
        lemma_width_error_skip(widths, i - 1);
    }
}

/// Skipping a prefix of error-free rules does not change the first error.
proof fn lemma_rules_error_skip(rules: Seq<RuleModel>, s: nat, i: int)
    requires
        0 <= i <= rules.len(),
        forall|j: int| 0 <= j < i ==> rule_error(#[trigger] rules[j], j as usize, s) is None,
    ensures
        rules_error_from(rules, s, 0) == rules_error_from(rules, s, i),
    decreases i,
{
    if i > 0 {
        lemma_rules_error_skip(rules, s, i - 1);
    }
}

/// Skipping a prefix of error-free captures does not change the first
/// error.
proof fn lemma_capture_error_skip(
    captures: Seq<CaptureModel>,
    ri: usize,
    s: nat,
    tmpl: Seq<Seq<u64>>,
    k: int,
)
    requires
        0 <= k <= captures.len(),
        forall|j: int| 0 <= j < k ==> capture_ok(#[trigger] captures[j], s, tmpl),
    ensures
        capture_error_from(captures, ri, s, tmpl, 0) == capture_error_from(captures, ri, s, tmpl, k),
    decreases k,
{
    if k > 0 {
        lemma_capture_error_skip(captures, ri, s, tmpl, k - 1);
        assert(capture_ok(captures[k - 1], s, tmpl));
    }
}


impl Config {
    /// Validate the configuration and compile its regexes, reporting the
    /// first problem found. On success the configuration is well formed.
    /// Only the compiled-regex slots change; the configured data does not.
    #[verifier::loop_isolation(false)]
    pub fn consistency_check(&mut self) -> (r: Result<(), ConfigError>)
        ensures
            final(self)@ == old(self)@,
            r is Ok <==> config_first_error(old(self)@) is None,
            r matches Err(e) ==> config_first_error(old(self)@) == Some(e),
            r is Ok ==> final(self).wf(),
    {
        let s = self.segment_widths.len();
        for i in 0..s
            invariant
                *self == *old(self),
                forall|j: int| 0 <= j < i ==> 1 <= #[trigger] self.segment_widths@[j] <= 8,
        {
            let w = self.segment_widths[i];
            if w < 1 || w > 8 {
                proof {
                    lemma_width_error_skip(self.segment_widths@, i as int);
                }
                return Err(ConfigError::BadSegmentWidth { segment: i });
            }
        }
        proof {
            lemma_width_error_none(self.segment_widths@, 0);
        }

        let tag_re = regex_new(self.tag_create.regex_string.as_str());
        match tag_re {
            None => {
                return Err(ConfigError::BadTagRegex);
            },
            Some(re) => {
                let groups = regex_captures_len(&re);
                if groups != 2 {
                    return Err(ConfigError::TagRegexGroupCount);
                }
                self.tag_create.regex = Some(re);
            },
        }
        proof {
            assert(self@ =~= old(self)@);
            assert(config_first_error(old(self)@) == rules_error_from(
                old(self)@.rules,
                s as nat,
                0,
            ));
        }

        let nrules = self.rules.len();
        for ri in 0..nrules
            invariant
                nrules == self.rules@.len(),
                nrules == old(self).rules@.len(),
                self@ =~= old(self)@,
                self.tag_create.regex matches Some(cre) && regex_pattern(cre.re)
                    == self@.tag_pattern,
                forall|j: int| ri <= j < nrules ==> self.rules@[j] == old(self).rules@[j],
                forall|j: int|
                    0 <= j < ri ==> rule_error(#[trigger] self@.rules[j], j as usize, s as nat)
                        is None,
                forall|j: int|
                    0 <= j < ri ==> ((#[trigger] self.rules@[j]).regex matches Some(cre)
                        && regex_pattern(cre.re) == self@.rules[j].pattern),
        {
            let rm = Ghost(self@.rules[ri as int]);
            proof {
                assert(rm@ == self.rules@[ri as int]@);
                assert(rm@.template == self.rules@[ri as int].segment_values.deep_view());
                lemma_rules_error_skip(self@.rules, s as nat, ri as int);
                assert(rules_error_from(self@.rules, s as nat, 0) == rules_error_from(
                    self@.rules,
                    s as nat,
                    ri as int,
                ));
            }
            if self.rules[ri].segment_values.len() != s {
                return Err(ConfigError::SegmentValueCount { rule: ri });
            }
            let re_opt = regex_new(self.rules[ri].regex_string.as_str());
            let re = match re_opt {
                None => {
                    return Err(ConfigError::BadRuleRegex { rule: ri });
                },
                Some(re) => re,
            };
            let groups = regex_captures_len(&re);
            if groups - 1 != self.rules[ri].captures.len() {
                return Err(ConfigError::CaptureCount { rule: ri });
            }

            let nsrs = self.rules[ri].self_references.len();
            for k in 0..nsrs
                invariant
                    forall|j: int|
                        0 <= j < k ==> feedback_ok(
                            #[trigger] rm@.self_refs[j],
                            s as nat,
                            rm@.template,
                        ),
            {
                let f = self.rules[ri].self_references[k];
                if f.from_segment >= s || f.add_segment >= s || f.add_index
                    >= self.rules[ri].segment_values[f.add_segment].len() {
                    proof {
                        assert(!feedback_ok(rm@.self_refs[k as int], s as nat, rm@.template));
                    }
                    return Err(ConfigError::BadSelfReference { rule: ri });
                }
            }

            let ncaps = self.rules[ri].captures.len();
            for k in 0..ncaps
                invariant
                    forall|j: int|
                        0 <= j < k ==> capture_ok(#[trigger] rm@.captures[j], s as nat, rm@.template),
            {
                proof {
                    lemma_capture_error_skip(rm@.captures, ri, s as nat, rm@.template, k as int);
                }
                match &self.rules[ri].captures[k] {
                    Capture::Tag { feedbacks } => {
                        let nf = feedbacks.len();
                        for m in 0..nf
                            invariant
                                rm@.captures[k as int] matches CaptureModel::Tag { feedbacks: fs }
                                    && fs == feedbacks@,
                                nf == feedbacks@.len(),
                                forall|j: int|
                                    0 <= j < m ==> feedback_ok(
                                        #[trigger] feedbacks@[j],
                                        s as nat,
                                        rm@.template,
                                    ),
                        {
                            let f = feedbacks[m];
                            if f.from_segment >= s || f.add_segment >= s || f.add_index
                                >= self.rules[ri].segment_values[f.add_segment].len() {
                                proof {
                                    assert(!capture_ok(
                                        rm@.captures[k as int],
                                        s as nat,
                                        rm@.template,
                                    ));
                                }
                                return Err(ConfigError::BadTagFeedback { rule: ri });
                            }
                        }
                    },
                    Capture::Str { add_segment } => {
                        if *add_segment >= s {
                            return Err(ConfigError::BadStrCapture { rule: ri });
                        }
                    },
                    Capture::Num { base, feedbacks } => {
                        if *base < 2 || *base > 36 {
                            return Err(ConfigError::BadNumBase { rule: ri });
                        }
                        let nf = feedbacks.len();
                        for m in 0..nf
                            invariant
                                rm@.captures[k as int] matches CaptureModel::Num {
                                    base: b,
                                    feedbacks: fs,
                                } && fs == feedbacks@ && 2 <= b <= 36,
                                nf == feedbacks@.len(),
                                forall|j: int|
                                    0 <= j < m ==> num_feedback_ok(
                                        #[trigger] feedbacks@[j],
                                        s as nat,
                                        rm@.template,
                                    ),
                        {
                            let f = feedbacks[m];
                            if f.segment >= s || f.index
                                >= self.rules[ri].segment_values[f.segment].len() {
                                proof {
                                    assert(!capture_ok(
                                        rm@.captures[k as int],
                                        s as nat,
                                        rm@.template,
                                    ));
                                }
                                return Err(ConfigError::BadNumFeedback { rule: ri });
                            }
                        }
                    },
                }
            }

            proof {
                lemma_capture_error_none(rm@.captures, ri, s as nat, rm@.template, 0);
                assert(rule_error(rm@, ri, s as nat) is None);
            }
            let ghost before = self.rules@;
            let mut moved = self.rules.remove(ri);
            moved.regex = Some(re);
            self.rules.insert(ri, moved);
            proof {
                assert(self.rules@ =~= before.update(
                    ri as int,
                    Rule { regex: Some(re), ..before[ri as int] },
                ));
                assert(self.rules@[ri as int]@ =~= before[ri as int]@);
                assert(self@.rules =~= old(self)@.rules);
                assert(self@ =~= old(self)@);
            }
        }
        proof {
            lemma_rules_error_skip(self@.rules, s as nat, nrules as int);
            assert(config_first_error(old(self)@) is None);
            assert forall|j: int| 0 <= j < nrules implies (#[trigger] self@.rules[j]).valid(
                s as nat,
            ) by {
                lemma_rule_error_none(self@.rules[j], j as usize, s as nat);
            }
            assert(self@.valid());
            assert(self.wf());
        }
        Ok(())
    }
}

} // verus!
