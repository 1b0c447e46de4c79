//! The mathematical model of the emission state: segment contents, tags,
//! directional tags, and pending replacements, together with the lookup
//! functions linking uses.

use vstd::prelude::*;

verus! {

/// A deferred patch created by a tag capture, resolved during linking.
///
/// `index` and `pos_offset` are kept wide enough that the defining sums
/// (a segment length plus a configured index or offset) never wrap.
#[verifier::ext_equal]
pub struct RepModel {
    /// Source line the capture fired on, for error reports.
    pub line: usize,
    /// Signed shift applied to the resolved position.
    pub shift: i32,
    /// The segment whose word is patched.
    pub add_segment: usize,
    /// The index of the patched word: the length of `add_segment` when the
    /// rule fired plus the feedback's `add_index`.
    pub index: u128,
    /// The captured tag name.
    pub tag: Seq<char>,
    /// The segment whose recorded position is read from the tag.
    pub pos_segment: usize,
    /// Offset added to the position; for relative feedbacks the length of
    /// `from_segment` at capture time has been subtracted.
    pub pos_offset: i128,
}

/// The full emission state of a parser.
#[verifier::ext_equal]
pub struct StateModel {
    /// One growing word sequence per segment.
    pub segments: Seq<Seq<u64>>,
    /// Named tags with their per-segment creation positions, in creation
    /// order; names are unique.
    pub tags: Seq<(Seq<char>, Seq<usize>)>,
    /// Anonymous `+` tags: run length and per-segment positions.
    pub plus_tags: Seq<(usize, Seq<usize>)>,
    /// Anonymous `-` tags: run length and per-segment positions.
    pub minus_tags: Seq<(usize, Seq<usize>)>,
    /// Pending patches, in creation order.
    pub replacements: Seq<RepModel>,
}

impl StateModel {
    /// The state a fresh parser starts in: `s` empty segments and nothing
    /// else.
    pub open spec fn init(s: nat) -> StateModel {
        StateModel {
            segments: Seq::new(s, |i: int| Seq::<u64>::empty()),
            tags: Seq::empty(),
            plus_tags: Seq::empty(),
            minus_tags: Seq::empty(),
            replacements: Seq::empty(),
        }
    }
}

/// The current length of every segment, the position vector a tag records.
pub open spec fn lens_of(segments: Seq<Seq<u64>>) -> Seq<usize> {
    Seq::new(segments.len(), |i: int| segments[i].len() as usize)
}

/// A replacement only references segments that exist.
pub open spec fn rep_wf(r: RepModel, s: nat) -> bool {
    &&& r.add_segment < s
    &&& r.pos_segment < s
}

/// No two named tags share a name: creating a duplicate is fatal, so a
/// duplicate never lands in the list.
pub open spec fn tags_unique(tags: Seq<(Seq<char>, Seq<usize>)>) -> bool {
    forall|i: int, j: int|
        0 <= i < j < tags.len() ==> (#[trigger] tags[i]).0 != (#[trigger] tags[j]).0
}

/// Shape invariant of the emission state for `s` segments: there are `s`
/// segments, every recorded position vector covers all of them, named tags
/// are unique, and every replacement references segments that exist.
pub open spec fn st_wf(st: StateModel, s: nat) -> bool {
    &&& st.segments.len() == s
    &&& forall|i: int| 0 <= i < st.tags.len() ==> (#[trigger] st.tags[i]).1.len() == s
    &&& tags_unique(st.tags)
    &&& forall|i: int| 0 <= i < st.plus_tags.len() ==> (#[trigger] st.plus_tags[i]).1.len() == s
    &&& forall|i: int| 0 <= i < st.minus_tags.len() ==> (#[trigger] st.minus_tags[i]).1.len() == s
    &&& forall|i: int| 0 <= i < st.replacements.len() ==> rep_wf(#[trigger] st.replacements[i], s)
}

/// A lookup that fails means no entry from `i` on bears the name.
pub proof fn lemma_tag_lookup_none(tags: Seq<(Seq<char>, Seq<usize>)>, name: Seq<char>, i: int)
    requires
        0 <= i,
        tag_lookup_from(tags, name, i) is None,
    ensures
        forall|j: int| i <= j < tags.len() ==> (#[trigger] tags[j]).0 != name,
    decreases tags.len() - i,
{
    if 0 <= i < tags.len() {
        lemma_tag_lookup_none(tags, name, i + 1);
    }
}

/// Same row count, and no row of `a` is longer than its counterpart in
/// `b`: how segment contents may evolve while parsing.
pub open spec fn lens_leq(a: Seq<Seq<u64>>, b: Seq<Seq<u64>>) -> bool {
    &&& a.len() == b.len()
    &&& forall|k: int| 0 <= k < a.len() ==> (#[trigger] a[k]).len() <= (#[trigger] b[k]).len()
}

/// Same row count and the same length for every row: how segment contents
/// evolve while linking.
pub open spec fn lens_eq(a: Seq<Seq<u64>>, b: Seq<Seq<u64>>) -> bool {
    &&& a.len() == b.len()
    &&& forall|k: int| 0 <= k < a.len() ==> (#[trigger] a[k]).len() == (#[trigger] b[k]).len()
}

pub proof fn lemma_lens_leq_trans(a: Seq<Seq<u64>>, b: Seq<Seq<u64>>, c: Seq<Seq<u64>>)
    requires
        lens_leq(a, b),
        lens_leq(b, c),
    ensures
        lens_leq(a, c),
{
    assert forall|k: int| 0 <= k < a.len() implies (#[trigger] a[k]).len() <= (
    #[trigger] c[k]).len() by {
        assert(a[k].len() <= b[k].len());
        assert(b[k].len() <= c[k].len());
    }
}

pub proof fn lemma_lens_eq_trans(a: Seq<Seq<u64>>, b: Seq<Seq<u64>>, c: Seq<Seq<u64>>)
    requires
        lens_eq(a, b),
        lens_eq(b, c),
    ensures
        lens_eq(a, c),
{
    assert forall|k: int| 0 <= k < a.len() implies (#[trigger] a[k]).len() == (
    #[trigger] c[k]).len() by {
        assert(a[k].len() == b[k].len());
        assert(b[k].len() == c[k].len());
    }
}

/// The first named tag at or after `i` whose name is `name`.
pub open spec fn tag_lookup_from(
    tags: Seq<(Seq<char>, Seq<usize>)>,
    name: Seq<char>,
    i: int,
) -> Option<Seq<usize>>
    decreases tags.len() - i,
{
    if i < 0 || i >= tags.len() {
        None
    } else if tags[i].0 == name {
        Some(tags[i].1)
    } else {
        tag_lookup_from(tags, name, i + 1)
    }
}

/// The position vector recorded for `name`, if the tag exists.
pub open spec fn tag_lookup(tags: Seq<(Seq<char>, Seq<usize>)>, name: Seq<char>) -> Option<
    Seq<usize>,
> {
    tag_lookup_from(tags, name, 0)
}

/// Scanning forward from `i`: the first `+` tag with run length `tlen`
/// lying at or after position `index` in segment `add_segment`.
pub open spec fn find_plus_from(
    plus_tags: Seq<(usize, Seq<usize>)>,
    tlen: nat,
    add_segment: usize,
    index: u128,
    i: int,
) -> Option<Seq<usize>>
    decreases plus_tags.len() - i,
{
    if i < 0 || i >= plus_tags.len() {
        None
    } else if plus_tags[i].0 == tlen && plus_tags[i].1[add_segment as int] as u128 >= index {
        Some(plus_tags[i].1)
    } else {
        find_plus_from(plus_tags, tlen, add_segment, index, i + 1)
    }
}

/// Scanning backward from `i`: the last `-` tag with run length `tlen`
/// lying strictly before position `index` in segment `add_segment`.
pub open spec fn find_minus_from(
    minus_tags: Seq<(usize, Seq<usize>)>,
    tlen: nat,
    add_segment: usize,
    index: u128,
    i: int,
) -> Option<Seq<usize>>
    decreases i + 1,
{
    if i < 0 || i >= minus_tags.len() {
        None
    } else if minus_tags[i].0 == tlen && (minus_tags[i].1[add_segment as int] as u128) < index {
        Some(minus_tags[i].1)
    } else {
        find_minus_from(minus_tags, tlen, add_segment, index, i - 1)
    }
}

} // verus!
