use vstd::prelude::*;
use crate::text_util::{chars_of, string_from_chars};

verus! {

/// Opens a styled sequence: `{setting|value}`.
pub const START_SEQ: char = '{';

/// Separates the style setting from the styled value.
pub const FLAG_SEQ: char = '|';

/// Closes a styled sequence.
pub const END_SEQ: char = '}';

/// The scanner's position relative to a styled sequence.
#[derive(Clone, Copy, Debug)]
pub struct MarkupState {
    pub in_seq: bool,
    pub in_flags: bool,
}

/// What a character is, given where the scanner stands.
#[derive(Clone, Copy, Debug, PartialEq, Eq, Structural)]
pub enum MarkupRole {
    Open,
    Close,
    Separator,
    Setting,
    Value,
    Plain,
}

pub open spec fn initial_state() -> MarkupState {
    MarkupState { in_seq: false, in_flags: false }
}

pub open spec fn role_of(st: MarkupState, c: char) -> MarkupRole {
    if c == START_SEQ {
        MarkupRole::Open
    } else if st.in_seq && c == END_SEQ {
        MarkupRole::Close
    } else if st.in_seq && c == FLAG_SEQ {
        MarkupRole::Separator
    } else if st.in_flags {
        MarkupRole::Setting
    } else if st.in_seq {
        MarkupRole::Value
    } else {
        MarkupRole::Plain
    }
}

pub open spec fn step(st: MarkupState, c: char) -> MarkupState {
    match role_of(st, c) {
        MarkupRole::Open => MarkupState { in_seq: true, in_flags: true },
        MarkupRole::Close => MarkupState { in_seq: false, in_flags: false },
        MarkupRole::Separator => MarkupState { in_seq: true, in_flags: false },
        _ => st,
    }
}

/// The scanner's state after reading all of `s`.
pub open spec fn state_after(s: Seq<char>) -> MarkupState
    decreases s.len(),
{
    if s.len() == 0 {
        initial_state()
    } else {
        step(state_after(s.drop_last()), s.last())
    }
}

/// The role of the `i`-th character of `s`.
pub open spec fn role_at(s: Seq<char>, i: int) -> MarkupRole {
    role_of(state_after(s.take(i)), s[i])
}

pub open spec fn is_visible_role(r: MarkupRole) -> bool {
    r == MarkupRole::Value || r == MarkupRole::Plain
}

/// The characters of `s` that are drawn: plain text and the values of styled sequences.
pub open spec fn content_chars(s: Seq<char>) -> Seq<char>
    decreases s.len(),
{
    if s.len() == 0 {
        Seq::empty()
    } else {
        let prev = s.drop_last();
        if is_visible_role(role_of(state_after(prev), s.last())) {
            content_chars(prev).push(s.last())
        } else {
            content_chars(prev)
        }
    }
}

/// Text without a sequence opener is drawn as it is: every character counts.
pub proof fn lemma_plain_text_content(s: Seq<char>)
    requires
        !s.contains(START_SEQ),
    ensures
        content_chars(s) == s,
        state_after(s) == initial_state(),
    decreases s.len(),
{
    if s.len() > 0 {
        let prev = s.drop_last();
        assert(!prev.contains(START_SEQ)) by {
            if prev.contains(START_SEQ) {
                let k = choose|k: int| 0 <= k < prev.len() && prev[k] == START_SEQ;
                assert(s[k] == START_SEQ);
            }
        }
        lemma_plain_text_content(prev);
        assert(s.last() != START_SEQ) by {
            assert(s[s.len() - 1] == s.last());
        }
        assert(prev.push(s.last()) =~= s);
    }
}

/// Text read from outside any sequence draws its parts one after the other:
/// when `a` leaves the scanner outside any sequence, `a + b` draws the
/// characters of `a` and then those of `b`.
pub proof fn lemma_content_concat(a: Seq<char>, b: Seq<char>)
    requires
        state_after(a) == initial_state(),
    ensures
        content_chars(a + b) == content_chars(a) + content_chars(b),
        state_after(a + b) == state_after(b),
    decreases b.len(),
{
    if b.len() == 0 {
        assert(a + b =~= a);
        assert(content_chars(a) + content_chars(b) =~= content_chars(a));
    } else {
        lemma_content_concat(a, b.drop_last());
        assert((a + b).drop_last() =~= a + b.drop_last());
        assert((a + b).last() == b.last());
    }
}

/// No more characters are drawn than are written.
pub proof fn lemma_content_no_longer(s: Seq<char>)
    ensures
        content_chars(s).len() <= s.len(),
    decreases s.len(),
{
    if s.len() > 0 {
        lemma_content_no_longer(s.drop_last());
    }
}

/// Classifies `c` read in state `st`.
pub fn markup_role(st: MarkupState, c: char) -> (r: MarkupRole)
    ensures
        r == role_of(st, c),
{
    if c == START_SEQ {
        MarkupRole::Open
    } else if st.in_seq && c == END_SEQ {
        MarkupRole::Close
    } else if st.in_seq && c == FLAG_SEQ {
        MarkupRole::Separator
    } else if st.in_flags {
        MarkupRole::Setting
    } else if st.in_seq {
        MarkupRole::Value
    } else {
        MarkupRole::Plain
    }
}

/// The state after reading `c` in state `st`.
pub fn markup_step(st: MarkupState, c: char) -> (r: MarkupState)
    ensures
        r == step(st, c),
{
    match markup_role(st, c) {
        MarkupRole::Open => MarkupState { in_seq: true, in_flags: true },
        MarkupRole::Close => MarkupState { in_seq: false, in_flags: false },
        MarkupRole::Separator => MarkupState { in_seq: true, in_flags: false },
        _ => st,
    }
}

/// Number of drawn characters of `value`: styling settings and the markup
/// characters themselves do not count.
pub fn text_content_length(value: &str) -> (n: usize)
    ensures
        n == content_chars(value@).len(),
{
    let chars = chars_of(value);
    let mut st = MarkupState { in_seq: false, in_flags: false };
    let mut length: usize = 0;
    let mut i: usize = 0;
    while i < chars.len()
        invariant
            0 <= i <= chars.len(),
            chars@ == value@,
            st == state_after(chars@.take(i as int)),
            length == content_chars(chars@.take(i as int)).len(),
            length <= i,
        decreases chars.len() - i,
    {
        let c = chars[i];
        let r = markup_role(st, c);
        assert(chars@.take(i + 1).drop_last() =~= chars@.take(i as int));
        if r == MarkupRole::Value || r == MarkupRole::Plain {
            length = length + 1;
        }
        st = markup_step(st, c);
        i = i + 1;
    }
    assert(chars@.take(i as int) =~= chars@);
    length
}

/// A piece of text to draw: one plain character, or the value of a styled
/// sequence together with its setting.
#[derive(Debug)]
pub enum TextSegment {
    Glyph(char),
    Styled { setting: String, value: String },
}

/// The mathematical content of a [`TextSegment`].
pub enum SegmentSpec {
    Glyph(char),
    Styled(Seq<char>, Seq<char>),
}

pub open spec fn segment_view(seg: TextSegment) -> SegmentSpec {
    match seg {
        TextSegment::Glyph(c) => SegmentSpec::Glyph(c),
        TextSegment::Styled { setting, value } => SegmentSpec::Styled(setting@, value@),
    }
}

/// State of the segmenter: markup state, the setting and value read so far
/// and the finished segments. Settings accumulate until a sequence closes.
pub struct SegmentScan {
    pub st: MarkupState,
    pub setting: Seq<char>,
    pub value: Seq<char>,
    pub segments: Seq<SegmentSpec>,
}

pub open spec fn segment_step(ss: SegmentScan, c: char) -> SegmentScan {
    let st2 = step(ss.st, c);
    match role_of(ss.st, c) {
        MarkupRole::Close => SegmentScan {
            st: st2,
            setting: Seq::empty(),
            value: Seq::empty(),
            segments: ss.segments.push(SegmentSpec::Styled(ss.setting, ss.value)),
        },
        MarkupRole::Setting => SegmentScan {
            st: st2,
            setting: ss.setting.push(c),
            value: ss.value,
            segments: ss.segments,
        },
        MarkupRole::Value => SegmentScan {
            st: st2,
            setting: ss.setting,
            value: ss.value.push(c),
            segments: ss.segments,
        },
        MarkupRole::Plain => SegmentScan {
            st: st2,
            setting: ss.setting,
            value: ss.value,
            segments: ss.segments.push(SegmentSpec::Glyph(c)),
        },
        _ => SegmentScan { st: st2, setting: ss.setting, value: ss.value, segments: ss.segments },
    }
}

pub open spec fn segment_scan(s: Seq<char>) -> SegmentScan
    decreases s.len(),
{
    if s.len() == 0 {
        SegmentScan {
            st: initial_state(),
            setting: Seq::empty(),
            value: Seq::empty(),
            segments: Seq::empty(),
        }
    } else {
        segment_step(segment_scan(s.drop_last()), s.last())
    }
}

/// The segments that `s` is drawn as; a sequence left open at the end draws nothing.
pub open spec fn text_segments_spec(s: Seq<char>) -> Seq<SegmentSpec> {
    segment_scan(s).segments
}

/// One step of the segmenter on the exec side: updates the setting and value
/// buffers and returns the segment that `c` completes, if any.
fn segment_char(st: MarkupState, c: char, setting: &mut Vec<char>, val: &mut Vec<char>) -> (seg: Option<TextSegment>)
    ensures
        ({
            let before = SegmentScan { st, setting: old(setting)@, value: old(val)@, segments: Seq::empty() };
            let after = segment_step(before, c);
            &&& after.setting == final(setting)@
            &&& after.value == final(val)@
            &&& after.segments == match seg {
                Some(sg) => seq![segment_view(sg)],
                None => Seq::<SegmentSpec>::empty(),
            }
        }),
{
    let r = markup_role(st, c);
    match r {
        MarkupRole::Close => {
            let sg = TextSegment::Styled {
                setting: string_from_chars(setting),
                value: string_from_chars(val),
            };
            *setting = Vec::new();
            *val = Vec::new();
            Some(sg)
        },
        MarkupRole::Setting => {
            setting.push(c);
            None
        },
        MarkupRole::Value => {
            val.push(c);
            None
        },
        MarkupRole::Plain => Some(TextSegment::Glyph(c)),
        _ => None,
    }
}

/// Segments pushed by one step do not depend on the segments before it.
proof fn lemma_segment_step_appends(ss: SegmentScan, c: char)
    ensures
        segment_step(ss, c).segments == ss.segments + segment_step(
            SegmentScan { st: ss.st, setting: ss.setting, value: ss.value, segments: Seq::empty() },
            c,
        ).segments,
        segment_step(ss, c).setting == segment_step(
            SegmentScan { st: ss.st, setting: ss.setting, value: ss.value, segments: Seq::empty() },
            c,
        ).setting,
        segment_step(ss, c).value == segment_step(
            SegmentScan { st: ss.st, setting: ss.setting, value: ss.value, segments: Seq::empty() },
            c,
        ).value,
        segment_step(ss, c).st == step(ss.st, c),
{
    let e = Seq::<SegmentSpec>::empty();
    assert(ss.segments + e =~= ss.segments);
    assert(ss.segments + e.push(SegmentSpec::Glyph(c)) =~= ss.segments.push(SegmentSpec::Glyph(c)));
    assert(ss.segments + e.push(SegmentSpec::Styled(ss.setting, ss.value)) =~= ss.segments.push(SegmentSpec::Styled(ss.setting, ss.value)));
}

/// The segmenter run from `ss` over `b`.
pub open spec fn segment_run(ss: SegmentScan, b: Seq<char>) -> SegmentScan
    decreases b.len(),
{
    if b.len() == 0 {
        ss
    } else {
        segment_step(segment_run(ss, b.drop_last()), b.last())
    }
}

pub open spec fn segment_start() -> SegmentScan {
    SegmentScan { st: initial_state(), setting: Seq::empty(), value: Seq::empty(), segments: Seq::empty() }
}

proof fn lemma_segment_scan_is_run(s: Seq<char>)
    ensures
        segment_scan(s) == segment_run(segment_start(), s),
    decreases s.len(),
{
    if s.len() > 0 {
        lemma_segment_scan_is_run(s.drop_last());
    }
}

proof fn lemma_segment_run_concat(ss: SegmentScan, a: Seq<char>, b: Seq<char>)
    ensures
        segment_run(ss, a + b) == segment_run(segment_run(ss, a), b),
    decreases b.len(),
{
    if b.len() == 0 {
        assert(a + b =~= a);
    } else {
        lemma_segment_run_concat(ss, a, b.drop_last());
        assert((a + b).drop_last() =~= a + b.drop_last());
        assert((a + b).last() == b.last());
    }
}

proof fn lemma_segment_run_one(ss: SegmentScan, c: char)
    ensures
        segment_run(ss, seq![c]) == segment_step(ss, c),
{
    assert(seq![c].drop_last() =~= Seq::<char>::empty());
    assert(seq![c].last() == c);
    assert(segment_run(ss, seq![c].drop_last()) == ss);
}

/// Segments a run adds do not depend on the segments before it.
proof fn lemma_segment_run_appends(ss: SegmentScan, b: Seq<char>)
    ensures
        ({
            let e = SegmentScan { st: ss.st, setting: ss.setting, value: ss.value, segments: Seq::empty() };
            &&& segment_run(ss, b).segments == ss.segments + segment_run(e, b).segments
            &&& segment_run(ss, b).st == segment_run(e, b).st
            &&& segment_run(ss, b).setting == segment_run(e, b).setting
            &&& segment_run(ss, b).value == segment_run(e, b).value
        }),
    decreases b.len(),
{
    let e = SegmentScan { st: ss.st, setting: ss.setting, value: ss.value, segments: Seq::empty() };
    if b.len() == 0 {
        assert(ss.segments + Seq::<SegmentSpec>::empty() =~= ss.segments);
    } else {
        lemma_segment_run_appends(ss, b.drop_last());
        let x = segment_run(ss, b.drop_last());
        let y = segment_run(e, b.drop_last());
        let c = b.last();
        lemma_segment_step_appends(x, c);
        lemma_segment_step_appends(y, c);
        assert(x.segments + segment_step(
            SegmentScan { st: x.st, setting: x.setting, value: x.value, segments: Seq::empty() },
            c,
        ).segments =~= ss.segments + (y.segments + segment_step(
            SegmentScan { st: y.st, setting: y.setting, value: y.value, segments: Seq::empty() },
            c,
        ).segments));
    }
}

/// Outside a sequence the segmenter holds no setting or value.
proof fn lemma_segment_scan_idle(s: Seq<char>)
    ensures
        segment_scan(s).st == state_after(s),
        segment_scan(s).st.in_flags ==> segment_scan(s).st.in_seq,
        !segment_scan(s).st.in_seq ==> segment_scan(s).setting.len() == 0 && segment_scan(s).value.len() == 0,
    decreases s.len(),
{
    if s.len() > 0 {
        lemma_segment_scan_idle(s.drop_last());
    }
}

/// Segmenting is compositional: text that leaves the scanner outside any
/// styled sequence is segmented on its own, so the segments of `a + b` are
/// those of `a` followed by those of `b`. In particular each closed
/// sequence's segment carries only the setting written in that sequence.
pub proof fn lemma_segments_concat(a: Seq<char>, b: Seq<char>)
    requires
        !state_after(a).in_seq,
    ensures
        text_segments_spec(a + b) == text_segments_spec(a) + text_segments_spec(b),
{
    lemma_segment_scan_idle(a);
    lemma_segment_scan_is_run(a + b);
    lemma_segment_scan_is_run(a);
    lemma_segment_scan_is_run(b);
    lemma_segment_run_concat(segment_start(), a, b);
    let sa = segment_scan(a);
    assert(sa.setting =~= Seq::<char>::empty());
    assert(sa.value =~= Seq::<char>::empty());
    lemma_segment_run_appends(sa, b);
    let e = SegmentScan { st: sa.st, setting: sa.setting, value: sa.value, segments: Seq::empty() };
    assert(e == segment_start());
}

/// No character of `s` is markup.
pub open spec fn markup_free(s: Seq<char>) -> bool {
    forall|i: int| 0 <= i < s.len() ==> #[trigger] s[i] != START_SEQ && s[i] != END_SEQ && s[i] != FLAG_SEQ
}

/// `s` without its `{` characters.
pub open spec fn without_opens(s: Seq<char>) -> Seq<char>
    decreases s.len(),
{
    if s.len() == 0 {
        Seq::empty()
    } else if s.last() == START_SEQ {
        without_opens(s.drop_last())
    } else {
        without_opens(s.drop_last()).push(s.last())
    }
}

proof fn lemma_without_opens_plain(s: Seq<char>)
    requires
        markup_free(s),
    ensures
        without_opens(s) == s,
    decreases s.len(),
{
    if s.len() > 0 {
        let p = s.drop_last();
        assert(markup_free(p)) by {
            assert forall|i: int| 0 <= i < p.len() implies #[trigger] p[i] != START_SEQ && p[i] != END_SEQ && p[i] != FLAG_SEQ by {
                assert(p[i] == s[i]);
            }
        }
        lemma_without_opens_plain(p);
        assert(s.last() == s[s.len() - 1]);
        assert(p.push(s.last()) =~= s);
    }
}

proof fn lemma_segment_run_setting(ss: SegmentScan, set: Seq<char>)
    requires
        ss.st == (MarkupState { in_seq: true, in_flags: true }),
        forall|i: int| 0 <= i < set.len() ==> #[trigger] set[i] != END_SEQ && set[i] != FLAG_SEQ,
    ensures
        segment_run(ss, set) == (SegmentScan {
            st: ss.st,
            setting: ss.setting + without_opens(set),
            value: ss.value,
            segments: ss.segments,
        }),
    decreases set.len(),
{
    if set.len() == 0 {
        assert(ss.setting + without_opens(set) =~= ss.setting);
    } else {
        let p = set.drop_last();
        assert forall|i: int| 0 <= i < p.len() implies #[trigger] p[i] != END_SEQ && p[i] != FLAG_SEQ by {
            assert(p[i] == set[i]);
        }
        lemma_segment_run_setting(ss, p);
        assert(set.last() == set[set.len() - 1]);
        assert((ss.setting + without_opens(p)).push(set.last()) =~= ss.setting + without_opens(p).push(set.last()));
    }
}

proof fn lemma_segment_run_value(ss: SegmentScan, val: Seq<char>)
    requires
        ss.st == (MarkupState { in_seq: true, in_flags: false }),
        markup_free(val),
    ensures
        segment_run(ss, val) == (SegmentScan { st: ss.st, setting: ss.setting, value: ss.value + val, segments: ss.segments }),
    decreases val.len(),
{
    if val.len() == 0 {
        assert(ss.value + val =~= ss.value);
    } else {
        let p = val.drop_last();
        assert(markup_free(p)) by {
            assert forall|i: int| 0 <= i < p.len() implies #[trigger] p[i] != START_SEQ && p[i] != END_SEQ && p[i] != FLAG_SEQ by {
                assert(p[i] == val[i]);
            }
        }
        lemma_segment_run_value(ss, p);
        assert(val.last() == val[val.len() - 1]);
        assert((ss.value + p).push(val.last()) =~= ss.value + val);
    }
}

/// A styled sequence `{set|val}` is one segment, with exactly its own setting
/// and value; a `{` repeated inside the setting opens nothing new, and the
/// setting goes on collecting the characters around it.
pub proof fn lemma_sequence_segment(set: Seq<char>, val: Seq<char>)
    requires
        forall|i: int| 0 <= i < set.len() ==> #[trigger] set[i] != END_SEQ && set[i] != FLAG_SEQ,
        markup_free(val),
    ensures
        text_segments_spec(seq![START_SEQ] + set + seq![FLAG_SEQ] + val + seq![END_SEQ])
            == seq![SegmentSpec::Styled(without_opens(set), val)],
        markup_free(set) ==> text_segments_spec(seq![START_SEQ] + set + seq![FLAG_SEQ] + val + seq![END_SEQ])
            == seq![SegmentSpec::Styled(set, val)],
{
    if markup_free(set) {
        lemma_without_opens_plain(set);
    }
    let s0 = segment_start();
    let s1 = segment_run(s0, seq![START_SEQ]);
    lemma_segment_run_one(s0, START_SEQ);
    let s2 = segment_run(s1, set);
    lemma_segment_run_setting(s1, set);
    let s3 = segment_run(s2, seq![FLAG_SEQ]);
    lemma_segment_run_one(s2, FLAG_SEQ);
    let s4 = segment_run(s3, val);
    lemma_segment_run_value(s3, val);
    lemma_segment_run_one(s4, END_SEQ);
    assert(Seq::<char>::empty() + without_opens(set) =~= without_opens(set));
    assert(Seq::<char>::empty() + val =~= val);
    let t = seq![START_SEQ] + set + seq![FLAG_SEQ] + val + seq![END_SEQ];
    lemma_segment_scan_is_run(t);
    lemma_segment_run_concat(s0, seq![START_SEQ] + set + seq![FLAG_SEQ] + val, seq![END_SEQ]);
    lemma_segment_run_concat(s0, seq![START_SEQ] + set + seq![FLAG_SEQ], val);
    lemma_segment_run_concat(s0, seq![START_SEQ] + set, seq![FLAG_SEQ]);
    lemma_segment_run_concat(s0, seq![START_SEQ], set);
    assert(Seq::<SegmentSpec>::empty().push(SegmentSpec::Styled(without_opens(set), val)) =~= seq![
        SegmentSpec::Styled(without_opens(set), val),
    ]);
}

/// One glyph segment per character of `s`.
pub open spec fn glyph_segments(s: Seq<char>) -> Seq<SegmentSpec>
    decreases s.len(),
{
    if s.len() == 0 {
        Seq::empty()
    } else {
        glyph_segments(s.drop_last()).push(SegmentSpec::Glyph(s.last()))
    }
}

/// Text without an opening `{` is drawn one glyph per character.
pub proof fn lemma_plain_segments(s: Seq<char>)
    requires
        !s.contains(START_SEQ),
    ensures
        text_segments_spec(s) == glyph_segments(s),
    decreases s.len(),
{
    if s.len() > 0 {
        let p = s.drop_last();
        assert(!p.contains(START_SEQ)) by {
            if p.contains(START_SEQ) {
                let k = choose|k: int| 0 <= k < p.len() && p[k] == START_SEQ;
                assert(s[k] == START_SEQ);
            }
        }
        lemma_plain_segments(p);
        lemma_plain_text_content(p);
        lemma_segment_scan_idle(p);
        assert(s.last() == s[s.len() - 1]);
    }
}

/// Splits a text value into the pieces its glyphs are made from: each plain
/// character, and each closed styled sequence with its setting and value.
pub fn text_segments(value: &str) -> (segs: Vec<TextSegment>)
    ensures
        segs@.len() == text_segments_spec(value@).len(),
        forall|i: int| 0 <= i < segs@.len() ==> segment_view(#[trigger] segs@[i]) == text_segments_spec(value@)[i],
{
    let chars = chars_of(value);
    let mut segs: Vec<TextSegment> = Vec::new();
    let mut setting: Vec<char> = Vec::new();
    let mut val: Vec<char> = Vec::new();
    let mut st = MarkupState { in_seq: false, in_flags: false };
    let mut i: usize = 0;
    while i < chars.len()
        invariant
            0 <= i <= chars.len(),
            chars@ == value@,
            ({
                let ss = segment_scan(chars@.take(i as int));
                &&& ss.st == st
                &&& ss.setting == setting@
                &&& ss.value == val@
                &&& ss.segments.len() == segs@.len()
                &&& forall|j: int| 0 <= j < segs@.len() ==> segment_view(#[trigger] segs@[j]) == ss.segments[j]
            }),
        decreases chars.len() - i,
    {
        let c = chars[i];
        assert(chars@.take(i + 1).drop_last() =~= chars@.take(i as int));
        let ghost prev = segment_scan(chars@.take(i as int));
        let ghost old_segs = segs@;
        let new_seg = segment_char(st, c, &mut setting, &mut val);
        match new_seg {
            Some(sg) => {
                segs.push(sg);
            },
            None => {},
        }
        st = markup_step(st, c);
        i = i + 1;
        proof {
            let ss = segment_scan(chars@.take(i as int));
            lemma_segment_step_appends(prev, c);
            assert forall|j: int| 0 <= j < segs@.len() implies segment_view(#[trigger] segs@[j]) == ss.segments[j] by {
                if j < old_segs.len() {
                    assert(segs@[j] == old_segs[j]);
                    assert(ss.segments[j] == prev.segments[j]);
                }
            }
        }
    }
    assert(chars@.take(i as int) =~= chars@);
    segs
}

} // verus!
