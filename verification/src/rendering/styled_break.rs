use vstd::prelude::*;

use crate::rendering::text::{
    content_chars, initial_state, markup_role, markup_step, role_of, state_after, step, MarkupRole,
    MarkupState, END_SEQ, FLAG_SEQ, START_SEQ,
};

verus! {

/// What a scan of markup has found so far: the markup state, the setting of
/// the sequence being read, and the drawn characters, each with the setting
/// of the sequence that styles it (none for plain characters).
pub struct StyleScan {
    pub st: MarkupState,
    pub setting: Seq<char>,
    pub cells: Seq<(char, Option<Seq<char>>)>,
}

/// The setting after reading `c` in state `st` with `setting` read so far: a
/// new sequence starts an empty setting, a setting character extends it.
pub open spec fn next_setting(st: MarkupState, setting: Seq<char>, c: char) -> Seq<char> {
    let r = role_of(st, c);
    if r == MarkupRole::Open {
        Seq::empty()
    } else if r == MarkupRole::Setting {
        setting.push(c)
    } else {
        setting
    }
}

/// The drawn character `c` read in state `st` makes, with its setting: a
/// value character is styled, a plain one is not, markup draws nothing.
pub open spec fn cell_of(st: MarkupState, setting: Seq<char>, c: char) -> Seq<(char, Option<Seq<char>>)> {
    let r = role_of(st, c);
    if r == MarkupRole::Value {
        seq![(c, Some(setting))]
    } else if r == MarkupRole::Plain {
        seq![(c, None::<Seq<char>>)]
    } else {
        Seq::empty()
    }
}

/// Scans `s` from state `st` with `setting` as the setting read so far.
pub open spec fn scan_styles(st: MarkupState, setting: Seq<char>, s: Seq<char>) -> StyleScan
    decreases s.len(),
{
    if s.len() == 0 {
        StyleScan { st, setting, cells: Seq::empty() }
    } else {
        let c = s[0];
        let rest = scan_styles(step(st, c), next_setting(st, setting, c), s.drop_first());
        StyleScan { st: rest.st, setting: rest.setting, cells: cell_of(st, setting, c) + rest.cells }
    }
}

/// Scanning one character.
pub proof fn lemma_scan_one(st: MarkupState, setting: Seq<char>, c: char)
    ensures
        scan_styles(st, setting, seq![c]) == (StyleScan {
            st: step(st, c),
            setting: next_setting(st, setting, c),
            cells: cell_of(st, setting, c),
        }),
{
    assert(seq![c].drop_first() =~= Seq::<char>::empty());
    assert(seq![c][0] == c);
    let rest = scan_styles(step(st, c), next_setting(st, setting, c), Seq::<char>::empty());
    assert(rest.cells == Seq::<(char, Option<Seq<char>>)>::empty());
    assert(cell_of(st, setting, c) + rest.cells =~= cell_of(st, setting, c));
}

/// The drawn characters of `s`, in order, each with the setting of the
/// styled sequence it is drawn in, or none.
pub open spec fn styled_chars(s: Seq<char>) -> Seq<(char, Option<Seq<char>>)> {
    scan_styles(initial_state(), Seq::empty(), s).cells
}

/// The characters of styled characters.
pub open spec fn plain_of(cells: Seq<(char, Option<Seq<char>>)>) -> Seq<char> {
    cells.map_values(|p: (char, Option<Seq<char>>)| p.0)
}

/// A setting holds no markup character.
pub open spec fn plain_setting(setting: Seq<char>) -> bool {
    forall|i: int| 0 <= i < setting.len() ==> #[trigger] setting[i] != START_SEQ && setting[i] != END_SEQ
        && setting[i] != FLAG_SEQ
}

/// Styled characters that markup can write back: no character opens a
/// sequence, and a styled character and its setting hold no markup.
pub open spec fn valid_styled(cells: Seq<(char, Option<Seq<char>>)>) -> bool {
    forall|i: int|
        0 <= i < cells.len() ==> {
            &&& (#[trigger] cells[i]).0 != START_SEQ
            &&& cells[i].1 matches Some(set) ==> cells[i].0 != END_SEQ && cells[i].0 != FLAG_SEQ && plain_setting(set)
        }
}

/// `}` when a sequence is open.
pub open spec fn close_seq(open: Option<Seq<char>>) -> Seq<char> {
    if open is Some {
        seq![END_SEQ]
    } else {
        Seq::empty()
    }
}

/// `{setting|` for a styled character, nothing for a plain one.
pub open spec fn open_seq(style: Option<Seq<char>>) -> Seq<char> {
    match style {
        Some(set) => seq![START_SEQ] + set + seq![FLAG_SEQ],
        None => Seq::empty(),
    }
}

/// Writes styled characters as markup, with the sequence of setting `open`
/// already open: consecutive characters of one setting share a sequence,
/// and the last sequence is closed.
pub open spec fn render_from(cells: Seq<(char, Option<Seq<char>>)>, open: Option<Seq<char>>) -> Seq<char>
    decreases cells.len(),
{
    if cells.len() == 0 {
        close_seq(open)
    } else if cells[0].1 == open {
        seq![cells[0].0] + render_from(cells.drop_first(), open)
    } else {
        close_seq(open) + open_seq(cells[0].1) + seq![cells[0].0] + render_from(cells.drop_first(), cells[0].1)
    }
}

/// Styled characters written as markup.
pub open spec fn render_styled(cells: Seq<(char, Option<Seq<char>>)>) -> Seq<char> {
    render_from(cells, None)
}

/// Styled characters cut into pieces of `m` characters, the last possibly
/// shorter.
pub open spec fn styled_chunks(cells: Seq<(char, Option<Seq<char>>)>, m: int) -> Seq<Seq<(char, Option<Seq<char>>)>>
    decreases cells.len(),
{
    if cells.len() <= m || m < 1 {
        seq![cells]
    } else {
        seq![cells.take(m)] + styled_chunks(cells.skip(m), m)
    }
}

/// Pieces joined back together.
pub open spec fn join_chunks(chunks: Seq<Seq<(char, Option<Seq<char>>)>>) -> Seq<(char, Option<Seq<char>>)>
    decreases chunks.len(),
{
    if chunks.len() == 0 {
        Seq::empty()
    } else {
        chunks[0] + join_chunks(chunks.drop_first())
    }
}

/// Scanning `a + b` is scanning `a`, then `b` from where `a` left off.
pub proof fn lemma_scan_concat(st: MarkupState, setting: Seq<char>, a: Seq<char>, b: Seq<char>)
    ensures
        ({
            let m = scan_styles(st, setting, a);
            let f = scan_styles(m.st, m.setting, b);
            scan_styles(st, setting, a + b) == StyleScan { st: f.st, setting: f.setting, cells: m.cells + f.cells }
        }),
    decreases a.len(),
{
    if a.len() == 0 {
        assert(a + b =~= b);
        let f = scan_styles(st, setting, b);
        assert(Seq::<(char, Option<Seq<char>>)>::empty() + f.cells =~= f.cells);
    } else {
        let c = a[0];
        assert((a + b)[0] == c);
        assert((a + b).drop_first() =~= a.drop_first() + b);
        lemma_scan_concat(step(st, c), next_setting(st, setting, c), a.drop_first(), b);
        let m = scan_styles(step(st, c), next_setting(st, setting, c), a.drop_first());
        let f = scan_styles(m.st, m.setting, b);
        assert(cell_of(st, setting, c) + (m.cells + f.cells) =~= (cell_of(st, setting, c) + m.cells) + f.cells);
    }
}

/// Scanning from the start draws what `content_chars` draws and ends in the
/// state `state_after` gives.
pub proof fn lemma_styled_chars_content(s: Seq<char>)
    ensures
        plain_of(styled_chars(s)) == content_chars(s),
        scan_styles(initial_state(), Seq::empty(), s).st == state_after(s),
    decreases s.len(),
{
    if s.len() > 0 {
        let p = s.drop_last();
        let c = s.last();
        lemma_styled_chars_content(p);
        assert(p + seq![c] =~= s);
        lemma_scan_concat(initial_state(), Seq::empty(), p, seq![c]);
        let m = scan_styles(initial_state(), Seq::empty(), p);
        lemma_scan_one(m.st, m.setting, c);
        let one = scan_styles(m.st, m.setting, seq![c]);
        assert(plain_of(m.cells + one.cells) =~= plain_of(m.cells) + plain_of(one.cells));
        assert(s.drop_last() == p && s.last() == c);
        if role_of(m.st, c) == MarkupRole::Value || role_of(m.st, c) == MarkupRole::Plain {
            assert(plain_of(one.cells) =~= seq![c]);
        } else {
            assert(plain_of(one.cells) =~= Seq::<char>::empty());
        }
    }
}

/// The drawn characters found by a scan can be written back as markup.
pub proof fn lemma_scan_valid(st: MarkupState, setting: Seq<char>, s: Seq<char>)
    requires
        st.in_flags ==> st.in_seq,
        plain_setting(setting),
    ensures
        valid_styled(scan_styles(st, setting, s).cells),
    decreases s.len(),
{
    if s.len() > 0 {
        let c = s[0];
        let r = role_of(st, c);
        let setting2 = next_setting(st, setting, c);
        assert(plain_setting(setting2)) by {
            if r == MarkupRole::Setting {
                assert forall|i: int| 0 <= i < setting2.len() implies #[trigger] setting2[i] != START_SEQ && setting2[i]
                    != END_SEQ && setting2[i] != FLAG_SEQ by {
                    if i < setting.len() {
                        assert(setting2[i] == setting[i]);
                    }
                }
            }
        }
        lemma_scan_valid(step(st, c), setting2, s.drop_first());
        let rest = scan_styles(step(st, c), setting2, s.drop_first());
        let head = cell_of(st, setting, c);
        let cells = scan_styles(st, setting, s).cells;
        assert(cells == head + rest.cells);
        assert forall|i: int| 0 <= i < cells.len() implies {
            &&& (#[trigger] cells[i]).0 != START_SEQ
            &&& cells[i].1 matches Some(set) ==> cells[i].0 != END_SEQ && cells[i].0 != FLAG_SEQ && plain_setting(set)
        } by {
            if i < head.len() {
                assert(cells[i] == head[i]);
            } else {
                assert(cells[i] == rest.cells[i - head.len()]);
            }
        }
    }
}

/// The styled characters of any text can be written back as markup.
pub proof fn lemma_styled_chars_valid(s: Seq<char>)
    ensures
        valid_styled(styled_chars(s)),
{
    lemma_scan_valid(initial_state(), Seq::empty(), s);
}

/// Reading a setting's characters just after `{` adds them to the setting.
proof fn lemma_scan_setting(pre: Seq<char>, set: Seq<char>)
    requires
        plain_setting(set),
    ensures
        scan_styles(MarkupState { in_seq: true, in_flags: true }, pre, set) == (StyleScan {
            st: MarkupState { in_seq: true, in_flags: true },
            setting: pre + set,
            cells: Seq::empty(),
        }),
    decreases set.len(),
{
    if set.len() == 0 {
        assert(pre + set =~= pre);
    } else {
        let c = set[0];
        assert(c != START_SEQ && c != END_SEQ && c != FLAG_SEQ);
        assert(plain_setting(set.drop_first())) by {
            assert forall|i: int| 0 <= i < set.drop_first().len() implies #[trigger] set.drop_first()[i] != START_SEQ
                && set.drop_first()[i] != END_SEQ && set.drop_first()[i] != FLAG_SEQ by {
                assert(set.drop_first()[i] == set[i + 1]);
            }
        }
        lemma_scan_setting(pre.push(c), set.drop_first());
        assert(pre.push(c) + set.drop_first() =~= pre + set);
        let rest = scan_styles(MarkupState { in_seq: true, in_flags: true }, pre.push(c), set.drop_first());
        assert(cell_of(MarkupState { in_seq: true, in_flags: true }, pre, c) + rest.cells =~= rest.cells);
    }
}

/// The markup state inside the value of a sequence, or outside any.
pub open spec fn render_state(open: Option<Seq<char>>) -> MarkupState {
    if open is Some {
        MarkupState { in_seq: true, in_flags: false }
    } else {
        initial_state()
    }
}

/// Written-back markup reads back as the styled characters it was written
/// from, and ends outside any sequence.
pub proof fn lemma_render_reads_back(cells: Seq<(char, Option<Seq<char>>)>, open: Option<Seq<char>>, setting: Seq<char>)
    requires
        valid_styled(cells),
        open matches Some(o) ==> setting == o && plain_setting(o),
    ensures
        scan_styles(render_state(open), setting, render_from(cells, open)).cells == cells,
        scan_styles(render_state(open), setting, render_from(cells, open)).st == initial_state(),
    decreases cells.len(),
{
    let st0 = render_state(open);
    if cells.len() == 0 {
        if open is Some {
            lemma_scan_one(st0, setting, END_SEQ);
        }
    } else {
        let c = cells[0].0;
        let style = cells[0].1;
        let rest = cells.drop_first();
        assert(valid_styled(rest)) by {
            assert forall|i: int| 0 <= i < rest.len() implies {
                &&& (#[trigger] rest[i]).0 != START_SEQ
                &&& rest[i].1 matches Some(set) ==> rest[i].0 != END_SEQ && rest[i].0 != FLAG_SEQ && plain_setting(set)
            } by {
                assert(rest[i] == cells[i + 1]);
            }
        }
        assert(c != START_SEQ);
        assert(seq![(c, style)] + rest =~= cells);
        if style == open {
            let r = render_from(rest, open);
            lemma_render_reads_back(rest, open, setting);
            lemma_scan_concat(st0, setting, seq![c], r);
            lemma_scan_one(st0, setting, c);
            assert(cell_of(st0, setting, c) == seq![(c, style)]);
        } else {
            let x = close_seq(open);
            let y = open_seq(style);
            let r = render_from(rest, style);
            let style_setting = match style {
                Some(o) => o,
                None => setting,
            };
            lemma_render_reads_back(rest, style, style_setting);
            // reading the closing brace
            if open is Some {
                lemma_scan_one(st0, setting, END_SEQ);
            } else {
                assert(x =~= Seq::<char>::empty());
            }
            let sx = scan_styles(st0, setting, x);
            assert(sx.st == initial_state());
            assert(sx.cells.len() == 0);
            // reading the opening of the next sequence
            lemma_scan_concat(st0, setting, x, y);
            let sy = scan_styles(sx.st, sx.setting, y);
            match style {
                Some(o) => {
                    let open_brace = seq![START_SEQ];
                    let sep = seq![FLAG_SEQ];
                    assert(y == open_brace + o + sep);
                    lemma_scan_concat(sx.st, sx.setting, open_brace + o, sep);
                    lemma_scan_concat(sx.st, sx.setting, open_brace, o);
                    lemma_scan_one(sx.st, sx.setting, START_SEQ);
                    let tt = MarkupState { in_seq: true, in_flags: true };
                    assert(scan_styles(sx.st, sx.setting, open_brace).st == tt);
                    assert(scan_styles(sx.st, sx.setting, open_brace).setting == Seq::<char>::empty());
                    lemma_scan_setting(Seq::empty(), o);
                    assert(Seq::<char>::empty() + o =~= o);
                    lemma_scan_one(tt, o, FLAG_SEQ);
                    assert(sy.st == MarkupState { in_seq: true, in_flags: false });
                    assert(sy.setting == o);
                    assert(sy.cells =~= Seq::<(char, Option<Seq<char>>)>::empty());
                },
                None => {
                    assert(y =~= Seq::<char>::empty());
                },
            }
            assert(sy.st == render_state(style));
            assert(sy.setting == style_setting);
            lemma_scan_concat(st0, setting, x + y, seq![c]);
            lemma_scan_concat(st0, setting, x + y + seq![c], r);
            lemma_scan_one(sy.st, sy.setting, c);
            assert(cell_of(sy.st, sy.setting, c) == seq![(c, style)]);
            assert(sx.cells + sy.cells =~= Seq::<(char, Option<Seq<char>>)>::empty());
        }
    }
}

/// A piece written as markup draws exactly its characters, each with its
/// setting, and closes every sequence it opens: its drawn length is the
/// number of its characters.
pub proof fn lemma_render_draws(cells: Seq<(char, Option<Seq<char>>)>)
    requires
        valid_styled(cells),
    ensures
        styled_chars(render_styled(cells)) == cells,
        content_chars(render_styled(cells)) == plain_of(cells),
        content_chars(render_styled(cells)).len() == cells.len(),
        state_after(render_styled(cells)) == initial_state(),
{
    lemma_render_reads_back(cells, None, Seq::empty());
    lemma_styled_chars_content(render_styled(cells));
}

/// Cutting into pieces loses nothing: the pieces join back into the
/// characters, and each piece holds at most `m` characters, and at least one
/// when there are any.
pub proof fn lemma_styled_chunks(cells: Seq<(char, Option<Seq<char>>)>, m: int)
    requires
        m >= 1,
    ensures
        join_chunks(styled_chunks(cells, m)) == cells,
        styled_chunks(cells, m).len() > 0,
        forall|i: int| 0 <= i < styled_chunks(cells, m).len() ==> (#[trigger] styled_chunks(cells, m)[i]).len() <= m,
        cells.len() > 0 ==> forall|i: int| 0 <= i < styled_chunks(cells, m).len() ==> 1 <= (
        #[trigger] styled_chunks(cells, m)[i]).len(),
    decreases cells.len(),
{
    let chunks = styled_chunks(cells, m);
    if cells.len() <= m {
        assert(chunks.drop_first() =~= Seq::<Seq<(char, Option<Seq<char>>)>>::empty());
        assert(join_chunks(Seq::<Seq<(char, Option<Seq<char>>)>>::empty()) == Seq::<(char, Option<Seq<char>>)>::empty());
        assert(cells + Seq::<(char, Option<Seq<char>>)>::empty() =~= cells);
    } else {
        assert(chunks[0] == cells.take(m));
        let rest = cells.skip(m);
        lemma_styled_chunks(rest, m);
        assert(chunks.drop_first() =~= styled_chunks(rest, m));
        assert(cells.take(m) + rest =~= cells);
        assert forall|i: int| 0 <= i < chunks.len() implies 1 <= (#[trigger] chunks[i]).len() <= m by {
            if i > 0 {
                assert(chunks[i] == styled_chunks(rest, m)[i - 1]);
            }
        }
    }
}

/// Pieces of written-back characters can be written back.
pub proof fn lemma_chunks_valid(cells: Seq<(char, Option<Seq<char>>)>, m: int)
    requires
        valid_styled(cells),
    ensures
        forall|i: int| 0 <= i < styled_chunks(cells, m).len() ==> valid_styled(#[trigger] styled_chunks(cells, m)[i]),
    decreases cells.len(),
{
    let chunks = styled_chunks(cells, m);
    if !(cells.len() <= m || m < 1) {
        let rest = cells.skip(m);
        assert(valid_styled(rest)) by {
            assert forall|i: int| 0 <= i < rest.len() implies {
                &&& (#[trigger] rest[i]).0 != START_SEQ
                &&& rest[i].1 matches Some(set) ==> rest[i].0 != END_SEQ && rest[i].0 != FLAG_SEQ && plain_setting(set)
            } by {
                assert(rest[i] == cells[i + m]);
            }
        }
        let first = cells.take(m);
        assert(valid_styled(first)) by {
            assert forall|i: int| 0 <= i < first.len() implies {
                &&& (#[trigger] first[i]).0 != START_SEQ
                &&& first[i].1 matches Some(set) ==> first[i].0 != END_SEQ && first[i].0 != FLAG_SEQ && plain_setting(set)
            } by {
                assert(first[i] == cells[i]);
            }
        }
        lemma_chunks_valid(rest, m);
        assert forall|i: int| 0 <= i < chunks.len() implies valid_styled(#[trigger] chunks[i]) by {
            if i > 0 {
                assert(chunks[i] == styled_chunks(rest, m)[i - 1]);
            }
        }
    }
}

/// The characters of an optional setting.
pub open spec fn opt_seq(o: Option<Vec<char>>) -> Option<Seq<char>> {
    match o {
        Some(v) => Some(v@),
        None => None,
    }
}

/// Styled characters held as values.
pub open spec fn cells_view(v: Seq<(char, Option<Vec<char>>)>) -> Seq<(char, Option<Seq<char>>)> {
    v.map_values(|p: (char, Option<Vec<char>>)| (p.0, opt_seq(p.1)))
}

fn clone_setting(o: &Option<Vec<char>>) -> (r: Option<Vec<char>>)
    ensures
        opt_seq(r) == opt_seq(*o),
{
    match o {
        Some(v) => Some(v.clone()),
        None => None,
    }
}

fn same_chars(x: &Vec<char>, y: &Vec<char>) -> (r: bool)
    ensures
        r == (x@ == y@),
{
    if x.len() != y.len() {
        return false;
    }
    let mut i: usize = 0;
    while i < x.len()
        invariant
            x@.len() == y@.len(),
            i <= x@.len(),
            forall|j: int| 0 <= j < i ==> x@[j] == y@[j],
        decreases x@.len() - i,
    {
        if x[i] != y[i] {
            return false;
        }
        i = i + 1;
    }
    assert(x@ =~= y@);
    true
}

fn same_setting(a: &Option<Vec<char>>, b: &Option<Vec<char>>) -> (r: bool)
    ensures
        r == (opt_seq(*a) == opt_seq(*b)),
{
    match (a, b) {
        (None, None) => true,
        (Some(x), Some(y)) => same_chars(x, y),
        _ => false,
    }
}

/// The drawn characters of `text`, each with its setting.
pub fn styled_chars_of(text: &Vec<char>) -> (cells: Vec<(char, Option<Vec<char>>)>)
    ensures
        cells_view(cells@) == styled_chars(text@),
{
    let mut cells: Vec<(char, Option<Vec<char>>)> = Vec::new();
    let mut setting: Vec<char> = Vec::new();
    let mut st = MarkupState { in_seq: false, in_flags: false };
    let mut i: usize = 0;
    while i < text.len()
        invariant
            i <= text@.len(),
            ({
                let sc = scan_styles(initial_state(), Seq::empty(), text@.take(i as int));
                &&& st == sc.st
                &&& setting@ == sc.setting
                &&& cells_view(cells@) == sc.cells
            }),
        decreases text@.len() - i,
    {
        let c = text[i];
        let ghost pre = text@.take(i as int);
        assert(text@.take(i + 1) =~= pre + seq![c]);
        proof {
            lemma_scan_concat(initial_state(), Seq::empty(), pre, seq![c]);
            let sc = scan_styles(initial_state(), Seq::empty(), pre);
            lemma_scan_one(sc.st, sc.setting, c);
        }
        let ghost before = cells@;
        let r = markup_role(st, c);
        match r {
            MarkupRole::Open => {
                setting = Vec::new();
            },
            MarkupRole::Setting => {
                setting.push(c);
            },
            MarkupRole::Value => {
                let set = setting.clone();
                cells.push((c, Some(set)));
                assert(cells_view(cells@) =~= cells_view(before) + seq![(c, Some(setting@))]);
            },
            MarkupRole::Plain => {
                cells.push((c, None));
                assert(cells_view(cells@) =~= cells_view(before) + seq![(c, None::<Seq<char>>)]);
            },
            _ => {},
        }
        proof {
            let sc = scan_styles(initial_state(), Seq::empty(), pre);
            if r != MarkupRole::Value && r != MarkupRole::Plain {
                assert(cells_view(cells@) =~= sc.cells + cell_of(sc.st, sc.setting, c));
            }
        }
        st = markup_step(st, c);
        i = i + 1;
    }
    assert(text@.take(i as int) =~= text@);
    cells
}

/// Writes the styled characters `cells[lo..hi]` as markup.
pub fn render_range(cells: &Vec<(char, Option<Vec<char>>)>, lo: usize, hi: usize) -> (out: Vec<char>)
    requires
        lo <= hi <= cells@.len(),
    ensures
        out@ == render_styled(cells_view(cells@).subrange(lo as int, hi as int)),
{
    let ghost view = cells_view(cells@);
    let mut out: Vec<char> = Vec::new();
    let mut open: Option<Vec<char>> = None;
    let mut j: usize = lo;
    while j < hi
        invariant
            lo <= j <= hi <= cells@.len(),
            view == cells_view(cells@),
            out@ + render_from(view.subrange(j as int, hi as int), opt_seq(open)) == render_styled(
                view.subrange(lo as int, hi as int),
            ),
        decreases hi - j,
    {
        let ghost sub = view.subrange(j as int, hi as int);
        assert(sub[0] == view[j as int]);
        assert(sub.drop_first() =~= view.subrange(j + 1, hi as int));
        let ghost before = out@;
        let ghost open0 = opt_seq(open);
        let c = cells[j].0;
        let style = &cells[j].1;
        if same_setting(style, &open) {
            out.push(c);
            assert(out@ + render_from(view.subrange(j + 1, hi as int), opt_seq(open)) =~= before + render_from(
                sub,
                opt_seq(open),
            ));
        } else {
            if open.is_some() {
                out.push('}');
            }
            let ghost after_close = out@;
            assert(after_close =~= before + close_seq(opt_seq(open)));
            match style {
                Some(set) => {
                    out.push('{');
                    let mut t = set.clone();
                    out.append(&mut t);
                    out.push('|');
                },
                None => {},
            }
            assert(out@ =~= before + close_seq(opt_seq(open)) + open_seq(opt_seq(*style)));
            out.push(c);
            open = clone_setting(style);
            assert(out@ + render_from(view.subrange(j + 1, hi as int), opt_seq(open)) =~= before + render_from(
                sub,
                open0,
            ));
        }
        j = j + 1;
    }
    assert(view.subrange(j as int, hi as int) =~= Seq::<(char, Option<Seq<char>>)>::empty());
    if open.is_some() {
        out.push('}');
    }
    out
}

} // verus!
