use vstd::prelude::*;

use crate::rendering::text::{content_chars, lemma_content_concat, lemma_plain_text_content, state_after, text_content_length, END_SEQ, FLAG_SEQ, START_SEQ, initial_state, markup_role, markup_step, role_at, role_of, step, MarkupRole, MarkupState};
use crate::rendering::styled_break::{
    cells_view, join_chunks, render_range, styled_chars_of, lemma_chunks_valid, lemma_render_draws, lemma_render_reads_back, lemma_styled_chars_content, lemma_styled_chars_valid, plain_of, lemma_styled_chunks, render_from, render_styled,
    plain_setting, styled_chars, styled_chunks, valid_styled,
};
use crate::text_util::{char_is_whitespace, chars_of, is_white_space, string_from_chars};

verus! {

/// A word with its visual representation and any formatting codes.
#[derive(Debug, Clone)]
pub struct FormattedWord {
    /// The word as written, markup included.
    pub text: String,
    /// Number of drawn characters of the word: markup and style settings do
    /// not count, and a styled value counts once its sequence is closed.
    pub visual_length: usize,
    /// Active formatting codes, such as "R-G-B-y repeat".
    pub formatting: Option<String>,
}

/// A complete line with formatting preserved.
#[derive(Debug, Clone)]
pub struct FormattedLine {
    pub text: String,
    pub visual_length: usize,
    pub words: Vec<FormattedWord>,
}

/// State of the word splitter: markup state, the word being read (as written
/// and as drawn), the value of the open styled sequence, and the finished
/// words, each as (text, drawn characters).
pub struct WordScan {
    pub st: MarkupState,
    pub word: Seq<char>,
    pub visual: Seq<char>,
    pub value: Seq<char>,
    pub words: Seq<(Seq<char>, Seq<char>)>,
}

pub open spec fn word_scan_start() -> WordScan {
    WordScan {
        st: initial_state(),
        word: Seq::empty(),
        visual: Seq::empty(),
        value: Seq::empty(),
        words: Seq::empty(),
    }
}

/// Reading one character: markup goes into the word; a styled value becomes
/// visible when its sequence closes; plain whitespace ends the word.
pub open spec fn word_step(ws: WordScan, c: char) -> WordScan {
    let st2 = step(ws.st, c);
    match role_of(ws.st, c) {
        MarkupRole::Open => WordScan {
            st: st2,
            word: ws.word.push(c),
            visual: ws.visual,
            value: Seq::empty(),
            words: ws.words,
        },
        MarkupRole::Close => WordScan {
            st: st2,
            word: ws.word.push(c),
            visual: ws.visual + ws.value,
            value: Seq::empty(),
            words: ws.words,
        },
        MarkupRole::Value => WordScan {
            st: st2,
            word: ws.word.push(c),
            visual: ws.visual,
            value: ws.value.push(c),
            words: ws.words,
        },
        MarkupRole::Plain => if is_white_space(c) {
            if ws.word.len() > 0 {
                WordScan {
                    st: st2,
                    word: Seq::empty(),
                    visual: Seq::empty(),
                    value: ws.value,
                    words: ws.words.push((ws.word, ws.visual)),
                }
            } else {
                ws
            }
        } else {
            WordScan {
                st: st2,
                word: ws.word.push(c),
                visual: ws.visual.push(c),
                value: ws.value,
                words: ws.words,
            }
        },
        _ => WordScan {
            st: st2,
            word: ws.word.push(c),
            visual: ws.visual,
            value: ws.value,
            words: ws.words,
        },
    }
}

pub open spec fn word_scan(s: Seq<char>) -> WordScan
    decreases s.len(),
{
    if s.len() == 0 {
        word_scan_start()
    } else {
        word_step(word_scan(s.drop_last()), s.last())
    }
}

/// The words of `s`, each as (text, drawn characters).
pub open spec fn split_words(s: Seq<char>) -> Seq<(Seq<char>, Seq<char>)> {
    let ws = word_scan(s);
    if ws.word.len() > 0 {
        ws.words.push((ws.word, ws.visual))
    } else {
        ws.words
    }
}

/// `w` is the word whose text is `p.0` and whose drawn characters are `p.1`.
pub open spec fn word_matches(w: FormattedWord, p: (Seq<char>, Seq<char>)) -> bool {
    &&& w.text@ == p.0
    &&& w.visual_length == p.1.len()
    &&& w.formatting is None
}

fn make_word(word: &Vec<char>, visual: &Vec<char>) -> (w: FormattedWord)
    ensures
        word_matches(w, (word@, visual@)),
{
    let text = string_from_chars(word);
    FormattedWord { text, visual_length: visual.len(), formatting: None }
}

/// Splits a formatted text string into words while preserving formatting.
/// Words end at whitespace outside styled sequences; a word's visual length
/// counts its drawn characters: plain characters, and the values of the
/// styled sequences it closes.
pub fn split_formatted_text_into_words(text: &str) -> (words: Vec<FormattedWord>)
    ensures
        words@.len() == split_words(text@).len(),
        forall|i: int| 0 <= i < words@.len() ==> word_matches(#[trigger] words@[i], split_words(text@)[i]),
{
    let chars = chars_of(text);
    let mut words: Vec<FormattedWord> = Vec::new();
    let mut word: Vec<char> = Vec::new();
    let mut visual: Vec<char> = Vec::new();
    let mut value: Vec<char> = Vec::new();
    let mut st = MarkupState { in_seq: false, in_flags: false };
    let mut i: usize = 0;
    while i < chars.len()
        invariant
            0 <= i <= chars.len(),
            chars@ == text@,
            ({
                let ws = word_scan(chars@.take(i as int));
                &&& ws.st == st
                &&& ws.word == word@
                &&& ws.visual == visual@
                &&& ws.value == value@
                &&& ws.words.len() == words@.len()
                &&& forall|j: int| 0 <= j < words@.len() ==> word_matches(#[trigger] words@[j], ws.words[j])
            }),
        decreases chars.len() - i,
    {
        let c = chars[i];
        assert(chars@.take(i + 1).drop_last() =~= chars@.take(i as int));
        let ghost prev = word_scan(chars@.take(i as int));
        let r = markup_role(st, c);
        let st2 = markup_step(st, c);
        match r {
            MarkupRole::Open => {
                word.push(c);
                value = Vec::new();
                st = st2;
            },
            MarkupRole::Close => {
                word.push(c);
                visual.append(&mut value);
                st = st2;
            },
            MarkupRole::Value => {
                word.push(c);
                value.push(c);
                st = st2;
            },
            MarkupRole::Plain => {
                if char_is_whitespace(c) {
                    if word.len() > 0 {
                        let w = make_word(&word, &visual);
                        words.push(w);
                        word = Vec::new();
                        visual = Vec::new();
                        st = st2;
                    }
                } else {
                    word.push(c);
                    visual.push(c);
                    st = st2;
                }
            },
            _ => {
                word.push(c);
                st = st2;
            },
        }
        i = i + 1;
    }
    assert(chars@.take(i as int) =~= chars@);
    if word.len() > 0 {
        let w = make_word(&word, &visual);
        words.push(w);
    }
    words
}

/// Every word holds at least one character.
pub proof fn lemma_split_words_nonempty(s: Seq<char>)
    ensures
        forall|j: int| 0 <= j < split_words(s).len() ==> (#[trigger] split_words(s)[j]).0.len() > 0,
{
    lemma_word_scan_nonempty(s);
}

proof fn lemma_word_scan_nonempty(s: Seq<char>)
    ensures
        forall|j: int| 0 <= j < word_scan(s).words.len() ==> (#[trigger] word_scan(s).words[j]).0.len() > 0,
    decreases s.len(),
{
    if s.len() > 0 {
        let prev = word_scan(s.drop_last());
        lemma_word_scan_nonempty(s.drop_last());
        assert forall|j: int| 0 <= j < word_scan(s).words.len() implies (#[trigger] word_scan(s).words[j]).0.len() > 0 by {
            if j < prev.words.len() {
                assert(word_scan(s).words[j] == prev.words[j]);
            }
        }
    }
}

/// Every `{` of `s` opens a styled sequence that is closed before the next
/// `{` and before the end of `s`.
pub open spec fn braces_balanced(s: Seq<char>) -> bool {
    &&& forall|i: int| 0 <= i < s.len() && s[i] == START_SEQ ==> !(#[trigger] state_after(s.take(i))).in_seq
    &&& !state_after(s).in_seq
}

proof fn lemma_word_scan_content(s: Seq<char>)
    requires
        forall|i: int| 0 <= i < s.len() && s[i] == START_SEQ ==> !(#[trigger] state_after(s.take(i))).in_seq,
    ensures
        ({
            let ws = word_scan(s);
            &&& ws.st == state_after(s)
            &&& ws.st == state_after(ws.word)
            &&& content_chars(ws.word) == ws.visual + ws.value
            &&& !(ws.st.in_seq && !ws.st.in_flags) ==> ws.value.len() == 0
            &&& ws.st.in_flags ==> ws.st.in_seq
            &&& forall|j: int| 0 <= j < ws.words.len() ==> (#[trigger] ws.words[j]).1 == content_chars(ws.words[j].0)
                && state_after(ws.words[j].0) == initial_state()
        }),
    decreases s.len(),
{
    if s.len() > 0 {
        let prev = s.drop_last();
        let c = s.last();
        assert forall|i: int| 0 <= i < prev.len() && prev[i] == START_SEQ implies !(#[trigger] state_after(prev.take(i))).in_seq by {
            assert(prev.take(i) =~= s.take(i));
            assert(s[i] == prev[i]);
        }
        lemma_word_scan_content(prev);
        let ws = word_scan(prev);
        let nw = word_scan(s);
        assert(ws.word.push(c).drop_last() =~= ws.word);
        assert(ws.word.push(c).last() == c);
        if c == START_SEQ {
            assert(s.take(prev.len() as int) =~= prev);
            assert(s[prev.len() as int] == c);
        }
        match role_of(ws.st, c) {
            MarkupRole::Open => {
                assert(ws.value.len() == 0);
                assert(nw.visual + nw.value =~= ws.visual + ws.value);
            },
            MarkupRole::Close => {
                assert(nw.visual + nw.value =~= ws.visual + ws.value);
            },
            MarkupRole::Value => {
                assert(nw.visual + nw.value =~= (ws.visual + ws.value).push(c));
            },
            MarkupRole::Plain => {
                if is_white_space(c) {
                    if ws.word.len() > 0 {
                        assert(ws.visual + ws.value =~= ws.visual);
                        assert(nw.visual + nw.value =~= Seq::<char>::empty());
                        assert forall|j: int| 0 <= j < nw.words.len() implies (#[trigger] nw.words[j]).1 == content_chars(nw.words[j].0)
                            && state_after(nw.words[j].0) == initial_state() by {
                            if j < ws.words.len() {
                                assert(nw.words[j] == ws.words[j]);
                            }
                        }
                    }
                } else {
                    assert(nw.visual + nw.value =~= (ws.visual + ws.value).push(c));
                }
            },
            _ => {
                assert(nw.visual + nw.value =~= ws.visual + ws.value);
            },
        }
    }
}

/// A word's visual length is its drawn length: for text whose braces are
/// balanced, the drawn characters of every split word are the characters
/// `text_content_length` counts in the word's text, and every word closes
/// the sequences it opens.
pub proof fn lemma_split_words_drawn(text: Seq<char>)
    requires
        braces_balanced(text),
    ensures
        forall|j: int| 0 <= j < split_words(text).len() ==> (#[trigger] split_words(text)[j]).1 == content_chars(
            split_words(text)[j].0,
        ) && state_after(split_words(text)[j].0) == initial_state(),
{
    lemma_word_scan_content(text);
    let ws = word_scan(text);
    let words = split_words(text);
    if ws.word.len() > 0 {
        assert(ws.visual + ws.value =~= ws.visual);
        assert forall|j: int| 0 <= j < words.len() implies (#[trigger] words[j]).1 == content_chars(words[j].0)
            && state_after(words[j].0) == initial_state() by {
            if j < ws.words.len() {
                assert(words[j] == ws.words[j]);
            }
        }
    }
}

/// No character of `a` ends a word: none is whitespace read outside a
/// styled sequence.
pub open spec fn unbroken(a: Seq<char>) -> bool {
    forall|i: int| 0 <= i < a.len() ==> !(role_at(a, i) == MarkupRole::Plain && is_white_space(#[trigger] a[i]))
}

/// Every `{` of `a` stands outside a styled sequence.
pub open spec fn opens_outside(a: Seq<char>) -> bool {
    forall|i: int| 0 <= i < a.len() && a[i] == START_SEQ ==> !(#[trigger] state_after(a.take(i))).in_seq
}

#[verifier::spinoff_prover]
proof fn lemma_word_scan_whole(s: Seq<char>)
    requires
        opens_outside(s),
    ensures
        unbroken(word_scan(s).word),
        opens_outside(word_scan(s).word),
        forall|j: int| 0 <= j < word_scan(s).words.len() ==> unbroken((#[trigger] word_scan(s).words[j]).0)
            && opens_outside(word_scan(s).words[j].0),
    decreases s.len(),
{
    if s.len() > 0 {
        let prev = s.drop_last();
        let c = s.last();
        assert forall|i: int| 0 <= i < prev.len() && prev[i] == START_SEQ implies !(#[trigger] state_after(prev.take(i))).in_seq by {
            assert(prev.take(i) =~= s.take(i));
            assert(s[i] == prev[i]);
        }
        lemma_word_scan_whole(prev);
        lemma_word_scan_content(prev);
        let ws = word_scan(prev);
        let nw = word_scan(s);
        let n = ws.word.len() as int;
        let grown = ws.word.push(c);
        assert(grown.take(n) =~= ws.word);
        assert(grown[n] == c);
        assert(s.take(prev.len() as int) =~= prev);
        assert(s[prev.len() as int] == c);
        if !(role_of(ws.st, c) == MarkupRole::Plain && is_white_space(c)) {
            assert(nw.word == grown);
            assert(nw.words == ws.words);
            assert forall|i: int| 0 <= i < grown.len() implies !(role_at(grown, i) == MarkupRole::Plain && is_white_space(#[trigger] grown[i])) by {
                if i < n {
                    assert(grown.take(i) =~= ws.word.take(i));
                    assert(grown[i] == ws.word[i]);
                }
            }
            assert forall|i: int| 0 <= i < grown.len() && grown[i] == START_SEQ implies !(#[trigger] state_after(grown.take(i))).in_seq by {
                if i < n {
                    assert(grown.take(i) =~= ws.word.take(i));
                    assert(grown[i] == ws.word[i]);
                }
            }
        } else if ws.word.len() > 0 {
            assert(nw.word.len() == 0);
            assert forall|j: int| 0 <= j < nw.words.len() implies unbroken((#[trigger] nw.words[j]).0)
                && opens_outside(nw.words[j].0) by {
                if j < ws.words.len() {
                    assert(nw.words[j] == ws.words[j]);
                }
            }
        }
    }
}

#[verifier::spinoff_prover]
proof fn lemma_word_scan_unbroken(a: Seq<char>)
    requires
        unbroken(a),
        opens_outside(a),
    ensures
        word_scan(a).word == a,
        word_scan(a).words.len() == 0,
    decreases a.len(),
{
    if a.len() > 0 {
        let prev = a.drop_last();
        let n = prev.len() as int;
        assert forall|i: int| 0 <= i < prev.len() implies !(role_at(prev, i) == MarkupRole::Plain && is_white_space(#[trigger] prev[i])) by {
            assert(prev.take(i) =~= a.take(i));
            assert(a[i] == prev[i]);
        }
        assert forall|i: int| 0 <= i < prev.len() && prev[i] == START_SEQ implies !(#[trigger] state_after(prev.take(i))).in_seq by {
            assert(prev.take(i) =~= a.take(i));
            assert(a[i] == prev[i]);
        }
        lemma_word_scan_unbroken(prev);
        lemma_word_scan_content(prev);
        assert(a.take(n) =~= prev);
        assert(a[n] == a.last());
        assert(!(role_at(a, n) == MarkupRole::Plain && is_white_space(a[n])));
        assert(prev.push(a.last()) =~= a);
    }
}

proof fn lemma_word_scan_keeps_words(s: Seq<char>, t: Seq<char>)
    ensures
        word_scan(s).words.len() <= word_scan(s + t).words.len(),
        forall|j: int| 0 <= j < word_scan(s).words.len() ==> #[trigger] word_scan(s + t).words[j] == word_scan(s).words[j],
    decreases t.len(),
{
    if t.len() == 0 {
        assert(s + t =~= s);
    } else {
        lemma_word_scan_keeps_words(s, t.drop_last());
        assert((s + t).drop_last() =~= s + t.drop_last());
        assert((s + t).last() == t.last());
        let before = word_scan(s + t.drop_last());
        let after = word_scan(s + t);
        assert forall|j: int| 0 <= j < before.words.len() implies #[trigger] after.words[j] == before.words[j] by {
        }
    }
}

/// A word of balanced text read again at the start of a line, alone or
/// followed by a space, is split off whole with the same drawn characters.
#[verifier::spinoff_prover]
pub proof fn lemma_resplit_first_word(a: Seq<char>, rest: Seq<char>)
    requires
        a.len() > 0,
        unbroken(a),
        braces_balanced(a),
        rest.len() == 0 || rest[0] == ' ',
    ensures
        split_words(a + rest).len() > 0,
        split_words(a + rest)[0] == (a, content_chars(a)),
{
    lemma_word_scan_content(a);
    lemma_word_scan_unbroken(a);
    let ws = word_scan(a);
    assert(ws.st == initial_state());
    assert(ws.value.len() == 0);
    assert(ws.visual + ws.value =~= ws.visual);
    if rest.len() == 0 {
        assert(a + rest =~= a);
    } else {
        let s1 = a.push(' ');
        assert(s1.drop_last() =~= a);
        assert(s1.last() == ' ');
        assert(is_white_space(' '));
        assert(word_scan(s1).words =~= seq![(a, content_chars(a))]);
        lemma_word_scan_keeps_words(s1, rest.skip(1));
        assert(s1 + rest.skip(1) =~= a + rest);
        assert(word_scan(a + rest).words[0] == (a, content_chars(a)));
    }
}

/// Drawn length of a split word, in characters.
pub open spec fn word_len(p: (Seq<char>, Seq<char>)) -> int {
    p.1.len() as int
}

/// State of the line wrapper: finished lines with their drawn widths and the
/// widths of their first pieces, the line being filled, its drawn width and
/// the width of its first piece.
pub struct WrapState {
    pub lines: Seq<Seq<char>>,
    pub widths: Seq<int>,
    pub firsts: Seq<int>,
    pub cur: Seq<char>,
    pub cur_len: int,
    pub cur_first: int,
}

/// Places one word. A word that fits a line goes on the current line, after
/// a space, when the line can still take it, and otherwise starts a new
/// line. A word wider than a line starts a new line and is cut into pieces of
/// `max_width` drawn characters, each written with its own markup: a styled
/// sequence cut by a piece is closed at the end of the piece and opened again
/// with the same setting on the next (see `styled_chunks`, `render_styled`).
/// Each piece stands on a line of its own; the last stays open for the
/// words that follow.
pub open spec fn wrap_step(ws: WrapState, w: (Seq<char>, Seq<char>), max_width: int) -> WrapState {
    let wl = word_len(w);
    if wl <= max_width {
        let needs_space = ws.cur.len() > 0 && ws.cur_len > 0;
        let space = if needs_space { 1int } else { 0int };
        let flush = ws.cur_len + space + wl > max_width && ws.cur.len() > 0;
        let lines = if flush { ws.lines.push(ws.cur) } else { ws.lines };
        let widths = if flush { ws.widths.push(ws.cur_len) } else { ws.widths };
        let firsts = if flush { ws.firsts.push(ws.cur_first) } else { ws.firsts };
        let cur = if flush { Seq::empty() } else { ws.cur };
        let cur_len = if flush { 0int } else { ws.cur_len };
        let cur_first = if cur.len() == 0 { wl } else { ws.cur_first };
        let spaced = needs_space && cur_len > 0;
        let cur = if spaced { cur.push(' ') } else { cur };
        let cur_len = if spaced { cur_len + 1 } else { cur_len };
        WrapState { lines, widths, firsts, cur: cur + w.0, cur_len: cur_len + wl, cur_first }
    } else {
        let chunks = styled_chunks(styled_chars(w.0), max_width);
        let body = chunks.drop_last();
        let lines = if ws.cur.len() > 0 { ws.lines.push(ws.cur) } else { ws.lines };
        let widths = if ws.cur.len() > 0 { ws.widths.push(ws.cur_len) } else { ws.widths };
        let firsts = if ws.cur.len() > 0 { ws.firsts.push(ws.cur_first) } else { ws.firsts };
        WrapState {
            lines: lines + body.map_values(|c: Seq<(char, Option<Seq<char>>)>| render_styled(c)),
            widths: widths + body.map_values(|c: Seq<(char, Option<Seq<char>>)>| c.len() as int),
            firsts: firsts + body.map_values(|c: Seq<(char, Option<Seq<char>>)>| c.len() as int),
            cur: render_styled(chunks.last()),
            cur_len: chunks.last().len() as int,
            cur_first: chunks.last().len() as int,
        }
    }
}

pub open spec fn wrap_fold(words: Seq<(Seq<char>, Seq<char>)>, max_width: int) -> WrapState
    decreases words.len(),
{
    if words.len() == 0 {
        WrapState {
            lines: Seq::empty(),
            widths: Seq::empty(),
            firsts: Seq::empty(),
            cur: Seq::empty(),
            cur_len: 0,
            cur_first: 0,
        }
    } else {
        wrap_step(wrap_fold(words.drop_last(), max_width), words.last(), max_width)
    }
}

/// Lines joined by single spaces.
pub open spec fn join_words(parts: Seq<Seq<char>>) -> Seq<char>
    decreases parts.len(),
{
    if parts.len() == 0 {
        Seq::empty()
    } else if parts.len() == 1 {
        parts[0]
    } else {
        join_words(parts.drop_last()) + seq![' '] + parts.last()
    }
}

/// The texts of split words.
pub open spec fn word_texts(words: Seq<(Seq<char>, Seq<char>)>) -> Seq<Seq<char>> {
    words.map_values(|w: (Seq<char>, Seq<char>)| w.0)
}

/// The finished lines and the line being filled, if it holds anything.
pub open spec fn open_lines(f: WrapState) -> Seq<Seq<char>> {
    if f.cur.len() > 0 {
        f.lines.push(f.cur)
    } else {
        f.lines
    }
}

proof fn lemma_join_push(parts: Seq<Seq<char>>, x: Seq<char>)
    requires
        parts.len() > 0,
    ensures
        join_words(parts.push(x)) == join_words(parts) + seq![' '] + x,
{
    assert(parts.push(x).drop_last() =~= parts);
}

proof fn lemma_join_extend_last(lines: Seq<Seq<char>>, cur: Seq<char>, w: Seq<char>)
    ensures
        join_words(lines.push(cur.push(' ') + w)) == join_words(lines.push(cur)) + seq![' '] + w,
{
    if lines.len() == 0 {
        assert(lines.push(cur.push(' ') + w) =~= seq![cur.push(' ') + w]);
        assert(lines.push(cur) =~= seq![cur]);
        assert(cur.push(' ') + w =~= cur + seq![' '] + w);
    } else {
        lemma_join_push(lines, cur.push(' ') + w);
        lemma_join_push(lines, cur);
        assert(join_words(lines) + seq![' '] + (cur.push(' ') + w) =~= join_words(lines) + seq![' '] + cur + seq![' '] + w);
    }
}

/// Wrapping words of positive width that fit a line: the lines, joined by
/// spaces, spell the words joined by spaces, and the line being filled is not
/// empty.
proof fn lemma_wrap_fold_joins(words: Seq<(Seq<char>, Seq<char>)>, max_width: int)
    requires
        forall|j: int| 0 <= j < words.len() ==> (#[trigger] words[j]).0.len() > 0 && word_len(words[j]) > 0
            && word_len(words[j]) <= max_width,
    ensures
        join_words(open_lines(wrap_fold(words, max_width))) == join_words(word_texts(words)),
        words.len() > 0 ==> wrap_fold(words, max_width).cur.len() > 0 && wrap_fold(words, max_width).cur_len > 0,
        words.len() == 0 ==> wrap_fold(words, max_width).cur.len() == 0 && wrap_fold(words, max_width).lines.len() == 0,
    decreases words.len(),
{
    if words.len() > 0 {
        let prev = words.drop_last();
        let w = words.last();
        assert(forall|j: int| 0 <= j < prev.len() ==> prev[j] == words[j]);
        lemma_wrap_fold_joins(prev, max_width);
        let f = wrap_fold(prev, max_width);
        assert(word_texts(words) =~= word_texts(prev).push(w.0));
        assert(w == words[words.len() - 1]);
        if prev.len() == 0 {
            assert(word_texts(prev).len() == 0);
            assert(word_texts(words) =~= seq![w.0]);
            assert(open_lines(wrap_fold(words, max_width)) =~= seq![w.0]);
        } else {
            assert(word_texts(prev).len() > 0);
            lemma_join_push(word_texts(prev), w.0);
            let space = 1int;
            if f.cur_len + space + word_len(w) > max_width {
                assert(wrap_fold(words, max_width).cur =~= w.0);
                assert(open_lines(wrap_fold(words, max_width)) =~= open_lines(f).push(w.0));
                lemma_join_push(open_lines(f), w.0);
            } else {
                assert(open_lines(wrap_fold(words, max_width)) =~= f.lines.push(f.cur.push(' ') + w.0));
                lemma_join_extend_last(f.lines, f.cur, w.0);
            }
        }
    }
}

/// Wrapping loses no word and reorders none: for text whose words all have a
/// positive drawn width that fits a line, the lines joined by single spaces
/// are the words joined by single spaces. (A wider word is broken into
/// chunks that spell it: `lemma_break_chunks_spell_word`.)
pub proof fn lemma_wrap_keeps_words(text: Seq<char>, max_width: int)
    requires
        max_width > 0,
        forall|j: int| 0 <= j < split_words(text).len() ==> 0 < word_len(#[trigger] split_words(text)[j]) <= max_width,
    ensures
        join_words(wrapped_lines(text, max_width)) == join_words(word_texts(split_words(text))),
{
    let words = split_words(text);
    lemma_split_words_nonempty(text);
    lemma_wrap_fold_joins(words, max_width);
    let f = wrap_fold(words, max_width);
    if open_lines(f).len() == 0 && text.len() > 0 {
        assert(words.len() == 0);
        assert(word_texts(words).len() == 0);
        assert(join_words(seq![Seq::<char>::empty()]) =~= Seq::<char>::empty());
    }
}

/// The drawn widths of the lines that `text` wraps into.
pub open spec fn wrapped_widths(text: Seq<char>, max_width: int) -> Seq<int> {
    if max_width == 0 {
        Seq::empty()
    } else {
        let f = wrap_fold(split_words(text), max_width);
        let lines = if f.cur.len() > 0 { f.lines.push(f.cur) } else { f.lines };
        let widths = if f.cur.len() > 0 { f.widths.push(f.cur_len) } else { f.widths };
        if lines.len() == 0 && text.len() > 0 {
            seq![0int]
        } else {
            widths
        }
    }
}

proof fn lemma_wrap_fold_fits(words: Seq<(Seq<char>, Seq<char>)>, max_width: int)
    requires
        max_width >= 1,
        forall|j: int| 0 <= j < words.len() ==> (#[trigger] words[j]).0.len() > 0,
    ensures
        ({
            let f = wrap_fold(words, max_width);
            &&& f.lines.len() == f.widths.len()
            &&& f.cur.len() == 0 ==> f.cur_len == 0
            &&& 0 <= f.cur_len <= max_width
            &&& forall|i: int| 0 <= i < f.widths.len() ==> #[trigger] f.widths[i] <= max_width
        }),
    decreases words.len(),
{
    if words.len() > 0 {
        let prev = words.drop_last();
        let w = words.last();
        assert(forall|j: int| 0 <= j < prev.len() ==> prev[j] == words[j]);
        lemma_wrap_fold_fits(prev, max_width);
        let f = wrap_fold(prev, max_width);
        let g = wrap_fold(words, max_width);
        assert(w == words[words.len() - 1]);
        if word_len(w) <= max_width {
            let needs_space = f.cur.len() > 0 && f.cur_len > 0;
            let space = if needs_space { 1int } else { 0int };
            let flush = f.cur_len + space + word_len(w) > max_width && f.cur.len() > 0;
            assert forall|i: int| 0 <= i < g.widths.len() implies #[trigger] g.widths[i] <= max_width by {
                if i < f.widths.len() {
                    assert(g.widths[i] == f.widths[i]);
                }
            }
            assert(g.cur.len() > 0);
        } else {
            let chunks = styled_chunks(styled_chars(w.0), max_width);
            lemma_styled_chunks(styled_chars(w.0), max_width);
            let body = chunks.drop_last();
            let widths0 = if f.cur.len() > 0 { f.widths.push(f.cur_len) } else { f.widths };
            assert(g.widths == widths0 + body.map_values(|c: Seq<(char, Option<Seq<char>>)>| c.len() as int));
            assert forall|i: int| 0 <= i < g.widths.len() implies #[trigger] g.widths[i] <= max_width by {
                if i < widths0.len() {
                    if i < f.widths.len() {
                        assert(widths0[i] == f.widths[i]);
                    }
                } else {
                    assert(g.widths[i] == body[i - widths0.len()].len());
                    assert(body[i - widths0.len()] == chunks[i - widths0.len()]);
                }
            }
            let last = chunks[chunks.len() - 1];
            assert(chunks.last() == last);
            if last.len() > 0 {
                assert(render_styled(last).len() > 0);
            }
        }
    }
}

/// The words have a drawn length that is their width, close the sequences
/// they open, and are not empty.
pub open spec fn drawn_words(words: Seq<(Seq<char>, Seq<char>)>) -> bool {
    forall|j: int|
        0 <= j < words.len() ==> {
            &&& (#[trigger] words[j]).0.len() > 0
            &&& content_chars(words[j].0) == words[j].1
            &&& state_after(words[j].0) == initial_state()
        }
}

proof fn lemma_wrap_fold_drawn(words: Seq<(Seq<char>, Seq<char>)>, max_width: int)
    requires
        max_width >= 1,
        drawn_words(words),
    ensures
        ({
            let f = wrap_fold(words, max_width);
            &&& f.lines.len() == f.widths.len()
            &&& forall|i: int| 0 <= i < f.lines.len() ==> content_chars(#[trigger] f.lines[i]).len() == f.widths[i]
                && state_after(f.lines[i]) == initial_state()
            &&& content_chars(f.cur).len() == f.cur_len
            &&& state_after(f.cur) == initial_state()
        }),
    decreases words.len(),
{
    if words.len() > 0 {
        let prev = words.drop_last();
        let w = words.last();
        assert(forall|j: int| 0 <= j < prev.len() ==> prev[j] == words[j]);
        assert(w == words[words.len() - 1]);
        lemma_wrap_fold_drawn(prev, max_width);
        let f = wrap_fold(prev, max_width);
        let g = wrap_fold(words, max_width);
        let wl = word_len(w);
        if wl <= max_width {
            let needs_space = f.cur.len() > 0 && f.cur_len > 0;
            let space = if needs_space { 1int } else { 0int };
            let flush = f.cur_len + space + wl > max_width && f.cur.len() > 0;
            assert forall|i: int| 0 <= i < g.lines.len() implies content_chars(#[trigger] g.lines[i]).len() == g.widths[i]
                && state_after(g.lines[i]) == initial_state() by {
                if i < f.lines.len() {
                    assert(g.lines[i] == f.lines[i]);
                    assert(g.widths[i] == f.widths[i]);
                }
            }
            if flush || f.cur.len() == 0 {
                assert(g.cur =~= w.0);
            } else if needs_space {
                let sp = f.cur.push(' ');
                assert(g.cur == sp + w.0);
                assert(sp.drop_last() =~= f.cur);
                assert(sp.last() == ' ');
                assert(state_after(sp) == initial_state());
                assert(content_chars(sp) == content_chars(f.cur).push(' '));
                lemma_content_concat(sp, w.0);
            } else {
                assert(g.cur == f.cur + w.0);
                lemma_content_concat(f.cur, w.0);
            }
        } else {
            let cells = styled_chars(w.0);
            let chunks = styled_chunks(cells, max_width);
            lemma_styled_chars_valid(w.0);
            lemma_chunks_valid(cells, max_width);
            lemma_styled_chunks(cells, max_width);
            let body = chunks.drop_last();
            let lines0 = if f.cur.len() > 0 { f.lines.push(f.cur) } else { f.lines };
            let widths0 = if f.cur.len() > 0 { f.widths.push(f.cur_len) } else { f.widths };
            assert(g.lines == lines0 + body.map_values(|c: Seq<(char, Option<Seq<char>>)>| render_styled(c)));
            assert(g.widths == widths0 + body.map_values(|c: Seq<(char, Option<Seq<char>>)>| c.len() as int));
            assert forall|i: int| 0 <= i < g.lines.len() implies content_chars(#[trigger] g.lines[i]).len() == g.widths[i]
                && state_after(g.lines[i]) == initial_state() by {
                if i < lines0.len() {
                    if i < f.lines.len() {
                        assert(lines0[i] == f.lines[i]);
                        assert(widths0[i] == f.widths[i]);
                    }
                } else {
                    let k = i - lines0.len();
                    assert(body[k] == chunks[k]);
                    assert(g.lines[i] == render_styled(chunks[k]));
                    assert(g.widths[i] == chunks[k].len());
                    lemma_render_draws(chunks[k]);
                }
            }
            let last = chunks[chunks.len() - 1];
            assert(chunks.last() == last);
            lemma_render_draws(last);
        }
    }
}

/// What a wrapped line draws is its width: for text whose braces are
/// balanced, every line draws exactly as many characters as its width, which
/// is at most `max_width`, pieces of long words included, and closes every
/// styled sequence it opens.
pub proof fn lemma_wrap_lines_drawn(text: Seq<char>, max_width: int)
    requires
        max_width > 0,
        braces_balanced(text),
    ensures
        forall|i: int| 0 <= i < wrapped_lines(text, max_width).len() ==> content_chars(
            #[trigger] wrapped_lines(text, max_width)[i],
        ).len() == wrapped_widths(text, max_width)[i] && wrapped_widths(text, max_width)[i] <= max_width
            && state_after(wrapped_lines(text, max_width)[i]) == initial_state(),
{
    let words = split_words(text);
    lemma_split_words_nonempty(text);
    lemma_split_words_drawn(text);
    lemma_wrap_lines_fit(text, max_width);
    assert(drawn_words(words));
    lemma_wrap_fold_drawn(words, max_width);
    let f = wrap_fold(words, max_width);
    let lines = wrapped_lines(text, max_width);
    let widths = wrapped_widths(text, max_width);
    assert forall|i: int| 0 <= i < lines.len() implies content_chars(#[trigger] lines[i]).len() == widths[i]
        && state_after(lines[i]) == initial_state() by {
        if i < f.lines.len() {
            assert(lines[i] == f.lines[i]);
            assert(widths[i] == f.widths[i]);
        } else if f.cur.len() > 0 {
            assert(lines[i] == f.cur);
        } else {
            assert(lines[i] == Seq::<char>::empty());
        }
    }
}

/// Cutting a word wider than a line keeps its formatting: the pieces draw
/// exactly the word's drawn characters, in order, each with the setting of
/// its sequence, and every piece draws between one and `max_width` of them.
pub proof fn lemma_long_word_pieces(word: Seq<char>, max_width: int)
    requires
        max_width >= 1,
    ensures
        join_chunks(styled_chunks(styled_chars(word), max_width)) == styled_chars(word),
        forall|i: int| 0 <= i < styled_chunks(styled_chars(word), max_width).len() ==> {
            let piece = #[trigger] styled_chunks(styled_chars(word), max_width)[i];
            &&& styled_chars(render_styled(piece)) == piece
            &&& content_chars(render_styled(piece)).len() == piece.len()
            &&& piece.len() <= max_width
            &&& state_after(render_styled(piece)) == initial_state()
        },
{
    let cells = styled_chars(word);
    lemma_styled_chars_valid(word);
    lemma_chunks_valid(cells, max_width);
    lemma_styled_chunks(cells, max_width);
    assert forall|i: int| 0 <= i < styled_chunks(cells, max_width).len() implies {
        let piece = #[trigger] styled_chunks(cells, max_width)[i];
        &&& styled_chars(render_styled(piece)) == piece
        &&& content_chars(render_styled(piece)).len() == piece.len()
        &&& piece.len() <= max_width
        &&& state_after(render_styled(piece)) == initial_state()
    } by {
        lemma_render_draws(styled_chunks(cells, max_width)[i]);
    }
}

/// Wrapped lines fit: every line is at most `max_width` characters wide. A
/// line's width counts the drawn characters of its words and the spaces
/// between them; a line holding a chunk of a word wider than a line counts
/// the chunk's characters other than the markup characters `{`, `|`, `}`.
pub proof fn lemma_wrap_lines_fit(text: Seq<char>, max_width: int)
    requires
        max_width > 0,
    ensures
        wrapped_widths(text, max_width).len() == wrapped_lines(text, max_width).len(),
        forall|i: int| 0 <= i < wrapped_widths(text, max_width).len() ==> #[trigger] wrapped_widths(text, max_width)[i]
            <= max_width,
{
    let words = split_words(text);
    lemma_split_words_nonempty(text);
    lemma_wrap_fold_fits(words, max_width);
    let f = wrap_fold(words, max_width);
    let widths = wrapped_widths(text, max_width);
    assert forall|i: int| 0 <= i < widths.len() implies #[trigger] widths[i] <= max_width by {
        if i < f.widths.len() {
            assert(widths[i] == f.widths[i]);
        }
    }
}

/// `line` begins with the text of one of `words`, whose drawn width is
/// `width`, followed by a space or the end of the line.
pub open spec fn begins_with_word(words: Seq<(Seq<char>, Seq<char>)>, line: Seq<char>, width: int) -> bool {
    exists|j: int| #[trigger] word_begins(words, line, width, j)
}

/// `line` begins with the text of `words[j]`, whose drawn width is `width`,
/// followed by a space or the end of the line.
pub open spec fn word_begins(words: Seq<(Seq<char>, Seq<char>)>, line: Seq<char>, width: int, j: int) -> bool {
    &&& 0 <= j < words.len()
    &&& words[j].0.len() <= line.len()
    &&& line.take(words[j].0.len() as int) == words[j].0
    &&& width == word_len(words[j])
    &&& (line.len() == words[j].0.len() || line[words[j].0.len() as int] == ' ')
}

/// The words fit a line, have a positive width that is their drawn length,
/// and close the sequences they open.
pub open spec fn fitting_words(words: Seq<(Seq<char>, Seq<char>)>, max_width: int) -> bool {
    forall|j: int|
        0 <= j < words.len() ==> {
            &&& (#[trigger] words[j]).0.len() > 0
            &&& 0 < word_len(words[j]) <= max_width
            &&& content_chars(words[j].0) == words[j].1
            &&& state_after(words[j].0) == initial_state()
        }
}

proof fn lemma_wrap_fold_greedy(words: Seq<(Seq<char>, Seq<char>)>, max_width: int)
    requires
        max_width > 0,
        fitting_words(words, max_width),
    ensures
        ({
            let f = wrap_fold(words, max_width);
            &&& f.lines.len() == f.widths.len()
            &&& f.lines.len() == f.firsts.len()
            &&& forall|i: int| 0 <= i < f.lines.len() ==> {
                &&& content_chars(#[trigger] f.lines[i]).len() == f.widths[i]
                &&& state_after(f.lines[i]) == initial_state()
                &&& begins_with_word(words, f.lines[i], f.firsts[i])
            }
            &&& forall|i: int| 0 <= i && i + 1 < f.lines.len() ==> #[trigger] f.widths[i] + 1 + f.firsts[i + 1] > max_width
            &&& words.len() == 0 ==> f.lines.len() == 0 && f.cur.len() == 0 && f.cur_len == 0
            &&& words.len() > 0 ==> {
                &&& f.cur.len() > 0
                &&& f.cur_len > 0
                &&& content_chars(f.cur).len() == f.cur_len
                &&& state_after(f.cur) == initial_state()
                &&& begins_with_word(words, f.cur, f.cur_first)
                &&& f.lines.len() > 0 ==> f.widths.last() + 1 + f.cur_first > max_width
            }
        }),
    decreases words.len(),
{
    if words.len() > 0 {
        let prev = words.drop_last();
        let w = words.last();
        assert(forall|j: int| 0 <= j < prev.len() ==> prev[j] == words[j]);
        assert(w == words[words.len() - 1]);
        lemma_wrap_fold_greedy(prev, max_width);
        let f = wrap_fold(prev, max_width);
        let g = wrap_fold(words, max_width);
        assert forall|line: Seq<char>, width: int| begins_with_word(prev, line, width) implies begins_with_word(words, line, width) by {
            let j = choose|j: int| #[trigger] word_begins(prev, line, width, j);
            assert(words[j] == prev[j]);
            assert(word_begins(words, line, width, j));
        }
        let wl = word_len(w);
        assert(w.0.take(w.0.len() as int) =~= w.0);
        assert(word_begins(words, w.0, wl, words.len() - 1));
        if prev.len() == 0 {
            assert(g.cur =~= w.0);
        } else {
            let flush = f.cur_len + 1 + wl > max_width;
            if flush {
                assert(g.cur =~= w.0);
                assert forall|i: int| 0 <= i < g.lines.len() implies {
                    &&& content_chars(#[trigger] g.lines[i]).len() == g.widths[i]
                    &&& state_after(g.lines[i]) == initial_state()
                    &&& begins_with_word(words, g.lines[i], g.firsts[i])
                } by {
                    if i < f.lines.len() {
                        assert(g.lines[i] == f.lines[i]);
                        assert(g.widths[i] == f.widths[i]);
                        assert(g.firsts[i] == f.firsts[i]);
                    }
                }
                assert forall|i: int| 0 <= i && i + 1 < g.lines.len() implies #[trigger] g.widths[i] + 1 + g.firsts[i + 1] > max_width by {
                    assert(g.widths[i] == f.widths[i]);
                    if i + 1 < f.lines.len() {
                        assert(g.firsts[i + 1] == f.firsts[i + 1]);
                    } else {
                        assert(f.widths.last() == f.widths[i]);
                    }
                }
            } else {
                let sp = f.cur.push(' ');
                assert(g.cur == sp + w.0);
                assert(sp.drop_last() =~= f.cur);
                assert(sp.last() == ' ');
                assert(state_after(sp) == initial_state());
                assert(content_chars(sp) == content_chars(f.cur).push(' '));
                lemma_content_concat(sp, w.0);
                let j = choose|j: int| #[trigger] word_begins(words, f.cur, f.cur_first, j);
                let k = words[j].0.len() as int;
                assert(g.cur.take(k) =~= f.cur.take(k));
                assert(g.cur[k] == ' ');
                assert(word_begins(words, g.cur, g.cur_first, j));
            }
        }
    }
}

/// The widths of the first pieces of the lines that `text` wraps into.
pub open spec fn wrapped_firsts(text: Seq<char>, max_width: int) -> Seq<int> {
    if max_width == 0 {
        Seq::empty()
    } else {
        let f = wrap_fold(split_words(text), max_width);
        let lines = if f.cur.len() > 0 { f.lines.push(f.cur) } else { f.lines };
        let firsts = if f.cur.len() > 0 { f.firsts.push(f.cur_first) } else { f.firsts };
        if lines.len() == 0 && text.len() > 0 {
            seq![0int]
        } else {
            firsts
        }
    }
}

/// Wrapping is greedy, and a line's width is what it draws: for text whose
/// braces are balanced and whose words all fit a line, every line draws as
/// many characters as its width (so at most `max_width`), begins with a word
/// whose width is recorded in `wrapped_firsts`, and could not also have
/// taken the first word of the next line after a space.
pub proof fn lemma_wrap_greedy(text: Seq<char>, max_width: int)
    requires
        max_width > 0,
        braces_balanced(text),
        forall|j: int| 0 <= j < split_words(text).len() ==> 0 < word_len(#[trigger] split_words(text)[j]) <= max_width,
    ensures
        ({
            let lines = wrapped_lines(text, max_width);
            let widths = wrapped_widths(text, max_width);
            let firsts = wrapped_firsts(text, max_width);
            &&& widths.len() == lines.len() && firsts.len() == lines.len()
            &&& forall|i: int| 0 <= i < lines.len() ==> content_chars(#[trigger] lines[i]).len() == widths[i]
                && widths[i] <= max_width
            &&& split_words(text).len() > 0 ==> forall|i: int| 0 <= i < lines.len() ==> begins_with_word(
                split_words(text),
                #[trigger] lines[i],
                firsts[i],
            )
            &&& forall|i: int| 0 <= i && i + 1 < lines.len() ==> #[trigger] widths[i] + 1 + firsts[i + 1] > max_width
        }),
{
    let words = split_words(text);
    lemma_split_words_nonempty(text);
    lemma_split_words_drawn(text);
    lemma_wrap_lines_fit(text, max_width);
    assert(fitting_words(words, max_width));
    lemma_wrap_fold_greedy(words, max_width);
    let f = wrap_fold(words, max_width);
    let lines = wrapped_lines(text, max_width);
    let widths = wrapped_widths(text, max_width);
    let firsts = wrapped_firsts(text, max_width);
    if words.len() == 0 {
        if text.len() > 0 {
            assert(content_chars(Seq::<char>::empty()).len() == 0);
            assert(lines[0] == Seq::<char>::empty());
        }
    } else {
        assert forall|i: int| 0 <= i < lines.len() implies content_chars(#[trigger] lines[i]).len() == widths[i]
            && begins_with_word(words, lines[i], firsts[i]) by {
            if i < f.lines.len() {
                assert(lines[i] == f.lines[i]);
                assert(widths[i] == f.widths[i]);
                assert(firsts[i] == f.firsts[i]);
            }
        }
        assert forall|i: int| 0 <= i && i + 1 < lines.len() implies #[trigger] widths[i] + 1 + firsts[i + 1] > max_width by {
            assert(widths[i] == f.widths[i]);
            if i + 1 < f.lines.len() {
                assert(firsts[i + 1] == f.firsts[i + 1]);
            } else {
                assert(f.widths.last() == f.widths[i]);
            }
        }
    }
}

/// Every word split from text whose braces are balanced is whole: it holds
/// no breaking whitespace and its own braces are balanced.
pub proof fn lemma_split_words_whole(text: Seq<char>)
    requires
        braces_balanced(text),
    ensures
        forall|j: int| 0 <= j < split_words(text).len() ==> unbroken((#[trigger] split_words(text)[j]).0)
            && braces_balanced(split_words(text)[j].0),
{
    lemma_word_scan_whole(text);
    lemma_split_words_drawn(text);
    let ws = word_scan(text);
    let words = split_words(text);
    assert forall|j: int| 0 <= j < words.len() implies unbroken((#[trigger] words[j]).0) && braces_balanced(words[j].0) by {
        if j < ws.words.len() {
            assert(words[j] == ws.words[j]);
        }
    }
}

#[verifier::spinoff_prover]
proof fn lemma_line_resplits(words: Seq<(Seq<char>, Seq<char>)>, line: Seq<char>, width: int)
    requires
        begins_with_word(words, line, width),
        forall|j: int| 0 <= j < words.len() ==> {
            &&& (#[trigger] words[j]).0.len() > 0
            &&& unbroken(words[j].0)
            &&& braces_balanced(words[j].0)
            &&& words[j].1 == content_chars(words[j].0)
        },
    ensures
        split_words(line).len() > 0,
        word_len(split_words(line)[0]) == width,
{
    let j = choose|j: int| #[trigger] word_begins(words, line, width, j);
    let a = words[j].0;
    let rest = line.skip(a.len() as int);
    assert(line =~= a + rest);
    if rest.len() > 0 {
        assert(rest[0] == line[a.len() as int]);
    }
    lemma_resplit_first_word(a, rest);
    assert(split_words(line) == split_words(a + rest));
}

/// Wrapping is greedy as a reader sees it: for text whose braces are
/// balanced and whose words all have a positive width that fits a line,
/// splitting any line again gives as its first word one of the width that
/// `wrapped_firsts` records, and no line could also have taken, after a
/// space, the first word of the line after it.
#[verifier::spinoff_prover]
pub proof fn lemma_wrap_greedy_resplit(text: Seq<char>, max_width: int)
    requires
        max_width > 0,
        braces_balanced(text),
        forall|j: int| 0 <= j < split_words(text).len() ==> 0 < word_len(#[trigger] split_words(text)[j]) <= max_width,
    ensures
        ({
            let lines = wrapped_lines(text, max_width);
            &&& split_words(text).len() > 0 ==> forall|i: int| 0 <= i < lines.len() ==> {
                &&& split_words(#[trigger] lines[i]).len() > 0
                &&& word_len(split_words(lines[i])[0]) == wrapped_firsts(text, max_width)[i]
            }
            &&& forall|i: int| 0 <= i && i + 1 < lines.len() ==> {
                &&& split_words(#[trigger] lines[i + 1]).len() > 0
                &&& content_chars(lines[i]).len() + 1 + word_len(split_words(lines[i + 1])[0]) > max_width
            }
        }),
{
    let words = split_words(text);
    let lines = wrapped_lines(text, max_width);
    let firsts = wrapped_firsts(text, max_width);
    let widths = wrapped_widths(text, max_width);
    lemma_wrap_greedy(text, max_width);
    lemma_split_words_whole(text);
    lemma_split_words_drawn(text);
    lemma_split_words_nonempty(text);
    if words.len() > 0 {
        assert forall|i: int| 0 <= i < lines.len() implies {
            &&& split_words(#[trigger] lines[i]).len() > 0
            &&& word_len(split_words(lines[i])[0]) == firsts[i]
        } by {
            lemma_line_resplits(words, lines[i], firsts[i]);
        }
    } else {
        assert(lines.len() <= 1);
    }
    assert forall|i: int| 0 <= i && i + 1 < lines.len() implies {
        &&& split_words(#[trigger] lines[i + 1]).len() > 0
        &&& content_chars(lines[i]).len() + 1 + word_len(split_words(lines[i + 1])[0]) > max_width
    } by {
        assert(words.len() > 0);
        assert(content_chars(lines[i]).len() == widths[i]);
        assert(widths[i] + 1 + firsts[i + 1] > max_width);
    }
}

/// The lines that `text` wraps into at width `max_width`.
pub open spec fn wrapped_lines(text: Seq<char>, max_width: int) -> Seq<Seq<char>> {
    if max_width == 0 {
        Seq::empty()
    } else {
        let f = wrap_fold(split_words(text), max_width);
        let lines = if f.cur.len() > 0 { f.lines.push(f.cur) } else { f.lines };
        if lines.len() == 0 && text.len() > 0 {
            seq![Seq::<char>::empty()]
        } else {
            lines
        }
    }
}

/// Wraps text to fit within the given width, preserving formatting: every
/// line is at most `max_width` characters wide (see `wrapped_widths`), and
/// for text whose braces are balanced that is what it draws, and every line
/// closes the styled sequences it opens. A word wider than a line is cut
/// into pieces that each close the styled sequences they cut and open them
/// again with the same setting (`lemma_long_word_pieces`). When every word
/// fits a line, the lines joined by spaces are the words joined by spaces,
/// and the wrapping is greedy: no line could also take the first word of the
/// next one.
pub fn wrap_text(text: &str, max_width: usize) -> (lines: Vec<String>)
    ensures
        lines@.len() == wrapped_lines(text@, max_width as int).len(),
        forall|i: int| 0 <= i < lines@.len() ==> (#[trigger] lines@[i])@ == wrapped_lines(text@, max_width as int)[i],
        wrapped_widths(text@, max_width as int).len() == lines@.len(),
        forall|i: int| 0 <= i < lines@.len() ==> #[trigger] wrapped_widths(text@, max_width as int)[i] <= max_width,
        max_width > 0 && braces_balanced(text@) ==> forall|i: int| 0 <= i < lines@.len() ==> content_chars(
            (#[trigger] lines@[i])@,
        ).len() == wrapped_widths(text@, max_width as int)[i] && content_chars(lines@[i]@).len() <= max_width
            && state_after(lines@[i]@) == initial_state(),
        max_width > 0 && (forall|j: int| 0 <= j < split_words(text@).len() ==> 0 < word_len(
            #[trigger] split_words(text@)[j],
        ) <= max_width) ==> join_words(lines@.map_values(|l: String| l@)) == join_words(
            word_texts(split_words(text@)),
        ),
        max_width > 0 && braces_balanced(text@) && (forall|j: int| 0 <= j < split_words(text@).len() ==> 0 < word_len(
            #[trigger] split_words(text@)[j],
        ) <= max_width) ==> forall|i: int| 0 <= i && i + 1 < lines@.len() ==> {
            &&& split_words((#[trigger] lines@[i + 1])@).len() > 0
            &&& content_chars(lines@[i]@).len() + 1 + word_len(split_words(lines@[i + 1]@)[0]) > max_width
        },
{
    let mut lines: Vec<String> = Vec::new();
    if max_width == 0 {
        return lines;
    }
    proof {
        lemma_wrap_lines_fit(text@, max_width as int);
    }
    let words = split_formatted_text_into_words(text);
    let ghost spec_words = split_words(text@);
    proof {
        lemma_split_words_nonempty(text@);
    }
    let mut cur: Vec<char> = Vec::new();
    let mut cur_len: usize = 0;
    let mut k: usize = 0;
    while k < words.len()
        invariant
            0 <= k <= words.len(),
            spec_words == split_words(text@),
            words@.len() == spec_words.len(),
            forall|j: int| 0 <= j < words@.len() ==> word_matches(#[trigger] words@[j], spec_words[j]),
            forall|j: int| 0 <= j < spec_words.len() ==> (#[trigger] spec_words[j]).0.len() > 0,
            max_width > 0,
            cur@.len() == 0 ==> cur_len == 0,
            ({
                let f = wrap_fold(spec_words.take(k as int), max_width as int);
                &&& f.cur == cur@
                &&& f.cur_len == cur_len as int
                &&& f.lines.len() == lines@.len()
                &&& forall|j: int| 0 <= j < lines@.len() ==> (#[trigger] lines@[j])@ == f.lines[j]
            }),
        decreases words.len() - k,
    {
        let word = &words[k];
        assert(spec_words.take(k + 1).drop_last() =~= spec_words.take(k as int));
        assert(word_matches(words@[k as int], spec_words[k as int]));
        let ghost f = wrap_fold(spec_words.take(k as int), max_width as int);
        let ghost w = spec_words[k as int];
        assert(spec_words.take(k + 1).last() == w);
        let wl = word.visual_length;
        if wl <= max_width {
            let needs_space = cur.len() > 0 && cur_len > 0;
            let space: usize = if needs_space { 1 } else { 0 };
            if (cur_len as u128) + (space as u128) + (wl as u128) > (max_width as u128) && cur.len() > 0 {
                let line = string_from_chars(&cur);
                lines.push(line);
                cur = Vec::new();
                cur_len = 0;
            }
            if needs_space && cur_len > 0 {
                cur.push(' ');
                cur_len = cur_len + 1;
            }
            let mut text_chars = chars_of(word.text.as_str());
            cur.append(&mut text_chars);
            cur_len = cur_len + wl;
        } else {
            if cur.len() > 0 {
                let line = string_from_chars(&cur);
                lines.push(line);
            }
            let ghost lines0 = lines@;
            let wchars = chars_of(word.text.as_str());
            let cells = styled_chars_of(&wchars);
            let ghost view = cells_view(cells@);
            let ghost chunks = styled_chunks(view, max_width as int);
            assert(view == styled_chars(w.0));
            let n = cells.len();
            let mut lo: usize = 0;
            let ghost mut done: Seq<Seq<(char, Option<Seq<char>>)>> = Seq::empty();
            assert(view.subrange(0, n as int) =~= view);
            assert(done + styled_chunks(view, max_width as int) =~= styled_chunks(view, max_width as int));
            while n - lo > max_width
                invariant
                    lo <= n,
                    n == cells@.len(),
                    max_width > 0,
                    view == cells_view(cells@),
                    chunks == styled_chunks(view, max_width as int),
                    chunks == done + styled_chunks(view.subrange(lo as int, n as int), max_width as int),
                    lines@.len() == lines0.len() + done.len(),
                    forall|i: int| 0 <= i < lines0.len() ==> #[trigger] lines@[i] == lines0[i],
                    forall|i: int| 0 <= i < done.len() ==> (#[trigger] lines@[lines0.len() + i])@ == render_styled(done[i]),
                decreases n - lo,
            {
                let hi = lo + max_width;
                let piece = render_range(&cells, lo, hi);
                let line = string_from_chars(&piece);
                lines.push(line);
                proof {
                    let sub = view.subrange(lo as int, n as int);
                    assert(sub.take(max_width as int) =~= view.subrange(lo as int, hi as int));
                    assert(sub.skip(max_width as int) =~= view.subrange(hi as int, n as int));
                    assert(styled_chunks(sub, max_width as int) == seq![sub.take(max_width as int)] + styled_chunks(
                        sub.skip(max_width as int),
                        max_width as int,
                    ));
                    assert(done + styled_chunks(sub, max_width as int) =~= done.push(sub.take(max_width as int))
                        + styled_chunks(view.subrange(hi as int, n as int), max_width as int));
                    done = done.push(sub.take(max_width as int));
                }
                lo = hi;
            }
            let last = render_range(&cells, lo, n);
            cur = last;
            cur_len = n - lo;
            proof {
                let sub = view.subrange(lo as int, n as int);
                assert(styled_chunks(sub, max_width as int) == seq![sub]);
                assert(chunks =~= done.push(sub));
                assert(chunks.drop_last() =~= done);
                assert(chunks.last() == sub);
                let g = wrap_fold(spec_words.take(k + 1), max_width as int);
                let old_lines = if f.cur.len() > 0 { f.lines.push(f.cur) } else { f.lines };
                assert(g.lines == old_lines + done.map_values(|c: Seq<(char, Option<Seq<char>>)>| render_styled(c)));
                assert(lines0.len() == old_lines.len());
                assert forall|i: int| 0 <= i < lines@.len() implies (#[trigger] lines@[i])@ == g.lines[i] by {
                    if i < lines0.len() {
                        assert(lines@[i] == lines0[i]);
                        if i < f.lines.len() {
                            assert(old_lines[i] == f.lines[i]);
                        }
                    } else {
                        assert((lines@[lines0.len() + (i - lines0.len())])@ == render_styled(done[i - lines0.len()]));
                    }
                }
                assert(cur@ == g.cur);
                assert(cur_len as int == g.cur_len);
                if cur@.len() == 0 {
                    assert(sub.len() == 0) by {
                        if sub.len() > 0 {
                            assert(render_styled(sub).len() > 0);
                        }
                    }
                }
            }
        }
        k = k + 1;
    }
    assert(spec_words.take(k as int) =~= spec_words);
    if cur.len() > 0 {
        let line = string_from_chars(&cur);
        lines.push(line);
    }
    if lines.len() == 0 && !text.is_empty() {
        lines.push(String::new());
    }
    proof {
        assert(lines@.len() == wrapped_lines(text@, max_width as int).len());
        assert(forall|i: int| 0 <= i < lines@.len() ==> (#[trigger] lines@[i])@ == wrapped_lines(text@, max_width as int)[i]);
        if braces_balanced(text@) {
            lemma_wrap_lines_drawn(text@, max_width as int);
            assert forall|i: int| 0 <= i < lines@.len() implies content_chars((#[trigger] lines@[i])@).len()
                == wrapped_widths(text@, max_width as int)[i] && content_chars(lines@[i]@).len() <= max_width
                && state_after(lines@[i]@) == initial_state() by {
                assert(lines@[i]@ == wrapped_lines(text@, max_width as int)[i]);
            }
        }
        assert(lines@.map_values(|l: String| l@) =~= wrapped_lines(text@, max_width as int));
        if forall|j: int| 0 <= j < split_words(text@).len() ==> 0 < word_len(#[trigger] split_words(text@)[j]) <= max_width {
            lemma_wrap_keeps_words(text@, max_width as int);
            if braces_balanced(text@) {
                lemma_wrap_greedy_resplit(text@, max_width as int);
                assert forall|i: int| 0 <= i && i + 1 < lines@.len() implies {
                    &&& split_words((#[trigger] lines@[i + 1])@).len() > 0
                    &&& content_chars(lines@[i]@).len() + 1 + word_len(split_words(lines@[i + 1]@)[0]) > max_width
                } by {
                    assert(lines@[i]@ == wrapped_lines(text@, max_width as int)[i]);
                    assert(lines@[i + 1]@ == wrapped_lines(text@, max_width as int)[i + 1]);
                }
            }
        }
    }
    lines
}

/// The characters of an optional string.
pub open spec fn opt_chars(o: Option<String>) -> Option<Seq<char>> {
    match o {
        Some(s) => Some(s@),
        None => None,
    }
}

fn clone_opt_string(o: &Option<String>) -> (r: Option<String>)
    ensures
        opt_chars(r) == opt_chars(*o),
{
    match o {
        Some(s) => Some(s.clone()),
        None => None,
    }
}

pub open spec fn is_markup_char(c: char) -> bool {
    c == START_SEQ || c == END_SEQ || c == FLAG_SEQ
}

/// State of the long-word breaker: finished chunks as (text, drawn length),
/// the chunk being filled and its drawn length.
pub struct BreakState {
    pub chunks: Seq<(Seq<char>, int)>,
    pub cur: Seq<char>,
    pub len: int,
}

/// Markup characters go into the current chunk without counting; any other
/// character starts a new chunk when the current one is full.
pub open spec fn break_step(bs: BreakState, c: char, max_width: int) -> BreakState {
    if is_markup_char(c) {
        BreakState { chunks: bs.chunks, cur: bs.cur.push(c), len: bs.len }
    } else if bs.len + 1 > max_width && bs.cur.len() > 0 {
        BreakState { chunks: bs.chunks.push((bs.cur, bs.len)), cur: seq![c], len: 1 }
    } else {
        BreakState { chunks: bs.chunks, cur: bs.cur.push(c), len: bs.len + 1 }
    }
}

pub open spec fn break_fold(s: Seq<char>, max_width: int) -> BreakState
    decreases s.len(),
{
    if s.len() == 0 {
        BreakState { chunks: Seq::empty(), cur: Seq::empty(), len: 0 }
    } else {
        break_step(break_fold(s.drop_last(), max_width), s.last(), max_width)
    }
}

/// The chunks that `s` breaks into, each as (text, counted length).
pub open spec fn break_chunks(s: Seq<char>, max_width: int) -> Seq<(Seq<char>, int)> {
    let b = break_fold(s, max_width);
    if b.cur.len() > 0 {
        b.chunks.push((b.cur, b.len))
    } else {
        b.chunks
    }
}

/// Breaks a long word into smaller chunks that fit within `max_width`, each
/// carrying `active_formatting`; markup characters are kept but not counted.
/// A word without characters is returned as it is.
pub fn break_long_word(
    word: &FormattedWord,
    max_width: usize,
    active_formatting: &Option<String>,
) -> (result: Vec<FormattedWord>)
    ensures
        word.text@.len() == 0 ==> {
            &&& result@.len() == 1
            &&& result@[0].text@ == word.text@
            &&& result@[0].visual_length == word.visual_length
            &&& opt_chars(result@[0].formatting) == opt_chars(word.formatting)
        },
        word.text@.len() > 0 ==> {
            let chunks = break_chunks(word.text@, max_width as int);
            &&& result@.len() == chunks.len()
            &&& forall|i: int| 0 <= i < result@.len() ==> {
                &&& (#[trigger] result@[i]).text@ == chunks[i].0
                &&& result@[i].visual_length as int == chunks[i].1
                &&& opt_chars(result@[i].formatting) == opt_chars(*active_formatting)
                &&& result@[i].text@.len() > 0
                &&& result@[i].visual_length <= chunk_limit(max_width as int)
            }
            &&& concat_chunks(chunks) == word.text@
        },
{
    let mut result: Vec<FormattedWord> = Vec::new();
    let chars = chars_of(word.text.as_str());
    let mut cur: Vec<char> = Vec::new();
    let mut len: usize = 0;
    let mut i: usize = 0;
    while i < chars.len()
        invariant
            0 <= i <= chars.len(),
            chars@ == word.text@,
            len <= i,
            ({
                let b = break_fold(chars@.take(i as int), max_width as int);
                &&& b.cur == cur@
                &&& b.len == len as int
                &&& b.chunks.len() == result@.len()
                &&& forall|j: int| 0 <= j < result@.len() ==> {
                    &&& (#[trigger] result@[j]).text@ == b.chunks[j].0
                    &&& result@[j].visual_length as int == b.chunks[j].1
                    &&& opt_chars(result@[j].formatting) == opt_chars(*active_formatting)
                }
            }),
        decreases chars.len() - i,
    {
        let c = chars[i];
        assert(chars@.take(i + 1).drop_last() =~= chars@.take(i as int));
        if c == START_SEQ || c == END_SEQ || c == FLAG_SEQ {
            cur.push(c);
        } else {
            if len + 1 > max_width && cur.len() > 0 {
                let text = string_from_chars(&cur);
                let formatting = clone_opt_string(active_formatting);
                result.push(FormattedWord { text, visual_length: len, formatting });
                cur = Vec::new();
                len = 0;
                assert(cur@.push(c) =~= seq![c]);
            }
            cur.push(c);
            len = len + 1;
        }
        i = i + 1;
    }
    assert(chars@.take(i as int) =~= chars@);
    if cur.len() > 0 {
        let text = string_from_chars(&cur);
        let formatting = clone_opt_string(active_formatting);
        result.push(FormattedWord { text, visual_length: len, formatting });
    }
    if result.len() == 0 {
        proof {
            if chars@.len() > 0 {
                lemma_break_chunks_nonempty(chars@, max_width as int);
            }
        }
        let copy = FormattedWord {
            text: word.text.clone(),
            visual_length: word.visual_length,
            formatting: clone_opt_string(&word.formatting),
        };
        result.push(copy);
    }
    proof {
        if chars@.len() > 0 {
            lemma_break_chunks_spell_word(chars@, max_width as int);
        }
    }
    result
}

/// The texts of chunks, one after another.
pub open spec fn concat_chunks(chunks: Seq<(Seq<char>, int)>) -> Seq<char>
    decreases chunks.len(),
{
    if chunks.len() == 0 {
        Seq::empty()
    } else {
        concat_chunks(chunks.drop_last()) + chunks.last().0
    }
}

pub open spec fn chunk_limit(max_width: int) -> int {
    if max_width < 1 { 1 } else { max_width }
}

proof fn lemma_break_fold_parts(s: Seq<char>, max_width: int)
    ensures
        concat_chunks(break_fold(s, max_width).chunks) + break_fold(s, max_width).cur == s,
        0 <= break_fold(s, max_width).len <= chunk_limit(max_width),
        forall|i: int| 0 <= i < break_fold(s, max_width).chunks.len() ==>
            0 <= (#[trigger] break_fold(s, max_width).chunks[i]).1 <= chunk_limit(max_width)
                && break_fold(s, max_width).chunks[i].0.len() > 0,
    decreases s.len(),
{
    if s.len() > 0 {
        let prev = s.drop_last();
        let c = s.last();
        lemma_break_fold_parts(prev, max_width);
        let b = break_fold(prev, max_width);
        let g = break_fold(s, max_width);
        if is_markup_char(c) {
            assert(concat_chunks(g.chunks) + g.cur =~= concat_chunks(b.chunks) + b.cur + seq![c]);
        } else if b.len + 1 > max_width && b.cur.len() > 0 {
            assert(g.chunks.drop_last() =~= b.chunks);
            assert(concat_chunks(g.chunks) + g.cur =~= concat_chunks(b.chunks) + b.cur + seq![c]);
            assert forall|i: int| 0 <= i < g.chunks.len() implies 0 <= (#[trigger] g.chunks[i]).1 <= chunk_limit(max_width)
                && g.chunks[i].0.len() > 0 by {
                if i < b.chunks.len() {
                    assert(g.chunks[i] == b.chunks[i]);
                }
            }
        } else {
            assert(concat_chunks(g.chunks) + g.cur =~= concat_chunks(b.chunks) + b.cur + seq![c]);
        }
        assert(prev.push(c) =~= s);
    }
}

/// Breaking a non-empty word loses and reorders nothing: the chunks spell the
/// word; and every chunk is non-empty and counts at most `max_width`
/// characters (one, for a width below one).
pub proof fn lemma_break_chunks_spell_word(s: Seq<char>, max_width: int)
    requires
        s.len() > 0,
    ensures
        concat_chunks(break_chunks(s, max_width)) == s,
        forall|i: int| 0 <= i < break_chunks(s, max_width).len() ==>
            0 <= (#[trigger] break_chunks(s, max_width)[i]).1 <= chunk_limit(max_width)
                && break_chunks(s, max_width)[i].0.len() > 0,
{
    lemma_break_fold_parts(s, max_width);
    let b = break_fold(s, max_width);
    let chunks = break_chunks(s, max_width);
    if b.cur.len() > 0 {
        assert(chunks.drop_last() =~= b.chunks);
        assert forall|i: int| 0 <= i < chunks.len() implies 0 <= (#[trigger] chunks[i]).1 <= chunk_limit(max_width)
            && chunks[i].0.len() > 0 by {
            if i < b.chunks.len() {
                assert(chunks[i] == b.chunks[i]);
            }
        }
    } else {
        assert(concat_chunks(b.chunks) + b.cur =~= concat_chunks(b.chunks));
    }
}

/// A non-empty word always yields at least one chunk.
proof fn lemma_break_chunks_nonempty(s: Seq<char>, max_width: int)
    requires
        s.len() > 0,
    ensures
        break_chunks(s, max_width).len() > 0,
{
    let b = break_fold(s.drop_last(), max_width);
    assert(break_fold(s, max_width).cur.len() > 0);
}

/// Gets the visual length of text, ignoring formatting codes.
pub fn get_visual_length(text: &str) -> (n: usize)
    ensures
        n == content_chars(text@).len(),
{
    text_content_length(text)
}

/// State of the formatting tracker: markup state, the setting being read and
/// the last non-empty setting of a closed sequence.
pub struct CarryState {
    pub st: MarkupState,
    pub setting: Seq<char>,
    pub active: Option<Seq<char>>,
}

pub open spec fn carry_step(cs: CarryState, c: char) -> CarryState {
    let st2 = step(cs.st, c);
    match role_of(cs.st, c) {
        MarkupRole::Open => CarryState { st: st2, setting: Seq::empty(), active: cs.active },
        MarkupRole::Close => CarryState {
            st: st2,
            setting: cs.setting,
            active: if cs.setting.len() > 0 { Some(cs.setting) } else { cs.active },
        },
        MarkupRole::Setting => CarryState { st: st2, setting: cs.setting.push(c), active: cs.active },
        _ => CarryState { st: st2, setting: cs.setting, active: cs.active },
    }
}

pub open spec fn carry_fold(s: Seq<char>) -> CarryState
    decreases s.len(),
{
    if s.len() == 0 {
        CarryState { st: initial_state(), setting: Seq::empty(), active: None }
    } else {
        carry_step(carry_fold(s.drop_last()), s.last())
    }
}

/// The setting of the last closed styled sequence of `s` whose setting is not empty.
pub open spec fn active_formatting(s: Seq<char>) -> Option<Seq<char>> {
    carry_fold(s).active
}

/// `current` restyled with the formatting left active by `previous`: wrapped
/// in a sequence with that setting, unless it starts a sequence itself.
pub open spec fn carried_line(previous: Seq<char>, current: Seq<char>) -> Seq<char> {
    match active_formatting(previous) {
        Some(f) => if current.len() > 0 && current[0] == START_SEQ {
            current
        } else {
            seq![START_SEQ] + f + seq![FLAG_SEQ] + current + seq![END_SEQ]
        },
        None => current,
    }
}

/// Applies the formatting active at the end of the previous line to the
/// current line.
pub fn carry_formatting_to_next_line(previous_line: &str, current_line: &str) -> (line: String)
    ensures
        line@ == carried_line(previous_line@, current_line@),
        current_line@.len() > 0 && (forall|i: int| 0 <= i < current_line@.len() ==> !is_markup_char(
            #[trigger] current_line@[i],
        )) ==> {
            &&& content_chars(line@) == current_line@
            &&& active_formatting(previous_line@) matches Some(f) ==> styled_chars(line@) == styled_with(
                current_line@,
                f,
            )
        },
{
    proof {
        if current_line@.len() > 0 && (forall|i: int| 0 <= i < current_line@.len() ==> !is_markup_char(
            #[trigger] current_line@[i],
        )) {
            lemma_carry_styles_line(previous_line@, current_line@);
        }
    }
    let prev = chars_of(previous_line);
    let mut active: Option<Vec<char>> = None;
    let mut setting: Vec<char> = Vec::new();
    let mut st = MarkupState { in_seq: false, in_flags: false };
    let mut i: usize = 0;
    while i < prev.len()
        invariant
            0 <= i <= prev.len(),
            prev@ == previous_line@,
            ({
                let cs = carry_fold(prev@.take(i as int));
                &&& cs.st == st
                &&& cs.setting == setting@
                &&& cs.active == match active {
                    Some(v) => Some(v@),
                    None => None,
                }
            }),
        decreases prev.len() - i,
    {
        let c = prev[i];
        assert(prev@.take(i + 1).drop_last() =~= prev@.take(i as int));
        let r = markup_role(st, c);
        match r {
            MarkupRole::Open => {
                setting = Vec::new();
            },
            MarkupRole::Close => {
                if setting.len() > 0 {
                    active = Some(setting.clone());
                }
            },
            MarkupRole::Setting => {
                setting.push(c);
            },
            _ => {},
        }
        st = markup_step(st, c);
        i = i + 1;
    }
    assert(prev@.take(i as int) =~= prev@);
    let cur = chars_of(current_line);
    match active {
        Some(f) => {
            if cur.len() > 0 && cur[0] == START_SEQ {
                string_from_chars(&cur)
            } else {
                let mut out: Vec<char> = Vec::new();
                out.push(START_SEQ);
                let mut f2 = f;
                out.append(&mut f2);
                out.push(FLAG_SEQ);
                let mut c2 = cur;
                out.append(&mut c2);
                out.push(END_SEQ);
                assert(out@ =~= seq![START_SEQ] + f@ + seq![FLAG_SEQ] + current_line@ + seq![END_SEQ]);
                string_from_chars(&out)
            }
        },
        None => string_from_chars(&cur),
    }
}


/// The characters of `s`, each styled with setting `f`.
pub open spec fn styled_with(s: Seq<char>, f: Seq<char>) -> Seq<(char, Option<Seq<char>>)> {
    s.map_values(|c: char| (c, Some(f)))
}

proof fn lemma_carry_fold_plain(s: Seq<char>)
    ensures
        plain_setting(carry_fold(s).setting),
        carry_fold(s).active matches Some(f) ==> plain_setting(f),
        carry_fold(s).st.in_flags ==> carry_fold(s).st.in_seq,
    decreases s.len(),
{
    if s.len() > 0 {
        lemma_carry_fold_plain(s.drop_last());
        let cs = carry_fold(s.drop_last());
        let c = s.last();
        if role_of(cs.st, c) == MarkupRole::Setting {
            let set = cs.setting.push(c);
            assert forall|i: int| 0 <= i < set.len() implies #[trigger] set[i] != START_SEQ && set[i] != END_SEQ
                && set[i] != FLAG_SEQ by {
                if i < cs.setting.len() {
                    assert(set[i] == cs.setting[i]);
                }
            }
        }
    }
}

proof fn lemma_render_open_run(s: Seq<char>, f: Seq<char>)
    ensures
        render_from(styled_with(s, f), Some(f)) == s + seq![END_SEQ],
    decreases s.len(),
{
    let cells = styled_with(s, f);
    if s.len() > 0 {
        lemma_render_open_run(s.drop_first(), f);
        assert(cells.drop_first() =~= styled_with(s.drop_first(), f));
        assert(seq![s[0]] + (s.drop_first() + seq![END_SEQ]) =~= s + seq![END_SEQ]);
    } else {
        assert(s + seq![END_SEQ] =~= seq![END_SEQ]);
    }
}

/// Carrying formatting onto a line keeps what it draws and styles all of
/// it: for a line of characters other than markup, the carried line draws
/// the line's characters, each styled with the setting the previous line
/// left active; with none active, the line is unchanged.
#[verifier::spinoff_prover]
pub proof fn lemma_carry_styles_line(previous: Seq<char>, current: Seq<char>)
    requires
        current.len() > 0,
        forall|i: int| 0 <= i < current.len() ==> !is_markup_char(#[trigger] current[i]),
    ensures
        active_formatting(previous) is None ==> carried_line(previous, current) == current,
        active_formatting(previous) matches Some(f) ==> styled_chars(carried_line(previous, current))
            == styled_with(current, f),
        content_chars(carried_line(previous, current)) == current,
{
    let line = carried_line(previous, current);
    match active_formatting(previous) {
        Some(f) => {
            lemma_carry_fold_plain(previous);
            let cells = styled_with(current, f);
            assert(!is_markup_char(current[0]));
            lemma_render_open_run(current.drop_first(), f);
            assert(cells.drop_first() =~= styled_with(current.drop_first(), f));
            assert(line =~= render_styled(cells));
            assert(valid_styled(cells)) by {
                assert forall|i: int| 0 <= i < cells.len() implies {
                    &&& (#[trigger] cells[i]).0 != START_SEQ
                    &&& cells[i].1 matches Some(set) ==> cells[i].0 != END_SEQ && cells[i].0 != FLAG_SEQ && plain_setting(set)
                } by {
                    assert(!is_markup_char(current[i]));
                }
            }
            lemma_render_reads_back(cells, None, Seq::empty());
            lemma_styled_chars_content(line);
            assert(plain_of(cells) =~= current);
        },
        None => {
            assert(!current.contains(START_SEQ)) by {
                if current.contains(START_SEQ) {
                    let k = choose|k: int| 0 <= k < current.len() && current[k] == START_SEQ;
                    assert(!is_markup_char(current[k]));
                }
            }
            lemma_plain_text_content(current);
        },
    }
}

} // verus!
