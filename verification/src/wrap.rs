//! Fitting text into the display: cutting it short and wrapping it into lines.

use vstd::prelude::*;
use crate::text::{chars_of, part, text_of, trim_start, white_space};

verus! {

/// `s`, cut to `max_chars` with three dots at the end where there is room for them.
pub open spec fn cut(s: Seq<char>, max_chars: nat) -> Seq<char> {
    if s.len() <= max_chars {
        s
    } else if max_chars > 3 {
        s.take(max_chars - 3) + seq!['.', '.', '.']
    } else {
        s.take(max_chars as int)
    }
}

/// `s` cut to `max_chars`, and a dash where nothing is left.
pub open spec fn truncated(s: Seq<char>, max_chars: nat) -> Seq<char> {
    if cut(s, max_chars).len() == 0 {
        seq!['-']
    } else {
        cut(s, max_chars)
    }
}

/// Cuts `input` to `max_chars` characters. Where nothing would be left, a dash stands for it.
pub fn truncate_text(input: &str, max_chars: usize) -> (r: String)
    ensures
        r@ == truncated(input@, max_chars as nat),
{
    let chars = chars_of(input);
    let out: Vec<char> = if chars.len() <= max_chars {
        chars
    } else if max_chars > 3 {
        let mut kept = part(chars.as_slice(), 0, max_chars - 3);
        kept.push('.');
        kept.push('.');
        kept.push('.');
        assert(kept@ =~= cut(input@, max_chars as nat));
        kept
    } else {
        part(chars.as_slice(), 0, max_chars)
    };
    if out.len() == 0 {
        let mut dash: Vec<char> = Vec::new();
        dash.push('-');
        assert(dash@ =~= seq!['-']);
        text_of(dash.as_slice())
    } else {
        text_of(out.as_slice())
    }
}

/// How many characters stand in front of the first white space.
pub open spec fn word_len(s: Seq<char>) -> nat
    decreases s.len(),
{
    if s.len() == 0 || white_space(s[0]) {
        0
    } else {
        1 + word_len(s.drop_first())
    }
}

/// The words of a text: its longest runs without white space.
pub open spec fn words(s: Seq<char>) -> Seq<Seq<char>>
    decreases trim_start(s).len(),
    via words_decreases
{
    let t = trim_start(s);
    let n = word_len(t);
    if t.len() == 0 {
        Seq::empty()
    } else {
        seq![t.take(n as int)] + words(t.skip(n as int))
    }
}

proof fn lemma_word_len(s: Seq<char>)
    ensures
        word_len(s) <= s.len(),
        s.len() > 0 && !white_space(s[0]) ==> word_len(s) > 0,
        forall|i: int| 0 <= i < word_len(s) ==> !white_space(#[trigger] s[i]),
    decreases s.len(),
{
    if s.len() > 0 && !white_space(s[0]) {
        let t = s.drop_first();
        lemma_word_len(t);
        assert forall|i: int| 0 <= i < word_len(s) implies !white_space(#[trigger] s[i]) by {
            if i > 0 {
                assert(t[i - 1] == s[i]);
            }
        }
    }
}

proof fn lemma_trim_start(s: Seq<char>)
    ensures
        trim_start(s).len() <= s.len(),
        trim_start(s).len() > 0 ==> !white_space(trim_start(s)[0]),
    decreases s.len(),
{
    if s.len() > 0 && white_space(s[0]) {
        lemma_trim_start(s.drop_first());
    }
}

#[via_fn]
proof fn words_decreases(s: Seq<char>) {
    let t = trim_start(s);
    lemma_trim_start(s);
    lemma_word_len(t);
    if t.len() > 0 {
        lemma_trim_start(t.skip(word_len(t) as int));
    }
}

/// `word` in pieces of `width` characters, the last one perhaps shorter.
pub open spec fn pieces(word: Seq<char>, width: nat) -> Seq<Seq<char>>
    decreases word.len(),
{
    if word.len() <= width || width == 0 {
        seq![word]
    } else {
        seq![word.take(width as int)] + pieces(word.skip(width as int), width)
    }
}

/// The pieces of all words, in order.
pub open spec fn all_pieces(ws: Seq<Seq<char>>, width: nat) -> Seq<Seq<char>>
    decreases ws.len(),
{
    if ws.len() == 0 {
        Seq::empty()
    } else {
        pieces(ws[0], width) + all_pieces(ws.drop_first(), width)
    }
}

/// `line` with `piece` behind it, one space between.
pub open spec fn with_space(line: Seq<char>, piece: Seq<char>) -> Seq<char> {
    line.push(' ') + piece
}

/// The lines that `ps` make behind the begun line `line`: a piece goes on the line as long as
/// there is room for it and a space.
pub open spec fn lines_from(line: Seq<char>, ps: Seq<Seq<char>>, width: nat) -> Seq<Seq<char>>
    decreases ps.len(),
{
    if ps.len() == 0 {
        if line.len() == 0 {
            Seq::empty()
        } else {
            seq![line]
        }
    } else if line.len() == 0 {
        lines_from(ps[0], ps.drop_first(), width)
    } else if line.len() + 1 + ps[0].len() <= width {
        lines_from(with_space(line, ps[0]), ps.drop_first(), width)
    } else {
        seq![line] + lines_from(ps[0], ps.drop_first(), width)
    }
}

/// All lines of a text, however many.
pub open spec fn all_lines(s: Seq<char>, width: nat) -> Seq<Seq<char>> {
    lines_from(Seq::empty(), all_pieces(words(s), width), width)
}

/// `s` without the spaces at its end.
pub open spec fn without_end_spaces(s: Seq<char>) -> Seq<char>
    decreases s.len(),
{
    if s.len() > 0 && s.last() == ' ' {
        without_end_spaces(s.drop_last())
    } else {
        s
    }
}

pub open spec fn dots() -> Seq<char> {
    seq!['.', '.', '.']
}

/// `line` with three dots at its end in place of what has no room beside them.
pub open spec fn with_dots(line: Seq<char>, width: nat) -> Seq<char> {
    let keep = if width >= 3 {
        (width - 3) as nat
    } else {
        0
    };
    let base = without_end_spaces(
        if line.len() <= keep {
            line
        } else {
            line.take(keep as int)
        },
    );
    if base.len() > 0 {
        base + dots()
    } else if width < 3 {
        dots().take(width as int)
    } else {
        dots()
    }
}

/// A text in at most `max_lines` lines of at most `width` characters. A text without words is a
/// dash; where lines are missing, the last one ends in dots.
pub open spec fn wrapped(s: Seq<char>, width: nat, max_lines: nat) -> Seq<Seq<char>> {
    let all = all_lines(s, width);
    if width == 0 || max_lines == 0 {
        Seq::empty()
    } else if all.len() == 0 {
        seq![seq!['-']]
    } else if all.len() <= max_lines {
        all
    } else {
        all.take(max_lines - 1).push(with_dots(all[max_lines - 1], width))
    }
}

/// The contents of a list of texts.
pub open spec fn texts(v: Seq<String>) -> Seq<Seq<char>> {
    v.map_values(|t: String| t@)
}

/// The contents of a list of characters.
pub open spec fn char_lists(v: Seq<Vec<char>>) -> Seq<Seq<char>> {
    v.map_values(|t: Vec<char>| t@)
}

proof fn lemma_char_lists_push(v: Seq<Vec<char>>, t: Vec<char>)
    ensures
        char_lists(v.push(t)) == char_lists(v).push(t@),
{
    assert(char_lists(v.push(t)) =~= char_lists(v).push(t@));
}

/// The words of a text.
fn split_words(s: &[char]) -> (r: Vec<Vec<char>>)
    ensures
        char_lists(r@) == words(s@),
{
    let mut r: Vec<Vec<char>> = Vec::new();
    let mut i: usize = 0;
    assert(s@.skip(0) =~= s@);
    assert(char_lists(r@) + words(s@) =~= words(s@));
    let end: usize = s.len();
    while i < end
        invariant
            end == s@.len(),
            i <= end,
            char_lists(r@) + words(s@.skip(i as int)) == words(s@),
        decreases end - i,
    {
        let ghost rest = s@.skip(i as int);
        if s[i].is_whitespace() {
            assert(rest.drop_first() =~= s@.skip(i + 1));
            assert(trim_start(rest) == trim_start(s@.skip(i + 1)));
            assert(words(rest) == words(s@.skip(i + 1))) by {
                reveal_with_fuel(words, 2);
            }
            i = i + 1;
        } else {
            let from: usize = i;
            assert(trim_start(rest) == rest);
            proof {
                lemma_word_len(rest);
            }
            while i < end && !s[i].is_whitespace()
                invariant
                    end == s@.len(),
                    from <= i <= end,
                    word_len(s@.skip(from as int)) == (i - from) + word_len(s@.skip(i as int)),
                decreases end - i,
            {
                assert(s@.skip(i as int).drop_first() =~= s@.skip(i + 1));
                i = i + 1;
            }
            assert(word_len(s@.skip(i as int)) == 0);
            let ghost n = word_len(rest);
            let word = part(s, from, i);
            assert(word@ =~= rest.take(n as int));
            assert(rest.skip(n as int) =~= s@.skip(i as int));
            let ghost before = r@;
            r.push(word);
            proof {
                lemma_char_lists_push(before, word);
            }
            assert(char_lists(before) + (seq![word@] + words(s@.skip(i as int))) =~= char_lists(r@)
                + words(s@.skip(i as int)));
        }
    }
    assert(s@.skip(i as int) =~= Seq::<char>::empty());
    assert(words(Seq::<char>::empty()) =~= Seq::<Seq<char>>::empty());
    assert(char_lists(r@) + Seq::<Seq<char>>::empty() =~= char_lists(r@));
    r
}

/// Appends the pieces of a word to `r`.
fn push_pieces(word: &[char], width: usize, r: &mut Vec<Vec<char>>)
    requires
        width > 0,
    ensures
        char_lists(final(r)@) == char_lists(old(r)@) + pieces(word@, width as nat),
{
    let mut i: usize = 0;
    let end: usize = word.len();
    assert(word@.skip(0) =~= word@);
    while end - i > width
        invariant
            width > 0,
            end == word@.len(),
            i <= end,
            char_lists(r@) + pieces(word@.skip(i as int), width as nat) == char_lists(old(r)@)
                + pieces(word@, width as nat),
        decreases end - i,
    {
        let ghost rest = word@.skip(i as int);
        let piece = part(word, i, i + width);
        assert(piece@ =~= rest.take(width as int));
        assert(rest.skip(width as int) =~= word@.skip(i + width));
        let ghost before = r@;
        r.push(piece);
        proof {
            lemma_char_lists_push(before, piece);
        }
        i = i + width;
        assert(char_lists(before) + (seq![piece@] + pieces(word@.skip(i as int), width as nat))
            =~= char_lists(r@) + pieces(word@.skip(i as int), width as nat));
    }
    let piece = part(word, i, end);
    assert(piece@ =~= word@.skip(i as int));
    let ghost before = r@;
    r.push(piece);
    proof {
        lemma_char_lists_push(before, piece);
    }
    assert(char_lists(before) + seq![piece@] =~= char_lists(r@));
}

/// The pieces of all words of a text.
fn split_pieces(s: &[char], width: usize) -> (r: Vec<Vec<char>>)
    requires
        width > 0,
    ensures
        char_lists(r@) == all_pieces(words(s@), width as nat),
{
    let ws = split_words(s);
    let ghost all = char_lists(ws@);
    let mut r: Vec<Vec<char>> = Vec::new();
    let mut i: usize = 0;
    let end: usize = ws.len();
    assert(all.skip(0) =~= all);
    assert(char_lists(r@) + all_pieces(all, width as nat) =~= all_pieces(all, width as nat));
    while i < end
        invariant
            width > 0,
            end == ws@.len(),
            i <= end,
            all == char_lists(ws@),
            char_lists(r@) + all_pieces(all.skip(i as int), width as nat) == all_pieces(
                all,
                width as nat,
            ),
        decreases end - i,
    {
        let ghost before = char_lists(r@);
        push_pieces(ws[i].as_slice(), width, &mut r);
        assert(all.skip(i as int)[0] == ws@[i as int]@);
        assert(all.skip(i as int).drop_first() =~= all.skip(i + 1));
        i = i + 1;
        assert(before + (pieces(ws@[i - 1]@, width as nat) + all_pieces(
            all.skip(i as int),
            width as nat,
        )) =~= char_lists(r@) + all_pieces(all.skip(i as int), width as nat));
    }
    assert(all.skip(i as int) =~= Seq::<Seq<char>>::empty());
    assert(char_lists(r@) + Seq::<Seq<char>>::empty() =~= char_lists(r@));
    r
}

/// `line` with three dots at its end.
fn put_dots(line: &[char], width: usize) -> (r: Vec<char>)
    ensures
        r@ == with_dots(line@, width as nat),
{
    let keep: usize = width.saturating_sub(3);
    let mut to: usize = if line.len() <= keep {
        line.len()
    } else {
        keep
    };
    let ghost base = line@.take(to as int);
    assert(base =~= if line@.len() <= keep {
        line@
    } else {
        line@.take(keep as int)
    });
    while to > 0 && line[to - 1] == ' '
        invariant
            to <= line@.len(),
            without_end_spaces(line@.take(to as int)) == without_end_spaces(base),
        decreases to,
    {
        assert(line@.take(to as int).drop_last() =~= line@.take(to - 1));
        to = to - 1;
    }
    let mut r = part(line, 0, to);
    assert(r@ =~= without_end_spaces(base));
    if to == 0 {
        let mut k: usize = 0;
        while k < 3 && k < width
            invariant
                k <= 3,
                k <= width,
                r@ == dots().take(k as int),
            decreases 3 - k,
        {
            r.push('.');
            k = k + 1;
            assert(r@ =~= dots().take(k as int));
        }
        assert(dots().take(3) =~= dots());
    } else {
        r.push('.');
        r.push('.');
        r.push('.');
        assert(r@ =~= without_end_spaces(base) + dots());
    }
    r
}

proof fn lemma_lines_extend(done: Seq<Seq<char>>, line: Seq<char>, rest: Seq<Seq<char>>)
    ensures
        done + (seq![line] + rest) == done.push(line) + rest,
{
    assert(done + (seq![line] + rest) =~= done.push(line) + rest);
}

proof fn lemma_lines_some(line: Seq<char>, ps: Seq<Seq<char>>, width: nat)
    requires
        line.len() > 0,
    ensures
        lines_from(line, ps, width).len() > 0,
    decreases ps.len(),
{
    if ps.len() > 0 && line.len() + 1 + ps[0].len() <= width {
        lemma_lines_some(with_space(line, ps[0]), ps.drop_first(), width);
    }
}

proof fn lemma_pieces_some(word: Seq<char>, width: nat)
    requires
        word.len() > 0,
        width > 0,
    ensures
        forall|i: int|
            0 <= i < pieces(word, width).len() ==> 0 < (#[trigger] pieces(word, width)[i]).len()
                <= width,
    decreases word.len(),
{
    if word.len() > width {
        let rest = word.skip(width as int);
        lemma_pieces_some(rest, width);
        assert forall|i: int| 0 <= i < pieces(word, width).len() implies 0 < (#[trigger] pieces(
            word,
            width,
        )[i]).len() <= width by {
            if i > 0 {
                assert(pieces(word, width)[i] == pieces(rest, width)[i - 1]);
            }
        }
    }
}

proof fn lemma_words_some(s: Seq<char>)
    ensures
        forall|i: int| 0 <= i < words(s).len() ==> 0 < (#[trigger] words(s)[i]).len(),
    decreases trim_start(s).len(),
{
    let t = trim_start(s);
    lemma_trim_start(s);
    lemma_word_len(t);
    if t.len() > 0 {
        let rest = t.skip(word_len(t) as int);
        lemma_trim_start(rest);
        lemma_words_some(rest);
        assert forall|i: int| 0 <= i < words(s).len() implies 0 < (#[trigger] words(s)[i]).len() by {
            if i > 0 {
                assert(words(s)[i] == words(rest)[i - 1]);
            }
        }
    }
}

proof fn lemma_all_pieces_some(ws: Seq<Seq<char>>, width: nat)
    requires
        width > 0,
        forall|i: int| 0 <= i < ws.len() ==> 0 < (#[trigger] ws[i]).len(),
    ensures
        forall|i: int|
            0 <= i < all_pieces(ws, width).len() ==> 0 < (#[trigger] all_pieces(ws, width)[i]).len()
                <= width,
    decreases ws.len(),
{
    if ws.len() > 0 {
        let rest = ws.drop_first();
        assert forall|i: int| 0 <= i < rest.len() implies 0 < (#[trigger] rest[i]).len() by {
            assert(rest[i] == ws[i + 1]);
        }
        lemma_pieces_some(ws[0], width);
        lemma_all_pieces_some(rest, width);
        let first = pieces(ws[0], width);
        assert forall|i: int| 0 <= i < all_pieces(ws, width).len() implies 0 < (
        #[trigger] all_pieces(ws, width)[i]).len() <= width by {
            if i >= first.len() {
                assert(all_pieces(ws, width)[i] == all_pieces(rest, width)[i - first.len()]);
            } else {
                assert(all_pieces(ws, width)[i] == first[i]);
            }
        }
    }
}

/// Wraps `input` into at most `max_lines` lines of at most `max_chars` characters, and marks
/// with dots that something is missing.
pub fn wrap_text_with_ellipsis(input: &str, max_chars: usize, max_lines: usize) -> (r: Vec<String>)
    ensures
        texts(r@) == wrapped(input@, max_chars as nat, max_lines as nat),
{
    let mut lines: Vec<String> = Vec::new();
    if max_chars == 0 || max_lines == 0 {
        assert(texts(lines@) =~= Seq::<Seq<char>>::empty());
        return lines;
    }
    let chars = chars_of(input);
    let ps = split_pieces(chars.as_slice(), max_chars);
    let ghost w = max_chars as nat;
    let ghost all = char_lists(ps@);
    let ghost full = all_lines(input@, w);
    proof {
        lemma_words_some(input@);
        lemma_all_pieces_some(words(input@), w);
    }
    let mut current: Vec<char> = Vec::new();
    let mut i: usize = 0;
    let end: usize = ps.len();
    assert(all.skip(0) =~= all);
    assert(current@ =~= Seq::<char>::empty());
    assert(texts(lines@) =~= Seq::<Seq<char>>::empty());
    assert(texts(lines@) + full =~= full);
    while i < end
        invariant
            max_chars > 0,
            max_lines > 0,
            w == max_chars,
            end == ps@.len(),
            i <= end,
            all == char_lists(ps@),
            full == all_lines(input@, w),
            forall|j: int| 0 <= j < all.len() ==> 0 < (#[trigger] all[j]).len() <= w,
            current@.len() <= w,
            lines@.len() < max_lines,
            i == 0 ==> current@.len() == 0,
            i > 0 ==> current@.len() > 0,
            texts(lines@) + lines_from(current@, all.skip(i as int), w) == full,
        decreases end - i,
    {
        let piece = &ps[i];
        assert(all[i as int] == piece@);
        assert(all.skip(i as int)[0] == piece@);
        assert(all.skip(i as int).drop_first() =~= all.skip(i + 1));
        let ghost rest = lines_from(piece@, all.skip(i + 1), w);
        if current.len() == 0 {
            current = part(piece.as_slice(), 0, piece.len());
            assert(current@ =~= piece@);
        } else if piece.len() < max_chars && current.len() < max_chars - piece.len() {
            let ghost before = current@;
            let mut tail = part(piece.as_slice(), 0, piece.len());
            current.push(' ');
            current.append(&mut tail);
            assert(current@ =~= with_space(before, piece@));
        } else {
            let line = text_of(current.as_slice());
            let ghost done = texts(lines@);
            if lines.len() + 1 >= max_lines {
                proof {
                    lemma_lines_some(piece@, all.skip(i + 1), w);
                }
                assert(full == done + (seq![current@] + rest));
                assert(full.len() > max_lines);
                assert(full[max_lines - 1] == current@);
                assert(full.take(max_lines - 1) =~= done);
                let dotted = put_dots(current.as_slice(), max_chars);
                let last = text_of(dotted.as_slice());
                lines.push(last);
                assert(texts(lines@) =~= done.push(dotted@));
                return lines;
            }
            proof {
                lemma_lines_extend(done, current@, rest);
            }
            lines.push(line);
            assert(texts(lines@) =~= done.push(current@));
            current = part(piece.as_slice(), 0, piece.len());
            assert(current@ =~= piece@);
        }
        i = i + 1;
    }
    assert(all.skip(i as int) =~= Seq::<Seq<char>>::empty());
    if current.len() > 0 {
        let ghost done = texts(lines@);
        lines.push(text_of(current.as_slice()));
        assert(texts(lines@) =~= done + seq![current@]);
    } else {
        assert(full =~= Seq::<Seq<char>>::empty());
        let mut dash: Vec<char> = Vec::new();
        dash.push('-');
        assert(dash@ =~= seq!['-']);
        lines.push(text_of(dash.as_slice()));
        assert(texts(lines@) =~= seq![seq!['-']]);
    }
    lines
}

proof fn lemma_lines_fit(line: Seq<char>, ps: Seq<Seq<char>>, width: nat)
    requires
        line.len() <= width,
        forall|i: int| 0 <= i < ps.len() ==> 0 < (#[trigger] ps[i]).len() <= width,
    ensures
        forall|i: int|
            0 <= i < lines_from(line, ps, width).len() ==> 0 < (#[trigger] lines_from(
                line,
                ps,
                width,
            )[i]).len() <= width,
    decreases ps.len(),
{
    if ps.len() > 0 {
        let rest = ps.drop_first();
        assert forall|i: int| 0 <= i < rest.len() implies 0 < (#[trigger] rest[i]).len()
            <= width by {
            assert(rest[i] == ps[i + 1]);
        }
        if line.len() == 0 {
            lemma_lines_fit(ps[0], rest, width);
            assert(lines_from(line, ps, width) == lines_from(ps[0], rest, width));
        } else if line.len() + 1 + ps[0].len() <= width {
            assert(with_space(line, ps[0]).len() <= width);
            lemma_lines_fit(with_space(line, ps[0]), rest, width);
            assert(lines_from(line, ps, width) == lines_from(with_space(line, ps[0]), rest, width));
        } else {
            lemma_lines_fit(ps[0], rest, width);
            let more = lines_from(ps[0], rest, width);
            assert forall|i: int| 0 <= i < lines_from(line, ps, width).len() implies 0 < (
            #[trigger] lines_from(line, ps, width)[i]).len() <= width by {
                if i > 0 {
                    assert(lines_from(line, ps, width)[i] == more[i - 1]);
                }
            }
        }
    }
}

proof fn lemma_end_spaces(s: Seq<char>)
    ensures
        without_end_spaces(s).len() <= s.len(),
    decreases s.len(),
{
    if s.len() > 0 && s.last() == ' ' {
        lemma_end_spaces(s.drop_last());
    }
}

/// Wrapped text fits: at least one line and no more than allowed, none of them empty and none
/// longer than allowed.
pub proof fn wrapped_text_fits(s: Seq<char>, width: nat, max_lines: nat)
    requires
        width > 0,
        max_lines > 0,
    ensures
        1 <= wrapped(s, width, max_lines).len() <= max_lines,
        forall|i: int|
            0 <= i < wrapped(s, width, max_lines).len() ==> 1 <= (#[trigger] wrapped(
                s,
                width,
                max_lines,
            )[i]).len() <= width,
{
    lemma_words_some(s);
    lemma_all_pieces_some(words(s), width);
    lemma_lines_fit(Seq::empty(), all_pieces(words(s), width), width);
    let all = all_lines(s, width);
    let w = wrapped(s, width, max_lines);
    if all.len() > max_lines {
        let last = all[max_lines - 1];
        lemma_end_spaces(last);
        lemma_end_spaces(last.take(width - 3));
        assert(with_dots(last, width).len() <= width);
        assert forall|i: int| 0 <= i < w.len() implies 1 <= (#[trigger] w[i]).len() <= width by {
            if i < max_lines - 1 {
                assert(w[i] == all[i]);
            }
        }
    }
}

/// Cut text is never empty, and no longer than allowed where anything is allowed.
pub proof fn truncated_text_fits(s: Seq<char>, max_chars: nat)
    ensures
        1 <= truncated(s, max_chars).len(),
        max_chars > 0 ==> truncated(s, max_chars).len() <= max_chars,
{
}

/// The characters of `s` that leave a mark: all but white space.
pub open spec fn visible(s: Seq<char>) -> Seq<char>
    decreases s.len(),
{
    if s.len() == 0 {
        Seq::empty()
    } else if white_space(s[0]) {
        visible(s.drop_first())
    } else {
        seq![s[0]] + visible(s.drop_first())
    }
}

/// The texts of a list, one behind the other.
pub open spec fn flat(ls: Seq<Seq<char>>) -> Seq<char>
    decreases ls.len(),
{
    if ls.len() == 0 {
        Seq::empty()
    } else {
        ls[0] + flat(ls.drop_first())
    }
}

proof fn lemma_visible_concat(a: Seq<char>, b: Seq<char>)
    ensures
        visible(a + b) == visible(a) + visible(b),
    decreases a.len(),
{
    if a.len() == 0 {
        assert(a + b =~= b);
        assert(visible(a) + visible(b) =~= visible(b));
    } else {
        assert((a + b).drop_first() =~= a.drop_first() + b);
        lemma_visible_concat(a.drop_first(), b);
        assert(visible(a + b) =~= visible(a) + visible(b));
    }
}

proof fn lemma_flat_concat(a: Seq<Seq<char>>, b: Seq<Seq<char>>)
    ensures
        flat(a + b) == flat(a) + flat(b),
    decreases a.len(),
{
    if a.len() == 0 {
        assert(a + b =~= b);
        assert(flat(a) + flat(b) =~= flat(b));
    } else {
        assert((a + b).drop_first() =~= a.drop_first() + b);
        lemma_flat_concat(a.drop_first(), b);
        assert(flat(a + b) =~= flat(a) + flat(b));
    }
}

proof fn lemma_flat_one(a: Seq<char>, b: Seq<Seq<char>>)
    ensures
        flat(seq![a] + b) == a + flat(b),
{
    assert((seq![a] + b).drop_first() =~= b);
}

proof fn lemma_pieces_flat(word: Seq<char>, width: nat)
    ensures
        flat(pieces(word, width)) == word,
    decreases word.len(),
{
    if word.len() <= width || width == 0 {
        lemma_flat_one(word, Seq::empty());
        assert(seq![word] + Seq::<Seq<char>>::empty() =~= seq![word]);
        assert(word + flat(Seq::<Seq<char>>::empty()) =~= word);
    } else {
        let rest = word.skip(width as int);
        lemma_pieces_flat(rest, width);
        lemma_flat_one(word.take(width as int), pieces(rest, width));
        assert(word.take(width as int) + rest =~= word);
    }
}

proof fn lemma_all_pieces_flat(ws: Seq<Seq<char>>, width: nat)
    ensures
        flat(all_pieces(ws, width)) == flat(ws),
    decreases ws.len(),
{
    if ws.len() > 0 {
        lemma_pieces_flat(ws[0], width);
        lemma_all_pieces_flat(ws.drop_first(), width);
        lemma_flat_concat(pieces(ws[0], width), all_pieces(ws.drop_first(), width));
    }
}

proof fn lemma_lines_visible(line: Seq<char>, ps: Seq<Seq<char>>, width: nat)
    ensures
        visible(flat(lines_from(line, ps, width))) == visible(line) + visible(flat(ps)),
    decreases ps.len(),
{
    let none = Seq::<Seq<char>>::empty();
    if ps.len() == 0 {
        if line.len() > 0 {
            assert(seq![line] + none =~= seq![line]);
            lemma_flat_one(line, none);
            assert(line + flat(none) =~= line);
        }
        assert(visible(line) + visible(flat(ps)) =~= visible(line));
    } else {
        let rest = ps.drop_first();
        lemma_visible_concat(ps[0], flat(rest));
        if line.len() == 0 {
            lemma_lines_visible(ps[0], rest, width);
            assert(visible(line) + visible(flat(ps)) =~= visible(flat(ps)));
        } else if line.len() + 1 + ps[0].len() <= width {
            let joined = with_space(line, ps[0]);
            lemma_lines_visible(joined, rest, width);
            lemma_visible_concat(line.push(' '), ps[0]);
            lemma_visible_concat(line, seq![' ']);
            assert(line + seq![' '] =~= line.push(' '));
            assert(seq![' '].drop_first() =~= Seq::<char>::empty());
            assert(visible(seq![' ']) == visible(Seq::<char>::empty()));
            assert(visible(line.push(' ')) =~= visible(line));
            assert(visible(joined) + visible(flat(rest)) =~= visible(line) + visible(flat(ps)));
        } else {
            let more = lines_from(ps[0], rest, width);
            lemma_lines_visible(ps[0], rest, width);
            lemma_flat_one(line, more);
            lemma_visible_concat(line, flat(more));
        }
    }
}

proof fn lemma_trim_visible(s: Seq<char>)
    ensures
        visible(trim_start(s)) == visible(s),
    decreases s.len(),
{
    if s.len() > 0 && white_space(s[0]) {
        lemma_trim_visible(s.drop_first());
    }
}

proof fn lemma_words_visible(s: Seq<char>)
    ensures
        visible(flat(words(s))) == visible(s),
    decreases trim_start(s).len(),
{
    let t = trim_start(s);
    lemma_trim_start(s);
    lemma_trim_visible(s);
    lemma_word_len(t);
    if t.len() > 0 {
        let n = word_len(t) as int;
        let rest = t.skip(n);
        lemma_trim_start(rest);
        lemma_words_visible(rest);
        lemma_flat_one(t.take(n), words(rest));
        lemma_visible_concat(t.take(n), flat(words(rest)));
        lemma_visible_concat(t.take(n), rest);
        assert(t.take(n) + rest =~= t);
    }
}

/// Wrapping loses nothing but white space, and adds nothing but spaces: where no dots stand for
/// missing lines, the lines hold the visible characters of the text, each once and in order.
pub proof fn wrapping_keeps_the_text(s: Seq<char>, width: nat, max_lines: nat)
    requires
        width > 0,
        0 < all_lines(s, width).len() <= max_lines,
    ensures
        visible(flat(wrapped(s, width, max_lines))) == visible(s),
{
    lemma_lines_visible(Seq::empty(), all_pieces(words(s), width), width);
    lemma_all_pieces_flat(words(s), width);
    lemma_words_visible(s);
    let v = visible(flat(words(s)));
    assert(visible(Seq::<char>::empty()) + v =~= v);
}

/// Text that has room stays as it is; of longer text the front is shown, and dots say that there is
/// more.
pub proof fn cut_text_shows_its_front(s: Seq<char>, max_chars: nat)
    requires
        max_chars > 3,
    ensures
        0 < s.len() <= max_chars ==> truncated(s, max_chars) == s,
        s.len() > max_chars ==> {
            &&& truncated(s, max_chars).len() == max_chars
            &&& truncated(s, max_chars).take(max_chars - 3) == s.take(max_chars - 3)
            &&& truncated(s, max_chars).skip(max_chars - 3) == seq!['.', '.', '.']
        },
{
    if s.len() > max_chars {
        let t = truncated(s, max_chars);
        assert(t.take(max_chars - 3) =~= s.take(max_chars - 3));
        assert(t.skip(max_chars - 3) =~= seq!['.', '.', '.']);
    }
}

/// A text without white space, and not empty.
pub open spec fn one_word(s: Seq<char>) -> bool {
    s.len() > 0 && forall|i: int| 0 <= i < s.len() ==> !white_space(#[trigger] s[i])
}

/// All texts of a list are one word each.
pub open spec fn all_one_word(ps: Seq<Seq<char>>) -> bool {
    forall|i: int| 0 <= i < ps.len() ==> one_word(#[trigger] ps[i])
}

proof fn lemma_rest_one_word(ps: Seq<Seq<char>>)
    requires
        all_one_word(ps),
        ps.len() > 0,
    ensures
        all_one_word(ps.drop_first()),
        one_word(ps[0]),
{
    assert forall|i: int| 0 <= i < ps.drop_first().len() implies one_word(
        #[trigger] ps.drop_first()[i],
    ) by {
        assert(ps.drop_first()[i] == ps[i + 1]);
    }
}

proof fn lemma_words_are_words(s: Seq<char>)
    ensures
        all_one_word(words(s)),
    decreases trim_start(s).len(),
{
    let t = trim_start(s);
    lemma_trim_start(s);
    lemma_word_len(t);
    if t.len() > 0 {
        let n = word_len(t) as int;
        let rest = t.skip(n);
        lemma_trim_start(rest);
        lemma_words_are_words(rest);
        let first = t.take(n);
        assert(one_word(first)) by {
            assert forall|i: int| 0 <= i < first.len() implies !white_space(#[trigger] first[i]) by {
                assert(first[i] == t[i]);
            }
        }
        assert forall|i: int| 0 <= i < words(s).len() implies one_word(#[trigger] words(s)[i]) by {
            if i > 0 {
                assert(words(s)[i] == words(rest)[i - 1]);
            }
        }
    }
}

proof fn lemma_pieces_are_words(word: Seq<char>, width: nat)
    requires
        one_word(word),
        width > 0,
    ensures
        all_one_word(pieces(word, width)),
    decreases word.len(),
{
    if word.len() > width {
        let first = word.take(width as int);
        let rest = word.skip(width as int);
        assert(one_word(first)) by {
            assert forall|i: int| 0 <= i < first.len() implies !white_space(#[trigger] first[i]) by {
                assert(first[i] == word[i]);
            }
        }
        assert(one_word(rest)) by {
            assert forall|i: int| 0 <= i < rest.len() implies !white_space(#[trigger] rest[i]) by {
                assert(rest[i] == word[i + width]);
            }
        }
        lemma_pieces_are_words(rest, width);
        assert forall|i: int| 0 <= i < pieces(word, width).len() implies one_word(
            #[trigger] pieces(word, width)[i],
        ) by {
            if i > 0 {
                assert(pieces(word, width)[i] == pieces(rest, width)[i - 1]);
            }
        }
    }
}

proof fn lemma_all_pieces_are_words(ws: Seq<Seq<char>>, width: nat)
    requires
        all_one_word(ws),
        width > 0,
    ensures
        all_one_word(all_pieces(ws, width)),
    decreases ws.len(),
{
    if ws.len() > 0 {
        lemma_rest_one_word(ws);
        let first = pieces(ws[0], width);
        let more = all_pieces(ws.drop_first(), width);
        lemma_pieces_are_words(ws[0], width);
        lemma_all_pieces_are_words(ws.drop_first(), width);
        assert forall|i: int| 0 <= i < all_pieces(ws, width).len() implies one_word(
            #[trigger] all_pieces(ws, width)[i],
        ) by {
            if i < first.len() {
                assert(all_pieces(ws, width)[i] == first[i]);
            } else {
                assert(all_pieces(ws, width)[i] == more[i - first.len()]);
            }
        }
    }
}

proof fn lemma_word_len_joined(s: Seq<char>, back: Seq<char>)
    requires
        back.len() > 0 ==> white_space(back[0]),
    ensures
        word_len(s + back) == word_len(s),
    decreases s.len(),
{
    if s.len() == 0 {
        assert(s + back =~= back);
    } else if !white_space(s[0]) {
        assert((s + back).drop_first() =~= s.drop_first() + back);
        lemma_word_len_joined(s.drop_first(), back);
    }
}

proof fn lemma_word_len_whole(s: Seq<char>)
    requires
        forall|i: int| 0 <= i < s.len() ==> !white_space(#[trigger] s[i]),
    ensures
        word_len(s) == s.len(),
    decreases s.len(),
{
    if s.len() > 0 {
        let rest = s.drop_first();
        assert forall|i: int| 0 <= i < rest.len() implies !white_space(#[trigger] rest[i]) by {
            assert(rest[i] == s[i + 1]);
        }
        lemma_word_len_whole(rest);
    }
}

proof fn lemma_breaks(line: Seq<char>, ps: Seq<Seq<char>>, width: nat)
    requires
        all_one_word(ps),
    ensures
        ({
            let all = lines_from(line, ps, width);
            &&& forall|i: int|
                0 <= i < all.len() - 1 ==> (#[trigger] all[i]).len() + 1 + word_len(all[i + 1])
                    > width
            &&& line.len() > 0 ==> all.len() > 0 && word_len(all[0]) == word_len(line)
        }),
    decreases ps.len(),
{
    let all = lines_from(line, ps, width);
    if ps.len() > 0 {
        let rest = ps.drop_first();
        lemma_rest_one_word(ps);
        lemma_word_len_whole(ps[0]);
        if line.len() == 0 {
            lemma_breaks(ps[0], rest, width);
        } else if line.len() + 1 + ps[0].len() <= width {
            let joined = with_space(line, ps[0]);
            lemma_breaks(joined, rest, width);
            assert(joined =~= line + (seq![' '] + ps[0]));
            lemma_word_len_joined(line, seq![' '] + ps[0]);
        } else {
            let more = lines_from(ps[0], rest, width);
            lemma_breaks(ps[0], rest, width);
            assert forall|i: int| 0 <= i < all.len() - 1 implies (#[trigger] all[i]).len() + 1
                + word_len(all[i + 1]) > width by {
                assert(all[i + 1] == more[i]);
                if i > 0 {
                    assert(all[i] == more[i - 1]);
                }
            }
        }
    }
}

/// A line ends only where it must: the first word of the next line, with a space before it, would
/// have had no room.
pub proof fn lines_break_only_where_they_must(s: Seq<char>, width: nat, max_lines: nat, i: int)
    requires
        width > 0,
        0 <= i < wrapped(s, width, max_lines).len() - 1,
        i < max_lines - 2 || all_lines(s, width).len() <= max_lines,
    ensures
        wrapped(s, width, max_lines)[i].len() + 1 + word_len(wrapped(s, width, max_lines)[i + 1])
            > width,
{
    lemma_words_are_words(s);
    lemma_all_pieces_are_words(words(s), width);
    lemma_breaks(Seq::empty(), all_pieces(words(s), width), width);
    let all = all_lines(s, width);
    assert(all[i].len() + 1 + word_len(all[i + 1]) > width);
}

/// The words of lines, one line behind the other.
pub open spec fn words_of(ls: Seq<Seq<char>>) -> Seq<Seq<char>>
    decreases ls.len(),
{
    if ls.len() == 0 {
        Seq::empty()
    } else {
        words(ls[0]) + words_of(ls.drop_first())
    }
}

proof fn lemma_trim_joined(s: Seq<char>, back: Seq<char>)
    ensures
        trim_start(s).len() > 0 ==> trim_start(s + back) == trim_start(s) + back,
        trim_start(s).len() == 0 ==> trim_start(s + back) == trim_start(back),
    decreases s.len(),
{
    if s.len() == 0 {
        assert(s + back =~= back);
    } else if white_space(s[0]) {
        assert((s + back).drop_first() =~= s.drop_first() + back);
        lemma_trim_joined(s.drop_first(), back);
    }
}

proof fn lemma_word_alone(p: Seq<char>)
    requires
        one_word(p),
    ensures
        words(p) == seq![p],
        trim_start(p) == p,
{
    lemma_word_len_whole(p);
    assert(!white_space(p[0]));
    assert(p.take(p.len() as int) =~= p);
    let rest = p.skip(p.len() as int);
    assert(rest =~= Seq::<char>::empty());
    assert(words(rest) =~= Seq::<Seq<char>>::empty());
    assert(seq![p] + words(rest) =~= seq![p]);
}

proof fn lemma_words_joined(s: Seq<char>, p: Seq<char>)
    requires
        one_word(p),
    ensures
        words(s + (seq![' '] + p)) == words(s) + seq![p],
    decreases trim_start(s).len(),
{
    let back = seq![' '] + p;
    let t = trim_start(s);
    lemma_trim_joined(s, back);
    lemma_trim_start(s);
    lemma_word_alone(p);
    if t.len() == 0 {
        assert(back.drop_first() =~= p);
        assert(trim_start(back) == p);
        assert(words(s + back) == words(p)) by {
            assert(trim_start(s + back) == trim_start(p));
        }
        assert(words(s) + seq![p] =~= seq![p]);
    } else {
        lemma_word_len(t);
        lemma_word_len_joined(t, back);
        let n = word_len(t) as int;
        let rest = t.skip(n);
        lemma_trim_start(rest);
        lemma_words_joined(rest, p);
        assert((t + back).take(n) =~= t.take(n));
        assert((t + back).skip(n) =~= rest + back);
        assert(seq![t.take(n)] + (words(rest) + seq![p]) =~= words(s) + seq![p]);
    }
}

proof fn lemma_lines_words(line: Seq<char>, ps: Seq<Seq<char>>, width: nat)
    requires
        all_one_word(ps),
    ensures
        words_of(lines_from(line, ps, width)) == if line.len() == 0 {
            ps
        } else {
            words(line) + ps
        },
    decreases ps.len(),
{
    let all = lines_from(line, ps, width);
    let none = Seq::<Seq<char>>::empty();
    if ps.len() == 0 {
        if line.len() > 0 {
            assert(all.drop_first() =~= none);
            assert(words_of(none) =~= none);
            assert(words_of(all) == words(all[0]) + words_of(all.drop_first()));
            assert(words_of(all) =~= words(line) + ps);
        } else {
            assert(words_of(all) =~= ps);
        }
    } else {
        let rest = ps.drop_first();
        lemma_rest_one_word(ps);
        lemma_word_alone(ps[0]);
        assert(seq![ps[0]] + rest =~= ps);
        if line.len() == 0 {
            lemma_lines_words(ps[0], rest, width);
        } else if line.len() + 1 + ps[0].len() <= width {
            let joined = with_space(line, ps[0]);
            assert(joined =~= line + (seq![' '] + ps[0]));
            lemma_words_joined(line, ps[0]);
            lemma_lines_words(joined, rest, width);
            assert(words(line) + seq![ps[0]] + rest =~= words(line) + ps);
        } else {
            lemma_lines_words(ps[0], rest, width);
            assert(all.drop_first() =~= lines_from(ps[0], rest, width));
        }
    }
}

proof fn lemma_short_words(ws: Seq<Seq<char>>, width: nat)
    requires
        forall|i: int| 0 <= i < ws.len() ==> (#[trigger] ws[i]).len() <= width,
    ensures
        all_pieces(ws, width) == ws,
    decreases ws.len(),
{
    if ws.len() > 0 {
        let rest = ws.drop_first();
        assert forall|i: int| 0 <= i < rest.len() implies (#[trigger] rest[i]).len() <= width by {
            assert(rest[i] == ws[i + 1]);
        }
        lemma_short_words(rest, width);
        assert(seq![ws[0]] + rest =~= ws);
    } else {
        assert(all_pieces(ws, width) =~= ws);
    }
}

/// Words stay whole: where each has room on a line, the words of the lines are those of the text,
/// in order, none broken and none run into the next.
pub proof fn words_stay_whole(s: Seq<char>, width: nat, max_lines: nat)
    requires
        width > 0,
        0 < all_lines(s, width).len() <= max_lines,
        forall|i: int| 0 <= i < words(s).len() ==> (#[trigger] words(s)[i]).len() <= width,
    ensures
        words_of(wrapped(s, width, max_lines)) == words(s),
{
    lemma_words_are_words(s);
    lemma_short_words(words(s), width);
    lemma_lines_words(Seq::empty(), words(s), width);
}

/// The words of a text hold all that is visible of it, and nothing else.
pub proof fn words_hold_what_is_visible(s: Seq<char>)
    ensures
        flat(words(s)) == visible(s),
        all_one_word(words(s)),
{
    lemma_words_visible(s);
    lemma_words_are_words(s);
    lemma_words_flat_visible(words(s));
}

proof fn lemma_words_flat_visible(ws: Seq<Seq<char>>)
    requires
        all_one_word(ws),
    ensures
        visible(flat(ws)) == flat(ws),
    decreases ws.len(),
{
    if ws.len() > 0 {
        lemma_rest_one_word(ws);
        lemma_words_flat_visible(ws.drop_first());
        lemma_visible_concat(ws[0], flat(ws.drop_first()));
        lemma_visible_whole(ws[0]);
    }
}

proof fn lemma_visible_whole(s: Seq<char>)
    requires
        forall|i: int| 0 <= i < s.len() ==> !white_space(#[trigger] s[i]),
    ensures
        visible(s) == s,
    decreases s.len(),
{
    if s.len() > 0 {
        let rest = s.drop_first();
        assert forall|i: int| 0 <= i < rest.len() implies !white_space(#[trigger] rest[i]) by {
            assert(rest[i] == s[i + 1]);
        }
        lemma_visible_whole(rest);
        assert(seq![s[0]] + rest =~= s);
    } else {
        assert(visible(s) =~= s);
    }
}

/// Whether a text begins with another.
pub open spec fn begins_with(s: Seq<char>, front: Seq<char>) -> bool {
    front.len() <= s.len() && s.take(front.len() as int) == front
}

proof fn lemma_flat_lines(all: Seq<Seq<char>>, n: int)
    requires
        0 <= n < all.len(),
    ensures
        flat(all) == flat(all.take(n)) + all[n] + flat(all.skip(n + 1)),
{
    let front = all.take(n);
    let back = all.skip(n + 1);
    lemma_flat_one(all[n], back);
    lemma_flat_concat(front, seq![all[n]] + back);
    assert(front + (seq![all[n]] + back) =~= all);
    assert(flat(front) + (all[n] + flat(back)) =~= flat(front) + all[n] + flat(back));
}

proof fn lemma_end_spaces_front(s: Seq<char>)
    ensures
        begins_with(s, without_end_spaces(s)),
    decreases s.len(),
{
    if s.len() > 0 && s.last() == ' ' {
        let t = without_end_spaces(s.drop_last());
        lemma_end_spaces_front(s.drop_last());
        assert(s.drop_last().take(t.len() as int) =~= s.take(t.len() as int));
    } else {
        assert(s.take(s.len() as int) =~= s);
    }
}

proof fn lemma_dotted(line: Seq<char>, width: nat) -> (base: Seq<char>)
    requires
        width >= 3,
    ensures
        with_dots(line, width) == base + seq!['.', '.', '.'],
        begins_with(line, base),
{
    let keep = (width - 3) as nat;
    let part = if line.len() <= keep {
        line
    } else {
        line.take(keep as int)
    };
    let base = without_end_spaces(part);
    lemma_end_spaces_front(part);
    assert(line.take(base.len() as int) =~= part.take(base.len() as int));
    assert(base.len() == 0 ==> base + dots() =~= dots());
    base
}

/// A wrapped text shows all that is visible of it, or it takes up every line it may, the last of
/// them ends in dots, and what stands before the dots is a front of what is visible. Which of the
/// two is a matter of room alone.
pub proof fn wrapped_text_shows_all_or_a_front(s: Seq<char>, width: nat, max_lines: nat)
    requires
        width >= 3,
        max_lines > 0,
        visible(s).len() > 0,
    ensures
        ({
            let lines = wrapped(s, width, max_lines);
            let shown = visible(flat(lines));
            if all_lines(s, width).len() <= max_lines {
                shown == visible(s)
            } else {
                &&& lines.len() == max_lines
                &&& lines.last().len() >= 3
                &&& lines.last().skip(lines.last().len() - 3) == seq!['.', '.', '.']
                &&& shown.len() >= 3
                &&& shown.skip(shown.len() - 3) == seq!['.', '.', '.']
                &&& begins_with(visible(s), shown.take(shown.len() - 3))
            }
        }),
{
    let all = all_lines(s, width);
    let ps = all_pieces(words(s), width);
    let none = Seq::<char>::empty();
    lemma_lines_visible(none, ps, width);
    lemma_all_pieces_flat(words(s), width);
    lemma_words_visible(s);
    let v = visible(flat(words(s)));
    assert(visible(none) + v =~= v);
    assert(visible(flat(all)) == visible(s));
    if all.len() == 0 {
        assert(flat(all) == none);
        assert(false);
    } else if all.len() <= max_lines {
        wrapping_keeps_the_text(s, width, max_lines);
    } else {
        let n = max_lines - 1;
        let line = all[n];
        let front = all.take(n);
        let back = flat(all.skip(n + 1));
        lemma_flat_lines(all, n);
        let base = lemma_dotted(line, width);
        let end = seq!['.', '.', '.'];
        let last = with_dots(line, width);
        let lines = wrapped(s, width, max_lines);
        assert(lines =~= front + seq![last]);
        lemma_flat_concat(front, seq![last]);
        lemma_flat_one(last, Seq::empty());
        assert(seq![last] + Seq::<Seq<char>>::empty() =~= seq![last]);
        assert(last + flat(Seq::<Seq<char>>::empty()) =~= last);
        assert(flat(lines) =~= flat(front) + base + end);
        lemma_visible_concat(flat(front) + base, end);
        lemma_visible_whole(end);
        let shown = visible(flat(front) + base);
        assert(visible(flat(lines)) == shown + end);
        assert((shown + end).skip(shown.len() as int) =~= end);
        assert((shown + end).take(shown.len() as int) =~= shown);
        let cut_off = line.skip(base.len() as int);
        assert(line =~= base + cut_off);
        assert(flat(all) =~= (flat(front) + base) + (cut_off + back));
        lemma_visible_concat(flat(front) + base, cut_off + back);
        assert(visible(s).take(shown.len() as int) =~= shown);
        assert(last.skip(last.len() - 3) =~= end);
        assert(lines.last() == last);
    }
}

/// A word that has room on a line is a line.
pub proof fn short_word_stands_alone(word: Seq<char>, width: nat, max_lines: nat)
    requires
        one_word(word),
        word.len() <= width,
        max_lines > 0,
    ensures
        wrapped(word, width, max_lines) == seq![word],
{
    lemma_word_alone(word);
    let ws = seq![word];
    lemma_short_words(ws, width);
    let none = Seq::<Seq<char>>::empty();
    assert(ws.drop_first() =~= none);
    assert(lines_from(word, none, width) == seq![word]);
    assert(lines_from(Seq::empty(), ws, width) == lines_from(word, none, width));
}

} // verus!
