//! The text layout engine: wraps a block of text into lines bounded by a
//! pixel width. Words are measured through the font's glyph metrics; the
//! greedy grouping of measured words into lines is verified exactly.

use vstd::prelude::*;

use crate::strings::{spec_join, spec_split, split_char, join_char};

verus! {

/// A measured word: its characters and its pixel width as the engine
/// accounts for it (glyph box plus space allowance).
pub open spec fn words_of(ws: Seq<(Seq<char>, int)>) -> Seq<Seq<char>> {
    ws.map_values(|w: (Seq<char>, int)| w.0)
}

/// The width the engine accounts to a line: the sum of its words' measured
/// widths.
pub open spec fn line_width(ws: Seq<(Seq<char>, int)>) -> int
    decreases ws.len(),
{
    if ws.len() == 0 {
        0
    } else {
        line_width(ws.drop_last()) + ws.last().1
    }
}

/// The greedy grouping of measured words into lines. `cur` is the open
/// line. When the next word would make the open line reach or exceed `max`,
/// the open line is emitted (even when empty) and the word starts a new
/// one. The final open line is always emitted.
pub open spec fn wrap_groups(
    ws: Seq<(Seq<char>, int)>,
    max: int,
    cur: Seq<(Seq<char>, int)>,
) -> Seq<Seq<(Seq<char>, int)>>
    decreases ws.len(),
{
    if ws.len() == 0 {
        seq![cur]
    } else if ws[0].1 + line_width(cur) >= max {
        seq![cur] + wrap_groups(ws.skip(1), max, seq![ws[0]])
    } else {
        wrap_groups(ws.skip(1), max, cur.push(ws[0]))
    }
}

/// The wrapped lines of one paragraph: each group joined with single
/// spaces.
pub open spec fn spec_wrap_para(ws: Seq<(Seq<char>, int)>, max: int) -> Seq<Seq<char>> {
    wrap_groups(ws, max, Seq::empty()).map_values(
        (|g: Seq<(Seq<char>, int)>| spec_join(words_of(g), ' ')),
    )
}

/// The wrapped lines of a whole text: the paragraphs' lines in order.
pub open spec fn spec_wrap_text(paras: Seq<Seq<(Seq<char>, int)>>, max: int) -> Seq<Seq<char>>
    decreases paras.len(),
{
    if paras.len() == 0 {
        Seq::<Seq<char>>::empty()
    } else {
        spec_wrap_text(paras.drop_last(), max) + spec_wrap_para(paras.last(), max)
    }
}

/// The words of `words` paired with the widths of `widths`, index by index.
pub open spec fn measured(words: Seq<String>, widths: Seq<u32>) -> Seq<(Seq<char>, int)>
    recommends
        words.len() == widths.len(),
{
    Seq::new(words.len(), |i: int| (words[i]@, widths[i] as int))
}

/// Wraps one paragraph, given as words with their measured widths, into
/// lines none of which (except a line holding a single overlong word)
/// reaches `max`.
pub fn wrap_words(words: &Vec<String>, widths: &Vec<u32>, max: u32) -> (r: Vec<String>)
    requires
        words@.len() == widths@.len(),
    ensures
        r@.map_values(|t: String| t@) == spec_wrap_para(measured(words@, widths@), max as int),
{
    let ghost ms = measured(words@, widths@);
    let space: &str = " ";
    proof {
        reveal_strlit(" ");
        assert(space@ =~= seq![' ']);
    }
    let mut out: Vec<String> = Vec::new();
    let mut cur: Vec<String> = Vec::new();
    let mut cur_w: u64 = 0;
    let ghost mut cur_g: Seq<(Seq<char>, int)> = Seq::empty();
    let mut i: usize = 0;
    proof {
        assert(ms.skip(0) =~= ms);
    }
    while i < words.len()
        invariant
            words@.len() == widths@.len(),
            space@ == seq![' '],
            ms == measured(words@, widths@),
            i <= words@.len(),
            cur_w <= u32::MAX as u64,
            cur_w == line_width(cur_g),
            words_of(cur_g) == cur@.map_values(|t: String| t@),
            spec_wrap_para(ms, max as int) == out@.map_values(|t: String| t@) + wrap_groups(
                ms.skip(i as int),
                max as int,
                cur_g,
            ).map_values((|g: Seq<(Seq<char>, int)>| spec_join(words_of(g), ' '))),
        decreases words@.len() - i,
    {
        let w64 = widths[i] as u64;
        proof {
            assert(ms.skip(i as int)[0] == ms[i as int]);
            assert(ms.skip(i as int).skip(1) =~= ms.skip(i as int + 1));
        }
        if w64 + cur_w >= max as u64 {
            let line = join_char(&cur, ' ', space);
            out.push(line);
            let mut fresh: Vec<String> = Vec::new();
            fresh.push(words[i].clone());
            cur = fresh;
            cur_w = widths[i] as u64;
            proof {
                cur_g = seq![ms[i as int]];
                assert(line_width(cur_g) == line_width(cur_g.drop_last()) + cur_g.last().1);
                assert(cur_g.drop_last() =~= Seq::<(Seq<char>, int)>::empty());
                assert(words_of(cur_g) =~= cur@.map_values(|t: String| t@));
                let f = (|g: Seq<(Seq<char>, int)>| spec_join(words_of(g), ' '));
                assert((seq![cur_g.drop_last()] + wrap_groups(
                    ms.skip(i as int).skip(1),
                    max as int,
                    cur_g,
                )).map_values(f) =~= seq![
                    f(cur_g.drop_last()),
                ] + wrap_groups(ms.skip(i as int).skip(1), max as int, cur_g).map_values(f));
                assert(out@.map_values(|t: String| t@) =~= out@.map_values(
                    |t: String| t@,
                ).drop_last().push(line@));
                assert(out@.map_values(|t: String| t@) + wrap_groups(
                    ms.skip(i as int + 1),
                    max as int,
                    cur_g,
                ).map_values(f) =~= spec_wrap_para(ms, max as int));
            }
        } else {
            let ghost prev_cur = cur@;
            let cloned = words[i].clone();
            cur.push(cloned);
            cur_w = cur_w + w64;
            proof {
                let prev = cur_g;
                cur_g = cur_g.push(ms[i as int]);
                assert(cur_g.drop_last() =~= prev);
                assert(cur_g.last() == ms[i as int]);
                assert(cur@ == prev_cur.push(words@[i as int]));
                assert(ms[i as int].0 == words@[i as int]@);
                assert forall|k: int| 0 <= k < cur_g.len() implies words_of(cur_g)[k]
                    == cur@.map_values(|t: String| t@)[k] by {
                    if k < prev.len() {
                        assert(cur_g[k] == prev[k]);
                        assert(cur@[k] == prev_cur[k]);
                        assert(words_of(prev)[k] == prev_cur.map_values(|t: String| t@)[k]);
                    } else {
                        assert(cur_g[k] == ms[i as int]);
                        assert(cur@[k] == words@[i as int]);
                    }
                }
                assert(words_of(cur_g) =~= cur@.map_values(|t: String| t@));
            }
        }
        i = i + 1;
    }
    proof {
        assert(ms.skip(i as int) =~= Seq::<(Seq<char>, int)>::empty());
    }
    let line = join_char(&cur, ' ', space);
    out.push(line);
    proof {
        let f = (|g: Seq<(Seq<char>, int)>| spec_join(words_of(g), ' '));
        assert(wrap_groups(Seq::<(Seq<char>, int)>::empty(), max as int, cur_g).map_values(f) =~=
        seq![f(cur_g)]);
        assert(out@.map_values(|t: String| t@) =~= spec_wrap_para(ms, max as int));
    }
    out
}

/// All measured widths are nonnegative.
pub open spec fn widths_nonneg(ws: Seq<(Seq<char>, int)>) -> bool {
    forall|i: int| 0 <= i < ws.len() ==> (#[trigger] ws[i]).1 >= 0
}

/// `line_width` also decomposes at the front.
pub proof fn lemma_line_width_head(ws: Seq<(Seq<char>, int)>)
    requires
        ws.len() > 0,
    ensures
        line_width(ws) == ws[0].1 + line_width(ws.skip(1)),
    decreases ws.len(),
{
    if ws.len() == 1 {
        assert(ws.skip(1) =~= Seq::<(Seq<char>, int)>::empty());
        assert(ws.drop_last() =~= Seq::<(Seq<char>, int)>::empty());
    } else {
        lemma_line_width_head(ws.drop_last());
        assert(ws.drop_last()[0] == ws[0]);
        assert(ws.drop_last().skip(1) =~= ws.skip(1).drop_last());
        assert(ws.skip(1).last() == ws.last());
    }
}

/// A line of nonnegative words has nonnegative width.
pub proof fn lemma_line_width_nonneg(ws: Seq<(Seq<char>, int)>)
    requires
        widths_nonneg(ws),
    ensures
        line_width(ws) >= 0,
    decreases ws.len(),
{
    if ws.len() > 0 {
        assert(widths_nonneg(ws.drop_last())) by {
            assert(forall|i: int|
                0 <= i < ws.len() - 1 ==> (#[trigger] ws.drop_last()[i]) == ws[i]);
        }
        lemma_line_width_nonneg(ws.drop_last());
        assert(ws.last() == ws[ws.len() - 1]);
    }
}

proof fn lemma_widths_nonneg_skip(ws: Seq<(Seq<char>, int)>)
    requires
        widths_nonneg(ws),
        ws.len() > 0,
    ensures
        widths_nonneg(ws.skip(1)),
{
    assert(forall|i: int| 0 <= i < ws.len() - 1 ==> (#[trigger] ws.skip(1)[i]) == ws[i + 1]);
}

proof fn lemma_wrap_bound_general(ws: Seq<(Seq<char>, int)>, max: int, cur: Seq<(Seq<char>, int)>)
    requires
        widths_nonneg(ws),
        cur.len() <= 1 || line_width(cur) < max,
    ensures
        forall|k: int|
            0 <= k < wrap_groups(ws, max, cur).len() ==> ((#[trigger] wrap_groups(ws, max, cur)[k]).len()
                <= 1 || line_width(wrap_groups(ws, max, cur)[k]) < max),
    decreases ws.len(),
{
    if ws.len() == 0 {
    } else {
        lemma_widths_nonneg_skip(ws);
        if ws[0].1 + line_width(cur) >= max {
            lemma_wrap_bound_general(ws.skip(1), max, seq![ws[0]]);
            let g = wrap_groups(ws, max, cur);
            let rest = wrap_groups(ws.skip(1), max, seq![ws[0]]);
            assert forall|k: int| 0 <= k < g.len() implies ((#[trigger] g[k]).len() <= 1
                || line_width(g[k]) < max) by {
                if k == 0 {
                    assert(g[0] == cur);
                } else {
                    assert(g[k] == rest[k - 1]);
                    assert(rest[k - 1].len() <= 1 || line_width(rest[k - 1]) < max);
                }
            }
        } else {
            let cur2 = cur.push(ws[0]);
            assert(line_width(cur2) == line_width(cur) + ws[0].1) by {
                assert(cur2.drop_last() =~= cur);
            }
            lemma_wrap_bound_general(ws.skip(1), max, cur2);
            assert(wrap_groups(ws, max, cur) == wrap_groups(ws.skip(1), max, cur2));
        }
    }
}

/// Wrapping bound: every emitted line other than one that holds at most a
/// single (possibly overlong) word has measured width below `max`. The
/// measured width of a line is the sum of its words' measured widths,
/// exactly the quantity the engine accumulates.
pub proof fn lemma_wrap_bound(ws: Seq<(Seq<char>, int)>, max: int)
    requires
        widths_nonneg(ws),
    ensures
        forall|k: int|
            0 <= k < wrap_groups(ws, max, Seq::empty()).len() ==> ((#[trigger] wrap_groups(
                ws,
                max,
                Seq::empty(),
            )[k]).len() <= 1 || line_width(wrap_groups(ws, max, Seq::empty())[k]) < max),
{
    lemma_wrap_bound_general(ws, max, Seq::empty());
}

/// Every paragraph emits at least one line.
pub proof fn lemma_wrap_para_at_least_one(
    ws: Seq<(Seq<char>, int)>,
    max: int,
    cur: Seq<(Seq<char>, int)>,
)
    ensures
        wrap_groups(ws, max, cur).len() >= 1,
    decreases ws.len(),
{
    if ws.len() == 0 {
    } else if ws[0].1 + line_width(cur) >= max {
        lemma_wrap_para_at_least_one(ws.skip(1), max, seq![ws[0]]);
    } else {
        lemma_wrap_para_at_least_one(ws.skip(1), max, cur.push(ws[0]));
    }
}

proof fn lemma_wrap_para_fits_general(
    ws: Seq<(Seq<char>, int)>,
    max: int,
    cur: Seq<(Seq<char>, int)>,
)
    requires
        widths_nonneg(ws),
        line_width(cur) + line_width(ws) < max,
    ensures
        wrap_groups(ws, max, cur).len() == 1,
    decreases ws.len(),
{
    if ws.len() == 0 {
    } else {
        lemma_widths_nonneg_skip(ws);
        lemma_line_width_head(ws);
        lemma_line_width_nonneg(ws.skip(1));
        assert(ws[0].1 + line_width(cur) < max);
        let cur2 = cur.push(ws[0]);
        assert(line_width(cur2) == line_width(cur) + ws[0].1) by {
            assert(cur2.drop_last() =~= cur);
        }
        lemma_wrap_para_fits_general(ws.skip(1), max, cur2);
    }
}

/// A paragraph whose total measured width is under `max` emits exactly one
/// line.
pub proof fn lemma_wrap_para_fits(ws: Seq<(Seq<char>, int)>, max: int)
    requires
        widths_nonneg(ws),
        line_width(ws) < max,
    ensures
        spec_wrap_para(ws, max).len() == 1,
{
    lemma_wrap_para_fits_general(ws, max, Seq::empty());
}

/// Wrapping paragraph count: a text of `n` paragraphs emits at least `n`
/// lines, and exactly `n` when every paragraph's total measured width is
/// under `max`.
pub proof fn lemma_wrap_text_counts(paras: Seq<Seq<(Seq<char>, int)>>, max: int)
    requires
        forall|j: int| 0 <= j < paras.len() ==> widths_nonneg(#[trigger] paras[j]),
    ensures
        spec_wrap_text(paras, max).len() >= paras.len(),
        (forall|j: int| 0 <= j < paras.len() ==> line_width(#[trigger] paras[j]) < max)
            ==> spec_wrap_text(paras, max).len() == paras.len(),
    decreases paras.len(),
{
    if paras.len() == 0 {
    } else {
        let front = paras.drop_last();
        assert(forall|j: int| 0 <= j < front.len() ==> (#[trigger] front[j]) == paras[j]);
        lemma_wrap_text_counts(front, max);
        lemma_wrap_para_at_least_one(paras.last(), max, Seq::empty());
        assert(paras.last() == paras[paras.len() - 1]);
        if forall|j: int| 0 <= j < paras.len() ==> line_width(#[trigger] paras[j]) < max {
            lemma_wrap_para_fits(paras.last(), max);
        }
    }
}

/// Wrapping paragraph count at the whole-text level: for any measurement
/// `wrap_text` can have used, the emitted lines are at least as many as the
/// newline-delimited paragraphs of the input, and exactly as many when
/// every paragraph's total measured width is under the budget.
pub proof fn lemma_wrap_text_line_count(text: Seq<char>, m: Seq<Seq<(Seq<char>, int)>>, max: int)
    requires
        wrap_text_measurement(text, m),
    ensures
        spec_wrap_text(m, max).len() >= spec_split(text, '\n').len(),
        (forall|j: int| 0 <= j < m.len() ==> line_width(#[trigger] m[j]) < max)
            ==> spec_wrap_text(m, max).len() == spec_split(text, '\n').len(),
{
    lemma_wrap_text_counts(m, max);
}

/// Declares rusttype's font type so values of it can flow through verified
/// code; the library never looks inside one.
#[verifier::external_type_specification]
#[verifier::external_body]
pub struct ExFont<'a>(rusttype::Font<'a>);

/// Declares rusttype's glyph scale so values of it can flow through
/// verified code; the library never looks inside one.
#[verifier::external_type_specification]
#[verifier::external_body]
pub struct ExScale(rusttype::Scale);

/// Declares rusttype's positioned glyph so the measurement loop can hold
/// the glyphs of a laid-out word.
#[verifier::external_type_specification]
#[verifier::external_body]
pub struct ExPositionedGlyph<'a>(rusttype::PositionedGlyph<'a>);

/// Relies on rusttype's Font::layout: lays `text` out at `scale` from the
/// origin and collects its positioned glyphs.
#[verifier::external_body]
fn layout_glyphs<'a, 'f>(
    font: &'a rusttype::Font<'f>,
    scale: rusttype::Scale,
    text: &str,
) -> Vec<rusttype::PositionedGlyph<'f>> {
    font.layout(text, scale, rusttype::point(0u8.into(), 0u8.into())).collect()
}

/// Relies on rusttype's PositionedGlyph::pixel_bounding_box: the pixel
/// bounds of the glyph, if it has visible extent; hands back the box's
/// horizontal extremes.
#[verifier::external_body]
fn glyph_box_x<'f>(g: &rusttype::PositionedGlyph<'f>) -> Option<(i32, i32)> {
    match g.pixel_bounding_box() {
        Some(bb) => Some((bb.min.x, bb.max.x)),
        None => None,
    }
}

/// The measured advance of one space at `scale`: the summed left bearings
/// of the glyphs of the probe string " .", since the space glyph itself has
/// no visible bounding box. The result depends on the opaque font value, so
/// nothing further is stated of it.
fn space_width(font: &rusttype::Font<'_>, scale: rusttype::Scale) -> u32 {
    let glyphs = layout_glyphs(font, scale, " .");
    let mut total: u64 = 0;
    let mut i: usize = 0;
    while i < glyphs.len()
        invariant
            total <= u32::MAX as u64,
        decreases glyphs.len() - i,
    {
        match glyph_box_x(&glyphs[i]) {
            Some((min_x, _)) => {
                if min_x > 0 {
                    let add = min_x as u64;
                    if total + add <= u32::MAX as u64 {
                        total = total + add;
                    } else {
                        total = u32::MAX as u64;
                    }
                }
            },
            None => {},
        }
        i = i + 1;
    }
    total as u32
}

/// The measured width of `word` at `scale`: each glyph's pixel-box width
/// plus one space allowance, summed, saturating at the widest expressible
/// width. The result depends on the opaque font value, so nothing further
/// is stated of it.
fn word_width(font: &rusttype::Font<'_>, scale: rusttype::Scale, word: &str, space_w: u32) -> u32 {
    let glyphs = layout_glyphs(font, scale, word);
    let mut total: u64 = 0;
    let mut i: usize = 0;
    while i < glyphs.len()
        invariant
            total <= u32::MAX as u64,
        decreases glyphs.len() - i,
    {
        match glyph_box_x(&glyphs[i]) {
            Some((min_x, max_x)) => {
                let wide = max_x as i64 - min_x as i64;
                let box_w: u64 = if wide > 0 {
                    wide as u64
                } else {
                    0
                };
                let add = box_w + space_w as u64;
                if total + add <= u32::MAX as u64 {
                    total = total + add;
                } else {
                    total = u32::MAX as u64;
                }
            },
            None => {},
        }
        i = i + 1;
    }
    total as u32
}

/// What `wrap_text` guarantees of a measurement `m`: its words are exactly
/// the space-split words of the newline-split paragraphs of `text`, with
/// nonnegative widths.
pub open spec fn wrap_text_measurement(text: Seq<char>, m: Seq<Seq<(Seq<char>, int)>>) -> bool {
    let paras = spec_split(text, '\n');
    &&& m.len() == paras.len()
    &&& (forall|j: int| 0 <= j < m.len() ==> words_of(#[trigger] m[j]) == spec_split(paras[j], ' '))
    &&& (forall|j: int| 0 <= j < m.len() ==> widths_nonneg(#[trigger] m[j]))
}

/// Wraps `text` against a pixel budget `max`, measuring words with `font`
/// at `scale`. Paragraph boundaries (`\n`) are hard breaks; words never
/// split; every paragraph emits at least one line.
pub fn wrap_text(text: &str, max: u32, font: &rusttype::Font<'_>, scale: rusttype::Scale) -> (r:
    Vec<String>)
    ensures
        r@.len() >= spec_split(text@, '\n').len(),
        exists|m: Seq<Seq<(Seq<char>, int)>>|
            #[trigger] wrap_text_measurement(text@, m) && r@.map_values(|t: String| t@)
                == spec_wrap_text(m, max as int),
{
    let sw = space_width(font, scale);
    let paras: Vec<String> = split_char(text, '\n');
    let mut out: Vec<String> = Vec::new();
    let ghost mut m: Seq<Seq<(Seq<char>, int)>> = Seq::empty();
    let mut j: usize = 0;
    while j < paras.len()
        invariant
            paras@.map_values(|t: String| t@) == spec_split(text@, '\n'),
            j <= paras@.len(),
            m.len() == j,
            forall|k: int|
                0 <= k < j ==> words_of(#[trigger] m[k]) == spec_split(
                    paras@.map_values(|t: String| t@)[k],
                    ' ',
                ),
            forall|k: int| 0 <= k < j ==> widths_nonneg(#[trigger] m[k]),
            out@.map_values(|t: String| t@) == spec_wrap_text(m, max as int),
        decreases paras@.len() - j,
    {
        let words: Vec<String> = split_char(paras[j].as_str(), ' ');
        let mut widths: Vec<u32> = Vec::new();
        let mut k: usize = 0;
        while k < words.len()
            invariant
                k <= words@.len(),
                widths@.len() == k,
            decreases words@.len() - k,
        {
            let w = word_width(font, scale, words[k].as_str(), sw);
            widths.push(w);
            k = k + 1;
        }
        let mut lines = wrap_words(&words, &widths, max);
        let ghost mj = measured(words@, widths@);
        let ghost prev_m = m;
        let ghost prev_out = out@.map_values(|t: String| t@);
        proof {
            m = m.push(mj);
            assert(m.drop_last() =~= prev_m);
            assert(words_of(mj) =~= spec_split(paras@.map_values(|t: String| t@)[j as int], ' '));
            assert(widths_nonneg(mj));
        }
        out.append(&mut lines);
        proof {
            assert(out@.map_values(|t: String| t@) =~= prev_out + spec_wrap_para(mj, max as int));
            assert(out@.map_values(|t: String| t@) == spec_wrap_text(m, max as int));
            assert(forall|k: int|
                0 <= k < j ==> words_of(#[trigger] m[k]) == spec_split(
                    paras@.map_values(|t: String| t@)[k],
                    ' ',
                ));
        }
        j = j + 1;
    }
    proof {
        assert(paras@.map_values(|t: String| t@).len() == paras@.len());
        assert(wrap_text_measurement(text@, m));
        lemma_wrap_text_counts(m, max as int);
        assert(out@.map_values(|t: String| t@).len() == out@.len());
    }
    out
}

} // verus!
