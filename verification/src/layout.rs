//! Text layout engine: greedy fixed-width word-wrap and block layout with
//! truncation. The vector template format has no native paragraph flow, so
//! line breaks must be computed before text is emitted into the document.

use vstd::prelude::*;
use crate::text::push_all;

verus! {

/// Words of `s` not yet flushed, with `cur` the word being read.
pub open spec fn words_acc(s: Seq<char>, cur: Seq<char>) -> Seq<Seq<char>>
    decreases s.len(),
{
    if s.len() == 0 {
        if cur.len() == 0 {
            Seq::empty()
        } else {
            seq![cur]
        }
    } else if s[0] == ' ' {
        (if cur.len() == 0 {
            Seq::<Seq<char>>::empty()
        } else {
            seq![cur]
        }) + words_acc(s.skip(1), Seq::empty())
    } else {
        words_acc(s.skip(1), cur.push(s[0]))
    }
}

/// The maximal space-free runs of `s`, in order.
pub open spec fn words_of(s: Seq<char>) -> Seq<Seq<char>> {
    words_acc(s, Seq::empty())
}

/// The length of `ws` joined by single spaces.
pub open spec fn join_len(ws: Seq<Seq<char>>) -> int
    decreases ws.len(),
{
    if ws.len() == 0 {
        0
    } else if ws.len() == 1 {
        ws[0].len() as int
    } else {
        ws[0].len() + 1 + join_len(ws.skip(1))
    }
}

/// `ws` joined by single spaces.
pub open spec fn join_words(ws: Seq<Seq<char>>) -> Seq<char>
    decreases ws.len(),
{
    if ws.len() == 0 {
        Seq::empty()
    } else if ws.len() == 1 {
        ws[0]
    } else {
        ws[0] + seq![' '] + join_words(ws.skip(1))
    }
}

/// Greedy wrap: each line takes as many words as fit in `width`; a word is
/// never split, so a word longer than `width` overflows its own line.
/// Lines are represented by the words they carry.
pub open spec fn wrap_lines(ws: Seq<Seq<char>>, width: int, cur: Seq<Seq<char>>) -> Seq<
    Seq<Seq<char>>,
>
    decreases ws.len(),
{
    if ws.len() == 0 {
        if cur.len() == 0 {
            Seq::empty()
        } else {
            seq![cur]
        }
    } else if cur.len() == 0 {
        wrap_lines(ws.skip(1), width, seq![ws[0]])
    } else if join_len(cur) + 1 + ws[0].len() <= width {
        wrap_lines(ws.skip(1), width, cur.push(ws[0]))
    } else {
        seq![cur] + wrap_lines(ws.skip(1), width, seq![ws[0]])
    }
}

/// The wrapped lines of `s`, as word lists. A text without words still
/// yields one (empty) line.
pub open spec fn spec_wrap_words(s: Seq<char>, width: int) -> Seq<Seq<Seq<char>>> {
    if words_of(s).len() == 0 {
        seq![Seq::<Seq<char>>::empty()]
    } else {
        wrap_lines(words_of(s), width, Seq::empty())
    }
}

/// The wrapped lines of `s`, as texts.
pub open spec fn spec_wrap(s: Seq<char>, width: int) -> Seq<Seq<char>> {
    spec_wrap_words(s, width).map(|k: int, lw: Seq<Seq<char>>| join_words(lw))
}

pub open spec fn flat_words(lls: Seq<Seq<Seq<char>>>) -> Seq<Seq<char>>
    decreases lls.len(),
{
    if lls.len() == 0 {
        Seq::empty()
    } else {
        lls[0] + flat_words(lls.skip(1))
    }
}

/// Joining words is one space shorter than a space per word.
proof fn lemma_join_len(ws: Seq<Seq<char>>)
    ensures
        join_words(ws).len() == join_len(ws),
        ws.len() >= 1 ==> join_len(ws) >= ws[0].len(),
    decreases ws.len(),
{
    if ws.len() <= 1 {
    } else {
        lemma_join_len(ws.skip(1));
    }
}

/// Greedy wrapping drops no word and invents none: the lines' words,
/// flattened in order, are exactly the input words (preceded by whatever was
/// already on the open line). In particular no word is ever split across two
/// lines.
pub proof fn lemma_wrap_preserves_words(ws: Seq<Seq<char>>, width: int, cur: Seq<Seq<char>>)
    ensures
        flat_words(wrap_lines(ws, width, cur)) == cur + ws,
    decreases ws.len(),
{
    if ws.len() == 0 {
        if cur.len() == 0 {
            assert(flat_words(wrap_lines(ws, width, cur)) =~= cur + ws);
        } else {
            assert(seq![cur].skip(1) =~= Seq::<Seq<Seq<char>>>::empty());
            assert(flat_words(Seq::<Seq<Seq<char>>>::empty()) == Seq::<Seq<char>>::empty());
            assert(flat_words(seq![cur]) =~= cur + ws);
        }
    } else if cur.len() == 0 {
        lemma_wrap_preserves_words(ws.skip(1), width, seq![ws[0]]);
        assert(seq![ws[0]] + ws.skip(1) =~= cur + ws);
    } else if join_len(cur) + 1 + ws[0].len() <= width {
        lemma_wrap_preserves_words(ws.skip(1), width, cur.push(ws[0]));
        assert(cur.push(ws[0]) + ws.skip(1) =~= cur + ws);
    } else {
        lemma_wrap_preserves_words(ws.skip(1), width, seq![ws[0]]);
        let rest = wrap_lines(ws.skip(1), width, seq![ws[0]]);
        assert((seq![cur] + rest).skip(1) =~= rest);
        assert(flat_words(seq![cur] + rest) =~= cur + flat_words(rest));
        assert(cur + (seq![ws[0]] + ws.skip(1)) =~= cur + ws);
    }
}

/// When the open line plus all remaining words fit in `width` together, the
/// greedy wrap closes with exactly one line.
proof fn lemma_wrap_one_line(ws: Seq<Seq<char>>, width: int, cur: Seq<Seq<char>>)
    requires
        cur.len() >= 1,
        join_len(cur) + (if ws.len() == 0 {
            0
        } else {
            1 + join_len(ws)
        }) <= width,
    ensures
        wrap_lines(ws, width, cur).len() == 1,
    decreases ws.len(),
{
    if ws.len() == 0 {
    } else {
        assert(join_len(ws) >= ws[0].len()) by {
            lemma_join_len(ws);
        }
        assert(join_len(cur) + 1 + ws[0].len() <= width);
        let cur2 = cur.push(ws[0]);
        assert(join_len(cur2) == join_len(cur) + 1 + ws[0].len()) by {
            lemma_join_len_push(cur, ws[0]);
        }
        if ws.len() == 1 {
            lemma_wrap_one_line(ws.skip(1), width, cur2);
        } else {
            assert(join_len(ws) == ws[0].len() + 1 + join_len(ws.skip(1)));
            lemma_wrap_one_line(ws.skip(1), width, cur2);
        }
    }
}

/// Appending a word to a line adds the word and one separating space.
proof fn lemma_join_len_push(ws: Seq<Seq<char>>, w: Seq<char>)
    requires
        ws.len() >= 1,
    ensures
        join_len(ws.push(w)) == join_len(ws) + 1 + w.len(),
        join_words(ws.push(w)) == join_words(ws) + seq![' '] + w,
    decreases ws.len(),
{
    if ws.len() == 1 {
        let p = ws.push(w);
        assert(p.skip(1) =~= seq![w]);
        assert(p[0] == ws[0]);
        assert(join_len(seq![w]) == w.len());
        assert(join_words(seq![w]) == w);
        assert(join_len(p) == p[0].len() + 1 + join_len(p.skip(1)));
        assert(join_words(p) == p[0] + seq![' '] + join_words(p.skip(1)));
        assert(ws[0] + seq![' '] + w =~= join_words(ws) + seq![' '] + w);
    } else {
        lemma_join_len_push(ws.skip(1), w);
        let p = ws.push(w);
        assert(p.skip(1) =~= ws.skip(1).push(w));
        assert(p[0] == ws[0]);
        assert(p.len() >= 2);
        assert(join_len(p) == p[0].len() + 1 + join_len(p.skip(1)));
        assert(join_words(p) == p[0] + seq![' '] + join_words(p.skip(1)));
        assert(join_len(ws) == ws[0].len() + 1 + join_len(ws.skip(1)));
        assert(join_words(ws) == ws[0] + seq![' '] + join_words(ws.skip(1)));
        assert(ws[0] + seq![' '] + (join_words(ws.skip(1)) + seq![' '] + w) =~= (ws[0] + seq![' ']
            + join_words(ws.skip(1))) + seq![' '] + w);
    }
}

/// Every word is nonempty: a word is only ever closed once it has a
/// character.
proof fn lemma_words_nonempty(s: Seq<char>, cur: Seq<char>)
    ensures
        forall|k: int|
            0 <= k < words_acc(s, cur).len() ==> #[trigger] words_acc(s, cur)[k].len() >= 1,
    decreases s.len(),
{
    if s.len() == 0 {
        if cur.len() > 0 {
            assert forall|k: int| 0 <= k < words_acc(s, cur).len() implies #[trigger] words_acc(
                s,
                cur,
            )[k].len() >= 1 by {
                assert(words_acc(s, cur) == seq![cur]);
                assert(words_acc(s, cur)[k] == cur);
            }
        }
    } else if s[0] == ' ' {
        lemma_words_nonempty(s.skip(1), Seq::empty());
        if cur.len() == 0 {
            assert forall|k: int| 0 <= k < words_acc(s, cur).len() implies #[trigger] words_acc(
                s,
                cur,
            )[k].len() >= 1 by {
                assert(Seq::<Seq<char>>::empty() + words_acc(s.skip(1), Seq::empty())
                    =~= words_acc(s.skip(1), Seq::empty()));
                assert(words_acc(s, cur)[k] == words_acc(s.skip(1), Seq::empty())[k]);
            }
        } else {
            assert forall|k: int| 0 <= k < words_acc(s, cur).len() implies #[trigger] words_acc(
                s,
                cur,
            )[k].len() >= 1 by {
                if k >= 1 {
                    assert(words_acc(s, cur)[k] == words_acc(s.skip(1), Seq::empty())[k - 1]);
                } else {
                    assert(words_acc(s, cur)[0] == cur);
                }
            }
        }
    } else {
        lemma_words_nonempty(s.skip(1), cur.push(s[0]));
        assert forall|k: int| 0 <= k < words_acc(s, cur).len() implies #[trigger] words_acc(
            s,
            cur,
        )[k].len() >= 1 by {
            assert(words_acc(s, cur)[k] == words_acc(s.skip(1), cur.push(s[0]))[k]);
        }
    }
}

/// Total joined length of the words of `s` is at most the length of `s`.
proof fn lemma_words_len(s: Seq<char>, cur: Seq<char>)
    ensures
        join_len(words_acc(s, cur)) <= s.len() + cur.len(),
    decreases s.len(),
{
    if s.len() == 0 {
    } else if s[0] == ' ' {
        lemma_words_len(s.skip(1), Seq::empty());
        if cur.len() == 0 {
            assert(Seq::<Seq<char>>::empty() + words_acc(s.skip(1), Seq::empty()) =~= words_acc(
                s.skip(1),
                Seq::empty(),
            ));
        } else {
            lemma_join_len_concat_front(cur, words_acc(s.skip(1), Seq::empty()));
        }
    } else {
        lemma_words_len(s.skip(1), cur.push(s[0]));
    }
}

/// Prepending one word to a word list costs the word and at most one space.
proof fn lemma_join_len_concat_front(w: Seq<char>, ws: Seq<Seq<char>>)
    ensures
        join_len(seq![w] + ws) <= w.len() + 1 + join_len(ws),
        join_len(ws) >= 0,
    decreases ws.len(),
{
    if ws.len() == 0 {
        assert((seq![w] + ws) =~= seq![w]);
    } else {
        lemma_join_len_concat_front(ws[0], ws.skip(1));
        let c = seq![w] + ws;
        assert(c.skip(1) =~= ws);
        assert(c.len() >= 2);
        assert(join_len(c) == w.len() + 1 + join_len(ws));
    }
}

/// Wrap `text` into lines at most `max_width` characters wide where
/// possible, greedily, never splitting a word.
pub fn wrap(text: &str, max_width: usize) -> (r: Vec<String>)
    ensures
        r@.len() == spec_wrap(text@, max_width as int).len(),
        forall|k: int| 0 <= k < r@.len() ==> r@[k]@ == spec_wrap(text@, max_width as int)[k],
{
    let chars = crate::text::chars_of(text);
    let lines = wrap_chars(&chars, max_width);
    let mut out: Vec<String> = Vec::new();
    let mut i: usize = 0;
    while i < lines.len()
        invariant
            i <= lines@.len(),
            out@.len() == i,
            forall|k: int| 0 <= k < i ==> out@[k]@ == lines@[k]@,
        decreases lines@.len() - i,
    {
        out.push(crate::text::string_from_chars(&lines[i]));
        i += 1;
    }
    out
}

fn ellipsis_chars() -> (r: Vec<char>)
    ensures
        r@ == ellipsis_marker(),
{
    let mut v: Vec<char> = Vec::new();
    v.push('*');
    v.push(' ');
    v.push('*');
    v.push(' ');
    v.push('*');
    proof {
        assert(v@ =~= ellipsis_marker());
    }
    v
}

fn make_run(x: i32, ypos: i64, text: &Vec<char>) -> (r: TextRun)
    ensures
        r@ == (RunV { x: x as int, y: ypos as int, text: text@ }),
{
    TextRun { x, y: ypos, text: crate::text::string_from_chars(text) }
}

/// Lay the items out as positioned text runs. Items are wrapped to
/// `max_width`, placed in order, each on a fresh line with a blank separator
/// line after it; content past the last allowed line slot is replaced by the
/// ellipsis marker; an item that would not fit at all is withheld unless it
/// is the first.
///
/// The bounds on the cap, the font size and the line-height scale only keep
/// the vertical positions within their machine type; the template's fields
/// sit far inside them.
pub fn layout_block(
    items: &Vec<String>,
    max_lines: usize,
    max_width: usize,
    x: i32,
    y: i32,
    font_size: u32,
    line_height_tenths: u32,
) -> (r: Vec<TextRun>)
    requires
        1 <= max_lines <= 100_000,
        font_size <= 10_000,
        line_height_tenths <= 100,
    ensures
        ({
            let runs = spec_layout_block(
                items@.map(|k: int, s: String| s@),
                max_lines as int,
                max_width as int,
                x as int,
                y as int,
                font_size as int,
                line_height_tenths as int,
            );
            r@.len() == runs.len() && (forall|k: int| 0 <= k < r@.len() ==> r@[k]@ == runs[k])
        }),
{
    let ghost itemsv = items@.map(|k: int, s: String| s@);
    let ghost maxli = max_lines as int;
    let ghost wi = max_width as int;
    let ghost xi = x as int;
    proof {
        assert(font_size * line_height_tenths <= 10_000 * 100) by (nonlinear_arith)
            requires
                font_size <= 10_000,
                line_height_tenths <= 100,
        ;
    }
    let lh: u32 = font_size * line_height_tenths / 10;
    let ghost lhi = lh as int;
    proof {
        assert(lhi == (font_size as int) * (line_height_tenths as int) / 10);
        assert(lhi <= 100_000);
    }
    let ghost target = spec_layout_items(itemsv, wi, xi, y as int, lhi, maxli, 0);
    let mut out: Vec<TextRun> = Vec::new();
    let ghost mut done: Seq<RunV> = Seq::empty();
    let mut cur: usize = 0;
    let mut ypos: i64 = y as i64;
    let mut j: usize = 0;
    proof {
        assert(itemsv.skip(0) =~= itemsv);
        assert(Seq::<RunV>::empty() + target =~= target);
    }
    while j < items.len()
        invariant
            1 <= max_lines <= 100_000,
            lh <= 100_000,
            j <= items@.len(),
            itemsv == items@.map(|k: int, s: String| s@),
            itemsv.len() == items@.len(),
            maxli == max_lines as int,
            wi == max_width as int,
            xi == x as int,
            lhi == lh as int,
            lhi == (font_size as int) * (line_height_tenths as int) / 10,
            target == spec_layout_items(itemsv, wi, xi, y as int, lhi, maxli, 0),
            cur <= max_lines + 1,
            ypos == y + cur * lh,
            done + spec_layout_items(itemsv.skip(j as int), wi, xi, ypos as int, lh as int, max_lines as int, cur as int) == target,
            out@.len() == done.len(),
            forall|k: int| 0 <= k < out@.len() ==> out@[k]@ == done[k],
        decreases items@.len() - j,
    {
        let ghost remi = itemsv.skip(j as int);
        proof {
            assert(remi[0] == itemsv[j as int]);
            assert(itemsv[j as int] == items@[j as int]@);
            assert(remi.skip(1) =~= itemsv.skip(j + 1));
        }
        let item_chars = crate::text::chars_of(&items[j]);
        let lines = wrap_chars(&item_chars, max_width);
        let ghost linesv = spec_wrap(itemsv[j as int], wi);
        proof {
            assert(lines@.len() == linesv.len());
        }
        if (cur >= max_lines || lines.len() >= max_lines - cur) && cur != 0 {
            proof {
                assert(spec_layout_items(remi, wi, xi, ypos as int, lh as int, max_lines as int, cur as int)
                    =~= Seq::<RunV>::empty());
                assert(done + Seq::<RunV>::empty() =~= done);
                assert(done =~= target);
            }
            return out;
        }
        proof {
            assert(!(cur + linesv.len() >= maxli && cur != 0));
        }
        let ghost y_entry = ypos as int;
        let ghost cur_entry = cur as int;
        let ghost done_j = done;
        let ghost pw = spec_place_lines(linesv, xi, y_entry, lhi, maxli, cur_entry);
        let mut k: usize = 0;
        proof {
            assert(linesv.skip(0) =~= linesv);
            assert(remi.len() >= 1);
            assert(done.subrange(done_j.len() as int, done.len() as int)
                =~= Seq::<RunV>::empty());
            assert(Seq::<RunV>::empty() + pw.0 =~= pw.0);
            assert(done.subrange(0, done_j.len() as int) =~= done_j);
            if cur != 0 {
                assert(cur < max_lines);
                assert(lines@.len() < max_lines - cur);
                assert(linesv.len() >= 1) by {
                    lemma_wrap_nonempty(remi[0], wi);
                }
                assert(cur <= max_lines - 2);
            }
        }
        while k < lines.len()
            invariant
                1 <= max_lines <= 100_000,
                lh <= 100_000,
                k <= lines@.len(),
                lines@.len() == linesv.len(),
                forall|q: int| 0 <= q < lines@.len() ==> lines@[q]@ == linesv[q],
                cur <= max_lines,
                k < lines@.len() ==> cur <= max_lines - 1,
                ypos == y + cur * lh,
                remi == itemsv.skip(j as int),
                remi.len() >= 1,
                linesv == spec_wrap(remi[0], wi),
                !(cur_entry + linesv.len() >= maxli && cur_entry != 0),
                maxli == max_lines as int,
                wi == max_width as int,
                xi == x as int,
                lhi == lh as int,
                lhi == (font_size as int) * (line_height_tenths as int) / 10,
                target == spec_layout_items(itemsv, wi, xi, y as int, lhi, maxli, 0),
                itemsv == items@.map(|q: int, s: String| s@),
                pw == spec_place_lines(linesv, xi, y_entry, lhi, maxli, cur_entry),
                ({
                    let pr = spec_place_lines(
                        linesv.skip(k as int),
                        xi,
                        ypos as int,
                        lhi,
                        maxli,
                        cur as int,
                    );
                    pw.0 == done.subrange(done_j.len() as int, done.len() as int) + pr.0 && pw.1
                        == pr.1 && pw.2 == pr.2 && pw.3 == pr.3
                }),
                done.subrange(0, done_j.len() as int) == done_j,
                done.len() >= done_j.len(),
                done_j + spec_layout_items(remi, wi, xi, y_entry, lhi, maxli, cur_entry) == target,
                out@.len() == done.len(),
                forall|q: int| 0 <= q < out@.len() ==> out@[q]@ == done[q],
            decreases lines@.len() - k,
        {
            let ghost reml = linesv.skip(k as int);
            proof {
                assert(reml[0] == linesv[k as int]);
                assert(reml.skip(1) =~= linesv.skip(k + 1));
                assert(cur * lh + lh == (cur + 1) * lh) by (nonlinear_arith);
                assert(cur as int * lhi <= 100_000 * 100_000) by (nonlinear_arith)
                    requires
                        0 <= cur <= 100_000,
                        0 <= lhi <= 100_000,
                ;
            }
            let run = make_run(x, ypos, &lines[k]);
            let cur1 = cur + 1;
            let y1 = ypos + (lh as i64);
            if cur1 >= max_lines - 1 && k != lines.len() - 1 {
                let ell = ellipsis_chars();
                let erun = make_run(x, y1, &ell);
                proof {
                    let pr = spec_place_lines(reml, xi, ypos as int, lhi, maxli, cur as int);
                    assert(run@ == RunV { x: xi, y: ypos as int, text: reml[0] });
                    assert(erun@ == RunV { x: xi, y: y1 as int, text: ellipsis_marker() });
                    assert(pr.0 == seq![
                        RunV { x: xi, y: ypos as int, text: reml[0] },
                        RunV { x: xi, y: y1 as int, text: ellipsis_marker() },
                    ]);
                    assert(pr.3);
                    let old_done = done;
                    done = done + seq![run@, erun@];
                    assert(done.subrange(done_j.len() as int, done.len() as int) =~= old_done.subrange(
                        done_j.len() as int,
                        old_done.len() as int,
                    ) + seq![run@, erun@]);
                    assert(old_done.subrange(done_j.len() as int, old_done.len() as int) + pr.0
                        =~= done.subrange(done_j.len() as int, done.len() as int));
                    assert(pw.0 == done.subrange(done_j.len() as int, done.len() as int));
                    assert(pw.3);
                    assert(spec_layout_items(remi, wi, xi, y_entry, lhi, maxli, cur_entry) == pw.0);
                    assert(done =~= done_j + pw.0);
                    assert(done =~= target);
                }
                out.push(run);
                out.push(erun);
                return out;
            }
            proof {
                let pr = spec_place_lines(reml, xi, ypos as int, lhi, maxli, cur as int);
                let prn = spec_place_lines(
                    linesv.skip(k + 1),
                    xi,
                    y1 as int,
                    lhi,
                    maxli,
                    cur1 as int,
                );
                assert(run@ == RunV { x: xi, y: ypos as int, text: reml[0] });
                assert(pr.0 == seq![RunV { x: xi, y: ypos as int, text: reml[0] }] + prn.0);
                let old_done = done;
                done = done + seq![run@];
                assert(old_done.subrange(done_j.len() as int, old_done.len() as int) + (seq![
                    RunV { x: xi, y: ypos as int, text: reml[0] },
                ] + prn.0) =~= done.subrange(done_j.len() as int, done.len() as int) + prn.0);
                assert(done.subrange(0, done_j.len() as int) =~= done_j);
            }
            out.push(run);
            cur = cur1;
            ypos = y1;
            k += 1;
        }
        proof {
            assert(linesv.skip(linesv.len() as int) =~= Seq::<Seq<char>>::empty());
            let pr = spec_place_lines(
                Seq::<Seq<char>>::empty(),
                xi,
                ypos as int,
                lhi,
                maxli,
                cur as int,
            );
            assert(pr.0 =~= Seq::<RunV>::empty());
            assert(pw.0 =~= done.subrange(done_j.len() as int, done.len() as int));
            assert(!pw.3);
            assert(spec_layout_items(remi, wi, xi, y_entry, lhi, maxli, cur_entry) == pw.0
                + spec_layout_items(itemsv.skip(j + 1), wi, xi, pw.2 + lhi, lhi, maxli, pw.1 + 1));
            assert(done_j + (pw.0 + spec_layout_items(
                itemsv.skip(j + 1),
                wi,
                xi,
                pw.2 + lhi,
                lhi,
                maxli,
                pw.1 + 1,
            )) =~= (done_j + pw.0) + spec_layout_items(
                itemsv.skip(j + 1),
                wi,
                xi,
                pw.2 + lhi,
                lhi,
                maxli,
                pw.1 + 1,
            ));
            assert(done_j + pw.0 =~= done);
            assert(cur * lh + lh == (cur + 1) * lh) by (nonlinear_arith);
            assert(cur as int * lhi <= 100_000 * 100_000) by (nonlinear_arith)
                requires
                    0 <= cur <= 100_000,
                    0 <= lhi <= 100_000,
            ;
        }
        ypos = ypos + (lh as i64);
        cur = cur + 1;
        j += 1;
    }
    proof {
        assert(itemsv.skip(itemsv.len() as int) =~= Seq::<Seq<char>>::empty());
        assert(spec_layout_items(
            Seq::<Seq<char>>::empty(),
            wi,
            xi,
            ypos as int,
            lh as int,
            max_lines as int,
            cur as int,
        ) =~= Seq::<RunV>::empty());
        assert(done + Seq::<RunV>::empty() =~= done);
        assert(done =~= target);
    }
    out
}

/// Split `v` into its words.
pub fn split_words(v: &Vec<char>) -> (r: Vec<Vec<char>>)
    ensures
        r@.len() == words_of(v@).len(),
        forall|k: int| 0 <= k < r@.len() ==> r@[k]@ == words_of(v@)[k],
{
    let mut out: Vec<Vec<char>> = Vec::new();
    let mut cur: Vec<char> = Vec::new();
    let ghost mut done: Seq<Seq<char>> = Seq::empty();
    let mut i: usize = 0;
    proof {
        assert(v@.skip(0) =~= v@);
        assert(Seq::<Seq<char>>::empty() + words_acc(v@, Seq::empty()) =~= words_of(v@));
    }
    while i < v.len()
        invariant
            i <= v@.len(),
            done + words_acc(v@.skip(i as int), cur@) == words_of(v@),
            out@.len() == done.len(),
            forall|k: int| 0 <= k < out@.len() ==> out@[k]@ == done[k],
        decreases v@.len() - i,
    {
        let ghost rem = v@.skip(i as int);
        proof {
            assert(rem[0] == v@[i as int]);
            assert(rem.skip(1) =~= v@.skip(i + 1));
        }
        let c = v[i];
        if c == ' ' {
            if cur.len() > 0 {
                let ghost curv = cur@;
                let word = cur;
                cur = Vec::new();
                out.push(word);
                proof {
                    let done0 = done;
                    done = done + seq![curv];
                    assert(words_acc(rem, curv) == seq![curv] + words_acc(
                        rem.skip(1),
                        Seq::empty(),
                    ));
                    assert((done0 + seq![curv]) + words_acc(rem.skip(1), Seq::empty()) =~= done0 + (
                    seq![curv] + words_acc(rem.skip(1), Seq::empty())));
                    assert(cur@ =~= Seq::<char>::empty());
                    assert(done + words_acc(v@.skip(i + 1), cur@) == words_of(v@));
                }
            } else {
                proof {
                    assert(Seq::<Seq<char>>::empty() + words_acc(rem.skip(1), Seq::empty())
                        =~= words_acc(rem.skip(1), Seq::empty()));
                    assert(words_acc(rem, cur@) == words_acc(rem.skip(1), Seq::empty()));
                    assert(cur@ =~= Seq::<char>::empty());
                    assert(done + words_acc(v@.skip(i + 1), cur@) == words_of(v@));
                }
            }
        } else {
            let ghost cur0 = cur@;
            cur.push(c);
            proof {
                assert(words_acc(rem, cur0) == words_acc(rem.skip(1), cur0.push(rem[0])));
                assert(cur@ == cur0.push(c));
                assert(done + words_acc(v@.skip(i + 1), cur@) == words_of(v@));
            }
        }
        i += 1;
    }
    proof {
        assert(v@.skip(v@.len() as int) =~= Seq::<char>::empty());
    }
    if cur.len() > 0 {
        let ghost curv = cur@;
        out.push(cur);
        proof {
            done = done + seq![curv];
            assert(words_acc(Seq::<char>::empty(), curv) =~= seq![curv]);
        }
    } else {
        proof {
            assert(words_acc(Seq::<char>::empty(), cur@) =~= Seq::<Seq<char>>::empty());
            assert(done + Seq::<Seq<char>>::empty() =~= done);
        }
    }
    out
}

/// Wrap `v` into lines at most `max_width` characters wide where possible,
/// greedily, never splitting a word.
pub fn wrap_chars(v: &Vec<char>, max_width: usize) -> (r: Vec<Vec<char>>)
    ensures
        r@.len() == spec_wrap(v@, max_width as int).len(),
        forall|k: int| 0 <= k < r@.len() ==> r@[k]@ == spec_wrap(v@, max_width as int)[k],
{
    let words = split_words(v);
    let ghost wsv = words_of(v@);
    proof {
        assert(words@.len() == wsv.len());
        lemma_words_nonempty(v@, Seq::empty());
    }
    if words.len() == 0 {
        let mut out: Vec<Vec<char>> = Vec::new();
        out.push(Vec::new());
        proof {
            assert(spec_wrap(v@, max_width as int) =~= seq![Seq::<char>::empty()]);
        }
        return out;
    }
    let ghost target = wrap_lines(wsv, max_width as int, Seq::empty());
    let mut out: Vec<Vec<char>> = Vec::new();
    let ghost mut done: Seq<Seq<Seq<char>>> = Seq::empty();
    let mut cur: Vec<char> = Vec::new();
    let ghost mut cur_ws: Seq<Seq<char>> = Seq::empty();
    let mut i: usize = 0;
    proof {
        assert(wsv.skip(0) =~= wsv);
        assert(Seq::<Seq<Seq<char>>>::empty() + wrap_lines(wsv, max_width as int, Seq::empty())
            =~= target);
    }
    while i < words.len()
        invariant
            i <= words@.len(),
            words@.len() == wsv.len(),
            forall|k: int| 0 <= k < words@.len() ==> words@[k]@ == wsv[k],
            forall|k: int| 0 <= k < wsv.len() ==> wsv[k].len() >= 1,
            done + wrap_lines(wsv.skip(i as int), max_width as int, cur_ws) == target,
            out@.len() == done.len(),
            forall|k: int| 0 <= k < out@.len() ==> out@[k]@ == join_words(done[k]),
            cur@ == join_words(cur_ws),
            cur@.len() == join_len(cur_ws),
            cur_ws.len() == 0 <==> cur@.len() == 0,
            cur_ws.len() >= 1 ==> cur_ws[0].len() >= 1 || cur_ws.len() >= 2,
        decreases words@.len() - i,
    {
        let ghost remw = wsv.skip(i as int);
        proof {
            assert(remw[0] == wsv[i as int]);
            assert(remw.skip(1) =~= wsv.skip(i + 1));
            lemma_join_len(cur_ws);
        }
        let w = &words[i];
        if cur.len() == 0 {
            proof {
                cur_ws = seq![wsv[i as int]];
                assert(join_words(cur_ws) == wsv[i as int]);
                assert(join_len(cur_ws) == wsv[i as int].len());
            }
            cur = Vec::new();
            push_all(&mut cur, w);
            proof {
                assert(cur@ =~= wsv[i as int]);
            }
        } else if w.len() < max_width && cur.len() <= max_width - 1 - w.len() {
            proof {
                assert(join_len(cur_ws) + 1 + remw[0].len() <= max_width);
                lemma_join_len_push(cur_ws, wsv[i as int]);
                cur_ws = cur_ws.push(wsv[i as int]);
            }
            cur.push(' ');
            push_all(&mut cur, w);
            proof {
                assert(cur@ =~= join_words(cur_ws));
            }
        } else {
            proof {
                lemma_join_len(cur_ws);
                assert(cur@.len() >= 1);
                assert(join_len(cur_ws) + 1 + remw[0].len() > max_width);
                let flushed = cur_ws;
                let done0 = done;
                let rest = wrap_lines(remw.skip(1), max_width as int, seq![remw[0]]);
                assert(wrap_lines(remw, max_width as int, flushed) == seq![flushed] + rest);
                done = done + seq![flushed];
                assert((done0 + seq![flushed]) + rest =~= done0 + (seq![flushed] + rest));
                cur_ws = seq![wsv[i as int]];
                assert(join_words(cur_ws) == wsv[i as int]);
                assert(join_len(cur_ws) == wsv[i as int].len());
            }
            let line = cur;
            out.push(line);
            cur = Vec::new();
            push_all(&mut cur, w);
            proof {
                assert(cur@ =~= wsv[i as int]);
            }
        }
        i += 1;
    }
    proof {
        assert(wsv.skip(wsv.len() as int) =~= Seq::<Seq<char>>::empty());
    }
    if cur.len() > 0 {
        proof {
            done = done + seq![cur_ws];
            assert(wrap_lines(Seq::<Seq<char>>::empty(), max_width as int, cur_ws) =~= seq![
                cur_ws,
            ]);
        }
        out.push(cur);
    } else {
        proof {
            assert(cur_ws.len() == 0);
            assert(wrap_lines(Seq::<Seq<char>>::empty(), max_width as int, cur_ws)
                =~= Seq::<Seq<Seq<char>>>::empty());
            assert(done + Seq::<Seq<Seq<char>>>::empty() =~= done);
        }
    }
    proof {
        assert(spec_wrap_words(v@, max_width as int) == target);
        assert forall|k: int| 0 <= k < out@.len() implies out@[k]@ == spec_wrap(
            v@,
            max_width as int,
        )[k] by {
            assert(spec_wrap(v@, max_width as int)[k] == join_words(target[k]));
        }
        assert(out@.len() == spec_wrap(v@, max_width as int).len());
    }
    out
}

/// Wrapping never yields zero lines.
pub proof fn lemma_wrap_lines_nonempty(ws: Seq<Seq<char>>, width: int, cur: Seq<Seq<char>>)
    requires
        ws.len() >= 1 || cur.len() >= 1,
    ensures
        wrap_lines(ws, width, cur).len() >= 1,
    decreases ws.len(),
{
    if ws.len() == 0 {
    } else if cur.len() == 0 {
        lemma_wrap_lines_nonempty(ws.skip(1), width, seq![ws[0]]);
    } else if join_len(cur) + 1 + ws[0].len() <= width {
        lemma_wrap_lines_nonempty(ws.skip(1), width, cur.push(ws[0]));
    } else {
    }
}

/// Every text wraps to at least one line.
pub proof fn lemma_wrap_nonempty(s: Seq<char>, width: int)
    ensures
        spec_wrap(s, width).len() >= 1,
{
    if words_of(s).len() == 0 {
    } else {
        lemma_wrap_lines_nonempty(words_of(s), width, Seq::empty());
    }
}

/// The fixed marker emitted in place of content that does not fit.
pub open spec fn ellipsis_marker() -> Seq<char> {
    seq!['*', ' ', '*', ' ', '*']
}

/// One positioned line of laid-out text.
pub struct TextRun {
    pub x: i32,
    pub y: i64,
    pub text: String,
}

/// The mathematical image of a text run.
pub struct RunV {
    pub x: int,
    pub y: int,
    pub text: Seq<char>,
}

impl View for TextRun {
    type V = RunV;

    open spec fn view(&self) -> RunV {
        RunV { x: self.x as int, y: self.y as int, text: self.text@ }
    }
}

/// Place the lines of one item from line counter `cur` on: one run per line,
/// `y` advancing by `lh`. If a placed line lands on the last allowed slot
/// while more lines of the item remain, the ellipsis marker is emitted
/// instead of them and layout stops. Result: (runs, line counter after,
/// y after, stopped).
pub open spec fn spec_place_lines(
    lines: Seq<Seq<char>>,
    x: int,
    y: int,
    lh: int,
    maxl: int,
    cur: int,
) -> (Seq<RunV>, int, int, bool)
    decreases lines.len(),
{
    if lines.len() == 0 {
        (Seq::empty(), cur, y, false)
    } else {
        let run = RunV { x, y, text: lines[0] };
        let cur1 = cur + 1;
        let y1 = y + lh;
        if maxl >= 1 && cur1 >= maxl - 1 && lines.len() > 1 {
            (seq![run, RunV { x, y: y1, text: ellipsis_marker() }], cur1, y1, true)
        } else {
            let p = spec_place_lines(lines.skip(1), x, y1, lh, maxl, cur1);
            (seq![run] + p.0, p.1, p.2, p.3)
        }
    }
}

/// Lay items out in order, each starting on its own line with a blank
/// separator line after it. An item whose lines would reach `maxl` is not
/// started at all — unless nothing has been placed yet, so the first item is
/// never withheld.
pub open spec fn spec_layout_items(
    items: Seq<Seq<char>>,
    width: int,
    x: int,
    y: int,
    lh: int,
    maxl: int,
    cur: int,
) -> Seq<RunV>
    decreases items.len(),
{
    if items.len() == 0 {
        Seq::empty()
    } else {
        let lines = spec_wrap(items[0], width);
        if cur + lines.len() >= maxl && cur != 0 {
            Seq::empty()
        } else {
            let p = spec_place_lines(lines, x, y, lh, maxl, cur);
            if p.3 {
                p.0
            } else {
                p.0 + spec_layout_items(items.skip(1), width, x, p.2 + lh, lh, maxl, p.1 + 1)
            }
        }
    }
}

/// Whether laying `items` out from state (`y`, `cur`) truncates: some item's
/// lines hit the last allowed slot with more of that item to go.
pub open spec fn spec_layout_truncates(
    items: Seq<Seq<char>>,
    width: int,
    x: int,
    y: int,
    lh: int,
    maxl: int,
    cur: int,
) -> bool
    decreases items.len(),
{
    if items.len() == 0 {
        false
    } else {
        let lines = spec_wrap(items[0], width);
        if cur + lines.len() >= maxl && cur != 0 {
            false
        } else {
            let p = spec_place_lines(lines, x, y, lh, maxl, cur);
            p.3 || spec_layout_truncates(items.skip(1), width, x, p.2 + lh, lh, maxl, p.1 + 1)
        }
    }
}

/// The full block layout: line height is `font_size` scaled by
/// `lh_tenths`/10, the line counter starts at zero.
pub open spec fn spec_layout_block(
    items: Seq<Seq<char>>,
    maxl: int,
    width: int,
    x: int,
    y: int,
    font_size: int,
    lh_tenths: int,
) -> Seq<RunV> {
    spec_layout_items(items, width, x, y, font_size * lh_tenths / 10, maxl, 0)
}

/// Whether the block layout truncates, at the parameters `spec_layout_block`
/// uses.
pub open spec fn spec_block_truncates(
    items: Seq<Seq<char>>,
    maxl: int,
    width: int,
    x: int,
    y: int,
    font_size: int,
    lh_tenths: int,
) -> bool {
    spec_layout_truncates(items, width, x, y, font_size * lh_tenths / 10, maxl, 0)
}

/// Exact accounting for placing one item's lines: without truncation every
/// line becomes a run; with truncation the counter stops one short of the
/// cap and the final run is the ellipsis marker.
proof fn lemma_place_count(lines: Seq<Seq<char>>, x: int, y: int, lh: int, maxl: int, cur: int)
    requires
        maxl >= 2,
        0 <= cur <= maxl - 1,
        lines.len() >= 1 ==> cur <= maxl - 2,
    ensures
        ({
            let p = spec_place_lines(lines, x, y, lh, maxl, cur);
            &&& (p.3 ==> p.0.len() == maxl - cur && p.1 == maxl - 1 && p.0.len() >= 1 && p.0.last().text
                == ellipsis_marker())
            &&& (!p.3 ==> p.0.len() == lines.len() && p.1 == cur + lines.len() && p.1 <= maxl - 1)
        }),
    decreases lines.len(),
{
    if lines.len() == 0 {
    } else {
        let cur1 = cur + 1;
        if maxl >= 1 && cur1 >= maxl - 1 && lines.len() > 1 {
        } else {
            lemma_place_count(lines.skip(1), x, y + lh, lh, maxl, cur1);
            let p = spec_place_lines(lines, x, y, lh, maxl, cur);
            let pr = spec_place_lines(lines.skip(1), x, y + lh, lh, maxl, cur1);
            if pr.3 {
                assert(pr.0.len() >= 1);
                assert(p.0.last() == pr.0.last());
            }
        }
    }
}

/// Laying out from counter `cur` emits at most `maxl - cur` runs.
proof fn lemma_items_count(
    items: Seq<Seq<char>>,
    width: int,
    x: int,
    y: int,
    lh: int,
    maxl: int,
    cur: int,
)
    requires
        maxl >= 2,
        0 <= cur <= maxl,
    ensures
        spec_layout_items(items, width, x, y, lh, maxl, cur).len() <= maxl - cur,
    decreases items.len(),
{
    if items.len() == 0 {
    } else {
        let lines = spec_wrap(items[0], width);
        lemma_wrap_nonempty(items[0], width);
        if cur + lines.len() >= maxl && cur != 0 {
        } else {
            lemma_place_count(lines, x, y, lh, maxl, cur);
            let p = spec_place_lines(lines, x, y, lh, maxl, cur);
            if p.3 {
            } else {
                lemma_items_count(items.skip(1), width, x, p.2 + lh, lh, maxl, p.1 + 1);
            }
        }
    }
}

/// The block layout never emits more than `maxl` runs, however much wrapped
/// content the items would produce.
pub proof fn lemma_layout_block_within_max(
    items: Seq<Seq<char>>,
    maxl: int,
    width: int,
    x: int,
    y: int,
    font_size: int,
    lh_tenths: int,
)
    requires
        maxl >= 2,
    ensures
        spec_layout_block(items, maxl, width, x, y, font_size, lh_tenths).len() <= maxl,
{
    lemma_items_count(items, width, x, y, font_size * lh_tenths / 10, maxl, 0);
}

proof fn lemma_items_trunc_last(
    items: Seq<Seq<char>>,
    width: int,
    x: int,
    y: int,
    lh: int,
    maxl: int,
    cur: int,
)
    requires
        maxl >= 2,
        0 <= cur <= maxl,
        spec_layout_truncates(items, width, x, y, lh, maxl, cur),
    ensures
        ({
            let rs = spec_layout_items(items, width, x, y, lh, maxl, cur);
            rs.len() >= 1 && rs.last().text == ellipsis_marker()
        }),
    decreases items.len(),
{
    let lines = spec_wrap(items[0], width);
    lemma_wrap_nonempty(items[0], width);
    let p = spec_place_lines(lines, x, y, lh, maxl, cur);
    lemma_place_count(lines, x, y, lh, maxl, cur);
    if p.3 {
    } else {
        lemma_items_trunc_last(items.skip(1), width, x, p.2 + lh, lh, maxl, p.1 + 1);
        let rest = spec_layout_items(items.skip(1), width, x, p.2 + lh, lh, maxl, p.1 + 1);
        assert((p.0 + rest).last() == rest.last());
    }
}

/// When truncation triggers, the final emitted run is the ellipsis marker.
pub proof fn lemma_truncation_marks_end(
    items: Seq<Seq<char>>,
    maxl: int,
    width: int,
    x: int,
    y: int,
    font_size: int,
    lh_tenths: int,
)
    requires
        maxl >= 2,
        spec_block_truncates(items, maxl, width, x, y, font_size, lh_tenths),
    ensures
        ({
            let rs = spec_layout_block(items, maxl, width, x, y, font_size, lh_tenths);
            rs.len() >= 1 && rs.last().text == ellipsis_marker()
        }),
{
    lemma_items_trunc_last(items, width, x, y, font_size * lh_tenths / 10, maxl, 0);
}

proof fn lemma_items_trunc_prefix(
    items: Seq<Seq<char>>,
    more: Seq<Seq<char>>,
    width: int,
    x: int,
    y: int,
    lh: int,
    maxl: int,
    cur: int,
)
    requires
        spec_layout_truncates(items, width, x, y, lh, maxl, cur),
    ensures
        spec_layout_items(items + more, width, x, y, lh, maxl, cur) == spec_layout_items(
            items,
            width,
            x,
            y,
            lh,
            maxl,
            cur,
        ),
    decreases items.len(),
{
    let all = items + more;
    assert(all[0] == items[0]);
    assert(all.skip(1) =~= items.skip(1) + more);
    let lines = spec_wrap(items[0], width);
    let p = spec_place_lines(lines, x, y, lh, maxl, cur);
    if p.3 {
    } else {
        lemma_items_trunc_prefix(items.skip(1), more, width, x, p.2 + lh, lh, maxl, p.1 + 1);
    }
}

/// Once truncation has triggered, no later item contributes anything:
/// appending further items leaves the emitted runs unchanged.
pub proof fn lemma_truncation_stops_emission(
    items: Seq<Seq<char>>,
    more: Seq<Seq<char>>,
    maxl: int,
    width: int,
    x: int,
    y: int,
    font_size: int,
    lh_tenths: int,
)
    requires
        spec_block_truncates(items, maxl, width, x, y, font_size, lh_tenths),
    ensures
        spec_layout_block(items + more, maxl, width, x, y, font_size, lh_tenths)
            == spec_layout_block(items, maxl, width, x, y, font_size, lh_tenths),
{
    lemma_items_trunc_prefix(items, more, width, x, y, font_size * lh_tenths / 10, maxl, 0);
}

/// Wrapping neither drops, invents, nor splits a word: the words of the
/// wrapped lines, flattened in order, are exactly the words of the text.
pub proof fn lemma_wrap_words_complete(s: Seq<char>, width: int)
    ensures
        flat_words(spec_wrap_words(s, width)) == words_of(s),
{
    if words_of(s).len() == 0 {
        assert(seq![Seq::<Seq<char>>::empty()].skip(1) =~= Seq::<Seq<Seq<char>>>::empty());
        assert(flat_words(Seq::<Seq<Seq<char>>>::empty()) == Seq::<Seq<char>>::empty());
        assert(flat_words(seq![Seq::<Seq<char>>::empty()]) == Seq::<Seq<char>>::empty()
            + Seq::<Seq<char>>::empty());
        assert(flat_words(spec_wrap_words(s, width)) =~= words_of(s));
    } else {
        lemma_wrap_preserves_words(words_of(s), width, Seq::empty());
        assert(Seq::<Seq<char>>::empty() + words_of(s) =~= words_of(s));
    }
}

/// A text no wider than the field wraps to exactly one line.
pub proof fn lemma_wrap_fits_one_line(s: Seq<char>, width: int)
    requires
        s.len() <= width,
    ensures
        spec_wrap(s, width).len() == 1,
{
    let ws = words_of(s);
    lemma_words_len(s, Seq::empty());
    if ws.len() == 0 {
    } else {
        assert(wrap_lines(ws, width, Seq::empty()) == wrap_lines(ws.skip(1), width, seq![ws[0]]));
        assert(join_len(seq![ws[0]]) == ws[0].len());
        if ws.len() == 1 {
            assert(ws.skip(1).len() == 0);
            lemma_wrap_one_line(ws.skip(1), width, seq![ws[0]]);
        } else {
            assert(join_len(ws) == ws[0].len() + 1 + join_len(ws.skip(1)));
            lemma_wrap_one_line(ws.skip(1), width, seq![ws[0]]);
        }
    }
}

} // verus!
