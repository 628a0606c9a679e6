use vstd::prelude::*;
use vstd::arithmetic::div_mod::lemma_div_is_ordered;

use crate::luma::Luma;
use crate::to_unicode::{char_of, join_lines, line, lines, palette_index, rendered, row, row_count};

verus! {

/// The darkest sample takes the palette's first character and the brightest
/// its last one.
pub proof fn lemma_boundary_mapping(palette: Seq<char>)
    requires
        palette.len() > 0,
    ensures
        palette_index(0, palette.len()) == 0,
        palette_index(255, palette.len()) == palette.len() - 1,
        char_of(Luma { luma: 0 }, palette) == palette[0],
        char_of(Luma { luma: 255 }, palette) == palette.last(),
{
    let a = (palette.len() - 1) as int;
    assert(2 * 255 * a + 255 == 510 * a + 255) by (nonlinear_arith);
    assert((510 * a + 255) / 510 == a) by (nonlinear_arith)
        requires
            a >= 0,
    ;
    assert(2 * 0 * a + 255 == 255) by (nonlinear_arith);
}

/// A brighter sample never takes an earlier palette position than a darker
/// one.
pub proof fn lemma_monotonic(m1: u8, m2: u8, k: nat)
    requires
        m1 <= m2,
        k >= 1,
    ensures
        palette_index(m1 as nat, k) <= palette_index(m2 as nat, k),
{
    let a = (k - 1) as int;
    assert(2 * m1 * a <= 2 * m2 * a) by (nonlinear_arith)
        requires
            m1 <= m2,
            a >= 0,
    ;
    lemma_div_is_ordered(2 * m1 * a + 255, 2 * m2 * a + 255, 510);
}

/// With a palette of one character every sample takes that character.
pub proof fn lemma_single_entry(palette: Seq<char>, l: Luma)
    requires
        palette.len() == 1,
    ensures
        char_of(l, palette) == palette[0],
{
    assert(2 * l.luma * 0 == 0) by (nonlinear_arith);
}

proof fn lemma_row_len(s: Seq<Luma>, w: nat, i: nat)
    requires
        w > 0,
        (i + 1) * w <= s.len(),
    ensures
        row(s, w, i).len() == w,
{
    assert((i + 1) * w == i * w + w) by (nonlinear_arith);
}

/// Lines that all have `w` characters join into a text of `w + 1` characters
/// per line, line `i` at offset `i * (w + 1)` and a line break after it.
proof fn lemma_join_uniform(ls: Seq<Seq<char>>, w: nat)
    requires
        forall|i: int| 0 <= i < ls.len() ==> #[trigger] ls[i].len() == w,
    ensures
        join_lines(ls).len() == ls.len() * (w + 1),
        forall|i: int| 0 <= i < ls.len() ==> {
            &&& #[trigger] join_lines(ls).subrange(i * (w + 1), i * (w + 1) + w) == ls[i]
            &&& join_lines(ls)[i * (w + 1) + w] == '\n'
        },
    decreases ls.len(),
{
    if ls.len() > 0 {
        let init = ls.drop_last();
        lemma_join_uniform(init, w);
        let n = init.len() as int;
        assert(ls.len() * (w + 1) == n * (w + 1) + w + 1) by (nonlinear_arith)
            requires
                ls.len() == n + 1,
        ;
        let t = join_lines(ls);
        assert forall|i: int| 0 <= i < ls.len() implies {
            &&& #[trigger] t.subrange(i * (w + 1), i * (w + 1) + w) == ls[i]
            &&& t[i * (w + 1) + w] == '\n'
        } by {
            if i < n {
                assert((i + 1) * (w + 1) <= n * (w + 1)) by (nonlinear_arith)
                    requires
                        i + 1 <= n,
                ;
                assert(i * (w + 1) + w + 1 == (i + 1) * (w + 1)) by (nonlinear_arith);
                assert(t.subrange(i * (w + 1), i * (w + 1) + w) == join_lines(init).subrange(
                    i * (w + 1),
                    i * (w + 1) + w,
                ));
            } else {
                assert(t.subrange(i * (w + 1), i * (w + 1) + w) == ls.last());
            }
        }
    }
}

/// The picture of no samples is the empty text, whatever the width and the
/// palette.
pub proof fn lemma_empty_input(w: nat, palette: Seq<char>)
    requires
        w > 0,
        palette.len() > 0,
    ensures
        rendered(Seq::empty(), w, palette) == Seq::<char>::empty(),
{
    assert(((w - 1) as nat) / w == 0) by (nonlinear_arith)
        requires
            w > 0,
    ;
}

/// `q * w` samples in rows of width `w` make `q` lines of `w` characters,
/// each followed by a line break.
pub proof fn lemma_rows_exact(s: Seq<Luma>, w: nat, palette: Seq<char>, q: nat)
    requires
        w > 0,
        palette.len() > 0,
        s.len() == q * w,
    ensures
        lines(s, w, palette).len() == q,
        forall|i: int| 0 <= i < q ==> #[trigger] lines(s, w, palette)[i].len() == w,
        rendered(s, w, palette).len() == q * (w + 1),
        forall|i: int| 0 <= i < q ==> #[trigger] rendered(s, w, palette)[i * (w + 1) + w] == '\n',
{
    assert(q * w + w - 1 == q * w + (w - 1)) by (nonlinear_arith);
    assert((q * w + (w - 1)) / (w as int) == q) by (nonlinear_arith)
        requires
            w > 0,
    ;
    let ls = lines(s, w, palette);
    assert forall|i: int| 0 <= i < q implies #[trigger] ls[i].len() == w by {
        assert((i + 1) * w <= q * w) by (nonlinear_arith)
            requires
                i + 1 <= q,
                w > 0,
        ;
        lemma_row_len(s, w, i as nat);
    }
    lemma_join_uniform(ls, w);
    assert forall|i: int| 0 <= i < q implies #[trigger] rendered(s, w, palette)[i * (w + 1) + w] == '\n' by {
        assert(join_lines(ls).subrange(i * (w + 1), i * (w + 1) + w) == ls[i]);
    }
}

/// `q * w + r` samples, `0 < r < w`, in rows of width `w` make `q` full lines
/// and a last line of `r` characters, each followed by a line break.
pub proof fn lemma_rows_remainder(s: Seq<Luma>, w: nat, palette: Seq<char>, q: nat, r: nat)
    requires
        palette.len() > 0,
        0 < r < w,
        s.len() == q * w + r,
    ensures
        lines(s, w, palette).len() == q + 1,
        forall|i: int| 0 <= i < q ==> #[trigger] lines(s, w, palette)[i].len() == w,
        lines(s, w, palette)[q as int].len() == r,
        rendered(s, w, palette).len() == q * (w + 1) + r + 1,
        rendered(s, w, palette) == join_lines(lines(s, w, palette).take(q as int))
            + lines(s, w, palette)[q as int] + seq!['\n'],
{
    assert((q * w + r + w - 1) / (w as int) == q + 1) by (nonlinear_arith)
        requires
            w > 0,
            0 < r < w,
    ;
    let ls = lines(s, w, palette);
    assert forall|i: int| 0 <= i < q implies #[trigger] ls[i].len() == w by {
        assert((i + 1) * w <= q * w) by (nonlinear_arith)
            requires
                i + 1 <= q,
                w > 0,
        ;
        lemma_row_len(s, w, i as nat);
    }
    assert((q + 1) * w > s.len()) by (nonlinear_arith)
        requires
            s.len() == q * w + r,
            r < w,
    ;
    assert(ls[q as int].len() == r);
    let init = ls.take(q as int);
    assert(ls.drop_last() == init);
    assert forall|i: int| 0 <= i < init.len() implies #[trigger] init[i].len() == w by {
        assert(ls[i].len() == w);
    }
    lemma_join_uniform(init, w);
}

} // verus!
