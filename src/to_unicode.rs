use itertools::Itertools;
use vstd::prelude::*;
use vstd::arithmetic::div_mod::lemma_div_is_ordered;

use crate::luma::Luma;

verus! {

/// Why a conversion was refused before any sample was read.
#[derive(Clone, Copy, Debug, PartialEq, Eq, Structural)]
pub enum ConvertError {
    /// The row width was 0.
    ZeroWidth,
    /// The palette held no character.
    EmptyPalette,
}

/// Palette position of magnitude `m` in a palette of `k >= 1` entries: the
/// integer nearest to `m * (k - 1) / 255`. No tie can occur, because
/// `255` is odd and so `m * (k - 1) / 255` never ends in one half.
pub open spec fn palette_index(m: nat, k: nat) -> nat
    recommends
        k >= 1,
{
    (2 * m * (k - 1) + 255) as nat / 510
}

/// The character that a sample is drawn with.
pub open spec fn char_of(l: Luma, palette: Seq<char>) -> char {
    palette[palette_index(l.luma as nat, palette.len()) as int]
}

/// Number of rows of width `w` that `n` samples fill, the last one possibly short.
pub open spec fn row_count(n: nat, w: nat) -> nat
    recommends
        w > 0,
{
    (n + w - 1) as nat / w
}

/// Row `i` of `s` cut into rows of width `w`.
pub open spec fn row(s: Seq<Luma>, w: nat, i: nat) -> Seq<Luma> {
    let start = i * w;
    let end = if (i + 1) * w <= s.len() { (i + 1) * w } else { s.len() };
    s.subrange(start as int, end as int)
}

/// The characters of one row, without its line break.
pub open spec fn line(r: Seq<Luma>, palette: Seq<char>) -> Seq<char> {
    r.map_values(|l: Luma| char_of(l, palette))
}

/// The lines of the picture, without their line breaks.
pub open spec fn lines(s: Seq<Luma>, w: nat, palette: Seq<char>) -> Seq<Seq<char>> {
    Seq::new(row_count(s.len(), w), |i: int| line(row(s, w, i as nat), palette))
}

/// Each line followed by a line break, all in order.
pub open spec fn join_lines(ls: Seq<Seq<char>>) -> Seq<char>
    decreases ls.len(),
{
    if ls.len() == 0 {
        Seq::empty()
    } else {
        join_lines(ls.drop_last()) + ls.last() + seq!['\n']
    }
}

/// The text that `s` becomes in rows of width `w`.
pub open spec fn rendered(s: Seq<Luma>, w: nat, palette: Seq<char>) -> Seq<char> {
    join_lines(lines(s, w, palette))
}

proof fn lemma_index_in_range(m: nat, k: nat)
    requires
        m <= 255,
        k >= 1,
    ensures
        palette_index(m, k) < k,
{
    let a = (k - 1) as int;
    assert(2 * m * a <= 510 * a) by (nonlinear_arith)
        requires
            m <= 255,
            a >= 0,
    ;
    lemma_div_is_ordered(2 * m * a + 255, 510 * a + 509, 510);
    assert((510 * a + 509) / 510 == a) by (nonlinear_arith)
        requires
            a >= 0,
    ;
}

/// Maps one sample to its palette character.
pub fn luma_to_char(luma: Luma, palette: &[char]) -> (r: char)
    requires
        palette@.len() > 0,
    ensures
        r == char_of(luma, palette@),
{
    let last_idx: usize = palette.len() - 1;
    let m: u128 = luma.luma as u128;
    let l: u128 = last_idx as u128;
    assert(2 * m * l <= 510 * 0x1_0000_0000_0000_0000) by (nonlinear_arith)
        requires
            m <= 255,
            l < 0x1_0000_0000_0000_0000,
    ;
    let scaled: u128 = 2 * m * l + 255;
    let idx: u128 = scaled / 510;
    proof {
        lemma_index_in_range(luma.luma as nat, palette@.len());
    }
    palette[idx as usize]
}

/// Relies on `itertools::Itertools::chunks`: the items in order, cut into
/// consecutive groups of `width`, the last group shorter where the items run
/// out. It panics on a width of 0.
#[verifier::external_body]
fn chunk_rows(lumas: &[Luma], width: usize) -> (r: Vec<Vec<Luma>>)
    requires
        width > 0,
    ensures
        r@.len() == row_count(lumas@.len(), width as nat),
        forall|i: int| 0 <= i < r@.len() ==> #[trigger] r@[i]@ == row(lumas@, width as nat, i as nat),
{
    let groups = lumas.iter().copied().chunks(width);
    let rows: Vec<Vec<Luma>> = (&groups).into_iter().map(|g| g.collect()).collect();
    rows
}

/// Relies on `String::push`: appends one character.
#[verifier::external_body]
fn push_char(s: &mut String, c: char)
    ensures
        final(s)@ == old(s)@.push(c),
{
    s.push(c);
}

/// Draws `lumas`, a row-major raster, as text: rows of `width` samples (the
/// last one shorter where the samples run out), each sample mapped to its
/// palette character and each row ended by a line break. Both arguments are
/// checked before any sample is read: a width of 0 is refused first, then an
/// empty palette.
pub fn lumas_to_unicode(lumas: &[Luma], width: usize, palette: &[char]) -> (r: Result<String, ConvertError>)
    ensures
        width == 0 ==> r == Err::<String, ConvertError>(ConvertError::ZeroWidth),
        width > 0 && palette@.len() == 0 ==> r == Err::<String, ConvertError>(ConvertError::EmptyPalette),
        width > 0 && palette@.len() > 0 ==> r is Ok && r->Ok_0@ == rendered(lumas@, width as nat, palette@),
{
    if width == 0 {
        return Err(ConvertError::ZeroWidth);
    }
    if palette.len() == 0 {
        return Err(ConvertError::EmptyPalette);
    }
    let rows = chunk_rows(lumas, width);
    let ghost ls = lines(lumas@, width as nat, palette@);
    let mut unicode = String::new();
    let mut i: usize = 0;
    while i < rows.len()
        invariant
            i <= rows@.len(),
            rows@.len() == ls.len(),
            palette@.len() > 0,
            forall|k: int| 0 <= k < rows@.len() ==> #[trigger] line(rows@[k]@, palette@) == ls[k],
            unicode@ == join_lines(ls.take(i as int)),
        decreases rows.len() - i,
    {
        let row = &rows[i];
        let ghost before = unicode@;
        let mut j: usize = 0;
        while j < row.len()
            invariant
                j <= row@.len(),
                palette@.len() > 0,
                unicode@ == before + line(row@, palette@).take(j as int),
            decreases row.len() - j,
        {
            let ch = luma_to_char(row[j], palette);
            push_char(&mut unicode, ch);
            proof {
                assert(line(row@, palette@).take(j + 1) == line(row@, palette@).take(j as int).push(ch));
            }
            j += 1;
        }
        push_char(&mut unicode, '\n');
        proof {
            assert(line(row@, palette@).take(j as int) == line(row@, palette@));
            assert(ls.take(i + 1).drop_last() == ls.take(i as int));
            assert(line(rows@[i as int]@, palette@) == ls[i as int]);
        }
        i += 1;
    }
    proof {
        assert(ls.take(i as int) == ls);
    }
    Ok(unicode)
}

} // verus!
