//! Auxiliary definitions and facts behind the loops of the board: how the
//! rows grow as the input is read byte by byte, how the text grows row by
//! row, and which mines of a window a scan has already seen.

use vstd::prelude::*;
use crate::modelo::{filas_de, hay_mina, llenas, partes, unir, uno_si, SALTO};

verus! {

/// Appending one element either opens a new, empty piece (a separator) or
/// lengthens the last piece (anything else).
pub proof fn lema_partes_push<T>(s: Seq<T>, b: T, sep: T)
    ensures
        partes(s.push(b), sep) == if b == sep {
            partes(s, sep).push(Seq::empty())
        } else {
            partes(s, sep).drop_last().push(partes(s, sep).last().push(b))
        },
{
    assert(s.push(b).drop_last() =~= s);
}

/// There is always a last piece, and it is empty exactly when the sequence
/// is empty or ends with a separator.
pub proof fn lema_ultima_parte<T>(s: Seq<T>, sep: T)
    ensures
        partes(s, sep).len() >= 1,
        partes(s, sep).last().len() > 0 <==> s.len() > 0 && s.last() != sep,
    decreases s.len(),
{
    if s.len() > 0 {
        lema_ultima_parte(s.drop_last(), sep);
    }
}

/// The rows of `s` that a line feed has already closed: the rows of `s`
/// without the piece that is still open at its end.
pub open spec fn filas_cerradas(s: Seq<u8>) -> Seq<Seq<u8>> {
    llenas(partes(s, SALTO).drop_last())
}

/// Before the first byte no row is closed.
pub proof fn lema_cerradas_vacio()
    ensures
        filas_cerradas(Seq::empty()) == Seq::<Seq<u8>>::empty(),
{
    let p = partes(Seq::<u8>::empty(), SALTO);
    p.drop_last().lemma_filter_len(|f: Seq<u8>| f.len() > 0);
    assert(filas_cerradas(Seq::empty()) =~= Seq::<Seq<u8>>::empty());
}

/// A cell appended to `s` closes no row.
pub proof fn lema_cerradas_celda(s: Seq<u8>, b: u8)
    requires
        b != SALTO,
    ensures
        filas_cerradas(s.push(b)) == filas_cerradas(s),
        partes(s.push(b), SALTO).last() == partes(s, SALTO).last().push(b),
{
    lema_partes_push(s, b, SALTO);
    lema_ultima_parte(s, SALTO);
    let p = partes(s, SALTO);
    assert(p.drop_last().push(p.last().push(b)).drop_last() =~= p.drop_last());
}

/// A line feed appended to `s` closes the open piece as a row if that piece
/// holds a cell, that is if `s` ends with a cell. After nothing at all, or
/// after another line feed, it closes nothing.
pub proof fn lema_cerradas_salto(s: Seq<u8>)
    ensures
        filas_cerradas(s.push(SALTO)) == if partes(s, SALTO).last().len() > 0 {
            filas_cerradas(s).push(partes(s, SALTO).last())
        } else {
            filas_cerradas(s)
        },
        partes(s, SALTO).last().len() > 0 <==> s.len() > 0 && s.last() != SALTO,
        partes(s.push(SALTO), SALTO).last() == Seq::<u8>::empty(),
{
    lema_partes_push(s, SALTO, SALTO);
    lema_ultima_parte(s, SALTO);
    let p = partes(s, SALTO);
    let lleno = |f: Seq<u8>| f.len() > 0;
    assert(p.push(Seq::empty()).drop_last() =~= p);
    assert(p =~= p.drop_last().push(p.last()));
    p.drop_last().lemma_filter_push(p.last(), lleno);
}

/// The rows of `s` are its closed rows and, if it holds a cell, the piece
/// that is still open at its end.
pub proof fn lema_filas_de_cerradas(s: Seq<u8>)
    ensures
        filas_de(s) == if partes(s, SALTO).last().len() > 0 {
            filas_cerradas(s).push(partes(s, SALTO).last())
        } else {
            filas_cerradas(s)
        },
{
    lema_ultima_parte(s, SALTO);
    let p = partes(s, SALTO);
    let lleno = |f: Seq<u8>| f.len() > 0;
    assert(p =~= p.drop_last().push(p.last()));
    p.drop_last().lemma_filter_push(p.last(), lleno);
    if p.last().len() > 0 {
        assert(filas_de(s) =~= filas_cerradas(s).push(p.last()));
    }
}

/// Joining one row more appends that row and a separator.
pub proof fn lema_unir_take<T>(filas: Seq<Seq<T>>, sep: T, n: int)
    requires
        0 <= n < filas.len(),
    ensures
        unir(filas.take(n + 1), sep) == unir(filas.take(n), sep) + filas[n].push(sep),
{
    assert(filas.take(n + 1).drop_last() =~= filas.take(n));
}

/// 1 if the position at row `a`, column `b` holds a mine and comes before
/// row `x`, column `y` when the grid is read row by row; 0 otherwise.
pub open spec fn mina_vista(t: Seq<Seq<u8>>, a: int, b: int, x: int, y: int) -> nat {
    uno_si(hay_mina(t, a, b) && (a < x || (a == x && b < y)))
}

/// The number of mines in the window centred on row `i`, column `j` that
/// come before row `x`, column `y` when the grid is read row by row.
pub open spec fn minas_vistas(t: Seq<Seq<u8>>, i: int, j: int, x: int, y: int) -> nat {
    mina_vista(t, i - 1, j - 1, x, y) + mina_vista(t, i - 1, j, x, y)
        + mina_vista(t, i - 1, j + 1, x, y)
        + mina_vista(t, i, j - 1, x, y) + mina_vista(t, i, j, x, y)
        + mina_vista(t, i, j + 1, x, y)
        + mina_vista(t, i + 1, j - 1, x, y) + mina_vista(t, i + 1, j, x, y)
        + mina_vista(t, i + 1, j + 1, x, y)
}

} // verus!
