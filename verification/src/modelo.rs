//! The mathematical model of a board: how bytes are cut into rows, what makes a
//! grid a board, how many mines surround a cell and what the annotated text is.
//!
//! A grid is a `Seq<Seq<u8>>`: a sequence of rows, each a sequence of cells.

use vstd::prelude::*;
use crate::error::ErrorTablero;

verus! {

/// The byte of a cell that holds a mine, `*`.
pub const MINA: u8 = 42;

/// The byte of a cell that holds nothing, `.`.
pub const VACIO: u8 = 46;

/// The byte that ends a row, the line feed.
pub const SALTO: u8 = 10;

/// The byte of the digit 0.
pub const CERO: u8 = 48;

/// A byte that can stand in a cell.
pub open spec fn es_celda(b: u8) -> bool {
    b == MINA || b == VACIO
}

/// A byte that the input may hold: a cell or a line feed.
pub open spec fn es_admisible(b: u8) -> bool {
    es_celda(b) || b == SALTO
}

/// Every byte of `s` is admissible.
pub open spec fn solo_admisibles(s: Seq<u8>) -> bool {
    forall|k: int| 0 <= k < s.len() ==> es_admisible(#[trigger] s[k])
}

/// The pieces into which the separator cuts `s`, in order. There is one piece
/// more than there are separators in `s`; a piece is empty where `s` begins or
/// ends with a separator, or where two separators touch.
pub open spec fn partes<T>(s: Seq<T>, sep: T) -> Seq<Seq<T>>
    decreases s.len(),
{
    if s.len() == 0 {
        seq![Seq::empty()]
    } else if s.last() == sep {
        partes(s.drop_last(), sep).push(Seq::empty())
    } else {
        let antes = partes(s.drop_last(), sep);
        antes.drop_last().push(antes.last().push(s.last()))
    }
}

/// The rows of `filas` written one after another, each followed by a separator.
pub open spec fn unir<T>(filas: Seq<Seq<T>>, sep: T) -> Seq<T>
    decreases filas.len(),
{
    if filas.len() == 0 {
        Seq::empty()
    } else {
        unir(filas.drop_last(), sep) + filas.last().push(sep)
    }
}

/// The pieces of `p` that hold at least one element, in order.
pub open spec fn llenas(p: Seq<Seq<u8>>) -> Seq<Seq<u8>> {
    p.filter(|f: Seq<u8>| f.len() > 0)
}

/// The rows that the input `s` holds.
///
/// They are the non-empty lines of `s`, in order. A blank line is no row,
/// wherever it stands: a line feed closes a row only if at least one cell
/// stands before it on its line. So a line feed that opens the input or
/// follows another line feed closes nothing, and neither does the end of the
/// input right after a line feed.
pub open spec fn filas_de(s: Seq<u8>) -> Seq<Seq<u8>> {
    llenas(partes(s, SALTO))
}

/// Every row of `t` is as long as the first.
pub open spec fn es_rectangular(t: Seq<Seq<u8>>) -> bool {
    forall|i: int| 0 <= i < t.len() ==> (#[trigger] t[i]).len() == t[0].len()
}

/// Every cell of `t` is a mine or empty.
pub open spec fn solo_celdas(t: Seq<Seq<u8>>) -> bool {
    forall|i: int, j: int| 0 <= i < t.len() && 0 <= j < t[i].len() ==> es_celda(#[trigger] t[i][j])
}

/// What a board is: a rectangular grid of mines and empty cells.
pub open spec fn es_tablero(t: Seq<Seq<u8>>) -> bool {
    es_rectangular(t) && solo_celdas(t)
}

/// The number of columns of `t`: the length of its first row, and 0 without rows.
pub open spec fn ancho(t: Seq<Seq<u8>>) -> nat {
    if t.len() == 0 {
        0
    } else {
        t[0].len()
    }
}

/// What building a board from the bytes `s` gives.
///
/// A byte that is not admissible refuses the input, wherever it stands and
/// whatever the rows look like. Otherwise rows of unequal length refuse it.
/// Otherwise the board is `filas_de(s)`.
pub open spec fn analizar(s: Seq<u8>) -> Result<Seq<Seq<u8>>, ErrorTablero> {
    if !solo_admisibles(s) {
        Err(ErrorTablero::CaracterInvalido)
    } else if !es_rectangular(filas_de(s)) {
        Err(ErrorTablero::TableroNoRectangular)
    } else {
        Ok(filas_de(s))
    }
}

/// The cell at row `x`, column `y` lies on the grid and holds a mine.
pub open spec fn hay_mina(t: Seq<Seq<u8>>, x: int, y: int) -> bool {
    0 <= x < t.len() && 0 <= y < t[x].len() && t[x][y] == MINA
}

/// 1 for a mine, 0 otherwise.
pub open spec fn uno_si(b: bool) -> nat {
    if b {
        1
    } else {
        0
    }
}

/// The number of mines in the three by three window centred on row `i`,
/// column `j`. Positions off the grid hold no mine. The centre counts like
/// its eight neighbours.
pub open spec fn minas_en_ventana(t: Seq<Seq<u8>>, i: int, j: int) -> nat {
    uno_si(hay_mina(t, i - 1, j - 1)) + uno_si(hay_mina(t, i - 1, j))
        + uno_si(hay_mina(t, i - 1, j + 1))
        + uno_si(hay_mina(t, i, j - 1)) + uno_si(hay_mina(t, i, j))
        + uno_si(hay_mina(t, i, j + 1))
        + uno_si(hay_mina(t, i + 1, j - 1)) + uno_si(hay_mina(t, i + 1, j))
        + uno_si(hay_mina(t, i + 1, j + 1))
}

/// All nine positions of the window centred on row `i`, column `j` hold a mine.
pub open spec fn ventana_llena(t: Seq<Seq<u8>>, i: int, j: int) -> bool {
    forall|x: int, y: int|
        i - 1 <= x <= i + 1 && j - 1 <= y <= j + 1 ==> #[trigger] hay_mina(t, x, y)
}

/// The character of the digit `n`, for `n` from 0 to 9.
pub open spec fn digito(n: nat) -> char {
    (CERO + n) as u8 as char
}

/// The character that the annotated text shows for the cell at row `i`,
/// column `j`: a mine stays a mine, an empty cell with no mine around it
/// stays empty, and any other empty cell shows how many mines surround it.
pub open spec fn simbolo(t: Seq<Seq<u8>>, i: int, j: int) -> char {
    if t[i][j] == MINA {
        '*'
    } else if minas_en_ventana(t, i, j) == 0 {
        '.'
    } else {
        digito(minas_en_ventana(t, i, j))
    }
}

/// The annotated row `i` of `t`, one character for each cell.
pub open spec fn fila_anotada(t: Seq<Seq<u8>>, i: int) -> Seq<char> {
    Seq::new(t[i].len(), |j: int| simbolo(t, i, j))
}

/// The annotated rows of `t`.
pub open spec fn anotado(t: Seq<Seq<u8>>) -> Seq<Seq<char>> {
    Seq::new(t.len(), |i: int| fila_anotada(t, i))
}

/// The annotated text of `t`: its annotated rows, each ended by a line feed.
pub open spec fn texto_anotado(t: Seq<Seq<u8>>) -> Seq<char> {
    unir(anotado(t), '\n')
}

/// The grid that a vector of rows holds.
pub open spec fn cuadricula(m: Seq<Vec<u8>>) -> Seq<Seq<u8>> {
    Seq::new(m.len(), |i: int| m[i]@)
}

} // verus!
