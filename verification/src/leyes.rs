//! Laws of the model: what holds of cutting and joining, of reading a board
//! from bytes, of the count of mines and of the annotated text.

use vstd::prelude::*;
use vstd::utf8::{encode_utf8, is_ascii_chars, is_ascii_chars_encode_utf8};
use crate::error::ErrorTablero;
use crate::lemas::{
    filas_cerradas, lema_cerradas_celda, lema_cerradas_salto, lema_filas_de_cerradas,
    lema_ultima_parte, lema_unir_take,
};
use crate::modelo::{
    analizar, ancho, anotado, digito, es_admisible, es_celda, es_rectangular, es_tablero, filas_de,
    hay_mina, llenas, minas_en_ventana, partes, simbolo, solo_admisibles, solo_celdas,
    texto_anotado, unir, ventana_llena, MINA, SALTO,
};

verus! {

// Cutting and joining

/// No element of `s` is the separator.
pub open spec fn sin_separador<T>(s: Seq<T>, sep: T) -> bool {
    forall|k: int| 0 <= k < s.len() ==> #[trigger] s[k] != sep
}

/// Cutting undoes joining: if no row holds the separator, then the text made
/// of the rows, each followed by a separator, and of a last piece `resto`
/// without one, is cut into exactly those rows and that piece.
pub proof fn lema_partes_de_unir<T>(filas: Seq<Seq<T>>, resto: Seq<T>, sep: T)
    requires
        forall|i: int| 0 <= i < filas.len() ==> sin_separador(#[trigger] filas[i], sep),
        sin_separador(resto, sep),
    ensures
        partes(unir(filas, sep) + resto, sep) == filas.push(resto),
    decreases filas.len(), resto.len(),
{
    let s = unir(filas, sep) + resto;
    if resto.len() > 0 {
        // the last element lengthens the last piece
        lema_partes_de_unir(filas, resto.drop_last(), sep);
        assert(s.drop_last() =~= unir(filas, sep) + resto.drop_last());
        assert(s.last() == resto.last());
        assert(filas.push(resto.drop_last()).drop_last() =~= filas);
        assert(resto.drop_last().push(resto.last()) =~= resto);
    } else if filas.len() > 0 {
        // the last element is the separator that closes the last row
        lema_partes_de_unir(filas.drop_last(), filas.last(), sep);
        assert(s.drop_last() =~= unir(filas.drop_last(), sep) + filas.last());
        assert(s.last() == sep);
        assert(filas.drop_last().push(filas.last()) =~= filas);
        assert(resto =~= Seq::empty());
    } else {
        assert(s =~= Seq::empty());
        assert(filas.push(resto) =~= seq![Seq::empty()]);
    }
}

/// Joining undoes cutting: the pieces of `s`, all but the last followed by a
/// separator, give `s` back, and no piece holds the separator.
pub proof fn lema_unir_de_partes<T>(s: Seq<T>, sep: T)
    ensures
        partes(s, sep).len() >= 1,
        unir(partes(s, sep).drop_last(), sep) + partes(s, sep).last() == s,
        forall|i: int|
            0 <= i < partes(s, sep).len() ==> sin_separador(#[trigger] partes(s, sep)[i], sep),
    decreases s.len(),
{
    let p = partes(s, sep);
    if s.len() == 0 {
        assert(p.drop_last() =~= Seq::empty());
        assert(unir(p.drop_last(), sep) + p.last() =~= s);
    } else {
        let antes = partes(s.drop_last(), sep);
        let unidas = unir(antes.drop_last(), sep);
        lema_unir_de_partes(s.drop_last(), sep);
        assert(s.drop_last().push(s.last()) =~= s);
        if s.last() == sep {
            assert(p.drop_last() =~= antes);
            assert(antes.drop_last().push(antes.last()) =~= antes);
            assert(unir(antes, sep) + Seq::empty() =~= (unidas + antes.last()).push(sep));
        } else {
            assert(p.drop_last() =~= antes.drop_last());
            assert(unidas + antes.last().push(s.last()) =~= (unidas + antes.last()).push(
                s.last(),
            ));
        }
    }
}

/// The length of rows that are all `w` long, joined.
proof fn lema_largo_unir<T>(filas: Seq<Seq<T>>, sep: T, w: nat)
    requires
        forall|i: int| 0 <= i < filas.len() ==> (#[trigger] filas[i]).len() == w,
    ensures
        unir(filas, sep).len() == filas.len() * (w + 1),
    decreases filas.len(),
{
    if filas.len() > 0 {
        lema_largo_unir(filas.drop_last(), sep, w);
        let n = filas.len() as int;
        assert((n - 1) * (w + 1) + (w + 1) == n * (w + 1)) by (nonlinear_arith);
    }
}

/// Where each element of rows that are all `w` long stands once they are
/// joined: row `i` begins at `i * (w + 1)`, and its separator follows it.
proof fn lema_indice_unir<T>(filas: Seq<Seq<T>>, sep: T, w: nat, i: int, j: int)
    requires
        forall|h: int| 0 <= h < filas.len() ==> (#[trigger] filas[h]).len() == w,
        0 <= i < filas.len(),
        0 <= j <= w,
    ensures
        0 <= i * (w + 1) + j < unir(filas, sep).len(),
        unir(filas, sep)[i * (w + 1) + j] == if j < w {
            filas[i][j]
        } else {
            sep
        },
    decreases filas.len(),
{
    let frente = filas.drop_last();
    lema_largo_unir(frente, sep, w);
    lema_largo_unir(filas, sep, w);
    if i < filas.len() - 1 {
        lema_indice_unir(frente, sep, w, i, j);
    } else {
        assert(i * (w + 1) >= 0) by (nonlinear_arith)
            requires
                i >= 0,
                w >= 0,
        ;
    }
}

// Reading a board

/// Every byte of `f` is a cell.
pub open spec fn fila_de_celdas(f: Seq<u8>) -> bool {
    forall|k: int| 0 <= k < f.len() ==> es_celda(#[trigger] f[k])
}

/// Every row of `filas` holds at least one cell and nothing but cells.
pub open spec fn filas_de_celdas(filas: Seq<Seq<u8>>) -> bool {
    forall|i: int|
        0 <= i < filas.len() ==> (#[trigger] filas[i]).len() > 0 && fila_de_celdas(filas[i])
}

/// The rows `filas`, and after them the row `resto` unless it is empty.
pub open spec fn filas_con_resto(filas: Seq<Seq<u8>>, resto: Seq<u8>) -> Seq<Seq<u8>> {
    if resto.len() > 0 {
        filas.push(resto)
    } else {
        filas
    }
}

/// A byte that is neither a mine, an empty cell nor a line feed refuses the
/// input with `CaracterInvalido`, wherever it stands and whatever else the
/// input holds.
pub proof fn lema_caracter_invalido(s: Seq<u8>, k: int)
    requires
        0 <= k < s.len(),
        !es_admisible(s[k]),
    ensures
        analizar(s) == Err::<Seq<Seq<u8>>, ErrorTablero>(ErrorTablero::CaracterInvalido),
{
}

/// Rows of unequal length never give a board: if some row of the input is
/// not as long as its first row, the input is refused, and with
/// `TableroNoRectangular` unless a byte of it is inadmissible.
pub proof fn lema_filas_desiguales(s: Seq<u8>, i: int)
    requires
        0 <= i < filas_de(s).len(),
        filas_de(s)[i].len() != filas_de(s)[0].len(),
    ensures
        analizar(s) is Err,
        solo_admisibles(s) ==> analizar(s) == Err::<Seq<Seq<u8>>, ErrorTablero>(
            ErrorTablero::TableroNoRectangular,
        ),
{
}

/// Every piece of admissible bytes is made of cells.
proof fn lema_partes_de_celdas(s: Seq<u8>)
    requires
        solo_admisibles(s),
    ensures
        partes(s, SALTO).len() >= 1,
        forall|i: int|
            0 <= i < partes(s, SALTO).len() ==> fila_de_celdas(#[trigger] partes(s, SALTO)[i]),
    decreases s.len(),
{
    if s.len() > 0 {
        lema_partes_de_celdas(s.drop_last());
        assert(es_admisible(s.last()));
    }
}

/// The pieces kept as rows are non-empty, and made of cells if all pieces are.
proof fn lema_llenas_de_celdas(p: Seq<Seq<u8>>)
    requires
        forall|i: int| 0 <= i < p.len() ==> fila_de_celdas(#[trigger] p[i]),
    ensures
        filas_de_celdas(llenas(p)),
    decreases p.len(),
{
    reveal(Seq::filter);
    if p.len() > 0 {
        lema_llenas_de_celdas(p.drop_last());
    }
}

/// Pieces that are all non-empty are all kept.
proof fn lema_llenas_todas(p: Seq<Seq<u8>>)
    requires
        forall|i: int| 0 <= i < p.len() ==> (#[trigger] p[i]).len() > 0,
    ensures
        llenas(p) == p,
    decreases p.len(),
{
    reveal(Seq::filter);
    if p.len() > 0 {
        lema_llenas_todas(p.drop_last());
        assert(p.drop_last().push(p.last()) =~= p);
    }
}

/// The text of rows of cells holds admissible bytes only.
proof fn lema_unir_celdas(filas: Seq<Seq<u8>>)
    requires
        filas_de_celdas(filas),
    ensures
        solo_admisibles(unir(filas, SALTO)),
    decreases filas.len(),
{
    if filas.len() > 0 {
        lema_unir_celdas(filas.drop_last());
        let u = unir(filas.drop_last(), SALTO);
        let s = u + filas.last().push(SALTO);
        assert forall|k: int| 0 <= k < s.len() implies es_admisible(#[trigger] s[k]) by {
            if k >= u.len() && k - u.len() < filas.last().len() {
                assert(s[k] == filas.last()[k - u.len()]);
            }
        }
    }
}

/// No row is ever empty, whatever the bytes: a blank line is not recorded.
pub proof fn lema_filas_no_vacias(s: Seq<u8>)
    ensures
        forall|i: int| 0 <= i < filas_de(s).len() ==> (#[trigger] filas_de(s)[i]).len() > 0,
{
    let lleno = |f: Seq<u8>| f.len() > 0;
    assert forall|i: int| 0 <= i < filas_de(s).len() implies (#[trigger] filas_de(s)[i]).len()
        > 0 by {
        partes(s, SALTO).lemma_filter_pred(lleno, i);
    }
}

/// The rows read from admissible bytes hold nothing but cells, and each of
/// them holds at least one.
pub proof fn lema_filas_leidas(s: Seq<u8>)
    requires
        solo_admisibles(s),
    ensures
        filas_de_celdas(filas_de(s)),
        solo_celdas(filas_de(s)),
{
    lema_partes_de_celdas(s);
    lema_llenas_de_celdas(partes(s, SALTO));
}

/// Whatever is read is a board: if the bytes are accepted, the grid they
/// give is rectangular and holds nothing but mines and empty cells. It has
/// no empty row, so it has a column unless it has no row.
pub proof fn lema_lo_leido_es_tablero(s: Seq<u8>)
    ensures
        analizar(s) matches Ok(t) ==> es_tablero(t) && t == filas_de(s) && (t.len() > 0
            ==> ancho(t) > 0),
{
    if solo_admisibles(s) {
        lema_filas_leidas(s);
    }
}

/// Reading is the inverse of writing. Take rows that each hold at least one
/// cell and nothing but cells, write each with a line feed after it, and let
/// a last row `resto` of cells follow without a line feed (or nothing at
/// all: the last line feed is optional). Every byte of that text is
/// admissible, its rows are exactly the rows written, and it gives that
/// board if the rows are equally long and `TableroNoRectangular` if not.
pub proof fn lema_leer_lo_escrito(filas: Seq<Seq<u8>>, resto: Seq<u8>)
    requires
        filas_de_celdas(filas),
        fila_de_celdas(resto),
    ensures
        solo_admisibles(unir(filas, SALTO) + resto),
        filas_de(unir(filas, SALTO) + resto) == filas_con_resto(filas, resto),
        analizar(unir(filas, SALTO) + resto) == if es_rectangular(filas_con_resto(filas, resto)) {
            Ok::<Seq<Seq<u8>>, ErrorTablero>(filas_con_resto(filas, resto))
        } else {
            Err::<Seq<Seq<u8>>, ErrorTablero>(ErrorTablero::TableroNoRectangular)
        },
{
    lema_unir_celdas(filas);
    assert forall|i: int| 0 <= i < filas.len() implies sin_separador(
        #[trigger] filas[i],
        SALTO,
    ) by {
        assert forall|k: int| 0 <= k < filas[i].len() implies #[trigger] filas[i][k] != SALTO by {
            assert(es_celda(filas[i][k]));
        }
    }
    assert forall|k: int| 0 <= k < resto.len() implies #[trigger] resto[k] != SALTO by {
        assert(es_celda(resto[k]));
    }
    // the pieces of the text are the rows and `resto`, and all rows are kept
    lema_partes_de_unir(filas, resto, SALTO);
    lema_llenas_todas(filas);
    filas.lemma_filter_push(resto, |f: Seq<u8>| f.len() > 0);
}

/// The last line feed is optional: a line feed at the end of the input
/// changes neither its rows nor what is made of it.
pub proof fn lema_salto_final_opcional(s: Seq<u8>)
    ensures
        filas_de(s.push(SALTO)) == filas_de(s),
        analizar(s.push(SALTO)) == analizar(s),
{
    lema_cerradas_salto(s);
    lema_filas_de_cerradas(s);
    lema_filas_de_cerradas(s.push(SALTO));
    lema_ultima_parte(s, SALTO);
    lema_admisibles_push(s, SALTO);
}

/// Admissible bytes stay admissible with an admissible byte more, and only so.
proof fn lema_admisibles_push(s: Seq<u8>, b: u8)
    ensures
        solo_admisibles(s.push(b)) <==> solo_admisibles(s) && es_admisible(b),
{
    if solo_admisibles(s.push(b)) {
        assert(es_admisible(s.push(b)[s.len() as int]));
        assert forall|k: int| 0 <= k < s.len() implies es_admisible(#[trigger] s[k]) by {
            assert(s[k] == s.push(b)[k]);
        }
    }
}

/// What reading keeps in mind after the bytes `x` is the same as after the
/// bytes `y`: the same rows are closed and the same piece is open.
spec fn mismo_estado(x: Seq<u8>, y: Seq<u8>) -> bool {
    &&& filas_cerradas(x) == filas_cerradas(y)
    &&& partes(x, SALTO).last() == partes(y, SALTO).last()
    &&& solo_admisibles(x) <==> solo_admisibles(y)
}

/// Inputs that leave reading in the same state are read alike whatever
/// follows them.
proof fn lema_mismo_estado(x: Seq<u8>, y: Seq<u8>, b: Seq<u8>)
    requires
        mismo_estado(x, y),
    ensures
        mismo_estado(x + b, y + b),
        filas_de(x + b) == filas_de(y + b),
        analizar(x + b) == analizar(y + b),
    decreases b.len(),
{
    if b.len() == 0 {
        assert(x + b =~= x);
        assert(y + b =~= y);
    } else {
        let c = b.last();
        lema_mismo_estado(x, y, b.drop_last());
        let xa = x + b.drop_last();
        let ya = y + b.drop_last();
        assert(x + b =~= xa.push(c));
        assert(y + b =~= ya.push(c));
        lema_admisibles_push(xa, c);
        lema_admisibles_push(ya, c);
        if c == SALTO {
            lema_cerradas_salto(xa);
            lema_cerradas_salto(ya);
        } else {
            lema_cerradas_celda(xa, c);
            lema_cerradas_celda(ya, c);
        }
    }
    lema_filas_de_cerradas(x + b);
    lema_filas_de_cerradas(y + b);
}

/// A line feed right after a line feed opens no row: whatever stands before
/// the two and whatever follows them, the input is read as if there were
/// only one.
pub proof fn lema_saltos_seguidos(a: Seq<u8>, b: Seq<u8>)
    ensures
        filas_de(a.push(SALTO).push(SALTO) + b) == filas_de(a.push(SALTO) + b),
        analizar(a.push(SALTO).push(SALTO) + b) == analizar(a.push(SALTO) + b),
{
    let y = a.push(SALTO);
    lema_cerradas_salto(y);
    lema_cerradas_salto(a);
    lema_admisibles_push(y, SALTO);
    lema_mismo_estado(y.push(SALTO), y, b);
}

/// A line feed that opens the input opens no row: the input is read as if
/// it began after it.
pub proof fn lema_salto_inicial(b: Seq<u8>)
    ensures
        filas_de(seq![SALTO] + b) == filas_de(b),
        analizar(seq![SALTO] + b) == analizar(b),
{
    let vacio = Seq::<u8>::empty();
    lema_cerradas_salto(vacio);
    lema_admisibles_push(vacio, SALTO);
    assert(vacio.push(SALTO) =~= seq![SALTO]);
    lema_mismo_estado(seq![SALTO], vacio, b);
    assert(vacio + b =~= b);
}

// Counting mines

/// The count of mines around a cell is at most 9, and it is 9 only where the
/// whole window is mines: the cell itself and its eight neighbours. In every
/// other case, so for every empty cell and for every cell on the edge of
/// the grid, it is at most 8.
pub proof fn lema_minas_acotadas(t: Seq<Seq<u8>>, i: int, j: int)
    ensures
        minas_en_ventana(t, i, j) <= 9,
        minas_en_ventana(t, i, j) == 9 <==> ventana_llena(t, i, j),
        !ventana_llena(t, i, j) ==> minas_en_ventana(t, i, j) <= 8,
        !hay_mina(t, i, j) ==> minas_en_ventana(t, i, j) <= 8,
{
    if minas_en_ventana(t, i, j) == 9 {
        assert forall|x: int, y: int|
            i - 1 <= x <= i + 1 && j - 1 <= y <= j + 1 implies #[trigger] hay_mina(t, x, y) by {
            assert(x == i - 1 || x == i || x == i + 1);
            assert(y == j - 1 || y == j || y == j + 1);
        }
    }
    if ventana_llena(t, i, j) {
        assert(hay_mina(t, i - 1, j - 1) && hay_mina(t, i - 1, j) && hay_mina(t, i - 1, j + 1));
        assert(hay_mina(t, i, j - 1) && hay_mina(t, i, j) && hay_mina(t, i, j + 1));
        assert(hay_mina(t, i + 1, j - 1) && hay_mina(t, i + 1, j) && hay_mina(t, i + 1, j + 1));
    }
}

// The annotated text

/// The ten digits.
pub proof fn lema_digitos()
    ensures
        digito(0) == '0',
        digito(1) == '1',
        digito(2) == '2',
        digito(3) == '3',
        digito(4) == '4',
        digito(5) == '5',
        digito(6) == '6',
        digito(7) == '7',
        digito(8) == '8',
        digito(9) == '9',
{
}

/// What the annotated text shows for a cell of the grid is one of ten
/// characters: `*` for a mine, and for any other cell `.` or a digit from 1
/// to 8, the count of mines around it. It is never a line feed.
pub proof fn lema_simbolos(t: Seq<Seq<u8>>, i: int, j: int)
    requires
        0 <= i < t.len(),
        0 <= j < t[i].len(),
    ensures
        t[i][j] == MINA ==> simbolo(t, i, j) == '*',
        t[i][j] != MINA && minas_en_ventana(t, i, j) == 0 ==> simbolo(t, i, j) == '.',
        t[i][j] != MINA && minas_en_ventana(t, i, j) != 0 ==> {
            &&& 1 <= minas_en_ventana(t, i, j) <= 8
            &&& '1' <= simbolo(t, i, j) <= '8'
            &&& simbolo(t, i, j) as int == '0' as int + minas_en_ventana(t, i, j)
        },
        simbolo(t, i, j) != '\n',
{
    lema_minas_acotadas(t, i, j);
}

/// The annotated text of a rectangular grid has as many lines as the grid
/// has rows, each as long as the grid is wide and each ended by a line
/// feed, with nothing after the last: cut at the line feeds, it falls into
/// the annotated rows and an empty remainder.
pub proof fn lema_lineas_del_texto(t: Seq<Seq<u8>>)
    requires
        es_rectangular(t),
    ensures
        partes(texto_anotado(t), '\n') == anotado(t).push(Seq::empty()),
        anotado(t).len() == t.len(),
        forall|i: int| 0 <= i < t.len() ==> (#[trigger] anotado(t)[i]).len() == ancho(t),
        texto_anotado(t).len() == t.len() * (ancho(t) + 1),
{
    let a = anotado(t);
    assert forall|i: int| 0 <= i < a.len() implies sin_separador(#[trigger] a[i], '\n') by {
        assert forall|k: int| 0 <= k < a[i].len() implies #[trigger] a[i][k] != '\n' by {
            lema_simbolos(t, i, k);
        }
    }
    lema_partes_de_unir(a, Seq::empty(), '\n');
    assert(unir(a, '\n') + Seq::empty() =~= unir(a, '\n'));
    assert forall|i: int| 0 <= i < t.len() implies (#[trigger] a[i]).len() == ancho(t) by {
        assert(t[i].len() == t[0].len());
    }
    lema_largo_unir(a, '\n', ancho(t));
}

/// Where each cell of a rectangular grid stands in the annotated text: a
/// row takes one character for each column and one for its line feed, so
/// the cell at row `i`, column `j` is shown at `i * (ancho(t) + 1) + j`, and
/// the line feed of row `i` stands at `i * (ancho(t) + 1) + ancho(t)`.
pub proof fn lema_posiciones_del_texto(t: Seq<Seq<u8>>, i: int, j: int)
    requires
        es_rectangular(t),
        0 <= i < t.len(),
        0 <= j <= ancho(t),
    ensures
        0 <= i * (ancho(t) + 1) + j < texto_anotado(t).len(),
        texto_anotado(t)[i * (ancho(t) + 1) + j] == if j < ancho(t) {
            simbolo(t, i, j)
        } else {
            '\n'
        },
{
    lema_lineas_del_texto(t);
    assert(t[i].len() == t[0].len());
    lema_indice_unir(anotado(t), '\n', ancho(t), i, j);
}

/// The first `n` annotated rows of a grid, joined, are plain ASCII.
proof fn lema_unir_ascii(t: Seq<Seq<u8>>, n: int)
    requires
        0 <= n <= t.len(),
    ensures
        is_ascii_chars(unir(anotado(t).take(n), '\n')),
    decreases n,
{
    if n > 0 {
        lema_unir_ascii(t, n - 1);
        lema_unir_take(anotado(t), '\n', n - 1);
        let antes = unir(anotado(t).take(n - 1), '\n');
        let s = antes + anotado(t)[n - 1].push('\n');
        assert forall|k: int| 0 <= k < s.len() implies '\0' <= #[trigger] s[k] <= '\u{7f}' by {
            if k >= antes.len() && k - antes.len() < t[n - 1].len() {
                lema_simbolos(t, n - 1, k - antes.len());
            }
        }
    }
}

/// The annotated text of a grid is plain ASCII.
pub proof fn lema_texto_ascii(t: Seq<Seq<u8>>)
    ensures
        is_ascii_chars(texto_anotado(t)),
{
    lema_unir_ascii(t, t.len() as int);
    assert(anotado(t).take(t.len() as int) =~= anotado(t));
}

/// The annotated text is no input: once it shows a digit, that is once some
/// empty cell of the grid has a mine beside it, reading its bytes back is
/// refused with `CaracterInvalido`.
pub proof fn lema_texto_con_digito_no_es_entrada(t: Seq<Seq<u8>>, i: int, j: int)
    requires
        es_rectangular(t),
        0 <= i < t.len(),
        0 <= j < t[i].len(),
        t[i][j] != MINA,
        minas_en_ventana(t, i, j) != 0,
    ensures
        analizar(encode_utf8(texto_anotado(t))) == Err::<Seq<Seq<u8>>, ErrorTablero>(
            ErrorTablero::CaracterInvalido,
        ),
{
    let texto = texto_anotado(t);
    let k = i * (ancho(t) + 1) + j;
    assert(t[i].len() == t[0].len());
    lema_posiciones_del_texto(t, i, j);
    lema_simbolos(t, i, j);
    lema_texto_ascii(t);
    is_ascii_chars_encode_utf8(texto);
    assert(encode_utf8(texto)[k] == texto[k] as u8);
    lema_caracter_invalido(encode_utf8(texto), k);
}

} // verus!
