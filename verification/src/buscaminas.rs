//! The board and its three operations: building it from bytes, counting the
//! mines around a cell and writing the annotated text.

use vstd::prelude::*;
use vstd::utf8::is_ascii_chars;
use crate::error::ErrorTablero;
use crate::lemas::{
    filas_cerradas, lema_cerradas_celda, lema_cerradas_salto, lema_cerradas_vacio,
    lema_filas_de_cerradas, lema_unir_take, minas_vistas,
};
use crate::leyes::{
    lema_lineas_del_texto, lema_lo_leido_es_tablero, lema_minas_acotadas, lema_texto_ascii,
};
use crate::modelo::{
    analizar, ancho, anotado, cuadricula, es_rectangular, es_tablero, fila_anotada, filas_de,
    hay_mina, minas_en_ventana, partes, solo_admisibles, texto_anotado, unir, ventana_llena,
    CERO, MINA, SALTO, VACIO,
};

verus! {

/// A minesweeper board: a rectangular grid of mines and empty cells, with
/// its number of rows and of columns.
pub struct Buscaminas {
    /// The rows, each a vector of `MINA` and `VACIO` bytes.
    tablero: Vec<Vec<u8>>,
    filas: usize,
    columnas: usize,
}

/// The first index of the window centred on `i`: the one before `i`, or `i`
/// itself at the edge.
spec fn primera(i: usize) -> int {
    if i == 0 {
        0
    } else {
        i - 1
    }
}

/// The index at which the scan of the window centred on `i` stops: two past
/// `i`, or the largest index where that cannot be represented.
spec fn tope(i: usize) -> int {
    if i + 2 > usize::MAX {
        usize::MAX as int
    } else {
        i + 2
    }
}

impl View for Buscaminas {
    type V = Seq<Seq<u8>>;

    /// The grid of the board: its rows, each a sequence of cells.
    closed spec fn view(&self) -> Seq<Seq<u8>> {
        cuadricula(self.tablero@)
    }
}

impl Buscaminas {
    /// What holds of every board: its grid is rectangular and made of cells,
    /// and the two counts are those of the grid.
    #[verifier::type_invariant]
    spec fn bien_formado(&self) -> bool {
        &&& es_tablero(self@)
        &&& self.filas == self@.len()
        &&& self.columnas == ancho(self@)
    }

    /// Reads the rows out of `data` and checks them: every byte must be a
    /// mine, an empty cell or a line feed, and all rows must be equally long.
    fn crear_matriz(data: &[u8]) -> (r: Result<Vec<Vec<u8>>, ErrorTablero>)
        ensures
            match r {
                Ok(matriz) => analizar(data@) == Ok::<Seq<Seq<u8>>, ErrorTablero>(
                    cuadricula(matriz@),
                ),
                Err(e) => analizar(data@) == Err::<Seq<Seq<u8>>, ErrorTablero>(e),
            },
    {
        let mut fila: Vec<u8> = Vec::new();
        let mut last: u8 = SALTO;
        let mut matriz: Vec<Vec<u8>> = Vec::new();
        let mut k: usize = 0;
        proof {
            lema_cerradas_vacio();
            assert(data@.take(0) =~= Seq::<u8>::empty());
        }
        while k < data.len()
            invariant
                0 <= k <= data.len(),
                solo_admisibles(data@.take(k as int)),
                fila@ == partes(data@.take(k as int), SALTO).last(),
                cuadricula(matriz@) == filas_cerradas(data@.take(k as int)),
                last == (if k == 0 {
                    SALTO
                } else {
                    data@[k - 1]
                }),
            decreases data.len() - k,
        {
            let b = data[k];
            let ghost antes = data@.take(k as int);
            let ghost cerradas = cuadricula(matriz@);
            proof {
                assert(data@.take(k + 1) =~= antes.push(b));
                if b == SALTO {
                    lema_cerradas_salto(antes);
                } else {
                    lema_cerradas_celda(antes, b);
                }
            }
            if b == SALTO && last != SALTO {
                matriz.push(fila);
                fila = Vec::new();
                proof {
                    assert(cuadricula(matriz@) =~= cerradas.push(
                        partes(antes, SALTO).last(),
                    ));
                }
            } else if b == MINA || b == VACIO {
                fila.push(b);
            } else if b != MINA && b != VACIO && b != SALTO {
                return Err(ErrorTablero::CaracterInvalido);
            }
            last = b;
            k = k + 1;
        }
        proof {
            assert(data@.take(k as int) =~= data@);
            lema_filas_de_cerradas(data@);
        }
        if !fila.is_empty() {
            let ghost cerradas = cuadricula(matriz@);
            matriz.push(fila);
            proof {
                assert(cuadricula(matriz@) =~= cerradas.push(partes(data@, SALTO).last()));
            }
        }
        let mut i: usize = 0;
        while i < matriz.len()
            invariant
                0 <= i <= matriz.len(),
                solo_admisibles(data@),
                cuadricula(matriz@) == filas_de(data@),
                forall|h: int| 0 <= h < i ==> (#[trigger] matriz@[h])@.len() == matriz@[0]@.len(),
            decreases matriz.len() - i,
        {
            if matriz[0].len() != matriz[i].len() {
                proof {
                    assert(cuadricula(matriz@)[i as int].len() != cuadricula(matriz@)[0].len());
                }
                return Err(ErrorTablero::TableroNoRectangular);
            }
            i = i + 1;
        }
        proof {
            assert forall|h: int| 0 <= h < filas_de(data@).len() implies (#[trigger] filas_de(
                data@,
            )[h]).len() == filas_de(data@)[0].len() by {
                assert(cuadricula(matriz@)[h] == matriz@[h]@);
            }
        }
        Ok(matriz)
    }

    /// Builds the board that the bytes of `data` describe: `.` is an empty
    /// cell, `*` a mine, and a line feed ends a row.
    ///
    /// A blank line is no row: a line feed ends a row only if at least one
    /// cell stands before it on its line, and the last line feed is optional.
    ///
    /// The input is refused as a whole if it holds any other byte, or else if
    /// its rows differ in length. An input without rows gives the board with
    /// no rows and no columns.
    pub fn new(data: &[u8]) -> (r: Result<Buscaminas, ErrorTablero>)
        ensures
            match r {
                Ok(b) => analizar(data@) == Ok::<Seq<Seq<u8>>, ErrorTablero>(b@),
                Err(e) => analizar(data@) == Err::<Seq<Seq<u8>>, ErrorTablero>(e),
            },
            r is Ok <==> solo_admisibles(data@) && es_rectangular(filas_de(data@)),
            r matches Ok(b) ==> b@ == filas_de(data@) && es_tablero(b@),
            r matches Ok(b) ==> (b@.len() > 0 ==> ancho(b@) > 0),
            r matches Err(e) ==> e == (if solo_admisibles(data@) {
                ErrorTablero::TableroNoRectangular
            } else {
                ErrorTablero::CaracterInvalido
            }),
    {
        let matriz = match Self::crear_matriz(data) {
            Ok(matriz) => matriz,
            Err(error) => return Err(error),
        };
        proof {
            lema_lo_leido_es_tablero(data@);
        }
        let filas = matriz.len();
        let columnas = if filas == 0 {
            0
        } else {
            matriz[0].len()
        };
        Ok(Buscaminas { tablero: matriz, filas, columnas })
    }

    /// The annotated text of the board: one line for each row, each ended by
    /// a line feed. A mine is written `*`; an empty cell is written `.` if no
    /// mine surrounds it, and else as the digit that counts them.
    ///
    /// The text has as many lines as the board has rows, each as long as the
    /// board is wide, and nothing after the last line feed.
    pub fn buscar(&self) -> (out: String)
        ensures
            out@ == texto_anotado(self@),
            partes(out@, '\n') == anotado(self@).push(Seq::empty()),
            partes(out@, '\n').len() == self@.len() + 1,
            forall|i: int|
                0 <= i < self@.len() ==> (#[trigger] partes(out@, '\n')[i]).len() == ancho(self@),
            out@.len() == self@.len() * (ancho(self@) + 1),
            is_ascii_chars(out@),
    {
        proof {
            use_type_invariant(self);
            lema_lineas_del_texto(self@);
            lema_texto_ascii(self@);
        }
        let mut out = String::new();
        let mut i: usize = 0;
        while i < self.filas
            invariant
                0 <= i <= self.filas,
                self.bien_formado(),
                out@ == unir(anotado(self@).take(i as int), '\n'),
            decreases self.filas - i,
        {
            let ghost hechas = out@;
            let mut j: usize = 0;
            while j < self.columnas
                invariant
                    0 <= i < self.filas,
                    0 <= j <= self.columnas,
                    self.bien_formado(),
                    out@ == hechas + fila_anotada(self@, i as int).take(j as int),
                decreases self.columnas - j,
            {
                if self.tablero[i][j] == VACIO {
                    let resultado = self.get_cantidad_de_minas(i, j);
                    if resultado == 0 {
                        out.push('.');
                    } else {
                        out.push((resultado + CERO) as char);
                    }
                } else {
                    out.push('*');
                }
                proof {
                    let fila = fila_anotada(self@, i as int);
                    assert(fila.take(j + 1) =~= fila.take(j as int).push(fila[j as int]));
                    assert(out@ =~= hechas + fila.take(j + 1));
                }
                j += 1;
            }
            out.push('\n');
            proof {
                let fila = fila_anotada(self@, i as int);
                assert(fila.take(j as int) =~= fila);
                lema_unir_take(anotado(self@), '\n', i as int);
                assert(out@ =~= hechas + fila.push('\n'));
            }
            i += 1;
        }
        proof {
            assert(anotado(self@).take(i as int) =~= anotado(self@));
        }
        out
    }

    /// The number of mines in the three by three window centred on row `i`,
    /// column `j`. The window is cut at the edges of the board, so any pair
    /// of indices is accepted. The centre counts like its neighbours: the
    /// result is 9 only for a mine with a mine on each of its eight sides.
    pub fn get_cantidad_de_minas(&self, i: usize, j: usize) -> (cantidad: u8)
        ensures
            cantidad == minas_en_ventana(self@, i as int, j as int),
            cantidad <= 9,
            cantidad == 9 <==> ventana_llena(self@, i as int, j as int),
            !hay_mina(self@, i as int, j as int) ==> cantidad <= 8,
    {
        proof {
            use_type_invariant(self);
        }
        let mut cantidad: u8 = 0;
        let mut inicio_x: usize = 0;
        if i != 0 {
            inicio_x = i - 1;
        }
        let mut inicio_y: usize = 0;
        if j != 0 {
            inicio_y = j - 1;
        }
        let fin_x = i.saturating_add(2);
        let fin_y = j.saturating_add(2);
        let mut x = inicio_x;
        while x < fin_x
            invariant
                self.bien_formado(),
                inicio_x == primera(i),
                inicio_y == primera(j),
                fin_x == tope(i),
                fin_y == tope(j),
                inicio_x <= x <= fin_x,
                cantidad == minas_vistas(self@, i as int, j as int, x as int, inicio_y as int),
            decreases fin_x - x,
        {
            let mut y = inicio_y;
            while y < fin_y
                invariant
                    self.bien_formado(),
                    inicio_x == primera(i),
                    inicio_y == primera(j),
                    fin_x == tope(i),
                    fin_y == tope(j),
                    inicio_x <= x < fin_x,
                    inicio_y <= y <= fin_y,
                    cantidad == minas_vistas(self@, i as int, j as int, x as int, y as int),
                decreases fin_y - y,
            {
                if x < self.filas && y < self.columnas && self.tablero[x][y] == MINA {
                    cantidad += 1;
                }
                y += 1;
            }
            x += 1;
        }
        proof {
            lema_minas_acotadas(self@, i as int, j as int);
        }
        cantidad
    }

    /// The number of rows.
    pub fn filas(&self) -> (r: usize)
        ensures
            r == self@.len(),
    {
        proof {
            use_type_invariant(self);
        }
        self.filas
    }

    /// The number of columns: the length of every row, and 0 without rows.
    pub fn columnas(&self) -> (r: usize)
        ensures
            r == ancho(self@),
    {
        proof {
            use_type_invariant(self);
        }
        self.columnas
    }

    /// The rows of the board, each a vector of `MINA` and `VACIO` bytes.
    pub fn tablero(&self) -> (r: &Vec<Vec<u8>>)
        ensures
            cuadricula(r@) == self@,
            es_tablero(self@),
    {
        proof {
            use_type_invariant(self);
        }
        &self.tablero
    }
}

} // verus!
