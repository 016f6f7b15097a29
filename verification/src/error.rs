//! Why a board could not be built.

use vstd::prelude::*;

verus! {

/// The two ways in which the bytes handed to `Buscaminas::new` can be refused.
#[derive(Clone, Copy, Debug, PartialEq, Eq, Structural)]
pub enum ErrorTablero {
    /// Some byte is neither a mine, an empty cell nor a line feed.
    CaracterInvalido,
    /// Every byte is admissible, but two rows differ in length.
    TableroNoRectangular,
}

impl ErrorTablero {
    /// The text that goes with each error.
    pub open spec fn texto(self) -> Seq<char> {
        match self {
            ErrorTablero::CaracterInvalido => "caracteres invalidos en la matriz"@,
            ErrorTablero::TableroNoRectangular => "matriz no rectangular"@,
        }
    }

    /// A short description of the error, fit to be shown to a user.
    pub fn mensaje(&self) -> (r: &'static str)
        ensures
            r@ == self.texto(),
    {
        match self {
            ErrorTablero::CaracterInvalido => "caracteres invalidos en la matriz",
            ErrorTablero::TableroNoRectangular => "matriz no rectangular",
        }
    }
}

} // verus!
