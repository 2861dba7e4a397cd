//! Reading and writing the nested key/value text format of strategy-game
//! data files (tables of `key = value` entries, keyless values, brace groups,
//! quoted strings and `#` comments), and the Hearts of Iron IV objects built
//! on top of it.
pub mod chars;
pub mod value;
pub mod grammar;
pub mod parser;
pub mod serialize;
pub mod laws;
pub mod hoi4;
pub mod text;
pub mod game;
pub mod tags;
pub mod modif;

pub use value::{CwKeyValue, CwTable, CwValue};
pub use parser::{parse, ParseError};
pub use serialize::{escape_str, escape_str_if_needed};
pub use hoi4::{Hoi4Country, Hoi4State};
pub use game::{CwGameHoi4, LoadError};
pub use tags::TagGenerator;
pub use modif::Hoi4Mod;
