//! A parser for hledger plaintext accounting journals.
//!
//! The input is read as a sequence of characters. Each parser is stated by a
//! specification function of its module, and the executable parser is proved
//! to compute exactly that result.
pub mod amount;
pub mod date;
pub mod journal;
pub mod number;
pub mod posting;
pub mod text;

pub use amount::{parse_amount, Exchange, Value, ValueAndExchange};
pub use date::{parse_date, Date};
pub use journal::{parse_all, parse_block, Block, Entry, Price};
pub use number::{parse_number, Number};
pub use posting::{parse_comment, Line, LineOrComment};
pub use text::{ErrorKind, Failure, ParseError};
