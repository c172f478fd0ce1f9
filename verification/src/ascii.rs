//! The ASCII characters that structure IMAP responses.
use vstd::prelude::*;

verus! {

/// `\n`
pub const LF: u8 = 0x0a;

/// `\r`
pub const CR: u8 = 0x0d;

/// The space character.
pub const SPACE: u8 = 0x20;

/// `"`
pub const QUOTE: u8 = 0x22;

/// `(`
pub const OPEN_PAREN: u8 = 0x28;

/// `)`
pub const CLOSE_PAREN: u8 = 0x29;

/// `0`
pub const ZERO: u8 = 0x30;

/// `9`
pub const NINE: u8 = 0x39;

/// `\`
pub const BACKSLASH: u8 = 0x5c;

/// `{`
pub const OPEN_BRACE: u8 = 0x7b;

/// `}`
pub const CLOSE_BRACE: u8 = 0x7d;

/// `/`
pub const SLASH: u8 = 0x2f;

/// `%`
pub const PERCENT: u8 = 0x25;

/// `*`
pub const STAR: u8 = 0x2a;

} // verus!
