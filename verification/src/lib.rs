//! Verified core of a CV generator: a line-oriented style-script language is
//! parsed into a sequence of drawing commands, which a layout engine plays
//! back into absolute-positioned calls on a paginated document sink.
//!
//! Lengths are exact fixed-point values (thousandths of a millimetre), so
//! repeated additions such as table-row stepping cannot drift.  The document
//! sink itself (PDF pages, fonts, images) is an external collaborator: the
//! engine here produces the ordered list of sink calls as plain data.

pub mod command;
pub mod error;
pub mod geom;
pub mod num;
pub mod options;
pub mod parse;
pub mod record;
pub mod render;
pub mod scan;
