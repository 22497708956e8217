//! The logic of the "spotted" poster: the counter file, the text tokenizer and
//! line layout, the QR code composition and the selection of the sheet rows
//! that still have to be posted.

pub mod decimal;
pub mod strings;
pub mod definitions;
pub mod imagens;
pub mod canvas;
pub mod qr;
pub mod sheet;
