//! The post being worked on, and the number of the last spotted, kept as
//! decimal text in the counter file.

use vstd::prelude::*;

use crate::decimal::{decimal, format_i32, lemma_parse_decimal_roundtrip, parse_i32, parse_i32_spec};

verus! {

/// A post with its number, text, signature and link.
pub struct SpottedStruct {
    pub id: String,
    pub spt_num: i32,
    pub mensagem: String,
    pub identificacao: String,
    pub link: String,
}

impl SpottedStruct {
    /// An empty post: empty texts and number 0.
    pub fn new() -> (s: SpottedStruct)
        ensures
            s.id@ == Seq::<char>::empty(),
            s.spt_num == 0,
            s.mensagem@ == Seq::<char>::empty(),
            s.identificacao@ == Seq::<char>::empty(),
            s.link@ == Seq::<char>::empty(),
    {
        SpottedStruct {
            id: String::new(),
            spt_num: 0,
            mensagem: String::new(),
            identificacao: String::new(),
            link: String::new(),
        }
    }

    /// An empty post whose id, message and signature are taken from the
    /// fields of a row that hold text; a field without text stays empty.
    pub fn from_fields(id: Option<String>, mensagem: Option<String>, identificacao: Option<String>) -> (s: SpottedStruct)
        ensures
            s.id@ == (match id {
                Some(t) => t@,
                None => Seq::<char>::empty(),
            }),
            s.mensagem@ == (match mensagem {
                Some(t) => t@,
                None => Seq::<char>::empty(),
            }),
            s.identificacao@ == (match identificacao {
                Some(t) => t@,
                None => Seq::<char>::empty(),
            }),
            s.spt_num == 0,
            s.link@ == Seq::<char>::empty(),
    {
        let mut s = SpottedStruct::new();
        if let Some(t) = id {
            s.id = t;
        }
        if let Some(t) = mensagem {
            s.mensagem = t;
        }
        if let Some(t) = identificacao {
            s.identificacao = t;
        }
        s
    }
}

/// The number that the counter file's contents hold: the contents read as an
/// `i32`, or 0 where they do not read as one (the default of `i32`).
pub open spec fn spotted_nmr_of(contents: Seq<char>) -> i32 {
    match parse_i32_spec(contents) {
        Some(v) => v,
        None => 0,
    }
}

/// The spotted number held by the counter file's contents.
pub fn spotted_nmr_from_contents(contents: &str) -> (n: i32)
    ensures
        n == spotted_nmr_of(contents@),
{
    match parse_i32(contents) {
        Some(v) => v,
        None => 0,
    }
}

/// The contents that the counter file gets when the number it holds is
/// incremented: the decimal text of the next number.
pub fn updated_spotted_contents(contents: &str) -> (r: String)
    requires
        spotted_nmr_of(contents@) < i32::MAX,
    ensures
        r@ == decimal(spotted_nmr_of(contents@) + 1),
{
    let current: i32 = spotted_nmr_from_contents(contents);
    format_i32(current + 1)
}

/// After an update, the counter file reads as the number it held before plus one.
pub proof fn lemma_update_then_read(contents: Seq<char>)
    requires
        spotted_nmr_of(contents) < i32::MAX,
    ensures
        spotted_nmr_of(decimal(spotted_nmr_of(contents) + 1)) == spotted_nmr_of(contents) + 1,
{
    let next: i32 = (spotted_nmr_of(contents) + 1) as i32;
    lemma_parse_decimal_roundtrip(next);
}

} // verus!
