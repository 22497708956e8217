//! The rows of the posts spreadsheet (columns A to F: date/time, message,
//! signature, link, posted, banned) and the choice of those still to be
//! posted.

use vstd::prelude::*;

use crate::decimal::{decimal, format_i32};

verus! {

/// A cell as the spreadsheet service returns it: no value, a text, or any
/// other JSON value, held as its JSON text.
pub enum JsonCell {
    Null,
    Text(String),
    Other(String),
}

impl JsonCell {
    /// A copy of the cell.
    pub fn copy(&self) -> (r: JsonCell)
        ensures
            r == *self,
    {
        match self {
            JsonCell::Null => JsonCell::Null,
            JsonCell::Text(s) => JsonCell::Text(s.clone()),
            JsonCell::Other(s) => JsonCell::Other(s.clone()),
        }
    }
}

/// Column `i` of a row; a missing cell counts as no value.
pub open spec fn cell_at(row: Seq<JsonCell>, i: int) -> JsonCell {
    if 0 <= i < row.len() {
        row[i]
    } else {
        JsonCell::Null
    }
}

/// An empty text counts as no value; any other cell stays as it is.
pub open spec fn null_if_empty(c: JsonCell) -> JsonCell {
    match c {
        JsonCell::Text(s) => if s@.len() == 0 {
            JsonCell::Null
        } else {
            c
        },
        _ => c,
    }
}

/// A row is still to be posted when both its "posted" (E) and "banned" (F)
/// cells have no value.
pub open spec fn unposted(row: Seq<JsonCell>) -> bool {
    cell_at(row, 4) is Null && cell_at(row, 5) is Null
}

fn cell_or_null(row: &Vec<JsonCell>, i: usize) -> (r: JsonCell)
    ensures
        r == cell_at(row@, i as int),
{
    if i < row.len() {
        row[i].copy()
    } else {
        JsonCell::Null
    }
}

/// Whether the row is still to be posted: neither posted nor banned.
pub fn check_postado_banido(wor: &Vec<JsonCell>) -> (r: bool)
    ensures
        r == unposted(wor@),
{
    let postado = cell_or_null(wor, 4);
    let banido = cell_or_null(wor, 5);
    match (postado, banido) {
        (JsonCell::Null, JsonCell::Null) => true,
        _ => false,
    }
}

/// The cell, with an empty text, or no cell at all, turned into no value.
pub fn empty_to_null(value: Option<&JsonCell>) -> (r: JsonCell)
    ensures
        r == (match value {
            Some(v) => null_if_empty(*v),
            None => JsonCell::Null,
        }),
{
    match value {
        Some(JsonCell::Text(s)) => {
            if s.unicode_len() == 0 {
                JsonCell::Null
            } else {
                JsonCell::Text(s.clone())
            }
        },
        Some(v) => v.copy(),
        None => JsonCell::Null,
    }
}

/// A row still to be posted, with its row number in the sheet as decimal text.
pub struct PendingPost {
    pub index: String,
    pub data_hora: JsonCell,
    pub mensagem: JsonCell,
    pub identificacao: JsonCell,
    pub link: JsonCell,
    pub postado: JsonCell,
    pub banido: JsonCell,
}

/// A pending post as a mathematical value.
pub struct PostView {
    pub index: Seq<char>,
    pub data_hora: JsonCell,
    pub mensagem: JsonCell,
    pub identificacao: JsonCell,
    pub link: JsonCell,
    pub postado: JsonCell,
    pub banido: JsonCell,
}

impl View for PendingPost {
    type V = PostView;

    open spec fn view(&self) -> PostView {
        PostView {
            index: self.index@,
            data_hora: self.data_hora,
            mensagem: self.mensagem,
            identificacao: self.identificacao,
            link: self.link,
            postado: self.postado,
            banido: self.banido,
        }
    }
}

pub open spec fn posts_view(ps: Seq<PendingPost>) -> Seq<PostView> {
    ps.map_values(|p: PendingPost| p@)
}

pub open spec fn rows_view(rows: Seq<Vec<JsonCell>>) -> Seq<Seq<JsonCell>> {
    rows.map_values(|r: Vec<JsonCell>| r@)
}

/// The post made of a row whose number in the sheet is `number`.
pub open spec fn post_of_row(row: Seq<JsonCell>, number: int) -> PostView {
    PostView {
        index: decimal(number),
        data_hora: cell_at(row, 0),
        mensagem: cell_at(row, 1),
        identificacao: cell_at(row, 2),
        link: cell_at(row, 3),
        postado: null_if_empty(cell_at(row, 4)),
        banido: null_if_empty(cell_at(row, 5)),
    }
}

/// The posts of the rows still to be posted, in the order of the rows; the
/// row at position `k` of what the service returned is numbered `k + 2`.
pub open spec fn not_posted(rows: Seq<Seq<JsonCell>>) -> Seq<PostView>
    decreases rows.len(),
{
    if rows.len() == 0 {
        Seq::empty()
    } else {
        let prev = not_posted(rows.drop_last());
        let k: int = rows.len() - 1;
        if unposted(rows[k]) {
            prev.push(post_of_row(rows[k], k + 2))
        } else {
            prev
        }
    }
}

/// The pending posts are exactly the rows still to be posted: each post is
/// made of such a row and numbered after it, each such row gives a post, and
/// every post is neither posted nor banned.
pub proof fn lemma_not_posted_exactly(rows: Seq<Seq<JsonCell>>)
    ensures
        not_posted(rows).len() <= rows.len(),
        forall|i: int|
            0 <= i < not_posted(rows).len() ==> (#[trigger] not_posted(rows)[i]).postado is Null
                && not_posted(rows)[i].banido is Null,
        forall|i: int|
            0 <= i < not_posted(rows).len() ==> exists|k: int|
                0 <= k < rows.len() && unposted(rows[k]) && #[trigger] not_posted(rows)[i]
                    == post_of_row(rows[k], k + 2),
        forall|k: int|
            0 <= k < rows.len() && unposted(#[trigger] rows[k]) ==> exists|i: int|
                0 <= i < not_posted(rows).len() && not_posted(rows)[i] == post_of_row(rows[k], k + 2),
    decreases rows.len(),
{
    if rows.len() > 0 {
        let init = rows.drop_last();
        let last: int = rows.len() - 1;
        lemma_not_posted_exactly(init);
        let prev = not_posted(init);
        let cur = not_posted(rows);
        assert forall|i: int| 0 <= i < cur.len() implies exists|k: int|
            0 <= k < rows.len() && unposted(rows[k]) && #[trigger] cur[i] == post_of_row(rows[k], k + 2) by {
            if i < prev.len() {
                assert(cur[i] == prev[i]);
                let k = choose|k: int| 0 <= k < init.len() && unposted(init[k]) && prev[i] == post_of_row(init[k], k + 2);
                assert(rows[k] == init[k]);
            } else {
                assert(cur[i] == post_of_row(rows[last], last + 2));
            }
        }
        assert forall|k: int| 0 <= k < rows.len() && unposted(#[trigger] rows[k]) implies exists|i: int|
            0 <= i < cur.len() && cur[i] == post_of_row(rows[k], k + 2) by {
            if k < last {
                assert(rows[k] == init[k]);
                assert(unposted(init[k]));
                let i = choose|i: int| 0 <= i < prev.len() && prev[i] == post_of_row(init[k], k + 2);
                assert(cur[i] == prev[i]);
            } else {
                assert(cur[prev.len() as int] == post_of_row(rows[k], k + 2));
            }
        }
        assert forall|i: int| 0 <= i < cur.len() implies (#[trigger] cur[i]).postado is Null
            && cur[i].banido is Null by {
            if i < prev.len() {
                assert(cur[i] == prev[i]);
            }
        }
    }
}

/// Each row with its position in what the service returned.
pub open spec fn numbered_rows(rows: Seq<Seq<JsonCell>>) -> Seq<(int, Seq<JsonCell>)> {
    Seq::new(rows.len(), |k: int| (k, rows[k]))
}

/// The pending posts are the rows still to be posted, each exactly once and
/// in row order, the row at position `k` made into a post numbered `k + 2`;
/// so there are as many posts as rows still to be posted.
pub proof fn lemma_not_posted_filters_rows(rows: Seq<Seq<JsonCell>>)
    ensures
        not_posted(rows) == numbered_rows(rows).filter(|p: (int, Seq<JsonCell>)| unposted(p.1)).map_values(
            |p: (int, Seq<JsonCell>)| post_of_row(p.1, p.0 + 2),
        ),
        not_posted(rows).len() == rows.filter(|r: Seq<JsonCell>| unposted(r)).len(),
    decreases rows.len(),
{
    reveal_with_fuel(Seq::filter, 1);
    let pred = |p: (int, Seq<JsonCell>)| unposted(p.1);
    let f = |p: (int, Seq<JsonCell>)| post_of_row(p.1, p.0 + 2);
    let rpred = |r: Seq<JsonCell>| unposted(r);
    if rows.len() == 0 {
        assert(numbered_rows(rows).filter(pred) =~= Seq::<(int, Seq<JsonCell>)>::empty());
        assert(rows.filter(rpred) =~= Seq::<Seq<JsonCell>>::empty());
        assert(numbered_rows(rows).filter(pred).map_values(f) =~= Seq::<PostView>::empty());
    } else {
        let init = rows.drop_last();
        lemma_not_posted_filters_rows(init);
        let nr = numbered_rows(rows);
        assert(nr.drop_last() =~= numbered_rows(init));
        assert(rows.drop_last() =~= init);
        let k = rows.len() - 1;
        assert(nr.last() == (k, rows[k]));
        let sub = numbered_rows(init).filter(pred);
        if unposted(rows[k]) {
            assert(nr.filter(pred) == sub.push(nr.last()));
            assert(sub.push(nr.last()).map_values(f) =~= sub.map_values(f).push(f(nr.last())));
        } else {
            assert(nr.filter(pred) == sub);
        }
    }
}

/// The posts of the rows that are neither posted nor banned, in order.
pub fn select_not_posted(rows: &Vec<Vec<JsonCell>>) -> (r: Vec<PendingPost>)
    requires
        rows@.len() + 1 <= i32::MAX,
    ensures
        posts_view(r@) == not_posted(rows_view(rows@)),
{
    let mut json_rows: Vec<PendingPost> = Vec::new();
    let mut index: i32 = 1;
    let mut k: usize = 0;
    while k < rows.len()
        invariant
            rows@.len() + 1 <= i32::MAX,
            k <= rows@.len(),
            index == k + 1,
            posts_view(json_rows@) == not_posted(rows_view(rows@).take(k as int)),
        decreases rows@.len() - k,
    {
        index = index + 1;
        let row = &rows[k];
        let ghost taken = rows_view(rows@).take(k + 1);
        assert(taken.drop_last() =~= rows_view(rows@).take(k as int));
        assert(taken[k as int] == row@);
        if check_postado_banido(row) {
            let post = PendingPost {
                index: format_i32(index),
                data_hora: cell_or_null(row, 0),
                mensagem: cell_or_null(row, 1),
                identificacao: cell_or_null(row, 2),
                link: cell_or_null(row, 3),
                postado: empty_to_null(row.get(4)),
                banido: empty_to_null(row.get(5)),
            };
            json_rows.push(post);
            assert(posts_view(json_rows@) =~= posts_view(json_rows@).drop_last().push(post@));
            assert(posts_view(json_rows@).drop_last() =~= not_posted(rows_view(rows@).take(k as int)));
        }
        k = k + 1;
    }
    assert(rows_view(rows@).take(rows@.len() as int) =~= rows_view(rows@));
    json_rows
}

} // verus!
