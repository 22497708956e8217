//! Splitting a post's text into tokens, and the line layout that decides where
//! each token is drawn on the template image.

use vstd::prelude::*;

use crate::decimal::{decimal, push_decimal};
use crate::strings::{char_is_alphanumeric, is_alphanumeric, push_char};

verus! {

/// A piece of the text: a run of alphanumeric characters, an emoji, or any
/// other single character.
pub enum TipoToken {
    Palavra(String),
    Emoji(char),
    Simbolo(char),
}

/// A token as a mathematical value.
pub enum TokenView {
    Palavra(Seq<char>),
    Emoji(char),
    Simbolo(char),
}

impl View for TipoToken {
    type V = TokenView;

    open spec fn view(&self) -> TokenView {
        match self {
            TipoToken::Palavra(w) => TokenView::Palavra(w@),
            TipoToken::Emoji(c) => TokenView::Emoji(*c),
            TipoToken::Simbolo(c) => TokenView::Simbolo(*c),
        }
    }
}

pub open spec fn tokens_view(ts: Seq<TipoToken>) -> Seq<TokenView> {
    ts.map_values(|t: TipoToken| t@)
}

/// The code point ranges that are drawn with the emoji font.
pub open spec fn in_emoji_ranges(c: char) -> bool {
    let v: int = c as int;
    ||| 0x1F600 <= v <= 0x1F64F
    ||| 0x1F300 <= v <= 0x1F5FF
    ||| 0x1F680 <= v <= 0x1F6FF
    ||| 0x1F700 <= v <= 0x1F77F
    ||| 0x1F780 <= v <= 0x1F7FF
    ||| 0x1F800 <= v <= 0x1F8FF
    ||| 0x1F900 <= v <= 0x1F9FF
    ||| 0x1FA00 <= v <= 0x1FA6F
    ||| 0x1FA70 <= v <= 0x1FAFF
    ||| 0x2702 <= v <= 0x27B0
    ||| 0x24C2 <= v <= 0x1F251
}

/// Whether the character lies in one of the emoji ranges.
pub fn is_emoji(c: &char) -> (r: bool)
    ensures
        r == in_emoji_ranges(*c),
        r == ((0x1F600 <= *c as int && *c as int <= 0x1F64F) || (0x1F300 <= *c as int && *c as int <= 0x1F5FF)
            || (0x1F680 <= *c as int && *c as int <= 0x1F6FF) || (0x1F700 <= *c as int && *c as int <= 0x1F77F)
            || (0x1F780 <= *c as int && *c as int <= 0x1F7FF) || (0x1F800 <= *c as int && *c as int <= 0x1F8FF)
            || (0x1F900 <= *c as int && *c as int <= 0x1F9FF) || (0x1FA00 <= *c as int && *c as int <= 0x1FA6F)
            || (0x1FA70 <= *c as int && *c as int <= 0x1FAFF) || (0x2702 <= *c as int && *c as int <= 0x27B0)
            || (0x24C2 <= *c as int && *c as int <= 0x1F251)),
{
    let v: u32 = *c as u32;
    (0x1F600 <= v && v <= 0x1F64F) || (0x1F300 <= v && v <= 0x1F5FF) || (0x1F680 <= v && v
        <= 0x1F6FF) || (0x1F700 <= v && v <= 0x1F77F) || (0x1F780 <= v && v <= 0x1F7FF) || (
    0x1F800 <= v && v <= 0x1F8FF) || (0x1F900 <= v && v <= 0x1F9FF) || (0x1FA00 <= v && v
        <= 0x1FA6F) || (0x1FA70 <= v && v <= 0x1FAFF) || (0x2702 <= v && v <= 0x27B0) || (
    0x24C2 <= v && v <= 0x1F251)
}

/// The token of a single character that is not alphanumeric.
pub open spec fn symbol_token(c: char) -> TokenView {
    if in_emoji_ranges(c) {
        TokenView::Emoji(c)
    } else {
        TokenView::Simbolo(c)
    }
}

/// A character that is not alphanumeric becomes an emoji token exactly when
/// its code point lies in one of the emoji ranges (emoticons 1F600-1F64F,
/// pictographs 1F300-1F5FF, transport 1F680-1F6FF, alchemical 1F700-1F77F,
/// geometric 1F780-1F7FF, arrows 1F800-1F8FF, supplemental 1F900-1F9FF,
/// chess 1FA00-1FA6F, extended 1FA70-1FAFF, dingbats 2702-27B0, enclosed
/// 24C2-1F251), and a symbol token otherwise.
pub proof fn lemma_symbol_token_ranges(c: char)
    ensures
        symbol_token(c) == (if (0x1F600 <= c as int && c as int <= 0x1F64F) || (0x1F300 <= c as int && c as int <= 0x1F5FF)
            || (0x1F680 <= c as int && c as int <= 0x1F6FF) || (0x1F700 <= c as int && c as int <= 0x1F77F)
            || (0x1F780 <= c as int && c as int <= 0x1F7FF) || (0x1F800 <= c as int && c as int <= 0x1F8FF)
            || (0x1F900 <= c as int && c as int <= 0x1F9FF) || (0x1FA00 <= c as int && c as int <= 0x1FA6F)
            || (0x1FA70 <= c as int && c as int <= 0x1FAFF) || (0x2702 <= c as int && c as int <= 0x27B0)
            || (0x24C2 <= c as int && c as int <= 0x1F251) {
            TokenView::Emoji(c)
        } else {
            TokenView::Simbolo(c)
        }),
{
}

/// The tokens so far, with the pending word appended if it is not empty.
pub open spec fn flush_word(toks: Seq<TokenView>, word: Seq<char>) -> Seq<TokenView> {
    if word.len() > 0 {
        toks.push(TokenView::Palavra(word))
    } else {
        toks
    }
}

/// Reading `s` from the left, with `alnum[i]` telling whether `s[i]` is
/// alphanumeric: the tokens emitted so far and the word still being read.
pub open spec fn scan(s: Seq<char>, alnum: Seq<bool>) -> (Seq<TokenView>, Seq<char>)
    decreases s.len(),
{
    if s.len() == 0 {
        (Seq::empty(), Seq::empty())
    } else {
        let (toks, word) = scan(s.drop_last(), alnum);
        let c = s.last();
        if alnum[s.len() - 1] {
            (toks, word.push(c))
        } else {
            (flush_word(toks, word).push(symbol_token(c)), Seq::empty())
        }
    }
}

/// The tokens of `s`: each maximal run of alphanumeric characters is a word,
/// every other character a token of its own.
pub open spec fn tokenize(s: Seq<char>, alnum: Seq<bool>) -> Seq<TokenView> {
    flush_word(scan(s, alnum).0, scan(s, alnum).1)
}

/// Whether each character of `s` is alphanumeric, as `char::is_alphanumeric` says.
pub open spec fn alnum_flags(s: Seq<char>) -> Seq<bool> {
    Seq::new(s.len(), |i: int| char_is_alphanumeric(s[i]))
}

/// The characters that a token stands for.
pub open spec fn token_text(t: TokenView) -> Seq<char> {
    match t {
        TokenView::Palavra(w) => w,
        TokenView::Emoji(c) => seq![c],
        TokenView::Simbolo(c) => seq![c],
    }
}

/// The characters that a sequence of tokens stands for, in order.
pub open spec fn tokens_text(ts: Seq<TokenView>) -> Seq<char>
    decreases ts.len(),
{
    if ts.len() == 0 {
        Seq::empty()
    } else {
        tokens_text(ts.drop_last()) + token_text(ts.last())
    }
}

/// A token as the tokenizer makes it from a text whose characters are
/// classified by `char::is_alphanumeric`: a word is not empty and all of its
/// characters are alphanumeric; an emoji or a symbol is one character that is
/// not alphanumeric, an emoji exactly when it lies in the emoji ranges.
pub open spec fn token_ok(t: TokenView) -> bool {
    match t {
        TokenView::Palavra(w) => w.len() > 0 && forall|j: int|
            0 <= j < w.len() ==> char_is_alphanumeric(#[trigger] w[j]),
        TokenView::Emoji(c) => !char_is_alphanumeric(c) && in_emoji_ranges(c),
        TokenView::Simbolo(c) => !char_is_alphanumeric(c) && !in_emoji_ranges(c),
    }
}

/// Every token is well made and no two words follow each other.
pub open spec fn tokens_ok(ts: Seq<TokenView>) -> bool {
    &&& forall|i: int| 0 <= i < ts.len() ==> token_ok(#[trigger] ts[i])
    &&& forall|i: int|
        0 <= i < ts.len() - 1 ==> !((#[trigger] ts[i] is Palavra) && ts[i + 1] is Palavra)
}

proof fn lemma_tokens_text_push(ts: Seq<TokenView>, t: TokenView)
    ensures
        tokens_text(ts.push(t)) == tokens_text(ts) + token_text(t),
{
    assert(ts.push(t).drop_last() =~= ts);
}

proof fn lemma_scan_text(s: Seq<char>, alnum: Seq<bool>)
    ensures
        tokens_text(scan(s, alnum).0) + scan(s, alnum).1 == s,
    decreases s.len(),
{
    if s.len() > 0 {
        let (toks, word) = scan(s.drop_last(), alnum);
        lemma_scan_text(s.drop_last(), alnum);
        let c = s.last();
        if alnum[s.len() - 1] {
            assert(tokens_text(toks) + word.push(c) =~= (tokens_text(toks) + word).push(c));
        } else {
            if word.len() > 0 {
                lemma_tokens_text_push(toks, TokenView::Palavra(word));
            }
            assert(tokens_text(flush_word(toks, word)) == tokens_text(toks) + word);
            lemma_tokens_text_push(flush_word(toks, word), symbol_token(c));
            assert(token_text(symbol_token(c)) =~= seq![c]);
        }
        assert(s.drop_last().push(c) =~= s);
    }
}

/// The tokens spell the text they were made from: nothing is lost, added or
/// reordered.
pub proof fn lemma_tokens_spell_text(s: Seq<char>, alnum: Seq<bool>)
    ensures
        tokens_text(tokenize(s, alnum)) == s,
{
    lemma_scan_text(s, alnum);
    let (toks, word) = scan(s, alnum);
    if word.len() > 0 {
        lemma_tokens_text_push(toks, TokenView::Palavra(word));
    }
    assert(tokens_text(toks) + Seq::<char>::empty() =~= tokens_text(toks));
}

proof fn lemma_scan_ok(s: Seq<char>, alnum: Seq<bool>)
    requires
        s.len() <= alnum.len(),
        forall|i: int| 0 <= i < s.len() ==> alnum[i] == char_is_alphanumeric(#[trigger] s[i]),
    ensures
        tokens_ok(scan(s, alnum).0),
        scan(s, alnum).0.len() > 0 ==> !(scan(s, alnum).0.last() is Palavra),
        forall|j: int|
            0 <= j < scan(s, alnum).1.len() ==> char_is_alphanumeric(#[trigger] scan(s, alnum).1[j]),
    decreases s.len(),
{
    if s.len() > 0 {
        let (toks, word) = scan(s.drop_last(), alnum);
        lemma_scan_ok(s.drop_last(), alnum);
        let c = s.last();
        assert(alnum[s.len() - 1] == char_is_alphanumeric(s[s.len() - 1]));
        if alnum[s.len() - 1] {
            let w2 = word.push(c);
            assert forall|j: int| 0 <= j < w2.len() implies char_is_alphanumeric(#[trigger] w2[j]) by {
                if j < word.len() {
                    assert(w2[j] == word[j]);
                }
            }
        } else {
            let f = flush_word(toks, word);
            assert(tokens_ok(f) && (f.len() > 0 && word.len() > 0 ==> f.last() is Palavra)) by {
                if word.len() > 0 {
                    assert(token_ok(TokenView::Palavra(word)));
                    assert forall|i: int| 0 <= i < f.len() implies token_ok(#[trigger] f[i]) by {
                        if i < toks.len() {
                            assert(f[i] == toks[i]);
                        }
                    }
                    assert forall|i: int| 0 <= i < f.len() - 1 implies !((#[trigger] f[i] is Palavra) && f[i + 1] is Palavra) by {
                        if i < toks.len() - 1 {
                            assert(f[i] == toks[i]);
                            assert(f[i + 1] == toks[i + 1]);
                        } else {
                            assert(f[i] == toks.last());
                        }
                    }
                }
            }
            let g = f.push(symbol_token(c));
            assert(token_ok(symbol_token(c)));
            assert forall|i: int| 0 <= i < g.len() implies token_ok(#[trigger] g[i]) by {
                if i < f.len() {
                    assert(g[i] == f[i]);
                }
            }
            assert forall|i: int| 0 <= i < g.len() - 1 implies !((#[trigger] g[i] is Palavra) && g[i + 1] is Palavra) by {
                if i < f.len() - 1 {
                    assert(g[i] == f[i]);
                    assert(g[i + 1] == f[i + 1]);
                } else {
                    assert(g[i + 1] == symbol_token(c));
                }
            }
        }
    }
}

/// For a text whose characters are classified by `char::is_alphanumeric`,
/// every token is well made (words are non-empty runs of alphanumeric
/// characters, emojis and symbols single non-alphanumeric characters) and no
/// two words follow each other, so each word is a maximal run.
pub proof fn lemma_tokens_well_made(s: Seq<char>)
    ensures
        tokens_ok(tokenize(s, alnum_flags(s))),
{
    let alnum = alnum_flags(s);
    lemma_scan_ok(s, alnum);
    let (toks, word) = scan(s, alnum);
    if word.len() > 0 {
        let f = toks.push(TokenView::Palavra(word));
        assert(token_ok(TokenView::Palavra(word)));
        assert forall|i: int| 0 <= i < f.len() implies token_ok(#[trigger] f[i]) by {
            if i < toks.len() {
                assert(f[i] == toks[i]);
            }
        }
        assert forall|i: int| 0 <= i < f.len() - 1 implies !((#[trigger] f[i] is Palavra) && f[i + 1] is Palavra) by {
            if i < toks.len() - 1 {
                assert(f[i] == toks[i]);
                assert(f[i + 1] == toks[i + 1]);
            } else {
                assert(f[i] == toks.last());
            }
        }
    }
}

/// Splits `linha` into tokens, where `alnum[i]` tells whether its `i`-th
/// character is alphanumeric.
pub fn separate_text_with(linha: &str, alnum: &Vec<bool>) -> (r: Vec<TipoToken>)
    requires
        alnum@.len() == linha@.len(),
    ensures
        tokens_view(r@) == tokenize(linha@, alnum@),
{
    let n: usize = linha.unicode_len();
    let mut lista: Vec<TipoToken> = Vec::new();
    let mut token = String::new();
    let mut i: usize = 0;
    while i < n
        invariant
            n == linha@.len(),
            alnum@.len() == n,
            i <= n,
            tokens_view(lista@) == scan(linha@.take(i as int), alnum@).0,
            token@ == scan(linha@.take(i as int), alnum@).1,
        decreases n - i,
    {
        let c = linha.get_char(i);
        let ghost pre = linha@.take(i as int);
        let ghost next = linha@.take(i + 1);
        assert(next.drop_last() =~= pre);
        assert(next.last() == c);
        if alnum[i] {
            push_char(&mut token, c);
        } else {
            if token.unicode_len() > 0 {
                lista.push(TipoToken::Palavra(token));
                token = String::new();
            }
            assert(tokens_view(lista@) =~= flush_word(scan(pre, alnum@).0, scan(pre, alnum@).1));
            if is_emoji(&c) {
                lista.push(TipoToken::Emoji(c));
            } else {
                lista.push(TipoToken::Simbolo(c));
            }
            assert(tokens_view(lista@) =~= scan(next, alnum@).0);
            assert(token@ =~= scan(next, alnum@).1);
        }
        i = i + 1;
    }
    assert(linha@.take(n as int) =~= linha@);
    if token.unicode_len() > 0 {
        lista.push(TipoToken::Palavra(token));
    }
    assert(tokens_view(lista@) =~= tokenize(linha@, alnum@));
    lista
}

/// Splits `linha` into words (maximal runs of alphanumeric characters),
/// emojis and other single characters, in order.
pub fn separate_text(linha: &String) -> (r: Vec<TipoToken>)
    ensures
        tokens_view(r@) == tokenize(linha@, alnum_flags(linha@)),
{
    let s = linha.as_str();
    let n: usize = s.unicode_len();
    let mut alnum: Vec<bool> = Vec::new();
    let mut i: usize = 0;
    while i < n
        invariant
            n == s@.len(),
            s@ == linha@,
            i <= n,
            alnum@.len() == i,
            forall|j: int| 0 <= j < i ==> alnum@[j] == char_is_alphanumeric(s@[j]),
        decreases n - i,
    {
        let c = s.get_char(i);
        alnum.push(is_alphanumeric(c));
        i = i + 1;
    }
    assert(alnum@ =~= alnum_flags(linha@));
    separate_text_with(s, &alnum)
}

/// Whether an `@` came before and no word since, and the mentions recorded.
pub type MentionState = (bool, Seq<Seq<char>>);

/// How a token changes the mention state: a word is recorded when an `@`
/// came before it with no word between, and ends the mention; an `@` starts
/// one; other tokens leave the state as it is.
pub open spec fn mention_step(st: MentionState, t: TokenView) -> MentionState {
    match t {
        TokenView::Palavra(w) => (false, if st.0 { st.1.push(w) } else { st.1 }),
        TokenView::Emoji(_) => st,
        TokenView::Simbolo(c) => (st.0 || c == '@', st.1),
    }
}

/// The mention state after the tokens, from no mention and none recorded.
pub open spec fn mentions_after(ts: Seq<TokenView>) -> MentionState
    decreases ts.len(),
{
    if ts.len() == 0 {
        (false, Seq::empty())
    } else {
        mention_step(mentions_after(ts.drop_last()), ts.last())
    }
}

/// Token `j` is an `@` and no word comes after it before position `i`.
pub open spec fn open_mention(ts: Seq<TokenView>, j: int, i: int) -> bool {
    &&& 0 <= j < i
    &&& ts[j] == TokenView::Simbolo('@')
    &&& forall|k: int| j < k < i ==> !(#[trigger] ts[k] is Palavra)
}

/// The word at position `i` follows an `@`, with no other word between.
pub open spec fn is_mention(ts: Seq<TokenView>, i: int) -> bool {
    ts[i] is Palavra && exists|j: int| #[trigger] open_mention(ts, j, i)
}

/// The words that follow an `@` with no other word between, in order.
pub open spec fn mention_words(ts: Seq<TokenView>) -> Seq<Seq<char>>
    decreases ts.len(),
{
    if ts.len() == 0 {
        Seq::empty()
    } else if is_mention(ts, ts.len() - 1) {
        mention_words(ts.drop_last()).push(ts.last()->Palavra_0)
    } else {
        mention_words(ts.drop_last())
    }
}

/// The mentions recorded over a sequence of tokens are exactly the words
/// that follow an `@` with no other word between, in order; a mention is
/// pending at the end exactly when an `@` came after the last word.
pub proof fn lemma_mentions_are_words_after_at(ts: Seq<TokenView>)
    ensures
        mentions_after(ts).1 == mention_words(ts),
        mentions_after(ts).0 == exists|j: int| #[trigger] open_mention(ts, j, ts.len() as int),
    decreases ts.len(),
{
    if ts.len() > 0 {
        let init = ts.drop_last();
        let n: int = ts.len() - 1;
        lemma_mentions_are_words_after_at(init);
        let pending_before = exists|j: int| #[trigger] open_mention(init, j, n);
        assert(pending_before == exists|j: int| #[trigger] open_mention(ts, j, n)) by {
            if pending_before {
                let j = choose|j: int| #[trigger] open_mention(init, j, n);
                assert forall|k: int| j < k < n implies !(#[trigger] ts[k] is Palavra) by {
                    assert(ts[k] == init[k]);
                }
                assert(open_mention(ts, j, n));
            }
            if exists|j: int| #[trigger] open_mention(ts, j, n) {
                let j = choose|j: int| #[trigger] open_mention(ts, j, n);
                assert forall|k: int| j < k < n implies !(#[trigger] init[k] is Palavra) by {
                    assert(ts[k] == init[k]);
                }
                assert(open_mention(init, j, n));
            }
        }
        let t = ts.last();
        match t {
            TokenView::Palavra(_) => {
                assert(!exists|j: int| #[trigger] open_mention(ts, j, ts.len() as int)) by {
                    if exists|j: int| #[trigger] open_mention(ts, j, ts.len() as int) {
                        let j = choose|j: int| #[trigger] open_mention(ts, j, ts.len() as int);
                        if j < n {
                            assert(!(ts[n] is Palavra));
                        }
                    }
                }
            },
            TokenView::Emoji(_) => {
                assert((exists|j: int| #[trigger] open_mention(ts, j, ts.len() as int)) == pending_before) by {
                    if exists|j: int| #[trigger] open_mention(ts, j, ts.len() as int) {
                        let j = choose|j: int| #[trigger] open_mention(ts, j, ts.len() as int);
                        assert(open_mention(ts, j, n));
                    }
                    if pending_before {
                        let j = choose|j: int| #[trigger] open_mention(ts, j, n);
                        assert(open_mention(ts, j, ts.len() as int));
                    }
                }
            },
            TokenView::Simbolo(c) => {
                assert((exists|j: int| #[trigger] open_mention(ts, j, ts.len() as int)) == (pending_before || c == '@')) by {
                    if exists|j: int| #[trigger] open_mention(ts, j, ts.len() as int) {
                        let j = choose|j: int| #[trigger] open_mention(ts, j, ts.len() as int);
                        if j < n {
                            assert(open_mention(ts, j, n));
                        }
                    }
                    if pending_before {
                        let j = choose|j: int| #[trigger] open_mention(ts, j, n);
                        assert(open_mention(ts, j, ts.len() as int));
                    }
                    if c == '@' {
                        assert(open_mention(ts, n, ts.len() as int));
                    }
                }
            },
        }
    }
}

/// Which of the two fonts draws a token.
#[derive(PartialEq, Eq, Structural)]
pub enum FontKind {
    Texto,
    Emoji,
}

/// Where the text goes on the template, and the state carried from one
/// token to the next: the position of the next token, the text of the line
/// being written, whether the last symbol was an `@`, and the words that
/// followed an `@` (the mentions).
pub struct TextLayout {
    pub lower_limit_x: i32,
    pub upper_limit_x: i32,
    pub current_x: i32,
    pub current_y: i32,
    pub linha: String,
    pub mencao: bool,
    pub mencoes: Vec<String>,
}

/// Whether a token that leaves the line `line_width` wide and is itself
/// `text_width` wide goes past the right margin, and so starts a new line.
pub open spec fn wraps(lower_limit_x: int, upper_limit_x: int, line_width: int, text_width: int) -> bool {
    line_width + lower_limit_x + text_width > upper_limit_x
}

/// A token starts a new line exactly when the line it ends, measured from
/// the left margin, and the token itself reach past the right margin.
pub proof fn lemma_wraps_past_right_margin(lower_limit_x: int, upper_limit_x: int, line_width: int, text_width: int)
    ensures
        wraps(lower_limit_x, upper_limit_x, line_width, text_width) == (line_width + lower_limit_x + text_width
            > upper_limit_x),
{
}

/// The mention state of a layout, with the mentions as character sequences.
pub open spec fn mention_state(l: TextLayout) -> MentionState {
    (l.mencao, l.mencoes@.map_values(|m: String| m@))
}

impl TextLayout {
    /// The layout for a template `width` by `height` pixels: the text runs
    /// between 25% and 75% of the width and starts at 33% of the height.
    pub fn new(width: u32, height: u32) -> (l: TextLayout)
        requires
            width * 75 <= u32::MAX,
            height * 33 <= u32::MAX,
        ensures
            l.lower_limit_x == width * 25 / 100,
            l.upper_limit_x == width * 75 / 100,
            l.current_x == width * 25 / 100,
            l.current_y == height * 33 / 100,
            l.linha@ == Seq::<char>::empty(),
            !l.mencao,
            l.mencoes@ == Seq::<String>::empty(),
    {
        let lower: i32 = (width * 25 / 100) as i32;
        let upper: i32 = (width * 75 / 100) as i32;
        let top: i32 = (height * 33 / 100) as i32;
        TextLayout {
            lower_limit_x: lower,
            upper_limit_x: upper,
            current_x: lower,
            current_y: top,
            linha: String::new(),
            mencao: false,
            mencoes: Vec::new(),
        }
    }

    /// Whether a token `text_width` wide, after which the line is
    /// `line_width` wide, goes past the right margin and starts a new line.
    pub fn breaks_line(&self, line_width: i32, text_width: i32) -> (r: bool)
        ensures
            r == wraps(self.lower_limit_x as int, self.upper_limit_x as int, line_width as int, text_width as int),
            r == (line_width + self.lower_limit_x + text_width > self.upper_limit_x),
    {
        (line_width as i64 + self.lower_limit_x as i64 + text_width as i64) > self.upper_limit_x as i64
    }

    /// Takes a token into the current line. A word is recorded as a mention
    /// when an `@` came before it, which ends the mention; an `@` starts one.
    /// Returns the text to draw and the font to draw it with.
    pub fn register_token(&mut self, token: TipoToken) -> (r: (String, FontKind))
        ensures
            final(self).lower_limit_x == old(self).lower_limit_x,
            final(self).upper_limit_x == old(self).upper_limit_x,
            final(self).current_x == old(self).current_x,
            final(self).current_y == old(self).current_y,
            r.0@ == token_text(token@),
            mention_state(*final(self)) == mention_step(mention_state(*old(self)), token@),
            final(self).linha@ == old(self).linha@ + token_text(token@),
            r.1 == (if token is Emoji { FontKind::Emoji } else { FontKind::Texto }),
            (match token {
                TipoToken::Palavra(w) => {
                    &&& final(self).mencoes@ == (if old(self).mencao {
                        old(self).mencoes@.push(w)
                    } else {
                        old(self).mencoes@
                    })
                    &&& !final(self).mencao
                },
                TipoToken::Emoji(_) => {
                    &&& final(self).mencoes@ == old(self).mencoes@
                    &&& final(self).mencao == old(self).mencao
                },
                TipoToken::Simbolo(c) => {
                    &&& final(self).mencoes@ == old(self).mencoes@
                    &&& final(self).mencao == (old(self).mencao || c == '@')
                },
            }),
    {
        match token {
            TipoToken::Palavra(palavra) => {
                if self.mencao {
                    self.mencoes.push(palavra.clone());
                    self.mencao = false;
                }
                self.linha.append(palavra.as_str());
                (palavra, FontKind::Texto)
            },
            TipoToken::Emoji(emoji) => {
                push_char(&mut self.linha, emoji);
                let mut texto = String::new();
                push_char(&mut texto, emoji);
                assert(texto@ =~= seq![emoji]);
                (texto, FontKind::Emoji)
            },
            TipoToken::Simbolo(simbolo) => {
                if simbolo == '@' {
                    self.mencao = true;
                }
                push_char(&mut self.linha, simbolo);
                let mut texto = String::new();
                push_char(&mut texto, simbolo);
                assert(texto@ =~= seq![simbolo]);
                (texto, FontKind::Texto)
            },
        }
    }

    /// Places the token `texto` just taken into the line, given how wide the
    /// line now is (`line_width`), how wide the token is (`text_width`) and
    /// the height of a line of the token's font. Where the line would go past
    /// the right margin, the token starts a new line at the left margin, one
    /// line lower, and the next token goes just after it; else it goes at the
    /// current position and the next token goes after the line. Returns where
    /// to draw the token.
    pub fn place_token(&mut self, texto: &String, line_width: i32, text_width: i32, line_height: i32) -> (r: (i32, i32))
        requires
            i32::MIN <= line_width + old(self).lower_limit_x <= i32::MAX,
            i32::MIN <= line_width + old(self).lower_limit_x + text_width <= i32::MAX,
            wraps(old(self).lower_limit_x as int, old(self).upper_limit_x as int, line_width as int, text_width as int)
                ==> i32::MIN <= old(self).current_y + line_height <= i32::MAX,
            wraps(old(self).lower_limit_x as int, old(self).upper_limit_x as int, line_width as int, text_width as int)
                ==> i32::MIN <= old(self).lower_limit_x + text_width <= i32::MAX,
        ensures
            final(self).lower_limit_x == old(self).lower_limit_x,
            final(self).upper_limit_x == old(self).upper_limit_x,
            final(self).mencao == old(self).mencao,
            final(self).mencoes@ == old(self).mencoes@,
            if wraps(old(self).lower_limit_x as int, old(self).upper_limit_x as int, line_width as int, text_width as int) {
                &&& r == (old(self).lower_limit_x, (old(self).current_y + line_height) as i32)
                &&& final(self).current_x == old(self).lower_limit_x + text_width
                &&& final(self).current_y == old(self).current_y + line_height
                &&& final(self).linha@ == texto@
            } else {
                &&& r == (old(self).current_x, old(self).current_y)
                &&& final(self).current_x == line_width + old(self).lower_limit_x
                &&& final(self).current_y == old(self).current_y
                &&& final(self).linha@ == old(self).linha@
            },
            line_width + old(self).lower_limit_x + text_width > old(self).upper_limit_x ==> {
                &&& r == (old(self).lower_limit_x, (old(self).current_y + line_height) as i32)
                &&& final(self).current_x == old(self).lower_limit_x + text_width
                &&& final(self).current_y == old(self).current_y + line_height
                &&& final(self).linha@ == texto@
            },
            line_width + old(self).lower_limit_x + text_width <= old(self).upper_limit_x ==> {
                &&& r == (old(self).current_x, old(self).current_y)
                &&& final(self).current_x == line_width + old(self).lower_limit_x
                &&& final(self).current_y == old(self).current_y
                &&& final(self).linha@ == old(self).linha@
            },
    {
        let try_x: i32 = line_width + self.lower_limit_x;
        if try_x + text_width > self.upper_limit_x {
            self.current_y = self.current_y + line_height;
            self.linha = texto.clone();
            let at = (self.lower_limit_x, self.current_y);
            self.current_x = self.lower_limit_x + text_width;
            at
        } else {
            let at = (self.current_x, self.current_y);
            self.current_x = try_x;
            at
        }
    }
}

/// The file that the image with the text of post `spt_num` is saved to.
pub fn spotted_output_path(spt_num: i32) -> (r: String)
    ensures
        r@ == "assets/imgs/outputs/spotted-"@ + decimal(spt_num as int) + ".png"@,
{
    let mut path = String::from_str("assets/imgs/outputs/spotted-");
    push_decimal(&mut path, spt_num);
    path.append(".png");
    path
}

/// The file that the image with the QR code of post `spt_num` is saved to.
pub fn qr_code_output_path(spt_num: i32) -> (r: String)
    ensures
        r@ == "assets/imgs/outputs/qr_code_output_"@ + decimal(spt_num as int) + ".jpg"@,
{
    let mut path = String::from_str("assets/imgs/outputs/qr_code_output_");
    push_decimal(&mut path, spt_num);
    path.append(".jpg");
    path
}

} // verus!
