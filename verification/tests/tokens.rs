use spotted::imagens::{
    is_emoji, qr_code_output_path, separate_text, separate_text_with, spotted_output_path, FontKind,
    TextLayout, TipoToken,
};

fn describe(tokens: &[TipoToken]) -> Vec<String> {
    tokens
        .iter()
        .map(|t| match t {
            TipoToken::Palavra(w) => format!("P:{}", w),
            TipoToken::Emoji(c) => format!("E:{}", c),
            TipoToken::Simbolo(c) => format!("S:{}", c),
        })
        .collect()
}

fn spell(tokens: &[TipoToken]) -> String {
    let mut s = String::new();
    for t in tokens {
        match t {
            TipoToken::Palavra(w) => s.push_str(w),
            TipoToken::Emoji(c) | TipoToken::Simbolo(c) => s.push(*c),
        }
    }
    s
}

#[test]
fn is_emoji_follows_the_ranges() {
    assert!(is_emoji(&'\u{1F600}'));
    assert!(is_emoji(&'\u{1F64F}'));
    assert!(is_emoji(&'\u{2702}'));
    assert!(is_emoji(&'\u{24C2}'));
    assert!(is_emoji(&'\u{1FAFF}'));
    assert!(!is_emoji(&'a'));
    assert!(!is_emoji(&'@'));
    assert!(!is_emoji(&' '));
    assert!(is_emoji(&'\u{2701}'));
    assert!(!is_emoji(&'\u{24C1}'));
    assert!(!is_emoji(&'\u{1FB00}'));
}

#[test]
fn separate_text_splits_words_emojis_and_symbols() {
    let text = "Oi @joao, tudo bem? \u{1F600}!".to_string();
    let tokens = separate_text(&text);
    assert_eq!(
        describe(&tokens),
        vec!["P:Oi", "S: ", "S:@", "P:joao", "S:,", "S: ", "P:tudo", "S: ", "P:bem", "S:?", "S: ", "E:\u{1F600}", "S:!"]
    );
    assert_eq!(spell(&tokens), text);
}

#[test]
fn separate_text_keeps_accented_letters_in_words() {
    let text = "ação 2024".to_string();
    let tokens = separate_text(&text);
    assert_eq!(describe(&tokens), vec!["P:ação", "S: ", "P:2024"]);
}

#[test]
fn separate_text_of_empty_text_is_empty() {
    assert!(separate_text(&String::new()).is_empty());
}

#[test]
fn separate_text_with_given_classes() {
    let tokens = separate_text_with("ab-c", &vec![true, true, false, true]);
    assert_eq!(describe(&tokens), vec!["P:ab", "S:-", "P:c"]);
    let tokens = separate_text_with("ab", &vec![false, false]);
    assert_eq!(describe(&tokens), vec!["S:a", "S:b"]);
}

#[test]
fn layout_starts_at_the_margins() {
    let l = TextLayout::new(1000, 600);
    assert_eq!(l.lower_limit_x, 250);
    assert_eq!(l.upper_limit_x, 750);
    assert_eq!(l.current_x, 250);
    assert_eq!(l.current_y, 198);
    assert_eq!(l.linha, "");
    assert!(!l.mencao);
    assert!(l.mencoes.is_empty());
}

#[test]
fn a_word_after_at_is_a_mention() {
    let mut l = TextLayout::new(1000, 600);
    let (t, f) = l.register_token(TipoToken::Simbolo('@'));
    assert_eq!(t, "@");
    assert!(f == FontKind::Texto);
    assert!(l.mencao);
    let (t, f) = l.register_token(TipoToken::Emoji('\u{1F600}'));
    assert_eq!(t, "\u{1F600}");
    assert!(f == FontKind::Emoji);
    assert!(l.mencao);
    let (t, _) = l.register_token(TipoToken::Palavra("joao".to_string()));
    assert_eq!(t, "joao");
    assert!(!l.mencao);
    assert_eq!(l.mencoes, vec!["joao".to_string()]);
    l.register_token(TipoToken::Palavra("maria".to_string()));
    assert_eq!(l.mencoes, vec!["joao".to_string()]);
    assert_eq!(l.linha, "@\u{1F600}joaomaria");
}

#[test]
fn a_token_that_fits_goes_on_the_line() {
    let mut l = TextLayout::new(1000, 600);
    let (t, _) = l.register_token(TipoToken::Palavra("oi".to_string()));
    let at = l.place_token(&t, 100, 100, 40);
    assert_eq!(at, (250, 198));
    assert_eq!(l.current_x, 350);
    assert_eq!(l.current_y, 198);
    assert_eq!(l.linha, "oi");
}

#[test]
fn a_token_past_the_margin_starts_a_new_line() {
    let mut l = TextLayout::new(1000, 600);
    l.current_x = 700;
    l.linha = "long".to_string();
    let (t, _) = l.register_token(TipoToken::Palavra("word".to_string()));
    assert_eq!(l.linha, "longword");
    let at = l.place_token(&t, 450, 60, 40);
    assert_eq!(at, (250, 238));
    assert_eq!(l.current_x, 310);
    assert_eq!(l.current_y, 238);
    assert_eq!(l.linha, "word");
}

#[test]
fn output_paths_hold_the_number() {
    assert_eq!(spotted_output_path(12), "assets/imgs/outputs/spotted-12.png");
    assert_eq!(qr_code_output_path(-3), "assets/imgs/outputs/qr_code_output_-3.jpg");
}

#[test]
fn mentions_over_a_whole_text() {
    let text = "@ana oi @ bia, @\u{1F600}carla e @".to_string();
    let mut l = TextLayout::new(1000, 600);
    for token in separate_text(&text) {
        l.register_token(token);
    }
    assert_eq!(l.mencoes, vec!["ana".to_string(), "bia".to_string(), "carla".to_string()]);
    assert!(l.mencao);
    assert_eq!(l.linha, text);
}
