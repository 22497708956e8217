use spotted::sheet::{check_postado_banido, empty_to_null, select_not_posted, JsonCell};

fn text(s: &str) -> JsonCell {
    JsonCell::Text(s.to_string())
}

fn show(c: &JsonCell) -> String {
    match c {
        JsonCell::Null => "null".to_string(),
        JsonCell::Text(s) => format!("t:{}", s),
        JsonCell::Other(s) => format!("o:{}", s),
    }
}

#[test]
fn a_row_is_pending_when_not_posted_nor_banned() {
    assert!(check_postado_banido(&vec![text("d"), text("m")]));
    assert!(check_postado_banido(&vec![text("d"), text("m"), text("i"), text("l"), JsonCell::Null, JsonCell::Null]));
    assert!(!check_postado_banido(&vec![text("d"), text("m"), text("i"), text("l"), text("sim")]));
    assert!(!check_postado_banido(&vec![text("d"), text("m"), text("i"), text("l"), JsonCell::Null, text("x")]));
    assert!(!check_postado_banido(&vec![text("d"), text("m"), text("i"), text("l"), text("")]));
}

#[test]
fn empty_text_becomes_null() {
    assert_eq!(show(&empty_to_null(Some(&text("")))), "null");
    assert_eq!(show(&empty_to_null(Some(&text("a")))), "t:a");
    assert_eq!(show(&empty_to_null(Some(&JsonCell::Other("1".to_string())))), "o:1");
    assert_eq!(show(&empty_to_null(None)), "null");
}

#[test]
fn pending_rows_become_posts_numbered_by_row() {
    let rows = vec![
        vec![text("Data/Hora"), text("Mensagem"), text("Identificacao"), text("Link"), text("Postado"), text("Banido")],
        vec![text("01/01"), text("oi"), text("anon"), text("http://a")],
        vec![text("02/01"), text("tchau"), text("x"), text("http://b"), text("sim")],
        vec![text("03/01"), text("ola")],
        vec![],
    ];
    let posts = select_not_posted(&rows);
    assert_eq!(posts.len(), 3);
    assert_eq!(posts[0].index, "3");
    assert_eq!(show(&posts[0].data_hora), "t:01/01");
    assert_eq!(show(&posts[0].mensagem), "t:oi");
    assert_eq!(show(&posts[0].identificacao), "t:anon");
    assert_eq!(show(&posts[0].link), "t:http://a");
    assert_eq!(show(&posts[0].postado), "null");
    assert_eq!(show(&posts[0].banido), "null");
    assert_eq!(posts[1].index, "5");
    assert_eq!(show(&posts[1].identificacao), "null");
    assert_eq!(posts[2].index, "6");
    assert_eq!(show(&posts[2].data_hora), "null");
}

#[test]
fn no_rows_no_posts() {
    assert!(select_not_posted(&Vec::new()).is_empty());
}
