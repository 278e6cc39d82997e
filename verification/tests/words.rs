use hangman::words::{draw_word, read_input, DataError};

#[test]
fn read_input_splits_lines() {
    let words = read_input("cat\ndog\nbird");
    assert_eq!(
        words,
        vec!["cat".to_string(), "dog".to_string(), "bird".to_string()]
    );
}

#[test]
fn read_input_ignores_final_newline() {
    assert_eq!(
        read_input("cat\ndog\n"),
        vec!["cat".to_string(), "dog".to_string()]
    );
}

#[test]
fn read_input_empty_source_has_no_lines() {
    assert_eq!(read_input(""), Vec::<String>::new());
}

#[test]
fn read_input_keeps_inner_empty_lines() {
    assert_eq!(read_input("\n"), vec![String::new()]);
    assert_eq!(
        read_input("a\n\nb"),
        vec!["a".to_string(), String::new(), "b".to_string()]
    );
}

#[test]
fn read_input_strips_carriage_return_before_newline() {
    assert_eq!(
        read_input("cat\r\ndog"),
        vec!["cat".to_string(), "dog".to_string()]
    );
    assert_eq!(read_input("cat\r"), vec!["cat\r".to_string()]);
}

#[test]
fn single_entry_list_always_draws_it() {
    for _ in 0..20 {
        assert_eq!(draw_word("solo"), Ok("solo".to_string()));
    }
}

#[test]
fn empty_list_is_refused() {
    assert_eq!(draw_word(""), Err(DataError::EmptyWordList));
}

#[test]
fn drawn_word_comes_from_the_list() {
    let list = "cat\ndog\nbird";
    for _ in 0..20 {
        let word = draw_word(list).unwrap();
        assert!(word == "cat" || word == "dog" || word == "bird");
    }
}
