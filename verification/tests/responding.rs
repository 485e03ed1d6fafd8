use tmux_sessions::parse::{ParseError, TmuxSession};
use tmux_sessions::respond::{
    listing_text, make_result, search_responses, Response, SearchError,
};

#[test]
fn make_result_formats_row() {
    let session = TmuxSession {
        name: String::from("work"),
        windows: 42,
        created_epoch: 0,
    };
    let row = make_result(7, &session, "2023-11-14 22:13:20 UTC");
    assert_eq!(row.id, 7);
    assert_eq!(row.name, "Attach to session: work");
    assert_eq!(row.description, "42 Windows Time: 2023-11-14 22:13:20 UTC");
    assert!(row.icon.is_none());
}

#[test]
fn make_result_large_window_count() {
    let session = TmuxSession {
        name: String::from("big"),
        windows: usize::MAX,
        created_epoch: 0,
    };
    let row = make_result(0, &session, "T");
    assert_eq!(row.description, format!("{} Windows Time: T", usize::MAX));
}

#[test]
fn search_example_listing() {
    let listing = "work:3:1700000000\npersonal:1:1700003600\n";
    let batch = search_responses("anything", listing).unwrap();
    assert_eq!(batch.len(), 3);
    match &batch[0] {
        Response::Append(row) => {
            assert_eq!(row.id, 0);
            assert_eq!(row.name, "Attach to session: work");
            assert!(row.description.starts_with("3 Windows Time: 2023-11-14 22:13:20"));
            assert!(row.icon.is_none());
        }
        Response::Finished => panic!("append expected first"),
    }
    match &batch[1] {
        Response::Append(row) => {
            assert_eq!(row.id, 1);
            assert_eq!(row.name, "Attach to session: personal");
            assert!(row.description.starts_with("1 Windows Time: 2023-11-14 23:13:20"));
        }
        Response::Finished => panic!("append expected second"),
    }
    assert!(matches!(batch[2], Response::Finished));
}

#[test]
fn search_numbers_rows_in_order() {
    let listing = "a:1:0\nb:2:1\nc:3:2";
    let batch = search_responses("", listing).unwrap();
    assert_eq!(batch.len(), 4);
    for (i, response) in batch.iter().enumerate() {
        match response {
            Response::Append(row) => assert_eq!(row.id as usize, i),
            Response::Finished => assert_eq!(i, 3),
        }
    }
}

#[test]
fn search_empty_listing_yields_only_finished() {
    let batch = search_responses("query", "").unwrap();
    assert_eq!(batch.len(), 1);
    assert!(matches!(batch[0], Response::Finished));
}

#[test]
fn search_blank_lines_are_skipped() {
    let batch = search_responses("q", "\n\na:1:0\n\n").unwrap();
    assert_eq!(batch.len(), 2);
    match &batch[0] {
        Response::Append(row) => assert_eq!(row.name, "Attach to session: a"),
        Response::Finished => panic!("append expected"),
    }
    assert!(matches!(batch[1], Response::Finished));
}

#[test]
fn search_names_carry_attach_prefix() {
    let listing = "alpha:1:0\nbeta:2:0\n";
    let batch = search_responses("", listing).unwrap();
    for response in &batch {
        if let Response::Append(row) = response {
            assert!(row.name.starts_with("Attach to session: "));
        }
    }
}

#[test]
fn search_ignores_query_text() {
    let listing = "work:3:1700000000\npersonal:1:1700003600\n";
    let a = search_responses("tmux", listing).unwrap();
    let b = search_responses("completely different query", listing).unwrap();
    assert_eq!(a.len(), b.len());
    for (x, y) in a.iter().zip(b.iter()) {
        match (x, y) {
            (Response::Append(rx), Response::Append(ry)) => {
                assert_eq!(rx.id, ry.id);
                assert_eq!(rx.name, ry.name);
                assert_eq!(rx.description, ry.description);
            }
            (Response::Finished, Response::Finished) => {}
            _ => panic!("batches disagree"),
        }
    }
}

#[test]
fn search_fails_on_malformed_line() {
    let listing = "good:1:0\nonlyonefield\n";
    assert_eq!(
        search_responses("q", listing),
        Err(SearchError::Parse(ParseError::Fields))
    );
    let listing = "name:notanumber:123";
    assert_eq!(
        search_responses("q", listing),
        Err(SearchError::Parse(ParseError::Windows))
    );
}

#[test]
fn search_fails_on_unplaceable_time() {
    // parses as an epoch, but lies far outside any calendar chrono covers
    let listing = "a:1:9223372036854775807";
    assert_eq!(search_responses("q", listing), Err(SearchError::Time));
}

#[test]
fn listing_text_passes_output_through() {
    assert_eq!(listing_text(Some(String::from("a:1:2\n"))), "a:1:2\n");
}

#[test]
fn listing_text_fallback_fails_search() {
    let text = listing_text(None);
    assert_eq!(text, "ERR");
    assert_eq!(
        search_responses("q", &text),
        Err(SearchError::Parse(ParseError::Fields))
    );
}
