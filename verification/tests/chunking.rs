use server_manager::client::chunk_message;

#[test]
fn nine_thousand_chars_make_three_chunks() {
    let message: String = std::iter::repeat('x').take(9000).collect();
    let chunks = chunk_message(message.as_str(), 4000);
    assert_eq!(chunks.len(), 3);
    assert_eq!(chunks[0].len(), 4000);
    assert_eq!(chunks[1].len(), 4000);
    assert_eq!(chunks[2].len(), 1000);
    assert_eq!(chunks.concat(), message);
}

#[test]
fn empty_message_sends_nothing() {
    let chunks = chunk_message("", 4000);
    assert_eq!(chunks.len(), 0);
}

#[test]
fn short_message_is_one_chunk() {
    let chunks = chunk_message("hello", 4000);
    assert_eq!(chunks.len(), 1);
    assert_eq!(chunks[0], "hello");
}

#[test]
fn exact_multiple_has_no_trailing_chunk() {
    let message: String = std::iter::repeat('y').take(8000).collect();
    let chunks = chunk_message(message.as_str(), 4000);
    assert_eq!(chunks.len(), 2);
    assert_eq!(chunks[0].len(), 4000);
    assert_eq!(chunks[1].len(), 4000);
}

#[test]
fn chunks_split_by_characters_not_bytes() {
    let message: String = std::iter::repeat('\u{e9}').take(5).collect();
    let chunks = chunk_message(message.as_str(), 2);
    assert_eq!(chunks.len(), 3);
    assert_eq!(chunks[0].chars().count(), 2);
    assert_eq!(chunks[2].chars().count(), 1);
    assert_eq!(chunks.concat(), message);
}
