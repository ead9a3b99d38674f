use dupfi::preview::{is_text_content, Preview};

#[test]
fn test_text_preview() {
    let content = "Hello, world!\nThis is a test.\n";

    let preview = Preview::from_file("preview_sample", content.as_bytes().to_vec());
    match preview {
        Preview::Text(content) => {
            assert!(content.contains("Hello, world!"));
            assert!(content.contains("This is a test."));
        }
        _ => panic!("Expected text preview"),
    }
}

#[test]
fn test_binary_preview() {
    let preview = Preview::from_file("preview_sample", vec![0, 159, 146, 150]);
    match preview {
        Preview::Binary => {}
        _ => panic!("Expected binary preview"),
    }
}

#[test]
fn test_preview_generation() {
    match Preview::from_file("test.txt", b"Hello, world!".to_vec()) {
        Preview::Text(content) => {
            assert_eq!(content, "Hello, world!");
        }
        _ => panic!("Expected text preview"),
    }

    match Preview::from_file("test.bin", vec![0, 1, 2, 3, 4]) {
        Preview::Binary => {}
        _ => panic!("Expected binary preview"),
    }
}

#[test]
fn image_paths_are_recognized_by_extension() {
    let bytes = vec![1u8, 2, 3];
    match Preview::from_file("photos/picture.png", bytes.clone()) {
        Preview::Image(b, ext) => {
            assert_eq!(b, bytes);
            assert_eq!(ext, "png");
        }
        _ => panic!("Expected image preview"),
    }

    match Preview::from_file("notes.txt", b"plain".to_vec()) {
        Preview::Image(_, _) => panic!("a txt path is no image"),
        _ => {}
    }
}

#[test]
fn multibyte_text_decodes_as_utf8() {
    // Two bytes encoding one character.
    match Preview::from_file("word", vec![0xC3, 0xA9]) {
        Preview::Text(content) => {
            assert_eq!(content, "\u{e9}");
            assert_eq!(content.chars().count(), 1);
        }
        _ => panic!("Expected text preview"),
    }
}

#[test]
fn text_looking_but_invalid_utf8_is_binary() {
    // A lone continuation byte is no valid UTF-8, yet not a control byte.
    match Preview::from_file("word", vec![b'a', 0xA9, b'b']) {
        Preview::Binary => {}
        _ => panic!("Expected binary preview"),
    }
}

#[test]
fn text_content_heuristics() {
    assert!(is_text_content(b""));
    assert!(is_text_content(b"ordinary text\nwith lines\r\n\tand tabs"));
    assert!(!is_text_content(&[0, 159, 146, 150]));

    // One zero byte among a hundred: 100 * 1 < 100 fails, so not text.
    let mut hundred = vec![b'a'; 99];
    hundred.push(0);
    assert!(!is_text_content(&hundred));

    // One zero byte among one hundred one: 100 * 1 < 101 holds.
    let mut hundred_one = vec![b'a'; 100];
    hundred_one.push(0);
    assert!(is_text_content(&hundred_one));

    // Stray control characters are tolerated below one in ten: one control
    // byte among ten fails, one among eleven passes.
    let mut controls = vec![b'a'; 9];
    controls.push(1);
    assert!(!is_text_content(&controls));
    let mut controls = vec![b'a'; 10];
    controls.push(1);
    assert!(is_text_content(&controls));
}

#[test]
fn rendering_previews_as_strings() {
    let short = Preview::Text("hello".to_string());
    assert_eq!(short.to_string(), "hello");

    let long_body = "x".repeat(1500);
    let long = Preview::Text(long_body.clone());
    let rendered = long.to_string();
    assert_eq!(rendered.chars().count(), 1003);
    assert!(rendered.ends_with("..."));
    assert!(rendered.starts_with(&long_body[..1000]));

    let image = Preview::Image(vec![1, 2], "png".to_string());
    assert_eq!(image.to_string(), "Image file (png)");

    assert_eq!(Preview::Binary.to_string(), "Binary file");
}
